//! The server: which connections belong to one client, and how datagrams pass between them and the
//! UDP sockets of that client.
//!
//! A served connection has several directions: one from each UDP socket to the client, and one from
//! the client to the UDP sockets. They share a [`Link`], which sees to it that a handshake packet,
//! where there is one, reaches the client before anything else.
use crate::addr::IpAddr;
use crate::addr::SocketAddr;
use crate::encryption::law_decrypt_undoes_encrypt;
use crate::encryption::law_every_byte_is_hidden;
use crate::encryption::masked;
use crate::encryption::Encryption;
use crate::table::Table;
use vstd::prelude::*;

verus! {

/// The address to bind a socket to that talks to `remote`: any address of the same IP version.
pub fn bind_address(remote: &SocketAddr) -> (addr: SocketAddr)
    ensures
        addr == (SocketAddr {
            ip: if remote.ip is V4 {
                IpAddr::V4(0)
            } else {
                IpAddr::V6(0)
            },
            port: 0,
        }),
{
    if remote.is_ipv4() {
        SocketAddr::new(IpAddr::V4(0), 0)
    } else {
        SocketAddr::new(IpAddr::V6(0), 0)
    }
}

/// What becomes of an accepted connection.
#[derive(Clone, Copy, Debug, PartialEq, Eq, Structural)]
pub enum Admission {
    /// It is the first of a client, which gets UDP sockets of its own.
    First,
    /// It joins a client whose UDP sockets go by this number.
    Join(u64),
    /// It belongs to no client.
    Refuse,
}

/// The UDP sockets of each client, under the address of its first connection.
pub struct Peers {
    addresses: Table<SocketAddr>,
}

impl View for Peers {
    type V = Map<SocketAddr, u64>;

    closed spec fn view(&self) -> Map<SocketAddr, u64> {
        self.addresses@
    }
}

/// What becomes of a connection from `remote` that announces `first_port` as the port of the first
/// connection of its client; 0 if it is the first itself.
pub open spec fn admission(
    peers: Map<SocketAddr, u64>,
    remote: SocketAddr,
    first_port: u16,
) -> Admission {
    let first = SocketAddr { ip: remote.ip, port: first_port };
    if first_port == 0 {
        Admission::First
    } else if peers.contains_key(first) {
        Admission::Join(peers[first])
    } else {
        Admission::Refuse
    }
}

/// The UDP sockets of the client whose first connection is from `remote`.
pub open spec fn known(peers: Map<SocketAddr, u64>, remote: SocketAddr) -> Option<u64> {
    if peers.contains_key(remote) {
        Some(peers[remote])
    } else {
        None
    }
}

impl Peers {
    pub fn new() -> (peers: Peers)
        ensures
            peers@ == Map::<SocketAddr, u64>::empty(),
    {
        Peers { addresses: Table::new() }
    }

    /// Says what becomes of an accepted connection.
    pub fn classify(&self, remote: &SocketAddr, first_port: u16) -> (r: Admission)
        ensures
            r == admission(self@, *remote, first_port),
    {
        if first_port == 0 {
            return Admission::First;
        }
        let first = SocketAddr::new(remote.ip, first_port);
        match self.addresses.get(&first) {
            Some(sockets) => Admission::Join(sockets),
            None => Admission::Refuse,
        }
    }

    /// Remembers the UDP sockets of a client, and gives those that it had before.
    pub fn insert(&mut self, remote: SocketAddr, sockets: u64) -> (before: Option<u64>)
        ensures
            final(self)@ == old(self)@.insert(remote, sockets),
            before == known(old(self)@, remote),
    {
        let before: Option<u64> = self.addresses.get(&remote);
        self.addresses.insert(remote, sockets);
        before
    }

    /// Forgets a client, and gives the UDP sockets that it had.
    pub fn remove(&mut self, remote: &SocketAddr) -> (before: Option<u64>)
        ensures
            final(self)@ == old(self)@.remove(*remote),
            before == known(old(self)@, *remote),
    {
        let before: Option<u64> = self.addresses.get(remote);
        self.addresses.remove(remote);
        before
    }

    /// Takes note that a served connection from `remote`, which had announced `first_port`, is
    /// over. With the first connection of a client the client is forgotten, and its UDP sockets are
    /// given; any other connection takes nothing with it.
    pub fn closed(&mut self, remote: &SocketAddr, first_port: u16) -> (gone: Option<u64>)
        ensures
            final(self)@ == if first_port == 0 {
                old(self)@.remove(*remote)
            } else {
                old(self)@
            },
            gone == if first_port == 0 {
                known(old(self)@, *remote)
            } else {
                None
            },
    {
        if first_port == 0 {
            self.remove(remote)
        } else {
            None
        }
    }
}

/// A connection that announces the port of the first connection of its client joins that client,
/// as long as the client is remembered, and is refused afterwards.
pub proof fn law_client_grows(
    peers: Map<SocketAddr, u64>,
    first: SocketAddr,
    sockets: u64,
    port: u16,
)
    requires
        first.port != 0,
    ensures
        ({
            let later = SocketAddr { ip: first.ip, port };
            let known = peers.insert(first, sockets);
            &&& admission(known, later, first.port) == Admission::Join(sockets)
            &&& admission(known.remove(first), later, first.port) == Admission::Refuse
        }),
{
}

/// What happens to one direction of a connection.
#[derive(Clone, Copy, Debug, PartialEq, Eq, Structural)]
pub enum LinkEvent {
    /// The connection is to be given up.
    Cancelled,
    /// The side that datagrams come from is gone.
    Lost,
    /// A datagram arrived, or one that was held may be tried again.
    Arrived,
    /// What was last asked for was sent, or could not be.
    Sent(bool),
    /// Another direction of the connection passed a datagram on.
    Activity,
}

/// What one direction of a connection asks for.
#[derive(Clone, Copy, Debug, PartialEq, Eq, Structural)]
pub enum LinkAction {
    /// Give the connection up.
    Stop,
    /// Wait for the next event.
    Wait,
    /// Keep the datagram until the handshake packet has been sent, and try it again.
    Hold,
    /// Tell the other directions that a datagram passed, and wait for the next event.
    Notify,
    /// Send the handshake packet to the client, and report the outcome.
    SendHandshake,
    /// Send the datagram to the client, and report the outcome.
    SendTcp,
    /// Send the datagram through the UDP socket with this index, and report the outcome.
    SendUdp(usize),
}

/// How far the handshake packet has come.
#[derive(Clone, Copy, Debug, PartialEq, Eq, Structural)]
pub enum Handshake {
    /// It is still due: nothing has been sent to the client.
    Due,
    /// It is on its way; nothing else is sent to the client.
    Sending,
    /// It has been sent, or there is none.
    Done,
}

/// What the directions of one connection share.
#[derive(Clone, Copy, Debug, PartialEq, Eq, Structural)]
pub struct Link {
    pub handshake: Handshake,
    /// Whether the first payload of the client, which asks for the handshake packet and goes no
    /// further, is still to come.
    pub expecting: bool,
}

impl Link {
    /// Starts; `handshake` says whether there is a handshake packet.
    pub fn new(handshake: bool) -> (link: Link)
        ensures
            link == Link::fresh(handshake),
    {
        let stage = if handshake {
            Handshake::Due
        } else {
            Handshake::Done
        };
        Link { handshake: stage, expecting: handshake }
    }

    pub open spec fn fresh(handshake: bool) -> Link {
        Link {
            handshake: if handshake {
                Handshake::Due
            } else {
                Handshake::Done
            },
            expecting: handshake,
        }
    }
}

/// A datagram as it is after hiding or showing it, if there is an encryption.
pub open spec fn processed(encryption: Option<Encryption>, data: Seq<u8>) -> Seq<u8> {
    match encryption {
        Some(e) => masked(e@, data),
        None => data,
    }
}

/// A datagram that is hidden on one side is shown again on the other, if both use the same
/// encryption, or none.
pub proof fn law_datagrams_are_shown(encryption: Option<Encryption>, data: Seq<u8>)
    ensures
        processed(encryption, processed(encryption, data)) == data,
{
    if let Some(e) = encryption {
        law_decrypt_undoes_encrypt(e@, data);
    }
}

/// The state of passing datagrams from one UDP socket to the client.
#[derive(Clone, Copy, Debug, PartialEq, Eq, Structural)]
pub struct Uplink {
    /// Whether this direction sends the handshake packet, with a datagram waiting behind it.
    pub answering: bool,
}

impl Uplink {
    /// How it goes on. A datagram that arrives while the handshake packet is due waits until that
    /// has been sent, by this direction or by another one.
    pub open spec fn step(self, link: Link, event: LinkEvent) -> (Uplink, Link, LinkAction) {
        match event {
            LinkEvent::Cancelled | LinkEvent::Lost | LinkEvent::Sent(false) => (
                self,
                link,
                LinkAction::Stop,
            ),
            LinkEvent::Arrived => match link.handshake {
                Handshake::Due => (
                    Uplink { answering: true },
                    Link { handshake: Handshake::Sending, ..link },
                    LinkAction::SendHandshake,
                ),
                Handshake::Sending => (self, link, LinkAction::Hold),
                Handshake::Done => (self, link, LinkAction::SendTcp),
            },
            LinkEvent::Sent(true) => if self.answering {
                (
                    Uplink { answering: false },
                    Link { handshake: Handshake::Done, ..link },
                    LinkAction::SendTcp,
                )
            } else {
                (self, link, LinkAction::Notify)
            },
            LinkEvent::Activity => (self, link, LinkAction::Wait),
        }
    }

    pub fn new() -> (up: Uplink)
        ensures
            up == (Uplink { answering: false }),
    {
        Uplink { answering: false }
    }
}

/// Goes on with passing datagrams from a UDP socket to the client. `data` is the datagram that
/// arrived; it is hidden before it is sent, and not before.
pub fn uplink(
    up: &mut Uplink,
    link: &mut Link,
    encryption: &Option<Encryption>,
    data: &mut [u8],
    event: LinkEvent,
) -> (action: LinkAction)
    ensures
        (*final(up), *final(link), action) == old(up).step(*old(link), event),
        final(data)@ == if action is SendTcp {
            processed(*encryption, old(data)@)
        } else {
            old(data)@
        },
{
    match event {
        LinkEvent::Cancelled | LinkEvent::Lost | LinkEvent::Sent(false) => LinkAction::Stop,
        LinkEvent::Arrived => match link.handshake {
            Handshake::Due => {
                up.answering = true;
                link.handshake = Handshake::Sending;
                LinkAction::SendHandshake
            },
            Handshake::Sending => LinkAction::Hold,
            Handshake::Done => {
                if let Some(e) = encryption {
                    e.encrypt(data);
                }
                LinkAction::SendTcp
            },
        },
        LinkEvent::Sent(true) => if up.answering {
            up.answering = false;
            link.handshake = Handshake::Done;
            if let Some(e) = encryption {
                e.encrypt(data);
            }
            LinkAction::SendTcp
        } else {
            LinkAction::Notify
        },
        LinkEvent::Activity => LinkAction::Wait,
    }
}

/// The state of passing datagrams from the client to its UDP sockets.
#[derive(Clone, Copy, Debug, PartialEq, Eq, Structural)]
pub struct Downlink {
    /// Whether this direction sends the handshake packet.
    pub answering: bool,
    /// The UDP socket that was used last.
    pub udp_sock_index: usize,
    /// How many UDP sockets the client has.
    pub udp_socks: usize,
}

impl Downlink {
    pub open spec fn wf(self) -> bool {
        self.udp_sock_index < self.udp_socks
    }

    /// How it goes on. Where there is a handshake packet, the first payload goes no further; it is
    /// answered with that packet, if the packet is still due. The other payloads go to the UDP
    /// sockets in turn.
    pub open spec fn step(self, link: Link, event: LinkEvent) -> (Downlink, Link, LinkAction) {
        match event {
            LinkEvent::Cancelled | LinkEvent::Lost | LinkEvent::Sent(false) => (
                self,
                link,
                LinkAction::Stop,
            ),
            LinkEvent::Arrived => if link.expecting {
                if link.handshake is Due {
                    (
                        Downlink { answering: true, ..self },
                        Link { handshake: Handshake::Sending, expecting: false },
                        LinkAction::SendHandshake,
                    )
                } else {
                    (self, Link { expecting: false, ..link }, LinkAction::Wait)
                }
            } else {
                let next = ((self.udp_sock_index + 1) % self.udp_socks as int) as usize;
                (Downlink { udp_sock_index: next, ..self }, link, LinkAction::SendUdp(next))
            },
            LinkEvent::Sent(true) => if self.answering {
                (
                    Downlink { answering: false, ..self },
                    Link { handshake: Handshake::Done, ..link },
                    LinkAction::Wait,
                )
            } else {
                (self, link, LinkAction::Notify)
            },
            LinkEvent::Activity => (self, link, LinkAction::Wait),
        }
    }

    /// Starts for a client with `udp_socks` UDP sockets.
    pub fn new(udp_socks: usize) -> (down: Downlink)
        requires
            udp_socks > 0,
        ensures
            down == (Downlink { answering: false, udp_sock_index: 0, udp_socks }),
            down.wf(),
    {
        Downlink { answering: false, udp_sock_index: 0, udp_socks }
    }

    /// Goes on with passing datagrams. `data` is the datagram that arrived; it is shown before it
    /// is sent.
    pub fn advance(
        &mut self,
        link: &mut Link,
        encryption: &Option<Encryption>,
        data: &mut [u8],
        event: LinkEvent,
    ) -> (action: LinkAction)
        requires
            old(self).wf(),
        ensures
            final(self).wf(),
            (*final(self), *final(link), action) == old(self).step(*old(link), event),
            final(data)@ == if action is SendUdp {
                processed(*encryption, old(data)@)
            } else {
                old(data)@
            },
    {
        match event {
            LinkEvent::Cancelled | LinkEvent::Lost | LinkEvent::Sent(false) => LinkAction::Stop,
            LinkEvent::Arrived => {
                if link.expecting {
                    link.expecting = false;
                    return match link.handshake {
                        Handshake::Due => {
                            self.answering = true;
                            link.handshake = Handshake::Sending;
                            LinkAction::SendHandshake
                        },
                        _ => LinkAction::Wait,
                    };
                }
                if let Some(e) = encryption {
                    e.decrypt(data);
                }
                self.udp_sock_index = (self.udp_sock_index + 1) % self.udp_socks;
                LinkAction::SendUdp(self.udp_sock_index)
            },
            LinkEvent::Sent(true) => if self.answering {
                self.answering = false;
                link.handshake = Handshake::Done;
                LinkAction::Wait
            } else {
                LinkAction::Notify
            },
            LinkEvent::Activity => LinkAction::Wait,
        }
    }
}

/// What passing `n` datagrams on leads to.
pub open spec fn passed(down: Downlink, link: Link, n: nat) -> Downlink
    decreases n,
{
    if n == 0 {
        down
    } else {
        passed(down, link, (n - 1) as nat).step(link, LinkEvent::Arrived).0
    }
}

/// The UDP sockets take turns, round and round: after `n` datagrams, the next one goes through the
/// socket `n + 1` further than the start.
pub proof fn law_sockets_take_turns(down: Downlink, link: Link, n: nat)
    requires
        down.wf(),
        !link.expecting,
    ensures
        passed(down, link, n).wf(),
        passed(down, link, n).udp_socks == down.udp_socks,
        passed(down, link, n).udp_sock_index == (down.udp_sock_index + n) % down.udp_socks as int,
        passed(down, link, n).step(link, LinkEvent::Arrived).2 matches LinkAction::SendUdp(i) && i
            == (down.udp_sock_index + n + 1) % down.udp_socks as int,
    decreases n,
{
    let k = down.udp_socks as int;
    vstd::arithmetic::div_mod::lemma_add_mod_noop_right(1, down.udp_sock_index + n, k);
    vstd::arithmetic::div_mod::lemma_mod_bound(down.udp_sock_index + n + 1, k);
    if n == 0 {
        vstd::arithmetic::div_mod::lemma_small_mod(down.udp_sock_index as nat, k as nat);
    } else {
        law_sockets_take_turns(down, link, (n - 1) as nat);
        vstd::arithmetic::div_mod::lemma_add_mod_noop(down.udp_sock_index + n - 1, 1, k);
        vstd::arithmetic::div_mod::lemma_mod_bound(down.udp_sock_index + n, k);
        vstd::arithmetic::div_mod::lemma_add_mod_noop((down.udp_sock_index + n - 1) % k, 1, k);
        vstd::arithmetic::div_mod::lemma_mod_twice(down.udp_sock_index + n - 1, k);
    }
}

/// One direction of a connection.
pub enum Direction {
    /// From the UDP socket with this index to the client.
    Up(int),
    /// From the client to the UDP sockets.
    Down,
}

/// A served connection: all its directions, and what they share.
pub struct Served {
    pub link: Link,
    pub ups: Seq<Uplink>,
    pub down: Downlink,
}

impl Served {
    /// A connection with `udp_socks` UDP sockets at its start.
    pub open spec fn fresh(handshake: bool, udp_socks: usize) -> Served {
        Served {
            link: Link::fresh(handshake),
            ups: Seq::new(udp_socks as nat, |i: int| Uplink { answering: false }),
            down: Downlink { answering: false, udp_sock_index: 0, udp_socks },
        }
    }

    /// Whether there is such a direction.
    pub open spec fn has(self, at: Direction) -> bool {
        match at {
            Direction::Up(i) => 0 <= i < self.ups.len(),
            Direction::Down => true,
        }
    }

    /// Whether a direction sends the handshake packet.
    pub open spec fn answering(self, at: Direction) -> bool {
        match at {
            Direction::Up(i) => self.ups[i].answering,
            Direction::Down => self.down.answering,
        }
    }

    /// What an event of one direction leads to.
    pub open spec fn step(self, at: Direction, event: LinkEvent) -> (Served, LinkAction) {
        match at {
            Direction::Up(i) => {
                let (up, link, action) = self.ups[i].step(self.link, event);
                (Served { link, ups: self.ups.update(i, up), ..self }, action)
            },
            Direction::Down => {
                let (down, link, action) = self.down.step(self.link, event);
                (Served { link, down, ..self }, action)
            },
        }
    }

    /// What a series of events leads to.
    pub open spec fn after(self, events: Seq<(Direction, LinkEvent)>) -> Served
        decreases events.len(),
    {
        if events.len() == 0 {
            self
        } else {
            let (at, event) = events.last();
            self.after(events.drop_last()).step(at, event).0
        }
    }

    /// What is asked for at the event number `i` of a series.
    pub open spec fn action(self, events: Seq<(Direction, LinkEvent)>, i: int) -> LinkAction {
        self.after(events.take(i)).step(events[i].0, events[i].1).1
    }
}

/// Whether something is to be sent to the client.
pub open spec fn sends(action: LinkAction) -> bool {
    action is SendHandshake || action is SendTcp
}

/// Whether only one direction sends the handshake packet, and none but while it is on its way.
spec fn orderly(now: Served) -> bool {
    &&& forall|at: Direction|
        now.has(at) && #[trigger] now.answering(at) ==> now.link.handshake is Sending
    &&& forall|a: Direction, b: Direction|
        now.has(a) && now.has(b) && #[trigger] now.answering(a) && #[trigger] now.answering(b)
            ==> a == b
}

proof fn lemma_orderly_step(now: Served, at: Direction, event: LinkEvent)
    requires
        orderly(now),
        now.has(at),
    ensures
        ({
            let (next, action) = now.step(at, event);
            &&& orderly(next)
            &&& next.ups.len() == now.ups.len()
            &&& match now.link.handshake {
                Handshake::Due => if action is SendHandshake {
                    next.link.handshake is Sending && next.answering(at)
                } else {
                    next.link.handshake is Due && !sends(action)
                },
                Handshake::Sending => {
                    &&& !(action is SendHandshake)
                    &&& if next.link.handshake is Sending {
                        &&& !sends(action)
                        &&& forall|d: Direction| now.has(d) ==> #[trigger] next.answering(d)
                            == now.answering(d)
                    } else {
                        &&& next.link.handshake is Done
                        &&& now.answering(at)
                        &&& event == LinkEvent::Sent(true)
                    }
                },
                Handshake::Done => next.link.handshake is Done && !(action is SendHandshake),
            }
        }),
{
    let (next, action) = now.step(at, event);
    assert forall|d: Direction| now.has(d) && d != at implies #[trigger] next.answering(d)
        == now.answering(d) by {}
    assert(now.answering(at) ==> now.link.handshake is Sending);
    assert forall|d: Direction| next.has(d) && #[trigger] next.answering(d) implies
        next.link.handshake is Sending by {
        assert(d != at ==> now.answering(d));
        assert(now.answering(at) && now.answering(d) ==> d == at);
    }
    assert forall|a: Direction, b: Direction|
        next.has(a) && next.has(b) && #[trigger] next.answering(a) && #[trigger] next.answering(
            b,
        ) implies a == b by {
        assert(a != at ==> now.answering(a));
        assert(b != at ==> now.answering(b));
        assert(now.answering(a) && now.answering(b) ==> a == b);
        assert(now.answering(a) && now.answering(at) ==> a == at);
        assert(now.answering(b) && now.answering(at) ==> b == at);
    }
}

impl Served {
    /// Whether nothing is asked to be sent to the client before the event number `n`, but at `j`.
    pub open spec fn silent_but(
        self,
        events: Seq<(Direction, LinkEvent)>,
        n: int,
        j: int,
    ) -> bool {
        forall|i: int| 0 <= i < n && i != j ==> !sends(#[trigger] self.action(events, i))
    }

    /// Whether the handshake packet was asked for at the event number `j`, before anything else that
    /// is sent to the client, and reported as sent at the event number `k`, until when nothing else
    /// was.
    pub open spec fn greeted(
        self,
        events: Seq<(Direction, LinkEvent)>,
        j: int,
        k: int,
    ) -> bool {
        &&& 0 <= j < k < events.len()
        &&& self.action(events, j) is SendHandshake
        &&& events[k] == (events[j].0, LinkEvent::Sent(true))
        &&& self.silent_but(events, k, j)
    }
}

/// What has been asked for so far, by how far the handshake packet has come.
spec fn told_so_far(start: Served, events: Seq<(Direction, LinkEvent)>, n: int) -> bool {
    let now = start.after(events.take(n));
    match now.link.handshake {
        Handshake::Due => start.silent_but(events, n, n),
        Handshake::Sending => exists|j: int|
            0 <= j < n && start.action(events, j) is SendHandshake && now.answering(events[j].0)
                && #[trigger] start.silent_but(events, n, j),
        Handshake::Done => exists|j: int, k: int| k < n && #[trigger] start.greeted(events, j, k),
    }
}

proof fn lemma_told_so_far(udp_socks: usize, events: Seq<(Direction, LinkEvent)>, n: int)
    requires
        0 <= n <= events.len(),
        forall|i: int|
            0 <= i < events.len() ==> Served::fresh(true, udp_socks).has(#[trigger] events[i].0),
    ensures
        ({
            let start = Served::fresh(true, udp_socks);
            &&& orderly(start.after(events.take(n)))
            &&& start.after(events.take(n)).ups.len() == udp_socks
            &&& told_so_far(start, events, n)
        }),
    decreases n,
{
    let start = Served::fresh(true, udp_socks);
    if n == 0 {
        assert(events.take(0) =~= Seq::empty());
    } else {
        let m = n - 1;
        lemma_told_so_far(udp_socks, events, m);
        let before = start.after(events.take(m));
        let now = start.after(events.take(n));
        let (at, event) = events[m];
        assert(events.take(n).drop_last() =~= events.take(m));
        assert(events.take(n).last() == events[m]);
        assert(now == before.step(at, event).0);
        assert(start.action(events, m) == before.step(at, event).1);
        assert(start.has(events[m].0));
        lemma_orderly_step(before, at, event);
        match before.link.handshake {
            Handshake::Due => {
                if start.action(events, m) is SendHandshake {
                    assert(start.silent_but(events, n, m));
                } else {
                    assert(start.silent_but(events, n, n));
                }
            },
            Handshake::Sending => {
                let j = choose|j: int|
                    0 <= j < m && start.action(events, j) is SendHandshake && before.answering(
                        events[j].0,
                    ) && #[trigger] start.silent_but(events, m, j);
                assert(start.has(events[j].0));
                if now.link.handshake is Sending {
                    assert(now.answering(events[j].0));
                    assert(start.silent_but(events, n, j));
                } else {
                    assert(at == events[j].0);
                    assert(start.greeted(events, j, m));
                }
            },
            Handshake::Done => {
                let (j, k) = choose|j: int, k: int|
                    k < m && #[trigger] start.greeted(events, j, k);
                assert(start.greeted(events, j, k));
            },
        }
    }
}

/// The handshake packet is the first thing that the client is sent, in whatever order the events of
/// all directions come. Where there is one, what is asked to be sent to the client at the event
/// number `i` is either that packet, and nothing was asked for before it; or a datagram, and that
/// packet had then been asked for before anything else and, by now, reported as sent.
pub proof fn law_handshake_comes_first(
    udp_socks: usize,
    events: Seq<(Direction, LinkEvent)>,
    i: int,
)
    requires
        forall|k: int|
            0 <= k < events.len() ==> Served::fresh(true, udp_socks).has(#[trigger] events[k].0),
        0 <= i < events.len(),
        sends(Served::fresh(true, udp_socks).action(events, i)),
    ensures
        ({
            let start = Served::fresh(true, udp_socks);
            if start.action(events, i) is SendHandshake {
                start.silent_but(events, i, i)
            } else {
                exists|j: int, k: int| k <= i && #[trigger] start.greeted(events, j, k)
            }
        }),
{
    let start = Served::fresh(true, udp_socks);
    lemma_told_so_far(udp_socks, events, i);
    lemma_told_so_far(udp_socks, events, i + 1);
    let before = start.after(events.take(i));
    let now = start.after(events.take(i + 1));
    assert(events.take(i + 1).drop_last() =~= events.take(i));
    assert(events.take(i + 1).last() == events[i]);
    assert(now == before.step(events[i].0, events[i].1).0);
    assert(start.has(events[i].0));
    lemma_orderly_step(before, events[i].0, events[i].1);
    if !(start.action(events, i) is SendHandshake) {
        assert(now.link.handshake is Done);
        let (j, k) = choose|j: int, k: int| k < i + 1 && #[trigger] start.greeted(events, j, k);
        assert(start.greeted(events, j, k));
    }
}

/// The handshake packet is sent at most once, and never where there is none, in whatever order the
/// events of all directions come.
pub proof fn law_handshake_once(
    handshake: bool,
    udp_socks: usize,
    events: Seq<(Direction, LinkEvent)>,
    i: int,
    j: int,
)
    requires
        forall|k: int|
            0 <= k < events.len() ==> Served::fresh(handshake, udp_socks).has(
                #[trigger] events[k].0,
            ),
        0 <= i <= j < events.len(),
        Served::fresh(handshake, udp_socks).action(events, i) is SendHandshake,
        Served::fresh(handshake, udp_socks).action(events, j) is SendHandshake,
    ensures
        handshake,
        i == j,
{
    if handshake {
        law_handshake_comes_first(udp_socks, events, j);
    } else {
        lemma_no_handshake(udp_socks, events, i);
    }
}

proof fn lemma_no_handshake(udp_socks: usize, events: Seq<(Direction, LinkEvent)>, n: int)
    requires
        0 <= n <= events.len(),
    ensures
        Served::fresh(false, udp_socks).after(events.take(n)).link.handshake is Done,
    decreases n,
{
    let start = Served::fresh(false, udp_socks);
    if n == 0 {
        assert(events.take(0) =~= Seq::empty());
    } else {
        lemma_no_handshake(udp_socks, events, n - 1);
        assert(events.take(n).drop_last() =~= events.take(n - 1));
        assert(events.take(n).last() == events[n - 1]);
    }
}

/// The first payload of the client goes no further where there is a handshake packet: it is either
/// answered with that packet or swallowed, and no later payload is.
pub proof fn law_first_payload_is_swallowed(down: Downlink, link: Link)
    ensures
        ({
            let (after, next, action) = down.step(link, LinkEvent::Arrived);
            &&& link.expecting ==> (action == if link.handshake is Due {
                LinkAction::SendHandshake
            } else {
                LinkAction::Wait
            })
            &&& !link.expecting ==> action is SendUdp
            &&& !next.expecting
        }),
{
}

/// A connection that announces no port is the first of its client. Any other joins the client that is
/// remembered under its own address with the announced port, and is refused only if there is none.
pub proof fn law_admission(peers: Map<SocketAddr, u64>, remote: SocketAddr, first_port: u16)
    ensures
        admission(peers, remote, first_port) is First <==> first_port == 0,
        admission(peers, remote, first_port) is Refuse <==> first_port != 0
            && !peers.contains_key(SocketAddr { ip: remote.ip, port: first_port }),
        admission(peers, remote, first_port) matches Admission::Join(n) ==> peers.contains_pair(
            SocketAddr { ip: remote.ip, port: first_port },
            n,
        ),
        known(peers, remote) is Some <==> peers.contains_key(remote),
        known(peers, remote) matches Some(n) ==> peers.contains_pair(remote, n),
{
}

/// Every byte of a datagram is hidden or shown with its byte of the key, if there is an encryption;
/// else the datagram stays as it is.
pub proof fn law_processing(encryption: Option<Encryption>, data: Seq<u8>, i: int)
    requires
        0 <= i < data.len(),
    ensures
        processed(encryption, data).len() == data.len(),
        encryption matches Some(e) ==> processed(encryption, data)[i] ^ data[i] == e@[i
            % e@.len() as int],
        encryption is None ==> processed(encryption, data) == data,
{
    if let Some(e) = encryption {
        law_every_byte_is_hidden(e@, data, i);
    }
}

/// How one direction to the client goes on. It stops when the connection is given up, its source is
/// lost or something could not be sent, and at nothing else. It passes every datagram on, once the
/// handshake packet is sent or if there is none; holds it while that packet is on its way; and sends
/// that packet first if it is due. Once that is sent the datagram follows, and once a datagram is
/// sent the others are told.
pub proof fn law_uplink(up: Uplink, link: Link, event: LinkEvent)
    ensures
        ({
            let (next, after, action) = up.step(link, event);
            &&& action is Stop <==> event is Cancelled || event is Lost || event
                == LinkEvent::Sent(false)
            &&& action is SendHandshake <==> event is Arrived && link.handshake is Due
            &&& action is Hold <==> event is Arrived && link.handshake is Sending
            &&& action is SendTcp <==> (event is Arrived && link.handshake is Done) || (event
                == LinkEvent::Sent(true) && up.answering)
            &&& action is Notify <==> event == LinkEvent::Sent(true) && !up.answering
            &&& action is Wait <==> event is Activity
            &&& action is SendHandshake ==> next.answering && after.handshake is Sending
            &&& event == LinkEvent::Sent(true) && up.answering ==> !next.answering
                && after.handshake is Done
            &&& !(action is SendHandshake) && !(event == LinkEvent::Sent(true) && up.answering)
                ==> next == up && after == link
            &&& after.expecting == link.expecting
        }),
{
}

/// How the direction from the client goes on. It stops for the same reasons as the others. It passes
/// every payload on but the first one where there is a handshake packet; that one is answered with
/// the packet if the packet is due. It tells the others once a payload is sent.
pub proof fn law_downlink(down: Downlink, link: Link, event: LinkEvent)
    ensures
        ({
            let (next, after, action) = down.step(link, event);
            &&& action is Stop <==> event is Cancelled || event is Lost || event
                == LinkEvent::Sent(false)
            &&& action is SendUdp <==> event is Arrived && !link.expecting
            &&& action is SendHandshake <==> event is Arrived && link.expecting
                && link.handshake is Due
            &&& action is Notify <==> event == LinkEvent::Sent(true) && !down.answering
            &&& !(action is SendTcp) && !(action is Hold)
            &&& event is Arrived ==> !after.expecting
            &&& !(event is Arrived) ==> after.expecting == link.expecting
            &&& action is SendHandshake ==> next.answering && after.handshake is Sending
            &&& event == LinkEvent::Sent(true) && down.answering ==> !next.answering
                && after.handshake is Done
            &&& !(action is SendHandshake) && !(event == LinkEvent::Sent(true) && down.answering)
                ==> next.answering == down.answering && after.handshake == link.handshake
            &&& next.udp_socks == down.udp_socks
            &&& !(action is SendUdp) ==> next.udp_sock_index == down.udp_sock_index
        }),
{
}

/// How many payloads of the client were passed on before the event number `n` of a series.
pub open spec fn passed_on(start: Served, events: Seq<(Direction, LinkEvent)>, n: nat) -> nat
    decreases n,
{
    if n == 0 {
        0
    } else {
        passed_on(start, events, (n - 1) as nat) + if start.action(events, n - 1) is SendUdp {
            1nat
        } else {
            0
        }
    }
}

proof fn lemma_passed_on(
    handshake: bool,
    udp_socks: usize,
    events: Seq<(Direction, LinkEvent)>,
    n: nat,
)
    requires
        udp_socks > 0,
        n <= events.len(),
    ensures
        ({
            let start = Served::fresh(handshake, udp_socks);
            let now = start.after(events.take(n as int));
            &&& now.down.udp_socks == udp_socks
            &&& now.down.udp_sock_index == passed_on(start, events, n) as int % udp_socks as int
            &&& now.link.expecting <==> handshake && forall|j: int|
                0 <= j < n ==> #[trigger] events[j] != (Direction::Down, LinkEvent::Arrived)
        }),
    decreases n,
{
    let start = Served::fresh(handshake, udp_socks);
    let k = udp_socks as int;
    if n == 0 {
        assert(events.take(0) =~= Seq::empty());
        vstd::arithmetic::div_mod::lemma_small_mod(0, k as nat);
    } else {
        let m = (n - 1) as nat;
        lemma_passed_on(handshake, udp_socks, events, m);
        let before = start.after(events.take(m as int));
        let (at, event) = events[m as int];
        assert(events.take(n as int).drop_last() =~= events.take(m as int));
        assert(events.take(n as int).last() == events[m as int]);
        assert(start.action(events, m as int) == before.step(at, event).1);
        let c = passed_on(start, events, m) as int;
        vstd::arithmetic::div_mod::lemma_add_mod_noop_right(1, c, k);
        vstd::arithmetic::div_mod::lemma_mod_bound(c + 1, k);
        assert(events[m as int] == (Direction::Down, LinkEvent::Arrived) <==> at is Down
            && event is Arrived);
    }
}

/// The UDP sockets take turns, in whatever order the events of all directions come: the payload that is
/// passed on after `c` others goes through the socket number `c + 1`, modulo the number of sockets.
pub proof fn law_payloads_take_turns(
    handshake: bool,
    udp_socks: usize,
    events: Seq<(Direction, LinkEvent)>,
    i: int,
)
    requires
        udp_socks > 0,
        0 <= i < events.len(),
    ensures
        ({
            let start = Served::fresh(handshake, udp_socks);
            start.action(events, i) matches LinkAction::SendUdp(k) ==> k == (passed_on(
                start,
                events,
                i as nat,
            ) as int + 1) % udp_socks as int
        }),
{
    let start = Served::fresh(handshake, udp_socks);
    let k = udp_socks as int;
    let c = passed_on(start, events, i as nat) as int;
    lemma_passed_on(handshake, udp_socks, events, i as nat);
    vstd::arithmetic::div_mod::lemma_add_mod_noop_right(1, c, k);
    vstd::arithmetic::div_mod::lemma_mod_bound(c + 1, k);
}

/// Every payload of the client is passed on, in whatever order the events of all directions come,
/// except the first one where there is a handshake packet.
pub proof fn law_payloads_are_passed_on(
    handshake: bool,
    udp_socks: usize,
    events: Seq<(Direction, LinkEvent)>,
    i: int,
)
    requires
        udp_socks > 0,
        0 <= i < events.len(),
        events[i] == (Direction::Down, LinkEvent::Arrived),
    ensures
        Served::fresh(handshake, udp_socks).action(events, i) is SendUdp <==> !handshake
            || exists|j: int|
            0 <= j < i && #[trigger] events[j] == (Direction::Down, LinkEvent::Arrived),
{
    lemma_passed_on(handshake, udp_socks, events, i as nat);
}

/// Where there is no handshake packet, every datagram for the client is sent at once, in whatever order
/// the events of all directions come.
pub proof fn law_nothing_is_held_without_handshake(
    udp_socks: usize,
    events: Seq<(Direction, LinkEvent)>,
    i: int,
)
    requires
        0 <= i < events.len(),
        events[i].0 is Up,
        events[i].1 is Arrived,
    ensures
        Served::fresh(false, udp_socks).action(events, i) is SendTcp,
{
    lemma_no_handshake(udp_socks, events, i);
}

} // verus!
