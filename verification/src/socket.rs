//! One TCP connection: its handshakes, its datagrams and its keepalives.
//!
//! Nothing here waits or talks to a device. Each step of a connection takes what happened, and
//! says what to do next; packets to send are built in the caller's buffer.
use crate::addr::AddrTuple;
use crate::addr::SocketAddr;
use crate::bytes::patch;
use crate::bytes::write_slice;
use crate::packet::buildable;
use crate::packet::build_tcp_packet;
use crate::packet::bytes_of;
use crate::packet::parse_ip_packet;
use crate::packet::parsed;
use crate::packet::tcp_packet;
use crate::packet::Segment;
use crate::packet::SegmentView;
use crate::packet::ACK;
use crate::packet::RST;
use crate::packet::SYN;
use crate::packet::SYN_ACK;
use vstd::prelude::*;
use vstd::string::*;

verus! {

/// How many seconds a peer may be silent before it is asked whether it is still there, and how
/// long a handshake waits for an answer.
pub const TIMEOUT: u64 = 3;

/// How many times a silent peer is asked before its connection counts as broken.
pub const RETRIES: u8 = 3;

/// How many seconds a connection lives where the stack sets no limit: one year.
pub const LIFETIME: u64 = 31_536_000;

#[derive(Clone, Copy, Debug, PartialEq, Eq, Structural)]
pub enum State {
    Idle,
    SynSent,
    SynReceived,
    Established,
}

/// A TCP connection between a server and a client.
#[derive(Debug)]
pub struct Socket {
    /// The queue of the device that the connection sends through.
    pub tun: usize,
    /// The channel on which the stack hands over the packets of the connection.
    pub incoming: u64,
    pub local_addr: SocketAddr,
    pub remote_addr: SocketAddr,
    pub seq: u32,
    pub ack: u32,
    pub state: State,
    /// How many seconds after its creation the connection stops receiving.
    pub lifetime: u64,
}

/// What a step of a connection asks for.
#[derive(Clone, Copy, Debug, PartialEq, Eq, Structural)]
pub enum Action {
    /// Send the first bytes of the buffer, as many as the number says, and report the outcome.
    Transmit(usize),
    /// Wait for the next event.
    Wait,
    /// The handshake is complete; the number is the port that the other end announced.
    Connected(u16),
    /// A datagram of that size stands at the start of the buffer.
    Received(usize),
    /// The connection is lost and has to be closed.
    Broken,
}

/// `Action` with the bytes it speaks of.
pub enum Step {
    Transmit(Seq<u8>),
    Wait,
    Connected(u16),
    Received(Seq<u8>),
    Broken,
}

/// What happens to a connection.
pub enum Event<'a> {
    /// The handshake begins.
    Start,
    /// The packet last asked for was sent, or could not be.
    Sent(bool),
    /// A packet of the connection arrived.
    Packet(&'a [u8]),
    /// The channel of the connection was closed.
    Closed,
    /// Nothing arrived for `TIMEOUT` seconds.
    TimedOut,
    /// The lifetime of the connection is over.
    Deadline,
}

/// How far a wait for a datagram has come.
#[derive(Clone, Copy, Debug, PartialEq, Eq, Structural)]
pub struct Waiting {
    /// How many times the peer left a keepalive unanswered.
    pub retries: u8,
    /// Whether a keepalive is on its way.
    pub seq_sent: bool,
}

impl Step {
    /// Whether `action` asks for this step, the bytes being at the start of the buffer, which is
    /// otherwise as before.
    pub open spec fn told(self, action: Action, before: Seq<u8>, after: Seq<u8>) -> bool {
        match self {
            Step::Transmit(packet) => action == Action::Transmit(packet.len() as usize) && after
                == patch(before, 0, packet) && packet.len() <= before.len(),
            Step::Wait => action == Action::Wait && after == before,
            Step::Connected(port) => action == Action::Connected(port) && after == before,
            Step::Received(data) => action == Action::Received(data.len() as usize) && after
                == patch(before, 0, data) && data.len() <= before.len(),
            Step::Broken => action == Action::Broken && after == before,
        }
    }
}

/// A sequence number moved on by `n`.
pub open spec fn advanced(seq: u32, n: nat) -> u32 {
    ((seq + n) % 0x1_0000_0000) as u32
}

/// The sequence number before `n`.
pub open spec fn before(n: u32) -> u32 {
    ((n - 1) % 0x1_0000_0000) as u32
}

/// The port that an initial sequence number announces; none for a number that is no port.
pub open spec fn announced_port(seq: u32) -> u16 {
    if seq <= 0xffff {
        seq as u16
    } else {
        0
    }
}

pub open spec fn is_reset(s: SegmentView) -> bool {
    s.flags & RST != 0
}

/// Whether a segment is an idle acknowledgement rather than a datagram.
pub open spec fn is_keepalive(s: SegmentView) -> bool {
    s.flags == ACK && s.acknowledgement == 0 && s.payload.len() == 0
}

impl Socket {
    pub open spec fn tuple(self) -> AddrTuple {
        AddrTuple { local_addr: self.local_addr, remote_addr: self.remote_addr }
    }

    /// The packet that the connection sends with these flags and this payload.
    pub open spec fn packet(self, flags: u16, payload: Seq<u8>) -> Seq<u8> {
        tcp_packet(self.local_addr, self.remote_addr, self.seq, self.ack, flags, payload)
    }

    /// The idle acknowledgement with the sequence number `seq`: 0 asks, 1 answers.
    pub open spec fn keepalive(self, seq: u32) -> Seq<u8> {
        tcp_packet(self.local_addr, self.remote_addr, seq, 0, ACK, Seq::empty())
    }

    /// The packet that tells the other end that the connection is closed.
    pub open spec fn reset(self) -> Seq<u8> {
        tcp_packet(self.local_addr, self.remote_addr, 0, 0, RST, Seq::empty())
    }

    /// Whether a packet of the connection with `len` bytes of payload fits into `room` bytes.
    pub open spec fn can_send(self, len: nat, room: nat) -> bool {
        buildable(self.local_addr, self.remote_addr, len, room)
    }

    /// Whether a buffer of `room` bytes is large enough for what a step puts there.
    pub open spec fn has_space(self, step: Step, room: nat) -> bool {
        match step {
            Step::Transmit(_) => self.can_send(0, room),
            Step::Received(data) => data.len() <= room,
            _ => true,
        }
    }

    /// What a segment does to a connection that waits for a datagram.
    pub open spec fn heard(self, wait: Waiting, s: SegmentView) -> (Socket, Waiting, Step) {
        if is_reset(s) {
            (self, wait, Step::Broken)
        } else if is_keepalive(s) && s.sequence == 1 && wait.seq_sent {
            (self, Waiting { seq_sent: false, ..wait }, Step::Wait)
        } else if is_keepalive(s) && s.sequence == 0 {
            (self, wait, Step::Transmit(self.keepalive(1)))
        } else {
            (
                Socket { ack: advanced(s.sequence, s.payload.len()), ..self },
                wait,
                Step::Received(s.payload),
            )
        }
    }

    /// How a wait for a datagram goes on.
    pub open spec fn recv_step(self, wait: Waiting, event: Event) -> (Socket, Waiting, Step) {
        match event {
            Event::Packet(b) => match parsed(b@) {
                Some(s) => self.heard(wait, s),
                None => (self, wait, Step::Broken),
            },
            Event::TimedOut => if !wait.seq_sent {
                (self, Waiting { seq_sent: true, ..wait }, Step::Transmit(self.keepalive(0)))
            } else {
                let next = Waiting { retries: (wait.retries + 1) as u8, seq_sent: false };
                (
                    self,
                    next,
                    if next.retries < RETRIES {
                        Step::Wait
                    } else {
                        Step::Broken
                    },
                )
            },
            Event::Start | Event::Sent(true) => (self, wait, Step::Wait),
            Event::Sent(false) | Event::Closed | Event::Deadline => (self, wait, Step::Broken),
        }
    }

    /// How an active open goes on: SYN, then SYN and ACK from the other end, then ACK. `pending` is
    /// the port that the other end announced, while the last packet is on its way.
    pub open spec fn connect_step(self, pending: Option<u16>, event: Event) -> (
        Socket,
        Option<u16>,
        Step,
    ) {
        match (self.state, pending, event) {
            (State::Idle, _, Event::Start) => (
                self,
                None,
                Step::Transmit(self.packet(SYN, Seq::empty())),
            ),
            (State::Idle, _, Event::Sent(true)) => (
                Socket { state: State::SynSent, ..self },
                None,
                Step::Wait,
            ),
            (State::SynSent, Some(port), Event::Sent(true)) => (
                Socket { state: State::Established, ..self },
                None,
                Step::Connected(port),
            ),
            (State::SynSent, None, Event::Packet(b)) => match parsed(b@) {
                Some(s) => self.answered(s),
                None => (Socket { state: State::Idle, ..self }, None, Step::Broken),
            },
            _ => (Socket { state: State::Idle, ..self }, None, Step::Broken),
        }
    }

    /// What a segment does to a connection that waits for the answer to its SYN.
    pub open spec fn answered(self, s: SegmentView) -> (Socket, Option<u16>, Step) {
        if s.flags == SYN_ACK && self.seq == before(s.acknowledgement) {
            let next = Socket { seq: s.acknowledgement, ack: advanced(s.sequence, 1), ..self };
            (
                next,
                Some(announced_port(s.sequence)),
                Step::Transmit(next.packet(ACK, Seq::empty())),
            )
        } else {
            (Socket { state: State::Idle, ..self }, None, Step::Broken)
        }
    }

    /// How a passive open goes on: SYN and ACK, then ACK from the other end. `seq` is the initial
    /// sequence number of the other end.
    pub open spec fn accept_step(self, seq: u32, event: Event) -> (Socket, Step) {
        match (self.state, event) {
            (State::Idle, Event::Start) => (
                self,
                Step::Transmit(self.packet(SYN_ACK, Seq::empty())),
            ),
            (State::Idle, Event::Sent(true)) => (
                Socket { state: State::SynReceived, ..self },
                Step::Wait,
            ),
            (State::SynReceived, Event::Packet(b)) => match parsed(b@) {
                Some(s) => if is_reset(s) {
                    (Socket { state: State::Idle, ..self }, Step::Broken)
                } else if s.flags == ACK && self.seq == before(s.acknowledgement) {
                    (
                        Socket { seq: s.acknowledgement, state: State::Established, ..self },
                        Step::Connected(announced_port(seq)),
                    )
                } else {
                    (self, Step::Broken)
                },
                None => (Socket { state: State::Idle, ..self }, Step::Broken),
            },
            _ => (Socket { state: State::Idle, ..self }, Step::Broken),
        }
    }

    pub fn new(
        tun: usize,
        incoming: u64,
        local_addr: SocketAddr,
        remote_addr: SocketAddr,
        seq: u32,
        ack: u32,
        state: State,
        deadline: Option<u64>,
    ) -> (socket: Socket)
        ensures
            socket == (Socket {
                tun,
                incoming,
                local_addr,
                remote_addr,
                seq,
                ack,
                state,
                lifetime: match deadline {
                    Some(seconds) => seconds,
                    None => LIFETIME,
                },
            }),
    {
        let lifetime: u64 = match deadline {
            Some(seconds) => seconds,
            None => LIFETIME,
        };
        Socket { tun, incoming, local_addr, remote_addr, seq, ack, state, lifetime }
    }

    pub fn local_addr(&self) -> (addr: SocketAddr)
        ensures
            addr == self.local_addr,
    {
        self.local_addr
    }

    pub fn remote_addr(&self) -> (addr: SocketAddr)
        ensures
            addr == self.remote_addr,
    {
        self.remote_addr
    }

    /// Builds a packet of the connection at the start of `buf`.
    pub fn build_tcp_packet(
        &self,
        buf: &mut [u8],
        flags: u16,
        payload: Option<&[u8]>,
    ) -> (r: Result<usize, String>)
        ensures
            r is Ok <==> self.can_send(bytes_of(payload).len(), old(buf)@.len()),
            r matches Err(message) ==> {
                &&& final(buf)@ == old(buf)@
                &&& message@ == if self.local_addr.ip.same_version(self.remote_addr.ip) {
                    "packet too long"@
                } else {
                    "addresses of different IP versions"@
                }
            },
            r matches Ok(size) ==> {
                let packet = self.packet(flags, bytes_of(payload));
                size == packet.len() && size <= old(buf)@.len() && final(buf)@ == patch(
                    old(buf)@,
                    0,
                    packet,
                )
            },
    {
        build_tcp_packet(
            buf,
            self.local_addr,
            self.remote_addr,
            self.seq,
            self.ack,
            flags,
            payload,
        )
    }

    /// Builds the packet that carries a datagram to the other end, and gives its size. `None`
    /// means that no packet can carry it; nothing has then changed.
    pub fn send(&mut self, buf: &mut [u8], payload: &[u8]) -> (r: Option<usize>)
        requires
            old(self).state is Established,
        ensures
            r is Some <==> old(self).can_send(payload@.len(), old(buf)@.len()),
            r is None ==> *final(self) == *old(self) && final(buf)@ == old(buf)@,
            r matches Some(size) ==> {
                let packet = old(self).packet(ACK, payload@);
                &&& size == packet.len()
                &&& size <= old(buf)@.len()
                &&& final(buf)@ == patch(old(buf)@, 0, packet)
                &&& *final(self) == (Socket {
                    seq: advanced(old(self).seq, payload@.len()),
                    ..*old(self)
                })
                &&& (final(self).seq - old(self).seq - payload@.len()) % 0x1_0000_0000 == 0
            },
    {
        match self.build_tcp_packet(buf, ACK, Some(payload)) {
            Ok(size) => {
                self.seq = advance(self.seq, payload.len());
                Some(size)
            },
            Err(_) => None,
        }
    }

    /// Builds the idle acknowledgement with the sequence number `seq` and gives its size.
    pub fn send_keepalive(&self, buf: &mut [u8], seq: u32) -> (size: usize)
        requires
            self.state is Established,
            self.can_send(0, old(buf)@.len()),
        ensures
            size == self.keepalive(seq).len(),
            size <= old(buf)@.len(),
            final(buf)@ == patch(old(buf)@, 0, self.keepalive(seq)),
    {
        match build_tcp_packet(buf, self.local_addr, self.remote_addr, seq, 0, ACK, None) {
            Ok(size) => size,
            Err(_) => 0,
        }
    }

    /// Goes on waiting for a datagram from the other end. A silent peer is sent a keepalive, and
    /// the connection counts as broken when three of them stay unanswered.
    pub fn recv(&mut self, wait: &mut Waiting, buf: &mut [u8], event: Event) -> (action: Action)
        requires
            old(self).state is Established,
            old(wait).retries < RETRIES,
            old(self).has_space(old(self).recv_step(*old(wait), event).2, old(buf)@.len()),
        ensures
            ({
                let (socket, waiting, step) = old(self).recv_step(*old(wait), event);
                &&& *final(self) == socket
                &&& *final(wait) == waiting
                &&& step.told(action, old(buf)@, final(buf)@)
            }),
            action is Received ==> {
                &&& event matches Event::Packet(b)
                &&& parsed(b@) matches Some(s)
                &&& action == Action::Received(s.payload.len() as usize)
                &&& final(buf)@.take(s.payload.len() as int) == s.payload
                &&& (final(self).ack - s.sequence - s.payload.len()) % 0x1_0000_0000 == 0
            },
    {
        match event {
            Event::Packet(b) => match parse_ip_packet(b) {
                Some(segment) => self.hear(wait, buf, &segment),
                None => Action::Broken,
            },
            Event::TimedOut => if !wait.seq_sent {
                wait.seq_sent = true;
                Action::Transmit(self.send_keepalive(buf, 0))
            } else {
                wait.retries = wait.retries + 1;
                wait.seq_sent = false;
                if wait.retries < RETRIES {
                    Action::Wait
                } else {
                    Action::Broken
                }
            },
            Event::Start | Event::Sent(true) => Action::Wait,
            Event::Sent(false) | Event::Closed | Event::Deadline => Action::Broken,
        }
    }

    /// Takes a segment that arrived for an established connection.
    pub fn hear(&mut self, wait: &mut Waiting, buf: &mut [u8], segment: &Segment) -> (action:
        Action)
        requires
            old(self).state is Established,
            old(self).has_space(old(self).heard(*old(wait), segment@).2, old(buf)@.len()),
        ensures
            ({
                let (socket, waiting, step) = old(self).heard(*old(wait), segment@);
                &&& *final(self) == socket
                &&& *final(wait) == waiting
                &&& step.told(action, old(buf)@, final(buf)@)
            }),
            action is Received ==> {
                let payload = segment@.payload;
                &&& action == Action::Received(payload.len() as usize)
                &&& final(buf)@.take(payload.len() as int) == payload
                &&& (final(self).ack - segment.sequence - payload.len()) % 0x1_0000_0000 == 0
            },
    {
        if segment.flags & RST != 0 {
            return Action::Broken;
        }
        let size: usize = segment.payload.len();
        if segment.flags == ACK && segment.acknowledgement == 0 && size == 0 {
            if segment.sequence == 1 && wait.seq_sent {
                wait.seq_sent = false;
                return Action::Wait;
            } else if segment.sequence == 0 {
                return Action::Transmit(self.send_keepalive(buf, 1));
            }
        }
        self.ack = advance(segment.sequence, size);
        write_slice(buf, 0, segment.payload.as_slice());
        assert(buf@.take(size as int) =~= segment.payload@);
        Action::Received(size)
    }

    /// Goes on with an active open. The handshake starts with `Event::Start`, and `pending` empty;
    /// an event that does not lead on ends it.
    pub fn connect(&mut self, pending: &mut Option<u16>, buf: &mut [u8], event: Event) -> (action:
        Action)
        requires
            old(self).state is Idle || old(self).state is SynSent,
            old(self).has_space(old(self).connect_step(*old(pending), event).2, old(buf)@.len()),
        ensures
            ({
                let (socket, port, step) = old(self).connect_step(*old(pending), event);
                &&& *final(self) == socket
                &&& *final(pending) == port
                &&& step.told(action, old(buf)@, final(buf)@)
            }),
    {
        let port: Option<u16> = *pending;
        *pending = None;
        match (self.state, port, event) {
            (State::Idle, _, Event::Start) => self.transmit(buf, SYN),
            (State::Idle, _, Event::Sent(true)) => {
                self.state = State::SynSent;
                Action::Wait
            },
            (State::SynSent, Some(port), Event::Sent(true)) => {
                self.state = State::Established;
                Action::Connected(port)
            },
            (State::SynSent, None, Event::Packet(b)) => match parse_ip_packet(b) {
                Some(segment) => self.answer(pending, buf, &segment),
                None => {
                    self.state = State::Idle;
                    Action::Broken
                },
            },
            _ => {
                self.state = State::Idle;
                Action::Broken
            },
        }
    }

    /// Takes a segment that arrived for a connection that waits for the answer to its SYN.
    pub fn answer(
        &mut self,
        pending: &mut Option<u16>,
        buf: &mut [u8],
        segment: &Segment,
    ) -> (action: Action)
        requires
            old(self).state is SynSent,
            old(self).has_space(old(self).answered(segment@).2, old(buf)@.len()),
        ensures
            ({
                let (socket, port, step) = old(self).answered(segment@);
                &&& *final(self) == socket
                &&& *final(pending) == port
                &&& step.told(action, old(buf)@, final(buf)@)
            }),
    {
        if segment.flags == SYN_ACK && self.seq == preceding(segment.acknowledgement) {
            self.seq = segment.acknowledgement;
            self.ack = advance(segment.sequence, 1);
            *pending = Some(port_of(segment.sequence));
            self.transmit(buf, ACK)
        } else {
            self.state = State::Idle;
            *pending = None;
            Action::Broken
        }
    }

    /// Goes on with a passive open. The handshake starts with `Event::Start`; an event that does
    /// not lead on ends it.
    pub fn accept(&mut self, buf: &mut [u8], seq: u32, event: Event) -> (action: Action)
        requires
            old(self).state is Idle || old(self).state is SynReceived,
            old(self).has_space(old(self).accept_step(seq, event).1, old(buf)@.len()),
        ensures
            ({
                let (socket, step) = old(self).accept_step(seq, event);
                &&& *final(self) == socket
                &&& step.told(action, old(buf)@, final(buf)@)
            }),
    {
        match (self.state, event) {
            (State::Idle, Event::Start) => self.transmit(buf, SYN_ACK),
            (State::Idle, Event::Sent(true)) => {
                self.state = State::SynReceived;
                Action::Wait
            },
            (State::SynReceived, Event::Packet(b)) => match parse_ip_packet(b) {
                Some(segment) => {
                    if segment.flags & RST != 0 {
                        self.state = State::Idle;
                        Action::Broken
                    } else if segment.flags == ACK && self.seq == preceding(
                        segment.acknowledgement,
                    ) {
                        self.seq = segment.acknowledgement;
                        self.state = State::Established;
                        Action::Connected(port_of(seq))
                    } else {
                        Action::Broken
                    }
                },
                None => {
                    self.state = State::Idle;
                    Action::Broken
                },
            },
            _ => {
                self.state = State::Idle;
                Action::Broken
            },
        }
    }

    /// Builds a packet without payload.
    fn transmit(&self, buf: &mut [u8], flags: u16) -> (action: Action)
        requires
            self.can_send(0, old(buf)@.len()),
        ensures
            Step::Transmit(self.packet(flags, Seq::empty())).told(
                action,
                old(buf)@,
                final(buf)@,
            ),
    {
        match self.build_tcp_packet(buf, flags, None) {
            Ok(size) => Action::Transmit(size),
            Err(_) => Action::Broken,
        }
    }
}

/// Names a connection by the texts of its two ends.
pub fn describe(local_addr: &str, remote_addr: &str) -> (text: String)
    ensures
        text@ == "(TCP connection from "@ + local_addr@ + " to "@ + remote_addr@ + ")"@,
{
    let mut text = "(TCP connection from ".to_string();
    text.append(local_addr);
    text.append(" to ");
    text.append(remote_addr);
    text.append(")");
    text
}

/// The port that an initial sequence number announces.
fn port_of(seq: u32) -> (port: u16)
    ensures
        port == announced_port(seq),
        port == if seq <= 65535 {
            seq as int
        } else {
            0
        },
{
    if seq <= 0xffff {
        seq as u16
    } else {
        0
    }
}

/// The sequence number before `n`.
fn preceding(n: u32) -> (r: u32)
    ensures
        r == before(n),
        (n - r - 1) % 0x1_0000_0000 == 0,
{
    n.wrapping_sub(1)
}

/// Moves a sequence number on by `n`.
pub fn advance(seq: u32, n: usize) -> (r: u32)
    ensures
        r == advanced(seq, n as nat),
        (r - seq - n) % 0x1_0000_0000 == 0,
{
    let wide: u64 = n as u64;
    assert(wide as u32 == wide % 0x1_0000_0000) by (bit_vector);
    seq.wrapping_add(wide as u32)
}

} // verus!
