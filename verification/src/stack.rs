//! A virtual TCP stack: which connections there are, and where packets go.
use crate::addr::AddrTuple;
use crate::addr::IpAddr;
use crate::addr::SocketAddr;
use crate::bytes::patch;
use crate::flows::flow_contents;
use crate::flows::flow_get;
use crate::flows::flow_insert;
use crate::flows::flow_insert_vacant;
use crate::flows::flow_key;
use crate::flows::flow_remove;
use crate::flows::key_of;
use crate::flows::no_flows;
use crate::flows::no_ports;
use crate::flows::port_contains;
use crate::flows::port_contents;
use crate::flows::port_insert;
use crate::flows::FlowKey;
use crate::flows::FlowMap;
use crate::flows::PortSet;
use crate::packet::build_tcp_packet;
use crate::packet::buildable;
use crate::packet::parse_ip_packet;
use crate::packet::parsed;
use crate::packet::tcp_packet;
use crate::packet::Segment;
use crate::packet::SegmentView;
use crate::packet::RST;
use crate::packet::RST_ACK;
use crate::packet::SYN;
use crate::socket::advance;
use crate::socket::advanced;
use crate::socket::is_reset;
use crate::socket::Socket;
use crate::socket::State;
use crate::socket::LIFETIME;
use crate::table::Table;
use vstd::prelude::*;

verus! {

/// How many packets may wait in the channel of a connection.
pub const MPMC_BUFFER_LEN: usize = 65_536;

/// How many accepted connections may wait to be taken.
pub const MPSC_BUFFER_LEN: usize = 8_192;

/// What the readers of a stack and its owner share.
pub struct Shared {
    tuples: FlowMap,
    listening: PortSet,
    tuns: usize,
    tun_index: usize,
    deadline: Option<u64>,
    next_incoming: u64,
}

pub struct SharedView {
    /// The channel of each connection.
    pub flows: Map<FlowKey, u64>,
    /// The ports on which connections are accepted.
    pub ports: Set<u16>,
    /// How many queues the device has.
    pub tuns: usize,
    /// How many times a queue was chosen.
    pub tun_index: usize,
    /// The lifetime of connections in seconds.
    pub deadline: Option<u64>,
    /// The next channel to give out.
    pub next_incoming: u64,
}

impl View for Shared {
    type V = SharedView;

    closed spec fn view(&self) -> SharedView {
        SharedView {
            flows: flow_contents(self.tuples),
            ports: port_contents(self.listening),
            tuns: self.tuns,
            tun_index: self.tun_index,
            deadline: self.deadline,
            next_incoming: self.next_incoming,
        }
    }
}

impl SharedView {
    /// Without connections and ports.
    pub open spec fn fresh(tuns: usize, deadline: Option<u64>) -> SharedView {
        SharedView {
            flows: Map::empty(),
            ports: Set::empty(),
            tuns,
            tun_index: 0,
            deadline,
            next_incoming: 0,
        }
    }

    /// Whether the tuple belongs to a connection.
    pub open spec fn has(self, t: AddrTuple) -> bool {
        self.flows.contains_key(flow_key(t))
    }

    /// The channel of a connection.
    pub open spec fn channel(self, t: AddrTuple) -> u64 {
        self.flows[flow_key(t)]
    }

    /// The channels of connections were given out, and no two connections share one.
    pub open spec fn wf(self) -> bool {
        &&& forall|k: FlowKey| #[trigger]
            self.flows.contains_key(k) ==> self.flows[k] < self.next_incoming
        &&& forall|j: FlowKey, k: FlowKey|
            #![trigger self.flows.contains_key(j), self.flows.contains_key(k)]
            self.flows.contains_key(j) && self.flows.contains_key(k) && j != k ==> self.flows[j]
                != self.flows[k]
    }

    /// Whether another connection can be made: there is a channel left for it.
    pub open spec fn has_room(self) -> bool {
        self.next_incoming < u64::MAX
    }

    pub open spec fn lifetime(self) -> u64 {
        match self.deadline {
            Some(seconds) => seconds,
            None => LIFETIME,
        }
    }

    /// The queue whose turn it is.
    pub open spec fn turn(self) -> usize {
        (self.tun_index as int % self.tuns as int) as usize
    }

    pub open spec fn next_turn(self) -> usize {
        if self.tun_index == usize::MAX {
            0
        } else {
            (self.tun_index + 1) as usize
        }
    }

    /// With the turn passed on.
    pub open spec fn turned(self) -> SharedView {
        SharedView { tun_index: self.next_turn(), ..self }
    }

    /// With a new connection.
    pub open spec fn with(self, t: AddrTuple) -> SharedView {
        SharedView {
            flows: self.flows.insert(flow_key(t), self.next_incoming),
            next_incoming: (self.next_incoming + 1) as u64,
            ..self
        }
    }

    /// Without a connection.
    pub open spec fn without(self, t: AddrTuple) -> SharedView {
        SharedView { flows: self.flows.remove(flow_key(t)), ..self }
    }
}

impl Shared {
    fn new(tuns: usize, deadline: Option<u64>) -> (shared: Shared)
        ensures
            shared@ == SharedView::fresh(tuns, deadline),
            shared@.wf(),
    {
        let shared = Shared {
            tuples: no_flows(),
            listening: no_ports(),
            tuns,
            tun_index: 0,
            deadline,
            next_incoming: 0,
        };
        assert(shared@.flows =~= Map::empty());
        shared
    }

    /// Whether another connection can be made.
    pub fn has_room(&self) -> (r: bool)
        ensures
            r == self@.has_room(),
    {
        self.next_incoming < u64::MAX
    }

    /// How many queues the device has.
    pub fn tuns(&self) -> (n: usize)
        ensures
            n == self@.tuns,
    {
        self.tuns
    }

    /// Whether connections are accepted on the port.
    pub fn is_listening(&self, port: u16) -> (r: bool)
        ensures
            r == self@.ports.contains(port),
    {
        port_contains(&self.listening, port)
    }

    /// Whether the tuple belongs to a connection.
    pub fn has(&self, tuple: &AddrTuple) -> (r: bool)
        ensures
            r == self@.has(*tuple),
    {
        flow_get(&self.tuples, &key_of(tuple)).is_some()
    }

    /// Gives the queue whose turn it is, and passes the turn on.
    fn take_turn(&mut self) -> (tun: usize)
        requires
            old(self)@.tuns > 0,
        ensures
            tun == old(self)@.turn(),
            final(self)@ == old(self)@.turned(),
    {
        let index: usize = self.tun_index;
        self.tun_index = index.wrapping_add(1);
        index % self.tuns
    }

    /// Gives out a channel.
    fn take_channel(&mut self) -> (incoming: u64)
        requires
            old(self)@.has_room(),
        ensures
            incoming == old(self)@.next_incoming,
            final(self)@ == (SharedView {
                next_incoming: (old(self)@.next_incoming + 1) as u64,
                ..old(self)@
            }),
    {
        let incoming: u64 = self.next_incoming;
        self.next_incoming = incoming + 1;
        incoming
    }
}

/// A TCP stack with the addresses that it connects from.
pub struct Stack {
    pub shared: Shared,
    pub local_ip: u32,
    pub local_ip6: Option<u128>,
}

impl Stack {
    /// The local end of a connection to `addr`.
    pub open spec fn local_end(self, addr: SocketAddr, port: u16) -> SocketAddr {
        SocketAddr {
            ip: match addr.ip {
                IpAddr::V4(_) => IpAddr::V4(self.local_ip),
                IpAddr::V6(_) => IpAddr::V6(self.local_ip6.unwrap()),
            },
            port,
        }
    }

    /// The tuple of a connection to `addr`.
    pub open spec fn tuple_to(self, addr: SocketAddr, port: u16) -> AddrTuple {
        AddrTuple { local_addr: self.local_end(addr, port), remote_addr: addr }
    }

    /// A stack on a device with `tuns` queues, without connections.
    pub fn new(
        tuns: usize,
        local_ip: u32,
        local_ip6: Option<u128>,
        timeout: Option<u64>,
    ) -> (stack: Stack)
        ensures
            stack.shared@ == SharedView::fresh(tuns, timeout),
            forall|t: AddrTuple| !stack.shared@.has(t),
            forall|port: u16| !stack.shared@.ports.contains(port),
            stack.shared@.tuns == tuns,
            stack.shared@.deadline == timeout,
            stack.shared@.wf(),
            stack.local_ip == local_ip,
            stack.local_ip6 == local_ip6,
    {
        Stack { shared: Shared::new(tuns, timeout), local_ip, local_ip6 }
    }

    /// Accepts connections on `port` from now on.
    pub fn listen(&mut self, port: u16)
        requires
            !old(self).shared@.ports.contains(port),
        ensures
            final(self).shared@ == (SharedView {
                ports: old(self).shared@.ports.insert(port),
                ..old(self).shared@
            }),
            old(self).shared@.wf() ==> final(self).shared@.wf(),
            final(self).local_ip == old(self).local_ip,
            final(self).local_ip6 == old(self).local_ip6,
    {
        let _new: bool = port_insert(&mut self.shared.listening, port);
    }

    /// Makes a connection from `port` to `addr`, whose handshake has yet to be made. `None` means
    /// that there is one between these ends already.
    pub fn connect(&mut self, addr: SocketAddr, port: u16, seq: u32) -> (r: Option<Socket>)
        requires
            old(self).shared@.wf(),
            addr.ip is V6 ==> old(self).local_ip6 is Some,
            !old(self).shared@.has(old(self).tuple_to(addr, port)) ==> old(self).shared@.has_room()
                && old(self).shared@.tuns > 0,
        ensures
            final(self).shared@.wf(),
            final(self).local_ip == old(self).local_ip,
            final(self).local_ip6 == old(self).local_ip6,
            r is None <==> old(self).shared@.has(old(self).tuple_to(addr, port)),
            r is None ==> final(self).shared@ == old(self).shared@,
            r matches Some(socket) ==> {
                let shared = old(self).shared@;
                &&& socket == (Socket {
                    tun: shared.turn(),
                    incoming: shared.next_incoming,
                    local_addr: old(self).local_end(addr, port),
                    remote_addr: addr,
                    seq,
                    ack: 0,
                    state: State::Idle,
                    lifetime: shared.lifetime(),
                })
                &&& final(self).shared@ == shared.with(socket.tuple()).turned()
            },
    {
        let ip = if addr.is_ipv4() {
            IpAddr::V4(self.local_ip)
        } else {
            IpAddr::V6(self.local_ip6.unwrap())
        };
        let local_addr = SocketAddr::new(ip, port);
        let tuple = AddrTuple::new(local_addr, addr);
        let ghost shared = self.shared@;
        let incoming: u64 = self.shared.next_incoming;
        if !flow_insert_vacant(&mut self.shared.tuples, key_of(&tuple), incoming) {
            return None;
        }
        let incoming: u64 = self.shared.take_channel();
        let tun: usize = self.shared.take_turn();
        proof {
            law_connections_keep_channels(shared, tuple);
        }
        Some(
            Socket::new(
                tun,
                incoming,
                local_addr,
                addr,
                seq,
                0,
                State::Idle,
                self.shared.deadline,
            ),
        )
    }
}

impl Socket {
    /// Closes the connection: takes it out of the stack and builds the packet that tells the other
    /// end. Gives the tuple for which every reader has to drop what it remembers, and the size of
    /// the packet.
    pub fn drop(self, shared: &mut Shared, buf: &mut [u8]) -> (r: (AddrTuple, usize))
        requires
            old(shared)@.has(self.tuple()),
            self.can_send(0, old(buf)@.len()),
        ensures
            final(shared)@ == old(shared)@.without(self.tuple()),
            old(shared)@.wf() ==> final(shared)@.wf(),
            r.0 == self.tuple(),
            r.1 == self.reset().len(),
            r.1 <= old(buf)@.len(),
            final(buf)@ == patch(old(buf)@, 0, self.reset()),
    {
        let tuple = AddrTuple::new(self.local_addr, self.remote_addr);
        let _removed: Option<u64> = flow_remove(&mut shared.tuples, &key_of(&tuple));
        match build_tcp_packet(buf, self.local_addr, self.remote_addr, 0, 0, RST, None) {
            Ok(size) => (tuple, size),
            Err(_) => (tuple, 0),
        }
    }
}

/// What a reader makes of a packet.
pub enum Dispatch {
    /// Nothing is to be done.
    Ignore,
    /// The packet goes to a connection, over this channel.
    Deliver(u64),
    /// A new connection was made. Its passive open has yet to be made, with this initial sequence
    /// number of the other end.
    Accept(Socket, u32),
    /// The first bytes of the buffer, `size` of them, are to be sent through the queue `tun`.
    Reset { tun: usize, size: usize },
}

/// `Dispatch` with the bytes it speaks of.
pub enum Route {
    Ignore,
    Deliver(u64),
    Accept(Socket, u32),
    Reset { tun: usize, packet: Seq<u8> },
}

impl Route {
    /// Whether `dispatch` says this, a packet being at the start of the buffer, which is otherwise
    /// as before.
    pub open spec fn told(self, dispatch: Dispatch, before: Seq<u8>, after: Seq<u8>) -> bool {
        match self {
            Route::Ignore => dispatch is Ignore && after == before,
            Route::Deliver(incoming) => dispatch == Dispatch::Deliver(incoming) && after == before,
            Route::Accept(socket, seq) => dispatch == Dispatch::Accept(socket, seq) && after
                == before,
            Route::Reset { tun, packet } => {
                &&& dispatch == (Dispatch::Reset { tun, size: packet.len() as usize })
                &&& packet.len() <= before.len()
                &&& after == patch(before, 0, packet)
            },
        }
    }
}

/// Reads the packets of one queue and hands them to the connections.
pub struct Reader {
    tun: usize,
    tuples: Table<AddrTuple>,
}

pub struct ReaderView {
    /// The queue.
    pub tun: usize,
    /// The channels that the reader remembers.
    pub cache: Map<AddrTuple, u64>,
}

impl View for Reader {
    type V = ReaderView;

    closed spec fn view(&self) -> ReaderView {
        ReaderView { tun: self.tun, cache: self.tuples@ }
    }
}

/// The tuple of the connection that a segment is for.
pub open spec fn tuple_of(s: SegmentView) -> AddrTuple {
    AddrTuple { local_addr: s.destination, remote_addr: s.source }
}

/// The connection that answers to the opening segment `s`, received through the queue `tun`.
pub open spec fn answering(shared: SharedView, tun: usize, s: SegmentView) -> Socket {
    Socket {
        tun,
        incoming: shared.next_incoming,
        local_addr: s.destination,
        remote_addr: s.source,
        seq: s.source.port as u32,
        ack: advanced(s.sequence, 1),
        state: State::Idle,
        lifetime: shared.lifetime(),
    }
}

/// The packet that refuses the segment `s`.
pub open spec fn refusal(s: SegmentView) -> Seq<u8> {
    tcp_packet(
        s.destination,
        s.source,
        s.acknowledgement,
        advanced(s.sequence, s.payload.len()),
        RST_ACK,
        Seq::empty(),
    )
}

/// Where a segment goes: to its connection, if there is one; into a new connection, if it opens
/// one on a port where connections are accepted; any other is refused, unless it is itself a
/// reset.
pub open spec fn route(reader: ReaderView, shared: SharedView, s: SegmentView) -> (
    ReaderView,
    SharedView,
    Route,
) {
    let t = tuple_of(s);
    if reader.cache.contains_key(t) {
        (reader, shared, Route::Deliver(reader.cache[t]))
    } else if shared.has(t) {
        (
            ReaderView { cache: reader.cache.insert(t, shared.channel(t)), ..reader },
            shared,
            Route::Deliver(shared.channel(t)),
        )
    } else if s.flags == SYN && shared.ports.contains(s.destination.port) {
        (
            ReaderView { cache: reader.cache.insert(t, shared.next_incoming), ..reader },
            shared.with(t),
            Route::Accept(answering(shared, reader.tun, s), s.sequence),
        )
    } else if !is_reset(s) {
        (
            reader,
            shared.turned(),
            Route::Reset { tun: shared.turn(), packet: refusal(s) },
        )
    } else {
        (reader, shared, Route::Ignore)
    }
}

/// Whether a segment can be routed: a new connection needs a channel, and a refusal a queue and a
/// buffer of `room` bytes to be built in.
pub open spec fn routable(
    reader: ReaderView,
    shared: SharedView,
    s: SegmentView,
    room: nat,
) -> bool {
    match route(reader, shared, s).2 {
        Route::Accept(_, _) => shared.has_room(),
        Route::Reset { .. } => shared.tuns > 0 && buildable(s.destination, s.source, 0, room),
        _ => true,
    }
}

impl Reader {
    /// A reader of the queue `tun`.
    pub fn new(tun: usize) -> (reader: Reader)
        ensures
            reader@ == (ReaderView { tun, cache: Map::empty() }),
    {
        Reader { tun, tuples: Table::new() }
    }

    /// Drops what the reader remembers of a closed connection.
    pub fn purge(&mut self, tuple: &AddrTuple)
        ensures
            final(self)@ == (ReaderView { cache: old(self)@.cache.remove(*tuple), ..old(self)@ }),
    {
        self.tuples.remove(tuple);
    }

    /// Says where a packet goes. What is not a TCP packet is ignored.
    pub fn dispatch(&mut self, shared: &mut Shared, packet: &[u8], send_buf: &mut [u8]) -> (r:
        Dispatch)
        requires
            old(shared)@.wf(),
            parsed(packet@) matches Some(s) ==> routable(
                old(self)@,
                old(shared)@,
                s,
                old(send_buf)@.len(),
            ),
        ensures
            final(shared)@.wf(),
            match parsed(packet@) {
                Some(s) => {
                    let (reader, after, step) = route(old(self)@, old(shared)@, s);
                    &&& final(self)@ == reader
                    &&& final(shared)@ == after
                    &&& step.told(r, old(send_buf)@, final(send_buf)@)
                },
                None => {
                    &&& final(self)@ == old(self)@
                    &&& final(shared)@ == old(shared)@
                    &&& r is Ignore
                    &&& final(send_buf)@ == old(send_buf)@
                },
            },
    {
        match parse_ip_packet(packet) {
            Some(segment) => self.route(shared, &segment, send_buf),
            None => Dispatch::Ignore,
        }
    }

    /// Says where a segment goes.
    pub fn route(&mut self, shared: &mut Shared, segment: &Segment, send_buf: &mut [u8]) -> (r:
        Dispatch)
        requires
            old(shared)@.wf(),
            routable(old(self)@, old(shared)@, segment@, old(send_buf)@.len()),
        ensures
            final(shared)@.wf(),
            ({
                let (reader, after, step) = route(old(self)@, old(shared)@, segment@);
                &&& final(self)@ == reader
                &&& final(shared)@ == after
                &&& step.told(r, old(send_buf)@, final(send_buf)@)
            }),
    {
        let tuple = AddrTuple::new(segment.destination, segment.source);
        if let Some(incoming) = self.tuples.get(&tuple) {
            return Dispatch::Deliver(incoming);
        }
        let key: FlowKey = key_of(&tuple);
        if let Some(incoming) = flow_get(&shared.tuples, &key) {
            self.tuples.insert(tuple, incoming);
            return Dispatch::Deliver(incoming);
        }
        if segment.flags == SYN && port_contains(&shared.listening, segment.destination.port) {
            proof {
                law_connections_keep_channels(shared@, tuple);
            }
            let ghost before = shared@;
            let incoming: u64 = shared.take_channel();
            let _replaced: Option<u64> = flow_insert(&mut shared.tuples, key, incoming);
            self.tuples.insert(tuple, incoming);
            assert(shared@.flows == before.with(tuple).flows);
            let socket = Socket::new(
                self.tun,
                incoming,
                segment.destination,
                segment.source,
                segment.source.port as u32,
                segment.sequence.wrapping_add(1),
                State::Idle,
                shared.deadline,
            );
            Dispatch::Accept(socket, segment.sequence)
        } else if segment.flags & RST == 0 {
            let ack: u32 = advance(segment.sequence, segment.payload.len());
            let built = build_tcp_packet(
                send_buf,
                segment.destination,
                segment.source,
                segment.acknowledgement,
                ack,
                RST_ACK,
                None,
            );
            let tun: usize = shared.take_turn();
            match built {
                Ok(size) => Dispatch::Reset { tun, size },
                Err(_) => Dispatch::Ignore,
            }
        } else {
            Dispatch::Ignore
        }
    }
}

/// A stack with a queue and a channel left can route every packet, given a buffer of 60 bytes.
pub proof fn law_packets_are_routable(
    reader: ReaderView,
    shared: SharedView,
    packet: Seq<u8>,
    room: nat,
)
    requires
        shared.tuns > 0,
        shared.has_room(),
        room >= 60,
    ensures
        parsed(packet) matches Some(s) ==> routable(reader, shared, s, room),
{
}

/// Making a connection and closing one keep every channel with its connection alone.
pub proof fn law_connections_keep_channels(shared: SharedView, t: AddrTuple)
    requires
        shared.wf(),
    ensures
        shared.has_room() ==> shared.with(t).wf(),
        shared.without(t).wf(),
{
}

} // verus!
