//! What holds of connections and stacks as a whole.
use crate::addr::AddrTuple;
use crate::addr::IpAddr;
use crate::addr::SocketAddr;
use crate::flows::flow_key;
use crate::flows::law_flow_keys_differ;
use crate::flows::FlowKey;
use crate::packet::law_packet_round_trip;
use crate::packet::parsed;
use crate::packet::SegmentView;
use crate::packet::ACK;
use crate::packet::RST;
use crate::packet::RST_ACK;
use crate::packet::SYN;
use crate::packet::SYN_ACK;
use crate::socket::advanced;
use crate::socket::announced_port;
use crate::socket::before;
use crate::socket::is_reset;
use crate::socket::Action;
use crate::socket::Event;
use crate::socket::Socket;
use crate::socket::State;
use crate::socket::Step;
use crate::socket::Waiting;
use crate::socket::RETRIES;
use crate::stack::answering;
use crate::stack::refusal;
use crate::stack::route;
use crate::stack::tuple_of;
use crate::stack::Dispatch;
use crate::stack::ReaderView;
use crate::stack::Route;
use crate::stack::SharedView;
use crate::stack::Stack;
use vstd::prelude::*;

verus! {

/// Whether two sockets are the two ends of one connection.
pub open spec fn facing(a: Socket, b: Socket) -> bool {
    &&& a.local_addr == b.remote_addr
    &&& a.remote_addr == b.local_addr
    &&& a.local_addr.ip.same_version(a.remote_addr.ip)
}

/// What the segment of a packet between two ends says.
pub open spec fn says(
    from: SocketAddr,
    to: SocketAddr,
    sequence: u32,
    acknowledgement: u32,
    flags: u16,
    payload: Seq<u8>,
) -> SegmentView {
    SegmentView { source: from, destination: to, sequence, acknowledgement, flags, payload }
}

/// Stepping back undoes a step.
proof fn lemma_before_next(n: u32)
    ensures
        before(advanced(n, 1)) == n,
{
}

#[verifier::spinoff_prover]
#[verifier::rlimit(40)]
proof fn lemma_client_side(client: Socket, answer: &[u8], s: SegmentView)
    requires
        client.state is Idle,
        parsed(answer@) == Some(s),
        s.flags == SYN_ACK,
        s.acknowledgement == advanced(client.seq, 1),
    ensures
        ({
            let (c1, p1, s1) = client.connect_step(None, Event::Sent(true));
            let (c2, p2, s2) = c1.connect_step(p1, Event::Packet(answer));
            let (c3, p3, s3) = c2.connect_step(p2, Event::Sent(true));
            &&& s1 == Step::Wait
            &&& p1 is None
            &&& c2 == (Socket {
                seq: s.acknowledgement,
                ack: advanced(s.sequence, 1),
                state: State::SynSent,
                ..client
            })
            &&& s2 == Step::Transmit(c2.packet(ACK, Seq::empty()))
            &&& c3 == (Socket { state: State::Established, ..c2 })
            &&& s3 == Step::Connected(announced_port(s.sequence))
        }),
{
    lemma_before_next(client.seq);
}

#[verifier::spinoff_prover]
#[verifier::rlimit(40)]
proof fn lemma_server_side(server: Socket, seq: u32, last: &[u8], s: SegmentView)
    requires
        server.state is Idle,
        parsed(last@) == Some(s),
        s.flags == ACK,
        s.acknowledgement == advanced(server.seq, 1),
    ensures
        ({
            let (v1, r1) = server.accept_step(seq, Event::Sent(true));
            let (v2, r2) = v1.accept_step(seq, Event::Packet(last));
            &&& r1 == Step::Wait
            &&& v2 == (Socket { seq: s.acknowledgement, state: State::Established, ..server })
            &&& r2 == Step::Connected(announced_port(seq))
        }),
{
    lemma_before_next(server.seq);
    assert(0x10u16 & 0x04u16 == 0) by (bit_vector);
}

/// An active open against a stack that listens completes in three packets. The SYN makes the stack
/// create the other end; its answer makes the client send an ACK, which establishes both. The two
/// ends then agree on the sequence numbers, the client learns its own port as the server sees it,
/// and the server learns the port that the client announced as its initial sequence number.
#[verifier::spinoff_prover]
#[verifier::rlimit(40)]
pub proof fn law_handshake(
    reader: ReaderView,
    shared: SharedView,
    client: Socket,
    syn: &[u8],
    answer: &[u8],
    last: &[u8],
)
    requires
        client.state is Idle,
        client.local_addr.ip.same_version(client.remote_addr.ip),
        shared.ports.contains(client.remote_addr.port),
        ({
            let t = AddrTuple { local_addr: client.remote_addr, remote_addr: client.local_addr };
            !reader.cache.contains_key(t) && !shared.has(t)
        }),
        client.connect_step(None, Event::Start).2 == Step::Transmit(syn@),
        ({
            let server = answering(shared, reader.tun, parsed(syn@).unwrap());
            server.accept_step(client.seq, Event::Start).1 == Step::Transmit(answer@)
        }),
        ({
            let waiting = client.connect_step(None, Event::Sent(true)).0;
            waiting.connect_step(None, Event::Packet(answer)).2 == Step::Transmit(last@)
        }),
    ensures
        parsed(syn@) is Some,
        ({
            let server = answering(shared, reader.tun, parsed(syn@).unwrap());
            let (c1, p1, s1) = client.connect_step(None, Event::Sent(true));
            let (c2, p2, s2) = c1.connect_step(p1, Event::Packet(answer));
            let (c3, p3, s3) = c2.connect_step(p2, Event::Sent(true));
            let (v1, r1) = server.accept_step(client.seq, Event::Sent(true));
            let (v2, r2) = v1.accept_step(client.seq, Event::Packet(last));
            &&& route(reader, shared, parsed(syn@).unwrap()).2 == Route::Accept(server, client.seq)
            &&& facing(client, server)
            &&& s1 == Step::Wait && r1 == Step::Wait
            &&& s3 == Step::Connected(client.local_addr.port)
            &&& r2 == Step::Connected(announced_port(client.seq))
            &&& c3.state is Established && v2.state is Established
            &&& c3.seq == v2.ack && c3.ack == v2.seq
            &&& c3.tuple() == client.tuple() && v2.tuple() == server.tuple()
        }),
{
    let (from, to) = (client.local_addr, client.remote_addr);
    law_packet_round_trip(from, to, client.seq, client.ack, SYN, Seq::empty());
    let opening = says(from, to, client.seq, client.ack, SYN, Seq::empty());
    assert(parsed(syn@) == Some(opening));
    let server = answering(shared, reader.tun, opening);
    law_packet_round_trip(to, from, server.seq, server.ack, SYN_ACK, Seq::empty());
    let reply = says(to, from, server.seq, server.ack, SYN_ACK, Seq::empty());
    assert(parsed(answer@) == Some(reply));
    lemma_client_side(client, answer, reply);
    let c2 = Socket {
        seq: server.ack,
        ack: advanced(server.seq, 1),
        state: State::SynSent,
        ..client
    };
    law_packet_round_trip(from, to, c2.seq, c2.ack, ACK, Seq::empty());
    let third = says(from, to, c2.seq, c2.ack, ACK, Seq::empty());
    assert(last@ == c2.packet(ACK, Seq::empty()));
    lemma_server_side(server, client.seq, last, third);
}

/// A port comes out of the handshake as it was announced.
pub proof fn law_port_is_announced(port: u16)
    ensures
        announced_port(port as u32) == port,
{
}

/// Whether a datagram cannot be told from an idle acknowledgement: it is empty, nothing has been
/// acknowledged, and its sequence number is that of a question, or of an answer that is awaited.
pub open spec fn looks_idle(sender: Socket, payload: Seq<u8>, wait: Waiting) -> bool {
    &&& payload.len() == 0
    &&& sender.ack == 0
    &&& sender.seq == 0 || (sender.seq == 1 && wait.seq_sent)
}

/// What one end sends, the other receives: the datagram as it is, whatever came before it, so that
/// datagrams may arrive in any order. The receiver then acknowledges what the sender has sent.
#[verifier::spinoff_prover]
#[verifier::rlimit(40)]
pub proof fn law_datagram(
    sender: Socket,
    receiver: Socket,
    wait: Waiting,
    payload: Seq<u8>,
    packet: &[u8],
)
    requires
        facing(sender, receiver),
        packet@ == sender.packet(ACK, payload),
        !looks_idle(sender, payload, wait),
    ensures
        ({
            let (after, waiting, step) = receiver.recv_step(wait, Event::Packet(packet));
            &&& step == Step::Received(payload)
            &&& after == (Socket { ack: advanced(sender.seq, payload.len()), ..receiver })
            &&& waiting == wait
        }),
{
    law_packet_round_trip(
        sender.local_addr,
        sender.remote_addr,
        sender.seq,
        sender.ack,
        ACK,
        payload,
    );
    assert(0x10u16 & 0x04u16 == 0) by (bit_vector);
}

/// Datagrams are independent of each other: two of them that arrive in either order are each received
/// as they were sent, in the order of their arrival.
#[verifier::spinoff_prover]
#[verifier::rlimit(40)]
pub proof fn law_any_order(
    first: Socket,
    second: Socket,
    receiver: Socket,
    wait: Waiting,
    payloads: (Seq<u8>, Seq<u8>),
    packets: (&[u8], &[u8]),
)
    requires
        facing(first, receiver),
        facing(second, receiver),
        packets.0@ == first.packet(ACK, payloads.0),
        packets.1@ == second.packet(ACK, payloads.1),
        !looks_idle(first, payloads.0, wait),
        !looks_idle(second, payloads.1, wait),
    ensures
        ({
            let (r1, w1, s1) = receiver.recv_step(wait, Event::Packet(packets.0));
            let (r2, w2, s2) = r1.recv_step(w1, Event::Packet(packets.1));
            s1 == Step::Received(payloads.0) && s2 == Step::Received(payloads.1)
        }),
        ({
            let (r1, w1, s1) = receiver.recv_step(wait, Event::Packet(packets.1));
            let (r2, w2, s2) = r1.recv_step(w1, Event::Packet(packets.0));
            s1 == Step::Received(payloads.1) && s2 == Step::Received(payloads.0)
        }),
{
    law_datagram(first, receiver, wait, payloads.0, packets.0);
    law_datagram(second, receiver, wait, payloads.1, packets.1);
    let (r1, _, _) = receiver.recv_step(wait, Event::Packet(packets.0));
    let (r2, _, _) = receiver.recv_step(wait, Event::Packet(packets.1));
    law_datagram(second, r1, wait, payloads.1, packets.1);
    law_datagram(first, r2, wait, payloads.0, packets.0);
}

/// A keepalive is answered, whatever the other end waits for, and its answer ends the wait for it.
/// Neither is taken for a datagram, and neither changes the connection.
pub proof fn law_keepalive(
    asking: Socket,
    asked: Socket,
    wait: Waiting,
    other: Waiting,
    question: &[u8],
    answer: &[u8],
)
    requires
        facing(asking, asked),
        wait.seq_sent,
        question@ == asking.keepalive(0),
        answer@ == asked.keepalive(1),
    ensures
        asked.recv_step(other, Event::Packet(question)) == (asked, other, Step::Transmit(answer@)),
        asking.recv_step(wait, Event::Packet(answer)) == (
            asking,
            (Waiting { seq_sent: false, ..wait }),
            Step::Wait,
        ),
{
    law_packet_round_trip(asking.local_addr, asking.remote_addr, 0, 0, ACK, Seq::empty());
    law_packet_round_trip(asked.local_addr, asked.remote_addr, 1, 0, ACK, Seq::empty());
    assert(0x10u16 & 0x04u16 == 0) by (bit_vector);
}

/// What `n` timeouts in a row lead to, every keepalive being sent: how far the wait has come, and
/// the last step.
pub open spec fn silence(socket: Socket, n: nat) -> (Waiting, Step)
    decreases n,
{
    if n == 0 {
        (Waiting { retries: 0, seq_sent: false }, Step::Wait)
    } else {
        let (wait, _) = silence(socket, (n - 1) as nat);
        let (_, asked, step) = socket.recv_step(wait, Event::TimedOut);
        match step {
            Step::Transmit(_) => (socket.recv_step(asked, Event::Sent(true)).1, step),
            _ => (asked, step),
        }
    }
}

/// A peer that never answers is asked three times, and its connection is broken at the sixth
/// timeout, not before.
pub proof fn law_silence(socket: Socket, n: nat)
    requires
        n <= 6,
    ensures
        silence(socket, n).1 is Broken <==> n == 6,
        silence(socket, n).1 is Transmit <==> n % 2 == 1,
        n % 2 == 1 ==> silence(socket, n).1 == Step::Transmit(socket.keepalive(0)),
        n == 6 ==> silence(socket, n).0.retries == RETRIES,
{
    reveal_with_fuel(silence, 7);
}

/// A reset ends a connection, whichever state it is in.
pub proof fn law_reset(socket: Socket, wait: Waiting, seq: u32, packet: &[u8])
    requires
        parsed(packet@) matches Some(s) && is_reset(s),
    ensures
        socket.recv_step(wait, Event::Packet(packet)).2 is Broken,
        socket.connect_step(None, Event::Packet(packet)).2 is Broken,
        socket.accept_step(seq, Event::Packet(packet)).1 is Broken,
{
    assert(0x12u16 & 0x04u16 == 0) by (bit_vector);
}

/// Closing a connection is heard at the other end as a reset.
pub proof fn law_close_is_heard(socket: Socket)
    requires
        socket.local_addr.ip.same_version(socket.remote_addr.ip),
    ensures
        parsed(socket.reset()) matches Some(s) && is_reset(s) && tuple_of(s) == (AddrTuple {
            local_addr: socket.remote_addr,
            remote_addr: socket.local_addr,
        }),
{
    law_packet_round_trip(socket.local_addr, socket.remote_addr, 0, 0, RST, Seq::empty());
    assert(0x04u16 & 0x04u16 != 0) by (bit_vector);
}

/// No event moves a connection to other ends, another queue or another channel.
pub proof fn law_identity(socket: Socket, wait: Waiting, pending: Option<u16>, seq: u32, event: Event)
    ensures
        ({
            let r = socket.recv_step(wait, event).0;
            let c = socket.connect_step(pending, event).0;
            let a = socket.accept_step(seq, event).0;
            &&& r == (Socket { ack: r.ack, ..socket })
            &&& c == (Socket { seq: c.seq, ack: c.ack, state: c.state, ..socket })
            &&& a == (Socket { seq: a.seq, state: a.state, ..socket })
        }),
{
}

/// Whether what a reader remembers is so.
pub open spec fn coherent(reader: ReaderView, shared: SharedView) -> bool {
    forall|t: AddrTuple| #[trigger]
        reader.cache.contains_key(t) ==> shared.has(t) && reader.cache[t] == shared.channel(t)
}

/// A packet goes to its connection: the reader delivers every segment of a connection to the
/// channel of that connection.
pub proof fn law_delivery(reader: ReaderView, shared: SharedView, s: SegmentView)
    requires
        coherent(reader, shared),
        shared.has(tuple_of(s)),
    ensures
        route(reader, shared, s).2 == Route::Deliver(shared.channel(tuple_of(s))),
        route(reader, shared, s).1 == shared,
{
}

/// Readers stay right about the connections. A packet keeps both the reader that took it and any
/// other reader right, making a connection keeps them right, and so does closing one, once they
/// have dropped what they remember of it.
pub proof fn law_readers_stay_coherent(
    reader: ReaderView,
    other: ReaderView,
    shared: SharedView,
    s: SegmentView,
    t: AddrTuple,
)
    requires
        coherent(reader, shared),
        coherent(other, shared),
    ensures
        coherent(route(reader, shared, s).0, route(reader, shared, s).1),
        coherent(other, route(reader, shared, s).1),
        !shared.has(t) ==> coherent(other, shared.with(t)),
        coherent(
            ReaderView { cache: other.cache.remove(t), ..other },
            shared.without(t),
        ),
{
    let (after, changed, _) = route(reader, shared, s);
    assert forall|u: AddrTuple| #[trigger] after.cache.contains_key(u) implies changed.has(u)
        && after.cache[u] == changed.channel(u) by {
        law_flow_keys_differ(u, tuple_of(s));
    }
    assert forall|u: AddrTuple| #[trigger] other.cache.contains_key(u) implies changed.has(u)
        && other.cache[u] == changed.channel(u) by {
        law_flow_keys_differ(u, tuple_of(s));
    }
    if !shared.has(t) {
        assert forall|u: AddrTuple| #[trigger] other.cache.contains_key(u) implies shared.with(
            t,
        ).has(u) && other.cache[u] == shared.with(t).channel(u) by {
            law_flow_keys_differ(u, t);
        }
    }
    let purged = ReaderView { cache: other.cache.remove(t), ..other };
    assert forall|u: AddrTuple| #[trigger] purged.cache.contains_key(u) implies shared.without(
        t,
    ).has(u) && purged.cache[u] == shared.without(t).channel(u) by {
        law_flow_keys_differ(u, t);
    }
}

/// Whether what a reader remembers does no harm: every channel that it remembers was given out, and
/// no connection but the one it is remembered for has it. What is remembered of a closed connection
/// may stand.
pub open spec fn sound(reader: ReaderView, shared: SharedView) -> bool {
    forall|t: AddrTuple| #[trigger]
        reader.cache.contains_key(t) ==> reader.cache[t] < shared.next_incoming && forall|k: FlowKey|
         #[trigger]
            shared.flows.contains_key(k) && shared.flows[k] == reader.cache[t] ==> k == flow_key(t)
}

/// No packet goes to another connection: a channel that a segment is delivered to belongs to the
/// connection of that segment, or to none.
pub proof fn law_no_misdelivery(
    reader: ReaderView,
    shared: SharedView,
    s: SegmentView,
    t: AddrTuple,
)
    requires
        shared.wf(),
        sound(reader, shared),
        shared.has(t),
        route(reader, shared, s).2 == Route::Deliver(shared.channel(t)),
    ensures
        t == tuple_of(s),
{
    law_flow_keys_differ(t, tuple_of(s));
    assert(shared.flows.contains_key(flow_key(t)));
    assert(shared.has(tuple_of(s)) ==> shared.flows.contains_key(flow_key(tuple_of(s))));
}

/// Readers never come to do harm. A packet leaves both the reader that took it and any other reader
/// harmless; so do making a connection, closing one, and dropping what is remembered of one, at
/// whatever time each happens.
pub proof fn law_readers_stay_sound(
    reader: ReaderView,
    other: ReaderView,
    shared: SharedView,
    s: SegmentView,
    t: AddrTuple,
)
    requires
        shared.wf(),
        shared.has_room(),
        sound(reader, shared),
        sound(other, shared),
    ensures
        sound(route(reader, shared, s).0, route(reader, shared, s).1),
        sound(other, route(reader, shared, s).1),
        sound(other, shared.with(t)),
        sound(other, shared.without(t)),
        sound(ReaderView { cache: other.cache.remove(t), ..other }, shared),
{
    let (after, changed, _) = route(reader, shared, s);
    lemma_stays_sound(reader, shared, tuple_of(s));
    lemma_stays_sound(other, shared, tuple_of(s));
    lemma_stays_sound(other, shared, t);
    assert forall|u: AddrTuple| #[trigger] after.cache.contains_key(u) implies after.cache[u]
        < changed.next_incoming && forall|k: FlowKey| #[trigger]
        changed.flows.contains_key(k) && changed.flows[k] == after.cache[u] ==> k == flow_key(
            u,
        ) by {
        if !reader.cache.contains_key(u) {
            assert(u == tuple_of(s));
            assert forall|k: FlowKey| #[trigger]
                changed.flows.contains_key(k) && changed.flows[k] == after.cache[u] implies k
                == flow_key(u) by {
                if shared.has(u) {
                    assert(shared.flows.contains_key(flow_key(u)));
                    assert(shared.flows.contains_key(k));
                } else if k != flow_key(u) {
                    assert(shared.flows.contains_key(k));
                }
            }
        }
    }
}

proof fn lemma_stays_sound(reader: ReaderView, shared: SharedView, t: AddrTuple)
    requires
        shared.wf(),
        shared.has_room(),
        sound(reader, shared),
    ensures
        sound(reader, shared.with(t)),
        sound(reader, shared.without(t)),
        sound(ReaderView { cache: reader.cache.remove(t), ..reader }, shared),
{
    let (more, less) = (shared.with(t), shared.without(t));
    assert forall|u: AddrTuple| #[trigger] reader.cache.contains_key(u) implies reader.cache[u]
        < more.next_incoming && forall|k: FlowKey| #[trigger]
        more.flows.contains_key(k) && more.flows[k] == reader.cache[u] ==> k == flow_key(u) by {
        assert forall|k: FlowKey| #[trigger]
            more.flows.contains_key(k) && more.flows[k] == reader.cache[u] implies k == flow_key(
            u,
        ) by {
            if k != flow_key(t) {
                assert(shared.flows.contains_key(k));
            }
        }
    }
    assert forall|u: AddrTuple| #[trigger] reader.cache.contains_key(u) implies reader.cache[u]
        < less.next_incoming && forall|k: FlowKey| #[trigger]
        less.flows.contains_key(k) && less.flows[k] == reader.cache[u] ==> k == flow_key(u) by {
        assert forall|k: FlowKey| #[trigger]
            less.flows.contains_key(k) && less.flows[k] == reader.cache[u] implies k == flow_key(
            u,
        ) by {
            assert(shared.flows.contains_key(k));
        }
    }
    let purged = ReaderView { cache: reader.cache.remove(t), ..reader };
    assert forall|u: AddrTuple| #[trigger] purged.cache.contains_key(u) implies purged.cache[u]
        < shared.next_incoming && forall|k: FlowKey| #[trigger]
        shared.flows.contains_key(k) && shared.flows[k] == purged.cache[u] ==> k == flow_key(
            u,
        ) by {
        assert(reader.cache.contains_key(u));
    }
}

/// After a connection is closed and a reader has dropped what it remembers of it, its packets are
/// refused, unless they open a new one.
pub proof fn law_closed_is_refused(reader: ReaderView, shared: SharedView, s: SegmentView)
    requires
        s.flags != SYN || !shared.ports.contains(s.destination.port),
    ensures
        ({
            let t = tuple_of(s);
            let purged = ReaderView { cache: reader.cache.remove(t), ..reader };
            route(purged, shared.without(t), s).2 == (if is_reset(s) {
                Route::Ignore
            } else {
                Route::Reset { tun: shared.turn(), packet: refusal(s) }
            })
        }),
{
}

/// What changes the connections of a stack.
pub enum Change {
    /// A connection is made from here.
    Connect(AddrTuple),
    /// A connection is accepted.
    Accept(AddrTuple),
    /// A connection is closed.
    Close(AddrTuple),
    /// A packet is refused.
    Refuse,
}

/// What a series of changes leads to.
pub open spec fn changed(shared: SharedView, changes: Seq<Change>) -> SharedView
    decreases changes.len(),
{
    if changes.len() == 0 {
        shared
    } else {
        let before = changed(shared, changes.drop_last());
        match changes.last() {
            Change::Connect(t) => before.with(t).turned(),
            Change::Accept(t) => before.with(t),
            Change::Close(t) => before.without(t),
            Change::Refuse => before.turned(),
        }
    }
}

/// How many of the changes send through the queue whose turn it is: those that make a connection
/// from here or refuse a packet.
pub open spec fn turns(changes: Seq<Change>) -> nat
    decreases changes.len(),
{
    if changes.len() == 0 {
        0
    } else {
        turns(changes.drop_last()) + if changes.last() is Connect || changes.last() is Refuse {
            1nat
        } else {
            0
        }
    }
}

/// The queues of the device take turns, round and round: after a series of changes to a fresh stack
/// it is the turn of the queue whose number is the count of turns taken, modulo the number of
/// queues. If `k` connections were made and nothing else happened, connection number `k` gets the
/// queue number `k` modulo that.
pub proof fn law_queues_take_turns(tuns: usize, deadline: Option<u64>, changes: Seq<Change>)
    requires
        tuns > 0,
        turns(changes) <= usize::MAX,
    ensures
        changed(SharedView::fresh(tuns, deadline), changes).turn() == turns(changes) as int
            % tuns as int,
        (forall|i: int| 0 <= i < changes.len() ==> #[trigger] changes[i] is Connect)
            ==> turns(changes) == changes.len(),
{
    lemma_turns(tuns, deadline, changes);
    vstd::arithmetic::div_mod::lemma_mod_bound(turns(changes) as int, tuns as int);
}

proof fn lemma_turns(tuns: usize, deadline: Option<u64>, changes: Seq<Change>)
    requires
        turns(changes) <= usize::MAX,
    ensures
        changed(SharedView::fresh(tuns, deadline), changes).tuns == tuns,
        changed(SharedView::fresh(tuns, deadline), changes).tun_index == turns(changes),
        (forall|i: int| 0 <= i < changes.len() ==> #[trigger] changes[i] is Connect)
            ==> turns(changes) == changes.len(),
    decreases changes.len(),
{
    if changes.len() > 0 {
        let before = changes.drop_last();
        lemma_turns(tuns, deadline, before);
        if forall|i: int| 0 <= i < changes.len() ==> #[trigger] changes[i] is Connect {
            assert forall|i: int| 0 <= i < before.len() implies #[trigger] before[i] is Connect by {
                assert(changes[i] is Connect);
            }
            assert(changes[changes.len() - 1] is Connect);
        }
    }
}

/// A connection made and closed again leaves the connections as they were.
pub proof fn law_close_undoes_open(shared: SharedView, t: AddrTuple)
    requires
        !shared.has(t),
    ensures
        shared.with(t).has(t),
        shared.with(t).without(t).flows == shared.flows,
{
    assert(shared.with(t).without(t).flows =~= shared.flows);
}

/// What belongs to no connection and opens none is refused with a reset, and a reset is never
/// answered. The refusal is itself a reset, so it ends the connection at the other end and draws no
/// answer from a stack there.
#[verifier::spinoff_prover]
#[verifier::rlimit(40)]
pub proof fn law_refusal(reader: ReaderView, shared: SharedView, s: SegmentView)
    requires
        s.source.ip.same_version(s.destination.ip),
        !reader.cache.contains_key(tuple_of(s)),
        !shared.has(tuple_of(s)),
        s.flags != SYN || !shared.ports.contains(s.destination.port),
    ensures
        route(reader, shared, s).2 == (if is_reset(s) {
            Route::Ignore
        } else {
            Route::Reset { tun: shared.turn(), packet: refusal(s) }
        }),
        parsed(refusal(s)) matches Some(r) && is_reset(r) && r.source == s.destination
            && r.destination == s.source && r.sequence == s.acknowledgement,
{
    law_packet_round_trip(
        s.destination,
        s.source,
        s.acknowledgement,
        advanced(s.sequence, s.payload.len()),
        RST_ACK,
        Seq::empty(),
    );
    assert(0x14u16 & 0x04u16 != 0) by (bit_vector);
}

/// Moving a sequence number on moves it by just that many, on a circle of 2^32 numbers; and the number
/// before another is one step behind it.
pub proof fn law_numbers_move(seq: u32, n: nat)
    ensures
        (advanced(seq, n) - seq - n) % 0x1_0000_0000 == 0,
        (seq - before(seq) - 1) % 0x1_0000_0000 == 0,
        announced_port(seq) == if seq <= 65535 {
            seq as int
        } else {
            0
        },
{
}

/// The limits that connections and stacks keep to, and the bits of a segment.
pub proof fn law_limits()
    ensures
        crate::socket::TIMEOUT == 3,
        RETRIES == 3,
        crate::socket::LIFETIME == 365 * 86400,
        crate::stack::MPMC_BUFFER_LEN == 1024 * 64,
        crate::stack::MPSC_BUFFER_LEN == 1024 * 8,
        crate::packet::MAX_PACKET_LEN == 1500,
        SYN == 2 && RST == 4 && ACK == 16,
        SYN_ACK == 2 + 16,
        RST_ACK == 4 + 16,
{
}

/// What a connection sends says what it is about: it goes from the local end to the remote end, with
/// the numbers of the connection. An idle acknowledgement and a reset have no payload; the one
/// acknowledges nothing, the other says nothing but that the connection is over.
pub proof fn law_sent_packets(socket: Socket, flags: u16, payload: Seq<u8>, seq: u32)
    requires
        socket.local_addr.ip is V4 <==> socket.remote_addr.ip is V4,
        flags < 512,
    ensures
        parsed(socket.packet(flags, payload)) == Some(
            SegmentView {
                source: socket.local_addr,
                destination: socket.remote_addr,
                sequence: socket.seq,
                acknowledgement: socket.ack,
                flags,
                payload,
            },
        ),
        parsed(socket.keepalive(seq)) == Some(
            SegmentView {
                source: socket.local_addr,
                destination: socket.remote_addr,
                sequence: seq,
                acknowledgement: 0,
                flags: 0x10,
                payload: Seq::empty(),
            },
        ),
        parsed(socket.reset()) == Some(
            SegmentView {
                source: socket.local_addr,
                destination: socket.remote_addr,
                sequence: 0,
                acknowledgement: 0,
                flags: 0x04,
                payload: Seq::empty(),
            },
        ),
        socket.tuple().local_addr == socket.local_addr,
        socket.tuple().remote_addr == socket.remote_addr,
{
    let (from, to) = (socket.local_addr, socket.remote_addr);
    law_packet_round_trip(from, to, socket.seq, socket.ack, flags, payload);
    law_packet_round_trip(from, to, seq, 0, 0x10, Seq::empty());
    law_packet_round_trip(from, to, 0, 0, 0x04, Seq::empty());
}

/// What a segment means to an established connection. One with the reset bit breaks it. An empty
/// acknowledgement of nothing is a question if its number is 0, and is answered with the number 1;
/// with the number 1 it is an answer, if one is awaited. Anything else is a datagram: it is handed
/// over as it is, and acknowledged up to its last byte.
#[verifier::spinoff_prover]
#[verifier::rlimit(40)]
pub proof fn law_what_is_heard(socket: Socket, wait: Waiting, packet: &[u8], s: SegmentView)
    requires
        parsed(packet@) == Some(s),
        socket.local_addr.ip is V4 <==> socket.remote_addr.ip is V4,
    ensures
        ({
            let (after, waiting, step) = socket.recv_step(wait, Event::Packet(packet));
            let idle = s.flags == 0x10 && s.acknowledgement == 0 && s.payload.len() == 0;
            if s.flags & 0x04 != 0 {
                step is Broken && after == socket && waiting == wait
            } else if idle && s.sequence == 0 {
                &&& step matches Step::Transmit(p)
                &&& parsed(p) == Some(
                    SegmentView {
                        source: socket.local_addr,
                        destination: socket.remote_addr,
                        sequence: 1,
                        acknowledgement: 0,
                        flags: 0x10,
                        payload: Seq::empty(),
                    },
                )
                &&& after == socket && waiting == wait
            } else if idle && s.sequence == 1 && wait.seq_sent {
                &&& step is Wait && after == socket
                &&& !waiting.seq_sent && waiting.retries == wait.retries
            } else {
                &&& step == Step::Received(s.payload)
                &&& (after.ack - s.sequence - s.payload.len()) % 0x1_0000_0000 == 0
                &&& after == (Socket { ack: after.ack, ..socket })
                &&& waiting == wait
            }
        }),
{
    law_sent_packets(socket, 0, Seq::empty(), 1);
    assert(socket.recv_step(wait, Event::Packet(packet)) == socket.heard(wait, s));
    lemma_heard(socket, wait, s);
}

proof fn lemma_heard(socket: Socket, wait: Waiting, s: SegmentView)
    ensures
        ({
            let (after, waiting, step) = socket.heard(wait, s);
            let idle = s.flags == 0x10 && s.acknowledgement == 0 && s.payload.len() == 0;
            if s.flags & 0x04 != 0 {
                step is Broken && after == socket && waiting == wait
            } else if idle && s.sequence == 0 {
                &&& step == Step::Transmit(socket.keepalive(1))
                &&& after == socket && waiting == wait
            } else if idle && s.sequence == 1 && wait.seq_sent {
                &&& step is Wait && after == socket
                &&& !waiting.seq_sent && waiting.retries == wait.retries
            } else {
                &&& step == Step::Received(s.payload)
                &&& (after.ack - s.sequence - s.payload.len()) % 0x1_0000_0000 == 0
                &&& after == (Socket { ack: after.ack, ..socket })
                &&& waiting == wait
            }
        }),
{
    law_numbers_move(s.sequence, s.payload.len());
}

/// What else happens to an established connection. Its deadline, the end of its channel, a packet
/// that could not be sent and one that is no TCP packet break it. At the first timeout the peer is
/// asked, with the number 0; at the next one it has left a question unanswered, and three such break
/// the connection.
#[verifier::spinoff_prover]
#[verifier::rlimit(40)]
pub proof fn law_what_else_happens(socket: Socket, wait: Waiting, noise: &[u8])
    requires
        parsed(noise@) is None,
        socket.local_addr.ip is V4 <==> socket.remote_addr.ip is V4,
        wait.retries < 3,
    ensures
        socket.recv_step(wait, Event::Deadline) == (socket, wait, Step::Broken),
        socket.recv_step(wait, Event::Closed) == (socket, wait, Step::Broken),
        socket.recv_step(wait, Event::Sent(false)) == (socket, wait, Step::Broken),
        socket.recv_step(wait, Event::Packet(noise)) == (socket, wait, Step::Broken),
        socket.recv_step(wait, Event::Sent(true)) == (socket, wait, Step::Wait),
        socket.recv_step(wait, Event::Start) == (socket, wait, Step::Wait),
        ({
            let (after, waiting, step) = socket.recv_step(wait, Event::TimedOut);
            &&& after == socket
            &&& waiting.seq_sent == !wait.seq_sent
            &&& if wait.seq_sent {
                &&& waiting.retries == wait.retries + 1
                &&& if wait.retries == 2 {
                    step is Broken
                } else {
                    step is Wait
                }
            } else {
                &&& waiting.retries == wait.retries
                &&& step matches Step::Transmit(p)
                &&& parsed(p) == Some(
                    SegmentView {
                        source: socket.local_addr,
                        destination: socket.remote_addr,
                        sequence: 0,
                        acknowledgement: 0,
                        flags: 0x10,
                        payload: Seq::empty(),
                    },
                )
            }
        }),
{
    law_sent_packets(socket, 0, Seq::empty(), 0);
}

/// An active open starts with an empty SYN that carries the numbers of the connection, and waits for
/// the answer once that is sent.
pub proof fn law_active_open_starts(socket: Socket, pending: Option<u16>)
    requires
        socket.state is Idle,
        socket.local_addr.ip is V4 <==> socket.remote_addr.ip is V4,
    ensures
        ({
            let (after, port, step) = socket.connect_step(pending, Event::Start);
            &&& after == socket && port is None
            &&& step matches Step::Transmit(p)
            &&& parsed(p) == Some(
                SegmentView {
                    source: socket.local_addr,
                    destination: socket.remote_addr,
                    sequence: socket.seq,
                    acknowledgement: socket.ack,
                    flags: 0x02,
                    payload: Seq::empty(),
                },
            )
        }),
        socket.connect_step(pending, Event::Sent(true)) == (
            (Socket { state: State::SynSent, ..socket }),
            None::<u16>,
            Step::Wait,
        ),
{
    law_sent_packets(socket, 0x02, Seq::empty(), 0);
}

/// An active open goes on with a segment that has the SYN and ACK bits alone and acknowledges the
/// SYN, and with no other. The connection then has the number acknowledged as its own, acknowledges
/// the SYN of the other end with an empty ACK, and is established, with the port that the other end
/// announced, once that is sent.
#[verifier::spinoff_prover]
#[verifier::rlimit(40)]
pub proof fn law_active_open_is_answered(socket: Socket, packet: &[u8], s: SegmentView)
    requires
        socket.state is SynSent,
        socket.local_addr.ip is V4 <==> socket.remote_addr.ip is V4,
        parsed(packet@) == Some(s),
    ensures
        ({
            let (after, port, step) = socket.connect_step(None, Event::Packet(packet));
            if s.flags == 0x12 && (s.acknowledgement - socket.seq - 1) % 0x1_0000_0000 == 0 {
                &&& after.seq == s.acknowledgement
                &&& (after.ack - s.sequence - 1) % 0x1_0000_0000 == 0
                &&& after == (Socket { seq: after.seq, ack: after.ack, ..socket })
                &&& port matches Some(n)
                &&& n == if s.sequence <= 65535 {
                    s.sequence as int
                } else {
                    0
                }
                &&& step matches Step::Transmit(p)
                &&& parsed(p) == Some(
                    SegmentView {
                        source: socket.local_addr,
                        destination: socket.remote_addr,
                        sequence: after.seq,
                        acknowledgement: after.ack,
                        flags: 0x10,
                        payload: Seq::empty(),
                    },
                )
                &&& after.connect_step(port, Event::Sent(true)) == (
                    (Socket { state: State::Established, ..after }),
                    None::<u16>,
                    Step::Connected(n),
                )
            } else {
                &&& step is Broken && port is None
                &&& after == (Socket { state: State::Idle, ..socket })
            }
        }),
{
    let (after, port, step) = socket.connect_step(None, Event::Packet(packet));
    assert((after, port, step) == socket.answered(s));
    lemma_answered(socket, s);
    law_sent_packets(after, 0x10, Seq::empty(), 0);
    if port is Some {
        lemma_last_packet_sent(after, port.unwrap());
    }
}

#[verifier::spinoff_prover]
#[verifier::rlimit(40)]
proof fn lemma_last_packet_sent(socket: Socket, port: u16)
    requires
        socket.state is SynSent,
    ensures
        socket.connect_step(Some(port), Event::Sent(true)) == (
            (Socket { state: State::Established, ..socket }),
            None::<u16>,
            Step::Connected(port),
        ),
{
}

proof fn lemma_answered(socket: Socket, s: SegmentView)
    ensures
        ({
            let (after, port, step) = socket.answered(s);
            if s.flags == 0x12 && (s.acknowledgement - socket.seq - 1) % 0x1_0000_0000 == 0 {
                &&& after.seq == s.acknowledgement
                &&& (after.ack - s.sequence - 1) % 0x1_0000_0000 == 0
                &&& after == (Socket { seq: after.seq, ack: after.ack, ..socket })
                &&& port matches Some(n)
                &&& n == if s.sequence <= 65535 {
                    s.sequence as int
                } else {
                    0
                }
                &&& step == Step::Transmit(after.packet(0x10, Seq::empty()))
            } else {
                &&& step is Broken && port is None
                &&& after == (Socket { state: State::Idle, ..socket })
            }
        }),
{
    law_numbers_move(s.acknowledgement, 0);
    law_numbers_move(s.sequence, 1);
}

/// Nothing else keeps an open going: no answer in time, a closed channel, a packet that could not be
/// sent, or one that is no TCP packet ends it, and the connection is idle again.
pub proof fn law_opens_end(
    socket: Socket,
    pending: Option<u16>,
    seq: u32,
    event: Event,
)
    requires
        event is TimedOut || event is Closed || event is Deadline || event == Event::Sent(false) || (
        event matches Event::Packet(b) && parsed(b@) is None),
    ensures
        socket.connect_step(pending, event) == (
            (Socket { state: State::Idle, ..socket }),
            None::<u16>,
            Step::Broken,
        ),
        socket.accept_step(seq, event) == (
            (Socket { state: State::Idle, ..socket }),
            Step::Broken,
        ),
{
}

/// An open goes on at its start, once its packet is sent, and with a packet that it waits for; any
/// other event, in any state, ends it, and the connection is idle again.
pub proof fn law_opens_take_nothing_else(
    socket: Socket,
    pending: Option<u16>,
    seq: u32,
    event: Event,
)
    ensures
        !({
            ||| socket.state is Idle && (event is Start || event == Event::Sent(true))
            ||| socket.state is SynSent && pending is Some && event == Event::Sent(true)
            ||| socket.state is SynSent && pending is None && event is Packet
        }) ==> socket.connect_step(pending, event) == (
            (Socket { state: State::Idle, ..socket }),
            None::<u16>,
            Step::Broken,
        ),
        !({
            ||| socket.state is Idle && (event is Start || event == Event::Sent(true))
            ||| socket.state is SynReceived && event is Packet
        }) ==> socket.accept_step(seq, event) == (
            (Socket { state: State::Idle, ..socket }),
            Step::Broken,
        ),
{
}

/// A passive open starts with an empty SYN and ACK that carries the numbers of the connection, and
/// waits once that is sent.
pub proof fn law_passive_open_starts(socket: Socket, seq: u32)
    requires
        socket.state is Idle,
        socket.local_addr.ip is V4 <==> socket.remote_addr.ip is V4,
    ensures
        ({
            let (after, step) = socket.accept_step(seq, Event::Start);
            &&& after == socket
            &&& step matches Step::Transmit(p)
            &&& parsed(p) == Some(
                SegmentView {
                    source: socket.local_addr,
                    destination: socket.remote_addr,
                    sequence: socket.seq,
                    acknowledgement: socket.ack,
                    flags: 0x12,
                    payload: Seq::empty(),
                },
            )
        }),
        socket.accept_step(seq, Event::Sent(true)) == (
            (Socket { state: State::SynReceived, ..socket }),
            Step::Wait,
        ),
{
    law_sent_packets(socket, 0x12, Seq::empty(), 0);
}

/// A passive open is complete with a segment that has the ACK bit alone and acknowledges the SYN, and
/// with no other. The port announced is the initial number of the other end, if that is a port.
#[verifier::spinoff_prover]
#[verifier::rlimit(40)]
pub proof fn law_passive_open_is_answered(
    socket: Socket,
    seq: u32,
    packet: &[u8],
    s: SegmentView,
)
    requires
        socket.state is SynReceived,
        parsed(packet@) == Some(s),
    ensures
        ({
            let (after, step) = socket.accept_step(seq, Event::Packet(packet));
            if s.flags == 0x10 && (s.acknowledgement - socket.seq - 1) % 0x1_0000_0000 == 0 {
                &&& after == (Socket {
                    seq: s.acknowledgement,
                    state: State::Established,
                    ..socket
                })
                &&& step matches Step::Connected(n)
                &&& n == if seq <= 65535 {
                    seq as int
                } else {
                    0
                }
            } else {
                &&& step is Broken
                &&& after.state == if s.flags & 0x04 != 0 {
                    State::Idle
                } else {
                    State::SynReceived
                }
                &&& after == (Socket { state: after.state, ..socket })
            }
        }),
{
    assert(0x10u16 & 0x04u16 == 0) by (bit_vector);
    law_numbers_move(s.acknowledgement, 0);
}

/// A step is told truly: what is to be sent or was received stands at the start of the buffer, its
/// size is told, and the rest of the buffer is as before.
pub proof fn law_steps_are_told(step: Step, action: Action, earlier: Seq<u8>, later: Seq<u8>)
    requires
        step.told(action, earlier, later),
        earlier.len() <= usize::MAX,
    ensures
        later.len() == earlier.len(),
        step matches Step::Transmit(p) ==> action matches Action::Transmit(n) && n == p.len() && p
            == later.take(n as int) && later.skip(n as int) == earlier.skip(n as int),
        step matches Step::Received(p) ==> action matches Action::Received(n) && n == p.len() && p
            == later.take(n as int) && later.skip(n as int) == earlier.skip(n as int),
        step matches Step::Connected(port) ==> action == Action::Connected(port) && later
            == earlier,
        step is Wait ==> action is Wait && later == earlier,
        step is Broken ==> action is Broken && later == earlier,
{
    match step {
        Step::Transmit(p) => {
            assert(p =~= later.take(p.len() as int));
            assert(later.skip(p.len() as int) =~= earlier.skip(p.len() as int));
        },
        Step::Received(p) => {
            assert(p =~= later.take(p.len() as int));
            assert(later.skip(p.len() as int) =~= earlier.skip(p.len() as int));
        },
        _ => {},
    }
}

/// A buffer of 60 bytes that is no shorter than the packet that arrived is large enough for every
/// step of a connection between ends of one IP version.
pub proof fn law_space_that_is_enough(
    socket: Socket,
    wait: Waiting,
    pending: Option<u16>,
    seq: u32,
    event: Event,
    room: nat,
)
    requires
        socket.local_addr.ip is V4 <==> socket.remote_addr.ip is V4,
        room >= 60,
        event matches Event::Packet(b) ==> room >= b@.len(),
    ensures
        socket.has_space(socket.recv_step(wait, event).2, room),
        socket.has_space(socket.connect_step(pending, event).2, room),
        socket.has_space(socket.accept_step(seq, event).1, room),
{
    if let Event::Packet(b) = event {
        if let Some(s) = parsed(b@) {
            lemma_payload_is_shorter(b@, s);
        }
    }
}

proof fn lemma_payload_is_shorter(b: Seq<u8>, s: SegmentView)
    requires
        parsed(b) == Some(s),
    ensures
        s.payload.len() <= b.len(),
{
}

/// A connection goes out from the address of the stack that has the IP version of the other end, and
/// from the port given; it lives as long as the stack says, or for a year.
pub proof fn law_where_connections_start(stack: Stack, addr: SocketAddr, port: u16)
    requires
        addr.ip is V6 ==> stack.local_ip6 is Some,
    ensures
        ({
            let t = stack.tuple_to(addr, port);
            &&& t.remote_addr == addr
            &&& t.local_addr.port == port
            &&& addr.ip is V4 ==> t.local_addr.ip == IpAddr::V4(stack.local_ip)
            &&& addr.ip is V6 ==> t.local_addr.ip == IpAddr::V6(stack.local_ip6.unwrap())
            &&& t.local_addr == stack.local_end(addr, port)
        }),
        stack.shared@.lifetime() == match stack.shared@.deadline {
            Some(seconds) => seconds as int,
            None => 365int * 86400,
        },
{
}

/// Making a connection gives it the next channel, closing it takes it out, and neither touches another
/// connection, the ports, the queues or the lifetime. Passing on the turn touches nothing else.
pub proof fn law_changes_are_local(shared: SharedView, t: AddrTuple, other: AddrTuple)
    requires
        shared.has_room(),
    ensures
        shared.next_incoming < u64::MAX,
        ({
            let with = shared.with(t);
            &&& with.has(t) && with.channel(t) == shared.next_incoming
            &&& with.next_incoming == shared.next_incoming + 1
            &&& t != other ==> with.has(other) == shared.has(other) && (shared.has(other)
                ==> with.channel(other) == shared.channel(other))
            &&& with.ports == shared.ports && with.tuns == shared.tuns && with.tun_index
                == shared.tun_index && with.deadline == shared.deadline
        }),
        ({
            let without = shared.without(t);
            &&& !without.has(t)
            &&& t != other ==> without.has(other) == shared.has(other) && (shared.has(other)
                ==> without.channel(other) == shared.channel(other))
            &&& without == (SharedView { flows: without.flows, ..shared })
        }),
        ({
            let turned = shared.turned();
            &&& turned == (SharedView { tun_index: turned.tun_index, ..shared })
            &&& shared.tun_index < usize::MAX ==> turned.tun_index == shared.tun_index + 1
            &&& shared.tun_index == usize::MAX ==> turned.tun_index == 0
        }),
{
    law_flow_keys_differ(t, other);
}

/// The queue whose turn it is is one of the queues.
pub proof fn law_turn_is_a_queue(shared: SharedView)
    requires
        shared.tuns > 0,
    ensures
        shared.turn() < shared.tuns,
        shared.turn() == shared.tun_index as int % shared.tuns as int,
{
    vstd::arithmetic::div_mod::lemma_mod_bound(shared.tun_index as int, shared.tuns as int);
}

/// What becomes of a segment that no connection is known for. If it has the SYN bit alone and its port
/// is listened on, it makes a connection: back to where it came from, through the queue it came
/// through, with the port of the other end as its number, and acknowledging the SYN. Otherwise a
/// segment with the reset bit is ignored, and any other is answered with an empty reset that takes up
/// its numbers.
#[verifier::spinoff_prover]
#[verifier::rlimit(40)]
pub proof fn law_unknown_segments(reader: ReaderView, shared: SharedView, s: SegmentView)
    requires
        s.source.ip is V4 <==> s.destination.ip is V4,
        shared.has_room(),
        ({
            let t = AddrTuple { local_addr: s.destination, remote_addr: s.source };
            !reader.cache.contains_key(t) && !shared.has(t)
        }),
    ensures
        ({
            let t = AddrTuple { local_addr: s.destination, remote_addr: s.source };
            let (after, changed, step) = route(reader, shared, s);
            &&& after.tun == reader.tun
            &&& if s.flags == 0x02 && shared.ports.contains(s.destination.port) {
                &&& step matches Route::Accept(c, seq)
                &&& seq == s.sequence
                &&& c.tun == reader.tun && c.incoming == shared.next_incoming
                &&& c.local_addr == s.destination && c.remote_addr == s.source
                &&& c.seq == s.source.port && c.state is Idle
                &&& (c.ack - s.sequence - 1) % 0x1_0000_0000 == 0
                &&& c.lifetime == match shared.deadline {
                    Some(seconds) => seconds as int,
                    None => 365int * 86400,
                }
                &&& changed.has(t) && changed.channel(t) == c.incoming
                &&& changed.tun_index == shared.tun_index && changed.ports == shared.ports
                &&& after.cache == reader.cache.insert(t, c.incoming)
            } else if s.flags & 0x04 != 0 {
                step is Ignore && changed == shared && after == reader
            } else {
                &&& step matches Route::Reset { tun, packet }
                &&& tun == shared.turn()
                &&& parsed(packet) matches Some(r)
                &&& r.source == s.destination && r.destination == s.source
                &&& r.flags == 0x14 && r.payload.len() == 0
                &&& r.sequence == s.acknowledgement
                &&& (r.acknowledgement - s.sequence - s.payload.len()) % 0x1_0000_0000 == 0
                &&& changed == (SharedView { tun_index: changed.tun_index, ..shared })
                &&& after == reader
            }
        }),
{
    law_packet_round_trip(
        s.destination,
        s.source,
        s.acknowledgement,
        advanced(s.sequence, s.payload.len()),
        RST_ACK,
        Seq::empty(),
    );
    law_numbers_move(s.sequence, s.payload.len());
    law_numbers_move(s.sequence, 1);
}

/// A segment of a connection goes to the channel remembered for it, or else to the one that the stack
/// has for it, which is then remembered. Nothing else changes.
pub proof fn law_known_segments(reader: ReaderView, shared: SharedView, s: SegmentView)
    ensures
        ({
            let t = AddrTuple { local_addr: s.destination, remote_addr: s.source };
            let (after, changed, step) = route(reader, shared, s);
            &&& reader.cache.contains_key(t) ==> step == Route::Deliver(reader.cache[t]) && changed
                == shared && after == reader
            &&& !reader.cache.contains_key(t) && shared.has(t) ==> {
                &&& step == Route::Deliver(shared.channel(t))
                &&& changed == shared && after.tun == reader.tun
                &&& after.cache == reader.cache.insert(t, shared.channel(t))
            }
        }),
{
}

/// Where a packet goes is told truly: a packet to send stands at the start of the buffer, its size and
/// its queue are told, and the rest of the buffer is as before.
pub proof fn law_routes_are_told(step: Route, said: Dispatch, earlier: Seq<u8>, later: Seq<u8>)
    requires
        step.told(said, earlier, later),
        earlier.len() <= usize::MAX,
    ensures
        later.len() == earlier.len(),
        step is Ignore ==> said is Ignore && later == earlier,
        step matches Route::Deliver(n) ==> said == Dispatch::Deliver(n) && later == earlier,
        step matches Route::Accept(c, n) ==> said == Dispatch::Accept(c, n) && later == earlier,
        step matches Route::Reset { tun: q, packet: p } ==> said matches Dispatch::Reset {
            tun,
            size,
        } && tun == q && size == p.len() && p == later.take(size as int) && later.skip(size as int)
            == earlier.skip(size as int),
{
    if let Route::Reset { tun, packet } = step {
        assert(packet =~= later.take(packet.len() as int));
        assert(later.skip(packet.len() as int) =~= earlier.skip(packet.len() as int));
    }
}

} // verus!
