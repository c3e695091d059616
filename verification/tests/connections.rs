use tonel::addr::AddrTuple;
use tonel::addr::IpAddr;
use tonel::addr::SocketAddr;
use tonel::flows::key_of;
use tonel::packet::build_tcp_packet;
use tonel::packet::parse_ip_packet;
use tonel::packet::Segment;
use tonel::packet::ACK;
use tonel::packet::RST;
use tonel::packet::RST_ACK;
use tonel::packet::SYN;
use tonel::packet::SYN_ACK;
use tonel::socket::advance;
use tonel::socket::describe;
use tonel::socket::Action;
use tonel::socket::Event;
use tonel::socket::Socket;
use tonel::socket::State;
use tonel::socket::Waiting;
use tonel::socket::LIFETIME;
use tonel::stack::Dispatch;
use tonel::stack::Reader;
use tonel::stack::Stack;

const CLIENT_IP: u32 = 0x0a00_0002;
const SERVER_IP: u32 = 0x0a00_0001;

fn client_end() -> SocketAddr {
    SocketAddr::new(IpAddr::V4(CLIENT_IP), 40_000)
}

fn server_end() -> SocketAddr {
    SocketAddr::new(IpAddr::V4(SERVER_IP), 443)
}

fn client(seq: u32, ack: u32, state: State) -> Socket {
    Socket::new(0, 1, client_end(), server_end(), seq, ack, state, None)
}

fn server(seq: u32, ack: u32, state: State) -> Socket {
    Socket::new(0, 2, server_end(), client_end(), seq, ack, state, Some(60))
}

fn packet(from: SocketAddr, to: SocketAddr, seq: u32, ack: u32, flags: u16, data: &[u8]) -> Vec<u8> {
    let mut buf = vec![0u8; 1500];
    let size = build_tcp_packet(&mut buf, from, to, seq, ack, flags, Some(data)).unwrap();
    buf.truncate(size);
    buf
}

fn sent(action: Action, buf: &[u8]) -> Vec<u8> {
    match action {
        Action::Transmit(size) => buf[..size].to_vec(),
        other => panic!("nothing to send: {:?}", other),
    }
}

fn segment(bytes: &[u8]) -> Segment {
    parse_ip_packet(bytes).unwrap()
}

fn waiting() -> Waiting {
    Waiting { retries: 0, seq_sent: false }
}

#[test]
fn new_sockets() {
    let socket = client(5, 6, State::Idle);
    assert_eq!(socket.local_addr(), client_end());
    assert_eq!(socket.remote_addr(), server_end());
    assert_eq!((socket.seq, socket.ack, socket.state), (5, 6, State::Idle));
    assert_eq!(socket.lifetime, 365 * 86400);
    assert_eq!(LIFETIME, 365 * 86400);
    assert_eq!(server(0, 0, State::Idle).lifetime, 60);
}

#[test]
fn names_of_connections() {
    assert_eq!(
        describe("10.0.0.2:40000", "10.0.0.1:443"),
        "(TCP connection from 10.0.0.2:40000 to 10.0.0.1:443)"
    );
}

#[test]
fn datagrams_arrive() {
    let mut a = client(100, 7, State::Established);
    let mut b = server(7, 0, State::Established);
    let mut buf = [0u8; 1500];
    let size = a.send(&mut buf, b"hello").unwrap();
    assert_eq!(a.seq, 105);
    let bytes = buf[..size].to_vec();
    let sent = segment(&bytes);
    assert_eq!((sent.sequence, sent.acknowledgement, sent.flags), (100, 7, ACK));
    let mut wait = waiting();
    let mut out = [0u8; 1500];
    assert_eq!(b.recv(&mut wait, &mut out, Event::Packet(&bytes)), Action::Received(5));
    assert_eq!(&out[..5], b"hello");
    assert_eq!(b.ack, 105);
}

#[test]
fn datagrams_may_come_in_any_order() {
    let mut a = client(100, 7, State::Established);
    let mut b = server(7, 0, State::Established);
    let mut buf = [0u8; 1500];
    let size = a.send(&mut buf, b"first").unwrap();
    let first = buf[..size].to_vec();
    let size = a.send(&mut buf, b"second").unwrap();
    let second = buf[..size].to_vec();
    let mut wait = waiting();
    assert_eq!(b.recv(&mut wait, &mut buf, Event::Packet(&second)), Action::Received(6));
    assert_eq!(&buf[..6], b"second");
    assert_eq!(b.ack, 111);
    assert_eq!(b.recv(&mut wait, &mut buf, Event::Packet(&first)), Action::Received(5));
    assert_eq!(&buf[..5], b"first");
    assert_eq!(b.ack, 105);
}

#[test]
fn sequence_numbers_wrap() {
    assert_eq!(advance(u32::MAX, 1), 0);
    assert_eq!(advance(u32::MAX - 1, 5), 3);
    assert_eq!(advance(3, 0), 3);
    let mut a = client(u32::MAX - 1, 0, State::Established);
    let mut buf = [0u8; 100];
    a.send(&mut buf, b"abc").unwrap();
    assert_eq!(a.seq, 1);
}

#[test]
fn datagrams_that_do_not_fit() {
    let mut a = client(1, 2, State::Established);
    let mut buf = [0u8; 44];
    assert_eq!(a.send(&mut buf, b"12345"), None);
    assert_eq!(a.seq, 1);
    assert_eq!(a.send(&mut buf, b"1234"), Some(44));
    assert_eq!(a.seq, 5);
}

#[test]
fn keepalives_are_answered() {
    let mut a = client(50, 60, State::Established);
    let mut b = server(60, 50, State::Established);
    let mut buf = [0u8; 1500];
    let mut wait = waiting();
    let question = sent(a.recv(&mut wait, &mut buf, Event::TimedOut), &buf);
    assert!(wait.seq_sent);
    let asked = segment(&question);
    assert_eq!((asked.sequence, asked.acknowledgement, asked.flags), (0, 0, ACK));
    assert!(asked.payload.is_empty());
    assert_eq!(a.recv(&mut wait, &mut buf, Event::Sent(true)), Action::Wait);
    let mut other = waiting();
    let answer = sent(b.recv(&mut other, &mut buf, Event::Packet(&question)), &buf);
    let answered = segment(&answer);
    assert_eq!((answered.sequence, answered.acknowledgement, answered.flags), (1, 0, ACK));
    assert_eq!(b.recv(&mut other, &mut buf, Event::Sent(true)), Action::Wait);
    assert_eq!(a.recv(&mut wait, &mut buf, Event::Packet(&answer)), Action::Wait);
    assert_eq!(wait, waiting());
    assert_eq!((a.seq, a.ack, b.seq, b.ack), (50, 60, 60, 50));
}

#[test]
fn an_answer_nobody_waits_for_is_an_empty_datagram() {
    let mut a = client(50, 60, State::Established);
    let mut buf = [0u8; 1500];
    let answer = packet(server_end(), client_end(), 1, 0, ACK, b"");
    let mut wait = waiting();
    assert_eq!(a.recv(&mut wait, &mut buf, Event::Packet(&answer)), Action::Received(0));
    assert_eq!(a.ack, 1);
}

#[test]
fn a_silent_peer_is_given_up() {
    let mut a = client(50, 60, State::Established);
    let mut buf = [0u8; 1500];
    let mut wait = waiting();
    for round in 1..4 {
        let question = sent(a.recv(&mut wait, &mut buf, Event::TimedOut), &buf);
        assert_eq!(segment(&question).sequence, 0);
        assert_eq!(a.recv(&mut wait, &mut buf, Event::Sent(true)), Action::Wait);
        let action = a.recv(&mut wait, &mut buf, Event::TimedOut);
        assert_eq!(action, if round < 3 { Action::Wait } else { Action::Broken });
    }
}

#[test]
fn what_breaks_a_connection() {
    let mut a = client(50, 60, State::Established);
    let mut buf = [0u8; 1500];
    let mut wait = waiting();
    let reset = packet(server_end(), client_end(), 0, 0, RST, b"");
    assert_eq!(a.recv(&mut wait, &mut buf, Event::Packet(&reset)), Action::Broken);
    let reset = packet(server_end(), client_end(), 0, 0, RST_ACK, b"data");
    assert_eq!(a.recv(&mut wait, &mut buf, Event::Packet(&reset)), Action::Broken);
    assert_eq!(a.recv(&mut wait, &mut buf, Event::Packet(b"noise")), Action::Broken);
    assert_eq!(a.recv(&mut wait, &mut buf, Event::Closed), Action::Broken);
    assert_eq!(a.recv(&mut wait, &mut buf, Event::Deadline), Action::Broken);
    assert_eq!(a.recv(&mut wait, &mut buf, Event::Sent(false)), Action::Broken);
    let mut idle = client(50, 60, State::SynSent);
    let mut pending = None;
    assert_eq!(idle.connect(&mut pending, &mut buf, Event::Packet(&reset)), Action::Broken);
    assert_eq!(idle.state, State::Idle);
    let mut half = server(1, 2, State::SynReceived);
    assert_eq!(half.accept(&mut buf, 0, Event::Packet(&reset)), Action::Broken);
    assert_eq!(half.state, State::Idle);
}

#[test]
fn a_handshake() {
    let mut front = Stack::new(2, SERVER_IP, None, None);
    front.listen(443);
    let mut reader = Reader::new(1);
    let mut back = Stack::new(1, CLIENT_IP, None, Some(9));
    let mut a = back.connect(server_end(), 40_000, 1234).unwrap();
    assert_eq!(a.lifetime, 9);
    let mut buf = [0u8; 1500];
    let mut pending = None;
    let syn = sent(a.connect(&mut pending, &mut buf, Event::Start), &buf);
    let opening = segment(&syn);
    assert_eq!((opening.sequence, opening.acknowledgement, opening.flags), (1234, 0, SYN));
    assert_eq!(a.connect(&mut pending, &mut buf, Event::Sent(true)), Action::Wait);
    assert_eq!(a.state, State::SynSent);

    let mut send_buf = [0u8; 1500];
    let (mut b, seq) = match reader.dispatch(&mut front.shared, &syn, &mut send_buf) {
        Dispatch::Accept(socket, seq) => (socket, seq),
        _ => panic!("not accepted"),
    };
    assert_eq!(seq, 1234);
    assert_eq!((b.tun, b.seq, b.ack), (1, 40_000, 1235));
    let answer = sent(b.accept(&mut buf, seq, Event::Start), &buf);
    let answering = segment(&answer);
    assert_eq!(
        (answering.sequence, answering.acknowledgement, answering.flags),
        (40_000, 1235, SYN_ACK)
    );
    assert_eq!(b.accept(&mut buf, seq, Event::Sent(true)), Action::Wait);
    assert_eq!(b.state, State::SynReceived);

    let last = sent(a.connect(&mut pending, &mut buf, Event::Packet(&answer)), &buf);
    assert_eq!(pending, Some(40_000));
    assert_eq!(a.state, State::SynSent);
    assert_eq!(a.connect(&mut pending, &mut buf, Event::Sent(true)), Action::Connected(40_000));
    assert_eq!(b.accept(&mut buf, seq, Event::Packet(&last)), Action::Connected(1234));
    assert_eq!((a.state, b.state), (State::Established, State::Established));
    assert_eq!((a.seq, a.ack), (b.ack, b.seq));
    assert_eq!((a.seq, a.ack), (1235, 40_001));
}

#[test]
fn numbers_that_announce_no_port() {
    let mut b = server(5, 6, State::SynReceived);
    let mut buf = [0u8; 100];
    let last = packet(client_end(), server_end(), 6, 6, ACK, b"");
    assert_eq!(b.accept(&mut buf, 70_000, Event::Packet(&last)), Action::Connected(0));
}

#[test]
fn handshakes_at_the_end_of_the_numbers() {
    let mut b = server(u32::MAX, 6, State::SynReceived);
    let mut buf = [0u8; 100];
    let last = packet(client_end(), server_end(), 6, 0, ACK, b"");
    assert_eq!(b.accept(&mut buf, 1, Event::Packet(&last)), Action::Connected(1));
    assert_eq!(b.seq, 0);
    let mut a = client(u32::MAX, 0, State::SynSent);
    let mut pending = None;
    let answer = packet(server_end(), client_end(), u32::MAX, 0, SYN_ACK, b"");
    let last = sent(a.connect(&mut pending, &mut buf, Event::Packet(&answer)), &buf);
    assert_eq!(segment(&last).acknowledgement, 0);
    assert_eq!(pending, Some(0));
}

#[test]
fn handshakes_that_fail() {
    let mut buf = [0u8; 100];
    let mut pending = None;
    for event in [Event::Closed, Event::TimedOut, Event::Packet(b"noise")] {
        let mut a = client(1, 0, State::SynSent);
        assert_eq!(a.connect(&mut pending, &mut buf, event), Action::Broken);
        assert_eq!(a.state, State::Idle);
    }
    let mut a = client(1, 0, State::Idle);
    assert_eq!(a.connect(&mut pending, &mut buf, Event::Sent(false)), Action::Broken);
    let wrong = packet(server_end(), client_end(), 5, 3, SYN_ACK, b"");
    let mut a = client(1, 0, State::SynSent);
    assert_eq!(a.connect(&mut pending, &mut buf, Event::Packet(&wrong)), Action::Broken);
    assert_eq!((a.seq, a.state), (1, State::Idle));
    pending = Some(9);
    let mut a = client(1, 0, State::SynSent);
    assert_eq!(a.connect(&mut pending, &mut buf, Event::Sent(false)), Action::Broken);
    assert_eq!((a.state, pending), (State::Idle, None));

    for event in [Event::Closed, Event::TimedOut, Event::Packet(b"noise")] {
        let mut b = server(1, 0, State::SynReceived);
        assert_eq!(b.accept(&mut buf, 0, event), Action::Broken);
        assert_eq!(b.state, State::Idle);
    }
    let mut b = server(1, 0, State::SynReceived);
    let wrong = packet(client_end(), server_end(), 5, 3, ACK, b"");
    assert_eq!(b.accept(&mut buf, 0, Event::Packet(&wrong)), Action::Broken);
    assert_eq!(b.state, State::SynReceived);
}

#[test]
fn connections_of_a_stack() {
    let mut stack = Stack::new(3, CLIENT_IP, Some(5), None);
    let a = stack.connect(server_end(), 1000, 0).unwrap();
    let b = stack.connect(server_end(), 1001, 0).unwrap();
    assert!(stack.connect(server_end(), 1000, 0).is_none());
    let remote6 = SocketAddr::new(IpAddr::V6(9), 1);
    let c = stack.connect(remote6, 1000, 0).unwrap();
    let d = stack.connect(server_end(), 1002, 0).unwrap();
    assert_eq!((a.tun, b.tun, c.tun, d.tun), (0, 1, 2, 0));
    assert_eq!((a.incoming, b.incoming, c.incoming), (0, 1, 2));
    assert_eq!(c.local_addr(), SocketAddr::new(IpAddr::V6(5), 1000));
    assert_eq!(stack.shared.tuns(), 3);
    assert!(stack.shared.has_room());

    let mut buf = [0u8; 100];
    let ends = AddrTuple::new(a.local_addr(), a.remote_addr());
    assert!(stack.shared.has(&ends));
    let (tuple, size) = a.drop(&mut stack.shared, &mut buf);
    assert_eq!(tuple, ends);
    assert!(!stack.shared.has(&tuple));
    let reset = segment(&buf[..size]);
    assert_eq!((reset.sequence, reset.acknowledgement, reset.flags), (0, 0, RST));
    assert_eq!(reset.destination, server_end());
    assert!(stack.connect(server_end(), 1000, 0).is_some());
}

#[test]
fn ports_of_a_stack() {
    let mut stack = Stack::new(1, SERVER_IP, None, None);
    assert!(!stack.shared.is_listening(443));
    stack.listen(443);
    assert!(stack.shared.is_listening(443));
    assert!(!stack.shared.is_listening(444));
}

#[test]
fn packets_reach_their_connection() {
    let mut stack = Stack::new(1, CLIENT_IP, None, None);
    let a = stack.connect(server_end(), 40_000, 0).unwrap();
    let b = stack.connect(server_end(), 40_001, 0).unwrap();
    let mut reader = Reader::new(0);
    let mut buf = [0u8; 100];
    let for_a = packet(server_end(), client_end(), 1, 1, ACK, b"x");
    let other = SocketAddr::new(IpAddr::V4(CLIENT_IP), 40_001);
    let for_b = packet(server_end(), other, 1, 1, ACK, b"x");
    for _ in 0..2 {
        match reader.dispatch(&mut stack.shared, &for_a, &mut buf) {
            Dispatch::Deliver(channel) => assert_eq!(channel, a.incoming),
            _ => panic!("not delivered"),
        }
        match reader.dispatch(&mut stack.shared, &for_b, &mut buf) {
            Dispatch::Deliver(channel) => assert_eq!(channel, b.incoming),
            _ => panic!("not delivered"),
        }
    }
    let (tuple, _) = a.drop(&mut stack.shared, &mut buf);
    match reader.dispatch(&mut stack.shared, &for_a, &mut buf) {
        Dispatch::Deliver(channel) => assert_eq!(channel, 0),
        _ => panic!("not remembered"),
    }
    reader.purge(&tuple);
    match reader.dispatch(&mut stack.shared, &for_a, &mut buf) {
        Dispatch::Reset { .. } => {}
        _ => panic!("not refused"),
    }
}

#[test]
fn packets_of_no_connection() {
    let mut stack = Stack::new(2, SERVER_IP, None, None);
    stack.listen(443);
    let mut reader = Reader::new(0);
    let mut buf = [0u8; 100];
    let stray = packet(client_end(), server_end(), 10, 20, ACK, b"abc");
    for tun in [0usize, 1, 0] {
        match reader.dispatch(&mut stack.shared, &stray, &mut buf) {
            Dispatch::Reset { tun: t, size } => {
                assert_eq!(t, tun);
                let reset = segment(&buf[..size]);
                assert_eq!((reset.sequence, reset.acknowledgement), (20, 13));
                assert_eq!(reset.flags, RST_ACK);
                assert_eq!((reset.source, reset.destination), (server_end(), client_end()));
            }
            _ => panic!("not refused"),
        }
    }
    let reset = packet(client_end(), server_end(), 10, 20, RST, b"");
    assert!(matches!(
        reader.dispatch(&mut stack.shared, &reset, &mut buf),
        Dispatch::Ignore
    ));
    assert!(matches!(
        reader.dispatch(&mut stack.shared, b"noise", &mut buf),
        Dispatch::Ignore
    ));
    let closed = SocketAddr::new(IpAddr::V4(SERVER_IP), 444);
    let syn = packet(client_end(), closed, 10, 0, SYN, b"");
    assert!(matches!(
        reader.dispatch(&mut stack.shared, &syn, &mut buf),
        Dispatch::Reset { .. }
    ));
}

#[test]
fn an_opened_connection_gets_its_packets() {
    let mut stack = Stack::new(1, SERVER_IP, None, None);
    stack.listen(443);
    let mut reader = Reader::new(0);
    let mut other = Reader::new(1);
    let mut buf = [0u8; 100];
    let syn = packet(client_end(), server_end(), u32::MAX, 0, SYN, b"");
    let socket = match reader.dispatch(&mut stack.shared, &syn, &mut buf) {
        Dispatch::Accept(socket, seq) => {
            assert_eq!(seq, u32::MAX);
            socket
        }
        _ => panic!("not accepted"),
    };
    assert_eq!(socket.ack, 0);
    for r in [&mut reader, &mut other] {
        match r.dispatch(&mut stack.shared, &syn, &mut buf) {
            Dispatch::Deliver(channel) => assert_eq!(channel, socket.incoming),
            _ => panic!("not delivered"),
        }
    }
}

#[test]
fn keys_differ() {
    let a = AddrTuple::new(client_end(), server_end());
    let b = AddrTuple::new(server_end(), client_end());
    let six = SocketAddr::new(IpAddr::V6(CLIENT_IP as u128), 40_000);
    let c = AddrTuple::new(six, server_end());
    assert_ne!(key_of(&a), key_of(&b));
    assert_ne!(key_of(&a), key_of(&c));
}

#[test]
fn a_stale_reader_does_no_harm() {
    let mut stack = Stack::new(1, CLIENT_IP, None, None);
    let a = stack.connect(server_end(), 40_000, 0).unwrap();
    let mut reader = Reader::new(0);
    let mut buf = [0u8; 100];
    let for_a = packet(server_end(), client_end(), 1, 1, ACK, b"x");
    reader.dispatch(&mut stack.shared, &for_a, &mut buf);
    let gone = a.incoming;
    a.drop(&mut stack.shared, &mut buf);
    let again = stack.connect(server_end(), 40_000, 0).unwrap();
    let other = stack.connect(server_end(), 40_001, 0).unwrap();
    assert!(gone != again.incoming && gone != other.incoming);
    match reader.dispatch(&mut stack.shared, &for_a, &mut buf) {
        Dispatch::Deliver(channel) => assert_eq!(channel, gone),
        _ => panic!("not remembered"),
    }
    reader.purge(&AddrTuple::new(client_end(), server_end()));
    match reader.dispatch(&mut stack.shared, &for_a, &mut buf) {
        Dispatch::Deliver(channel) => assert_eq!(channel, again.incoming),
        _ => panic!("not delivered"),
    }
}

#[test]
fn closing_is_heard() {
    let mut stack = Stack::new(1, CLIENT_IP, None, None);
    let a = stack.connect(server_end(), 40_000, 0).unwrap();
    let mut buf = [0u8; 40];
    let (_, size) = a.drop(&mut stack.shared, &mut buf);
    assert_eq!(size, 40);
    let mut b = server(1, 2, State::Established);
    let mut wait = waiting();
    let mut out = [0u8; 100];
    assert_eq!(b.recv(&mut wait, &mut out, Event::Packet(&buf)), Action::Broken);
    assert_eq!((b.seq, b.ack, b.tun, b.incoming), (1, 2, 0, 2));
}

#[test]
fn a_refusal_draws_no_answer() {
    let mut front = Stack::new(1, SERVER_IP, None, None);
    let mut back = Stack::new(1, CLIENT_IP, None, None);
    let mut reader = Reader::new(0);
    let mut buf = [0u8; 60];
    let stray = packet(client_end(), server_end(), u32::MAX, 20, ACK, b"abc");
    let size = match reader.dispatch(&mut front.shared, &stray, &mut buf) {
        Dispatch::Reset { size, .. } => size,
        _ => panic!("not refused"),
    };
    let refusal = buf[..size].to_vec();
    assert_eq!(segment(&refusal).acknowledgement, 2);
    let mut reader = Reader::new(0);
    assert!(matches!(
        reader.dispatch(&mut back.shared, &refusal, &mut buf),
        Dispatch::Ignore
    ));
}

#[test]
fn a_handshake_over_ipv6() {
    let remote = SocketAddr::new(IpAddr::V6(1), 443);
    let mut front = Stack::new(1, SERVER_IP, Some(1), None);
    front.listen(443);
    let mut back = Stack::new(1, CLIENT_IP, Some(2), None);
    let mut a = back.connect(remote, 50_000, 0).unwrap();
    let mut buf = [0u8; 60];
    let mut pending = None;
    let syn = sent(a.connect(&mut pending, &mut buf, Event::Start), &buf);
    assert_eq!(syn.len(), 60);
    a.connect(&mut pending, &mut buf, Event::Sent(true));
    let mut reader = Reader::new(0);
    let mut b = match reader.dispatch(&mut front.shared, &syn, &mut buf) {
        Dispatch::Accept(socket, 0) => socket,
        _ => panic!("not accepted"),
    };
    let answer = sent(b.accept(&mut buf, 0, Event::Start), &buf);
    b.accept(&mut buf, 0, Event::Sent(true));
    let last = sent(a.connect(&mut pending, &mut buf, Event::Packet(&answer)), &buf);
    assert_eq!(a.connect(&mut pending, &mut buf, Event::Sent(true)), Action::Connected(50_000));
    assert_eq!(b.accept(&mut buf, 0, Event::Packet(&last)), Action::Connected(0));
}
