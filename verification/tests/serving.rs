use tonel::addr::IpAddr;
use tonel::addr::SocketAddr;
use tonel::encryption::Encryption;
use tonel::pf;
use tonel::rules::manual_rules;
use tonel::rules::AutoRule;
use tonel::rules::Command;
use tonel::rules::Run;
use tonel::server::bind_address;
use tonel::server::uplink;
use tonel::server::Admission;
use tonel::server::Downlink;
use tonel::server::Link;
use tonel::server::LinkAction;
use tonel::server::LinkEvent;
use tonel::server::Peers;
use tonel::server::Uplink;
use tonel::text::assign;
use tonel::text::decimal;
use tonel::text::split_spaces;
use tonel::text::squeeze;
use tonel::text::white;

fn at(ip: u32, port: u16) -> SocketAddr {
    SocketAddr::new(IpAddr::V4(ip), port)
}

fn line(command: &Command) -> String {
    format!("{} {}", command.program, command.args.join(" "))
}

#[test]
fn encryption_names() {
    assert!(Encryption::from("xor:key").is_some());
    assert!(Encryption::from("xor:").is_none());
    assert!(Encryption::from("aes:key").is_none());
    assert!(Encryption::from("XOR:key").is_none());
    assert!(Encryption::from("").is_none());
}

#[test]
fn encryption_and_back() {
    let encryption = Encryption::from("xor:ab").unwrap();
    let mut data = *b"abc";
    encryption.encrypt(&mut data);
    assert_eq!(data, [0, 0, b'c' ^ b'a']);
    encryption.decrypt(&mut data);
    assert_eq!(&data, b"abc");
}

#[test]
fn where_to_bind() {
    assert_eq!(bind_address(&at(5, 5)), at(0, 0));
    let six = SocketAddr::new(IpAddr::V6(7), 7);
    assert_eq!(bind_address(&six), SocketAddr::new(IpAddr::V6(0), 0));
}

#[test]
fn clients_with_more_connections() {
    let mut peers = Peers::new();
    assert_eq!(peers.classify(&at(1, 500), 0), Admission::First);
    assert_eq!(peers.classify(&at(1, 501), 500), Admission::Refuse);
    peers.insert(at(1, 500), 7);
    peers.insert(at(2, 500), 8);
    assert_eq!(peers.classify(&at(1, 501), 500), Admission::Join(7));
    assert_eq!(peers.classify(&at(2, 501), 500), Admission::Join(8));
    assert_eq!(peers.classify(&at(3, 501), 500), Admission::Refuse);
    peers.insert(at(1, 500), 9);
    assert_eq!(peers.classify(&at(1, 501), 500), Admission::Join(9));
    peers.remove(&at(1, 500));
    assert_eq!(peers.classify(&at(1, 501), 500), Admission::Refuse);
    assert_eq!(peers.classify(&at(2, 501), 500), Admission::Join(8));
}

#[test]
fn the_first_connection_takes_its_client_out() {
    let mut peers = Peers::new();
    assert_eq!(peers.insert(at(1, 500), 7), None);
    assert_eq!(peers.insert(at(1, 500), 8), Some(7));
    assert_eq!(peers.closed(&at(1, 501), 500), None);
    assert_eq!(peers.closed(&at(1, 500), 500), None);
    assert_eq!(peers.classify(&at(1, 501), 500), Admission::Join(8));
    assert_eq!(peers.closed(&at(1, 500), 0), Some(8));
    assert_eq!(peers.classify(&at(1, 501), 500), Admission::Refuse);
    assert_eq!(peers.closed(&at(1, 500), 0), None);
}

#[test]
fn many_clients() {
    let mut peers = Peers::new();
    let six = |n: u32| SocketAddr::new(IpAddr::V6(((n as u128) << 100) + n as u128), 9);
    for n in 0..3000u32 {
        peers.insert(at(n, 1 + (n % 7) as u16), n as u64);
        peers.insert(six(n), 10_000 + n as u64);
    }
    for n in (0..3000u32).step_by(3) {
        peers.remove(&at(n, 1 + (n % 7) as u16));
    }
    for n in 0..3000u32 {
        let known = peers.classify(&at(n, 0), 1 + (n % 7) as u16);
        if n % 3 == 0 {
            assert_eq!(known, Admission::Refuse);
        } else {
            assert_eq!(known, Admission::Join(n as u64));
        }
        assert_eq!(peers.classify(&six(n), 9), Admission::Join(10_000 + n as u64));
    }
}

#[test]
fn from_udp_to_the_client() {
    let encryption = Encryption::from("xor:k");
    let mut link = Link::new(false);
    let mut up = Uplink::new();
    let mut data = *b"kk";
    let mut step = |data: &mut [u8], e: &Option<Encryption>, event| {
        uplink(&mut up, &mut link, e, data, event)
    };
    assert_eq!(step(&mut data, &encryption, LinkEvent::Arrived), LinkAction::SendTcp);
    assert_eq!(data, [0, 0]);
    assert_eq!(step(&mut data, &encryption, LinkEvent::Sent(true)), LinkAction::Notify);
    assert_eq!(step(&mut data, &encryption, LinkEvent::Sent(false)), LinkAction::Stop);
    assert_eq!(step(&mut data, &encryption, LinkEvent::Cancelled), LinkAction::Stop);
    assert_eq!(step(&mut data, &encryption, LinkEvent::Lost), LinkAction::Stop);
    assert_eq!(step(&mut data, &encryption, LinkEvent::Activity), LinkAction::Wait);
    assert_eq!(data, [0, 0]);
    assert_eq!(step(&mut data, &None, LinkEvent::Arrived), LinkAction::SendTcp);
    assert_eq!(data, [0, 0]);
}

#[test]
fn the_handshake_packet_goes_before_udp() {
    let encryption = Encryption::from("xor:k");
    let mut link = Link::new(true);
    let (mut a, mut b) = (Uplink::new(), Uplink::new());
    let mut down = Downlink::new(2);
    let mut first = *b"kk";
    let mut other = *b"kkk";
    let action = uplink(&mut a, &mut link, &encryption, &mut first, LinkEvent::Arrived);
    assert_eq!(action, LinkAction::SendHandshake);
    assert_eq!(&first, b"kk");
    let action = uplink(&mut b, &mut link, &encryption, &mut other, LinkEvent::Arrived);
    assert_eq!(action, LinkAction::Hold);
    assert_eq!(&other, b"kkk");
    let action = uplink(&mut a, &mut link, &encryption, &mut first, LinkEvent::Sent(true));
    assert_eq!(action, LinkAction::SendTcp);
    assert_eq!(first, [0, 0]);
    let action = uplink(&mut a, &mut link, &encryption, &mut first, LinkEvent::Sent(true));
    assert_eq!(action, LinkAction::Notify);
    let action = uplink(&mut b, &mut link, &encryption, &mut other, LinkEvent::Arrived);
    assert_eq!(action, LinkAction::SendTcp);
    assert_eq!(other, [0, 0, 0]);

    let mut data = *b"kk";
    let action = down.advance(&mut link, &encryption, &mut data, LinkEvent::Arrived);
    assert_eq!(action, LinkAction::Wait);
    assert_eq!(&data, b"kk");
    let action = down.advance(&mut link, &encryption, &mut data, LinkEvent::Arrived);
    assert_eq!(action, LinkAction::SendUdp(1));
    assert_eq!(data, [0, 0]);
}

#[test]
fn a_handshake_packet_that_cannot_be_sent() {
    let mut link = Link::new(true);
    let (mut a, mut b) = (Uplink::new(), Uplink::new());
    let mut data = *b"x";
    uplink(&mut a, &mut link, &None, &mut data, LinkEvent::Arrived);
    let action = uplink(&mut a, &mut link, &None, &mut data, LinkEvent::Sent(false));
    assert_eq!(action, LinkAction::Stop);
    let action = uplink(&mut b, &mut link, &None, &mut data, LinkEvent::Arrived);
    assert_eq!(action, LinkAction::Hold);
    let action = uplink(&mut b, &mut link, &None, &mut data, LinkEvent::Cancelled);
    assert_eq!(action, LinkAction::Stop);
}

#[test]
fn from_the_client_to_udp() {
    let encryption = Encryption::from("xor:k");
    let mut shared = Link::new(true);
    let mut up = Uplink::new();
    let mut link = Downlink::new(3);
    let mut data = *b"kk";
    let mut step = |shared: &mut Link, data: &mut [u8], event| {
        link.advance(shared, &encryption, data, event)
    };
    assert_eq!(step(&mut shared, &mut data, LinkEvent::Arrived), LinkAction::SendHandshake);
    assert_eq!(&data, b"kk");
    let mut early = *b"kk";
    let action = uplink(&mut up, &mut shared, &encryption, &mut early, LinkEvent::Arrived);
    assert_eq!(action, LinkAction::Hold);
    assert_eq!(step(&mut shared, &mut data, LinkEvent::Sent(true)), LinkAction::Wait);
    let action = uplink(&mut up, &mut shared, &encryption, &mut early, LinkEvent::Arrived);
    assert_eq!(action, LinkAction::SendTcp);
    for index in [1usize, 2, 0, 1] {
        let mut data = *b"kk";
        let action = step(&mut shared, &mut data, LinkEvent::Arrived);
        assert_eq!(action, LinkAction::SendUdp(index));
        assert_eq!(data, [0, 0]);
        assert_eq!(step(&mut shared, &mut data, LinkEvent::Sent(true)), LinkAction::Notify);
    }
    assert_eq!(step(&mut shared, &mut data, LinkEvent::Sent(false)), LinkAction::Stop);
    assert_eq!(step(&mut shared, &mut data, LinkEvent::Lost), LinkAction::Stop);
    assert_eq!(step(&mut shared, &mut data, LinkEvent::Cancelled), LinkAction::Stop);
    assert_eq!(step(&mut shared, &mut data, LinkEvent::Activity), LinkAction::Wait);
    let mut plain = Downlink::new(1);
    let action = plain.advance(&mut Link::new(false), &None, &mut data, LinkEvent::Arrived);
    assert_eq!(action, LinkAction::SendUdp(0));
    assert_eq!(&data, b"kk");
}

#[test]
fn rules_with_ipv6() {
    let mut rule = AutoRule::new("eth0", "192.168.201.2", Some("fcc9::2"), 4567);
    let outputs = [
        "net.ipv4.ip_forward = 0\n",
        "",
        "net.ipv6.conf.all.forwarding = 1\n",
        "",
        "",
        "",
    ];
    let mut lines = Vec::new();
    while let Some(command) = rule.current() {
        lines.push(line(command));
        let output = outputs[lines.len() - 1].to_string();
        assert!(rule.finished(true, output));
    }
    assert_eq!(
        lines,
        vec![
            "sysctl net.ipv4.ip_forward",
            "sysctl -w net.ipv4.ip_forward=1",
            "sysctl net.ipv6.conf.all.forwarding",
            "sysctl -w net.ipv6.conf.all.forwarding=1",
            "iptables -t nat -I PREROUTING -p tcp -i eth0 --dport 4567 -j DNAT --to-destination 192.168.201.2",
            "ip6tables -t nat -I PREROUTING -p tcp -i eth0 --dport 4567 -j DNAT --to-destination fcc9::2",
        ]
    );
    let undo: Vec<String> = rule.undo().iter().map(line).collect();
    assert_eq!(
        undo,
        vec![
            "sysctl -w net.ipv4.ip_forward=0",
            "sysctl -w net.ipv6.conf.all.forwarding=1",
            "iptables -t nat -D PREROUTING -p tcp -i eth0 --dport 4567 -j DNAT --to-destination 192.168.201.2",
            "ip6tables -t nat -D PREROUTING -p tcp -i eth0 --dport 4567 -j DNAT --to-destination fcc9::2",
        ]
    );
}

#[test]
fn rules_without_ipv6() {
    let mut rule = AutoRule::new("eth0", "10.0.0.2", None, 80);
    assert_eq!(line(rule.current().unwrap()), "sysctl net.ipv4.ip_forward");
    assert!(!rule.finished(false, "no".to_string()));
    assert_eq!(line(rule.current().unwrap()), "sysctl net.ipv4.ip_forward");
    assert!(rule.finished(true, "net.ipv4.ip_forward = 1\n".to_string()));
    assert!(rule.finished(true, String::new()));
    assert_eq!(
        rule.current().unwrap().args,
        vec![
            "-t", "nat", "-I", "PREROUTING", "-p", "tcp", "-i", "eth0", "--dport", "80", "-j",
            "DNAT", "--to-destination", "10.0.0.2"
        ]
    );
    assert!(rule.finished(true, String::new()));
    assert!(rule.current().is_none());
    let undo: Vec<String> = rule.undo().iter().map(line).collect();
    assert_eq!(undo.len(), 2);
    assert_eq!(undo[0], "sysctl -w net.ipv4.ip_forward=1");
}

#[test]
fn rules_by_hand() {
    assert_eq!(
        manual_rules(80, "10.0.0.2", None),
        "Make sure your firewall routes packets, replace the dev_name with \n\
         your active network interface (like eth0) and run the following commands for iptables: \n\
         iptables -t nat -I PREROUTING -p tcp -i dev_name --dport 80 -j DNAT --to-destination 10.0.0.2"
    );
    assert!(manual_rules(80, "10.0.0.2", Some("fcc9::2")).ends_with(
        "\nip6tables -t nat -I PREROUTING -p tcp -i dev_name --dport 80 -j DNAT --to-destination fcc9::2"
    ));
}

#[test]
fn rules_of_the_packet_filter() {
    let lines: Vec<String> = pf::auto_rule(true).iter().map(line).collect();
    assert_eq!(
        lines,
        vec![
            "sysctl net.inet.ip.forwarding",
            "sysctl net.inet.ip.forwarding=1",
            "sysctl net.inet6.ip6.forwarding",
            "sysctl -w net.inet6.ip6.forwarding=1",
        ]
    );
    assert_eq!(pf::auto_rule(false).len(), 2);
    assert_eq!(
        pf::nat_rules("en0", "10.0.0.2", Some("fcc9::2"), 80),
        "rdr on en0 inet proto tcp from any to any port 80 -> 10.0.0.2\n\
         rdr on en0 inet6 proto tcp from any to any port 80 -> fcc9::2\n"
    );
    assert_eq!(
        pf::nat_rules("en0", "10.0.0.2", None, 65535),
        "rdr on en0 inet proto tcp from any to any port 65535 -> 10.0.0.2\n"
    );
    assert_eq!(line(&pf::load_rules(true)), "pfctl -e -a com.apple/tonel -f -");
    assert_eq!(line(&pf::load_rules(false)), "pfctl -a com.apple/tonel -f -");
    assert_eq!(line(&pf::restore("net.inet.ip.forwarding: 0\n")), "sysctl net.inet.ip.forwarding=0");
}

#[test]
fn white_space_is_that_of_unicode() {
    for n in 0..0x11_0000u32 {
        if let Some(c) = char::from_u32(n) {
            assert_eq!(white(c), c.is_whitespace(), "{:x}", n);
        }
    }
}

#[test]
fn texts() {
    assert_eq!(decimal(0), "0");
    assert_eq!(decimal(9), "9");
    assert_eq!(decimal(10), "10");
    assert_eq!(decimal(65535), "65535");
    assert_eq!(split_spaces("a  bc "), vec!["a", "", "bc", ""]);
    assert_eq!(split_spaces(""), vec![""]);
    assert_eq!(squeeze(" a\tb\u{a0}c\n"), "abc");
    assert_eq!(assign("a: b:c:  d:"), "a=b:c= d:");
}

#[test]
fn datagrams_are_shown_on_the_other_side() {
    let encryption = Encryption::from("xor:secret");
    let mut shared = Link::new(false);
    let mut data = *b"a datagram";
    uplink(&mut Uplink::new(), &mut shared, &encryption, &mut data, LinkEvent::Arrived);
    assert_ne!(&data, b"a datagram");
    let mut link = Downlink::new(2);
    let action = link.advance(&mut shared, &encryption, &mut data, LinkEvent::Arrived);
    assert_eq!(action, LinkAction::SendUdp(1));
    assert_eq!(&data, b"a datagram");
}

#[test]
fn a_run_ends_at_the_first_failure() {
    let mut run = Run::new(pf::undo_rule(
        "net.inet.ip.forwarding: 0\n",
        Some("net.inet6.ip6.forwarding: 1\n"),
    ));
    assert_eq!(line(run.current().unwrap()), "sysctl net.inet.ip.forwarding=0");
    assert!(!run.finished(false));
    assert_eq!(line(run.current().unwrap()), "sysctl net.inet.ip.forwarding=0");
    assert!(run.finished(true));
    assert_eq!(line(run.current().unwrap()), "pfctl -a com.apple/tonel -f -");
    assert!(run.finished(true));
    assert_eq!(line(run.current().unwrap()), "sysctl net.inet6.ip6.forwarding=1");
    assert!(run.finished(true));
    assert!(run.current().is_none());
    assert_eq!(pf::undo_rule("a: 1", None).len(), 2);
    assert!(pf::outcome_counts(0) && !pf::outcome_counts(1) && pf::outcome_counts(2));
}
