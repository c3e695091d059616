use pnet::packet::ipv4::Ipv4Packet;
use pnet::packet::ipv6::Ipv6Packet;
use pnet::packet::tcp::ipv4_checksum;
use pnet::packet::tcp::ipv6_checksum;
use pnet::packet::tcp::TcpFlags;
use pnet::packet::tcp::TcpPacket;
use tonel::addr::AddrTuple;
use tonel::addr::IpAddr;
use tonel::addr::SocketAddr;
use tonel::bytes::read_be;
use tonel::bytes::write_be;
use tonel::bytes::write_slice;
use tonel::checksum::finish;
use tonel::checksum::sum_number;
use tonel::checksum::sum_words;
use tonel::packet::build_tcp_packet;
use tonel::packet::parse_ip_packet;
use tonel::packet::ACK;
use tonel::packet::MAX_PACKET_LEN;
use tonel::packet::RST;
use tonel::packet::RST_ACK;
use tonel::packet::SYN;
use tonel::packet::SYN_ACK;

fn v4(last: u32, port: u16) -> SocketAddr {
    SocketAddr::new(IpAddr::V4(0xc0a8_c900 + last), port)
}

fn v6(last: u128, port: u16) -> SocketAddr {
    SocketAddr::new(IpAddr::V6((0xfcc9u128 << 112) + last), port)
}

#[test]
fn flags_are_those_of_tcp() {
    assert_eq!(SYN, TcpFlags::SYN);
    assert_eq!(RST, TcpFlags::RST);
    assert_eq!(ACK, TcpFlags::ACK);
    assert_eq!(SYN_ACK, TcpFlags::SYN | TcpFlags::ACK);
    assert_eq!(RST_ACK, TcpFlags::RST | TcpFlags::ACK);
}

#[test]
fn ipv4_packet_bytes() {
    let mut buf = [0xeeu8; 64];
    let size = build_tcp_packet(
        &mut buf,
        v4(1, 0x1234),
        v4(2, 80),
        0x01020304,
        0x0a0b0c0d,
        ACK,
        Some(b"hi!"),
    )
    .unwrap();
    assert_eq!(size, 43);
    assert_eq!(
        &buf[..10],
        &[0x45, 0, 0, 43, 0, 0, 0x40, 0, 0x40, 6]
    );
    assert_eq!(&buf[12..20], &[192, 168, 201, 1, 192, 168, 201, 2]);
    assert_eq!(
        &buf[20..36],
        &[0x12, 0x34, 0, 80, 1, 2, 3, 4, 10, 11, 12, 13, 0x50, 0x10, 0xff, 0xff]
    );
    assert_eq!(&buf[38..43], &[0, 0, b'h', b'i', b'!']);
    assert!(buf[43..].iter().all(|b| *b == 0xee));
}

#[test]
fn ipv4_checksums_are_those_of_pnet() {
    let mut buf = [0u8; MAX_PACKET_LEN];
    let size =
        build_tcp_packet(&mut buf, v4(1, 4000), v4(2, 443), 7, 9, ACK, Some(b"odd")).unwrap();
    let ip = Ipv4Packet::new(&buf[..20]).unwrap();
    assert_eq!(ip.get_checksum(), pnet::packet::ipv4::checksum(&ip));
    assert_eq!(ip.get_total_length() as usize, size);
    let tcp = TcpPacket::new(&buf[20..size]).unwrap();
    assert_eq!(
        tcp.get_checksum(),
        ipv4_checksum(&tcp, &ip.get_source(), &ip.get_destination())
    );
}

#[test]
fn ipv6_checksums_are_those_of_pnet() {
    let mut buf = [0u8; MAX_PACKET_LEN];
    let size = build_tcp_packet(&mut buf, v6(1, 4000), v6(2, 443), 7, 9, SYN, None).unwrap();
    assert_eq!(size, 60);
    let tcp = TcpPacket::new(&buf[40..size]).unwrap();
    let ip = Ipv6Packet::new(&buf[..40]).unwrap();
    assert_eq!(ip.get_payload_length(), 20);
    assert_eq!(
        tcp.get_checksum(),
        ipv6_checksum(&tcp, &ip.get_source(), &ip.get_destination())
    );
}

#[test]
fn ipv4_round_trip() {
    let mut buf = [0u8; MAX_PACKET_LEN];
    let size = build_tcp_packet(&mut buf, v4(1, 4000), v4(2, 443), u32::MAX, 0, SYN_ACK, Some(b"abc"))
        .unwrap();
    let segment = parse_ip_packet(&buf[..size]).unwrap();
    assert_eq!(segment.source, v4(1, 4000));
    assert_eq!(segment.destination, v4(2, 443));
    assert_eq!(segment.sequence, u32::MAX);
    assert_eq!(segment.acknowledgement, 0);
    assert_eq!(segment.flags, SYN_ACK);
    assert_eq!(segment.payload, b"abc");
}

#[test]
fn ipv6_round_trip() {
    let mut buf = [0u8; MAX_PACKET_LEN];
    let size = build_tcp_packet(&mut buf, v6(1, 1), v6(2, 2), 3, 4, RST, Some(b"xyz")).unwrap();
    let segment = parse_ip_packet(&buf[..size]).unwrap();
    assert_eq!(segment.source, v6(1, 1));
    assert_eq!(segment.destination, v6(2, 2));
    assert_eq!(segment.sequence, 3);
    assert_eq!(segment.acknowledgement, 4);
    assert_eq!(segment.flags, RST);
    assert_eq!(segment.payload, b"xyz");
}

#[test]
fn packets_that_cannot_be_built() {
    let mut buf = [1u8; 60];
    let long = build_tcp_packet(&mut buf, v4(1, 1), v4(2, 2), 0, 0, ACK, Some(&[0; 21]));
    assert_eq!(long, Err("packet too long".to_string()));
    let mixed = build_tcp_packet(&mut buf, v4(1, 1), v6(2, 2), 0, 0, ACK, None);
    assert_eq!(mixed, Err("addresses of different IP versions".to_string()));
    assert!(buf.iter().all(|b| *b == 1));
    let mut large = vec![0u8; 70_000];
    let over = build_tcp_packet(&mut large, v4(1, 1), v4(2, 2), 0, 0, ACK, Some(&[0; 65_496]));
    assert_eq!(over, Err("packet too long".to_string()));
    let most = build_tcp_packet(&mut large, v4(1, 1), v4(2, 2), 0, 0, ACK, Some(&[0; 65_495]));
    assert_eq!(most, Ok(65_535));
}

#[test]
fn packets_that_are_not_tcp() {
    let mut buf = [0u8; 64];
    let size = build_tcp_packet(&mut buf, v4(1, 1), v4(2, 2), 0, 0, ACK, None).unwrap();
    assert!(parse_ip_packet(&[]).is_none());
    assert!(parse_ip_packet(&buf[..size - 1]).is_none());
    let mut udp = buf;
    udp[9] = 17;
    assert!(parse_ip_packet(&udp[..size]).is_none());
    let mut version = buf;
    version[0] = 0x55;
    assert!(parse_ip_packet(&version[..size]).is_none());
    let mut header = buf;
    header[0] = 0x44;
    assert!(parse_ip_packet(&header[..size]).is_none());
    let size = build_tcp_packet(&mut buf, v6(1, 1), v6(2, 2), 0, 0, ACK, None).unwrap();
    buf[6] = 17;
    assert!(parse_ip_packet(&buf[..size]).is_none());
}

#[test]
fn options_are_no_payload() {
    let mut buf = [0u8; 64];
    let size = build_tcp_packet(&mut buf, v4(1, 1), v4(2, 2), 0, 0, ACK, Some(b"1234data")).unwrap();
    buf[32] = 0x60;
    assert_eq!(parse_ip_packet(&buf[..size]).unwrap().payload, b"data");
    buf[32] = 0xf0;
    assert_eq!(parse_ip_packet(&buf[..size]).unwrap().payload, b"");
    buf[32] = 0x01;
    let segment = parse_ip_packet(&buf[..size]).unwrap();
    assert_eq!(segment.payload, b"1234data");
    assert_eq!(segment.flags, 0x110);
}

#[test]
fn numbers_in_buffers() {
    let mut buf = [9u8; 6];
    write_be(&mut buf, 1, 0x01020304, 4);
    assert_eq!(buf, [9, 1, 2, 3, 4, 9]);
    assert_eq!(read_be(&buf, 1, 4), 0x01020304);
    write_be(&mut buf, 0, 0x1ff, 1);
    assert_eq!(buf[0], 0xff);
    write_slice(&mut buf, 4, &[7, 8]);
    assert_eq!(buf, [0xff, 1, 2, 3, 7, 8]);
}

#[test]
fn checksums() {
    assert_eq!(sum_words(&[1, 2, 3]), 0x0102 + 0x0300);
    assert_eq!(sum_number(0x0001_0002, 4), 3);
    assert_eq!(finish(0), 0xffff);
    assert_eq!(finish(0xffff), 0);
    assert_eq!(finish(0x1_0001), 0xfffd);
    let data = [0x45, 0x00, 0x00, 0x73, 0x00, 0x00, 0x40, 0x00, 0x40, 0x11, 0, 0, 0xc0, 0xa8, 0, 1,
        0xc0, 0xa8, 0, 0xc7];
    assert_eq!(finish(sum_words(&data)), 0xb861);
}

#[test]
fn ends_of_a_tuple() {
    let tuple = AddrTuple::new(v4(1, 1), v4(2, 2));
    assert_eq!(tuple.into_iter(), vec![v4(1, 1), v4(2, 2)]);
    assert!(v4(1, 1).is_ipv4());
    assert!(!v6(1, 1).is_ipv4());
}
