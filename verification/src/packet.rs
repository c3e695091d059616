//! TCP packets over IPv4 and IPv6: building them and taking them apart.
//!
//! A built packet carries a 20-byte TCP header without options behind a plain IP header.
use crate::addr::IpAddr;
use crate::addr::SocketAddr;
use crate::bytes::be;
use crate::bytes::be_bytes;
use crate::bytes::law_read_digits;
use crate::bytes::law_spelled_digits;
use crate::bytes::lemma_be_bound;
use crate::bytes::lemma_be_four;
use crate::bytes::lemma_be_two;
use crate::bytes::lemma_be_bytes_len;
use crate::bytes::lemma_be_limits;
use crate::bytes::lemma_be_round_trip;
use crate::bytes::patch;
use crate::bytes::read_be;
use crate::bytes::write_be;
use crate::bytes::write_slice;
use crate::checksum::complement;
use crate::checksum::finish;
use crate::checksum::law_checksum_completes;
use crate::checksum::law_words_weigh_bytes;
use crate::checksum::lemma_complement;
use crate::checksum::lemma_word_sum_append;
use crate::checksum::lemma_word_sum_bound;
use crate::checksum::lemma_word_sum_word;
use crate::checksum::sum_number;
use crate::checksum::sum_words;
use crate::checksum::weighed;
use crate::checksum::word_sum;
use pnet::packet::tcp::TcpPacket;
use pnet::packet::Packet;
use vstd::arithmetic::power::pow;
use vstd::prelude::*;
use vstd::slice::slice_subrange;

verus! {

/// The size of the buffers that packets are built in and received into.
pub const MAX_PACKET_LEN: usize = 1500;

pub const SYN: u16 = 0x02;

pub const RST: u16 = 0x04;

pub const ACK: u16 = 0x10;

pub const SYN_ACK: u16 = 0x12;

pub const RST_ACK: u16 = 0x14;

/// The protocol number of TCP in an IP header.
pub const TCP: u8 = 6;

/// What a TCP packet says, without its checksums.
pub struct SegmentView {
    pub source: SocketAddr,
    pub destination: SocketAddr,
    pub sequence: u32,
    pub acknowledgement: u32,
    pub flags: u16,
    pub payload: Seq<u8>,
}

/// A TCP packet taken apart.
#[derive(Debug)]
pub struct Segment {
    pub source: SocketAddr,
    pub destination: SocketAddr,
    pub sequence: u32,
    pub acknowledgement: u32,
    pub flags: u16,
    pub payload: Vec<u8>,
}

impl View for Segment {
    type V = SegmentView;

    open spec fn view(&self) -> SegmentView {
        SegmentView {
            source: self.source,
            destination: self.destination,
            sequence: self.sequence,
            acknowledgement: self.acknowledgement,
            flags: self.flags,
            payload: self.payload@,
        }
    }
}

/// The TCP part of a packet taken apart.
pub struct TcpFields {
    pub source: u16,
    pub destination: u16,
    pub sequence: u32,
    pub acknowledgement: u32,
    pub flags: u16,
    pub payload: Vec<u8>,
}

/// Where the payload starts in a TCP segment: after the header, whose length in words stands in
/// the upper half of byte 12. A header never counts as shorter than 20 bytes, nor does the
/// payload start beyond the segment.
pub open spec fn payload_start(tcp: Seq<u8>) -> int {
    let header = if tcp[12] / 16 > 5 {
        4 * (tcp[12] / 16) as int
    } else {
        20
    };
    if header <= tcp.len() {
        header
    } else {
        tcp.len() as int
    }
}

/// What a TCP segment between two hosts says.
pub open spec fn segment_of(source: IpAddr, destination: IpAddr, tcp: Seq<u8>) -> SegmentView {
    SegmentView {
        source: SocketAddr { ip: source, port: be(tcp.subrange(0, 2)) as u16 },
        destination: SocketAddr { ip: destination, port: be(tcp.subrange(2, 4)) as u16 },
        sequence: be(tcp.subrange(4, 8)) as u32,
        acknowledgement: be(tcp.subrange(8, 12)) as u32,
        flags: (be(tcp.subrange(12, 14)) % 512) as u16,
        payload: tcp.skip(payload_start(tcp)),
    }
}

/// What a packet says; `None` for one that is not a whole TCP packet over IPv4 or IPv6.
pub open spec fn parsed(b: Seq<u8>) -> Option<SegmentView> {
    if b.len() >= 40 && b[0] / 16 == 4 && b[9] == TCP && 5 <= b[0] % 16 && 4 * (b[0] % 16) + 20
        <= b.len() {
        Some(
            segment_of(
                IpAddr::V4(be(b.subrange(12, 16)) as u32),
                IpAddr::V4(be(b.subrange(16, 20)) as u32),
                b.skip(4 * (b[0] % 16)),
            ),
        )
    } else if b.len() >= 60 && b[0] / 16 == 6 && b[6] == TCP {
        Some(
            segment_of(
                IpAddr::V6(be(b.subrange(8, 24)) as u128),
                IpAddr::V6(be(b.subrange(24, 40)) as u128),
                b.skip(40),
            ),
        )
    } else {
        None
    }
}

/// Reads a TCP segment through `pnet`'s `TcpPacket`: `new`, the accessors of its fields, and
/// `payload`. Claimed: `new` refuses exactly the segments shorter than 20 bytes; each accessor
/// gives its big-endian field; the nine flag bits are the low bits of the word at 12; the payload
/// is what follows the header and its options.
#[verifier::external_body]
pub(crate) fn tcp_fields(tcp: &[u8]) -> (r: Option<TcpFields>)
    ensures
        r is Some <==> tcp@.len() >= 20,
        r matches Some(f) ==> {
            &&& f.source == be(tcp@.subrange(0, 2))
            &&& f.destination == be(tcp@.subrange(2, 4))
            &&& f.sequence == be(tcp@.subrange(4, 8))
            &&& f.acknowledgement == be(tcp@.subrange(8, 12))
            &&& f.flags == be(tcp@.subrange(12, 14)) % 512
            &&& f.payload@ == tcp@.skip(payload_start(tcp@))
        },
{
    let packet = TcpPacket::new(tcp)?;
    Some(TcpFields {
        source: packet.get_source(),
        destination: packet.get_destination(),
        sequence: packet.get_sequence(),
        acknowledgement: packet.get_acknowledgement(),
        flags: packet.get_flags(),
        payload: packet.payload().to_vec(),
    })
}

/// Takes a packet apart. `None` is given exactly for what is not a TCP packet.
pub fn parse_ip_packet(buf: &[u8]) -> (r: Option<Segment>)
    ensures
        r is Some <==> parsed(buf@) is Some,
        r matches Some(segment) ==> parsed(buf@) == Some(segment@),
{
    let len: usize = buf.len();
    if len < 40 {
        return None;
    }
    let version: u8 = buf[0] / 16;
    let (source, destination, start): (IpAddr, IpAddr, usize) = if version == 4 {
        let header: usize = 4 * (buf[0] % 16) as usize;
        if buf[9] != TCP || header < 20 || header + 20 > len {
            return None;
        }
        proof {
            lemma_be_limits();
        }
        (
            IpAddr::V4(read_be(buf, 12, 4) as u32),
            IpAddr::V4(read_be(buf, 16, 4) as u32),
            header,
        )
    } else if version == 6 {
        if len < 60 || buf[6] != TCP {
            return None;
        }
        (IpAddr::V6(read_be(buf, 8, 16)), IpAddr::V6(read_be(buf, 24, 16)), 40)
    } else {
        return None;
    };
    let tcp = slice_subrange(buf, start, len);
    assert(tcp@ =~= buf@.skip(start as int));
    match tcp_fields(tcp) {
        Some(fields) => {
            let segment = Segment {
                source: SocketAddr { ip: source, port: fields.source },
                destination: SocketAddr { ip: destination, port: fields.destination },
                sequence: fields.sequence,
                acknowledgement: fields.acknowledgement,
                flags: fields.flags,
                payload: fields.payload,
            };
            assert(parsed(buf@) == Some(segment@));
            Some(segment)
        },
        None => None,
    }
}

/// How long the two headers of a packet from or to `ip` are.
pub open spec fn header_len(ip: IpAddr) -> nat {
    match ip {
        IpAddr::V4(_) => 40,
        IpAddr::V6(_) => 60,
    }
}

/// Whether a packet can be built: both ends have one IP version, it fits into `room` bytes, and
/// its length into the length field of its IP header.
pub open spec fn buildable(local: SocketAddr, remote: SocketAddr, len: nat, room: nat) -> bool {
    &&& local.ip.same_version(remote.ip)
    &&& header_len(local.ip) + len <= room
    &&& match local.ip {
        IpAddr::V4(_) => 40 + len <= 0xffff,
        IpAddr::V6(_) => 20 + len <= 0xffff,
    }
}

/// An IPv4 header: no options, no fragmentation, 64 hops.
pub open spec fn ipv4_header(source: u32, destination: u32, total: nat, check: nat) -> Seq<u8> {
    Seq::<u8>::empty() + be_bytes(0x4500, 2) + be_bytes(total, 2) + be_bytes(0, 2) + be_bytes(
        0x4000,
        2,
    ) + be_bytes(0x4006, 2) + be_bytes(check, 2) + be_bytes(source as nat, 4) + be_bytes(
        destination as nat,
        4,
    )
}

/// An IPv6 header: no extensions, 64 hops.
pub open spec fn ipv6_header(source: u128, destination: u128, len: nat) -> Seq<u8> {
    Seq::<u8>::empty() + be_bytes(0x6000_0000, 4) + be_bytes(len, 2) + be_bytes(0x0640, 2)
        + be_bytes(source as nat, 16) + be_bytes(destination as nat, 16)
}

/// A TCP header without options, announcing the largest window.
pub open spec fn tcp_header(
    from: u16,
    to: u16,
    seq: u32,
    ack: u32,
    flags: u16,
    check: nat,
) -> Seq<u8> {
    Seq::<u8>::empty() + be_bytes(from as nat, 2) + be_bytes(to as nat, 2) + be_bytes(
        seq as nat,
        4,
    ) + be_bytes(ack as nat, 4) + be_bytes(0x5000 + (flags as nat) % 512, 2) + be_bytes(0xffff, 2)
        + be_bytes(check, 2) + be_bytes(0, 2)
}

/// What the TCP checksum covers besides the segment itself: the addresses, the protocol and the
/// length.
pub open spec fn pseudo_sum(local: IpAddr, remote: IpAddr, len: nat) -> nat {
    match (local, remote) {
        (IpAddr::V4(l), IpAddr::V4(r)) => word_sum(be_bytes(l as nat, 4)) + word_sum(
            be_bytes(r as nat, 4),
        ) + TCP as nat + len,
        (IpAddr::V6(l), IpAddr::V6(r)) => word_sum(be_bytes(l as nat, 16)) + word_sum(
            be_bytes(r as nat, 16),
        ) + TCP as nat + len,
        _ => 0,
    }
}

/// The TCP segment of a packet, its checksum filled in.
pub open spec fn tcp_segment(
    local: SocketAddr,
    remote: SocketAddr,
    seq: u32,
    ack: u32,
    flags: u16,
    payload: Seq<u8>,
) -> Seq<u8> {
    let blank = tcp_header(local.port, remote.port, seq, ack, flags, 0) + payload;
    let check = complement(pseudo_sum(local.ip, remote.ip, blank.len()) + word_sum(blank));
    tcp_header(local.port, remote.port, seq, ack, flags, check) + payload
}

/// The IP header of a packet whose TCP segment is `len` bytes long, its checksum filled in.
pub open spec fn ip_header(local: IpAddr, remote: IpAddr, len: nat) -> Seq<u8> {
    match (local, remote) {
        (IpAddr::V4(l), IpAddr::V4(r)) => {
            let check = complement(word_sum(ipv4_header(l, r, 20 + len, 0)));
            ipv4_header(l, r, 20 + len, check)
        },
        (IpAddr::V6(l), IpAddr::V6(r)) => ipv6_header(l, r, len),
        _ => Seq::empty(),
    }
}

/// The packet that carries `payload` from `local` to `remote`.
pub open spec fn tcp_packet(
    local: SocketAddr,
    remote: SocketAddr,
    seq: u32,
    ack: u32,
    flags: u16,
    payload: Seq<u8>,
) -> Seq<u8> {
    ip_header(local.ip, remote.ip, 20 + payload.len()) + tcp_segment(
        local,
        remote,
        seq,
        ack,
        flags,
        payload,
    )
}

/// The bytes of an optional payload.
pub open spec fn bytes_of(payload: Option<&[u8]>) -> Seq<u8> {
    match payload {
        Some(bytes) => bytes@,
        None => Seq::empty(),
    }
}

/// Writes `n` behind what is already written and moves `at` past it.
fn put(buf: &mut [u8], at: usize, n: u128, len: usize) -> (next: usize)
    requires
        at + len <= old(buf)@.len(),
    ensures
        next == at + len,
        final(buf)@.len() == old(buf)@.len(),
        final(buf)@.take(next as int) == old(buf)@.take(at as int) + be_bytes(
            n as nat,
            len as nat,
        ),
        forall|i: int| next <= i < old(buf)@.len() ==> final(buf)@[i] == old(buf)@[i],
{
    write_be(buf, at, n, len);
    proof {
        lemma_be_bytes_len(n as nat, len as nat);
    }
    assert(buf.len() == buf@.len());
    assert(buf@.take(at + len) =~= old(buf)@.take(at as int) + be_bytes(n as nat, len as nat));
    at + len
}

fn write_ipv4_fields(buf: &mut [u8], source: u32, destination: u32, total: u16, check: u16)
    requires
        old(buf)@.len() == 20,
    ensures
        final(buf)@ == ipv4_header(source, destination, total as nat, check as nat),
{
    assert(buf@.take(0) =~= Seq::<u8>::empty());
    let at: usize = put(buf, 0, 0x4500, 2);
    let at: usize = put(buf, at, total as u128, 2);
    let at: usize = put(buf, at, 0, 2);
    let at: usize = put(buf, at, 0x4000, 2);
    let at: usize = put(buf, at, 0x4006, 2);
    let at: usize = put(buf, at, check as u128, 2);
    let at: usize = put(buf, at, source as u128, 4);
    let at: usize = put(buf, at, destination as u128, 4);
    assert(buf@.take(at as int) =~= buf@);
}

fn write_ipv6(buf: &mut [u8], source: u128, destination: u128, len: u16)
    requires
        old(buf)@.len() == 40,
    ensures
        final(buf)@ == ipv6_header(source, destination, len as nat),
{
    assert(buf@.take(0) =~= Seq::<u8>::empty());
    let at: usize = put(buf, 0, 0x6000_0000, 4);
    let at: usize = put(buf, at, len as u128, 2);
    let at: usize = put(buf, at, 0x0640, 2);
    let at: usize = put(buf, at, source, 16);
    let at: usize = put(buf, at, destination, 16);
    assert(buf@.take(at as int) =~= buf@);
}

fn write_tcp_fields(
    buf: &mut [u8],
    from: u16,
    to: u16,
    seq: u32,
    ack: u32,
    flags: u16,
    check: u16,
)
    requires
        old(buf)@.len() >= 20,
    ensures
        final(buf)@ == tcp_header(from, to, seq, ack, flags, check as nat) + old(buf)@.skip(20),
{
    assert(buf@.take(0) =~= Seq::<u8>::empty());
    let at: usize = put(buf, 0, from as u128, 2);
    let at: usize = put(buf, at, to as u128, 2);
    let at: usize = put(buf, at, seq as u128, 4);
    let at: usize = put(buf, at, ack as u128, 4);
    let at: usize = put(buf, at, 0x5000 + flags as u128 % 512, 2);
    let at: usize = put(buf, at, 0xffff, 2);
    let at: usize = put(buf, at, check as u128, 2);
    let at: usize = put(buf, at, 0, 2);
    assert(buf@.take(20) + buf@.skip(20) =~= buf@);
    assert(buf@.skip(20) =~= old(buf)@.skip(20));
}

/// Fills in an IPv4 header and its checksum.
fn write_ipv4(buf: &mut [u8], source: u32, destination: u32, total: u16)
    requires
        old(buf)@.len() == 20,
        total >= 20,
    ensures
        final(buf)@ == ip_header(IpAddr::V4(source), IpAddr::V4(destination), (total - 20) as nat),
{
    broadcast use lemma_be_bytes_len;

    write_ipv4_fields(buf, source, destination, total, 0);
    let check: u16 = finish(sum_words(buf));
    write_ipv4_fields(buf, source, destination, total, check);
}

/// Adds up what the TCP checksum covers besides the segment itself.
fn sum_pseudo(local: IpAddr, remote: IpAddr, len: u16) -> (sum: u64)
    requires
        local.same_version(remote),
    ensures
        sum == pseudo_sum(local, remote, len as nat),
        sum <= 0x1f_ffff + len,
{
    match (local, remote) {
        (IpAddr::V4(l), IpAddr::V4(r)) => sum_number(l as u128, 4) + sum_number(r as u128, 4)
            + TCP as u64 + len as u64,
        (IpAddr::V6(l), IpAddr::V6(r)) => sum_number(l, 16) + sum_number(r, 16) + TCP as u64
            + len as u64,
        _ => 0,
    }
}

/// Fills in a TCP segment and its checksum.
fn write_tcp(
    buf: &mut [u8],
    local: SocketAddr,
    remote: SocketAddr,
    seq: u32,
    ack: u32,
    flags: u16,
    payload: &[u8],
)
    requires
        local.ip.same_version(remote.ip),
        old(buf)@.len() == 20 + payload@.len(),
        old(buf)@.len() <= 0xffff,
    ensures
        final(buf)@ == tcp_segment(local, remote, seq, ack, flags, payload@),
{
    write_slice(buf, 20, payload);
    assert(buf@.skip(20) =~= payload@);
    proof {
        lemma_tcp_header_len(local.port, remote.port, seq, ack, flags, 0);
    }
    write_tcp_fields(buf, local.port, remote.port, seq, ack, flags, 0);
    let ghost blank = buf@;
    assert(blank.skip(20) =~= payload@);
    proof {
        lemma_word_sum_bound(blank);
    }
    let len: u16 = buf.len() as u16;
    let sum: u64 = sum_pseudo(local.ip, remote.ip, len) + sum_words(buf);
    write_tcp_fields(buf, local.port, remote.port, seq, ack, flags, finish(sum));
}

proof fn lemma_tcp_header_len(from: u16, to: u16, seq: u32, ack: u32, flags: u16, check: nat)
    ensures
        tcp_header(from, to, seq, ack, flags, check).len() == 20,
{
    broadcast use lemma_be_bytes_len;

}

proof fn lemma_ip_header_len(local: IpAddr, remote: IpAddr, len: nat)
    requires
        local.same_version(remote),
    ensures
        ip_header(local, remote, len).len() + 20 == header_len(local),
{
    broadcast use lemma_be_bytes_len;

}

proof fn lemma_tcp_segment_len(
    local: SocketAddr,
    remote: SocketAddr,
    seq: u32,
    ack: u32,
    flags: u16,
    payload: Seq<u8>,
)
    ensures
        tcp_segment(local, remote, seq, ack, flags, payload).len() == 20 + payload.len(),
{
    broadcast use lemma_be_bytes_len;

}

/// Builds a packet at the start of `buf` and gives its size. It fails exactly when the packet
/// cannot be built there, and then leaves `buf` alone.
pub fn build_tcp_packet(
    buf: &mut [u8],
    local_addr: SocketAddr,
    remote_addr: SocketAddr,
    seq: u32,
    ack: u32,
    flags: u16,
    payload: Option<&[u8]>,
) -> (r: Result<usize, String>)
    ensures
        r is Ok <==> buildable(local_addr, remote_addr, bytes_of(payload).len(), old(buf)@.len()),
        r matches Err(message) ==> {
            &&& final(buf)@ == old(buf)@
            &&& message@ == if local_addr.ip.same_version(remote_addr.ip) {
                "packet too long"@
            } else {
                "addresses of different IP versions"@
            }
        },
        r matches Ok(size) ==> {
            let packet = tcp_packet(local_addr, remote_addr, seq, ack, flags, bytes_of(payload));
            &&& size == packet.len()
            &&& size <= old(buf)@.len()
            &&& final(buf)@ == patch(old(buf)@, 0, packet)
        },
{
    let empty: [u8; 0] = [];
    let payload: &[u8] = match payload {
        Some(bytes) => bytes,
        None => &empty,
    };
    let ip_len: usize = match (local_addr.ip, remote_addr.ip) {
        (IpAddr::V4(_), IpAddr::V4(_)) => 20,
        (IpAddr::V6(_), IpAddr::V6(_)) => 40,
        _ => {
            return Err("addresses of different IP versions".to_string());
        },
    };
    if payload.len() > 0xffff {
        return Err("packet too long".to_string());
    }
    let tcp_len: usize = 20 + payload.len();
    let total: usize = ip_len + tcp_len;
    if total > buf.len() || tcp_len > 0xffff || (ip_len == 20 && total > 0xffff) {
        return Err("packet too long".to_string());
    }
    let (packet, _rest) = buf.split_at_mut(total);
    let (header, segment) = packet.split_at_mut(ip_len);
    match (local_addr.ip, remote_addr.ip) {
        (IpAddr::V4(l), IpAddr::V4(r)) => {
            write_ipv4(header, l, r, total as u16);
        },
        (IpAddr::V6(l), IpAddr::V6(r)) => {
            write_ipv6(header, l, r, tcp_len as u16);
        },
        _ => {},
    }
    write_tcp(segment, local_addr, remote_addr, seq, ack, flags, payload);
    proof {
        lemma_ip_header_len(local_addr.ip, remote_addr.ip, tcp_len as nat);
        lemma_tcp_segment_len(local_addr, remote_addr, seq, ack, flags, payload@);
        assert(header@ + segment@ == tcp_packet(local_addr, remote_addr, seq, ack, flags, payload@));
    }
    Ok(total)
}

proof fn lemma_two_bytes(n: nat)
    ensures
        be_bytes(n, 2) == seq![(n / 256 % 256) as u8, (n % 256) as u8],
{
    reveal_with_fuel(be_bytes, 3);
    assert(be_bytes(n, 2) =~= seq![(n / 256 % 256) as u8, (n % 256) as u8]);
}

proof fn lemma_tcp_segment_parts(
    local: SocketAddr,
    remote: SocketAddr,
    seq: u32,
    ack: u32,
    flags: u16,
    payload: Seq<u8>,
)
    requires
        flags < 512,
    ensures
        segment_of(
            local.ip,
            remote.ip,
            tcp_segment(local, remote, seq, ack, flags, payload),
        ) == (SegmentView {
            source: local,
            destination: remote,
            sequence: seq,
            acknowledgement: ack,
            flags,
            payload,
        }),
{
    broadcast use lemma_be_bytes_len;

    let tcp = tcp_segment(local, remote, seq, ack, flags, payload);
    lemma_be_limits();
    lemma_be_round_trip(local.port as nat, 2);
    lemma_be_round_trip(remote.port as nat, 2);
    lemma_be_round_trip(seq as nat, 4);
    lemma_be_round_trip(ack as nat, 4);
    lemma_be_round_trip(0x5000 + flags as nat, 2);
    assert(tcp.subrange(0, 2) =~= be_bytes(local.port as nat, 2));
    assert(tcp.subrange(2, 4) =~= be_bytes(remote.port as nat, 2));
    assert(tcp.subrange(4, 8) =~= be_bytes(seq as nat, 4));
    assert(tcp.subrange(8, 12) =~= be_bytes(ack as nat, 4));
    assert(tcp.subrange(12, 14) =~= be_bytes(0x5000 + flags as nat, 2));
    lemma_two_bytes(0x5000 + flags as nat);
    assert(tcp[12] == tcp.subrange(12, 14)[0]);
    assert(tcp.skip(20) =~= payload);
}

proof fn lemma_ipv4_header_parts(source: u32, destination: u32, total: nat, check: nat)
    ensures
        ({
            let h = ipv4_header(source, destination, total, check);
            &&& h.len() == 20
            &&& h[0] == 0x45
            &&& h[9] == TCP
            &&& be(h.subrange(12, 16)) == source
            &&& be(h.subrange(16, 20)) == destination
        }),
{
    broadcast use lemma_be_bytes_len;

    let h = ipv4_header(source, destination, total, check);
    lemma_be_limits();
    lemma_be_round_trip(source as nat, 4);
    lemma_be_round_trip(destination as nat, 4);
    lemma_two_bytes(0x4500);
    lemma_two_bytes(0x4006);
    assert(h.subrange(0, 2) =~= be_bytes(0x4500, 2));
    assert(h[0] == h.subrange(0, 2)[0]);
    assert(h.subrange(8, 10) =~= be_bytes(0x4006, 2));
    assert(h[9] == h.subrange(8, 10)[1]);
    assert(h.subrange(12, 16) =~= be_bytes(source as nat, 4));
    assert(h.subrange(16, 20) =~= be_bytes(destination as nat, 4));
}

proof fn lemma_ipv6_header_parts(source: u128, destination: u128, len: nat)
    ensures
        ({
            let h = ipv6_header(source, destination, len);
            &&& h.len() == 40
            &&& h[0] == 0x60
            &&& h[6] == TCP
            &&& be(h.subrange(8, 24)) == source
            &&& be(h.subrange(24, 40)) == destination
        }),
{
    broadcast use lemma_be_bytes_len;

    let h = ipv6_header(source, destination, len);
    lemma_be_limits();
    lemma_be_round_trip(source as nat, 16);
    lemma_be_round_trip(destination as nat, 16);
    lemma_two_bytes(0x0640);
    assert(be_bytes(0x6000_0000, 4)[0] == 0x60) by {
        reveal_with_fuel(be_bytes, 5);
    }
    assert(h.subrange(0, 4) =~= be_bytes(0x6000_0000, 4));
    assert(h[0] == h.subrange(0, 4)[0]);
    assert(h.subrange(6, 8) =~= be_bytes(0x0640, 2));
    assert(h[6] == h.subrange(6, 8)[0]);
    assert(h.subrange(8, 24) =~= be_bytes(source as nat, 16));
    assert(h.subrange(24, 40) =~= be_bytes(destination as nat, 16));
}

proof fn lemma_parsed_v4(h: Seq<u8>, tcp: Seq<u8>)
    requires
        h.len() == 20,
        h[0] == 0x45,
        h[9] == TCP,
        tcp.len() >= 20,
    ensures
        parsed(h + tcp) == Some(
            segment_of(
                IpAddr::V4(be(h.subrange(12, 16)) as u32),
                IpAddr::V4(be(h.subrange(16, 20)) as u32),
                tcp,
            ),
        ),
{
    let b = h + tcp;
    assert(b.subrange(12, 16) =~= h.subrange(12, 16));
    assert(b.subrange(16, 20) =~= h.subrange(16, 20));
    assert(b.skip(20) =~= tcp);
}

proof fn lemma_parsed_v6(h: Seq<u8>, tcp: Seq<u8>)
    requires
        h.len() == 40,
        h[0] == 0x60,
        h[6] == TCP,
        tcp.len() >= 20,
    ensures
        parsed(h + tcp) == Some(
            segment_of(
                IpAddr::V6(be(h.subrange(8, 24)) as u128),
                IpAddr::V6(be(h.subrange(24, 40)) as u128),
                tcp,
            ),
        ),
{
    let b = h + tcp;
    assert(b.subrange(8, 24) =~= h.subrange(8, 24));
    assert(b.subrange(24, 40) =~= h.subrange(24, 40));
    assert(b.skip(40) =~= tcp);
}

/// Taking apart what was built gives back what was put in.
pub proof fn law_packet_round_trip(
    local: SocketAddr,
    remote: SocketAddr,
    seq: u32,
    ack: u32,
    flags: u16,
    payload: Seq<u8>,
)
    requires
        local.ip.same_version(remote.ip),
        flags < 512,
    ensures
        parsed(tcp_packet(local, remote, seq, ack, flags, payload)) == Some(
            SegmentView {
                source: local,
                destination: remote,
                sequence: seq,
                acknowledgement: ack,
                flags,
                payload,
            },
        ),
{
    let tcp = tcp_segment(local, remote, seq, ack, flags, payload);
    let h = ip_header(local.ip, remote.ip, 20 + payload.len());
    lemma_tcp_segment_len(local, remote, seq, ack, flags, payload);
    lemma_tcp_segment_parts(local, remote, seq, ack, flags, payload);
    match (local.ip, remote.ip) {
        (IpAddr::V4(l), IpAddr::V4(r)) => {
            let total = 40 + payload.len();
            lemma_ipv4_header_parts(l, r, total, complement(word_sum(ipv4_header(l, r, total, 0))));
            lemma_parsed_v4(h, tcp);
        },
        (IpAddr::V6(l), IpAddr::V6(r)) => {
            lemma_ipv6_header_parts(l, r, 20 + payload.len());
            lemma_parsed_v6(h, tcp);
        },
        _ => {},
    }
}

/// The checksums of a built packet hold: the words of an IPv4 header, and those of the segment
/// together with what its checksum covers besides, add up to multiples of 65535.
pub proof fn law_checksums_hold(
    local: SocketAddr,
    remote: SocketAddr,
    seq: u32,
    ack: u32,
    flags: u16,
    payload: Seq<u8>,
)
    requires
        local.ip.same_version(remote.ip),
    ensures
        ({
            let segment = tcp_segment(local, remote, seq, ack, flags, payload);
            &&& local.ip is V4 ==> word_sum(ip_header(local.ip, remote.ip, segment.len()))
                % 0xffff == 0
            &&& (pseudo_sum(local.ip, remote.ip, segment.len()) + word_sum(segment)) % 0xffff == 0
        }),
{
    broadcast use lemma_be_bytes_len;

    let segment = tcp_segment(local, remote, seq, ack, flags, payload);
    let blank = tcp_header(local.port, remote.port, seq, ack, flags, 0) + payload;
    let sum = pseudo_sum(local.ip, remote.ip, blank.len()) + word_sum(blank);
    lemma_complement(sum);
    let before = blank.take(16);
    let after = blank.skip(18);
    assert(blank =~= before + be_bytes(0, 2) + after);
    assert(segment =~= before + be_bytes(complement(sum), 2) + after);
    lemma_sum_around(before, complement(sum), after);
    if let (IpAddr::V4(l), IpAddr::V4(r)) = (local.ip, remote.ip) {
        let total = 20 + segment.len();
        let blank = ipv4_header(l, r, total, 0);
        let sum = word_sum(blank);
        lemma_complement(sum);
        let before = blank.take(10);
        let after = blank.skip(12);
        assert(blank =~= before + be_bytes(0, 2) + after);
        assert(ipv4_header(l, r, total, complement(sum)) =~= before + be_bytes(complement(sum), 2)
            + after);
        lemma_sum_around(before, complement(sum), after);
    }
}

proof fn lemma_sum_around(before: Seq<u8>, n: nat, after: Seq<u8>)
    requires
        before.len() % 2 == 0,
        n <= 0xffff,
    ensures
        word_sum(before + be_bytes(n, 2) + after) == word_sum(before + be_bytes(0, 2) + after) + n,
{
    broadcast use lemma_be_bytes_len;

    lemma_word_sum_word(n);
    lemma_word_sum_word(0);
    lemma_word_sum_append(before, be_bytes(n, 2));
    lemma_word_sum_append(before, be_bytes(0, 2));
    lemma_word_sum_append(before + be_bytes(n, 2), after);
    lemma_word_sum_append(before + be_bytes(0, 2), after);
}

/// What two bytes spell, the high one first.
pub open spec fn two(b: Seq<u8>, at: int) -> int {
    b[at] * 0x100 + b[at + 1]
}

/// What four bytes spell, the highest one first.
pub open spec fn four(b: Seq<u8>, at: int) -> int {
    b[at] * 0x100_0000 + b[at + 1] * 0x1_0000 + b[at + 2] * 0x100 + b[at + 3]
}

/// Whether the sixteen bytes at `at` are those of an IPv6 address, the highest one first.
pub open spec fn spells(b: Seq<u8>, at: int, ip: u128) -> bool {
    forall|i: int|
        0 <= i < 16 ==> #[trigger] b[at + i] == ip as int / pow(256, (15 - i) as nat) % 256
}

proof fn lemma_two(b: Seq<u8>, at: int, n: nat)
    requires
        0 <= at,
        at + 2 <= b.len(),
        b.subrange(at, at + 2) == be_bytes(n, 2),
        n <= 0xffff,
    ensures
        two(b, at) == n,
{
    lemma_be_limits();
    lemma_be_round_trip(n, 2);
    lemma_be_two(b.subrange(at, at + 2));
}

proof fn lemma_four(b: Seq<u8>, at: int, n: nat)
    requires
        0 <= at,
        at + 4 <= b.len(),
        b.subrange(at, at + 4) == be_bytes(n, 4),
        n <= 0xffff_ffff,
    ensures
        four(b, at) == n,
{
    lemma_be_limits();
    lemma_be_round_trip(n, 4);
    lemma_be_four(b.subrange(at, at + 4));
}

proof fn lemma_sixteen(b: Seq<u8>, at: int, ip: u128)
    requires
        0 <= at,
        at + 16 <= b.len(),
        b.subrange(at, at + 16) == be_bytes(ip as nat, 16),
    ensures
        spells(b, at, ip),
{
    assert forall|i: int| 0 <= i < 16 implies #[trigger] b[at + i] == ip as int / pow(
        256,
        (15 - i) as nat,
    ) % 256 by {
        law_spelled_digits(ip as nat, 16, i);
        assert(b.subrange(at, at + 16)[i] == b[at + i]);
    }
}

/// What a TCP segment says at each of its bytes.
pub open spec fn tcp_bytes(
    t: Seq<u8>,
    from: u16,
    to: u16,
    seq: u32,
    ack: u32,
    flags: u16,
    payload: Seq<u8>,
) -> bool {
    &&& t.len() == 20 + payload.len()
    &&& two(t, 0) == from
    &&& two(t, 2) == to
    &&& four(t, 4) == seq
    &&& four(t, 8) == ack
    &&& two(t, 12) == 0x5000 + flags % 512
    &&& two(t, 14) == 0xffff
    &&& two(t, 18) == 0
    &&& forall|i: int| 0 <= i < payload.len() ==> t[20 + i] == #[trigger] payload[i]
}

proof fn lemma_tcp_bytes(
    local: SocketAddr,
    remote: SocketAddr,
    seq: u32,
    ack: u32,
    flags: u16,
    payload: Seq<u8>,
)
    ensures
        tcp_bytes(
            tcp_segment(local, remote, seq, ack, flags, payload),
            local.port,
            remote.port,
            seq,
            ack,
            flags,
            payload,
        ),
{
    broadcast use lemma_be_bytes_len;

    let t = tcp_segment(local, remote, seq, ack, flags, payload);
    lemma_tcp_segment_len(local, remote, seq, ack, flags, payload);
    assert(t.subrange(0, 2) =~= be_bytes(local.port as nat, 2));
    assert(t.subrange(2, 4) =~= be_bytes(remote.port as nat, 2));
    assert(t.subrange(4, 8) =~= be_bytes(seq as nat, 4));
    assert(t.subrange(8, 12) =~= be_bytes(ack as nat, 4));
    assert(t.subrange(12, 14) =~= be_bytes(0x5000 + (flags as nat) % 512, 2));
    assert(t.subrange(14, 16) =~= be_bytes(0xffff, 2));
    assert(t.subrange(18, 20) =~= be_bytes(0, 2));
    lemma_two(t, 0, local.port as nat);
    lemma_two(t, 2, remote.port as nat);
    lemma_four(t, 4, seq as nat);
    lemma_four(t, 8, ack as nat);
    lemma_two(t, 12, 0x5000 + (flags as nat) % 512);
    lemma_two(t, 14, 0xffff);
    lemma_two(t, 18, 0);
    assert forall|i: int| 0 <= i < payload.len() implies t[20 + i] == #[trigger] payload[i] by {}
}

proof fn lemma_ipv4_bytes(l: u32, r: u32, total: nat, check: nat)
    requires
        total <= 0xffff,
        check <= 0xffff,
    ensures
        ({
            let h = ipv4_header(l, r, total, check);
            &&& h.len() == 20
            &&& two(h, 0) == 0x4500
            &&& two(h, 2) == total
            &&& two(h, 4) == 0
            &&& two(h, 6) == 0x4000
            &&& two(h, 8) == 0x4006
            &&& two(h, 10) == check
            &&& four(h, 12) == l
            &&& four(h, 16) == r
        }),
{
    broadcast use lemma_be_bytes_len;

    let h = ipv4_header(l, r, total, check);
    assert(h.subrange(0, 2) =~= be_bytes(0x4500, 2));
    assert(h.subrange(2, 4) =~= be_bytes(total, 2));
    assert(h.subrange(4, 6) =~= be_bytes(0, 2));
    assert(h.subrange(6, 8) =~= be_bytes(0x4000, 2));
    assert(h.subrange(8, 10) =~= be_bytes(0x4006, 2));
    assert(h.subrange(10, 12) =~= be_bytes(check, 2));
    assert(h.subrange(12, 16) =~= be_bytes(l as nat, 4));
    assert(h.subrange(16, 20) =~= be_bytes(r as nat, 4));
    lemma_two(h, 0, 0x4500);
    lemma_two(h, 2, total);
    lemma_two(h, 4, 0);
    lemma_two(h, 6, 0x4000);
    lemma_two(h, 8, 0x4006);
    lemma_two(h, 10, check);
    lemma_four(h, 12, l as nat);
    lemma_four(h, 16, r as nat);
}

proof fn lemma_ipv6_bytes(l: u128, r: u128, len: nat)
    requires
        len <= 0xffff,
    ensures
        ({
            let h = ipv6_header(l, r, len);
            &&& h.len() == 40
            &&& four(h, 0) == 0x6000_0000
            &&& two(h, 4) == len
            &&& two(h, 6) == 0x0640
            &&& spells(h, 8, l)
            &&& spells(h, 24, r)
        }),
{
    broadcast use lemma_be_bytes_len;

    let h = ipv6_header(l, r, len);
    assert(h.subrange(0, 4) =~= be_bytes(0x6000_0000, 4));
    assert(h.subrange(4, 6) =~= be_bytes(len, 2));
    assert(h.subrange(6, 8) =~= be_bytes(0x0640, 2));
    assert(h.subrange(8, 24) =~= be_bytes(l as nat, 16));
    assert(h.subrange(24, 40) =~= be_bytes(r as nat, 16));
    lemma_four(h, 0, 0x6000_0000);
    lemma_two(h, 4, len);
    lemma_two(h, 6, 0x0640);
    lemma_sixteen(h, 8, l);
    lemma_sixteen(h, 24, r);
}

/// What an IPv4 packet holds, byte by byte: version 4 and five words of header; its own length; no
/// fragments; 64 hops; TCP; the two addresses; and the segment.
pub proof fn law_ipv4_packet(
    l: u32,
    r: u32,
    from: u16,
    to: u16,
    seq: u32,
    ack: u32,
    flags: u16,
    payload: Seq<u8>,
)
    requires
        40 + payload.len() <= 0xffff,
    ensures
        ({
            let local = SocketAddr { ip: IpAddr::V4(l), port: from };
            let remote = SocketAddr { ip: IpAddr::V4(r), port: to };
            let p = tcp_packet(local, remote, seq, ack, flags, payload);
            &&& p.len() == 40 + payload.len()
            &&& p[0] == 0x45 && p[1] == 0
            &&& two(p, 2) == p.len()
            &&& two(p, 4) == 0
            &&& two(p, 6) == 0x4000
            &&& p[8] == 64 && p[9] == 6
            &&& four(p, 12) == l
            &&& four(p, 16) == r
            &&& tcp_bytes(p.skip(20), from, to, seq, ack, flags, payload)
        }),
{
    let local = SocketAddr { ip: IpAddr::V4(l), port: from };
    let remote = SocketAddr { ip: IpAddr::V4(r), port: to };
    let p = tcp_packet(local, remote, seq, ack, flags, payload);
    let t = tcp_segment(local, remote, seq, ack, flags, payload);
    let total = 40 + payload.len();
    let check = complement(word_sum(ipv4_header(l, r, total, 0)));
    let h = ipv4_header(l, r, total, check);
    lemma_complement(word_sum(ipv4_header(l, r, total, 0)));
    lemma_ipv4_bytes(l, r, total, check);
    lemma_tcp_bytes(local, remote, seq, ack, flags, payload);
    assert(p == h + t);
    assert(p.skip(20) =~= t);
}

/// What an IPv6 packet holds, byte by byte: version 6; the length of what follows its header; TCP;
/// 64 hops; the two addresses; and the segment.
pub proof fn law_ipv6_packet(
    l: u128,
    r: u128,
    from: u16,
    to: u16,
    seq: u32,
    ack: u32,
    flags: u16,
    payload: Seq<u8>,
)
    requires
        20 + payload.len() <= 0xffff,
    ensures
        ({
            let local = SocketAddr { ip: IpAddr::V6(l), port: from };
            let remote = SocketAddr { ip: IpAddr::V6(r), port: to };
            let p = tcp_packet(local, remote, seq, ack, flags, payload);
            &&& p.len() == 60 + payload.len()
            &&& four(p, 0) == 0x6000_0000
            &&& two(p, 4) == p.len() - 40
            &&& p[6] == 6 && p[7] == 64
            &&& spells(p, 8, l)
            &&& spells(p, 24, r)
            &&& tcp_bytes(p.skip(40), from, to, seq, ack, flags, payload)
        }),
{
    let local = SocketAddr { ip: IpAddr::V6(l), port: from };
    let remote = SocketAddr { ip: IpAddr::V6(r), port: to };
    let p = tcp_packet(local, remote, seq, ack, flags, payload);
    let t = tcp_segment(local, remote, seq, ack, flags, payload);
    let h = ipv6_header(l, r, 20 + payload.len());
    lemma_ipv6_bytes(l, r, 20 + payload.len());
    lemma_tcp_bytes(local, remote, seq, ack, flags, payload);
    assert(p == h + t);
    assert(p.skip(40) =~= t);
    assert forall|i: int| 0 <= i < 16 implies #[trigger] p[8 + i] == l as int / pow(
        256,
        (15 - i) as nat,
    ) % 256 by {
        assert(p[8 + i] == h[8 + i]);
    }
    assert forall|i: int| 0 <= i < 16 implies #[trigger] p[24 + i] == r as int / pow(
        256,
        (15 - i) as nat,
    ) % 256 by {
        assert(p[24 + i] == h[24 + i]);
    }
}

/// The checksums of a built packet hold of its bytes. The bytes of an IPv4 header add up to a multiple
/// of 65535, every other one counting 256 times; so do those of the two addresses and of the
/// segment, together with the number of TCP and the length of the segment. No checksum is all ones.
pub proof fn law_packet_checksums(
    local: SocketAddr,
    remote: SocketAddr,
    seq: u32,
    ack: u32,
    flags: u16,
    payload: Seq<u8>,
)
    requires
        local.ip is V4 <==> remote.ip is V4,
    ensures
        ({
            let p = tcp_packet(local, remote, seq, ack, flags, payload);
            if local.ip is V4 {
                &&& weighed(p.take(20)) % 0xffff == 0
                &&& two(p, 10) != 0xffff
                &&& (weighed(p.subrange(12, 20)) + 6 + (p.len() - 20) + weighed(p.skip(20)))
                    % 0xffff == 0
                &&& two(p, 36) != 0xffff
            } else {
                &&& (weighed(p.subrange(8, 40)) + 6 + (p.len() - 40) + weighed(p.skip(40)))
                    % 0xffff == 0
                &&& two(p, 56) != 0xffff
            }
        }),
{
    broadcast use lemma_be_bytes_len;

    let p = tcp_packet(local, remote, seq, ack, flags, payload);
    let t = tcp_segment(local, remote, seq, ack, flags, payload);
    let h = ip_header(local.ip, remote.ip, t.len());
    law_checksums_hold(local, remote, seq, ack, flags, payload);
    lemma_tcp_segment_len(local, remote, seq, ack, flags, payload);
    lemma_ip_header_len(local.ip, remote.ip, t.len());
    assert(p == h + t);
    let blank = tcp_header(local.port, remote.port, seq, ack, flags, 0) + payload;
    let sum = pseudo_sum(local.ip, remote.ip, blank.len()) + word_sum(blank);
    law_checksum_completes(sum);
    assert(t.subrange(16, 18) =~= be_bytes(complement(sum), 2));
    lemma_two(t, 16, complement(sum));
    law_words_weigh_bytes(t);
    match (local.ip, remote.ip) {
        (IpAddr::V4(l), IpAddr::V4(r)) => {
            let total = 20 + t.len();
            let header = ipv4_header(l, r, total, 0);
            let first = word_sum(header);
            law_checksum_completes(first);
            assert(header.subrange(0, 2) =~= be_bytes(0x4500, 2));
            lemma_two(header, 0, 0x4500);
            assert(first > 0);
            assert(h.subrange(10, 12) =~= be_bytes(complement(first), 2));
            lemma_two(h, 10, complement(first));
            assert(p.take(20) =~= h);
            assert(p.skip(20) =~= t);
            law_words_weigh_bytes(h);
            assert(p.subrange(12, 20) =~= be_bytes(l as nat, 4) + be_bytes(r as nat, 4));
            lemma_word_sum_append(be_bytes(l as nat, 4), be_bytes(r as nat, 4));
            law_words_weigh_bytes(p.subrange(12, 20));
        },
        (IpAddr::V6(l), IpAddr::V6(r)) => {
            assert(p.skip(40) =~= t);
            assert(p.subrange(8, 40) =~= be_bytes(l as nat, 16) + be_bytes(r as nat, 16));
            lemma_word_sum_append(be_bytes(l as nat, 16), be_bytes(r as nat, 16));
            law_words_weigh_bytes(p.subrange(8, 40));
        },
        _ => {},
    }
}

/// A packet can be built if both ends have one IP version, its headers of 40 or 60 bytes and its
/// payload fit into the buffer, and its length field can tell its length.
pub proof fn law_what_can_be_built(local: SocketAddr, remote: SocketAddr, len: nat, room: nat)
    ensures
        buildable(local, remote, len, room) <==> match (local.ip, remote.ip) {
            (IpAddr::V4(_), IpAddr::V4(_)) => 40 + len <= room && 40 + len <= 65535,
            (IpAddr::V6(_), IpAddr::V6(_)) => 60 + len <= room && 20 + len <= 65535,
            _ => false,
        },
        forall|payload: &[u8]| #[trigger] bytes_of(Some(payload)) == payload@,
        bytes_of(None) == Seq::<u8>::empty(),
{
}

/// Whether a segment is what a TCP segment, which starts at `at` in a packet, says. Its payload
/// starts behind the header, whose length in words is in the upper half of its byte 12 and never
/// below five.
pub open spec fn read_at(b: Seq<u8>, at: int, s: SegmentView) -> bool {
    let words = b[at + 12] / 16;
    let start = at + 4 * if words > 5 {
        words as int
    } else {
        5
    };
    &&& s.source.port == two(b, at)
    &&& s.destination.port == two(b, at + 2)
    &&& s.sequence == four(b, at + 4)
    &&& s.acknowledgement == four(b, at + 8)
    &&& s.flags == two(b, at + 12) % 512
    &&& s.payload.len() == if start < b.len() {
        b.len() - start
    } else {
        0
    }
    &&& forall|i: int| 0 <= i < s.payload.len() ==> #[trigger] s.payload[i] == b[start + i]
}

proof fn lemma_read_at(b: Seq<u8>, at: int, source: IpAddr, destination: IpAddr)
    requires
        0 <= at,
        at + 20 <= b.len(),
    ensures
        read_at(b, at, segment_of(source, destination, b.skip(at))),
{
    let t = b.skip(at);
    let s = segment_of(source, destination, t);
    lemma_be_limits();
    lemma_be_bound(t.subrange(0, 2));
    lemma_be_bound(t.subrange(2, 4));
    lemma_be_bound(t.subrange(4, 8));
    lemma_be_bound(t.subrange(8, 12));
    lemma_be_two(t.subrange(0, 2));
    lemma_be_two(t.subrange(2, 4));
    lemma_be_two(t.subrange(12, 14));
    lemma_be_four(t.subrange(4, 8));
    lemma_be_four(t.subrange(8, 12));
    assert(t[12] == b[at + 12]);
}

/// A packet is taken apart if, and only if, it is TCP over IPv4 with a whole header and room for a
/// TCP header behind it, or TCP over IPv6 with such room.
pub proof fn law_what_is_taken_apart(b: Seq<u8>)
    ensures
        parsed(b) is Some <==> {
            ||| b.len() >= 40 && b[0] / 16 == 4 && b[9] == 6 && b[0] % 16 >= 5 && 4 * (b[0] % 16)
                + 20 <= b.len()
            ||| b.len() >= 60 && b[0] / 16 == 6 && b[6] == 6
        },
{
}

/// What is taken out of an IPv4 packet is what its bytes say.
pub proof fn law_ipv4_taken_apart(b: Seq<u8>)
    requires
        parsed(b) is Some,
        b[0] / 16 == 4,
    ensures
        ({
            let s = parsed(b).unwrap();
            &&& s.source.ip matches IpAddr::V4(n) && n == four(b, 12)
            &&& s.destination.ip matches IpAddr::V4(n) && n == four(b, 16)
            &&& read_at(b, 4 * (b[0] % 16), s)
        }),
{
    lemma_be_limits();
    lemma_be_bound(b.subrange(12, 16));
    lemma_be_bound(b.subrange(16, 20));
    lemma_be_four(b.subrange(12, 16));
    lemma_be_four(b.subrange(16, 20));
    lemma_read_at(
        b,
        4 * (b[0] % 16),
        IpAddr::V4(be(b.subrange(12, 16)) as u32),
        IpAddr::V4(be(b.subrange(16, 20)) as u32),
    );
}

proof fn lemma_reads_sixteen(b: Seq<u8>, at: int)
    requires
        0 <= at,
        at + 16 <= b.len(),
    ensures
        spells(b, at, be(b.subrange(at, at + 16)) as u128),
{
    let s = b.subrange(at, at + 16);
    lemma_be_limits();
    lemma_be_bound(s);
    assert forall|i: int| 0 <= i < 16 implies #[trigger] b[at + i] == be(s) as int / pow(
        256,
        (15 - i) as nat,
    ) % 256 by {
        law_read_digits(s, (15 - i) as nat);
        assert(s[i] == b[at + i]);
    }
}

/// What is taken out of an IPv6 packet is what its bytes say.
pub proof fn law_ipv6_taken_apart(b: Seq<u8>)
    requires
        parsed(b) is Some,
        b[0] / 16 == 6,
    ensures
        ({
            let s = parsed(b).unwrap();
            &&& s.source.ip matches IpAddr::V6(n) && spells(b, 8, n)
            &&& s.destination.ip matches IpAddr::V6(n) && spells(b, 24, n)
            &&& read_at(b, 40, s)
        }),
{
    lemma_reads_sixteen(b, 8);
    lemma_reads_sixteen(b, 24);
    lemma_read_at(
        b,
        40,
        IpAddr::V6(be(b.subrange(8, 24)) as u128),
        IpAddr::V6(be(b.subrange(24, 40)) as u128),
    );
}

} // verus!
