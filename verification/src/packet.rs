//! A typed view of an IPv4 packet that carries UDP or TCP.
//!
//! All positions are byte offsets into the packet. Multi-byte fields are
//! big-endian on the wire and host-order numbers in this interface.
//!
//! Fields are read and written in place, where the IPv4, UDP and TCP headers
//! put them. The checksums are computed by `libpacket`; they are the
//! Internet checksum of the bytes that they cover.

use crate::addr::SocketAddrV4;
use vstd::prelude::*;
use vstd::slice::slice_subrange;

verus! {

/// The transport protocol of a packet.
#[derive(PartialEq, Eq, Structural, Clone, Copy, Debug)]
pub enum Protocol {
    Udp,
    Tcp,
}

/// The IPv4 protocol number of UDP.
pub const PROTOCOL_UDP: u8 = 17;

/// The IPv4 protocol number of TCP.
pub const PROTOCOL_TCP: u8 = 6;

/// The 16-bit number stored at `i`.
pub open spec fn be16(s: Seq<u8>, i: int) -> u16 {
    (s[i] as int * 0x100 + s[i + 1] as int) as u16
}

/// The 32-bit number stored at `i`.
pub open spec fn be32(s: Seq<u8>, i: int) -> u32 {
    (s[i] as int * 0x100_0000 + s[i + 1] as int * 0x1_0000 + s[i + 2] as int * 0x100 + s[i
        + 3] as int) as u32
}

/// `s` with the 16-bit number `v` stored at `i`.
pub open spec fn put16(s: Seq<u8>, i: int, v: u16) -> Seq<u8> {
    s.update(i, (v / 0x100) as u8).update(i + 1, (v % 0x100) as u8)
}

/// `s` with the 32-bit number `v` stored at `i`.
pub open spec fn put32(s: Seq<u8>, i: int, v: u32) -> Seq<u8> {
    s.update(i, (v / 0x100_0000) as u8).update(i + 1, (v / 0x1_0000 % 0x100) as u8).update(
        i + 2,
        (v / 0x100 % 0x100) as u8,
    ).update(i + 3, (v % 0x100) as u8)
}

/// The header length that the packet declares, in bytes.
pub open spec fn header_len(s: Seq<u8>) -> int {
    (s[0] % 16) * 4
}

/// Where the payload starts: after the declared header, and never before
/// byte 20.
pub open spec fn payload_start(s: Seq<u8>) -> int {
    if header_len(s) > 20 {
        header_len(s)
    } else {
        20
    }
}

/// Where the payload ends: the declared total length less the declared
/// header length after its start, cut off at the end of the packet.
pub open spec fn payload_end(s: Seq<u8>) -> int {
    let declared = if be16(s, 2) > header_len(s) {
        be16(s, 2) - header_len(s)
    } else {
        0
    };
    if payload_start(s) + declared < s.len() {
        payload_start(s) + declared
    } else {
        s.len() as int
    }
}

/// The payload of a packet of at least 20 bytes.
pub open spec fn payload_of(s: Seq<u8>) -> Seq<u8> {
    if s.len() <= payload_start(s) {
        Seq::empty()
    } else {
        s.subrange(payload_start(s), payload_end(s))
    }
}

/// The transport protocol of `s`, if `s` is an IPv4 packet of at least 20
/// bytes whose payload holds a whole UDP header (8 bytes) or TCP header (20
/// bytes).
pub open spec fn protocol_of(s: Seq<u8>) -> Option<Protocol> {
    if s.len() < 20 {
        None
    } else if s[9] == PROTOCOL_UDP && payload_of(s).len() >= 8 {
        Some(Protocol::Udp)
    } else if s[9] == PROTOCOL_TCP && payload_of(s).len() >= 20 {
        Some(Protocol::Tcp)
    } else {
        None
    }
}

/// The source socket address of a packet.
pub open spec fn source_of(s: Seq<u8>) -> SocketAddrV4 {
    SocketAddrV4 { ip: be32(s, 12), port: be16(s, payload_start(s)) }
}

/// The destination socket address of a packet.
pub open spec fn destination_of(s: Seq<u8>) -> SocketAddrV4 {
    SocketAddrV4 { ip: be32(s, 16), port: be16(s, payload_start(s) + 2) }
}

/// The time to live of a packet.
pub open spec fn ttl_of(s: Seq<u8>) -> u8 {
    s[8]
}

/// `s` with its source socket address replaced.
pub open spec fn with_source(s: Seq<u8>, addr: SocketAddrV4) -> Seq<u8> {
    put16(put32(s, 12, addr.ip), payload_start(s), addr.port)
}

/// `s` with its destination socket address replaced.
pub open spec fn with_destination(s: Seq<u8>, addr: SocketAddrV4) -> Seq<u8> {
    put16(put32(s, 16, addr.ip), payload_start(s) + 2, addr.port)
}

/// `s` with its time to live replaced.
pub open spec fn with_ttl(s: Seq<u8>, ttl: u8) -> Seq<u8> {
    s.update(8, ttl)
}

/// How many bytes the header checksum covers: the declared header length,
/// but at least 20 bytes and at most the packet.
pub open spec fn checksum_header_len(s: Seq<u8>) -> int {
    if header_len(s) < 20 {
        20
    } else if header_len(s) > s.len() {
        s.len() as int
    } else {
        header_len(s)
    }
}

/// What the header checksum is computed from: the header.
pub open spec fn header_input(s: Seq<u8>) -> Seq<u8> {
    s.subrange(0, checksum_header_len(s))
}

/// Which 16-bit word of the header holds its checksum.
pub const HEADER_CHECKSUM_WORD: usize = 5;

/// Where the checksum field lies in a UDP or TCP segment.
pub open spec fn checksum_offset(protocol: Protocol) -> int {
    match protocol {
        Protocol::Udp => 6,
        Protocol::Tcp => 16,
    }
}

/// What the transport checksum is computed from, beside the two
/// addresses: the segment.
pub open spec fn segment_input(s: Seq<u8>) -> Seq<u8> {
    payload_of(s)
}

/// The sum of the first `n` 16-bit words of `data`, the word numbered `skip`
/// left out.
pub open spec fn words_sum(data: Seq<u8>, skip: int, n: nat) -> int
    decreases n,
{
    if n == 0 {
        0
    } else {
        words_sum(data, skip, (n - 1) as nat) + if n - 1 == skip {
            0int
        } else {
            data[2 * (n - 1)] as int * 0x100 + data[2 * (n - 1) + 1] as int
        }
    }
}

/// The sum of the 16-bit words of `data`, the word numbered `skip` left
/// out. A last byte without a partner is the high byte of a word of its
/// own.
pub open spec fn be_sum(data: Seq<u8>, skip: int) -> int {
    let full = data.len() / 2;
    words_sum(data, skip, full) + if data.len() % 2 == 1 && full != skip {
        data[data.len() - 1] as int * 0x100
    } else {
        0int
    }
}

/// A sum folded to 16 bits: what is above 16 bits is added to what is
/// below, until nothing is above.
pub open spec fn fold16(sum: int) -> int
    decreases sum,
{
    if sum < 0x1_0000 {
        sum
    } else {
        fold16(sum / 0x1_0000 + sum % 0x1_0000)
    }
}

/// The Internet checksum of `data` and of `extra`, a sum that is added to
/// that of the words: the complement of the folded sum of the 16-bit words,
/// with the word numbered `skip`, which holds the checksum itself, left
/// out.
pub open spec fn internet_checksum(data: Seq<u8>, skip: int, extra: int) -> u16 {
    (0xffff - fold16(extra + be_sum(data, skip))) as u16
}

/// What a segment is summed with: the two halves of each address, the
/// protocol number and the length of the segment.
pub open spec fn pseudo_header_sum(source: u32, destination: u32, protocol: u8, len: int) -> int {
    source / 0x1_0000 + source % 0x1_0000 + destination / 0x1_0000 + destination % 0x1_0000
        + protocol + len
}

/// The checksum of an IPv4 header: the Internet checksum of its bytes, and
/// 0 for no bytes.
pub open spec fn header_checksum(header: Seq<u8>) -> u16 {
    if header.len() == 0 {
        0
    } else {
        internet_checksum(header, HEADER_CHECKSUM_WORD as int, 0)
    }
}

/// The checksum of a UDP segment that is sent between two addresses.
pub open spec fn udp_checksum(segment: Seq<u8>, source: u32, destination: u32) -> u16 {
    internet_checksum(
        segment,
        3,
        pseudo_header_sum(source, destination, PROTOCOL_UDP, segment.len() as int),
    )
}

/// The checksum of a TCP segment that is sent between two addresses.
pub open spec fn tcp_checksum(segment: Seq<u8>, source: u32, destination: u32) -> u16 {
    internet_checksum(
        segment,
        8,
        pseudo_header_sum(source, destination, PROTOCOL_TCP, segment.len() as int),
    )
}

/// Whether the header sums up: its 16-bit words, the checksum among them,
/// add up to a number that folds to 16 ones. This is how a receiver tests
/// the header.
pub open spec fn header_sums_up(s: Seq<u8>) -> bool {
    fold16(be_sum(header_input(s), -1)) == 0xffff
}

/// Whether the segment sums up: its 16-bit words, the checksum among them,
/// and what it is summed with add up to a number that folds to 16 ones.
pub open spec fn segment_sums_up(s: Seq<u8>) -> bool {
    protocol_of(s) matches Some(protocol) && fold16(
        pseudo_header_sum(
            be32(s, 12),
            be32(s, 16),
            match protocol {
                Protocol::Udp => PROTOCOL_UDP,
                Protocol::Tcp => PROTOCOL_TCP,
            },
            segment_input(s).len() as int,
        ) + be_sum(segment_input(s), -1),
    ) == 0xffff
}

/// A folded sum has 16 bits, is the sum modulo 0xffff, and is 0 for the sum
/// 0 only.
pub proof fn lemma_fold16(sum: int)
    requires
        sum >= 0,
    ensures
        0 <= fold16(sum) <= 0xffff,
        fold16(sum) % 0xffff == sum % 0xffff,
        fold16(sum) == 0 <==> sum == 0,
    decreases sum,
{
    if sum >= 0x1_0000 {
        let q = sum / 0x1_0000;
        let r = sum % 0x1_0000;
        lemma_fold16(q + r);
        assert(sum == 0xffff * q + (q + r));
        assert((0xffff * q + (q + r)) % 0xffff == (q + r) % 0xffff);
    }
}

proof fn lemma_words_with_word(data: Seq<u8>, skip: int, n: nat)
    requires
        0 <= skip,
        2 * n <= data.len(),
    ensures
        words_sum(data, skip, n) >= 0,
        words_sum(data, -1, n) == words_sum(data, skip, n) + if skip < n {
            data[2 * skip] as int * 0x100 + data[2 * skip + 1] as int
        } else {
            0int
        },
    decreases n,
{
    if n > 0 {
        lemma_words_with_word(data, skip, (n - 1) as nat);
    }
}

/// A checksum makes its data sum up: where the word numbered `skip` holds
/// the Internet checksum of the data, all words of the data and `extra` add
/// up to a number that folds to 16 ones.
pub proof fn lemma_checksum_validates(data: Seq<u8>, skip: int, extra: int)
    requires
        0 <= skip,
        2 * skip + 1 < data.len(),
        extra >= 0,
        be16(data, 2 * skip) == internet_checksum(data, skip, extra),
    ensures
        fold16(extra + be_sum(data, -1)) == 0xffff,
{
    lemma_words_with_word(data, skip, data.len() / 2);
    let rest = extra + be_sum(data, skip);
    lemma_fold16(rest);
    let field = 0xffff - fold16(rest);
    assert(be16(data, 2 * skip) == field);
    let all = extra + be_sum(data, -1);
    assert(all == rest + field);
    lemma_fold16(all);
    assert(all % 0xffff == 0) by {
        assert((rest + (0xffff - fold16(rest))) % 0xffff == 0) by {
            let f = fold16(rest);
            let k = rest / 0xffff;
            let m = rest % 0xffff;
            assert(rest == 0xffff * k + m);
            assert(f % 0xffff == m);
            if f == 0xffff {
                assert(m == 0);
                assert(rest + (0xffff - f) == 0xffff * k);
                assert((0xffff * k) % 0xffff == 0);
            } else {
                assert(f == m);
                assert(rest + (0xffff - f) == 0xffff * (k + 1));
                assert((0xffff * (k + 1)) % 0xffff == 0);
            }
        }
    }
    assert(all > 0);
}

/// A packet whose checksum fields hold its checksums sums up.
pub proof fn lemma_checksums_validate(s: Seq<u8>)
    requires
        protocol_of(s) is Some,
        header_checksum_ok(s),
        transport_checksum_ok(s),
    ensures
        header_sums_up(s),
        segment_sums_up(s),
{
    let protocol = protocol_of(s).unwrap();
    lemma_checksum_validates(header_input(s), 5, 0);
    let number = match protocol {
        Protocol::Udp => PROTOCOL_UDP,
        Protocol::Tcp => PROTOCOL_TCP,
    };
    lemma_checksum_validates(
        segment_input(s),
        checksum_offset(protocol) / 2,
        pseudo_header_sum(be32(s, 12), be32(s, 16), number, segment_input(s).len() as int),
    );
}

/// The word that is left out of a sum does not matter to it.
pub proof fn lemma_sum_skips(data: Seq<u8>, skip: int, i: int, v: u8)
    requires
        0 <= skip,
        2 * skip + 1 < data.len(),
        i == 2 * skip || i == 2 * skip + 1,
    ensures
        be_sum(data.update(i, v), skip) == be_sum(data, skip),
{
    lemma_words_skip(data, skip, i, v, data.len() / 2);
}

proof fn lemma_words_skip(data: Seq<u8>, skip: int, i: int, v: u8, n: nat)
    requires
        0 <= skip,
        2 * skip + 1 < data.len(),
        i == 2 * skip || i == 2 * skip + 1,
        2 * n <= data.len(),
    ensures
        words_sum(data.update(i, v), skip, n) == words_sum(data, skip, n),
    decreases n,
{
    if n > 0 {
        lemma_words_skip(data, skip, i, v, (n - 1) as nat);
    }
}

/// The transport checksum that belongs to a packet.
pub open spec fn transport_checksum(s: Seq<u8>, protocol: Protocol) -> u16 {
    match protocol {
        Protocol::Udp => udp_checksum(segment_input(s), be32(s, 12), be32(s, 16)),
        Protocol::Tcp => tcp_checksum(segment_input(s), be32(s, 12), be32(s, 16)),
    }
}

/// Whether the header checksum field holds the checksum of the header.
pub open spec fn header_checksum_ok(s: Seq<u8>) -> bool {
    be16(s, 10) == header_checksum(header_input(s))
}

/// Whether the checksum field of the segment holds the checksum of the
/// segment and the two addresses.
pub open spec fn transport_checksum_ok(s: Seq<u8>) -> bool {
    protocol_of(s) matches Some(protocol) && be16(
        s,
        payload_start(s) + checksum_offset(protocol),
    ) == transport_checksum(s, protocol)
}

/// `s` with both checksums recomputed: first that of the header, then that
/// of the segment.
pub open spec fn with_checksums(s: Seq<u8>) -> Seq<u8> {
    let t = put16(s, 10, header_checksum(header_input(s)));
    match protocol_of(s) {
        Some(protocol) => put16(
            t,
            payload_start(s) + checksum_offset(protocol),
            transport_checksum(t, protocol),
        ),
        None => t,
    }
}

/// Calls `libpacket::ipv4::checksum` on the packet. The function takes the
/// first `checksum_header_len` bytes, sums their 16-bit words but for word
/// 5, folds the sum and returns its complement. It needs the 20 bytes that
/// `Ipv4Packet::new` asks for.
#[verifier::external_body]
fn compute_header_checksum(bytes: &[u8]) -> (c: u16)
    requires
        bytes@.len() >= 20,
    ensures
        c == header_checksum(header_input(bytes@)),
{
    libpacket::ipv4::checksum(&libpacket::ipv4::Ipv4Packet::new(bytes).unwrap())
}

/// Calls `libpacket::udp::ipv4_checksum` on a UDP segment and the two
/// addresses of its packet. The function sums the halves of the addresses,
/// the protocol number 17, the length of the segment and the 16-bit words of
/// the segment but for word 3, folds the sum and returns its complement. It
/// needs the 8 bytes that `UdpPacket::new` asks for, and its 32-bit sum has
/// room for segments of up to 65535 bytes.
#[verifier::external_body]
fn compute_udp_checksum(segment: &[u8], source: u32, destination: u32) -> (c: u16)
    requires
        8 <= segment@.len() <= 65535,
    ensures
        c == udp_checksum(segment@, source, destination),
{
    let udp = libpacket::udp::UdpPacket::new(segment).unwrap();
    libpacket::udp::ipv4_checksum(&udp, &source.into(), &destination.into())
}

/// Calls `libpacket::tcp::ipv4_checksum` on a TCP segment and the two
/// addresses of its packet. The function sums the halves of the addresses,
/// the protocol number 6, the length of the segment and the 16-bit words of
/// the segment but for word 8, folds the sum and returns its complement. It
/// needs the 20 bytes that `TcpPacket::new` asks for, and its 32-bit sum has
/// room for segments of up to 65535 bytes.
#[verifier::external_body]
fn compute_tcp_checksum(segment: &[u8], source: u32, destination: u32) -> (c: u16)
    requires
        20 <= segment@.len() <= 65535,
    ensures
        c == tcp_checksum(segment@, source, destination),
{
    let tcp = libpacket::tcp::TcpPacket::new(segment).unwrap();
    libpacket::tcp::ipv4_checksum(&tcp, &source.into(), &destination.into())
}

fn read16(bytes: &Vec<u8>, i: usize) -> (r: u16)
    requires
        i + 1 < bytes.len(),
    ensures
        r == be16(bytes@, i as int),
{
    (bytes[i] as u16) * 0x100 + bytes[i + 1] as u16
}

fn read32(bytes: &Vec<u8>, i: usize) -> (r: u32)
    requires
        i + 3 < bytes.len(),
    ensures
        r == be32(bytes@, i as int),
{
    (bytes[i] as u32) * 0x100_0000 + (bytes[i + 1] as u32) * 0x1_0000 + (bytes[i + 2] as u32)
        * 0x100 + bytes[i + 3] as u32
}

fn write16(bytes: &mut Vec<u8>, i: usize, v: u16)
    requires
        i + 1 < old(bytes).len(),
    ensures
        final(bytes)@ == put16(old(bytes)@, i as int, v),
{
    bytes.set(i, (v / 0x100) as u8);
    bytes.set(i + 1, (v % 0x100) as u8);
}

fn write32(bytes: &mut Vec<u8>, i: usize, v: u32)
    requires
        i + 3 < old(bytes).len(),
    ensures
        final(bytes)@ == put32(old(bytes)@, i as int, v),
{
    bytes.set(i, (v / 0x100_0000) as u8);
    bytes.set(i + 1, (v / 0x1_0000 % 0x100) as u8);
    bytes.set(i + 2, (v / 0x100 % 0x100) as u8);
    bytes.set(i + 3, (v % 0x100) as u8);
}

/// The bounds of the payload of a packet of at least 20 bytes.
fn payload_bounds(bytes: &[u8]) -> (r: (usize, usize))
    requires
        bytes@.len() >= 20,
    ensures
        r.0 == payload_start(bytes@),
        bytes@.len() > r.0 ==> r.1 == payload_end(bytes@),
        bytes@.len() <= r.0 ==> r.1 == r.0,
        r.0 <= r.1,
        r.1 - r.0 == payload_of(bytes@).len(),
        r.1 - r.0 <= 65535,
        r.0 < r.1 ==> r.1 <= bytes@.len(),
{
    let declared_header: usize = (bytes[0] % 16) as usize * 4;
    let total: usize = (bytes[2] as usize) * 0x100 + bytes[3] as usize;
    let start: usize = if declared_header > 20 {
        declared_header
    } else {
        20
    };
    if bytes.len() <= start {
        return (start, start);
    }
    let declared: usize = if total > declared_header {
        total - declared_header
    } else {
        0
    };
    let end: usize = if start + declared < bytes.len() {
        start + declared
    } else {
        bytes.len()
    };
    (start, end)
}

/// The transport protocol of `bytes`, if they are a packet that this
/// interface handles.
pub fn classify(bytes: &[u8]) -> (r: Option<Protocol>)
    ensures
        r == protocol_of(bytes@),
{
    if bytes.len() < 20 {
        return None;
    }
    let (start, end) = payload_bounds(bytes);
    let next: u8 = bytes[9];
    if next == PROTOCOL_UDP && end - start >= 8 {
        Some(Protocol::Udp)
    } else if next == PROTOCOL_TCP && end - start >= 20 {
        Some(Protocol::Tcp)
    } else {
        None
    }
}

/// An IPv4 packet with a UDP or TCP segment, held as its bytes.
#[derive(Debug)]
pub struct Packet {
    protocol: Protocol,
    bytes: Vec<u8>,
}

impl View for Packet {
    type V = Seq<u8>;

    closed spec fn view(&self) -> Seq<u8> {
        self.bytes@
    }
}

/// Writing a field changes neither the length of a packet nor the bytes
/// that decide where its payload lies and what it carries.
pub open spec fn same_frame(s: Seq<u8>, t: Seq<u8>) -> bool {
    &&& s.len() == t.len()
    &&& s.len() >= 20 ==> s[0] == t[0] && s[2] == t[2] && s[3] == t[3] && s[9] == t[9]
}

/// Packets with the same frame carry the same protocol in the same place.
pub proof fn lemma_same_frame(s: Seq<u8>, t: Seq<u8>)
    requires
        same_frame(s, t),
    ensures
        protocol_of(s) == protocol_of(t),
        s.len() >= 20 ==> payload_start(s) == payload_start(t) && payload_end(s) == payload_end(t),
        payload_of(s).len() == payload_of(t).len(),
{
}

impl Packet {
    /// The protocol that the packet was found to carry.
    pub closed spec fn spec_protocol(&self) -> Protocol {
        self.protocol
    }

    /// The bytes are a packet of the recorded protocol.
    pub open spec fn wf(&self) -> bool {
        protocol_of(self@) == Some(self.spec_protocol())
    }

    /// Takes `bytes` as a packet if they hold a well-formed IPv4 header
    /// followed by a whole UDP or TCP header.
    pub fn new(bytes: Vec<u8>) -> (r: Option<Self>)
        ensures
            r is Some <==> protocol_of(bytes@) is Some,
            r matches Some(p) ==> p.wf() && p@ == bytes@,
    {
        match classify(bytes.as_slice()) {
            Some(protocol) => Some(Packet { protocol, bytes }),
            None => None,
        }
    }

    /// Takes `bytes` as a packet of a protocol that they were found to
    /// carry.
    pub(crate) fn with_protocol(bytes: Vec<u8>, protocol: Protocol) -> (r: Self)
        requires
            protocol_of(bytes@) == Some(protocol),
        ensures
            r.wf(),
            r@ == bytes@,
            r.spec_protocol() == protocol,
    {
        Packet { protocol, bytes }
    }

    /// Gives the bytes back.
    pub fn into_bytes(self) -> (r: Vec<u8>)
        ensures
            r@ == self@,
    {
        self.bytes
    }

    /// The bytes of the packet.
    pub fn bytes(&self) -> (r: &Vec<u8>)
        ensures
            r@ == self@,
    {
        &self.bytes
    }

    /// The transport protocol.
    pub fn protocol(&self) -> (r: Protocol)
        ensures
            r == self.spec_protocol(),
    {
        self.protocol
    }

    /// The source address and port.
    pub fn get_source(&self) -> (r: SocketAddrV4)
        requires
            self.wf(),
        ensures
            r == source_of(self@),
    {
        let (start, _end) = payload_bounds(self.bytes.as_slice());
        SocketAddrV4::new(read32(&self.bytes, 12), read16(&self.bytes, start))
    }

    /// The destination address and port.
    pub fn get_destination(&self) -> (r: SocketAddrV4)
        requires
            self.wf(),
        ensures
            r == destination_of(self@),
    {
        let (start, _end) = payload_bounds(self.bytes.as_slice());
        SocketAddrV4::new(read32(&self.bytes, 16), read16(&self.bytes, start + 2))
    }

    /// The time to live.
    pub fn get_ttl(&self) -> (r: u8)
        requires
            self.wf(),
        ensures
            r == ttl_of(self@),
    {
        self.bytes[8]
    }

    /// Replaces the source address and port.
    pub fn set_source(&mut self, addr: SocketAddrV4)
        requires
            old(self).wf(),
        ensures
            final(self).wf(),
            final(self).spec_protocol() == old(self).spec_protocol(),
            final(self)@ == with_source(old(self)@, addr),
    {
        let (start, _end) = payload_bounds(self.bytes.as_slice());
        write32(&mut self.bytes, 12, addr.ip);
        write16(&mut self.bytes, start, addr.port);
        proof {
            lemma_same_frame(old(self)@, self@);
        }
    }

    /// Replaces the destination address and port.
    pub fn set_destination(&mut self, addr: SocketAddrV4)
        requires
            old(self).wf(),
        ensures
            final(self).wf(),
            final(self).spec_protocol() == old(self).spec_protocol(),
            final(self)@ == with_destination(old(self)@, addr),
    {
        let (start, _end) = payload_bounds(self.bytes.as_slice());
        write32(&mut self.bytes, 16, addr.ip);
        write16(&mut self.bytes, start + 2, addr.port);
        proof {
            lemma_same_frame(old(self)@, self@);
        }
    }

    /// Replaces the time to live.
    pub fn set_ttl(&mut self, ttl: u8)
        requires
            old(self).wf(),
        ensures
            final(self).wf(),
            final(self).spec_protocol() == old(self).spec_protocol(),
            final(self)@ == with_ttl(old(self)@, ttl),
    {
        self.bytes.set(8, ttl);
        proof {
            lemma_same_frame(old(self)@, self@);
        }
    }

    /// Recomputes the header checksum and then the checksum of the
    /// segment, which covers the two addresses of the header.
    pub fn set_checksum(&mut self)
        requires
            old(self).wf(),
        ensures
            final(self).wf(),
            final(self).spec_protocol() == old(self).spec_protocol(),
            final(self)@ == with_checksums(old(self)@),
            header_checksum_ok(final(self)@),
            transport_checksum_ok(final(self)@),
            header_sums_up(final(self)@),
            segment_sums_up(final(self)@),
    {
        let source: u32 = read32(&self.bytes, 12);
        let destination: u32 = read32(&self.bytes, 16);
        let header_sum: u16 = compute_header_checksum(self.bytes.as_slice());
        write16(&mut self.bytes, 10, header_sum);
        proof {
            lemma_same_frame(old(self)@, self@);
        }
        let (start, end) = payload_bounds(self.bytes.as_slice());
        let ghost before = self@;
        match self.protocol {
            Protocol::Udp => {
                let segment = slice_subrange(self.bytes.as_slice(), start, end);
                let sum: u16 = compute_udp_checksum(segment, source, destination);
                assert(segment@ == segment_input(before));
                write16(&mut self.bytes, start + 6, sum);
            },
            Protocol::Tcp => {
                let segment = slice_subrange(self.bytes.as_slice(), start, end);
                let sum: u16 = compute_tcp_checksum(segment, source, destination);
                assert(segment@ == segment_input(before));
                write16(&mut self.bytes, start + 16, sum);
            },
        }
        proof {
            lemma_same_frame(old(self)@, self@);
            lemma_checksums(old(self)@);
        }
    }
}

/// Recomputing the checksums leaves a packet whose two checksums are
/// right, so that header and segment sum up, and changes nothing but the
/// two checksum fields.
pub proof fn lemma_checksums(s: Seq<u8>)
    requires
        protocol_of(s) is Some,
    ensures
        same_frame(s, with_checksums(s)),
        header_checksum_ok(with_checksums(s)),
        transport_checksum_ok(with_checksums(s)),
        header_sums_up(with_checksums(s)),
        segment_sums_up(with_checksums(s)),
        source_of(with_checksums(s)) == source_of(s),
        destination_of(with_checksums(s)) == destination_of(s),
        ttl_of(with_checksums(s)) == ttl_of(s),
{
    let protocol = protocol_of(s).unwrap();
    let t = put16(s, 10, header_checksum(header_input(s)));
    let at = payload_start(s) + checksum_offset(protocol);
    let u = with_checksums(s);
    lemma_same_frame(s, t);
    lemma_same_frame(s, u);
    let sum = header_checksum(header_input(s));
    let h = header_input(s);
    assert(header_input(t) =~= h.update(10, (sum / 0x100) as u8).update(11, (sum % 0x100) as u8));
    assert(header_input(u) =~= header_input(t));
    lemma_sum_skips(h, 5, 10, (sum / 0x100) as u8);
    lemma_sum_skips(h.update(10, (sum / 0x100) as u8), 5, 11, (sum % 0x100) as u8);
    let g = segment_input(t);
    let at_word = checksum_offset(protocol) / 2;
    let v = transport_checksum(t, protocol);
    assert(segment_input(u) =~= g.update(
        checksum_offset(protocol),
        (v / 0x100) as u8,
    ).update(checksum_offset(protocol) + 1, (v % 0x100) as u8));
    lemma_sum_skips(g, at_word, checksum_offset(protocol), (v / 0x100) as u8);
    lemma_sum_skips(
        g.update(checksum_offset(protocol), (v / 0x100) as u8),
        at_word,
        checksum_offset(protocol) + 1,
        (v % 0x100) as u8,
    );
    lemma_checksums_validate(u);
}

/// A 16-bit number that was stored is the number that is read.
pub proof fn lemma_put16(s: Seq<u8>, i: int, v: u16)
    requires
        0 <= i,
        i + 1 < s.len(),
    ensures
        put16(s, i, v).len() == s.len(),
        be16(put16(s, i, v), i) == v,
        forall|j: int| 0 <= j < s.len() && j != i && j != i + 1 ==> put16(s, i, v)[j] == s[j],
{
}

/// A 32-bit number that was stored is the number that is read.
pub proof fn lemma_put32(s: Seq<u8>, i: int, v: u32)
    requires
        0 <= i,
        i + 3 < s.len(),
    ensures
        put32(s, i, v).len() == s.len(),
        be32(put32(s, i, v), i) == v,
        forall|j: int| 0 <= j < s.len() && !(i <= j <= i + 3) ==> put32(s, i, v)[j] == s[j],
{
}

/// Rewriting the addresses, the ports, the time to live and the checksums
/// leaves what follows the checksum of the segment as it is: the data that
/// the packet carries.
pub proof fn lemma_data_kept(s: Seq<u8>, protocol: Protocol, j: int)
    requires
        protocol_of(s) == Some(protocol),
        payload_start(s) + checksum_offset(protocol) + 2 <= j < s.len(),
    ensures
        forall|addr: SocketAddrV4| (#[trigger] with_source(s, addr))[j] == s[j],
        forall|addr: SocketAddrV4| (#[trigger] with_destination(s, addr))[j] == s[j],
        forall|ttl: u8| (#[trigger] with_ttl(s, ttl))[j] == s[j],
        with_checksums(s)[j] == s[j],
        with_checksums(s).len() == s.len(),
{
    assert forall|addr: SocketAddrV4| (#[trigger] with_source(s, addr))[j] == s[j] by {
        lemma_put32(s, 12, addr.ip);
        lemma_put16(put32(s, 12, addr.ip), payload_start(s), addr.port);
    }
    assert forall|addr: SocketAddrV4| (#[trigger] with_destination(s, addr))[j] == s[j] by {
        lemma_put32(s, 16, addr.ip);
        lemma_put16(put32(s, 16, addr.ip), payload_start(s) + 2, addr.port);
    }
    lemma_checksums(s);
}

/// Setting the source changes the source and nothing else that is read from
/// a packet.
pub proof fn lemma_with_source(s: Seq<u8>, source: SocketAddrV4)
    requires
        protocol_of(s) is Some,
    ensures
        same_frame(s, with_source(s, source)),
        protocol_of(with_source(s, source)) == protocol_of(s),
        source_of(with_source(s, source)) == source,
        destination_of(with_source(s, source)) == destination_of(s),
        ttl_of(with_source(s, source)) == ttl_of(s),
{
    let a = put32(s, 12, source.ip);
    lemma_put32(s, 12, source.ip);
    lemma_put16(a, payload_start(s), source.port);
    lemma_same_frame(s, with_source(s, source));
}

/// Setting the destination changes the destination and nothing else that is
/// read from a packet.
pub proof fn lemma_with_destination(s: Seq<u8>, destination: SocketAddrV4)
    requires
        protocol_of(s) is Some,
    ensures
        same_frame(s, with_destination(s, destination)),
        protocol_of(with_destination(s, destination)) == protocol_of(s),
        source_of(with_destination(s, destination)) == source_of(s),
        destination_of(with_destination(s, destination)) == destination,
        ttl_of(with_destination(s, destination)) == ttl_of(s),
{
    let a = put32(s, 16, destination.ip);
    lemma_put32(s, 16, destination.ip);
    lemma_put16(a, payload_start(s) + 2, destination.port);
    lemma_same_frame(s, with_destination(s, destination));
}

/// Setting the time to live changes the time to live and nothing else that
/// is read from a packet.
pub proof fn lemma_with_ttl(s: Seq<u8>, ttl: u8)
    requires
        protocol_of(s) is Some,
    ensures
        same_frame(s, with_ttl(s, ttl)),
        protocol_of(with_ttl(s, ttl)) == protocol_of(s),
        source_of(with_ttl(s, ttl)) == source_of(s),
        destination_of(with_ttl(s, ttl)) == destination_of(s),
        ttl_of(with_ttl(s, ttl)) == ttl,
{
    lemma_same_frame(s, with_ttl(s, ttl));
}

/// What is written into a packet is what is read from it: after the source,
/// the destination and the time to live were set and the checksums
/// recomputed, the packet carries these three, and both of its checksums
/// are right.
pub proof fn lemma_round_trip(
    s: Seq<u8>,
    source: SocketAddrV4,
    destination: SocketAddrV4,
    ttl: u8,
)
    requires
        protocol_of(s) is Some,
    ensures
        ({
            let t = with_checksums(
                with_ttl(with_destination(with_source(s, source), destination), ttl),
            );
            &&& protocol_of(t) == protocol_of(s)
            &&& source_of(t) == source
            &&& destination_of(t) == destination
            &&& ttl_of(t) == ttl
            &&& header_checksum_ok(t)
            &&& transport_checksum_ok(t)
            &&& header_sums_up(t)
            &&& segment_sums_up(t)
        }),
{
    let b = with_source(s, source);
    lemma_with_source(s, source);
    let d = with_destination(b, destination);
    lemma_with_destination(b, destination);
    let e = with_ttl(d, ttl);
    lemma_with_ttl(d, ttl);
    lemma_checksums(e);
    lemma_same_frame(e, with_checksums(e));
}

} // verus!
