use libpacket::ipv4::Ipv4Packet;
use libpacket::tcp::TcpPacket;
use libpacket::udp::UdpPacket;
use libpacket::Packet as _;
use netsim_embed::addr::SocketAddrV4;
use netsim_embed::packet::{classify, Packet, Protocol};

fn ip(a: u8, b: u8, c: u8, d: u8) -> u32 {
    u32::from_be_bytes([a, b, c, d])
}

fn udp_packet() -> Vec<u8> {
    let mut v = vec![
        0x45, 0, 0, 32, 0, 0, 0, 0, 64, 17, 0, 0, 192, 168, 0, 1, 192, 168, 0, 199,
    ];
    v.extend_from_slice(&[0x30, 0x39, 0xd4, 0x31, 0, 12, 0, 0]);
    v.extend_from_slice(b"test");
    v
}

fn tcp_packet() -> Vec<u8> {
    let mut v = vec![0x45, 0, 0, 40, 0, 0, 0, 0, 64, 6, 0, 0, 10, 0, 0, 2, 8, 8, 8, 8];
    v.extend_from_slice(&[
        0x30, 0x39, 0x00, 0x50, 0, 0, 0, 1, 0, 0, 0, 0, 0x50, 0x02, 0x20, 0x00, 0, 0, 0, 0,
    ]);
    v
}

#[test]
fn udp_packet_is_read() {
    let p = Packet::new(udp_packet()).unwrap();
    assert_eq!(p.protocol(), Protocol::Udp);
    assert_eq!(p.get_source(), SocketAddrV4::new(ip(192, 168, 0, 1), 12345));
    assert_eq!(p.get_destination(), SocketAddrV4::new(ip(192, 168, 0, 199), 54321));
    assert_eq!(p.get_ttl(), 64);
    assert_eq!(p.bytes(), &udp_packet());
}

#[test]
fn tcp_packet_is_read() {
    let p = Packet::new(tcp_packet()).unwrap();
    assert_eq!(p.protocol(), Protocol::Tcp);
    assert_eq!(p.get_source(), SocketAddrV4::new(ip(10, 0, 0, 2), 12345));
    assert_eq!(p.get_destination(), SocketAddrV4::new(ip(8, 8, 8, 8), 80));
    assert_eq!(p.get_ttl(), 64);
}

#[test]
fn malformed_packets_are_refused() {
    assert!(Packet::new(vec![]).is_none());
    assert!(Packet::new(vec![0x45; 19]).is_none());
    // An IPv4 header alone carries no segment.
    assert!(Packet::new(udp_packet()[..20].to_vec()).is_none());
    // Seven bytes are no UDP header.
    assert!(Packet::new(udp_packet()[..27].to_vec()).is_none());
    assert!(Packet::new(udp_packet()[..28].to_vec()).is_some());
    // Nineteen bytes are no TCP header.
    assert!(Packet::new(tcp_packet()[..39].to_vec()).is_none());
    // ICMP is neither UDP nor TCP.
    let mut icmp = udp_packet();
    icmp[9] = 1;
    assert_eq!(classify(&icmp), None);
    // The declared total length bounds the payload.
    let mut short = udp_packet();
    short[3] = 27;
    assert_eq!(classify(&short), None);
    assert_eq!(classify(&udp_packet()), Some(Protocol::Udp));
    assert_eq!(classify(&tcp_packet()), Some(Protocol::Tcp));
}

#[test]
fn header_options_move_the_payload() {
    let mut v = vec![
        0x46, 0, 0, 36, 0, 0, 0, 0, 64, 17, 0, 0, 192, 168, 0, 1, 192, 168, 0, 199, 1, 1, 1, 1,
    ];
    v.extend_from_slice(&[0x30, 0x39, 0xd4, 0x31, 0, 12, 0, 0]);
    v.extend_from_slice(b"test");
    let mut p = Packet::new(v.clone()).unwrap();
    assert_eq!(p.get_source().port(), 12345);
    assert_eq!(p.get_destination().port(), 54321);
    p.set_source(SocketAddrV4::new(ip(1, 1, 1, 1), 7));
    let out = p.into_bytes();
    assert_eq!(&out[24..26], &[0, 7]);
    assert_eq!(&out[20..24], &[1, 1, 1, 1]);
    let view = Ipv4Packet::new(&out).unwrap();
    assert_eq!(UdpPacket::new(view.payload()).unwrap().get_source(), 7);
}

#[test]
fn written_fields_are_read_back() {
    let mut p = Packet::new(udp_packet()).unwrap();
    let s = SocketAddrV4::new(ip(1, 2, 3, 4), 49152);
    let d = SocketAddrV4::new(ip(5, 6, 7, 8), 3000);
    p.set_source(s);
    p.set_destination(d);
    p.set_ttl(17);
    assert_eq!(p.get_source(), s);
    assert_eq!(p.get_destination(), d);
    assert_eq!(p.get_ttl(), 17);
    assert_eq!(p.protocol(), Protocol::Udp);
    let out = p.into_bytes();
    let view = Ipv4Packet::new(&out).unwrap();
    assert_eq!(u32::from(view.get_source()), ip(1, 2, 3, 4));
    assert_eq!(u32::from(view.get_destination()), ip(5, 6, 7, 8));
    assert_eq!(view.get_ttl(), 17);
    let udp = UdpPacket::new(view.payload()).unwrap();
    assert_eq!(udp.get_source(), 49152);
    assert_eq!(udp.get_destination(), 3000);
    assert_eq!(&out[28..], b"test");
}

#[test]
fn udp_checksums_are_recomputed() {
    let mut p = Packet::new(udp_packet()).unwrap();
    p.set_checksum();
    let out = p.into_bytes();
    assert_eq!(&out[10..12], &[0xf8, 0xb4]);
    assert_eq!(&out[26..28], &[0x91, 0x78]);
    let view = Ipv4Packet::new(&out).unwrap();
    assert_eq!(view.get_checksum(), libpacket::ipv4::checksum(&view));
    let udp = UdpPacket::new(view.payload()).unwrap();
    assert_eq!(
        udp.get_checksum(),
        libpacket::udp::ipv4_checksum(&udp, &view.get_source(), &view.get_destination())
    );
    // Only the two checksum fields change.
    let mut expected = udp_packet();
    expected[10] = 0xf8;
    expected[11] = 0xb4;
    expected[26] = 0x91;
    expected[27] = 0x78;
    assert_eq!(out, expected);
}

#[test]
fn tcp_checksums_are_recomputed() {
    let mut p = Packet::new(tcp_packet()).unwrap();
    p.set_checksum();
    let out = p.into_bytes();
    assert_eq!(&out[10..12], &[0x60, 0xbf]);
    assert_eq!(&out[36..38], &[0x45, 0x47]);
    let view = Ipv4Packet::new(&out).unwrap();
    assert_eq!(view.get_checksum(), libpacket::ipv4::checksum(&view));
    let tcp = TcpPacket::new(view.payload()).unwrap();
    assert_eq!(
        tcp.get_checksum(),
        libpacket::tcp::ipv4_checksum(&tcp, &view.get_source(), &view.get_destination())
    );
}

#[test]
fn stale_checksums_are_replaced() {
    let mut v = udp_packet();
    v[10] = 0xaa;
    v[11] = 0xbb;
    v[26] = 0xcc;
    v[27] = 0xdd;
    let mut p = Packet::new(v).unwrap();
    p.set_checksum();
    let out = p.into_bytes();
    assert_eq!(&out[10..12], &[0xf8, 0xb4]);
    assert_eq!(&out[26..28], &[0x91, 0x78]);
}

/// The 16-bit words of `data` and `extra`, added up and folded.
fn folded_sum(data: &[u8], extra: u32) -> u32 {
    let mut sum = extra;
    for pair in data.chunks(2) {
        let low = if pair.len() == 2 { pair[1] as u32 } else { 0 };
        sum += (pair[0] as u32) * 256 + low;
    }
    while sum >> 16 != 0 {
        sum = (sum >> 16) + (sum & 0xffff);
    }
    sum
}

#[test]
fn recomputed_packets_sum_up() {
    let mut odd = udp_packet();
    odd.push(b'!');
    odd[3] = 33;
    odd[25] = 13;
    for bytes in [udp_packet(), tcp_packet(), odd] {
        let protocol = bytes[9] as u32;
        let mut p = Packet::new(bytes).unwrap();
        p.set_checksum();
        let out = p.into_bytes();
        assert_eq!(folded_sum(&out[..20], 0), 0xffff);
        let pseudo = folded_sum(&out[12..20], protocol + (out.len() as u32 - 20));
        assert_eq!(folded_sum(&out[20..], pseudo), 0xffff);
    }
}
