use netsim_embed::addr::{global_or_none, Ipv4AddrClass, Ipv4AddrExt, SocketAddrV4};

fn ip(a: u8, b: u8, c: u8, d: u8) -> u32 {
    u32::from_be_bytes([a, b, c, d])
}

#[test]
fn classes_follow_the_prefix_table() {
    assert_eq!(ip(0, 0, 0, 0).class(), Ipv4AddrClass::Unspecified);
    assert_eq!(ip(0, 0, 0, 1).class(), Ipv4AddrClass::CurrentNetwork);
    assert_eq!(ip(0, 255, 255, 255).class(), Ipv4AddrClass::CurrentNetwork);
    assert_eq!(ip(1, 0, 0, 0).class(), Ipv4AddrClass::Global);
    assert_eq!(ip(10, 1, 2, 3).class(), Ipv4AddrClass::Private);
    assert_eq!(ip(11, 0, 0, 0).class(), Ipv4AddrClass::Global);
    assert_eq!(ip(100, 64, 0, 0).class(), Ipv4AddrClass::CarrierNat);
    assert_eq!(ip(100, 127, 255, 255).class(), Ipv4AddrClass::CarrierNat);
    assert_eq!(ip(100, 128, 0, 0).class(), Ipv4AddrClass::Global);
    assert_eq!(ip(127, 0, 0, 1).class(), Ipv4AddrClass::Loopback);
    assert_eq!(ip(169, 254, 3, 3).class(), Ipv4AddrClass::LinkLocal);
    assert_eq!(ip(172, 16, 0, 0).class(), Ipv4AddrClass::Private);
    assert_eq!(ip(172, 31, 255, 255).class(), Ipv4AddrClass::Private);
    assert_eq!(ip(172, 32, 0, 0).class(), Ipv4AddrClass::Global);
    assert_eq!(ip(192, 0, 0, 5).class(), Ipv4AddrClass::ProtocolAssignments);
    assert_eq!(ip(192, 0, 2, 5).class(), Ipv4AddrClass::Testnet);
    assert_eq!(ip(192, 88, 99, 1).class(), Ipv4AddrClass::Ipv6Relay);
    assert_eq!(ip(192, 168, 1, 1).class(), Ipv4AddrClass::Private);
    assert_eq!(ip(198, 18, 0, 0).class(), Ipv4AddrClass::BenchmarkTests);
    assert_eq!(ip(198, 19, 255, 255).class(), Ipv4AddrClass::BenchmarkTests);
    assert_eq!(ip(198, 51, 100, 7).class(), Ipv4AddrClass::Testnet);
    assert_eq!(ip(203, 0, 113, 7).class(), Ipv4AddrClass::Testnet);
    assert_eq!(ip(224, 0, 0, 1).class(), Ipv4AddrClass::Multicast);
    assert_eq!(ip(239, 255, 255, 255).class(), Ipv4AddrClass::Multicast);
    assert_eq!(ip(240, 0, 0, 0).class(), Ipv4AddrClass::Reserved);
    assert_eq!(ip(255, 255, 255, 254).class(), Ipv4AddrClass::Reserved);
    assert_eq!(ip(255, 255, 255, 255).class(), Ipv4AddrClass::Broadcast);
    assert_eq!(ip(8, 8, 8, 8).class(), Ipv4AddrClass::Global);
}

#[test]
fn global_addresses() {
    assert!(ip(8, 8, 8, 8).is_global());
    assert!(ip(1, 2, 3, 4).is_global());
    assert!(ip(100, 64, 0, 1).is_global());
    assert!(ip(0, 0, 0, 0).is_global());
    assert!(!ip(127, 0, 0, 1).is_global());
    assert!(!ip(10, 0, 0, 1).is_global());
    assert!(!ip(172, 20, 0, 1).is_global());
    assert!(!ip(192, 168, 0, 1).is_global());
    assert!(!ip(169, 254, 0, 1).is_global());
    assert!(!ip(224, 0, 0, 1).is_global());
    assert!(!ip(255, 255, 255, 255).is_global());
    assert!(!ip(192, 0, 2, 1).is_global());
    assert!(!ip(198, 51, 100, 1).is_global());
    assert!(!ip(203, 0, 113, 1).is_global());
    assert!(!ip(240, 0, 0, 1).is_global());
}

#[test]
fn reserved_addresses() {
    assert!(ip(240, 0, 0, 0).is_reserved_addr());
    assert!(ip(255, 255, 255, 255).is_reserved_addr());
    assert!(!ip(239, 255, 255, 255).is_reserved_addr());
}

#[test]
fn netmask_from_bits() {
    assert_eq!(<u32 as Ipv4AddrExt>::from_netmask_bits(0), 0);
    assert_eq!(<u32 as Ipv4AddrExt>::from_netmask_bits(8), 0xff00_0000);
    assert_eq!(<u32 as Ipv4AddrExt>::from_netmask_bits(31), 0xffff_fffe);
}

#[test]
fn random_global_is_global() {
    let mut seen = 0;
    for _ in 0..200 {
        if let Some(a) = <u32 as Ipv4AddrExt>::random_global() {
            seen += 1;
            assert!(a.is_global());
        }
    }
    assert!(seen > 0);
    assert_eq!(global_or_none(ip(8, 8, 8, 8)), Some(ip(8, 8, 8, 8)));
    assert_eq!(global_or_none(ip(10, 8, 8, 8)), None);
}

#[test]
fn socket_addr_key() {
    let a = SocketAddrV4::new(ip(1, 2, 3, 4), 0x1234);
    assert_eq!(a.ip(), ip(1, 2, 3, 4));
    assert_eq!(a.port(), 0x1234);
    assert_eq!(a.key(), 0x0102_0304_1234);
    assert_ne!(a.key(), SocketAddrV4::new(ip(1, 2, 3, 4), 0x1235).key());
}
