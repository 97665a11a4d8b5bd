use netsim_embed::addr::{Ipv4AddrClass, Ipv4AddrExt};
use netsim_embed::range::{find_delimiter, from_parts, IpRangeParseError, Ipv4Range};

fn ip(a: u8, b: u8, c: u8, d: u8) -> u32 {
    u32::from_be_bytes([a, b, c, d])
}

#[test]
fn it_creates_address_range() {
    let addrs = Ipv4Range::new(ip(1, 2, 3, 0), 24);

    assert!(addrs.contains(ip(1, 2, 3, 5)));
    assert!(addrs.contains(ip(1, 2, 3, 255)));
    assert!(!addrs.contains(ip(1, 2, 4, 5)));
}

#[test]
fn new_clears_host_bits() {
    let r = Ipv4Range::new(ip(192, 168, 7, 77), 24);
    assert_eq!(r.base_addr(), ip(192, 168, 7, 0));
    assert_eq!(r.netmask_prefix_length(), 24);
    assert_eq!(r.netmask(), ip(255, 255, 255, 0));
    assert_eq!(r.gateway_addr(), ip(192, 168, 7, 1));
    let all = Ipv4Range::new(ip(9, 9, 9, 9), 0);
    assert_eq!(all.base_addr(), 0);
    assert_eq!(all.netmask(), 0);
    let one = Ipv4Range::new(ip(9, 9, 9, 9), 32);
    assert_eq!(one.base_addr(), ip(9, 9, 9, 9));
    assert_eq!(one.netmask(), 0xffff_ffff);
}

#[test]
fn zero_bit_range_covers_everything() {
    let all = Ipv4Range::global();
    assert_eq!(all.base_addr(), 0);
    assert_eq!(all.netmask_prefix_length(), 0);
    assert!(all.contains(0));
    assert!(all.contains(0xffff_ffff));
    assert!(all.contains(ip(10, 1, 2, 3)));
}

#[test]
fn single_address_range() {
    let one = Ipv4Range::from_addr(ip(1, 2, 3, 4));
    assert_eq!(one.netmask_prefix_length(), 32);
    assert!(one.contains(ip(1, 2, 3, 4)));
    assert!(!one.contains(ip(1, 2, 3, 5)));
}

#[test]
fn local_subnets() {
    let a = Ipv4Range::local_subnet_10();
    assert_eq!((a.base_addr(), a.netmask_prefix_length()), (ip(10, 0, 0, 0), 8));
    let b = Ipv4Range::local_subnet_172(5);
    assert_eq!((b.base_addr(), b.netmask_prefix_length()), (ip(172, 21, 0, 0), 16));
    let c = Ipv4Range::local_subnet_192(200);
    assert_eq!((c.base_addr(), c.netmask_prefix_length()), (ip(192, 168, 200, 0), 24));
    let d = Ipv4Range::local_subnet_for(4, 0xf3);
    assert_eq!((d.base_addr(), d.netmask_prefix_length()), (ip(172, 19, 0, 0), 16));
    let e = Ipv4Range::local_subnet_for(5, 9);
    assert_eq!((e.base_addr(), e.netmask_prefix_length()), (ip(192, 168, 9, 0), 24));
    let f = Ipv4Range::local_subnet_for(6, 9);
    assert_eq!((f.base_addr(), f.netmask_prefix_length()), (ip(10, 0, 0, 0), 8));
}

#[test]
fn random_local_subnet_is_private() {
    for _ in 0..200 {
        let r = Ipv4Range::random_local_subnet();
        assert_eq!(r.base_addr().class(), Ipv4AddrClass::Private);
        assert!(matches!(r.netmask_prefix_length(), 8 | 16 | 24));
    }
}

#[test]
fn broadcast_addr_is_netmask_or_base() {
    let r = Ipv4Range::new(ip(10, 0, 0, 0), 8);
    assert_eq!(r.broadcast_addr(), ip(255, 0, 0, 0));
    let s = Ipv4Range::new(ip(192, 168, 1, 0), 24);
    assert_eq!(s.broadcast_addr(), ip(255, 255, 255, 0));
}

#[test]
fn address_for_numbers_devices_from_two() {
    let r = Ipv4Range::new(ip(192, 168, 1, 0), 24);
    assert!(r.can_address(0));
    assert_eq!(r.address_for(0), ip(192, 168, 1, 2));
    assert_eq!(r.address_for(1), ip(192, 168, 1, 3));
    assert_eq!(r.address_for(0x1_05), ip(192, 168, 1, 7));
    let all = Ipv4Range::global();
    assert_eq!(all.address_for(7), 9);
    assert!(!all.can_address(0xffff_fffe));
    let tiny = Ipv4Range::new(ip(192, 168, 1, 0), 31);
    assert!(!tiny.can_address(0));
}

#[test]
fn client_addr_for_applies_both_rejection_rules() {
    let r = Ipv4Range::new(ip(192, 168, 1, 0), 24);
    assert_eq!(r.client_addr_for(0), None);
    assert_eq!(r.client_addr_for(0x1234_5601), None);
    assert_eq!(r.client_addr_for(0x1234_5602), Some(ip(192, 168, 1, 2)));
    assert_eq!(r.client_addr_for(0xffff_ffff), Some(ip(192, 168, 1, 255)));
    // 126.0.0.0/7 is global; its upper half is loopback.
    let g = Ipv4Range::new(ip(126, 0, 0, 0), 7);
    assert_eq!(g.client_addr_for(0x0000_0005), Some(ip(126, 0, 0, 5)));
    assert_eq!(g.client_addr_for(0x0100_0005), None);
    // The range of all addresses counts as global.
    let all = Ipv4Range::global();
    assert_eq!(all.client_addr_for(ip(8, 8, 8, 8)), Some(ip(8, 8, 8, 8)));
    assert_eq!(all.client_addr_for(ip(10, 0, 0, 8)), None);
}

#[test]
fn random_client_addr_lies_in_range() {
    let r = Ipv4Range::new(ip(10, 20, 0, 0), 16);
    let mut seen = 0;
    for _ in 0..1000 {
        if let Some(a) = r.random_client_addr() {
            seen += 1;
            assert!(r.contains(a));
            assert_ne!(a, r.base_addr());
            assert_ne!(a, r.gateway_addr());
            assert_eq!(a.class(), Ipv4AddrClass::Private);
        }
    }
    assert!(seen > 0);
}

fn parts(v: &[Ipv4Range]) -> Vec<(u32, u8)> {
    v.iter().map(|r| (r.base_addr(), r.netmask_prefix_length())).collect()
}

#[test]
fn split_fans_out_by_most_significant_bit() {
    let r = Ipv4Range::new(ip(10, 0, 0, 0), 8);
    assert_eq!(
        parts(&r.split(4)),
        vec![(0x0a00_0000, 10), (0x0a80_0000, 10), (0x0a40_0000, 10), (0x0ac0_0000, 10)]
    );
    let s = Ipv4Range::new(ip(192, 168, 0, 0), 24);
    assert_eq!(
        parts(&s.split(3)),
        vec![(0xc0a8_0000, 26), (0xc0a8_0080, 26), (0xc0a8_0040, 26)]
    );
}

#[test]
fn split_passes_over_other_classes() {
    let all = Ipv4Range::global();
    assert_eq!(parts(&all.split(2)), vec![(0x8000_0000, 2), (0x4000_0000, 2)]);
    assert_eq!(
        parts(&all.split(5)),
        vec![
            (0x8000_0000, 3),
            (0x4000_0000, 3),
            (0x2000_0000, 3),
            (0xa000_0000, 3),
            (0x6000_0000, 3)
        ]
    );
    let g = Ipv4Range::new(ip(126, 0, 0, 0), 7);
    assert_eq!(parts(&g.split(2)), vec![(0x7e00_0000, 9), (0x7e80_0000, 9)]);
}

#[test]
fn split_parts_are_disjoint_and_inside() {
    let r = Ipv4Range::new(ip(172, 16, 0, 0), 12);
    let v = r.split(7);
    assert_eq!(v.len(), 7);
    for (i, a) in v.iter().enumerate() {
        assert!(r.contains(a.base_addr()));
        assert!(a.netmask_prefix_length() >= 12);
        assert_eq!(a.base_addr().class(), Ipv4AddrClass::Private);
        for (j, b) in v.iter().enumerate() {
            if i != j {
                assert!(!a.contains(b.base_addr()));
            }
        }
    }
}

#[test]
fn checked_split_refuses_what_does_not_fit() {
    let r = Ipv4Range::new(ip(192, 168, 1, 0), 24);
    assert!(r.checked_split(0).is_none());
    assert_eq!(r.checked_split(256).map(|v| v.len()), Some(256));
    assert!(r.checked_split(257).is_none());
    let one = Ipv4Range::from_addr(ip(1, 2, 3, 4));
    assert!(one.checked_split(1).is_none());
    let whole = r.checked_split(1).unwrap();
    assert_eq!(parts(&whole), vec![(0xc0a8_0100, 24)]);
}

#[test]
fn range_text_is_cut_at_its_delimiter() {
    assert_eq!(find_delimiter("1.2.3.0/24"), Ok(7));
    assert_eq!(find_delimiter("1.2.3.0"), Err(IpRangeParseError::MissingDelimiter));
    assert_eq!(find_delimiter(""), Err(IpRangeParseError::MissingDelimiter));
    assert_eq!(find_delimiter("1.2.3.0/24/1"), Err(IpRangeParseError::ExtraDelimiter));
    assert_eq!(find_delimiter("/"), Ok(0));
}

#[test]
fn range_from_parts() {
    let r = from_parts(ip(1, 2, 3, 9), 24).unwrap();
    assert_eq!((r.base_addr(), r.netmask_prefix_length()), (ip(1, 2, 3, 0), 24));
    assert_eq!(
        from_parts(ip(1, 2, 3, 9), 33).err(),
        Some(IpRangeParseError::ParseNetmaskPrefixLength)
    );
}
