use netsim_embed::addr::SocketAddrV4;
use netsim_embed::port_allocator::{PortAllocator, RandomPortAllocator, SequentialPortAllocator};
use netsim_embed::port_map::{pair_key, PortMap};

fn sock(d: u8, port: u16) -> SocketAddrV4 {
    SocketAddrV4::new(u32::from_be_bytes([192, 168, 0, d]), port)
}

fn remote(d: u8, port: u16) -> SocketAddrV4 {
    SocketAddrV4::new(u32::from_be_bytes([8, 8, 8, d]), port)
}

#[test]
fn sequential_allocator_counts_up_per_endpoint() {
    let mut a = SequentialPortAllocator::new();
    let one = sock(1, 1000);
    let two = sock(2, 1000);
    assert_eq!(a.next_port(one), 49152);
    assert_eq!(a.next_port(one), 49152);
    assert_eq!(a.next_port(one), 49153);
    assert_eq!(a.next_port(two), 49168);
    assert_eq!(a.next_port(two), 49168);
    assert_eq!(a.next_port(two), 49169);
    assert_eq!(a.next_port(one), 49154);
    assert_eq!(a.next_port(sock(3, 1)), 49184);
}

#[test]
fn sequential_allocator_wraps_new_endpoints() {
    let mut a = SequentialPortAllocator::new();
    // 1024 endpoints use up 49152, 49168, ..., 65520.
    for i in 0..1024u32 {
        let e = SocketAddrV4::new(i, 1);
        assert_eq!(a.next_port(e), (49152 + 16 * i) as u16);
    }
    assert_eq!(a.next_port(SocketAddrV4::new(5000, 1)), 49153);
    assert_eq!(a.next_port(SocketAddrV4::new(5001, 1)), 49169);
}

#[test]
fn sequential_allocator_wraps_known_endpoints() {
    let mut a = SequentialPortAllocator::new();
    let e = sock(1, 1);
    assert_eq!(a.next_port(e), 49152);
    let mut last = 0;
    for _ in 0..(65535 - 49152 + 1) {
        last = a.next_port(e);
    }
    assert_eq!(last, 65535);
    assert_eq!(a.next_port(e), 49152);
    assert_eq!(a.next_port(e), 49153);
}

#[test]
fn duplicate_allocator_goes_its_own_way() {
    let mut a = SequentialPortAllocator::new();
    let e = sock(1, 1);
    a.next_port(e);
    a.next_port(e);
    let mut b = a.duplicate();
    assert_eq!(a.next_port(e), 49153);
    assert_eq!(b.next_port(e), 49153);
    assert_eq!(b.next_port(e), 49154);
}

#[test]
fn random_allocator_rejects_low_ports() {
    assert_eq!(RandomPortAllocator::accept(999), None);
    assert_eq!(RandomPortAllocator::accept(1000), Some(1000));
    assert_eq!(RandomPortAllocator::accept(65535), Some(65535));
    let mut r = RandomPortAllocator;
    let mut seen = 0;
    for _ in 0..500 {
        if let Some(p) = r.next_port(sock(1, 1)) {
            seen += 1;
            assert!(p >= 1000);
        }
    }
    assert!(seen > 0);
}

#[test]
fn allocator_strategies() {
    let mut s = PortAllocator::sequential();
    assert_eq!(s.next_port(sock(1, 1)), Some(49152));
    let mut r = PortAllocator::random();
    for _ in 0..100 {
        if let Some(p) = r.next_port(sock(1, 1)) {
            assert!(p >= 1000);
        }
    }
}

#[test]
fn pair_keys_differ() {
    assert_ne!(pair_key(sock(1, 2), remote(3, 4)), pair_key(sock(1, 2), remote(3, 5)));
    assert_ne!(pair_key(sock(1, 2), remote(3, 4)), pair_key(remote(3, 4), sock(1, 2)));
    assert_eq!(
        pair_key(SocketAddrV4::new(1, 2), SocketAddrV4::new(3, 4)),
        (0x1_0002u128 << 48) + 0x3_0004
    );
}

#[test]
fn cone_map_keeps_one_port_per_source() {
    let mut m = PortMap::new();
    let s = sock(5, 4000);
    let first = m.map_port(remote(1, 80), s).unwrap();
    let second = m.map_port(remote(2, 443), s).unwrap();
    assert_eq!(first, 49152);
    assert_eq!(first, second);
    assert_eq!(m.lookup_port(remote(9, 9), s), Some(49152));
    // Anyone may answer on that port.
    assert_eq!(m.get_inbound_addr(remote(7, 7), first), Some(s));
    assert_eq!(m.get_inbound_addr(remote(7, 7), 49153), None);
    // The first proposal for a second source is 49168.
    assert_eq!(m.map_port(remote(1, 80), sock(6, 4000)), Some(49168));
}

#[test]
fn symmetric_map_gives_one_port_per_pair() {
    let mut m = PortMap::new();
    m.set_symmetric(true);
    let s = sock(5, 4000);
    let first = m.map_port(remote(1, 80), s).unwrap();
    let second = m.map_port(remote(2, 80), s).unwrap();
    let first_again = m.map_port(remote(1, 80), s).unwrap();
    assert_ne!(first, second);
    assert_eq!(first, first_again);
    // 49152 is proposed twice to a new endpoint, so the second pair gets 49153.
    assert_eq!((first, second), (49152, 49153));
    assert_eq!(m.get_inbound_addr(remote(1, 80), first), Some(s));
    assert_eq!(m.get_inbound_addr(remote(2, 80), first), None);
    assert_eq!(m.get_inbound_addr(remote(2, 80), second), Some(s));
}

#[test]
fn symmetric_mode_ignores_older_bindings_of_the_source() {
    let mut m = PortMap::new();
    let s = sock(5, 4000);
    assert_eq!(m.map_port(remote(1, 80), s), Some(49152));
    m.set_symmetric(true);
    // The port of the older binding is taken, so the pair gets the next one.
    assert_eq!(m.map_port(remote(1, 80), s), Some(49153));
    // The older binding still takes packets from anyone.
    assert_eq!(m.get_inbound_addr(remote(3, 3), 49152), Some(s));
}

#[test]
fn port_restricted_map_admits_only_the_contacted_remote() {
    let mut m = PortMap::new();
    m.set_restrict_endpoints(true);
    let s = sock(5, 4000);
    let p = m.map_port(remote(1, 80), s).unwrap();
    assert_eq!(m.get_inbound_addr(remote(1, 80), p), Some(s));
    assert_eq!(m.get_inbound_addr(remote(2, 80), p), None);
    assert_eq!(m.get_inbound_addr(remote(1, 81), p), None);
    // Sending elsewhere from the same port moves the permission.
    assert_eq!(m.map_port(remote(2, 80), s), Some(p));
    assert_eq!(m.get_inbound_addr(remote(2, 80), p), Some(s));
    assert_eq!(m.get_inbound_addr(remote(1, 80), p), None);
    m.set_restrict_endpoints(false);
    assert_eq!(m.get_inbound_addr(remote(1, 80), p), Some(s));
}

#[test]
fn forwarded_ports_are_reserved_and_consulted_first() {
    let mut m = PortMap::new();
    let local = sock(9, 3000);
    m.forward_port(49152, local);
    assert!(!m.port_is_free(49152));
    assert!(m.port_is_free(49153));
    assert_eq!(m.get_inbound_addr(remote(1, 1), 49152), Some(local));
    // 49152 is proposed twice and refused twice; the third proposal is 49153.
    let s = sock(5, 4000);
    assert_eq!(m.map_port(remote(1, 80), s), Some(49153));
    assert_eq!(m.get_inbound_addr(remote(1, 1), 49153), Some(s));
    // A forward on a port that is mapped wins.
    m.forward_port(49153, local);
    assert_eq!(m.get_inbound_addr(remote(1, 1), 49153), Some(local));
}

#[test]
fn try_bind_takes_free_candidates_only() {
    let mut m = PortMap::new();
    m.forward_port(5000, sock(9, 3000));
    let s = sock(5, 4000);
    assert!(!m.try_bind(remote(1, 80), s, 5000));
    assert_eq!(m.lookup_port(remote(1, 80), s), None);
    assert!(m.try_bind(remote(1, 80), s, 5001));
    assert_eq!(m.lookup_port(remote(1, 80), s), Some(5001));
    assert!(!m.port_is_free(5001));
}

#[test]
fn random_ports_are_free_and_high() {
    let mut m = PortMap::new();
    m.set_port_allocator(PortAllocator::random());
    for i in 0..50u16 {
        let s = sock(5, 4000 + i);
        let p = m.map_port(remote(1, 80), s).unwrap();
        assert!(p >= 1000);
        assert_eq!(m.get_inbound_addr(remote(1, 80), p), Some(s));
        assert_eq!(m.map_port(remote(2, 80), s), Some(p));
    }
}

#[test]
fn exhausted_ports_yield_nothing() {
    let mut m = PortMap::new();
    for port in 49152..=65535u16 {
        m.forward_port(port, sock(9, 1));
    }
    assert_eq!(m.map_port(remote(1, 80), sock(5, 4000)), None);
    assert_eq!(m.lookup_port(remote(1, 80), sock(5, 4000)), None);
}
