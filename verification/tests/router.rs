use netsim_embed::range::Ipv4Range;
use netsim_embed::route::Ipv4Route;
use netsim_embed::router::Ipv4Router;

fn ip(a: u8, b: u8, c: u8, d: u8) -> u32 {
    u32::from_be_bytes([a, b, c, d])
}

fn packet_to(dest: u32) -> Vec<u8> {
    let mut v = vec![0x45, 0, 0, 20, 0, 0, 0, 0, 64, 17, 0, 0, 10, 0, 0, 9];
    v.extend_from_slice(&dest.to_be_bytes());
    v
}

fn router() -> Ipv4Router<&'static str> {
    let mut r = Ipv4Router::new(ip(10, 0, 0, 1));
    r.add_connection(0, "a", vec![Ipv4Route::from_addr(ip(10, 0, 0, 2))]);
    r.add_connection(1, "b", vec![Ipv4Route::from_addr(ip(10, 0, 0, 3))]);
    r.add_connection(
        65536,
        "net",
        vec![Ipv4Route::from_range(Ipv4Range::new(ip(192, 168, 0, 0), 16))],
    );
    r
}

fn counters<P>(r: &Ipv4Router<P>) -> (usize, usize, usize, usize) {
    (r.forwarded(), r.invalid(), r.disabled(), r.unroutable())
}

#[test]
fn packets_follow_their_route() {
    let mut r = router();
    assert_eq!(r.addr(), ip(10, 0, 0, 1));
    assert_eq!(r.connections(), 3);
    assert_eq!(r.forward_packet(&packet_to(ip(10, 0, 0, 3)), true), vec![1]);
    assert_eq!(r.forward_packet(&packet_to(ip(192, 168, 7, 7)), true), vec![2]);
    assert_eq!(r.forward_packet(&packet_to(ip(10, 0, 0, 2)), true), vec![0]);
    assert_eq!(*r.plug(2), "net");
    assert_eq!(counters(&r), (3, 0, 0, 0));
}

#[test]
fn invalid_own_and_unroutable_packets() {
    let mut r = router();
    assert_eq!(r.forward_packet(&[0x45, 0, 0], true), Vec::<usize>::new());
    assert_eq!(counters(&r), (0, 1, 0, 0));
    // a packet for the router itself is dropped and not counted
    assert_eq!(r.forward_packet(&packet_to(ip(10, 0, 0, 1)), true), Vec::<usize>::new());
    assert_eq!(counters(&r), (0, 1, 0, 0));
    assert_eq!(r.forward_packet(&packet_to(ip(8, 8, 8, 8)), true), Vec::<usize>::new());
    assert_eq!(counters(&r), (0, 1, 0, 1));
}

#[test]
fn filtered_packets_are_not_counted() {
    let mut r = router();
    assert_eq!(r.forward_packet(&packet_to(ip(10, 0, 0, 3)), false), vec![1]);
    assert_eq!(r.forward_packet(&[1], false), Vec::<usize>::new());
    assert_eq!(r.forward_packet(&packet_to(ip(8, 8, 8, 8)), false), Vec::<usize>::new());
    assert_eq!(counters(&r), (0, 0, 0, 0));
}

#[test]
fn disabled_route_holds_packets_back() {
    let mut r = router();
    r.disable_route(65536);
    assert!(!r.is_enabled(2));
    assert!(r.is_enabled(0));
    assert_eq!(r.forward_packet(&packet_to(ip(192, 168, 7, 7)), true), Vec::<usize>::new());
    // held back by the disabled connection, and sent nowhere
    assert_eq!(counters(&r), (0, 0, 1, 1));
    r.enable_route(65536);
    assert_eq!(r.forward_packet(&packet_to(ip(192, 168, 7, 7)), true), vec![2]);
    assert_eq!(counters(&r), (1, 0, 1, 1));
    // an unknown id changes nothing
    r.disable_route(77);
    assert!(r.is_enabled(0) && r.is_enabled(1) && r.is_enabled(2));
}

#[test]
fn broadcast_and_multicast_go_everywhere() {
    let mut r = router();
    r.disable_route(1);
    assert_eq!(r.forward_packet(&packet_to(0xffff_ffff), true), vec![0, 2]);
    assert_eq!(counters(&r), (2, 0, 1, 0));
    assert_eq!(r.forward_packet(&packet_to(ip(224, 0, 0, 251)), true), vec![0, 2]);
    assert_eq!(counters(&r), (4, 0, 2, 0));
}

#[test]
fn a_packet_is_sent_once_per_connection() {
    let mut r: Ipv4Router<u8> = Ipv4Router::new(ip(10, 0, 0, 1));
    r.add_connection(
        5,
        0,
        vec![
            Ipv4Route::from_range(Ipv4Range::new(ip(10, 0, 0, 0), 8)),
            Ipv4Route::from_addr(ip(10, 0, 0, 7)),
            Ipv4Route::from_addr(ip(10, 0, 0, 8)),
        ],
    );
    // two routes carry the packet, and it is sent once
    assert_eq!(r.forward_packet(&packet_to(ip(10, 0, 0, 7)), true), vec![0]);
    assert_eq!(r.forwarded(), 1);
    // a disabled connection holds it back once
    r.disable_route(5);
    assert_eq!(r.forward_packet(&packet_to(ip(10, 0, 0, 7)), true), Vec::<usize>::new());
    assert_eq!(counters(&r), (1, 0, 1, 1));
}

#[test]
fn a_connection_without_routes_carries_nothing() {
    let mut r: Ipv4Router<u8> = Ipv4Router::new(ip(10, 0, 0, 1));
    r.add_connection(1, 0, vec![]);
    r.add_connection(2, 0, vec![Ipv4Route::from_addr(ip(10, 0, 0, 7))]);
    assert_eq!(r.forward_packet(&packet_to(0xffff_ffff), true), vec![1]);
    assert_eq!(counters(&r), (1, 0, 0, 0));
}

#[test]
fn removed_connection_gives_its_endpoint_back() {
    let mut r = router();
    assert_eq!(r.find(1), Some(1));
    assert_eq!(r.find(9), None);
    assert_eq!(r.remove_connection(9), None);
    assert_eq!(r.connections(), 3);
    assert_eq!(r.remove_connection(0), Some("a"));
    // the last connection took the place of the removed one
    assert_eq!(r.connections(), 2);
    assert_eq!(r.id_at(0), 65536);
    assert_eq!(r.id_at(1), 1);
    assert_eq!(r.forward_packet(&packet_to(ip(10, 0, 0, 2)), true), Vec::<usize>::new());
    assert_eq!(r.forward_packet(&packet_to(ip(192, 168, 0, 2)), true), vec![0]);
    assert_eq!(r.remove_at(1), "b");
    assert_eq!(r.connections(), 1);
}

#[test]
fn endpoints_can_be_used_in_place() {
    let mut r: Ipv4Router<Vec<u8>> = Ipv4Router::new(1);
    r.add_connection(3, vec![], vec![]);
    r.plug_mut(0).push(7);
    assert_eq!(r.plug(0), &vec![7]);
    assert_eq!(r.remove_connection(3), Some(vec![7]));
}

#[test]
fn first_connection_with_an_id_is_meant() {
    let mut r: Ipv4Router<u8> = Ipv4Router::new(1);
    r.add_connection(3, 10, vec![]);
    r.add_connection(3, 11, vec![]);
    r.disable_route(3);
    assert!(!r.is_enabled(0));
    assert!(r.is_enabled(1));
    assert_eq!(r.remove_connection(3), Some(10));
    assert_eq!(r.remove_connection(3), Some(11));
}

#[test]
fn enabled_connections_take_turns() {
    let mut r: Ipv4Router<u8> = Ipv4Router::new(1);
    assert_eq!(r.poll_order(0), Vec::<usize>::new());
    for id in 0..5 {
        r.add_connection(id, 0, vec![]);
    }
    r.disable_route(1);
    r.disable_route(4);
    assert_eq!(r.poll_order(0), vec![0, 2, 3]);
    assert_eq!(r.poll_order(1), vec![2, 3, 0]);
    assert_eq!(r.poll_order(3), vec![3, 0, 2]);
    assert_eq!(r.poll_order(4), vec![0, 2, 3]);
    // a counter past the last connection starts over
    assert_eq!(r.poll_order(5), vec![0, 2, 3]);
    assert_eq!(r.poll_order(77), vec![0, 2, 3]);
    r.enable_route(4);
    assert_eq!(r.poll_order(4), vec![4, 0, 2, 3]);
}
