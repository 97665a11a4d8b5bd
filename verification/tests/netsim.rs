use netsim_embed::machine::MachineId;
use netsim_embed::netsim::{Netsim, Network, NetworkId, NETWORK_ID_OFFSET};
use netsim_embed::range::Ipv4Range;

fn ip(a: u8, b: u8, c: u8, d: u8) -> u32 {
    u32::from_be_bytes([a, b, c, d])
}

#[test]
fn network_ids_stay_clear_of_machine_numbers() {
    assert_eq!(NETWORK_ID_OFFSET, 65536);
    assert_eq!(NetworkId(0).id(), 65536);
    assert_eq!(NetworkId(3).id(), 65539);
}

#[test]
fn network_hands_out_successive_addresses() {
    let mut n = Network::new(NetworkId(2), Ipv4Range::new(ip(192, 168, 0, 0), 24));
    assert_eq!(n.id(), NetworkId(2));
    assert_eq!(n.range().base_addr(), ip(192, 168, 0, 0));
    assert_eq!(n.router_addr(), ip(192, 168, 0, 1));
    assert!(n.has_free_addr());
    assert_eq!(n.unique_addr(), ip(192, 168, 0, 2));
    assert_eq!(n.unique_addr(), ip(192, 168, 0, 3));
    assert_eq!(n.unique_addr(), ip(192, 168, 0, 4));
    let tiny = Network::new(NetworkId(0), Ipv4Range::new(ip(192, 168, 0, 0), 31));
    assert!(!tiny.has_free_addr());
}

#[test]
fn machines_and_networks_are_numbered() {
    let mut sim: Netsim<&str> = Netsim::new();
    assert_eq!(sim.spawn_machine("a"), MachineId(0));
    assert_eq!(sim.spawn_machine("b"), MachineId(1));
    assert_eq!(sim.machine_count(), 2);
    let lower = sim.spawn_network(Ipv4Range::global());
    let upper = sim.spawn_network(Ipv4Range::local_subnet_192(0));
    assert_eq!((lower, upper), (NetworkId(0), NetworkId(1)));
    assert_eq!(sim.network_count(), 2);
    assert_eq!(sim.network(upper).range().netmask_prefix_length(), 24);
    assert_eq!(sim.plugged_into(MachineId(0)), None);
}

#[test]
fn plug_attaches_with_a_host_route() {
    let mut sim: Netsim<&str> = Netsim::new();
    let a = sim.spawn_machine("a");
    let b = sim.spawn_machine("b");
    let net = sim.spawn_network(Ipv4Range::global());
    let at = sim.plug(a, net, Some(ip(1, 2, 3, 4))).unwrap();
    assert_eq!((at.id, at.plug, at.addr, at.mask), (0, "a", ip(1, 2, 3, 4), 0));
    assert_eq!(at.route.dest().base_addr(), ip(1, 2, 3, 4));
    assert_eq!(at.route.dest().netmask_prefix_length(), 32);
    assert_eq!(at.route.gateway(), None);
    assert_eq!(sim.plugged_into(a), Some(net));
    // without an address the network gives out its next one
    let at = sim.plug(b, net, None).unwrap();
    assert_eq!((at.id, at.plug, at.addr, at.mask), (1, "b", 2, 0));
    assert_eq!(sim.unique_addr(net), 3);
}

#[test]
fn unplug_keeps_what_the_router_gave_back() {
    let mut sim: Netsim<&str> = Netsim::new();
    let a = sim.spawn_machine("a");
    let lower = sim.spawn_network(Ipv4Range::local_subnet_192(0));
    let upper = sim.spawn_network(Ipv4Range::local_subnet_192(1));
    // unplugging a machine that is not plugged in changes nothing
    sim.unplug(a, None);
    assert!(sim.plug(a, lower, None).is_some());
    assert_eq!(sim.plugged_into(a), Some(lower));
    sim.unplug(a, Some("a"));
    assert_eq!(sim.plugged_into(a), None);
    let at = sim.plug(a, upper, None).unwrap();
    assert_eq!((at.plug, at.addr, at.mask), ("a", ip(192, 168, 1, 2), 24));
    // the router lost the endpoint: the machine is shut down
    assert!(!sim.holds_plug(a));
    sim.unplug(a, None);
    assert_eq!(sim.plugged_into(a), None);
    assert!(!sim.holds_plug(a));
    assert!(sim.plug(a, lower, None).is_none());
    assert_eq!(sim.plugged_into(a), Some(lower));
    // nothing was given out for it
    assert_eq!(sim.unique_addr(lower), ip(192, 168, 0, 3));
}

#[test]
fn plugging_a_plugged_machine_attaches_nothing() {
    let mut sim: Netsim<&str> = Netsim::new();
    let a = sim.spawn_machine("a");
    let lower = sim.spawn_network(Ipv4Range::local_subnet_192(0));
    let upper = sim.spawn_network(Ipv4Range::local_subnet_192(1));
    assert!(sim.plug(a, lower, None).is_some());
    assert!(sim.plug(a, upper, None).is_none());
    assert_eq!(sim.plugged_into(a), Some(upper));
}

#[test]
fn routes_between_networks() {
    let mut sim: Netsim<()> = Netsim::new();
    let a = sim.spawn_network(Ipv4Range::local_subnet_192(0));
    let b = sim.spawn_network(Ipv4Range::local_subnet_10());
    let plan = sim.add_route(a, b);
    assert_eq!(plan.id_at_a, 65537);
    assert_eq!(plan.route_at_a.dest().base_addr(), ip(10, 0, 0, 0));
    assert_eq!(plan.route_at_a.dest().netmask_prefix_length(), 8);
    assert_eq!(plan.id_at_b, 65536);
    assert_eq!(plan.route_at_b.dest().base_addr(), ip(192, 168, 0, 0));
    assert_eq!(plan.route_at_b.dest().netmask_prefix_length(), 24);
    assert_eq!(sim.route_ids(a, b), (65537, 65536));
    assert_eq!(sim.route_ids(b, a), (65536, 65537));
}

#[test]
fn nat_between_networks() {
    let mut sim: Netsim<()> = Netsim::new();
    let public = sim.spawn_network(Ipv4Range::global());
    let private = sim.spawn_network(Ipv4Range::new(ip(192, 168, 0, 0), 24));
    let plan = sim.add_nat_route(public, private);
    assert_eq!(plan.nat_addr, 2);
    assert_eq!(plan.nat_range.base_addr(), ip(192, 168, 0, 0));
    assert_eq!(plan.id_at_public, 65537);
    assert_eq!(plan.route_at_public.dest().base_addr(), 2);
    assert_eq!(plan.route_at_public.dest().netmask_prefix_length(), 32);
    assert_eq!(plan.id_at_private, 65536);
    assert_eq!(plan.route_at_private.dest().base_addr(), 0);
    assert_eq!(plan.route_at_private.dest().netmask_prefix_length(), 0);
    // the address of the NAT is given out
    assert_eq!(sim.unique_addr(public), 3);
}
