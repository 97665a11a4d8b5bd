//! The book-keeping of a simulated topology: which machine is plugged into
//! which network, which addresses a network has given out, and what has to
//! be connected to what when machines, routes and NATs are added.
//!
//! The links and the routers run elsewhere. This module decides; its
//! answers say which endpoint goes to which router, under which id and with
//! which routes.

use crate::addr::SocketAddrV4;
use crate::ipv4_nat::{Ipv4Nat, NatState};
use crate::machine::MachineId;
use crate::packet::Protocol;
use crate::port_map::PortMapState;
use crate::range::Ipv4Range;
use crate::route::Ipv4Route;
use vstd::prelude::*;

verus! {

/// What is added to the number of a network to get the id of its
/// connections on the routers of other networks, so that these ids differ
/// from the numbers of machines.
pub const NETWORK_ID_OFFSET: usize = 65536;

/// The number of a network.
#[derive(PartialEq, Eq, Structural, Clone, Copy, PartialOrd, Ord, Debug, Hash)]
pub struct NetworkId(pub usize);

impl NetworkId {
    /// The id of the connections that lead to this network.
    pub open spec fn spec_id(&self) -> int {
        self.0 + NETWORK_ID_OFFSET
    }

    /// The id of the connections that lead to this network.
    pub fn id(&self) -> (r: usize)
        requires
            self.spec_id() <= usize::MAX,
        ensures
            r == self.spec_id(),
    {
        self.0 + NETWORK_ID_OFFSET
    }
}

/// A network: a range of addresses, and the count of the addresses given
/// out.
#[derive(Clone, Copy, Debug)]
pub struct Network {
    id: NetworkId,
    range: Ipv4Range,
    device: u32,
}

impl Network {
    /// The number of the network.
    pub closed spec fn spec_id(&self) -> NetworkId {
        self.id
    }

    /// The range of the network.
    pub closed spec fn spec_range(&self) -> Ipv4Range {
        self.range
    }

    /// How many addresses the network has given out.
    pub closed spec fn spec_device(&self) -> u32 {
        self.device
    }

    /// The range is well-formed.
    pub open spec fn wf(&self) -> bool {
        self.spec_range().wf()
    }

    /// Whether the network can give out another address.
    pub open spec fn can_assign(&self) -> bool {
        self.spec_range().can_number(self.spec_device()) && self.spec_device() < u32::MAX
    }

    /// A network that has given out no address.
    pub fn new(id: NetworkId, range: Ipv4Range) -> (r: Self)
        requires
            range.wf(),
        ensures
            r.wf(),
            r.spec_id() == id,
            r.spec_range() == range,
            r.spec_device() == 0,
    {
        Network { id, range, device: 0 }
    }

    /// The number of the network.
    pub fn id(&self) -> (r: NetworkId)
        ensures
            r == self.spec_id(),
    {
        self.id
    }

    /// The range of the network.
    pub fn range(&self) -> (r: Ipv4Range)
        ensures
            r == self.spec_range(),
    {
        self.range
    }

    /// The address of the router of the network: the gateway address of its
    /// range.
    pub fn router_addr(&self) -> (r: u32)
        ensures
            r == self.spec_range().base() | 1,
    {
        self.range.gateway_addr()
    }

    /// Whether the network can give out another address.
    pub fn has_free_addr(&self) -> (r: bool)
        requires
            self.wf(),
        ensures
            r == self.can_assign(),
    {
        self.range.can_address(self.device) && self.device < u32::MAX
    }

    /// Gives out the next address: that of the device numbered by the count
    /// of addresses given out so far.
    pub fn unique_addr(&mut self) -> (r: u32)
        requires
            old(self).wf(),
            old(self).can_assign(),
        ensures
            final(self).wf(),
            r == old(self).spec_range().base() | (old(self).spec_range().device_addr(
                old(self).spec_device(),
            ) as u32),
            final(self).spec_id() == old(self).spec_id(),
            final(self).spec_range() == old(self).spec_range(),
            final(self).spec_device() == old(self).spec_device() + 1,
    {
        let addr: u32 = self.range.address_for(self.device);
        self.device += 1;
        addr
    }
}

/// Where the free end of the link of a machine is.
pub enum Connector<P> {
    /// Nowhere: the endpoint is kept here.
    Unplugged(P),
    /// At the router of a network.
    Plugged(NetworkId),
    /// Lost: the router that had it gave nothing back.
    Shutdown,
}

/// What to do to attach a machine to a network: add the endpoint to the
/// router of the network as connection `id`, with a route to `addr` alone,
/// and give the machine the address `addr` with the prefix length `mask`.
pub struct Attachment<P> {
    pub id: usize,
    pub plug: P,
    pub addr: u32,
    pub mask: u8,
    pub route: Ipv4Route,
}

/// The two connections of a link between the routers of two networks: the
/// id and the route of the connection at the first router, and those of the
/// connection at the second.
pub struct RoutePlan {
    pub id_at_a: usize,
    pub route_at_a: Ipv4Route,
    pub id_at_b: usize,
    pub route_at_b: Ipv4Route,
}

/// What to do to put a NAT between a public and a private network: the
/// public address and the private range of the NAT, and the id and the
/// route of its connection at each of the two routers.
pub struct NatPlan {
    pub nat_addr: u32,
    pub nat_range: Ipv4Range,
    pub id_at_public: usize,
    pub route_at_public: Ipv4Route,
    pub id_at_private: usize,
    pub route_at_private: Ipv4Route,
}

/// The machines and networks of a simulation.
pub struct Netsim<P> {
    plugs: Vec<Connector<P>>,
    networks: Vec<Network>,
}

impl<P> Netsim<P> {
    /// The connector of each machine.
    pub closed spec fn plugs(&self) -> Seq<Connector<P>> {
        self.plugs@
    }

    /// The networks.
    pub closed spec fn networks(&self) -> Seq<Network> {
        self.networks@
    }

    /// Every network has its position as its number and a well-formed
    /// range, and the ids of the connections to the networks fit.
    pub open spec fn wf(&self) -> bool {
        &&& self.networks().len() + NETWORK_ID_OFFSET <= usize::MAX
        &&& forall|i: int|
            0 <= i < self.networks().len() ==> (#[trigger] self.networks()[i]).wf()
                && self.networks()[i].spec_id() == NetworkId(i as usize)
    }

    /// Whether `machine` is a machine of this simulation.
    pub open spec fn has_machine(&self, machine: MachineId) -> bool {
        machine.0 < self.plugs().len()
    }

    /// Whether `net` is a network of this simulation.
    pub open spec fn has_network(&self, net: NetworkId) -> bool {
        net.0 < self.networks().len()
    }

    /// A simulation without machines and networks.
    pub fn new() -> (r: Self)
        ensures
            r.wf(),
            r.plugs() == Seq::<Connector<P>>::empty(),
            r.networks() == Seq::<Network>::empty(),
    {
        Netsim { plugs: Vec::new(), networks: Vec::new() }
    }

    /// The number of machines.
    pub fn machine_count(&self) -> (r: usize)
        ensures
            r == self.plugs().len(),
    {
        self.plugs.len()
    }

    /// The number of networks.
    pub fn network_count(&self) -> (r: usize)
        ensures
            r == self.networks().len(),
    {
        self.networks.len()
    }

    /// Registers a new machine, whose link has `plug` as its free end. The
    /// machine gets the next number and is not plugged in.
    pub fn spawn_machine(&mut self, plug: P) -> (id: MachineId)
        requires
            old(self).wf(),
        ensures
            final(self).wf(),
            id == MachineId(old(self).plugs().len() as usize),
            final(self).plugs() == old(self).plugs().push(Connector::Unplugged(plug)),
            final(self).networks() == old(self).networks(),
    {
        let id = MachineId(self.plugs.len());
        self.plugs.push(Connector::Unplugged(plug));
        id
    }

    /// The network with the given number.
    pub fn network(&self, id: NetworkId) -> (r: &Network)
        requires
            self.has_network(id),
        ensures
            *r == self.networks()[id.0 as int],
    {
        &self.networks[id.0]
    }

    /// Adds a network with the given range. It gets the next number.
    pub fn spawn_network(&mut self, range: Ipv4Range) -> (id: NetworkId)
        requires
            old(self).wf(),
            range.wf(),
            old(self).networks().len() + NETWORK_ID_OFFSET < usize::MAX,
        ensures
            final(self).wf(),
            id == NetworkId(old(self).networks().len() as usize),
            final(self).has_network(id),
            final(self).networks().len() == old(self).networks().len() + 1,
            final(self).networks()[id.0 as int].spec_range() == range,
            final(self).networks()[id.0 as int].spec_device() == 0,
            forall|i: int|
                0 <= i < old(self).networks().len() ==> final(self).networks()[i] == old(self).networks()[i],
            final(self).plugs() == old(self).plugs(),
    {
        let id = NetworkId(self.networks.len());
        self.networks.push(Network::new(id, range));
        id
    }

    /// Gives out the next address of a network.
    pub fn unique_addr(&mut self, net: NetworkId) -> (r: u32)
        requires
            old(self).wf(),
            old(self).has_network(net),
            old(self).networks()[net.0 as int].can_assign(),
        ensures
            final(self).wf(),
            final(self).plugs() == old(self).plugs(),
            final(self).networks().len() == old(self).networks().len(),
            forall|i: int|
                0 <= i < old(self).networks().len() && i != net.0 ==> final(self).networks()[i]
                    == old(self).networks()[i],
            ({
                let before = old(self).networks()[net.0 as int];
                let after = final(self).networks()[net.0 as int];
                &&& r == before.spec_range().base() | (before.spec_range().device_addr(
                    before.spec_device(),
                ) as u32)
                &&& after.spec_range() == before.spec_range()
                &&& after.spec_device() == before.spec_device() + 1
            }),
    {
        let mut network: Network = self.networks[net.0];
        let addr: u32 = network.unique_addr();
        self.networks.set(net.0, network);
        addr
    }

    /// The network that a machine is plugged into, from whose router its
    /// endpoint has to be taken to unplug it.
    pub fn plugged_into(&self, machine: MachineId) -> (r: Option<NetworkId>)
        requires
            self.has_machine(machine),
        ensures
            r == (match self.plugs()[machine.0 as int] {
                Connector::Plugged(net) => Some(net),
                _ => None,
            }),
    {
        match &self.plugs[machine.0] {
            Connector::Plugged(net) => Some(*net),
            _ => None,
        }
    }

    /// Whether the connector of a machine holds the endpoint, so that the
    /// machine can be attached.
    pub fn holds_plug(&self, machine: MachineId) -> (r: bool)
        requires
            self.has_machine(machine),
        ensures
            r == self.plugs()[machine.0 as int] is Unplugged,
    {
        match &self.plugs[machine.0] {
            Connector::Unplugged(_) => true,
            _ => false,
        }
    }

    /// Records that a machine that was plugged in is unplugged: its
    /// connector holds the endpoint that the router gave back, and is shut
    /// down if the router gave none back. The connector of a machine that
    /// was not plugged in stays as it is.
    pub fn unplug(&mut self, machine: MachineId, returned: Option<P>)
        requires
            old(self).wf(),
            old(self).has_machine(machine),
        ensures
            final(self).wf(),
            final(self).networks() == old(self).networks(),
            final(self).plugs() == (match old(self).plugs()[machine.0 as int] {
                Connector::Plugged(_) => old(self).plugs().update(
                    machine.0 as int,
                    match returned {
                        Some(plug) => Connector::Unplugged(plug),
                        None => Connector::Shutdown,
                    },
                ),
                _ => old(self).plugs(),
            }),
    {
        let plugged: bool = match &self.plugs[machine.0] {
            Connector::Plugged(_) => true,
            _ => false,
        };
        if plugged {
            let connector = match returned {
                Some(plug) => Connector::Unplugged(plug),
                None => Connector::Shutdown,
            };
            self.plugs.set(machine.0, connector);
        }
    }

    /// Plugs a machine into a network.
    ///
    /// The connector of the machine then names the network. If it held the
    /// endpoint, the machine is to be attached with the address `addr`, or
    /// the next address of the network if `addr` is `None`; the answer says
    /// how. A machine whose connector held no endpoint is not attached.
    pub fn plug(&mut self, machine: MachineId, net: NetworkId, addr: Option<u32>) -> (r: Option<
        Attachment<P>,
    >)
        requires
            old(self).wf(),
            old(self).has_machine(machine),
            old(self).has_network(net),
            addr is None && old(self).plugs()[machine.0 as int] is Unplugged ==> old(self).networks()[net.0 as int].can_assign(),
        ensures
            final(self).wf(),
            final(self).plugs() == old(self).plugs().update(
                machine.0 as int,
                Connector::Plugged(net),
            ),
            final(self).networks().len() == old(self).networks().len(),
            forall|i: int|
                0 <= i < old(self).networks().len() && i != net.0 ==> final(self).networks()[i]
                    == old(self).networks()[i],
            final(self).networks()[net.0 as int].spec_range() == old(self).networks()[net.0 as int].spec_range(),
            match old(self).plugs()[machine.0 as int] {
                Connector::Unplugged(plug) => {
                    let before = old(self).networks()[net.0 as int];
                    &&& r matches Some(a)
                    &&& a.id == machine.0
                    &&& a.plug == plug
                    &&& a.addr == (match addr {
                        Some(addr) => addr,
                        None => before.spec_range().base() | (before.spec_range().device_addr(
                            before.spec_device(),
                        ) as u32),
                    })
                    &&& a.mask == before.spec_range().prefix_len()
                    &&& a.route.wf()
                    &&& a.route.spec_dest().base() == a.addr
                    &&& a.route.spec_dest().prefix_len() == 32
                    &&& a.route.spec_gateway() is None
                    &&& final(self).networks()[net.0 as int].spec_device() == (if addr is None {
                        before.spec_device() + 1
                    } else {
                        before.spec_device() as int
                    })
                },
                _ => r is None && final(self).networks()[net.0 as int] == old(self).networks()[net.0 as int],
            },
    {
        let connector: Connector<P> = Connector::Plugged(net);
        let ghost before = self.plugs@;
        self.plugs.push(connector);
        let previous = self.plugs.swap_remove(machine.0);
        proof {
            assert(self.plugs@ =~= before.update(machine.0 as int, Connector::Plugged(net)));
        }
        match previous {
            Connector::Unplugged(plug) => {
                let addr: u32 = match addr {
                    Some(addr) => addr,
                    None => self.unique_addr(net),
                };
                let mask: u8 = self.networks[net.0].range().netmask_prefix_length();
                Some(Attachment { id: machine.0, plug, addr, mask, route: Ipv4Route::from_addr(addr) })
            },
            _ => None,
        }
    }

    /// The connections of a link between the routers of two networks: each
    /// router gets a connection whose id is that of the other network and
    /// whose route covers the range of the other network.
    pub fn add_route(&self, net_a: NetworkId, net_b: NetworkId) -> (r: RoutePlan)
        requires
            self.wf(),
            self.has_network(net_a),
            self.has_network(net_b),
        ensures
            r.id_at_a == net_b.spec_id(),
            r.route_at_a.wf(),
            r.route_at_a.spec_dest() == self.networks()[net_b.0 as int].spec_range(),
            r.route_at_a.spec_gateway() is None,
            r.id_at_b == net_a.spec_id(),
            r.route_at_b.wf(),
            r.route_at_b.spec_dest() == self.networks()[net_a.0 as int].spec_range(),
            r.route_at_b.spec_gateway() is None,
    {
        let range_a = self.networks[net_a.0].range();
        let range_b = self.networks[net_b.0].range();
        RoutePlan {
            id_at_a: net_b.id(),
            route_at_a: Ipv4Route::from_range(range_b),
            id_at_b: net_a.id(),
            route_at_b: Ipv4Route::from_range(range_a),
        }
    }

    /// The ids of the two connections of the link between two networks: that
    /// at the router of `net_a`, then that at the router of `net_b`. To
    /// enable or disable the link is to enable or disable both.
    pub fn route_ids(&self, net_a: NetworkId, net_b: NetworkId) -> (r: (usize, usize))
        requires
            self.wf(),
            self.has_network(net_a),
            self.has_network(net_b),
        ensures
            r.0 == net_b.spec_id(),
            r.1 == net_a.spec_id(),
    {
        (net_b.id(), net_a.id())
    }

    /// Plans a NAT between a public and a private network.
    ///
    /// The NAT gets the next address of the public network as its public
    /// address, and the range of the private network as its subnet. At the
    /// public router its connection has the id of the private network and a
    /// route to the public address alone; at the private router it has the
    /// id of the public network and a route to all addresses.
    pub fn add_nat_route(&mut self, public_net: NetworkId, private_net: NetworkId) -> (r: NatPlan)
        requires
            old(self).wf(),
            old(self).has_network(public_net),
            old(self).has_network(private_net),
            old(self).networks()[public_net.0 as int].can_assign(),
        ensures
            final(self).wf(),
            final(self).plugs() == old(self).plugs(),
            final(self).networks().len() == old(self).networks().len(),
            forall|i: int|
                0 <= i < old(self).networks().len() && i != public_net.0 ==> final(self).networks()[i] == old(self).networks()[i],
            ({
                let public = old(self).networks()[public_net.0 as int];
                let after = final(self).networks()[public_net.0 as int];
                &&& after.spec_range() == public.spec_range()
                &&& after.spec_device() == public.spec_device() + 1
                &&& r.nat_addr == public.spec_range().base() | (public.spec_range().device_addr(
                    public.spec_device(),
                ) as u32)
            }),
            r.nat_range == old(self).networks()[private_net.0 as int].spec_range(),
            r.id_at_public == private_net.spec_id(),
            r.route_at_public.wf(),
            r.route_at_public.spec_dest().base() == r.nat_addr,
            r.route_at_public.spec_dest().prefix_len() == 32,
            r.route_at_public.spec_gateway() is None,
            r.id_at_private == public_net.spec_id(),
            r.route_at_private.wf(),
            r.route_at_private.spec_dest().base() == 0,
            r.route_at_private.spec_dest().prefix_len() == 0,
            r.route_at_private.spec_gateway() is None,
    {
        let nat_range = self.networks[private_net.0].range();
        let nat_addr: u32 = self.unique_addr(public_net);
        NatPlan {
            nat_addr,
            nat_range,
            id_at_public: private_net.id(),
            route_at_public: Ipv4Route::from_addr(nat_addr),
            id_at_private: public_net.id(),
            route_at_private: Ipv4Route::from_range(Ipv4Range::global()),
        }
    }
}

/// The configuration of a NAT.
#[derive(Clone, Debug)]
pub struct NatConfig {
    pub hair_pinning: bool,
    pub symmetric: bool,
    pub blacklist_unrecognized_addrs: bool,
    pub restrict_endpoints: bool,
    /// The forwarded ports: protocol, external port, local socket.
    pub forward_ports: Vec<(Protocol, u16, SocketAddrV4)>,
}

/// A NAT after the first `n` of the given ports were forwarded.
pub open spec fn with_forwards(
    state: NatState,
    ports: Seq<(Protocol, u16, SocketAddrV4)>,
    n: nat,
) -> NatState
    decreases n,
{
    if n == 0 {
        state
    } else {
        let before = with_forwards(state, ports, (n - 1) as nat);
        let (protocol, port, local_addr) = ports[n - 1];
        before.with_map(
            protocol,
            PortMapState {
                forwards: before.map_for(protocol).forwards.insert(port, local_addr),
                ..before.map_for(protocol)
            },
        )
    }
}

/// Whether a port map has bound no port yet.
pub open spec fn nothing_bound(map: PortMapState) -> bool {
    &&& map.map_in == Map::<u16, SocketAddrV4>::empty()
    &&& map.symmetric_map matches Some(sym) ==> sym.map_in == Map::<
        u16,
        (SocketAddrV4, SocketAddrV4),
    >::empty()
}

impl Default for NatConfig {
    fn default() -> (r: Self)
        ensures
            !r.hair_pinning,
            !r.symmetric,
            !r.blacklist_unrecognized_addrs,
            !r.restrict_endpoints,
            r.forward_ports@ == Seq::<(Protocol, u16, SocketAddrV4)>::empty(),
    {
        NatConfig::new()
    }
}

impl NatConfig {
    /// Nothing turned on, nothing forwarded.
    pub fn new() -> (r: Self)
        ensures
            !r.hair_pinning,
            !r.symmetric,
            !r.blacklist_unrecognized_addrs,
            !r.restrict_endpoints,
            r.forward_ports@ == Seq::<(Protocol, u16, SocketAddrV4)>::empty(),
    {
        NatConfig {
            hair_pinning: false,
            symmetric: false,
            blacklist_unrecognized_addrs: false,
            restrict_endpoints: false,
            forward_ports: Vec::new(),
        }
    }

    /// The NAT before any port is forwarded.
    pub open spec fn base_state(&self, public_ip: u32, subnet: Ipv4Range) -> NatState {
        NatState {
            public_ip,
            subnet,
            hair_pinning: self.hair_pinning,
            udp_map: PortMapState {
                allowed_endpoints: PortMapState::restriction(self.restrict_endpoints),
                symmetric_map: PortMapState::symmetry(self.symmetric),
                ..PortMapState::initial()
            },
            tcp_map: PortMapState {
                allowed_endpoints: PortMapState::restriction(self.restrict_endpoints),
                symmetric_map: PortMapState::symmetry(self.symmetric),
                ..PortMapState::initial()
            },
            blacklist_unrecognized_addrs: self.blacklist_unrecognized_addrs,
            blacklisted_addrs: Set::<u64>::empty(),
        }
    }

    /// Builds the NAT that the configuration describes, between `subnet`
    /// and `public_ip`.
    pub fn build(&self, public_ip: u32, subnet: Ipv4Range) -> (r: Ipv4Nat)
        requires
            subnet.wf(),
        ensures
            r@.wf(),
            r@.forwards_reserved(),
            r@ == with_forwards(
                self.base_state(public_ip, subnet),
                self.forward_ports@,
                self.forward_ports@.len(),
            ),
    {
        let mut built = Ipv4Nat::new(public_ip, subnet);
        built.set_hair_pinning(self.hair_pinning);
        built.set_symmetric(self.symmetric);
        built.set_blacklist_unrecognized_addrs(self.blacklist_unrecognized_addrs);
        built.set_restrict_endpoints(self.restrict_endpoints);
        assert(built@ =~= self.base_state(public_ip, subnet));
        let mut i: usize = 0;
        while i < self.forward_ports.len()
            invariant
                i <= self.forward_ports.len(),
                built@.wf(),
                built@.forwards_reserved(),
                nothing_bound(built@.udp_map),
                nothing_bound(built@.tcp_map),
                built@ == with_forwards(
                    self.base_state(public_ip, subnet),
                    self.forward_ports@,
                    i as nat,
                ),
            decreases self.forward_ports.len() - i,
        {
            let (protocol, port, local_addr) = self.forward_ports[i];
            built.forward_port(port, local_addr, protocol);
            i += 1;
        }
        built
    }
}

} // verus!
