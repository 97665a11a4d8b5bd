//! The port mappings of a NAT, for one transport protocol.

use crate::addr::SocketAddrV4;
use crate::port_allocator::{
    port_after, AllocatorState, PortAllocator, SequentialState, FIRST_PORT, LOWEST_RANDOM_PORT,
    PORT_SPAN,
};
use std::collections::HashMap;
use vstd::prelude::*;

verus! {

broadcast use vstd::std_specs::hash::group_hash_axioms;

/// How many proposals of the allocator `map_port` looks at before it gives
/// up: as many as there are ports. This is more than the sequential
/// allocator needs to propose each of its ports.
pub const PROBE_LIMIT: u32 = 0x1_0000;

/// The key of a pair of socket addresses: the key of the first above that
/// of the second.
pub open spec fn spec_pair_key(source: SocketAddrV4, remote: SocketAddrV4) -> u128 {
    (source.spec_key() as u128 * 0x1_0000_0000_0000 + remote.spec_key() as u128) as u128
}

/// The key of a pair of socket addresses.
pub fn pair_key(source: SocketAddrV4, remote: SocketAddrV4) -> (r: u128)
    ensures
        r == spec_pair_key(source, remote),
{
    source.key() as u128 * 0x1_0000_0000_0000 + remote.key() as u128
}

/// Different pairs have different keys.
pub proof fn lemma_pair_key_injective(
    source: SocketAddrV4,
    remote: SocketAddrV4,
    other_source: SocketAddrV4,
    other_remote: SocketAddrV4,
)
    ensures
        spec_pair_key(source, remote) == spec_pair_key(other_source, other_remote) <==> source
            == other_source && remote == other_remote,
{
}

/// The mappings of a symmetric NAT: one external port for each pair of a
/// source and a remote socket, and the pair of each such port.
#[verifier::ext_equal]
pub struct SymmetricState {
    pub map_out: Map<u128, u16>,
    pub map_in: Map<u16, (SocketAddrV4, SocketAddrV4)>,
}

/// The mappings of a NAT for one protocol.
#[verifier::ext_equal]
pub struct PortMapState {
    /// The external port of each source socket, by its key.
    pub map_out: Map<u64, u16>,
    /// The source socket of each external port.
    pub map_in: Map<u16, SocketAddrV4>,
    /// The local socket of each forwarded port.
    pub forwards: Map<u16, SocketAddrV4>,
    /// In port-restricted mode, the remote socket last contacted from each
    /// external port.
    pub allowed_endpoints: Option<Map<u16, SocketAddrV4>>,
    /// In symmetric mode, the mappings by source and remote socket.
    pub symmetric_map: Option<SymmetricState>,
    /// What the port allocator knows.
    pub port_allocator: AllocatorState,
}

impl SymmetricState {
    /// Each pair has the port whose pair it is.
    pub open spec fn wf(self) -> bool {
        &&& forall|k: u128| #[trigger]
            self.map_out.contains_key(k) ==> self.map_in.contains_key(self.map_out[k]) && ({
                let pair = self.map_in[self.map_out[k]];
                spec_pair_key(pair.0, pair.1) == k
            })
        &&& forall|p: u16| #[trigger]
            self.map_in.contains_key(p) ==> {
                let k = spec_pair_key(self.map_in[p].0, self.map_in[p].1);
                self.map_out.contains_key(k) && self.map_out[k] == p
            }
    }
}

impl PortMapState {
    /// The mappings of a new port map: none, neither port-restricted nor
    /// symmetric, with the sequential allocator before its first request.
    pub open spec fn initial() -> PortMapState {
        PortMapState {
            map_out: Map::<u64, u16>::empty(),
            map_in: Map::<u16, SocketAddrV4>::empty(),
            forwards: Map::<u16, SocketAddrV4>::empty(),
            allowed_endpoints: None,
            symmetric_map: None,
            port_allocator: AllocatorState::initial(),
        }
    }

    /// The record of contacted remote sockets when port-restricted mode is
    /// set: an empty one if it is turned on, none if it is turned off.
    pub open spec fn restriction(restrict_endpoints: bool) -> Option<Map<u16, SocketAddrV4>> {
        if restrict_endpoints {
            Some(Map::<u16, SocketAddrV4>::empty())
        } else {
            None
        }
    }

    /// The symmetric mappings when symmetric mode is set: empty ones if it
    /// is turned on, none if it is turned off.
    pub open spec fn symmetry(symmetric: bool) -> Option<SymmetricState> {
        if symmetric {
            Some(
                SymmetricState {
                    map_out: Map::<u128, u16>::empty(),
                    map_in: Map::<u16, (SocketAddrV4, SocketAddrV4)>::empty(),
                },
            )
        } else {
            None
        }
    }

    /// Each source socket has the port whose source it is; no port is both
    /// mapped to a source and to a pair; and the allocator is in order.
    pub open spec fn wf(self) -> bool {
        &&& forall|k: u64| #[trigger]
            self.map_out.contains_key(k) ==> self.map_in.contains_key(self.map_out[k])
                && self.map_in[self.map_out[k]].spec_key() == k
        &&& forall|p: u16| #[trigger]
            self.map_in.contains_key(p) ==> self.map_out.contains_key(self.map_in[p].spec_key())
                && self.map_out[self.map_in[p].spec_key()] == p
        &&& self.symmetric_map matches Some(sym) ==> sym.wf() && forall|p: u16|
            !(#[trigger] self.map_in.contains_key(p) && sym.map_in.contains_key(p))
        &&& self.port_allocator.wf()
    }

    /// The private socket that a packet from `remote_addr` to the external
    /// port `port` is for.
    ///
    /// In port-restricted mode there is none unless `remote_addr` is the
    /// socket last contacted from the port. Otherwise it is the forward of
    /// the port; else the source mapped to the port; else, in symmetric
    /// mode, the source of the pair mapped to the port if `remote_addr` is
    /// the remote of that pair.
    pub open spec fn inbound_addr(self, remote_addr: SocketAddrV4, port: u16) -> Option<
        SocketAddrV4,
    > {
        if self.allowed_endpoints matches Some(allowed) && !(allowed.contains_key(port)
            && allowed[port] == remote_addr) {
            None
        } else if self.forwards.contains_key(port) {
            Some(self.forwards[port])
        } else if self.map_in.contains_key(port) {
            Some(self.map_in[port])
        } else {
            match self.symmetric_map {
                Some(sym) => if sym.map_in.contains_key(port) && sym.map_in[port].1
                    == remote_addr {
                    Some(sym.map_in[port].0)
                } else {
                    None
                },
                None => None,
            }
        }
    }

    /// The external port that `source_addr` already has: in symmetric mode
    /// that of its pair with `remote_addr`, else its own.
    pub open spec fn bound_port(self, remote_addr: SocketAddrV4, source_addr: SocketAddrV4)
        -> Option<u16> {
        match self.symmetric_map {
            Some(sym) => {
                let k = spec_pair_key(source_addr, remote_addr);
                if sym.map_out.contains_key(k) {
                    Some(sym.map_out[k])
                } else {
                    None
                }
            },
            None => {
                if self.map_out.contains_key(source_addr.spec_key()) {
                    Some(self.map_out[source_addr.spec_key()])
                } else {
                    None
                }
            },
        }
    }

    /// Whether `port` is bound to no source and to no pair.
    pub open spec fn is_unbound(self, port: u16) -> bool {
        &&& !self.map_in.contains_key(port)
        &&& self.symmetric_map matches Some(sym) ==> !sym.map_in.contains_key(port)
    }

    /// Whether the forwarded ports are reserved: none of them is bound to a
    /// source or to a pair.
    pub open spec fn forwards_reserved(self) -> bool {
        forall|port: u16| #[trigger] self.forwards.contains_key(port) ==> self.is_unbound(port)
    }

    /// Whether `port` can be given out: no source, no pair and no forward
    /// has it.
    pub open spec fn is_free(self, port: u16) -> bool {
        &&& !self.map_in.contains_key(port)
        &&& !self.forwards.contains_key(port)
        &&& self.symmetric_map matches Some(sym) ==> !sym.map_in.contains_key(port)
    }

    /// The mappings after `port` is given to `source_addr`: in symmetric
    /// mode to its pair with `remote_addr`.
    pub open spec fn bind(
        self,
        remote_addr: SocketAddrV4,
        source_addr: SocketAddrV4,
        port: u16,
    ) -> PortMapState {
        match self.symmetric_map {
            Some(sym) => PortMapState {
                symmetric_map: Some(
                    SymmetricState {
                        map_out: sym.map_out.insert(spec_pair_key(source_addr, remote_addr), port),
                        map_in: sym.map_in.insert(port, (source_addr, remote_addr)),
                    },
                ),
                ..self
            },
            None => PortMapState {
                map_out: self.map_out.insert(source_addr.spec_key(), port),
                map_in: self.map_in.insert(port, source_addr),
                ..self
            },
        }
    }

    /// The mappings after `remote_addr` is recorded as the socket last
    /// contacted from `port`, which happens in port-restricted mode only.
    pub open spec fn allow(self, port: u16, remote_addr: SocketAddrV4) -> PortMapState {
        match self.allowed_endpoints {
            Some(allowed) => PortMapState {
                allowed_endpoints: Some(allowed.insert(port, remote_addr)),
                ..self
            },
            None => self,
        }
    }

    /// What the sequential allocator finds for the endpoint with the given
    /// key within `fuel` proposals: the first proposal that is free, and the
    /// allocator after it; or nothing, and the allocator after `fuel`
    /// proposals.
    pub open spec fn probe(self, allocator: SequentialState, endpoint: u64, fuel: nat) -> (
        Option<u16>,
        SequentialState,
    )
        decreases fuel,
    {
        if fuel == 0 {
            (None, allocator)
        } else if self.is_free(allocator.port_for(endpoint)) {
            (Some(allocator.port_for(endpoint)), allocator.after(endpoint))
        } else {
            self.probe(allocator.after(endpoint), endpoint, (fuel - 1) as nat)
        }
    }

    /// Whether `post` and `r` are what mapping `source_addr` towards
    /// `remote_addr` leaves and returns.
    ///
    /// A source that has a port keeps it. Otherwise the allocator proposes
    /// ports until one is free, which is then bound; after `PROBE_LIMIT`
    /// proposals without a free port nothing is bound and nothing returned.
    /// With the sequential allocator the proposals are those of its state;
    /// with the random allocator a returned port is free and at least 1000.
    /// In port-restricted mode `remote_addr` is recorded for the port.
    pub open spec fn mapped(
        self,
        remote_addr: SocketAddrV4,
        source_addr: SocketAddrV4,
        r: Option<u16>,
        post: PortMapState,
    ) -> bool {
        match self.bound_port(remote_addr, source_addr) {
            Some(port) => r == Some(port) && post == self.allow(port, remote_addr),
            None => match self.port_allocator {
                AllocatorState::Sequential(allocator) => {
                    let found = self.probe(allocator, source_addr.spec_key(), PROBE_LIMIT as nat);
                    let state = PortMapState {
                        port_allocator: AllocatorState::Sequential(found.1),
                        ..self
                    };
                    &&& r == found.0
                    &&& post == match r {
                        Some(port) => state.bind(remote_addr, source_addr, port).allow(
                            port,
                            remote_addr,
                        ),
                        None => state,
                    }
                },
                AllocatorState::Random => match r {
                    Some(port) => {
                        &&& port >= LOWEST_RANDOM_PORT
                        &&& self.is_free(port)
                        &&& post == self.bind(remote_addr, source_addr, port).allow(
                            port,
                            remote_addr,
                        )
                    },
                    None => post == self,
                },
            },
        }
    }
}

impl PortMapState {
    /// A port that the sequential allocator finds is free and not below the
    /// first port, and the search leaves the allocator in order.
    pub proof fn lemma_probe(self, allocator: SequentialState, endpoint: u64, fuel: nat)
        requires
            allocator.wf(),
        ensures
            self.probe(allocator, endpoint, fuel).1.wf(),
            self.probe(allocator, endpoint, fuel).0 matches Some(port) ==> self.is_free(port)
                && port >= FIRST_PORT,
        decreases fuel,
    {
        allocator.lemma_after(endpoint);
        if fuel != 0 && !self.is_free(allocator.port_for(endpoint)) {
            self.lemma_probe(allocator.after(endpoint), endpoint, (fuel - 1) as nat);
        }
    }

    /// Where the sequential allocator finds nothing for a known endpoint, the
    /// port that it proposed at each of its requests is not free.
    proof fn lemma_probe_in_vain(self, allocator: SequentialState, endpoint: u64, fuel: nat, k: nat)
        requires
            allocator.wf(),
            allocator.next_for_local_endpoint.contains_key(endpoint),
            self.probe(allocator, endpoint, fuel).0 is None,
            k < fuel,
        ensures
            !self.is_free(port_after(allocator.next_for_local_endpoint[endpoint], k)),
        decreases fuel,
    {
        allocator.lemma_after(endpoint);
        if k > 0 {
            self.lemma_probe_in_vain(
                allocator.after(endpoint),
                endpoint,
                (fuel - 1) as nat,
                (k - 1) as nat,
            );
        }
    }

    /// The sequential allocator finds a port exactly when one of its ports,
    /// those from the first port on, is free, if it may make as many
    /// proposals as it has ports, and one more.
    pub proof fn lemma_probe_exhausts(self, allocator: SequentialState, endpoint: u64, fuel: nat)
        requires
            allocator.wf(),
            fuel > PORT_SPAN,
        ensures
            self.probe(allocator, endpoint, fuel).0 is Some <==> exists|port: u16|
                port >= FIRST_PORT && #[trigger] self.is_free(port),
    {
        self.lemma_probe(allocator, endpoint, fuel);
        allocator.lemma_after(endpoint);
        if self.probe(allocator, endpoint, fuel).0 is None {
            let known = allocator.next_for_local_endpoint.contains_key(endpoint);
            let start = if known {
                allocator
            } else {
                allocator.after(endpoint)
            };
            let left: nat = if known {
                fuel
            } else {
                (fuel - 1) as nat
            };
            let first = start.next_for_local_endpoint[endpoint];
            assert forall|port: u16| port >= FIRST_PORT implies !#[trigger] self.is_free(port) by {
                let k: nat = ((port - first) % (PORT_SPAN as int)) as nat;
                self.lemma_probe_in_vain(start, endpoint, left, k);
                assert(port_after(first, k) == port);
            }
        }
    }

    /// Binding a free port to a source without one keeps the mappings in
    /// order.
    pub proof fn lemma_bind_wf(
        self,
        remote_addr: SocketAddrV4,
        source_addr: SocketAddrV4,
        port: u16,
    )
        requires
            self.wf(),
            self.is_free(port),
            self.bound_port(remote_addr, source_addr) is None,
        ensures
            self.bind(remote_addr, source_addr, port).wf(),
    {
        let post = self.bind(remote_addr, source_addr, port);
        match self.symmetric_map {
            Some(old_sym) => {
                let sym = post.symmetric_map.unwrap();
                let k0 = spec_pair_key(source_addr, remote_addr);
                assert forall|k: u128| #[trigger] sym.map_out.contains_key(k) implies
                    sym.map_in.contains_key(sym.map_out[k]) && ({
                    let pair = sym.map_in[sym.map_out[k]];
                    spec_pair_key(pair.0, pair.1) == k
                }) by {
                    if k != k0 {
                        assert(old_sym.map_out.contains_key(k));
                    }
                }
                assert forall|p: u16| #[trigger] sym.map_in.contains_key(p) implies {
                    let k = spec_pair_key(sym.map_in[p].0, sym.map_in[p].1);
                    sym.map_out.contains_key(k) && sym.map_out[k] == p
                } by {
                    if p != port {
                        assert(old_sym.map_in.contains_key(p));
                    }
                }
                assert forall|p: u16|
                    !(#[trigger] post.map_in.contains_key(p) && sym.map_in.contains_key(p)) by {
                    if p != port {
                        assert(!(self.map_in.contains_key(p) && old_sym.map_in.contains_key(p)));
                    }
                }
            },
            None => {
                let k0 = source_addr.spec_key();
                assert forall|k: u64| #[trigger] post.map_out.contains_key(k) implies
                    post.map_in.contains_key(post.map_out[k])
                    && post.map_in[post.map_out[k]].spec_key() == k by {
                    if k != k0 {
                        assert(self.map_out.contains_key(k));
                    }
                }
                assert forall|p: u16| #[trigger] post.map_in.contains_key(p) implies
                    post.map_out.contains_key(post.map_in[p].spec_key())
                    && post.map_out[post.map_in[p].spec_key()] == p by {
                    if p != port {
                        assert(self.map_in.contains_key(p));
                    }
                }
            },
        }
    }

    /// Mapping a port keeps the mappings in order, and a returned port is
    /// afterwards the bound port of the source.
    pub proof fn lemma_mapped(
        self,
        remote_addr: SocketAddrV4,
        source_addr: SocketAddrV4,
        r: Option<u16>,
        post: PortMapState,
    )
        requires
            self.wf(),
            self.mapped(remote_addr, source_addr, r, post),
        ensures
            post.wf(),
            post.symmetric_map is Some == self.symmetric_map is Some,
            post.allowed_endpoints is Some == self.allowed_endpoints is Some,
            post.forwards == self.forwards,
            self.forwards_reserved() ==> post.forwards_reserved(),
            r matches Some(port) ==> {
                &&& post.bound_port(remote_addr, source_addr) == Some(port)
                &&& post.allowed_endpoints matches Some(allowed) ==> allowed.contains_key(port)
                    && allowed[port] == remote_addr
                &&& self.bound_port(remote_addr, source_addr) is None ==> self.is_free(port)
            },
    {
        if self.bound_port(remote_addr, source_addr) is None {
            match self.port_allocator {
                AllocatorState::Sequential(allocator) => {
                    self.lemma_probe(allocator, source_addr.spec_key(), PROBE_LIMIT as nat);
                    let found = self.probe(allocator, source_addr.spec_key(), PROBE_LIMIT as nat);
                    let state = PortMapState {
                        port_allocator: AllocatorState::Sequential(found.1),
                        ..self
                    };
                    if let Some(port) = r {
                        state.lemma_bind_wf(remote_addr, source_addr, port);
                    }
                },
                AllocatorState::Random => {
                    if let Some(port) = r {
                        self.lemma_bind_wf(remote_addr, source_addr, port);
                    }
                },
            }
        }
    }

    /// With the sequential allocator a source gets a port exactly when it
    /// has one already or one of the ports from the first port on is free.
    pub proof fn lemma_sequential_success(
        self,
        remote_addr: SocketAddrV4,
        source_addr: SocketAddrV4,
        r: Option<u16>,
        post: PortMapState,
    )
        requires
            self.wf(),
            self.port_allocator is Sequential,
            self.mapped(remote_addr, source_addr, r, post),
        ensures
            r is Some <==> self.bound_port(remote_addr, source_addr) is Some || exists|port: u16|
                port >= FIRST_PORT && #[trigger] self.is_free(port),
    {
        if self.bound_port(remote_addr, source_addr) is None {
            self.lemma_probe_exhausts(
                self.port_allocator->Sequential_0,
                source_addr.spec_key(),
                PROBE_LIMIT as nat,
            );
        }
    }

    /// Without symmetric mode a source keeps its external port, whatever
    /// remote socket it sends to.
    pub proof fn lemma_cone_keeps_port(
        self,
        source_addr: SocketAddrV4,
        first_remote: SocketAddrV4,
        second_remote: SocketAddrV4,
        first_port: u16,
        second_port: u16,
        mid: PortMapState,
        post: PortMapState,
    )
        requires
            self.wf(),
            self.symmetric_map is None,
            self.mapped(first_remote, source_addr, Some(first_port), mid),
            mid.mapped(second_remote, source_addr, Some(second_port), post),
        ensures
            first_port == second_port,
    {
        self.lemma_mapped(first_remote, source_addr, Some(first_port), mid);
    }

    /// In symmetric mode a source gets different external ports towards
    /// different remote sockets.
    pub proof fn lemma_symmetric_separates_ports(
        self,
        source_addr: SocketAddrV4,
        first_remote: SocketAddrV4,
        second_remote: SocketAddrV4,
        first_port: u16,
        second_port: u16,
        mid: PortMapState,
        post: PortMapState,
    )
        requires
            self.wf(),
            self.symmetric_map is Some,
            first_remote != second_remote,
            self.mapped(first_remote, source_addr, Some(first_port), mid),
            mid.mapped(second_remote, source_addr, Some(second_port), post),
        ensures
            first_port != second_port,
    {
        self.lemma_mapped(first_remote, source_addr, Some(first_port), mid);
        mid.lemma_mapped(second_remote, source_addr, Some(second_port), post);
        let sym = mid.symmetric_map.unwrap();
        let first_key = spec_pair_key(source_addr, first_remote);
        let second_key = spec_pair_key(source_addr, second_remote);
        lemma_pair_key_injective(source_addr, first_remote, source_addr, second_remote);
        assert(sym.map_out.contains_key(first_key));
        assert(sym.map_in.contains_key(first_port));
        if mid.bound_port(second_remote, source_addr) is Some {
            assert(sym.map_out.contains_key(second_key));
        }
    }

    /// In port-restricted mode, after a source has sent to a remote socket
    /// from an external port, that port takes packets from this remote
    /// socket, and takes none from any other socket. What it takes is for the
    /// source; only where a port was forwarded although it was bound is it
    /// for the target of the forward.
    pub proof fn lemma_port_restricted(
        self,
        source_addr: SocketAddrV4,
        remote_addr: SocketAddrV4,
        other_addr: SocketAddrV4,
        port: u16,
        post: PortMapState,
    )
        requires
            self.wf(),
            self.allowed_endpoints is Some,
            self.mapped(remote_addr, source_addr, Some(port), post),
        ensures
            other_addr != remote_addr ==> post.inbound_addr(other_addr, port) is None,
            post.inbound_addr(remote_addr, port) is Some,
            !post.forwards.contains_key(port) ==> post.inbound_addr(remote_addr, port) == Some(
                source_addr,
            ),
            self.forwards_reserved() ==> post.inbound_addr(remote_addr, port) == Some(source_addr),
    {
        self.lemma_mapped(remote_addr, source_addr, Some(port), post);
        if self.forwards_reserved() && post.forwards.contains_key(port) {
            assert(post.is_unbound(port));
        }
        match post.symmetric_map {
            Some(sym) => {
                let k = spec_pair_key(source_addr, remote_addr);
                assert(sym.map_out.contains_key(k));
                assert(sym.map_in.contains_key(port));
                let pair = sym.map_in[port];
                lemma_pair_key_injective(pair.0, pair.1, source_addr, remote_addr);
                assert(!(post.map_in.contains_key(port) && sym.map_in.contains_key(port)));
            },
            None => {
                assert(post.map_out.contains_key(source_addr.spec_key()));
                assert(post.map_in.contains_key(port));
                SocketAddrV4::lemma_key_injective(post.map_in[port], source_addr);
            },
        }
    }
}

/// The mappings of a symmetric NAT.
#[derive(Debug)]
pub struct SymmetricMap {
    map_out: HashMap<u128, u16>,
    map_in: HashMap<u16, (SocketAddrV4, SocketAddrV4)>,
}

impl View for SymmetricMap {
    type V = SymmetricState;

    closed spec fn view(&self) -> SymmetricState {
        SymmetricState { map_out: self.map_out@, map_in: self.map_in@ }
    }
}

impl SymmetricMap {
    /// No mapping.
    pub fn new() -> (r: Self)
        ensures
            r@.map_out == Map::<u128, u16>::empty(),
            r@.map_in == Map::<u16, (SocketAddrV4, SocketAddrV4)>::empty(),
    {
        SymmetricMap { map_out: HashMap::new(), map_in: HashMap::new() }
    }
}

/// The port mappings of a NAT for one transport protocol.
#[derive(Debug)]
pub struct PortMap {
    map_out: HashMap<u64, u16>,
    map_in: HashMap<u16, SocketAddrV4>,
    forwards: HashMap<u16, SocketAddrV4>,
    allowed_endpoints: Option<HashMap<u16, SocketAddrV4>>,
    symmetric_map: Option<SymmetricMap>,
    port_allocator: PortAllocator,
}

impl View for PortMap {
    type V = PortMapState;

    closed spec fn view(&self) -> PortMapState {
        PortMapState {
            map_out: self.map_out@,
            map_in: self.map_in@,
            forwards: self.forwards@,
            allowed_endpoints: match self.allowed_endpoints {
                Some(allowed) => Some(allowed@),
                None => None,
            },
            symmetric_map: match self.symmetric_map {
                Some(sym) => Some(sym@),
                None => None,
            },
            port_allocator: self.port_allocator@,
        }
    }
}

impl Default for PortMap {
    fn default() -> (r: Self)
        ensures
            r@.wf(),
            r@ == PortMapState::initial(),
    {
        PortMap::new()
    }
}

impl PortMap {
    /// No mapping and no forward, neither port-restricted nor symmetric,
    /// with the sequential allocator.
    pub fn new() -> (r: Self)
        ensures
            r@.wf(),
            r@.forwards_reserved(),
            r@ == PortMapState::initial(),
    {
        PortMap {
            map_out: HashMap::new(),
            map_in: HashMap::new(),
            forwards: HashMap::new(),
            allowed_endpoints: None,
            symmetric_map: None,
            port_allocator: PortAllocator::sequential(),
        }
    }

    /// Forwards the external port `port` to `local_addr`. The forwarded
    /// ports stay reserved if the port is not bound.
    pub fn forward_port(&mut self, port: u16, local_addr: SocketAddrV4)
        requires
            old(self)@.wf(),
        ensures
            final(self)@.wf(),
            final(self)@ == (PortMapState {
                forwards: old(self)@.forwards.insert(port, local_addr),
                ..old(self)@
            }),
            old(self)@.forwards_reserved() && old(self)@.is_unbound(port) ==> final(self)@.forwards_reserved(),
    {
        self.forwards.insert(port, local_addr);
        proof {
            let pre = old(self)@;
            let post = self@;
            if pre.forwards_reserved() && pre.is_unbound(port) {
                assert forall|q: u16| #[trigger] post.forwards.contains_key(q) implies post.is_unbound(
                    q,
                ) by {
                    if q != port {
                        assert(pre.forwards.contains_key(q));
                    }
                }
            }
        }
    }

    /// Replaces the port allocator.
    pub fn set_port_allocator(&mut self, port_allocator: PortAllocator)
        requires
            old(self)@.wf(),
            port_allocator@.wf(),
        ensures
            final(self)@.wf(),
            old(self)@.forwards_reserved() ==> final(self)@.forwards_reserved(),
            final(self)@ == (PortMapState { port_allocator: port_allocator@, ..old(self)@ }),
    {
        self.port_allocator = port_allocator;
    }

    /// Turns port-restricted mode on, with no remote recorded, or off.
    pub fn set_restrict_endpoints(&mut self, restrict_endpoints: bool)
        requires
            old(self)@.wf(),
        ensures
            final(self)@.wf(),
            old(self)@.forwards_reserved() ==> final(self)@.forwards_reserved(),
            final(self)@ == (PortMapState {
                allowed_endpoints: PortMapState::restriction(restrict_endpoints),
                ..old(self)@
            }),
    {
        if restrict_endpoints {
            self.allowed_endpoints = Some(HashMap::new());
        } else {
            self.allowed_endpoints = None;
        }
    }

    /// Turns symmetric mode on, with no pair mapped, or off.
    pub fn set_symmetric(&mut self, symmetric: bool)
        requires
            old(self)@.wf(),
        ensures
            final(self)@.wf(),
            old(self)@.forwards_reserved() ==> final(self)@.forwards_reserved(),
            final(self)@ == (PortMapState {
                symmetric_map: PortMapState::symmetry(symmetric),
                ..old(self)@
            }),
    {
        if symmetric {
            self.symmetric_map = Some(SymmetricMap::new());
        } else {
            self.symmetric_map = None;
        }
    }

    /// The private socket that a packet from `remote_addr` to the external
    /// port `port` is for, if there is one.
    pub fn get_inbound_addr(&self, remote_addr: SocketAddrV4, port: u16) -> (r: Option<
        SocketAddrV4,
    >)
        ensures
            r == self@.inbound_addr(remote_addr, port),
    {
        match &self.allowed_endpoints {
            Some(allowed) => {
                let allowed_here: bool = match allowed.get(&port) {
                    Some(a) => *a == remote_addr,
                    None => false,
                };
                if !allowed_here {
                    return None;
                }
            },
            None => {},
        }
        match self.forwards.get(&port) {
            Some(addr) => {
                return Some(*addr);
            },
            None => {},
        }
        match self.map_in.get(&port) {
            Some(addr) => {
                return Some(*addr);
            },
            None => {},
        }
        match &self.symmetric_map {
            Some(sym) => {
                match sym.map_in.get(&port) {
                    Some(pair) => {
                        if pair.1 == remote_addr {
                            return Some(pair.0);
                        }
                    },
                    None => {},
                }
            },
            None => {},
        }
        None
    }

    /// The external port that `source_addr` already has towards
    /// `remote_addr`.
    pub fn lookup_port(&self, remote_addr: SocketAddrV4, source_addr: SocketAddrV4) -> (r:
        Option<u16>)
        ensures
            r == self@.bound_port(remote_addr, source_addr),
    {
        match &self.symmetric_map {
            Some(sym) => {
                let k: u128 = pair_key(source_addr, remote_addr);
                match sym.map_out.get(&k) {
                    Some(port) => Some(*port),
                    None => None,
                }
            },
            None => {
                let k: u64 = source_addr.key();
                match self.map_out.get(&k) {
                    Some(port) => Some(*port),
                    None => None,
                }
            },
        }
    }

    /// Whether `port` can be given out.
    pub fn port_is_free(&self, port: u16) -> (r: bool)
        ensures
            r == self@.is_free(port),
    {
        if self.map_in.contains_key(&port) {
            return false;
        }
        if self.forwards.contains_key(&port) {
            return false;
        }
        match &self.symmetric_map {
            Some(sym) => !sym.map_in.contains_key(&port),
            None => true,
        }
    }

    /// Gives the free port `port` to `source_addr`: in symmetric mode to its
    /// pair with `remote_addr`.
    fn bind_port(&mut self, remote_addr: SocketAddrV4, source_addr: SocketAddrV4, port: u16)
        requires
            old(self)@.wf(),
            old(self)@.is_free(port),
            old(self)@.bound_port(remote_addr, source_addr) is None,
        ensures
            final(self)@.wf(),
            old(self)@.forwards_reserved() ==> final(self)@.forwards_reserved(),
            final(self)@ == old(self)@.bind(remote_addr, source_addr, port),
    {
        match &mut self.symmetric_map {
            Some(sym) => {
                let k: u128 = pair_key(source_addr, remote_addr);
                sym.map_out.insert(k, port);
                sym.map_in.insert(port, (source_addr, remote_addr));
            },
            None => {
                let k: u64 = source_addr.key();
                self.map_out.insert(k, port);
                self.map_in.insert(port, source_addr);
            },
        }
        proof {
            assert(self@ =~= old(self)@.bind(remote_addr, source_addr, port));
            old(self)@.lemma_bind_wf(remote_addr, source_addr, port);
        }
    }

    /// Binds `candidate` to `source_addr` if it is free, and records
    /// `remote_addr` for it in port-restricted mode.
    pub fn try_bind(
        &mut self,
        remote_addr: SocketAddrV4,
        source_addr: SocketAddrV4,
        candidate: u16,
    ) -> (r: bool)
        requires
            old(self)@.wf(),
            old(self)@.bound_port(remote_addr, source_addr) is None,
        ensures
            final(self)@.wf(),
            old(self)@.forwards_reserved() ==> final(self)@.forwards_reserved(),
            r == old(self)@.is_free(candidate),
            final(self)@ == (if r {
                old(self)@.bind(remote_addr, source_addr, candidate).allow(candidate, remote_addr)
            } else {
                old(self)@
            }),
    {
        if !self.port_is_free(candidate) {
            return false;
        }
        self.bind_port(remote_addr, source_addr, candidate);
        self.record_endpoint(candidate, remote_addr);
        true
    }

    /// Records `remote_addr` as the socket last contacted from `port`, in
    /// port-restricted mode.
    fn record_endpoint(&mut self, port: u16, remote_addr: SocketAddrV4)
        requires
            old(self)@.wf(),
        ensures
            final(self)@.wf(),
            old(self)@.forwards_reserved() ==> final(self)@.forwards_reserved(),
            final(self)@ == old(self)@.allow(port, remote_addr),
    {
        match &mut self.allowed_endpoints {
            Some(allowed) => {
                allowed.insert(port, remote_addr);
            },
            None => {},
        }
        assert(self@ =~= old(self)@.allow(port, remote_addr));
    }

    /// The external port for packets from `source_addr` to `remote_addr`:
    /// the port that the source already has, or else a newly bound one.
    /// `None` means that the allocator proposed no free port.
    pub fn map_port(&mut self, remote_addr: SocketAddrV4, source_addr: SocketAddrV4) -> (r:
        Option<u16>)
        requires
            old(self)@.wf(),
        ensures
            final(self)@.wf(),
            old(self)@.forwards_reserved() ==> final(self)@.forwards_reserved(),
            old(self)@.mapped(remote_addr, source_addr, r, final(self)@),
    {
        match self.lookup_port(remote_addr, source_addr) {
            Some(port) => {
                self.record_endpoint(port, remote_addr);
                return Some(port);
            },
            None => {},
        }
        let ghost pre = self@;
        let ghost key = source_addr.spec_key();
        let mut tries: u32 = 0;
        while tries < PROBE_LIMIT
            invariant
                tries <= PROBE_LIMIT,
                self@.wf(),
                pre == old(self)@,
                pre.wf(),
                pre.bound_port(remote_addr, source_addr) is None,
                key == source_addr.spec_key(),
                self@ == (PortMapState { port_allocator: self@.port_allocator, ..pre }),
                match pre.port_allocator {
                    AllocatorState::Sequential(a) => self@.port_allocator matches AllocatorState::Sequential(
                        b,
                    ) && pre.probe(a, key, PROBE_LIMIT as nat) == pre.probe(
                        b,
                        key,
                        (PROBE_LIMIT - tries) as nat,
                    ),
                    AllocatorState::Random => self@.port_allocator == AllocatorState::Random,
                },
            decreases PROBE_LIMIT - tries,
        {
            tries += 1;
            let ghost before = self@;
            match self.port_allocator.next_port(source_addr) {
                Some(port) => {
                    assert(self@ =~= (PortMapState {
                        port_allocator: self@.port_allocator,
                        ..pre
                    }));
                    let ghost mid = self@;
                    if self.try_bind(remote_addr, source_addr, port) {
                        proof {
                            assert(mid.is_free(port) == pre.is_free(port));
                            assert(self@ == mid.bind(remote_addr, source_addr, port).allow(
                                port,
                                remote_addr,
                            ));
                            match pre.port_allocator {
                                AllocatorState::Sequential(a) => {
                                    let b = before.port_allocator->Sequential_0;
                                    let found = pre.probe(a, key, PROBE_LIMIT as nat);
                                    assert(found == pre.probe(
                                        b,
                                        key,
                                        (PROBE_LIMIT - tries + 1) as nat,
                                    ));
                                    assert(found.0 == Some(port));
                                    assert(found.1 == b.after(key));
                                    assert(mid =~= (PortMapState {
                                        port_allocator: AllocatorState::Sequential(found.1),
                                        ..pre
                                    }));
                                },
                                AllocatorState::Random => {
                                    assert(mid =~= pre);
                                },
                            }
                        }
                        return Some(port);
                    }
                },
                None => {
                    assert(self@ =~= (PortMapState {
                        port_allocator: self@.port_allocator,
                        ..pre
                    }));
                },
            }
        }
        None
    }
}

} // verus!
