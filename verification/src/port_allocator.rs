//! Allocation of external ports.

use crate::addr::SocketAddrV4;
use crate::rng::random_u16;
use std::collections::HashMap;
use vstd::prelude::*;

verus! {

broadcast use vstd::std_specs::hash::group_hash_axioms;

/// The first port that the sequential allocator hands out, and the port
/// that a sequence of ports goes back to after 65535.
pub const FIRST_PORT: u16 = 49152;

/// The lowest port that the random allocator hands out.
pub const LOWEST_RANDOM_PORT: u16 = 1000;

/// What a sequential allocator knows: the port at which the next new local
/// endpoint starts, and for each known local endpoint, by its key, the port
/// that it gets next.
pub struct SequentialState {
    pub next_original_port: u16,
    pub next_for_local_endpoint: Map<u64, u16>,
}

impl SequentialState {
    /// The port that the next request of `endpoint` gets.
    ///
    /// A new endpoint gets the port at which new endpoints start. A known
    /// endpoint gets the port recorded for it.
    pub open spec fn port_for(self, endpoint: u64) -> u16 {
        if self.next_for_local_endpoint.contains_key(endpoint) {
            self.next_for_local_endpoint[endpoint]
        } else {
            self.next_original_port
        }
    }

    /// The allocator after a request of `endpoint`.
    ///
    /// For a known endpoint the recorded port goes up by one, and from 65535
    /// back to the first port. For a new endpoint the port that it got is
    /// recorded, and the start of new endpoints moves on by 16, modulo
    /// 2^16, with 49153 added where that falls below the first port.
    pub open spec fn after(self, endpoint: u64) -> SequentialState {
        if self.next_for_local_endpoint.contains_key(endpoint) {
            let port = self.next_for_local_endpoint[endpoint];
            let next = if port == u16::MAX {
                FIRST_PORT
            } else {
                (port + 1) as u16
            };
            SequentialState {
                next_original_port: self.next_original_port,
                next_for_local_endpoint: self.next_for_local_endpoint.insert(endpoint, next),
            }
        } else {
            let wrapped = (self.next_original_port + 16) % 0x1_0000;
            let next = if wrapped < FIRST_PORT {
                wrapped + 49153
            } else {
                wrapped
            };
            SequentialState {
                next_original_port: next as u16,
                next_for_local_endpoint: self.next_for_local_endpoint.insert(
                    endpoint,
                    self.next_original_port,
                ),
            }
        }
    }

    /// New endpoints start at or above the first port, and no port below it
    /// is recorded for an endpoint.
    pub open spec fn wf(self) -> bool {
        &&& self.next_original_port >= FIRST_PORT
        &&& forall|endpoint: u64| #[trigger]
            self.next_for_local_endpoint.contains_key(endpoint)
                ==> self.next_for_local_endpoint[endpoint] >= FIRST_PORT
    }

    /// A request leaves the allocator in order, proposes a port from the
    /// first port on, and makes the endpoint known.
    pub proof fn lemma_after(self, endpoint: u64)
        requires
            self.wf(),
        ensures
            self.after(endpoint).wf(),
            self.port_for(endpoint) >= FIRST_PORT,
            self.after(endpoint).next_for_local_endpoint.contains_key(endpoint),
    {
        let post = self.after(endpoint);
        assert forall|e: u64| #[trigger]
            post.next_for_local_endpoint.contains_key(e) implies post.next_for_local_endpoint[e]
            >= FIRST_PORT by {
            if e != endpoint {
                assert(self.next_for_local_endpoint.contains_key(e));
            }
        }
    }
}

/// How many ports the sequential allocator hands out: those from the first
/// port to 65535.
pub const PORT_SPAN: u32 = 16384;

/// The port that a known endpoint is proposed `k` requests after it was
/// proposed `port`: the ports go up by one and from 65535 back to the
/// first port.
pub open spec fn port_after(port: u16, k: nat) -> u16 {
    (FIRST_PORT + (port - FIRST_PORT + k) % (PORT_SPAN as int)) as u16
}

/// Hands out ports in sequence: each local endpoint starts 16 ports after
/// the one before it and then counts up.
#[derive(Clone, Debug)]
pub struct SequentialPortAllocator {
    next_original_port: u16,
    next_for_local_endpoint: HashMap<u64, u16>,
}

impl View for SequentialPortAllocator {
    type V = SequentialState;

    closed spec fn view(&self) -> SequentialState {
        SequentialState {
            next_original_port: self.next_original_port,
            next_for_local_endpoint: self.next_for_local_endpoint@,
        }
    }
}

impl SequentialPortAllocator {
    /// An allocator that knows no endpoint and starts at the first port.
    pub fn new() -> (r: Self)
        ensures
            r@.wf(),
            r@.next_original_port == FIRST_PORT,
            r@.next_for_local_endpoint == Map::<u64, u16>::empty(),
    {
        SequentialPortAllocator {
            next_original_port: FIRST_PORT,
            next_for_local_endpoint: HashMap::new(),
        }
    }

    /// A second allocator in the same state.
    pub fn duplicate(&self) -> (r: Self)
        ensures
            r@ == self@,
    {
        SequentialPortAllocator {
            next_original_port: self.next_original_port,
            next_for_local_endpoint: self.next_for_local_endpoint.clone(),
        }
    }

    /// The next port for `local_endpoint`.
    pub fn next_port(&mut self, local_endpoint: SocketAddrV4) -> (port: u16)
        requires
            old(self)@.wf(),
        ensures
            final(self)@.wf(),
            port == old(self)@.port_for(local_endpoint.spec_key()),
            final(self)@ == old(self)@.after(local_endpoint.spec_key()),
    {
        let key: u64 = local_endpoint.key();
        proof {
            self@.lemma_after(key);
        }
        let known: Option<u16> = match self.next_for_local_endpoint.get(&key) {
            Some(port) => Some(*port),
            None => None,
        };
        match known {
            Some(port) => {
                let next: u16 = match port.checked_add(1) {
                    Some(next) => next,
                    None => FIRST_PORT,
                };
                self.next_for_local_endpoint.insert(key, next);
                port
            },
            None => {
                let port: u16 = self.next_original_port;
                self.next_original_port = self.next_original_port.wrapping_add(16);
                if self.next_original_port < FIRST_PORT {
                    self.next_original_port += 49153;
                }
                self.next_for_local_endpoint.insert(key, port);
                port
            },
        }
    }
}

impl Default for SequentialPortAllocator {
    fn default() -> (r: Self)
        ensures
            r@.wf(),
            AllocatorState::Sequential(r@) == AllocatorState::initial(),
    {
        SequentialPortAllocator::new()
    }
}

/// Hands out uniformly drawn ports from 1000 on.
#[derive(Clone, Copy, Debug, Default)]
pub struct RandomPortAllocator;

impl RandomPortAllocator {
    /// Keeps a drawn port exactly when it is 1000 or above.
    pub fn accept(port: u16) -> (r: Option<u16>)
        ensures
            r == (if port >= LOWEST_RANDOM_PORT {
                Some(port)
            } else {
                None
            }),
    {
        if port >= LOWEST_RANDOM_PORT {
            Some(port)
        } else {
            None
        }
    }

    /// Draws one port. `None` means that the draw was below 1000 and the
    /// caller should draw again.
    pub fn next_port(&mut self, _local_endpoint: SocketAddrV4) -> (r: Option<u16>)
        ensures
            r matches Some(port) ==> port >= LOWEST_RANDOM_PORT,
    {
        RandomPortAllocator::accept(random_u16())
    }
}

/// What a port allocator knows.
pub enum AllocatorState {
    Sequential(SequentialState),
    Random,
}

impl AllocatorState {
    /// The sequential allocator before its first request.
    pub open spec fn initial() -> AllocatorState {
        AllocatorState::Sequential(
            SequentialState {
                next_original_port: FIRST_PORT,
                next_for_local_endpoint: Map::<u64, u16>::empty(),
            },
        )
    }

    /// Whether the state is one that an allocator can be in.
    pub open spec fn wf(self) -> bool {
        self matches AllocatorState::Sequential(s) ==> s.wf()
    }
}

/// The strategy by which external ports are chosen.
#[derive(Debug)]
pub enum PortAllocator {
    Sequential(SequentialPortAllocator),
    Random(RandomPortAllocator),
}

impl View for PortAllocator {
    type V = AllocatorState;

    open spec fn view(&self) -> AllocatorState {
        match self {
            PortAllocator::Sequential(s) => AllocatorState::Sequential(s@),
            PortAllocator::Random(_) => AllocatorState::Random,
        }
    }
}

impl PortAllocator {
    /// The sequential allocator in its first state.
    pub fn sequential() -> (r: Self)
        ensures
            r@ == AllocatorState::initial(),
    {
        PortAllocator::Sequential(SequentialPortAllocator::new())
    }

    /// The random allocator.
    pub fn random() -> (r: Self)
        ensures
            r@ == AllocatorState::Random,
    {
        PortAllocator::Random(RandomPortAllocator)
    }

    /// A second allocator in the same state.
    pub fn duplicate(&self) -> (r: Self)
        ensures
            r@ == self@,
    {
        match self {
            PortAllocator::Sequential(s) => PortAllocator::Sequential(s.duplicate()),
            PortAllocator::Random(_) => PortAllocator::Random(RandomPortAllocator),
        }
    }

    /// Proposes a port for `local_endpoint`.
    ///
    /// The sequential allocator always proposes one: the port that its state
    /// holds for the endpoint. The random allocator proposes its draw if it
    /// is 1000 or above, and nothing otherwise.
    pub fn next_port(&mut self, local_endpoint: SocketAddrV4) -> (r: Option<u16>)
        requires
            old(self)@.wf(),
        ensures
            final(self)@.wf(),
            match old(self)@ {
                AllocatorState::Sequential(s) => {
                    &&& r == Some(s.port_for(local_endpoint.spec_key()))
                    &&& final(self)@ == AllocatorState::Sequential(
                        s.after(local_endpoint.spec_key()),
                    )
                },
                AllocatorState::Random => {
                    &&& final(self)@ == AllocatorState::Random
                    &&& r matches Some(port) ==> port >= LOWEST_RANDOM_PORT
                },
            },
    {
        match self {
            PortAllocator::Sequential(s) => Some(s.next_port(local_endpoint)),
            PortAllocator::Random(r) => r.next_port(local_endpoint),
        }
    }
}

} // verus!
