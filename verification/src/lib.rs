//! An embeddable IPv4 network simulator core: address arithmetic, packet
//! rewriting, NAT port mapping, routing decisions and link delay queues.
//!
//! Addresses are plain `u32` values in host byte order (`1.2.3.4` is
//! `0x01020304`). Everything in this crate is synchronous and free of I/O;
//! an embedding runtime feeds packets and events in and performs the actions
//! that come back.

pub mod addr;
pub mod cli;
pub mod delay;
pub mod iface;
pub mod ipv4_nat;
pub mod machine;
pub mod netsim;
pub mod packet;
pub mod port_allocator;
pub mod port_map;
pub mod range;
pub mod rng;
pub mod route;
pub mod router;
pub mod text;

pub use addr::{Ipv4AddrClass, Ipv4AddrExt, SocketAddrV4};
pub use delay::{DelayBuffer, DelayLine};
pub use ipv4_nat::{Ipv4Nat, NatOutput};
pub use machine::{Machine, MachineId, Namespace};
pub use netsim::{NatConfig, Netsim, Network, NetworkId};
pub use packet::{Packet, Protocol};
pub use port_allocator::{PortAllocator, RandomPortAllocator, SequentialPortAllocator};
pub use port_map::PortMap;
pub use range::Ipv4Range;
pub use route::Ipv4Route;
pub use router::Ipv4Router;
