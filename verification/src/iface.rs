//! What is asked of the kernel for the virtual interface of a machine.
//!
//! The requests themselves are system calls and are made elsewhere; here is
//! what they hold.

use crate::addr::netmask_of;
use crate::route::Ipv4Route;
use vstd::prelude::*;

verus! {

/// The interface flag that says that the interface is up.
pub const IFF_UP: u16 = 0x1;

/// The interface flag that says that the interface is running.
pub const IFF_RUNNING: u16 = 0x40;

/// The interface flag that asks for a device that carries IP packets.
pub const IFF_TUN: u16 = 0x0001;

/// The interface flag that asks for packets without a leading information
/// header.
pub const IFF_NO_PI: u16 = 0x1000;

/// An entry for the routing table of the kernel.
#[derive(PartialEq, Eq, Structural, Clone, Copy, Debug)]
pub struct RouteRequest {
    /// The lowest address of the destination.
    pub dest: u32,
    /// The netmask of the destination.
    pub genmask: u32,
    /// The gateway, if the route has one.
    pub gateway: Option<u32>,
    /// Whether the entry is flagged as a route by way of a gateway. It is
    /// always flagged as up.
    pub by_gateway: bool,
}

/// The routing table entry for a route: its destination by base address and
/// netmask, and its gateway, flagged as such, if it has one.
pub fn route_request(route: &Ipv4Route) -> (r: RouteRequest)
    requires
        route.wf(),
    ensures
        r == (RouteRequest {
            dest: route.spec_dest().base(),
            genmask: netmask_of(route.spec_dest().prefix_len()),
            gateway: route.spec_gateway(),
            by_gateway: route.spec_gateway() is Some,
        }),
{
    let dest = route.dest();
    let gateway = route.gateway();
    RouteRequest {
        dest: dest.base_addr(),
        genmask: dest.netmask(),
        gateway,
        by_gateway: gateway.is_some(),
    }
}

/// The flags with which a new device is asked for: a device for IP packets
/// that come without a leading header.
pub fn tun_flags() -> (r: u16)
    ensures
        r == IFF_TUN | IFF_NO_PI,
{
    IFF_TUN | IFF_NO_PI
}

/// The flags of an interface that is brought up: up and running are set,
/// the others stay.
pub fn flags_up(flags: u16) -> (r: u16)
    ensures
        r == flags | (IFF_UP | IFF_RUNNING),
{
    flags | (IFF_UP | IFF_RUNNING)
}

/// The flags of an interface that is brought down: up is cleared, the
/// others stay.
pub fn flags_down(flags: u16) -> (r: u16)
    ensures
        r == flags & !IFF_UP,
{
    flags & !IFF_UP
}

/// The netmask that is set together with an address: `bits` leading ones.
pub fn netmask_for(bits: u8) -> (r: u32)
    requires
        bits <= 32,
    ensures
        r == netmask_of(bits),
{
    if bits >= 32 {
        0xffff_ffff
    } else {
        !(0xffff_ffffu32 >> (bits as u32))
    }
}

} // verus!
