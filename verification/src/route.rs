//! Routes: a destination range and an optional gateway.

use crate::range::Ipv4Range;
use vstd::prelude::*;

verus! {

/// A route: traffic for `dest` is carried by the link the route is declared
/// on, by way of `gateway` if there is one.
#[derive(Clone, Copy, Debug)]
pub struct Ipv4Route {
    dest: Ipv4Range,
    gateway: Option<u32>,
}

impl Ipv4Route {
    /// The destination range.
    pub closed spec fn spec_dest(&self) -> Ipv4Range {
        self.dest
    }

    /// The gateway, if any.
    pub closed spec fn spec_gateway(&self) -> Option<u32> {
        self.gateway
    }

    /// The destination range is well-formed.
    pub open spec fn wf(&self) -> bool {
        self.spec_dest().wf()
    }

    /// A route with the given destination and gateway.
    pub fn new(dest: Ipv4Range, gateway: Option<u32>) -> (r: Self)
        ensures
            r.spec_dest() == dest,
            r.spec_gateway() == gateway,
    {
        Ipv4Route { dest, gateway }
    }

    /// The destination range of the route.
    pub fn dest(&self) -> (r: Ipv4Range)
        ensures
            r == self.spec_dest(),
    {
        self.dest
    }

    /// The gateway of the route, if any.
    pub fn gateway(&self) -> (r: Option<u32>)
        ensures
            r == self.spec_gateway(),
    {
        self.gateway
    }

    /// The route to a whole range, without a gateway.
    pub fn from_range(range: Ipv4Range) -> (r: Self)
        ensures
            r.spec_dest() == range,
            r.spec_gateway() == None::<u32>,
    {
        Ipv4Route::new(range, None)
    }

    /// The route to a single address, without a gateway.
    pub fn from_addr(addr: u32) -> (r: Self)
        ensures
            r.wf(),
            r.spec_dest().base() == addr,
            r.spec_dest().prefix_len() == 32,
            r.spec_gateway() == None::<u32>,
    {
        Ipv4Route::new(Ipv4Range::from_addr(addr), None)
    }
}

} // verus!
