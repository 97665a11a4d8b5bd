//! An IPv4 router: connections with routes, and the decision where a
//! packet goes.
//!
//! The router does not own the links themselves. Each connection carries an
//! endpoint of a type that the embedding runtime chooses, and forwarding
//! answers with the positions of the connections to send on.

use crate::addr::{is_broadcast, is_multicast};
use crate::packet::be32;
use crate::route::Ipv4Route;
use vstd::prelude::*;

verus! {

/// One connection of a router, as plain values.
pub struct ConnectionState<P> {
    pub id: usize,
    pub plug: P,
    pub routes: Seq<Ipv4Route>,
    pub enabled: bool,
}

/// The four counters of a router.
#[derive(PartialEq, Eq, Structural, Clone, Copy, Debug)]
pub struct Counters {
    pub forwarded: usize,
    pub invalid: usize,
    pub disabled: usize,
    pub unroutable: usize,
}

/// A router, as plain values.
pub struct RouterState<P> {
    pub addr: u32,
    pub conns: Seq<ConnectionState<P>>,
    pub counters: Counters,
}

/// A counter that stood at `x` after `n` more events: counters wrap
/// around.
pub open spec fn counted(x: usize, n: nat) -> usize {
    ((x + n) % (usize::MAX + 1)) as usize
}

/// Whether a route carries packets for `dest`: its range covers `dest`, or
/// `dest` is the broadcast address or a multicast address.
pub open spec fn route_carries(route: Ipv4Route, dest: u32) -> bool {
    route.spec_dest().covers(dest) || is_broadcast(dest) || is_multicast(dest)
}

/// Whether a connection with these routes carries packets for `dest`: one
/// of its routes does.
pub open spec fn carried(routes: Seq<Ipv4Route>, dest: u32) -> bool {
    exists|j: int| 0 <= j < routes.len() && route_carries(#[trigger] routes[j], dest)
}

/// The connections that a packet for `dest` is sent on, among the first `n`
/// connections: the position of each enabled connection that carries the
/// packet, once, in order.
pub open spec fn deliveries<P>(conns: Seq<ConnectionState<P>>, dest: u32, n: nat) -> Seq<usize>
    decreases n,
{
    if n == 0 {
        Seq::empty()
    } else {
        let c = conns[n - 1];
        if c.enabled && carried(c.routes, dest) {
            deliveries(conns, dest, (n - 1) as nat).push((n - 1) as usize)
        } else {
            deliveries(conns, dest, (n - 1) as nat)
        }
    }
}

/// How many disabled connections, among the first `n` connections, carry
/// packets for `dest`.
pub open spec fn disabled_hits<P>(conns: Seq<ConnectionState<P>>, dest: u32, n: nat) -> nat
    decreases n,
{
    if n == 0 {
        0
    } else {
        let c = conns[n - 1];
        disabled_hits(conns, dest, (n - 1) as nat) + if !c.enabled && carried(c.routes, dest) {
            1nat
        } else {
            0nat
        }
    }
}

/// A packet is sent once on each enabled connection that carries it, and
/// on no other: the positions in `deliveries` go up, and a position is
/// among them exactly if its connection is enabled and carries the packet.
/// There are at most as many disabled hits as connections.
pub proof fn lemma_deliveries<P>(conns: Seq<ConnectionState<P>>, dest: u32, n: nat)
    requires
        n <= conns.len() <= usize::MAX,
    ensures
        deliveries(conns, dest, n).len() <= n,
        disabled_hits(conns, dest, n) <= n,
        forall|k: int|
            0 <= k < deliveries(conns, dest, n).len() ==> (#[trigger] deliveries(
                conns,
                dest,
                n,
            )[k]) < n,
        forall|a: int, b: int|
            0 <= a < b < deliveries(conns, dest, n).len() ==> deliveries(conns, dest, n)[a]
                < deliveries(conns, dest, n)[b],
        forall|i: usize|
            deliveries(conns, dest, n).contains(i) <==> i < n && conns[i as int].enabled
                && carried(conns[i as int].routes, dest),
    decreases n,
{
    if n > 0 {
        let before = deliveries(conns, dest, (n - 1) as nat);
        let now = deliveries(conns, dest, n);
        let last: usize = (n - 1) as usize;
        lemma_deliveries(conns, dest, (n - 1) as nat);
        let c = conns[n - 1];
        assert forall|i: usize|
            now.contains(i) <==> i < n && conns[i as int].enabled && carried(
                conns[i as int].routes,
                dest,
            ) by {
            if c.enabled && carried(c.routes, dest) {
                if before.contains(i) {
                    let k = choose|k: int| 0 <= k < before.len() && before[k] == i;
                    assert(now[k] == i);
                }
                if i == last {
                    assert(now[before.len() as int] == i);
                }
                if now.contains(i) {
                    let k = choose|k: int| 0 <= k < now.len() && now[k] == i;
                    if k < before.len() {
                        assert(before[k] == i);
                    }
                }
            }
        }
    }
}

/// The position of the first connection from `from` on that has the given
/// id.
pub open spec fn position_from<P>(conns: Seq<ConnectionState<P>>, id: usize, from: int)
    -> Option<int>
    decreases conns.len() - from,
{
    if from < 0 || from >= conns.len() {
        None
    } else if conns[from].id == id {
        Some(from)
    } else {
        position_from(conns, id, from + 1)
    }
}

/// The positions of the enabled connections from `lo` up to, not
/// including, `hi`, in order.
pub open spec fn enabled_in<P>(conns: Seq<ConnectionState<P>>, lo: int, hi: int) -> Seq<usize>
    decreases hi - lo,
{
    if hi <= lo {
        Seq::empty()
    } else if conns[hi - 1].enabled {
        enabled_in(conns, lo, hi - 1).push((hi - 1) as usize)
    } else {
        enabled_in(conns, lo, hi - 1)
    }
}

/// `enabled_in` holds the enabled positions of its span, and no others.
pub proof fn lemma_enabled_in<P>(conns: Seq<ConnectionState<P>>, lo: int, hi: int, i: usize)
    requires
        0 <= lo,
        hi <= conns.len() <= usize::MAX,
    ensures
        enabled_in(conns, lo, hi).contains(i) <==> lo <= i < hi && conns[i as int].enabled,
    decreases hi - lo,
{
    if hi > lo {
        lemma_enabled_in(conns, lo, hi - 1, i);
        let before = enabled_in(conns, lo, hi - 1);
        if conns[hi - 1].enabled {
            let last: usize = (hi - 1) as usize;
            assert(before.push(last).last() == last);
            assert forall|x: usize| before.push(last).contains(x) <==> before.contains(x) || x
                == last by {
                if before.contains(x) {
                    let k = choose|k: int| 0 <= k < before.len() && before[k] == x;
                    assert(before.push(last)[k] == x);
                }
                if x == last {
                    assert(before.push(last)[before.len() as int] == x);
                }
            }
        }
    }
}

impl<P> RouterState<P> {
    /// Where the turns start for a given turn counter: at the counter, and
    /// at the first connection if the counter is past the last one.
    pub open spec fn first_turn(self, turn: usize) -> int {
        if turn < self.conns.len() {
            turn as int
        } else {
            0
        }
    }

    /// The order in which the enabled connections are asked for a packet:
    /// by position, beginning at the turn counter and going round.
    pub open spec fn turns(self, turn: usize) -> Seq<usize> {
        enabled_in(self.conns, self.first_turn(turn), self.conns.len() as int) + enabled_in(
            self.conns,
            0,
            self.first_turn(turn),
        )
    }

    /// No enabled connection is passed over: each of them has its turn,
    /// wherever the turns start.
    pub proof fn lemma_every_enabled_has_its_turn(self, turn: usize, i: usize)
        requires
            i < self.conns.len() <= usize::MAX,
            self.conns[i as int].enabled,
        ensures
            self.turns(turn).contains(i),
    {
        let first = self.first_turn(turn);
        let upper = enabled_in(self.conns, first, self.conns.len() as int);
        let lower = enabled_in(self.conns, 0, first);
        lemma_enabled_in(self.conns, first, self.conns.len() as int, i);
        lemma_enabled_in(self.conns, 0, first, i);
        if i >= first {
            let k = choose|k: int| 0 <= k < upper.len() && upper[k] == i;
            assert((upper + lower)[k] == i);
        } else {
            let k = choose|k: int| 0 <= k < lower.len() && lower[k] == i;
            assert((upper + lower)[upper.len() + k] == i);
        }
    }

    /// Every route of every connection has a well-formed range.
    pub open spec fn wf(self) -> bool {
        forall|i: int, j: int|
            0 <= i < self.conns.len() && 0 <= j < self.conns[i].routes.len() ==> (
            #[trigger] self.conns[i].routes[j]).wf()
    }

    /// The router with the endpoint of the connection at `index` replaced.
    pub open spec fn with_plug(self, index: int, plug: P) -> RouterState<P> {
        RouterState {
            conns: self.conns.update(index, ConnectionState { plug, ..self.conns[index] }),
            ..self
        }
    }

    /// Replacing an endpoint leaves the routes in order.
    pub proof fn lemma_with_plug(self, index: int, plug: P)
        requires
            self.wf(),
            0 <= index < self.conns.len(),
        ensures
            self.with_plug(index, plug).wf(),
    {
        let post = self.with_plug(index, plug);
        assert forall|i: int, j: int|
            0 <= i < post.conns.len() && 0 <= j < post.conns[i].routes.len() implies (
        #[trigger] post.conns[i].routes[j]).wf() by {
            assert(post.conns[i].routes == self.conns[i].routes);
            assert(self.conns[i].routes[j].wf());
        }
    }

    /// The position of the first connection with the given id.
    pub open spec fn position(self, id: usize) -> Option<int> {
        position_from(self.conns, id, 0)
    }

    /// Whether the router takes `bytes` for an IPv4 packet: they hold the 20
    /// bytes of a header.
    pub open spec fn is_packet(bytes: Seq<u8>) -> bool {
        bytes.len() >= 20
    }

    /// Whether `bytes` are a packet that the router looks up routes for: an
    /// IPv4 packet that is not addressed to the router itself.
    pub open spec fn routes_packet(self, bytes: Seq<u8>) -> bool {
        Self::is_packet(bytes) && be32(bytes, 16) != self.addr
    }

    /// The positions of the connections that `bytes` are sent on.
    pub open spec fn deliveries_for(self, bytes: Seq<u8>) -> Seq<usize> {
        if self.routes_packet(bytes) {
            deliveries(self.conns, be32(bytes, 16), self.conns.len())
        } else {
            Seq::empty()
        }
    }

    /// The counters after `bytes` were handled. If the packet counts, then:
    /// something that is no packet counts as invalid; a packet for the
    /// router itself is not counted; any other packet counts as forwarded
    /// once for each connection that it is sent on, as disabled once for
    /// each disabled connection that carries it, and as unroutable if it is
    /// sent nowhere.
    pub open spec fn counters_after(self, bytes: Seq<u8>, count: bool) -> Counters {
        let c = self.counters;
        if !count {
            c
        } else if !Self::is_packet(bytes) {
            Counters { invalid: counted(c.invalid, 1), ..c }
        } else if !self.routes_packet(bytes) {
            c
        } else {
            let sent = self.deliveries_for(bytes).len();
            Counters {
                forwarded: counted(c.forwarded, sent),
                disabled: counted(
                    c.disabled,
                    disabled_hits(self.conns, be32(bytes, 16), self.conns.len()),
                ),
                unroutable: counted(
                    c.unroutable,
                    if sent == 0 {
                        1
                    } else {
                        0
                    },
                ),
                ..c
            }
        }
    }
}

proof fn lemma_counted_step(x: usize, n: nat)
    ensures
        counted(x, 0) == x,
        counted(x, n + 1) == counted(x, n).wrapping_add(1),
{
    let m: int = usize::MAX + 1;
    vstd::arithmetic::div_mod::lemma_small_mod(x as nat, m as nat);
    vstd::arithmetic::div_mod::lemma_fundamental_div_mod(x + n, m);
    let q = (x + n) / m;
    let r = (x + n) % m;
    vstd::arithmetic::div_mod::lemma_mod_bound(x + n, m);
    if r + 1 < m {
        vstd::arithmetic::div_mod::lemma_fundamental_div_mod_converse(x + n + 1, m, q, r + 1);
    } else {
        assert(x + n + 1 == m * (q + 1) + 0) by (nonlinear_arith)
            requires
                x + n == m * q + r,
                r + 1 == m,
        ;
        vstd::arithmetic::div_mod::lemma_fundamental_div_mod_converse(x + n + 1, m, q + 1, 0);
    }
}

/// One connection of a router: an id, the endpoint of a link, the routes
/// that the link carries, and whether the connection is enabled.
pub struct Connection<P> {
    id: usize,
    plug: P,
    routes: Vec<Ipv4Route>,
    enabled: bool,
}

impl<P> View for Connection<P> {
    type V = ConnectionState<P>;

    closed spec fn view(&self) -> ConnectionState<P> {
        ConnectionState {
            id: self.id,
            plug: self.plug,
            routes: self.routes@,
            enabled: self.enabled,
        }
    }
}

/// An IPv4 router.
pub struct Ipv4Router<P> {
    addr: u32,
    conns: Vec<Connection<P>>,
    counters: Counters,
}

impl<P> View for Ipv4Router<P> {
    type V = RouterState<P>;

    closed spec fn view(&self) -> RouterState<P> {
        RouterState {
            addr: self.addr,
            conns: Seq::new(self.conns@.len(), |i: int| self.conns@[i]@),
            counters: self.counters,
        }
    }
}

/// Whether one of the routes carries packets for `dest`.
fn carries(routes: &Vec<Ipv4Route>, dest: u32) -> (r: bool)
    requires
        forall|j: int| 0 <= j < routes.len() ==> (#[trigger] routes[j]).wf(),
    ensures
        r == carried(routes@, dest),
{
    let everywhere: bool = dest == 0xffff_ffff || (0xe000_0000 <= dest && dest < 0xf000_0000);
    let mut j: usize = 0;
    while j < routes.len()
        invariant
            j <= routes.len(),
            everywhere == (is_broadcast(dest) || is_multicast(dest)),
            forall|k: int| 0 <= k < j ==> !route_carries(#[trigger] routes[k], dest),
            forall|k: int| 0 <= k < routes.len() ==> (#[trigger] routes[k]).wf(),
        decreases routes.len() - j,
    {
        if routes[j].dest().contains(dest) || everywhere {
            assert(route_carries(routes[j as int], dest));
            return true;
        }
        j += 1;
    }
    false
}

impl<P> Ipv4Router<P> {
    /// A router with the given address, without connections, all counters
    /// at zero.
    pub fn new(addr: u32) -> (r: Self)
        ensures
            r@.wf(),
            r@.addr == addr,
            r@.conns == Seq::<ConnectionState<P>>::empty(),
            r@.counters == (Counters { forwarded: 0, invalid: 0, disabled: 0, unroutable: 0 }),
    {
        Ipv4Router {
            addr,
            conns: Vec::new(),
            counters: Counters { forwarded: 0, invalid: 0, disabled: 0, unroutable: 0 },
        }
    }

    /// The address of the router.
    pub fn addr(&self) -> (r: u32)
        ensures
            r == self@.addr,
    {
        self.addr
    }

    /// How often a packet was sent on a connection.
    pub fn forwarded(&self) -> (r: usize)
        ensures
            r == self@.counters.forwarded,
    {
        self.counters.forwarded
    }

    /// How many arrivals were no IPv4 packets.
    pub fn invalid(&self) -> (r: usize)
        ensures
            r == self@.counters.invalid,
    {
        self.counters.invalid
    }

    /// How often a packet was held back by a disabled connection.
    pub fn disabled(&self) -> (r: usize)
        ensures
            r == self@.counters.disabled,
    {
        self.counters.disabled
    }

    /// How many packets were sent nowhere.
    pub fn unroutable(&self) -> (r: usize)
        ensures
            r == self@.counters.unroutable,
    {
        self.counters.unroutable
    }

    /// The number of connections.
    pub fn connections(&self) -> (r: usize)
        ensures
            r == self@.conns.len(),
    {
        self.conns.len()
    }

    /// Whether the connection at `index` is enabled.
    pub fn is_enabled(&self, index: usize) -> (r: bool)
        requires
            index < self@.conns.len(),
        ensures
            r == self@.conns[index as int].enabled,
    {
        self.conns[index].enabled
    }

    /// The id of the connection at `index`.
    pub fn id_at(&self, index: usize) -> (r: usize)
        requires
            index < self@.conns.len(),
        ensures
            r == self@.conns[index as int].id,
    {
        self.conns[index].id
    }

    /// The enabled connections in the order in which they are to be asked
    /// for a packet. The turn counter is the position behind the connection
    /// that had a packet last, so that every enabled connection comes before
    /// that one has its next turn.
    pub fn poll_order(&self, turn: usize) -> (order: Vec<usize>)
        ensures
            order@ == self@.turns(turn),
            forall|k: int|
                0 <= k < order.len() ==> (#[trigger] order[k]) < self@.conns.len()
                    && self@.conns[order[k] as int].enabled,
    {
        let n: usize = self.conns.len();
        let first: usize = if turn < n {
            turn
        } else {
            0
        };
        let mut order: Vec<usize> = Vec::new();
        let mut i: usize = first;
        while i < n
            invariant
                first <= i <= n,
                n == self@.conns.len(),
                order@ == enabled_in(self@.conns, first as int, i as int),
                forall|k: int|
                    0 <= k < order.len() ==> (#[trigger] order[k]) < n
                        && self@.conns[order[k] as int].enabled,
            decreases n - i,
        {
            assert(self@.conns[i as int] == self.conns@[i as int]@);
            if self.conns[i].enabled {
                order.push(i);
            }
            i += 1;
        }
        let ghost upper = order@;
        let mut j: usize = 0;
        while j < first
            invariant
                j <= first <= n,
                n == self@.conns.len(),
                order@ == upper + enabled_in(self@.conns, 0, j as int),
                forall|k: int|
                    0 <= k < order.len() ==> (#[trigger] order[k]) < n
                        && self@.conns[order[k] as int].enabled,
            decreases first - j,
        {
            assert(self@.conns[j as int] == self.conns@[j as int]@);
            if self.conns[j].enabled {
                order.push(j);
                assert(order@ =~= upper + enabled_in(self@.conns, 0, j + 1));
            }
            j += 1;
        }
        order
    }

    /// The endpoint of the connection at `index`.
    pub fn plug(&self, index: usize) -> (r: &P)
        requires
            index < self@.conns.len(),
        ensures
            *r == self@.conns[index as int].plug,
    {
        &self.conns[index].plug
    }

    /// The endpoint of the connection at `index`, to receive on.
    pub fn plug_mut(&mut self, index: usize) -> (r: &mut P)
        requires
            index < old(self)@.conns.len(),
        ensures
            *r == old(self)@.conns[index as int].plug,
            final(self)@.addr == old(self)@.addr,
            final(self)@.counters == old(self)@.counters,
            final(self)@.conns =~= old(self)@.with_plug(index as int, *final(r)).conns,
    {
        &mut self.conns[index].plug
    }

    /// Adds an enabled connection behind the others.
    pub fn add_connection(&mut self, id: usize, plug: P, routes: Vec<Ipv4Route>)
        requires
            old(self)@.wf(),
            forall|j: int| 0 <= j < routes.len() ==> (#[trigger] routes[j]).wf(),
        ensures
            final(self)@.wf(),
            final(self)@ == (RouterState {
                conns: old(self)@.conns.push(
                    ConnectionState { id, plug, routes: routes@, enabled: true },
                ),
                ..old(self)@
            }),
    {
        self.conns.push(Connection { id, plug, routes, enabled: true });
        assert(self@.conns =~= old(self)@.conns.push(
            ConnectionState { id, plug, routes: routes@, enabled: true },
        ));
    }

    /// The position of the first connection with the given id.
    pub fn find(&self, id: usize) -> (r: Option<usize>)
        ensures
            r is Some == self@.position(id) is Some,
            r matches Some(i) ==> self@.position(id) == Some(i as int) && i < self@.conns.len(),
    {
        let mut i: usize = 0;
        while i < self.conns.len()
            invariant
                i <= self.conns.len(),
                self@.position(id) == position_from(self@.conns, id, i as int),
            decreases self.conns.len() - i,
        {
            if self.conns[i].id == id {
                return Some(i);
            }
            i += 1;
        }
        None
    }

    /// Removes the connection at `index`; the last connection takes its
    /// place.
    pub fn remove_at(&mut self, index: usize) -> (plug: P)
        requires
            old(self)@.wf(),
            index < old(self)@.conns.len(),
        ensures
            final(self)@.wf(),
            plug == old(self)@.conns[index as int].plug,
            final(self)@ == (RouterState {
                conns: old(self)@.conns.update(index as int, old(self)@.conns.last()).drop_last(),
                ..old(self)@
            }),
    {
        let conn = self.conns.swap_remove(index);
        assert(self@.conns =~= old(self)@.conns.update(
            index as int,
            old(self)@.conns.last(),
        ).drop_last());
        assert(old(self)@.conns[index as int] == old(self).conns@[index as int]@);
        assert forall|i: int, j: int|
            0 <= i < self@.conns.len() && 0 <= j < self@.conns[i].routes.len() implies (
        #[trigger] self@.conns[i].routes[j]).wf() by {
            if i == index {
                assert(self@.conns[i] == old(self)@.conns[old(self)@.conns.len() - 1]);
            } else {
                assert(self@.conns[i] == old(self)@.conns[i]);
            }
        }
        conn.plug
    }

    /// Removes the first connection with the given id and gives its
    /// endpoint back. Without such a connection nothing changes.
    pub fn remove_connection(&mut self, id: usize) -> (r: Option<P>)
        requires
            old(self)@.wf(),
        ensures
            final(self)@.wf(),
            match old(self)@.position(id) {
                Some(i) => {
                    &&& r == Some(old(self)@.conns[i].plug)
                    &&& final(self)@ == (RouterState {
                        conns: old(self)@.conns.update(i, old(self)@.conns.last()).drop_last(),
                        ..old(self)@
                    })
                },
                None => r is None && final(self)@ == old(self)@,
            },
    {
        match self.find(id) {
            Some(i) => Some(self.remove_at(i)),
            None => None,
        }
    }

    /// Enables or disables the first connection with the given id.
    fn set_enabled(&mut self, id: usize, enabled: bool)
        requires
            old(self)@.wf(),
        ensures
            final(self)@.wf(),
            match old(self)@.position(id) {
                Some(i) => final(self)@ == (RouterState {
                    conns: old(self)@.conns.update(
                        i,
                        ConnectionState { enabled, ..old(self)@.conns[i] },
                    ),
                    ..old(self)@
                }),
                None => final(self)@ == old(self)@,
            },
    {
        match self.find(id) {
            Some(i) => {
                self.conns[i].enabled = enabled;
                assert(self@.conns =~= old(self)@.conns.update(
                    i as int,
                    ConnectionState { enabled, ..old(self)@.conns[i as int] },
                ));
                assert forall|a: int, b: int|
                    0 <= a < self@.conns.len() && 0 <= b < self@.conns[a].routes.len() implies (
                #[trigger] self@.conns[a].routes[b]).wf() by {
                    assert(self@.conns[a].routes == old(self)@.conns[a].routes);
                }
            },
            None => {
                assert(self@.conns =~= old(self)@.conns);
            },
        }
    }

    /// Enables the first connection with the given id, if there is one.
    pub fn enable_route(&mut self, id: usize)
        requires
            old(self)@.wf(),
        ensures
            final(self)@.wf(),
            match old(self)@.position(id) {
                Some(i) => final(self)@ == (RouterState {
                    conns: old(self)@.conns.update(
                        i,
                        ConnectionState { enabled: true, ..old(self)@.conns[i] },
                    ),
                    ..old(self)@
                }),
                None => final(self)@ == old(self)@,
            },
    {
        self.set_enabled(id, true)
    }

    /// Disables the first connection with the given id, if there is one.
    pub fn disable_route(&mut self, id: usize)
        requires
            old(self)@.wf(),
        ensures
            final(self)@.wf(),
            match old(self)@.position(id) {
                Some(i) => final(self)@ == (RouterState {
                    conns: old(self)@.conns.update(
                        i,
                        ConnectionState { enabled: false, ..old(self)@.conns[i] },
                    ),
                    ..old(self)@
                }),
                None => final(self)@ == old(self)@,
            },
    {
        self.set_enabled(id, false)
    }

    /// Decides where a packet goes and counts it, if `count` says that it
    /// counts.
    ///
    /// Returns the positions of the connections to send the packet on: each
    /// enabled connection that has a route which carries the packet, once,
    /// in order. Nothing is sent for bytes that are no IPv4 packet and for a
    /// packet addressed to the router itself.
    pub fn forward_packet(&mut self, bytes: &[u8], count: bool) -> (sends: Vec<usize>)
        requires
            old(self)@.wf(),
        ensures
            final(self)@.wf(),
            sends@ == old(self)@.deliveries_for(bytes@),
            forall|k: int| 0 <= k < sends.len() ==> (#[trigger] sends[k]) < old(self)@.conns.len(),
            final(self)@ == (RouterState {
                counters: old(self)@.counters_after(bytes@, count),
                ..old(self)@
            }),
    {
        let mut sends: Vec<usize> = Vec::new();
        proof {
            lemma_counted_step(self.counters.invalid, 0);
            lemma_counted_step(self.counters.forwarded, 0);
            lemma_counted_step(self.counters.disabled, 0);
            lemma_counted_step(self.counters.unroutable, 0);
        }
        if bytes.len() < 20 {
            if count {
                self.counters.invalid = self.counters.invalid.wrapping_add(1);
            }
            assert(self@.conns =~= old(self)@.conns);
            return sends;
        }
        let dest: u32 = (bytes[16] as u32) * 0x100_0000 + (bytes[17] as u32) * 0x1_0000 + (
        bytes[18] as u32) * 0x100 + bytes[19] as u32;
        if dest == self.addr {
            assert(self@.conns =~= old(self)@.conns);
            return sends;
        }
        let ghost conns = self@.conns;
        let ghost start = self.counters;
        let mut held_back: usize = 0;
        let mut i: usize = 0;
        while i < self.conns.len()
            invariant
                i <= self.conns.len(),
                self.addr == old(self).addr,
                self.conns == old(self).conns,
                conns == self@.conns,
                self@.wf(),
                sends@ == deliveries(conns, dest, i as nat),
                forall|k: int| 0 <= k < sends.len() ==> (#[trigger] sends[k]) < i,
                held_back == disabled_hits(conns, dest, i as nat),
                held_back <= i,
                self.counters == start,
            decreases self.conns.len() - i,
        {
            assert(self@.conns[i as int] == self.conns@[i as int]@);
            assert forall|j: int| 0 <= j < self.conns[i as int].routes.len() implies (
            #[trigger] self.conns[i as int].routes[j]).wf() by {
                assert(self@.conns[i as int].routes[j].wf());
            }
            if carries(&self.conns[i].routes, dest) {
                if self.conns[i].enabled {
                    sends.push(i);
                } else {
                    held_back += 1;
                }
            }
            i += 1;
        }
        if count {
            let sent: usize = sends.len();
            proof {
                lemma_counted_sum(self.counters.forwarded, sent as nat);
                lemma_counted_sum(self.counters.disabled, held_back as nat);
                lemma_counted_small(sent);
                lemma_counted_small(held_back);
                lemma_counted_step(self.counters.unroutable, 0);
            }
            self.counters.forwarded = self.counters.forwarded.wrapping_add(sent);
            self.counters.disabled = self.counters.disabled.wrapping_add(held_back);
            if sent == 0 {
                self.counters.unroutable = self.counters.unroutable.wrapping_add(1);
            }
        }
        assert(self@.conns =~= old(self)@.conns);
        sends
    }
}

proof fn lemma_counted_small(n: usize)
    ensures
        counted(0, n as nat) == n,
{
    vstd::arithmetic::div_mod::lemma_small_mod(n as nat, (usize::MAX + 1) as nat);
}

proof fn lemma_counted_sum(x: usize, n: nat)
    ensures
        counted(x, n) == x.wrapping_add(counted(0, n)),
    decreases n,
{
    lemma_counted_step(x, 0);
    lemma_counted_step(0, 0);
    if n > 0 {
        lemma_counted_sum(x, (n - 1) as nat);
        lemma_counted_step(x, (n - 1) as nat);
        lemma_counted_step(0, (n - 1) as nat);
    }
}

} // verus!
