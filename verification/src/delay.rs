//! A link that delays packets and bounds what it holds.
//!
//! Times are nanoseconds on one monotonic clock; durations are
//! nanoseconds. The delay line is a state machine: the embedding runtime
//! hands it arrivals and timer expiries with the time at which they
//! happened, forwards what it releases, and arms its timer as told.

use std::collections::VecDeque;
use vstd::prelude::*;

verus! {

/// The longest time that the timer is armed for, and the time that it is
/// armed for when nothing is due: 10000 seconds.
pub const DURATION_MAX: u64 = 10_000_000_000_000;

/// The configuration of a delay line: how long a packet is held, and the
/// bound on the bytes held in one direction.
#[derive(Clone, Copy, Debug)]
pub struct DelayBuffer {
    delay: u64,
    buffer_size: usize,
}

impl DelayBuffer {
    /// How long a packet is held, in nanoseconds.
    pub closed spec fn spec_delay(&self) -> u64 {
        self.delay
    }

    /// The bound on the bytes held in one direction.
    pub closed spec fn spec_buffer_size(&self) -> usize {
        self.buffer_size
    }

    /// No delay, and the largest buffer.
    pub fn new() -> (r: Self)
        ensures
            r.spec_delay() == 0,
            r.spec_buffer_size() == usize::MAX,
    {
        DelayBuffer { delay: 0, buffer_size: usize::MAX }
    }

    /// Sets the delay, in nanoseconds.
    pub fn set_delay(&mut self, delay: u64)
        ensures
            final(self).spec_delay() == delay,
            final(self).spec_buffer_size() == old(self).spec_buffer_size(),
    {
        self.delay = delay;
    }

    /// Sets the bound on the bytes held in one direction.
    pub fn set_buffer_size(&mut self, buffer_size: usize)
        ensures
            final(self).spec_buffer_size() == buffer_size,
            final(self).spec_delay() == old(self).spec_delay(),
    {
        self.buffer_size = buffer_size;
    }

    /// The delay, in nanoseconds.
    pub fn delay(&self) -> (r: u64)
        ensures
            r == self.spec_delay(),
    {
        self.delay
    }

    /// The bound on the bytes held in one direction.
    pub fn buffer_size(&self) -> (r: usize)
        ensures
            r == self.spec_buffer_size(),
    {
        self.buffer_size
    }

    /// Starts a delay line with this configuration: idle, holding nothing.
    pub fn spawn(self) -> (r: DelayLine)
        ensures
            r@ == (DelayState {
                delay: self.spec_delay(),
                buffer_size: self.spec_buffer_size(),
                to_b: Seq::<Held>::empty(),
                to_c: Seq::<Held>::empty(),
                idle: true,
            }),
    {
        let r = DelayLine {
            config: self,
            to_b: Lane { queue: VecDeque::new(), bytes: 0 },
            to_c: Lane { queue: VecDeque::new(), bytes: 0 },
            idle: true,
        };
        assert(r@.to_b =~= Seq::<Held>::empty());
        assert(r@.to_c =~= Seq::<Held>::empty());
        r
    }
}

impl Default for DelayBuffer {
    fn default() -> (r: Self)
        ensures
            r.spec_delay() == 0,
            r.spec_buffer_size() == usize::MAX,
    {
        DelayBuffer::new()
    }
}

/// A packet that is held, and the time from which it may leave.
pub struct Held {
    pub packet: Seq<u8>,
    pub release: u64,
}

/// The bytes of all packets in a queue.
pub open spec fn held_bytes(queue: Seq<Held>) -> nat
    decreases queue.len(),
{
    if queue.len() == 0 {
        0
    } else {
        held_bytes(queue.drop_last()) + queue.last().packet.len()
    }
}

/// How many packets at the head of a queue are due at `now`: the packets
/// before the first one whose release time lies after `now`.
pub open spec fn due(queue: Seq<Held>, now: u64) -> nat
    decreases queue.len(),
{
    if queue.len() == 0 || queue[0].release > now {
        0
    } else {
        1 + due(queue.skip(1), now)
    }
}

/// How long to wait at `now` for the head of a queue of which nothing is
/// due; `DURATION_MAX` for an empty queue.
pub open spec fn head_wait(queue: Seq<Held>, now: u64) -> int {
    if queue.len() == 0 {
        DURATION_MAX as int
    } else {
        queue[0].release - now
    }
}

/// The smaller of two numbers.
pub open spec fn least(a: int, b: int) -> int {
    if a <= b {
        a
    } else {
        b
    }
}

/// A delay line, as plain values. Packets that arrive on side `b` are held
/// in `to_c`, and packets that arrive on side `c` in `to_b`.
#[verifier::ext_equal]
pub struct DelayState {
    pub delay: u64,
    pub buffer_size: usize,
    pub to_b: Seq<Held>,
    pub to_c: Seq<Held>,
    pub idle: bool,
}

impl DelayState {
    /// Whether a queue has room for a packet: with the packet it stays
    /// below the bound.
    pub open spec fn has_room(self, queue: Seq<Held>, packet: Seq<u8>) -> bool {
        held_bytes(queue) + packet.len() < self.buffer_size
    }

    /// A queue after the arrival of a packet at `now`: with room, the
    /// packet is held at the end, to leave after the delay; without, it is
    /// dropped.
    pub open spec fn enqueue(self, queue: Seq<Held>, packet: Seq<u8>, now: u64) -> Seq<Held> {
        if self.has_room(queue, packet) {
            queue.push(Held { packet, release: (now + self.delay) as u64 })
        } else {
            queue
        }
    }

    /// How long the timer is armed for after it fired at `now`: until the
    /// next packet is due, and at most `DURATION_MAX`.
    pub open spec fn next_wait(self, now: u64) -> int {
        least(
            DURATION_MAX as int,
            least(
                head_wait(self.to_b.skip(due(self.to_b, now) as int), now),
                head_wait(self.to_c.skip(due(self.to_c, now) as int), now),
            ),
        )
    }
}

/// What leaves a delay line when its timer fires, and how long to arm the
/// timer for.
pub struct Released {
    /// The packets to send on side `b`, in order.
    pub to_b: Vec<Vec<u8>>,
    /// The packets to send on side `c`, in order.
    pub to_c: Vec<Vec<u8>>,
    /// The time to arm the timer for, in nanoseconds.
    pub wait: u64,
}

struct Queued {
    packet: Vec<u8>,
    release: u64,
}

struct Lane {
    queue: VecDeque<Queued>,
    bytes: usize,
}

impl Lane {
    spec fn held(&self) -> Seq<Held> {
        Seq::new(
            self.queue@.len(),
            |i: int| Held { packet: self.queue@[i].packet@, release: self.queue@[i].release },
        )
    }

    spec fn wf(&self) -> bool {
        self.bytes == held_bytes(self.held())
    }

    /// Holds the packet if there is room for it below `buffer_size`.
    fn enqueue(&mut self, packet: Vec<u8>, release: u64, buffer_size: usize) -> (r: bool)
        requires
            old(self).wf(),
        ensures
            final(self).wf(),
            r == (held_bytes(old(self).held()) + packet@.len() < buffer_size),
            final(self).held() == (if r {
                old(self).held().push(Held { packet: packet@, release })
            } else {
                old(self).held()
            }),
    {
        let fits: bool = match self.bytes.checked_add(packet.len()) {
            Some(sum) => sum < buffer_size,
            None => false,
        };
        if fits {
            let ghost held = Held { packet: packet@, release };
            self.bytes = self.bytes + packet.len();
            self.queue.push_back(Queued { packet, release });
            proof {
                assert(self.held() =~= old(self).held().push(held));
                assert(self.held().drop_last() =~= old(self).held());
            }
        }
        fits
    }

    /// Takes the packets that are due at `now` off the queue, and says how
    /// long to wait for the next one.
    fn release(&mut self, now: u64) -> (r: (Vec<Vec<u8>>, u64))
        requires
            old(self).wf(),
        ensures
            final(self).wf(),
            final(self).held() == old(self).held().skip(due(old(self).held(), now) as int),
            r.0.len() == due(old(self).held(), now),
            forall|i: int| 0 <= i < r.0.len() ==> (#[trigger] r.0[i])@ == old(self).held()[i].packet,
            r.1 == least(DURATION_MAX as int, head_wait(final(self).held(), now)),
    {
        let mut out: Vec<Vec<u8>> = Vec::new();
        let ghost start = self.held();
        proof {
            assert(start.skip(0) =~= start);
        }
        while self.queue.len() > 0 && self.queue[0].release <= now
            invariant
                self.wf(),
                out.len() <= start.len(),
                self.held() == start.skip(out.len() as int),
                due(start, now) == out.len() + due(self.held(), now),
                forall|i: int| 0 <= i < out.len() ==> (#[trigger] out[i])@ == start[i].packet,
            decreases self.queue.len(),
        {
            let ghost before = self.held();
            let queued = self.queue.pop_front().unwrap();
            proof {
                assert(self.held() =~= before.skip(1));
                assert(before.skip(1) =~= start.skip(out.len() + 1));
                lemma_held_bytes_skip(before);
                assert(queued.packet@ == before[0].packet);
                assert(before[0] == start[out.len() as int]);
            }
            self.bytes = self.bytes - queued.packet.len();
            out.push(queued.packet);
        }
        let wait: u64 = if self.queue.len() > 0 {
            let remaining: u64 = self.queue[0].release - now;
            if remaining < DURATION_MAX {
                remaining
            } else {
                DURATION_MAX
            }
        } else {
            DURATION_MAX
        };
        (out, wait)
    }
}

/// Without its first packet a queue holds that packet's bytes less.
pub proof fn lemma_held_bytes_skip(queue: Seq<Held>)
    requires
        queue.len() > 0,
    ensures
        held_bytes(queue) == queue[0].packet.len() + held_bytes(queue.skip(1)),
    decreases queue.len(),
{
    if queue.len() == 1 {
        assert(queue.drop_last() =~= queue.skip(1));
        assert(held_bytes(queue.skip(1)) == 0);
    } else {
        lemma_held_bytes_skip(queue.drop_last());
        assert(queue.drop_last().skip(1) =~= queue.skip(1).drop_last());
        assert(queue.skip(1).last() == queue.last());
    }
}

/// A delay line between a side `b` and a side `c`.
pub struct DelayLine {
    config: DelayBuffer,
    to_b: Lane,
    to_c: Lane,
    idle: bool,
}

impl View for DelayLine {
    type V = DelayState;

    closed spec fn view(&self) -> DelayState {
        DelayState {
            delay: self.config.delay,
            buffer_size: self.config.buffer_size,
            to_b: self.to_b.held(),
            to_c: self.to_c.held(),
            idle: self.idle,
        }
    }
}

impl DelayLine {
    #[verifier::type_invariant]
    spec fn lanes_wf(&self) -> bool {
        self.to_b.wf() && self.to_c.wf()
    }

    /// Whether the timer is armed for no packet.
    pub fn is_idle(&self) -> (r: bool)
        ensures
            r == self@.idle,
    {
        self.idle
    }

    /// Takes a packet that arrived on side `b` at `now`.
    ///
    /// The packet is held for side `c` if there is room for it, and dropped
    /// otherwise. Returns the time to arm the timer for, if it is to be
    /// armed anew: a line that was idle and now holds the packet arms it for
    /// the delay.
    pub fn from_b(&mut self, packet: Vec<u8>, now: u64) -> (arm: Option<u64>)
        requires
            now + old(self)@.delay <= u64::MAX,
        ensures
            final(self)@ == (DelayState {
                to_c: old(self)@.enqueue(old(self)@.to_c, packet@, now),
                idle: old(self)@.idle && !old(self)@.has_room(old(self)@.to_c, packet@),
                ..old(self)@
            }),
            arm == (if old(self)@.idle && old(self)@.has_room(old(self)@.to_c, packet@) {
                Some(old(self)@.delay)
            } else {
                None
            }),
    {
        proof {
            use_type_invariant(&*self);
        }
        let release: u64 = now + self.config.delay;
        let buffer_size: usize = self.config.buffer_size;
        let mut lane = Lane { queue: VecDeque::new(), bytes: 0 };
        std::mem::swap(&mut lane, &mut self.to_c);
        let held: bool = lane.enqueue(packet, release, buffer_size);
        self.to_c = lane;
        if held && self.idle {
            self.idle = false;
            Some(self.config.delay)
        } else {
            None
        }
    }

    /// Takes a packet that arrived on side `c` at `now`, as `from_b` does
    /// for the other direction.
    pub fn from_c(&mut self, packet: Vec<u8>, now: u64) -> (arm: Option<u64>)
        requires
            now + old(self)@.delay <= u64::MAX,
        ensures
            final(self)@ == (DelayState {
                to_b: old(self)@.enqueue(old(self)@.to_b, packet@, now),
                idle: old(self)@.idle && !old(self)@.has_room(old(self)@.to_b, packet@),
                ..old(self)@
            }),
            arm == (if old(self)@.idle && old(self)@.has_room(old(self)@.to_b, packet@) {
                Some(old(self)@.delay)
            } else {
                None
            }),
    {
        proof {
            use_type_invariant(&*self);
        }
        let release: u64 = now + self.config.delay;
        let buffer_size: usize = self.config.buffer_size;
        let mut lane = Lane { queue: VecDeque::new(), bytes: 0 };
        std::mem::swap(&mut lane, &mut self.to_b);
        let held: bool = lane.enqueue(packet, release, buffer_size);
        self.to_b = lane;
        if held && self.idle {
            self.idle = false;
            Some(self.config.delay)
        } else {
            None
        }
    }

    /// Handles the expiry of the timer at `now`.
    ///
    /// In each direction the packets that are due leave, in the order in
    /// which they arrived. The timer is to be armed for the wait until the
    /// next packet is due, and for `DURATION_MAX` if there is none so soon;
    /// in that case the line is idle.
    pub fn timer_fired(&mut self, now: u64) -> (r: Released)
        ensures
            final(self)@ == (DelayState {
                to_b: old(self)@.to_b.skip(due(old(self)@.to_b, now) as int),
                to_c: old(self)@.to_c.skip(due(old(self)@.to_c, now) as int),
                idle: old(self)@.next_wait(now) == DURATION_MAX,
                ..old(self)@
            }),
            r.to_b.len() == due(old(self)@.to_b, now),
            r.to_c.len() == due(old(self)@.to_c, now),
            forall|i: int|
                0 <= i < r.to_b.len() ==> (#[trigger] r.to_b[i])@ == old(self)@.to_b[i].packet,
            forall|i: int|
                0 <= i < r.to_c.len() ==> (#[trigger] r.to_c[i])@ == old(self)@.to_c[i].packet,
            r.wait == old(self)@.next_wait(now),
    {
        proof {
            use_type_invariant(&*self);
        }
        let mut lane_b = Lane { queue: VecDeque::new(), bytes: 0 };
        std::mem::swap(&mut lane_b, &mut self.to_b);
        let (to_b, wait_b) = lane_b.release(now);
        let mut lane_c = Lane { queue: VecDeque::new(), bytes: 0 };
        std::mem::swap(&mut lane_c, &mut self.to_c);
        let (to_c, wait_c) = lane_c.release(now);
        let wait: u64 = if wait_b <= wait_c {
            wait_b
        } else {
            wait_c
        };
        self.to_b = lane_b;
        self.to_c = lane_c;
        self.idle = wait == DURATION_MAX;
        Released { to_b, to_c, wait }
    }
}

/// The packets that are due are at most those held, each of them is due,
/// and the first one that stays, if any, is not.
pub proof fn lemma_due(queue: Seq<Held>, now: u64)
    ensures
        due(queue, now) <= queue.len(),
        forall|i: int| 0 <= i < due(queue, now) ==> (#[trigger] queue[i]).release <= now,
        due(queue, now) < queue.len() ==> queue[due(queue, now) as int].release > now,
    decreases queue.len(),
{
    if queue.len() > 0 && queue[0].release <= now {
        let rest = queue.skip(1);
        lemma_due(rest, now);
        assert forall|i: int| 0 <= i < due(queue, now) implies (#[trigger] queue[i]).release
            <= now by {
            if i > 0 {
                assert(queue[i] == rest[i - 1]);
            }
        }
        if due(queue, now) < queue.len() {
            assert(queue[due(queue, now) as int] == rest[due(rest, now) as int]);
        }
    }
}

/// A delay line keeps the order of arrival and holds every packet for its
/// delay: of two packets that a direction takes up one after the other, the
/// second leaves only if the first leaves, and each leaves only when the
/// delay has passed since its arrival.
pub proof fn lemma_delayed_in_order(
    state: DelayState,
    queue: Seq<Held>,
    first: Seq<u8>,
    second: Seq<u8>,
    first_arrival: u64,
    second_arrival: u64,
    now: u64,
)
    requires
        first_arrival <= second_arrival,
        second_arrival + state.delay <= u64::MAX,
        state.has_room(queue, first),
        state.has_room(state.enqueue(queue, first, first_arrival), second),
    ensures
        ({
            let held = state.enqueue(state.enqueue(queue, first, first_arrival), second, second_arrival);
            let leaving = due(held, now);
            &&& held == queue.push(Held { packet: first, release: (first_arrival + state.delay) as u64 }).push(
                Held { packet: second, release: (second_arrival + state.delay) as u64 },
            )
            &&& leaving > queue.len() ==> now >= first_arrival + state.delay
            &&& leaving > queue.len() + 1 ==> now >= second_arrival + state.delay
        }),
{
    let held = state.enqueue(state.enqueue(queue, first, first_arrival), second, second_arrival);
    lemma_due(held, now);
    if due(held, now) > queue.len() {
        assert(held[queue.len() as int].release <= now);
    }
    if due(held, now) > queue.len() + 1 {
        assert(held[queue.len() as int + 1].release <= now);
    }
}

/// What happens to one direction of a delay line: a packet arrives for it,
/// or the timer fires.
pub enum LaneEvent {
    Arrival { packet: Seq<u8>, at: u64 },
    Timer { at: u64 },
}

/// A packet that left a delay line, and when it left.
pub struct Departure {
    pub held: Held,
    pub at: u64,
}

impl DelayState {
    /// What one direction holds after a run of events, if it held `queue`
    /// before: an arrival is taken up if there is room, and a timer lets go
    /// what is due.
    pub open spec fn lane_after(self, queue: Seq<Held>, events: Seq<LaneEvent>) -> Seq<Held>
        decreases events.len(),
    {
        if events.len() == 0 {
            queue
        } else {
            let before = self.lane_after(queue, events.drop_last());
            match events.last() {
                LaneEvent::Arrival { packet, at } => self.enqueue(before, packet, at),
                LaneEvent::Timer { at } => before.skip(due(before, at) as int),
            }
        }
    }

    /// The packets that one direction took up during a run of events, in
    /// the order of their arrival, each with the time from which it may
    /// leave: its arrival and the delay.
    pub open spec fn lane_taken(self, queue: Seq<Held>, events: Seq<LaneEvent>) -> Seq<Held>
        decreases events.len(),
    {
        if events.len() == 0 {
            Seq::empty()
        } else {
            let before = self.lane_after(queue, events.drop_last());
            let taken = self.lane_taken(queue, events.drop_last());
            match events.last() {
                LaneEvent::Arrival { packet, at } => if self.has_room(before, packet) {
                    taken.push(Held { packet, release: (at + self.delay) as u64 })
                } else {
                    taken
                },
                LaneEvent::Timer { at } => taken,
            }
        }
    }

    /// The packets that left one direction during a run of events, in the
    /// order in which they left, each with the time of the timer that let it
    /// go.
    pub open spec fn lane_left(self, queue: Seq<Held>, events: Seq<LaneEvent>) -> Seq<Departure>
        decreases events.len(),
    {
        if events.len() == 0 {
            Seq::empty()
        } else {
            let before = self.lane_after(queue, events.drop_last());
            let left = self.lane_left(queue, events.drop_last());
            match events.last() {
                LaneEvent::Arrival { packet, at } => left,
                LaneEvent::Timer { at } => left + before.subrange(
                    0,
                    due(before, at) as int,
                ).map_values(|held: Held| Departure { held, at }),
            }
        }
    }

    /// A delay line is first in, first out, loses nothing that it took up,
    /// lets nothing go twice, and lets nothing go early.
    ///
    /// Whatever the events: the packets that left, followed by those still
    /// held, are the packets held at first followed by those taken up, in
    /// this order and with their bytes. And each packet left at or after the
    /// time from which it may leave, which for a packet taken up is its
    /// arrival and the delay.
    pub proof fn lemma_lane(self, queue: Seq<Held>, events: Seq<LaneEvent>)
        ensures
            self.lane_left(queue, events).map_values(|d: Departure| d.held) + self.lane_after(
                queue,
                events,
            ) == queue + self.lane_taken(queue, events),
            forall|i: int|
                0 <= i < self.lane_left(queue, events).len() ==> (#[trigger] self.lane_left(
                    queue,
                    events,
                )[i]).held.release <= self.lane_left(queue, events)[i].at,
        decreases events.len(),
    {
        let left = self.lane_left(queue, events);
        let after = self.lane_after(queue, events);
        let taken = self.lane_taken(queue, events);
        if events.len() == 0 {
            assert(left.map_values(|d: Departure| d.held) + after =~= queue + taken);
        } else {
            let earlier = events.drop_last();
            self.lemma_lane(queue, earlier);
            let before = self.lane_after(queue, earlier);
            let left_before = self.lane_left(queue, earlier);
            let taken_before = self.lane_taken(queue, earlier);
            assert(left_before.map_values(|d: Departure| d.held) + before == queue + taken_before);
            match events.last() {
                LaneEvent::Arrival { packet, at } => {
                    if self.has_room(before, packet) {
                        let held = Held { packet, release: (at + self.delay) as u64 };
                        assert(left.map_values(|d: Departure| d.held) + after =~= (
                        left_before.map_values(|d: Departure| d.held) + before).push(held));
                        assert(queue + taken =~= (queue + taken_before).push(held));
                    }
                },
                LaneEvent::Timer { at } => {
                    lemma_due(before, at);
                    let n = due(before, at) as int;
                    let gone = before.subrange(0, n).map_values(|held: Held| Departure { held, at });
                    assert(gone.map_values(|d: Departure| d.held) =~= before.subrange(0, n));
                    assert(left.map_values(|d: Departure| d.held) =~= left_before.map_values(
                        |d: Departure| d.held,
                    ) + before.subrange(0, n));
                    assert(before.subrange(0, n) + before.skip(n) =~= before);
                    assert(left.map_values(|d: Departure| d.held) + after =~= left_before.map_values(
                        |d: Departure| d.held,
                    ) + before);
                    assert forall|i: int| 0 <= i < left.len() implies (#[trigger] left[i]).held.release
                        <= left[i].at by {
                        if i >= left_before.len() {
                            assert(left[i] == gone[i - left_before.len()]);
                            assert(gone[i - left_before.len()].held == before[i - left_before.len()]);
                        } else {
                            assert(left[i] == left_before[i]);
                        }
                    }
                },
            }
        }
    }
}

} // verus!
