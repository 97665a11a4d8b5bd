//! What a simulated machine decides: how control requests are applied to
//! its interface, which packets it passes on, which lines of its child are
//! events, how it winds down, and how its handle receives events
//! selectively.
//!
//! The machine itself runs a child process in a network namespace of its
//! own; that is up to the embedding runtime. Here are the decisions that it
//! takes between reading and writing.

use crate::packet::{classify, protocol_of, with_checksums, Packet};
use crate::range::Ipv4Range;
use crate::route::Ipv4Route;
use crate::text::{
    all_ascii, ascii_chars, ascii_string, decimal, lemma_ascii_chars_concat, lemma_ascii_text,
    lemma_decimal_ascii, push_ascii, push_decimal, push_signed_decimal, signed_decimal,
};
use std::collections::VecDeque;
use vstd::prelude::*;
use vstd::string::*;

verus! {

/// The most bytes that are read from the interface at once: the length of
/// an Ethernet frame.
pub const ETH_FRAME_LEN: usize = 1514;

/// How long a machine waits for the output of its killed child, in
/// seconds.
pub const DRAIN_SECONDS: u64 = 3;

/// The number of a machine.
#[derive(PartialEq, Eq, Structural, Clone, Copy, PartialOrd, Ord, Debug, Hash)]
pub struct MachineId(pub usize);

impl MachineId {
    /// The name of the machine: `Machine-#` and its number.
    pub fn to_string(&self) -> (r: String)
        ensures
            r@ == "Machine-#"@ + ascii_chars(decimal(self.0 as nat)),
    {
        let mut out: Vec<u8> = Vec::new();
        proof {
            reveal_strlit("Machine-#");
            lemma_ascii_text("Machine-#");
            lemma_decimal_ascii(self.0 as nat);
            lemma_ascii_chars_concat("Machine-#".spec_bytes(), decimal(self.0 as nat));
        }
        push_ascii(&mut out, "Machine-#");
        push_decimal(&mut out, self.0 as u64);
        assert(out@ =~= "Machine-#".spec_bytes() + decimal(self.0 as nat));
        ascii_string(out)
    }
}

/// A network namespace, named by the process and the thread that made it.
#[derive(PartialEq, Eq, Structural, Clone, Copy, Debug, Hash)]
pub struct Namespace {
    pub pid: i32,
    pub tid: i64,
}

impl Namespace {
    /// The namespace of the given thread of the given process.
    pub fn new(pid: i32, tid: i64) -> (r: Self)
        ensures
            r == (Namespace { pid, tid }),
    {
        Namespace { pid, tid }
    }

    /// The path of the namespace: `/proc/<pid>/task/<tid>/ns/net`.
    pub fn to_string(&self) -> (r: String)
        ensures
            r@ == "/proc/"@ + ascii_chars(signed_decimal(self.pid as int)) + "/task/"@
                + ascii_chars(signed_decimal(self.tid as int)) + "/ns/net"@,
    {
        let mut out: Vec<u8> = Vec::new();
        let ghost pid = signed_decimal(self.pid as int);
        let ghost tid = signed_decimal(self.tid as int);
        proof {
            reveal_strlit("/proc/");
            reveal_strlit("/task/");
            reveal_strlit("/ns/net");
            lemma_ascii_text("/proc/");
            lemma_ascii_text("/task/");
            lemma_ascii_text("/ns/net");
            lemma_signed_decimal_ascii(self.pid as int);
            lemma_signed_decimal_ascii(self.tid as int);
            let a = "/proc/".spec_bytes();
            let b = "/task/".spec_bytes();
            let c = "/ns/net".spec_bytes();
            lemma_ascii_chars_concat(a, pid);
            lemma_ascii_chars_concat(a + pid, b);
            lemma_ascii_chars_concat(a + pid + b, tid);
            lemma_ascii_chars_concat(a + pid + b + tid, c);
        }
        push_ascii(&mut out, "/proc/");
        push_signed_decimal(&mut out, self.pid as i64);
        push_ascii(&mut out, "/task/");
        push_signed_decimal(&mut out, self.tid);
        push_ascii(&mut out, "/ns/net");
        assert(out@ =~= "/proc/".spec_bytes() + pid + "/task/".spec_bytes() + tid
            + "/ns/net".spec_bytes());
        ascii_string(out)
    }
}

/// The line that maps the user or group `id` to id 0 in a new user
/// namespace: `0 <id> 1` and a line feed.
pub fn id_map_line(id: u32) -> (r: String)
    ensures
        r@ == "0 "@ + ascii_chars(decimal(id as nat)) + " 1\n"@,
{
    let mut out: Vec<u8> = Vec::new();
    proof {
        reveal_strlit("0 ");
        reveal_strlit(" 1\n");
        lemma_ascii_text("0 ");
        lemma_ascii_text(" 1\n");
        lemma_decimal_ascii(id as nat);
        lemma_ascii_chars_concat("0 ".spec_bytes(), decimal(id as nat));
        lemma_ascii_chars_concat("0 ".spec_bytes() + decimal(id as nat), " 1\n".spec_bytes());
    }
    push_ascii(&mut out, "0 ");
    push_decimal(&mut out, id as u64);
    push_ascii(&mut out, " 1\n");
    assert(out@ =~= "0 ".spec_bytes() + decimal(id as nat) + " 1\n".spec_bytes());
    ascii_string(out)
}

proof fn lemma_signed_decimal_ascii(n: int)
    ensures
        all_ascii(signed_decimal(n)),
{
    if n < 0 {
        lemma_decimal_ascii((-n) as nat);
        lemma_ascii_chars_concat(seq![45u8], decimal((-n) as nat));
    } else {
        lemma_decimal_ascii(n as nat);
    }
}

/// A request to the interface of a machine.
#[derive(PartialEq, Eq, Structural, Clone, Copy, Debug)]
pub enum IfaceCtrl {
    /// Bring the interface up.
    Up,
    /// Bring the interface down.
    Down,
    /// Give the interface an address and a prefix length.
    SetAddr(u32, u8),
    /// Stop the machine.
    Exit,
}

/// One step on the interface of a machine.
#[derive(Clone, Copy, Debug)]
pub enum IfaceAction {
    /// Bring the interface up.
    PutUp,
    /// Bring the interface down.
    PutDown,
    /// Set the address and the prefix length.
    SetAddr(u32, u8),
    /// Add a route.
    AddRoute(Ipv4Route),
    /// Tell the one who asked that the address is set.
    Acknowledge,
}

/// What a control request asks for, as plain values.
pub enum PlannedAction {
    PutUp,
    PutDown,
    SetAddr(u32, u8),
    AddRoute(Ipv4Range, Option<u32>),
    Acknowledge,
}

impl View for IfaceAction {
    type V = PlannedAction;

    open spec fn view(&self) -> PlannedAction {
        match self {
            IfaceAction::PutUp => PlannedAction::PutUp,
            IfaceAction::PutDown => PlannedAction::PutDown,
            IfaceAction::SetAddr(addr, mask) => PlannedAction::SetAddr(*addr, *mask),
            IfaceAction::AddRoute(route) => PlannedAction::AddRoute(
                route.spec_dest(),
                route.spec_gateway(),
            ),
            IfaceAction::Acknowledge => PlannedAction::Acknowledge,
        }
    }
}

/// The steps that a control request stands for.
///
/// Setting the address also brings the interface up and adds a route to all
/// addresses, 0.0.0.0/0 without a gateway, before it is acknowledged.
pub open spec fn planned(ctrl: IfaceCtrl) -> Seq<PlannedAction> {
    match ctrl {
        IfaceCtrl::Up => seq![PlannedAction::PutUp],
        IfaceCtrl::Down => seq![PlannedAction::PutDown],
        IfaceCtrl::SetAddr(addr, mask) => seq![
            PlannedAction::SetAddr(addr, mask),
            PlannedAction::PutUp,
            PlannedAction::AddRoute(Ipv4Range::of(0, 0), None),
            PlannedAction::Acknowledge,
        ],
        IfaceCtrl::Exit => Seq::empty(),
    }
}

/// The steps to take for a control request, and whether the machine goes on
/// after them: it stops on `Exit`.
pub fn control_plan(ctrl: IfaceCtrl) -> (r: (Vec<IfaceAction>, bool))
    ensures
        r.1 == (ctrl != IfaceCtrl::Exit),
        r.0@.map_values(|a: IfaceAction| a@) == planned(ctrl),
{
    let mut actions: Vec<IfaceAction> = Vec::new();
    let whole = Ipv4Range::global();
    let go_on: bool = match ctrl {
        IfaceCtrl::Up => {
            actions.push(IfaceAction::PutUp);
            true
        },
        IfaceCtrl::Down => {
            actions.push(IfaceAction::PutDown);
            true
        },
        IfaceCtrl::SetAddr(addr, mask) => {
            actions.push(IfaceAction::SetAddr(addr, mask));
            actions.push(IfaceAction::PutUp);
            actions.push(IfaceAction::AddRoute(Ipv4Route::from_range(whole)));
            actions.push(IfaceAction::Acknowledge);
            true
        },
        IfaceCtrl::Exit => false,
    };
    assert(actions@.map_values(|a: IfaceAction| a@) =~= planned(ctrl));
    (actions, go_on)
}

/// What the reader of a machine does with what it read from the interface.
#[derive(Debug)]
pub enum ReaderStep {
    /// The interface is closed: the reader ends.
    Stop,
    /// Not an IPv4 packet: nothing is passed on.
    Skip,
    /// The packet to pass on to the link.
    Forward(Vec<u8>),
}

/// What the reader of a machine does, as plain values.
pub enum ReaderOutcome {
    Stop,
    Skip,
    Forward(Seq<u8>),
}

impl View for ReaderStep {
    type V = ReaderOutcome;

    open spec fn view(&self) -> ReaderOutcome {
        match self {
            ReaderStep::Stop => ReaderOutcome::Stop,
            ReaderStep::Skip => ReaderOutcome::Skip,
            ReaderStep::Forward(bytes) => ReaderOutcome::Forward(bytes@),
        }
    }
}

/// What becomes of `n` bytes read into `buf`.
///
/// Nothing read means that the interface is closed. A packet whose version
/// is not 4 is passed over. Any other packet is passed on, with both
/// checksums recomputed if it carries UDP or TCP.
pub open spec fn reader_outcome(buf: Seq<u8>, n: int) -> ReaderOutcome {
    if n == 0 {
        ReaderOutcome::Stop
    } else if buf[0] / 16 != 4 {
        ReaderOutcome::Skip
    } else {
        let bytes = buf.subrange(0, n);
        ReaderOutcome::Forward(
            if protocol_of(bytes) is Some {
                with_checksums(bytes)
            } else {
                bytes
            },
        )
    }
}

/// Decides what the reader does with the `n` bytes that it read into
/// `buf`.
pub fn reader_step(buf: &[u8], n: usize) -> (r: ReaderStep)
    requires
        n <= buf@.len(),
    ensures
        r@ == reader_outcome(buf@, n as int),
{
    if n == 0 {
        return ReaderStep::Stop;
    }
    if buf[0] / 16 != 4 {
        return ReaderStep::Skip;
    }
    let mut bytes: Vec<u8> = Vec::with_capacity(n);
    let mut i: usize = 0;
    while i < n
        invariant
            i <= n,
            n <= buf@.len(),
            bytes@ == buf@.subrange(0, i as int),
        decreases n - i,
    {
        bytes.push(buf[i]);
        assert(bytes@ =~= buf@.subrange(0, i + 1));
        i += 1;
    }
    match classify(bytes.as_slice()) {
        Some(protocol) => {
            let mut packet = Packet::with_protocol(bytes, protocol);
            packet.set_checksum();
            ReaderStep::Forward(packet.into_bytes())
        },
        None => ReaderStep::Forward(bytes),
    }
}

/// Whether the writer of a machine goes on after a write to the interface:
/// it ends when nothing could be written, and passes over a failed write,
/// which happens while the interface is down.
pub fn writer_continues(written: Option<usize>) -> (r: bool)
    ensures
        r == (written != Some(0usize)),
{
    match written {
        Some(n) => n != 0,
        None => true,
    }
}

/// Whether a line that the child wrote is an event: it is if it begins with
/// `<`. Any other line is output to be passed on.
pub fn is_event_line(line: &str) -> (r: bool)
    ensures
        r == (line@.len() > 0 && line@[0] == '<'),
{
    line.unicode_len() > 0 && line.get_char(0) == '<'
}

/// What polling a task of a machine gave.
#[derive(PartialEq, Eq, Structural, Clone, Copy, Debug)]
pub enum TaskPoll {
    /// The task is not done.
    Pending,
    /// The task ended.
    Done,
    /// The task failed.
    Failed,
}

/// What a machine does while it waits for the output of its killed child.
#[derive(PartialEq, Eq, Structural, Clone, Copy, Debug)]
pub enum DrainStep {
    /// The wait is over: the machine ends with a time-out.
    TimedOut,
    /// Both outputs are read to their end: the machine ends.
    Finished,
    /// Reading the events failed: the machine ends with that failure.
    EventFailed,
    /// Reading the error output failed: the machine ends with that
    /// failure.
    StderrFailed,
    /// The machine waits on; the flags say which outputs are still read.
    Wait { event: bool, stderr: bool },
}

/// How the wait for the output of the child goes on.
///
/// `event` and `stderr` are what polling the two readers gave, and `None`
/// for a reader that ended before. After the dead-line the machine times
/// out. A failure ends the wait, that of the event reader first. The wait
/// is over when no reader is left.
pub open spec fn drain_outcome(
    expired: bool,
    event: Option<TaskPoll>,
    stderr: Option<TaskPoll>,
) -> DrainStep {
    if expired {
        DrainStep::TimedOut
    } else if event == Some(TaskPoll::Failed) {
        DrainStep::EventFailed
    } else if stderr == Some(TaskPoll::Failed) {
        DrainStep::StderrFailed
    } else if event != Some(TaskPoll::Pending) && stderr != Some(TaskPoll::Pending) {
        DrainStep::Finished
    } else {
        DrainStep::Wait {
            event: event == Some(TaskPoll::Pending),
            stderr: stderr == Some(TaskPoll::Pending),
        }
    }
}

/// Decides how the wait for the output of the child goes on.
pub fn drain_step(expired: bool, event: Option<TaskPoll>, stderr: Option<TaskPoll>) -> (r:
    DrainStep)
    ensures
        r == drain_outcome(expired, event, stderr),
{
    if expired {
        return DrainStep::TimedOut;
    }
    match (event, stderr) {
        (None, None) => DrainStep::Finished,
        (None, Some(err)) => match err {
            TaskPoll::Pending => DrainStep::Wait { event: false, stderr: true },
            TaskPoll::Done => DrainStep::Finished,
            TaskPoll::Failed => DrainStep::StderrFailed,
        },
        (Some(ev), None) => match ev {
            TaskPoll::Pending => DrainStep::Wait { event: true, stderr: false },
            TaskPoll::Done => DrainStep::Finished,
            TaskPoll::Failed => DrainStep::EventFailed,
        },
        (Some(ev), Some(err)) => match (ev, err) {
            (TaskPoll::Failed, _) => DrainStep::EventFailed,
            (_, TaskPoll::Failed) => DrainStep::StderrFailed,
            (TaskPoll::Done, TaskPoll::Done) => DrainStep::Finished,
            (TaskPoll::Done, _) => DrainStep::Wait { event: false, stderr: true },
            (_, TaskPoll::Done) => DrainStep::Wait { event: true, stderr: false },
            _ => DrainStep::Wait { event: true, stderr: true },
        },
    }
}

/// The events of `events` that are marked `want` in `marks`, in order.
pub open spec fn marked<E>(events: Seq<E>, marks: Seq<bool>, want: bool) -> Seq<E>
    decreases events.len(),
{
    if events.len() == 0 {
        Seq::empty()
    } else if marks.len() > 0 && marks.last() == want {
        marked(events.drop_last(), marks.drop_last(), want).push(events.last())
    } else {
        marked(events.drop_last(), marks.drop_last(), want)
    }
}

/// The handle of a machine: its number, its address, its namespace, and
/// the events that were received and not yet taken, in order of arrival.
pub struct Machine<E> {
    id: MachineId,
    addr: u32,
    mask: u8,
    ns: Namespace,
    buffer: VecDeque<E>,
}

/// The handle of a machine, as plain values.
pub struct MachineState<E> {
    pub id: MachineId,
    pub addr: u32,
    pub mask: u8,
    pub ns: Namespace,
    pub buffer: Seq<E>,
}

impl<E> View for Machine<E> {
    type V = MachineState<E>;

    closed spec fn view(&self) -> MachineState<E> {
        MachineState {
            id: self.id,
            addr: self.addr,
            mask: self.mask,
            ns: self.ns,
            buffer: self.buffer@,
        }
    }
}

impl<E> Machine<E> {
    /// The handle of a new machine: without an address, 0.0.0.0/32, and
    /// without events.
    pub fn new(id: MachineId, ns: Namespace) -> (r: Self)
        ensures
            r@ == (MachineState { id, addr: 0, mask: 32, ns, buffer: Seq::<E>::empty() }),
    {
        Machine { id, addr: 0, mask: 32, ns, buffer: VecDeque::new() }
    }

    /// The number of the machine.
    pub fn id(&self) -> (r: MachineId)
        ensures
            r == self@.id,
    {
        self.id
    }

    /// The address of the machine.
    pub fn addr(&self) -> (r: u32)
        ensures
            r == self@.addr,
    {
        self.addr
    }

    /// The prefix length of the network of the machine.
    pub fn mask(&self) -> (r: u8)
        ensures
            r == self@.mask,
    {
        self.mask
    }

    /// The namespace that the machine runs in.
    pub fn namespace(&self) -> (r: Namespace)
        ensures
            r == self@.ns,
    {
        self.ns
    }

    /// How many events are buffered.
    pub fn buffered(&self) -> (r: usize)
        ensures
            r == self@.buffer.len(),
    {
        self.buffer.len()
    }

    /// Records the address that the interface of the machine was given.
    pub fn set_addr(&mut self, addr: u32, mask: u8)
        ensures
            final(self)@ == (MachineState { addr, mask, ..old(self)@ }),
    {
        self.addr = addr;
        self.mask = mask;
    }

    /// Takes the oldest buffered event, if there is one. Without one the
    /// next event is the next that arrives.
    pub fn recv(&mut self) -> (r: Option<E>)
        ensures
            old(self)@.buffer.len() == 0 ==> r is None && final(self)@ == old(self)@,
            old(self)@.buffer.len() > 0 ==> r == Some(old(self)@.buffer[0]) && final(self)@ == (
            MachineState { buffer: old(self)@.buffer.skip(1), ..old(self)@ }),
    {
        let r = self.buffer.pop_front();
        proof {
            if old(self)@.buffer.len() > 0 {
                assert(self@.buffer =~= old(self)@.buffer.skip(1));
            } else {
                assert(self@.buffer =~= old(self)@.buffer);
            }
        }
        r
    }

    /// Takes the first buffered event that `f` yields a result for, and
    /// returns that result. The other events stay, in their order. Without
    /// such an event nothing changes.
    pub fn select<T, F: Fn(&E) -> Option<T>>(&mut self, f: &F) -> (r: Option<T>)
        requires
            forall|e: &E| f.requires((e,)),
        ensures
            match r {
                Some(t) => exists|i: int|
                    {
                        &&& 0 <= i < old(self)@.buffer.len()
                        &&& #[trigger] f.ensures((&old(self)@.buffer[i],), Some(t))
                        &&& forall|j: int|
                            0 <= j < i ==> #[trigger] f.ensures(
                                (&old(self)@.buffer[j],),
                                None::<T>,
                            )
                        &&& final(self)@ == (MachineState {
                            buffer: old(self)@.buffer.remove(i),
                            ..old(self)@
                        })
                    },
                None => {
                    &&& final(self)@ == old(self)@
                    &&& forall|j: int|
                        0 <= j < old(self)@.buffer.len() ==> #[trigger] f.ensures(
                            (&old(self)@.buffer[j],),
                            None::<T>,
                        )
                },
            },
    {
        let mut i: usize = 0;
        while i < self.buffer.len()
            invariant
                i <= self.buffer.len(),
                *self == *old(self),
                forall|e: &E| f.requires((e,)),
                forall|j: int|
                    0 <= j < i ==> #[trigger] f.ensures((&old(self)@.buffer[j],), None::<T>),
            decreases self.buffer.len() - i,
        {
            match f(&self.buffer[i]) {
                Some(t) => {
                    let _ = self.buffer.remove(i);
                    assert(self@.buffer =~= old(self)@.buffer.remove(i as int));
                    assert(f.ensures((&old(self)@.buffer[i as int],), Some(t)));
                    return Some(t);
                },
                None => {},
            }
            i += 1;
        }
        None
    }

    /// Takes an event that just arrived while selecting: returns what `f`
    /// yields for it, or buffers it behind the others if `f` yields
    /// nothing.
    pub fn select_arrived<T, F: Fn(&E) -> Option<T>>(&mut self, event: E, f: &F) -> (r: Option<
        T,
    >)
        requires
            f.requires((&event,)),
        ensures
            f.ensures((&event,), r),
            r is Some ==> final(self)@ == old(self)@,
            r is None ==> final(self)@ == (MachineState {
                buffer: old(self)@.buffer.push(event),
                ..old(self)@
            }),
    {
        match f(&event) {
            Some(t) => Some(t),
            None => {
                self.buffer.push_back(event);
                None
            },
        }
    }

    /// Hands the buffered events to `f`, oldest first, until `f` yields a
    /// result, and returns that result. The events handed over are gone; the
    /// ones behind them stay.
    pub fn select_draining<T, F: Fn(E) -> Option<T>>(&mut self, f: &F) -> (r: Option<T>)
        requires
            forall|e: E| f.requires((e,)),
        ensures
            match r {
                Some(t) => exists|i: int|
                    {
                        &&& 0 <= i < old(self)@.buffer.len()
                        &&& #[trigger] f.ensures((old(self)@.buffer[i],), Some(t))
                        &&& forall|j: int|
                            0 <= j < i ==> #[trigger] f.ensures(
                                (old(self)@.buffer[j],),
                                None::<T>,
                            )
                        &&& final(self)@ == (MachineState {
                            buffer: old(self)@.buffer.skip(i + 1),
                            ..old(self)@
                        })
                    },
                None => {
                    &&& final(self)@ == (MachineState {
                        buffer: Seq::<E>::empty(),
                        ..old(self)@
                    })
                    &&& forall|j: int|
                        0 <= j < old(self)@.buffer.len() ==> #[trigger] f.ensures(
                            (old(self)@.buffer[j],),
                            None::<T>,
                        )
                },
            },
    {
        let ghost mut taken: int = 0;
        proof {
            assert(self@.buffer =~= old(self)@.buffer.skip(0));
        }
        while self.buffer.len() > 0
            invariant
                0 <= taken <= old(self)@.buffer.len(),
                self@ == (MachineState { buffer: old(self)@.buffer.skip(taken), ..old(self)@ }),
                forall|e: E| f.requires((e,)),
                forall|j: int|
                    0 <= j < taken ==> #[trigger] f.ensures((old(self)@.buffer[j],), None::<T>),
            decreases self.buffer.len(),
        {
            let event = self.buffer.pop_front().unwrap();
            proof {
                assert(event == old(self)@.buffer[taken]);
                assert(self@.buffer =~= old(self)@.buffer.skip(taken + 1));
            }
            match f(event) {
                Some(t) => {
                    assert(f.ensures((old(self)@.buffer[taken],), Some(t)));
                    return Some(t);
                },
                None => {},
            }
            proof {
                taken = taken + 1;
            }
        }
        assert(self@.buffer =~= Seq::<E>::empty());
        None
    }

    /// Takes all buffered events, oldest first.
    pub fn drain(&mut self) -> (r: Vec<E>)
        ensures
            r@ == old(self)@.buffer,
            final(self)@ == (MachineState { buffer: Seq::<E>::empty(), ..old(self)@ }),
    {
        let mut r: Vec<E> = Vec::new();
        proof {
            assert(self@.buffer =~= old(self)@.buffer.skip(0));
        }
        while self.buffer.len() > 0
            invariant
                r.len() <= old(self)@.buffer.len(),
                r@ == old(self)@.buffer.subrange(0, r.len() as int),
                self@ == (MachineState {
                    buffer: old(self)@.buffer.skip(r.len() as int),
                    ..old(self)@
                }),
            decreases self.buffer.len(),
        {
            let event = self.buffer.pop_front().unwrap();
            r.push(event);
            proof {
                assert(self@.buffer =~= old(self)@.buffer.skip(r.len() as int));
                assert(r@ =~= old(self)@.buffer.subrange(0, r.len() as int));
            }
        }
        assert(self@.buffer =~= Seq::<E>::empty());
        assert(r@ =~= old(self)@.buffer);
        r
    }

    /// Takes the buffered events that `f` holds of, in their order; the
    /// others stay, in theirs.
    pub fn drain_matching<F: Fn(&E) -> bool>(&mut self, f: &F) -> (r: Vec<E>)
        requires
            forall|e: &E| f.requires((e,)),
        ensures
            exists|marks: Seq<bool>|
                {
                    &&& marks.len() == old(self)@.buffer.len()
                    &&& forall|j: int|
                        0 <= j < marks.len() ==> #[trigger] f.ensures(
                            (&old(self)@.buffer[j],),
                            marks[j],
                        )
                    &&& r@ == #[trigger] marked(old(self)@.buffer, marks, true)
                    &&& final(self)@ == (MachineState {
                        buffer: marked(old(self)@.buffer, marks, false),
                        ..old(self)@
                    })
                },
    {
        let mut r: Vec<E> = Vec::new();
        let mut rest: VecDeque<E> = VecDeque::new();
        let ghost all = self@.buffer;
        let ghost mut marks: Seq<bool> = Seq::empty();
        proof {
            assert(self@.buffer =~= all.skip(0));
            assert(all.subrange(0, 0) =~= Seq::<E>::empty());
        }
        while self.buffer.len() > 0
            invariant
                all == old(self)@.buffer,
                marks.len() <= all.len(),
                self@ == (MachineState { buffer: all.skip(marks.len() as int), ..old(self)@ }),
                forall|e: &E| f.requires((e,)),
                forall|j: int| 0 <= j < marks.len() ==> #[trigger] f.ensures((&all[j],), marks[j]),
                r@ == marked(all.subrange(0, marks.len() as int), marks, true),
                rest@ == marked(all.subrange(0, marks.len() as int), marks, false),
            decreases self.buffer.len(),
        {
            let event = self.buffer.pop_front().unwrap();
            let ghost n = marks.len() as int;
            let keep: bool = f(&event);
            proof {
                assert(event == all[n]);
                assert(self@.buffer =~= all.skip(n + 1));
                assert(all.subrange(0, n + 1).drop_last() =~= all.subrange(0, n));
                assert(marks.push(keep).drop_last() =~= marks);
                marks = marks.push(keep);
            }
            if keep {
                r.push(event);
            } else {
                rest.push_back(event);
            }
        }
        proof {
            assert(all.subrange(0, marks.len() as int) =~= all);
        }
        self.buffer = rest;
        r
    }
}

} // verus!
