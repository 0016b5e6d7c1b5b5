//! The wake signal: one bit per schedulable task.
//!
//! Bit `i` set means that task `i` has a wake request that no scheduling
//! pass has taken yet. Requests are only ever added one bit at a time and
//! taken all at once, so a request can be delayed but not lost.

use vstd::prelude::*;
use crate::bits::{bits_of, lemma_full_has_every_bit, lemma_set_bit, lemma_zero_has_no_bit};
use crate::bits::{lemma_bits_of_injective, lemma_nonzero_has_bit, MASK_WIDTH};

verus! {

/// Number of tasks that one wake signal can address.
pub const WAKE_WIDTH: u32 = MASK_WIDTH;

/// Every task index that a wake signal can address.
pub open spec fn all_tasks() -> Set<nat> {
    Set::new(|t: nat| t < WAKE_WIDTH)
}

/// The set of tasks with an outstanding wake request, kept as a bitmask.
#[derive(Debug)]
pub struct WakeSignal {
    bits: u32,
}

impl View for WakeSignal {
    type V = Set<nat>;

    /// The tasks with an outstanding wake request.
    open spec fn view(&self) -> Set<nat> {
        bits_of(self.bits())
    }
}

impl WakeSignal {
    /// The mask itself: bit `i` stands for task `i`.
    pub closed spec fn bits(&self) -> u32 {
        self.bits
    }

    /// A signal with no request outstanding.
    pub fn new() -> (signal: Self)
        ensures
            signal.bits() == 0,
            signal@ == Set::<nat>::empty(),
    {
        let signal = WakeSignal { bits: 0 };
        proof {
            lemma_no_task_in_zero();
        }
        signal
    }

    /// Requests a wake for every task, so that the first scheduling pass
    /// polls all of them.
    pub fn initialize(&mut self)
        ensures
            final(self).bits() == u32::MAX,
            final(self)@ == pending_after_op(old(self)@, WakeOp::Initialize),
    {
        self.bits = u32::MAX;
        proof {
            assert forall|t: nat| all_tasks().contains(t) implies self@.contains(t) by {
                lemma_full_has_every_bit(t as u32);
            }
        }
    }

    /// Requests a wake for task `index`. Requests of other tasks stay.
    pub fn mark(&mut self, index: u32)
        requires
            index < WAKE_WIDTH,
        ensures
            final(self).bits() == old(self).bits() | (1u32 << index),
            final(self)@ == pending_after_op(old(self)@, WakeOp::Mark(index)),
    {
        self.bits = self.bits | (1u32 << index);
        proof {
            assert forall|t: nat| self@.contains(t) == old(self)@.insert(index as nat).contains(
                t,
            ) by {
                if t < WAKE_WIDTH {
                    lemma_set_bit(old(self).bits, index, t as u32);
                }
            }
        }
    }

    /// Takes every outstanding request at once: returns the mask as it
    /// was and leaves the signal empty.
    pub fn drain(&mut self) -> (mask: u32)
        ensures
            mask == old(self).bits(),
            bits_of(mask) == old(self)@,
            final(self).bits() == 0,
            final(self)@ == pending_after_op(old(self)@, WakeOp::Drain),
    {
        let mask = self.bits;
        self.bits = 0;
        proof {
            lemma_no_task_in_zero();
        }
        mask
    }

    /// A signal holds requests only for tasks that it can address.
    pub proof fn lemma_within_width(&self)
        ensures
            self@.subset_of(all_tasks()),
    {
    }

    /// Whether no request is outstanding.
    pub fn is_idle(&self) -> (idle: bool)
        ensures
            idle == (self.bits() == 0),
            idle == (self@ == Set::<nat>::empty()),
    {
        proof {
            if self.bits == 0 {
                lemma_no_task_in_zero();
            } else {
                let j = lemma_nonzero_has_bit(self.bits);
                assert(self@.contains(j as nat));
            }
        }
        self.bits == 0
    }
}

/// A wake signal is determined by the tasks that it holds: the view
/// leaves nothing of the mask out.
pub proof fn lemma_signal_determined(a: WakeSignal, b: WakeSignal)
    requires
        a@ == b@,
    ensures
        a == b,
{
    lemma_bits_of_injective(a.bits, b.bits);
}

/// The empty mask stands for the empty set of tasks.
pub proof fn lemma_no_task_in_zero()
    ensures
        bits_of(0) == Set::<nat>::empty(),
{
    assert forall|t: nat| !bits_of(0).contains(t) by {
        lemma_zero_has_no_bit(t as u32);
    }
}

/// The token that a suspended task leaves behind so that a later event
/// can ask for it to be polled again. It names the task and nothing else.
#[derive(Clone, Copy, Debug, PartialEq, Eq)]
pub struct WakeHandle {
    task: u32,
}

impl WakeHandle {
    #[verifier::type_invariant]
    spec fn addressable(self) -> bool {
        self.task < WAKE_WIDTH
    }

    /// The handle of task `task`.
    pub closed spec fn of(task: u32) -> Self {
        WakeHandle { task }
    }

    /// The index of the task that this handle wakes.
    pub closed spec fn spec_task(self) -> u32 {
        self.task
    }

    /// The handle of a task wakes that task.
    pub proof fn lemma_of_task(task: u32)
        ensures
            Self::of(task).task() == task,
    {
    }

    /// A handle for task `task`.
    pub fn new(task: u32) -> (handle: Self)
        requires
            task < WAKE_WIDTH,
        ensures
            handle == Self::of(task),
            handle.task() == task,
    {
        WakeHandle { task }
    }

    /// The index of the task that this handle wakes.
    #[verifier::when_used_as_spec(spec_task)]
    pub fn task(self) -> (task: u32)
        ensures
            task == self.task(),
            task < WAKE_WIDTH,
    {
        proof {
            use_type_invariant(&self);
        }
        self.task
    }

    /// Requests a wake for the task of this handle.
    pub fn wake(self, signal: &mut WakeSignal)
        ensures
            final(signal).bits() == old(signal).bits() | (1u32 << self.task()),
            final(signal)@ == pending_after_op(old(signal)@, WakeOp::Mark(self.task())),
    {
        proof {
            use_type_invariant(&self);
        }
        signal.mark(self.task);
    }
}

/// One operation on a wake signal, as it appears in a history of calls.
pub enum WakeOp {
    /// A call of `initialize`.
    Initialize,
    /// A call of `mark` with this index.
    Mark(u32),
    /// A call of `drain`.
    Drain,
}

/// The outstanding requests after `op`, when `pending` were outstanding
/// before it. To initialize is to request every task, a mark adds the
/// request of its task, and a drain takes them all.
pub open spec fn pending_after_op(pending: Set<nat>, op: WakeOp) -> Set<nat> {
    match op {
        WakeOp::Initialize => all_tasks(),
        WakeOp::Mark(index) => pending.insert(index as nat),
        WakeOp::Drain => Set::empty(),
    }
}

/// The outstanding requests after the whole history `ops`, starting from
/// `start`.
pub open spec fn pending_after(start: Set<nat>, ops: Seq<WakeOp>) -> Set<nat>
    decreases ops.len(),
{
    if ops.len() == 0 {
        start
    } else {
        pending_after_op(pending_after(start, ops.drop_last()), ops.last())
    }
}

/// What the call at position `at` of the history finds outstanding, which
/// is what it returns if it is a drain.
pub open spec fn found_at(start: Set<nat>, ops: Seq<WakeOp>, at: int) -> Set<nat> {
    pending_after(start, ops.take(at))
}

/// No lost wake: in any history of calls, a request made by a mark is
/// returned by a drain, and by the time of any later drain it has been:
/// the first drain that follows the mark returns it.
pub proof fn lemma_no_lost_wake(
    start: Set<nat>,
    ops: Seq<WakeOp>,
    marked: int,
    drained: int,
    task: u32,
) -> (at: int)
    requires
        task < WAKE_WIDTH,
        0 <= marked < drained < ops.len(),
        ops[marked] == WakeOp::Mark(task),
        ops[drained] == WakeOp::Drain,
    ensures
        marked < at <= drained,
        ops[at] == WakeOp::Drain,
        forall|k: int| marked < k < at ==> ops[k] != WakeOp::Drain,
        found_at(start, ops, at).contains(task as nat),
{
    let at = lemma_first_drain(ops, marked + 1, drained);
    lemma_request_stays(start, ops, marked, at, task);
    at
}

/// The first drain at or after position `from`, given that there is one
/// at `drained`.
proof fn lemma_first_drain(ops: Seq<WakeOp>, from: int, drained: int) -> (at: int)
    requires
        0 <= from <= drained < ops.len(),
        ops[drained] == WakeOp::Drain,
    ensures
        from <= at <= drained,
        ops[at] == WakeOp::Drain,
        forall|k: int| from <= k < at ==> ops[k] != WakeOp::Drain,
    decreases drained - from,
{
    if ops[from] == WakeOp::Drain {
        from
    } else {
        lemma_first_drain(ops, from + 1, drained)
    }
}

/// A request stays outstanding for as long as no drain follows the mark.
pub proof fn lemma_request_stays(
    start: Set<nat>,
    ops: Seq<WakeOp>,
    marked: int,
    at: int,
    task: u32,
)
    requires
        task < WAKE_WIDTH,
        0 <= marked < at <= ops.len(),
        ops[marked] == WakeOp::Mark(task),
        forall|k: int| marked < k < at ==> ops[k] != WakeOp::Drain,
    ensures
        found_at(start, ops, at).contains(task as nat),
    decreases at - marked,
{
    assert(ops.take(at).drop_last() =~= ops.take(at - 1));
    if at - 1 > marked {
        lemma_request_stays(start, ops, marked, at - 1, task);
    }
}

/// Idempotent drain: a drain that follows another with no other call
/// between them finds nothing outstanding.
pub proof fn lemma_drain_twice(start: Set<nat>, ops: Seq<WakeOp>, first: int, second: int)
    requires
        0 <= first < second < ops.len(),
        forall|k: int| first <= k <= second ==> ops[k] == WakeOp::Drain,
    ensures
        found_at(start, ops, second) == Set::<nat>::empty(),
{
    assert(ops.take(second).last() == ops[second - 1]);
}

} // verus!
