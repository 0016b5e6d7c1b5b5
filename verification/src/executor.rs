//! The cooperative executor, as a machine that decides and leaves the
//! doing to its driver.
//!
//! The driver owns the tasks. It calls [`Executor::step`] forever, does
//! what the returned [`Action`] says, and reports what came of it in the
//! [`Event`] of the next call. A scheduling pass takes the wake signal at
//! once, then goes through the tasks in ascending order and has each
//! selected one polled; after each task it lets the processor sleep if no
//! wake request is outstanding.

use vstd::prelude::*;
use crate::bits::{bits_of, test_bit};
use crate::poll::PollState;
use crate::wake::{all_tasks, lemma_no_task_in_zero, WakeHandle, WakeSignal, WAKE_WIDTH};

verus! {

/// Where the executor stands in its loop.
#[derive(Clone, Copy, Debug, PartialEq, Eq)]
pub enum Stage {
    /// Nothing was done yet.
    Fresh,
    /// Between two tasks of a pass, or between two passes.
    Scanning,
    /// A task is being polled; its result is awaited.
    Polling,
    /// A task completed, or the driver broke the protocol. Nothing more
    /// will be scheduled.
    Halted,
}

/// What the driver reports to the executor.
#[derive(Clone, Copy, Debug, PartialEq, Eq)]
pub enum Event {
    /// The last action needed no answer, or this is the first call.
    Resumed,
    /// The poll that the last action asked for returned this.
    Polled(PollState),
}

/// What the executor asks of the driver.
#[derive(Clone, Copy, Debug, PartialEq, Eq)]
pub enum Action {
    /// Nothing; call again.
    Continue,
    /// Poll the task of this handle, passing it the handle.
    Poll(WakeHandle),
    /// Wait for an event in the low-power state, then synchronize the
    /// instruction stream.
    Sleep,
    /// Stop for good: the scheduling contract was violated.
    Halt,
}

/// The state of an executor.
pub struct ExecutorView {
    /// The number of tasks.
    pub tasks: nat,
    /// The tasks that the wake signal held when the current pass began.
    pub selected: Set<nat>,
    /// The next task that the current pass will look at; `tasks` when
    /// the pass is over.
    pub cursor: nat,
    /// The stage.
    pub stage: Stage,
}

/// The step taken once task `state.cursor` has been dealt with: the pass
/// moves on to the next task, and the processor may sleep if no wake
/// request is outstanding.
pub open spec fn after_task(state: ExecutorView, pending: Set<nat>) -> (
    ExecutorView,
    Set<nat>,
    Action,
) {
    (
        ExecutorView { cursor: state.cursor + 1, stage: Stage::Scanning, ..state },
        pending,
        if pending == Set::<nat>::empty() {
            Action::Sleep
        } else {
            Action::Continue
        },
    )
}

/// One step of the executor: from its state, the outstanding wake
/// requests and the event, to the next state, the requests left
/// outstanding and the action.
pub open spec fn next(state: ExecutorView, pending: Set<nat>, event: Event) -> (
    ExecutorView,
    Set<nat>,
    Action,
) {
    match (state.stage, event) {
        (Stage::Fresh, Event::Resumed) => (
            ExecutorView {
                selected: Set::empty(),
                cursor: state.tasks,
                stage: Stage::Scanning,
                ..state
            },
            all_tasks(),
            Action::Continue,
        ),
        (Stage::Scanning, Event::Resumed) => if state.cursor >= state.tasks {
            (ExecutorView { selected: pending, cursor: 0, ..state }, Set::empty(), Action::Continue)
        } else if state.selected.contains(state.cursor) {
            (
                ExecutorView { stage: Stage::Polling, ..state },
                pending,
                Action::Poll(WakeHandle::of(state.cursor as u32)),
            )
        } else {
            after_task(state, pending)
        },
        (Stage::Polling, Event::Polled(PollState::Pending)) => after_task(state, pending),
        _ => (ExecutorView { stage: Stage::Halted, ..state }, pending, Action::Halt),
    }
}

/// The scheduling state of a fixed number of tasks.
#[derive(Debug)]
pub struct Executor {
    tasks: u32,
    mask: u32,
    cursor: u32,
    stage: Stage,
}

impl View for Executor {
    type V = ExecutorView;

    closed spec fn view(&self) -> ExecutorView {
        ExecutorView {
            tasks: self.tasks as nat,
            selected: bits_of(self.mask),
            cursor: self.cursor as nat,
            stage: self.stage,
        }
    }
}

impl Executor {
    #[verifier::type_invariant]
    spec fn within_width(self) -> bool {
        &&& self.tasks <= WAKE_WIDTH
        &&& self.cursor <= self.tasks
        &&& self.stage == Stage::Polling ==> self.cursor < self.tasks
    }

    /// An executor for `tasks` tasks that has not started.
    pub fn new(tasks: u32) -> (executor: Self)
        requires
            tasks <= WAKE_WIDTH,
        ensures
            executor@ == (ExecutorView {
                tasks: tasks as nat,
                selected: Set::empty(),
                cursor: 0,
                stage: Stage::Fresh,
            }),
    {
        proof {
            lemma_no_task_in_zero();
        }
        Executor { tasks, mask: 0, cursor: 0, stage: Stage::Fresh }
    }

    /// The number of tasks.
    pub fn tasks(&self) -> (tasks: u32)
        ensures
            tasks == self@.tasks,
            tasks <= WAKE_WIDTH,
    {
        proof {
            use_type_invariant(self);
        }
        self.tasks
    }

    /// The next task that the current pass will look at.
    pub fn cursor(&self) -> (cursor: u32)
        ensures
            cursor == self@.cursor,
            cursor <= self@.tasks,
    {
        proof {
            use_type_invariant(self);
        }
        self.cursor
    }

    /// The stage.
    pub fn stage(&self) -> (stage: Stage)
        ensures
            stage == self@.stage,
    {
        self.stage
    }

    /// Takes one step: updates the executor and the wake signal and
    /// returns what the driver must do before the next call.
    pub fn step(&mut self, wake: &mut WakeSignal, event: Event) -> (action: Action)
        ensures
            (final(self)@, final(wake)@, action) == next(old(self)@, old(wake)@, event),
    {
        proof {
            use_type_invariant(&*self);
        }
        match (self.stage, event) {
            (Stage::Fresh, Event::Resumed) => {
                wake.initialize();
                proof {
                    lemma_no_task_in_zero();
                }
                *self = Executor {
                    tasks: self.tasks,
                    mask: 0,
                    cursor: self.tasks,
                    stage: Stage::Scanning,
                };
                Action::Continue
            },
            (Stage::Scanning, Event::Resumed) => {
                if self.cursor >= self.tasks {
                    let mask = wake.drain();
                    *self = Executor { tasks: self.tasks, mask, cursor: 0, stage: Stage::Scanning };
                    Action::Continue
                } else if test_bit(self.mask, self.cursor) {
                    self.stage = Stage::Polling;
                    Action::Poll(WakeHandle::new(self.cursor))
                } else {
                    self.finish_task(wake)
                }
            },
            (Stage::Polling, Event::Polled(PollState::Pending)) => self.finish_task(wake),
            _ => {
                self.stage = Stage::Halted;
                Action::Halt
            },
        }
    }

    /// Moves on from the task at the cursor and decides whether the
    /// processor may sleep.
    fn finish_task(&mut self, wake: &WakeSignal) -> (action: Action)
        requires
            old(self)@.cursor < old(self)@.tasks,
        ensures
            (final(self)@, wake@, action) == after_task(old(self)@, wake@),
    {
        proof {
            use_type_invariant(&*self);
        }
        *self = Executor {
            tasks: self.tasks,
            mask: self.mask,
            cursor: self.cursor + 1,
            stage: Stage::Scanning,
        };
        if wake.is_idle() {
            Action::Sleep
        } else {
            Action::Continue
        }
    }
}

/// What every step respects, whatever the state and the event: the
/// processor sleeps only when no wake request is outstanding; the task at
/// the cursor is polled exactly when the pass reaches it and it was
/// selected; a task that completes halts the executor, and a halted
/// executor stays halted; and no wake request is dropped: each is still
/// outstanding afterwards or selected for the pass.
pub proof fn lemma_step_respects(state: ExecutorView, pending: Set<nat>, event: Event)
    requires
        state.cursor <= state.tasks <= WAKE_WIDTH,
        pending.subset_of(all_tasks()),
    ensures
        ({
            let (after, left, action) = next(state, pending, event);
            &&& action == Action::Sleep ==> left == Set::<nat>::empty()
            &&& action is Poll <==> {
                &&& state.stage == Stage::Scanning
                &&& event == Event::Resumed
                &&& state.cursor < state.tasks
                &&& state.selected.contains(state.cursor)
            }
            &&& action matches Action::Poll(handle) ==> handle.task() == state.cursor
            &&& event == Event::Polled(PollState::Ready) ==> action == Action::Halt
            &&& state.stage == Stage::Halted ==> action == Action::Halt && after == state
            &&& after.tasks == state.tasks
            &&& pending.subset_of(left.union(after.selected))
        }),
{
    WakeHandle::lemma_of_task(state.cursor as u32);
}

/// What happens between two steps of the executor.
pub struct Turn {
    /// The tasks for which a wake was requested meanwhile.
    pub woken: Set<nat>,
    /// What the poll returned, if the last action asked for one.
    pub outcome: PollState,
}

/// The event by which a driver that keeps the protocol answers `action`.
pub open spec fn answer(action: Action, turn: Turn) -> Event {
    match action {
        Action::Poll(_) => Event::Polled(turn.outcome),
        _ => Event::Resumed,
    }
}

/// The state, the outstanding requests and the last action after a
/// driver that keeps the protocol has taken one step for each of `turns`.
pub open spec fn run(state: ExecutorView, pending: Set<nat>, turns: Seq<Turn>) -> (
    ExecutorView,
    Set<nat>,
    Action,
)
    decreases turns.len(),
{
    if turns.len() == 0 {
        (state, pending, Action::Continue)
    } else {
        let (before, left, action) = run(state, pending, turns.drop_last());
        next(before, left.union(turns.last().woken), answer(action, turns.last()))
    }
}

/// An executor whose tasks never complete never halts: from a fresh
/// executor, whatever wakes are requested and whenever, a driver that
/// keeps the protocol is never told to stop as long as every poll
/// reports that the task is pending.
pub proof fn lemma_runs_forever(tasks: nat, pending: Set<nat>, turns: Seq<Turn>)
    requires
        tasks <= WAKE_WIDTH,
        forall|k: int| 0 <= k < turns.len() ==> (#[trigger] turns[k]).outcome == PollState::Pending,
    ensures
        ({
            let start = ExecutorView {
                tasks,
                selected: Set::empty(),
                cursor: 0,
                stage: Stage::Fresh,
            };
            let (after, left, action) = run(start, pending, turns);
            &&& action != Action::Halt
            &&& after.stage != Stage::Halted
            &&& after.stage == Stage::Polling <==> action is Poll
            &&& after.tasks == tasks
            &&& after.cursor <= tasks
        }),
    decreases turns.len(),
{
    if turns.len() > 0 {
        lemma_runs_forever(tasks, pending, turns.drop_last());
        assert(turns.last() == turns[turns.len() - 1]);
    }
}

/// The tasks from `from` up to but not including `to` that are in
/// `selected`, in ascending order.
pub open spec fn selected_between(selected: Set<nat>, from: nat, to: nat) -> Seq<nat>
    decreases to,
{
    if to <= from {
        Seq::empty()
    } else if selected.contains((to - 1) as nat) {
        selected_between(selected, from, (to - 1) as nat).push((to - 1) as nat)
    } else {
        selected_between(selected, from, (to - 1) as nat)
    }
}

/// The tasks that the driver was asked to poll during a run, in the order
/// in which it was asked.
pub open spec fn polls(state: ExecutorView, pending: Set<nat>, turns: Seq<Turn>) -> Seq<nat>
    decreases turns.len(),
{
    if turns.len() == 0 {
        Seq::empty()
    } else {
        let earlier = polls(state, pending, turns.drop_last());
        match run(state, pending, turns).2 {
            Action::Poll(handle) => earlier.push(handle.task() as nat),
            _ => earlier,
        }
    }
}

/// Within a pass the executor has exactly the selected tasks polled, each
/// once and in ascending order: at any point of a run that begins between
/// two tasks and does not reach the next pass, the tasks polled so far
/// are the selected ones from where the run began up to the cursor, and
/// the one at the cursor if that is being polled. Wakes requested
/// meanwhile change nothing of this.
pub proof fn lemma_pass_polls_selected(state: ExecutorView, pending: Set<nat>, turns: Seq<Turn>)
    requires
        state.stage == Stage::Scanning,
        state.cursor <= state.tasks <= WAKE_WIDTH,
        forall|k: int| 0 <= k < turns.len() ==> (#[trigger] turns[k]).outcome == PollState::Pending,
        forall|k: int|
            0 <= k < turns.len() ==> run(state, pending, #[trigger] turns.take(k)).0.cursor
                < state.tasks,
    ensures
        ({
            let (after, left, action) = run(state, pending, turns);
            let polled = polls(state, pending, turns);
            &&& after.tasks == state.tasks
            &&& after.selected == state.selected
            &&& state.cursor <= after.cursor <= state.tasks
            &&& after.stage == Stage::Polling <==> action is Poll
            &&& after.stage == Stage::Scanning ==> polled == selected_between(
                state.selected,
                state.cursor,
                after.cursor,
            )
            &&& after.stage == Stage::Polling ==> after.cursor < state.tasks && polled
                == selected_between(state.selected, state.cursor, after.cursor + 1)
            &&& after.stage == Stage::Scanning || after.stage == Stage::Polling
        }),
    decreases turns.len(),
{
    if turns.len() > 0 {
        let earlier = turns.drop_last();
        assert(earlier =~= turns.take(turns.len() - 1));
        assert forall|k: int| 0 <= k < earlier.len() implies run(
            state,
            pending,
            #[trigger] earlier.take(k),
        ).0.cursor < state.tasks by {
            assert(earlier.take(k) =~= turns.take(k));
        }
        lemma_pass_polls_selected(state, pending, earlier);
        let (before, left, action) = run(state, pending, earlier);
        assert(turns.last() == turns[turns.len() - 1]);
        WakeHandle::lemma_of_task(before.cursor as u32);
    }
}

} // verus!
