//! The interrupt-future bridge: a table of interrupt waits of fixed
//! capacity, the single-use future bound to one of its positions, and the
//! part of the interrupt handler that resolves the waits.

use vstd::prelude::*;
use crate::exti::{irqn_from_exti_line, line_irqn, Line};
use crate::poll::PollState;
use crate::wake::{WakeHandle, WakeSignal};

verus! {

/// Capacity of the interrupt table of a program: the largest number of
/// interrupt waits that may be outstanding at once.
pub const IRQ_SLOTS: usize = 32;

/// One outstanding wait for an interrupt.
#[derive(Clone, Copy, Debug, PartialEq, Eq)]
pub struct IRQState {
    /// The interrupt number waited for; fixed when the wait is reserved.
    pub number: i16,
    /// Whether the interrupt has fired since the wait was reserved.
    pub pending: bool,
    /// The handle left by the last poll that had to suspend, until the
    /// interrupt handler uses it.
    pub waker: Option<WakeHandle>,
}

impl IRQState {
    /// The state of a wait for `irqn` that was just reserved.
    pub open spec fn fresh(irqn: i16) -> Self {
        IRQState { number: irqn, pending: false, waker: None }
    }

    /// A wait for `irqn` on which the interrupt has not fired and no poll
    /// has suspended.
    pub fn new(irqn: i16) -> (state: Self)
        ensures
            state == Self::fresh(irqn),
    {
        Self { number: irqn, pending: false, waker: None }
    }
}

/// The ways in which the bridge refuses a call.
#[derive(Clone, Copy, Debug, PartialEq, Eq)]
pub enum IRQError {
    /// Every position of the table holds a wait.
    TableFull,
    /// The future refers to a position that holds no wait.
    StaleHandle,
}

/// The contents of an interrupt table: for each position the wait that it
/// holds, if any.
pub type Slots = Seq<Option<IRQState>>;

/// The wait at position `pos`, if that is a position and holds one.
pub open spec fn slot_at(slots: Slots, pos: int) -> Option<IRQState> {
    if 0 <= pos < slots.len() {
        slots[pos]
    } else {
        None
    }
}

/// Whether every position holds a wait.
pub open spec fn is_full(slots: Slots) -> bool {
    forall|i: int| 0 <= i < slots.len() ==> (#[trigger] slots[i]) is Some
}

/// Whether `pos` is the first position that holds no wait.
pub open spec fn is_first_free(slots: Slots, pos: int) -> bool {
    &&& 0 <= pos < slots.len()
    &&& slots[pos] is None
    &&& forall|i: int| 0 <= i < pos ==> (#[trigger] slots[i]) is Some
}

/// The number of positions that hold a wait.
pub open spec fn count_reserved(slots: Slots) -> nat
    decreases slots.len(),
{
    if slots.len() == 0 {
        0
    } else {
        count_reserved(slots.drop_last()) + if slots.last() is Some {
            1nat
        } else {
            0nat
        }
    }
}

/// The table after a wait for `irqn` was put at position `pos`.
pub open spec fn reserved_at(slots: Slots, pos: int, irqn: i16) -> Slots {
    slots.update(pos, Some(IRQState::fresh(irqn)))
}

/// The table after the future at position `pos` was dropped.
pub open spec fn released(slots: Slots, pos: int) -> Slots {
    if 0 <= pos < slots.len() {
        slots.update(pos, None)
    } else {
        slots
    }
}

/// What a poll of the future at position `pos` reports.
pub open spec fn poll_result(slots: Slots, pos: int) -> Result<PollState, IRQError> {
    match slot_at(slots, pos) {
        None => Err(IRQError::StaleHandle),
        Some(state) => if state.pending {
            Ok(PollState::Ready)
        } else {
            Ok(PollState::Pending)
        },
    }
}

/// The table after a poll of the future at position `pos` with `handle`:
/// a wait that is not pending takes the handle in place of any earlier
/// one, and nothing else changes.
pub open spec fn polled(slots: Slots, pos: int, handle: WakeHandle) -> Slots {
    match slot_at(slots, pos) {
        None => slots,
        Some(state) => if state.pending {
            slots
        } else {
            slots.update(
                pos,
                Some(IRQState { number: state.number, pending: false, waker: Some(handle) }),
            )
        },
    }
}

/// One position after interrupt `irqn` fired: a wait for that number is
/// pending and has given up its handle; anything else is as before.
pub open spec fn fire_slot(slot: Option<IRQState>, irqn: i16) -> Option<IRQState> {
    match slot {
        None => None,
        Some(state) => if state.number == irqn {
            Some(IRQState { number: state.number, pending: true, waker: None })
        } else {
            slot
        },
    }
}

/// The table after interrupt `irqn` fired.
pub open spec fn fired(slots: Slots, irqn: i16) -> Slots {
    Seq::new(slots.len(), |i: int| fire_slot(slots[i], irqn))
}

/// Whether `slot` holds a wait for `irqn` with a stored handle for `task`.
pub open spec fn wakes(slot: Option<IRQState>, irqn: i16, task: nat) -> bool {
    &&& slot matches Some(state)
    &&& state.number == irqn
    &&& state.waker matches Some(handle)
    &&& handle.task() == task
}

/// The tasks woken when interrupt `irqn` fires, counting only the first
/// `upto` positions.
pub open spec fn woken_upto(slots: Slots, irqn: i16, upto: int) -> Set<nat> {
    Set::new(|task: nat| exists|i: int| 0 <= i < upto && wakes(#[trigger] slots[i], irqn, task))
}

/// The tasks woken when interrupt `irqn` fires.
pub open spec fn woken(slots: Slots, irqn: i16) -> Set<nat> {
    woken_upto(slots, irqn, slots.len() as int)
}

/// A table of `N` positions, each free or holding one interrupt wait.
#[derive(Debug)]
pub struct IRQTable<const N: usize> {
    slots: [Option<IRQState>; N],
}

impl<const N: usize> View for IRQTable<N> {
    type V = Slots;

    closed spec fn view(&self) -> Slots {
        self.slots@
    }
}

impl<const N: usize> IRQTable<N> {
    /// A table in which every position is free.
    pub fn new() -> (table: Self)
        ensures
            table@ == Seq::new(N as nat, |i: int| None::<IRQState>),
    {
        let table = IRQTable { slots: [None;N] };
        table
    }

    /// A table has as many positions as its type says.
    pub proof fn lemma_capacity(&self)
        ensures
            self@.len() == N,
    {
    }

    /// The number of positions.
    pub fn capacity(&self) -> (n: usize)
        ensures
            n == N,
            n == self@.len(),
    {
        N
    }

    /// The wait at position `pos`, if there is one.
    pub fn slot(&self, pos: usize) -> (slot: Option<IRQState>)
        ensures
            slot == slot_at(self@, pos as int),
    {
        if pos < N {
            self.slots[pos]
        } else {
            None
        }
    }

    /// The number of positions that hold a wait.
    pub fn reserved(&self) -> (n: usize)
        ensures
            n == count_reserved(self@),
            n <= N,
    {
        let mut n: usize = 0;
        let mut i: usize = 0;
        while i < N
            invariant
                i <= N,
                self@.len() == N,
                n == count_reserved(self@.take(i as int)),
                n <= i,
            decreases N - i,
        {
            proof {
                assert(self@.take(i + 1).drop_last() =~= self@.take(i as int));
            }
            if self.slots[i].is_some() {
                n += 1;
            }
            i += 1;
        }
        proof {
            assert(self@.take(N as int) =~= self@);
        }
        n
    }

    /// At-most-one occupancy: in every state of a table the number of
    /// waits that it holds is at most its capacity.
    pub proof fn lemma_occupancy_bounded(&self)
        ensures
            count_reserved(self@) <= N,
    {
        lemma_count_bounded(self@);
    }
}

/// The single-use handle to one interrupt wait. It is bound to the
/// position of the table that was reserved for it, and that position is
/// free again only once the future is handed back with
/// [`IRQFuture::drop`].
#[must_use]
#[derive(Debug)]
pub struct IRQFuture {
    slot: usize,
}

impl IRQFuture {
    /// The position of the table that this future is bound to.
    pub closed spec fn spec_position(&self) -> usize {
        self.slot
    }

    /// The position of the table that this future is bound to.
    #[verifier::when_used_as_spec(spec_position)]
    pub fn position(&self) -> (pos: usize)
        ensures
            pos == self.position(),
    {
        self.slot
    }

    /// Asks whether the awaited interrupt has fired. If it has not, the
    /// wait keeps `waker`, in place of the handle of any earlier poll, for
    /// the interrupt handler to use. A future whose position holds no
    /// wait is stale.
    pub fn poll<const N: usize>(&self, table: &mut IRQTable<N>, waker: WakeHandle) -> (res: Result<
        PollState,
        IRQError,
    >)
        ensures
            res == poll_result(old(table)@, self.position() as int),
            final(table)@ == polled(old(table)@, self.position() as int, waker),
    {
        if self.slot >= N {
            return Err(IRQError::StaleHandle);
        }
        match table.slots[self.slot] {
            None => Err(IRQError::StaleHandle),
            Some(state) => {
                if state.pending {
                    Ok(PollState::Ready)
                } else {
                    table.slots[self.slot] = Some(
                        IRQState { number: state.number, pending: false, waker: Some(waker) },
                    );
                    Ok(PollState::Pending)
                }
            },
        }
    }

    /// Gives the position back to the table, whether or not the interrupt
    /// has fired. This is the only way in which a wait ends.
    pub fn drop<const N: usize>(self, table: &mut IRQTable<N>)
        ensures
            final(table)@ == released(old(table)@, self.position() as int),
    {
        if self.slot < N {
            table.slots[self.slot] = None;
        }
    }
}

/// Whether a reservation for `irqn` on a table that holds `before` may
/// return `res` and leave `after`: on a full table it reports that and
/// changes nothing; otherwise the first free position takes the new wait
/// and the future is bound to it.
pub open spec fn reserves(
    before: Slots,
    irqn: i16,
    res: Result<IRQFuture, IRQError>,
    after: Slots,
) -> bool {
    if is_full(before) {
        &&& res == Err::<IRQFuture, IRQError>(IRQError::TableFull)
        &&& after == before
    } else {
        &&& res matches Ok(future)
        &&& is_first_free(before, future.position() as int)
        &&& after == reserved_at(before, future.position() as int, irqn)
    }
}

/// Reserves the first free position of `table` for a wait for interrupt
/// `irqn` and returns the future bound to it. On a full table nothing is
/// reserved and nothing changes.
pub fn wait_for_irq<const N: usize>(table: &mut IRQTable<N>, irqn: i16) -> (res: Result<
    IRQFuture,
    IRQError,
>)
    ensures
        reserves(old(table)@, irqn, res, final(table)@),
{
    let mut i: usize = 0;
    while i < N
        invariant
            i <= N,
            *table == *old(table),
            forall|j: int| 0 <= j < i ==> (#[trigger] table@[j]) is Some,
        decreases N - i,
    {
        if table.slots[i].is_none() {
            table.slots[i] = Some(IRQState::new(irqn));
            return Ok(IRQFuture { slot: i });
        }
        i += 1;
    }
    Err(IRQError::TableFull)
}

/// Reserves a wait for the interrupt that external-interrupt line `line`
/// raises.
pub fn wait_for_exti_irq<const N: usize>(table: &mut IRQTable<N>, line: Line) -> (res: Result<
    IRQFuture,
    IRQError,
>)
    ensures
        reserves(old(table)@, line_irqn(line), res, final(table)@),
{
    let irqn = irqn_from_exti_line(line);
    wait_for_irq(table, irqn)
}

/// The part of the interrupt handler that resolves waits, run once the
/// number of the active interrupt is known: every wait for `irqn` becomes
/// pending, and each handle stored in one is used once and removed.
pub fn handle_irq<const N: usize>(table: &mut IRQTable<N>, wake: &mut WakeSignal, irqn: i16)
    ensures
        final(table)@ == fired(old(table)@, irqn),
        final(wake)@ == old(wake)@.union(woken(old(table)@, irqn)),
{
    let mut i: usize = 0;
    while i < N
        invariant
            i <= N,
            table@.len() == N,
            forall|j: int| 0 <= j < i ==> (#[trigger] table@[j]) == fire_slot(old(table)@[j], irqn),
            forall|j: int| i <= j < N ==> (#[trigger] table@[j]) == old(table)@[j],
            wake@ == old(wake)@.union(woken_upto(old(table)@, irqn, i as int)),
        decreases N - i,
    {
        if let Some(state) = table.slots[i] {
            if state.number == irqn {
                if let Some(waker) = state.waker {
                    waker.wake(wake);
                }
                table.slots[i] = Some(
                    IRQState { number: state.number, pending: true, waker: None },
                );
            }
        }
        proof {
            let slots = old(table)@;
            assert forall|task: nat|
                woken_upto(slots, irqn, i + 1).contains(task) == (woken_upto(
                    slots,
                    irqn,
                    i as int,
                ).contains(task) || wakes(slots[i as int], irqn, task)) by {}
        }
        i += 1;
    }
}

/// A table holds at most as many waits as it has positions, and as many
/// exactly when it is full.
pub proof fn lemma_count_bounded(slots: Slots)
    ensures
        count_reserved(slots) <= slots.len(),
        is_full(slots) <==> count_reserved(slots) == slots.len(),
    decreases slots.len(),
{
    if slots.len() > 0 {
        let front = slots.drop_last();
        lemma_count_bounded(front);
        if is_full(slots) {
            assert forall|i: int| 0 <= i < front.len() implies (#[trigger] front[i]) is Some by {
                assert(front[i] == slots[i]);
            }
        }
        if count_reserved(slots) == slots.len() {
            assert forall|i: int| 0 <= i < slots.len() implies (#[trigger] slots[i]) is Some by {
                if i < front.len() {
                    assert(front[i] is Some);
                }
            }
        }
    }
}

/// Putting `slot` at a position changes the number of waits by what that
/// position gains or loses, and nothing else.
pub proof fn lemma_count_update(slots: Slots, pos: int, slot: Option<IRQState>)
    requires
        0 <= pos < slots.len(),
    ensures
        count_reserved(slots.update(pos, slot)) + (if slots[pos] is Some {
            1int
        } else {
            0int
        }) == count_reserved(slots) + (if slot is Some {
            1int
        } else {
            0int
        }),
    decreases slots.len(),
{
    let after = slots.update(pos, slot);
    if pos == slots.len() - 1 {
        assert(after.drop_last() =~= slots.drop_last());
    } else {
        assert(after.drop_last() =~= slots.drop_last().update(pos, slot));
        lemma_count_update(slots.drop_last(), pos, slot);
    }
}

/// A reservation adds one wait and touches no other position.
pub proof fn lemma_reserve_adds_one(slots: Slots, pos: int, irqn: i16)
    requires
        is_first_free(slots, pos),
    ensures
        count_reserved(reserved_at(slots, pos, irqn)) == count_reserved(slots) + 1,
        forall|i: int|
            0 <= i < slots.len() && i != pos ==> #[trigger] reserved_at(slots, pos, irqn)[i]
                == slots[i],
{
    lemma_count_update(slots, pos, Some(IRQState::fresh(irqn)));
}

/// Dropping the future of a wait removes that wait and touches no other
/// position.
pub proof fn lemma_release_removes_one(slots: Slots, pos: int)
    requires
        slot_at(slots, pos) is Some,
    ensures
        count_reserved(released(slots, pos)) == count_reserved(slots) - 1,
        forall|i: int|
            0 <= i < slots.len() && i != pos ==> #[trigger] released(slots, pos)[i] == slots[i],
{
    lemma_count_update(slots, pos, None);
}

/// A table that is not full has a first free position.
pub proof fn lemma_first_free_exists(slots: Slots) -> (pos: int)
    requires
        !is_full(slots),
    ensures
        is_first_free(slots, pos),
    decreases slots.len(),
{
    let front = slots.drop_last();
    if is_full(front) {
        let last = slots.len() - 1;
        assert forall|i: int| 0 <= i < last implies (#[trigger] slots[i]) is Some by {
            assert(front[i] is Some);
        }
        last
    } else {
        let pos = lemma_first_free_exists(front);
        assert forall|i: int| 0 <= i < pos implies (#[trigger] slots[i]) is Some by {
            assert(front[i] is Some);
        }
        pos
    }
}

/// Drop releases: once the future at position `pos` is dropped the table
/// is not full, so the next reservation succeeds; it gets a position no
/// later than `pos`, and `pos` itself if the table was full.
pub proof fn lemma_drop_releases(slots: Slots, pos: int) -> (next: int)
    requires
        0 <= pos < slots.len(),
    ensures
        !is_full(released(slots, pos)),
        is_first_free(released(slots, pos), next),
        next <= pos,
        is_full(slots) ==> next == pos,
{
    let after = released(slots, pos);
    let next = lemma_first_free_exists(after);
    if next > pos {
        assert(after[pos] is Some);
    }
    if is_full(slots) && next < pos {
    }
    next
}

/// No wake is lost at the bridge: when a poll has suspended on a wait and
/// the interrupt waited for then fires, the task of the handle that the
/// poll left is woken.
pub proof fn lemma_suspended_poll_is_woken(slots: Slots, pos: int, handle: WakeHandle)
    requires
        slot_at(slots, pos) matches Some(state) && !state.pending,
    ensures
        poll_result(slots, pos) == Ok::<PollState, IRQError>(PollState::Pending),
        woken(polled(slots, pos, handle), slots[pos]->Some_0.number).contains(
            handle.task() as nat,
        ),
{
    let irqn = slots[pos]->Some_0.number;
    let after = polled(slots, pos, handle);
    assert(wakes(after[pos], irqn, handle.task() as nat));
}

/// Whether `slot` holds a wait on which the interrupt has fired and which
/// keeps no handle.
pub open spec fn resolved(slot: Option<IRQState>) -> bool {
    slot matches Some(state) && state.pending && state.waker is None
}

/// One-shot delivery, for the table: once interrupt `irqn` has fired, every
/// wait for it is resolved, and a second occurrence wakes no task and
/// changes nothing.
pub proof fn lemma_one_shot(slots: Slots, irqn: i16)
    ensures
        forall|pos: int|
            (slot_at(slots, pos) matches Some(state) && state.number == irqn) ==> resolved(
                #[trigger] fired(slots, irqn)[pos],
            ),
        woken(fired(slots, irqn), irqn) == Set::<nat>::empty(),
        fired(fired(slots, irqn), irqn) == fired(slots, irqn),
{
    let once = fired(slots, irqn);
    assert forall|i: int| 0 <= i < once.len() implies #[trigger] once[i] is None || resolved(
        once[i],
    ) || once[i]->Some_0.number != irqn by {
        assert(once[i] == fire_slot(slots[i], irqn));
    }
    assert(woken(once, irqn) =~= Set::<nat>::empty());
    assert(fired(once, irqn) =~= once);
}

/// One-shot delivery, for one wait: from the moment it is resolved until
/// its future is dropped, no interrupt wakes a task through it, a poll
/// of its future reports readiness, and nothing that happens to the
/// table changes it: no interrupt, no poll of any future, no
/// reservation, no drop of another future.
pub proof fn lemma_resolved_is_final(slots: Slots, pos: int)
    requires
        0 <= pos < slots.len(),
        resolved(slots[pos]),
    ensures
        poll_result(slots, pos) == Ok::<PollState, IRQError>(PollState::Ready),
        forall|irqn: i16, task: nat| !wakes(slots[pos], irqn, task),
        forall|irqn: i16| #[trigger] fired(slots, irqn)[pos] == slots[pos],
        forall|at: int, handle: WakeHandle| #[trigger] polled(slots, at, handle)[pos] == slots[pos],
        forall|at: int, irqn: i16|
            is_first_free(slots, at) ==> #[trigger] reserved_at(slots, at, irqn)[pos] == slots[pos],
        forall|at: int| at != pos ==> #[trigger] released(slots, at)[pos] == slots[pos],
{
}

} // verus!
