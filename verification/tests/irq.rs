use irq_executor::exti::Line;
use irq_executor::irq::{handle_irq, wait_for_exti_irq, wait_for_irq};
use irq_executor::irq::{IRQError, IRQState, IRQTable, IRQ_SLOTS};
use irq_executor::poll::PollState;
use irq_executor::wake::{WakeHandle, WakeSignal};

#[test]
fn new_state_is_not_pending() {
    let state = IRQState::new(6);
    assert_eq!(state.number, 6);
    assert!(!state.pending);
    assert_eq!(state.waker, None);
    assert_eq!(IRQState::new(-3).number, -3);
}

#[test]
fn new_table_is_free() {
    let table = IRQTable::<IRQ_SLOTS>::new();
    assert_eq!(table.capacity(), 32);
    assert_eq!(table.reserved(), 0);
    for pos in 0..32 {
        assert_eq!(table.slot(pos), None);
    }
    assert_eq!(table.slot(32), None);
}

#[test]
fn reserve_poll_fire_drain_poll_drop() {
    let mut table = IRQTable::<IRQ_SLOTS>::new();
    let mut signal = WakeSignal::new();
    let task = WakeHandle::new(0);

    let future = wait_for_irq(&mut table, 6).unwrap();
    assert_eq!(future.position(), 0);
    assert_eq!(table.slot(0), Some(IRQState { number: 6, pending: false, waker: None }));

    assert_eq!(future.poll(&mut table, task), Ok(PollState::Pending));
    assert_eq!(table.slot(0), Some(IRQState { number: 6, pending: false, waker: Some(task) }));
    assert!(signal.is_idle());

    handle_irq(&mut table, &mut signal, 6);
    assert_eq!(table.slot(0), Some(IRQState { number: 6, pending: true, waker: None }));
    assert!(!signal.is_idle());

    assert_eq!(signal.drain(), 1);

    assert_eq!(future.poll(&mut table, task), Ok(PollState::Ready));
    assert_eq!(table.slot(0), Some(IRQState { number: 6, pending: true, waker: None }));

    future.drop(&mut table);
    assert_eq!(table.slot(0), None);
    assert_eq!(table.reserved(), 0);
}

#[test]
fn second_reservation_on_a_table_of_one_reports_exhaustion() {
    let mut table = IRQTable::<1>::new();
    let first = wait_for_irq(&mut table, 7).unwrap();
    assert_eq!(first.position(), 0);
    let second = wait_for_irq(&mut table, 7);
    assert_eq!(second.unwrap_err(), IRQError::TableFull);
    assert_eq!(table.slot(0), Some(IRQState::new(7)));
    assert_eq!(table.reserved(), 1);
}

#[test]
fn full_table_keeps_every_wait() {
    let mut table = IRQTable::<3>::new();
    let a = wait_for_irq(&mut table, 1).unwrap();
    let b = wait_for_irq(&mut table, 2).unwrap();
    let c = wait_for_irq(&mut table, 3).unwrap();
    assert_eq!((a.position(), b.position(), c.position()), (0, 1, 2));
    assert_eq!(b.poll(&mut table, WakeHandle::new(9)), Ok(PollState::Pending));
    assert_eq!(wait_for_irq(&mut table, 4).unwrap_err(), IRQError::TableFull);
    assert_eq!(table.slot(0), Some(IRQState::new(1)));
    assert_eq!(
        table.slot(1),
        Some(IRQState { number: 2, pending: false, waker: Some(WakeHandle::new(9)) })
    );
    assert_eq!(table.slot(2), Some(IRQState::new(3)));
}

#[test]
fn table_without_positions_is_always_full() {
    let mut table = IRQTable::<0>::new();
    assert_eq!(table.capacity(), 0);
    assert_eq!(wait_for_irq(&mut table, 6).unwrap_err(), IRQError::TableFull);
    assert_eq!(table.reserved(), 0);
}

#[test]
fn reservation_takes_the_first_free_position() {
    let mut table = IRQTable::<4>::new();
    let a = wait_for_irq(&mut table, 10).unwrap();
    let b = wait_for_irq(&mut table, 11).unwrap();
    let c = wait_for_irq(&mut table, 12).unwrap();
    assert_eq!(c.position(), 2);
    b.drop(&mut table);
    a.drop(&mut table);
    let d = wait_for_irq(&mut table, 13).unwrap();
    assert_eq!(d.position(), 0);
    let e = wait_for_irq(&mut table, 14).unwrap();
    assert_eq!(e.position(), 1);
    let f = wait_for_irq(&mut table, 15).unwrap();
    assert_eq!(f.position(), 3);
    assert_eq!(table.slot(2), Some(IRQState::new(12)));
}

#[test]
fn occupancy_follows_reservations_and_drops() {
    let mut table = IRQTable::<2>::new();
    assert_eq!(table.reserved(), 0);
    let a = wait_for_irq(&mut table, 1).unwrap();
    assert_eq!(table.reserved(), 1);
    let b = wait_for_irq(&mut table, 1).unwrap();
    assert_eq!(table.reserved(), 2);
    assert!(wait_for_irq(&mut table, 1).is_err());
    assert!(wait_for_irq(&mut table, 2).is_err());
    assert_eq!(table.reserved(), 2);
    a.drop(&mut table);
    assert_eq!(table.reserved(), 1);
    let c = wait_for_irq(&mut table, 3).unwrap();
    assert_eq!(table.reserved(), 2);
    b.drop(&mut table);
    c.drop(&mut table);
    assert_eq!(table.reserved(), 0);
}

#[test]
fn dropping_an_unresolved_future_frees_its_position() {
    let mut table = IRQTable::<1>::new();
    let future = wait_for_irq(&mut table, 6).unwrap();
    assert_eq!(future.poll(&mut table, WakeHandle::new(2)), Ok(PollState::Pending));
    future.drop(&mut table);
    assert_eq!(table.slot(0), None);
    let again = wait_for_irq(&mut table, 8).unwrap();
    assert_eq!(again.position(), 0);
    assert_eq!(table.slot(0), Some(IRQState::new(8)));
}

#[test]
fn dropped_wait_is_not_woken() {
    let mut table = IRQTable::<2>::new();
    let mut signal = WakeSignal::new();
    let future = wait_for_irq(&mut table, 6).unwrap();
    assert_eq!(future.poll(&mut table, WakeHandle::new(2)), Ok(PollState::Pending));
    future.drop(&mut table);
    handle_irq(&mut table, &mut signal, 6);
    assert!(signal.is_idle());
    assert_eq!(table.reserved(), 0);
}

#[test]
fn second_interrupt_does_not_wake_again() {
    let mut table = IRQTable::<4>::new();
    let mut signal = WakeSignal::new();
    let future = wait_for_irq(&mut table, 23).unwrap();
    assert_eq!(future.poll(&mut table, WakeHandle::new(5)), Ok(PollState::Pending));
    handle_irq(&mut table, &mut signal, 23);
    assert_eq!(signal.drain(), 1 << 5);
    let after_first = table.slot(0);
    handle_irq(&mut table, &mut signal, 23);
    assert!(signal.is_idle());
    assert_eq!(signal.drain(), 0);
    assert_eq!(table.slot(0), after_first);
    assert_eq!(future.poll(&mut table, WakeHandle::new(5)), Ok(PollState::Ready));
    handle_irq(&mut table, &mut signal, 23);
    assert_eq!(signal.drain(), 0);
}

#[test]
fn interrupt_before_the_first_poll_resolves_without_a_wake() {
    let mut table = IRQTable::<2>::new();
    let mut signal = WakeSignal::new();
    let future = wait_for_irq(&mut table, 40).unwrap();
    handle_irq(&mut table, &mut signal, 40);
    assert!(signal.is_idle());
    assert_eq!(table.slot(0), Some(IRQState { number: 40, pending: true, waker: None }));
    assert_eq!(future.poll(&mut table, WakeHandle::new(1)), Ok(PollState::Ready));
}

#[test]
fn interrupt_resolves_every_wait_for_its_number_and_no_other() {
    let mut table = IRQTable::<4>::new();
    let mut signal = WakeSignal::new();
    let a = wait_for_irq(&mut table, 6).unwrap();
    let b = wait_for_irq(&mut table, 7).unwrap();
    let c = wait_for_irq(&mut table, 6).unwrap();
    assert_eq!(a.poll(&mut table, WakeHandle::new(0)), Ok(PollState::Pending));
    assert_eq!(b.poll(&mut table, WakeHandle::new(1)), Ok(PollState::Pending));
    assert_eq!(c.poll(&mut table, WakeHandle::new(2)), Ok(PollState::Pending));
    handle_irq(&mut table, &mut signal, 6);
    assert_eq!(signal.drain(), 0b101);
    assert_eq!(a.poll(&mut table, WakeHandle::new(0)), Ok(PollState::Ready));
    assert_eq!(c.poll(&mut table, WakeHandle::new(2)), Ok(PollState::Ready));
    assert_eq!(b.poll(&mut table, WakeHandle::new(1)), Ok(PollState::Pending));
    assert_eq!(
        table.slot(1),
        Some(IRQState { number: 7, pending: false, waker: Some(WakeHandle::new(1)) })
    );
    assert_eq!(table.slot(3), None);
}

#[test]
fn interrupt_that_nobody_waits_for_changes_nothing() {
    let mut table = IRQTable::<2>::new();
    let mut signal = WakeSignal::new();
    let future = wait_for_irq(&mut table, 6).unwrap();
    assert_eq!(future.poll(&mut table, WakeHandle::new(3)), Ok(PollState::Pending));
    handle_irq(&mut table, &mut signal, 9);
    assert!(signal.is_idle());
    assert_eq!(
        table.slot(0),
        Some(IRQState { number: 6, pending: false, waker: Some(WakeHandle::new(3)) })
    );
}

#[test]
fn interrupt_keeps_requests_already_outstanding() {
    let mut table = IRQTable::<2>::new();
    let mut signal = WakeSignal::new();
    signal.mark(8);
    let future = wait_for_irq(&mut table, 6).unwrap();
    assert_eq!(future.poll(&mut table, WakeHandle::new(3)), Ok(PollState::Pending));
    handle_irq(&mut table, &mut signal, 6);
    assert_eq!(signal.drain(), (1 << 8) | (1 << 3));
}

#[test]
fn later_poll_replaces_the_stored_handle() {
    let mut table = IRQTable::<1>::new();
    let mut signal = WakeSignal::new();
    let future = wait_for_irq(&mut table, 6).unwrap();
    assert_eq!(future.poll(&mut table, WakeHandle::new(1)), Ok(PollState::Pending));
    assert_eq!(future.poll(&mut table, WakeHandle::new(4)), Ok(PollState::Pending));
    assert_eq!(
        table.slot(0),
        Some(IRQState { number: 6, pending: false, waker: Some(WakeHandle::new(4)) })
    );
    handle_irq(&mut table, &mut signal, 6);
    assert_eq!(signal.drain(), 1 << 4);
}

#[test]
fn poll_of_a_future_without_a_wait_is_stale() {
    let mut table = IRQTable::<2>::new();
    let mut other = IRQTable::<2>::new();
    let future = wait_for_irq(&mut table, 6).unwrap();
    assert_eq!(future.poll(&mut other, WakeHandle::new(0)), Err(IRQError::StaleHandle));
    assert_eq!(other.slot(0), None);
    assert_eq!(other.reserved(), 0);
}

#[test]
fn poll_of_a_future_beyond_the_table_is_stale() {
    let mut large = IRQTable::<3>::new();
    let mut small = IRQTable::<1>::new();
    let _a = wait_for_irq(&mut large, 1).unwrap();
    let _b = wait_for_irq(&mut large, 2).unwrap();
    let c = wait_for_irq(&mut large, 3).unwrap();
    assert_eq!(c.position(), 2);
    assert_eq!(c.poll(&mut small, WakeHandle::new(0)), Err(IRQError::StaleHandle));
    c.drop(&mut small);
    assert_eq!(small.slot(0), None);
    assert_eq!(large.reserved(), 3);
}

#[test]
fn reservation_by_line_uses_the_number_of_the_line() {
    let mut table = IRQTable::<4>::new();
    let a = wait_for_exti_irq(&mut table, Line::Line0).unwrap();
    let b = wait_for_exti_irq(&mut table, Line::Line7).unwrap();
    let c = wait_for_exti_irq(&mut table, Line::Line22).unwrap();
    assert_eq!((a.position(), b.position(), c.position()), (0, 1, 2));
    assert_eq!(table.slot(0), Some(IRQState::new(6)));
    assert_eq!(table.slot(1), Some(IRQState::new(23)));
    assert_eq!(table.slot(2), Some(IRQState::new(3)));
}

#[test]
fn reservation_by_line_on_a_full_table_reports_exhaustion() {
    let mut table = IRQTable::<1>::new();
    let _first = wait_for_exti_irq(&mut table, Line::Line0).unwrap();
    assert_eq!(wait_for_exti_irq(&mut table, Line::Line1).unwrap_err(), IRQError::TableFull);
    assert_eq!(table.slot(0), Some(IRQState::new(6)));
}
