use irq_executor::wake::{WakeHandle, WakeSignal, WAKE_WIDTH};

#[test]
fn new_signal_is_idle() {
    let mut signal = WakeSignal::new();
    assert!(signal.is_idle());
    assert_eq!(signal.drain(), 0);
}

#[test]
fn initialize_requests_every_task() {
    let mut signal = WakeSignal::new();
    signal.initialize();
    assert!(!signal.is_idle());
    assert_eq!(signal.drain(), u32::MAX);
    assert!(signal.is_idle());
}

#[test]
fn mark_sets_the_bit_of_the_task() {
    let mut signal = WakeSignal::new();
    signal.mark(3);
    assert!(!signal.is_idle());
    assert_eq!(signal.drain(), 0b1000);
}

#[test]
fn mark_keeps_other_requests() {
    let mut signal = WakeSignal::new();
    signal.mark(0);
    signal.mark(5);
    signal.mark(31);
    assert_eq!(signal.drain(), 0x8000_0021);
}

#[test]
fn mark_twice_is_one_request() {
    let mut signal = WakeSignal::new();
    signal.mark(7);
    signal.mark(7);
    assert_eq!(signal.drain(), 1 << 7);
}

#[test]
fn every_index_below_the_width_can_be_marked() {
    for index in 0..WAKE_WIDTH {
        let mut signal = WakeSignal::new();
        signal.mark(index);
        assert_eq!(signal.drain(), 1u32 << index);
    }
}

#[test]
fn no_mark_is_lost_between_drains() {
    let mut signal = WakeSignal::new();
    signal.mark(1);
    signal.mark(5);
    assert_eq!(signal.drain(), 0b10_0010);
    signal.mark(1);
    signal.mark(2);
    signal.mark(9);
    assert_eq!(signal.drain(), 0b10_0000_0110);
    signal.mark(9);
    assert_eq!(signal.drain(), 0b10_0000_0000);
}

#[test]
fn second_drain_in_a_row_is_zero() {
    let mut signal = WakeSignal::new();
    signal.mark(4);
    signal.mark(6);
    assert_eq!(signal.drain(), 0b101_0000);
    assert_eq!(signal.drain(), 0);
    assert_eq!(signal.drain(), 0);
}

#[test]
fn drain_after_initialize_then_mark() {
    let mut signal = WakeSignal::new();
    signal.initialize();
    signal.mark(2);
    assert_eq!(signal.drain(), u32::MAX);
    assert_eq!(signal.drain(), 0);
}

#[test]
fn handle_names_its_task() {
    let handle = WakeHandle::new(12);
    assert_eq!(handle.task(), 12);
    assert_eq!(handle, WakeHandle::new(12));
    assert_ne!(handle, WakeHandle::new(13));
}

#[test]
fn handle_marks_its_task() {
    let mut signal = WakeSignal::new();
    signal.mark(1);
    WakeHandle::new(4).wake(&mut signal);
    assert_eq!(signal.drain(), 0b1_0010);
}

#[test]
fn handle_can_be_used_after_a_copy() {
    let mut signal = WakeSignal::new();
    let handle = WakeHandle::new(0);
    let copy = handle;
    handle.wake(&mut signal);
    assert_eq!(signal.drain(), 1);
    copy.wake(&mut signal);
    assert_eq!(signal.drain(), 1);
}
