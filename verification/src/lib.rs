//! A cooperative task executor for interrupt-driven programs on a single
//! processor, with the bridge that turns hardware interrupts into events
//! that tasks can await. No heap is used.
//!
//! - [`wake`]: the wake signal, one bit per task, and the handle by which
//!   a suspended task is woken.
//! - [`executor`]: the scheduling loop as a machine that decides what is
//!   polled and when the processor may sleep.
//! - [`irq`]: the table of interrupt waits, the future bound to one of
//!   them, and the part of the interrupt handler that resolves them.
//! - [`exti`]: the external-interrupt lines and the interrupt numbers
//!   that they raise.
//! - [`poll`]: what a poll reports.
//! - [`bits`]: facts about single bits of a mask.
//!
//! Everything here is sequential logic over owned state: an operation
//! holds what it changes by exclusive reference and is indivisible for
//! everyone else. The platform layer that embeds the library owns the one
//! wake signal and the one interrupt table of the program, shares them
//! between the scheduling loop and the interrupt handler, and sees to it
//! that no operation on them is interrupted by another. It also owns the
//! tasks, polls them, and puts the processor to sleep.

pub mod bits;
pub mod executor;
pub mod exti;
pub mod irq;
pub mod poll;
pub mod wake;
