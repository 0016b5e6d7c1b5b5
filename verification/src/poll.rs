//! The contract between an awaitable and whoever polls it.

use vstd::prelude::*;

verus! {

/// What a poll reports. A poll never blocks: it answers at once with one
/// of the two.
#[derive(Clone, Copy, Debug, PartialEq, Eq)]
pub enum PollState {
    /// What was awaited has happened.
    Ready,
    /// It has not. The handle given to the poll was stored where the
    /// awaited event will find it.
    Pending,
}

} // verus!
