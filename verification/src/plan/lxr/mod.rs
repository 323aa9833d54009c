//! The LXR plan: reference counting on an Immix heap.

use vstd::prelude::*;

pub mod gc_work;
pub mod global;
pub mod rc;

pub use global::LXR;

verus! {

/// The kinds of pause of the LXR plan.
#[derive(Clone, Copy, PartialEq, Eq, Structural, Debug)]
pub enum Pause {
    /// Increments, decrements and sweeping.
    RefCount,
    /// A full collection that stops the world.
    Full,
    /// A full collection that also defragments.
    FullDefrag,
    /// The start of a marking cycle.
    InitialMark,
    /// The end of a marking cycle.
    FinalMark,
}

} // verus!
