//! Plans that mark concurrently.

use vstd::prelude::*;

pub mod bactrian;
pub mod global;

pub use global::ConcurrentPlan;

verus! {

/// The kinds of pause of a plan that marks concurrently.
#[derive(Clone, Copy, PartialEq, Eq, Structural, Debug)]
pub enum Pause {
    /// A whole collection that stops the world.
    Full,
    /// The start of a marking cycle.
    InitialMark,
    /// The end of a marking cycle.
    FinalMark,
    /// A collection of the nursery alone.
    Nursery,
}

} // verus!
