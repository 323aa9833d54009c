//! The work packets of reference counting: increments, decrements, and the step from root slots
//! to root increments.

use vstd::prelude::*;

pub mod decs;
pub mod incs;
pub mod laws;
pub mod outcomes;
pub mod roots;

pub use decs::{DecBatch, LazySweepingJobsCounter, ProcessDecs};
pub use incs::{IncBatch, ProcessIncs};
pub use roots::RCImmixCollectRootEdges;

verus! {

/// The classification of an increment's source slot.
pub type EdgeKind = u8;

/// A root slot.
pub const EDGE_KIND_ROOT: u8 = 0;

/// A slot of a freshly promoted nursery object.
pub const EDGE_KIND_NURSERY: u8 = 1;

/// A mature slot that the field barrier logged. It is unlogged when it is loaded.
pub const EDGE_KIND_MATURE: u8 = 2;

} // verus!
