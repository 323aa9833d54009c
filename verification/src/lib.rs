//! The logic of a garbage collector: two plans, LXR and Bactrian, with the parts of the spaces, of
//! the allocators and of the scheduler that they rest on.
//!
//! Objects, slots, blocks and threads are named by numbers. What a plan wants done outside of the
//! library it returns as a list of actions.

pub mod args;
pub mod plan;
pub mod policy;
pub mod scheduler;
pub mod util;
pub mod vm;
