//! Utilities.

pub mod allocators;
pub mod constants;
pub mod copy;
pub mod rc;
pub mod up_trace;
