//! The Immix space.

pub mod block;
pub mod block_allocation;
pub mod rc_work;
pub mod space;
