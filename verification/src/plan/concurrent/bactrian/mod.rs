//! The Bactrian plan: a copying nursery in front of an Immix space that is marked concurrently and
//! evacuated only while the world is stopped.

pub mod gc_work;
pub mod global;
pub mod laws;
pub mod mutator;
pub mod quantum;
pub mod trace_heap;
pub mod trace_laws;

pub use global::Bactrian;
