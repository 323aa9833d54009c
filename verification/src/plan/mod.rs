//! Plans.

pub mod concurrent;
pub mod global;
pub mod lxr;
