//! The spaces that plans are made of.

pub mod immix;
pub mod largeobjectspace;
