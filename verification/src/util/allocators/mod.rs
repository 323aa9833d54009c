//! Allocators.

pub mod large_object_allocator;

pub use large_object_allocator::LargeObjectAllocator;
