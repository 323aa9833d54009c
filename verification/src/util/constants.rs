//! Sizes that every part of the collector agrees on.

use vstd::prelude::*;

verus! {

/// The base-two logarithm of the size of a page in bytes.
pub const LOG_BYTES_IN_PAGE: usize = 12;

/// The size of a page in bytes.
pub const BYTES_IN_PAGE: usize = 4096;

/// The size of a cache line in bytes.
pub const BYTES_IN_CACHE_LINE: usize = 64;

} // verus!
