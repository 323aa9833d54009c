//! The large-object space.

use vstd::prelude::*;

verus! {

/// What the plans keep of the large-object space.
#[derive(Clone, Copy, PartialEq, Eq, Structural, Debug)]
pub struct LargeObjectSpace {
    /// Whether tracing marks mature objects. In a nursery collection it skips them.
    pub full_semantics: bool,
    pub reserved_pages: usize,
}

impl LargeObjectSpace {
    /// A space that holds nothing.
    pub fn new() -> (s: Self)
        ensures
            s == (LargeObjectSpace {
                full_semantics: false,
                reserved_pages: 0,
            }),
    {
        LargeObjectSpace { full_semantics: false, reserved_pages: 0 }
    }

    /// Set whether tracing marks mature objects. Returns whether it did before.
    pub fn set_marking_full_semantics(&mut self, full: bool) -> (was_full: bool)
        ensures
            was_full == old(self).full_semantics,
            *final(self) == (LargeObjectSpace { full_semantics: full, ..*old(self) }),
    {
        let was_full = self.full_semantics;
        self.full_semantics = full;
        was_full
    }
}

} // verus!
