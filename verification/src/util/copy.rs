//! What a plan copies objects with.

use vstd::prelude::*;

use crate::plan::global::PlanConstraints;

verus! {

/// Why an object is copied.
#[derive(Clone, Copy, PartialEq, Eq, Structural, Debug)]
pub enum CopySemantics {
    DefaultCopy,
    /// Out of the nursery.
    PromoteToMature,
    /// Within the mature space.
    Mature,
}

/// The copy allocator, by its kind and number.
#[derive(Clone, Copy, PartialEq, Eq, Structural, Debug)]
pub enum CopySelector {
    Immix(u8),
    ImmixHybrid(u8),
    Unused,
}

/// The spaces that allocators and copy allocators allocate in.
#[derive(Clone, Copy, PartialEq, Eq, Structural, Debug)]
pub enum SpaceName {
    /// The Immix space of the LXR plan.
    Immix,
    /// The copying nursery.
    Nursery,
    /// The mature Immix space.
    ImmixMature,
    /// A space that all plans have, by its number.
    Common(u8),
}

/// The copy allocator for each reason to copy, and the space for each copy allocator.
pub struct CopyConfig {
    pub default_copy: CopySelector,
    pub promote_to_mature: CopySelector,
    pub mature: CopySelector,
    pub space_mapping: Vec<(CopySelector, SpaceName)>,
    pub constraints: PlanConstraints,
}

impl CopyConfig {
    /// The copy allocator for `semantics`.
    pub open spec fn selector(&self, semantics: CopySemantics) -> CopySelector {
        match semantics {
            CopySemantics::DefaultCopy => self.default_copy,
            CopySemantics::PromoteToMature => self.promote_to_mature,
            CopySemantics::Mature => self.mature,
        }
    }

    /// Every copy allocator in use has a space.
    pub open spec fn wf(&self) -> bool {
        forall|semantics: CopySemantics|
            (#[trigger] self.selector(semantics)) != CopySelector::Unused ==> exists|i: int|
                0 <= i < self.space_mapping@.len() && (#[trigger] self.space_mapping@[i]).0
                    == self.selector(semantics)
    }

    /// The copy allocator for `semantics`.
    pub fn copy_mapping(&self, semantics: CopySemantics) -> (r: CopySelector)
        ensures
            r == self.selector(semantics),
    {
        match semantics {
            CopySemantics::DefaultCopy => self.default_copy,
            CopySemantics::PromoteToMature => self.promote_to_mature,
            CopySemantics::Mature => self.mature,
        }
    }
}

/// Each reason to copy has the copy allocator that is set for it.
pub proof fn law_each_reason_has_its_copy_allocator(c: CopyConfig)
    ensures
        c.selector(CopySemantics::DefaultCopy) == c.default_copy,
        c.selector(CopySemantics::PromoteToMature) == c.promote_to_mature,
        c.selector(CopySemantics::Mature) == c.mature,
{
}

/// A copy allocator that is in use has a space: one of the pairs names it.
pub proof fn law_every_copy_allocator_has_a_space(c: CopyConfig)
    requires
        c.wf(),
    ensures
        c.default_copy != CopySelector::Unused ==> exists|i: int|
            0 <= i < c.space_mapping@.len() && (#[trigger] c.space_mapping@[i]).0 == c.default_copy,
        c.promote_to_mature != CopySelector::Unused ==> exists|i: int|
            0 <= i < c.space_mapping@.len() && (#[trigger] c.space_mapping@[i]).0
                == c.promote_to_mature,
        c.mature != CopySelector::Unused ==> exists|i: int|
            0 <= i < c.space_mapping@.len() && (#[trigger] c.space_mapping@[i]).0 == c.mature,
{
    assert(c.selector(CopySemantics::DefaultCopy) == c.default_copy);
    assert(c.selector(CopySemantics::PromoteToMature) == c.promote_to_mature);
    assert(c.selector(CopySemantics::Mature) == c.mature);
}

} // verus!
