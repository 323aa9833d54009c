//! What all plans share.

use vstd::prelude::*;

use crate::policy::largeobjectspace::LargeObjectSpace;

verus! {

/// The write barrier of a plan.
#[derive(Clone, Copy, PartialEq, Eq, Structural, Debug)]
pub enum BarrierSelector {
    NoBarrier,
    ObjectBarrier,
    SATBBarrier,
    FieldBarrier,
}

/// What a plan asks of the virtual machine and of its spaces.
#[derive(Clone, Copy, PartialEq, Eq, Structural, Debug)]
pub struct PlanConstraints {
    pub moves_objects: bool,
    pub max_non_los_default_alloc_bytes: usize,
    pub generational: bool,
    pub needs_log_bit: bool,
    pub needs_field_log_bit: bool,
    pub rc_enabled: bool,
    pub barrier: BarrierSelector,
    pub may_trace_duplicate_edges: bool,
    pub needs_prepare_mutator: bool,
}

/// A piece of metadata that the virtual machine keeps for the collector.
#[derive(Clone, Copy, PartialEq, Eq, Structural, Debug)]
pub enum MetadataSpec {
    /// In the header of the object.
    InHeader(u8),
    /// In a side table, by the number of the table.
    OnSide(u8),
}

/// The side tables among `specs`, in their order.
pub open spec fn side_tables(specs: Seq<MetadataSpec>) -> Seq<u8>
    decreases specs.len(),
{
    if specs.len() == 0 {
        Seq::empty()
    } else {
        match specs.last() {
            MetadataSpec::OnSide(table) => side_tables(specs.drop_last()).push(table),
            MetadataSpec::InHeader(_) => side_tables(specs.drop_last()),
        }
    }
}

/// The side tables among `specs`, in their order.
pub fn extract_side_metadata(specs: &Vec<MetadataSpec>) -> (tables: Vec<u8>)
    ensures
        tables@ == side_tables(specs@),
{
    let mut tables: Vec<u8> = Vec::new();
    let mut i: usize = 0;
    assert(specs@.take(0) =~= Seq::empty());
    assert(tables@ =~= side_tables(specs@.take(0)));
    while i < specs.len()
        invariant
            i <= specs@.len(),
            tables@ =~= side_tables(specs@.take(i as int)),
        decreases specs@.len() - i,
    {
        assert(specs@.take(i as int + 1).drop_last() =~= specs@.take(i as int));
        match specs[i] {
            MetadataSpec::OnSide(table) => {
                tables.push(table);
            },
            MetadataSpec::InHeader(_) => {},
        }
        i = i + 1;
    }
    assert(specs@.take(i as int) =~= specs@);
    tables
}

/// The spaces that all plans have.
#[derive(Clone, Copy, PartialEq, Eq, Structural, Debug)]
pub struct CommonPlan {
    pub los: LargeObjectSpace,
    /// The pages that these spaces use.
    pub used_pages: usize,
}

/// The side tables are taken from the specifications one by one: what is on the side adds its table at
/// the end, and what is in the header adds nothing.
pub proof fn law_side_tables_are_taken_in_their_order(
    specs: Seq<MetadataSpec>,
    table: u8,
    bit: u8,
)
    ensures
        side_tables(Seq::empty()) == Seq::<u8>::empty(),
        side_tables(specs.push(MetadataSpec::OnSide(table))) == side_tables(specs).push(table),
        side_tables(specs.push(MetadataSpec::InHeader(bit))) == side_tables(specs),
{
    assert(specs.push(MetadataSpec::OnSide(table)).drop_last() =~= specs);
    assert(specs.push(MetadataSpec::InHeader(bit)).drop_last() =~= specs);
}

} // verus!
