//! What runs of the packets leave behind, told from the fields of the heap before and after them.

use vstd::prelude::*;

use crate::args::Args;
use crate::plan::lxr::rc::decs;
use crate::plan::lxr::rc::decs::{DecBatch, ProcessDecs};
use crate::plan::lxr::rc::incs;
use crate::plan::lxr::rc::incs::IncBatch;
use crate::plan::lxr::rc::{EDGE_KIND_MATURE, EDGE_KIND_NURSERY, EDGE_KIND_ROOT};
use crate::policy::immix::block::BlockState;
use crate::policy::immix::space::RcHeap;
use crate::scheduler::work_bucket::WorkBucketStage;
use crate::util::rc;
use crate::vm::{ObjectTable, Place};

verus! {

/// Decrements are counted one by one, in a list and over all batches.
pub proof fn law_decrements_are_counted_one_by_one(
    s: Seq<usize>,
    out: Seq<DecBatch>,
    batch: DecBatch,
    y: usize,
    x: usize,
)
    ensures
        decs::occurrences(Seq::empty(), x) == 0,
        decs::occurrences(s.push(x), x) == decs::occurrences(s, x) + 1,
        y != x ==> decs::occurrences(s.push(y), x) == decs::occurrences(s, x),
        decs::batch_occurrences(Seq::empty(), x) == 0,
        decs::batch_occurrences(out.push(batch), x) == decs::batch_occurrences(out, x)
            + decs::occurrences(batch.decs@, x),
{
    assert(s.push(x).drop_last() =~= s);
    assert(s.push(y).drop_last() =~= s);
    assert(out.push(batch).drop_last() =~= out);
}

/// References in batches of increments are counted batch by batch.
pub proof fn law_batches_of_increments_are_counted_one_by_one(
    vm: &ObjectTable,
    out: Seq<IncBatch>,
    batch: IncBatch,
    x: usize,
)
    ensures
        incs::batch_refs(vm, Seq::empty(), x) == 0,
        incs::batch_refs(vm, out.push(batch), x) == incs::batch_refs(vm, out, x) + vm.refs(
            batch.incs@,
            x,
        ),
{
    assert(out.push(batch).drop_last() =~= out);
}

/// A packet decrements what it owns, and what it shares only if it owns nothing.
pub proof fn law_a_packet_decrements_its_list(p: ProcessDecs)
    ensures
        p.decs is Some ==> p.input() == p.decs.unwrap()@,
        p.decs is None && p.decs_arc is Some ==> p.input() == p.decs_arc.unwrap()@,
        p.decs is None && p.decs_arc is None ==> p.input() == Seq::<usize>::empty(),
{
}

/// Every decrement is accounted for, while batches wait as well as when none is left. A count that
/// sticks stays. Of any other, the decrements of the packet are taken off at once, and those from the
/// fields of the dead are taken off or wait in a batch; these are all the fields of all the dead that
/// refer to the object, if it lies in the Immix space, and none if it does not or if decrements are not
/// recursive. No count grows, none drops below zero, and nothing else comes to wait: not even decrements
/// of an object whose count is zero or sticks.
pub proof fn law_every_decrement_is_accounted_for(
    vm: &ObjectTable,
    args: Args,
    prioritized: bool,
    h0: RcHeap,
    h1: RcHeap,
    out0: Seq<DecBatch>,
    out1: Seq<DecBatch>,
    objects: Seq<usize>,
    log: Seq<usize>,
    x: usize,
)
    requires
        h0.wf(vm),
        decs::decremented(vm, args, prioritized, h0, h1, out0, out1, objects, log),
        x < vm.objects@.len(),
    ensures
        h0.rc.counts@[x as int] == h0.rc.max_ref_count ==> h1.rc.counts@[x as int]
            == h0.rc.max_ref_count,
        h0.rc.counts@[x as int] < h0.rc.max_ref_count && vm.objects@[x as int].place is Immix
            && !args.no_recursive_dec ==> {
            let wanted = h0.rc.counts@[x as int] - decs::batch_occurrences(out0, x)
                - decs::occurrences(objects, x) - vm.field_refs(log, x);
            let settled = h1.rc.counts@[x as int] - decs::batch_occurrences(out1, x);
            settled == wanted || settled <= 0 && wanted <= 0
        },
        h0.rc.counts@[x as int] < h0.rc.max_ref_count && (!(vm.objects@[x as int].place is Immix)
            || args.no_recursive_dec) ==> {
            let wanted = h0.rc.counts@[x as int] - decs::batch_occurrences(out0, x)
                - decs::occurrences(objects, x);
            let settled = h1.rc.counts@[x as int] - decs::batch_occurrences(out1, x);
            settled == wanted || settled <= 0 && wanted <= 0
        },
        h0.rc.counts@[x as int] < h0.rc.max_ref_count && decs::occurrences(objects, x)
            >= h0.rc.counts@[x as int] ==> h1.rc.counts@[x as int] == 0,
        h0.rc.counts@[x as int] < h0.rc.max_ref_count && decs::occurrences(objects, x)
            < h0.rc.counts@[x as int] ==> h1.rc.counts@[x as int] <= h0.rc.counts@[x as int]
            - decs::occurrences(objects, x),
        h1.rc.counts@[x as int] <= h0.rc.counts@[x as int],
        vm.objects@[x as int].place is Immix ==> decs::batch_occurrences(out1, x)
            <= decs::batch_occurrences(out0, x) + vm.field_refs(log, x),
        !(vm.objects@[x as int].place is Immix) || args.no_recursive_dec
            ==> decs::batch_occurrences(out1, x) <= decs::batch_occurrences(out0, x),
        h0.rc.counts@[x as int] == 0 || h0.rc.counts@[x as int] == h0.rc.max_ref_count
            ==> decs::batch_occurrences(out1, x) == decs::batch_occurrences(out0, x),
{
    assert(vm.has(x));
    assert(h0.count(x) <= h0.rc.max_ref_count);
}

/// The dead are those whose count reached zero, each entered once. Each took as many decrements as its
/// count was, from the packet and from the fields of those that died before it.
pub proof fn law_an_object_dies_when_its_count_reaches_zero(
    vm: &ObjectTable,
    args: Args,
    prioritized: bool,
    h0: RcHeap,
    h1: RcHeap,
    out0: Seq<DecBatch>,
    out1: Seq<DecBatch>,
    objects: Seq<usize>,
    log: Seq<usize>,
    x: usize,
    i: int,
)
    requires
        decs::decremented(vm, args, prioritized, h0, h1, out0, out1, objects, log),
    ensures
        log.contains(x) <==> x < vm.objects@.len() && h0.rc.counts@[x as int] > 0
            && h1.rc.counts@[x as int] == 0,
        log.no_duplicates(),
        0 <= i < log.len() ==> h0.rc.counts@[log[i] as int] <= decs::occurrences(objects, log[i])
            + vm.field_refs(log.take(i), log[i]),
        0 <= i < log.len() && (!(vm.objects@[log[i] as int].place is Immix)
            || args.no_recursive_dec) ==> h0.rc.counts@[log[i] as int] <= decs::occurrences(
            objects,
            log[i],
        ),
{
}

/// A block is left to be swept exactly if it was before or an object died in it, and then it waits in
/// the queue. Nothing else of a block changes.
pub proof fn law_a_death_leaves_its_block_to_be_swept(
    vm: &ObjectTable,
    args: Args,
    prioritized: bool,
    h0: RcHeap,
    h1: RcHeap,
    out0: Seq<DecBatch>,
    out1: Seq<DecBatch>,
    objects: Seq<usize>,
    log: Seq<usize>,
    b: int,
)
    requires
        decs::decremented(vm, args, prioritized, h0, h1, out0, out1, objects, log),
        0 <= b < h0.space.blocks@.len(),
    ensures
        h1.space.blocks@.len() == h0.space.blocks@.len(),
        h1.space.blocks@[b].logged <==> h0.space.blocks@[b].logged || (exists|o: usize|
            o < vm.objects@.len() && (#[trigger] vm.objects@[o as int]).place == Place::Immix(
                b as usize,
            ) && h0.rc.counts@[o as int] > 0 && h1.rc.counts@[o as int] == 0),
        !h0.space.blocks@[b].logged && h1.space.blocks@[b].logged
            ==> h1.space.possibly_dead_mature_blocks@.contains((b as usize, false)),
        h1.space.blocks@[b].state == h0.space.blocks@[b].state,
        h1.space.blocks@[b].start == h0.space.blocks@[b].start,
        h1.space.blocks@[b].words == h0.space.blocks@[b].words,
        h1.space.blocks@[b].line_marks == h0.space.blocks@[b].line_marks,
        h1.space.blocks@[b].zeroed == h0.space.blocks@[b].zeroed,
{
    if exists|o: usize|
        o < vm.objects@.len() && (#[trigger] vm.objects@[o as int]).place == Place::Immix(
            b as usize,
        ) && h0.rc.counts@[o as int] > 0 && h1.rc.counts@[o as int] == 0 {
        let o = choose|o: usize|
            o < vm.objects@.len() && (#[trigger] vm.objects@[o as int]).place == Place::Immix(
                b as usize,
            ) && h0.rc.counts@[o as int] > 0 && h1.rc.counts@[o as int] == 0;
        assert(log.contains(o));
        let i = log.index_of(o);
        assert(vm.place_of(log[i]) == Place::Immix(b as usize));
        assert(incs::hits_block(vm, log, b));
    }
    if incs::hits_block(vm, log, b) {
        let i = choose|i: int|
            0 <= i < log.len() && #[trigger] vm.place_of(log[i]) == Place::Immix(b as usize);
        assert(log.contains(log[i]));
        assert(vm.objects@[log[i] as int].place == Place::Immix(b as usize));
    }
    if !h0.space.blocks@[b].logged && h1.space.blocks@[b].logged {
        let q = h1.space.possibly_dead_mature_blocks@;
        let i = choose|i: int|
            h0.space.possibly_dead_mature_blocks@.len() <= i < q.len() && (#[trigger] q[i]).0 == b;
        assert(q[i] == (b as usize, false));
    }
}

/// What waits to be swept keeps waiting, in its order. What is entered behind it are blocks in which an
/// object died and that did not wait before, each once, without the defrag flag.
pub proof fn law_the_sweep_queue_grows_by_blocks_of_the_dead(
    vm: &ObjectTable,
    args: Args,
    prioritized: bool,
    h0: RcHeap,
    h1: RcHeap,
    out0: Seq<DecBatch>,
    out1: Seq<DecBatch>,
    objects: Seq<usize>,
    log: Seq<usize>,
    i: int,
    j: int,
)
    requires
        decs::decremented(vm, args, prioritized, h0, h1, out0, out1, objects, log),
        0 <= i < h1.space.possibly_dead_mature_blocks@.len(),
        0 <= j < h1.space.possibly_dead_mature_blocks@.len(),
    ensures
        h0.space.possibly_dead_mature_blocks@.len() <= h1.space.possibly_dead_mature_blocks@.len(),
        i < h0.space.possibly_dead_mature_blocks@.len() ==> h1.space.possibly_dead_mature_blocks@[i]
            == h0.space.possibly_dead_mature_blocks@[i],
        i >= h0.space.possibly_dead_mature_blocks@.len() ==> {
            let entry = h1.space.possibly_dead_mature_blocks@[i];
            &&& !entry.1
            &&& entry.0 < h0.space.blocks@.len()
            &&& !h0.space.blocks@[entry.0 as int].logged
            &&& exists|o: usize|
                o < vm.objects@.len() && (#[trigger] vm.objects@[o as int]).place == Place::Immix(
                    entry.0,
                ) && h0.rc.counts@[o as int] > 0 && h1.rc.counts@[o as int] == 0
        },
        h0.space.possibly_dead_mature_blocks@.len() <= i < j
            ==> h1.space.possibly_dead_mature_blocks@[i].0
            != h1.space.possibly_dead_mature_blocks@[j].0,
{
    let q = h1.space.possibly_dead_mature_blocks@;
    if i >= h0.space.possibly_dead_mature_blocks@.len() {
        assert(q[i].0 < h0.space.blocks@.len());
        law_a_death_leaves_its_block_to_be_swept(
            vm,
            args,
            prioritized,
            h0,
            h1,
            out0,
            out1,
            objects,
            log,
            q[i].0 as int,
        );
    }
}

/// The straddle lines of the dead of the Immix space are cleared, unless only whole blocks are
/// reclaimed. Those of all other objects stay.
pub proof fn law_the_straddle_lines_of_the_dead_are_cleared(
    vm: &ObjectTable,
    args: Args,
    prioritized: bool,
    h0: RcHeap,
    h1: RcHeap,
    out0: Seq<DecBatch>,
    out1: Seq<DecBatch>,
    objects: Seq<usize>,
    log: Seq<usize>,
    o: usize,
)
    requires
        h0.wf(vm),
        decs::decremented(vm, args, prioritized, h0, h1, out0, out1, objects, log),
        o < vm.objects@.len(),
    ensures
        h1.rc.straddle@.len() == h0.rc.straddle@.len(),
        vm.objects@[o as int].place is Immix && h0.rc.counts@[o as int] > 0 && h1.rc.counts@[o as int]
            == 0 && !args.block_only ==> h1.rc.straddle@[o as int] is None,
        !(vm.objects@[o as int].place is Immix) || h0.rc.counts@[o as int] == 0
            || h1.rc.counts@[o as int] > 0 || args.block_only ==> h1.rc.straddle@[o as int]
            == h0.rc.straddle@[o as int],
{
    assert(log.contains(o) <==> vm.has(o) && h0.count(o) > 0 && h1.count(o) == 0);
}

/// Decrements leave alone whatever is not named by the other laws.
pub proof fn law_decrements_leave_the_rest_alone(
    vm: &ObjectTable,
    args: Args,
    prioritized: bool,
    h0: RcHeap,
    h1: RcHeap,
    out0: Seq<DecBatch>,
    out1: Seq<DecBatch>,
    objects: Seq<usize>,
    log: Seq<usize>,
)
    requires
        decs::decremented(vm, args, prioritized, h0, h1, out0, out1, objects, log),
    ensures
        h1.rc.max_ref_count == h0.rc.max_ref_count,
        h1.block_allocation == h0.block_allocation,
        h1.space.unlogged == h0.space.unlogged,
        h1.space.marks == h0.space.marks,
        h1.space.reserved_blocks == h0.space.reserved_blocks,
        h1.space.num_clean_blocks_released_mature == h0.space.num_clean_blocks_released_mature,
        h1.space.num_clean_blocks_released_lazy == h0.space.num_clean_blocks_released_lazy,
        h1.space.line_mark_state == h0.space.line_mark_state,
        h1.space.rc_enabled == h0.space.rc_enabled,
        h1.space.zeroed == h0.space.zeroed,
        h1.space.in_defrag == h0.space.in_defrag,
        h1.space.clean_blocks_in_defrag == h0.space.clean_blocks_in_defrag,
        h1.space.mutator_recycled_lines_in_pages == h0.space.mutator_recycled_lines_in_pages,
{
}

/// The batches that waited keep waiting, in their order. A batch that a packet of decrements hands over
/// fills the buffer to its size, or holds one decrement where the size is zero. It goes to the
/// unconstrained stage, with the priority of its packet, and the sweeping jobs wait for it.
pub proof fn law_batches_of_decrements_fill_the_buffer(
    vm: &ObjectTable,
    args: Args,
    prioritized: bool,
    h0: RcHeap,
    h1: RcHeap,
    out0: Seq<DecBatch>,
    out1: Seq<DecBatch>,
    objects: Seq<usize>,
    log: Seq<usize>,
    i: int,
)
    requires
        decs::decremented(vm, args, prioritized, h0, h1, out0, out1, objects, log),
    ensures
        out0.len() <= out1.len(),
        0 <= i < out0.len() ==> out1[i] == out0[i],
        out0.len() <= i < out1.len() ==> {
            &&& args.buffer_size > 0 ==> out1[i].decs@.len() == args.buffer_size
            &&& args.buffer_size == 0 ==> out1[i].decs@.len() == 1
            &&& out1[i].prioritized == prioritized
            &&& out1[i].counter.decs
            &&& out1[i].stage == WorkBucketStage::Unconstrained
        },
{
}

/// Every increment is accounted for, while batches wait as well as when none is left. The references
/// from the slots of the packet are counted at once, and those from the fields of the promoted are
/// counted or wait in a batch; these are all the fields of all the promoted that refer to the object. No
/// count drops, none exceeds the sticky count, and nothing else comes to wait: not even references to an
/// object that was alive.
pub proof fn law_every_increment_is_accounted_for(
    vm: &ObjectTable,
    kind: u8,
    capacity: usize,
    h0: RcHeap,
    h1: RcHeap,
    out0: Seq<IncBatch>,
    out1: Seq<IncBatch>,
    slots: Seq<usize>,
    log: Seq<usize>,
    x: usize,
)
    requires
        h0.wf(vm),
        h1.wf(vm),
        incs::incremented(vm, kind, capacity, h0, h1, out0, out1, slots, log),
        x < vm.objects@.len(),
    ensures
        ({
            let max = h0.rc.max_ref_count;
            let wanted = h0.rc.counts@[x as int] + incs::batch_refs(vm, out0, x) + vm.refs(slots, x)
                + vm.field_refs(log, x);
            let settled = h1.rc.counts@[x as int] + incs::batch_refs(vm, out1, x);
            settled == wanted || settled >= max && wanted >= max
        }),
        h0.rc.counts@[x as int] + vm.refs(slots, x) <= h0.rc.max_ref_count
            ==> h1.rc.counts@[x as int] >= h0.rc.counts@[x as int] + vm.refs(slots, x),
        h0.rc.counts@[x as int] + vm.refs(slots, x) >= h0.rc.max_ref_count
            ==> h1.rc.counts@[x as int] == h0.rc.max_ref_count,
        h0.rc.counts@[x as int] <= h1.rc.counts@[x as int],
        incs::batch_refs(vm, out1, x) <= incs::batch_refs(vm, out0, x) + vm.field_refs(log, x),
        h0.rc.counts@[x as int] > 0 ==> incs::batch_refs(vm, out1, x) == incs::batch_refs(
            vm,
            out0,
            x,
        ),
{
    assert(vm.has(x));
    assert(h0.count(x) <= h0.rc.max_ref_count);
    assert(h1.count(x) <= h1.rc.max_ref_count);
}

/// The promoted are those whose count left zero, each entered once. Each is referred to by a slot of the
/// packet, or by a field of one that was promoted before it; and whatever a slot of the packet refers to
/// is alive afterwards.
pub proof fn law_an_object_is_promoted_when_its_count_leaves_zero(
    vm: &ObjectTable,
    kind: u8,
    capacity: usize,
    h0: RcHeap,
    h1: RcHeap,
    out0: Seq<IncBatch>,
    out1: Seq<IncBatch>,
    slots: Seq<usize>,
    log: Seq<usize>,
    x: usize,
    i: int,
)
    requires
        h0.wf(vm),
        h1.wf(vm),
        incs::incremented(vm, kind, capacity, h0, h1, out0, out1, slots, log),
    ensures
        log.contains(x) <==> x < vm.objects@.len() && h0.rc.counts@[x as int] == 0
            && h1.rc.counts@[x as int] > 0,
        log.no_duplicates(),
        0 <= i < log.len() ==> (exists|k: int|
            0 <= k < slots.len() && vm.words@[#[trigger] slots[k] as int] == Some(log[i]))
            || (exists|j: int, k: int|
            0 <= j < i && 0 <= k < vm.objects@[log[j] as int].slots@.len()
                && vm.words@[#[trigger] vm.objects@[log[j] as int].slots@[k] as int] == Some(log[i])),
        0 <= i < slots.len() && slots[i] < vm.words@.len() ==> (vm.words@[slots[i] as int] matches Some(
            y,
        ) ==> h1.rc.counts@[y as int] > 0),
{
    if 0 <= i < log.len() {
        let o = log[i];
        if incs::targeted(vm, slots, o) {
            let k = choose|k: int| 0 <= k < slots.len() && #[trigger] vm.target(slots[k]) == Some(o);
            assert(vm.words@[slots[k] as int] == Some(o));
        } else {
            let j = choose|j: int|
                0 <= j < i && incs::targeted(vm, vm.slots_of(#[trigger] log[j]), log[i]);
            let fields = vm.slots_of(log[j]);
            let k = choose|k: int|
                0 <= k < fields.len() && #[trigger] vm.target(fields[k]) == Some(o);
            assert(vm.words@[vm.objects@[log[j] as int].slots@[k] as int] == Some(o));
        }
    }
    if 0 <= i < slots.len() && slots[i] < vm.words@.len() {
        if let Some(y) = vm.words@[slots[i] as int] {
            assert(vm.target(slots[i]) == Some(y));
            assert(vm.has(y));
            lemma_refs_positive(vm, slots, i);
            assert(h0.count(y) <= h0.rc.max_ref_count);
            assert(h0.rc.max_ref_count > 0);
            law_every_increment_is_accounted_for(
                vm,
                kind,
                capacity,
                h0,
                h1,
                out0,
                out1,
                slots,
                log,
                y,
            );
        }
    }
}

proof fn lemma_refs_positive(vm: &ObjectTable, slots: Seq<usize>, i: int)
    requires
        0 <= i < slots.len(),
    ensures
        vm.words@[slots[i] as int] matches Some(y) ==> vm.refs(slots, y) > 0,
    decreases slots.len(),
{
    if i < slots.len() - 1 {
        lemma_refs_positive(vm, slots.drop_last(), i);
    }
}

/// A nursery block in which an object is promoted is promoted in place. No other block changes, and
/// nothing but the state of that one.
pub proof fn law_a_promotion_promotes_its_block(
    vm: &ObjectTable,
    kind: u8,
    capacity: usize,
    h0: RcHeap,
    h1: RcHeap,
    out0: Seq<IncBatch>,
    out1: Seq<IncBatch>,
    slots: Seq<usize>,
    log: Seq<usize>,
    b: int,
)
    requires
        incs::incremented(vm, kind, capacity, h0, h1, out0, out1, slots, log),
        0 <= b < h0.space.blocks@.len(),
    ensures
        h1.space.blocks@.len() == h0.space.blocks@.len(),
        h0.space.blocks@[b].state == BlockState::Nursery && (exists|o: usize|
            o < vm.objects@.len() && (#[trigger] vm.objects@[o as int]).place == Place::Immix(
                b as usize,
            ) && h0.rc.counts@[o as int] == 0 && h1.rc.counts@[o as int] > 0)
            ==> h1.space.blocks@[b].state == BlockState::InPlacePromoted,
        h0.space.blocks@[b].state != BlockState::Nursery || (forall|o: usize|
            o < vm.objects@.len() && (#[trigger] vm.objects@[o as int]).place == Place::Immix(
                b as usize,
            ) ==> h0.rc.counts@[o as int] > 0 || h1.rc.counts@[o as int] == 0)
            ==> h1.space.blocks@[b].state == h0.space.blocks@[b].state,
        h1.space.blocks@[b].logged == h0.space.blocks@[b].logged,
        h1.space.blocks@[b].start == h0.space.blocks@[b].start,
        h1.space.blocks@[b].words == h0.space.blocks@[b].words,
        h1.space.blocks@[b].line_marks == h0.space.blocks@[b].line_marks,
        h1.space.blocks@[b].zeroed == h0.space.blocks@[b].zeroed,
{
    if exists|o: usize|
        o < vm.objects@.len() && (#[trigger] vm.objects@[o as int]).place == Place::Immix(
            b as usize,
        ) && h0.rc.counts@[o as int] == 0 && h1.rc.counts@[o as int] > 0 {
        let o = choose|o: usize|
            o < vm.objects@.len() && (#[trigger] vm.objects@[o as int]).place == Place::Immix(
                b as usize,
            ) && h0.rc.counts@[o as int] == 0 && h1.rc.counts@[o as int] > 0;
        assert(vm.has(o) && h0.count(o) == 0 && h1.count(o) > 0);
        assert(log.contains(o));
        let i = log.index_of(o);
        assert(vm.place_of(log[i]) == Place::Immix(b as usize));
        assert(incs::hits_block(vm, log, b));
    }
    if incs::hits_block(vm, log, b) {
        let i = choose|i: int|
            0 <= i < log.len() && #[trigger] vm.place_of(log[i]) == Place::Immix(b as usize);
        assert(log.contains(log[i]));
        assert(vm.objects@[log[i] as int].place == Place::Immix(b as usize));
    }
}

/// The straddle lines of a promoted object are marked with its size, unless it is large. Those of all
/// other objects stay.
pub proof fn law_the_straddle_lines_of_the_promoted_are_marked(
    vm: &ObjectTable,
    kind: u8,
    capacity: usize,
    h0: RcHeap,
    h1: RcHeap,
    out0: Seq<IncBatch>,
    out1: Seq<IncBatch>,
    slots: Seq<usize>,
    log: Seq<usize>,
    o: usize,
)
    requires
        h0.wf(vm),
        incs::incremented(vm, kind, capacity, h0, h1, out0, out1, slots, log),
        o < vm.objects@.len(),
    ensures
        h1.rc.straddle@.len() == h0.rc.straddle@.len(),
        !(vm.objects@[o as int].place is Large) && h0.rc.counts@[o as int] == 0
            && h1.rc.counts@[o as int] > 0 ==> h1.rc.straddle@[o as int] == Some(
            vm.objects@[o as int].size,
        ),
        vm.objects@[o as int].place is Large || h0.rc.counts@[o as int] > 0
            || h1.rc.counts@[o as int] == 0 ==> h1.rc.straddle@[o as int]
            == h0.rc.straddle@[o as int],
{
    assert(log.contains(o) <==> vm.has(o) && h0.count(o) == 0 && h1.count(o) > 0);
}

/// A word is unlogged afterwards exactly if it was before, if it is a mature slot that was loaded, or if
/// it is a field of a promoted object or the start of a promoted large one.
pub proof fn law_the_fields_of_the_promoted_are_unlogged(
    vm: &ObjectTable,
    kind: u8,
    capacity: usize,
    h0: RcHeap,
    h1: RcHeap,
    out0: Seq<IncBatch>,
    out1: Seq<IncBatch>,
    slots: Seq<usize>,
    log: Seq<usize>,
    w: usize,
)
    requires
        incs::incremented(vm, kind, capacity, h0, h1, out0, out1, slots, log),
        w < h0.space.unlogged@.len(),
    ensures
        h1.space.unlogged@.len() == h0.space.unlogged@.len(),
        h1.space.unlogged@[w as int] <==> {
            ||| h0.space.unlogged@[w as int]
            ||| kind == EDGE_KIND_MATURE && slots.contains(w)
            ||| exists|o: usize|
                o < vm.objects@.len() && (#[trigger] vm.objects@[o as int]).slots@.contains(w)
                    && h0.rc.counts@[o as int] == 0 && h1.rc.counts@[o as int] > 0
            ||| exists|o: usize|
                o < vm.objects@.len() && (#[trigger] vm.objects@[o as int]).place is Large
                    && vm.objects@[o as int].start == w && h0.rc.counts@[o as int] == 0
                    && h1.rc.counts@[o as int] > 0
        },
{
    if vm.is_field(log, w) {
        let i = choose|i: int| 0 <= i < log.len() && #[trigger] vm.slots_of(log[i]).contains(w);
        assert(log.contains(log[i]));
        assert(vm.objects@[log[i] as int].slots@.contains(w));
    }
    if incs::is_large_start(vm, log, w) {
        let i = choose|i: int|
            0 <= i < log.len() && #[trigger] vm.place_of(log[i]) == Place::Large
                && vm.objects@[log[i] as int].start == w;
        assert(log.contains(log[i]));
        assert(vm.objects@[log[i] as int].place is Large);
    }
    if exists|o: usize|
        o < vm.objects@.len() && (#[trigger] vm.objects@[o as int]).slots@.contains(w)
            && h0.rc.counts@[o as int] == 0 && h1.rc.counts@[o as int] > 0 {
        let o = choose|o: usize|
            o < vm.objects@.len() && (#[trigger] vm.objects@[o as int]).slots@.contains(w)
                && h0.rc.counts@[o as int] == 0 && h1.rc.counts@[o as int] > 0;
        assert(vm.has(o) && h0.count(o) == 0 && h1.count(o) > 0);
        assert(log.contains(o));
        let i = log.index_of(o);
        assert(vm.slots_of(log[i]).contains(w));
        assert(vm.is_field(log, w));
    }
    if exists|o: usize|
        o < vm.objects@.len() && (#[trigger] vm.objects@[o as int]).place is Large
            && vm.objects@[o as int].start == w && h0.rc.counts@[o as int] == 0
            && h1.rc.counts@[o as int] > 0 {
        let o = choose|o: usize|
            o < vm.objects@.len() && (#[trigger] vm.objects@[o as int]).place is Large
                && vm.objects@[o as int].start == w && h0.rc.counts@[o as int] == 0
                && h1.rc.counts@[o as int] > 0;
        assert(vm.has(o) && h0.count(o) == 0 && h1.count(o) > 0);
        assert(log.contains(o));
        let i = log.index_of(o);
        assert(vm.place_of(log[i]) == Place::Large);
        assert(incs::is_large_start(vm, log, w));
    }
}

/// Increments leave alone whatever is not named by the other laws. The blocks that are counted as
/// promoted in place grow by those that left the nursery.
pub proof fn law_increments_leave_the_rest_alone(
    vm: &ObjectTable,
    kind: u8,
    capacity: usize,
    h0: RcHeap,
    h1: RcHeap,
    out0: Seq<IncBatch>,
    out1: Seq<IncBatch>,
    slots: Seq<usize>,
    log: Seq<usize>,
)
    requires
        h0.wf(vm),
        h1.wf(vm),
        incs::incremented(vm, kind, capacity, h0, h1, out0, out1, slots, log),
    ensures
        h1.rc.max_ref_count == h0.rc.max_ref_count,
        h1.block_allocation.num_nursery_blocks == h0.block_allocation.num_nursery_blocks,
        h1.block_allocation.in_place_promoted_nursery_blocks
            - h0.block_allocation.in_place_promoted_nursery_blocks == h0.space.nursery()
            - h1.space.nursery(),
        h1.space.marks == h0.space.marks,
        h1.space.reserved_blocks == h0.space.reserved_blocks,
        h1.space.possibly_dead_mature_blocks == h0.space.possibly_dead_mature_blocks,
        h1.space.num_clean_blocks_released_mature == h0.space.num_clean_blocks_released_mature,
        h1.space.num_clean_blocks_released_lazy == h0.space.num_clean_blocks_released_lazy,
        h1.space.line_mark_state == h0.space.line_mark_state,
        h1.space.rc_enabled == h0.space.rc_enabled,
        h1.space.zeroed == h0.space.zeroed,
        h1.space.in_defrag == h0.space.in_defrag,
        h1.space.clean_blocks_in_defrag == h0.space.clean_blocks_in_defrag,
        h1.space.mutator_recycled_lines_in_pages == h0.space.mutator_recycled_lines_in_pages,
{
}

/// The batches that waited keep waiting, in their order. A batch that a packet of increments hands over
/// is not empty and fills the buffer, holds fields of promoted objects alone, and goes to the
/// unconstrained stage.
pub proof fn law_batches_of_increments_hold_fields_of_the_promoted(
    vm: &ObjectTable,
    kind: u8,
    capacity: usize,
    h0: RcHeap,
    h1: RcHeap,
    out0: Seq<IncBatch>,
    out1: Seq<IncBatch>,
    slots: Seq<usize>,
    log: Seq<usize>,
    i: int,
    n: int,
)
    requires
        incs::incremented(vm, kind, capacity, h0, h1, out0, out1, slots, log),
    ensures
        out0.len() <= out1.len(),
        0 <= i < out0.len() ==> out1[i] == out0[i],
        out0.len() <= i < out1.len() ==> {
            &&& out1[i].incs@.len() > 0
            &&& out1[i].incs@.len() >= capacity
            &&& out1[i].stage == WorkBucketStage::Unconstrained
        },
        out0.len() <= i < out1.len() && 0 <= n < out1[i].incs@.len() ==> exists|o: usize|
            o < vm.objects@.len() && (#[trigger] vm.objects@[o as int]).slots@.contains(
                out1[i].incs@[n],
            ) && h0.rc.counts@[o as int] == 0 && h1.rc.counts@[o as int] > 0,
{
    if out0.len() <= i < out1.len() && 0 <= n < out1[i].incs@.len() {
        let s = out1[i].incs@[n];
        assert(incs::come_from(vm, out1[i].incs@, Seq::empty(), log));
        assert(!Seq::<usize>::empty().contains(s));
        assert(vm.is_field(log, s));
        let k = choose|k: int| 0 <= k < log.len() && #[trigger] vm.slots_of(log[k]).contains(s);
        assert(log.contains(log[k]));
        assert(vm.objects@[log[k] as int].slots@.contains(s));
    }
}

/// What a packet needs: slots of increments are known words, decrements are of objects, and the fields
/// of an object can be counted in 32 bits besides a full buffer. No more is asked of it.
pub proof fn law_what_packets_need(
    vm: &ObjectTable,
    slots: Seq<usize>,
    objects: Seq<usize>,
    capacity: usize,
)
    ensures
        (forall|i: int| 0 <= i < slots.len() ==> #[trigger] slots[i] < vm.words@.len())
            ==> vm.has_slots(slots),
        (forall|i: int| 0 <= i < objects.len() ==> #[trigger] objects[i] < vm.objects@.len())
            ==> decs::all_objects(vm, objects),
        (forall|o: int|
            0 <= o < vm.objects@.len() ==> (#[trigger] vm.objects@[o]).slots@.len() + capacity
                <= u32::MAX) ==> incs::fits(vm, capacity),
{
    if forall|o: int|
        0 <= o < vm.objects@.len() ==> (#[trigger] vm.objects@[o]).slots@.len() + capacity
            <= u32::MAX {
        assert forall|o: usize| #[trigger] vm.has(o) implies vm.slots_of(o).len() + capacity
            <= u32::MAX by {
            assert(vm.objects@[o as int].slots@.len() + capacity <= u32::MAX);
        }
    }
}

/// The kinds of slots are told apart.
pub proof fn law_kinds_of_slots_differ()
    ensures
        EDGE_KIND_ROOT == 0,
        EDGE_KIND_NURSERY == 1,
        EDGE_KIND_MATURE == 2,
{
}

} // verus!
