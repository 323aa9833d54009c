//! Increments.

use vstd::prelude::*;

use crate::plan::lxr::rc::EDGE_KIND_MATURE;
use crate::policy::immix::block::{Block, BlockState};
use crate::policy::immix::block_allocation::BlockAllocation;
use crate::policy::immix::space::{ImmixSpace, RcHeap};
use crate::scheduler::work_bucket::WorkBucketStage;
use crate::util::rc;
use crate::vm::{ObjectReference, ObjectTable, Place, Slot};

verus! {

/// A buffer of increments: for each slot, the count of the object it refers to grows by one.
pub struct ProcessIncs<const KIND: u8> {
    /// The slots to process.
    pub incs: Vec<Slot>,
    /// Slots of freshly promoted objects, found while processing.
    pub new_incs: Vec<Slot>,
    pub new_incs_count: u32,
    /// The number of new increments at which they are handed over as a packet of their own.
    pub capacity: usize,
    /// The objects promoted so far, in the order of their promotion.
    pub promoted: Ghost<Seq<usize>>,
}

/// A batch of increments that was handed over as a packet of its own. Its slots are those of freshly
/// promoted objects.
pub struct IncBatch {
    pub incs: Vec<Slot>,
    /// The stage to which the packet was added.
    pub stage: WorkBucketStage,
}

/// The references in the batches `out` to `x`.
pub open spec fn batch_refs(vm: &ObjectTable, out: Seq<IncBatch>, x: usize) -> nat
    decreases out.len(),
{
    if out.len() == 0 {
        0
    } else {
        batch_refs(vm, out.drop_last(), x) + vm.refs(out.last().incs@, x)
    }
}

/// Whether an object of `log` lies in block `b`.
pub open spec fn hits_block(vm: &ObjectTable, log: Seq<usize>, b: int) -> bool {
    exists|i: int| 0 <= i < log.len() && #[trigger] vm.place_of(log[i]) == Place::Immix(b as usize)
}

/// Whether `w` is the first word of a large object of `log`.
pub open spec fn is_large_start(vm: &ObjectTable, log: Seq<usize>, w: usize) -> bool {
    exists|i: int|
        0 <= i < log.len() && #[trigger] vm.place_of(log[i]) == Place::Large
            && vm.objects@[log[i] as int].start == w
}

/// What promoting the objects of `log` does to everything but the counts, where the slots of
/// `loaded` are unlogged too: their nursery blocks are promoted in place, their fields and the
/// first words of the large ones are unlogged, and the straddle lines of the others are marked.
pub open spec fn promotion(
    vm: &ObjectTable,
    h0: RcHeap,
    h1: RcHeap,
    log: Seq<usize>,
    loaded: Seq<usize>,
) -> bool {
    &&& h1.space == (ImmixSpace { blocks: h1.space.blocks, unlogged: h1.space.unlogged, ..h0.space })
    &&& h1.block_allocation == (BlockAllocation {
        in_place_promoted_nursery_blocks: h1.block_allocation.in_place_promoted_nursery_blocks,
        ..h0.block_allocation
    })
    &&& h1.rc.max_ref_count == h0.rc.max_ref_count
    &&& h1.space.blocks@.len() == h0.space.blocks@.len()
    &&& forall|b: int|
        0 <= b < h0.space.blocks@.len() ==> #[trigger] h1.space.blocks@[b] == (Block {
            state: if h0.space.blocks@[b].state == BlockState::Nursery && hits_block(vm, log, b) {
                BlockState::InPlacePromoted
            } else {
                h0.space.blocks@[b].state
            },
            ..h0.space.blocks@[b]
        })
    &&& h1.space.unlogged@.len() == h0.space.unlogged@.len()
    &&& forall|w: usize|
        w < h0.space.unlogged@.len() ==> #[trigger] h1.space.unlogged@[w as int] == (
        h0.space.unlogged@[w as int] || loaded.contains(w) || vm.is_field(log, w)
            || is_large_start(vm, log, w))
    &&& h1.rc.straddle@.len() == h0.rc.straddle@.len()
    &&& forall|o: usize|
        o < h0.rc.straddle@.len() ==> #[trigger] h1.rc.straddle@[o as int] == (if log.contains(o)
            && !vm.in_los(o) {
            Some(vm.objects@[o as int].size)
        } else {
            h0.rc.straddle@[o as int]
        })
}

/// The objects of `log` are those whose count left zero, each once.
pub open spec fn left_zero(vm: &ObjectTable, h0: RcHeap, h1: RcHeap, log: Seq<usize>) -> bool {
    &&& log.no_duplicates()
    &&& forall|x: usize| #[trigger] vm.has(x) ==> h0.count(x) <= h1.count(x)
    &&& forall|x: usize| #[trigger]
        log.contains(x) <==> vm.has(x) && h0.count(x) == 0 && h1.count(x) > 0
    &&& rc::zeros(h1.rc.counts@, vm.objects@.len() as int) + log.len() == rc::zeros(
        h0.rc.counts@,
        vm.objects@.len() as int,
    )
}

/// The slots of `slots` that refer to an object of count zero other than `o`.
pub open spec fn fresh_slots(vm: &ObjectTable, h: RcHeap, o: usize, slots: Seq<usize>) -> Seq<usize>
    decreases slots.len(),
{
    if slots.len() == 0 {
        Seq::empty()
    } else {
        let rest = fresh_slots(vm, h, o, slots.drop_last());
        match vm.target(slots.last()) {
            Some(x) => if x != o && h.count(x) == 0 {
                rest.push(slots.last())
            } else {
                rest
            },
            None => rest,
        }
    }
}

/// The count of `x` after `o` was incremented: one more for `o`, up to the sticky count. If that
/// promotes `o`, every field of `o` that refers to a live object, `o` included, counts at once too.
pub open spec fn count_after_inc(vm: &ObjectTable, h: RcHeap, o: usize, x: usize) -> int {
    let max = h.rc.max_ref_count as int;
    let c = rc::saturated(
        max,
        h.count(x) + (if x == o {
            1int
        } else {
            0int
        }),
    );
    if h.count(o) == 0 && c > 0 {
        rc::saturated(max, c + vm.refs(vm.slots_of(o), x))
    } else {
        c
    }
}

/// The count of `x` after the fields of `o` were scanned: those that refer to a live object count at
/// once, up to the sticky count.
pub open spec fn scanned_count(vm: &ObjectTable, h: RcHeap, o: usize, x: usize) -> int {
    if h.count(x) == 0 {
        0
    } else {
        rc::saturated(h.rc.max_ref_count as int, h.count(x) + vm.refs(vm.slots_of(o), x))
    }
}

/// Whether entering the slots `more` takes the new increments and the batches from the first of each
/// to the second: all are handed over as a batch if they fill the buffer, and wait otherwise.
pub open spec fn queued(
    capacity: usize,
    new0: Seq<usize>,
    new1: Seq<usize>,
    out0: Seq<IncBatch>,
    out1: Seq<IncBatch>,
    more: Seq<usize>,
) -> bool {
    let all = new0 + more;
    if all.len() > 0 && all.len() >= capacity {
        &&& new1.len() == 0
        &&& out1.len() == out0.len() + 1
        &&& out1.drop_last() == out0
        &&& out1.last().incs@ == all
        &&& out1.last().stage == WorkBucketStage::Unconstrained
    } else {
        &&& new1 == all
        &&& out1 == out0
    }
}

/// What incrementing `o` does to the counts and to the increments that wait: of the fields of an
/// object that is promoted, exactly those that refer to an object of count zero are entered.
pub open spec fn inc_processed<const KIND: u8>(
    vm: &ObjectTable,
    p0: ProcessIncs<KIND>,
    p1: ProcessIncs<KIND>,
    h0: RcHeap,
    h1: RcHeap,
    out0: Seq<IncBatch>,
    out1: Seq<IncBatch>,
    o: usize,
) -> bool {
    &&& forall|x: usize| #[trigger] vm.has(x) ==> h1.count(x) == count_after_inc(vm, h0, o, x)
    &&& h0.count(o) == 0 ==> queued(
        p0.capacity,
        p0.new_incs@,
        p1.new_incs@,
        out0,
        out1,
        fresh_slots(vm, h0, o, vm.slots_of(o)),
    )
    &&& h0.count(o) > 0 ==> p1.new_incs@ == p0.new_incs@ && out1 == out0
}

/// The slots that refer to other objects of count zero are the same where only the count of `o`
/// differs.
proof fn lemma_fresh_slots_same(
    vm: &ObjectTable,
    h0: RcHeap,
    h1: RcHeap,
    o: usize,
    slots: Seq<usize>,
    blocks: nat,
)
    requires
        vm.wf(blocks),
        vm.has_slots(slots),
        forall|x: usize| #[trigger] vm.has(x) && x != o ==> h1.count(x) == h0.count(x),
    ensures
        fresh_slots(vm, h1, o, slots) == fresh_slots(vm, h0, o, slots),
    decreases slots.len(),
{
    if slots.len() > 0 {
        let rest = slots.drop_last();
        assert forall|i: int| 0 <= i < rest.len() implies #[trigger] rest[i] < vm.words@.len() by {
            assert(slots[i] == rest[i]);
        }
        lemma_fresh_slots_same(vm, h0, h1, o, rest, blocks);
        assert(slots[slots.len() - 1] < vm.words@.len());
        assert(vm.target(slots.last()) matches Some(x) ==> vm.has(x));
    }
}

/// Whether a slot of `slots` refers to `x`.
pub open spec fn targeted(vm: &ObjectTable, slots: Seq<usize>, x: usize) -> bool {
    exists|i: int| 0 <= i < slots.len() && #[trigger] vm.target(slots[i]) == Some(x)
}

/// The references to `x` that wait to be counted: in the new increments of a packet, and in the
/// batches that were handed over.
pub open spec fn owed(vm: &ObjectTable, new_incs: Seq<usize>, out: Seq<IncBatch>, x: usize) -> nat {
    vm.refs(new_incs, x) + batch_refs(vm, out, x)
}

/// The number of fields of any object leaves room to count the new increments in 32 bits.
pub open spec fn fits(vm: &ObjectTable, capacity: usize) -> bool {
    forall|o: usize| #[trigger] vm.has(o) ==> vm.slots_of(o).len() + capacity <= u32::MAX
}

/// The batches from position `from` on hold at least one slot and as many as fill a buffer, and go to
/// the unconstrained stage. Each of their slots is one of `waiting`, or a field of an object of `log`.
pub open spec fn batches_from(
    vm: &ObjectTable,
    out: Seq<IncBatch>,
    from: int,
    waiting: Seq<usize>,
    log: Seq<usize>,
    capacity: usize,
) -> bool {
    forall|i: int|
        from <= i < out.len() ==> {
            &&& (#[trigger] out[i]).incs@.len() > 0
            &&& out[i].incs@.len() >= capacity
            &&& out[i].stage == WorkBucketStage::Unconstrained
            &&& come_from(vm, out[i].incs@, waiting, log)
        }
}

/// Each of `slots` is one of `waiting`, or a field of an object of `log`.
pub open spec fn come_from(
    vm: &ObjectTable,
    slots: Seq<usize>,
    waiting: Seq<usize>,
    log: Seq<usize>,
) -> bool {
    forall|i: int|
        0 <= i < slots.len() ==> waiting.contains(#[trigger] slots[i]) || vm.is_field(log, slots[i])
}

/// Each object of `log` is referred to by one of `slots`, or by a field of an object before it.
pub open spec fn justified(vm: &ObjectTable, slots: Seq<usize>, log: Seq<usize>) -> bool {
    forall|i: int|
        0 <= i < log.len() ==> targeted(vm, slots, #[trigger] log[i]) || exists|j: int|
            0 <= j < i && targeted(vm, vm.slots_of(#[trigger] log[j]), log[i])
}

/// Whether every reference from `slots` to `x`, of whose increments `owed0` wait before and `owed1`
/// after, is counted at once, up to the sticky count: no more come to wait than those from fields of
/// the objects of `log`, and none to an object that is alive.
pub open spec fn at_once(
    vm: &ObjectTable,
    h0: RcHeap,
    h1: RcHeap,
    owed0: int,
    owed1: int,
    slots: Seq<usize>,
    log: Seq<usize>,
    x: usize,
) -> bool {
    &&& h1.count(x) >= rc::saturated(
        h0.rc.max_ref_count as int,
        h0.count(x) + vm.refs(slots, x),
    )
    &&& owed1 <= owed0 + vm.field_refs(log, x)
    &&& h0.count(x) > 0 ==> owed1 == owed0
}

/// What a packet of increments does to the heap when it runs on the slots `incs`, promotes the
/// objects of `log` in that order and hands over the batches that `out1` has and `out0` has not:
///
/// * an object is promoted exactly when its count leaves zero, and each is reached from the slots
///   through promoted objects alone;
/// * every reference from one of the slots is counted at once, up to the sticky count;
/// * every reference from a field of a promoted object is counted once, or waits in a batch to be
///   counted;
/// * a batch holds fields of promoted objects, and is handed over when the buffer is full.
pub open spec fn incremented(
    vm: &ObjectTable,
    kind: u8,
    capacity: usize,
    h0: RcHeap,
    h1: RcHeap,
    out0: Seq<IncBatch>,
    out1: Seq<IncBatch>,
    incs: Seq<usize>,
    log: Seq<usize>,
) -> bool {
    &&& promotion(
        vm,
        h0,
        h1,
        log,
        if kind == EDGE_KIND_MATURE {
            incs
        } else {
            Seq::empty()
        },
    )
    &&& left_zero(vm, h0, h1, log)
    &&& justified(vm, incs, log)
    &&& forall|x: usize| #[trigger]
        vm.has(x) ==> rc::saturated(
            h0.rc.max_ref_count as int,
            h1.count(x) + batch_refs(vm, out1, x),
        ) == rc::saturated(
            h0.rc.max_ref_count as int,
            h0.count(x) + batch_refs(vm, out0, x) + vm.refs(incs, x) + vm.field_refs(log, x),
        )
    &&& forall|x: usize| #[trigger]
        vm.has(x) ==> at_once(
            vm,
            h0,
            h1,
            batch_refs(vm, out0, x) as int,
            batch_refs(vm, out1, x) as int,
            incs,
            log,
            x,
        )
    &&& starts_with(out1, out0)
    &&& batches_from(vm, out1, out0.len() as int, Seq::empty(), log, capacity)
}

/// `a` is how `b` starts.
pub open spec fn starts_with(b: Seq<IncBatch>, a: Seq<IncBatch>) -> bool {
    &&& a.len() <= b.len()
    &&& forall|i: int| 0 <= i < a.len() ==> #[trigger] b[i] == a[i]
}

/// More batches hold no fewer references.
pub proof fn lemma_batch_refs_prefix(
    vm: &ObjectTable,
    a: Seq<IncBatch>,
    b: Seq<IncBatch>,
    x: usize,
)
    requires
        starts_with(b, a),
    ensures
        batch_refs(vm, a, x) <= batch_refs(vm, b, x),
    decreases b.len(),
{
    if b.len() > a.len() {
        lemma_batch_refs_prefix(vm, a, b.drop_last(), x);
    } else {
        assert(a =~= b);
    }
}

/// What processing `slots` does: the objects of `log` are promoted, in that order, every reference
/// from `slots` is counted, and every one from a field of a promoted object is, or waits to be.
pub open spec fn advance<const KIND: u8>(
    vm: &ObjectTable,
    p0: ProcessIncs<KIND>,
    p1: ProcessIncs<KIND>,
    h0: RcHeap,
    h1: RcHeap,
    out0: Seq<IncBatch>,
    out1: Seq<IncBatch>,
    slots: Seq<usize>,
    log: Seq<usize>,
) -> bool {
    &&& p1.incs == p0.incs
    &&& p1.capacity == p0.capacity
    &&& p1.promoted@ == p0.promoted@ + log
    &&& promotion(
        vm,
        h0,
        h1,
        log,
        if KIND == EDGE_KIND_MATURE {
            slots
        } else {
            Seq::empty()
        },
    )
    &&& left_zero(vm, h0, h1, log)
    &&& forall|i: int| 0 <= i < log.len() ==> targeted(vm, slots, #[trigger] log[i])
    &&& forall|x: usize| #[trigger]
        vm.has(x) ==> rc::saturated(
            h0.rc.max_ref_count as int,
            h1.count(x) + owed(vm, p1.new_incs@, out1, x),
        ) == rc::saturated(
            h0.rc.max_ref_count as int,
            h0.count(x) + owed(vm, p0.new_incs@, out0, x) + vm.refs(slots, x) + vm.field_refs(
                log,
                x,
            ),
        )
    &&& forall|x: usize| #[trigger]
        vm.has(x) ==> at_once(
            vm,
            h0,
            h1,
            owed(vm, p0.new_incs@, out0, x) as int,
            owed(vm, p1.new_incs@, out1, x) as int,
            slots,
            log,
            x,
        )
    &&& starts_with(out1, out0)
    &&& batches_from(vm, out1, out0.len() as int, p0.new_incs@, log, p0.capacity)
    &&& come_from(vm, p1.new_incs@, p0.new_incs@, log)
    &&& log.len() == 0 ==> p1.new_incs@ == p0.new_incs@ && out1 == out0
}

/// The increments of `x` that wait grow by those that are entered.
proof fn lemma_queued(
    vm: &ObjectTable,
    capacity: usize,
    new0: Seq<usize>,
    new1: Seq<usize>,
    out0: Seq<IncBatch>,
    out1: Seq<IncBatch>,
    more: Seq<usize>,
    x: usize,
)
    requires
        queued(capacity, new0, new1, out0, out1, more),
    ensures
        owed(vm, new1, out1, x) == owed(vm, new0, out0, x) + vm.refs(more, x),
{
    vm.lemma_refs_add(new0, more, x);
}

/// The slots that are entered are among those that were scanned, and none refers to a live object.
proof fn lemma_fresh_slots_refs(
    vm: &ObjectTable,
    h: RcHeap,
    o: usize,
    slots: Seq<usize>,
    x: usize,
)
    ensures
        vm.refs(fresh_slots(vm, h, o, slots), x) <= vm.refs(slots, x),
        h.count(x) > 0 ==> vm.refs(fresh_slots(vm, h, o, slots), x) == 0,
    decreases slots.len(),
{
    if slots.len() > 0 {
        let rest = fresh_slots(vm, h, o, slots.drop_last());
        lemma_fresh_slots_refs(vm, h, o, slots.drop_last(), x);
        vm.lemma_refs_push(rest, slots.last(), x);
    }
}

proof fn lemma_batch_refs_push(vm: &ObjectTable, out: Seq<IncBatch>, v: IncBatch, x: usize)
    ensures
        batch_refs(vm, out.push(v), x) == batch_refs(vm, out, x) + vm.refs(v.incs@, x),
{
    assert(out.push(v).drop_last() =~= out);
}

pub proof fn lemma_is_field_add(vm: &ObjectTable, a: Seq<usize>, b: Seq<usize>, w: usize)
    ensures
        vm.is_field(a + b, w) == (vm.is_field(a, w) || vm.is_field(b, w)),
{
    if vm.is_field(a, w) {
        let i = choose|i: int| 0 <= i < a.len() && #[trigger] vm.slots_of(a[i]).contains(w);
        assert(vm.slots_of((a + b)[i]).contains(w));
    }
    if vm.is_field(b, w) {
        let i = choose|i: int| 0 <= i < b.len() && #[trigger] vm.slots_of(b[i]).contains(w);
        assert(vm.slots_of((a + b)[i + a.len()]).contains(w));
    }
    if vm.is_field(a + b, w) {
        let i = choose|i: int|
            0 <= i < (a + b).len() && #[trigger] vm.slots_of((a + b)[i]).contains(w);
        if i < a.len() {
            assert(vm.slots_of(a[i]).contains(w));
        } else {
            assert(vm.slots_of(b[i - a.len()]).contains(w));
        }
    }
}

proof fn lemma_is_large_start_add(vm: &ObjectTable, a: Seq<usize>, b: Seq<usize>, w: usize)
    ensures
        is_large_start(vm, a + b, w) == (is_large_start(vm, a, w) || is_large_start(vm, b, w)),
{
    if is_large_start(vm, a, w) {
        let i = choose|i: int|
            0 <= i < a.len() && #[trigger] vm.place_of(a[i]) == Place::Large
                && vm.objects@[a[i] as int].start == w;
        assert(vm.place_of((a + b)[i]) == Place::Large);
    }
    if is_large_start(vm, b, w) {
        let i = choose|i: int|
            0 <= i < b.len() && #[trigger] vm.place_of(b[i]) == Place::Large
                && vm.objects@[b[i] as int].start == w;
        assert(vm.place_of((a + b)[i + a.len()]) == Place::Large);
    }
    if is_large_start(vm, a + b, w) {
        let i = choose|i: int|
            0 <= i < (a + b).len() && #[trigger] vm.place_of((a + b)[i]) == Place::Large
                && vm.objects@[(a + b)[i] as int].start == w;
        if i < a.len() {
            assert(vm.place_of(a[i]) == Place::Large);
        } else {
            assert(vm.place_of(b[i - a.len()]) == Place::Large);
        }
    }
}

pub proof fn lemma_hits_block_add(vm: &ObjectTable, a: Seq<usize>, c: Seq<usize>, b: int)
    ensures
        hits_block(vm, a + c, b) == (hits_block(vm, a, b) || hits_block(vm, c, b)),
{
    let p = Place::Immix(b as usize);
    if hits_block(vm, a, b) {
        let i = choose|i: int| 0 <= i < a.len() && #[trigger] vm.place_of(a[i]) == p;
        assert(vm.place_of((a + c)[i]) == p);
    }
    if hits_block(vm, c, b) {
        let i = choose|i: int| 0 <= i < c.len() && #[trigger] vm.place_of(c[i]) == p;
        assert(vm.place_of((a + c)[i + a.len()]) == p);
    }
    if hits_block(vm, a + c, b) {
        let i = choose|i: int| 0 <= i < (a + c).len() && #[trigger] vm.place_of((a + c)[i]) == p;
        if i < a.len() {
            assert(vm.place_of(a[i]) == p);
        } else {
            assert(vm.place_of(c[i - a.len()]) == p);
        }
    }
}

pub proof fn lemma_contains_add(a: Seq<usize>, b: Seq<usize>, x: usize)
    ensures
        (a + b).contains(x) == (a.contains(x) || b.contains(x)),
{
    if a.contains(x) {
        assert((a + b)[a.index_of(x)] == x);
    }
    if b.contains(x) {
        assert((a + b)[b.index_of(x) + a.len()] == x);
    }
    if (a + b).contains(x) {
        let i = (a + b).index_of(x);
        if i < a.len() {
            assert(a[i] == x);
        } else {
            assert(b[i - a.len()] == x);
        }
    }
}

/// Promoting the objects of `log1` and then those of `log2` promotes those of both.
pub proof fn lemma_promotion_add(
    vm: &ObjectTable,
    h0: RcHeap,
    h1: RcHeap,
    h2: RcHeap,
    log1: Seq<usize>,
    log2: Seq<usize>,
    loaded1: Seq<usize>,
    loaded2: Seq<usize>,
)
    requires
        promotion(vm, h0, h1, log1, loaded1),
        promotion(vm, h1, h2, log2, loaded2),
    ensures
        promotion(vm, h0, h2, log1 + log2, loaded1 + loaded2),
{
    assert forall|b: int| 0 <= b < h0.space.blocks@.len() implies #[trigger] h2.space.blocks@[b] == (
    Block {
        state: if h0.space.blocks@[b].state == BlockState::Nursery && hits_block(vm, log1 + log2, b) {
            BlockState::InPlacePromoted
        } else {
            h0.space.blocks@[b].state
        },
        ..h0.space.blocks@[b]
    }) by {
        lemma_hits_block_add(vm, log1, log2, b);
        assert(h1.space.blocks@[b].same_but_state(h0.space.blocks@[b]));
    }
    assert forall|w: usize| w < h0.space.unlogged@.len() implies #[trigger] h2.space.unlogged@[w as int]
        == (h0.space.unlogged@[w as int] || (loaded1 + loaded2).contains(w) || vm.is_field(
        log1 + log2,
        w,
    ) || is_large_start(vm, log1 + log2, w)) by {
        lemma_contains_add(loaded1, loaded2, w);
        lemma_is_field_add(vm, log1, log2, w);
        lemma_is_large_start_add(vm, log1, log2, w);
        assert(h1.space.unlogged@[w as int] == (h0.space.unlogged@[w as int] || loaded1.contains(w)
            || vm.is_field(log1, w) || is_large_start(vm, log1, w)));
    }
    assert forall|o: usize| o < h0.rc.straddle@.len() implies #[trigger] h2.rc.straddle@[o as int]
        == (if (log1 + log2).contains(o) && !vm.in_los(o) {
        Some(vm.objects@[o as int].size)
    } else {
        h0.rc.straddle@[o as int]
    }) by {
        lemma_contains_add(log1, log2, o);
        assert(h1.rc.straddle@[o as int] == (if log1.contains(o) && !vm.in_los(o) {
            Some(vm.objects@[o as int].size)
        } else {
            h0.rc.straddle@[o as int]
        }));
    }
}

/// The objects that leave zero in one step and in the next are those that leave zero in both.
pub proof fn lemma_left_zero_add(
    vm: &ObjectTable,
    h0: RcHeap,
    h1: RcHeap,
    h2: RcHeap,
    log1: Seq<usize>,
    log2: Seq<usize>,
)
    requires
        left_zero(vm, h0, h1, log1),
        left_zero(vm, h1, h2, log2),
    ensures
        left_zero(vm, h0, h2, log1 + log2),
{
    assert forall|x: usize| #[trigger] (log1 + log2).contains(x) <==> vm.has(x) && h0.count(x) == 0
        && h2.count(x) > 0 by {
        lemma_contains_add(log1, log2, x);
        assert(log1.contains(x) <==> vm.has(x) && h0.count(x) == 0 && h1.count(x) > 0);
        assert(log2.contains(x) <==> vm.has(x) && h1.count(x) == 0 && h2.count(x) > 0);
    }
    let log = log1 + log2;
    assert forall|i: int, j: int| 0 <= i < log.len() && 0 <= j < log.len() && i != j implies log[i]
        != log[j] by {
        if i < log1.len() && j >= log1.len() {
            assert(log1.contains(log1[i]));
            assert(log2.contains(log2[j - log1.len()]));
        } else if i >= log1.len() && j < log1.len() {
            assert(log1.contains(log1[j]));
            assert(log2.contains(log2[i - log1.len()]));
        }
    }
    assert(log.no_duplicates());
    assert forall|x: usize| #[trigger] vm.has(x) implies h0.count(x) <= h2.count(x) by {
        assert(h0.count(x) <= h1.count(x));
    }
}

pub proof fn lemma_come_from_add(
    vm: &ObjectTable,
    slots: Seq<usize>,
    mid: Seq<usize>,
    waiting: Seq<usize>,
    log1: Seq<usize>,
    log2: Seq<usize>,
)
    requires
        come_from(vm, mid, waiting, log1),
        come_from(vm, slots, mid, log2),
    ensures
        come_from(vm, slots, waiting, log1 + log2),
{
    assert forall|i: int| 0 <= i < slots.len() implies waiting.contains(#[trigger] slots[i])
        || vm.is_field(log1 + log2, slots[i]) by {
        lemma_is_field_add(vm, log1, log2, slots[i]);
        if mid.contains(slots[i]) {
            let j = mid.index_of(slots[i]);
            assert(waiting.contains(mid[j]) || vm.is_field(log1, mid[j]));
        }
    }
}

/// Processing some slots and then some more is processing them all.
proof fn lemma_advance_add<const KIND: u8>(
    vm: &ObjectTable,
    p0: ProcessIncs<KIND>,
    p1: ProcessIncs<KIND>,
    p2: ProcessIncs<KIND>,
    h0: RcHeap,
    h1: RcHeap,
    h2: RcHeap,
    out0: Seq<IncBatch>,
    out1: Seq<IncBatch>,
    out2: Seq<IncBatch>,
    slots1: Seq<usize>,
    slots2: Seq<usize>,
    log1: Seq<usize>,
    log2: Seq<usize>,
)
    requires
        advance(vm, p0, p1, h0, h1, out0, out1, slots1, log1),
        advance(vm, p1, p2, h1, h2, out1, out2, slots2, log2),
    ensures
        advance(vm, p0, p2, h0, h2, out0, out2, slots1 + slots2, log1 + log2),
{
    let slots = slots1 + slots2;
    let log = log1 + log2;
    let loaded1 = if KIND == EDGE_KIND_MATURE {
        slots1
    } else {
        Seq::empty()
    };
    let loaded2 = if KIND == EDGE_KIND_MATURE {
        slots2
    } else {
        Seq::empty()
    };
    lemma_promotion_add(vm, h0, h1, h2, log1, log2, loaded1, loaded2);
    assert(KIND != EDGE_KIND_MATURE ==> loaded1 + loaded2 =~= Seq::<usize>::empty());
    lemma_left_zero_add(vm, h0, h1, h2, log1, log2);
    assert(p2.promoted@ =~= p0.promoted@ + log);
    assert forall|i: int| 0 <= i < log.len() implies targeted(vm, slots, #[trigger] log[i]) by {
        if i < log1.len() {
            assert(targeted(vm, slots1, log1[i]));
            let k = choose|k: int|
                0 <= k < slots1.len() && #[trigger] vm.target(slots1[k]) == Some(log1[i]);
            assert(vm.target(slots[k]) == Some(log[i]));
        } else {
            let x = log2[i - log1.len()];
            assert(targeted(vm, slots2, x));
            let k = choose|k: int|
                0 <= k < slots2.len() && #[trigger] vm.target(slots2[k]) == Some(x);
            assert(vm.target(slots[k + slots1.len()]) == Some(log[i]));
        }
    }
    assert forall|x: usize| #[trigger] vm.has(x) implies rc::saturated(
        h0.rc.max_ref_count as int,
        h2.count(x) + owed(vm, p2.new_incs@, out2, x),
    ) == rc::saturated(
        h0.rc.max_ref_count as int,
        h0.count(x) + owed(vm, p0.new_incs@, out0, x) + vm.refs(slots, x) + vm.field_refs(log, x),
    ) by {
        vm.lemma_refs_add(slots1, slots2, x);
        vm.lemma_field_refs_add(log1, log2, x);
    }
    assert forall|x: usize| #[trigger] vm.has(x) implies at_once(
        vm,
        h0,
        h2,
        owed(vm, p0.new_incs@, out0, x) as int,
        owed(vm, p2.new_incs@, out2, x) as int,
        slots,
        log,
        x,
    ) by {
        vm.lemma_refs_add(slots1, slots2, x);
        vm.lemma_field_refs_add(log1, log2, x);
    }
    lemma_come_from_add(vm, p2.new_incs@, p1.new_incs@, p0.new_incs@, log1, log2);
    assert forall|i: int| out0.len() <= i < out2.len() implies {
        &&& (#[trigger] out2[i]).incs@.len() > 0
        &&& out2[i].incs@.len() >= p0.capacity
        &&& out2[i].stage == WorkBucketStage::Unconstrained
        &&& come_from(vm, out2[i].incs@, p0.new_incs@, log)
    } by {
        if i < out1.len() {
            assert(out2[i] == out1[i]);
            assert(come_from(vm, out1[i].incs@, p0.new_incs@, log1));
            assert forall|j: int| 0 <= j < out2[i].incs@.len() implies p0.new_incs@.contains(
                #[trigger] out2[i].incs@[j],
            ) || vm.is_field(log, out2[i].incs@[j]) by {
                lemma_is_field_add(vm, log1, log2, out2[i].incs@[j]);
            }
        } else {
            lemma_come_from_add(vm, out2[i].incs@, p1.new_incs@, p0.new_incs@, log1, log2);
        }
    }
}

/// Processing the fields `buf` of objects already promoted extends the promotions that are
/// justified by `incs`.
proof fn lemma_round(
    vm: &ObjectTable,
    h0: RcHeap,
    h1: RcHeap,
    h2: RcHeap,
    incs: Seq<usize>,
    loaded: Seq<usize>,
    buf: Seq<usize>,
    log1: Seq<usize>,
    log2: Seq<usize>,
    loaded2: Seq<usize>,
)
    requires
        promotion(vm, h0, h1, log1, loaded),
        left_zero(vm, h0, h1, log1),
        justified(vm, incs, log1),
        come_from(vm, buf, Seq::empty(), log1),
        promotion(vm, h1, h2, log2, loaded2),
        loaded2 == buf || loaded2 == Seq::<usize>::empty(),
        left_zero(vm, h1, h2, log2),
        forall|i: int| 0 <= i < log2.len() ==> targeted(vm, buf, #[trigger] log2[i]),
    ensures
        promotion(vm, h0, h2, log1 + log2, loaded),
        left_zero(vm, h0, h2, log1 + log2),
        justified(vm, incs, log1 + log2),
{
    let log = log1 + log2;
    let none = Seq::<usize>::empty();
    lemma_promotion_add(vm, h0, h1, h2, log1, log2, loaded, loaded2);
    lemma_left_zero_add(vm, h0, h1, h2, log1, log2);
    assert forall|w: usize| (loaded + loaded2).contains(w) || vm.is_field(log, w) implies loaded.contains(
        w,
    ) || vm.is_field(log, w) by {
        lemma_contains_add(loaded, loaded2, w);
        lemma_is_field_add(vm, log1, log2, w);
        if loaded2.contains(w) {
            let i = loaded2.index_of(w);
            assert(none.contains(buf[i]) || vm.is_field(log1, buf[i]));
        }
    }
    assert forall|w: usize| loaded.contains(w) implies (loaded + loaded2).contains(w) by {
        lemma_contains_add(loaded, loaded2, w);
    }
    assert forall|i: int| 0 <= i < log.len() implies targeted(vm, incs, #[trigger] log[i])
        || exists|j: int| 0 <= j < i && targeted(vm, vm.slots_of(#[trigger] log[j]), log[i]) by {
        if i < log1.len() {
            assert(log[i] == log1[i]);
            if !targeted(vm, incs, log1[i]) {
                let j = choose|j: int|
                    0 <= j < i && targeted(vm, vm.slots_of(#[trigger] log1[j]), log1[i]);
                assert(log[j] == log1[j]);
            }
        } else {
            let x = log2[i - log1.len()];
            assert(targeted(vm, buf, x));
            let k = choose|k: int| 0 <= k < buf.len() && #[trigger] vm.target(buf[k]) == Some(x);
            assert(none.contains(buf[k]) || vm.is_field(log1, buf[k]));
            let j = choose|j: int|
                0 <= j < log1.len() && #[trigger] vm.slots_of(log1[j]).contains(buf[k]);
            let m = vm.slots_of(log1[j]).index_of(buf[k]);
            assert(vm.target(vm.slots_of(log1[j])[m]) == Some(x));
            assert(log[j] == log1[j]);
        }
    }
}

impl<const KIND: u8> ProcessIncs<KIND> {
    /// The counter agrees with the buffer, and the buffer is below its capacity.
    pub open spec fn wf(&self, vm: &ObjectTable) -> bool {
        &&& self.new_incs_count == self.new_incs@.len()
        &&& self.new_incs@.len() < self.capacity || self.new_incs@.len() == 0
        &&& vm.has_slots(self.new_incs@)
        &&& fits(vm, self.capacity)
    }

    /// Hand the new increments over as a batch, if there are any.
    fn flush(&mut self, vm: &ObjectTable, out: &mut Vec<IncBatch>)
        ensures
            *final(self) == (ProcessIncs::<KIND> {
                new_incs: final(self).new_incs,
                new_incs_count: 0,
                ..*old(self)
            }),
            final(self).new_incs@.len() == 0,
            old(self).new_incs@.len() == 0 ==> final(out)@ == old(out)@,
            old(self).new_incs@.len() > 0 ==> final(out)@.len() == old(out)@.len() + 1
                && final(out)@.last().incs@ == old(self).new_incs@ && final(out)@.last().stage == WorkBucketStage::Unconstrained && final(out)@.drop_last() == old(out)@,
            forall|x: usize| #[trigger]
                owed(vm, final(self).new_incs@, final(out)@, x) == owed(
                    vm,
                    old(self).new_incs@,
                    old(out)@,
                    x,
                ),
    {
        if self.new_incs.len() != 0 {
            let mut incs: Vec<Slot> = Vec::new();
            std::mem::swap(&mut incs, &mut self.new_incs);
            let batch = IncBatch { incs, stage: WorkBucketStage::Unconstrained };
            out.push(batch);
            assert(out@.drop_last() =~= old(out)@);
            assert forall|x: usize| #[trigger]
                owed(vm, self.new_incs@, out@, x) == owed(vm, old(self).new_incs@, old(out)@, x) by {
                lemma_batch_refs_push(vm, old(out)@, batch, x);
            }
        }
        self.new_incs_count = 0;
    }

    /// Scan a freshly promoted object: unlog its fields, count the references to children that
    /// are live, and leave those to fresh children as new increments.
    fn scan_nursery_object(
        &mut self,
        o: ObjectReference,
        los: bool,
        vm: &ObjectTable,
        heap: &mut RcHeap,
        out: &mut Vec<IncBatch>,
    )
        requires
            old(heap).wf(vm),
            old(self).wf(vm),
            vm.has(o),
            old(heap).count(o) > 0,
            los == vm.in_los(o),
        ensures
            final(heap).wf(vm),
            final(self).wf(vm),
            forall|x: usize| #[trigger]
                vm.has(x) ==> final(heap).count(x) == scanned_count(vm, *old(heap), o, x),
            queued(
                old(self).capacity,
                old(self).new_incs@,
                final(self).new_incs@,
                old(out)@,
                final(out)@,
                fresh_slots(vm, *old(heap), o, vm.slots_of(o)),
            ),
            *final(self) == (ProcessIncs::<KIND> {
                new_incs: final(self).new_incs,
                new_incs_count: final(self).new_incs_count,
                ..*old(self)
            }),
            final(heap).block_allocation == old(heap).block_allocation,
            final(heap).space == (ImmixSpace {
                unlogged: final(heap).space.unlogged,
                ..old(heap).space
            }),
            final(heap).rc.straddle == old(heap).rc.straddle,
            final(heap).rc.max_ref_count == old(heap).rc.max_ref_count,
            forall|w: usize|
                w < old(heap).space.unlogged@.len() ==> #[trigger] final(heap).space.unlogged@[w as int] == (old(heap).space.unlogged@[w as int] || vm.slots_of(
                    o,
                ).contains(w) || (los && vm.objects@[o as int].start == w)),
            forall|x: usize| #[trigger]
                vm.has(x) ==> old(heap).count(x) <= final(heap).count(x) && (old(heap).count(x) == 0
                    <==> final(heap).count(x) == 0),
            forall|x: usize| #[trigger]
                vm.has(x) ==> rc::saturated(
                    old(heap).rc.max_ref_count as int,
                    final(heap).count(x) + owed(vm, final(self).new_incs@, final(out)@, x),
                ) == rc::saturated(
                    old(heap).rc.max_ref_count as int,
                    old(heap).count(x) + owed(vm, old(self).new_incs@, old(out)@, x) + vm.refs(
                        vm.slots_of(o),
                        x,
                    ),
                ),
            rc::zeros(final(heap).rc.counts@, vm.objects@.len() as int) == rc::zeros(
                old(heap).rc.counts@,
                vm.objects@.len() as int,
            ),
            starts_with(final(out)@, old(out)@),
            batches_from(
                vm,
                final(out)@,
                old(out)@.len() as int,
                old(self).new_incs@,
                seq![o],
                old(self).capacity,
            ),
            come_from(vm, final(self).new_incs@, old(self).new_incs@, seq![o]),
    {
        if los {
            heap.space.unlogged[vm.objects[o].start] = true;
        }
        let ghost slots = vm.slots_of(o);
        let mut k: usize = 0;
        let n: usize = vm.objects[o].slots.len();
        assert(slots.take(0) =~= Seq::empty());
        assert forall|x: usize| #[trigger] vm.has(x) implies old(heap).count(x)
            <= old(heap).rc.max_ref_count by {}
        while k < n
            invariant
                n == slots.len(),
                slots == vm.slots_of(o),
                k <= n,
                vm.has(o),
                heap.wf(vm),
                old(heap).wf(vm),
                los == vm.in_los(o),
                fits(vm, self.capacity),
                *self == (ProcessIncs::<KIND> {
                    new_incs: self.new_incs,
                    new_incs_count: self.new_incs_count,
                    ..*old(self)
                }),
                self.new_incs_count == self.new_incs@.len(),
                self.new_incs@.len() <= old(self).new_incs@.len() + k,
                old(self).wf(vm),
                vm.has_slots(self.new_incs@),
                heap.block_allocation == old(heap).block_allocation,
                heap.space == (ImmixSpace { unlogged: heap.space.unlogged, ..old(heap).space }),
                heap.rc.straddle == old(heap).rc.straddle,
                heap.rc.max_ref_count == old(heap).rc.max_ref_count,
                *out == *old(out),
                forall|w: usize|
                    w < old(heap).space.unlogged@.len() ==> #[trigger] heap.space.unlogged@[w as int]
                        == (old(heap).space.unlogged@[w as int] || slots.take(k as int).contains(w)
                        || (los && vm.objects@[o as int].start == w)),
                forall|x: usize| #[trigger]
                    vm.has(x) ==> old(heap).count(x) <= heap.count(x) && (old(heap).count(x) == 0
                        <==> heap.count(x) == 0),
                forall|x: usize| #[trigger]
                    vm.has(x) ==> rc::saturated(
                        old(heap).rc.max_ref_count as int,
                        heap.count(x) + vm.refs(self.new_incs@, x) + batch_refs(vm, out@, x),
                    ) == rc::saturated(
                        old(heap).rc.max_ref_count as int,
                        old(heap).count(x) + vm.refs(old(self).new_incs@, x) + batch_refs(vm, out@, x)
                            + vm.refs(slots.take(k as int), x),
                    ),
                rc::zeros(heap.rc.counts@, vm.objects@.len() as int) == rc::zeros(
                    old(heap).rc.counts@,
                    vm.objects@.len() as int,
                ),
                come_from(vm, self.new_incs@, old(self).new_incs@, seq![o]),
                old(heap).count(o) > 0,
                self.new_incs@ =~= old(self).new_incs@ + fresh_slots(
                    vm,
                    *old(heap),
                    o,
                    slots.take(k as int),
                ),
                forall|x: usize| #[trigger]
                    vm.has(x) ==> heap.count(x) == (if old(heap).count(x) == 0 {
                        0
                    } else {
                        rc::saturated(
                            old(heap).rc.max_ref_count as int,
                            old(heap).count(x) + vm.refs(slots.take(k as int), x),
                        )
                    }),
            decreases n - k,
        {
            let slot: Slot = vm.objects[o].slots[k];
            let ghost new0 = self.new_incs@;
            assert(slots[k as int] == slot);
            heap.space.unlogged[slot] = true;
            assert(slots.take(k as int + 1) =~= slots.take(k as int).push(slot));
            assert(slots.take(k as int + 1).drop_last() =~= slots.take(k as int));
            proof {
                assert forall|x: usize| #[trigger] vm.has(x) implies vm.refs(
                    slots.take(k as int + 1),
                    x,
                ) == vm.refs(slots.take(k as int), x) + (if vm.target(slot) == Some(x) {
                    1nat
                } else {
                    0nat
                }) by {
                    vm.lemma_refs_push(slots.take(k as int), slot, x);
                }
                assert forall|w: usize|
                    w < old(heap).space.unlogged@.len() implies #[trigger] heap.space.unlogged@[w as int]
                        == (old(heap).space.unlogged@[w as int] || slots.take(
                    k as int + 1,
                ).contains(w) || (los && vm.objects@[o as int].start == w)) by {
                    let s1 = slots.take(k as int + 1);
                    assert(s1[k as int] == slot);
                    if slots.take(k as int).contains(w) {
                        let j = slots.take(k as int).index_of(w);
                        assert(s1[j] == w);
                    }
                    if s1.contains(w) && w != slot {
                        let j = s1.index_of(w);
                        assert(slots.take(k as int)[j] == w);
                    }
                }
            }
            if let Some(target) = vm.words[slot] {
                assert(vm.target(slot) == Some(target));
                let c: u8 = heap.rc.count(target);
                if c == 0 {
                    self.new_incs.push(slot);
                    self.new_incs_count = self.new_incs_count + 1;
                    proof {
                        assert(vm.slots_of(seq![o][0]).contains(slot));
                        assert(vm.is_field(seq![o], slot));
                        assert forall|x: usize| #[trigger] vm.has(x) implies vm.refs(
                            self.new_incs@,
                            x,
                        ) == vm.refs(new0, x) + (if x == target {
                            1nat
                        } else {
                            0nat
                        }) by {
                            vm.lemma_refs_push(new0, slot, x);
                        }
                    }
                } else if c != heap.rc.max_ref_count {
                    proof {
                        rc::lemma_zeros_update(
                            heap.rc.counts@,
                            vm.objects@.len() as int,
                            target as int,
                            (c + 1) as u8,
                        );
                    }
                    let _ = heap.rc.inc(target);
                }
            }
            k = k + 1;
        }
        assert(slots.take(n as int) =~= slots);
        let ghost all = self.new_incs@;
        if self.new_incs_count as usize >= self.capacity {
            self.flush(vm, out);
            assert(all.len() == 0 ==> self.new_incs@ =~= all);
        }
    }

    /// Increment the count of `o`. Returns whether this promoted it, that is took its count from
    /// zero to one.
    fn inc(o: ObjectReference, heap: &mut RcHeap) -> (r: bool)
        requires
            old(heap).rc.wf(old(heap).rc.counts@.len()),
            o < old(heap).rc.counts@.len(),
        ensures
            final(heap).space == old(heap).space,
            final(heap).block_allocation == old(heap).block_allocation,
            final(heap).rc.wf(old(heap).rc.counts@.len()),
            final(heap).rc.straddle == old(heap).rc.straddle,
            final(heap).rc.max_ref_count == old(heap).rc.max_ref_count,
            final(heap).rc.counts@ == old(heap).rc.counts@.update(
                o as int,
                rc::saturated(old(heap).rc.max_ref_count as int, old(heap).count(o) + 1) as u8,
            ),
            r == (old(heap).count(o) == 0),
    {
        match heap.rc.inc(o) {
            Ok(c) => c == 0,
            Err(_) => false,
        }
    }

    /// Promote a freshly incremented object: mark its block as promoted in place if it is a
    /// nursery block, mark its straddle lines unless it is large, and scan it.
    fn promote(
        &mut self,
        o: ObjectReference,
        los: bool,
        vm: &ObjectTable,
        heap: &mut RcHeap,
        out: &mut Vec<IncBatch>,
    )
        requires
            old(heap).wf(vm),
            old(self).wf(vm),
            vm.has(o),
            old(heap).count(o) > 0,
            los == vm.in_los(o),
        ensures
            final(heap).wf(vm),
            final(self).wf(vm),
            forall|x: usize| #[trigger]
                vm.has(x) ==> final(heap).count(x) == scanned_count(vm, *old(heap), o, x),
            queued(
                old(self).capacity,
                old(self).new_incs@,
                final(self).new_incs@,
                old(out)@,
                final(out)@,
                fresh_slots(vm, *old(heap), o, vm.slots_of(o)),
            ),
            final(self).incs == old(self).incs,
            final(self).capacity == old(self).capacity,
            final(self).promoted@ == old(self).promoted@ + seq![o],
            promotion(vm, *old(heap), *final(heap), seq![o], Seq::empty()),
            forall|x: usize| #[trigger]
                vm.has(x) ==> old(heap).count(x) <= final(heap).count(x) && (old(heap).count(x) == 0
                    <==> final(heap).count(x) == 0),
            forall|x: usize| #[trigger]
                vm.has(x) ==> rc::saturated(
                    old(heap).rc.max_ref_count as int,
                    final(heap).count(x) + owed(vm, final(self).new_incs@, final(out)@, x),
                ) == rc::saturated(
                    old(heap).rc.max_ref_count as int,
                    old(heap).count(x) + owed(vm, old(self).new_incs@, old(out)@, x) + vm.refs(
                        vm.slots_of(o),
                        x,
                    ),
                ),
            rc::zeros(final(heap).rc.counts@, vm.objects@.len() as int) == rc::zeros(
                old(heap).rc.counts@,
                vm.objects@.len() as int,
            ),
            starts_with(final(out)@, old(out)@),
            batches_from(
                vm,
                final(out)@,
                old(out)@.len() as int,
                old(self).new_incs@,
                seq![o],
                old(self).capacity,
            ),
            come_from(vm, final(self).new_incs@, old(self).new_incs@, seq![o]),
    {
        let size: usize = vm.objects[o].size;
        if !los {
            if let Place::Immix(block) = vm.objects[o].place {
                if heap.space.blocks[block].is_nursery() {
                    heap.set_as_in_place_promoted(block);
                }
            }
            heap.rc.promote_with_size(o, size);
        }
        proof {
            self.promoted = Ghost(self.promoted@ + seq![o]);
        }
        assert(heap.wf(vm));
        proof {
            lemma_fresh_slots_same(
                vm,
                *old(heap),
                *heap,
                o,
                vm.slots_of(o),
                heap.space.blocks@.len(),
            );
        }
        self.scan_nursery_object(o, los, vm, heap, out);
        proof {
            let log = seq![o];
            assert(old(heap).space.blocks.len() == old(heap).space.blocks@.len());
            assert forall|b: int| 0 <= b < old(heap).space.blocks@.len() implies hits_block(vm, log, b)
                == (vm.place_of(o) == Place::Immix(b as usize)) by {
                assert(log[0] == o);
                if vm.place_of(o) == Place::Immix(b as usize) {
                    assert(vm.place_of(log[0]) == Place::Immix(b as usize));
                }
            }
            assert forall|w: usize| vm.is_field(log, w) == vm.slots_of(o).contains(w) by {
                if vm.slots_of(o).contains(w) {
                    assert(vm.slots_of(log[0]).contains(w));
                }
            }
            assert forall|w: usize| is_large_start(vm, log, w) == (los
                && vm.objects@[o as int].start == w) by {
                if los && vm.objects@[o as int].start == w {
                    assert(vm.place_of(log[0]) == Place::Large);
                }
            }
            assert forall|x: usize| log.contains(x) == (x == o) by {
                assert(log[0] == o);
            }
        }
    }

    /// Increment `o`, and promote it if its count was zero.
    fn process_inc(
        &mut self,
        o: ObjectReference,
        vm: &ObjectTable,
        heap: &mut RcHeap,
        out: &mut Vec<IncBatch>,
    )
        requires
            old(heap).wf(vm),
            old(self).wf(vm),
            vm.has(o),
        ensures
            final(heap).wf(vm),
            final(self).wf(vm),
            final(self).incs == old(self).incs,
            final(self).capacity == old(self).capacity,
            inc_processed(
                vm,
                *old(self),
                *final(self),
                *old(heap),
                *final(heap),
                old(out)@,
                final(out)@,
                o,
            ),
            ({
                let log = if old(heap).count(o) == 0 {
                    seq![o]
                } else {
                    Seq::empty()
                };
                &&& final(self).promoted@ == old(self).promoted@ + log
                &&& promotion(vm, *old(heap), *final(heap), log, Seq::empty())
                &&& left_zero(vm, *old(heap), *final(heap), log)
                &&& forall|x: usize| #[trigger]
                    vm.has(x) ==> rc::saturated(
                        old(heap).rc.max_ref_count as int,
                        final(heap).count(x) + owed(vm, final(self).new_incs@, final(out)@, x),
                    ) == rc::saturated(
                        old(heap).rc.max_ref_count as int,
                        old(heap).count(x) + owed(vm, old(self).new_incs@, old(out)@, x) + (if x
                            == o {
                            1int
                        } else {
                            0int
                        }) + vm.field_refs(log, x),
                    )
                &&& starts_with(final(out)@, old(out)@)
                &&& batches_from(
                    vm,
                    final(out)@,
                    old(out)@.len() as int,
                    old(self).new_incs@,
                    log,
                    old(self).capacity,
                )
                &&& come_from(vm, final(self).new_incs@, old(self).new_incs@, log)
                &&& log.len() == 0 ==> final(self).new_incs@ == old(self).new_incs@ && final(out)@
                    == old(out)@
            }),
    {
        let los = matches!(vm.objects[o].place, Place::Large);
        proof {
            rc::lemma_zeros_update(
                heap.rc.counts@,
                vm.objects@.len() as int,
                o as int,
                rc::saturated(heap.rc.max_ref_count as int, heap.count(o) + 1) as u8,
            );
        }
        let fresh = Self::inc(o, heap);
        assert(heap.wf(vm));
        proof {
            lemma_fresh_slots_same(
                vm,
                *old(heap),
                *heap,
                o,
                vm.slots_of(o),
                heap.space.blocks@.len(),
            );
        }
        if fresh {
            self.promote(o, los, vm, heap, out);
        }
        proof {
            let log = if old(heap).count(o) == 0 {
                seq![o]
            } else {
                Seq::empty()
            };
            assert forall|x: usize| log.contains(x) == (fresh && x == o) by {
                if fresh {
                    assert(log[0] == o);
                }
            }
            assert forall|x: usize| vm.field_refs(log, x) == (if fresh {
                vm.refs(vm.slots_of(o), x)
            } else {
                0
            }) by {
                vm.lemma_field_refs_push(Seq::empty(), o, x);
                assert(fresh ==> log =~= Seq::empty().push(o));
            }
            if !fresh {
                assert(self.promoted@ =~= old(self).promoted@ + log);
                assert forall|b: int| !hits_block(vm, log, b) by {}
                assert forall|w: usize| !vm.is_field(log, w) && !is_large_start(vm, log, w) by {}
            }
        }
    }

    /// Load slot `s`, which is unlogged first if it is a mature slot, and increment what it
    /// refers to.
    fn process_slot(
        &mut self,
        s: Slot,
        vm: &ObjectTable,
        heap: &mut RcHeap,
        out: &mut Vec<IncBatch>,
    )
        requires
            old(heap).wf(vm),
            old(self).wf(vm),
            s < vm.words@.len(),
        ensures
            final(heap).wf(vm),
            final(self).wf(vm),
            advance(
                vm,
                *old(self),
                *final(self),
                *old(heap),
                *final(heap),
                old(out)@,
                final(out)@,
                seq![s],
                final(self).promoted@.skip(old(self).promoted@.len() as int),
            ),
            match vm.target(s) {
                Some(o) => inc_processed(
                    vm,
                    *old(self),
                    *final(self),
                    *old(heap),
                    *final(heap),
                    old(out)@,
                    final(out)@,
                    o,
                ),
                None => *final(self) == *old(self) && final(heap).rc == old(heap).rc && final(out)@
                    == old(out)@,
            },
    {
        let ghost none = Seq::<usize>::empty();
        if KIND == EDGE_KIND_MATURE {
            heap.space.unlogged[s] = true;
        }
        let ghost h1 = *heap;
        proof {
            let loaded = if KIND == EDGE_KIND_MATURE {
                seq![s]
            } else {
                none
            };
            assert forall|w: usize| loaded.contains(w) == (KIND == EDGE_KIND_MATURE && w == s) by {
                if KIND == EDGE_KIND_MATURE {
                    assert(loaded[0] == s);
                }
            }
            assert forall|b: int| !hits_block(vm, none, b) by {}
            assert forall|w: usize| !vm.is_field(none, w) && !is_large_start(vm, none, w) by {}
            assert(promotion(vm, *old(heap), h1, none, loaded));
        }
        if let Some(o) = vm.words[s] {
            assert(vm.target(s) == Some(o));
            self.process_inc(o, vm, heap, out);
            proof {
                lemma_fresh_slots_same(
                    vm,
                    *old(heap),
                    h1,
                    o,
                    vm.slots_of(o),
                    heap.space.blocks@.len(),
                );
                let log = if old(heap).count(o) == 0 {
                    seq![o]
                } else {
                    none
                };
                let loaded = if KIND == EDGE_KIND_MATURE {
                    seq![s]
                } else {
                    none
                };
                lemma_promotion_add(vm, *old(heap), h1, *heap, none, log, loaded, none);
                assert(none + log =~= log);
                assert(loaded + none =~= loaded);
                assert(self.promoted@.skip(old(self).promoted@.len() as int) =~= log);
                assert(vm.target(seq![s][0]) == Some(o));
            }
        } else {
            assert(self.promoted@.skip(old(self).promoted@.len() as int) =~= none);
            assert(self.promoted@ =~= old(self).promoted@ + none);
        }
        proof {
            assert forall|x: usize| vm.refs(seq![s], x) == (if vm.target(s) == Some(x) {
                1nat
            } else {
                0nat
            }) by {
                vm.lemma_refs_push(none, s, x);
                assert(seq![s] =~= none.push(s));
            }
            let log = self.promoted@.skip(old(self).promoted@.len() as int);
            assert forall|x: usize| #[trigger] vm.has(x) implies at_once(
                vm,
                *old(heap),
                *heap,
                owed(vm, old(self).new_incs@, old(out)@, x) as int,
                owed(vm, self.new_incs@, out@, x) as int,
                seq![s],
                log,
                x,
            ) by {
                if let Some(o) = vm.target(s) {
                    if old(heap).count(o) == 0 {
                        let more = fresh_slots(vm, *old(heap), o, vm.slots_of(o));
                        lemma_queued(
                            vm,
                            self.capacity,
                            old(self).new_incs@,
                            self.new_incs@,
                            old(out)@,
                            out@,
                            more,
                            x,
                        );
                        lemma_fresh_slots_refs(vm, *old(heap), o, vm.slots_of(o), x);
                        vm.lemma_field_refs_push(none, o, x);
                        assert(log =~= none.push(o));
                    }
                }
            }
        }
    }

    /// Process the slots of `incs`, in order.
    fn process_incs(
        &mut self,
        incs: &Vec<Slot>,
        vm: &ObjectTable,
        heap: &mut RcHeap,
        out: &mut Vec<IncBatch>,
    )
        requires
            old(heap).wf(vm),
            old(self).wf(vm),
            vm.has_slots(incs@),
        ensures
            final(heap).wf(vm),
            final(self).wf(vm),
            advance(
                vm,
                *old(self),
                *final(self),
                *old(heap),
                *final(heap),
                old(out)@,
                final(out)@,
                incs@,
                final(self).promoted@.skip(old(self).promoted@.len() as int),
            ),
    {
        let ghost n0 = old(self).promoted@.len() as int;
        let mut i: usize = 0;
        proof {
            let none = Seq::<usize>::empty();
            assert(incs@.take(0) =~= none);
            assert(self.promoted@.skip(n0) =~= none);
            assert(self.promoted@ =~= old(self).promoted@ + none);
            assert forall|b: int| !hits_block(vm, none, b) by {}
            assert forall|w: usize| !vm.is_field(none, w) && !is_large_start(vm, none, w) by {}
        }
        while i < incs.len()
            invariant
                i <= incs@.len(),
                n0 == old(self).promoted@.len(),
                heap.wf(vm),
                self.wf(vm),
                vm.has_slots(incs@),
                advance(
                    vm,
                    *old(self),
                    *self,
                    *old(heap),
                    *heap,
                    old(out)@,
                    out@,
                    incs@.take(i as int),
                    self.promoted@.skip(n0),
                ),
            decreases incs@.len() - i,
        {
            let ghost p1 = *self;
            let ghost h1 = *heap;
            let ghost out1 = out@;
            self.process_slot(incs[i], vm, heap, out);
            proof {
                let log1 = p1.promoted@.skip(n0);
                let log2 = self.promoted@.skip(p1.promoted@.len() as int);
                lemma_advance_add(
                    vm,
                    *old(self),
                    p1,
                    *self,
                    *old(heap),
                    h1,
                    *heap,
                    old(out)@,
                    out1,
                    out@,
                    incs@.take(i as int),
                    seq![incs@[i as int]],
                    log1,
                    log2,
                );
                assert(incs@.take(i as int) + seq![incs@[i as int]] =~= incs@.take(i as int + 1));
                assert(log1 + log2 =~= self.promoted@.skip(n0));
            }
            i = i + 1;
        }
        assert(incs@.take(i as int) =~= incs@);
    }

    /// A packet that increments what each of `incs` refers to, and hands recursive increments over
    /// once there are `capacity` of them.
    pub fn new(incs: Vec<Slot>, capacity: usize) -> (p: Self)
        ensures
            p.incs == incs,
            p.new_incs@.len() == 0,
            p.new_incs_count == 0,
            p.capacity == capacity,
            p.promoted@.len() == 0,
    {
        ProcessIncs {
            incs,
            new_incs: Vec::new(),
            new_incs_count: 0,
            capacity,
            promoted: Ghost(Seq::empty()),
        }
    }

    /// Run the packet: process its slots, and then, round by round, the slots of the objects that
    /// were promoted. The batches handed over are appended to `out`.
    pub fn do_work(&mut self, vm: &ObjectTable, heap: &mut RcHeap, out: &mut Vec<IncBatch>)
        requires
            old(heap).wf(vm),
            vm.has_slots(old(self).incs@),
            fits(vm, old(self).capacity),
            old(self).new_incs@.len() == 0,
        ensures
            final(heap).wf(vm),
            final(self).incs@.len() == 0,
            final(self).new_incs@.len() == 0,
            final(self).capacity == old(self).capacity,
            old(self).promoted@ =~= final(self).promoted@.take(old(self).promoted@.len() as int),
            incremented(
                vm,
                KIND,
                old(self).capacity,
                *old(heap),
                *final(heap),
                old(out)@,
                final(out)@,
                old(self).incs@,
                final(self).promoted@.skip(old(self).promoted@.len() as int),
            ),
    {
        let ghost incs0 = self.incs@;
        let ghost n0 = self.promoted@.len() as int;
        let ghost none = Seq::<usize>::empty();
        let ghost loaded = if KIND == EDGE_KIND_MATURE {
            incs0
        } else {
            none
        };
        let mut incs: Vec<Slot> = Vec::new();
        std::mem::swap(&mut incs, &mut self.incs);
        self.new_incs_count = 0;
        assert(self.new_incs@ =~= none);
        self.process_incs(&incs, vm, heap, out);
        let mut buf: Vec<Slot> = Vec::new();
        assert(self.promoted@.take(n0) =~= old(self).promoted@);
        while self.new_incs.len() != 0
            invariant
                heap.wf(vm),
                self.wf(vm),
                none == Seq::<usize>::empty(),
                self.incs@.len() == 0,
                self.capacity == old(self).capacity,
                n0 == old(self).promoted@.len(),
                n0 <= self.promoted@.len(),
                self.promoted@.take(n0) =~= old(self).promoted@,
                loaded == (if KIND == EDGE_KIND_MATURE {
                    incs0
                } else {
                    none
                }),
                promotion(vm, *old(heap), *heap, self.promoted@.skip(n0), loaded),
                left_zero(vm, *old(heap), *heap, self.promoted@.skip(n0)),
                justified(vm, incs0, self.promoted@.skip(n0)),
                forall|x: usize| #[trigger]
                    vm.has(x) ==> rc::saturated(
                        old(heap).rc.max_ref_count as int,
                        heap.count(x) + owed(vm, self.new_incs@, out@, x),
                    ) == rc::saturated(
                        old(heap).rc.max_ref_count as int,
                        old(heap).count(x) + batch_refs(vm, old(out)@, x) + vm.refs(incs0, x)
                            + vm.field_refs(self.promoted@.skip(n0), x),
                    ),
                forall|x: usize| #[trigger]
                    vm.has(x) ==> at_once(
                        vm,
                        *old(heap),
                        *heap,
                        batch_refs(vm, old(out)@, x) as int,
                        owed(vm, self.new_incs@, out@, x) as int,
                        incs0,
                        self.promoted@.skip(n0),
                        x,
                    ),
                starts_with(out@, old(out)@),
                batches_from(
                    vm,
                    out@,
                    old(out)@.len() as int,
                    none,
                    self.promoted@.skip(n0),
                    self.capacity,
                ),
                come_from(vm, self.new_incs@, none, self.promoted@.skip(n0)),
            decreases
                    rc::zeros(heap.rc.counts@, vm.objects@.len() as int),
                    self.new_incs@.len(),
        {
            let ghost log1 = self.promoted@.skip(n0);
            let ghost n1 = self.promoted@.len() as int;
            let ghost out1 = out@;
            let ghost h1 = *heap;
            let ghost waiting = self.new_incs@;
            self.new_incs_count = 0;
            buf.clear();
            std::mem::swap(&mut buf, &mut self.new_incs);
            assert(self.new_incs@ =~= none);
            let ghost p1 = *self;
            self.process_incs(&buf, vm, heap, out);
            proof {
                let log2 = self.promoted@.skip(n1);
                assert(self.promoted@.skip(n0) =~= log1 + log2);
                lemma_round(
                    vm,
                    *old(heap),
                    h1,
                    *heap,
                    incs0,
                    loaded,
                    buf@,
                    log1,
                    log2,
                    if KIND == EDGE_KIND_MATURE {
                        buf@
                    } else {
                        none
                    },
                );
                assert(self.promoted@.take(n0) =~= p1.promoted@.take(n0));
                assert forall|x: usize| #[trigger] vm.has(x) implies rc::saturated(
                    old(heap).rc.max_ref_count as int,
                    heap.count(x) + owed(vm, self.new_incs@, out@, x),
                ) == rc::saturated(
                    old(heap).rc.max_ref_count as int,
                    old(heap).count(x) + batch_refs(vm, old(out)@, x) + vm.refs(incs0, x)
                        + vm.field_refs(self.promoted@.skip(n0), x),
                ) by {
                    vm.lemma_field_refs_add(log1, log2, x);
                    assert(owed(vm, waiting, out1, x) == owed(vm, none, out1, x) + vm.refs(buf@, x));
                }
                assert forall|x: usize| #[trigger] vm.has(x) implies at_once(
                    vm,
                    *old(heap),
                    *heap,
                    batch_refs(vm, old(out)@, x) as int,
                    owed(vm, self.new_incs@, out@, x) as int,
                    incs0,
                    self.promoted@.skip(n0),
                    x,
                ) by {
                    vm.lemma_field_refs_add(log1, log2, x);
                    assert(owed(vm, waiting, out1, x) == owed(vm, none, out1, x) + vm.refs(buf@, x));
                    assert(h1.count(x) <= heap.count(x));
                    lemma_batch_refs_prefix(vm, old(out)@, out1, x);
                }
                assert forall|w: usize| !none.contains(w) by {}
                lemma_come_from_add(vm, self.new_incs@, none, none, log1, log2);
                assert forall|i: int| old(out)@.len() <= i < out@.len() implies {
                    &&& (#[trigger] out@[i]).incs@.len() > 0
                    &&& out@[i].incs@.len() >= self.capacity
                    &&& out@[i].stage == WorkBucketStage::Unconstrained
                    &&& come_from(vm, out@[i].incs@, none, log1 + log2)
                } by {
                    if i < out1.len() {
                        assert(out@[i] == out1[i]);
                        assert(come_from(vm, out1[i].incs@, none, log1));
                        assert forall|j: int| 0 <= j < out@[i].incs@.len() implies none.contains(
                            #[trigger] out@[i].incs@[j],
                        ) || vm.is_field(log1 + log2, out@[i].incs@[j]) by {
                            lemma_is_field_add(vm, log1, log2, out@[i].incs@[j]);
                        }
                    } else {
                        lemma_come_from_add(vm, out@[i].incs@, none, none, log1, log2);
                    }
                }
            }
        }
    }
}

/// Of the fields of an object, those are entered as new increments that refer to another object of count
/// zero: one that does is entered behind the others, and any other is not entered.
pub proof fn law_fields_to_fresh_objects_are_entered(
    vm: &ObjectTable,
    h: RcHeap,
    o: usize,
    slots: Seq<usize>,
    s: usize,
)
    ensures
        fresh_slots(vm, h, o, Seq::empty()) == Seq::<usize>::empty(),
        match vm.words@[s as int] {
            Some(x) => {
                &&& x != o && h.rc.counts@[x as int] == 0 ==> fresh_slots(vm, h, o, slots.push(s))
                    == fresh_slots(vm, h, o, slots).push(s)
                &&& x == o || h.rc.counts@[x as int] > 0 ==> fresh_slots(vm, h, o, slots.push(s))
                    == fresh_slots(vm, h, o, slots)
            },
            None => fresh_slots(vm, h, o, slots.push(s)) == fresh_slots(vm, h, o, slots),
        },
{
    assert(slots.push(s).drop_last() =~= slots);
}

/// New increments wait as long as they do not fill the buffer. Once they do, all of them are handed over
/// together, behind the batches that were handed over before.
pub proof fn law_new_increments_wait_until_the_buffer_is_full(
    capacity: usize,
    new0: Seq<usize>,
    new1: Seq<usize>,
    out0: Seq<IncBatch>,
    out1: Seq<IncBatch>,
    more: Seq<usize>,
)
    requires
        queued(capacity, new0, new1, out0, out1, more),
    ensures
        new0.len() + more.len() < capacity || new0.len() + more.len() == 0 ==> new1 == new0 + more
            && out1 == out0,
        new0.len() + more.len() >= capacity && new0.len() + more.len() > 0 ==> {
            &&& new1.len() == 0
            &&& out1.len() == out0.len() + 1
            &&& forall|i: int| 0 <= i < out0.len() ==> #[trigger] out1[i] == out0[i]
            &&& out1[out0.len() as int].incs@ == new0 + more
            &&& out1[out0.len() as int].stage == WorkBucketStage::Unconstrained
        },
{
    if new0.len() + more.len() >= capacity && new0.len() + more.len() > 0 {
        assert forall|i: int| 0 <= i < out0.len() implies #[trigger] out1[i] == out0[i] by {
            assert(out1.drop_last()[i] == out1[i]);
        }
    }
}

/// An increment counts for the object it is of. If that was alive, nothing else happens. If it was not,
/// its fields count too: those that refer to a live object, the object itself among them, at once, and
/// the others not yet.
pub proof fn law_an_increment_counts_its_object_and_its_fields(
    vm: &ObjectTable,
    h: RcHeap,
    o: usize,
    x: usize,
)
    requires
        h.wf(vm),
        o < vm.objects@.len(),
        x < vm.objects@.len(),
    ensures
        ({
            let max = h.rc.max_ref_count;
            let c = h.rc.counts@[x as int];
            let fields = vm.refs(vm.objects@[o as int].slots@, x);
            let after = count_after_inc(vm, h, o, x);
            &&& x != o && (h.rc.counts@[o as int] > 0 || c == 0) ==> after == c
            &&& x == o && c > 0 ==> after == (if c < max {
                c + 1
            } else {
                max as int
            })
            &&& x == o && c == 0 ==> after == (if fields < max {
                1int + fields
            } else {
                max as int
            })
            &&& x != o && h.rc.counts@[o as int] == 0 && c > 0 ==> after == (if c + fields < max {
                c + fields
            } else {
                max as int
            })
        }),
{
    assert(vm.has(o) && vm.has(x));
    assert(h.count(x) <= h.rc.max_ref_count);
    assert(h.rc.max_ref_count > 0);
}

/// Scanning the fields of an object counts those that refer to live objects, up to the sticky count.
pub proof fn law_scanned_fields_count_for_live_objects(
    vm: &ObjectTable,
    h: RcHeap,
    o: usize,
    x: usize,
)
    requires
        h.wf(vm),
        x < vm.objects@.len(),
    ensures
        h.rc.counts@[x as int] == 0 ==> scanned_count(vm, h, o, x) == 0,
        h.rc.counts@[x as int] > 0 ==> scanned_count(vm, h, o, x) == ({
            let grown = h.rc.counts@[x as int] + vm.refs(vm.objects@[o as int].slots@, x);
            if grown > h.rc.max_ref_count {
                h.rc.max_ref_count as int
            } else {
                grown
            }
        }),
{
}

} // verus!
