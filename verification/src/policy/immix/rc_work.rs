//! Sweeping the blocks in which an object died.

use vstd::prelude::*;

use crate::args::Args;
use crate::plan::lxr::rc::decs;
use crate::plan::lxr::rc::incs;
use crate::plan::lxr::rc::laws;
use crate::plan::lxr::rc::{DecBatch, LazySweepingJobsCounter};
use crate::plan::lxr::Pause;
use crate::policy::immix::block;
use crate::policy::immix::block::{Block, BlockState};
use crate::policy::immix::space::{ImmixSpace, RcHeap};
use crate::vm::{ObjectTable, Place};

verus! {

/// Sweep the blocks that a batch of decrements left to be swept: a block that holds no counted
/// object any more is returned to the page resource.
pub struct SweepBlocksAfterDecs {
    /// The blocks, each with its defrag flag.
    pub blocks: Vec<(usize, bool)>,
    pub counter: LazySweepingJobsCounter,
}

/// Whether block `b` holds no counted object.
pub open spec fn rc_dead(vm: &ObjectTable, h: RcHeap, b: int) -> bool {
    forall|o: usize| #[trigger]
        vm.has(o) && vm.place_of(o) == Place::Immix(b as usize) ==> h.count(o) == 0
}

/// Whether block `b` is in use and out of the nursery.
pub open spec fn sweepable(h: RcHeap, b: int) -> bool {
    let state = h.space.blocks@[b].state;
    state != BlockState::Unallocated && state != BlockState::Nursery
}

/// Whether one of `entries` names block `b`.
pub open spec fn names(entries: Seq<(usize, bool)>, b: int) -> bool {
    exists|i: int| 0 <= i < entries.len() && (#[trigger] entries[i]).0 == b
}

/// Whether one of `entries` lets block `b` be freed, given that it is in use: the entry has the
/// defrag flag, or the block holds no counted object.
pub open spec fn frees(vm: &ObjectTable, h: RcHeap, entries: Seq<(usize, bool)>, b: int) -> bool {
    exists|i: int|
        0 <= i < entries.len() && (#[trigger] entries[i]).0 == b && (entries[i].1 || rc_dead(
            vm,
            h,
            b,
        ))
}

/// Every entry names a block, and one with the defrag flag names a block that is in use and that
/// no entry before it frees.
pub open spec fn entries_ok(vm: &ObjectTable, h: RcHeap, entries: Seq<(usize, bool)>) -> bool {
    &&& forall|i: int| 0 <= i < entries.len() ==> (#[trigger] entries[i]).0 < h.space.blocks@.len()
    &&& forall|i: int|
        0 <= i < entries.len() && (#[trigger] entries[i]).1 ==> sweepable(h, entries[i].0 as int)
            && !frees(vm, h, entries.take(i), entries[i].0 as int)
}

/// What sweeping `entries` does to the blocks: none of those named waits to be swept any more,
/// and those that can be freed are.
pub open spec fn swept(
    vm: &ObjectTable,
    h0: RcHeap,
    h1: RcHeap,
    entries: Seq<(usize, bool)>,
) -> bool {
    &&& h1.rc == h0.rc
    &&& h1.block_allocation == h0.block_allocation
    &&& h1.space == (ImmixSpace {
        blocks: h1.space.blocks,
        reserved_blocks: h1.space.reserved_blocks,
        num_clean_blocks_released_mature: h1.space.num_clean_blocks_released_mature,
        num_clean_blocks_released_lazy: h1.space.num_clean_blocks_released_lazy,
        ..h0.space
    })
    &&& h1.space.blocks@.len() == h0.space.blocks@.len()
    &&& forall|b: int|
        0 <= b < h0.space.blocks@.len() ==> #[trigger] h1.space.blocks@[b] == (Block {
            logged: h0.space.blocks@[b].logged && !names(entries, b),
            state: if sweepable(h0, b) && frees(vm, h0, entries, b) {
                BlockState::Unallocated
            } else {
                h0.space.blocks@[b].state
            },
            ..h0.space.blocks@[b]
        })
}

impl RcHeap {
    /// Whether block `b` holds no counted object.
    fn rc_dead(&self, vm: &ObjectTable, b: usize) -> (r: bool)
        requires
            self.wf(vm),
        ensures
            r == rc_dead(vm, *self, b as int),
    {
        let mut o: usize = 0;
        while o < vm.objects.len()
            invariant
                self.wf(vm),
                o <= vm.objects@.len(),
                forall|x: usize| #[trigger]
                    vm.has(x) && x < o && vm.place_of(x) == Place::Immix(b) ==> self.count(x) == 0,
            decreases vm.objects@.len() - o,
        {
            if let Place::Immix(place) = vm.objects[o].place {
                if place == b && self.rc.count(o) != 0 {
                    assert(vm.has(o) && vm.place_of(o) == Place::Immix(b));
                    return false;
                }
            }
            o = o + 1;
        }
        true
    }

    /// Free block `b` if it is in use, out of the nursery, and dead: with `defrag`, with
    /// `rc_dead`, or because it holds no counted object. Returns whether it was freed.
    pub fn rc_sweep_mature(
        &mut self,
        vm: &ObjectTable,
        b: usize,
        defrag: bool,
        rc_dead: bool,
    ) -> (r: bool)
        requires
            old(self).wf(vm),
            b < old(self).space.blocks@.len(),
        ensures
            r == (sweepable(*old(self), b as int) && (defrag || rc_dead || self::rc_dead(
                vm,
                *old(self),
                b as int,
            ))),
            r ==> old(self).space.blocks@[b as int].state == BlockState::InPlacePromoted || old(self).space.blocks@[b as int].state == BlockState::Mature,
            (defrag || rc_dead) && (old(self).space.blocks@[b as int].state
                == BlockState::InPlacePromoted || old(self).space.blocks@[b as int].state
                == BlockState::Mature) ==> r,
            final(self).rc == old(self).rc,
            final(self).block_allocation == old(self).block_allocation,
            final(self).space == (ImmixSpace {
                blocks: final(self).space.blocks,
                ..old(self).space
            }),
            final(self).space.blocks@ == (if r {
                old(self).space.blocks@.update(
                    b as int,
                    Block { state: BlockState::Unallocated, ..old(self).space.blocks@[b as int] },
                )
            } else {
                old(self).space.blocks@
            }),
            final(self).space.allocated() == old(self).space.allocated() - (if r {
                1int
            } else {
                0int
            }),
            final(self).space.nursery() == old(self).space.nursery(),
    {
        let state = self.space.blocks[b].state;
        if state == BlockState::Unallocated || state == BlockState::Nursery {
            return false;
        }
        if defrag || rc_dead || self.rc_dead(vm, b) {
            let ghost before = self.space.blocks@;
            let ghost after = Block { state: BlockState::Unallocated, ..before[b as int] };
            self.space.blocks[b].state = BlockState::Unallocated;
            proof {
                assert(self.space.blocks@ =~= before.update(b as int, after));
                block::lemma_tally_update(
                    before,
                    |b: Block| b.state == BlockState::Nursery,
                    b as int,
                    after,
                );
                block::lemma_tally_update(
                    before,
                    |b: Block| b.state != BlockState::Unallocated,
                    b as int,
                    after,
                );
            }
            true
        } else {
            false
        }
    }
}

impl SweepBlocksAfterDecs {
    /// A packet that sweeps `blocks`.
    pub fn new(blocks: Vec<(usize, bool)>, counter: LazySweepingJobsCounter) -> (p: Self)
        ensures
            p.blocks == blocks,
            p.counter == counter,
    {
        SweepBlocksAfterDecs { blocks, counter }
    }

    /// Run the packet. The page resource stops accounting for exactly the blocks that are freed;
    /// these are counted as released if the sweep runs outside of a pause or in its own bucket.
    pub fn do_work(
        &mut self,
        vm: &ObjectTable,
        heap: &mut RcHeap,
        current_pause: Option<Pause>,
        sweep_bucket_open: bool,
    )
        requires
            old(heap).wf(vm),
            entries_ok(vm, *old(heap), old(self).blocks@),
        ensures
            *final(self) == *old(self),
            final(heap).wf(vm),
            swept(vm, *old(heap), *final(heap), old(self).blocks@),
            final(heap).space.reserved_blocks - final(heap).space.allocated() == old(heap).space.reserved_blocks - old(heap).space.allocated(),
            ({
                let freed = (old(heap).space.allocated() - final(heap).space.allocated()) as usize;
                let counted = if current_pause is None || sweep_bucket_open {
                    freed
                } else {
                    0
                };
                &&& final(heap).space.num_clean_blocks_released_mature == old(heap).space.num_clean_blocks_released_mature.wrapping_add(counted)
                &&& final(heap).space.num_clean_blocks_released_lazy == old(heap).space.num_clean_blocks_released_lazy.wrapping_add(counted)
            }),
    {
        let ghost entries = self.blocks@;
        proof {
            assert(entries.take(0) =~= Seq::<(usize, bool)>::empty());
        }
        let mut count: usize = 0;
        let mut i: usize = 0;
        while i < self.blocks.len()
            invariant
                *self == *old(self),
                entries == self.blocks@,
                i <= entries.len(),
                old(heap).wf(vm),
                heap.wf(vm),
                entries_ok(vm, *old(heap), entries),
                swept(vm, *old(heap), *heap, entries.take(i as int)),
                heap.space.reserved_blocks == old(heap).space.reserved_blocks,
                heap.space.num_clean_blocks_released_mature == old(heap).space.num_clean_blocks_released_mature,
                heap.space.num_clean_blocks_released_lazy == old(heap).space.num_clean_blocks_released_lazy,
                heap.space.allocated() + count == old(heap).space.allocated(),
                heap.space.nursery() == old(heap).space.nursery(),
            decreases entries.len() - i,
        {
            let (b, defrag) = self.blocks[i];
            assert(entries[i as int] == (b, defrag));
            let ghost h1 = *heap;
            let ghost before = entries.take(i as int);
            let ghost now = entries.take(i as int + 1);
            proof {
                let after = Block { logged: false, ..heap.space.blocks@[b as int] };
                block::lemma_tally_update(
                    heap.space.blocks@,
                    |b: Block| b.state == BlockState::Nursery,
                    b as int,
                    after,
                );
                block::lemma_tally_update(
                    heap.space.blocks@,
                    |b: Block| b.state != BlockState::Unallocated,
                    b as int,
                    after,
                );
                lemma_entry_added(vm, *old(heap), entries, i as int);
            }
            heap.space.blocks[b].unlog();
            assert(heap.space.blocks@ =~= h1.space.blocks@.update(
                b as int,
                Block { logged: false, ..h1.space.blocks@[b as int] },
            ));
            assert(heap.wf(vm));
            let ghost h2 = *heap;
            assert(rc_dead(vm, h2, b as int) == rc_dead(vm, *old(heap), b as int)) by {
                assert(h2.rc == old(heap).rc);
                if rc_dead(vm, *old(heap), b as int) {
                    assert forall|o: usize| #[trigger]
                        vm.has(o) && vm.place_of(o) == Place::Immix(b) implies h2.count(o)
                        == 0 by {
                        assert(old(heap).count(o) == 0);
                    }
                }
                if rc_dead(vm, h2, b as int) {
                    assert forall|o: usize| #[trigger]
                        vm.has(o) && vm.place_of(o) == Place::Immix(b) implies old(heap).count(o)
                        == 0 by {
                        assert(h2.count(o) == 0);
                    }
                }
            }
            if heap.rc_sweep_mature(vm, b, defrag, false) {
                count = count + 1;
            } else {
                assert(!defrag);
            }
            proof {
                assert forall|k: int| 0 <= k < old(heap).space.blocks@.len() implies #[trigger]
                    heap.space.blocks@[k] == (Block {
                    logged: old(heap).space.blocks@[k].logged && !names(now, k),
                    state: if sweepable(*old(heap), k) && frees(vm, *old(heap), now, k) {
                        BlockState::Unallocated
                    } else {
                        old(heap).space.blocks@[k].state
                    },
                    ..old(heap).space.blocks@[k]
                }) by {
                    assert(names(now, k) == (names(before, k) || k == b));
                    assert(h1.space.blocks@[k] == (Block {
                        logged: old(heap).space.blocks@[k].logged && !names(before, k),
                        state: if sweepable(*old(heap), k) && frees(
                            vm,
                            *old(heap),
                            before,
                            k,
                        ) {
                            BlockState::Unallocated
                        } else {
                            old(heap).space.blocks@[k].state
                        },
                        ..old(heap).space.blocks@[k]
                    }));
                }
            }
            i = i + 1;
        }
        assert(entries.take(i as int) =~= entries);
        if count != 0 {
            heap.space.reserved_blocks = heap.space.reserved_blocks - count;
        }
        if count != 0 && (current_pause.is_none() || sweep_bucket_open) {
            heap.space.num_clean_blocks_released_mature =
                heap.space.num_clean_blocks_released_mature.wrapping_add(count);
            heap.space.num_clean_blocks_released_lazy =
                heap.space.num_clean_blocks_released_lazy.wrapping_add(count);
        }
    }
}

/// What the next entry adds to what the entries before it name and free.
proof fn lemma_entry_added(vm: &ObjectTable, h: RcHeap, entries: Seq<(usize, bool)>, i: int)
    requires
        0 <= i < entries.len(),
    ensures
        forall|b: int| #[trigger]
            names(entries.take(i + 1), b) == (names(entries.take(i), b) || entries[i].0 == b),
        forall|b: int| #[trigger]
            frees(vm, h, entries.take(i + 1), b) == (frees(vm, h, entries.take(i), b) || (
            entries[i].0 == b && (entries[i].1 || rc_dead(vm, h, b)))),
{
    let before = entries.take(i);
    let now = entries.take(i + 1);
    assert(now[i] == entries[i]);
    assert(forall|k: int| 0 <= k < i ==> now[k] == before[k]);
    assert forall|b: int| #[trigger] names(now, b) == (names(before, b) || entries[i].0 == b) by {
        if names(before, b) {
            let k = choose|k: int| 0 <= k < before.len() && (#[trigger] before[k]).0 == b;
            assert(now[k].0 == b);
        }
        if names(now, b) && entries[i].0 != b {
            let k = choose|k: int| 0 <= k < now.len() && (#[trigger] now[k]).0 == b;
            assert(before[k].0 == b);
        }
    }
    assert forall|b: int| #[trigger]
        frees(vm, h, now, b) == (frees(vm, h, before, b) || (entries[i].0 == b && (entries[i].1
            || rc_dead(vm, h, b)))) by {
        if frees(vm, h, before, b) {
            let k = choose|k: int|
                0 <= k < before.len() && (#[trigger] before[k]).0 == b && (before[k].1 || rc_dead(
                    vm,
                    h,
                    b,
                ));
            assert(now[k].0 == b);
        }
        if frees(vm, h, now, b) && !(entries[i].0 == b && (entries[i].1 || rc_dead(vm, h, b))) {
            let k = choose|k: int|
                0 <= k < now.len() && (#[trigger] now[k]).0 == b && (now[k].1 || rc_dead(vm, h, b));
            assert(before[k].0 == b);
        }
    }
}

/// A block out of the nursery in which an object died, and which holds no counted object any more,
/// is free once the blocks that wait have been swept; and then no block waits any more.
pub proof fn law_dead_blocks_are_freed(
    vm: &ObjectTable,
    args: Args,
    prioritized: bool,
    h0: RcHeap,
    h1: RcHeap,
    h2: RcHeap,
    out0: Seq<DecBatch>,
    out1: Seq<DecBatch>,
    objects: Seq<usize>,
    log: Seq<usize>,
)
    requires
        laws::sweep_queue_exact(h0),
        decs::decremented(vm, args, prioritized, h0, h1, out0, out1, objects, log),
        swept(vm, h1, h2, h1.space.possibly_dead_mature_blocks@),
    ensures
        forall|b: int|
            0 <= b < h2.space.blocks@.len() ==> !(#[trigger] h2.space.blocks@[b]).logged,
        forall|b: int|
            0 <= b < h2.space.blocks@.len() && sweepable(h1, b) && #[trigger] incs::hits_block(
                vm,
                log,
                b,
            ) && rc_dead(vm, h1, b) ==> h2.space.blocks@[b].state == BlockState::Unallocated,
{
    let entries = h1.space.possibly_dead_mature_blocks@;
    laws::law_decrements_keep_the_sweep_queue_exact(
        vm,
        args,
        prioritized,
        h0,
        h1,
        out0,
        out1,
        objects,
        log,
    );
    assert forall|b: int| 0 <= b < h2.space.blocks@.len() implies !(
    #[trigger] h2.space.blocks@[b]).logged by {
        if h1.space.blocks@[b].logged {
            let i = choose|i: int| 0 <= i < entries.len() && (#[trigger] entries[i]).0 == b;
            assert(names(entries, b));
        }
    }
    assert forall|b: int|
        0 <= b < h2.space.blocks@.len() && sweepable(h1, b) && #[trigger] incs::hits_block(
            vm,
            log,
            b,
        ) && rc_dead(vm, h1, b) implies h2.space.blocks@[b].state == BlockState::Unallocated by {
        let i = choose|i: int| 0 <= i < entries.len() && (#[trigger] entries[i]).0 == b;
        assert(frees(vm, h1, entries, b));
    }
}

/// A block that holds a counted object is not freed, unless it was selected for defragmentation.
pub proof fn law_live_blocks_are_kept(
    vm: &ObjectTable,
    h0: RcHeap,
    h1: RcHeap,
    entries: Seq<(usize, bool)>,
    o: usize,
    b: int,
)
    requires
        swept(vm, h0, h1, entries),
        vm.has(o),
        0 <= b < h0.space.blocks@.len(),
        vm.place_of(o) == Place::Immix(b as usize),
        h0.count(o) > 0,
        forall|i: int|
            0 <= i < entries.len() && (#[trigger] entries[i]).0 == b ==> !entries[i].1,
    ensures
        h1.space.blocks@[b].state == h0.space.blocks@[b].state,
{
    assert(!rc_dead(vm, h0, b));
}

/// What a sweep does to block `b`, told from the entries, the counts and the states alone. A block that
/// no entry names is left as it is. One that is named does not wait any more. It becomes free if it was
/// in use, out of the nursery, and either was selected for defragmentation or holds no object with a
/// count; otherwise its state stays.
pub proof fn law_a_sweep_frees_exactly_the_dead_blocks(
    vm: &ObjectTable,
    h0: RcHeap,
    h1: RcHeap,
    entries: Seq<(usize, bool)>,
    b: int,
)
    requires
        swept(vm, h0, h1, entries),
        0 <= b < h0.space.blocks@.len(),
    ensures
        (forall|i: int| 0 <= i < entries.len() ==> (#[trigger] entries[i]).0 != b)
            ==> h1.space.blocks@[b] == h0.space.blocks@[b],
        (exists|i: int| 0 <= i < entries.len() && (#[trigger] entries[i]).0 == b)
            ==> !h1.space.blocks@[b].logged,
        h0.space.blocks@[b].state == BlockState::Unallocated || h0.space.blocks@[b].state
            == BlockState::Nursery ==> h1.space.blocks@[b].state == h0.space.blocks@[b].state,
        (h0.space.blocks@[b].state == BlockState::InPlacePromoted || h0.space.blocks@[b].state
            == BlockState::Mature) && (exists|i: int|
            0 <= i < entries.len() && (#[trigger] entries[i]).0 == b && entries[i].1)
            ==> h1.space.blocks@[b].state == BlockState::Unallocated,
        (h0.space.blocks@[b].state == BlockState::InPlacePromoted || h0.space.blocks@[b].state
            == BlockState::Mature) && (exists|i: int|
            0 <= i < entries.len() && (#[trigger] entries[i]).0 == b) && (forall|o: int|
            0 <= o < vm.objects@.len() && (#[trigger] vm.objects@[o]).place == Place::Immix(
                b as usize,
            ) ==> h0.rc.counts@[o] == 0) ==> h1.space.blocks@[b].state == BlockState::Unallocated,
        (forall|i: int| 0 <= i < entries.len() && (#[trigger] entries[i]).0 == b ==> !entries[i].1)
            && (exists|o: int|
            0 <= o < vm.objects@.len() && o <= usize::MAX && (#[trigger] vm.objects@[o]).place
                == Place::Immix(b as usize) && h0.rc.counts@[o] > 0) ==> h1.space.blocks@[b].state
            == h0.space.blocks@[b].state,
        h1.space.blocks@[b].start == h0.space.blocks@[b].start,
        h1.space.blocks@[b].words == h0.space.blocks@[b].words,
        h1.space.blocks@[b].line_marks == h0.space.blocks@[b].line_marks,
        h1.space.blocks@[b].zeroed == h0.space.blocks@[b].zeroed,
{
    if exists|i: int| 0 <= i < entries.len() && (#[trigger] entries[i]).0 == b {
        assert(names(entries, b));
    }
    if exists|i: int| 0 <= i < entries.len() && (#[trigger] entries[i]).0 == b && entries[i].1 {
        assert(frees(vm, h0, entries, b));
    }
    if (exists|i: int| 0 <= i < entries.len() && (#[trigger] entries[i]).0 == b) && (forall|o: int|
        0 <= o < vm.objects@.len() && (#[trigger] vm.objects@[o]).place == Place::Immix(b as usize)
            ==> h0.rc.counts@[o] == 0) {
        assert forall|o: usize| #[trigger]
            vm.has(o) && vm.place_of(o) == Place::Immix(b as usize) implies h0.count(o) == 0 by {
            assert(vm.objects@[o as int].place == Place::Immix(b as usize));
        }
        assert(rc_dead(vm, h0, b));
        let i = choose|i: int| 0 <= i < entries.len() && (#[trigger] entries[i]).0 == b;
        assert(frees(vm, h0, entries, b));
    }
    if exists|o: int|
        0 <= o < vm.objects@.len() && o <= usize::MAX && (#[trigger] vm.objects@[o]).place
            == Place::Immix(b as usize) && h0.rc.counts@[o] > 0 {
        let o = choose|o: int|
            0 <= o < vm.objects@.len() && o <= usize::MAX && (#[trigger] vm.objects@[o]).place
                == Place::Immix(b as usize) && h0.rc.counts@[o] > 0;
        let x = o as usize;
        assert(vm.has(x) && vm.place_of(x) == Place::Immix(b as usize));
        assert(!rc_dead(vm, h0, b));
    }
}

/// A sweep changes nothing but blocks and the accounts of them: counts, metadata, the bookkeeping of
/// clean blocks and what waits to be swept later stay.
pub proof fn law_a_sweep_leaves_the_rest_alone(
    vm: &ObjectTable,
    h0: RcHeap,
    h1: RcHeap,
    entries: Seq<(usize, bool)>,
)
    requires
        swept(vm, h0, h1, entries),
    ensures
        h1.rc.counts == h0.rc.counts,
        h1.rc.straddle == h0.rc.straddle,
        h1.rc.max_ref_count == h0.rc.max_ref_count,
        h1.block_allocation == h0.block_allocation,
        h1.space.blocks@.len() == h0.space.blocks@.len(),
        h1.space.unlogged == h0.space.unlogged,
        h1.space.marks == h0.space.marks,
        h1.space.possibly_dead_mature_blocks == h0.space.possibly_dead_mature_blocks,
        h1.space.line_mark_state == h0.space.line_mark_state,
        h1.space.rc_enabled == h0.space.rc_enabled,
        h1.space.zeroed == h0.space.zeroed,
        h1.space.in_defrag == h0.space.in_defrag,
        h1.space.clean_blocks_in_defrag == h0.space.clean_blocks_in_defrag,
        h1.space.mutator_recycled_lines_in_pages == h0.space.mutator_recycled_lines_in_pages,
{
}

/// A sweep that is run again on the same entries does nothing.
pub proof fn law_a_second_sweep_does_nothing(
    vm: &ObjectTable,
    h0: RcHeap,
    h1: RcHeap,
    h2: RcHeap,
    entries: Seq<(usize, bool)>,
    b: int,
)
    requires
        swept(vm, h0, h1, entries),
        swept(vm, h1, h2, entries),
        0 <= b < h0.space.blocks@.len(),
    ensures
        h2.space.blocks@[b] == h1.space.blocks@[b],
{
    assert(h1.space.blocks@.len() == h0.space.blocks@.len());
    assert(frees(vm, h1, entries, b) == frees(vm, h0, entries, b)) by {
        assert(h1.rc == h0.rc);
        assert(rc_dead(vm, h1, b) == rc_dead(vm, h0, b)) by {
            if rc_dead(vm, h0, b) {
                assert forall|o: usize| #[trigger]
                    vm.has(o) && vm.place_of(o) == Place::Immix(b as usize) implies h1.count(o)
                    == 0 by {
                    assert(h0.count(o) == 0);
                }
            }
            if rc_dead(vm, h1, b) {
                assert forall|o: usize| #[trigger]
                    vm.has(o) && vm.place_of(o) == Place::Immix(b as usize) implies h0.count(o)
                    == 0 by {
                    assert(h1.count(o) == 0);
                }
            }
        }
    }
}

/// Entries without the defrag flag can always be swept, if they name blocks.
pub proof fn law_entries_without_the_flag_can_be_swept(
    vm: &ObjectTable,
    h: RcHeap,
    entries: Seq<(usize, bool)>,
)
    requires
        forall|i: int|
            0 <= i < entries.len() ==> (#[trigger] entries[i]).0 < h.space.blocks@.len()
                && !entries[i].1,
    ensures
        entries_ok(vm, h, entries),
{
}

} // verus!
