//! The part of the Immix space that reference counting works on.

use vstd::prelude::*;

use crate::policy::immix::block;
use crate::policy::immix::block::{Block, BlockState};
use crate::policy::immix::block_allocation::BlockAllocation;
use crate::util::rc::RefCountHelper;
use crate::vm::ObjectTable;

verus! {

/// The Immix space: its blocks, its side metadata (one bit of each kind per word) and the
/// account of the pages it holds.
pub struct ImmixSpace {
    pub blocks: Vec<Block>,
    /// The field-unlog bit of each word.
    pub unlogged: Vec<bool>,
    /// The mark bit of each word.
    pub marks: Vec<bool>,
    /// The number of blocks that the page resource accounts for.
    pub reserved_blocks: usize,
    /// Blocks in which an object died, to be swept, with their defrag flag.
    pub possibly_dead_mature_blocks: Vec<(usize, bool)>,
    pub num_clean_blocks_released_mature: usize,
    pub num_clean_blocks_released_lazy: usize,
    pub line_mark_state: u8,
    pub rc_enabled: bool,
    pub zeroed: bool,
    pub in_defrag: bool,
    /// The clean blocks handed out while defragmenting: for each, whether it is copied into.
    pub clean_blocks_in_defrag: Vec<bool>,
    /// The lines that mutators recycled, in pages.
    pub mutator_recycled_lines_in_pages: usize,
}

impl ImmixSpace {
    /// The metadata covers `words` words, every block lies in it, and the page resource
    /// accounts for every block that is handed out.
    pub open spec fn wf(&self, words: nat) -> bool {
        &&& self.unlogged@.len() == words
        &&& self.marks@.len() == words
        &&& forall|b: int| 0 <= b < self.blocks@.len() ==> #[trigger] self.blocks@[b].start
            + self.blocks@[b].words <= words
        &&& block::allocated_tally(self.blocks@) <= self.reserved_blocks
    }

    /// The number of blocks that are handed out and not yet returned.
    pub open spec fn allocated(&self) -> nat {
        block::allocated_tally(self.blocks@)
    }

    /// The number of nursery blocks.
    pub open spec fn nursery(&self) -> nat {
        block::nursery_tally(self.blocks@)
    }

    /// A space over `words` words that consists of `blocks`, none of which is in use.
    pub fn new(blocks: Vec<Block>, words: usize, rc_enabled: bool, zeroed: bool) -> (s: Self)
        requires
            forall|b: int|
                0 <= b < blocks@.len() ==> (#[trigger] blocks@[b]).state == BlockState::Unallocated
                    && blocks@[b].start + blocks@[b].words <= words,
        ensures
            s.wf(words as nat),
            s.blocks == blocks,
            s.unlogged@ == Seq::new(words as nat, |i: int| false),
            s.marks@ == Seq::new(words as nat, |i: int| false),
            s.reserved_blocks == 0,
            s.possibly_dead_mature_blocks@.len() == 0,
            s.num_clean_blocks_released_mature == 0,
            s.num_clean_blocks_released_lazy == 0,
            s.line_mark_state == 0,
            s.rc_enabled == rc_enabled,
            s.zeroed == zeroed,
            !s.in_defrag,
            s.clean_blocks_in_defrag@.len() == 0,
            s.mutator_recycled_lines_in_pages == 0,
            s.allocated() == 0,
            s.nursery() == 0,
    {
        let mut unlogged: Vec<bool> = Vec::new();
        let mut marks: Vec<bool> = Vec::new();
        let mut i: usize = 0;
        while i < words
            invariant
                i <= words,
                unlogged@ =~= Seq::new(i as nat, |i: int| false),
                marks@ =~= Seq::new(i as nat, |i: int| false),
            decreases words - i,
        {
            unlogged.push(false);
            marks.push(false);
            i = i + 1;
        }
        proof {
            block::lemma_tally_none(blocks@, |b: Block| b.state == BlockState::Nursery);
            block::lemma_tally_none(blocks@, |b: Block| b.state != BlockState::Unallocated);
        }
        ImmixSpace {
            blocks,
            unlogged,
            marks,
            reserved_blocks: 0,
            possibly_dead_mature_blocks: Vec::new(),
            num_clean_blocks_released_mature: 0,
            num_clean_blocks_released_lazy: 0,
            line_mark_state: 0,
            rc_enabled,
            zeroed,
            in_defrag: false,
            clean_blocks_in_defrag: Vec::new(),
            mutator_recycled_lines_in_pages: 0,
        }
    }

    /// Whether the object that starts at word `start` is marked.
    pub fn is_marked(&self, start: usize) -> (r: bool)
        requires
            start < self.marks@.len(),
        ensures
            r == self.marks@[start as int],
    {
        self.marks[start]
    }

    /// Mark the object that starts at word `start`. Returns whether it was not marked before.
    pub fn attempt_mark_rc(&mut self, start: usize) -> (r: bool)
        requires
            start < old(self).marks@.len(),
        ensures
            r == !old(self).marks@[start as int],
            *final(self) == (ImmixSpace { marks: final(self).marks, ..*old(self) }),
            final(self).marks@ == old(self).marks@.update(start as int, true),
    {
        let fresh = !self.marks[start];
        self.marks[start] = true;
        fresh
    }

    /// Leave `block`, in which an object died, to be swept. A block that waits already is not
    /// entered again.
    pub fn add_to_possibly_dead_mature_blocks(&mut self, block: usize, defrag: bool)
        requires
            block < old(self).blocks@.len(),
        ensures
            *final(self) == (ImmixSpace {
                blocks: final(self).blocks,
                possibly_dead_mature_blocks: final(self).possibly_dead_mature_blocks,
                ..*old(self)
            }),
            final(self).blocks@ == old(self).blocks@.update(
                block as int,
                Block { logged: true, ..old(self).blocks@[block as int] },
            ),
            final(self).possibly_dead_mature_blocks@ == (if old(self).blocks@[block as int].logged {
                old(self).possibly_dead_mature_blocks@
            } else {
                old(self).possibly_dead_mature_blocks@.push((block, defrag))
            }),
            final(self).allocated() == old(self).allocated(),
            final(self).nursery() == old(self).nursery(),
    {
        proof {
            let after = Block { logged: true, ..self.blocks@[block as int] };
            block::lemma_tally_update(
                self.blocks@,
                |b: Block| b.state == BlockState::Nursery,
                block as int,
                after,
            );
            block::lemma_tally_update(
                self.blocks@,
                |b: Block| b.state != BlockState::Unallocated,
                block as int,
                after,
            );
        }
        let fresh = self.blocks[block].log();
        assert(self.blocks@ =~= old(self).blocks@.update(
            block as int,
            Block { logged: true, ..old(self).blocks@[block as int] },
        ));
        if fresh {
            self.possibly_dead_mature_blocks.push((block, defrag));
        }
    }
}

/// What a reference-counting pause works on: the Immix space, the bookkeeping of its clean
/// blocks, and the reference counts.
pub struct RcHeap {
    pub space: ImmixSpace,
    pub block_allocation: BlockAllocation,
    pub rc: RefCountHelper,
}

impl RcHeap {
    /// The parts fit the objects of `vm`, and every clean nursery block is either still a
    /// nursery block or counted as promoted in place.
    pub open spec fn wf(&self, vm: &ObjectTable) -> bool {
        &&& vm.wf(self.space.blocks@.len())
        &&& self.space.wf(vm.words@.len())
        &&& self.rc.wf(vm.objects@.len())
        &&& self.block_allocation.in_place_promoted_nursery_blocks + self.space.nursery()
            == self.block_allocation.num_nursery_blocks
    }

    /// The reference count of object `o`.
    pub open spec fn count(&self, o: usize) -> u8 {
        self.rc.at(o)
    }

    /// Note that an object was promoted in nursery block `block` without moving it.
    pub fn set_as_in_place_promoted(&mut self, block: usize)
        requires
            block < old(self).space.blocks@.len(),
            old(self).space.blocks@[block as int].state == BlockState::Nursery,
            old(self).block_allocation.in_place_promoted_nursery_blocks + old(self).space.nursery()
                == old(self).block_allocation.num_nursery_blocks,
        ensures
            final(self).rc == old(self).rc,
            final(self).space == (ImmixSpace { blocks: final(self).space.blocks, ..old(self).space }),
            final(self).space.blocks@ == old(self).space.blocks@.update(
                block as int,
                Block {
                    state: BlockState::InPlacePromoted,
                    ..old(self).space.blocks@[block as int]
                },
            ),
            final(self).block_allocation == (BlockAllocation {
                in_place_promoted_nursery_blocks: (old(self).block_allocation.in_place_promoted_nursery_blocks + 1) as usize,
                ..old(self).block_allocation
            }),
            final(self).block_allocation.in_place_promoted_nursery_blocks == old(self).block_allocation.in_place_promoted_nursery_blocks + 1,
            final(self).space.nursery() == old(self).space.nursery() - 1,
            final(self).space.allocated() == old(self).space.allocated(),
    {
        let ghost after = Block {
            state: BlockState::InPlacePromoted,
            ..self.space.blocks@[block as int]
        };
        proof {
            block::lemma_tally_update(
                self.space.blocks@,
                |b: Block| b.state == BlockState::Nursery,
                block as int,
                after,
            );
            block::lemma_tally_update(
                self.space.blocks@,
                |b: Block| b.state != BlockState::Unallocated,
                block as int,
                after,
            );
        }
        self.space.blocks[block].state = BlockState::InPlacePromoted;
        assert(self.space.blocks@ =~= old(self).space.blocks@.update(block as int, after));
        self.block_allocation.in_place_promoted_nursery_blocks =
            self.block_allocation.in_place_promoted_nursery_blocks + 1;
    }
}

/// A heap of reference counts is in order if its tables cover the objects and the words, no count
/// exceeds the sticky one, its blocks lie in known words, the page resource accounts for those that are
/// handed out, and the clean nursery blocks are nursery blocks or counted as promoted in place. No more
/// is asked of it.
pub proof fn law_what_a_counted_heap_needs(vm: &ObjectTable, h: RcHeap)
    requires
        vm.wf(h.space.blocks@.len()),
        h.rc.counts@.len() == vm.objects@.len(),
        h.rc.straddle@.len() == vm.objects@.len(),
        h.rc.max_ref_count > 0,
        forall|o: int|
            0 <= o < vm.objects@.len() ==> #[trigger] h.rc.counts@[o] <= h.rc.max_ref_count,
        h.space.unlogged@.len() == vm.words@.len(),
        h.space.marks@.len() == vm.words@.len(),
        forall|b: int|
            0 <= b < h.space.blocks@.len() ==> (#[trigger] h.space.blocks@[b]).start
                + h.space.blocks@[b].words <= vm.words@.len(),
        block::allocated_tally(h.space.blocks@) <= h.space.reserved_blocks,
        h.block_allocation.in_place_promoted_nursery_blocks + block::nursery_tally(h.space.blocks@)
            == h.block_allocation.num_nursery_blocks,
    ensures
        h.wf(vm),
        h.space.allocated() == block::allocated_tally(h.space.blocks@),
        h.space.nursery() == block::nursery_tally(h.space.blocks@),
        forall|o: usize| #[trigger] h.count(o) == h.rc.counts@[o as int],
{
}

} // verus!
