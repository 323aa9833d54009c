//! Bookkeeping of the blocks that are handed out clean: how many of them the nursery holds, and
//! how many of these an object was promoted in.

use vstd::prelude::*;

use crate::args::Args;
use crate::plan::lxr::Pause;
use crate::policy::immix::block;
use crate::policy::immix::block::{Block, BlockState, LOG_BYTES_IN_BLOCK};
use crate::policy::immix::space::ImmixSpace;
use crate::util::constants::LOG_BYTES_IN_PAGE;

verus! {

/// The clean nursery blocks of the current mutator phase.
pub struct BlockAllocation {
    /// Whether the space is known.
    pub space: bool,
    /// Whether the plan is known.
    pub lxr: bool,
    pub num_nursery_blocks: usize,
    pub in_place_promoted_nursery_blocks: usize,
}

/// `bits` with those of the `words` words from `start` set to `value`.
pub open spec fn filled(bits: Seq<bool>, start: int, words: int, value: bool) -> Seq<bool> {
    Seq::new(
        bits.len(),
        |i: int| {
            if start <= i < start + words {
                value
            } else {
                bits[i]
            }
        },
    )
}

/// Set the bits of the `words` words from `start` to `value`.
fn fill(bits: &mut Vec<bool>, start: usize, words: usize, value: bool)
    requires
        start + words <= old(bits)@.len(),
    ensures
        final(bits)@ == filled(old(bits)@, start as int, words as int, value),
{
    let mut i: usize = 0;
    assert(bits.len() == bits@.len());
    assert(bits@ =~= filled(old(bits)@, start as int, 0, value));
    while i < words
        invariant
            i <= words,
            start + words <= bits@.len(),
            bits@.len() <= usize::MAX,
            bits@ =~= filled(old(bits)@, start as int, i as int, value),
        decreases words - i,
    {
        bits[start + i] = value;
        i = i + 1;
    }
}

impl BlockAllocation {
    /// Bookkeeping that does not know its space and its plan yet.
    pub fn new() -> (r: Self)
        ensures
            !r.space,
            !r.lxr,
            r.num_nursery_blocks == 0,
            r.in_place_promoted_nursery_blocks == 0,
    {
        BlockAllocation {
            space: false,
            lxr: false,
            num_nursery_blocks: 0,
            in_place_promoted_nursery_blocks: 0,
        }
    }

    /// The number of clean nursery blocks handed out in the current mutator phase.
    pub fn clean_nursery_blocks(&self) -> (r: usize)
        ensures
            r == self.num_nursery_blocks,
    {
        self.num_nursery_blocks
    }

    /// The size of the clean nursery blocks in whole megabytes. As long as their size in bytes fits
    /// in a word, there are 32 blocks to the megabyte.
    pub fn clean_nursery_mb(&self) -> (r: usize)
        ensures
            r == (self.num_nursery_blocks << LOG_BYTES_IN_BLOCK) >> 20usize,
            self.num_nursery_blocks * 32768 <= usize::MAX ==> r == self.num_nursery_blocks / 32,
    {
        let n: usize = self.num_nursery_blocks;
        proof {
            if n * 32768 <= usize::MAX {
                lemma_block_bytes(n);
                let bytes: usize = (n * 32768) as usize;
                assert(bytes >> 20usize == bytes / 1048576usize) by (bit_vector);
            }
        }
        (n << LOG_BYTES_IN_BLOCK) >> 20
    }

    /// What was allocated in the current mutator phase, in bytes: the clean nursery blocks, and
    /// the lines that mutators recycled.
    pub fn total_young_allocation_in_bytes(&self, space: &ImmixSpace) -> (r: usize)
        requires
            self.num_nursery_blocks * 32768 + space.mutator_recycled_lines_in_pages * 4096
                <= usize::MAX,
        ensures
            r == self.num_nursery_blocks * 32768 + space.mutator_recycled_lines_in_pages * 4096,
    {
        let n: usize = self.num_nursery_blocks;
        let pages: usize = space.mutator_recycled_lines_in_pages;
        proof {
            lemma_block_bytes(n);
            lemma_page_bytes(pages);
        }
        (n << LOG_BYTES_IN_BLOCK) + (pages << LOG_BYTES_IN_PAGE)
    }

    /// Make the space known.
    pub fn init(&mut self)
        ensures
            *final(self) == (BlockAllocation { space: true, ..*old(self) }),
    {
        self.space = true;
    }

    /// Free the nursery blocks in which nothing was promoted, and start the next mutator phase
    /// with an empty nursery. The page resource stops accounting for exactly the blocks that are
    /// freed.
    pub fn sweep_nursery_blocks(&mut self, space: &mut ImmixSpace, _pause: Pause)
        requires
            old(self).in_place_promoted_nursery_blocks + old(space).nursery()
                == old(self).num_nursery_blocks,
            old(space).allocated() <= old(space).reserved_blocks,
        ensures
            *final(self) == (BlockAllocation {
                num_nursery_blocks: 0,
                in_place_promoted_nursery_blocks: 0,
                ..*old(self)
            }),
            *final(space) == (ImmixSpace {
                blocks: final(space).blocks,
                reserved_blocks: final(space).reserved_blocks,
                ..*old(space)
            }),
            final(space).blocks@.len() == old(space).blocks@.len(),
            forall|b: int|
                0 <= b < old(space).blocks@.len() ==> #[trigger] final(space).blocks@[b] == (Block {
                    state: if old(space).blocks@[b].state == BlockState::Nursery {
                        BlockState::Unallocated
                    } else {
                        old(space).blocks@[b].state
                    },
                    ..old(space).blocks@[b]
                }),
            final(space).reserved_blocks == old(space).reserved_blocks - (
            old(self).num_nursery_blocks - old(self).in_place_promoted_nursery_blocks),
            final(space).nursery() == 0,
            final(space).reserved_blocks - final(space).allocated() == old(space).reserved_blocks
                - old(space).allocated(),
            forall|words: nat| #[trigger] old(space).wf(words) ==> final(space).wf(words),
    {
        proof {
            block::lemma_tally_implies(
                space.blocks@,
                |b: Block| b.state == BlockState::Nursery,
                |b: Block| b.state != BlockState::Unallocated,
            );
        }
        let released: usize = self.num_nursery_blocks - self.in_place_promoted_nursery_blocks;
        space.reserved_blocks = space.reserved_blocks - released;
        let mut i: usize = 0;
        while i < space.blocks.len()
            invariant
                i <= space.blocks@.len(),
                space.blocks@.len() == old(space).blocks@.len(),
                *space == (ImmixSpace {
                    blocks: space.blocks,
                    reserved_blocks: space.reserved_blocks,
                    ..*old(space)
                }),
                space.reserved_blocks == old(space).reserved_blocks - released,
                forall|b: int|
                    0 <= b < space.blocks@.len() ==> #[trigger] space.blocks@[b] == (Block {
                        state: if b < i && old(space).blocks@[b].state == BlockState::Nursery {
                            BlockState::Unallocated
                        } else {
                            old(space).blocks@[b].state
                        },
                        ..old(space).blocks@[b]
                    }),
                space.allocated() - space.nursery() == old(space).allocated()
                    - old(space).nursery(),
            decreases space.blocks@.len() - i,
        {
            if space.blocks[i].is_nursery() {
                let ghost before = space.blocks@;
                let ghost after = Block {
                    state: BlockState::Unallocated,
                    ..before[i as int]
                };
                space.blocks[i].state = BlockState::Unallocated;
                proof {
                    assert(space.blocks@ =~= before.update(i as int, after));
                    block::lemma_tally_update(
                        before,
                        |b: Block| b.state == BlockState::Nursery,
                        i as int,
                        after,
                    );
                    block::lemma_tally_update(
                        before,
                        |b: Block| b.state != BlockState::Unallocated,
                        i as int,
                        after,
                    );
                }
            }
            i = i + 1;
        }
        proof {
            block::lemma_tally_none(space.blocks@, |b: Block| b.state == BlockState::Nursery);
        }
        self.num_nursery_blocks = 0;
        self.in_place_promoted_nursery_blocks = 0;
    }

    /// Note the end of a mutator phase. Nothing depends on it.
    pub fn notify_mutator_phase_end(&self) {
    }

    /// Whether a clean block has to be handed out as marked. Before the plan is known there is no
    /// concurrent marking.
    pub fn cm_in_progress_or_final_mark(&self, current_pause: Option<Pause>) -> (r: bool)
        ensures
            r == (self.lxr && current_pause == Some(Pause::FinalMark)),
    {
        self.lxr && matches!(current_pause, Some(Pause::FinalMark))
    }

    /// Put a clean block in use: as a nursery block, or, with `copy`, as one to copy into. Its
    /// metadata is set up for the collector that runs.
    pub fn initialize_new_clean_block(
        &mut self,
        space: &mut ImmixSpace,
        block: usize,
        copy: bool,
        cm_enabled: bool,
        args: Args,
        current_pause: Option<Pause>,
    )
        requires
            block < old(space).blocks@.len(),
            old(space).blocks@[block as int].state == BlockState::Unallocated,
            old(space).blocks@[block as int].start + old(space).blocks@[block as int].words
                <= old(space).unlogged@.len(),
            old(space).unlogged@.len() == old(space).marks@.len(),
            old(self).num_nursery_blocks < usize::MAX,
        ensures
            *final(self) == (BlockAllocation {
                num_nursery_blocks: final(self).num_nursery_blocks,
                ..*old(self)
            }),
            final(self).num_nursery_blocks == old(self).num_nursery_blocks + (if old(space).rc_enabled && !copy {
                1int
            } else {
                0int
            }),
            *final(space) == (ImmixSpace {
                blocks: final(space).blocks,
                unlogged: final(space).unlogged,
                marks: final(space).marks,
                clean_blocks_in_defrag: final(space).clean_blocks_in_defrag,
                ..*old(space)
            }),
            final(space).clean_blocks_in_defrag@ == (if old(space).in_defrag {
                old(space).clean_blocks_in_defrag@.push(copy)
            } else {
                old(space).clean_blocks_in_defrag@
            }),
            forall|b: int|
                0 <= b < old(space).blocks@.len() && b != block
                    ==> #[trigger] final(space).blocks@[b] == old(space).blocks@[b],
            final(space).blocks@.len() == old(space).blocks@.len(),
            ({
                let b0 = old(space).blocks@[block as int];
                let b1 = final(space).blocks@[block as int];
                &&& b1.start == b0.start
                &&& b1.words == b0.words
                &&& b1.logged == b0.logged
                &&& b1.state == (if copy {
                    BlockState::Mature
                } else {
                    BlockState::Nursery
                })
                &&& b1.zeroed == (old(space).zeroed && !copy && args.force_zeroing)
                &&& b1.line_marks@ == (if cm_enabled && !args.block_only && !old(space).rc_enabled {
                    Seq::new(b0.line_marks@.len(), |i: int| old(space).line_mark_state)
                } else {
                    b0.line_marks@
                })
                &&& final(space).unlogged@ == (if copy && (old(space).rc_enabled || (
                args.barrier_measurement && !args.barrier_measurement_no_slow)) {
                    filled(old(space).unlogged@, b0.start as int, b0.words as int, true)
                } else if !copy && old(space).rc_enabled {
                    filled(old(space).unlogged@, b0.start as int, b0.words as int, false)
                } else {
                    old(space).unlogged@
                })
                &&& final(space).marks@ == (if old(space).rc_enabled {
                    filled(
                        old(space).marks@,
                        b0.start as int,
                        b0.words as int,
                        old(self).lxr && current_pause == Some(Pause::FinalMark),
                    )
                } else {
                    old(space).marks@
                })
            }),
            final(space).allocated() == old(space).allocated() + 1,
            final(space).nursery() == old(space).nursery() + (if copy {
                0int
            } else {
                1int
            }),
            old(space).allocated() < old(space).reserved_blocks ==> forall|words: nat| #[trigger]
                old(space).wf(words) ==> final(space).wf(words),
            (copy || old(space).rc_enabled) && old(self).in_place_promoted_nursery_blocks + old(space).nursery() == old(self).num_nursery_blocks
                ==> final(self).in_place_promoted_nursery_blocks + final(space).nursery() == final(self).num_nursery_blocks,
    {
        let start: usize = space.blocks[block].start;
        let words: usize = space.blocks[block].words;
        if space.in_defrag {
            space.clean_blocks_in_defrag.push(copy);
        }
        if cm_enabled && !args.block_only && !space.rc_enabled {
            let state: u8 = space.line_mark_state;
            space.blocks[block].mark_lines(state);
        }
        if (space.rc_enabled || (args.barrier_measurement && !args.barrier_measurement_no_slow))
            && copy {
            fill(&mut space.unlogged, start, words, true);
        }
        if space.rc_enabled {
            let marked = self.cm_in_progress_or_final_mark(current_pause);
            fill(&mut space.marks, start, words, marked);
            if !copy {
                self.num_nursery_blocks = self.num_nursery_blocks + 1;
                fill(&mut space.unlogged, start, words, false);
            }
        }
        space.blocks[block].init_rc(copy);
        space.blocks[block].zeroed = space.zeroed && !copy && args.force_zeroing;
        proof {
            let after = space.blocks@[block as int];
            assert(space.blocks@ =~= old(space).blocks@.update(block as int, after));
            block::lemma_tally_update(
                old(space).blocks@,
                |b: Block| b.state == BlockState::Nursery,
                block as int,
                after,
            );
            block::lemma_tally_update(
                old(space).blocks@,
                |b: Block| b.state != BlockState::Unallocated,
                block as int,
                after,
            );
        }
    }
}

proof fn lemma_block_bytes(n: usize)
    requires
        n * 32768 <= usize::MAX,
    ensures
        n << LOG_BYTES_IN_BLOCK == n * 32768,
{
    vstd::arithmetic::power2::lemma2_to64();
    vstd::bits::lemma_usize_shl_is_mul(n, 15);
}

proof fn lemma_page_bytes(n: usize)
    requires
        n * 4096 <= usize::MAX,
    ensures
        n << LOG_BYTES_IN_PAGE == n * 4096,
{
    vstd::arithmetic::power2::lemma2_to64();
    vstd::bits::lemma_usize_shl_is_mul(n, 12);
}

/// Filling the bits of some words sets these, and no others.
pub proof fn law_only_the_words_of_the_block_are_filled(
    bits: Seq<bool>,
    start: int,
    words: int,
    value: bool,
    i: int,
)
    requires
        0 <= start,
        0 <= words,
        start + words <= bits.len(),
        0 <= i < bits.len(),
    ensures
        filled(bits, start, words, value).len() == bits.len(),
        start <= i < start + words ==> filled(bits, start, words, value)[i] == value,
        i < start || i >= start + words ==> filled(bits, start, words, value)[i] == bits[i],
{
}

} // verus!
