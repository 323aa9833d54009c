//! Immix blocks.

use vstd::prelude::*;

verus! {

/// The base-two logarithm of the size of a block in bytes.
pub const LOG_BYTES_IN_BLOCK: usize = 15;

/// The state of a block.
#[derive(Clone, Copy, PartialEq, Eq, Structural, Debug)]
pub enum BlockState {
    /// Not handed out.
    Unallocated,
    /// A clean block handed out in the current mutator phase.
    Nursery,
    /// A nursery block in which an object was promoted without moving it.
    InPlacePromoted,
    /// A block that was handed out to copy into.
    Mature,
}

/// A block: the words it covers, and its metadata.
pub struct Block {
    /// The first word of the block.
    pub start: usize,
    /// The number of words of the block.
    pub words: usize,
    pub state: BlockState,
    /// Whether the block waits to be swept.
    pub logged: bool,
    /// The mark of each line.
    pub line_marks: Vec<u8>,
    /// Whether the memory of the block was zeroed when the block was handed out.
    pub zeroed: bool,
}

impl Block {
    /// Whether the block covers word `w`.
    pub open spec fn covers(&self, w: int) -> bool {
        self.start <= w < self.start + self.words
    }

    /// Everything but the state of the block is as in `other`.
    pub open spec fn same_but_state(&self, other: Block) -> bool {
        &&& self.start == other.start
        &&& self.words == other.words
        &&& self.logged == other.logged
        &&& self.line_marks == other.line_marks
        &&& self.zeroed == other.zeroed
    }

    /// A fresh block over `words` words from `start`, with `lines` lines.
    pub fn new(start: usize, words: usize, lines: usize) -> (b: Self)
        ensures
            b.start == start,
            b.words == words,
            b.state == BlockState::Unallocated,
            !b.logged,
            !b.zeroed,
            b.line_marks@ == Seq::new(lines as nat, |i: int| 0u8),
    {
        let mut line_marks: Vec<u8> = Vec::new();
        let mut i: usize = 0;
        while i < lines
            invariant
                i <= lines,
                line_marks@ =~= Seq::new(i as nat, |i: int| 0u8),
            decreases lines - i,
        {
            line_marks.push(0);
            i = i + 1;
        }
        Block { start, words, state: BlockState::Unallocated, logged: false, line_marks, zeroed: false }
    }

    /// Whether the block is a nursery block.
    pub fn is_nursery(&self) -> (r: bool)
        ensures
            r == (self.state == BlockState::Nursery),
    {
        self.state == BlockState::Nursery
    }

    /// Note that the block waits to be swept. Returns whether it did not wait before.
    pub fn log(&mut self) -> (r: bool)
        ensures
            r == !old(self).logged,
            *final(self) == (Block { logged: true, ..*old(self) }),
    {
        let fresh = !self.logged;
        self.logged = true;
        fresh
    }

    /// Note that the block no longer waits to be swept.
    pub fn unlog(&mut self)
        ensures
            *final(self) == (Block { logged: false, ..*old(self) }),
    {
        self.logged = false;
    }

    /// Give every line of the block the mark `state`.
    pub fn mark_lines(&mut self, state: u8)
        ensures
            final(self).start == old(self).start,
            final(self).words == old(self).words,
            final(self).state == old(self).state,
            final(self).logged == old(self).logged,
            final(self).zeroed == old(self).zeroed,
            final(self).line_marks@ == Seq::new(old(self).line_marks@.len(), |i: int| state),
    {
        let mut i: usize = 0;
        while i < self.line_marks.len()
            invariant
                i <= self.line_marks@.len(),
                self.line_marks@.len() == old(self).line_marks@.len(),
                self.start == old(self).start,
                self.words == old(self).words,
                self.state == old(self).state,
                self.logged == old(self).logged,
                self.zeroed == old(self).zeroed,
                forall|k: int| 0 <= k < i ==> #[trigger] self.line_marks@[k] == state,
            decreases self.line_marks@.len() - i,
        {
            self.line_marks[i] = state;
            i = i + 1;
        }
        assert(self.line_marks@ =~= Seq::new(old(self).line_marks@.len(), |i: int| state));
    }

    /// Put the block in use: as a nursery block, or as one to copy into.
    pub fn init_rc(&mut self, copy: bool)
        ensures
            *final(self) == (Block {
                state: if copy {
                    BlockState::Mature
                } else {
                    BlockState::Nursery
                },
                ..*old(self)
            }),
    {
        if copy {
            self.state = BlockState::Mature;
        } else {
            self.state = BlockState::Nursery;
        }
    }
}

/// How many of `blocks` satisfy `p`.
pub open spec fn tally(blocks: Seq<Block>, p: spec_fn(Block) -> bool) -> nat
    decreases blocks.len(),
{
    if blocks.len() == 0 {
        0
    } else {
        tally(blocks.drop_last(), p) + (if p(blocks.last()) {
            1nat
        } else {
            0nat
        })
    }
}

/// How many of `blocks` are nursery blocks.
pub open spec fn nursery_tally(blocks: Seq<Block>) -> nat {
    tally(blocks, |b: Block| b.state == BlockState::Nursery)
}

/// How many of `blocks` are handed out.
pub open spec fn allocated_tally(blocks: Seq<Block>) -> nat {
    tally(blocks, |b: Block| b.state != BlockState::Unallocated)
}

pub proof fn lemma_tally_update(blocks: Seq<Block>, p: spec_fn(Block) -> bool, i: int, b: Block)
    requires
        0 <= i < blocks.len(),
    ensures
        tally(blocks.update(i, b), p) == tally(blocks, p) + (if p(b) {
            1int
        } else {
            0int
        }) - (if p(blocks[i]) {
            1int
        } else {
            0int
        }),
    decreases blocks.len(),
{
    let last = blocks.len() - 1;
    if i == last {
        assert(blocks.update(i, b).drop_last() =~= blocks.drop_last());
    } else {
        lemma_tally_update(blocks.drop_last(), p, i, b);
        assert(blocks.update(i, b).drop_last() =~= blocks.drop_last().update(i, b));
    }
}

pub proof fn lemma_tally_none(blocks: Seq<Block>, p: spec_fn(Block) -> bool)
    requires
        forall|b: int| 0 <= b < blocks.len() ==> !p(#[trigger] blocks[b]),
    ensures
        tally(blocks, p) == 0,
    decreases blocks.len(),
{
    if blocks.len() > 0 {
        let rest = blocks.drop_last();
        assert forall|b: int| 0 <= b < rest.len() implies !p(#[trigger] rest[b]) by {
            assert(rest[b] == blocks[b]);
        }
        lemma_tally_none(rest, p);
    }
}

pub proof fn lemma_tally_implies(
    blocks: Seq<Block>,
    p: spec_fn(Block) -> bool,
    q: spec_fn(Block) -> bool,
)
    requires
        forall|b: Block| #[trigger] p(b) ==> q(b),
    ensures
        tally(blocks, p) <= tally(blocks, q),
    decreases blocks.len(),
{
    if blocks.len() > 0 {
        lemma_tally_implies(blocks.drop_last(), p, q);
    }
}

/// The blocks that are handed out, and those of the nursery, are counted one by one, by their states.
pub proof fn law_blocks_are_counted_by_their_states(blocks: Seq<Block>, b: Block)
    ensures
        allocated_tally(Seq::empty()) == 0,
        nursery_tally(Seq::empty()) == 0,
        allocated_tally(blocks.push(b)) == allocated_tally(blocks) + (match b.state {
            BlockState::Unallocated => 0nat,
            _ => 1nat,
        }),
        nursery_tally(blocks.push(b)) == nursery_tally(blocks) + (match b.state {
            BlockState::Nursery => 1nat,
            _ => 0nat,
        }),
{
    assert(blocks.push(b).drop_last() =~= blocks);
}

} // verus!
