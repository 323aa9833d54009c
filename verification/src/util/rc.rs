//! Reference counts and the straddle-line metadata that goes with them.

use vstd::prelude::*;

use crate::vm::ObjectReference;

verus! {

/// `k`, or `max` where `k` exceeds it: what a sticky counter shows after `k` increments.
pub open spec fn saturated(max: int, k: int) -> int {
    if k <= max {
        k
    } else {
        max
    }
}

/// How many of the first `n` counts are zero.
pub open spec fn zeros(counts: Seq<u8>, n: int) -> nat
    decreases n,
{
    if n <= 0 {
        0
    } else {
        zeros(counts, n - 1) + (if counts[n - 1] == 0 {
            1nat
        } else {
            0nat
        })
    }
}

pub proof fn lemma_zeros_update(counts: Seq<u8>, n: int, i: int, v: u8)
    requires
        0 <= i < counts.len(),
        0 <= n <= counts.len(),
    ensures
        zeros(counts.update(i, v), n) == zeros(counts, n) + (if i < n && v == 0 && counts[i] != 0 {
            1int
        } else if i < n && v != 0 && counts[i] == 0 {
            -1int
        } else {
            0int
        }),
    decreases n,
{
    if n > 0 {
        lemma_zeros_update(counts, n - 1, i, v);
    }
}

pub proof fn lemma_zeros_bound(counts: Seq<u8>, n: int)
    requires
        0 <= n,
    ensures
        zeros(counts, n) <= n,
    decreases n,
{
    if n > 0 {
        lemma_zeros_bound(counts, n - 1);
    }
}

/// The reference count of each object. A count that has reached `max_ref_count` sticks: it is
/// neither incremented nor decremented any more.
pub struct RefCountHelper {
    pub counts: Vec<u8>,
    /// The size with which an object was promoted, while its straddle lines are marked.
    pub straddle: Vec<Option<usize>>,
    pub max_ref_count: u8,
}

impl RefCountHelper {
    /// Both tables cover `objects` objects, and no count exceeds the sticky one.
    pub open spec fn wf(&self, objects: nat) -> bool {
        &&& self.counts@.len() == objects
        &&& self.straddle@.len() == objects
        &&& self.max_ref_count > 0
        &&& forall|i: int| 0 <= i < self.counts@.len() ==> #[trigger] self.counts@[i] <= self.max_ref_count
    }

    /// The count of object `o`.
    pub open spec fn at(&self, o: usize) -> u8 {
        self.counts@[o as int]
    }

    /// Counts for `objects` fresh objects.
    pub fn new(objects: usize, max_ref_count: u8) -> (r: Self)
        requires
            max_ref_count > 0,
        ensures
            r.wf(objects as nat),
            r.max_ref_count == max_ref_count,
            forall|o: usize| o < objects ==> #[trigger] r.at(o) == 0,
            forall|o: int| 0 <= o < objects ==> #[trigger] r.straddle@[o] is None,
    {
        let mut counts: Vec<u8> = Vec::new();
        let mut straddle: Vec<Option<usize>> = Vec::new();
        let mut i: usize = 0;
        while i < objects
            invariant
                i <= objects,
                counts@.len() == i,
                straddle@.len() == i,
                forall|o: int| 0 <= o < i ==> #[trigger] counts@[o] == 0,
                forall|o: int| 0 <= o < i ==> #[trigger] straddle@[o] is None,
            decreases objects - i,
        {
            counts.push(0);
            straddle.push(None);
            i = i + 1;
        }
        RefCountHelper { counts, straddle, max_ref_count }
    }

    /// The count of `o`.
    pub fn count(&self, o: ObjectReference) -> (c: u8)
        requires
            o < self.counts@.len(),
        ensures
            c == self.at(o),
    {
        self.counts[o]
    }

    /// Set the count of `o`.
    pub fn set(&mut self, o: ObjectReference, c: u8)
        requires
            o < old(self).counts@.len(),
        ensures
            final(self).counts@ == old(self).counts@.update(o as int, c),
            final(self).straddle == old(self).straddle,
            final(self).max_ref_count == old(self).max_ref_count,
    {
        self.counts[o] = c;
    }

    /// Increment the count of `o` unless it sticks. `Ok` and `Err` both hold the count before
    /// the call; `Err` says that it sticks.
    pub fn inc(&mut self, o: ObjectReference) -> (r: Result<u8, u8>)
        requires
            old(self).wf(old(self).counts@.len()),
            o < old(self).counts@.len(),
        ensures
            final(self).straddle == old(self).straddle,
            final(self).max_ref_count == old(self).max_ref_count,
            final(self).wf(old(self).counts@.len()),
            final(self).counts@ == old(self).counts@.update(
                o as int,
                saturated(old(self).max_ref_count as int, old(self).at(o) + 1) as u8,
            ),
            r == (if old(self).at(o) == old(self).max_ref_count {
                Err::<u8, u8>(old(self).at(o))
            } else {
                Ok::<u8, u8>(old(self).at(o))
            }),
            final(self).counts@[o as int] == old(self).counts@[o as int] + (if old(self).counts@[o as int] < old(self).max_ref_count {
                1int
            } else {
                0int
            }),
    {
        let c: u8 = self.counts[o];
        if c == self.max_ref_count {
            assert(self.counts@.update(o as int, c) =~= self.counts@);
            Err(c)
        } else {
            self.counts[o] = c + 1;
            Ok(c)
        }
    }

    /// Decrement the count of `o` unless it sticks or is zero. `Ok` and `Err` both hold the
    /// count before the call; `Err` says that nothing was decremented.
    pub fn dec(&mut self, o: ObjectReference) -> (r: Result<u8, u8>)
        requires
            old(self).wf(old(self).counts@.len()),
            o < old(self).counts@.len(),
        ensures
            final(self).straddle == old(self).straddle,
            final(self).max_ref_count == old(self).max_ref_count,
            final(self).wf(old(self).counts@.len()),
            final(self).counts@ == (if old(self).at(o) == 0 || old(self).at(o) == old(self).max_ref_count {
                old(self).counts@
            } else {
                old(self).counts@.update(o as int, (old(self).at(o) - 1) as u8)
            }),
            r == (if old(self).at(o) == 0 || old(self).at(o) == old(self).max_ref_count {
                Err::<u8, u8>(old(self).at(o))
            } else {
                Ok::<u8, u8>(old(self).at(o))
            }),
    {
        let c: u8 = self.counts[o];
        if c == 0 || c == self.max_ref_count {
            Err(c)
        } else {
            self.counts[o] = c - 1;
            Ok(c)
        }
    }

    /// Mark the lines that `o`, of `size` bytes, straddles.
    pub fn promote_with_size(&mut self, o: ObjectReference, size: usize)
        requires
            o < old(self).straddle@.len(),
        ensures
            final(self).counts == old(self).counts,
            final(self).max_ref_count == old(self).max_ref_count,
            final(self).straddle@ == old(self).straddle@.update(o as int, Some(size)),
    {
        self.straddle[o] = Some(size);
    }

    /// Clear the straddle lines of `o`.
    pub fn unmark_straddle_object(&mut self, o: ObjectReference)
        requires
            o < old(self).straddle@.len(),
        ensures
            final(self).counts == old(self).counts,
            final(self).max_ref_count == old(self).max_ref_count,
            final(self).straddle@ == old(self).straddle@.update(o as int, None),
    {
        self.straddle[o] = None;
    }
}

/// A sticky counter shows the number of increments as long as it can, and its greatest value from then
/// on. One more increment never lowers it, and raises it by one below that value.
pub proof fn law_a_sticky_counter_counts_up_to_its_maximum(max: int, k: int)
    ensures
        k <= max ==> saturated(max, k) == k,
        k >= max ==> saturated(max, k) == max,
        k < max ==> saturated(max, k + 1) == saturated(max, k) + 1,
        k >= max ==> saturated(max, k + 1) == saturated(max, k),
{
}

/// The counts of zero are counted one by one.
pub proof fn law_zeros_are_counted_one_by_one(counts: Seq<u8>, n: int)
    requires
        0 <= n < counts.len(),
    ensures
        zeros(counts, 0) == 0,
        counts[n] == 0 ==> zeros(counts, n + 1) == zeros(counts, n) + 1,
        counts[n] > 0 ==> zeros(counts, n + 1) == zeros(counts, n),
{
}

} // verus!
