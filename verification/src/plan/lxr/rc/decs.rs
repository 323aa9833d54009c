//! Decrements.

use std::sync::Arc;

use vstd::prelude::*;

use crate::args::Args;
use crate::plan::lxr::rc::incs;
use crate::plan::lxr::Pause;
use crate::policy::immix::block::Block;
use crate::policy::immix::space::{ImmixSpace, RcHeap};
use crate::scheduler::work_bucket::WorkBucketStage;
use crate::util::rc;
use crate::vm::{ObjectReference, ObjectTable, Place};

verus! {

/// How many entries of `s` are `x`.
pub open spec fn occurrences(s: Seq<usize>, x: usize) -> nat
    decreases s.len(),
{
    if s.len() == 0 {
        0
    } else {
        occurrences(s.drop_last(), x) + (if s.last() == x {
            1nat
        } else {
            0nat
        })
    }
}

/// A batch of decrements that was handed over as a packet of its own.
pub struct DecBatch {
    pub decs: Vec<ObjectReference>,
    pub counter: LazySweepingJobsCounter,
    /// The stage to which the packet was added.
    pub stage: WorkBucketStage,
    /// Whether the packet was added with priority.
    pub prioritized: bool,
}

/// The decrements of `x` in the batches `out`.
pub open spec fn batch_occurrences(out: Seq<DecBatch>, x: usize) -> nat
    decreases out.len(),
{
    if out.len() == 0 {
        0
    } else {
        batch_occurrences(out.drop_last(), x) + occurrences(out.last().decs@, x)
    }
}

/// `k`, or zero where `k` is negative: what is left of a count that was to be decremented too often.
pub open spec fn floored(k: int) -> int {
    if k < 0 {
        0
    } else {
        k
    }
}

/// What `n` decrements leave of a count `c`: one that sticks, at `max`, stays, and no count drops
/// below zero.
pub open spec fn dropped(max: int, c: int, n: int) -> int {
    if c == max {
        c
    } else {
        floored(c - n)
    }
}

/// The decrements of `x` that the deaths of the objects of `log` cause: one for each of their
/// fields that refers to `x`, if `x` lies in the Immix space.
pub open spec fn dead_refs(vm: &ObjectTable, recursive: bool, log: Seq<usize>, x: usize) -> nat {
    if recursive && vm.in_immix(x) {
        vm.field_refs(log, x)
    } else {
        0
    }
}

/// Stands for the sweeping jobs that wait for a packet.
#[derive(Clone, Copy, PartialEq, Eq, Structural, Debug)]
pub struct LazySweepingJobsCounter {
    /// Whether the jobs also wait for the decrements.
    pub decs: bool,
}

impl LazySweepingJobsCounter {
    /// A counter for a packet of decrements.
    pub fn new_decs() -> (c: Self)
        ensures
            c.decs,
    {
        LazySweepingJobsCounter { decs: true }
    }

    /// A counter for a packet of decrements that this packet gave rise to.
    pub fn clone_with_decs(&self) -> (c: Self)
        ensures
            c.decs,
    {
        LazySweepingJobsCounter { decs: true }
    }
}

/// A buffer of decrements. An object whose count reaches zero is dead: its fields are decremented
/// in turn, its straddle lines are cleared, and its block is left to be swept.
pub struct ProcessDecs {
    pub decs: Option<Vec<ObjectReference>>,
    pub decs_arc: Option<Arc<Vec<ObjectReference>>>,
    /// Objects that fields of dead objects refer to.
    pub new_decs: Vec<ObjectReference>,
    pub counter: LazySweepingJobsCounter,
    /// The objects that died so far, in the order of their deaths.
    pub died: Ghost<Seq<usize>>,
}

/// Whether each of `s` names an object.
pub open spec fn all_objects(vm: &ObjectTable, s: Seq<usize>) -> bool {
    forall|i: int| 0 <= i < s.len() ==> vm.has(#[trigger] s[i])
}

/// The blocks that wait to be swept in `h1`, besides those that wait in `h0`, are those that `h1`
/// logs and `h0` does not: each is entered once, after the others, without the defrag flag.
pub open spec fn newly_logged(h0: RcHeap, h1: RcHeap) -> bool {
    let q0 = h0.space.possibly_dead_mature_blocks@;
    let q1 = h1.space.possibly_dead_mature_blocks@;
    &&& q0.len() <= q1.len()
    &&& forall|i: int| 0 <= i < q0.len() ==> #[trigger] q1[i] == q0[i]
    &&& forall|i: int|
        q0.len() <= i < q1.len() ==> {
            &&& !(#[trigger] q1[i]).1
            &&& q1[i].0 < h0.space.blocks@.len()
            &&& !h0.space.blocks@[q1[i].0 as int].logged
            &&& h1.space.blocks@[q1[i].0 as int].logged
        }
    &&& forall|i: int, j: int| q0.len() <= i < j < q1.len() ==> #[trigger] q1[i].0 != #[trigger] q1[j].0
    &&& forall|b: int|
        0 <= b < h0.space.blocks@.len() && !h0.space.blocks@[b].logged
            && (#[trigger] h1.space.blocks@[b]).logged ==> exists|i: int|
            q0.len() <= i < q1.len() && (#[trigger] q1[i]).0 == b
}

/// What the deaths of the objects of `log` do to everything but the counts: the straddle lines
/// of those in the Immix space are cleared, and their blocks are left to be swept.
pub open spec fn burial(
    vm: &ObjectTable,
    args: Args,
    h0: RcHeap,
    h1: RcHeap,
    log: Seq<usize>,
) -> bool {
    &&& h1.space == (ImmixSpace {
        blocks: h1.space.blocks,
        possibly_dead_mature_blocks: h1.space.possibly_dead_mature_blocks,
        ..h0.space
    })
    &&& h1.block_allocation == h0.block_allocation
    &&& h1.rc.max_ref_count == h0.rc.max_ref_count
    &&& h1.space.blocks@.len() == h0.space.blocks@.len()
    &&& forall|b: int|
        0 <= b < h0.space.blocks@.len() ==> #[trigger] h1.space.blocks@[b] == (Block {
            logged: h0.space.blocks@[b].logged || incs::hits_block(vm, log, b),
            ..h0.space.blocks@[b]
        })
    &&& newly_logged(h0, h1)
    &&& h1.rc.straddle@.len() == h0.rc.straddle@.len()
    &&& forall|o: usize|
        o < h0.rc.straddle@.len() ==> #[trigger] h1.rc.straddle@[o as int] == (if log.contains(o)
            && vm.in_immix(o) && !args.block_only {
            None
        } else {
            h0.rc.straddle@[o as int]
        })
}

/// The objects of `log` are those whose count reached zero, each once.
pub open spec fn reached_zero(vm: &ObjectTable, h0: RcHeap, h1: RcHeap, log: Seq<usize>) -> bool {
    &&& log.no_duplicates()
    &&& forall|x: usize| #[trigger] vm.has(x) ==> h1.count(x) <= h0.count(x)
    &&& forall|x: usize| #[trigger]
        log.contains(x) <==> vm.has(x) && h0.count(x) > 0 && h1.count(x) == 0
    &&& rc::zeros(h1.rc.counts@, vm.objects@.len() as int) == rc::zeros(
        h0.rc.counts@,
        vm.objects@.len() as int,
    ) + log.len()
}

/// The decrements of `x` that wait: in the new decrements of a packet, and in the batches that
/// were handed over.
pub open spec fn due(new_decs: Seq<usize>, out: Seq<DecBatch>, x: usize) -> nat {
    occurrences(new_decs, x) + batch_occurrences(out, x)
}

/// The number of decrements that fill a buffer.
pub open spec fn full_batch(args: Args) -> int {
    if args.buffer_size == 0 {
        1
    } else {
        args.buffer_size as int
    }
}

/// The batches from position `from` on hold as many objects as fill a buffer, and go to the
/// unconstrained stage.
pub open spec fn dec_batches_from(
    vm: &ObjectTable,
    args: Args,
    prioritized: bool,
    out: Seq<DecBatch>,
    from: int,
) -> bool {
    forall|i: int|
        from <= i < out.len() ==> {
            &&& (#[trigger] out[i]).decs@.len() == full_batch(args)
            &&& out[i].prioritized == prioritized
            &&& out[i].counter.decs
            &&& out[i].stage == WorkBucketStage::Unconstrained
            &&& all_objects(vm, out[i].decs@)
        }
}

/// `a` is how `b` starts.
pub open spec fn dec_starts_with(b: Seq<DecBatch>, a: Seq<DecBatch>) -> bool {
    &&& a.len() <= b.len()
    &&& forall|i: int| 0 <= i < a.len() ==> #[trigger] b[i] == a[i]
}

/// What processing the decrements `list` does: each takes effect at once, the objects of `log` die, in
/// that order, and the decrements from the fields of the dead objects wait to take effect.
pub open spec fn settle(
    vm: &ObjectTable,
    args: Args,
    prioritized: bool,
    p0: ProcessDecs,
    p1: ProcessDecs,
    h0: RcHeap,
    h1: RcHeap,
    out0: Seq<DecBatch>,
    out1: Seq<DecBatch>,
    list: Seq<usize>,
    log: Seq<usize>,
) -> bool {
    &&& p1.decs == p0.decs
    &&& p1.decs_arc == p0.decs_arc
    &&& p1.counter == p0.counter
    &&& p1.died@ == p0.died@ + log
    &&& burial(vm, args, h0, h1, log)
    &&& reached_zero(vm, h0, h1, log)
    &&& forall|x: usize| #[trigger]
        vm.has(x) ==> accounted(
            vm,
            args,
            h0,
            h1,
            due(p0.new_decs@, out0, x) as int,
            due(p1.new_decs@, out1, x) as int,
            list,
            log,
            x,
        )
    &&& forall|x: usize| #[trigger]
        vm.has(x) ==> h1.count(x) == dropped(
            h0.rc.max_ref_count as int,
            h0.count(x) as int,
            occurrences(list, x) as int,
        )
    &&& dec_starts_with(out1, out0)
    &&& dec_batches_from(vm, args, prioritized, out1, out0.len() as int)
    &&& log.len() == 0 ==> p1.new_decs@ == p0.new_decs@ && out1 == out0
}

/// The account of object `x`, of whose decrements `due0` wait before and `due1` after. A count that
/// sticks stays. Any other is what is left of it after the decrements from `list` and from the
/// fields of the objects of `log`, as far as they do not wait. No more come to wait than those from
/// the fields, and none of an object whose count they cannot change.
pub open spec fn accounted(
    vm: &ObjectTable,
    args: Args,
    h0: RcHeap,
    h1: RcHeap,
    due0: int,
    due1: int,
    list: Seq<usize>,
    log: Seq<usize>,
    x: usize,
) -> bool {
    let dead = dead_refs(vm, !args.no_recursive_dec, log, x);
    &&& h0.count(x) == h0.rc.max_ref_count ==> h1.count(x) == h0.rc.max_ref_count
    &&& h0.count(x) < h0.rc.max_ref_count ==> floored(h1.count(x) - due1) == floored(
        h0.count(x) - due0 - occurrences(list, x) - dead,
    )
    &&& h0.count(x) - h1.count(x) + due1 <= due0 + occurrences(list, x) + dead
    &&& due1 <= due0 + dead
    &&& h0.count(x) == 0 || h0.count(x) == h0.rc.max_ref_count ==> due1 == due0
}

/// The objects of `log` died of the decrements from `decs` and from the fields of the objects that
/// died before them.
pub open spec fn caused(
    vm: &ObjectTable,
    args: Args,
    h0: RcHeap,
    decs: Seq<usize>,
    log: Seq<usize>,
) -> bool {
    forall|i: int|
        0 <= i < log.len() ==> h0.count(#[trigger] log[i]) <= occurrences(decs, log[i])
            + dead_refs(vm, !args.no_recursive_dec, log.take(i), log[i])
}

/// What a packet of decrements does to the heap when it runs on `decs`, when the objects of `log`
/// die in that order, and when it hands over the batches that `out1` has and `out0` has not:
///
/// * an object dies exactly when its count reaches zero, which takes as many decrements as its
///   count was;
/// * every decrement from `decs` takes effect at once, unless the count sticks or is zero;
/// * one from a field of a dead object takes effect alike, or waits in a batch to take effect;
/// * a batch holds objects to which fields of dead objects refer, and is handed over when the buffer
///   is full.
pub open spec fn decremented(
    vm: &ObjectTable,
    args: Args,
    prioritized: bool,
    h0: RcHeap,
    h1: RcHeap,
    out0: Seq<DecBatch>,
    out1: Seq<DecBatch>,
    decs: Seq<usize>,
    log: Seq<usize>,
) -> bool {
    &&& burial(vm, args, h0, h1, log)
    &&& reached_zero(vm, h0, h1, log)
    &&& caused(vm, args, h0, decs, log)
    &&& forall|x: usize| #[trigger]
        vm.has(x) ==> accounted(
            vm,
            args,
            h0,
            h1,
            batch_occurrences(out0, x) as int,
            batch_occurrences(out1, x) as int,
            decs,
            log,
            x,
        )
    &&& forall|x: usize| #[trigger]
        vm.has(x) ==> h1.count(x) <= dropped(
            h0.rc.max_ref_count as int,
            h0.count(x) as int,
            occurrences(decs, x) as int,
        )
    &&& dec_starts_with(out1, out0)
    &&& dec_batches_from(vm, args, prioritized, out1, out0.len() as int)
}

pub proof fn lemma_occurrences_push(s: Seq<usize>, y: usize, x: usize)
    ensures
        occurrences(s.push(y), x) == occurrences(s, x) + (if y == x {
            1nat
        } else {
            0nat
        }),
{
    assert(s.push(y).drop_last() =~= s);
}

pub proof fn lemma_occurrences_add(a: Seq<usize>, b: Seq<usize>, x: usize)
    ensures
        occurrences(a + b, x) == occurrences(a, x) + occurrences(b, x),
    decreases b.len(),
{
    if b.len() == 0 {
        assert(a + b =~= a);
    } else {
        lemma_occurrences_add(a, b.drop_last(), x);
        assert((a + b).drop_last() =~= a + b.drop_last());
    }
}

proof fn lemma_newly_logged_add(
    vm: &ObjectTable,
    args: Args,
    h0: RcHeap,
    h1: RcHeap,
    h2: RcHeap,
    log1: Seq<usize>,
    log2: Seq<usize>,
)
    requires
        burial(vm, args, h0, h1, log1),
        burial(vm, args, h1, h2, log2),
    ensures
        newly_logged(h0, h2),
{
    let q0 = h0.space.possibly_dead_mature_blocks@;
    let q1 = h1.space.possibly_dead_mature_blocks@;
    let q2 = h2.space.possibly_dead_mature_blocks@;
    assert forall|b: int| 0 <= b < h0.space.blocks@.len() implies (h0.space.blocks@[b].logged
        ==> h1.space.blocks@[b].logged) && (h1.space.blocks@[b].logged
        ==> h2.space.blocks@[b].logged) by {
        assert(h1.space.blocks@[b].logged == (h0.space.blocks@[b].logged || incs::hits_block(
            vm,
            log1,
            b,
        )));
        assert(h2.space.blocks@[b].logged == (h1.space.blocks@[b].logged || incs::hits_block(
            vm,
            log2,
            b,
        )));
    }
    assert forall|i: int| q0.len() <= i < q2.len() implies {
        &&& !(#[trigger] q2[i]).1
        &&& q2[i].0 < h0.space.blocks@.len()
        &&& !h0.space.blocks@[q2[i].0 as int].logged
        &&& h2.space.blocks@[q2[i].0 as int].logged
        &&& i < q1.len() <==> h1.space.blocks@[q2[i].0 as int].logged
    } by {
        if i < q1.len() {
            assert(q2[i] == q1[i]);
        }
    }
    assert forall|b: int|
        0 <= b < h0.space.blocks@.len() && !h0.space.blocks@[b].logged
            && (#[trigger] h2.space.blocks@[b]).logged implies exists|i: int|
        q0.len() <= i < q2.len() && (#[trigger] q2[i]).0 == b by {
        if h1.space.blocks@[b].logged {
            let i = choose|i: int| q0.len() <= i < q1.len() && (#[trigger] q1[i]).0 == b;
            assert(q2[i] == q1[i]);
        } else {
            let i = choose|i: int| q1.len() <= i < q2.len() && (#[trigger] q2[i]).0 == b;
            assert(q2[i].0 == b);
        }
    }
    assert forall|i: int| 0 <= i < q0.len() implies #[trigger] q2[i] == q0[i] by {
        assert(q1[i] == q0[i]);
    }
    assert forall|i: int, j: int| q0.len() <= i < j < q2.len() implies #[trigger] q2[i].0
        != #[trigger] q2[j].0 by {
        if j < q1.len() {
            assert(q2[i] == q1[i] && q2[j] == q1[j]);
        }
    }
}

pub proof fn lemma_burial_add(
    vm: &ObjectTable,
    args: Args,
    h0: RcHeap,
    h1: RcHeap,
    h2: RcHeap,
    log1: Seq<usize>,
    log2: Seq<usize>,
)
    requires
        burial(vm, args, h0, h1, log1),
        burial(vm, args, h1, h2, log2),
    ensures
        burial(vm, args, h0, h2, log1 + log2),
{
    let log = log1 + log2;
    lemma_newly_logged_add(vm, args, h0, h1, h2, log1, log2);
    assert forall|b: int| 0 <= b < h0.space.blocks@.len() implies #[trigger] h2.space.blocks@[b] == (
    Block {
        logged: h0.space.blocks@[b].logged || incs::hits_block(vm, log, b),
        ..h0.space.blocks@[b]
    }) by {
        incs::lemma_hits_block_add(vm, log1, log2, b);
        assert(h1.space.blocks@[b] == (Block {
            logged: h0.space.blocks@[b].logged || incs::hits_block(vm, log1, b),
            ..h0.space.blocks@[b]
        }));
    }
    assert forall|o: usize| o < h0.rc.straddle@.len() implies #[trigger] h2.rc.straddle@[o as int]
        == (if log.contains(o) && vm.in_immix(o) && !args.block_only {
        None
    } else {
        h0.rc.straddle@[o as int]
    }) by {
        incs::lemma_contains_add(log1, log2, o);
        assert(h1.rc.straddle@[o as int] == (if log1.contains(o) && vm.in_immix(o)
            && !args.block_only {
            None
        } else {
            h0.rc.straddle@[o as int]
        }));
    }
}

pub proof fn lemma_reached_zero_add(
    vm: &ObjectTable,
    h0: RcHeap,
    h1: RcHeap,
    h2: RcHeap,
    log1: Seq<usize>,
    log2: Seq<usize>,
)
    requires
        reached_zero(vm, h0, h1, log1),
        reached_zero(vm, h1, h2, log2),
    ensures
        reached_zero(vm, h0, h2, log1 + log2),
{
    let log = log1 + log2;
    assert forall|x: usize| #[trigger] log.contains(x) <==> vm.has(x) && h0.count(x) > 0
        && h2.count(x) == 0 by {
        incs::lemma_contains_add(log1, log2, x);
        assert(log1.contains(x) <==> vm.has(x) && h0.count(x) > 0 && h1.count(x) == 0);
        assert(log2.contains(x) <==> vm.has(x) && h1.count(x) > 0 && h2.count(x) == 0);
        if vm.has(x) {
            assert(h2.count(x) <= h1.count(x) <= h0.count(x));
        }
    }
    assert forall|i: int, j: int| 0 <= i < log.len() && 0 <= j < log.len() && i != j implies log[i]
        != log[j] by {
        if i < log1.len() && j >= log1.len() {
            assert(log1.contains(log1[i]));
            assert(log2.contains(log2[j - log1.len()]));
        } else if i >= log1.len() && j < log1.len() {
            assert(log1.contains(log1[j]));
            assert(log2.contains(log2[i - log1.len()]));
        }
    }
    assert(log.no_duplicates());
    assert forall|x: usize| #[trigger] vm.has(x) implies h2.count(x) <= h0.count(x) by {
        assert(h1.count(x) <= h0.count(x));
    }
}

pub proof fn lemma_dead_refs_add(
    vm: &ObjectTable,
    recursive: bool,
    log1: Seq<usize>,
    log2: Seq<usize>,
    x: usize,
)
    ensures
        dead_refs(vm, recursive, log1 + log2, x) == dead_refs(vm, recursive, log1, x) + dead_refs(
            vm,
            recursive,
            log2,
            x,
        ),
{
    vm.lemma_field_refs_add(log1, log2, x);
}

/// Processing some decrements and then some more is processing them all.
proof fn lemma_settle_add(
    vm: &ObjectTable,
    args: Args,
    prioritized: bool,
    p0: ProcessDecs,
    p1: ProcessDecs,
    p2: ProcessDecs,
    h0: RcHeap,
    h1: RcHeap,
    h2: RcHeap,
    out0: Seq<DecBatch>,
    out1: Seq<DecBatch>,
    out2: Seq<DecBatch>,
    list1: Seq<usize>,
    list2: Seq<usize>,
    log1: Seq<usize>,
    log2: Seq<usize>,
)
    requires
        settle(vm, args, prioritized, p0, p1, h0, h1, out0, out1, list1, log1),
        settle(vm, args, prioritized, p1, p2, h1, h2, out1, out2, list2, log2),
        h0.rc.wf(vm.objects@.len()),
    ensures
        settle(vm, args, prioritized, p0, p2, h0, h2, out0, out2, list1 + list2, log1 + log2),
{
    lemma_burial_add(vm, args, h0, h1, h2, log1, log2);
    lemma_reached_zero_add(vm, h0, h1, h2, log1, log2);
    assert(p2.died@ =~= p0.died@ + (log1 + log2));
    assert forall|x: usize| #[trigger] vm.has(x) implies accounted(
        vm,
        args,
        h0,
        h2,
        due(p0.new_decs@, out0, x) as int,
        due(p2.new_decs@, out2, x) as int,
        list1 + list2,
        log1 + log2,
        x,
    ) by {
        lemma_occurrences_add(list1, list2, x);
        lemma_dead_refs_add(vm, !args.no_recursive_dec, log1, log2, x);
        assert(h1.count(x) <= h0.count(x));
    }
    assert forall|x: usize| #[trigger] vm.has(x) implies h2.count(x) == dropped(
        h0.rc.max_ref_count as int,
        h0.count(x) as int,
        occurrences(list1 + list2, x) as int,
    ) by {
        lemma_occurrences_add(list1, list2, x);
        assert(h0.count(x) <= h0.rc.max_ref_count);
    }
    assert forall|i: int| out0.len() <= i < out2.len() implies {
        &&& (#[trigger] out2[i]).decs@.len() == full_batch(args)
        &&& out2[i].prioritized == prioritized
        &&& out2[i].counter.decs
        &&& out2[i].stage == WorkBucketStage::Unconstrained
        &&& all_objects(vm, out2[i].decs@)
    } by {
        if i < out1.len() {
            assert(out2[i] == out1[i]);
        }
    }
}

impl ProcessDecs {
    /// The buffer of new decrements is below its capacity and names objects.
    pub open spec fn wf(&self, vm: &ObjectTable, args: Args) -> bool {
        &&& self.new_decs@.len() < args.buffer_size || self.new_decs@.len() == 0
        &&& all_objects(vm, self.new_decs@)
    }

    /// Hand the new decrements over as a batch, if there are any.
    fn flush(&mut self, prioritized: bool, out: &mut Vec<DecBatch>)
        ensures
            *final(self) == (ProcessDecs { new_decs: final(self).new_decs, ..*old(self) }),
            final(self).new_decs@.len() == 0,
            old(self).new_decs@.len() == 0 ==> final(out)@ == old(out)@,
            old(self).new_decs@.len() > 0 ==> final(out)@.len() == old(out)@.len() + 1
                && final(out)@.last().decs@ == old(self).new_decs@ && final(out)@.last().prioritized
                == prioritized && final(out)@.last().stage == WorkBucketStage::Unconstrained && final(out)@.last().counter.decs && final(out)@.drop_last() == old(out)@,
            forall|x: usize| #[trigger]
                due(final(self).new_decs@, final(out)@, x) == due(
                    old(self).new_decs@,
                    old(out)@,
                    x,
                ),
    {
        if self.new_decs.len() != 0 {
            let mut decs: Vec<ObjectReference> = Vec::new();
            std::mem::swap(&mut decs, &mut self.new_decs);
            let counter = self.counter.clone_with_decs();
            out.push(DecBatch { decs, counter, stage: WorkBucketStage::Unconstrained, prioritized });
            assert(out@.drop_last() =~= old(out)@);
        }
    }

    /// Enter a decrement of `o`.
    fn recursive_dec(
        &mut self,
        o: ObjectReference,
        vm: &ObjectTable,
        args: Args,
        prioritized: bool,
        out: &mut Vec<DecBatch>,
    )
        requires
            old(self).wf(vm, args),
            vm.has(o),
        ensures
            final(self).wf(vm, args),
            *final(self) == (ProcessDecs { new_decs: final(self).new_decs, ..*old(self) }),
            forall|x: usize| #[trigger]
                due(final(self).new_decs@, final(out)@, x) == due(
                    old(self).new_decs@,
                    old(out)@,
                    x,
                ) + (if x == o {
                    1nat
                } else {
                    0nat
                }),
            dec_starts_with(final(out)@, old(out)@),
            dec_batches_from(vm, args, prioritized, final(out)@, old(out)@.len() as int),
            ({
                let all = old(self).new_decs@.push(o);
                if all.len() >= args.buffer_size {
                    &&& final(self).new_decs@.len() == 0
                    &&& final(out)@.len() == old(out)@.len() + 1
                    &&& final(out)@.drop_last() == old(out)@
                    &&& final(out)@.last().decs@ == all
                } else {
                    &&& final(self).new_decs@ == all
                    &&& final(out)@ == old(out)@
                }
            }),
    {
        self.new_decs.push(o);
        proof {
            assert forall|x: usize| #[trigger] due(self.new_decs@, out@, x) == due(
                old(self).new_decs@,
                out@,
                x,
            ) + (if x == o {
                1nat
            } else {
                0nat
            }) by {
                lemma_occurrences_push(old(self).new_decs@, o, x);
            }
        }
        let ghost mid = *self;
        if self.new_decs.len() >= args.buffer_size {
            self.flush(prioritized, out);
            assert forall|x: usize| #[trigger] due(self.new_decs@, out@, x) == due(
                old(self).new_decs@,
                old(out)@,
                x,
            ) + (if x == o {
                1nat
            } else {
                0nat
            }) by {
                assert(due(mid.new_decs@, old(out)@, x) == due(old(self).new_decs@, old(out)@, x)
                    + (if x == o {
                    1nat
                } else {
                    0nat
                }));
            }
        }
    }

    /// Note that `o` is dead: enter a decrement for each of its fields, clear its straddle lines,
    /// and leave its block to be swept.
    fn process_dead_object(
        &mut self,
        o: ObjectReference,
        vm: &ObjectTable,
        args: Args,
        prioritized: bool,
        heap: &mut RcHeap,
        out: &mut Vec<DecBatch>,
    )
        requires
            old(heap).wf(vm),
            old(self).wf(vm, args),
            vm.has(o),
        ensures
            final(heap).wf(vm),
            final(self).wf(vm, args),
            *final(self) == (ProcessDecs { new_decs: final(self).new_decs, ..*old(self) }),
            final(heap).rc.counts == old(heap).rc.counts,
            burial(vm, args, *old(heap), *final(heap), seq![o]),
            forall|x: usize| #[trigger]
                vm.has(x) ==> due(final(self).new_decs@, final(out)@, x) == due(
                    old(self).new_decs@,
                    old(out)@,
                    x,
                ) + (if 0 < old(heap).count(x) < old(heap).rc.max_ref_count {
                    dead_refs(vm, !args.no_recursive_dec, seq![o], x)
                } else {
                    0
                }),
            dec_starts_with(final(out)@, old(out)@),
            dec_batches_from(vm, args, prioritized, final(out)@, old(out)@.len() as int),
    {
        let ghost slots = vm.slots_of(o);
        proof {
            assert forall|x: usize| vm.field_refs(seq![o], x) == #[trigger] vm.refs(slots, x) by {
                assert(seq![o].drop_last() =~= Seq::<usize>::empty());
                assert(vm.field_refs(Seq::<usize>::empty(), x) == 0);
            }
            assert(slots.take(slots.len() as int) =~= slots);
            assert(slots.take(0) =~= Seq::<usize>::empty());
        }
        if !args.no_recursive_dec {
            let mut i: usize = 0;
            while i < vm.objects[o].slots.len()
                invariant
                    *heap == *old(heap),
                    heap.wf(vm),
                    self.wf(vm, args),
                    vm.has(o),
                    slots == vm.slots_of(o),
                    i <= slots.len(),
                    *self == (ProcessDecs { new_decs: self.new_decs, ..*old(self) }),
                    forall|x: usize| #[trigger]
                        vm.has(x) ==> due(self.new_decs@, out@, x) == due(
                            old(self).new_decs@,
                            old(out)@,
                            x,
                        ) + (if 0 < heap.count(x) < heap.rc.max_ref_count && vm.in_immix(x) {
                            vm.refs(slots.take(i as int), x)
                        } else {
                            0
                        }),
                    dec_starts_with(out@, old(out)@),
                    dec_batches_from(vm, args, prioritized, out@, old(out)@.len() as int),
                decreases slots.len() - i,
            {
                let slot = vm.objects[o].slots[i];
                assert(vm.has_slots(slots));
                assert(slot == slots[i as int]);
                let ghost due1 = |x: usize| due(self.new_decs@, out@, x);
                let ghost out1 = out@;
                proof {
                    assert forall|x: usize| #[trigger] vm.refs(slots.take(i as int + 1), x)
                        == vm.refs(slots.take(i as int), x) + (if vm.target(slot) == Some(x) {
                        1nat
                    } else {
                        0nat
                    }) by {
                        vm.lemma_refs_push(slots.take(i as int), slot, x);
                        assert(slots.take(i as int).push(slot) =~= slots.take(i as int + 1));
                    }
                }
                if let Some(x) = vm.words[slot] {
                    assert(vm.target(slot) == Some(x));
                    assert(vm.has(x));
                    let in_heap = matches!(vm.objects[x].place, Place::Immix(_));
                    if in_heap {
                        let rc = heap.rc.count(x);
                        if rc != heap.rc.max_ref_count && rc != 0 {
                            self.recursive_dec(x, vm, args, prioritized, out);
                        }
                    }
                }
                proof {
                    assert forall|x: usize| #[trigger] vm.has(x) implies due(
                        self.new_decs@,
                        out@,
                        x,
                    ) == due(old(self).new_decs@, old(out)@, x) + (if 0 < heap.count(x)
                        < heap.rc.max_ref_count && vm.in_immix(x) {
                        vm.refs(slots.take(i as int + 1), x)
                    } else {
                        0
                    }) by {
                        assert(due1(x) == due(old(self).new_decs@, old(out)@, x) + (if 0
                            < heap.count(x) < heap.rc.max_ref_count && vm.in_immix(x) {
                            vm.refs(slots.take(i as int), x)
                        } else {
                            0
                        }));
                        assert(heap.count(x) <= heap.rc.max_ref_count);
                    }
                    assert forall|k: int| old(out)@.len() <= k < out@.len() implies {
                        &&& (#[trigger] out@[k]).decs@.len() == full_batch(args)
                        &&& out@[k].prioritized == prioritized
                        &&& out@[k].counter.decs
                        &&& out@[k].stage == WorkBucketStage::Unconstrained
                        &&& all_objects(vm, out@[k].decs@)
                    } by {
                        if k < out1.len() {
                            assert(out@[k] == out1[k]);
                        }
                    }
                }
                i = i + 1;
            }
        }
        if let Place::Immix(b) = vm.objects[o].place {
            if !args.block_only {
                heap.rc.unmark_straddle_object(o);
            }
            heap.space.add_to_possibly_dead_mature_blocks(b, false);
        }
        proof {
            let q0 = old(heap).space.possibly_dead_mature_blocks@;
            let q1 = heap.space.possibly_dead_mature_blocks@;
            assert(vm.place_of(seq![o][0]) == vm.place_of(o));
            assert(heap.space.blocks@.len() == heap.space.blocks.len());
            assert forall|b: int| 0 <= b < heap.space.blocks@.len() implies incs::hits_block(
                vm,
                seq![o],
                b,
            ) == (vm.place_of(o) == Place::Immix(b as usize)) by {}
            assert forall|x: usize| seq![o].contains(x) == (x == o) by {
                assert(seq![o][0] == o);
            }
            if vm.place_of(o) is Immix {
                let b = vm.place_of(o)->Immix_0;
                if !old(heap).space.blocks@[b as int].logged {
                    assert(q1[q0.len() as int] == (b, false));
                }
            }
        }
    }

    /// Decrement each of `decs`.
    fn process_decs(
        &mut self,
        decs: &Vec<ObjectReference>,
        vm: &ObjectTable,
        args: Args,
        prioritized: bool,
        heap: &mut RcHeap,
        out: &mut Vec<DecBatch>,
    )
        requires
            old(heap).wf(vm),
            old(self).wf(vm, args),
            all_objects(vm, decs@),
        ensures
            final(heap).wf(vm),
            final(self).wf(vm, args),
            settle(
                vm,
                args,
                prioritized,
                *old(self),
                *final(self),
                *old(heap),
                *final(heap),
                old(out)@,
                final(out)@,
                decs@,
                final(self).died@.skip(old(self).died@.len() as int),
            ),
    {
        let ghost n0 = old(self).died@.len() as int;
        let ghost none = Seq::<usize>::empty();
        let mut i: usize = 0;
        proof {
            assert(decs@.take(0) =~= none);
            assert(self.died@.skip(n0) =~= none);
            lemma_settle_none(vm, args, prioritized, *self, *heap, out@);
        }
        while i < decs.len()
            invariant
                i <= decs@.len(),
                n0 == old(self).died@.len(),
                old(heap).wf(vm),
                heap.wf(vm),
                self.wf(vm, args),
                all_objects(vm, decs@),
                settle(
                    vm,
                    args,
                    prioritized,
                    *old(self),
                    *self,
                    *old(heap),
                    *heap,
                    old(out)@,
                    out@,
                    decs@.take(i as int),
                    self.died@.skip(n0),
                ),
            decreases decs@.len() - i,
        {
            let ghost p1 = *self;
            let ghost h1 = *heap;
            let ghost out1 = out@;
            let ghost mut log2 = Seq::<usize>::empty();
            let o = decs[i];
            assert(vm.has(decs@[i as int]));
            let c = heap.rc.count(o);
            proof {
                lemma_settle_none(vm, args, prioritized, p1, h1, out1);
                assert forall|x: usize| #[trigger] occurrences(seq![o], x) == (if x == o {
                    1nat
                } else {
                    0nat
                }) by {
                    lemma_occurrences_push(Seq::empty(), o, x);
                    assert(Seq::<usize>::empty().push(o) =~= seq![o]);
                    assert(occurrences(Seq::<usize>::empty(), x) == 0);
                }
            }
            if c == 0 || c == heap.rc.max_ref_count {
            } else if c == 1 {
                self.process_dead_object(o, vm, args, prioritized, heap, out);
                proof {
                    rc::lemma_zeros_update(
                        heap.rc.counts@,
                        vm.objects@.len() as int,
                        o as int,
                        0,
                    );
                    log2 = seq![o];
                    self.died@ = self.died@.push(o);
                    assert(self.died@ =~= p1.died@ + log2);
                    assert(seq![o][0] == o);
                }
                heap.rc.set(o, 0);
            } else {
                proof {
                    rc::lemma_zeros_update(
                        heap.rc.counts@,
                        vm.objects@.len() as int,
                        o as int,
                        (c - 1) as u8,
                    );
                    assert(p1.died@ =~= p1.died@ + log2);
                }
                let _ = heap.rc.dec(o);
            }
            proof {
                assert(burial(vm, args, h1, *heap, log2));
                assert(reached_zero(vm, h1, *heap, log2));
                assert forall|x: usize| #[trigger] vm.has(x) implies accounted(
                    vm,
                    args,
                    h1,
                    *heap,
                    due(p1.new_decs@, out1, x) as int,
                    due(self.new_decs@, out@, x) as int,
                    seq![o],
                    log2,
                    x,
                ) by {
                    assert(occurrences(seq![o], x) == (if x == o {
                        1nat
                    } else {
                        0nat
                    }));
                    assert(h1.count(x) <= h1.rc.max_ref_count);
                }
                assert forall|x: usize| #[trigger] vm.has(x) implies heap.count(x) == dropped(
                    h1.rc.max_ref_count as int,
                    h1.count(x) as int,
                    occurrences(seq![o], x) as int,
                ) by {
                    assert(occurrences(seq![o], x) == (if x == o {
                        1nat
                    } else {
                        0nat
                    }));
                }
                lemma_settle_add(
                    vm,
                    args,
                    prioritized,
                    *old(self),
                    p1,
                    *self,
                    *old(heap),
                    h1,
                    *heap,
                    old(out)@,
                    out1,
                    out@,
                    decs@.take(i as int),
                    seq![o],
                    p1.died@.skip(n0),
                    log2,
                );
                assert(decs@.take(i as int) + seq![o] =~= decs@.take(i as int + 1));
                assert(p1.died@.skip(n0) + log2 =~= self.died@.skip(n0));
            }
            i = i + 1;
        }
        assert(decs@.take(i as int) =~= decs@);
    }
}

impl ProcessDecs {
    /// The decrements that the packet will process.
    pub open spec fn input(&self) -> Seq<usize> {
        match self.decs {
            Some(decs) => decs@,
            None => match self.decs_arc {
                Some(decs) => decs@,
                None => Seq::empty(),
            },
        }
    }

    /// A packet that decrements each of `decs`.
    pub fn new(decs: Vec<ObjectReference>, counter: LazySweepingJobsCounter) -> (p: Self)
        ensures
            p.decs == Some(decs),
            p.decs_arc is None,
            p.new_decs@.len() == 0,
            p.counter == counter,
            p.died@.len() == 0,
    {
        ProcessDecs {
            decs: Some(decs),
            decs_arc: None,
            new_decs: Vec::new(),
            counter,
            died: Ghost(Seq::empty()),
        }
    }

    /// A packet that decrements each of `decs`, which it shares.
    pub fn new_arc(decs: Arc<Vec<ObjectReference>>, counter: LazySweepingJobsCounter) -> (p: Self)
        ensures
            p.decs is None,
            p.decs_arc == Some(decs),
            p.new_decs@.len() == 0,
            p.counter == counter,
            p.died@.len() == 0,
    {
        ProcessDecs {
            decs: None,
            decs_arc: Some(decs),
            new_decs: Vec::new(),
            counter,
            died: Ghost(Seq::empty()),
        }
    }

    /// Run the packet: process its decrements, and then, round by round, those of the fields of
    /// the objects that died. The batches handed over are appended to `out`; they are prioritized
    /// outside of a pause. With decrements switched off, nothing happens.
    pub fn do_work(
        &mut self,
        vm: &ObjectTable,
        args: Args,
        current_pause: Option<Pause>,
        heap: &mut RcHeap,
        out: &mut Vec<DecBatch>,
    )
        requires
            old(heap).wf(vm),
            all_objects(vm, old(self).input()),
            old(self).new_decs@.len() == 0,
        ensures
            args.no_decs ==> *final(self) == *old(self) && *final(heap) == *old(heap)
                && final(out)@ == old(out)@,
            !args.no_decs ==> {
                &&& final(heap).wf(vm)
                &&& final(self).decs is None
                &&& old(self).decs is None ==> final(self).decs_arc is None
                &&& old(self).decs is Some ==> final(self).decs_arc == old(self).decs_arc
                &&& final(self).new_decs@.len() == 0
                &&& final(self).counter == old(self).counter
                &&& old(self).died@ == final(self).died@.take(old(self).died@.len() as int)
                &&& decremented(
                    vm,
                    args,
                    current_pause is None,
                    *old(heap),
                    *final(heap),
                    old(out)@,
                    final(out)@,
                    old(self).input(),
                    final(self).died@.skip(old(self).died@.len() as int),
                )
            },
    {
        if args.no_decs {
            return;
        }
        let prioritized = current_pause.is_none();
        let ghost input = self.input();
        let ghost n0 = self.died@.len() as int;
        let ghost none = Seq::<usize>::empty();
        let ghost counter = self.counter;
        proof {
            assert(self.new_decs@ =~= none);
            assert(self.died@.skip(n0) =~= none);
            assert(self.died@.take(n0) =~= self.died@);
            lemma_settle_none(vm, args, prioritized, *self, *heap, out@);
            assert forall|x: usize| #[trigger] occurrences(none, x) == 0 by {}
        }
        let taken = self.decs.take();
        if let Some(decs) = taken {
            self.process_decs(&decs, vm, args, prioritized, heap, out);
        } else {
            let taken_arc = self.decs_arc.take();
            if let Some(decs) = taken_arc {
                self.process_decs(&decs, vm, args, prioritized, heap, out);
            }
        }
        let ghost arc = self.decs_arc;
        proof {
            let log = self.died@.skip(n0);
            assert(self.died@.take(n0) =~= old(self).died@);
            assert forall|i: int| 0 <= i < log.len() implies old(heap).count(#[trigger] log[i])
                <= occurrences(input, log[i]) + dead_refs(
                vm,
                !args.no_recursive_dec,
                log.take(i),
                log[i],
            ) by {
                assert(log.contains(log[i]));
            }
        }
        let mut decs: Vec<ObjectReference> = Vec::new();
        while self.new_decs.len() != 0
            invariant
                old(heap).wf(vm),
                heap.wf(vm),
                self.wf(vm, args),
                none == Seq::<usize>::empty(),
                self.decs is None,
                self.decs_arc == arc,
                self.counter == counter,
                n0 == old(self).died@.len(),
                n0 <= self.died@.len(),
                self.died@.take(n0) =~= old(self).died@,
                burial(vm, args, *old(heap), *heap, self.died@.skip(n0)),
                reached_zero(vm, *old(heap), *heap, self.died@.skip(n0)),
                caused(vm, args, *old(heap), input, self.died@.skip(n0)),
                forall|x: usize| #[trigger]
                    vm.has(x) ==> accounted(
                        vm,
                        args,
                        *old(heap),
                        *heap,
                        batch_occurrences(old(out)@, x) as int,
                        due(self.new_decs@, out@, x) as int,
                        input,
                        self.died@.skip(n0),
                        x,
                    ),
                forall|x: usize| #[trigger]
                    vm.has(x) ==> heap.count(x) <= dropped(
                        old(heap).rc.max_ref_count as int,
                        old(heap).count(x) as int,
                        occurrences(input, x) as int,
                    ),
                dec_starts_with(out@, old(out)@),
                dec_batches_from(vm, args, prioritized, out@, old(out)@.len() as int),
            decreases
                    vm.objects@.len() - rc::zeros(heap.rc.counts@, vm.objects@.len() as int),
                    self.new_decs@.len(),
        {
            let ghost log1 = self.died@.skip(n0);
            let ghost n1 = self.died@.len() as int;
            let ghost out1 = out@;
            let ghost h1 = *heap;
            let ghost waiting = self.new_decs@;
            decs.clear();
            std::mem::swap(&mut decs, &mut self.new_decs);
            assert(self.new_decs@ =~= none);
            let ghost p1 = *self;
            self.process_decs(&decs, vm, args, prioritized, heap, out);
            proof {
                let log2 = self.died@.skip(n1);
                assert(self.died@.skip(n0) =~= log1 + log2);
                assert(self.died@.take(n0) =~= p1.died@.take(n0));
                lemma_dec_round(
                    vm,
                    args,
                    prioritized,
                    p1,
                    *self,
                    *old(heap),
                    h1,
                    *heap,
                    old(out)@,
                    out1,
                    out@,
                    input,
                    waiting,
                    log1,
                    log2,
                );
                rc::lemma_zeros_bound(heap.rc.counts@, vm.objects@.len() as int);
            }
        }
        assert(self.new_decs@ =~= none);
        self.flush(prioritized, out);
        assert forall|x: usize| #[trigger] occurrences(none, x) == 0 by {}
    }
}

/// A round of decrements carries what the rounds before it did on.
proof fn lemma_dec_round(
    vm: &ObjectTable,
    args: Args,
    prioritized: bool,
    p1: ProcessDecs,
    p2: ProcessDecs,
    h0: RcHeap,
    h1: RcHeap,
    h2: RcHeap,
    out0: Seq<DecBatch>,
    out1: Seq<DecBatch>,
    out2: Seq<DecBatch>,
    decs: Seq<usize>,
    list: Seq<usize>,
    log1: Seq<usize>,
    log2: Seq<usize>,
)
    requires
        h0.rc.wf(vm.objects@.len()),
        burial(vm, args, h0, h1, log1),
        reached_zero(vm, h0, h1, log1),
        caused(vm, args, h0, decs, log1),
        forall|x: usize| #[trigger]
            vm.has(x) ==> accounted(
                vm,
                args,
                h0,
                h1,
                batch_occurrences(out0, x) as int,
                due(list, out1, x) as int,
                decs,
                log1,
                x,
            ),
        dec_starts_with(out1, out0),
        dec_batches_from(vm, args, prioritized, out1, out0.len() as int),
        p1.new_decs@.len() == 0,
        settle(vm, args, prioritized, p1, p2, h1, h2, out1, out2, list, log2),
    ensures
        burial(vm, args, h0, h2, log1 + log2),
        reached_zero(vm, h0, h2, log1 + log2),
        caused(vm, args, h0, decs, log1 + log2),
        forall|x: usize| #[trigger]
            vm.has(x) ==> accounted(
                vm,
                args,
                h0,
                h2,
                batch_occurrences(out0, x) as int,
                due(p2.new_decs@, out2, x) as int,
                decs,
                log1 + log2,
                x,
            ),
        dec_starts_with(out2, out0),
        dec_batches_from(vm, args, prioritized, out2, out0.len() as int),
{
    let log = log1 + log2;
    let recursive = !args.no_recursive_dec;
    lemma_burial_add(vm, args, h0, h1, h2, log1, log2);
    lemma_reached_zero_add(vm, h0, h1, h2, log1, log2);
    assert forall|x: usize| #[trigger] vm.has(x) implies accounted(
        vm,
        args,
        h0,
        h2,
        batch_occurrences(out0, x) as int,
        due(p2.new_decs@, out2, x) as int,
        decs,
        log,
        x,
    ) by {
        lemma_dead_refs_add(vm, recursive, log1, log2, x);
        assert(h1.count(x) <= h0.count(x));
        assert(occurrences(p1.new_decs@, x) == 0);
        lemma_batch_occurrences_prefix(out0, out1, x);
    }
    assert forall|i: int| 0 <= i < log.len() implies h0.count(#[trigger] log[i]) <= occurrences(
        decs,
        log[i],
    ) + dead_refs(vm, recursive, log.take(i), log[i]) by {
        let x = log[i];
        if i < log1.len() {
            assert(log.take(i) =~= log1.take(i));
            assert(log1[i] == x);
        } else {
            let k = i - log1.len();
            assert(log2[k] == x);
            assert(log2.contains(x));
            assert(vm.has(x));
            assert(log.take(i) =~= log1 + log2.take(k));
            lemma_dead_refs_add(vm, recursive, log1, log2.take(k), x);
            lemma_batch_occurrences_prefix(out0, out1, x);
        }
    }
    assert forall|i: int| out0.len() <= i < out2.len() implies {
        &&& (#[trigger] out2[i]).decs@.len() == full_batch(args)
        &&& out2[i].prioritized == prioritized
        &&& out2[i].counter.decs
        &&& out2[i].stage == WorkBucketStage::Unconstrained
        &&& all_objects(vm, out2[i].decs@)
    } by {
        if i < out1.len() {
            assert(out2[i] == out1[i]);
        }
    }
}

/// More batches hold no fewer decrements.
pub proof fn lemma_batch_occurrences_prefix(a: Seq<DecBatch>, b: Seq<DecBatch>, x: usize)
    requires
        dec_starts_with(b, a),
    ensures
        batch_occurrences(a, x) <= batch_occurrences(b, x),
    decreases b.len(),
{
    if b.len() > a.len() {
        lemma_batch_occurrences_prefix(a, b.drop_last(), x);
    } else {
        assert(a =~= b);
    }
}

/// Processing no decrement changes nothing.
proof fn lemma_settle_none(
    vm: &ObjectTable,
    args: Args,
    prioritized: bool,
    p: ProcessDecs,
    h: RcHeap,
    out: Seq<DecBatch>,
)
    requires
        h.rc.wf(vm.objects@.len()),
    ensures
        settle(vm, args, prioritized, p, p, h, h, out, out, Seq::empty(), Seq::empty()),
{
    let none = Seq::<usize>::empty();
    assert(p.died@ =~= p.died@ + none);
    assert forall|b: int| !incs::hits_block(vm, none, b) by {}
    assert forall|x: usize| !none.contains(x) by {}
    assert forall|x: usize| #[trigger] vm.has(x) implies accounted(
        vm,
        args,
        h,
        h,
        due(p.new_decs@, out, x) as int,
        due(p.new_decs@, out, x) as int,
        none,
        none,
        x,
    ) by {
        assert(occurrences(none, x) == 0);
        assert(vm.field_refs(none, x) == 0);
    }
}

} // verus!
