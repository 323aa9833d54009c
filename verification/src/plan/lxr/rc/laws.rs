//! What holds of the packets together: a batch that was handed over completes the packet it came
//! from, in whatever order batches run, and the outcome does not depend on the order of the work.

use vstd::prelude::*;

use crate::args::Args;
use crate::plan::lxr::rc::decs;
use crate::plan::lxr::rc::decs::DecBatch;
use crate::plan::lxr::rc::incs;
use crate::plan::lxr::rc::incs::IncBatch;
use crate::plan::lxr::rc::{EDGE_KIND_MATURE, EDGE_KIND_NURSERY, EDGE_KIND_ROOT};
use crate::policy::immix::space::RcHeap;
use crate::scheduler::work_bucket::WorkBucketStage;
use crate::util::rc;
use crate::vm::{ObjectTable, Place};

verus! {

/// The sum of `f` over `s`.
pub open spec fn total(s: Seq<usize>, f: spec_fn(usize) -> nat) -> nat
    decreases s.len(),
{
    if s.len() == 0 {
        0
    } else {
        total(s.drop_last(), f) + f(s.last())
    }
}

/// Whether `a` and `b` hold the same entries, in whatever order.
pub open spec fn same_entries(a: Seq<usize>, b: Seq<usize>) -> bool {
    forall|w: usize| #[trigger] decs::occurrences(a, w) == decs::occurrences(b, w)
}

proof fn lemma_total_remove(s: Seq<usize>, k: int, f: spec_fn(usize) -> nat)
    requires
        0 <= k < s.len(),
    ensures
        total(s, f) == total(s.remove(k), f) + f(s[k]),
    decreases s.len(),
{
    if k == s.len() - 1 {
        assert(s.remove(k) =~= s.drop_last());
    } else {
        lemma_total_remove(s.drop_last(), k, f);
        assert(s.remove(k).drop_last() =~= s.drop_last().remove(k));
    }
}

proof fn lemma_occurrences_remove(s: Seq<usize>, k: int, x: usize)
    requires
        0 <= k < s.len(),
    ensures
        decs::occurrences(s, x) == decs::occurrences(s.remove(k), x) + (if s[k] == x {
            1nat
        } else {
            0nat
        }),
    decreases s.len(),
{
    if k == s.len() - 1 {
        assert(s.remove(k) =~= s.drop_last());
    } else {
        lemma_occurrences_remove(s.drop_last(), k, x);
        assert(s.remove(k).drop_last() =~= s.drop_last().remove(k));
    }
}

proof fn lemma_occurrences_contains(s: Seq<usize>, x: usize)
    ensures
        decs::occurrences(s, x) > 0 <==> s.contains(x),
        s.no_duplicates() ==> decs::occurrences(s, x) <= 1,
    decreases s.len(),
{
    if s.len() > 0 {
        lemma_occurrences_contains(s.drop_last(), x);
        if s.contains(x) && s.last() != x {
            let i = s.index_of(x);
            assert(s.drop_last()[i] == x);
        }
        if s.last() == x {
            assert(s[s.len() - 1] == x);
        }
        if s.drop_last().contains(x) {
            let i = s.drop_last().index_of(x);
            assert(s[i] == x);
        }
    }
}

/// The sum does not depend on the order, and more entries give no smaller a sum.
proof fn lemma_total_monotone(a: Seq<usize>, b: Seq<usize>, f: spec_fn(usize) -> nat)
    requires
        forall|w: usize| #[trigger] decs::occurrences(a, w) <= decs::occurrences(b, w),
    ensures
        total(a, f) <= total(b, f),
    decreases a.len(),
{
    if a.len() > 0 {
        let w = a.last();
        assert(decs::occurrences(a, w) > 0);
        lemma_occurrences_contains(b, w);
        let k = b.index_of(w);
        assert forall|y: usize| #[trigger] decs::occurrences(a.drop_last(), y) <= decs::occurrences(
            b.remove(k),
            y,
        ) by {
            lemma_occurrences_remove(b, k, y);
            assert(decs::occurrences(a, y) <= decs::occurrences(b, y));
        }
        lemma_total_monotone(a.drop_last(), b.remove(k), f);
        lemma_total_remove(b, k, f);
    }
}

proof fn lemma_total_same(a: Seq<usize>, b: Seq<usize>, f: spec_fn(usize) -> nat)
    requires
        same_entries(a, b),
    ensures
        total(a, f) == total(b, f),
{
    lemma_total_monotone(a, b, f);
    lemma_total_monotone(b, a, f);
}

proof fn lemma_refs_total(vm: &ObjectTable, slots: Seq<usize>, x: usize)
    ensures
        vm.refs(slots, x) == total(
            slots,
            |s: usize| {
                if vm.target(s) == Some(x) {
                    1nat
                } else {
                    0nat
                }
            },
        ),
    decreases slots.len(),
{
    if slots.len() > 0 {
        lemma_refs_total(vm, slots.drop_last(), x);
    }
}

proof fn lemma_field_refs_total(vm: &ObjectTable, log: Seq<usize>, x: usize)
    ensures
        vm.field_refs(log, x) == total(log, |o: usize| vm.refs(vm.slots_of(o), x)),
    decreases log.len(),
{
    if log.len() > 0 {
        lemma_field_refs_total(vm, log.drop_last(), x);
    }
}

proof fn lemma_refs_same(vm: &ObjectTable, a: Seq<usize>, b: Seq<usize>, x: usize)
    requires
        same_entries(a, b),
    ensures
        vm.refs(a, x) == vm.refs(b, x),
{
    lemma_refs_total(vm, a, x);
    lemma_refs_total(vm, b, x);
    lemma_total_same(
        a,
        b,
        |s: usize| {
            if vm.target(s) == Some(x) {
                1nat
            } else {
                0nat
            }
        },
    );
}

/// Objects without duplicates that are all among those of `b` have no more fields that refer to
/// `x` than those of `b`.
proof fn lemma_field_refs_subset(vm: &ObjectTable, a: Seq<usize>, b: Seq<usize>, x: usize)
    requires
        a.no_duplicates(),
        forall|o: usize| #[trigger] a.contains(o) ==> b.contains(o),
    ensures
        vm.field_refs(a, x) <= vm.field_refs(b, x),
{
    lemma_field_refs_total(vm, a, x);
    lemma_field_refs_total(vm, b, x);
    assert forall|w: usize| #[trigger] decs::occurrences(a, w) <= decs::occurrences(b, w) by {
        lemma_occurrences_contains(a, w);
        lemma_occurrences_contains(b, w);
    }
    lemma_total_monotone(a, b, |o: usize| vm.refs(vm.slots_of(o), x));
}

proof fn lemma_targeted_refs(vm: &ObjectTable, slots: Seq<usize>, x: usize)
    ensures
        incs::targeted(vm, slots, x) <==> vm.refs(slots, x) > 0,
    decreases slots.len(),
{
    if slots.len() > 0 {
        let rest = slots.drop_last();
        lemma_targeted_refs(vm, rest, x);
        if incs::targeted(vm, slots, x) && vm.target(slots.last()) != Some(x) {
            let i = choose|i: int|
                0 <= i < slots.len() && #[trigger] vm.target(slots[i]) == Some(x);
            assert(vm.target(rest[i]) == Some(x));
        }
        if incs::targeted(vm, rest, x) {
            let i = choose|i: int| 0 <= i < rest.len() && #[trigger] vm.target(rest[i]) == Some(x);
            assert(vm.target(slots[i]) == Some(x));
        }
        if vm.target(slots.last()) == Some(x) {
            assert(vm.target(slots[slots.len() - 1]) == Some(x));
        }
    }
}

proof fn lemma_batch_refs_remove(vm: &ObjectTable, out: Seq<IncBatch>, k: int, x: usize)
    requires
        0 <= k < out.len(),
    ensures
        incs::batch_refs(vm, out, x) == incs::batch_refs(vm, out.remove(k), x) + vm.refs(
            out[k].incs@,
            x,
        ),
    decreases out.len(),
{
    if k == out.len() - 1 {
        assert(out.remove(k) =~= out.drop_last());
    } else {
        lemma_batch_refs_remove(vm, out.drop_last(), k, x);
        assert(out.remove(k).drop_last() =~= out.drop_last().remove(k));
    }
}

/// Running a batch that a packet of increments handed over carries the packet on: the two runs
/// together do what one run of the packet does. This holds of every batch, so batches may run in
/// any order.
pub proof fn law_increment_batch_completes_its_packet(
    vm: &ObjectTable,
    kind: u8,
    capacity: usize,
    h0: RcHeap,
    h1: RcHeap,
    h2: RcHeap,
    out0: Seq<IncBatch>,
    out1: Seq<IncBatch>,
    out2: Seq<IncBatch>,
    slots: Seq<usize>,
    log1: Seq<usize>,
    log2: Seq<usize>,
    k: int,
)
    requires
        incs::incremented(vm, kind, capacity, h0, h1, out0, out1, slots, log1),
        out0.len() <= k < out1.len(),
        incs::incremented(
            vm,
            EDGE_KIND_NURSERY,
            capacity,
            h1,
            h2,
            out1.remove(k),
            out2,
            out1[k].incs@,
            log2,
        ),
    ensures
        incs::incremented(vm, kind, capacity, h0, h2, out0, out2, slots, log1 + log2),
{
    let none = Seq::<usize>::empty();
    let log = log1 + log2;
    let loaded = if kind == EDGE_KIND_MATURE {
        slots
    } else {
        none
    };
    incs::lemma_promotion_add(vm, h0, h1, h2, log1, log2, loaded, none);
    assert(loaded + none =~= loaded);
    incs::lemma_left_zero_add(vm, h0, h1, h2, log1, log2);
    assert(incs::come_from(vm, out1[k].incs@, none, log1));
    assert forall|w: usize| !none.contains(w) by {}
    assert forall|i: int| 0 <= i < log.len() implies incs::targeted(vm, slots, #[trigger] log[i])
        || exists|j: int|
        0 <= j < i && incs::targeted(vm, vm.slots_of(#[trigger] log[j]), log[i]) by {
        if i < log1.len() {
            assert(log1[i] == log[i]);
            if !incs::targeted(vm, slots, log[i]) {
                let j = choose|j: int|
                    0 <= j < i && incs::targeted(vm, vm.slots_of(#[trigger] log1[j]), log1[i]);
                assert(log[j] == log1[j]);
            }
        } else {
            let i2 = i - log1.len();
            assert(log2[i2] == log[i]);
            if incs::targeted(vm, out1[k].incs@, log2[i2]) {
                let n = choose|n: int|
                    0 <= n < out1[k].incs@.len() && #[trigger] vm.target(out1[k].incs@[n]) == Some(log2[i2]);
                let s = out1[k].incs@[n];
                assert(vm.is_field(log1, s));
                let j = choose|j: int|
                    0 <= j < log1.len() && #[trigger] vm.slots_of(log1[j]).contains(s);
                let m = vm.slots_of(log1[j]).index_of(s);
                assert(vm.target(vm.slots_of(log1[j])[m]) == Some(log2[i2]));
                assert(log[j] == log1[j]);
            } else {
                let j = choose|j: int|
                    0 <= j < i2 && incs::targeted(vm, vm.slots_of(#[trigger] log2[j]), log2[i2]);
                assert(log[j + log1.len()] == log2[j]);
            }
        }
    }
    assert forall|x: usize| #[trigger] vm.has(x) implies rc::saturated(
        h0.rc.max_ref_count as int,
        h2.count(x) + incs::batch_refs(vm, out2, x),
    ) == rc::saturated(
        h0.rc.max_ref_count as int,
        h0.count(x) + incs::batch_refs(vm, out0, x) + vm.refs(slots, x) + vm.field_refs(log, x),
    ) by {
        lemma_batch_refs_remove(vm, out1, k, x);
        vm.lemma_field_refs_add(log1, log2, x);
    }
    assert forall|x: usize| #[trigger] vm.has(x) implies incs::at_once(
        vm,
        h0,
        h2,
        incs::batch_refs(vm, out0, x) as int,
        incs::batch_refs(vm, out2, x) as int,
        slots,
        log,
        x,
    ) by {
        lemma_batch_refs_remove(vm, out1, k, x);
        assert forall|i: int| 0 <= i < out0.len() implies #[trigger] out1.remove(k)[i] == out0[i] by {
            assert(out1[i] == out0[i]);
        }
        incs::lemma_batch_refs_prefix(vm, out0, out1.remove(k), x);
        vm.lemma_field_refs_add(log1, log2, x);
        assert(h1.count(x) <= h2.count(x));
    }
    assert forall|i: int| 0 <= i < out0.len() implies #[trigger] out2[i] == out0[i] by {
        assert(out1.remove(k)[i] == out1[i]);
    }
    assert forall|i: int| out0.len() <= i < out2.len() implies {
        &&& (#[trigger] out2[i]).incs@.len() > 0
        &&& out2[i].incs@.len() >= capacity
        &&& out2[i].stage == WorkBucketStage::Unconstrained
        &&& incs::come_from(vm, out2[i].incs@, none, log)
    } by {
        if i < out1.len() - 1 {
            let j = if i < k {
                i
            } else {
                i + 1
            };
            assert(out2[i] == out1.remove(k)[i]);
            assert(out2[i] == out1[j]);
            assert(out1[j].incs@.len() > 0);
            assert(incs::come_from(vm, out1[j].incs@, none, log1));
            lemma_come_from_longer(vm, out2[i].incs@, log1, log2);
        } else {
            lemma_come_from_later(vm, out2[i].incs@, log1, log2);
        }
    }
}

proof fn lemma_come_from_longer(
    vm: &ObjectTable,
    slots: Seq<usize>,
    log1: Seq<usize>,
    log2: Seq<usize>,
)
    requires
        incs::come_from(vm, slots, Seq::empty(), log1),
    ensures
        incs::come_from(vm, slots, Seq::empty(), log1 + log2),
{
    assert forall|i: int| 0 <= i < slots.len() implies Seq::<usize>::empty().contains(
        #[trigger] slots[i],
    ) || vm.is_field(log1 + log2, slots[i]) by {
        incs::lemma_is_field_add(vm, log1, log2, slots[i]);
    }
}

proof fn lemma_come_from_later(
    vm: &ObjectTable,
    slots: Seq<usize>,
    log1: Seq<usize>,
    log2: Seq<usize>,
)
    requires
        incs::come_from(vm, slots, Seq::empty(), log2),
    ensures
        incs::come_from(vm, slots, Seq::empty(), log1 + log2),
{
    assert forall|i: int| 0 <= i < slots.len() implies Seq::<usize>::empty().contains(
        #[trigger] slots[i],
    ) || vm.is_field(log1 + log2, slots[i]) by {
        incs::lemma_is_field_add(vm, log1, log2, slots[i]);
    }
}

/// The batches of increments come to an end. A batch that is run without a promotion hands nothing
/// over, so that fewer batches wait; and with a promotion, fewer objects are left that can be promoted.
/// `out1` are the batches that wait, of which the one at `k` is run.
pub proof fn law_increment_batches_come_to_an_end(
    vm: &ObjectTable,
    capacity: usize,
    h1: RcHeap,
    h2: RcHeap,
    out1: Seq<IncBatch>,
    out2: Seq<IncBatch>,
    log: Seq<usize>,
    k: int,
)
    requires
        0 <= k < out1.len(),
        incs::incremented(
            vm,
            EDGE_KIND_NURSERY,
            capacity,
            h1,
            h2,
            out1.remove(k),
            out2,
            out1[k].incs@,
            log,
        ),
    ensures
        log.len() == 0 ==> out2 == out1.remove(k),
        ({
            let fresh1 = rc::zeros(h1.rc.counts@, vm.objects@.len() as int);
            let fresh2 = rc::zeros(h2.rc.counts@, vm.objects@.len() as int);
            fresh2 < fresh1 || fresh2 == fresh1 && out2.len() < out1.len()
        }),
{
    let left = out1.remove(k);
    if log.len() == 0 {
        if out2.len() > left.len() {
            let batch = out2[left.len() as int];
            assert(incs::come_from(vm, batch.incs@, Seq::empty(), log));
            assert(Seq::<usize>::empty().contains(batch.incs@[0]) || vm.is_field(
                log,
                batch.incs@[0],
            ));
        }
        assert(out2 =~= left);
    }
}

/// Once no batch is left, every count is exact: it has grown by one for each of the slots and for
/// each field of a promoted object that refers to the object, up to the sticky count.
pub proof fn law_increments_are_exact(
    vm: &ObjectTable,
    kind: u8,
    capacity: usize,
    h0: RcHeap,
    h1: RcHeap,
    slots: Seq<usize>,
    log: Seq<usize>,
    x: usize,
)
    requires
        h0.wf(vm),
        h1.wf(vm),
        incs::incremented(vm, kind, capacity, h0, h1, Seq::empty(), Seq::empty(), slots, log),
        vm.has(x),
    ensures
        h1.rc.counts@[x as int] == ({
            let grown = h0.rc.counts@[x as int] + vm.refs(slots, x) + vm.field_refs(log, x);
            if grown > h0.rc.max_ref_count {
                h0.rc.max_ref_count as int
            } else {
                grown
            }
        }),
        h1.count(x) == rc::saturated(
            h0.rc.max_ref_count as int,
            h0.count(x) + vm.refs(slots, x) + vm.field_refs(log, x),
        ),
{
    assert(incs::batch_refs(vm, Seq::empty(), x) == 0);
    assert(h1.count(x) <= h1.rc.max_ref_count);
}

/// An object that one complete run promotes, any other complete run on the same slots promotes.
proof fn lemma_same_promotions(
    vm: &ObjectTable,
    kind: u8,
    capacity: usize,
    h0: RcHeap,
    ha: RcHeap,
    hb: RcHeap,
    a: Seq<usize>,
    b: Seq<usize>,
    log_a: Seq<usize>,
    log_b: Seq<usize>,
    n: int,
)
    requires
        h0.wf(vm),
        ha.wf(vm),
        hb.wf(vm),
        same_entries(a, b),
        incs::incremented(vm, kind, capacity, h0, ha, Seq::empty(), Seq::empty(), a, log_a),
        incs::incremented(vm, kind, capacity, h0, hb, Seq::empty(), Seq::empty(), b, log_b),
        0 <= n <= log_a.len(),
    ensures
        forall|i: int| 0 <= i < n ==> log_b.contains(#[trigger] log_a[i]),
    decreases n,
{
    if n > 0 {
        lemma_same_promotions(vm, kind, capacity, h0, ha, hb, a, b, log_a, log_b, n - 1);
        let x = log_a[n - 1];
        assert(log_a.contains(x));
        assert(vm.has(x) && h0.count(x) == 0);
        law_increments_are_exact(vm, kind, capacity, h0, hb, b, log_b, x);
        lemma_refs_same(vm, a, b, x);
        if incs::targeted(vm, a, x) {
            lemma_targeted_refs(vm, a, x);
        } else {
            let j = choose|j: int|
                0 <= j < n - 1 && incs::targeted(vm, vm.slots_of(#[trigger] log_a[j]), log_a[n - 1]);
            let o = log_a[j];
            assert(log_b.contains(o));
            lemma_targeted_refs(vm, vm.slots_of(o), x);
            let one = seq![o];
            assert forall|y: usize| #[trigger] one.contains(y) implies log_b.contains(y) by {}
            lemma_field_refs_subset(vm, one, log_b, x);
            assert(one.drop_last() =~= Seq::<usize>::empty());
            assert(vm.field_refs(Seq::<usize>::empty(), x) == 0);
            assert(vm.field_refs(one, x) == vm.refs(vm.slots_of(o), x));
        }
        assert(hb.count(x) > 0);
        assert(log_b.contains(x));
    }
}

/// The outcome of complete runs on the same slots does not depend on the order in which the work
/// was done: the same objects are promoted, and the heaps agree.
pub proof fn law_increments_do_not_depend_on_order(
    vm: &ObjectTable,
    kind: u8,
    capacity: usize,
    h0: RcHeap,
    ha: RcHeap,
    hb: RcHeap,
    a: Seq<usize>,
    b: Seq<usize>,
    log_a: Seq<usize>,
    log_b: Seq<usize>,
)
    requires
        h0.wf(vm),
        ha.wf(vm),
        hb.wf(vm),
        same_entries(a, b),
        incs::incremented(vm, kind, capacity, h0, ha, Seq::empty(), Seq::empty(), a, log_a),
        incs::incremented(vm, kind, capacity, h0, hb, Seq::empty(), Seq::empty(), b, log_b),
    ensures
        forall|o: usize| #[trigger] log_a.contains(o) <==> log_b.contains(o),
        ha.rc.counts@ == hb.rc.counts@,
        ha.rc.straddle@ == hb.rc.straddle@,
        ha.space.blocks@ == hb.space.blocks@,
        ha.space.unlogged@ == hb.space.unlogged@,
        ha.block_allocation == hb.block_allocation,
{
    lemma_same_promotions(vm, kind, capacity, h0, ha, hb, a, b, log_a, log_b, log_a.len() as int);
    lemma_same_promotions(vm, kind, capacity, h0, hb, ha, b, a, log_b, log_a, log_b.len() as int);
    assert forall|o: usize| #[trigger] log_a.contains(o) <==> log_b.contains(o) by {}
    assert forall|i: int| 0 <= i < ha.rc.counts@.len() implies ha.rc.counts@[i]
        == hb.rc.counts@[i] by {
        assert(ha.rc.counts@.len() == ha.rc.counts.len());
        let x = i as usize;
        assert(vm.has(x));
        law_increments_are_exact(vm, kind, capacity, h0, ha, a, log_a, x);
        law_increments_are_exact(vm, kind, capacity, h0, hb, b, log_b, x);
        lemma_refs_same(vm, a, b, x);
        lemma_field_refs_subset(vm, log_a, log_b, x);
        lemma_field_refs_subset(vm, log_b, log_a, x);
        assert(ha.count(x) == hb.count(x));
    }
    assert(ha.rc.counts@ =~= hb.rc.counts@);
    assert forall|i: int| 0 <= i < ha.rc.straddle@.len() implies ha.rc.straddle@[i]
        == hb.rc.straddle@[i] by {
        assert(ha.rc.straddle@.len() == ha.rc.straddle.len());
        let o = i as usize;
        assert(ha.rc.straddle@[o as int] == hb.rc.straddle@[o as int]);
    }
    assert(ha.rc.straddle@ =~= hb.rc.straddle@);
    assert forall|n: int| 0 <= n < ha.space.blocks@.len() implies #[trigger] ha.space.blocks@[n]
        == hb.space.blocks@[n] by {
        lemma_hits_block_subset(vm, log_a, log_b, n);
        lemma_hits_block_subset(vm, log_b, log_a, n);
    }
    assert(ha.space.blocks@ =~= hb.space.blocks@);
    let loaded_a = if kind == EDGE_KIND_MATURE {
        a
    } else {
        Seq::empty()
    };
    let loaded_b = if kind == EDGE_KIND_MATURE {
        b
    } else {
        Seq::empty()
    };
    assert forall|i: int| 0 <= i < ha.space.unlogged@.len() implies ha.space.unlogged@[i]
        == hb.space.unlogged@[i] by {
        assert(ha.space.unlogged@.len() == ha.space.unlogged.len());
        let w = i as usize;
        lemma_is_field_subset(vm, log_a, log_b, w);
        lemma_is_field_subset(vm, log_b, log_a, w);
        lemma_is_large_start_subset(vm, log_a, log_b, w);
        lemma_is_large_start_subset(vm, log_b, log_a, w);
        lemma_occurrences_contains(a, w);
        lemma_occurrences_contains(b, w);
        assert(decs::occurrences(a, w) == decs::occurrences(b, w));
        assert(loaded_a.contains(w) == loaded_b.contains(w));
        assert(ha.space.unlogged@[w as int] == hb.space.unlogged@[w as int]);
    }
    assert(ha.space.unlogged@ =~= hb.space.unlogged@);
}

proof fn lemma_hits_block_subset(vm: &ObjectTable, a: Seq<usize>, c: Seq<usize>, b: int)
    requires
        forall|o: usize| #[trigger] a.contains(o) ==> c.contains(o),
    ensures
        incs::hits_block(vm, a, b) ==> incs::hits_block(vm, c, b),
{
    if incs::hits_block(vm, a, b) {
        let i = choose|i: int|
            0 <= i < a.len() && #[trigger] vm.place_of(a[i]) == Place::Immix(b as usize);
        assert(a.contains(a[i]));
        let j = c.index_of(a[i]);
        assert(vm.place_of(c[j]) == Place::Immix(b as usize));
    }
}

proof fn lemma_is_field_subset(vm: &ObjectTable, a: Seq<usize>, c: Seq<usize>, w: usize)
    requires
        forall|o: usize| #[trigger] a.contains(o) ==> c.contains(o),
    ensures
        vm.is_field(a, w) ==> vm.is_field(c, w),
{
    if vm.is_field(a, w) {
        let i = choose|i: int| 0 <= i < a.len() && #[trigger] vm.slots_of(a[i]).contains(w);
        assert(a.contains(a[i]));
        let j = c.index_of(a[i]);
        assert(vm.slots_of(c[j]).contains(w));
    }
}

proof fn lemma_is_large_start_subset(vm: &ObjectTable, a: Seq<usize>, c: Seq<usize>, w: usize)
    requires
        forall|o: usize| #[trigger] a.contains(o) ==> c.contains(o),
    ensures
        incs::is_large_start(vm, a, w) ==> incs::is_large_start(vm, c, w),
{
    if incs::is_large_start(vm, a, w) {
        let i = choose|i: int|
            0 <= i < a.len() && #[trigger] vm.place_of(a[i]) == Place::Large
                && vm.objects@[a[i] as int].start == w;
        assert(a.contains(a[i]));
        let j = c.index_of(a[i]);
        assert(vm.place_of(c[j]) == Place::Large);
    }
}

proof fn lemma_batch_occurrences_remove(out: Seq<DecBatch>, k: int, x: usize)
    requires
        0 <= k < out.len(),
    ensures
        decs::batch_occurrences(out, x) == decs::batch_occurrences(out.remove(k), x)
            + decs::occurrences(out[k].decs@, x),
    decreases out.len(),
{
    if k == out.len() - 1 {
        assert(out.remove(k) =~= out.drop_last());
    } else {
        lemma_batch_occurrences_remove(out.drop_last(), k, x);
        assert(out.remove(k).drop_last() =~= out.drop_last().remove(k));
    }
}

/// Running a batch that a packet of decrements handed over carries the packet on: the two runs
/// together do what one run of the packet does. This holds of every batch, so batches may run in
/// any order.
pub proof fn law_decrement_batch_completes_its_packet(
    vm: &ObjectTable,
    args: Args,
    prioritized: bool,
    h0: RcHeap,
    h1: RcHeap,
    h2: RcHeap,
    out0: Seq<DecBatch>,
    out1: Seq<DecBatch>,
    out2: Seq<DecBatch>,
    objects: Seq<usize>,
    log1: Seq<usize>,
    log2: Seq<usize>,
    k: int,
)
    requires
        h0.wf(vm),
        decs::decremented(vm, args, prioritized, h0, h1, out0, out1, objects, log1),
        out0.len() <= k < out1.len(),
        decs::decremented(
            vm,
            args,
            prioritized,
            h1,
            h2,
            out1.remove(k),
            out2,
            out1[k].decs@,
            log2,
        ),
    ensures
        decs::decremented(vm, args, prioritized, h0, h2, out0, out2, objects, log1 + log2),
{
    let log = log1 + log2;
    let recursive = !args.no_recursive_dec;
    decs::lemma_burial_add(vm, args, h0, h1, h2, log1, log2);
    decs::lemma_reached_zero_add(vm, h0, h1, h2, log1, log2);
    assert forall|i: int| 0 <= i < out0.len() implies #[trigger] out1.remove(k)[i] == out0[i] by {
        assert(out1[i] == out0[i]);
    }
    assert(decs::dec_starts_with(out1.remove(k), out0));
    assert forall|x: usize| #[trigger] vm.has(x) implies decs::accounted(
        vm,
        args,
        h0,
        h2,
        decs::batch_occurrences(out0, x) as int,
        decs::batch_occurrences(out2, x) as int,
        objects,
        log,
        x,
    ) by {
        lemma_batch_occurrences_remove(out1, k, x);
        decs::lemma_batch_occurrences_prefix(out0, out1.remove(k), x);
        decs::lemma_dead_refs_add(vm, recursive, log1, log2, x);
        assert(h1.count(x) <= h0.count(x));
        assert(h0.count(x) <= h0.rc.max_ref_count);
    }
    assert forall|i: int| 0 <= i < log.len() implies h0.count(#[trigger] log[i])
        <= decs::occurrences(objects, log[i]) + decs::dead_refs(
        vm,
        recursive,
        log.take(i),
        log[i],
    ) by {
        let x = log[i];
        if i < log1.len() {
            assert(log.take(i) =~= log1.take(i));
            assert(log1[i] == x);
        } else {
            let j = i - log1.len();
            assert(log2[j] == x);
            assert(log2.contains(x));
            assert(vm.has(x));
            assert(log.take(i) =~= log1 + log2.take(j));
            decs::lemma_dead_refs_add(vm, recursive, log1, log2.take(j), x);
            decs::lemma_batch_occurrences_prefix(out0, out1.remove(k), x);
            lemma_batch_occurrences_remove(out1, k, x);
        }
    }
    assert forall|i: int| 0 <= i < out0.len() implies #[trigger] out2[i] == out0[i] by {
        assert(out1.remove(k)[i] == out0[i]);
    }
    assert forall|i: int| out0.len() <= i < out2.len() implies {
        &&& (#[trigger] out2[i]).decs@.len() == decs::full_batch(args)
        &&& out2[i].prioritized == prioritized
        &&& out2[i].counter.decs
        &&& out2[i].stage == WorkBucketStage::Unconstrained
        &&& decs::all_objects(vm, out2[i].decs@)
    } by {
        if i < out1.len() - 1 {
            let j = if i < k {
                i
            } else {
                i + 1
            };
            assert(out2[i] == out1.remove(k)[i]);
            assert(out2[i] == out1[j]);
        }
    }
}

/// The batches of decrements come to an end, whatever cycles the objects form. A batch that is run
/// without a death hands nothing over, so that fewer batches wait; and with a death, fewer objects are
/// left that can die. `out1` are the batches that wait, of which the one at `k` is run.
pub proof fn law_decrement_batches_come_to_an_end(
    vm: &ObjectTable,
    args: Args,
    prioritized: bool,
    h1: RcHeap,
    h2: RcHeap,
    out1: Seq<DecBatch>,
    out2: Seq<DecBatch>,
    log: Seq<usize>,
    k: int,
)
    requires
        0 <= k < out1.len(),
        decs::decremented(
            vm,
            args,
            prioritized,
            h1,
            h2,
            out1.remove(k),
            out2,
            out1[k].decs@,
            log,
        ),
    ensures
        log.len() == 0 ==> out2 == out1.remove(k),
        ({
            let live1 = vm.objects@.len() - rc::zeros(h1.rc.counts@, vm.objects@.len() as int);
            let live2 = vm.objects@.len() - rc::zeros(h2.rc.counts@, vm.objects@.len() as int);
            0 <= live2 < live1 || live2 == live1 && out2.len() < out1.len()
        }),
{
    let left = out1.remove(k);
    rc::lemma_zeros_bound(h2.rc.counts@, vm.objects@.len() as int);
    if log.len() == 0 {
        if out2.len() > left.len() {
            let next = out2.take(left.len() as int + 1);
            let batch = out2[left.len() as int].decs@;
            let x = batch[0];
            assert(next.drop_last() =~= left);
            assert(next.last().decs@ == batch);
            assert(vm.has(x));
            decs::lemma_batch_occurrences_prefix(next, out2, x);
            lemma_occurs(batch, 0);
            assert(vm.field_refs(log, x) == 0);
        }
        assert(out2 =~= left);
    }
}

/// What a list holds occurs in it.
proof fn lemma_occurs(s: Seq<usize>, i: int)
    requires
        0 <= i < s.len(),
    ensures
        decs::occurrences(s, s[i]) > 0,
    decreases s.len(),
{
    if i < s.len() - 1 {
        lemma_occurs(s.drop_last(), i);
    }
}

/// Once no batch is left, every count is exact: one that sticks stays, and any other has dropped
/// by one for each decrement of the object and for each field of a dead object that refers to it
/// (if it lies in the Immix space), down to zero.
pub proof fn law_decrements_are_exact(
    vm: &ObjectTable,
    args: Args,
    prioritized: bool,
    h0: RcHeap,
    h1: RcHeap,
    objects: Seq<usize>,
    log: Seq<usize>,
    x: usize,
)
    requires
        h0.wf(vm),
        decs::decremented(vm, args, prioritized, h0, h1, Seq::empty(), Seq::empty(), objects, log),
        vm.has(x),
    ensures
        h0.rc.counts@[x as int] == h0.rc.max_ref_count ==> h1.rc.counts@[x as int]
            == h0.rc.max_ref_count,
        h0.rc.counts@[x as int] < h0.rc.max_ref_count && vm.objects@[x as int].place is Immix
            && !args.no_recursive_dec ==> h1.rc.counts@[x as int] == ({
            let left = h0.rc.counts@[x as int] - decs::occurrences(objects, x) - vm.field_refs(
                log,
                x,
            );
            if left < 0 {
                0
            } else {
                left
            }
        }),
        h0.rc.counts@[x as int] < h0.rc.max_ref_count && (!(vm.objects@[x as int].place is Immix)
            || args.no_recursive_dec) ==> h1.rc.counts@[x as int] == ({
            let left = h0.rc.counts@[x as int] - decs::occurrences(objects, x);
            if left < 0 {
                0
            } else {
                left
            }
        }),
        h1.count(x) == (if h0.count(x) == h0.rc.max_ref_count {
            h0.rc.max_ref_count as int
        } else {
            decs::floored(
                h0.count(x) - decs::occurrences(objects, x) - decs::dead_refs(
                    vm,
                    !args.no_recursive_dec,
                    log,
                    x,
                ),
            )
        }),
{
    assert(decs::batch_occurrences(Seq::empty(), x) == 0);
    assert(h0.count(x) <= h0.rc.max_ref_count);
}

#[verifier::spinoff_prover]
#[verifier::rlimit(40)]
proof fn lemma_same_deaths(
    vm: &ObjectTable,
    args: Args,
    prioritized: bool,
    h0: RcHeap,
    ha: RcHeap,
    hb: RcHeap,
    a: Seq<usize>,
    b: Seq<usize>,
    log_a: Seq<usize>,
    log_b: Seq<usize>,
    n: int,
)
    requires
        h0.wf(vm),
        same_entries(a, b),
        decs::decremented(vm, args, prioritized, h0, ha, Seq::empty(), Seq::empty(), a, log_a),
        decs::decremented(vm, args, prioritized, h0, hb, Seq::empty(), Seq::empty(), b, log_b),
        0 <= n <= log_a.len(),
    ensures
        forall|i: int| 0 <= i < n ==> log_b.contains(#[trigger] log_a[i]),
    decreases n,
{
    if n > 0 {
        lemma_same_deaths(vm, args, prioritized, h0, ha, hb, a, b, log_a, log_b, n - 1);
        let x = log_a[n - 1];
        let before = log_a.take(n - 1);
        assert(log_a.contains(x));
        assert(vm.has(x) && h0.count(x) > 0);
        law_decrements_are_exact(vm, args, prioritized, h0, ha, a, log_a, x);
        law_decrements_are_exact(vm, args, prioritized, h0, hb, b, log_b, x);
        assert(decs::occurrences(a, x) == decs::occurrences(b, x));
        assert forall|y: usize| #[trigger] before.contains(y) implies log_b.contains(y) by {
            let i = before.index_of(y);
            assert(log_a[i] == y);
        }
        lemma_field_refs_subset(vm, before, log_b, x);
        assert(hb.count(x) == 0);
        assert(log_b.contains(x));
    }
}

/// The outcome of complete runs on the same decrements does not depend on the order in which the
/// work was done: the same objects die, the heaps agree, and the same blocks are left to be swept.
pub proof fn law_decrements_do_not_depend_on_order(
    vm: &ObjectTable,
    args: Args,
    prioritized: bool,
    h0: RcHeap,
    ha: RcHeap,
    hb: RcHeap,
    a: Seq<usize>,
    b: Seq<usize>,
    log_a: Seq<usize>,
    log_b: Seq<usize>,
)
    requires
        h0.wf(vm),
        ha.wf(vm),
        hb.wf(vm),
        same_entries(a, b),
        decs::decremented(vm, args, prioritized, h0, ha, Seq::empty(), Seq::empty(), a, log_a),
        decs::decremented(vm, args, prioritized, h0, hb, Seq::empty(), Seq::empty(), b, log_b),
    ensures
        forall|o: usize| #[trigger] log_a.contains(o) <==> log_b.contains(o),
        ha.rc.counts@ == hb.rc.counts@,
        ha.rc.straddle@ == hb.rc.straddle@,
        ha.space.blocks@ == hb.space.blocks@,
{
    lemma_same_deaths(vm, args, prioritized, h0, ha, hb, a, b, log_a, log_b, log_a.len() as int);
    lemma_same_deaths(vm, args, prioritized, h0, hb, ha, b, a, log_b, log_a, log_b.len() as int);
    assert forall|o: usize| #[trigger] log_a.contains(o) <==> log_b.contains(o) by {}
    assert forall|i: int| 0 <= i < ha.rc.counts@.len() implies ha.rc.counts@[i]
        == hb.rc.counts@[i] by {
        assert(ha.rc.counts@.len() == ha.rc.counts.len());
        let x = i as usize;
        assert(vm.has(x));
        law_decrements_are_exact(vm, args, prioritized, h0, ha, a, log_a, x);
        law_decrements_are_exact(vm, args, prioritized, h0, hb, b, log_b, x);
        assert(decs::occurrences(a, x) == decs::occurrences(b, x));
        lemma_field_refs_subset(vm, log_a, log_b, x);
        lemma_field_refs_subset(vm, log_b, log_a, x);
        assert(ha.count(x) == hb.count(x));
    }
    assert(ha.rc.counts@ =~= hb.rc.counts@);
    assert forall|i: int| 0 <= i < ha.rc.straddle@.len() implies ha.rc.straddle@[i]
        == hb.rc.straddle@[i] by {
        assert(ha.rc.straddle@.len() == ha.rc.straddle.len());
        let o = i as usize;
        assert(ha.rc.straddle@[o as int] == hb.rc.straddle@[o as int]);
    }
    assert(ha.rc.straddle@ =~= hb.rc.straddle@);
    assert forall|n: int| 0 <= n < ha.space.blocks@.len() implies #[trigger] ha.space.blocks@[n]
        == hb.space.blocks@[n] by {
        lemma_hits_block_subset(vm, log_a, log_b, n);
        lemma_hits_block_subset(vm, log_b, log_a, n);
    }
    assert(ha.space.blocks@ =~= hb.space.blocks@);
}

/// Counting the roots of a pause and taking the counts back later leaves every count as it was,
/// where the roots refer to live objects and no count comes to stick: nothing is promoted by the
/// increments, and nothing dies of the decrements.
pub proof fn law_root_increments_are_undone_by_their_decrements(
    vm: &ObjectTable,
    args: Args,
    capacity: usize,
    prioritized: bool,
    h0: RcHeap,
    h1: RcHeap,
    h2: RcHeap,
    slots: Seq<usize>,
    objects: Seq<usize>,
    log1: Seq<usize>,
    log2: Seq<usize>,
)
    requires
        h0.wf(vm),
        h1.wf(vm),
        incs::incremented(
            vm,
            EDGE_KIND_ROOT,
            capacity,
            h0,
            h1,
            Seq::empty(),
            Seq::empty(),
            slots,
            log1,
        ),
        decs::decremented(vm, args, prioritized, h1, h2, Seq::empty(), Seq::empty(), objects, log2),
        forall|x: usize| #[trigger]
            vm.has(x) ==> decs::occurrences(objects, x) == vm.refs(slots, x),
        forall|x: usize| #[trigger]
            vm.has(x) && vm.refs(slots, x) > 0 ==> 0 < h0.count(x) && h0.count(x) + vm.refs(
                slots,
                x,
            ) < h0.rc.max_ref_count,
    ensures
        log1.len() == 0,
        log2.len() == 0,
        forall|x: usize| #[trigger] vm.has(x) ==> h2.count(x) == h0.count(x),
{
    if log1.len() > 0 {
        let x = log1[0];
        assert(log1.contains(x));
        assert(incs::targeted(vm, slots, log1[0]));
        lemma_targeted_refs(vm, slots, x);
        assert(vm.has(x));
    }
    assert forall|x: usize| #[trigger] vm.has(x) implies h1.count(x) == h0.count(x) + vm.refs(
        slots,
        x,
    ) by {
        law_increments_are_exact(vm, EDGE_KIND_ROOT, capacity, h0, h1, slots, log1, x);
        assert(h0.count(x) <= h0.rc.max_ref_count);
    }
    if log2.len() > 0 {
        let x = log2[0];
        assert(log2.contains(x));
        assert(vm.has(x));
        assert(log2.take(0) =~= Seq::<usize>::empty());
        assert(vm.field_refs(Seq::<usize>::empty(), x) == 0);
    }
    assert forall|x: usize| #[trigger] vm.has(x) implies h2.count(x) == h0.count(x) by {
        law_decrements_are_exact(vm, args, prioritized, h1, h2, objects, log2, x);
        assert(vm.field_refs(log2, x) == 0);
    }
}

/// Whether no block waits twice to be swept, and a block waits exactly if it is logged.
pub open spec fn sweep_queue_exact(h: RcHeap) -> bool {
    let q = h.space.possibly_dead_mature_blocks@;
    &&& forall|i: int, j: int| 0 <= i < j < q.len() ==> #[trigger] q[i].0 != #[trigger] q[j].0
    &&& forall|i: int|
        0 <= i < q.len() ==> (#[trigger] q[i]).0 < h.space.blocks@.len()
            && h.space.blocks@[q[i].0 as int].logged
    &&& forall|b: int|
        0 <= b < h.space.blocks@.len() && (#[trigger] h.space.blocks@[b]).logged ==> exists|i: int|
            0 <= i < q.len() && (#[trigger] q[i]).0 == b
}

/// Decrements keep the queue of blocks to sweep exact: every block in which an object died waits
/// in it, once.
pub proof fn law_decrements_keep_the_sweep_queue_exact(
    vm: &ObjectTable,
    args: Args,
    prioritized: bool,
    h0: RcHeap,
    h1: RcHeap,
    out0: Seq<DecBatch>,
    out1: Seq<DecBatch>,
    objects: Seq<usize>,
    log: Seq<usize>,
)
    requires
        sweep_queue_exact(h0),
        decs::decremented(vm, args, prioritized, h0, h1, out0, out1, objects, log),
    ensures
        sweep_queue_exact(h1),
        forall|b: int|
            0 <= b < h1.space.blocks@.len() && #[trigger] incs::hits_block(vm, log, b) ==> exists|
                i: int,
            |
                0 <= i < h1.space.possibly_dead_mature_blocks@.len() && (
                #[trigger] h1.space.possibly_dead_mature_blocks@[i]).0 == b,
{
    let q0 = h0.space.possibly_dead_mature_blocks@;
    let q1 = h1.space.possibly_dead_mature_blocks@;
    assert forall|i: int| 0 <= i < q1.len() implies (#[trigger] q1[i]).0 < h1.space.blocks@.len()
        && h1.space.blocks@[q1[i].0 as int].logged && (i < q0.len()
        <==> h0.space.blocks@[q1[i].0 as int].logged) by {
        if i < q0.len() {
            assert(q1[i] == q0[i]);
        }
    }
    assert forall|i: int, j: int| 0 <= i < j < q1.len() implies #[trigger] q1[i].0
        != #[trigger] q1[j].0 by {
        if j < q0.len() {
            assert(q1[i] == q0[i] && q1[j] == q0[j]);
        }
    }
    assert forall|b: int| 0 <= b < h1.space.blocks@.len() && (#[trigger] h1.space.blocks@[b]).logged
        implies exists|i: int| 0 <= i < q1.len() && (#[trigger] q1[i]).0 == b by {
        if h0.space.blocks@[b].logged {
            let i = choose|i: int| 0 <= i < q0.len() && (#[trigger] q0[i]).0 == b;
            assert(q1[i] == q0[i]);
        }
    }
    assert forall|b: int|
        0 <= b < h1.space.blocks@.len() && #[trigger] incs::hits_block(vm, log, b) implies exists|
        i: int,
    |
        0 <= i < q1.len() && (#[trigger] q1[i]).0 == b by {
        assert(h1.space.blocks@[b].logged);
    }
}

} // verus!
