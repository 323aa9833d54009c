//! What a trace leaves behind, told from the objects and the words of the heap before and after it.

use vstd::prelude::*;

use crate::plan::concurrent::bactrian::gc_work;
use crate::plan::concurrent::bactrian::gc_work::{BactrianNurseryProcessEdges, TraceOutput};
use crate::plan::concurrent::bactrian::laws;
use crate::plan::concurrent::bactrian::trace_heap::{ObjectSpace, TraceHeap};
use crate::plan::concurrent::Pause;

verus! {

/// A slot that a trace processes refers to where its object is: to the copy, if the object is in the
/// nursery, and else to the object itself. A slot without a reference stays so. What a processed slot
/// refers to is mature, and marked if the pause ends a marking cycle.
pub proof fn law_processed_slots_are_redirected(
    pause: Pause,
    h0: TraceHeap,
    h1: TraceHeap,
    list: Seq<usize>,
    scans: Seq<usize>,
    enqueued: Seq<usize>,
    visited: Seq<usize>,
    i: int,
)
    requires
        h0.wf(),
        h1.wf(),
        gc_work::traced(pause, h0, h1, list, scans, enqueued, visited),
        0 <= i < list.len(),
    ensures
        list[i] < h1.words@.len(),
        match h1.words@[list[i] as int] {
            Some(x) => {
                &&& x < h1.objects@.len()
                &&& h1.objects@[x as int].space == ObjectSpace::Mature || h1.objects@[x as int].space
                    == ObjectSpace::Large
                &&& pause == Pause::FinalMark ==> h1.objects@[x as int].marked
            },
            None => true,
        },
        list[i] < h0.words@.len() ==> match h0.words@[list[i] as int] {
            Some(o) => {
                &&& h0.objects@[o as int].space == ObjectSpace::Nursery
                    ==> h1.objects@[o as int].forward is Some && h1.words@[list[i] as int]
                    == h1.objects@[o as int].forward
                &&& h0.objects@[o as int].space != ObjectSpace::Nursery ==> h1.words@[list[i] as int]
                    == Some(o)
            },
            None => h1.words@[list[i] as int] is None,
        },
{
    let s = list[i];
    assert(list.contains(s));
    if let Some(x) = h1.word(s) {
        assert(h1.done(pause, x));
        assert(h1.has(x));
    }
    if s < h0.words@.len() {
        assert(h1.resolved(h1.word(s)) == h1.resolved(h0.word(s)));
        if let Some(o) = h0.word(s) {
            assert(h0.has(o));
            assert(h1.has(o));
        }
    }
}

/// A slot that a trace does not process stays as it is.
pub proof fn law_other_slots_stay(
    pause: Pause,
    h0: TraceHeap,
    h1: TraceHeap,
    list: Seq<usize>,
    scans: Seq<usize>,
    enqueued: Seq<usize>,
    visited: Seq<usize>,
    s: usize,
)
    requires
        gc_work::traced(pause, h0, h1, list, scans, enqueued, visited),
        s < h0.words@.len(),
        forall|i: int| 0 <= i < list.len() ==> #[trigger] list[i] != s,
    ensures
        h1.words@[s as int] == h0.words@[s as int],
{
    assert(!list.contains(s));
    assert(h1.word(s) == h0.word(s));
}

/// An object of the nursery is never changed but for being copied, once. The copy is a new, marked object
/// of the mature space with as many slots, none of which is a slot from before.
pub proof fn law_nursery_objects_are_copied_once(
    pause: Pause,
    h0: TraceHeap,
    h1: TraceHeap,
    list: Seq<usize>,
    scans: Seq<usize>,
    enqueued: Seq<usize>,
    visited: Seq<usize>,
    o: usize,
    k: int,
)
    requires
        h0.wf(),
        h1.wf(),
        gc_work::traced(pause, h0, h1, list, scans, enqueued, visited),
        o < h0.objects@.len(),
        h0.objects@[o as int].space == ObjectSpace::Nursery,
    ensures
        h1.objects@[o as int].space == ObjectSpace::Nursery,
        h1.objects@[o as int].slots == h0.objects@[o as int].slots,
        h1.objects@[o as int].marked == h0.objects@[o as int].marked,
        h0.objects@[o as int].forward is Some ==> h1.objects@[o as int].forward
            == h0.objects@[o as int].forward,
        h0.objects@[o as int].forward is None && h1.objects@[o as int].forward is Some ==> ({
            let c = h1.objects@[o as int].forward.unwrap();
            &&& h0.objects@.len() <= c < h1.objects@.len()
            &&& h1.objects@[c as int].space == ObjectSpace::Mature
            &&& h1.objects@[c as int].marked
            &&& h1.objects@[c as int].forward is None
            &&& h1.objects@[c as int].slots@.len() == h0.objects@[o as int].slots@.len()
            &&& 0 <= k < h1.objects@[c as int].slots@.len() ==> h0.words@.len()
                <= h1.objects@[c as int].slots@[k] < h1.words@.len()
            &&& exists|i: int|
                0 <= i < list.len() && h1.words@[#[trigger] list[i] as int] == Some(c)
        }),
{
    assert(h0.has(o));
    assert(h1.has(o));
    if enqueued.contains(o) {
        assert(gc_work::discovered(pause, h0, h1, o));
    }
    if h0.object(o).forward is None && h1.object(o).forward is Some {
        let c = h1.object(o).forward.unwrap();
        assert(h1.copy_of(h0, o, c));
        assert(h1.has(c));
        if 0 <= k < h1.slots_of(c).len() {
            assert(h0.words@.len() <= h1.slots_of(c)[k] < h1.words@.len());
        }
        assert(gc_work::discovered(pause, h0, h1, c));
        assert(enqueued.contains(c));
        lemma_refers(pause, h0, h1, list, scans, enqueued, visited, c);
    }
}

/// What the trace came upon is referred to by a slot that it processed.
proof fn lemma_refers(
    pause: Pause,
    h0: TraceHeap,
    h1: TraceHeap,
    list: Seq<usize>,
    scans: Seq<usize>,
    enqueued: Seq<usize>,
    visited: Seq<usize>,
    x: usize,
)
    requires
        gc_work::traced(pause, h0, h1, list, scans, enqueued, visited),
        enqueued.contains(x),
    ensures
        exists|i: int| 0 <= i < list.len() && h1.words@[#[trigger] list[i] as int] == Some(x),
{
    let n = enqueued.index_of(x);
    assert(gc_work::referenced(h1, list, enqueued[n]));
    let s = choose|s: usize| #[trigger] list.contains(s) && h1.word(s) == Some(x);
    let i = list.index_of(s);
    assert(h1.words@[list[i] as int] == Some(x));
}

/// Every object that is new after a trace is the copy of one object of the nursery that was not copied
/// before, and of no other.
pub proof fn law_each_new_object_is_one_copy(
    pause: Pause,
    h0: TraceHeap,
    h1: TraceHeap,
    list: Seq<usize>,
    scans: Seq<usize>,
    enqueued: Seq<usize>,
    visited: Seq<usize>,
    c: usize,
)
    requires
        h0.wf(),
        h1.wf(),
        gc_work::traced(pause, h0, h1, list, scans, enqueued, visited),
        h0.objects@.len() <= c < h1.objects@.len(),
    ensures
        h0.objects@.len() <= h1.objects@.len(),
        exists|o: usize|
            o < h0.objects@.len() && h0.objects@[o as int].space == ObjectSpace::Nursery
                && h0.objects@[o as int].forward is None && (
            #[trigger] h1.objects@[o as int]).forward == Some(c),
        forall|a: usize, b: usize|
            a < h0.objects@.len() && b < h0.objects@.len() && (
            #[trigger] h1.objects@[a as int]).forward == Some(c) && (
            #[trigger] h1.objects@[b as int]).forward == Some(c) ==> a == b,
{
    assert(h1.has(c));
    let o = choose|o: usize| #[trigger]
        h0.has(o) && h0.object(o).forward is None && h1.object(o).forward == Some(c);
    assert(h1.has(o));
    assert(h1.is_nursery(o));
    assert(h1.objects@[o as int].forward == Some(c));
    assert forall|a: usize, b: usize|
        a < h0.objects@.len() && b < h0.objects@.len() && (
        #[trigger] h1.objects@[a as int]).forward == Some(c) && (
        #[trigger] h1.objects@[b as int]).forward == Some(c) implies a == b by {
        assert(h0.has(a) && h0.has(b));
        if h0.object(a).forward is Some {
            assert(h0.has(h0.object(a).forward.unwrap()));
        }
        if h0.object(b).forward is Some {
            assert(h0.has(h0.object(b).forward.unwrap()));
        }
        assert(h1.object(a).forward == Some(c));
        assert(h1.object(b).forward == Some(c));
    }
}

/// A large object that is young is promoted and marked exactly if a processed slot refers to it.
pub proof fn law_young_large_objects_are_promoted_if_met(
    pause: Pause,
    h0: TraceHeap,
    h1: TraceHeap,
    list: Seq<usize>,
    scans: Seq<usize>,
    enqueued: Seq<usize>,
    visited: Seq<usize>,
    o: usize,
)
    requires
        h0.wf(),
        h1.wf(),
        gc_work::traced(pause, h0, h1, list, scans, enqueued, visited),
        o < h0.objects@.len(),
        h0.objects@[o as int].space == ObjectSpace::YoungLarge,
    ensures
        h1.objects@[o as int].slots == h0.objects@[o as int].slots,
        h1.objects@[o as int].forward is None,
        (exists|i: int| 0 <= i < list.len() && h1.words@[#[trigger] list[i] as int] == Some(o))
            ==> h1.objects@[o as int].space == ObjectSpace::Large && h1.objects@[o as int].marked,
        (forall|i: int| 0 <= i < list.len() ==> h1.words@[#[trigger] list[i] as int] != Some(o))
            ==> h1.objects@[o as int].space == ObjectSpace::YoungLarge && h1.objects@[o as int].marked
            == h0.objects@[o as int].marked,
{
    assert(h0.has(o));
    assert(h1.has(o));
    if exists|i: int| 0 <= i < list.len() && h1.words@[#[trigger] list[i] as int] == Some(o) {
        let i = choose|i: int|
            0 <= i < list.len() && h1.words@[#[trigger] list[i] as int] == Some(o);
        assert(list.contains(list[i]));
        assert(h1.word(list[i]) == Some(o));
        assert(h1.done(pause, o));
    } else {
        if enqueued.contains(o) {
            lemma_refers(pause, h0, h1, list, scans, enqueued, visited, o);
        }
        assert(!gc_work::discovered(pause, h0, h1, o));
    }
}

/// An object that is mature stays as it is, but for its mark: in the pause that ends a marking cycle, it
/// is marked if it was before or if a processed slot refers to it; in any other pause, its mark stays.
pub proof fn law_mature_objects_are_marked_if_met(
    pause: Pause,
    h0: TraceHeap,
    h1: TraceHeap,
    list: Seq<usize>,
    scans: Seq<usize>,
    enqueued: Seq<usize>,
    visited: Seq<usize>,
    o: usize,
)
    requires
        h0.wf(),
        h1.wf(),
        gc_work::traced(pause, h0, h1, list, scans, enqueued, visited),
        o < h0.objects@.len(),
        h0.objects@[o as int].space == ObjectSpace::Mature || h0.objects@[o as int].space
            == ObjectSpace::Large,
    ensures
        h1.objects@[o as int].space == h0.objects@[o as int].space,
        h1.objects@[o as int].slots == h0.objects@[o as int].slots,
        h1.objects@[o as int].forward is None,
        pause != Pause::FinalMark ==> h1.objects@[o as int].marked == h0.objects@[o as int].marked,
        pause == Pause::FinalMark ==> (h1.objects@[o as int].marked <==> h0.objects@[o as int].marked
            || exists|i: int|
            0 <= i < list.len() && h1.words@[#[trigger] list[i] as int] == Some(o)),
{
    assert(h0.has(o));
    assert(h1.has(o));
    if enqueued.contains(o) {
        assert(gc_work::discovered(pause, h0, h1, o));
        lemma_refers(pause, h0, h1, list, scans, enqueued, visited, o);
    }
    if exists|i: int| 0 <= i < list.len() && h1.words@[#[trigger] list[i] as int] == Some(o) {
        let i = choose|i: int|
            0 <= i < list.len() && h1.words@[#[trigger] list[i] as int] == Some(o);
        assert(list.contains(list[i]));
        assert(h1.word(list[i]) == Some(o));
        assert(h1.done(pause, o));
    }
}

/// What a trace comes upon are the new copies, the large objects that it promotes, and, in the pause that
/// ends a marking cycle, the mature objects that it marks; each of them once, and nothing else. Exactly
/// the objects that it scans are noted as scanned, besides those that were.
pub proof fn law_a_trace_comes_upon_what_it_changes(
    pause: Pause,
    h0: TraceHeap,
    h1: TraceHeap,
    list: Seq<usize>,
    scans: Seq<usize>,
    enqueued: Seq<usize>,
    visited: Seq<usize>,
    x: usize,
)
    requires
        h0.wf(),
        h1.wf(),
        gc_work::traced(pause, h0, h1, list, scans, enqueued, visited),
        x < h1.objects@.len(),
    ensures
        enqueued.no_duplicates(),
        x >= h0.objects@.len() ==> enqueued.contains(x),
        x < h0.objects@.len() && h0.objects@[x as int].space == ObjectSpace::Nursery
            ==> !enqueued.contains(x),
        x < h0.objects@.len() && h0.objects@[x as int].space == ObjectSpace::YoungLarge ==> (
        enqueued.contains(x) <==> h1.objects@[x as int].space == ObjectSpace::Large),
        x < h0.objects@.len() && (h0.objects@[x as int].space == ObjectSpace::Mature
            || h0.objects@[x as int].space == ObjectSpace::Large) ==> (enqueued.contains(x) <==> pause
            == Pause::FinalMark && !h0.objects@[x as int].marked && h1.objects@[x as int].marked),
        h1.objects@[x as int].scanned <==> x < h0.objects@.len() && h0.objects@[x as int].scanned
            || scans.contains(x),
{
    assert(h1.has(x));
    assert(enqueued.contains(x) <==> gc_work::discovered(pause, h0, h1, x));
    if x < h0.objects@.len() {
        assert(h0.has(x));
    }
}

/// A trace meets what processed slots refer to: whatever they referred to outside of the nursery, and
/// nothing to which, where it is now, none of them refers.
pub proof fn law_a_trace_meets_what_slots_refer_to(
    pause: Pause,
    h0: TraceHeap,
    h1: TraceHeap,
    list: Seq<usize>,
    scans: Seq<usize>,
    enqueued: Seq<usize>,
    visited: Seq<usize>,
    i: int,
)
    requires
        h0.wf(),
        gc_work::traced(pause, h0, h1, list, scans, enqueued, visited),
    ensures
        0 <= i < list.len() && list[i] < h0.words@.len() ==> (h0.words@[list[i] as int] matches Some(
            o,
        ) ==> (h0.objects@[o as int].space == ObjectSpace::Nursery || visited.contains(o))),
        0 <= i < visited.len() ==> visited[i] < h1.objects@.len() && exists|k: int|
            0 <= k < list.len() && h1.words@[#[trigger] list[k] as int] == (
            match h1.objects@[visited[i] as int].forward {
                Some(copy) => Some(copy),
                None => Some(visited[i]),
            }),
{
    if 0 <= i < list.len() && list[i] < h0.words@.len() {
        assert(list.contains(list[i]));
        assert(h0.word(list[i]) == h0.words@[list[i] as int]);
    }
    if 0 <= i < visited.len() {
        let n = h1.now(visited[i]);
        assert(gc_work::referenced(h1, list, n));
        let s = choose|s: usize| #[trigger] list.contains(s) && h1.word(s) == Some(n);
        let k = list.index_of(s);
        assert(h1.words@[list[k] as int] == Some(n));
    }
}

/// After the trace of a single tracer, a field of a copy refers to where the object is to which the field
/// of the copied object referred.
pub proof fn law_the_fields_of_a_copy_refer_to_the_same_objects(
    pause: Pause,
    h0: TraceHeap,
    h1: TraceHeap,
    slots: Seq<usize>,
    found: Seq<usize>,
    visited: Seq<usize>,
    o: usize,
    c: usize,
    k: int,
)
    requires
        h1.wf(),
        gc_work::traced(
            pause,
            h0,
            h1,
            slots + gc_work::fields_of(h1, found),
            found,
            found,
            visited,
        ),
        o < h0.objects@.len(),
        h0.objects@[o as int].forward is None,
        h1.objects@[o as int].forward == Some(c),
        0 <= k < h0.objects@[o as int].slots@.len(),
    ensures
        h1.objects@[c as int].slots@.len() == h0.objects@[o as int].slots@.len(),
        h1.words@[h1.objects@[c as int].slots@[k] as int] == (
        match h0.words@[h0.objects@[o as int].slots@[k] as int] {
            Some(y) => match h1.objects@[y as int].forward {
                Some(copy) => Some(copy),
                None => Some(y),
            },
            None => None,
        }),
{
    assert(h0.has(o));
    laws::law_copies_keep_the_graph(pause, h0, h1, slots, found, visited, o, k);
}

/// Each object that a single tracer scans is referred to by a slot that it was given, or by a slot of an
/// object that it scanned before.
pub proof fn law_scanned_objects_are_reached(
    h: TraceHeap,
    slots: Seq<usize>,
    objects: Seq<usize>,
    i: int,
)
    requires
        gc_work::reached(h, slots, objects),
        0 <= i < objects.len(),
    ensures
        (exists|k: int| 0 <= k < slots.len() && h.words@[#[trigger] slots[k] as int] == Some(
            objects[i],
        )) || (exists|j: int, k: int|
            0 <= j < i && 0 <= k < h.objects@[objects[j] as int].slots@.len() && h.words@[
            #[trigger] h.objects@[objects[j] as int].slots@[k] as int] == Some(objects[i])),
{
    if gc_work::referenced(h, slots, objects[i]) {
        let s = choose|s: usize| #[trigger] slots.contains(s) && h.word(s) == Some(objects[i]);
        let k = slots.index_of(s);
        assert(h.words@[slots[k] as int] == Some(objects[i]));
    } else {
        assert(gc_work::linked(h, objects, i));
        lemma_linked(h, objects, i);
    }
}

proof fn lemma_linked(h: TraceHeap, objects: Seq<usize>, i: int)
    requires
        gc_work::linked(h, objects, i),
    ensures
        exists|j: int, k: int|
            0 <= j < i && 0 <= k < h.objects@[objects[j] as int].slots@.len() && h.words@[
            #[trigger] h.objects@[objects[j] as int].slots@[k] as int] == Some(objects[i]),
{
    let j = choose|j: int|
        0 <= j < i && gc_work::referenced(h, h.slots_of(#[trigger] objects[j]), objects[i]);
    let fields = h.slots_of(objects[j]);
    let s = choose|s: usize| #[trigger] fields.contains(s) && h.word(s) == Some(objects[i]);
    let k = fields.index_of(s);
    assert(h.words@[h.objects@[objects[j] as int].slots@[k] as int] == Some(objects[i]));
}

/// Each object of a closure, from position `from` on, is referred to by a slot of one before it.
pub proof fn law_a_closure_follows_the_slots(
    h: TraceHeap,
    objects: Seq<usize>,
    from: int,
    i: int,
)
    requires
        gc_work::chained(h, objects, from),
        0 <= from <= i < objects.len(),
    ensures
        exists|j: int, k: int|
            0 <= j < i && 0 <= k < h.objects@[objects[j] as int].slots@.len() && h.words@[
            #[trigger] h.objects@[objects[j] as int].slots@[k] as int] == Some(objects[i]),
{
    assert(gc_work::linked(h, objects, i));
    lemma_linked(h, objects, i);
}

/// Seeds are taken only in the pause that starts a marking cycle. There, each object that is met outside
/// of the nursery is one, in the order in which they are met.
pub proof fn law_seeds_are_the_mature_objects_met(
    pause: Pause,
    h: TraceHeap,
    visited: Seq<usize>,
    o: usize,
)
    ensures
        gc_work::seeds_of(pause, h, Seq::empty()) == Seq::<usize>::empty(),
        pause != Pause::InitialMark ==> gc_work::seeds_of(pause, h, visited) == Seq::<usize>::empty(),
        pause == Pause::InitialMark && h.objects@[o as int].space == ObjectSpace::Nursery
            ==> gc_work::seeds_of(pause, h, visited.push(o)) == gc_work::seeds_of(pause, h, visited),
        pause == Pause::InitialMark && h.objects@[o as int].space != ObjectSpace::Nursery
            ==> gc_work::seeds_of(pause, h, visited.push(o)) == gc_work::seeds_of(
            pause,
            h,
            visited,
        ).push(o),
{
    assert(visited.push(o).drop_last() =~= visited);
}

/// What packets hold, what slots objects have and what loads give is put together in its order.
pub proof fn law_lists_are_put_together_in_their_order(
    h: TraceHeap,
    packets: Seq<Vec<usize>>,
    packet: Vec<usize>,
    objects: Seq<usize>,
    loaded: Seq<Option<usize>>,
    o: usize,
)
    ensures
        gc_work::flattened(Seq::empty()) == Seq::<usize>::empty(),
        gc_work::flattened(packets.push(packet)) == gc_work::flattened(packets) + packet@,
        gc_work::fields_of(h, Seq::empty()) == Seq::<usize>::empty(),
        gc_work::fields_of(h, objects.push(o)) == gc_work::fields_of(h, objects)
            + h.objects@[o as int].slots@,
        gc_work::present(Seq::empty()) == Seq::<usize>::empty(),
        gc_work::present(loaded.push(Some(o))) == gc_work::present(loaded).push(o),
        gc_work::present(loaded.push(None)) == gc_work::present(loaded),
{
    assert(packets.push(packet).drop_last() =~= packets);
    assert(objects.push(o).drop_last() =~= objects);
    assert(loaded.push(Some(o)).drop_last() =~= loaded);
    assert(loaded.push(None).drop_last() =~= loaded);
}

/// Packets of seeds are handed over behind those that were handed over before. While a trace runs they
/// hold 4096 seeds each; at its end the last one may hold fewer. None is empty.
pub proof fn law_packets_of_seeds_are_full(a: Seq<Vec<usize>>, b: Seq<Vec<usize>>, i: int)
    requires
        0 <= i < b.len(),
    ensures
        gc_work::full_packets(a, b) ==> {
            &&& a.len() <= b.len()
            &&& i < a.len() ==> b[i] == a[i]
            &&& i >= a.len() ==> b[i]@.len() == 4096
        },
        gc_work::cut_packets(a, b) ==> {
            &&& a.len() <= b.len()
            &&& i < a.len() ==> b[i] == a[i]
            &&& i >= a.len() && i < b.len() - 1 ==> b[i]@.len() == 4096
            &&& i >= a.len() && i == b.len() - 1 ==> 0 < b[i]@.len() <= 4096
        },
        gc_work::more_packets(a, b) ==> {
            &&& a.len() <= b.len()
            &&& i < a.len() ==> b[i] == a[i]
            &&& i >= a.len() ==> b[i]@.len() > 0
        },
{
}

/// Meeting an object outside of the nursery in the pause that starts a marking cycle makes it a seed,
/// behind those that wait; the 4096th makes them a packet. Otherwise the seeds stay.
pub proof fn law_a_seed_waits_until_the_packet_is_full(
    p0: BactrianNurseryProcessEdges,
    p1: BactrianNurseryProcessEdges,
    h: TraceHeap,
    out0: TraceOutput,
    out1: TraceOutput,
    object: usize,
)
    requires
        gc_work::seeded(p0, p1, h, out0, out1, object),
    ensures
        p0.pause != Pause::InitialMark || h.objects@[object as int].space == ObjectSpace::Nursery
            ==> p1.mark_seed@ == p0.mark_seed@ && out1.seeds@ == out0.seeds@,
        p0.pause == Pause::InitialMark && h.objects@[object as int].space != ObjectSpace::Nursery
            && p0.mark_seed@.len() < 4095 ==> p1.mark_seed@ == p0.mark_seed@.push(object)
            && out1.seeds@ == out0.seeds@,
        p0.pause == Pause::InitialMark && h.objects@[object as int].space != ObjectSpace::Nursery
            && p0.mark_seed@.len() >= 4095 ==> {
            &&& p1.mark_seed@.len() == 0
            &&& out1.seeds@.len() == out0.seeds@.len() + 1
            &&& out1.seeds@.drop_last() == out0.seeds@
            &&& out1.seeds@[out0.seeds@.len() as int]@ == p0.mark_seed@.push(object)
        },
{
}

/// A slot is loaded, when it is processed for the first time, as what it referred to before the trace,
/// if it was there; and as what it refers to after the trace when it was processed before. Loaded is
/// always a reference to the object that is found there in the end, or to the one that was copied there.
pub proof fn law_slots_are_loaded_as_they_are(
    h0: TraceHeap,
    h1: TraceHeap,
    list: Seq<usize>,
    loaded: Seq<Option<usize>>,
    k: int,
)
    requires
        gc_work::loads(h0, h1, list, loaded),
        0 <= k < list.len(),
    ensures
        loaded.len() == list.len(),
        list[k] < h0.words@.len() && (forall|j: int| 0 <= j < k ==> #[trigger] list[j] != list[k])
            ==> loaded[k] == h0.words@[list[k] as int],
        (exists|j: int| 0 <= j < k && #[trigger] list[j] == list[k]) ==> loaded[k]
            == h1.words@[list[k] as int],
        match loaded[k] {
            Some(o) => o < h1.objects@.len() && h1.words@[list[k] as int] == (
            match h1.objects@[o as int].forward {
                Some(copy) => Some(copy),
                None => Some(o),
            }),
            None => h1.words@[list[k] as int] is None,
        },
{
    let before = list.take(k);
    assert(h1.resolved(loaded[k]) == h1.word(list[k]));
    if forall|j: int| 0 <= j < k ==> #[trigger] list[j] != list[k] {
        if before.contains(list[k]) {
            let j = before.index_of(list[k]);
            assert(list[j] == list[k]);
        }
    }
    if exists|j: int| 0 <= j < k && #[trigger] list[j] == list[k] {
        let j = choose|j: int| 0 <= j < k && #[trigger] list[j] == list[k];
        assert(before[j] == list[k]);
        assert(before.contains(list[k]));
    }
}

/// A slot of a copy holds what the slot for which it was made held before the trace, as long as neither
/// is processed; and it is loaded as that when it is processed for the first time, if the other one is
/// not processed at all.
pub proof fn law_slots_of_copies_start_as_those_of_their_objects(
    h0: TraceHeap,
    h1: TraceHeap,
    list: Seq<usize>,
    loaded: Seq<Option<usize>>,
    o: usize,
    c: usize,
    i: int,
    k: int,
)
    requires
        gc_work::loads(h0, h1, list, loaded),
        o < h0.objects@.len(),
        h0.objects@[o as int].forward is None,
        h1.objects@[o as int].forward == Some(c),
        0 <= i < h0.objects@[o as int].slots@.len(),
        !list.contains(h0.objects@[o as int].slots@[i]),
    ensures
        !list.contains(h1.objects@[c as int].slots@[i])
            ==> h1.words@[h1.objects@[c as int].slots@[i] as int]
            == h0.words@[h0.objects@[o as int].slots@[i] as int],
        0 <= k < list.len() && list[k] == h1.objects@[c as int].slots@[i] && (forall|j: int|
            0 <= j < k ==> #[trigger] list[j] != list[k]) ==> loaded[k]
            == h0.words@[h0.objects@[o as int].slots@[i] as int],
{
    let t = h0.objects@[o as int].slots@[i];
    let s = h1.objects@[c as int].slots@[i];
    assert(h1.now(o) == c);
    assert(h1.copied_at(h0, o, i, t, s));
    assert(h1.copied_slot(h0, t, s));
    if 0 <= k < list.len() && list[k] == s && (forall|j: int|
        0 <= j < k ==> #[trigger] list[j] != list[k]) {
        let before = list.take(k);
        if before.contains(list[k]) {
            let j = before.index_of(list[k]);
            assert(list[j] == list[k]);
        }
        assert(h1.copied_slot(h0, t, list[k]));
    }
}

/// A step of a trace adds to what it has met, loaded and come upon, and to its seeds; it meets exactly
/// what it loads. It keeps the slots, the pause and the packets to scan, and fewer than 4096 seeds wait.
pub proof fn law_a_step_adds_to_the_trace(
    p0: BactrianNurseryProcessEdges,
    p1: BactrianNurseryProcessEdges,
    h0: TraceHeap,
    h1: TraceHeap,
    out0: TraceOutput,
    out1: TraceOutput,
    list: Seq<usize>,
    scans: Seq<usize>,
)
    requires
        gc_work::progressed(p0, p1, h0, h1, out0, out1, list, scans),
    ensures
        p1.slots == p0.slots,
        p1.pause == p0.pause,
        p1.mark_seed@.len() < 4096,
        out1.scans == out0.scans,
        p0.enqueued@.len() <= p1.enqueued@.len(),
        p1.enqueued@.take(p0.enqueued@.len() as int) == p0.enqueued@,
        p0.visited@.len() <= p1.visited@.len(),
        p1.visited@.take(p0.visited@.len() as int) == p0.visited@,
        p0.loaded@.len() + list.len() == p1.loaded@.len(),
        p1.loaded@.take(p0.loaded@.len() as int) == p0.loaded@,
        gc_work::found(p0, p1) == p1.enqueued@.skip(p0.enqueued@.len() as int),
        p1.visited@.skip(p0.visited@.len() as int) == gc_work::present(
            p1.loaded@.skip(p0.loaded@.len() as int),
        ),
        gc_work::loads(h0, h1, list, p1.loaded@.skip(p0.loaded@.len() as int)),
        gc_work::traced(
            p0.pause,
            h0,
            h1,
            list,
            scans,
            p1.enqueued@.skip(p0.enqueued@.len() as int),
            p1.visited@.skip(p0.visited@.len() as int),
        ),
        gc_work::full_packets(out0.seeds@, out1.seeds@),
        gc_work::flattened(out1.seeds@) + p1.mark_seed@ == gc_work::flattened(out0.seeds@)
            + p0.mark_seed@ + gc_work::seeds_of(
            p0.pause,
            h1,
            p1.visited@.skip(p0.visited@.len() as int),
        ),
{
    assert(p1.enqueued@.take(p0.enqueued@.len() as int) =~= p0.enqueued@);
    assert(p1.visited@.take(p0.visited@.len() as int) =~= p0.visited@);
    assert(p1.loaded@.take(p0.loaded@.len() as int) =~= p0.loaded@);
}

/// Objects to scan only have to be objects.
pub proof fn law_what_a_scan_needs(h: TraceHeap, objects: Seq<usize>)
    ensures
        gc_work::all_there(h, objects) <==> (forall|i: int|
            0 <= i < objects.len() ==> #[trigger] objects[i] < h.objects@.len()),
{
    if gc_work::all_there(h, objects) {
        assert forall|i: int| 0 <= i < objects.len() implies #[trigger] objects[i]
            < h.objects@.len() by {
            assert(h.has(objects[i]));
        }
    }
}

} // verus!
