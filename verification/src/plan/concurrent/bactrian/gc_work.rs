//! The trace of the pauses that collect the nursery.

use vstd::prelude::*;

use crate::plan::concurrent::bactrian::trace_heap;
use crate::plan::concurrent::bactrian::trace_heap::{ObjectSpace, TraceHeap, TracedObject};
use crate::plan::concurrent::Pause;

verus! {

/// The number of seeds at which they are handed over.
pub const SEED_CAPACITY: usize = 4096;

/// The trace of the pauses that collect the nursery. It promotes young objects, and what they refer
/// to. Besides,
///
/// * in the pause that starts a marking cycle, it hands every mature object that it meets to the
///   concurrent marker, as a seed;
/// * in the pause that ends a marking cycle, it marks every mature object that it meets and that
///   is not marked, and traces on from there.
pub struct BactrianNurseryProcessEdges {
    /// The slots to process.
    pub slots: Vec<usize>,
    pub pause: Pause,
    /// The objects to scan.
    pub nodes: Vec<usize>,
    /// The seeds that were not handed over yet.
    pub mark_seed: Vec<usize>,
    /// All objects that the trace had to scan, in the order in which it came upon them.
    pub enqueued: Ghost<Seq<usize>>,
    /// All objects that the trace met, in the order in which it met them.
    pub visited: Ghost<Seq<usize>>,
    /// For each slot that the trace processed, in that order, what it referred to just before.
    pub loaded: Ghost<Seq<Option<usize>>>,
}

/// The packets that a trace hands over.
pub struct TraceOutput {
    /// Seeds for the concurrent marker.
    pub seeds: Vec<Vec<usize>>,
    /// Objects to scan.
    pub scans: Vec<Vec<usize>>,
}

/// The entries of all `packets`, in their order.
pub open spec fn flattened(packets: Seq<Vec<usize>>) -> Seq<usize>
    decreases packets.len(),
{
    if packets.len() == 0 {
        Seq::empty()
    } else {
        flattened(packets.drop_last()) + packets.last()@
    }
}

/// Those of `visited` that are not in the nursery, in their order.
pub open spec fn mature_of(h: TraceHeap, visited: Seq<usize>) -> Seq<usize>
    decreases visited.len(),
{
    if visited.len() == 0 {
        Seq::empty()
    } else if h.is_nursery(visited.last()) {
        mature_of(h, visited.drop_last())
    } else {
        mature_of(h, visited.drop_last()).push(visited.last())
    }
}

/// Whether `x` became something to scan between `h0` and `h1`: it is a new copy, or the trace had
/// something to do with it and has not any more.
pub open spec fn discovered(pause: Pause, h0: TraceHeap, h1: TraceHeap, x: usize) -> bool {
    &&& h1.has(x)
    &&& !h1.is_nursery(x)
    &&& !h0.has(x) || trace_heap::pending(pause, h0.object(x))
    &&& !trace_heap::pending(pause, h1.object(x))
}

/// Whether one of `list` refers to `x`.
pub open spec fn referenced(h: TraceHeap, list: Seq<usize>, x: usize) -> bool {
    exists|s: usize| #[trigger] list.contains(s) && h.word(s) == Some(x)
}

/// What processing the slots `list` and scanning the objects `scans` does to the heap, when the
/// objects of `visited` are met and those of `enqueued` are found to be scanned:
///
/// * objects are copied out of the nursery, large objects are promoted and, in the pause that ends
///   a marking cycle, objects are marked: exactly those of `enqueued`, each once, and each because
///   one of the slots refers to it;
/// * the slots refer to where their objects are now, and the trace has nothing left to do with
///   these; no other slot is changed;
/// * every object to which one of the slots refers is met where it is, unless it is a copy.
pub open spec fn traced(
    pause: Pause,
    h0: TraceHeap,
    h1: TraceHeap,
    list: Seq<usize>,
    scans: Seq<usize>,
    enqueued: Seq<usize>,
    visited: Seq<usize>,
) -> bool {
    &&& h1.grown_from(h0)
    &&& forall|s: usize|
        s < h0.words@.len() && !list.contains(s) ==> #[trigger] h1.word(s) == h0.word(s)
    &&& forall|s: usize| #[trigger]
        list.contains(s) ==> s < h1.words@.len() && (h1.word(s) matches Some(x) ==> h1.done(
            pause,
            x,
        ))
    &&& enqueued.no_duplicates()
    &&& forall|x: usize| #[trigger] enqueued.contains(x) <==> discovered(pause, h0, h1, x)
    &&& forall|i: int|
        0 <= i < enqueued.len() ==> referenced(h1, list, #[trigger] enqueued[i])
    &&& forall|o: usize| #[trigger]
        h0.has(o) ==> h1.object(o).marked == (h0.object(o).marked || enqueued.contains(o))
    &&& forall|o: usize| #[trigger]
        h1.has(o) ==> h1.object(o).scanned == ((h0.has(o) && h0.object(o).scanned)
            || scans.contains(o))
    &&& forall|i: int|
        0 <= i < visited.len() ==> h1.has(#[trigger] visited[i]) && referenced(
            h1,
            list,
            h1.now(visited[i]),
        )
    &&& forall|s: usize| #[trigger]
        list.contains(s) && s < h0.words@.len() ==> (h0.word(s) matches Some(o) ==> h0.is_nursery(o)
            || visited.contains(o))
    &&& forall|s: usize| #[trigger]
        list.contains(s) ==> (h1.word(s) matches Some(x) ==> !h0.has(x) || copied_to(h0, x)
            || visited.contains(x))
    &&& trace_heap::potential(pause, h1.objects@) + enqueued.len() <= trace_heap::potential(
        pause,
        h0.objects@,
    )
}

/// Whether an object was copied to `x`.
pub open spec fn copied_to(h: TraceHeap, x: usize) -> bool {
    exists|o: usize| #[trigger] h.has(o) && h.object(o).forward == Some(x)
}

pub proof fn lemma_contains_add(a: Seq<usize>, b: Seq<usize>, x: usize)
    ensures
        (a + b).contains(x) == (a.contains(x) || b.contains(x)),
{
    if a.contains(x) {
        let i = a.index_of(x);
        assert((a + b)[i] == x);
    }
    if b.contains(x) {
        let i = b.index_of(x);
        assert((a + b)[a.len() + i] == x);
    }
    if (a + b).contains(x) {
        let i = (a + b).index_of(x);
        if i < a.len() {
            assert(a[i] == x);
        } else {
            assert(b[i - a.len()] == x);
        }
    }
}

/// A slot that refers to a mature object goes on referring to it.
pub proof fn lemma_word_stays(
    pause: Pause,
    h1: TraceHeap,
    h2: TraceHeap,
    list: Seq<usize>,
    s: usize,
    x: usize,
)
    requires
        h1.wf(),
        h2.wf(),
        h2.grown_from(h1),
        s < h1.words@.len(),
        h1.word(s) == Some(x),
        h1.done(pause, x),
        !list.contains(s) ==> h2.word(s) == h1.word(s),
        list.contains(s) ==> (h2.word(s) matches Some(y) ==> h2.done(pause, y)),
    ensures
        h2.word(s) == Some(x),
        h2.done(pause, x),
        h2.now(x) == x,
{
    assert(h1.has(x));
    assert(h2.has(x));
    assert(h2.object(x).forward is None);
    assert(h2.resolved(h2.word(s)) == h2.resolved(h1.word(s)));
    if list.contains(s) {
        let y = h2.word(s)->0;
        assert(h2.done(pause, y));
        assert(h2.object(y).forward is None);
    }
}

/// Processing some slots and then some more is processing them all.
pub proof fn lemma_traced_add(
    pause: Pause,
    h0: TraceHeap,
    h1: TraceHeap,
    h2: TraceHeap,
    list1: Seq<usize>,
    list2: Seq<usize>,
    scans1: Seq<usize>,
    scans2: Seq<usize>,
    enqueued1: Seq<usize>,
    enqueued2: Seq<usize>,
    visited1: Seq<usize>,
    visited2: Seq<usize>,
)
    requires
        h0.wf(),
        h1.wf(),
        h2.wf(),
        traced(pause, h0, h1, list1, scans1, enqueued1, visited1),
        traced(pause, h1, h2, list2, scans2, enqueued2, visited2),
        forall|o: usize| #[trigger] scans1.contains(o) ==> h1.has(o),
    ensures
        traced(
            pause,
            h0,
            h2,
            list1 + list2,
            scans1 + scans2,
            enqueued1 + enqueued2,
            visited1 + visited2,
        ),
{
    let list = list1 + list2;
    let scans = scans1 + scans2;
    let enqueued = enqueued1 + enqueued2;
    let visited = visited1 + visited2;
    trace_heap::lemma_grown_add(h0, h1, h2);
    assert forall|s: usize| #[trigger]
        list.contains(s) == (list1.contains(s) || list2.contains(s)) by {
        lemma_contains_add(list1, list2, s);
    }
    assert forall|x: usize| #[trigger]
        enqueued.contains(x) == (enqueued1.contains(x) || enqueued2.contains(x)) by {
        lemma_contains_add(enqueued1, enqueued2, x);
    }
    assert forall|x: usize| #[trigger]
        scans.contains(x) == (scans1.contains(x) || scans2.contains(x)) by {
        lemma_contains_add(scans1, scans2, x);
    }
    assert forall|x: usize| #[trigger]
        visited.contains(x) == (visited1.contains(x) || visited2.contains(x)) by {
        lemma_contains_add(visited1, visited2, x);
    }
    assert forall|s: usize| s < h0.words@.len() && !list.contains(s) implies #[trigger] h2.word(s)
        == h0.word(s) by {
        assert(!list1.contains(s) && !list2.contains(s));
        assert(h1.word(s) == h0.word(s));
    }
    assert forall|s: usize| #[trigger] list.contains(s) implies s < h2.words@.len() && (
    h2.word(s) matches Some(x) ==> h2.done(pause, x)) by {
        if !list2.contains(s) {
            assert(list1.contains(s));
            assert(h2.word(s) == h1.word(s));
            if let Some(x) = h1.word(s) {
                lemma_word_stays(pause, h1, h2, list2, s, x);
            }
        }
    }
    assert forall|x: usize| #[trigger] enqueued.contains(x) <==> discovered(
        pause,
        h0,
        h2,
        x,
    ) by {
        lemma_discovered_add(pause, h0, h1, h2, x);
    }
    assert forall|i: int, j: int|
        0 <= i < enqueued.len() && 0 <= j < enqueued.len() && i != j implies enqueued[i]
        != enqueued[j] by {
        if i < enqueued1.len() && j >= enqueued1.len() {
            assert(enqueued1.contains(enqueued1[i]));
            assert(enqueued2.contains(enqueued2[j - enqueued1.len()]));
            lemma_discovered_once(pause, h0, h1, h2, enqueued1[i]);
        } else if i >= enqueued1.len() && j < enqueued1.len() {
            assert(enqueued1.contains(enqueued1[j]));
            assert(enqueued2.contains(enqueued2[i - enqueued1.len()]));
            lemma_discovered_once(pause, h0, h1, h2, enqueued1[j]);
        }
    }
    assert(enqueued.no_duplicates());
    assert forall|i: int| 0 <= i < enqueued.len() implies referenced(
        h2,
        list,
        #[trigger] enqueued[i],
    ) by {
        if i < enqueued1.len() {
            assert(enqueued[i] == enqueued1[i]);
            lemma_referenced_stays(pause, h0, h1, h2, list1, list2, enqueued1[i]);
        } else {
            let k = i - enqueued1.len();
            assert(enqueued[i] == enqueued2[k]);
            let s = choose|s: usize| #[trigger]
                list2.contains(s) && h2.word(s) == Some(enqueued2[k]);
            assert(list.contains(s));
        }
    }
    assert forall|o: usize| #[trigger] h0.has(o) implies h2.object(o).marked == (
    h0.object(o).marked || enqueued.contains(o)) by {
        assert(h1.has(o));
    }
    assert forall|o: usize| #[trigger] h2.has(o) implies h2.object(o).scanned == ((h0.has(o)
        && h0.object(o).scanned) || scans.contains(o)) by {
        if h1.has(o) {
            assert(h1.object(o).scanned == ((h0.has(o) && h0.object(o).scanned)
                || scans1.contains(o)));
        }
    }
    assert forall|i: int| 0 <= i < visited.len() implies h2.has(#[trigger] visited[i])
        && referenced(h2, list, h2.now(visited[i])) by {
        if i < visited1.len() {
            let v = visited1[i];
            assert(visited[i] == v);
            assert(h1.has(v));
            let n = h1.now(v);
            lemma_referenced_stays(pause, h0, h1, h2, list1, list2, n);
            let s = choose|s: usize| #[trigger] list1.contains(s) && h1.word(s) == Some(n);
            lemma_word_stays(pause, h1, h2, list2, s, n);
            trace_heap::lemma_now_again(h1, h2, v);
        } else {
            let k = i - visited1.len();
            assert(visited[i] == visited2[k]);
            let n = h2.now(visited2[k]);
            let s = choose|s: usize| #[trigger] list2.contains(s) && h2.word(s) == Some(n);
            assert(list.contains(s));
        }
    }
    assert forall|s: usize| #[trigger] list.contains(s) && s < h0.words@.len() implies (h0.word(
        s,
    ) matches Some(o) ==> h0.is_nursery(o) || visited.contains(o)) by {
        if let Some(o) = h0.word(s) {
            assert(h0.has(o));
            if !list1.contains(s) {
                assert(h1.word(s) == h0.word(s));
                assert(list2.contains(s));
                if !h0.is_nursery(o) {
                    assert(!h1.is_nursery(o));
                    assert(visited2.contains(o));
                }
            } else if !h0.is_nursery(o) {
                assert(visited1.contains(o));
            }
        }
    }
    assert forall|s: usize| #[trigger] list.contains(s) implies (h2.word(s) matches Some(x)
        ==> !h0.has(x) || copied_to(h0, x) || visited.contains(x)) by {
        if let Some(x) = h2.word(s) {
            if h0.has(x) {
                assert(h1.has(x));
                if list1.contains(s) {
                    if let Some(y) = h1.word(s) {
                        lemma_word_stays(pause, h1, h2, list2, s, y);
                    } else {
                        assert(h2.resolved(h2.word(s)) == h2.resolved(h1.word(s)));
                    }
                } else if copied_to(h1, x) {
                    let o = choose|o: usize| #[trigger]
                        h1.has(o) && h1.object(o).forward == Some(x);
                    assert(h0.has(o)) by {
                        if !h0.has(o) {
                            assert(h1.object(o).forward is None);
                        }
                    }
                    assert(h0.object(o).forward == Some(x));
                }
            }
        }
    }
}

proof fn lemma_referenced_stays(
    pause: Pause,
    h0: TraceHeap,
    h1: TraceHeap,
    h2: TraceHeap,
    list1: Seq<usize>,
    list2: Seq<usize>,
    x: usize,
)
    requires
        h1.wf(),
        h2.wf(),
        h2.grown_from(h1),
        forall|s: usize| #[trigger]
            list1.contains(s) ==> s < h1.words@.len() && (h1.word(s) matches Some(x) ==> h1.done(
                pause,
                x,
            )),
        forall|s: usize|
            s < h1.words@.len() && !list2.contains(s) ==> #[trigger] h2.word(s) == h1.word(s),
        forall|s: usize| #[trigger]
            list2.contains(s) ==> s < h2.words@.len() && (h2.word(s) matches Some(x) ==> h2.done(
                pause,
                x,
            )),
        referenced(h1, list1, x),
    ensures
        referenced(h2, list1 + list2, x),
{
    let s = choose|s: usize| #[trigger] list1.contains(s) && h1.word(s) == Some(x);
    lemma_word_stays(pause, h1, h2, list2, s, x);
    lemma_contains_add(list1, list2, s);
    assert((list1 + list2).contains(s));
}

proof fn lemma_discovered_add(
    pause: Pause,
    h0: TraceHeap,
    h1: TraceHeap,
    h2: TraceHeap,
    x: usize,
)
    requires
        h1.grown_from(h0),
        h2.grown_from(h1),
    ensures
        discovered(pause, h0, h2, x) == (discovered(pause, h0, h1, x) || discovered(
            pause,
            h1,
            h2,
            x,
        )),
{
    if h0.has(x) {
        assert(h1.has(x));
    }
    if h1.has(x) {
        assert(h2.has(x));
    }
}

proof fn lemma_discovered_once(
    pause: Pause,
    h0: TraceHeap,
    h1: TraceHeap,
    h2: TraceHeap,
    x: usize,
)
    requires
        h2.grown_from(h1),
        discovered(pause, h0, h1, x),
    ensures
        !discovered(pause, h1, h2, x),
{
}

/// Processing nothing changes nothing.
proof fn lemma_traced_none(pause: Pause, h: TraceHeap)
    requires
        h.wf(),
    ensures
        traced(pause, h, h, Seq::empty(), Seq::empty(), Seq::empty(), Seq::empty()),
{
    let none = Seq::<usize>::empty();
    assert forall|s: usize| !none.contains(s) by {}
    assert forall|x: usize| #[trigger] none.contains(x) <==> discovered(pause, h, h, x) by {}
}

pub proof fn lemma_mature_of_add(h: TraceHeap, a: Seq<usize>, b: Seq<usize>)
    ensures
        mature_of(h, a + b) == mature_of(h, a) + mature_of(h, b),
    decreases b.len(),
{
    if b.len() == 0 {
        assert(a + b =~= a);
        assert(mature_of(h, a) + mature_of(h, b) =~= mature_of(h, a));
    } else {
        lemma_mature_of_add(h, a, b.drop_last());
        assert((a + b).drop_last() =~= a + b.drop_last());
        assert(mature_of(h, a + b) =~= mature_of(h, a) + mature_of(h, b));
    }
}

pub proof fn lemma_mature_of_same(h1: TraceHeap, h2: TraceHeap, visited: Seq<usize>)
    requires
        h2.grown_from(h1),
        forall|i: int| 0 <= i < visited.len() ==> h1.has(#[trigger] visited[i]),
    ensures
        mature_of(h2, visited) == mature_of(h1, visited),
    decreases visited.len(),
{
    if visited.len() > 0 {
        assert(h1.has(visited[visited.len() - 1]));
        assert(h1.has(visited.last()));
        let rest = visited.drop_last();
        assert forall|i: int| 0 <= i < rest.len() implies h1.has(#[trigger] rest[i]) by {
            assert(rest[i] == visited[i]);
        }
        lemma_mature_of_same(h1, h2, rest);
    }
}

/// All seeds of a trace so far: those in the packets that were handed over, and those that were
/// not.
pub open spec fn all_seeds(p: BactrianNurseryProcessEdges, out: TraceOutput) -> Seq<usize> {
    flattened(out.seeds@) + p.mark_seed@
}

/// The seeds that meeting the objects of `visited` gives: all that are not in the nursery, if the
/// pause starts a marking cycle.
pub open spec fn seeds_of(pause: Pause, h: TraceHeap, visited: Seq<usize>) -> Seq<usize> {
    if pause == Pause::InitialMark {
        mature_of(h, visited)
    } else {
        Seq::empty()
    }
}

/// The objects among `loaded`, in their order.
pub open spec fn present(loaded: Seq<Option<usize>>) -> Seq<usize>
    decreases loaded.len(),
{
    if loaded.len() == 0 {
        Seq::empty()
    } else {
        match loaded.last() {
            Some(o) => present(loaded.drop_last()).push(o),
            None => present(loaded.drop_last()),
        }
    }
}

proof fn lemma_present_add(a: Seq<Option<usize>>, b: Seq<Option<usize>>)
    ensures
        present(a + b) == present(a) + present(b),
    decreases b.len(),
{
    if b.len() == 0 {
        assert(a + b =~= a);
        assert(present(a) + present(b) =~= present(a));
    } else {
        lemma_present_add(a, b.drop_last());
        assert((a + b).drop_last() =~= a + b.drop_last());
        assert(present(a + b) =~= present(a) + present(b));
    }
}

/// Whether `loaded` is what the slots of `list` refer to as they are processed, in that order, each
/// once:
///
/// * a slot is loaded as a reference to what it refers to in the end, or to the object that was
///   copied there;
/// * a slot that was processed before is loaded as what it refers to in the end, and any other, if it
///   was there, as what it referred to at first;
/// * a slot of a copy is loaded as what the slot for which it was made referred to at first, unless
///   that one was processed too; and it refers to that as long as it is not processed.
pub open spec fn loads(
    h0: TraceHeap,
    h1: TraceHeap,
    list: Seq<usize>,
    loaded: Seq<Option<usize>>,
) -> bool {
    &&& loaded.len() == list.len()
    &&& forall|k: int|
        0 <= k < list.len() ==> h1.resolved(#[trigger] loaded[k]) == h1.word(list[k])
            && (loaded[k] matches Some(o) ==> h1.has(o))
    &&& forall|k: int|
        0 <= k < list.len() && list.take(k).contains(list[k]) ==> #[trigger] loaded[k] == h1.word(
            list[k],
        )
    &&& forall|k: int|
        0 <= k < list.len() && list[k] < h0.words@.len() && !list.take(k).contains(list[k])
            ==> #[trigger] loaded[k] == h0.word(list[k])
    &&& forall|k: int, t: usize|
        0 <= k < list.len() && #[trigger] h1.copied_slot(h0, t, list[k]) && !list.contains(t)
            && !list.take(k).contains(list[k]) ==> loaded[k] == h0.word(t)
    &&& forall|t: usize, s: usize| #[trigger]
        h1.copied_slot(h0, t, s) && !list.contains(t) && !list.contains(s) ==> h1.word(s)
            == h0.word(t)
}

proof fn lemma_loads_none(h0: TraceHeap, h1: TraceHeap)
    requires
        forall|o: usize| #[trigger] h0.has(o) ==> h1.object(o).forward == h0.object(o).forward,
    ensures
        loads(h0, h1, Seq::empty(), Seq::empty()),
{
    trace_heap::lemma_no_copied_slot(h0, h1);
}

/// A processed slot is loaded alike when more is processed later.
proof fn lemma_loads_stays(
    pause: Pause,
    h1: TraceHeap,
    h2: TraceHeap,
    list2: Seq<usize>,
    s: usize,
    v: Option<usize>,
)
    requires
        h1.wf(),
        h2.wf(),
        h2.grown_from(h1),
        s < h1.words@.len(),
        h1.word(s) matches Some(x) ==> h1.done(pause, x),
        !list2.contains(s) ==> h2.word(s) == h1.word(s),
        list2.contains(s) ==> (h2.word(s) matches Some(y) ==> h2.done(pause, y)),
        h1.resolved(v) == h1.word(s),
        v matches Some(o) ==> h1.has(o),
    ensures
        h2.word(s) == h1.word(s),
        h2.resolved(v) == h2.word(s),
        v matches Some(o) ==> h2.has(o),
{
    if let Some(x) = h1.word(s) {
        lemma_word_stays(pause, h1, h2, list2, s, x);
        trace_heap::lemma_now_again(h1, h2, v->0);
    } else {
        assert(h2.resolved(h2.word(s)) == h2.resolved(h1.word(s)));
    }
}

/// Slots that are processed one after the other are loaded one after the other.
proof fn lemma_loads_add(
    pause: Pause,
    h0: TraceHeap,
    h1: TraceHeap,
    h2: TraceHeap,
    list1: Seq<usize>,
    list2: Seq<usize>,
    loaded1: Seq<Option<usize>>,
    loaded2: Seq<Option<usize>>,
)
    requires
        h0.wf(),
        h1.wf(),
        h2.wf(),
        h1.grown_from(h0),
        h2.grown_from(h1),
        loads(h0, h1, list1, loaded1),
        loads(h1, h2, list2, loaded2),
        forall|s: usize|
            s < h0.words@.len() && !list1.contains(s) ==> #[trigger] h1.word(s) == h0.word(s),
        forall|s: usize|
            s < h1.words@.len() && !list2.contains(s) ==> #[trigger] h2.word(s) == h1.word(s),
        forall|s: usize| #[trigger]
            list1.contains(s) ==> s < h1.words@.len() && (h1.word(s) matches Some(x) ==> h1.done(
                pause,
                x,
            )),
        forall|s: usize| #[trigger]
            list2.contains(s) ==> s < h2.words@.len() && (h2.word(s) matches Some(x) ==> h2.done(
                pause,
                x,
            )),
    ensures
        loads(h0, h2, list1 + list2, loaded1 + loaded2),
{
    let list = list1 + list2;
    let loaded = loaded1 + loaded2;
    let n = list1.len() as int;
    assert forall|s: usize| #[trigger]
        list.contains(s) == (list1.contains(s) || list2.contains(s)) by {
        lemma_contains_add(list1, list2, s);
    }
    assert forall|k: int| n <= k < list.len() implies #[trigger] list.take(k) == list1 + list2.take(
        k - n,
    ) by {
        assert(list.take(k) =~= list1 + list2.take(k - n));
    }
    assert forall|k: int| 0 <= k <= n implies #[trigger] list.take(k) == list1.take(k) by {
        assert(list.take(k) =~= list1.take(k));
    }
    assert forall|k: int| n <= k < list.len() implies list.take(k).contains(list[k]) == (
    list1.contains(list[k]) || list2.take(k - n).contains(list[k])) && #[trigger] loaded[k]
        == loaded2[k - n] && list[k] == list2[k - n] by {
        assert(list.take(k) == list1 + list2.take(k - n));
        lemma_contains_add(list1, list2.take(k - n), list[k]);
    }
    assert forall|k: int| 0 <= k < n implies #[trigger] loaded[k] == loaded1[k] && list[k]
        == list1[k] && list.take(k) == list1.take(k) && h2.word(list[k]) == h1.word(list[k])
        && h2.resolved(loaded[k]) == h2.word(list[k]) && (loaded[k] matches Some(o) ==> h2.has(
        o,
    )) by {
        assert(list1.contains(list1[k]));
        assert(h1.resolved(loaded1[k]) == h1.word(list1[k]));
        lemma_loads_stays(pause, h1, h2, list2, list1[k], loaded1[k]);
    }
    assert forall|k: int| 0 <= k < list.len() implies h2.resolved(#[trigger] loaded[k]) == h2.word(
        list[k],
    ) && (loaded[k] matches Some(o) ==> h2.has(o)) by {
        if k >= n {
            assert(loaded[k] == loaded2[k - n]);
        }
    }
    assert forall|k: int| 0 <= k < list.len() && list.take(k).contains(list[k]) implies #[trigger]
    loaded[k] == h2.word(list[k]) by {
        if k < n {
            assert(loaded[k] == loaded1[k]);
        } else {
            let s = list2[k - n];
            assert(loaded[k] == loaded2[k - n]);
            if !list2.take(k - n).contains(s) {
                assert(list1.contains(s));
                assert(loaded2[k - n] == h1.word(s));
                let j = list1.index_of(s);
                assert(loaded[j] == loaded1[j]);
                assert(list[j] == s);
            }
        }
    }
    assert forall|k: int|
        0 <= k < list.len() && list[k] < h0.words@.len() && !list.take(k).contains(list[k])
        implies #[trigger] loaded[k] == h0.word(list[k]) by {
        if k < n {
            assert(loaded[k] == loaded1[k]);
        } else {
            let s = list2[k - n];
            assert(loaded[k] == loaded2[k - n]);
            assert(!list1.contains(s));
            assert(h1.word(s) == h0.word(s));
        }
    }
    assert forall|k: int, t: usize|
        0 <= k < list.len() && #[trigger] h2.copied_slot(h0, t, list[k]) && !list.contains(t)
            && !list.take(k).contains(list[k]) implies loaded[k] == h0.word(t) by {
        let s = list[k];
        trace_heap::lemma_copied_slot_split(h0, h1, h2, t, s);
        if k < n {
            assert(loaded[k] == loaded1[k]);
            assert(list1.contains(list1[k]));
            assert(h1.copied_slot(h0, t, list1[k]));
        } else {
            assert(loaded[k] == loaded2[k - n]);
            assert(!list1.contains(s));
            if s < h1.words@.len() {
                assert(loaded2[k - n] == h1.word(list2[k - n]));
            } else {
                assert(h2.copied_slot(h1, t, list2[k - n]));
                assert(h1.word(t) == h0.word(t));
            }
        }
    }
    assert forall|t: usize, s: usize| #[trigger]
        h2.copied_slot(h0, t, s) && !list.contains(t) && !list.contains(s) implies h2.word(s)
        == h0.word(t) by {
        trace_heap::lemma_copied_slot_split(h0, h1, h2, t, s);
        if s < h1.words@.len() {
            assert(h1.copied_slot(h0, t, s));
            assert(h2.word(s) == h1.word(s));
        } else {
            assert(h2.copied_slot(h1, t, s));
            assert(h1.word(t) == h0.word(t));
        }
    }
}

/// Whether the packets of `b` are those of `a` and then more, each of which is full.
pub open spec fn full_packets(a: Seq<Vec<usize>>, b: Seq<Vec<usize>>) -> bool {
    &&& more_packets(a, b)
    &&& forall|i: int| a.len() <= i < b.len() ==> (#[trigger] b[i])@.len() == SEED_CAPACITY
}

/// Whether the packets of `b` are those of `a` and then more, each of which, but maybe the last, is
/// full.
pub open spec fn cut_packets(a: Seq<Vec<usize>>, b: Seq<Vec<usize>>) -> bool {
    &&& more_packets(a, b)
    &&& forall|i: int|
        a.len() <= i < b.len() ==> if i + 1 < b.len() {
            (#[trigger] b[i])@.len() == SEED_CAPACITY
        } else {
            b[i]@.len() <= SEED_CAPACITY
        }
}

/// Whether meeting `object` takes the seeds from those of the first trace and output to those of the
/// second. In the pause that starts a marking cycle, an object that is not in the nursery becomes a
/// seed. All seeds go out as one packet when there are enough, and wait otherwise.
pub open spec fn seeded(
    p0: BactrianNurseryProcessEdges,
    p1: BactrianNurseryProcessEdges,
    h: TraceHeap,
    out0: TraceOutput,
    out1: TraceOutput,
    object: usize,
) -> bool {
    let all = p0.mark_seed@.push(object);
    if p0.pause == Pause::InitialMark && !h.is_nursery(object) {
        if all.len() >= SEED_CAPACITY {
            &&& p1.mark_seed@.len() == 0
            &&& out1.seeds@.len() == out0.seeds@.len() + 1
            &&& out1.seeds@.drop_last() == out0.seeds@
            &&& out1.seeds@.last()@ == all
        } else {
            &&& p1.mark_seed@ == all
            &&& out1.seeds@ == out0.seeds@
        }
    } else {
        &&& p1.mark_seed@ == p0.mark_seed@
        &&& out1.seeds@ == out0.seeds@
    }
}

/// Whether the packets of `b` are those of `a` and then more, none of which is empty.
pub open spec fn more_packets(a: Seq<Vec<usize>>, b: Seq<Vec<usize>>) -> bool {
    &&& a.len() <= b.len()
    &&& forall|i: int| 0 <= i < a.len() ==> #[trigger] b[i] == a[i]
    &&& forall|i: int| a.len() <= i < b.len() ==> (#[trigger] b[i])@.len() > 0
}

/// Redirecting a slot to where its object is now keeps what was done to the heap.
proof fn lemma_store(h0: TraceHeap, h1: TraceHeap, h2: TraceHeap, s: usize, object: usize)
    requires
        h0.wf(),
        h1.wf(),
        h1.grown_from(h0),
        s < h0.words@.len(),
        h0.word(s) == Some(object),
        h2.objects == h1.objects,
        h2.words@ == h1.words@.update(s as int, Some(h1.now(object))),
    ensures
        h2.wf(),
        h2.grown_from(h0),
{
    assert(h0.has(object));
    assert(h1.has(object));
    let r = h1.now(object);
    assert(h1.has(r));
    assert(h1.object(r).forward is None);
    assert(h2.word(s) == Some(r));
    assert forall|t: usize| t != s && t < h1.words@.len() implies #[trigger] h2.word(t) == h1.word(
        t,
    ) by {}
    assert forall|v: Option<usize>| #[trigger] h2.resolved(v) == h1.resolved(v) by {}
    assert forall|t: usize| t < h0.words@.len() implies h2.resolved(#[trigger] h2.word(t))
        == h2.resolved(h0.word(t)) by {
        assert(h1.resolved(h1.word(t)) == h1.resolved(h0.word(t)));
    }
    assert forall|o: usize, c: usize|
        h1.copy_of(h0, o, c) implies #[trigger] h2.copy_of(h0, o, c) by {
        assert forall|i: int| 0 <= i < h2.slots_of(c).len() implies {
            &&& h0.words@.len() <= #[trigger] h2.slots_of(c)[i] < h2.words@.len()
            &&& h2.resolved(h2.word(h2.slots_of(c)[i])) == h2.resolved(h0.word(h0.slots_of(o)[i]))
        } by {
            assert(h1.slots_of(c)[i] == h2.slots_of(c)[i]);
        }
    }
    assert forall|t: usize| t < h2.words@.len() implies (#[trigger] h2.word(t) matches Some(
        x,
    ) ==> h2.has(x)) by {
        if t != s {
            assert(h1.word(t) matches Some(x) ==> h1.has(x));
        }
    }
    assert forall|o: usize, i: int|
        h2.has(o) && 0 <= i < h2.slots_of(o).len() implies #[trigger] h2.slots_of(o)[i]
        < h2.words@.len() by {
        assert(h1.slots_of(o)[i] < h1.words@.len());
    }
    assert forall|o: usize| #[trigger] h2.has(o) implies (h2.object(o).forward matches Some(
        copy,
    ) ==> {
        &&& h2.is_nursery(o)
        &&& h2.has(copy)
        &&& h2.object(copy).space == ObjectSpace::Mature
        &&& h2.object(copy).marked
    }) by {
        assert(h1.has(o));
    }
    assert forall|c: usize| h0.objects@.len() <= c && #[trigger] h2.has(c) implies {
        &&& h2.object(c).space == ObjectSpace::Mature
        &&& h2.object(c).marked
        &&& h2.object(c).forward is None
        &&& exists|o: usize| #[trigger]
            h0.has(o) && h0.object(o).forward is None && h2.object(o).forward == Some(c)
    } by {
        assert(h1.has(c));
        let o = choose|o: usize| #[trigger]
            h0.has(o) && h0.object(o).forward is None && h1.object(o).forward == Some(c);
        assert(h0.has(o) && h2.object(o).forward == Some(c));
    }
    assert forall|a: usize, b: usize, i: int, j: int|
        h0.objects@.len() <= a && h0.objects@.len() <= b && h2.has(a) && h2.has(b) && 0 <= i
            < h2.slots_of(a).len() && 0 <= j < h2.slots_of(b).len() && (a != b || i != j)
        implies #[trigger] h2.slots_of(a)[i] != #[trigger] h2.slots_of(b)[j] by {
        assert(h1.has(a) && h1.has(b));
        assert(h1.slots_of(a)[i] != h1.slots_of(b)[j]);
    }
}

impl BactrianNurseryProcessEdges {
    /// A trace from `slots`, in a pause of the given kind.
    pub fn new(slots: Vec<usize>, current_pause: Option<Pause>) -> (p: Self)
        ensures
            p.slots == slots,
            p.pause == (match current_pause {
                Some(pause) => pause,
                None => Pause::Nursery,
            }),
            p.nodes@.len() == 0,
            p.mark_seed@.len() == 0,
            p.enqueued@.len() == 0,
            p.visited@.len() == 0,
            p.loaded@.len() == 0,
    {
        let pause = match current_pause {
            Some(pause) => pause,
            None => Pause::Nursery,
        };
        BactrianNurseryProcessEdges {
            slots,
            pause,
            nodes: Vec::new(),
            mark_seed: Vec::new(),
            enqueued: Ghost(Seq::empty()),
            visited: Ghost(Seq::empty()),
            loaded: Ghost(Seq::empty()),
        }
    }

    /// Hand the seeds over as a packet, if there are any.
    pub fn flush_mark_seed(&mut self, out: &mut TraceOutput)
        ensures
            *final(self) == (BactrianNurseryProcessEdges {
                mark_seed: final(self).mark_seed,
                ..*old(self)
            }),
            final(self).mark_seed@.len() == 0,
            final(out).scans == old(out).scans,
            more_packets(old(out).seeds@, final(out).seeds@),
            all_seeds(*final(self), *final(out)) == all_seeds(*old(self), *old(out)),
            old(self).mark_seed@.len() == 0 ==> final(out).seeds@ == old(out).seeds@,
            old(self).mark_seed@.len() > 0 ==> final(out).seeds@.len() == old(out).seeds@.len() + 1
                && final(out).seeds@.drop_last() == old(out).seeds@ && final(out).seeds@.last()@ == old(self).mark_seed@,
    {
        if self.mark_seed.len() != 0 {
            let mut objects: Vec<usize> = Vec::new();
            std::mem::swap(&mut objects, &mut self.mark_seed);
            out.seeds.push(objects);
            proof {
                assert(out.seeds@.drop_last() =~= old(out).seeds@);
                assert(all_seeds(*self, *out) =~= all_seeds(*old(self), *old(out)));
            }
        } else {
            assert(self.mark_seed@ =~= old(self).mark_seed@);
        }
    }

    /// Trace an object: copy it out of the nursery, or promote it if it is large and young, unless
    /// that was done before. A mature object becomes a seed, or is marked, as the pause asks for.
    /// Returns where the object is now.
    pub fn trace_object(
        &mut self,
        object: usize,
        heap: &mut TraceHeap,
        out: &mut TraceOutput,
    ) -> (new_object: usize)
        requires
            old(heap).wf(),
            old(heap).has(object),
            old(self).mark_seed@.len() < SEED_CAPACITY,
        ensures
            final(heap).wf(),
            final(heap).grown_from(*old(heap)),
            match old(heap).objects@[object as int].space {
                ObjectSpace::Nursery => match old(heap).objects@[object as int].forward {
                    Some(copy) => {
                        &&& new_object == copy
                        &&& final(heap).objects@ == old(heap).objects@
                        &&& final(self).nodes@ == old(self).nodes@
                    },
                    None => {
                        &&& new_object == old(heap).objects@.len()
                        &&& final(heap).objects@.len() == old(heap).objects@.len() + 1
                        &&& final(heap).objects@[object as int].forward == Some(new_object)
                        &&& final(self).nodes@ == old(self).nodes@.push(new_object)
                    },
                },
                ObjectSpace::YoungLarge => {
                    &&& new_object == object
                    &&& final(heap).objects@.len() == old(heap).objects@.len()
                    &&& final(heap).objects@[object as int].space == ObjectSpace::Large
                    &&& final(heap).objects@[object as int].marked
                    &&& final(self).nodes@ == old(self).nodes@.push(object)
                },
                _ => {
                    &&& new_object == object
                    &&& final(heap).objects@.len() == old(heap).objects@.len()
                    &&& final(heap).objects@[object as int].marked == (
                    old(heap).objects@[object as int].marked || old(self).pause == Pause::FinalMark)
                    &&& old(self).pause == Pause::FinalMark && !old(heap).objects@[object as int].marked
                        ==> final(self).nodes@ == old(self).nodes@.push(object)
                    &&& old(self).pause != Pause::FinalMark || old(heap).objects@[object as int].marked
                        ==> final(self).nodes@ == old(self).nodes@ && final(heap).objects@
                        == old(heap).objects@
                },
            },
            new_object == final(heap).now(object),
            final(heap).done(old(self).pause, new_object),
            forall|s: usize|
                s < old(heap).words@.len() ==> #[trigger] final(heap).word(s) == old(heap).word(s),
            final(self).slots == old(self).slots,
            final(self).pause == old(self).pause,
            final(self).mark_seed@.len() < SEED_CAPACITY,
            final(self).visited@ == old(self).visited@.push(object),
            final(self).loaded@ == old(self).loaded@,
            forall|t: usize, s: usize| #[trigger]
                final(heap).copied_slot(*old(heap), t, s) ==> final(heap).word(s) == old(heap).word(
                    t,
                ),
            seeded(*old(self), *final(self), *old(heap), *old(out), *final(out), object),
            discovered(old(self).pause, *old(heap), *final(heap), new_object) ==> final(self).nodes@ == old(self).nodes@.push(new_object) && final(self).enqueued@ == old(self).enqueued@.push(new_object) && trace_heap::potential(
                old(self).pause,
                final(heap).objects@,
            ) + 1 <= trace_heap::potential(old(self).pause, old(heap).objects@),
            !discovered(old(self).pause, *old(heap), *final(heap), new_object) ==> final(self).nodes@ == old(self).nodes@ && final(self).enqueued@ == old(self).enqueued@
                && final(heap).objects@ == old(heap).objects@,
            forall|x: usize|
                x != new_object ==> !#[trigger] discovered(
                    old(self).pause,
                    *old(heap),
                    *final(heap),
                    x,
                ),
            forall|o: usize| #[trigger]
                old(heap).has(o) ==> final(heap).object(o).marked == (old(heap).object(o).marked
                    || (o == new_object && discovered(
                    old(self).pause,
                    *old(heap),
                    *final(heap),
                    new_object,
                ))),
            forall|o: usize| #[trigger]
                final(heap).has(o) ==> final(heap).object(o).scanned == (old(heap).has(o) && old(heap).object(o).scanned),
            final(out).scans == old(out).scans,
            full_packets(old(out).seeds@, final(out).seeds@),
            all_seeds(*final(self), *final(out)) == all_seeds(*old(self), *old(out)) + seeds_of(
                old(self).pause,
                *old(heap),
                seq![object],
            ),
    {
        let ghost h0 = *heap;
        let ghost pause = self.pause;
        proof {
            self.visited@ = self.visited@.push(object);
            assert(seq![object].drop_last() =~= Seq::<usize>::empty());
            assert(mature_of(h0, Seq::<usize>::empty()) =~= Seq::empty());
        }
        let space = heap.objects[object].space;
        proof {
            trace_heap::lemma_no_copied_slot(h0, h0);
        }
        let new_object: usize = match space {
            ObjectSpace::Nursery => match heap.objects[object].forward {
                Some(copy) => {
                    assert(heap.has(object));
                    copy
                },
                None => {
                    let copy = heap.copy(object);
                    self.nodes.push(copy);
                    proof {
                        self.enqueued@ = self.enqueued@.push(copy);
                        assert forall|x: usize| x != copy implies !#[trigger] discovered(
                            pause,
                            h0,
                            *heap,
                            x,
                        ) by {
                            if h0.has(x) && x != object {
                                assert(heap.object(x) == h0.object(x));
                            }
                        }
                        assert(heap.has(copy));
                    }
                    copy
                },
            },
            ObjectSpace::YoungLarge => {
                heap.objects[object].space = ObjectSpace::Large;
                heap.objects[object].marked = true;
                self.nodes.push(object);
                proof {
                    self.enqueued@ = self.enqueued@.push(object);
                    assert(heap.objects@ =~= h0.objects@.update(
                        object as int,
                        TracedObject {
                            space: ObjectSpace::Large,
                            marked: true,
                            ..h0.object(object)
                        },
                    ));
                    lemma_object_changed(pause, h0, *heap, object);
                }
                object
            },
            _ => object,
        };
        if new_object == object && !matches!(space, ObjectSpace::Nursery) {
            match self.pause {
                Pause::InitialMark => {
                    self.mark_seed.push(object);
                    proof {
                        assert(all_seeds(*self, *out) =~= all_seeds(*old(self), *old(out)) + seq![
                            object,
                        ]);
                        assert(mature_of(h0, seq![object]) =~= seq![object]);
                    }
                    if self.mark_seed.len() >= SEED_CAPACITY {
                        self.flush_mark_seed(out);
                    }
                },
                Pause::FinalMark => {
                    if !heap.objects[object].marked {
                        let ghost h1 = *heap;
                        assert(h1 == h0);
                        heap.objects[object].marked = true;
                        self.nodes.push(object);
                        proof {
                            self.enqueued@ = self.enqueued@.push(object);
                            assert(heap.objects@ =~= h0.objects@.update(
                                object as int,
                                TracedObject { marked: true, ..h0.object(object) },
                            ));
                            lemma_object_changed(pause, h0, *heap, object);
                        }
                    }
                },
                _ => {},
            }
        }
        proof {
            assert(all_seeds(*self, *out) =~= all_seeds(*old(self), *old(out)) + seeds_of(
                pause,
                h0,
                seq![object],
            ));
        }
        new_object
    }
}

/// Promoting or marking one object out of the nursery.
proof fn lemma_object_changed(pause: Pause, h0: TraceHeap, h1: TraceHeap, o: usize)
    requires
        h0.wf(),
        h0.has(o),
        !h0.is_nursery(o),
        trace_heap::pending(pause, h0.object(o)),
        h1.words == h0.words,
        h1.objects@ == h0.objects@.update(
            o as int,
            TracedObject {
                space: if h0.object(o).space == ObjectSpace::YoungLarge {
                    ObjectSpace::Large
                } else {
                    h0.object(o).space
                },
                marked: true,
                ..h0.object(o)
            },
        ),
    ensures
        h1.wf(),
        h1.grown_from(h0),
        h1.now(o) == o,
        h1.done(pause, o),
        forall|x: usize| #[trigger] discovered(pause, h0, h1, x) <==> x == o,
        trace_heap::potential(pause, h1.objects@) + 1 == trace_heap::potential(pause, h0.objects@),
        forall|t: usize, s: usize| !#[trigger] h1.copied_slot(h0, t, s),
{
    trace_heap::lemma_potential_update(pause, h0.objects@, o as int, h1.object(o));
    assert forall|x: usize| h0.has(x) && x != o implies #[trigger] h1.object(x) == h0.object(
        x,
    ) by {}
    trace_heap::lemma_no_copied_slot(h0, h1);
    assert(h0.object(o).forward is None);
    assert forall|v: Option<usize>| v is Some ==> h0.has(v->0) implies #[trigger] h1.resolved(v)
        == h0.resolved(v) by {}
    assert forall|x: usize, i: int|
        h1.has(x) && 0 <= i < h1.slots_of(x).len() implies #[trigger] h1.slots_of(x)[i]
        < h1.words@.len() by {
        assert(h0.slots_of(x)[i] < h0.words@.len());
    }
    assert forall|x: usize| #[trigger] h1.has(x) implies (h1.object(x).forward matches Some(
        copy,
    ) ==> {
        &&& h1.is_nursery(x)
        &&& h1.has(copy)
        &&& h1.object(copy).space == ObjectSpace::Mature
        &&& h1.object(copy).marked
    }) by {
        assert(h0.has(x));
    }
    assert forall|s: usize| s < h1.words@.len() implies (#[trigger] h1.word(s) matches Some(
        x,
    ) ==> h1.has(x)) by {
        assert(h0.word(s) matches Some(x) ==> h0.has(x));
    }
    assert forall|x: usize| #[trigger] discovered(pause, h0, h1, x) <==> x == o by {
        if h0.has(x) && x != o {
            assert(h1.object(x) == h0.object(x));
        }
    }
}

/// What a trace does when it processes the slots `list`, each once, and scans the objects `scans`; but
/// for how its seeds are cut into packets.
pub open spec fn advanced(
    p0: BactrianNurseryProcessEdges,
    p1: BactrianNurseryProcessEdges,
    h0: TraceHeap,
    h1: TraceHeap,
    out0: TraceOutput,
    out1: TraceOutput,
    list: Seq<usize>,
    scans: Seq<usize>,
) -> bool {
    let enqueued = p1.enqueued@.skip(p0.enqueued@.len() as int);
    let visited = p1.visited@.skip(p0.visited@.len() as int);
    let loaded = p1.loaded@.skip(p0.loaded@.len() as int);
    &&& p1.slots == p0.slots
    &&& p1.pause == p0.pause
    &&& p1.enqueued@ == p0.enqueued@ + enqueued
    &&& p1.visited@ == p0.visited@ + visited
    &&& p1.loaded@ == p0.loaded@ + loaded
    &&& traced(p0.pause, h0, h1, list, scans, enqueued, visited)
    &&& loads(h0, h1, list, loaded)
    &&& visited == present(loaded)
    &&& out1.scans == out0.scans
    &&& all_seeds(p1, out1) == all_seeds(p0, out0) + seeds_of(p0.pause, h1, visited)
}

/// What a trace does when it processes the slots `list`, each once, and scans the objects `scans`. The
/// packets of seeds that it hands over are full; the other seeds wait.
pub open spec fn progressed(
    p0: BactrianNurseryProcessEdges,
    p1: BactrianNurseryProcessEdges,
    h0: TraceHeap,
    h1: TraceHeap,
    out0: TraceOutput,
    out1: TraceOutput,
    list: Seq<usize>,
    scans: Seq<usize>,
) -> bool {
    &&& advanced(p0, p1, h0, h1, out0, out1, list, scans)
    &&& p1.mark_seed@.len() < SEED_CAPACITY
    &&& full_packets(out0.seeds@, out1.seeds@)
}

/// The objects that the trace came upon between `p0` and `p1`.
pub open spec fn found(
    p0: BactrianNurseryProcessEdges,
    p1: BactrianNurseryProcessEdges,
) -> Seq<usize> {
    p1.enqueued@.skip(p0.enqueued@.len() as int)
}

/// The slots of `objects`, in their order.
pub open spec fn fields_of(h: TraceHeap, objects: Seq<usize>) -> Seq<usize>
    decreases objects.len(),
{
    if objects.len() == 0 {
        Seq::empty()
    } else {
        fields_of(h, objects.drop_last()) + h.slots_of(objects.last())
    }
}

/// The object at position `i` is referred to by a slot of one before it.
pub open spec fn linked(h: TraceHeap, objects: Seq<usize>, i: int) -> bool {
    exists|j: int| 0 <= j < i && referenced(h, h.slots_of(#[trigger] objects[j]), objects[i])
}

/// Each of `objects`, from position `from` on, is referred to by a slot of one before it.
pub open spec fn chained(h: TraceHeap, objects: Seq<usize>, from: int) -> bool {
    forall|i: int| from <= i < objects.len() ==> #[trigger] linked(h, objects, i)
}

/// Whether each of `objects` names an object.
pub open spec fn all_there(h: TraceHeap, objects: Seq<usize>) -> bool {
    forall|i: int| 0 <= i < objects.len() ==> h.has(#[trigger] objects[i])
}

proof fn lemma_progressed_none(
    p: BactrianNurseryProcessEdges,
    h: TraceHeap,
    out: TraceOutput,
)
    requires
        h.wf(),
        p.mark_seed@.len() < SEED_CAPACITY,
    ensures
        progressed(p, p, h, h, out, out, Seq::empty(), Seq::empty()),
        found(p, p) == Seq::<usize>::empty(),
{
    let none = Seq::<usize>::empty();
    assert(p.enqueued@.skip(p.enqueued@.len() as int) =~= none);
    assert(p.visited@.skip(p.visited@.len() as int) =~= none);
    assert(p.enqueued@ =~= p.enqueued@ + none);
    assert(p.visited@ =~= p.visited@ + none);
    assert(mature_of(h, none) =~= none);
    assert(all_seeds(p, out) =~= all_seeds(p, out) + none);
    let no_loads = Seq::<Option<usize>>::empty();
    assert(p.loaded@.skip(p.loaded@.len() as int) =~= no_loads);
    assert(p.loaded@ =~= p.loaded@ + no_loads);
    assert(present(no_loads) =~= none);
    lemma_loads_none(h, h);
    lemma_traced_none(p.pause, h);
}

proof fn lemma_advanced_add(
    p0: BactrianNurseryProcessEdges,
    p1: BactrianNurseryProcessEdges,
    p2: BactrianNurseryProcessEdges,
    h0: TraceHeap,
    h1: TraceHeap,
    h2: TraceHeap,
    out0: TraceOutput,
    out1: TraceOutput,
    out2: TraceOutput,
    list1: Seq<usize>,
    list2: Seq<usize>,
    scans1: Seq<usize>,
    scans2: Seq<usize>,
)
    requires
        h0.wf(),
        h1.wf(),
        h2.wf(),
        advanced(p0, p1, h0, h1, out0, out1, list1, scans1),
        advanced(p1, p2, h1, h2, out1, out2, list2, scans2),
        forall|o: usize| #[trigger] scans1.contains(o) ==> h1.has(o),
    ensures
        advanced(p0, p2, h0, h2, out0, out2, list1 + list2, scans1 + scans2),
        found(p0, p2) == found(p0, p1) + found(p1, p2),
{
    let e1 = p1.enqueued@.skip(p0.enqueued@.len() as int);
    let e2 = p2.enqueued@.skip(p1.enqueued@.len() as int);
    let v1 = p1.visited@.skip(p0.visited@.len() as int);
    let v2 = p2.visited@.skip(p1.visited@.len() as int);
    assert(p2.enqueued@.skip(p0.enqueued@.len() as int) =~= e1 + e2);
    assert(p2.visited@.skip(p0.visited@.len() as int) =~= v1 + v2);
    assert(p2.enqueued@ =~= p0.enqueued@ + (e1 + e2));
    assert(p2.visited@ =~= p0.visited@ + (v1 + v2));
    lemma_traced_add(
        p0.pause,
        h0,
        h1,
        h2,
        list1,
        list2,
        scans1,
        scans2,
        e1,
        e2,
        v1,
        v2,
    );
    lemma_mature_of_same(h1, h2, v1);
    lemma_mature_of_add(h2, v1, v2);
    assert(all_seeds(p2, out2) =~= all_seeds(p0, out0) + seeds_of(p0.pause, h2, v1 + v2));
    let l1 = p1.loaded@.skip(p0.loaded@.len() as int);
    let l2 = p2.loaded@.skip(p1.loaded@.len() as int);
    assert(p2.loaded@.skip(p0.loaded@.len() as int) =~= l1 + l2);
    assert(p2.loaded@ =~= p0.loaded@ + (l1 + l2));
    lemma_loads_add(p0.pause, h0, h1, h2, list1, list2, l1, l2);
    lemma_present_add(l1, l2);
}

proof fn lemma_progressed_add(
    p0: BactrianNurseryProcessEdges,
    p1: BactrianNurseryProcessEdges,
    p2: BactrianNurseryProcessEdges,
    h0: TraceHeap,
    h1: TraceHeap,
    h2: TraceHeap,
    out0: TraceOutput,
    out1: TraceOutput,
    out2: TraceOutput,
    list1: Seq<usize>,
    list2: Seq<usize>,
    scans1: Seq<usize>,
    scans2: Seq<usize>,
)
    requires
        h0.wf(),
        h1.wf(),
        h2.wf(),
        progressed(p0, p1, h0, h1, out0, out1, list1, scans1),
        progressed(p1, p2, h1, h2, out1, out2, list2, scans2),
        forall|o: usize| #[trigger] scans1.contains(o) ==> h1.has(o),
    ensures
        progressed(p0, p2, h0, h2, out0, out2, list1 + list2, scans1 + scans2),
        found(p0, p2) == found(p0, p1) + found(p1, p2),
{
    lemma_advanced_add(
        p0,
        p1,
        p2,
        h0,
        h1,
        h2,
        out0,
        out1,
        out2,
        list1,
        list2,
        scans1,
        scans2,
    );
    lemma_full_packets_add(out0.seeds@, out1.seeds@, out2.seeds@);
}

proof fn lemma_full_packets_add(a: Seq<Vec<usize>>, b: Seq<Vec<usize>>, c: Seq<Vec<usize>>)
    requires
        full_packets(a, b),
    ensures
        full_packets(b, c) ==> full_packets(a, c),
        cut_packets(b, c) ==> cut_packets(a, c),
{
    if more_packets(b, c) {
        assert forall|i: int| 0 <= i < a.len() implies #[trigger] c[i] == a[i] by {
            assert(b[i] == a[i]);
        }
        assert forall|i: int| a.len() <= i < b.len() implies (#[trigger] c[i])@.len()
            == SEED_CAPACITY by {
            assert(c[i] == b[i]);
        }
    }
}

/// Noting that an object was scanned.
proof fn lemma_scanned(
    p: BactrianNurseryProcessEdges,
    h0: TraceHeap,
    h1: TraceHeap,
    out: TraceOutput,
    o: usize,
)
    requires
        h0.wf(),
        h0.has(o),
        h1.words == h0.words,
        h1.objects@ == h0.objects@.update(
            o as int,
            TracedObject { scanned: true, ..h0.object(o) },
        ),
        p.mark_seed@.len() < SEED_CAPACITY,
    ensures
        h1.wf(),
        progressed(p, p, h0, h1, out, out, Seq::empty(), seq![o]),
        found(p, p) == Seq::<usize>::empty(),
{
    let none = Seq::<usize>::empty();
    lemma_progressed_none(p, h0, out);
    assert forall|x: usize| x != o && h0.has(x) implies #[trigger] h1.object(x) == h0.object(
        x,
    ) by {}
    assert forall|x: usize, i: int|
        h1.has(x) && 0 <= i < h1.slots_of(x).len() implies #[trigger] h1.slots_of(x)[i]
        < h1.words@.len() by {
        assert(h0.slots_of(x)[i] < h0.words@.len());
    }
    assert forall|s: usize| s < h1.words@.len() implies (#[trigger] h1.word(s) matches Some(
        x,
    ) ==> h1.has(x)) by {
        assert(h0.word(s) matches Some(x) ==> h0.has(x));
    }
    assert forall|x: usize| #[trigger] h1.has(x) implies (h1.object(x).forward matches Some(
        copy,
    ) ==> {
        &&& h1.is_nursery(x)
        &&& h1.has(copy)
        &&& h1.object(copy).space == ObjectSpace::Mature
        &&& h1.object(copy).marked
    }) by {
        assert(h0.has(x));
    }
    assert forall|v: Option<usize>| v is Some ==> h0.has(v->0) implies #[trigger] h1.resolved(v)
        == h0.resolved(v) by {}
    trace_heap::lemma_potential_update(p.pause, h0.objects@, o as int, h1.object(o));
    assert forall|x: usize| #[trigger] none.contains(x) <==> discovered(p.pause, h0, h1, x) by {}
    assert forall|x: usize| seq![o].contains(x) == (x == o) by {
        assert(seq![o][0] == o);
    }
    assert(mature_of(h1, none) =~= none);
    assert(h1.grown_from(h0));
    assert(traced(p.pause, h0, h1, none, seq![o], none, none));
    lemma_loads_none(h0, h1);
}

impl BactrianNurseryProcessEdges {
    /// Process a slot: trace the object that it refers to, and redirect it to where the object is
    /// now.
    pub fn process_slot(&mut self, slot: usize, heap: &mut TraceHeap, out: &mut TraceOutput)
        requires
            old(heap).wf(),
            slot < old(heap).words@.len(),
            old(self).mark_seed@.len() < SEED_CAPACITY,
        ensures
            final(heap).wf(),
            progressed(
                *old(self),
                *final(self),
                *old(heap),
                *final(heap),
                *old(out),
                *final(out),
                seq![slot],
                Seq::empty(),
            ),
            final(self).nodes@ == old(self).nodes@ + found(*old(self), *final(self)),
    {
        let ghost p0 = *self;
        let ghost h0 = *heap;
        let ghost out0 = *out;
        let ghost none = Seq::<usize>::empty();
        proof {
            lemma_progressed_none(p0, h0, out0);
            assert forall|s: usize| seq![slot].contains(s) == (s == slot) by {
                assert(seq![slot][0] == slot);
            }
            self.loaded@ = self.loaded@.push(h0.word(slot));
        }
        if let Some(object) = heap.words[slot] {
            assert(h0.word(slot) == Some(object));
            let new_object = self.trace_object(object, heap, out);
            let ghost h1 = *heap;
            if new_object != object {
                heap.words[slot] = Some(new_object);
            }
            proof {
                assert(h1.word(slot) == h0.word(slot));
                assert(heap.words@ =~= h1.words@.update(slot as int, Some(h1.now(object))));
                lemma_store(h0, h1, *heap, slot, object);
                lemma_slot_processed(p0, *self, h0, h1, *heap, out0, *out, slot, object);
            }
        } else {
            proof {
                assert(self.nodes@ =~= p0.nodes@ + none);
                assert(traced(p0.pause, h0, h0, seq![slot], none, none, none));
                trace_heap::lemma_no_copied_slot(h0, h0);
                lemma_slot_loaded(p0, *self, h0, h0, slot);
            }
        }
    }
}

proof fn lemma_slot_processed(
    p0: BactrianNurseryProcessEdges,
    p1: BactrianNurseryProcessEdges,
    h0: TraceHeap,
    h1: TraceHeap,
    h2: TraceHeap,
    out0: TraceOutput,
    out1: TraceOutput,
    slot: usize,
    object: usize,
)
    requires
        h0.wf(),
        h1.wf(),
        h2.wf(),
        h1.grown_from(h0),
        h2.grown_from(h0),
        slot < h0.words@.len(),
        h0.word(slot) == Some(object),
        h2.objects == h1.objects,
        h2.words@ == h1.words@.update(slot as int, Some(h1.now(object))),
        h1.done(p0.pause, h1.now(object)),
        forall|s: usize|
            s < h0.words@.len() ==> #[trigger] h1.word(s) == h0.word(s),
        p1.slots == p0.slots,
        p1.pause == p0.pause,
        p1.mark_seed@.len() < SEED_CAPACITY,
        p1.visited@ == p0.visited@.push(object),
        p1.loaded@ == p0.loaded@.push(h0.word(slot)),
        forall|t: usize, s: usize| #[trigger]
            h1.copied_slot(h0, t, s) ==> h1.word(s) == h0.word(t),
        discovered(p0.pause, h0, h1, h1.now(object)) ==> p1.nodes@ == p0.nodes@.push(
            h1.now(object),
        ) && p1.enqueued@ == p0.enqueued@.push(h1.now(object)) && trace_heap::potential(
            p0.pause,
            h1.objects@,
        ) + 1 <= trace_heap::potential(p0.pause, h0.objects@),
        !discovered(p0.pause, h0, h1, h1.now(object)) ==> p1.nodes@ == p0.nodes@ && p1.enqueued@
            == p0.enqueued@ && h1.objects@ == h0.objects@,
        forall|x: usize|
            x != h1.now(object) ==> !#[trigger] discovered(p0.pause, h0, h1, x),
        forall|o: usize| #[trigger]
            h0.has(o) ==> h1.object(o).marked == (h0.object(o).marked || (o == h1.now(object)
                && discovered(p0.pause, h0, h1, h1.now(object)))),
        forall|o: usize| #[trigger]
            h1.has(o) ==> h1.object(o).scanned == (h0.has(o) && h0.object(o).scanned),
        out1.scans == out0.scans,
        full_packets(out0.seeds@, out1.seeds@),
        all_seeds(p1, out1) == all_seeds(p0, out0) + seeds_of(p0.pause, h0, seq![object]),
    ensures
        progressed(p0, p1, h0, h2, out0, out1, seq![slot], Seq::empty()),
        p1.nodes@ == p0.nodes@ + found(p0, p1),
{
    let none = Seq::<usize>::empty();
    let r = h1.now(object);
    let list = seq![slot];
    let enqueued = found(p0, p1);
    let visited = p1.visited@.skip(p0.visited@.len() as int);
    assert(visited =~= seq![object]);
    assert(p1.visited@ =~= p0.visited@ + visited);
    assert forall|s: usize| list.contains(s) == (s == slot) by {
        assert(list[0] == slot);
    }
    assert forall|x: usize| #[trigger]
        discovered(p0.pause, h0, h2, x) == discovered(p0.pause, h0, h1, x) by {}
    if discovered(p0.pause, h0, h1, r) {
        assert(enqueued =~= seq![r]);
    } else {
        assert(enqueued =~= none);
    }
    assert(p1.enqueued@ =~= p0.enqueued@ + enqueued);
    assert(p1.nodes@ =~= p0.nodes@ + enqueued);
    assert forall|x: usize| #[trigger] enqueued.contains(x) <==> discovered(
        p0.pause,
        h0,
        h2,
        x,
    ) by {
        if discovered(p0.pause, h0, h1, r) {
            assert(seq![r][0] == r);
        }
    }
    assert(list.contains(slot) && h2.word(slot) == Some(r));
    assert forall|s: usize| s < h0.words@.len() && !list.contains(s) implies #[trigger] h2.word(s)
        == h0.word(s) by {
        assert(h1.word(s) == h0.word(s));
    }
    assert(h2.now(object) == r);
    assert(h0.has(object));
    assert(h1.has(object));
    lemma_mature_of_same(h0, h2, visited);
    assert forall|o: usize| #[trigger] h2.has(o) implies h2.object(o).scanned == ((h0.has(o)
        && h0.object(o).scanned) || none.contains(o)) by {
        assert(h1.has(o));
    }
    assert(h2.done(p0.pause, r));
    assert(visited[0] == object);
    assert(visited.contains(object));
    assert(!h0.has(r) || copied_to(h0, r) || visited.contains(r)) by {
        if h0.has(r) && r != object {
            assert(h0.object(object).forward == Some(r));
        }
    }
    assert(traced(p0.pause, h0, h2, list, none, enqueued, visited));
    assert forall|t: usize, s: usize| #[trigger] h2.copied_slot(h0, t, s) implies h2.word(s)
        == h0.word(t) by {
        let (o, i) = choose|o: usize, i: int| #[trigger] h2.copied_at(h0, o, i, t, s);
        assert(h1.copied_at(h0, o, i, t, s));
        assert(h1.copied_slot(h0, t, s));
        trace_heap::lemma_grown_none(h2);
        trace_heap::lemma_copied_slot_split(h0, h2, h2, t, s);
        assert(h2.words@[s as int] == h1.words@[s as int]);
    }
    lemma_slot_loaded(p0, p1, h0, h2, slot);
}

/// A slot that is processed is loaded once, as what it refers to.
proof fn lemma_slot_loaded(
    p0: BactrianNurseryProcessEdges,
    p1: BactrianNurseryProcessEdges,
    h0: TraceHeap,
    h2: TraceHeap,
    slot: usize,
)
    requires
        h0.wf(),
        h2.wf(),
        h2.grown_from(h0),
        slot < h0.words@.len(),
        h2.word(slot) == h2.resolved(h0.word(slot)),
        p1.loaded@ == p0.loaded@.push(h0.word(slot)),
        forall|t: usize, s: usize| #[trigger]
            h2.copied_slot(h0, t, s) ==> h2.word(s) == h0.word(t),
    ensures
        p1.loaded@.skip(p0.loaded@.len() as int) == seq![h0.word(slot)],
        p1.loaded@ == p0.loaded@ + seq![h0.word(slot)],
        loads(h0, h2, seq![slot], seq![h0.word(slot)]),
        present(seq![h0.word(slot)]) == (match h0.word(slot) {
            Some(o) => seq![o],
            None => Seq::<usize>::empty(),
        }),
{
    let list = seq![slot];
    let loaded = seq![h0.word(slot)];
    assert(p1.loaded@.skip(p0.loaded@.len() as int) =~= loaded);
    assert(p1.loaded@ =~= p0.loaded@ + loaded);
    assert(loaded.drop_last() =~= Seq::empty());
    assert(present(Seq::<Option<usize>>::empty()) =~= Seq::empty());
    assert(present(loaded) =~= (match h0.word(slot) {
        Some(o) => seq![o],
        None => Seq::<usize>::empty(),
    }));
    assert forall|k: int| 0 <= k < list.len() implies !(#[trigger] list.take(k)).contains(
        list[k],
    ) by {
        assert(list.take(k) =~= Seq::empty());
    }
    assert forall|k: int, t: usize|
        0 <= k < list.len() && #[trigger] h2.copied_slot(h0, t, list[k]) implies false by {
        trace_heap::lemma_grown_none(h2);
        trace_heap::lemma_copied_slot_split(h0, h2, h2, t, slot);
    }
    assert(h0.word(slot) matches Some(o) ==> h0.has(o));
}

proof fn lemma_fields_of_push(h: TraceHeap, objects: Seq<usize>, o: usize)
    ensures
        fields_of(h, objects.push(o)) == fields_of(h, objects) + h.slots_of(o),
{
    assert(objects.push(o).drop_last() =~= objects);
}

proof fn lemma_fields_of_same(h1: TraceHeap, h2: TraceHeap, objects: Seq<usize>)
    requires
        h2.grown_from(h1),
        all_there(h1, objects),
    ensures
        fields_of(h2, objects) == fields_of(h1, objects),
        all_there(h2, objects),
    decreases objects.len(),
{
    if objects.len() > 0 {
        let rest = objects.drop_last();
        assert forall|i: int| 0 <= i < rest.len() implies h1.has(#[trigger] rest[i]) by {
            assert(rest[i] == objects[i]);
        }
        lemma_fields_of_same(h1, h2, rest);
        assert(h1.has(objects[objects.len() - 1]));
        assert(h1.has(objects.last()));
        assert forall|i: int| 0 <= i < objects.len() implies h2.has(#[trigger] objects[i]) by {
            assert(h1.has(objects[i]));
        }
    }
}

/// What the trace comes upon, the slots of which are processed, stays in a chain.
proof fn lemma_chained_step(
    pause: Pause,
    h1: TraceHeap,
    h2: TraceHeap,
    objects: Seq<usize>,
    from: int,
    list: Seq<usize>,
    more: Seq<usize>,
    o: int,
)
    requires
        h1.wf(),
        h2.wf(),
        h2.grown_from(h1),
        all_there(h1, objects),
        0 <= from <= objects.len(),
        forall|i: int| from <= i < objects.len() ==> h1.done(pause, #[trigger] objects[i]),
        chained(h1, objects, from),
        forall|s: usize|
            s < h1.words@.len() && !list.contains(s) ==> #[trigger] h2.word(s) == h1.word(s),
        forall|s: usize| #[trigger]
            list.contains(s) ==> s < h2.words@.len() && (h2.word(s) matches Some(x) ==> h2.done(
                pause,
                x,
            )),
        0 <= o < objects.len(),
        forall|s: usize| #[trigger] list.contains(s) ==> h1.slots_of(objects[o]).contains(s),
        forall|i: int| 0 <= i < more.len() ==> referenced(h2, list, #[trigger] more[i]),
    ensures
        chained(h2, objects + more, from),
{
    let all = objects + more;
    assert forall|i: int| from <= i < all.len() implies #[trigger] linked(h2, all, i) by {
        if i < objects.len() {
            let x = objects[i];
            assert(all[i] == x);
            assert(linked(h1, objects, i));
            let j = choose|j: int|
                0 <= j < i && referenced(h1, h1.slots_of(#[trigger] objects[j]), objects[i]);
            let s = choose|s: usize| #[trigger]
                h1.slots_of(objects[j]).contains(s) && h1.word(s) == Some(x);
            let k = h1.slots_of(objects[j]).index_of(s);
            assert(h1.has(objects[j]));
            assert(h1.slots_of(objects[j])[k] < h1.words@.len());
            lemma_word_stays(pause, h1, h2, list, s, x);
            assert(h2.slots_of(objects[j]) == h1.slots_of(objects[j]));
            assert(h2.slots_of(all[j]).contains(s));
            assert(referenced(h2, h2.slots_of(all[j]), all[i]));
        } else {
            let x = more[i - objects.len()];
            assert(all[i] == x);
            let s = choose|s: usize| #[trigger] list.contains(s) && h2.word(s) == Some(x);
            assert(h1.has(objects[o]));
            assert(h2.slots_of(objects[o]) == h1.slots_of(objects[o]));
            assert(h2.slots_of(all[o]).contains(s));
            assert(referenced(h2, h2.slots_of(all[o]), all[i]));
        }
    }
}

impl BactrianNurseryProcessEdges {
    /// Process all slots of the trace.
    pub fn process_slots(&mut self, heap: &mut TraceHeap, out: &mut TraceOutput)
        requires
            old(heap).wf(),
            forall|i: int|
                0 <= i < old(self).slots@.len() ==> #[trigger] old(self).slots@[i] < old(heap).words@.len(),
            old(self).mark_seed@.len() < SEED_CAPACITY,
        ensures
            final(heap).wf(),
            progressed(
                *old(self),
                *final(self),
                *old(heap),
                *final(heap),
                *old(out),
                *final(out),
                old(self).slots@,
                Seq::empty(),
            ),
            final(self).nodes@ == old(self).nodes@ + found(*old(self), *final(self)),
    {
        let ghost p0 = *self;
        let ghost h0 = *heap;
        let ghost out0 = *out;
        let ghost none = Seq::<usize>::empty();
        let mut i: usize = 0;
        proof {
            lemma_progressed_none(p0, h0, out0);
            assert(p0.slots@.take(0) =~= none);
            assert(self.nodes@ =~= p0.nodes@ + none);
        }
        while i < self.slots.len()
            invariant
                p0 == *old(self),
                h0 == *old(heap),
                out0 == *old(out),
                none == Seq::<usize>::empty(),
                h0.wf(),
                heap.wf(),
                self.slots == p0.slots,
                i <= p0.slots@.len(),
                forall|i: int|
                    0 <= i < p0.slots@.len() ==> #[trigger] p0.slots@[i] < h0.words@.len(),
                progressed(p0, *self, h0, *heap, out0, *out, p0.slots@.take(i as int), none),
                self.nodes@ == p0.nodes@ + found(p0, *self),
            decreases p0.slots@.len() - i,
        {
            let ghost p1 = *self;
            let ghost h1 = *heap;
            let ghost out1 = *out;
            let slot = self.slots[i];
            assert(slot == p0.slots@[i as int]);
            self.process_slot(slot, heap, out);
            proof {
                lemma_progressed_add(
                    p0,
                    p1,
                    *self,
                    h0,
                    h1,
                    *heap,
                    out0,
                    out1,
                    *out,
                    p0.slots@.take(i as int),
                    seq![slot],
                    none,
                    none,
                );
                assert(p0.slots@.take(i as int) + seq![slot] =~= p0.slots@.take(i as int + 1));
                assert(none + none =~= none);
                assert(self.nodes@ =~= p0.nodes@ + found(p0, *self));
            }
            i = i + 1;
        }
        assert(p0.slots@.take(i as int) =~= p0.slots@);
    }

    /// Scan an object: note that it was scanned, and process its slots.
    fn scan_object(
        &mut self,
        object: usize,
        heap: &mut TraceHeap,
        out: &mut TraceOutput,
        scratch: &mut Vec<usize>,
    )
        requires
            old(heap).wf(),
            old(heap).has(object),
            old(self).mark_seed@.len() < SEED_CAPACITY,
            old(scratch)@.len() == 0,
        ensures
            final(heap).wf(),
            final(scratch)@.len() == 0,
            progressed(
                *old(self),
                *final(self),
                *old(heap),
                *final(heap),
                *old(out),
                *final(out),
                old(heap).slots_of(object),
                seq![object],
            ),
            final(self).nodes@ == old(self).nodes@ + found(*old(self), *final(self)),
    {
        let ghost p0 = *self;
        let ghost h0 = *heap;
        let ghost out0 = *out;
        let ghost none = Seq::<usize>::empty();
        let ghost slots = h0.slots_of(object);
        let mut k: usize = 0;
        while k < heap.objects[object].slots.len()
            invariant
                *heap == h0,
                h0.has(object),
                slots == h0.slots_of(object),
                k <= slots.len(),
                scratch@ =~= slots.take(k as int),
            decreases slots.len() - k,
        {
            scratch.push(heap.objects[object].slots[k]);
            k = k + 1;
        }
        assert(scratch@ =~= slots);
        heap.objects[object].scanned = true;
        proof {
            assert(heap.objects@ =~= h0.objects@.update(
                object as int,
                TracedObject { scanned: true, ..h0.object(object) },
            ));
            lemma_scanned(p0, h0, *heap, out0, object);
            assert(slots.take(0) =~= none);
            assert(self.nodes@ =~= p0.nodes@ + none);
        }
        let mut i: usize = 0;
        while i < scratch.len()
            invariant
                h0.wf(),
                heap.wf(),
                h0.has(object),
                none == Seq::<usize>::empty(),
                slots == h0.slots_of(object),
                scratch@ == slots,
                i <= slots.len(),
                progressed(
                    p0,
                    *self,
                    h0,
                    *heap,
                    out0,
                    *out,
                    slots.take(i as int),
                    seq![object],
                ),
                self.nodes@ == p0.nodes@ + found(p0, *self),
            decreases slots.len() - i,
        {
            let ghost p1 = *self;
            let ghost h1 = *heap;
            let ghost out1 = *out;
            let slot = scratch[i];
            assert(h0.slots_of(object)[i as int] < h0.words@.len());
            self.process_slot(slot, heap, out);
            proof {
                assert forall|o: usize| #[trigger] seq![object].contains(o) implies h1.has(o) by {
                    assert(h0.has(object));
                }
                lemma_progressed_add(
                    p0,
                    p1,
                    *self,
                    h0,
                    h1,
                    *heap,
                    out0,
                    out1,
                    *out,
                    slots.take(i as int),
                    seq![slot],
                    seq![object],
                    none,
                );
                assert(slots.take(i as int) + seq![slot] =~= slots.take(i as int + 1));
                assert(seq![object] + none =~= seq![object]);
                assert(self.nodes@ =~= p0.nodes@ + found(p0, *self));
            }
            i = i + 1;
        }
        assert(slots.take(i as int) =~= slots);
        scratch.clear();
    }

    /// Scan everything that there is to scan, and what that leads to, until nothing is left.
    pub fn drain_closure_locally(&mut self, heap: &mut TraceHeap, out: &mut TraceOutput)
        requires
            old(heap).wf(),
            all_there(*old(heap), old(self).nodes@),
            old(self).mark_seed@.len() < SEED_CAPACITY,
        ensures
            final(heap).wf(),
            final(self).nodes@.len() == 0,
            ({
                let scanned = old(self).nodes@ + found(*old(self), *final(self));
                &&& all_there(*final(heap), scanned)
                &&& progressed(
                    *old(self),
                    *final(self),
                    *old(heap),
                    *final(heap),
                    *old(out),
                    *final(out),
                    fields_of(*final(heap), scanned),
                    scanned,
                )
                &&& chained(*final(heap), scanned, old(self).nodes@.len() as int)
            }),
    {
        let ghost p0 = *self;
        let ghost h0 = *heap;
        let ghost out0 = *out;
        let ghost none = Seq::<usize>::empty();
        let ghost n0 = p0.nodes@.len() as int;
        let ghost mut scanned = Seq::<usize>::empty();
        let mut scratch: Vec<usize> = Vec::new();
        proof {
            lemma_progressed_none(p0, h0, out0);
            assert(fields_of(h0, none) =~= none);
            assert(p0.nodes@ + none =~= none + p0.nodes@);
            assert(p0.nodes@ + found(p0, p0) =~= p0.nodes@);
        }
        while self.nodes.len() != 0
            invariant
                none == Seq::<usize>::empty(),
                p0 == *old(self),
                h0 == *old(heap),
                out0 == *old(out),
                h0.wf(),
                heap.wf(),
                n0 == p0.nodes@.len(),
                scratch@.len() == 0,
                p0.nodes@ + found(p0, *self) == scanned + self.nodes@,
                all_there(*heap, p0.nodes@ + found(p0, *self)),
                progressed(
                    p0,
                    *self,
                    h0,
                    *heap,
                    out0,
                    *out,
                    fields_of(*heap, scanned),
                    scanned,
                ),
                chained(*heap, p0.nodes@ + found(p0, *self), n0),
            decreases
                    trace_heap::potential(self.pause, heap.objects@),
                    self.nodes@.len(),
        {
            let ghost pot1 = trace_heap::potential(self.pause, heap.objects@);
            let ghost found1 = found(p0, *self).len();
            let mut nodes: Vec<usize> = Vec::new();
            std::mem::swap(&mut nodes, &mut self.nodes);
            assert(self.nodes@ =~= none);
            let ghost batch = nodes@;
            let ghost before = scanned;
            let mut i: usize = 0;
            assert(batch.skip(0) =~= batch);
            assert(before + batch =~= scanned + batch.skip(0) + self.nodes@);
            assert(scanned =~= before + batch.take(0));
            while i < nodes.len()
                invariant
                    none == Seq::<usize>::empty(),
                    h0.wf(),
                    heap.wf(),
                    n0 == p0.nodes@.len(),
                    scratch@.len() == 0,
                    batch == nodes@,
                    i <= batch.len(),
                    scanned == before + batch.take(i as int),
                    p0.nodes@ + found(p0, *self) == before + batch + self.nodes@,
                    all_there(*heap, p0.nodes@ + found(p0, *self)),
                    self.pause == p0.pause,
                    progressed(
                        p0,
                        *self,
                        h0,
                        *heap,
                        out0,
                        *out,
                        fields_of(*heap, scanned),
                        scanned,
                    ),
                    chained(*heap, p0.nodes@ + found(p0, *self), n0),
                    found(p0, *self).len() == found1 + self.nodes@.len(),
                    trace_heap::potential(self.pause, heap.objects@) + self.nodes@.len() <= pot1,
                decreases batch.len() - i,
            {
                let ghost p1 = *self;
                let ghost h1 = *heap;
                let ghost out1 = *out;
                let ghost all1 = p0.nodes@ + found(p0, p1);
                let object = nodes[i];
                proof {
                    let at = before.len() + i;
                    assert((before + batch + self.nodes@)[at as int] == object);
                    assert(all1[at as int] == object);
                    assert(h1.has(all1[at as int]));
                }
                self.scan_object(object, heap, out, &mut scratch);
                proof {
                    let at = before.len() + i;
                    let more = found(p1, *self);
                    assert forall|o: usize| #[trigger] scanned.contains(o) implies h1.has(o) by {
                        let k = scanned.index_of(o);
                        assert(all1[k] == scanned[k]);
                        assert(h1.has(all1[k]));
                    }
                    assert(all_there(h1, scanned)) by {
                        assert forall|k: int| 0 <= k < scanned.len() implies h1.has(
                            #[trigger] scanned[k],
                        ) by {
                            assert(scanned.contains(scanned[k]));
                        }
                    }
                    lemma_progressed_add(
                        p0,
                        p1,
                        *self,
                        h0,
                        h1,
                        *heap,
                        out0,
                        out1,
                        *out,
                        fields_of(h1, scanned),
                        h1.slots_of(object),
                        scanned,
                        seq![object],
                    );
                    lemma_fields_of_same(h1, *heap, scanned);
                    lemma_fields_of_push(*heap, scanned, object);
                    assert(heap.slots_of(object) == h1.slots_of(object));
                    assert(scanned + seq![object] =~= scanned.push(object));
                    assert(before + batch.take(i as int + 1) =~= scanned.push(object));
                    assert(p0.nodes@ + found(p0, *self) =~= all1 + more);
                    assert(p0.nodes@ + found(p0, *self) =~= before + batch + self.nodes@);
                    assert forall|k: int| n0 <= k < all1.len() implies h1.done(
                        p0.pause,
                        #[trigger] all1[k],
                    ) by {
                        let e = found(p0, p1);
                        assert(all1[k] == e[k - n0]);
                        assert(e.contains(e[k - n0]));
                        assert(discovered(p0.pause, h0, h1, all1[k]));
                    }
                    lemma_chained_step(
                        p0.pause,
                        h1,
                        *heap,
                        all1,
                        n0,
                        h1.slots_of(object),
                        more,
                        at as int,
                    );
                    assert forall|k: int| 0 <= k < (all1 + more).len() implies heap.has(
                        #[trigger] (all1 + more)[k],
                    ) by {
                        if k < all1.len() {
                            assert(h1.has(all1[k]));
                        } else {
                            assert(more.contains(more[k - all1.len()]));
                            assert(discovered(p0.pause, h1, *heap, more[k - all1.len()]));
                        }
                    }
                    scanned = scanned.push(object);
                }
                i = i + 1;
            }
            proof {
                assert(batch.take(i as int) =~= batch);
                assert(scanned =~= before + batch);
            }
        }
        proof {
            assert(scanned =~= p0.nodes@ + found(p0, *self));
        }
    }

    /// Finish the trace. A single tracer scans everything itself, unless live bytes are counted.
    /// The seeds are handed over, and so is what is left to scan.
    pub fn flush(
        &mut self,
        up: bool,
        count_live_bytes_in_gc: bool,
        heap: &mut TraceHeap,
        out: &mut TraceOutput,
    )
        requires
            old(heap).wf(),
            all_there(*old(heap), old(self).nodes@),
            old(self).mark_seed@.len() < SEED_CAPACITY,
        ensures
            final(heap).wf(),
            final(self).nodes@.len() == 0,
            final(self).mark_seed@.len() == 0,
            cut_packets(old(out).seeds@, final(out).seeds@),
            up && !count_live_bytes_in_gc ==> ({
                let scanned = old(self).nodes@ + found(*old(self), *final(self));
                &&& all_there(*final(heap), scanned)
                &&& advanced(
                    *old(self),
                    *final(self),
                    *old(heap),
                    *final(heap),
                    *old(out),
                    *final(out),
                    fields_of(*final(heap), scanned),
                    scanned,
                )
                &&& chained(*final(heap), scanned, old(self).nodes@.len() as int)
            }),
            !up || count_live_bytes_in_gc ==> {
                &&& *final(heap) == *old(heap)
                &&& final(self).slots == old(self).slots
                &&& final(self).pause == old(self).pause
                &&& final(self).enqueued == old(self).enqueued
                &&& final(self).visited == old(self).visited
                &&& final(self).loaded == old(self).loaded
                &&& all_seeds(*final(self), *final(out)) == all_seeds(*old(self), *old(out))
                &&& old(self).nodes@.len() == 0 ==> final(out).scans@ == old(out).scans@
                &&& old(self).nodes@.len() > 0 ==> final(out).scans@.len() == old(out).scans@.len() + 1 && final(out).scans@.drop_last() == old(out).scans@
                    && final(out).scans@.last()@ == old(self).nodes@
            },
    {
        let ghost out0 = *out;
        if up && !count_live_bytes_in_gc {
            self.drain_closure_locally(heap, out);
        }
        let ghost out1 = *out;
        self.flush_mark_seed(out);
        proof {
            assert forall|i: int| 0 <= i < out1.seeds@.len() implies #[trigger] out.seeds@[i]
                == out1.seeds@[i] by {
                if out.seeds@.len() > out1.seeds@.len() {
                    assert(out.seeds@.drop_last()[i] == out1.seeds@[i]);
                }
            }
            assert(cut_packets(out1.seeds@, out.seeds@));
            lemma_full_packets_add(out0.seeds@, out1.seeds@, out.seeds@);
        }
        let mut nodes: Vec<usize> = Vec::new();
        std::mem::swap(&mut nodes, &mut self.nodes);
        if nodes.len() != 0 {
            out.scans.push(nodes);
            assert(out.scans@.drop_last() =~= out0.scans@);
        }
    }

    /// Run the trace: process its slots, and finish.
    pub fn do_work(
        &mut self,
        up: bool,
        count_live_bytes_in_gc: bool,
        heap: &mut TraceHeap,
        out: &mut TraceOutput,
    )
        requires
            old(heap).wf(),
            old(self).nodes@.len() == 0,
            old(self).mark_seed@.len() == 0,
            forall|i: int|
                0 <= i < old(self).slots@.len() ==> #[trigger] old(self).slots@[i] < old(heap).words@.len(),
        ensures
            final(heap).wf(),
            final(self).nodes@.len() == 0,
            final(self).mark_seed@.len() == 0,
            ({
                let scanned = found(*old(self), *final(self));
                let visited = final(self).visited@.skip(old(self).visited@.len() as int);
                let loaded = final(self).loaded@.skip(old(self).loaded@.len() as int);
                &&& final(self).slots == old(self).slots
                &&& final(self).pause == old(self).pause
                &&& final(self).enqueued@ == old(self).enqueued@ + scanned
                &&& final(self).visited@ == old(self).visited@ + visited
                &&& final(self).loaded@ == old(self).loaded@ + loaded
                &&& visited == present(loaded)
                &&& cut_packets(old(out).seeds@, final(out).seeds@)
                &&& flattened(final(out).seeds@) == flattened(old(out).seeds@) + seeds_of(
                    old(self).pause,
                    *final(heap),
                    visited,
                )
                &&& up && !count_live_bytes_in_gc ==> {
                    &&& traced(
                        old(self).pause,
                        *old(heap),
                        *final(heap),
                        old(self).slots@ + fields_of(*final(heap), scanned),
                        scanned,
                        scanned,
                        visited,
                    )
                    &&& loads(
                        *old(heap),
                        *final(heap),
                        old(self).slots@ + fields_of(*final(heap), scanned),
                        loaded,
                    )
                    &&& reached(*final(heap), old(self).slots@, scanned)
                    &&& final(out).scans@ == old(out).scans@
                }
                &&& !up || count_live_bytes_in_gc ==> {
                    &&& traced(
                        old(self).pause,
                        *old(heap),
                        *final(heap),
                        old(self).slots@,
                        Seq::empty(),
                        scanned,
                        visited,
                    )
                    &&& loads(*old(heap), *final(heap), old(self).slots@, loaded)
                    &&& scanned.len() == 0 ==> final(out).scans@ == old(out).scans@
                    &&& scanned.len() > 0 ==> final(out).scans@.len() == old(out).scans@.len() + 1
                        && final(out).scans@.drop_last() == old(out).scans@
                        && final(out).scans@.last()@ == scanned
                }
            }),
    {
        let ghost p0 = *self;
        let ghost h0 = *heap;
        let ghost out0 = *out;
        let ghost none = Seq::<usize>::empty();
        self.process_slots(heap, out);
        let ghost p1 = *self;
        let ghost h1 = *heap;
        let ghost out1 = *out;
        let ghost e1 = found(p0, p1);
        proof {
            assert(p1.nodes@ =~= e1);
            assert forall|i: int| 0 <= i < e1.len() implies h1.has(#[trigger] e1[i]) by {
                assert(e1.contains(e1[i]));
                assert(discovered(p0.pause, h0, h1, e1[i]));
            }
        }
        self.flush(up, count_live_bytes_in_gc, heap, out);
        proof {
            assert(all_seeds(*self, *out) =~= flattened(out.seeds@));
            assert(all_seeds(p0, out0) =~= flattened(out0.seeds@));
            lemma_full_packets_add(out0.seeds@, out1.seeds@, out.seeds@);
            if up && !count_live_bytes_in_gc {
                let scanned = p1.nodes@ + found(p1, *self);
                lemma_advanced_add(
                    p0,
                    p1,
                    *self,
                    h0,
                    h1,
                    *heap,
                    out0,
                    out1,
                    *out,
                    p0.slots@,
                    fields_of(*heap, scanned),
                    none,
                    scanned,
                );
                assert(scanned =~= found(p0, *self));
                assert(none + scanned =~= scanned);
                assert(scanned.take(e1.len() as int) =~= e1);
                lemma_reached(p0.pause, h0, h1, *heap, p0.slots@, e1, scanned);
            }
        }
    }

    /// Hand over the seeds of a trace that is dropped, so that none is lost.
    pub fn finish(&mut self, out: &mut TraceOutput)
        ensures
            final(self).mark_seed@.len() == 0,
            *final(self) == (BactrianNurseryProcessEdges {
                mark_seed: final(self).mark_seed,
                ..*old(self)
            }),
            final(out).scans == old(out).scans,
            flattened(final(out).seeds@) == all_seeds(*old(self), *old(out)),
            old(self).mark_seed@.len() == 0 ==> final(out).seeds@ == old(out).seeds@,
            old(self).mark_seed@.len() > 0 ==> final(out).seeds@.len() == old(out).seeds@.len() + 1
                && final(out).seeds@.drop_last() == old(out).seeds@ && final(out).seeds@.last()@ == old(self).mark_seed@,
    {
        self.flush_mark_seed(out);
        assert(all_seeds(*self, *out) =~= flattened(out.seeds@));
    }
}

/// Each of `objects` is referred to by one of `slots`, or by a slot of an object before it.
pub open spec fn reached(h: TraceHeap, slots: Seq<usize>, objects: Seq<usize>) -> bool {
    forall|i: int|
        0 <= i < objects.len() ==> referenced(h, slots, #[trigger] objects[i]) || linked(
            h,
            objects,
            i,
        )
}

proof fn lemma_reached(
    pause: Pause,
    h0: TraceHeap,
    h1: TraceHeap,
    h2: TraceHeap,
    slots: Seq<usize>,
    e1: Seq<usize>,
    scanned: Seq<usize>,
)
    requires
        h1.wf(),
        h2.wf(),
        h2.grown_from(h1),
        e1.len() <= scanned.len(),
        e1 == scanned.take(e1.len() as int),
        forall|i: int| 0 <= i < e1.len() ==> referenced(h1, slots, #[trigger] e1[i]),
        forall|s: usize| #[trigger]
            slots.contains(s) ==> s < h1.words@.len() && (h1.word(s) matches Some(x) ==> h1.done(
                pause,
                x,
            )),
        chained(h2, scanned, e1.len() as int),
        forall|s: usize|
            s < h1.words@.len() && !fields_of(h2, scanned).contains(s) ==> #[trigger] h2.word(s)
                == h1.word(s),
        forall|s: usize| #[trigger]
            fields_of(h2, scanned).contains(s) ==> s < h2.words@.len() && (h2.word(s) matches Some(
                x,
            ) ==> h2.done(pause, x)),
    ensures
        reached(h2, slots, scanned),
{
    assert forall|i: int| 0 <= i < scanned.len() implies referenced(
        h2,
        slots,
        #[trigger] scanned[i],
    ) || linked(h2, scanned, i) by {
        if i < e1.len() {
            assert(scanned[i] == e1[i]);
            let s = choose|s: usize| #[trigger] slots.contains(s) && h1.word(s) == Some(e1[i]);
            lemma_word_stays(pause, h1, h2, fields_of(h2, scanned), s, e1[i]);
            assert(slots.contains(s) && h2.word(s) == Some(scanned[i]));
        } else {
            assert(linked(h2, scanned, i));
        }
    }
}

} // verus!
