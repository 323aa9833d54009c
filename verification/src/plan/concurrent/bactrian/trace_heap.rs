//! The heap as a trace of the Bactrian plan sees it.

use vstd::prelude::*;

use crate::plan::concurrent::Pause;

verus! {

/// Where an object lives.
#[derive(Clone, Copy, PartialEq, Eq, Structural, Debug)]
pub enum ObjectSpace {
    /// In the copying nursery.
    Nursery,
    /// In the large-object space, and young.
    YoungLarge,
    /// In the large-object space, and mature.
    Large,
    /// In the mature space.
    Mature,
}

/// An object.
pub struct TracedObject {
    pub space: ObjectSpace,
    /// The slots of the object.
    pub slots: Vec<usize>,
    /// Where the object was copied to.
    pub forward: Option<usize>,
    pub marked: bool,
    /// Whether the object was scanned; its lines are marked then.
    pub scanned: bool,
}

/// Objects, and the object that each slot refers to.
pub struct TraceHeap {
    pub objects: Vec<TracedObject>,
    pub words: Vec<Option<usize>>,
}

/// Whether a trace of a `pause` that meets `o` has something to do: copy it, promote it, or, in the
/// pause that ends a marking cycle, mark it.
pub open spec fn pending(pause: Pause, o: TracedObject) -> bool {
    match o.space {
        ObjectSpace::Nursery => o.forward is None,
        ObjectSpace::YoungLarge => true,
        _ => pause == Pause::FinalMark && !o.marked,
    }
}

/// How many of `objects` a trace still has something to do with.
pub open spec fn potential(pause: Pause, objects: Seq<TracedObject>) -> nat
    decreases objects.len(),
{
    if objects.len() == 0 {
        0
    } else {
        potential(pause, objects.drop_last()) + (if pending(pause, objects.last()) {
            1nat
        } else {
            0nat
        })
    }
}

pub proof fn lemma_potential_push(pause: Pause, objects: Seq<TracedObject>, o: TracedObject)
    ensures
        potential(pause, objects.push(o)) == potential(pause, objects) + (if pending(pause, o) {
            1nat
        } else {
            0nat
        }),
{
    assert(objects.push(o).drop_last() =~= objects);
}

pub proof fn lemma_potential_update(
    pause: Pause,
    objects: Seq<TracedObject>,
    i: int,
    o: TracedObject,
)
    requires
        0 <= i < objects.len(),
    ensures
        potential(pause, objects.update(i, o)) == potential(pause, objects) + (if pending(
            pause,
            o,
        ) {
            1int
        } else {
            0int
        }) - (if pending(pause, objects[i]) {
            1int
        } else {
            0int
        }),
    decreases objects.len(),
{
    let last = objects.len() - 1;
    if i == last {
        assert(objects.update(i, o).drop_last() =~= objects.drop_last());
    } else {
        lemma_potential_update(pause, objects.drop_last(), i, o);
        assert(objects.update(i, o).drop_last() =~= objects.drop_last().update(i, o));
    }
}

impl TraceHeap {
    /// Whether `o` names an object.
    pub open spec fn has(&self, o: usize) -> bool {
        o < self.objects@.len()
    }

    pub open spec fn object(&self, o: usize) -> TracedObject {
        self.objects@[o as int]
    }

    /// The slots of object `o`.
    pub open spec fn slots_of(&self, o: usize) -> Seq<usize> {
        self.objects@[o as int].slots@
    }

    /// What slot `s` refers to.
    pub open spec fn word(&self, s: usize) -> Option<usize> {
        self.words@[s as int]
    }

    /// Whether `o` is in the copying nursery.
    pub open spec fn is_nursery(&self, o: usize) -> bool {
        self.object(o).space == ObjectSpace::Nursery
    }

    /// Where `o` is now: where it was copied to, if it was.
    pub open spec fn now(&self, o: usize) -> usize {
        match self.object(o).forward {
            Some(copy) => copy,
            None => o,
        }
    }

    /// What a reference to `v` refers to now.
    pub open spec fn resolved(&self, v: Option<usize>) -> Option<usize> {
        match v {
            Some(o) => Some(self.now(o)),
            None => None,
        }
    }

    /// Slots and references are in range, and only objects of the nursery were copied, to marked
    /// objects of the mature space.
    pub open spec fn wf(&self) -> bool {
        &&& forall|o: usize, i: int|
            self.has(o) && 0 <= i < self.slots_of(o).len() ==> #[trigger] self.slots_of(o)[i]
                < self.words@.len()
        &&& forall|s: usize|
            s < self.words@.len() ==> (#[trigger] self.word(s) matches Some(x) ==> self.has(x))
        &&& forall|o: usize| #[trigger]
            self.has(o) ==> (self.object(o).forward matches Some(copy) ==> {
                &&& self.is_nursery(o)
                &&& self.has(copy)
                &&& self.object(copy).space == ObjectSpace::Mature
                &&& self.object(copy).marked
            })
    }

    /// Whether a trace of `pause` has nothing left to do with `x` but to scan it.
    pub open spec fn done(&self, pause: Pause, x: usize) -> bool {
        &&& self.has(x)
        &&& !self.is_nursery(x)
        &&& !pending(pause, self.object(x))
    }

    /// Whether object `copy` is a copy of `o` as `before` had it: it has as many slots, which are
    /// new, and they refer to what those of `o` refer to.
    pub open spec fn copy_of(&self, before: TraceHeap, o: usize, copy: usize) -> bool {
        &&& self.slots_of(copy).len() == before.slots_of(o).len()
        &&& forall|i: int|
            0 <= i < self.slots_of(copy).len() ==> {
                &&& before.words@.len() <= #[trigger] self.slots_of(copy)[i] < self.words@.len()
                &&& self.resolved(self.word(self.slots_of(copy)[i])) == self.resolved(
                    before.word(before.slots_of(o)[i]),
                )
            }
    }

    /// Whether `self` comes from `before` by copying objects out of the nursery, promoting young
    /// large objects, marking, and redirecting references to where their objects are now.
    pub open spec fn grown_from(&self, before: TraceHeap) -> bool {
        &&& before.objects@.len() <= self.objects@.len()
        &&& before.words@.len() <= self.words@.len()
        &&& forall|o: usize| #[trigger]
            before.has(o) ==> {
                let o0 = before.object(o);
                let o1 = self.object(o);
                &&& o1.slots == o0.slots
                &&& o1.space == o0.space || (o0.space == ObjectSpace::YoungLarge && o1.space
                    == ObjectSpace::Large && o1.marked)
                &&& o0.marked ==> o1.marked
                &&& o0.forward is Some ==> o1.forward == o0.forward
                &&& o0.forward is None && o1.forward is Some ==> {
                    &&& before.objects@.len() <= o1.forward->0 < self.objects@.len()
                    &&& self.copy_of(before, o, o1.forward->0)
                }
            }
        &&& forall|c: usize|
            before.objects@.len() <= c && #[trigger] self.has(c) ==> {
                &&& self.object(c).space == ObjectSpace::Mature
                &&& self.object(c).marked
                &&& self.object(c).forward is None
                &&& exists|o: usize| #[trigger]
                    before.has(o) && before.object(o).forward is None && self.object(o).forward
                        == Some(c)
            }
        &&& forall|a: usize, b: usize|
            before.has(a) && before.has(b) && a != b && before.object(a).forward is None
                && before.object(b).forward is None && (
            #[trigger] self.object(a)).forward is Some ==> self.object(a).forward != (
            #[trigger] self.object(b)).forward
        &&& forall|a: usize, b: usize, i: int, j: int|
            before.objects@.len() <= a && before.objects@.len() <= b && self.has(a) && self.has(b)
                && 0 <= i < self.slots_of(a).len() && 0 <= j < self.slots_of(b).len() && (a != b
                || i != j) ==> #[trigger] self.slots_of(a)[i] != #[trigger] self.slots_of(b)[j]
        &&& forall|s: usize|
            s < before.words@.len() ==> self.resolved(#[trigger] self.word(s)) == self.resolved(
                before.word(s),
            )
    }

    /// Whether object `o` was copied since `before`, and slot `s` of the copy was made for slot `t`, the
    /// one at position `i`.
    pub open spec fn copied_at(
        &self,
        before: TraceHeap,
        o: usize,
        i: int,
        t: usize,
        s: usize,
    ) -> bool {
        &&& before.has(o)
        &&& before.object(o).forward is None
        &&& self.object(o).forward is Some
        &&& 0 <= i < before.slots_of(o).len()
        &&& before.slots_of(o)[i] == t
        &&& self.slots_of(self.now(o))[i] == s
    }

    /// Whether slot `s` was made for slot `t` of an object that was copied since `before`.
    pub open spec fn copied_slot(&self, before: TraceHeap, t: usize, s: usize) -> bool {
        exists|o: usize, i: int| #[trigger] self.copied_at(before, o, i, t, s)
    }

    /// Copy `o`, which is in the nursery, into the mature space. The copy is born marked.
    pub fn copy(&mut self, o: usize) -> (copy: usize)
        requires
            old(self).wf(),
            old(self).has(o),
            old(self).is_nursery(o),
            old(self).object(o).forward is None,
        ensures
            final(self).wf(),
            copy == old(self).objects@.len(),
            final(self).grown_from(*old(self)),
            final(self).objects@[copy as int].space == ObjectSpace::Mature,
            final(self).objects@[copy as int].marked,
            final(self).objects@[copy as int].slots@.len() == old(self).objects@[o as int].slots@.len(),
            forall|i: int|
                0 <= i < old(self).objects@[o as int].slots@.len() ==> final(self).words@[
                #[trigger] final(self).objects@[copy as int].slots@[i] as int]
                    == old(self).words@[old(self).objects@[o as int].slots@[i] as int],
            final(self).object(o).forward == Some(copy),
            final(self).objects@.len() == old(self).objects@.len() + 1,
            forall|x: usize|
                old(self).has(x) && x != o ==> #[trigger] final(self).object(x) == old(self).object(x),
            final(self).object(o).scanned == old(self).object(o).scanned,
            final(self).object(o).marked == old(self).object(o).marked,
            !final(self).object(copy).scanned,
            forall|s: usize|
                s < old(self).words@.len() ==> #[trigger] final(self).word(s) == old(self).word(s),
            forall|t: usize, s: usize| #[trigger]
                final(self).copied_slot(*old(self), t, s) ==> final(self).word(s) == old(self).word(t),
            forall|pause: Pause|
                potential(pause, final(self).objects@) + 1 == #[trigger] potential(
                    pause,
                    old(self).objects@,
                ),
    {
        let copy: usize = self.objects.len();
        let ghost slots0 = self.slots_of(o);
        let ghost w0 = self.words@.len() as int;
        let mut slots: Vec<usize> = Vec::new();
        let mut i: usize = 0;
        while i < self.objects[o].slots.len()
            invariant
                self.objects == old(self).objects,
                old(self).wf(),
                old(self).has(o),
                slots0 == self.slots_of(o),
                w0 == old(self).words@.len(),
                i <= slots0.len(),
                slots@.len() == i,
                self.words@.len() == w0 + i,
                forall|s: int| 0 <= s < w0 ==> #[trigger] self.words@[s] == old(self).words@[s],
                forall|k: int| 0 <= k < i ==> #[trigger] slots@[k] == w0 + k,
                forall|k: int|
                    0 <= k < i ==> #[trigger] self.words@[w0 + k] == old(self).words@[slots0[k] as int],
            decreases slots0.len() - i,
        {
            let s = self.objects[o].slots[i];
            assert(s == slots0[i as int]);
            assert(old(self).slots_of(o)[i as int] < old(self).words@.len());
            let v = self.words[s];
            let fresh: usize = self.words.len();
            self.words.push(v);
            slots.push(fresh);
            i = i + 1;
        }
        let ghost objects0 = self.objects@;
        self.objects[o].forward = Some(copy);
        let ghost objects1 = self.objects@;
        let new = TracedObject {
            space: ObjectSpace::Mature,
            slots,
            forward: None,
            marked: true,
            scanned: false,
        };
        self.objects.push(new);
        proof {
            assert(objects1 =~= objects0.update(
                o as int,
                TracedObject { forward: Some(copy), ..objects0[o as int] },
            ));
            assert(self.objects@ =~= objects1.push(new));
            assert forall|pause: Pause|
                potential(pause, self.objects@) + 1 == #[trigger] potential(
                    pause,
                    old(self).objects@,
                ) by {
                lemma_potential_update(pause, objects0, o as int, objects1[o as int]);
                lemma_potential_push(pause, objects1, new);
            }
            assert(self.slots_of(copy) == slots@);
            assert forall|x: usize|
                old(self).has(x) && x != o implies #[trigger] self.object(x) == old(self).object(
                x,
            ) by {}
            assert forall|s: usize| s < w0 implies #[trigger] self.word(s) == old(self).word(s) by {}
            assert(self.copy_of(*old(self), o, copy)) by {
                assert forall|k: int| 0 <= k < self.slots_of(copy).len() implies {
                    &&& w0 <= #[trigger] self.slots_of(copy)[k] < self.words@.len()
                    &&& self.resolved(self.word(self.slots_of(copy)[k])) == self.resolved(
                        old(self).word(old(self).slots_of(o)[k]),
                    )
                } by {
                    assert(self.words@[w0 + k] == old(self).words@[slots0[k] as int]);
                }
            }
            assert forall|x: usize, k: int|
                self.has(x) && 0 <= k < self.slots_of(x).len() implies #[trigger] self.slots_of(
                x,
            )[k] < self.words@.len() by {
                if x != copy {
                    assert(self.slots_of(x) == old(self).slots_of(x));
                    assert(old(self).slots_of(x)[k] < old(self).words@.len());
                }
            }
            assert forall|s: usize| s < self.words@.len() implies (
            #[trigger] self.word(s) matches Some(x) ==> self.has(x)) by {
                if s >= w0 {
                    let k = s - w0;
                    assert(self.words@[w0 + k] == old(self).words@[slots0[k] as int]);
                    assert(old(self).slots_of(o)[k] < old(self).words@.len());
                    assert(old(self).word(slots0[k]) matches Some(x) ==> old(self).has(x));
                } else {
                    assert(self.word(s) == old(self).word(s));
                }
            }
            assert forall|x: usize| #[trigger] self.has(x) implies (
            self.object(x).forward matches Some(c) ==> {
                &&& self.is_nursery(x)
                &&& self.has(c)
                &&& self.object(c).space == ObjectSpace::Mature
                &&& self.object(c).marked
            }) by {
                if x != copy && x != o {
                    assert(old(self).has(x));
                    assert(self.object(x) == old(self).object(x));
                    if let Some(c) = self.object(x).forward {
                        assert(old(self).has(c));
                        assert(c != o);
                        assert(self.object(c) == old(self).object(c));
                    }
                }
            }
            assert(self.wf());
            assert(old(self).has(o));
            assert forall|t: usize, s: usize| #[trigger]
                self.copied_slot(*old(self), t, s) implies self.word(s) == old(self).word(t) by {
                let (x, k) = choose|x: usize, k: int| #[trigger]
                    self.copied_at(*old(self), x, k, t, s);
                assert(x == o) by {
                    if x != o {
                        assert(self.object(x) == old(self).object(x));
                    }
                }
                assert(self.slots_of(copy)[k] == slots@[k]);
                assert(self.words@[w0 + k] == old(self).words@[slots0[k] as int]);
            }
        }
        copy
    }
}

/// A heap that comes from one that comes from a third comes from the third.
pub proof fn lemma_grown_add(h0: TraceHeap, h1: TraceHeap, h2: TraceHeap)
    requires
        h0.wf(),
        h1.wf(),
        h2.wf(),
        h1.grown_from(h0),
        h2.grown_from(h1),
    ensures
        h2.grown_from(h0),
        forall|x: usize| #[trigger] h0.has(x) ==> h2.now(h1.now(x)) == h2.now(x),
{
    assert forall|x: usize| #[trigger] h0.has(x) implies h2.now(h1.now(x)) == h2.now(x) by {
        assert(h1.has(x));
        if let Some(c) = h1.object(x).forward {
            assert(h1.has(c));
            assert(h2.has(c));
        }
    }
    assert forall|s: usize| s < h0.words@.len() implies h2.resolved(#[trigger] h2.word(s))
        == h2.resolved(h0.word(s)) by {
        assert(h1.resolved(h1.word(s)) == h1.resolved(h0.word(s)));
        lemma_resolved_again(h0, h1, h2, h1.word(s), h0.word(s));
    }
    assert forall|o: usize| #[trigger] h0.has(o) implies {
        let o0 = h0.object(o);
        let o2 = h2.object(o);
        &&& o2.slots == o0.slots
        &&& o2.space == o0.space || (o0.space == ObjectSpace::YoungLarge && o2.space
            == ObjectSpace::Large && o2.marked)
        &&& o0.marked ==> o2.marked
        &&& o0.forward is Some ==> o2.forward == o0.forward
        &&& o0.forward is None && o2.forward is Some ==> {
            &&& h0.objects@.len() <= o2.forward->0 < h2.objects@.len()
            &&& h2.copy_of(h0, o, o2.forward->0)
        }
    } by {
        assert(h1.has(o));
        if h0.object(o).forward is None && h2.object(o).forward is Some {
            let c = h2.object(o).forward->0;
            if h1.object(o).forward is Some {
                assert(h1.copy_of(h0, o, c));
                assert(h1.has(c));
                assert(h2.slots_of(c) == h1.slots_of(c));
                assert forall|i: int| 0 <= i < h2.slots_of(c).len() implies {
                    &&& h0.words@.len() <= #[trigger] h2.slots_of(c)[i] < h2.words@.len()
                    &&& h2.resolved(h2.word(h2.slots_of(c)[i])) == h2.resolved(
                        h0.word(h0.slots_of(o)[i]),
                    )
                } by {
                    let cs = h1.slots_of(c)[i];
                    let os = h0.slots_of(o)[i];
                    assert(cs < h1.words@.len());
                    assert(os < h0.words@.len());
                    assert(h2.resolved(h2.word(cs)) == h2.resolved(h1.word(cs)));
                    assert(h1.resolved(h1.word(cs)) == h1.resolved(h0.word(os)));
                    lemma_resolved_again(h0, h1, h2, h1.word(cs), h0.word(os));
                }
            } else {
                assert(h2.copy_of(h1, o, c));
                assert(h1.slots_of(o) == h0.slots_of(o));
                assert forall|i: int| 0 <= i < h2.slots_of(c).len() implies {
                    &&& h0.words@.len() <= #[trigger] h2.slots_of(c)[i] < h2.words@.len()
                    &&& h2.resolved(h2.word(h2.slots_of(c)[i])) == h2.resolved(
                        h0.word(h0.slots_of(o)[i]),
                    )
                } by {
                    let os = h0.slots_of(o)[i];
                    assert(os < h0.words@.len());
                    assert(h2.resolved(h2.word(h2.slots_of(c)[i])) == h2.resolved(h1.word(os)));
                    assert(h1.resolved(h1.word(os)) == h1.resolved(h0.word(os)));
                    lemma_resolved_again(h0, h1, h2, h1.word(os), h0.word(os));
                }
            }
        }
    }
    assert forall|c: usize| h0.objects@.len() <= c && #[trigger] h2.has(c) implies {
        &&& h2.object(c).space == ObjectSpace::Mature
        &&& h2.object(c).marked
        &&& h2.object(c).forward is None
        &&& exists|o: usize| #[trigger]
            h0.has(o) && h0.object(o).forward is None && h2.object(o).forward == Some(c)
    } by {
        if h1.has(c) {
            let o = choose|o: usize| #[trigger]
                h0.has(o) && h0.object(o).forward is None && h1.object(o).forward == Some(c);
            assert(h1.has(o));
            assert(h2.object(o).forward == Some(c));
        } else {
            let o = choose|o: usize| #[trigger]
                h1.has(o) && h1.object(o).forward is None && h2.object(o).forward == Some(c);
            assert(h2.has(o));
            assert(h2.is_nursery(o));
            assert(h0.has(o)) by {
                if !h0.has(o) {
                    assert(h1.object(o).space == ObjectSpace::Mature);
                }
            }
            assert(h0.object(o).forward is None);
        }
    }
    assert forall|a: usize, b: usize|
        h0.has(a) && h0.has(b) && a != b && h0.object(a).forward is None
            && h0.object(b).forward is None && (#[trigger] h2.object(a)).forward is Some
        implies h2.object(a).forward != (#[trigger] h2.object(b)).forward by {
        assert(h1.has(a) && h1.has(b));
        if h2.object(b).forward is Some {
            let ca = h2.object(a).forward->0;
            let cb = h2.object(b).forward->0;
            if h1.object(a).forward is Some && h1.object(b).forward is Some {
                assert(h1.object(a).forward != h1.object(b).forward);
            } else if h1.object(a).forward is Some {
                assert(h1.has(ca));
                assert(h1.objects@.len() <= cb);
            } else if h1.object(b).forward is Some {
                assert(h1.has(cb));
                assert(h1.objects@.len() <= ca);
            }
        }
    }
    assert forall|a: usize, b: usize, i: int, j: int|
        h0.objects@.len() <= a && h0.objects@.len() <= b && h2.has(a) && h2.has(b) && 0 <= i
            < h2.slots_of(a).len() && 0 <= j < h2.slots_of(b).len() && (a != b || i != j)
        implies #[trigger] h2.slots_of(a)[i] != #[trigger] h2.slots_of(b)[j] by {
        if h1.has(a) {
            assert(h2.slots_of(a) == h1.slots_of(a));
            assert(h1.slots_of(a)[i] < h1.words@.len());
        } else {
            lemma_copy_slots_are_new(h1, h2, a, i);
        }
        if h1.has(b) {
            assert(h2.slots_of(b) == h1.slots_of(b));
            assert(h1.slots_of(b)[j] < h1.words@.len());
        } else {
            lemma_copy_slots_are_new(h1, h2, b, j);
        }
    }
}

/// A slot that was made for another over two steps was made in one of them: in the first exactly if
/// it is known after that.
pub proof fn lemma_copied_slot_split(
    h0: TraceHeap,
    h1: TraceHeap,
    h2: TraceHeap,
    t: usize,
    s: usize,
)
    requires
        h0.wf(),
        h1.wf(),
        h2.wf(),
        h1.grown_from(h0),
        h2.grown_from(h1),
        h2.copied_slot(h0, t, s),
    ensures
        t < h0.words@.len(),
        h0.words@.len() <= s < h2.words@.len(),
        s < h1.words@.len() ==> h1.copied_slot(h0, t, s),
        s >= h1.words@.len() ==> h2.copied_slot(h1, t, s),
{
    let (o, i) = choose|o: usize, i: int| #[trigger] h2.copied_at(h0, o, i, t, s);
    let c = h2.now(o);
    assert(h0.slots_of(o)[i] < h0.words@.len());
    assert(h1.has(o));
    assert(h1.slots_of(o) == h0.slots_of(o));
    if h1.object(o).forward is Some {
        assert(h1.now(o) == c);
        assert(h1.has(c));
        assert(h2.slots_of(c) == h1.slots_of(c));
        assert(h1.copy_of(h0, o, c));
        assert(h1.slots_of(c)[i] < h1.words@.len());
        assert(h1.copied_at(h0, o, i, t, s));
    } else {
        assert(h2.copy_of(h1, o, c));
        assert(h2.slots_of(c)[i] >= h1.words@.len());
        assert(h2.copied_at(h1, o, i, t, s));
    }
}

/// A heap comes from itself.
pub proof fn lemma_grown_none(h: TraceHeap)
    requires
        h.wf(),
    ensures
        h.grown_from(h),
{
}

/// No slot was made where no object was copied.
pub proof fn lemma_no_copied_slot(h0: TraceHeap, h1: TraceHeap)
    requires
        forall|o: usize| #[trigger] h0.has(o) ==> h1.object(o).forward == h0.object(o).forward,
    ensures
        forall|t: usize, s: usize| !#[trigger] h1.copied_slot(h0, t, s),
{
    assert forall|t: usize, s: usize| !#[trigger] h1.copied_slot(h0, t, s) by {
        if h1.copied_slot(h0, t, s) {
            let (o, i) = choose|o: usize, i: int| #[trigger] h1.copied_at(h0, o, i, t, s);
            assert(h0.has(o));
        }
    }
}

proof fn lemma_copy_slots_are_new(h0: TraceHeap, h1: TraceHeap, c: usize, i: int)
    requires
        h1.grown_from(h0),
        h0.objects@.len() <= c,
        h1.has(c),
        0 <= i < h1.slots_of(c).len(),
    ensures
        h0.words@.len() <= h1.slots_of(c)[i],
{
    let o = choose|o: usize| #[trigger]
        h0.has(o) && h0.object(o).forward is None && h1.object(o).forward == Some(c);
    assert(h1.copy_of(h0, o, c));
}

/// References that resolve alike go on resolving alike.
proof fn lemma_resolved_again(
    h0: TraceHeap,
    h1: TraceHeap,
    h2: TraceHeap,
    v: Option<usize>,
    w: Option<usize>,
)
    requires
        h1.wf(),
        h2.wf(),
        h1.grown_from(h0),
        h2.grown_from(h1),
        h1.resolved(v) == h1.resolved(w),
        v is Some ==> h1.has(v->0),
        w is Some ==> h1.has(w->0),
    ensures
        h2.resolved(v) == h2.resolved(w),
{
    if let Some(x) = v {
        let y = w->0;
        lemma_now_again(h1, h2, x);
        lemma_now_again(h1, h2, y);
    }
}

pub proof fn lemma_now_again(h1: TraceHeap, h2: TraceHeap, x: usize)
    requires
        h1.wf(),
        h2.wf(),
        h2.grown_from(h1),
        h1.has(x),
    ensures
        h2.now(h1.now(x)) == h2.now(x),
{
    if let Some(c) = h1.object(x).forward {
        assert(h1.has(c));
        assert(!h1.is_nursery(c));
        assert(h1.object(c).forward is None);
        assert(h2.has(c));
        assert(!h2.is_nursery(c));
    }
}

/// A heap is in order for a trace if its slots are known words, its references are to objects, and only
/// objects of the nursery were copied, to marked objects of the mature space. No more is asked of it.
pub proof fn law_what_a_heap_needs_for_a_trace(h: TraceHeap)
    requires
        forall|o: int, i: int|
            0 <= o < h.objects@.len() && 0 <= i < h.objects@[o].slots@.len()
                ==> #[trigger] h.objects@[o].slots@[i] < h.words@.len(),
        forall|s: int|
            0 <= s < h.words@.len() ==> (#[trigger] h.words@[s] matches Some(x) ==> x
                < h.objects@.len()),
        forall|o: int|
            0 <= o < h.objects@.len() ==> ((#[trigger] h.objects@[o]).forward matches Some(copy) ==> {
                &&& h.objects@[o].space == ObjectSpace::Nursery
                &&& copy < h.objects@.len()
                &&& h.objects@[copy as int].space == ObjectSpace::Mature
                &&& h.objects@[copy as int].marked
            }),
    ensures
        h.wf(),
{
    assert forall|o: usize, i: int|
        h.has(o) && 0 <= i < h.slots_of(o).len() implies #[trigger] h.slots_of(o)[i]
        < h.words@.len() by {
        assert(h.objects@[o as int].slots@[i] < h.words@.len());
    }
    assert forall|s: usize| s < h.words@.len() implies (#[trigger] h.word(s) matches Some(x)
        ==> h.has(x)) by {
        assert(h.words@[s as int] matches Some(x) ==> x < h.objects@.len());
    }
    assert forall|o: usize| #[trigger] h.has(o) implies (h.object(o).forward matches Some(copy) ==> {
        &&& h.is_nursery(o)
        &&& h.has(copy)
        &&& h.object(copy).space == ObjectSpace::Mature
        &&& h.object(copy).marked
    }) by {
        assert(h.objects@[o as int].forward == h.object(o).forward);
    }
}

} // verus!
