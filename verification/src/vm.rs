//! The heap as a virtual machine lays it out: objects, the words they occupy, and the slots
//! through which they refer to one another.

use vstd::prelude::*;

verus! {

/// An object, named by its position in the object table.
pub type ObjectReference = usize;

/// A slot, named by the word that it occupies.
pub type Slot = usize;

/// Where an object lives.
#[derive(Clone, Copy, PartialEq, Eq, Structural, Debug)]
pub enum Place {
    /// In the Immix space, in the block of this index.
    Immix(usize),
    /// In the large-object space.
    Large,
    /// In another of the spaces that plans have in common.
    Common,
}

/// What the object model says of one object.
pub struct ObjectInfo {
    /// The word at which the object starts.
    pub start: usize,
    /// The size of the object in bytes.
    pub size: usize,
    /// The space that holds the object.
    pub place: Place,
    /// The pointer fields of the object.
    pub slots: Vec<Slot>,
}

/// The objects of a heap, and the reference that each word holds.
pub struct ObjectTable {
    pub objects: Vec<ObjectInfo>,
    pub words: Vec<Option<ObjectReference>>,
}

impl ObjectTable {
    /// The object that slot `s` refers to.
    pub open spec fn target(&self, s: usize) -> Option<usize> {
        self.words@[s as int]
    }

    /// The pointer fields of object `o`.
    pub open spec fn slots_of(&self, o: usize) -> Seq<usize> {
        self.objects@[o as int].slots@
    }

    /// The space that holds object `o`.
    pub open spec fn place_of(&self, o: usize) -> Place {
        self.objects@[o as int].place
    }

    /// Whether object `o` lies in the Immix space.
    pub open spec fn in_immix(&self, o: usize) -> bool {
        self.place_of(o) is Immix
    }

    /// Whether object `o` lies in the large-object space.
    pub open spec fn in_los(&self, o: usize) -> bool {
        self.place_of(o) is Large
    }

    /// Whether `o` names an object.
    pub open spec fn has(&self, o: usize) -> bool {
        o < self.objects@.len()
    }

    /// Whether each of `slots` names a word.
    pub open spec fn has_slots(&self, slots: Seq<usize>) -> bool {
        forall|i: int| 0 <= i < slots.len() ==> #[trigger] slots[i] < self.words@.len()
    }

    /// Every object lies in known words and in one of `blocks` blocks, and every word that
    /// holds a reference refers to an object.
    pub open spec fn wf(&self, blocks: nat) -> bool {
        &&& forall|o: usize| #[trigger] self.has(o) ==> self.has_slots(self.slots_of(o))
        &&& forall|o: usize| #[trigger] self.has(o) ==> self.objects@[o as int].start < self.words@.len()
        &&& forall|o: usize| #[trigger] self.has(o) ==>
            (self.place_of(o) matches Place::Immix(b) ==> b < blocks)
        &&& forall|s: usize| s < self.words@.len() ==>
            (#[trigger] self.target(s) matches Some(x) ==> self.has(x))
    }

    /// How many of `slots` refer to `x`.
    pub open spec fn refs(&self, slots: Seq<usize>, x: usize) -> nat
        decreases slots.len(),
    {
        if slots.len() == 0 {
            0
        } else {
            self.refs(slots.drop_last(), x) + (if self.target(slots.last()) == Some(x) {
                1nat
            } else {
                0nat
            })
        }
    }

    /// The objects that `slots` refer to, in their order.
    pub open spec fn targets(&self, slots: Seq<usize>) -> Seq<usize>
        decreases slots.len(),
    {
        if slots.len() == 0 {
            Seq::empty()
        } else {
            match self.target(slots.last()) {
                Some(x) => self.targets(slots.drop_last()).push(x),
                None => self.targets(slots.drop_last()),
            }
        }
    }

    /// The objects that `slots` refer to, in their order.
    pub fn targets_of(&self, slots: &Vec<Slot>) -> (targets: Vec<ObjectReference>)
        requires
            self.has_slots(slots@),
        ensures
            targets@ == self.targets(slots@),
    {
        let mut targets: Vec<ObjectReference> = Vec::new();
        let mut i: usize = 0;
        assert(slots@.take(0) =~= Seq::empty());
        assert(targets@ =~= self.targets(slots@.take(0)));
        while i < slots.len()
            invariant
                i <= slots@.len(),
                self.has_slots(slots@),
                targets@ =~= self.targets(slots@.take(i as int)),
            decreases slots@.len() - i,
        {
            assert(slots@.take(i as int + 1).drop_last() =~= slots@.take(i as int));
            let slot: Slot = slots[i];
            assert(slots@[i as int] < self.words@.len());
            if let Some(x) = self.words[slot] {
                targets.push(x);
            }
            i = i + 1;
        }
        assert(slots@.take(i as int) =~= slots@);
        targets
    }

    /// How many fields of the objects in `log` refer to `x`.
    pub open spec fn field_refs(&self, log: Seq<usize>, x: usize) -> nat
        decreases log.len(),
    {
        if log.len() == 0 {
            0
        } else {
            self.field_refs(log.drop_last(), x) + self.refs(self.slots_of(log.last()), x)
        }
    }

    /// Whether word `w` is a field of an object in `log`.
    pub open spec fn is_field(&self, log: Seq<usize>, w: usize) -> bool {
        exists|i: int| 0 <= i < log.len() && #[trigger] self.slots_of(log[i]).contains(w)
    }

    pub proof fn lemma_refs_push(&self, slots: Seq<usize>, s: usize, x: usize)
        ensures
            self.refs(slots.push(s), x) == self.refs(slots, x) + (if self.target(s) == Some(x) {
                1nat
            } else {
                0nat
            }),
    {
        assert(slots.push(s).drop_last() =~= slots);
    }

    pub proof fn lemma_refs_add(&self, a: Seq<usize>, b: Seq<usize>, x: usize)
        ensures
            self.refs(a + b, x) == self.refs(a, x) + self.refs(b, x),
        decreases b.len(),
    {
        if b.len() == 0 {
            assert(a + b =~= a);
        } else {
            self.lemma_refs_add(a, b.drop_last(), x);
            assert((a + b).drop_last() =~= a + b.drop_last());
        }
    }

    pub proof fn lemma_field_refs_push(&self, log: Seq<usize>, o: usize, x: usize)
        ensures
            self.field_refs(log.push(o), x) == self.field_refs(log, x) + self.refs(
                self.slots_of(o),
                x,
            ),
    {
        assert(log.push(o).drop_last() =~= log);
    }

    pub proof fn lemma_field_refs_add(&self, a: Seq<usize>, b: Seq<usize>, x: usize)
        ensures
            self.field_refs(a + b, x) == self.field_refs(a, x) + self.field_refs(b, x),
        decreases b.len(),
    {
        if b.len() == 0 {
            assert(a + b =~= a);
        } else {
            self.lemma_field_refs_add(a, b.drop_last(), x);
            assert((a + b).drop_last() =~= a + b.drop_last());
        }
    }
}

/// References are counted slot by slot, by what the words hold; fields are counted object by object, all
/// slots of each; and the targets of slots are what their words hold, in the order of the slots.
pub proof fn law_references_are_counted_one_by_one(
    vm: &ObjectTable,
    slots: Seq<usize>,
    s: usize,
    log: Seq<usize>,
    o: usize,
    x: usize,
)
    ensures
        vm.refs(Seq::empty(), x) == 0,
        vm.words@[s as int] == Some(x) ==> vm.refs(slots.push(s), x) == vm.refs(slots, x) + 1,
        vm.words@[s as int] != Some(x) ==> vm.refs(slots.push(s), x) == vm.refs(slots, x),
        vm.field_refs(Seq::empty(), x) == 0,
        vm.field_refs(log.push(o), x) == vm.field_refs(log, x) + vm.refs(
            vm.objects@[o as int].slots@,
            x,
        ),
        vm.targets(Seq::empty()) == Seq::<usize>::empty(),
        vm.words@[s as int] == Some(x) ==> vm.targets(slots.push(s)) == vm.targets(slots).push(x),
        vm.words@[s as int] is None ==> vm.targets(slots.push(s)) == vm.targets(slots),
{
    assert(slots.push(s).drop_last() =~= slots);
    assert(log.push(o).drop_last() =~= log);
}

/// A table of objects is in order if every object starts in a known word, has known words as its slots
/// and lies in a known block, and if every reference is to an object. No more is asked of it.
pub proof fn law_what_a_table_of_objects_needs(vm: &ObjectTable, blocks: nat)
    requires
        forall|o: int|
            0 <= o < vm.objects@.len() ==> {
                &&& (#[trigger] vm.objects@[o]).start < vm.words@.len()
                &&& forall|i: int|
                    0 <= i < vm.objects@[o].slots@.len() ==> #[trigger] vm.objects@[o].slots@[i]
                        < vm.words@.len()
                &&& vm.objects@[o].place matches Place::Immix(b) ==> b < blocks
            },
        forall|s: int|
            0 <= s < vm.words@.len() ==> (#[trigger] vm.words@[s] matches Some(x) ==> x
                < vm.objects@.len()),
    ensures
        vm.wf(blocks),
{
    assert forall|o: usize| #[trigger] vm.has(o) implies vm.has_slots(vm.slots_of(o)) by {
        assert(vm.objects@[o as int].start < vm.words@.len());
        assert forall|i: int| 0 <= i < vm.slots_of(o).len() implies #[trigger] vm.slots_of(o)[i]
            < vm.words@.len() by {
            assert(vm.objects@[o as int].slots@[i] < vm.words@.len());
        }
    }
    assert forall|s: usize| s < vm.words@.len() implies (#[trigger] vm.target(s) matches Some(
        x,
    ) ==> vm.has(x)) by {
        assert(vm.words@[s as int] matches Some(x) ==> x < vm.objects@.len());
    }
}

} // verus!
