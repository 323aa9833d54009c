//! Root slots.

use vstd::prelude::*;

use crate::plan::lxr::global::LXR;
use crate::plan::lxr::rc::incs;
use crate::plan::lxr::rc::incs::{IncBatch, ProcessIncs};
use crate::plan::lxr::rc::EDGE_KIND_ROOT;
use crate::scheduler::queues;
use crate::vm::{ObjectTable, Slot};

verus! {

/// A buffer of root slots. It never traces: processing it increments what the roots refer to.
pub struct RCImmixCollectRootEdges {
    pub slots: Vec<Slot>,
}

/// Whether processing the root slots `slots` takes the roots of the pause from those of `before` to
/// those of `after`: what the slots refer to is one batch more. No slots make no batch.
pub open spec fn collected(vm: &ObjectTable, before: LXR, after: LXR, slots: Seq<usize>) -> bool {
    &&& after.prev() == before.prev()
    &&& after.curr() == (if slots.len() == 0 {
        before.curr()
    } else {
        before.curr().push(vm.targets(slots))
    })
}

impl RCImmixCollectRootEdges {
    /// A buffer of the root slots `slots`.
    pub fn new(slots: Vec<Slot>, roots: bool) -> (r: Self)
        requires
            roots,
        ensures
            r.slots == slots,
    {
        let _ = roots;
        RCImmixCollectRootEdges { slots }
    }

    /// Turn the root slots into a packet of root increments, and run it at once. What the roots refer
    /// to is entered into the roots of the pause, so that the next pause takes these counts back. The
    /// batches that the packet hands over are appended to `out`.
    pub fn process_slots(
        &mut self,
        vm: &ObjectTable,
        capacity: usize,
        lxr: &mut LXR,
        out: &mut Vec<IncBatch>,
    )
        requires
            old(lxr).heap.wf(vm),
            vm.has_slots(old(self).slots@),
            incs::fits(vm, capacity),
        ensures
            final(lxr).heap.wf(vm),
            final(self).slots@.len() == 0,
            *final(lxr) == (LXR {
                heap: final(lxr).heap,
                curr_roots: final(lxr).curr_roots,
                ..*old(lxr)
            }),
            collected(vm, *old(lxr), *final(lxr), old(self).slots@),
            old(self).slots@.len() == 0 ==> *final(lxr) == *old(lxr) && final(out)@ == old(out)@,
            old(self).slots@.len() > 0 ==> exists|log: Seq<usize>| #[trigger]
                incs::incremented(
                    vm,
                    EDGE_KIND_ROOT,
                    capacity,
                    old(lxr).heap,
                    final(lxr).heap,
                    old(out)@,
                    final(out)@,
                    old(self).slots@,
                    log,
                ),
    {
        if self.slots.len() != 0 {
            let mut roots: Vec<Slot> = Vec::new();
            std::mem::swap(&mut roots, &mut self.slots);
            let targets = vm.targets_of(&roots);
            queues::push_batch(&mut lxr.curr_roots, targets);
            let mut w: ProcessIncs<EDGE_KIND_ROOT> = ProcessIncs::new(roots, capacity);
            w.do_work(vm, &mut lxr.heap, out);
        }
    }
}

} // verus!
