//! The Bactrian plan: which pause comes next, and what each pause does to the spaces.

use vstd::prelude::*;

use crate::plan::concurrent::global::ConcurrentPlan;
use crate::plan::concurrent::Pause;
use crate::plan::global::{BarrierSelector, CommonPlan, PlanConstraints};
use crate::policy::largeobjectspace::LargeObjectSpace;
use crate::scheduler::work_bucket::{BucketView, GCWorkScheduler, WorkBucketStage};
use crate::util::copy::{CopyConfig, CopySelector, CopySemantics, SpaceName};

verus! {

/// What a collection does to the unlog bits of the mature space.
#[derive(Clone, Copy, PartialEq, Eq, Structural, Debug)]
pub enum UnlogBitsOperation {
    NoOp,
    BulkSet,
    BulkClear,
}

/// What the Bactrian plan has its spaces do.
#[derive(Clone, Copy, PartialEq, Eq, Structural, Debug)]
pub enum BactrianAction {
    /// Prepare nursery and common spaces, as the kind of the collection asks for.
    PrepareGen,
    /// Prepare the nursery to be evacuated.
    PrepareNursery,
    /// Have objects that are traced out of the nursery copied with these semantics.
    SetNurseryCopy(CopySemantics),
    /// Prepare the common spaces, for a full collection or not.
    PrepareCommon { full: bool },
    /// Prepare the mature space for a new set of marks.
    PrepareMature(UnlogBitsOperation),
    /// Release nursery and common spaces, as the kind of the collection asks for.
    ReleaseGen,
    /// Release the nursery.
    ReleaseNursery,
    /// Release the common spaces, after a full collection or not.
    ReleaseCommon { full: bool },
    /// Sweep the mature space by its marks.
    ReleaseMature(UnlogBitsOperation),
}

/// The work that a pause is made of.
#[derive(Clone, Copy, PartialEq, Eq, Structural, Debug)]
pub enum BactrianWork {
    /// A collection of the whole heap that may evacuate the mature space.
    FullHeap,
    /// A collection of the nursery, whose trace depends on the kind of the pause.
    NurseryAnchored,
}

/// The addresses of the copying nursery.
pub struct Nursery {
    /// Address ranges, each given by its start and its end.
    pub ranges: Vec<(usize, usize)>,
}

impl Nursery {
    /// Whether `addr` lies in the nursery.
    pub open spec fn has(&self, addr: usize) -> bool {
        exists|i: int|
            0 <= i < self.ranges@.len() && (#[trigger] self.ranges@[i]).0 <= addr
                && addr < self.ranges@[i].1
    }

    /// Whether `addr` lies in the nursery.
    pub fn in_space(&self, addr: usize) -> (r: bool)
        ensures
            r == self.has(addr),
            r == (exists|i: int|
                0 <= i < self.ranges@.len() && (#[trigger] self.ranges@[i]).0 <= addr
                    < self.ranges@[i].1),
    {
        let mut i: usize = 0;
        while i < self.ranges.len()
            invariant
                i <= self.ranges@.len(),
                forall|k: int|
                    0 <= k < i ==> !((#[trigger] self.ranges@[k]).0 <= addr && addr
                        < self.ranges@[k].1),
            decreases self.ranges@.len() - i,
        {
            let (start, end) = self.ranges[i];
            if start <= addr && addr < end {
                assert(self.ranges@[i as int].0 <= addr && addr < self.ranges@[i as int].1);
                return true;
            }
            i = i + 1;
        }
        false
    }
}

/// The generational part of the plan: the nursery and the common spaces.
pub struct CommonGenPlan {
    pub nursery: Nursery,
    pub common: CommonPlan,
    /// Whether the collection in progress is of the whole heap.
    pub gc_full_heap: bool,
    /// Whether a collection of the whole heap was asked for.
    pub next_gc_full_heap: bool,
    /// The number of marking cycles that were started.
    pub full_heap_gc_count: usize,
}

/// Bactrian: a copying nursery and an Immix mature space that is marked concurrently, behind a
/// deletion barrier.
pub struct Bactrian {
    pub gen: CommonGenPlan,
    /// For each space of the plan, whether it allocates objects as live.
    pub allocate_as_live: Vec<bool>,
    pub last_gc_was_defrag: bool,
    pub current_pause: Option<Pause>,
    pub previous_pause: Option<Pause>,
    pub concurrent_marking_active: bool,
}

/// What the choice of the next pause depends on, besides the state of the plan.
#[derive(Clone, Copy, Debug)]
pub struct PauseInputs {
    /// Whether the bucket of concurrent work is drained.
    pub concurrent_drained: bool,
    /// Whether the user asked for this collection.
    pub user_triggered: bool,
    /// Whether every collection that the user asks for is one of the whole heap.
    pub full_heap_system_gc: bool,
    /// How many times the current collection was attempted.
    pub cur_collection_attempts: usize,
    /// The pages that the collection needs to copy in the worst case.
    pub worst_case_copy_pages: usize,
    /// The pages that are left for the mature space.
    pub mature_pages_available: usize,
    /// Whether every collection is to be one of the whole heap.
    pub full_nursery_gc: bool,
    /// Whether marking cycles are replaced by full collections, for debugging.
    pub no_concurrent: bool,
}

impl PauseInputs {
    /// Whether the collection has to be full although no marking cycle was asked for, or, where
    /// `requested`, although one was: the user asked for it, it was attempted before, or the pages
    /// to copy into do not suffice.
    pub open spec fn forces_full(&self, requested: bool) -> bool {
        ||| self.full_nursery_gc
        ||| self.user_triggered && (requested || self.full_heap_system_gc)
        ||| self.cur_collection_attempts > 1
        ||| self.worst_case_copy_pages > self.mature_pages_available
    }
}

/// The next pause, given whether a marking cycle is in progress and whether a collection of the
/// whole heap was asked for. In a cycle, the nursery is collected until marking is done, and then
/// the cycle is ended. Outside of a cycle, a request starts a cycle, unless it has to be a full
/// collection.
pub open spec fn next_pause(marking: bool, requested: bool, inputs: PauseInputs) -> Pause {
    if marking {
        if inputs.concurrent_drained {
            Pause::FinalMark
        } else {
            Pause::Nursery
        }
    } else if inputs.forces_full(requested) || (requested && inputs.no_concurrent) {
        Pause::Full
    } else if requested {
        Pause::InitialMark
    } else {
        Pause::Nursery
    }
}

/// The constraints of the Bactrian plan; those that it does not set are as in `defaults`. A young
/// object must fit both in the nursery and in a block of the mature space.
pub open spec fn constraints_from(
    defaults: PlanConstraints,
    max_immix_object_size: usize,
    max_copying_bytes: usize,
) -> PlanConstraints {
    PlanConstraints {
        moves_objects: true,
        max_non_los_default_alloc_bytes: if max_immix_object_size < max_copying_bytes {
            max_immix_object_size
        } else {
            max_copying_bytes
        },
        generational: true,
        needs_log_bit: true,
        barrier: BarrierSelector::SATBBarrier,
        may_trace_duplicate_edges: true,
        needs_prepare_mutator: true,
        ..defaults
    }
}

/// The constraints of the Bactrian plan; those that it does not set are as in `defaults`.
pub fn bactrian_constraints(
    defaults: PlanConstraints,
    max_immix_object_size: usize,
    max_copying_bytes: usize,
) -> (c: PlanConstraints)
    ensures
        c == constraints_from(defaults, max_immix_object_size, max_copying_bytes),
{
    let max_bytes: usize = if max_immix_object_size < max_copying_bytes {
        max_immix_object_size
    } else {
        max_copying_bytes
    };
    PlanConstraints {
        moves_objects: true,
        max_non_los_default_alloc_bytes: max_bytes,
        generational: true,
        needs_log_bit: true,
        barrier: BarrierSelector::SATBBarrier,
        may_trace_duplicate_edges: true,
        needs_prepare_mutator: true,
        ..defaults
    }
}

/// Whether the plan never uses `stage`: it neither compacts nor forwards in a stage of its own.
pub open spec fn never_used(stage: WorkBucketStage) -> bool {
    match stage {
        WorkBucketStage::VMRefForwarding
        | WorkBucketStage::CalculateForwarding
        | WorkBucketStage::SecondRoots
        | WorkBucketStage::RefForwarding
        | WorkBucketStage::FinalizableForwarding
        | WorkBucketStage::Compact => true,
        _ => false,
    }
}

/// Whether the pause in progress can be what it is: a cycle is neither started nor replaced by a
/// full collection while one is in progress, and only a cycle in progress is ended.
pub open spec fn pause_fits(pause: Pause, marking: bool) -> bool {
    match pause {
        Pause::Full | Pause::InitialMark => !marking,
        Pause::FinalMark => marking,
        Pause::Nursery => true,
    }
}

impl Bactrian {
    /// Objects are allocated as live exactly while a marking cycle is in progress.
    pub open spec fn wf(&self) -> bool {
        forall|i: int|
            0 <= i < self.allocate_as_live@.len() ==> #[trigger] self.allocate_as_live@[i]
                == self.concurrent_marking_active
    }

    /// A plan with `spaces` spaces. Nothing is marked, and the buckets that the plan never uses are
    /// disabled.
    pub fn new<P>(nursery: Nursery, spaces: usize, scheduler: &mut GCWorkScheduler<P>) -> (b: Self)
        requires
            old(scheduler).wf(),
        ensures
            b.wf(),
            b.gen.nursery == nursery,
            b.allocate_as_live@ == Seq::new(spaces as nat, |i: int| false),
            b.gen.common == (CommonPlan {
                los: LargeObjectSpace { full_semantics: false, reserved_pages: 0 },
                used_pages: 0,
            }),
            !b.gen.gc_full_heap,
            !b.gen.next_gc_full_heap,
            b.gen.full_heap_gc_count == 0,
            !b.last_gc_was_defrag,
            b.current_pause is None,
            b.previous_pause is None,
            !b.concurrent_marking_active,
            final(scheduler).wf(),
            forall|s: WorkBucketStage| #[trigger]
                final(scheduler).bucket(s) == (BucketView::<P> {
                    enabled: old(scheduler).bucket(s).enabled && !never_used(s),
                    ..old(scheduler).bucket(s)
                }),
    {
        scheduler.set_enabled(WorkBucketStage::VMRefForwarding, false);
        scheduler.set_enabled(WorkBucketStage::CalculateForwarding, false);
        scheduler.set_enabled(WorkBucketStage::SecondRoots, false);
        scheduler.set_enabled(WorkBucketStage::RefForwarding, false);
        scheduler.set_enabled(WorkBucketStage::FinalizableForwarding, false);
        scheduler.set_enabled(WorkBucketStage::Compact, false);
        let mut allocate_as_live: Vec<bool> = Vec::new();
        let mut i: usize = 0;
        while i < spaces
            invariant
                i <= spaces,
                allocate_as_live@ =~= Seq::new(i as nat, |i: int| false),
            decreases spaces - i,
        {
            allocate_as_live.push(false);
            i = i + 1;
        }
        Bactrian {
            gen: CommonGenPlan {
                nursery,
                common: CommonPlan { los: LargeObjectSpace::new(), used_pages: 0 },
                gc_full_heap: false,
                next_gc_full_heap: false,
                full_heap_gc_count: 0,
            },
            allocate_as_live,
            last_gc_was_defrag: false,
            current_pause: None,
            previous_pause: None,
            concurrent_marking_active: false,
        }
    }

    /// Choose the next pause. Outside of a cycle, a request for a collection of the whole heap is
    /// consumed; in a cycle it is left, to be honoured after the cycle.
    pub fn decide_pause(&mut self, inputs: PauseInputs) -> (pause: Pause)
        ensures
            !old(self).concurrent_marking_active && (inputs.cur_collection_attempts > 1
                || inputs.worst_case_copy_pages > inputs.mature_pages_available) ==> pause
                == Pause::Full,
            pause == Pause::FinalMark <==> old(self).concurrent_marking_active
                && inputs.concurrent_drained,
            pause == Pause::Full || pause == Pause::InitialMark ==> !old(self).concurrent_marking_active,
            pause == Pause::InitialMark ==> old(self).gen.next_gc_full_heap,
            pause == next_pause(
                old(self).concurrent_marking_active,
                old(self).gen.next_gc_full_heap,
                inputs,
            ),
            *final(self) == (Bactrian {
                gen: CommonGenPlan {
                    next_gc_full_heap: old(self).concurrent_marking_active && old(self).gen.next_gc_full_heap,
                    ..old(self).gen
                },
                ..*old(self)
            }),
    {
        if self.concurrent_marking_in_progress() {
            if inputs.concurrent_drained {
                Pause::FinalMark
            } else {
                Pause::Nursery
            }
        } else {
            let cycle_requested = self.gen.next_gc_full_heap;
            self.gen.next_gc_full_heap = false;
            let user_full = inputs.user_triggered && (cycle_requested
                || inputs.full_heap_system_gc);
            let emergency = inputs.cur_collection_attempts > 1;
            let vm_exhausted = inputs.worst_case_copy_pages > inputs.mature_pages_available;
            let full = inputs.full_nursery_gc || user_full || emergency || vm_exhausted;
            if full {
                Pause::Full
            } else if cycle_requested {
                if inputs.no_concurrent {
                    Pause::Full
                } else {
                    Pause::InitialMark
                }
            } else {
                Pause::Nursery
            }
        }
    }

    /// Whether starting a collection turns `before` into `after`.
    pub open spec fn scheduled(before: Bactrian, after: Bactrian, inputs: PauseInputs) -> bool {
        let pause = next_pause(
            before.concurrent_marking_active,
            before.gen.next_gc_full_heap,
            inputs,
        );
        after == (Bactrian {
            gen: CommonGenPlan {
                next_gc_full_heap: before.concurrent_marking_active
                    && before.gen.next_gc_full_heap,
                gc_full_heap: pause == Pause::Full,
                ..before.gen
            },
            current_pause: Some(pause),
            ..before
        })
    }

    /// Start a collection.
    pub fn schedule_collection(&mut self, inputs: PauseInputs) -> (work: BactrianWork)
        ensures
            Self::scheduled(*old(self), *final(self), inputs),
            pause_fits(final(self).current_pause->0, final(self).concurrent_marking_active),
            work == (if final(self).current_pause == Some(Pause::Full) {
                BactrianWork::FullHeap
            } else {
                BactrianWork::NurseryAnchored
            }),
    {
        let pause = self.decide_pause(inputs);
        self.current_pause = Some(pause);
        self.gen.gc_full_heap = matches!(pause, Pause::Full);
        match pause {
            Pause::Full => BactrianWork::FullHeap,
            Pause::InitialMark | Pause::FinalMark | Pause::Nursery => BactrianWork::NurseryAnchored,
        }
    }

    /// Note that the mutators are paused.
    pub fn notify_mutators_paused(&self) -> (pause: Pause)
        requires
            self.current_pause is Some,
            pause_fits(self.current_pause->0, self.concurrent_marking_active),
        ensures
            Some(pause) == self.current_pause,
    {
        match self.current_pause {
            Some(pause) => pause,
            None => Pause::Nursery,
        }
    }

    /// What preparing for `pause` has the spaces do.
    pub open spec fn prepare_actions(pause: Pause) -> Seq<BactrianAction> {
        match pause {
            Pause::Full => seq![
                BactrianAction::PrepareGen,
                BactrianAction::PrepareMature(UnlogBitsOperation::BulkClear),
            ],
            Pause::InitialMark => seq![
                BactrianAction::PrepareNursery,
                BactrianAction::SetNurseryCopy(CopySemantics::PromoteToMature),
                BactrianAction::PrepareCommon { full: true },
                BactrianAction::PrepareMature(UnlogBitsOperation::NoOp),
            ],
            Pause::Nursery => seq![BactrianAction::PrepareGen],
            Pause::FinalMark => seq![
                BactrianAction::PrepareNursery,
                BactrianAction::SetNurseryCopy(CopySemantics::PromoteToMature),
            ],
        }
    }

    /// Whether preparing turns `before` into `after`.
    pub open spec fn prepared(before: Bactrian, after: Bactrian) -> bool {
        let starts = before.current_pause == Some(Pause::InitialMark);
        &&& after.concurrent_marking_active == (before.concurrent_marking_active || starts)
        &&& after.gen.full_heap_gc_count == before.gen.full_heap_gc_count + (if starts {
            1int
        } else {
            0int
        })
        &&& after.allocate_as_live@.len() == before.allocate_as_live@.len()
        &&& after == (Bactrian {
            gen: CommonGenPlan {
                full_heap_gc_count: after.gen.full_heap_gc_count,
                ..before.gen
            },
            allocate_as_live: after.allocate_as_live,
            concurrent_marking_active: after.concurrent_marking_active,
            ..before
        })
    }

    /// Prepare for the pause in progress. A marking cycle starts here, not at the end of its first
    /// pause, so that what this pause promotes is allocated as live.
    pub fn prepare(&mut self) -> (actions: Vec<BactrianAction>)
        requires
            old(self).wf(),
            old(self).current_pause is Some,
            old(self).gen.full_heap_gc_count < usize::MAX,
        ensures
            final(self).wf(),
            actions@ == Self::prepare_actions(old(self).current_pause->0),
            Self::prepared(*old(self), *final(self)),
    {
        let mut actions: Vec<BactrianAction> = Vec::new();
        if let Some(pause) = self.current_pause {
            match pause {
                Pause::Full => {
                    actions.push(BactrianAction::PrepareGen);
                    actions.push(BactrianAction::PrepareMature(UnlogBitsOperation::BulkClear));
                },
                Pause::InitialMark => {
                    self.gen.full_heap_gc_count = self.gen.full_heap_gc_count + 1;
                    actions.push(BactrianAction::PrepareNursery);
                    actions.push(BactrianAction::SetNurseryCopy(CopySemantics::PromoteToMature));
                    actions.push(BactrianAction::PrepareCommon { full: true });
                    actions.push(BactrianAction::PrepareMature(UnlogBitsOperation::NoOp));
                    self.set_concurrent_marking_state(true);
                },
                Pause::Nursery => {
                    actions.push(BactrianAction::PrepareGen);
                },
                Pause::FinalMark => {
                    actions.push(BactrianAction::PrepareNursery);
                    actions.push(BactrianAction::SetNurseryCopy(CopySemantics::PromoteToMature));
                },
            }
        }
        actions
    }

    /// What releasing after `pause` has the spaces do. The mature space is swept only once its
    /// marks are complete.
    pub open spec fn release_actions(pause: Pause) -> Seq<BactrianAction> {
        match pause {
            Pause::Full => seq![
                BactrianAction::ReleaseGen,
                BactrianAction::ReleaseMature(UnlogBitsOperation::NoOp),
            ],
            Pause::InitialMark | Pause::Nursery => seq![BactrianAction::ReleaseGen],
            Pause::FinalMark => seq![
                BactrianAction::ReleaseNursery,
                BactrianAction::ReleaseCommon { full: true },
                BactrianAction::ReleaseMature(UnlogBitsOperation::NoOp),
            ],
        }
    }

    /// Release after the pause in progress.
    pub fn release(&mut self) -> (actions: Vec<BactrianAction>)
        requires
            old(self).current_pause is Some,
        ensures
            *final(self) == *old(self),
            actions@ == Self::release_actions(old(self).current_pause->0),
    {
        let mut actions: Vec<BactrianAction> = Vec::new();
        if let Some(pause) = self.current_pause {
            match pause {
                Pause::Full => {
                    actions.push(BactrianAction::ReleaseGen);
                    actions.push(BactrianAction::ReleaseMature(UnlogBitsOperation::NoOp));
                },
                Pause::InitialMark | Pause::Nursery => {
                    actions.push(BactrianAction::ReleaseGen);
                },
                Pause::FinalMark => {
                    actions.push(BactrianAction::ReleaseNursery);
                    actions.push(BactrianAction::ReleaseCommon { full: true });
                    actions.push(BactrianAction::ReleaseMature(UnlogBitsOperation::NoOp));
                },
            }
        }
        actions
    }

    /// Whether ending the collection turns `before` into `after`.
    pub open spec fn ended(
        before: Bactrian,
        after: Bactrian,
        next_gc_full_heap: bool,
        did_defrag: bool,
    ) -> bool {
        &&& after.concurrent_marking_active == (before.concurrent_marking_active
            && before.current_pause != Some(Pause::FinalMark))
        &&& after.allocate_as_live@.len() == before.allocate_as_live@.len()
        &&& after == (Bactrian {
            gen: CommonGenPlan {
                next_gc_full_heap: before.gen.next_gc_full_heap || next_gc_full_heap,
                ..before.gen
            },
            allocate_as_live: after.allocate_as_live,
            last_gc_was_defrag: did_defrag,
            current_pause: None,
            previous_pause: before.current_pause,
            concurrent_marking_active: after.concurrent_marking_active,
        })
    }

    /// End the collection, given whether the next one should be of the whole heap and whether this
    /// one defragmented the mature space. A request that is pending stays. A cycle ends here, after
    /// the sweep, so that what its last pause promotes survives that sweep.
    pub fn end_of_gc(&mut self, next_gc_full_heap: bool, did_defrag: bool)
        requires
            old(self).wf(),
            old(self).current_pause is Some,
        ensures
            final(self).wf(),
            Self::ended(*old(self), *final(self), next_gc_full_heap, did_defrag),
    {
        self.gen.next_gc_full_heap = self.gen.next_gc_full_heap || next_gc_full_heap;
        self.last_gc_was_defrag = did_defrag;
        if matches!(self.current_pause, Some(Pause::FinalMark)) {
            self.set_concurrent_marking_state(false);
        }
        self.previous_pause = self.current_pause;
        self.current_pause = None;
    }

    /// Whether a marking cycle is in progress.
    pub fn concurrent_marking_in_progress(&self) -> (r: bool)
        ensures
            r == self.concurrent_marking_active,
    {
        self.concurrent_marking_active
    }

    /// Whether a marking cycle is in progress.
    pub fn is_concurrent_marking_active(&self) -> (r: bool)
        ensures
            r == self.concurrent_marking_active,
    {
        self.concurrent_marking_active
    }

    /// Start or end a marking cycle. Every space is told whether to allocate objects as live.
    fn set_concurrent_marking_state(&mut self, active: bool)
        ensures
            *final(self) == (Bactrian {
                allocate_as_live: final(self).allocate_as_live,
                concurrent_marking_active: active,
                ..*old(self)
            }),
            final(self).allocate_as_live@ == Seq::new(
                old(self).allocate_as_live@.len(),
                |i: int| active,
            ),
            final(self).wf(),
    {
        let mut i: usize = 0;
        while i < self.allocate_as_live.len()
            invariant
                i <= self.allocate_as_live@.len(),
                *self == (Bactrian { allocate_as_live: self.allocate_as_live, ..*old(self) }),
                self.allocate_as_live@.len() == old(self).allocate_as_live@.len(),
                forall|k: int| 0 <= k < i ==> #[trigger] self.allocate_as_live@[k] == active,
            decreases self.allocate_as_live@.len() - i,
        {
            self.allocate_as_live[i] = active;
            i = i + 1;
        }
        self.concurrent_marking_active = active;
        assert(self.allocate_as_live@ =~= Seq::new(
            old(self).allocate_as_live@.len(),
            |i: int| active,
        ));
    }

    /// The kind of the pause before.
    pub fn previous_pause(&self) -> (r: Option<Pause>)
        ensures
            r == self.previous_pause,
    {
        self.previous_pause
    }

    /// Whether to collect: concurrent marking has finished all its work, or the generational part
    /// asks for a collection.
    pub fn collection_required(&self, concurrent_drained: bool, gen_requires: bool) -> (r: bool)
        ensures
            r == ((self.concurrent_marking_active && concurrent_drained) || gen_requires),
    {
        if self.concurrent_marking_in_progress() && concurrent_drained {
            return true;
        }
        gen_requires
    }

    /// Whether the last collection freed all that can be freed: it was full, and the mature space
    /// says so. `after_defrag` and `otherwise` are what the mature space says of a collection that
    /// defragmented it, and of one that did not.
    pub fn last_collection_was_exhaustive(&self, after_defrag: bool, otherwise: bool) -> (r: bool)
        ensures
            r == (self.previous_pause == Some(Pause::Full) && (if self.last_gc_was_defrag {
                after_defrag
            } else {
                otherwise
            })),
    {
        matches!(self.previous_pause(), Some(Pause::Full)) && (if self.last_gc_was_defrag {
            after_defrag
        } else {
            otherwise
        })
    }

    /// Whether the last collection reclaimed the whole heap: it was full, or it ended a cycle.
    pub fn last_collection_full_heap(&self) -> (r: bool)
        ensures
            r == (self.previous_pause == Some(Pause::Full) || self.previous_pause == Some(
                Pause::FinalMark,
            )),
    {
        matches!(self.previous_pause(), Some(Pause::Full) | Some(Pause::FinalMark))
    }

    /// Whether the current collection may move objects: every pause moves young objects.
    pub fn current_gc_may_move_object(&self) -> (r: bool)
        ensures
            r,
    {
        true
    }

    /// The pages to keep for the collection.
    pub fn get_collection_reserved_pages(
        &self,
        gen_reserved_pages: usize,
        defrag_headroom_pages: usize,
    ) -> (r: usize)
        requires
            gen_reserved_pages + defrag_headroom_pages <= usize::MAX,
        ensures
            r == gen_reserved_pages + defrag_headroom_pages,
    {
        gen_reserved_pages + defrag_headroom_pages
    }

    /// The pages in use.
    pub fn get_used_pages(&self, gen_used_pages: usize, mature_reserved_pages: usize) -> (r: usize)
        requires
            gen_used_pages + mature_reserved_pages <= usize::MAX,
        ensures
            r == gen_used_pages + mature_reserved_pages,
    {
        gen_used_pages + mature_reserved_pages
    }

    /// The pages that can be allocated, if all allocation goes to the nursery: half of what is not
    /// reserved, since the nursery is copied.
    pub fn get_available_pages(&self, total_pages: usize, reserved_pages: usize) -> (r: usize)
        ensures
            r == (if total_pages < reserved_pages {
                0
            } else {
                (total_pages - reserved_pages) / 2
            }),
    {
        let free: usize = total_pages.saturating_sub(reserved_pages);
        assert(free >> 1usize == free / 2usize) by (bit_vector);
        free >> 1
    }

    /// Whether the collection in progress is of the nursery alone.
    pub fn is_current_gc_nursery(&self) -> (r: bool)
        ensures
            r == !self.gen.gc_full_heap,
    {
        !self.gen.gc_full_heap
    }

    /// Whether the object at `object` is in the nursery.
    pub fn is_object_in_nursery(&self, object: usize) -> (r: bool)
        ensures
            r == self.gen.nursery.has(object),
    {
        self.gen.nursery.in_space(object)
    }

    /// Whether `addr` is in the nursery.
    pub fn is_address_in_nursery(&self, addr: usize) -> (r: bool)
        ensures
            r == self.gen.nursery.has(addr),
    {
        self.gen.nursery.in_space(addr)
    }

    /// Ask for a collection of the whole heap.
    pub fn force_full_heap_collection(&mut self)
        ensures
            *final(self) == (Bactrian {
                gen: CommonGenPlan { next_gc_full_heap: true, ..old(self).gen },
                ..*old(self)
            }),
    {
        self.gen.next_gc_full_heap = true;
    }

    /// The copy allocators of the plan: whatever is copied is copied into the mature space.
    pub fn create_copy_config(&self, constraints: PlanConstraints) -> (c: CopyConfig)
        ensures
            c.wf(),
            c.selector(CopySemantics::DefaultCopy) == CopySelector::Unused,
            c.selector(CopySemantics::PromoteToMature) == CopySelector::ImmixHybrid(0),
            c.selector(CopySemantics::Mature) == CopySelector::ImmixHybrid(0),
            c.space_mapping@ == seq![(CopySelector::ImmixHybrid(0), SpaceName::ImmixMature)],
            c.constraints == constraints,
    {
        let mut space_mapping: Vec<(CopySelector, SpaceName)> = Vec::new();
        space_mapping.push((CopySelector::ImmixHybrid(0), SpaceName::ImmixMature));
        let c = CopyConfig {
            default_copy: CopySelector::Unused,
            promote_to_mature: CopySelector::ImmixHybrid(0),
            mature: CopySelector::ImmixHybrid(0),
            space_mapping,
            constraints,
        };
        assert(c.space_mapping@[0].0 == CopySelector::ImmixHybrid(0));
        c
    }
}

impl ConcurrentPlan for Bactrian {
    open spec fn marking(&self) -> bool {
        self.concurrent_marking_active
    }

    open spec fn pause(&self) -> Option<Pause> {
        self.current_pause
    }

    fn concurrent_work_in_progress(&self) -> (r: bool) {
        self.concurrent_marking_in_progress()
    }

    fn current_pause(&self) -> (r: Option<Pause>) {
        self.current_pause
    }

    /// The nursery is outside of what is marked: its objects are younger than the marking cycle,
    /// and they move in every pause.
    fn should_skip_concurrent_trace(&self, object: usize) -> (r: bool)
        ensures
            r == self.gen.nursery.has(object),
    {
        self.gen.nursery.in_space(object)
    }
}

} // verus!
