//! The LXR plan.

use crossbeam::queue::SegQueue;
use vstd::prelude::*;

use crate::plan::global::{
    extract_side_metadata, BarrierSelector, CommonPlan, MetadataSpec, PlanConstraints,
};
use crate::plan::global;
use crate::plan::lxr::gc_work::RcPacket;
use crate::plan::lxr::rc::decs;
use crate::plan::lxr::rc::laws;
use crate::plan::lxr::rc::roots;
use crate::plan::lxr::rc::{LazySweepingJobsCounter, ProcessDecs};
use crate::plan::lxr::Pause;
use crate::policy::immix::block::{Block, BlockState};
use crate::policy::immix::block_allocation::BlockAllocation;
use crate::policy::immix::space::{ImmixSpace, RcHeap};
use crate::policy::largeobjectspace::LargeObjectSpace;
use crate::scheduler::queues;
use crate::scheduler::work_bucket::{BucketView, GCWorkScheduler, WorkBucketStage};
use crate::util::copy::{CopyConfig, CopySelector, CopySemantics, SpaceName};
use crate::util::rc::RefCountHelper;
use crate::vm::{ObjectReference, ObjectTable};

verus! {

/// What the LXR plan has its spaces do.
#[derive(Clone, Copy, PartialEq, Eq, Structural, Debug)]
pub enum LxrAction {
    /// Prepare the common spaces, for a full collection or not.
    PrepareCommon { full: bool },
    /// Prepare the Immix space for a reference-counting pause.
    PrepareRc(Pause),
    /// Release the common spaces, after a full collection or not.
    ReleaseCommon { full: bool },
    /// Release the Immix space after a reference-counting pause.
    ReleaseRc(Pause),
    /// Start the next phase epoch of the blocks.
    UpdateGlobalPhaseEpoch,
    /// Tell the common spaces that the collection has ended.
    EndOfGCCommon,
}

/// Reference counting on an Immix heap.
pub struct LXR {
    /// The Immix space, the bookkeeping of its clean blocks, and the reference counts.
    pub heap: RcHeap,
    pub common: CommonPlan,
    pub last_gc_was_defrag: bool,
    /// The kind of the pause in progress; `None` outside of a pause.
    pub current_pause: Option<Pause>,
    /// The kind of the pause before. It is not tracked: always `None`.
    pub previous_pause: Option<Pause>,
    /// The roots of the pause before, each kept alive by a count of its own, which the next pause
    /// takes back.
    pub prev_roots: SegQueue<Vec<ObjectReference>>,
    /// The roots of the pause in progress.
    pub curr_roots: SegQueue<Vec<ObjectReference>>,
    /// The side tables that cover the whole heap.
    pub global_side_metadata_specs: Vec<u8>,
    /// Whether the objects of the Immix space stay where they are.
    pub never_move_objects: bool,
}

/// The constraints of the LXR plan; those that it does not set are as in `defaults`. Objects are
/// promoted in place and never move.
pub open spec fn constraints_from(
    defaults: PlanConstraints,
    max_immix_object_size: usize,
) -> PlanConstraints {
    PlanConstraints {
        moves_objects: false,
        max_non_los_default_alloc_bytes: max_immix_object_size,
        needs_log_bit: true,
        needs_field_log_bit: true,
        rc_enabled: true,
        barrier: BarrierSelector::FieldBarrier,
        ..defaults
    }
}

/// The constraints of the LXR plan; those that it does not set are as in `defaults`.
pub fn lxr_constraints(defaults: PlanConstraints, max_immix_object_size: usize) -> (c:
    PlanConstraints)
    ensures
        c == constraints_from(defaults, max_immix_object_size),
{
    PlanConstraints {
        moves_objects: false,
        max_non_los_default_alloc_bytes: max_immix_object_size,
        needs_log_bit: true,
        needs_field_log_bit: true,
        rc_enabled: true,
        barrier: BarrierSelector::FieldBarrier,
        ..defaults
    }
}

/// Whether a reference-counting pause has no use for `stage`: the stages for the closures of weak
/// references, for forwarding and for compaction.
pub open spec fn unused_in_rc_pause(stage: WorkBucketStage) -> bool {
    match stage {
        WorkBucketStage::SoftRefClosure
        | WorkBucketStage::WeakRefClosure
        | WorkBucketStage::FinalRefClosure
        | WorkBucketStage::PhantomRefClosure
        | WorkBucketStage::CalculateForwarding
        | WorkBucketStage::SecondRoots
        | WorkBucketStage::RefForwarding
        | WorkBucketStage::FinalizableForwarding
        | WorkBucketStage::Compact => true,
        _ => false,
    }
}

/// Whether `packet` decrements each of `roots`.
pub open spec fn decrements(packet: RcPacket, roots: Seq<usize>) -> bool {
    &&& packet is ProcessDecs
    &&& packet->ProcessDecs_0.decs is Some
    &&& packet->ProcessDecs_0.decs->0@ == roots
    &&& packet->ProcessDecs_0.decs_arc is None
    &&& packet->ProcessDecs_0.new_decs@.len() == 0
    &&& packet->ProcessDecs_0.counter.decs
}

/// Whether `packets` decrement the roots of each of `batches`, one packet a batch, in their order.
/// There is at least one packet, which has nothing to do if there is no batch.
pub open spec fn dec_packets(packets: Seq<RcPacket>, batches: Seq<Seq<usize>>) -> bool {
    if batches.len() == 0 {
        packets.len() == 1 && decrements(packets[0], Seq::empty())
    } else {
        &&& packets.len() == batches.len()
        &&& forall|i: int|
            0 <= i < batches.len() ==> decrements(#[trigger] packets[i], batches[i])
    }
}

impl LXR {
    /// Whether the plan has at most seen reference-counting pauses, and the bookkeeping of clean blocks
    /// knows the space if it knows the plan.
    pub open spec fn wf(&self) -> bool {
        &&& self.heap.block_allocation.lxr ==> self.heap.block_allocation.space
        &&& self.current_pause is None || self.current_pause == Some(Pause::RefCount)
        &&& self.previous_pause is None
        &&& !self.last_gc_was_defrag
        &&& self.never_move_objects
        &&& self.heap.space.rc_enabled
    }

    /// Whether a reference-counting pause is in progress.
    pub open spec fn in_rc_pause(&self) -> bool {
        self.current_pause == Some(Pause::RefCount)
    }

    /// The batches of roots of the pause before.
    pub open spec fn prev(&self) -> Seq<Seq<usize>> {
        queues::batches(self.prev_roots)
    }

    /// The batches of roots of the pause in progress.
    pub open spec fn curr(&self) -> Seq<Seq<usize>> {
        queues::batches(self.curr_roots)
    }

    /// A plan over the objects of `vm` and the given blocks, none of which is in use. Its side
    /// tables are those of the log bit and of the field-unlog bit, where these are kept on the
    /// side, and the table of reference counts, `rc_table`.
    pub fn new(
        vm: &ObjectTable,
        blocks: Vec<Block>,
        zeroed: bool,
        max_ref_count: u8,
        log_bit: MetadataSpec,
        field_unlog_bit: MetadataSpec,
        rc_table: u8,
    ) -> (lxr: Self)
        requires
            vm.wf(blocks@.len()),
            max_ref_count > 0,
            forall|b: int|
                0 <= b < blocks@.len() ==> (#[trigger] blocks@[b]).state == BlockState::Unallocated
                    && blocks@[b].start + blocks@[b].words <= vm.words@.len(),
        ensures
            lxr.wf(),
            lxr.heap.wf(vm),
            lxr.heap.space.blocks == blocks,
            lxr.heap.space.unlogged@ == Seq::new(vm.words@.len(), |i: int| false),
            lxr.heap.space.marks@ == Seq::new(vm.words@.len(), |i: int| false),
            lxr.heap.space.reserved_blocks == 0,
            lxr.heap.space.possibly_dead_mature_blocks@.len() == 0,
            lxr.heap.space.num_clean_blocks_released_mature == 0,
            lxr.heap.space.num_clean_blocks_released_lazy == 0,
            lxr.heap.space.line_mark_state == 0,
            lxr.heap.space.zeroed == zeroed,
            !lxr.heap.space.in_defrag,
            lxr.heap.space.clean_blocks_in_defrag@.len() == 0,
            lxr.heap.space.mutator_recycled_lines_in_pages == 0,
            lxr.heap.space.allocated() == 0,
            lxr.heap.space.nursery() == 0,
            (forall|b: int| 0 <= b < blocks@.len() ==> !(#[trigger] blocks@[b]).logged)
                ==> laws::sweep_queue_exact(lxr.heap),
            lxr.heap.rc.max_ref_count == max_ref_count,
            forall|o: usize| #[trigger] vm.has(o) ==> lxr.heap.count(o) == 0,
            forall|o: int|
                0 <= o < vm.objects@.len() ==> #[trigger] lxr.heap.rc.straddle@[o] is None,
            lxr.common == (CommonPlan {
                los: LargeObjectSpace { full_semantics: false, reserved_pages: 0 },
                used_pages: 0,
            }),
            !lxr.heap.block_allocation.space,
            !lxr.heap.block_allocation.lxr,
            lxr.heap.block_allocation.num_nursery_blocks == 0,
            lxr.heap.block_allocation.in_place_promoted_nursery_blocks == 0,
            lxr.current_pause is None,
            lxr.prev() == Seq::<Seq<usize>>::empty(),
            lxr.curr() == Seq::<Seq<usize>>::empty(),
            lxr.global_side_metadata_specs@ == global::side_tables(
                seq![log_bit, field_unlog_bit],
            ).push(rc_table),
    {
        let mut specs: Vec<MetadataSpec> = Vec::new();
        specs.push(log_bit);
        specs.push(field_unlog_bit);
        assert(specs@ =~= seq![log_bit, field_unlog_bit]);
        let mut tables = extract_side_metadata(&specs);
        tables.push(rc_table);
        let space = ImmixSpace::new(blocks, vm.words.len(), true, zeroed);
        let rc = RefCountHelper::new(vm.objects.len(), max_ref_count);
        let heap = RcHeap { space, block_allocation: BlockAllocation::new(), rc };
        LXR {
            heap,
            common: CommonPlan { los: LargeObjectSpace::new(), used_pages: 0 },
            last_gc_was_defrag: false,
            current_pause: None,
            previous_pause: None,
            prev_roots: queues::new_batches(),
            curr_roots: queues::new_batches(),
            global_side_metadata_specs: tables,
            never_move_objects: true,
        }
    }

    /// Make space and plan known to the bookkeeping of clean blocks. Once is enough.
    pub fn ensure_block_allocation_initialized(&mut self)
        ensures
            *final(self) == (LXR {
                heap: RcHeap {
                    block_allocation: BlockAllocation {
                        space: old(self).heap.block_allocation.space || !old(self).heap.block_allocation.lxr,
                        lxr: true,
                        ..old(self).heap.block_allocation
                    },
                    ..old(self).heap
                },
                ..*old(self)
            }),
    {
        if !self.heap.block_allocation.lxr {
            self.heap.block_allocation.init();
            self.heap.block_allocation.lxr = true;
        }
    }

    /// The kind of the next pause: always a reference-counting pause.
    pub fn select_collection_kind(&self) -> (p: Pause)
        ensures
            p == Pause::RefCount,
    {
        Pause::RefCount
    }

    /// Disable the buckets that a reference-counting pause has no use for.
    pub fn disable_unnecessary_buckets(&self, scheduler: &mut GCWorkScheduler<RcPacket>, pause: Pause)
        requires
            old(scheduler).wf(),
            pause == Pause::RefCount,
        ensures
            final(scheduler).wf(),
            forall|s: WorkBucketStage| #[trigger]
                final(scheduler).bucket(s) == (BucketView::<RcPacket> {
                    enabled: old(scheduler).bucket(s).enabled && !unused_in_rc_pause(s),
                    ..old(scheduler).bucket(s)
                }),
    {
        let _ = pause;
        scheduler.set_enabled(WorkBucketStage::SoftRefClosure, false);
        scheduler.set_enabled(WorkBucketStage::WeakRefClosure, false);
        scheduler.set_enabled(WorkBucketStage::FinalRefClosure, false);
        scheduler.set_enabled(WorkBucketStage::PhantomRefClosure, false);
        scheduler.set_enabled(WorkBucketStage::CalculateForwarding, false);
        scheduler.set_enabled(WorkBucketStage::SecondRoots, false);
        scheduler.set_enabled(WorkBucketStage::RefForwarding, false);
        scheduler.set_enabled(WorkBucketStage::FinalizableForwarding, false);
        scheduler.set_enabled(WorkBucketStage::Compact, false);
    }

    /// Turn the roots of the pause before into packets that decrement them, one for each batch and
    /// at least one, so that the stage opens.
    pub fn process_prev_roots(&mut self, scheduler: &mut GCWorkScheduler<RcPacket>)
        requires
            old(scheduler).wf(),
        ensures
            final(scheduler).wf(),
            *final(self) == (LXR { prev_roots: final(self).prev_roots, ..*old(self) }),
            final(self).prev().len() == 0,
            exists|packets: Seq<RcPacket>| #[trigger]
                dec_packets(packets, old(self).prev()) && forall|s: WorkBucketStage| #[trigger]
                    final(scheduler).bucket(s) == (if s == WorkBucketStage::STWRCDecsAndSweep {
                        BucketView::<RcPacket> {
                            packets: old(scheduler).bucket(s).packets + packets,
                            ..old(scheduler).bucket(s)
                        }
                    } else {
                        old(scheduler).bucket(s)
                    }),
    {
        let ghost all = self.prev();
        let mut work_packets: Vec<RcPacket> = Vec::new();
        let mut more = true;
        assert(all.skip(0) =~= all);
        while more
            invariant
                *self == (LXR { prev_roots: self.prev_roots, ..*old(self) }),
                work_packets@.len() <= all.len(),
                self.prev() =~= all.skip(work_packets@.len() as int),
                !more ==> self.prev().len() == 0,
                forall|i: int|
                    0 <= i < work_packets@.len() ==> decrements(
                        #[trigger] work_packets@[i],
                        all[i],
                    ),
            decreases
                    all.len() - work_packets@.len(),
                    if more {
                        1int
                    } else {
                        0int
                    },
        {
            match queues::pop_batch(&mut self.prev_roots) {
                Some(decs) => {
                    work_packets.push(
                        RcPacket::ProcessDecs(
                            ProcessDecs::new(decs, LazySweepingJobsCounter::new_decs()),
                        ),
                    );
                },
                None => {
                    more = false;
                },
            }
        }
        if work_packets.len() == 0 {
            let none: Vec<ObjectReference> = Vec::new();
            assert(none@ =~= Seq::empty());
            work_packets.push(
                RcPacket::ProcessDecs(ProcessDecs::new(none, LazySweepingJobsCounter::new_decs())),
            );
        }
        assert(dec_packets(work_packets@, all));
        scheduler.bulk_add(WorkBucketStage::STWRCDecsAndSweep, work_packets);
    }

    /// Whether `after` holds the packets of a reference-counting pause besides those of `before`:
    /// `decs` decrement the roots of the pause before, the mutators are stopped first, the plan is
    /// prepared in the first stage of the pause and released in the last; the sweep of the blocks that
    /// the decrements leave waits for all of these; and the buckets without use are disabled.
    pub open spec fn rc_pause_scheduled(
        before: GCWorkScheduler<RcPacket>,
        after: GCWorkScheduler<RcPacket>,
        decs: Seq<RcPacket>,
    ) -> bool {
        forall|s: WorkBucketStage| #[trigger]
            after.bucket(s) == (BucketView::<RcPacket> {
                enabled: before.bucket(s).enabled && !unused_in_rc_pause(s),
                packets: match s {
                    WorkBucketStage::STWRCDecsAndSweep => before.bucket(s).packets + decs,
                    WorkBucketStage::Unconstrained => before.bucket(s).packets.push(
                        RcPacket::StopMutators,
                    ),
                    WorkBucketStage::RCProcessIncs => before.bucket(s).packets.push(
                        RcPacket::FastRCPrepare,
                    ),
                    WorkBucketStage::Release => before.bucket(s).packets.push(RcPacket::Release),
                    _ => before.bucket(s).packets,
                },
                sentinel: if s == WorkBucketStage::STWRCDecsAndSweep {
                    Some(RcPacket::RCBlockSweepEpilogue)
                } else {
                    before.bucket(s).sentinel
                },
                ..before.bucket(s)
            })
    }

    /// Schedule a reference-counting pause.
    pub fn schedule_rc_collection(&mut self, scheduler: &mut GCWorkScheduler<RcPacket>)
        requires
            old(scheduler).wf(),
        ensures
            final(scheduler).wf(),
            *final(self) == (LXR { prev_roots: final(self).prev_roots, ..*old(self) }),
            final(self).prev().len() == 0,
            exists|decs: Seq<RcPacket>| #[trigger]
                dec_packets(decs, old(self).prev()) && Self::rc_pause_scheduled(
                    *old(scheduler),
                    *final(scheduler),
                    decs,
                ),
    {
        self.disable_unnecessary_buckets(scheduler, Pause::RefCount);
        let ghost s1 = *scheduler;
        self.process_prev_roots(scheduler);
        let ghost s2 = *scheduler;
        scheduler.add_packet(WorkBucketStage::Unconstrained, RcPacket::StopMutators);
        scheduler.add_packet(WorkBucketStage::RCProcessIncs, RcPacket::FastRCPrepare);
        scheduler.add_packet(WorkBucketStage::Release, RcPacket::Release);
        scheduler.set_sentinel(
            WorkBucketStage::STWRCDecsAndSweep,
            RcPacket::RCBlockSweepEpilogue,
        );
        proof {
            let decs = choose|packets: Seq<RcPacket>| #[trigger]
                dec_packets(packets, old(self).prev()) && forall|s: WorkBucketStage| #[trigger]
                    s2.bucket(s) == (if s == WorkBucketStage::STWRCDecsAndSweep {
                        BucketView::<RcPacket> {
                            packets: s1.bucket(s).packets + packets,
                            ..s1.bucket(s)
                        }
                    } else {
                        s1.bucket(s)
                    });
            assert(Self::rc_pause_scheduled(*old(scheduler), *scheduler, decs));
        }
    }

    /// Start a collection: it is a reference-counting pause.
    pub fn schedule_collection(&mut self, scheduler: &mut GCWorkScheduler<RcPacket>)
        requires
            old(self).wf(),
            old(scheduler).wf(),
        ensures
            final(self).wf(),
            final(self).in_rc_pause(),
            final(self).heap.block_allocation.space,
            final(scheduler).wf(),
            *final(self) == (LXR {
                heap: RcHeap {
                    block_allocation: BlockAllocation {
                        space: old(self).heap.block_allocation.space || !old(self).heap.block_allocation.lxr,
                        lxr: true,
                        ..old(self).heap.block_allocation
                    },
                    ..old(self).heap
                },
                current_pause: Some(Pause::RefCount),
                prev_roots: final(self).prev_roots,
                ..*old(self)
            }),
            final(self).prev().len() == 0,
            exists|decs: Seq<RcPacket>| #[trigger]
                dec_packets(decs, old(self).prev()) && Self::rc_pause_scheduled(
                    *old(scheduler),
                    *final(scheduler),
                    decs,
                ),
    {
        self.ensure_block_allocation_initialized();
        let pause = self.select_collection_kind();
        self.current_pause = Some(pause);
        let ghost roots = self.prev();
        assert(roots == old(self).prev());
        self.schedule_rc_collection(scheduler);
        proof {
            let decs = choose|decs: Seq<RcPacket>| #[trigger]
                dec_packets(decs, roots) && Self::rc_pause_scheduled(
                    *old(scheduler),
                    *scheduler,
                    decs,
                );
            assert(dec_packets(decs, old(self).prev()));
        }
    }

    /// What preparing for `pause` has the spaces do. The heap is not prepared as for a full
    /// collection.
    pub open spec fn prepare_actions(pause: Pause) -> Seq<LxrAction> {
        seq![LxrAction::PrepareCommon { full: false }, LxrAction::PrepareRc(pause)]
    }

    /// Prepare for the pause in progress.
    pub fn prepare(&mut self) -> (actions: Vec<LxrAction>)
        requires
            old(self).in_rc_pause(),
        ensures
            *final(self) == *old(self),
            actions@ == Self::prepare_actions(old(self).current_pause->0),
    {
        let mut actions: Vec<LxrAction> = Vec::new();
        if let Some(pause) = self.current_pause {
            actions.push(LxrAction::PrepareCommon { full: false });
            actions.push(LxrAction::PrepareRc(pause));
        }
        actions
    }

    /// Whether releasing turns `before` into `after`: the two queues of roots change places.
    pub open spec fn releases(before: LXR, after: LXR) -> bool {
        after == (LXR {
            prev_roots: before.curr_roots,
            curr_roots: before.prev_roots,
            ..before
        })
    }

    /// Release after the pause in progress. Its roots become those of the pause before.
    pub fn release(&mut self) -> (actions: Vec<LxrAction>)
        requires
            old(self).in_rc_pause(),
            old(self).prev().len() == 0,
        ensures
            Self::releases(*old(self), *final(self)),
            final(self).prev() == old(self).curr(),
            final(self).curr().len() == 0,
            actions@ == seq![
                LxrAction::ReleaseCommon { full: false },
                LxrAction::ReleaseRc(Pause::RefCount),
                LxrAction::UpdateGlobalPhaseEpoch,
            ],
    {
        let mut actions: Vec<LxrAction> = Vec::new();
        if let Some(pause) = self.current_pause {
            actions.push(LxrAction::ReleaseCommon { full: false });
            actions.push(LxrAction::ReleaseRc(pause));
            std::mem::swap(&mut self.prev_roots, &mut self.curr_roots);
            actions.push(LxrAction::UpdateGlobalPhaseEpoch);
        }
        actions
    }

    /// End the collection.
    pub fn end_of_gc(&mut self) -> (actions: Vec<LxrAction>)
        ensures
            *final(self) == (LXR {
                current_pause: None,
                last_gc_was_defrag: false,
                ..*old(self)
            }),
            actions@ == seq![LxrAction::EndOfGCCommon],
    {
        self.current_pause = None;
        self.last_gc_was_defrag = false;
        let mut actions: Vec<LxrAction> = Vec::new();
        actions.push(LxrAction::EndOfGCCommon);
        actions
    }

    /// Whether the last collection freed all that can be freed: whether the Immix space says so.
    /// `after_defrag` and `otherwise` are what it says of a collection that defragmented it, and of
    /// one that did not.
    pub fn last_collection_was_exhaustive(&self, after_defrag: bool, otherwise: bool) -> (r: bool)
        ensures
            r == (if self.last_gc_was_defrag {
                after_defrag
            } else {
                otherwise
            }),
    {
        if self.last_gc_was_defrag {
            after_defrag
        } else {
            otherwise
        }
    }

    /// The copy allocators of the plan. They are there although nothing is copied.
    pub fn create_copy_config(&self, constraints: PlanConstraints) -> (c: CopyConfig)
        ensures
            c.wf(),
            c.selector(CopySemantics::DefaultCopy) == CopySelector::Immix(0),
            c.selector(CopySemantics::PromoteToMature) == CopySelector::Unused,
            c.selector(CopySemantics::Mature) == CopySelector::Unused,
            c.space_mapping@ == seq![(CopySelector::Immix(0), SpaceName::Immix)],
            c.constraints == constraints,
    {
        let mut space_mapping: Vec<(CopySelector, SpaceName)> = Vec::new();
        space_mapping.push((CopySelector::Immix(0), SpaceName::Immix));
        let c = CopyConfig {
            default_copy: CopySelector::Immix(0),
            promote_to_mature: CopySelector::Unused,
            mature: CopySelector::Unused,
            space_mapping,
            constraints,
        };
        assert(c.space_mapping@[0].0 == CopySelector::Immix(0));
        c
    }

    /// The large-object space.
    pub fn los(&self) -> (r: &LargeObjectSpace)
        ensures
            *r == self.common.los,
    {
        &self.common.los
    }

    /// Whether a marking cycle is in progress: there is none.
    pub fn cm_in_progress(&self) -> (r: bool)
        ensures
            !r,
    {
        false
    }

    /// Whether there are marking cycles: there are none.
    pub fn cm_enabled(&self) -> (r: bool)
        ensures
            !r,
    {
        false
    }

    /// Whether a marking cycle is in progress or ends in the current pause. There is no cycle in
    /// progress, and a plan that has only seen reference-counting pauses ends none.
    pub fn cm_in_progress_or_final_mark(&self) -> (r: bool)
        ensures
            r == (self.current_pause == Some(Pause::FinalMark)),
            self.wf() ==> !r,
    {
        self.cm_in_progress() || matches!(self.current_pause(), Some(Pause::FinalMark))
    }

    /// The kind of the pause in progress; `None` outside of a pause.
    pub fn current_pause(&self) -> (r: Option<Pause>)
        ensures
            r == self.current_pause,
    {
        self.current_pause
    }

    /// The kind of the pause before, as far as the plan has noted one: it is not tracked.
    pub fn previous_pause(&self) -> (r: Option<Pause>)
        ensures
            r == self.previous_pause,
            self.wf() ==> r is None,
    {
        self.previous_pause
    }

    /// Whether `object` is marked.
    pub fn is_marked(&self, vm: &ObjectTable, object: ObjectReference) -> (r: bool)
        requires
            self.heap.wf(vm),
            vm.has(object),
        ensures
            r == self.heap.space.marks@[vm.objects@[object as int].start as int],
    {
        self.heap.space.is_marked(vm.objects[object].start)
    }

    /// Mark `object`. Returns whether it was not marked before.
    pub fn mark(&mut self, vm: &ObjectTable, object: ObjectReference) -> (r: bool)
        requires
            old(self).heap.wf(vm),
            vm.has(object),
        ensures
            final(self).heap.wf(vm),
            r == !old(self).heap.space.marks@[vm.objects@[object as int].start as int],
            *final(self) == (LXR {
                heap: RcHeap {
                    space: ImmixSpace {
                        marks: final(self).heap.space.marks,
                        ..old(self).heap.space
                    },
                    ..old(self).heap
                },
                ..*old(self)
            }),
            final(self).heap.space.marks@ == old(self).heap.space.marks@.update(
                vm.objects@[object as int].start as int,
                true,
            ),
    {
        self.heap.space.attempt_mark_rc(vm.objects[object].start)
    }

    /// Whether `object` lies in a block that is being evacuated: none is.
    pub fn in_defrag(&self, _object: ObjectReference) -> (r: bool)
        ensures
            !r,
    {
        false
    }

    /// Whether word `addr` lies in a block that is being evacuated: none is.
    pub fn address_in_defrag(&self, _addr: usize) -> (r: bool)
        ensures
            !r,
    {
        false
    }

    /// Whether the current collection may move objects: it does not.
    pub fn current_gc_may_move_object(&self) -> (r: bool)
        ensures
            !r,
    {
        false
    }

    /// The pages to keep for the collection: those that defragmenting the Immix space may take.
    pub fn get_collection_reserved_pages(&self, defrag_headroom_pages: usize) -> (r: usize)
        ensures
            r == defrag_headroom_pages,
    {
        defrag_headroom_pages
    }

    /// The pages in use: those that the Immix space has reserved and those of the common spaces.
    pub fn get_used_pages(&self, immix_reserved_pages: usize) -> (r: usize)
        requires
            immix_reserved_pages + self.common.used_pages <= usize::MAX,
        ensures
            r == immix_reserved_pages + self.common.used_pages,
    {
        immix_reserved_pages + self.common.used_pages
    }
}

/// How often the packets `decs` decrement `x`.
pub open spec fn packet_occurrences(decs: Seq<RcPacket>, x: usize) -> nat
    decreases decs.len(),
{
    if decs.len() == 0 {
        0
    } else {
        packet_occurrences(decs.drop_last(), x) + decs::occurrences(
            decs.last()->ProcessDecs_0.decs->0@,
            x,
        )
    }
}

/// How often `x` occurs in `batches`.
pub open spec fn root_occurrences(batches: Seq<Seq<usize>>, x: usize) -> nat
    decreases batches.len(),
{
    if batches.len() == 0 {
        0
    } else {
        root_occurrences(batches.drop_last(), x) + decs::occurrences(batches.last(), x)
    }
}

/// How often the buffers of root slots `scans` refer to `x`.
pub open spec fn scan_refs(vm: &ObjectTable, scans: Seq<Seq<usize>>, x: usize) -> nat
    decreases scans.len(),
{
    if scans.len() == 0 {
        0
    } else {
        scan_refs(vm, scans.drop_last(), x) + vm.refs(scans.last(), x)
    }
}

proof fn lemma_targets_count_references(vm: &ObjectTable, slots: Seq<usize>, x: usize)
    ensures
        decs::occurrences(vm.targets(slots), x) == vm.refs(slots, x),
    decreases slots.len(),
{
    if slots.len() > 0 {
        lemma_targets_count_references(vm, slots.drop_last(), x);
        if let Some(y) = vm.target(slots.last()) {
            decs::lemma_occurrences_push(vm.targets(slots.drop_last()), y, x);
        }
    }
}

proof fn lemma_packets_decrement_roots(decs: Seq<RcPacket>, batches: Seq<Seq<usize>>, x: usize)
    requires
        decs.len() == batches.len(),
        forall|i: int| 0 <= i < batches.len() ==> decrements(#[trigger] decs[i], batches[i]),
    ensures
        packet_occurrences(decs, x) == root_occurrences(batches, x),
    decreases decs.len(),
{
    if decs.len() > 0 {
        let d = decs.drop_last();
        let b = batches.drop_last();
        assert forall|i: int| 0 <= i < b.len() implies decrements(#[trigger] d[i], b[i]) by {
            assert(decrements(decs[i], batches[i]));
        }
        lemma_packets_decrement_roots(d, b, x);
        assert(decrements(decs[decs.len() - 1], batches[decs.len() - 1]));
    }
}

proof fn lemma_roots_are_collected(
    vm: &ObjectTable,
    plans: Seq<LXR>,
    scans: Seq<Seq<usize>>,
    n: int,
    x: usize,
)
    requires
        plans.len() == scans.len() + 1,
        plans[0].curr().len() == 0,
        forall|i: int|
            0 <= i < scans.len() ==> roots::collected(
                vm,
                plans[i],
                plans[i + 1],
                #[trigger] scans[i],
            ),
        0 <= n <= scans.len(),
    ensures
        root_occurrences(plans[n].curr(), x) == scan_refs(vm, scans.take(n), x),
        plans[n].prev() == plans[0].prev(),
    decreases n,
{
    if n > 0 {
        lemma_roots_are_collected(vm, plans, scans, n - 1, x);
        let slots = scans[n - 1];
        assert(roots::collected(vm, plans[n - 1], plans[n], slots));
        assert(scans.take(n).drop_last() =~= scans.take(n - 1));
        lemma_targets_count_references(vm, slots, x);
        if slots.len() > 0 {
            assert(plans[n].curr().drop_last() =~= plans[n - 1].curr());
        }
    } else {
        assert(scans.take(0) =~= Seq::empty());
    }
}

/// The counts that the root scans of a pause have added are taken back in the next pause: its packets
/// decrement every object as often as the root slots referred to it, and nothing is left over.
/// `plans` are the states of the plan between the scans of the pause, `scans` the buffers of root
/// slots, and `released` is the plan after the pause.
pub proof fn law_root_counts_are_taken_back_in_the_next_pause(
    vm: &ObjectTable,
    plans: Seq<LXR>,
    scans: Seq<Seq<usize>>,
    released: LXR,
    before: GCWorkScheduler<RcPacket>,
    after: GCWorkScheduler<RcPacket>,
    decs: Seq<RcPacket>,
    x: usize,
)
    requires
        plans.len() == scans.len() + 1,
        plans[0].prev().len() == 0,
        plans[0].curr().len() == 0,
        forall|i: int|
            0 <= i < scans.len() ==> roots::collected(
                vm,
                plans[i],
                plans[i + 1],
                #[trigger] scans[i],
            ),
        LXR::releases(plans.last(), released),
        dec_packets(decs, released.prev()),
        LXR::rc_pause_scheduled(before, after, decs),
    ensures
        after.bucket(WorkBucketStage::STWRCDecsAndSweep).packets == before.bucket(
            WorkBucketStage::STWRCDecsAndSweep,
        ).packets + decs,
        packet_occurrences(decs, x) == scan_refs(vm, scans, x),
        released.curr().len() == 0,
{
    lemma_roots_are_collected(vm, plans, scans, scans.len() as int, x);
    assert(scans.take(scans.len() as int) =~= scans);
    let stage = WorkBucketStage::STWRCDecsAndSweep;
    assert(after.bucket(stage).packets == before.bucket(stage).packets + decs);
    if released.prev().len() == 0 {
        assert(decrements(decs[0], Seq::empty()));
        assert(decs.drop_last() =~= Seq::empty());
        assert(packet_occurrences(decs.drop_last(), x) == 0);
        assert(decs.last() == decs[0]);
    } else {
        lemma_packets_decrement_roots(decs, released.prev(), x);
    }
}

/// The roots that a pause has collected are decremented in the next pause, each batch by a packet
/// of its own; and none of them is left over for a later pause.
pub proof fn law_roots_are_decremented_in_the_next_pause(
    collected: LXR,
    released: LXR,
    before: GCWorkScheduler<RcPacket>,
    after: GCWorkScheduler<RcPacket>,
    decs: Seq<RcPacket>,
)
    requires
        collected.prev().len() == 0,
        LXR::releases(collected, released),
        dec_packets(decs, released.prev()),
        LXR::rc_pause_scheduled(before, after, decs),
    ensures
        dec_packets(
            after.bucket(WorkBucketStage::STWRCDecsAndSweep).packets.skip(
                before.bucket(WorkBucketStage::STWRCDecsAndSweep).packets.len() as int,
            ),
            collected.curr(),
        ),
        released.curr().len() == 0,
{
    let stage = WorkBucketStage::STWRCDecsAndSweep;
    assert(after.bucket(stage).packets == before.bucket(stage).packets + decs);
    assert(after.bucket(stage).packets.skip(before.bucket(stage).packets.len() as int) =~= decs);
}

/// The plan sets what it needs of reference counting, and leaves the other constraints as they are.
pub proof fn law_only_the_constraints_of_counting_are_set(
    defaults: PlanConstraints,
    max_immix_object_size: usize,
)
    ensures
        ({
            let c = constraints_from(defaults, max_immix_object_size);
            &&& !c.moves_objects
            &&& c.max_non_los_default_alloc_bytes == max_immix_object_size
            &&& c.needs_log_bit
            &&& c.needs_field_log_bit
            &&& c.rc_enabled
            &&& c.barrier == BarrierSelector::FieldBarrier
            &&& c.generational == defaults.generational
            &&& c.may_trace_duplicate_edges == defaults.may_trace_duplicate_edges
            &&& c.needs_prepare_mutator == defaults.needs_prepare_mutator
        }),
{
}

/// A scheduled pause adds to each stage what belongs there, and nothing else: behind what waited
/// already, it stops the mutators, prepares the plan, decrements the old roots and releases the plan,
/// each in its own stage; the sweep waits for the decrements. What is prioritized stays.
pub proof fn law_a_pause_adds_its_packets_to_their_stages(
    before: GCWorkScheduler<RcPacket>,
    after: GCWorkScheduler<RcPacket>,
    decs: Seq<RcPacket>,
    stage: WorkBucketStage,
)
    requires
        LXR::rc_pause_scheduled(before, after, decs),
    ensures
        stage == WorkBucketStage::Unconstrained ==> after.bucket(stage).packets == before.bucket(
            stage,
        ).packets.push(RcPacket::StopMutators),
        stage == WorkBucketStage::RCProcessIncs ==> after.bucket(stage).packets == before.bucket(
            stage,
        ).packets.push(RcPacket::FastRCPrepare),
        stage == WorkBucketStage::STWRCDecsAndSweep ==> after.bucket(stage).packets
            == before.bucket(stage).packets + decs,
        stage == WorkBucketStage::STWRCDecsAndSweep ==> after.bucket(stage).sentinel == Some(
            RcPacket::RCBlockSweepEpilogue,
        ),
        stage == WorkBucketStage::Release ==> after.bucket(stage).packets == before.bucket(
            stage,
        ).packets.push(RcPacket::Release),
        stage != WorkBucketStage::Unconstrained && stage != WorkBucketStage::RCProcessIncs && stage
            != WorkBucketStage::STWRCDecsAndSweep && stage != WorkBucketStage::Release
            ==> after.bucket(stage).packets == before.bucket(stage).packets,
        stage != WorkBucketStage::STWRCDecsAndSweep ==> after.bucket(stage).sentinel
            == before.bucket(stage).sentinel,
        after.bucket(stage).open == before.bucket(stage).open,
        after.bucket(stage).prioritized == before.bucket(stage).prioritized,
{
}

/// A stage is enabled in a scheduled pause exactly if it was before and is none of those for weak
/// references, forwarding and compaction. So every stage that gets a packet stays as it was.
pub proof fn law_a_pause_disables_the_stages_without_use(
    before: GCWorkScheduler<RcPacket>,
    after: GCWorkScheduler<RcPacket>,
    decs: Seq<RcPacket>,
    stage: WorkBucketStage,
)
    requires
        LXR::rc_pause_scheduled(before, after, decs),
    ensures
        stage == WorkBucketStage::SoftRefClosure || stage == WorkBucketStage::WeakRefClosure || stage
            == WorkBucketStage::FinalRefClosure || stage == WorkBucketStage::PhantomRefClosure
            || stage == WorkBucketStage::CalculateForwarding || stage
            == WorkBucketStage::SecondRoots || stage == WorkBucketStage::RefForwarding || stage
            == WorkBucketStage::FinalizableForwarding || stage == WorkBucketStage::Compact
            ==> !after.bucket(stage).enabled && unused_in_rc_pause(stage),
        stage == WorkBucketStage::Unconstrained || stage == WorkBucketStage::Concurrent || stage
            == WorkBucketStage::RCProcessIncs || stage == WorkBucketStage::Prepare || stage
            == WorkBucketStage::Closure || stage == WorkBucketStage::VMRefForwarding || stage
            == WorkBucketStage::STWRCDecsAndSweep || stage == WorkBucketStage::Release || stage
            == WorkBucketStage::Final ==> after.bucket(stage).enabled == before.bucket(stage).enabled
            && !unused_in_rc_pause(stage),
        after.bucket(stage).packets != before.bucket(stage).packets ==> after.bucket(stage).enabled
            == before.bucket(stage).enabled,
{
}

/// Each batch of old roots is decremented by a packet of its own: the packet at a position decrements
/// what the batch at that position holds, and the sweeping jobs wait for it. Without a batch there is
/// one packet with nothing to decrement.
pub proof fn law_each_batch_of_roots_has_its_packet(
    packets: Seq<RcPacket>,
    batches: Seq<Seq<usize>>,
    i: int,
)
    requires
        dec_packets(packets, batches),
        0 <= i < packets.len(),
    ensures
        batches.len() > 0 ==> packets.len() == batches.len(),
        batches.len() == 0 ==> packets.len() == 1,
        match packets[i] {
            RcPacket::ProcessDecs(p) => {
                &&& p.decs is Some
                &&& batches.len() > 0 ==> p.decs.unwrap()@ == batches[i]
                &&& batches.len() == 0 ==> p.decs.unwrap()@.len() == 0
                &&& p.decs_arc is None
                &&& p.new_decs@.len() == 0
                &&& p.counter.decs
            },
            _ => false,
        },
{
    if batches.len() > 0 {
        assert(decrements(packets[i], batches[i]));
    } else {
        assert(decrements(packets[0], Seq::empty()));
    }
}

/// Processing root slots adds to the roots of the pause, behind those that are there, one batch with
/// what the slots refer to, in their order; without a slot, none. The roots of the pause before stay.
pub proof fn law_root_slots_add_their_targets(
    vm: &ObjectTable,
    before: LXR,
    after: LXR,
    slots: Seq<usize>,
    i: int,
)
    requires
        roots::collected(vm, before, after, slots),
    ensures
        queues::batches(after.prev_roots) == queues::batches(before.prev_roots),
        slots.len() == 0 ==> queues::batches(after.curr_roots) == queues::batches(
            before.curr_roots,
        ),
        slots.len() > 0 ==> queues::batches(after.curr_roots) == queues::batches(
            before.curr_roots,
        ).push(vm.targets(slots)),
        slots.len() > 0 && 0 <= i < slots.len() && vm.words@[slots[i] as int] is Some
            ==> queues::batches(after.curr_roots).last().contains(
            vm.words@[slots[i] as int].unwrap(),
        ),
{
    if 0 <= i < slots.len() && vm.words@[slots[i] as int] is Some {
        lemma_target_is_held(vm, slots, i);
    }
}

proof fn lemma_target_is_held(vm: &ObjectTable, slots: Seq<usize>, i: int)
    requires
        0 <= i < slots.len(),
        vm.words@[slots[i] as int] is Some,
    ensures
        vm.targets(slots).contains(vm.words@[slots[i] as int].unwrap()),
    decreases slots.len(),
{
    let x = vm.words@[slots[i] as int].unwrap();
    let rest = vm.targets(slots.drop_last());
    if i < slots.len() - 1 {
        lemma_target_is_held(vm, slots.drop_last(), i);
        let k = rest.index_of(x);
        assert(vm.targets(slots)[k] == x);
    } else {
        assert(vm.targets(slots)[rest.len() as int] == x);
    }
}

/// Releasing hands the roots of the pause on to the next one, and changes nothing else of the plan.
pub proof fn law_releasing_hands_the_roots_on(before: LXR, after: LXR)
    requires
        LXR::releases(before, after),
    ensures
        after.prev_roots == before.curr_roots,
        after.curr_roots == before.prev_roots,
        after.heap == before.heap,
        after.common == before.common,
        after.last_gc_was_defrag == before.last_gc_was_defrag,
        after.current_pause == before.current_pause,
        after.previous_pause == before.previous_pause,
        after.global_side_metadata_specs == before.global_side_metadata_specs,
        after.never_move_objects == before.never_move_objects,
{
}

/// Preparing prepares the common spaces, not as for a full collection, and then the Immix space for the
/// pause; and nothing else.
pub proof fn law_both_spaces_are_prepared(pause: Pause)
    ensures
        LXR::prepare_actions(pause).len() == 2,
        LXR::prepare_actions(pause)[0] == (LxrAction::PrepareCommon { full: false }),
        LXR::prepare_actions(pause)[1] == LxrAction::PrepareRc(pause),
{
}

/// What root slots, batches of roots and packets hold is counted one by one.
pub proof fn law_roots_are_counted_one_by_one(
    vm: &ObjectTable,
    packets: Seq<RcPacket>,
    p: ProcessDecs,
    batches: Seq<Seq<usize>>,
    scans: Seq<Seq<usize>>,
    more: Seq<usize>,
    x: usize,
)
    requires
        p.decs is Some,
    ensures
        packet_occurrences(Seq::empty(), x) == 0,
        packet_occurrences(packets.push(RcPacket::ProcessDecs(p)), x) == packet_occurrences(
            packets,
            x,
        ) + decs::occurrences(p.decs.unwrap()@, x),
        root_occurrences(Seq::empty(), x) == 0,
        root_occurrences(batches.push(more), x) == root_occurrences(batches, x) + decs::occurrences(
            more,
            x,
        ),
        scan_refs(vm, Seq::empty(), x) == 0,
        scan_refs(vm, scans.push(more), x) == scan_refs(vm, scans, x) + vm.refs(more, x),
{
    assert(packets.push(RcPacket::ProcessDecs(p)).drop_last() =~= packets);
    assert(batches.push(more).drop_last() =~= batches);
    assert(scans.push(more).drop_last() =~= scans);
}

/// A plan that has seen no pause but reference-counting ones, does not move objects and counts
/// references is in order, if the bookkeeping of its clean blocks knows the space as soon as it knows the
/// plan. No more is asked of it.
pub proof fn law_what_the_plan_needs(lxr: LXR)
    requires
        lxr.heap.block_allocation.lxr ==> lxr.heap.block_allocation.space,
        lxr.current_pause is None || lxr.current_pause == Some(Pause::RefCount),
        lxr.previous_pause is None,
        !lxr.last_gc_was_defrag,
        lxr.never_move_objects,
        lxr.heap.space.rc_enabled,
    ensures
        lxr.wf(),
        lxr.in_rc_pause() <==> lxr.current_pause == Some(Pause::RefCount),
        lxr.prev() == queues::batches(lxr.prev_roots),
        lxr.curr() == queues::batches(lxr.curr_roots),
{
}

} // verus!
