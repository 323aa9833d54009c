use mmtk::args::Args;
use mmtk::plan::global::{
    extract_side_metadata, BarrierSelector, MetadataSpec, PlanConstraints,
};
use mmtk::plan::lxr::gc_work::{FastRCPrepare, RCBlockSweepEpilogue, RcPacket};
use mmtk::plan::lxr::global::{lxr_constraints, LxrAction};
use mmtk::plan::lxr::rc::RCImmixCollectRootEdges;
use mmtk::plan::lxr::{Pause, LXR};
use mmtk::policy::immix::block::Block;
use mmtk::scheduler::work_bucket::{GCWorkScheduler, WorkBucketStage};
use mmtk::util::copy::{CopySelector, CopySemantics, SpaceName};
use mmtk::vm::{ObjectInfo, ObjectTable, Place};

fn table() -> ObjectTable {
    ObjectTable {
        objects: vec![ObjectInfo { start: 1, size: 8, place: Place::Immix(0), slots: vec![] }],
        words: vec![None, None],
    }
}

fn plan() -> LXR {
    LXR::new(
        &table(),
        vec![Block::new(0, 2, 1)],
        true,
        7,
        MetadataSpec::OnSide(1),
        MetadataSpec::OnSide(2),
        3,
    )
}

fn args() -> Args {
    Args {
        block_only: false,
        barrier_measurement: false,
        barrier_measurement_no_slow: false,
        force_zeroing: false,
        no_decs: false,
        no_recursive_dec: false,
        buffer_size: 64,
    }
}

fn packets(s: &GCWorkScheduler<RcPacket>, stage: WorkBucketStage) -> &Vec<RcPacket> {
    &s.work_buckets[stage.index()].packets
}

fn decs(s: &GCWorkScheduler<RcPacket>) -> Vec<Vec<usize>> {
    let mut all = vec![];
    for packet in packets(s, WorkBucketStage::STWRCDecsAndSweep) {
        match packet {
            RcPacket::ProcessDecs(w) => {
                assert!(w.counter.decs);
                all.push(w.decs.clone().unwrap());
            }
            _ => panic!("not a packet of decrements"),
        }
    }
    all
}

fn defaults() -> PlanConstraints {
    PlanConstraints {
        moves_objects: true,
        max_non_los_default_alloc_bytes: 1,
        generational: false,
        needs_log_bit: false,
        needs_field_log_bit: false,
        rc_enabled: false,
        barrier: BarrierSelector::NoBarrier,
        may_trace_duplicate_edges: false,
        needs_prepare_mutator: true,
    }
}

#[test]
fn a_new_plan_counts_nothing_and_maps_its_tables() {
    let lxr = plan();
    assert_eq!(lxr.global_side_metadata_specs, vec![1, 2, 3]);
    assert!(lxr.heap.space.rc_enabled);
    assert!(lxr.heap.space.zeroed);
    assert!(lxr.never_move_objects);
    assert_eq!(lxr.heap.rc.counts, vec![0]);
    assert_eq!(lxr.current_pause(), None);
    assert!(lxr.prev_roots.is_empty());
    assert!(lxr.curr_roots.is_empty());
    assert_eq!(lxr.previous_pause(), None);
    assert_eq!(lxr.heap.rc.straddle, vec![None]);
    assert_eq!(lxr.heap.space.blocks.len(), 1);
    assert_eq!(lxr.heap.space.marks, vec![false, false]);
    assert_eq!(lxr.heap.space.unlogged, vec![false, false]);
    assert_eq!(lxr.heap.space.reserved_blocks, 0);
    assert!(lxr.heap.space.possibly_dead_mature_blocks.is_empty());
    assert_eq!(lxr.common.used_pages, 0);
}

#[test]
fn only_side_tables_are_extracted() {
    let specs = vec![MetadataSpec::InHeader(4), MetadataSpec::OnSide(9), MetadataSpec::InHeader(1)];
    assert_eq!(extract_side_metadata(&specs), vec![9]);
}

#[test]
fn the_constraints_override_the_defaults() {
    let c = lxr_constraints(defaults(), 16384);
    assert!(!c.moves_objects);
    assert_eq!(c.max_non_los_default_alloc_bytes, 16384);
    assert!(c.needs_log_bit && c.needs_field_log_bit && c.rc_enabled);
    assert_eq!(c.barrier, BarrierSelector::FieldBarrier);
    assert!(c.needs_prepare_mutator);
    assert!(!c.generational);
}

#[test]
fn a_pause_schedules_its_packets_and_disables_unused_buckets() {
    let mut lxr = plan();
    let mut s: GCWorkScheduler<RcPacket> = GCWorkScheduler::new();
    lxr.schedule_collection(&mut s);
    assert_eq!(lxr.current_pause(), Some(Pause::RefCount));
    assert!(matches!(packets(&s, WorkBucketStage::Unconstrained)[..], [RcPacket::StopMutators]));
    assert!(matches!(packets(&s, WorkBucketStage::RCProcessIncs)[..], [RcPacket::FastRCPrepare]));
    assert!(matches!(packets(&s, WorkBucketStage::Release)[..], [RcPacket::Release]));
    // Without roots there is one packet, which has nothing to do.
    assert_eq!(decs(&s), vec![Vec::<usize>::new()]);
    assert!(lxr.heap.block_allocation.space && lxr.heap.block_allocation.lxr);
    // The epilogue of the sweep comes when the decrements are done.
    let last = &mut s.work_buckets[WorkBucketStage::STWRCDecsAndSweep.index()];
    assert!(matches!(last.sentinel, Some(RcPacket::RCBlockSweepEpilogue)));
    last.packets.clear();
    s.work_buckets[WorkBucketStage::Unconstrained.index()].packets.clear();
    assert!(s.maybe_schedule_sentinel(WorkBucketStage::STWRCDecsAndSweep));
    assert!(matches!(
        packets(&s, WorkBucketStage::STWRCDecsAndSweep)[..],
        [RcPacket::RCBlockSweepEpilogue]
    ));
    for stage in [
        WorkBucketStage::SoftRefClosure,
        WorkBucketStage::WeakRefClosure,
        WorkBucketStage::FinalRefClosure,
        WorkBucketStage::PhantomRefClosure,
        WorkBucketStage::CalculateForwarding,
        WorkBucketStage::SecondRoots,
        WorkBucketStage::RefForwarding,
        WorkBucketStage::FinalizableForwarding,
        WorkBucketStage::Compact,
    ] {
        assert!(!s.work_buckets[stage.index()].enabled);
    }
    for stage in [
        WorkBucketStage::Unconstrained,
        WorkBucketStage::RCProcessIncs,
        WorkBucketStage::Prepare,
        WorkBucketStage::Closure,
        WorkBucketStage::STWRCDecsAndSweep,
        WorkBucketStage::Release,
        WorkBucketStage::Final,
    ] {
        assert!(s.work_buckets[stage.index()].enabled);
    }
}

#[test]
fn the_bookkeeping_of_blocks_is_initialized_once() {
    let mut lxr = plan();
    assert!(!lxr.heap.block_allocation.space);
    lxr.ensure_block_allocation_initialized();
    assert!(lxr.heap.block_allocation.space && lxr.heap.block_allocation.lxr);
    lxr.heap.block_allocation.num_nursery_blocks = 5;
    lxr.ensure_block_allocation_initialized();
    assert_eq!(lxr.heap.block_allocation.num_nursery_blocks, 5);
}

#[test]
fn roots_of_a_pause_are_decremented_in_the_next_one() {
    let mut lxr = plan();
    let mut s: GCWorkScheduler<RcPacket> = GCWorkScheduler::new();
    lxr.schedule_collection(&mut s);
    lxr.curr_roots.push(vec![0, 0]);
    lxr.curr_roots.push(vec![]);
    lxr.curr_roots.push(vec![0]);
    let actions = lxr.release();
    assert_eq!(
        actions,
        vec![
            LxrAction::ReleaseCommon { full: false },
            LxrAction::ReleaseRc(Pause::RefCount),
            LxrAction::UpdateGlobalPhaseEpoch,
        ]
    );
    assert!(lxr.curr_roots.is_empty());
    assert_eq!(lxr.prev_roots.len(), 3);
    assert_eq!(lxr.end_of_gc(), vec![LxrAction::EndOfGCCommon]);
    assert_eq!(lxr.current_pause(), None);
    assert_eq!(lxr.previous_pause(), None);
    let mut s: GCWorkScheduler<RcPacket> = GCWorkScheduler::new();
    lxr.schedule_collection(&mut s);
    assert_eq!(decs(&s), vec![vec![0, 0], vec![], vec![0]]);
    assert!(lxr.prev_roots.is_empty());
}

#[test]
fn the_counts_of_roots_are_taken_back_in_the_next_pause() {
    let mut vm = table();
    vm.words[0] = Some(0);
    let mut lxr = plan();
    let mut s: GCWorkScheduler<RcPacket> = GCWorkScheduler::new();
    lxr.schedule_collection(&mut s);
    let mut roots = RCImmixCollectRootEdges::new(vec![0, 0], true);
    let mut out = vec![];
    roots.process_slots(&vm, 64, &mut lxr, &mut out);
    assert_eq!(lxr.heap.rc.counts, vec![2]);
    lxr.release();
    lxr.end_of_gc();
    let mut s: GCWorkScheduler<RcPacket> = GCWorkScheduler::new();
    lxr.schedule_collection(&mut s);
    assert_eq!(decs(&s), vec![vec![0, 0]]);
    for packet in s.work_buckets[WorkBucketStage::STWRCDecsAndSweep.index()].packets.iter_mut() {
        match packet {
            RcPacket::ProcessDecs(w) => {
                let mut out = vec![];
                w.do_work(&vm, args(), lxr.current_pause, &mut lxr.heap, &mut out);
                assert!(out.is_empty());
            }
            _ => panic!("not a packet of decrements"),
        }
    }
    assert_eq!(lxr.heap.rc.counts, vec![0]);
    assert_eq!(lxr.heap.space.possibly_dead_mature_blocks, vec![(0, false)]);
}

#[test]
fn preparing_prepares_for_counting_alone() {
    let mut lxr = plan();
    let mut s: GCWorkScheduler<RcPacket> = GCWorkScheduler::new();
    lxr.schedule_collection(&mut s);
    let actions = FastRCPrepare.do_work(&mut lxr);
    assert_eq!(
        actions,
        vec![LxrAction::PrepareCommon { full: false }, LxrAction::PrepareRc(Pause::RefCount)]
    );
}

#[test]
fn the_epilogue_hands_the_waiting_blocks_to_a_sweep() {
    let mut lxr = plan();
    lxr.heap.space.add_to_possibly_dead_mature_blocks(0, false);
    let packet = RCBlockSweepEpilogue.do_work(&mut lxr.heap.space);
    assert_eq!(packet.blocks, vec![(0, false)]);
    assert!(packet.counter.decs);
    assert!(lxr.heap.space.possibly_dead_mature_blocks.is_empty());
}

#[test]
fn an_object_is_marked_once() {
    let vm = table();
    let mut lxr = plan();
    assert!(!lxr.is_marked(&vm, 0));
    assert!(lxr.mark(&vm, 0));
    assert!(lxr.is_marked(&vm, 0));
    assert!(!lxr.mark(&vm, 0));
    assert_eq!(lxr.heap.space.marks, vec![false, true]);
}

#[test]
fn nothing_is_marked_concurrently_moved_or_evacuated() {
    let mut lxr = plan();
    assert!(!lxr.cm_in_progress());
    assert!(!lxr.cm_enabled());
    assert!(!lxr.cm_in_progress_or_final_mark());
    lxr.current_pause = Some(Pause::FinalMark);
    assert!(lxr.cm_in_progress_or_final_mark());
    lxr.current_pause = Some(Pause::RefCount);
    assert!(!lxr.cm_in_progress_or_final_mark());
    lxr.current_pause = None;
    lxr.previous_pause = Some(Pause::RefCount);
    assert_eq!(lxr.previous_pause(), Some(Pause::RefCount));
    lxr.previous_pause = None;
    assert!(!lxr.in_defrag(0));
    assert!(!lxr.address_in_defrag(0));
    assert!(!lxr.current_gc_may_move_object());
    assert_eq!(lxr.select_collection_kind(), Pause::RefCount);
    lxr.common.used_pages = 5;
    assert_eq!(lxr.get_used_pages(7), 12);
    assert_eq!(lxr.get_collection_reserved_pages(40), 40);
    assert_eq!(lxr.los().reserved_pages, 0);
    assert!(lxr.last_collection_was_exhaustive(false, true));
    assert!(!lxr.last_collection_was_exhaustive(true, false));
}

#[test]
fn copies_would_go_to_the_immix_space() {
    let lxr = plan();
    let c = lxr.create_copy_config(defaults());
    assert_eq!(c.copy_mapping(CopySemantics::DefaultCopy), CopySelector::Immix(0));
    assert_eq!(c.copy_mapping(CopySemantics::PromoteToMature), CopySelector::Unused);
    assert_eq!(c.copy_mapping(CopySemantics::Mature), CopySelector::Unused);
    assert_eq!(c.space_mapping, vec![(CopySelector::Immix(0), SpaceName::Immix)]);
    assert_eq!(c.constraints, defaults());
}
