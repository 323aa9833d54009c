use mmtk::plan::concurrent::bactrian::global::{
    bactrian_constraints, Bactrian, BactrianAction, BactrianWork, Nursery, PauseInputs,
    UnlogBitsOperation,
};
use mmtk::plan::concurrent::{ConcurrentPlan, Pause};
use mmtk::plan::global::{BarrierSelector, PlanConstraints};
use mmtk::scheduler::work_bucket::{GCWorkScheduler, WorkBucketStage};
use mmtk::util::copy::{CopySelector, CopySemantics, SpaceName};

fn plan() -> Bactrian {
    let mut s: GCWorkScheduler<u64> = GCWorkScheduler::new();
    Bactrian::new(Nursery { ranges: vec![(100, 200), (400, 500)] }, 3, &mut s)
}

fn inputs() -> PauseInputs {
    PauseInputs {
        concurrent_drained: false,
        user_triggered: false,
        full_heap_system_gc: false,
        cur_collection_attempts: 1,
        worst_case_copy_pages: 10,
        mature_pages_available: 10,
        full_nursery_gc: false,
        no_concurrent: false,
    }
}

fn defaults() -> PlanConstraints {
    PlanConstraints {
        moves_objects: false,
        max_non_los_default_alloc_bytes: 1,
        generational: false,
        needs_log_bit: false,
        needs_field_log_bit: false,
        rc_enabled: false,
        barrier: BarrierSelector::NoBarrier,
        may_trace_duplicate_edges: false,
        needs_prepare_mutator: false,
    }
}

fn collect(b: &mut Bactrian, i: PauseInputs, next: bool) -> Pause {
    b.schedule_collection(i);
    let pause = b.notify_mutators_paused();
    b.prepare();
    b.release();
    b.end_of_gc(next, false);
    pause
}

#[test]
fn a_new_plan_disables_the_buckets_it_never_uses() {
    let mut s: GCWorkScheduler<u64> = GCWorkScheduler::new();
    let b = Bactrian::new(Nursery { ranges: vec![] }, 2, &mut s);
    for stage in [
        WorkBucketStage::VMRefForwarding,
        WorkBucketStage::CalculateForwarding,
        WorkBucketStage::SecondRoots,
        WorkBucketStage::RefForwarding,
        WorkBucketStage::FinalizableForwarding,
        WorkBucketStage::Compact,
    ] {
        assert!(!s.work_buckets[stage.index()].enabled);
    }
    assert!(s.work_buckets[WorkBucketStage::Closure.index()].enabled);
    assert!(s.work_buckets[WorkBucketStage::Concurrent.index()].enabled);
    assert_eq!(b.allocate_as_live, vec![false, false]);
    assert_eq!(b.current_pause(), None);
    assert!(!b.concurrent_marking_in_progress());
}

#[test]
fn without_a_request_the_nursery_is_collected() {
    assert_eq!(plan().decide_pause(inputs()), Pause::Nursery);
}

#[test]
fn a_request_starts_a_cycle() {
    let mut b = plan();
    b.force_full_heap_collection();
    assert_eq!(b.decide_pause(inputs()), Pause::InitialMark);
    assert!(!b.gen.next_gc_full_heap);
}

#[test]
fn some_requests_have_to_be_full_collections() {
    let mut no_concurrent = inputs();
    no_concurrent.no_concurrent = true;
    let mut b = plan();
    b.force_full_heap_collection();
    assert_eq!(b.decide_pause(no_concurrent), Pause::Full);
    assert_eq!(b.decide_pause(no_concurrent), Pause::Nursery);
    let mut user = inputs();
    user.user_triggered = true;
    assert_eq!(plan().decide_pause(user), Pause::Nursery);
    let mut b = plan();
    b.force_full_heap_collection();
    assert_eq!(b.decide_pause(user), Pause::Full);
    user.full_heap_system_gc = true;
    assert_eq!(plan().decide_pause(user), Pause::Full);
    let mut emergency = inputs();
    emergency.cur_collection_attempts = 2;
    assert_eq!(plan().decide_pause(emergency), Pause::Full);
    let mut exhausted = inputs();
    exhausted.worst_case_copy_pages = 11;
    assert_eq!(plan().decide_pause(exhausted), Pause::Full);
    let mut always = inputs();
    always.full_nursery_gc = true;
    assert_eq!(plan().decide_pause(always), Pause::Full);
}

#[test]
fn a_cycle_ends_when_marking_is_drained() {
    let mut b = plan();
    b.concurrent_marking_active = true;
    b.gen.next_gc_full_heap = true;
    let mut i = inputs();
    i.cur_collection_attempts = 5;
    i.worst_case_copy_pages = 100;
    assert_eq!(b.decide_pause(i), Pause::Nursery);
    i.concurrent_drained = true;
    assert_eq!(b.decide_pause(i), Pause::FinalMark);
    assert!(b.gen.next_gc_full_heap);
}

#[test]
fn a_pending_request_is_honoured_after_the_cycle() {
    let mut b = plan();
    b.force_full_heap_collection();
    assert_eq!(collect(&mut b, inputs(), false), Pause::InitialMark);
    assert!(b.concurrent_work_in_progress());
    assert_eq!(b.allocate_as_live, vec![true, true, true]);
    assert_eq!(b.gen.full_heap_gc_count, 1);
    b.force_full_heap_collection();
    assert_eq!(collect(&mut b, inputs(), false), Pause::Nursery);
    assert_eq!(collect(&mut b, inputs(), false), Pause::Nursery);
    let mut drained = inputs();
    drained.concurrent_drained = true;
    assert_eq!(collect(&mut b, drained, false), Pause::FinalMark);
    assert!(!b.concurrent_work_in_progress());
    assert_eq!(b.allocate_as_live, vec![false, false, false]);
    assert!(b.last_collection_full_heap());
    assert_eq!(collect(&mut b, inputs(), false), Pause::InitialMark);
    assert!(!b.last_collection_full_heap());
    assert_eq!(b.gen.full_heap_gc_count, 2);
}

#[test]
fn the_end_of_a_collection_can_ask_for_the_next_cycle() {
    let mut b = plan();
    assert_eq!(collect(&mut b, inputs(), true), Pause::Nursery);
    assert_eq!(collect(&mut b, inputs(), false), Pause::InitialMark);
}

#[test]
fn each_pause_prepares_and_releases_its_spaces() {
    let mut b = plan();
    b.gen.next_gc_full_heap = true;
    let mut full = inputs();
    full.full_nursery_gc = true;
    assert_eq!(b.schedule_collection(full), BactrianWork::FullHeap);
    assert!(!b.is_current_gc_nursery());
    assert_eq!(
        b.prepare(),
        vec![
            BactrianAction::PrepareGen,
            BactrianAction::PrepareMature(UnlogBitsOperation::BulkClear),
        ]
    );
    assert!(b.current_pause_finishes_mark());
    assert_eq!(
        b.release(),
        vec![BactrianAction::ReleaseGen, BactrianAction::ReleaseMature(UnlogBitsOperation::NoOp)]
    );
    b.end_of_gc(true, true);
    assert!(b.last_gc_was_defrag);
    assert!(b.last_collection_was_exhaustive(true, false));
    assert!(!b.last_collection_was_exhaustive(false, true));

    assert_eq!(b.schedule_collection(inputs()), BactrianWork::NurseryAnchored);
    assert!(b.is_current_gc_nursery());
    assert_eq!(
        b.prepare(),
        vec![
            BactrianAction::PrepareNursery,
            BactrianAction::SetNurseryCopy(CopySemantics::PromoteToMature),
            BactrianAction::PrepareCommon { full: true },
            BactrianAction::PrepareMature(UnlogBitsOperation::NoOp),
        ]
    );
    assert!(!b.current_pause_finishes_mark());
    assert_eq!(b.release(), vec![BactrianAction::ReleaseGen]);
    b.end_of_gc(false, false);
    assert!(!b.last_collection_was_exhaustive(true, true));

    b.schedule_collection(inputs());
    assert_eq!(b.prepare(), vec![BactrianAction::PrepareGen]);
    assert_eq!(b.release(), vec![BactrianAction::ReleaseGen]);
    b.end_of_gc(false, false);

    let mut drained = inputs();
    drained.concurrent_drained = true;
    b.schedule_collection(drained);
    assert_eq!(
        b.prepare(),
        vec![
            BactrianAction::PrepareNursery,
            BactrianAction::SetNurseryCopy(CopySemantics::PromoteToMature),
        ]
    );
    assert!(b.current_pause_finishes_mark());
    assert_eq!(
        b.release(),
        vec![
            BactrianAction::ReleaseNursery,
            BactrianAction::ReleaseCommon { full: true },
            BactrianAction::ReleaseMature(UnlogBitsOperation::NoOp),
        ]
    );
    // Marking stays active through the last pause of the cycle.
    assert!(b.is_concurrent_marking_active());
    b.end_of_gc(false, false);
    assert!(!b.is_concurrent_marking_active());
    assert_eq!(b.previous_pause(), Some(Pause::FinalMark));
}

#[test]
fn a_collection_is_required_when_marking_is_drained() {
    let mut b = plan();
    assert!(!b.collection_required(true, false));
    assert!(b.collection_required(false, true));
    b.concurrent_marking_active = true;
    assert!(b.collection_required(true, false));
    assert!(!b.collection_required(false, false));
}

#[test]
fn pages_are_added_up_and_halved() {
    let b = plan();
    assert_eq!(b.get_collection_reserved_pages(3, 4), 7);
    assert_eq!(b.get_used_pages(5, 6), 11);
    assert_eq!(b.get_available_pages(100, 31), 34);
    assert_eq!(b.get_available_pages(10, 20), 0);
    assert!(b.current_gc_may_move_object());
}

#[test]
fn the_concurrent_marker_skips_the_nursery() {
    let b = plan();
    for (addr, young) in [(99, false), (100, true), (199, true), (200, false), (450, true), (500, false)] {
        assert_eq!(b.should_skip_concurrent_trace(addr), young);
        assert_eq!(b.is_object_in_nursery(addr), young);
        assert_eq!(b.is_address_in_nursery(addr), young);
    }
}

#[test]
fn the_constraints_take_the_lesser_size() {
    let c = bactrian_constraints(defaults(), 16384, 8192);
    assert_eq!(c.max_non_los_default_alloc_bytes, 8192);
    let c = bactrian_constraints(defaults(), 16384, 32768);
    assert_eq!(c.max_non_los_default_alloc_bytes, 16384);
    assert!(c.moves_objects && c.generational && c.needs_log_bit);
    assert!(c.may_trace_duplicate_edges && c.needs_prepare_mutator);
    assert_eq!(c.barrier, BarrierSelector::SATBBarrier);
    assert!(!c.rc_enabled && !c.needs_field_log_bit);
}

#[test]
fn copies_go_to_the_mature_space() {
    let c = plan().create_copy_config(defaults());
    assert_eq!(c.copy_mapping(CopySemantics::PromoteToMature), CopySelector::ImmixHybrid(0));
    assert_eq!(c.copy_mapping(CopySemantics::Mature), CopySelector::ImmixHybrid(0));
    assert_eq!(c.copy_mapping(CopySemantics::DefaultCopy), CopySelector::Unused);
    assert_eq!(c.space_mapping, vec![(CopySelector::ImmixHybrid(0), SpaceName::ImmixMature)]);
}

struct Plain;

impl ConcurrentPlan for Plain {
    fn marking(&self) -> bool {
        true
    }

    fn pause(&self) -> Option<Pause> {
        Some(Pause::InitialMark)
    }

    fn concurrent_work_in_progress(&self) -> bool {
        true
    }

    fn current_pause(&self) -> Option<Pause> {
        Some(Pause::InitialMark)
    }
}

#[test]
fn a_plan_without_a_nursery_skips_nothing() {
    assert!(!Plain.should_skip_concurrent_trace(0));
    assert!(!Plain.current_pause_finishes_mark());
}
