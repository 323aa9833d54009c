use mmtk::args::Args;
use mmtk::plan::global::MetadataSpec;
use mmtk::plan::lxr::rc::{
    DecBatch, IncBatch, LazySweepingJobsCounter, ProcessDecs, ProcessIncs, RCImmixCollectRootEdges,
    EDGE_KIND_MATURE, EDGE_KIND_NURSERY, EDGE_KIND_ROOT,
};
use mmtk::plan::lxr::{Pause, LXR};
use mmtk::policy::immix::block::{Block, BlockState};
use mmtk::policy::immix::block_allocation::BlockAllocation;
use mmtk::policy::immix::rc_work::SweepBlocksAfterDecs;
use mmtk::policy::immix::space::{ImmixSpace, RcHeap};
use mmtk::scheduler::work_bucket::WorkBucketStage;
use mmtk::util::rc::RefCountHelper;
use mmtk::vm::{ObjectInfo, ObjectTable, Place};
use std::sync::Arc;

fn args(buffer_size: usize) -> Args {
    Args {
        block_only: false,
        barrier_measurement: false,
        barrier_measurement_no_slow: false,
        force_zeroing: false,
        no_decs: false,
        no_recursive_dec: false,
        buffer_size,
    }
}

fn object(start: usize, size: usize, place: Place, slots: Vec<usize>) -> ObjectInfo {
    ObjectInfo { start, size, place, slots }
}

// Objects 0, 1 and 2 lie in block 0, object 3 is large and object 4 lies in block 1. Object 0 refers
// to 1 and 2, object 1 to 2, object 3 to 0. Words 8 to 11 are roots.
fn table() -> ObjectTable {
    ObjectTable {
        objects: vec![
            object(0, 16, Place::Immix(0), vec![0, 1]),
            object(2, 8, Place::Immix(0), vec![2]),
            object(3, 24, Place::Immix(0), vec![]),
            object(7, 4096, Place::Large, vec![7]),
            object(4, 8, Place::Immix(1), vec![4]),
        ],
        words: vec![
            Some(1),
            Some(2),
            Some(2),
            None,
            None,
            None,
            None,
            Some(0),
            Some(0),
            Some(3),
            None,
            Some(4),
        ],
    }
}

// Two blocks that were handed out to the nursery.
fn heap(max_ref_count: u8) -> RcHeap {
    let blocks = vec![Block::new(0, 4, 2), Block::new(4, 3, 2)];
    let mut space = ImmixSpace::new(blocks, 12, true, false);
    space.reserved_blocks = 2;
    let mut block_allocation = BlockAllocation::new();
    block_allocation.initialize_new_clean_block(&mut space, 0, false, false, args(64), None);
    block_allocation.initialize_new_clean_block(&mut space, 1, false, false, args(64), None);
    RcHeap { space, block_allocation, rc: RefCountHelper::new(5, max_ref_count) }
}

// A plan with that heap.
fn plan(vm: &ObjectTable) -> LXR {
    let mut lxr = LXR::new(
        vm,
        vec![],
        false,
        7,
        MetadataSpec::OnSide(1),
        MetadataSpec::OnSide(2),
        3,
    );
    lxr.heap = heap(7);
    lxr
}

fn counts(heap: &RcHeap) -> Vec<u8> {
    heap.rc.counts.clone()
}

fn run_root_incs(
    vm: &ObjectTable,
    heap: &mut RcHeap,
    slots: Vec<usize>,
    capacity: usize,
) -> Vec<IncBatch> {
    let mut out = vec![];
    let mut w: ProcessIncs<EDGE_KIND_ROOT> = ProcessIncs::new(slots, capacity);
    w.do_work(vm, heap, &mut out);
    out
}

fn run_decs(
    vm: &ObjectTable,
    heap: &mut RcHeap,
    decs: Vec<usize>,
    args: Args,
    pause: Option<Pause>,
) -> Vec<DecBatch> {
    let mut out = vec![];
    let mut w = ProcessDecs::new(decs, LazySweepingJobsCounter::new_decs());
    w.do_work(vm, args, pause, heap, &mut out);
    out
}

#[test]
fn a_root_promotes_what_it_reaches() {
    let vm = table();
    let mut heap = heap(7);
    let out = run_root_incs(&vm, &mut heap, vec![8, 10], 64);
    assert!(out.is_empty());
    assert_eq!(counts(&heap), vec![1, 1, 2, 0, 0]);
    assert_eq!(heap.rc.straddle, vec![Some(16), Some(8), Some(24), None, None]);
    assert_eq!(heap.space.blocks[0].state, BlockState::InPlacePromoted);
    assert_eq!(heap.space.blocks[1].state, BlockState::Nursery);
    assert_eq!(heap.block_allocation.in_place_promoted_nursery_blocks, 1);
    assert_eq!(heap.block_allocation.num_nursery_blocks, 2);
    let mut unlogged = vec![false; 12];
    unlogged[0] = true;
    unlogged[1] = true;
    unlogged[2] = true;
    assert_eq!(heap.space.unlogged, unlogged);
}

#[test]
fn a_large_object_is_promoted_without_a_block() {
    let vm = table();
    let mut heap = heap(7);
    run_root_incs(&vm, &mut heap, vec![9], 64);
    assert_eq!(counts(&heap), vec![1, 1, 2, 1, 0]);
    assert_eq!(heap.rc.straddle[3], None);
    // The first word of the large object, which is also its field, is unlogged.
    assert!(heap.space.unlogged[7]);
}

#[test]
fn mature_slots_are_unlogged_when_they_are_loaded() {
    let vm = table();
    let mut h = heap(7);
    let mut out = vec![];
    let mut w: ProcessIncs<EDGE_KIND_MATURE> = ProcessIncs::new(vec![10, 11], 64);
    w.do_work(&vm, &mut h, &mut out);
    assert!(h.space.unlogged[10]);
    assert!(h.space.unlogged[11]);
    assert_eq!(counts(&h), vec![0, 0, 0, 0, 1]);
    let mut h = heap(7);
    run_root_incs(&vm, &mut h, vec![10, 11], 64);
    assert!(!h.space.unlogged[10]);
    assert!(!h.space.unlogged[11]);
}

#[test]
fn counts_stick_at_the_maximum() {
    let vm = table();
    let mut heap = heap(3);
    run_root_incs(&vm, &mut heap, vec![11, 11, 11, 11, 11], 64);
    assert_eq!(counts(&heap)[4], 3);
    run_decs(&vm, &mut heap, vec![4, 4, 4, 4], args(64), None);
    assert_eq!(counts(&heap)[4], 3);
}

#[test]
fn a_full_buffer_of_increments_is_handed_over_and_completes_the_packet() {
    let vm = table();
    let mut whole = heap(7);
    run_root_incs(&vm, &mut whole, vec![8], 64);
    let mut parts = heap(7);
    let mut out = run_root_incs(&vm, &mut parts, vec![8], 2);
    assert_eq!(out.len(), 1);
    assert_eq!(out[0].incs, vec![0, 1]);
    assert_eq!(out[0].stage, WorkBucketStage::Unconstrained);
    assert_eq!(counts(&parts), vec![1, 0, 0, 0, 0]);
    while let Some(batch) = out.pop() {
        let mut w: ProcessIncs<EDGE_KIND_NURSERY> = ProcessIncs::new(batch.incs, 2);
        w.do_work(&vm, &mut parts, &mut out);
    }
    assert_eq!(counts(&parts), counts(&whole));
    assert_eq!(parts.space.unlogged, whole.space.unlogged);
    assert_eq!(parts.rc.straddle, whole.rc.straddle);
}

#[test]
fn the_order_of_increments_does_not_matter() {
    let vm = table();
    let mut a = heap(7);
    let mut b = heap(7);
    run_root_incs(&vm, &mut a, vec![8, 9, 11, 8], 64);
    run_root_incs(&vm, &mut b, vec![11, 8, 8, 9], 64);
    assert_eq!(counts(&a), vec![3, 1, 2, 1, 1]);
    assert_eq!(counts(&a), counts(&b));
    assert_eq!(a.space.unlogged, b.space.unlogged);
    assert_eq!(a.space.blocks[0].state, b.space.blocks[0].state);
    assert_eq!(a.space.blocks[1].state, b.space.blocks[1].state);
}

#[test]
fn the_last_decrement_kills_and_cascades() {
    let vm = table();
    let mut heap = heap(7);
    run_root_incs(&vm, &mut heap, vec![8], 64);
    let out = run_decs(&vm, &mut heap, vec![0], args(64), Some(Pause::RefCount));
    assert!(out.is_empty());
    assert_eq!(counts(&heap), vec![0, 0, 0, 0, 0]);
    assert_eq!(heap.rc.straddle, vec![None, None, None, None, None]);
    // The block waits once, although three objects died in it.
    assert_eq!(heap.space.possibly_dead_mature_blocks, vec![(0, false)]);
    assert!(heap.space.blocks[0].logged);
    assert!(!heap.space.blocks[1].logged);
}

#[test]
fn a_decrement_of_a_dead_object_does_nothing() {
    let vm = table();
    let mut heap = heap(7);
    run_decs(&vm, &mut heap, vec![0, 1, 2], args(64), None);
    assert_eq!(counts(&heap), vec![0, 0, 0, 0, 0]);
    assert!(heap.space.possibly_dead_mature_blocks.is_empty());
}

#[test]
fn the_order_of_decrements_does_not_matter() {
    let vm = table();
    let mut a = heap(7);
    let mut b = heap(7);
    run_root_incs(&vm, &mut a, vec![8, 8, 9, 11], 64);
    run_root_incs(&vm, &mut b, vec![8, 8, 9, 11], 64);
    run_decs(&vm, &mut a, vec![0, 4, 0, 3, 0], args(64), None);
    run_decs(&vm, &mut b, vec![3, 0, 0, 0, 4], args(64), None);
    assert_eq!(counts(&a), vec![0, 0, 0, 0, 0]);
    assert_eq!(counts(&a), counts(&b));
    assert_eq!(a.rc.straddle, b.rc.straddle);
    assert!(a.space.blocks[0].logged && b.space.blocks[0].logged);
    assert!(a.space.blocks[1].logged && b.space.blocks[1].logged);
}

#[test]
fn large_objects_are_not_decremented_through_fields() {
    let mut vm = table();
    // Object 4 refers to the large object.
    vm.words[4] = Some(3);
    let mut heap = heap(7);
    run_root_incs(&vm, &mut heap, vec![11], 64);
    assert_eq!(counts(&heap), vec![1, 1, 2, 1, 1]);
    run_decs(&vm, &mut heap, vec![4], args(64), None);
    assert_eq!(counts(&heap), vec![1, 1, 2, 1, 0]);
}

#[test]
fn a_full_buffer_of_decrements_is_handed_over_and_completes_the_packet() {
    let vm = table();
    let mut whole = heap(7);
    let mut parts = heap(7);
    run_root_incs(&vm, &mut whole, vec![8], 64);
    run_root_incs(&vm, &mut parts, vec![8], 64);
    run_decs(&vm, &mut whole, vec![0], args(64), None);
    let mut out = run_decs(&vm, &mut parts, vec![0], args(2), None);
    assert_eq!(out.len(), 1);
    assert_eq!(out[0].decs, vec![1, 2]);
    assert!(out[0].prioritized);
    assert!(out[0].counter.decs);
    assert_eq!(out[0].stage, WorkBucketStage::Unconstrained);
    assert_eq!(counts(&parts), vec![0, 1, 2, 0, 0]);
    while let Some(batch) = out.pop() {
        let mut more = run_decs(&vm, &mut parts, batch.decs, args(2), None);
        out.append(&mut more);
    }
    assert_eq!(counts(&parts), counts(&whole));
    assert_eq!(parts.space.possibly_dead_mature_blocks, whole.space.possibly_dead_mature_blocks);
}

#[test]
fn a_packet_takes_effect_although_it_fills_a_buffer() {
    let vm = table();
    let mut heap = heap(7);
    run_root_incs(&vm, &mut heap, vec![11, 11, 11, 11], 64);
    let out = run_decs(&vm, &mut heap, vec![4, 4, 4], args(2), None);
    // No object died, so nothing is handed over.
    assert!(out.is_empty());
    assert_eq!(counts(&heap)[4], 1);
}

#[test]
fn batches_come_to_an_end_on_a_cycle() {
    let mut vm = table();
    // Object 2 gets a field that refers to object 0, which refers to it.
    vm.objects[2].slots = vec![3];
    vm.words[3] = Some(0);
    let mut heap = heap(7);
    let mut incs = run_root_incs(&vm, &mut heap, vec![8], 1);
    let mut runs = 0;
    while let Some(batch) = incs.pop() {
        let mut w: ProcessIncs<EDGE_KIND_NURSERY> = ProcessIncs::new(batch.incs, 1);
        w.do_work(&vm, &mut heap, &mut incs);
        runs += 1;
    }
    assert!(runs > 0);
    assert_eq!(counts(&heap), vec![2, 1, 2, 0, 0]);
    let mut decs = run_decs(&vm, &mut heap, vec![0, 0], args(1), None);
    let mut runs = 0;
    while let Some(batch) = decs.pop() {
        decs.append(&mut run_decs(&vm, &mut heap, batch.decs, args(1), None));
        runs += 1;
    }
    assert!(runs > 0);
    assert_eq!(counts(&heap), vec![0, 0, 0, 0, 0]);
}

#[test]
fn an_object_of_another_space_has_no_block() {
    let mut vm = table();
    vm.objects[4].place = Place::Common;
    vm.words[4] = Some(1);
    let mut heap = heap(7);
    run_root_incs(&vm, &mut heap, vec![11], 64);
    assert_eq!(counts(&heap), vec![0, 1, 1, 0, 1]);
    assert_eq!(heap.rc.straddle[4], Some(8));
    assert_eq!(heap.space.blocks[1].state, BlockState::Nursery);
    run_decs(&vm, &mut heap, vec![4], args(64), None);
    assert_eq!(counts(&heap), vec![0, 0, 0, 0, 0]);
    assert_eq!(heap.rc.straddle[4], Some(8));
    assert_eq!(heap.space.possibly_dead_mature_blocks, vec![(0, false)]);
}

#[test]
fn batches_are_prioritized_only_outside_of_a_pause() {
    let vm = table();
    let mut heap = heap(7);
    run_root_incs(&vm, &mut heap, vec![8], 64);
    let out = run_decs(&vm, &mut heap, vec![0], args(2), Some(Pause::RefCount));
    assert_eq!(out.len(), 1);
    assert!(!out[0].prioritized);
}

#[test]
fn a_shared_list_of_decrements_is_processed() {
    let vm = table();
    let mut heap = heap(7);
    run_root_incs(&vm, &mut heap, vec![11], 64);
    let mut out = vec![];
    let counter = LazySweepingJobsCounter::new_decs();
    let mut w = ProcessDecs::new_arc(Arc::new(vec![4]), counter);
    w.do_work(&vm, args(64), None, &mut heap, &mut out);
    assert_eq!(counts(&heap)[4], 0);
    assert!(w.decs_arc.is_none());
}

#[test]
fn decrements_can_be_switched_off() {
    let vm = table();
    let mut heap = heap(7);
    run_root_incs(&vm, &mut heap, vec![8], 64);
    let mut off = args(64);
    off.no_decs = true;
    run_decs(&vm, &mut heap, vec![0], off, None);
    assert_eq!(counts(&heap), vec![1, 1, 2, 0, 0]);
    let mut flat = args(64);
    flat.no_recursive_dec = true;
    run_decs(&vm, &mut heap, vec![0], flat, None);
    assert_eq!(counts(&heap), vec![0, 1, 2, 0, 0]);
}

#[test]
fn with_blocks_only_the_straddle_lines_stay() {
    let vm = table();
    let mut heap = heap(7);
    run_root_incs(&vm, &mut heap, vec![11], 64);
    let mut blocks = args(64);
    blocks.block_only = true;
    run_decs(&vm, &mut heap, vec![4], blocks, None);
    assert_eq!(heap.rc.straddle[4], Some(8));
}

#[test]
fn root_increments_are_undone_by_their_decrements() {
    let vm = table();
    let mut heap = heap(7);
    run_root_incs(&vm, &mut heap, vec![8], 64);
    let before = counts(&heap);
    run_root_incs(&vm, &mut heap, vec![8, 8], 64);
    assert_eq!(counts(&heap)[0], before[0] + 2);
    run_decs(&vm, &mut heap, vec![0, 0], args(64), None);
    assert_eq!(counts(&heap), before);
    assert!(heap.space.possibly_dead_mature_blocks.is_empty());
}

#[test]
fn root_slots_become_root_increments() {
    let vm = table();
    let mut lxr = plan(&vm);
    let mut out = vec![];
    let mut roots = RCImmixCollectRootEdges::new(vec![8, 10, 11], true);
    roots.process_slots(&vm, 64, &mut lxr, &mut out);
    assert!(roots.slots.is_empty());
    assert_eq!(counts(&lxr.heap), vec![1, 1, 2, 0, 1]);
    roots.process_slots(&vm, 64, &mut lxr, &mut out);
    assert_eq!(counts(&lxr.heap), vec![1, 1, 2, 0, 1]);
    // What the slots refer to is one batch of the roots of the pause.
    assert_eq!(lxr.curr_roots.pop(), Some(vec![0, 4]));
    assert_eq!(lxr.curr_roots.pop(), None);
}

#[test]
fn the_targets_of_slots_are_what_they_refer_to() {
    let vm = table();
    assert_eq!(vm.targets_of(&vec![8, 3, 9, 8, 10]), vec![0, 3, 0]);
    assert_eq!(vm.targets_of(&vec![]), vec![]);
}

#[test]
fn a_slot_is_counted_once_for_each_time_that_it_is_processed() {
    let vm = table();
    let mut heap = heap(7);
    // Slot 3 refers to nothing. The fields of object 4 are scanned once, however often it is
    // incremented.
    let out = run_root_incs(&vm, &mut heap, vec![11, 3, 11, 11, 3], 1);
    assert_eq!(counts(&heap), vec![0, 0, 0, 0, 3]);
    assert!(out.is_empty());
}

#[test]
fn the_fields_of_a_promoted_object_wait_only_if_they_refer_to_what_is_not_counted() {
    let vm = table();
    let mut heap = heap(7);
    let out = run_root_incs(&vm, &mut heap, vec![8, 9], 1);
    // Both fields of object 0 go into one batch. The field of the large object refers to object 0,
    // which is counted, and is counted at once.
    let incs: Vec<Vec<usize>> = out.into_iter().map(|b| b.incs).collect();
    assert_eq!(incs, vec![vec![0, 1]]);
    assert_eq!(counts(&heap), vec![2, 0, 0, 1, 0]);
}

#[test]
fn a_dead_block_is_freed_and_a_live_one_is_kept() {
    let vm = table();
    let mut heap = heap(7);
    run_root_incs(&vm, &mut heap, vec![8, 11, 11], 64);
    run_decs(&vm, &mut heap, vec![0, 4], args(64), None);
    // Block 0 holds no counted object any more; object 4 is still counted.
    assert_eq!(heap.space.possibly_dead_mature_blocks, vec![(0, false)]);
    let entries = vec![(0, false), (1, false)];
    let mut w = SweepBlocksAfterDecs::new(entries, LazySweepingJobsCounter::new_decs());
    w.do_work(&vm, &mut heap, None, false);
    assert_eq!(heap.space.blocks[0].state, BlockState::Unallocated);
    assert!(!heap.space.blocks[0].logged);
    assert_eq!(heap.space.blocks[1].state, BlockState::InPlacePromoted);
    assert_eq!(heap.space.reserved_blocks, 1);
    assert_eq!(heap.space.num_clean_blocks_released_mature, 1);
    assert_eq!(heap.space.num_clean_blocks_released_lazy, 1);
}

#[test]
fn a_sweep_in_a_pause_is_counted_only_in_its_bucket() {
    let vm = table();
    for (open, counted) in [(false, 0), (true, 1)] {
        let mut heap = heap(7);
        run_root_incs(&vm, &mut heap, vec![11], 64);
        run_decs(&vm, &mut heap, vec![4], args(64), Some(Pause::RefCount));
        let entries = heap.space.possibly_dead_mature_blocks.clone();
        let mut w = SweepBlocksAfterDecs::new(entries, LazySweepingJobsCounter::new_decs());
        w.do_work(&vm, &mut heap, Some(Pause::RefCount), open);
        assert_eq!(heap.space.reserved_blocks, 1);
        assert_eq!(heap.space.num_clean_blocks_released_mature, counted);
        assert_eq!(heap.space.num_clean_blocks_released_lazy, counted);
    }
}

#[test]
fn a_defrag_block_is_freed_although_it_is_live() {
    let vm = table();
    let mut heap = heap(7);
    run_root_incs(&vm, &mut heap, vec![11], 64);
    let mut w = SweepBlocksAfterDecs::new(vec![(1, true)], LazySweepingJobsCounter::new_decs());
    w.do_work(&vm, &mut heap, None, false);
    assert_eq!(heap.space.blocks[1].state, BlockState::Unallocated);
}

#[test]
fn a_nursery_block_is_not_swept_by_decrements() {
    let vm = table();
    let mut heap = heap(7);
    let mut w = SweepBlocksAfterDecs::new(vec![(0, false)], LazySweepingJobsCounter::new_decs());
    w.do_work(&vm, &mut heap, None, false);
    assert_eq!(heap.space.blocks[0].state, BlockState::Nursery);
    assert_eq!(heap.space.reserved_blocks, 2);
    assert_eq!(heap.space.num_clean_blocks_released_mature, 0);
}

#[test]
fn counts_step_by_one_and_stick() {
    let mut rc = RefCountHelper::new(1, 2);
    assert_eq!(rc.dec(0), Err(0));
    assert_eq!(rc.inc(0), Ok(0));
    assert_eq!(rc.inc(0), Ok(1));
    assert_eq!(rc.inc(0), Err(2));
    assert_eq!(rc.dec(0), Err(2));
    rc.set(0, 1);
    assert_eq!(rc.dec(0), Ok(1));
    assert_eq!(rc.count(0), 0);
}
