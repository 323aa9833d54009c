use mmtk::args::Args;
use mmtk::plan::lxr::Pause;
use mmtk::policy::immix::block::{Block, BlockState};
use mmtk::policy::immix::block_allocation::BlockAllocation;
use mmtk::policy::immix::space::ImmixSpace;

fn args() -> Args {
    Args {
        block_only: false,
        barrier_measurement: false,
        barrier_measurement_no_slow: false,
        force_zeroing: false,
        no_decs: false,
        no_recursive_dec: false,
        buffer_size: 64,
    }
}

fn space(rc_enabled: bool) -> ImmixSpace {
    let blocks = vec![Block::new(0, 2, 2), Block::new(2, 2, 2), Block::new(4, 2, 2)];
    let mut space = ImmixSpace::new(blocks, 6, rc_enabled, true);
    space.reserved_blocks = 3;
    space
}

#[test]
fn a_clean_nursery_block_starts_with_clear_metadata() {
    let mut space = space(true);
    space.unlogged = vec![true; 6];
    space.marks = vec![true; 6];
    let mut ba = BlockAllocation::new();
    ba.initialize_new_clean_block(&mut space, 1, false, false, args(), None);
    assert_eq!(space.blocks[1].state, BlockState::Nursery);
    assert_eq!(space.unlogged, vec![true, true, false, false, true, true]);
    assert_eq!(space.marks, vec![true, true, false, false, true, true]);
    assert_eq!(ba.clean_nursery_blocks(), 1);
    assert!(!space.blocks[1].zeroed);
    assert!(space.clean_blocks_in_defrag.is_empty());
}

#[test]
fn a_clean_block_to_copy_into_starts_unlogged() {
    let mut space = space(true);
    let mut ba = BlockAllocation::new();
    ba.initialize_new_clean_block(&mut space, 0, true, false, args(), None);
    assert_eq!(space.blocks[0].state, BlockState::Mature);
    assert_eq!(space.unlogged, vec![true, true, false, false, false, false]);
    assert_eq!(ba.clean_nursery_blocks(), 0);
}

#[test]
fn a_clean_block_is_marked_only_in_the_final_mark_of_a_known_plan() {
    let mut ba = BlockAllocation::new();
    assert!(!ba.cm_in_progress_or_final_mark(Some(Pause::FinalMark)));
    ba.lxr = true;
    assert!(ba.cm_in_progress_or_final_mark(Some(Pause::FinalMark)));
    assert!(!ba.cm_in_progress_or_final_mark(Some(Pause::RefCount)));
    assert!(!ba.cm_in_progress_or_final_mark(None));
    let mut space = space(true);
    ba.initialize_new_clean_block(&mut space, 2, false, false, args(), Some(Pause::FinalMark));
    assert_eq!(space.marks, vec![false, false, false, false, true, true]);
}

#[test]
fn lines_are_marked_where_counts_are_not_used() {
    let mut space = space(false);
    space.line_mark_state = 9;
    let mut ba = BlockAllocation::new();
    ba.initialize_new_clean_block(&mut space, 0, false, true, args(), None);
    assert_eq!(space.blocks[0].line_marks, vec![9, 9]);
    assert_eq!(ba.clean_nursery_blocks(), 0);
    let mut block_only = args();
    block_only.block_only = true;
    ba.initialize_new_clean_block(&mut space, 1, false, true, block_only, None);
    assert_eq!(space.blocks[1].line_marks, vec![0, 0]);
}

#[test]
fn a_measured_barrier_unlogs_blocks_to_copy_into() {
    let mut space = space(false);
    let mut ba = BlockAllocation::new();
    let mut measured = args();
    measured.barrier_measurement = true;
    ba.initialize_new_clean_block(&mut space, 0, true, false, measured, None);
    assert_eq!(space.unlogged, vec![true, true, false, false, false, false]);
    measured.barrier_measurement_no_slow = true;
    ba.initialize_new_clean_block(&mut space, 1, true, false, measured, None);
    assert_eq!(space.unlogged, vec![true, true, false, false, false, false]);
}

#[test]
fn zeroing_is_forced_for_the_nursery_alone() {
    let mut space = space(true);
    let mut ba = BlockAllocation::new();
    let mut zeroing = args();
    zeroing.force_zeroing = true;
    ba.initialize_new_clean_block(&mut space, 0, false, false, zeroing, None);
    ba.initialize_new_clean_block(&mut space, 1, true, false, zeroing, None);
    assert!(space.blocks[0].zeroed);
    assert!(!space.blocks[1].zeroed);
    space.zeroed = false;
    ba.initialize_new_clean_block(&mut space, 2, false, false, zeroing, None);
    assert!(!space.blocks[2].zeroed);
}

#[test]
fn blocks_handed_out_while_defragmenting_are_noted() {
    let mut space = space(true);
    space.in_defrag = true;
    let mut ba = BlockAllocation::new();
    ba.initialize_new_clean_block(&mut space, 0, true, false, args(), None);
    ba.initialize_new_clean_block(&mut space, 1, false, false, args(), None);
    assert_eq!(space.clean_blocks_in_defrag, vec![true, false]);
}

#[test]
fn sweeping_the_nursery_frees_what_was_not_promoted() {
    let mut space = space(true);
    let mut ba = BlockAllocation::new();
    for b in 0..3 {
        ba.initialize_new_clean_block(&mut space, b, false, false, args(), None);
    }
    space.blocks[1].state = BlockState::InPlacePromoted;
    ba.in_place_promoted_nursery_blocks = 1;
    ba.notify_mutator_phase_end();
    ba.sweep_nursery_blocks(&mut space, Pause::RefCount);
    assert_eq!(space.reserved_blocks, 1);
    assert_eq!(space.blocks[0].state, BlockState::Unallocated);
    assert_eq!(space.blocks[1].state, BlockState::InPlacePromoted);
    assert_eq!(space.blocks[2].state, BlockState::Unallocated);
    assert_eq!(ba.clean_nursery_blocks(), 0);
    assert_eq!(ba.in_place_promoted_nursery_blocks, 0);
}

#[test]
fn young_allocation_is_counted_in_blocks_and_pages() {
    let mut space = space(true);
    let mut ba = BlockAllocation::new();
    ba.num_nursery_blocks = 65;
    space.mutator_recycled_lines_in_pages = 3;
    assert_eq!(ba.clean_nursery_mb(), 2);
    assert_eq!(ba.total_young_allocation_in_bytes(&space), 65 * 32768 + 3 * 4096);
    ba.init();
    assert!(ba.space);
}

#[test]
fn a_block_waits_once_to_be_swept() {
    let mut space = space(true);
    space.add_to_possibly_dead_mature_blocks(2, false);
    space.add_to_possibly_dead_mature_blocks(2, true);
    space.add_to_possibly_dead_mature_blocks(0, true);
    assert_eq!(space.possibly_dead_mature_blocks, vec![(2, false), (0, true)]);
}
