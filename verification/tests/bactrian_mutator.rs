use mmtk::plan::concurrent::bactrian::global::{Bactrian, Nursery};
use mmtk::plan::concurrent::bactrian::mutator::{
    bactrian_mutator_prepare, bactrian_mutator_release, bactrian_reserved, create_bactrian_mutator,
    Allocators, AllocationSemantics, AllocatorSelector, BumpAllocator, FreeListPhase,
    ImmixAllocator, Mutator, MutatorHook, ReservedAllocators,
};
use mmtk::plan::concurrent::Pause;
use mmtk::scheduler::work_bucket::GCWorkScheduler;
use mmtk::util::copy::SpaceName;

fn plan(pause: Option<Pause>) -> Bactrian {
    let mut s: GCWorkScheduler<u64> = GCWorkScheduler::new();
    let mut b = Bactrian::new(Nursery { ranges: vec![] }, 1, &mut s);
    b.current_pause = pause;
    b
}

fn immix() -> ImmixAllocator {
    ImmixAllocator {
        bump: BumpAllocator { cursor: 1, limit: 2 },
        large_bump: BumpAllocator { cursor: 3, limit: 4 },
        request_for_large: true,
        line: Some(5),
    }
}

fn fresh() -> ImmixAllocator {
    ImmixAllocator {
        bump: BumpAllocator { cursor: 0, limit: 0 },
        large_bump: BumpAllocator { cursor: 0, limit: 0 },
        request_for_large: false,
        line: None,
    }
}

fn mutator(b: &Bactrian) -> Mutator {
    let base = vec![
        AllocatorSelector::Unmapped,
        AllocatorSelector::BumpPointer(1),
        AllocatorSelector::LargeObject(0),
        AllocatorSelector::BumpPointer(1),
        AllocatorSelector::BumpPointer(1),
        AllocatorSelector::LargeObject(0),
        AllocatorSelector::FreeList(0),
    ];
    let spaces = vec![
        (AllocatorSelector::BumpPointer(1), SpaceName::Common(0)),
        (AllocatorSelector::LargeObject(0), SpaceName::Common(1)),
        (AllocatorSelector::FreeList(0), SpaceName::Common(2)),
    ];
    let allocators = Allocators {
        bump_pointer: vec![
            BumpAllocator { cursor: 10, limit: 20 },
            BumpAllocator { cursor: 30, limit: 40 },
        ],
        immix: vec![immix(), immix()],
        free_list: vec![FreeListPhase::Idle],
    };
    create_bactrian_mutator(77, b, base, spaces, allocators)
}

#[test]
fn a_new_mutator_maps_the_nursery_and_the_mature_space() {
    let m = mutator(&plan(None));
    assert_eq!(m.mutator_tls, 77);
    assert_eq!(
        m.config.allocator_mapping[AllocationSemantics::Default.index()],
        AllocatorSelector::BumpPointer(0)
    );
    assert_eq!(
        m.config.allocator_mapping[AllocationSemantics::NonMoving.index()],
        AllocatorSelector::Immix(0)
    );
    assert_eq!(
        m.config.allocator_mapping[AllocationSemantics::Los.index()],
        AllocatorSelector::LargeObject(0)
    );
    assert_eq!(m.config.space_mapping.len(), 5);
    assert_eq!(
        m.config.space_mapping[3],
        (AllocatorSelector::BumpPointer(0), SpaceName::Nursery)
    );
    assert_eq!(
        m.config.space_mapping[4],
        (AllocatorSelector::Immix(0), SpaceName::ImmixMature)
    );
    assert!(!m.barrier.satb_enabled);
    assert_eq!(m.config.prepare_func, MutatorHook::BactrianPrepare);
    assert_eq!(m.config.release_func, MutatorHook::BactrianRelease);
}

#[test]
fn a_pause_runs_the_hooks_of_the_plan() {
    let b = plan(Some(Pause::InitialMark));
    let mut m = mutator(&b);
    m.prepare(&b, true);
    assert_eq!(m.allocators.bump_pointer[0], BumpAllocator { cursor: 10, limit: 20 });
    assert_eq!(m.allocators.immix, vec![fresh(), immix()]);
    assert_eq!(m.allocators.free_list, vec![FreeListPhase::Prepared]);
    assert!(m.barrier.satb_enabled);
    m.release(&plan(Some(Pause::FinalMark)), true);
    assert_eq!(m.allocators.bump_pointer[0], BumpAllocator { cursor: 0, limit: 0 });
    assert_eq!(m.allocators.free_list, vec![FreeListPhase::Released]);
    assert!(!m.barrier.satb_enabled);
}

#[test]
fn a_mutator_made_in_a_cycle_starts_armed() {
    let mut b = plan(None);
    b.concurrent_marking_active = true;
    assert!(mutator(&b).barrier.satb_enabled);
}

#[test]
fn preparing_resets_the_allocator_into_the_mature_space() {
    let b = plan(Some(Pause::Nursery));
    let mut m = mutator(&b);
    bactrian_mutator_prepare(&mut m, &b, false);
    assert_eq!(m.allocators.immix, vec![fresh(), immix()]);
    assert_eq!(m.allocators.bump_pointer[0], BumpAllocator { cursor: 10, limit: 20 });
    assert_eq!(m.allocators.free_list, vec![FreeListPhase::Idle]);
    bactrian_mutator_prepare(&mut m, &b, true);
    assert_eq!(m.allocators.free_list, vec![FreeListPhase::Prepared]);
}

#[test]
fn releasing_resets_the_nursery_allocator_too() {
    let b = plan(Some(Pause::Nursery));
    let mut m = mutator(&b);
    bactrian_mutator_release(&mut m, &b, true);
    assert_eq!(m.allocators.immix, vec![fresh(), immix()]);
    assert_eq!(m.allocators.bump_pointer[0], BumpAllocator { cursor: 0, limit: 0 });
    assert_eq!(m.allocators.bump_pointer[1], BumpAllocator { cursor: 30, limit: 40 });
    assert_eq!(m.allocators.free_list, vec![FreeListPhase::Released]);
}

#[test]
fn the_barrier_is_armed_from_the_initial_to_the_final_mark() {
    let mut m = mutator(&plan(None));
    for (pause, prepared, released) in [
        (Pause::Nursery, false, false),
        (Pause::InitialMark, true, true),
        (Pause::Nursery, true, true),
        (Pause::FinalMark, true, false),
        (Pause::InitialMark, true, true),
        (Pause::Full, true, false),
    ] {
        let b = plan(Some(pause));
        bactrian_mutator_prepare(&mut m, &b, false);
        assert_eq!(m.barrier.satb_enabled, prepared);
        bactrian_mutator_release(&mut m, &b, false);
        assert_eq!(m.barrier.satb_enabled, released);
    }
}

#[test]
fn one_allocator_of_two_kinds_is_reserved() {
    let defaults =
        ReservedAllocators { n_bump_pointer: 0, n_large_object: 2, n_immix: 0, n_free_list: 3 };
    assert_eq!(
        bactrian_reserved(defaults),
        ReservedAllocators { n_bump_pointer: 1, n_large_object: 2, n_immix: 1, n_free_list: 3 }
    );
}
