//! The mutators of the Bactrian plan: their allocators and their barrier.

use vstd::prelude::*;

use crate::plan::concurrent::bactrian::global::{Bactrian, PauseInputs};
use crate::plan::concurrent::Pause;
use crate::util::copy::SpaceName;

verus! {

/// What an object is allocated for.
#[derive(Clone, Copy, PartialEq, Eq, Structural, Debug)]
pub enum AllocationSemantics {
    Default,
    Immortal,
    Los,
    Code,
    ReadOnly,
    LargeCode,
    NonMoving,
}

/// The number of allocation semantics.
pub const NUM_SEMANTICS: usize = 7;

impl AllocationSemantics {
    /// The position of the semantics in a mapping.
    pub open spec fn position(&self) -> int {
        match self {
            AllocationSemantics::Default => 0,
            AllocationSemantics::Immortal => 1,
            AllocationSemantics::Los => 2,
            AllocationSemantics::Code => 3,
            AllocationSemantics::ReadOnly => 4,
            AllocationSemantics::LargeCode => 5,
            AllocationSemantics::NonMoving => 6,
        }
    }

    /// The position of the semantics in a mapping.
    pub fn index(&self) -> (i: usize)
        ensures
            i == self.position(),
            i < NUM_SEMANTICS,
    {
        match self {
            AllocationSemantics::Default => 0,
            AllocationSemantics::Immortal => 1,
            AllocationSemantics::Los => 2,
            AllocationSemantics::Code => 3,
            AllocationSemantics::ReadOnly => 4,
            AllocationSemantics::LargeCode => 5,
            AllocationSemantics::NonMoving => 6,
        }
    }
}

/// An allocator of a mutator, by its kind and number.
#[derive(Clone, Copy, PartialEq, Eq, Structural, Debug)]
pub enum AllocatorSelector {
    BumpPointer(u8),
    LargeObject(u8),
    Immix(u8),
    FreeList(u8),
    Unmapped,
}

/// How many allocators of each kind a plan keeps for itself.
#[derive(Clone, Copy, PartialEq, Eq, Structural, Debug)]
pub struct ReservedAllocators {
    pub n_bump_pointer: u8,
    pub n_large_object: u8,
    pub n_immix: u8,
    pub n_free_list: u8,
}

/// The allocators that the plan keeps for itself: a bump pointer for the nursery and an Immix
/// allocator for the mature space, through which large enough objects are born mature. Of the other
/// kinds, as many as in `defaults`.
pub fn bactrian_reserved(defaults: ReservedAllocators) -> (r: ReservedAllocators)
    ensures
        r == (ReservedAllocators { n_bump_pointer: 1, n_immix: 1, ..defaults }),
{
    ReservedAllocators { n_bump_pointer: 1, n_immix: 1, ..defaults }
}

/// A bump-pointer allocator: the rest of its buffer, from `cursor` to `limit`.
#[derive(Clone, Copy, PartialEq, Eq, Structural, Debug)]
pub struct BumpAllocator {
    pub cursor: usize,
    pub limit: usize,
}

impl BumpAllocator {
    /// Forget the buffer.
    pub fn reset(&mut self)
        ensures
            *final(self) == (BumpAllocator { cursor: 0, limit: 0 }),
    {
        self.cursor = 0;
        self.limit = 0;
    }
}

/// An Immix allocator: the rests of its two buffers, and the line it searches from.
#[derive(Clone, Copy, PartialEq, Eq, Structural, Debug)]
pub struct ImmixAllocator {
    pub bump: BumpAllocator,
    pub large_bump: BumpAllocator,
    pub request_for_large: bool,
    pub line: Option<usize>,
}

impl ImmixAllocator {
    /// The allocator without any buffer.
    pub open spec fn fresh() -> Self {
        ImmixAllocator {
            bump: BumpAllocator { cursor: 0, limit: 0 },
            large_bump: BumpAllocator { cursor: 0, limit: 0 },
            request_for_large: false,
            line: None,
        }
    }

    /// Forget the buffers.
    pub fn reset(&mut self)
        ensures
            *final(self) == Self::fresh(),
    {
        self.bump.reset();
        self.large_bump.reset();
        self.request_for_large = false;
        self.line = None;
    }
}

/// How far a free-list allocator has come in a collection.
#[derive(Clone, Copy, PartialEq, Eq, Structural, Debug)]
pub enum FreeListPhase {
    Idle,
    Prepared,
    Released,
}

/// The allocators of a mutator.
pub struct Allocators {
    pub bump_pointer: Vec<BumpAllocator>,
    pub immix: Vec<ImmixAllocator>,
    pub free_list: Vec<FreeListPhase>,
}

/// What a pause runs on a mutator.
#[derive(Clone, Copy, PartialEq, Eq, Structural, Debug)]
pub enum MutatorHook {
    /// `bactrian_mutator_prepare`.
    BactrianPrepare,
    /// `bactrian_mutator_release`.
    BactrianRelease,
}

impl MutatorHook {
    /// Whether the hook, run in `pause`, takes a mutator from `before` to `after`.
    pub open spec fn turns(
        &self,
        before: Mutator,
        after: Mutator,
        pause: Pause,
        marksweep_as_nonmoving: bool,
    ) -> bool {
        match self {
            MutatorHook::BactrianPrepare => mutator_prepared(
                before,
                after,
                pause,
                marksweep_as_nonmoving,
            ),
            MutatorHook::BactrianRelease => mutator_released(
                before,
                after,
                pause,
                marksweep_as_nonmoving,
            ),
        }
    }

    /// Run the hook on `mutator`.
    fn run(&self, mutator: &mut Mutator, plan: &Bactrian, marksweep_as_nonmoving: bool)
        requires
            old(mutator).wf(marksweep_as_nonmoving),
            plan.current_pause is Some,
        ensures
            final(mutator).wf(marksweep_as_nonmoving),
            self.turns(
                *old(mutator),
                *final(mutator),
                plan.current_pause->0,
                marksweep_as_nonmoving,
            ),
    {
        match self {
            MutatorHook::BactrianPrepare => bactrian_mutator_prepare(
                mutator,
                plan,
                marksweep_as_nonmoving,
            ),
            MutatorHook::BactrianRelease => bactrian_mutator_release(
                mutator,
                plan,
                marksweep_as_nonmoving,
            ),
        }
    }
}

/// The allocator for each of the allocation semantics, the space for each allocator, and what a pause
/// runs on the mutator.
pub struct MutatorConfig {
    pub allocator_mapping: Vec<AllocatorSelector>,
    pub space_mapping: Vec<(AllocatorSelector, SpaceName)>,
    /// Runs before a pause collects.
    pub prepare_func: MutatorHook,
    /// Runs after a pause has collected.
    pub release_func: MutatorHook,
}

/// Whether one of `spaces` belongs to `selector`.
pub open spec fn has_space(
    spaces: Seq<(AllocatorSelector, SpaceName)>,
    selector: AllocatorSelector,
) -> bool {
    exists|i: int| 0 <= i < spaces.len() && (#[trigger] spaces[i]).0 == selector
}

/// Whether every allocator that `allocators` uses has one of `spaces`.
pub open spec fn all_have_spaces(
    allocators: Seq<AllocatorSelector>,
    spaces: Seq<(AllocatorSelector, SpaceName)>,
) -> bool {
    &&& allocators.len() == NUM_SEMANTICS
    &&& forall|i: int|
        0 <= i < NUM_SEMANTICS && (#[trigger] allocators[i]) != AllocatorSelector::Unmapped
            ==> has_space(spaces, allocators[i])
}

impl MutatorConfig {
    /// The allocator for `semantics`.
    pub open spec fn selector(&self, semantics: AllocationSemantics) -> AllocatorSelector {
        self.allocator_mapping@[semantics.position()]
    }

    /// Every allocator that is used has a space.
    pub open spec fn wf(&self) -> bool {
        all_have_spaces(self.allocator_mapping@, self.space_mapping@)
    }
}

/// The write barrier of the plan. Its deletion half is armed while a marking cycle is in progress.
#[derive(Clone, Copy, PartialEq, Eq, Structural, Debug)]
pub struct BactrianBarrier {
    pub satb_enabled: bool,
}

/// A mutator.
pub struct Mutator {
    pub allocators: Allocators,
    pub barrier: BactrianBarrier,
    pub config: MutatorConfig,
    /// The thread of the mutator.
    pub mutator_tls: usize,
}

impl Mutator {
    /// The number of the bump-pointer allocator for default allocation.
    pub open spec fn nursery_allocator(&self) -> int {
        self.config.selector(AllocationSemantics::Default)->BumpPointer_0 as int
    }

    /// The number of the Immix allocator for objects that are born mature.
    pub open spec fn pretenure_allocator(&self) -> int {
        self.config.selector(AllocationSemantics::NonMoving)->Immix_0 as int
    }

    /// The allocators that the plan maps are there. With `marksweep_as_nonmoving`, so is the
    /// free-list allocator of the common space.
    pub open spec fn wf(&self, marksweep_as_nonmoving: bool) -> bool {
        &&& self.config.allocator_mapping@.len() == NUM_SEMANTICS
        &&& self.config.selector(AllocationSemantics::Default) is BumpPointer
        &&& self.nursery_allocator() < self.allocators.bump_pointer@.len()
        &&& self.config.selector(AllocationSemantics::NonMoving) is Immix
        &&& self.pretenure_allocator() < self.allocators.immix@.len()
        &&& marksweep_as_nonmoving ==> self.allocators.free_list@.len() > 0
    }

    /// Prepare the mutator for the pause in progress, as its configuration says.
    pub fn prepare(&mut self, plan: &Bactrian, marksweep_as_nonmoving: bool)
        requires
            old(self).wf(marksweep_as_nonmoving),
            plan.current_pause is Some,
        ensures
            final(self).wf(marksweep_as_nonmoving),
            old(self).config.prepare_func.turns(
                *old(self),
                *final(self),
                plan.current_pause->0,
                marksweep_as_nonmoving,
            ),
    {
        let hook = self.config.prepare_func;
        hook.run(self, plan, marksweep_as_nonmoving);
    }

    /// Release the mutator from the pause in progress, as its configuration says.
    pub fn release(&mut self, plan: &Bactrian, marksweep_as_nonmoving: bool)
        requires
            old(self).wf(marksweep_as_nonmoving),
            plan.current_pause is Some,
        ensures
            final(self).wf(marksweep_as_nonmoving),
            old(self).config.release_func.turns(
                *old(self),
                *final(self),
                plan.current_pause->0,
                marksweep_as_nonmoving,
            ),
    {
        let hook = self.config.release_func;
        hook.run(self, plan, marksweep_as_nonmoving);
    }
}

/// Prepare the free-list allocator of the common space. It is reached by its number: the semantics
/// for objects that do not move are mapped to another allocator.
fn common_nonmoving_prepare(mutator: &mut Mutator)
    requires
        old(mutator).allocators.free_list@.len() > 0,
    ensures
        *final(mutator) == (Mutator {
            allocators: Allocators {
                free_list: final(mutator).allocators.free_list,
                ..old(mutator).allocators
            },
            ..*old(mutator)
        }),
        final(mutator).allocators.free_list@ == old(mutator).allocators.free_list@.update(
            0,
            FreeListPhase::Prepared,
        ),
{
    mutator.allocators.free_list[0] = FreeListPhase::Prepared;
}

/// Release the free-list allocator of the common space.
fn common_nonmoving_release(mutator: &mut Mutator)
    requires
        old(mutator).allocators.free_list@.len() > 0,
    ensures
        *final(mutator) == (Mutator {
            allocators: Allocators {
                free_list: final(mutator).allocators.free_list,
                ..old(mutator).allocators
            },
            ..*old(mutator)
        }),
        final(mutator).allocators.free_list@ == old(mutator).allocators.free_list@.update(
            0,
            FreeListPhase::Released,
        ),
{
    mutator.allocators.free_list[0] = FreeListPhase::Released;
}

/// Have the allocator for objects that are born mature forget its buffers.
fn reset_pretenure_allocator(mutator: &mut Mutator)
    requires
        old(mutator).wf(false),
    ensures
        *final(mutator) == (Mutator {
            allocators: Allocators {
                immix: final(mutator).allocators.immix,
                ..old(mutator).allocators
            },
            ..*old(mutator)
        }),
        final(mutator).allocators.immix@ == old(mutator).allocators.immix@.update(
            old(mutator).pretenure_allocator(),
            ImmixAllocator::fresh(),
        ),
{
    let at: usize = AllocationSemantics::NonMoving.index();
    if let AllocatorSelector::Immix(i) = mutator.config.allocator_mapping[at] {
        let i: usize = i as usize;
        mutator.allocators.immix[i].reset();
    }
}

/// What preparing a mutator for `pause` does: the allocator into the mature space forgets its buffers,
/// the free-list allocator of the common space is prepared if it holds what does not move, and the
/// barrier is armed if a marking cycle starts.
pub open spec fn mutator_prepared(
    before: Mutator,
    after: Mutator,
    pause: Pause,
    marksweep_as_nonmoving: bool,
) -> bool {
    &&& after.config == before.config
    &&& after.mutator_tls == before.mutator_tls
    &&& after.allocators.bump_pointer == before.allocators.bump_pointer
    &&& after.allocators.immix@ == before.allocators.immix@.update(
        before.pretenure_allocator(),
        ImmixAllocator::fresh(),
    )
    &&& after.allocators.free_list@ == (if marksweep_as_nonmoving {
        before.allocators.free_list@.update(0, FreeListPhase::Prepared)
    } else {
        before.allocators.free_list@
    })
    &&& after.barrier.satb_enabled == prepared_satb(pause, before.barrier.satb_enabled)
}

/// What releasing a mutator from `pause` does: the allocators into the nursery and into the mature
/// space forget their buffers, the free-list allocator of the common space is released if it holds
/// what does not move, and the barrier is disarmed if a marking cycle ends.
pub open spec fn mutator_released(
    before: Mutator,
    after: Mutator,
    pause: Pause,
    marksweep_as_nonmoving: bool,
) -> bool {
    &&& after.config == before.config
    &&& after.mutator_tls == before.mutator_tls
    &&& after.allocators.bump_pointer@ == before.allocators.bump_pointer@.update(
        before.nursery_allocator(),
        BumpAllocator { cursor: 0, limit: 0 },
    )
    &&& after.allocators.immix@ == before.allocators.immix@.update(
        before.pretenure_allocator(),
        ImmixAllocator::fresh(),
    )
    &&& after.allocators.free_list@ == (if marksweep_as_nonmoving {
        before.allocators.free_list@.update(0, FreeListPhase::Released)
    } else {
        before.allocators.free_list@
    })
    &&& after.barrier.satb_enabled == released_satb(pause, before.barrier.satb_enabled)
}

/// Prepare a mutator for the pause in progress: the allocator into the mature space starts afresh,
/// and the barrier is armed if a marking cycle starts.
pub fn bactrian_mutator_prepare(
    mutator: &mut Mutator,
    plan: &Bactrian,
    marksweep_as_nonmoving: bool,
)
    requires
        old(mutator).wf(marksweep_as_nonmoving),
        plan.current_pause is Some,
    ensures
        final(mutator).wf(marksweep_as_nonmoving),
        mutator_prepared(
            *old(mutator),
            *final(mutator),
            plan.current_pause->0,
            marksweep_as_nonmoving,
        ),
{
    if marksweep_as_nonmoving {
        common_nonmoving_prepare(mutator);
    }
    reset_pretenure_allocator(mutator);
    if matches!(plan.current_pause, Some(Pause::InitialMark)) {
        mutator.barrier.satb_enabled = true;
    }
}

/// Whether the barrier is armed after a mutator was prepared for `pause`.
pub open spec fn prepared_satb(pause: Pause, satb: bool) -> bool {
    satb || pause == Pause::InitialMark
}

/// Whether the barrier is armed after a mutator was released from `pause`.
pub open spec fn released_satb(pause: Pause, satb: bool) -> bool {
    satb && pause != Pause::FinalMark && pause != Pause::Full
}

/// Release a mutator from the pause in progress: the nursery was evacuated, so its allocator starts
/// afresh, as does the one into the mature space; and the barrier is disarmed if a marking cycle
/// ends.
pub fn bactrian_mutator_release(
    mutator: &mut Mutator,
    plan: &Bactrian,
    marksweep_as_nonmoving: bool,
)
    requires
        old(mutator).wf(marksweep_as_nonmoving),
        plan.current_pause is Some,
    ensures
        final(mutator).wf(marksweep_as_nonmoving),
        mutator_released(
            *old(mutator),
            *final(mutator),
            plan.current_pause->0,
            marksweep_as_nonmoving,
        ),
{
    let at: usize = AllocationSemantics::Default.index();
    if let AllocatorSelector::BumpPointer(i) = mutator.config.allocator_mapping[at] {
        let i: usize = i as usize;
        mutator.allocators.bump_pointer[i].reset();
    }
    if marksweep_as_nonmoving {
        common_nonmoving_release(mutator);
    }
    reset_pretenure_allocator(mutator);
    if matches!(plan.current_pause, Some(Pause::FinalMark) | Some(Pause::Full)) {
        mutator.barrier.satb_enabled = false;
    }
}

/// The allocator for each of the allocation semantics: as in `base`, which maps those of the common
/// spaces, but for default allocation in the nursery and for objects that are born mature.
pub fn bactrian_allocator_mapping(base: Vec<AllocatorSelector>) -> (map: Vec<AllocatorSelector>)
    requires
        base@.len() == NUM_SEMANTICS,
    ensures
        map@ == base@.update(
            AllocationSemantics::Default.position(),
            AllocatorSelector::BumpPointer(0),
        ).update(AllocationSemantics::NonMoving.position(), AllocatorSelector::Immix(0)),
{
    let mut map = base;
    map[AllocationSemantics::Default.index()] = AllocatorSelector::BumpPointer(0);
    map[AllocationSemantics::NonMoving.index()] = AllocatorSelector::Immix(0);
    map
}

/// A new mutator. `base_allocators` and `base_spaces` map the allocators of the common spaces, made
/// for the allocators that the plan keeps for itself; `allocators` are those of the mapped spaces. A
/// mutator that is made while a marking cycle is in progress starts with its barrier armed. Pauses run
/// the hooks of the plan on it.
pub fn create_bactrian_mutator(
    mutator_tls: usize,
    bactrian: &Bactrian,
    base_allocators: Vec<AllocatorSelector>,
    base_spaces: Vec<(AllocatorSelector, SpaceName)>,
    allocators: Allocators,
) -> (m: Mutator)
    requires
        base_allocators@.len() == NUM_SEMANTICS,
        allocators.bump_pointer@.len() > 0,
        allocators.immix@.len() > 0,
    ensures
        m.wf(false),
        m.mutator_tls == mutator_tls,
        m.allocators == allocators,
        m.barrier.satb_enabled == bactrian.concurrent_marking_active,
        m.config.allocator_mapping@ == base_allocators@.update(
            AllocationSemantics::Default.position(),
            AllocatorSelector::BumpPointer(0),
        ).update(AllocationSemantics::NonMoving.position(), AllocatorSelector::Immix(0)),
        m.config.space_mapping@ == base_spaces@ + seq![
            (AllocatorSelector::BumpPointer(0), SpaceName::Nursery),
            (AllocatorSelector::Immix(0), SpaceName::ImmixMature),
        ],
        all_have_spaces(base_allocators@, base_spaces@) ==> m.config.wf(),
        m.config.allocator_mapping@[0] == AllocatorSelector::BumpPointer(0),
        m.config.allocator_mapping@[6] == AllocatorSelector::Immix(0),
        forall|i: int|
            0 < i < 6 ==> #[trigger] m.config.allocator_mapping@[i] == base_allocators@[i],
        m.config.prepare_func == MutatorHook::BactrianPrepare,
        m.config.release_func == MutatorHook::BactrianRelease,
{
    let ghost spaces0 = base_spaces@;
    let ghost allocators0 = base_allocators@;
    let allocator_mapping = bactrian_allocator_mapping(base_allocators);
    let mut space_mapping = base_spaces;
    space_mapping.push((AllocatorSelector::BumpPointer(0), SpaceName::Nursery));
    space_mapping.push((AllocatorSelector::Immix(0), SpaceName::ImmixMature));
    assert(space_mapping@ =~= spaces0 + seq![
        (AllocatorSelector::BumpPointer(0), SpaceName::Nursery),
        (AllocatorSelector::Immix(0), SpaceName::ImmixMature),
    ]);
    let config = MutatorConfig {
        allocator_mapping,
        space_mapping,
        prepare_func: MutatorHook::BactrianPrepare,
        release_func: MutatorHook::BactrianRelease,
    };
    proof {
        let n = spaces0.len() as int;
        assert(config.space_mapping@[n].0 == AllocatorSelector::BumpPointer(0));
        assert(config.space_mapping@[n + 1].0 == AllocatorSelector::Immix(0));
        if all_have_spaces(allocators0, spaces0) {
            assert forall|i: int|
                0 <= i < NUM_SEMANTICS && (#[trigger] config.allocator_mapping@[i])
                    != AllocatorSelector::Unmapped implies has_space(
                config.space_mapping@,
                config.allocator_mapping@[i],
            ) by {
                if i != 0 && i != 6 {
                    let selector = allocators0[i];
                    assert(has_space(spaces0, selector));
                    let k = choose|k: int|
                        0 <= k < spaces0.len() && (#[trigger] spaces0[k]).0 == selector;
                    assert(config.space_mapping@[k].0 == selector);
                }
            }
        }
    }
    let mut mutator = Mutator {
        allocators,
        barrier: BactrianBarrier { satb_enabled: false },
        config,
        mutator_tls,
    };
    mutator.barrier.satb_enabled = bactrian.is_concurrent_marking_active();
    mutator
}

/// The barrier of a mutator of the plan is armed, between collections, exactly while a marking cycle is
/// in progress: if it is so before a collection, it is so after it, whatever its pause. A pause that
/// starts a cycle need not release the mutator, and one that ends a cycle need not prepare it.
pub proof fn law_the_barrier_follows_the_cycle(
    idle: Bactrian,
    scheduled: Bactrian,
    prepared: Bactrian,
    ended: Bactrian,
    inputs: PauseInputs,
    asked: bool,
    did_defrag: bool,
    m0: Mutator,
    m1: Mutator,
    m2: Mutator,
    marksweep_as_nonmoving: bool,
)
    requires
        Bactrian::scheduled(idle, scheduled, inputs),
        Bactrian::prepared(scheduled, prepared),
        Bactrian::ended(prepared, ended, asked, did_defrag),
        m0.config.prepare_func == MutatorHook::BactrianPrepare,
        m0.config.release_func == MutatorHook::BactrianRelease,
        m0.barrier.satb_enabled == idle.concurrent_marking_active,
        ({
            let pause = scheduled.current_pause->0;
            &&& m0.config.prepare_func.turns(m0, m1, pause, marksweep_as_nonmoving) || pause
                == Pause::FinalMark && m1 == m0
            &&& m1.config.release_func.turns(m1, m2, pause, marksweep_as_nonmoving) || pause
                == Pause::InitialMark && m2 == m1
        }),
    ensures
        m2.config == m0.config,
        m2.barrier.satb_enabled == ended.concurrent_marking_active,
{
}

/// After a mutator was released, whatever the pause, it has no buffer left in the nursery, which was
/// evacuated, and none in the mature space. All its other allocators keep theirs. `k` is the number of
/// its bump pointer for default allocation, and `j` that of its Immix allocator for what is born mature.
pub proof fn law_a_released_mutator_has_no_buffer_left(
    before: Mutator,
    after: Mutator,
    pause: Pause,
    marksweep_as_nonmoving: bool,
    k: u8,
    j: u8,
)
    requires
        MutatorHook::BactrianRelease.turns(before, after, pause, marksweep_as_nonmoving),
        before.config.allocator_mapping@.len() == NUM_SEMANTICS,
        before.config.allocator_mapping@[0] == AllocatorSelector::BumpPointer(k),
        before.config.allocator_mapping@[6] == AllocatorSelector::Immix(j),
        k < before.allocators.bump_pointer@.len(),
        j < before.allocators.immix@.len(),
    ensures
        after.allocators.bump_pointer@.len() == before.allocators.bump_pointer@.len(),
        after.allocators.bump_pointer@[k as int].cursor == 0,
        after.allocators.bump_pointer@[k as int].limit == 0,
        forall|i: int|
            0 <= i < before.allocators.bump_pointer@.len() && i != k
                ==> #[trigger] after.allocators.bump_pointer@[i]
                == before.allocators.bump_pointer@[i],
        after.allocators.immix@.len() == before.allocators.immix@.len(),
        after.allocators.immix@[j as int].bump.cursor == 0,
        after.allocators.immix@[j as int].bump.limit == 0,
        after.allocators.immix@[j as int].large_bump.cursor == 0,
        after.allocators.immix@[j as int].large_bump.limit == 0,
        !after.allocators.immix@[j as int].request_for_large,
        after.allocators.immix@[j as int].line is None,
        forall|i: int|
            0 <= i < before.allocators.immix@.len() && i != j
                ==> #[trigger] after.allocators.immix@[i] == before.allocators.immix@[i],
{
}

/// A mutator that was prepared, whatever the pause, has no buffer left in the mature space, and keeps
/// those in the nursery, in which it may go on if the pause does not release it.
pub proof fn law_a_prepared_mutator_has_no_mature_buffer_left(
    before: Mutator,
    after: Mutator,
    pause: Pause,
    marksweep_as_nonmoving: bool,
    j: u8,
)
    requires
        MutatorHook::BactrianPrepare.turns(before, after, pause, marksweep_as_nonmoving),
        before.config.allocator_mapping@.len() == NUM_SEMANTICS,
        before.config.allocator_mapping@[6] == AllocatorSelector::Immix(j),
        j < before.allocators.immix@.len(),
    ensures
        after.allocators.bump_pointer@ == before.allocators.bump_pointer@,
        after.allocators.immix@.len() == before.allocators.immix@.len(),
        after.allocators.immix@[j as int].bump.cursor == 0,
        after.allocators.immix@[j as int].bump.limit == 0,
        after.allocators.immix@[j as int].large_bump.cursor == 0,
        after.allocators.immix@[j as int].large_bump.limit == 0,
        !after.allocators.immix@[j as int].request_for_large,
        after.allocators.immix@[j as int].line is None,
        forall|i: int|
            0 <= i < before.allocators.immix@.len() && i != j
                ==> #[trigger] after.allocators.immix@[i] == before.allocators.immix@[i],
{
}

/// The barrier is armed by preparing for the pause that starts a marking cycle, and disarmed by
/// releasing from the one that ends it and from a full collection. Nothing else changes it.
pub proof fn law_the_barrier_is_armed_and_disarmed_by_its_pauses(
    before: Mutator,
    prepared: Mutator,
    released: Mutator,
    pause: Pause,
    marksweep_as_nonmoving: bool,
)
    requires
        MutatorHook::BactrianPrepare.turns(before, prepared, pause, marksweep_as_nonmoving),
        MutatorHook::BactrianRelease.turns(prepared, released, pause, marksweep_as_nonmoving),
    ensures
        pause == Pause::InitialMark ==> prepared.barrier.satb_enabled
            && released.barrier.satb_enabled,
        pause == Pause::FinalMark || pause == Pause::Full ==> prepared.barrier.satb_enabled
            == before.barrier.satb_enabled && !released.barrier.satb_enabled,
        pause == Pause::Nursery ==> prepared.barrier.satb_enabled == before.barrier.satb_enabled
            && released.barrier.satb_enabled == before.barrier.satb_enabled,
        prepared.config == before.config,
        released.config == before.config,
        prepared.mutator_tls == before.mutator_tls,
        released.mutator_tls == before.mutator_tls,
{
}

/// The free-list allocator of the common space takes part in every pause if it holds what does not
/// move, and in none otherwise. The other free-list allocators never do.
pub proof fn law_the_common_free_list_takes_part_in_every_pause(
    before: Mutator,
    prepared: Mutator,
    released: Mutator,
    pause: Pause,
    marksweep_as_nonmoving: bool,
)
    requires
        MutatorHook::BactrianPrepare.turns(before, prepared, pause, marksweep_as_nonmoving),
        MutatorHook::BactrianRelease.turns(prepared, released, pause, marksweep_as_nonmoving),
        marksweep_as_nonmoving ==> before.allocators.free_list@.len() > 0,
    ensures
        prepared.allocators.free_list@.len() == before.allocators.free_list@.len(),
        released.allocators.free_list@.len() == before.allocators.free_list@.len(),
        marksweep_as_nonmoving ==> prepared.allocators.free_list@[0] == FreeListPhase::Prepared
            && released.allocators.free_list@[0] == FreeListPhase::Released,
        forall|i: int|
            (if marksweep_as_nonmoving {
                1int
            } else {
                0int
            }) <= i < before.allocators.free_list@.len()
                ==> #[trigger] prepared.allocators.free_list@[i]
                == before.allocators.free_list@[i] && released.allocators.free_list@[i]
                == before.allocators.free_list@[i],
{
}

/// An allocator that is used has a space: one of the pairs names it. `i` is the position of the
/// semantics that use it.
pub proof fn law_every_used_allocator_has_a_space(config: MutatorConfig, i: int)
    requires
        config.wf(),
        0 <= i < config.allocator_mapping@.len(),
        config.allocator_mapping@[i] != AllocatorSelector::Unmapped,
    ensures
        exists|k: int|
            0 <= k < config.space_mapping@.len() && (#[trigger] config.space_mapping@[k]).0
                == config.allocator_mapping@[i],
{
    assert(has_space(config.space_mapping@, config.allocator_mapping@[i]));
}

/// The semantics have positions of their own, from 0 on.
pub proof fn law_semantics_differ_in_their_positions(
    a: AllocationSemantics,
    b: AllocationSemantics,
)
    ensures
        0 <= a.position() < NUM_SEMANTICS,
        a != b ==> a.position() != b.position(),
        AllocationSemantics::Default.position() == 0,
        AllocationSemantics::Immortal.position() == 1,
        AllocationSemantics::Los.position() == 2,
        AllocationSemantics::Code.position() == 3,
        AllocationSemantics::ReadOnly.position() == 4,
        AllocationSemantics::LargeCode.position() == 5,
        AllocationSemantics::NonMoving.position() == 6,
{
}

/// A configuration in which one of the pairs names each allocator that is used is in order.
pub proof fn law_a_configuration_needs_no_more_than_spaces(config: MutatorConfig)
    requires
        config.allocator_mapping@.len() == 7,
        forall|i: int|
            0 <= i < 7 && (#[trigger] config.allocator_mapping@[i]) != AllocatorSelector::Unmapped
                ==> exists|k: int|
                0 <= k < config.space_mapping@.len() && (#[trigger] config.space_mapping@[k]).0
                    == config.allocator_mapping@[i],
    ensures
        config.wf(),
{
    assert forall|i: int|
        0 <= i < NUM_SEMANTICS && (#[trigger] config.allocator_mapping@[i])
            != AllocatorSelector::Unmapped implies has_space(
        config.space_mapping@,
        config.allocator_mapping@[i],
    ) by {
        let k = choose|k: int|
            0 <= k < config.space_mapping@.len() && (#[trigger] config.space_mapping@[k]).0
                == config.allocator_mapping@[i];
        assert(config.space_mapping@[k].0 == config.allocator_mapping@[i]);
    }
}

/// A mutator needs the two allocators that the plan maps, and a free-list allocator where that holds what
/// does not move. No more is asked of it.
pub proof fn law_what_a_mutator_needs(m: Mutator, marksweep_as_nonmoving: bool, k: u8, j: u8)
    requires
        m.config.allocator_mapping@.len() == 7,
        m.config.allocator_mapping@[0] == AllocatorSelector::BumpPointer(k),
        k < m.allocators.bump_pointer@.len(),
        m.config.allocator_mapping@[6] == AllocatorSelector::Immix(j),
        j < m.allocators.immix@.len(),
        marksweep_as_nonmoving ==> m.allocators.free_list@.len() > 0,
    ensures
        m.wf(marksweep_as_nonmoving),
        m.nursery_allocator() == k,
        m.pretenure_allocator() == j,
{
}

} // verus!
