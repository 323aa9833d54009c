//! What holds over many collections: how marking cycles begin, go on and end; and what holds of a
//! whole trace.

use vstd::prelude::*;

use crate::plan::concurrent::bactrian::gc_work;
use crate::plan::concurrent::bactrian::global;
use crate::plan::concurrent::bactrian::global::{
    Bactrian, BactrianAction, Nursery, PauseInputs, UnlogBitsOperation,
};
use crate::plan::concurrent::bactrian::trace_heap::{ObjectSpace, TraceHeap};
use crate::plan::concurrent::{ConcurrentPlan, Pause};
use crate::plan::global::{BarrierSelector, PlanConstraints};
use crate::scheduler::work_bucket::WorkBucketStage;
use crate::util::copy::CopySemantics;

verus! {

/// What one collection hands on to the next: whether a marking cycle is in progress, and whether a
/// collection of the whole heap was asked for.
pub struct CycleState {
    pub marking: bool,
    pub requested: bool,
}

/// What happens around one collection.
pub struct Turn {
    pub inputs: PauseInputs,
    /// Whether a collection of the whole heap is asked for by the end of this one.
    pub asked: bool,
}

/// The pause that comes in state `s`.
pub open spec fn pause_in(s: CycleState, turn: Turn) -> Pause {
    global::next_pause(s.marking, s.requested, turn.inputs)
}

/// The state after that pause.
pub open spec fn state_after(s: CycleState, turn: Turn) -> CycleState {
    let pause = pause_in(s, turn);
    CycleState {
        marking: pause == Pause::InitialMark || (s.marking && pause != Pause::FinalMark),
        requested: (s.marking && s.requested) || turn.asked,
    }
}

/// Whether `states` are the states through which the turns lead.
pub open spec fn history(states: Seq<CycleState>, turns: Seq<Turn>) -> bool {
    &&& states.len() == turns.len() + 1
    &&& forall|i: int|
        0 <= i < turns.len() ==> #[trigger] states[i + 1] == state_after(states[i], turns[i])
}

/// The state in which the plan is between two collections.
pub open spec fn cycle_state(b: Bactrian) -> CycleState {
    CycleState { marking: b.concurrent_marking_active, requested: b.gen.next_gc_full_heap }
}

/// A collection, from its start to its end, takes the plan from one state to the next.
pub proof fn law_a_collection_is_a_turn(
    idle: Bactrian,
    scheduled: Bactrian,
    prepared: Bactrian,
    ended: Bactrian,
    turn: Turn,
    did_defrag: bool,
)
    requires
        Bactrian::scheduled(idle, scheduled, turn.inputs),
        Bactrian::prepared(scheduled, prepared),
        Bactrian::ended(prepared, ended, turn.asked, did_defrag),
    ensures
        cycle_state(ended) == state_after(cycle_state(idle), turn),
        ended.previous_pause == Some(pause_in(cycle_state(idle), turn)),
        ended.current_pause is None,
        global::pause_fits(scheduled.current_pause->0, scheduled.concurrent_marking_active),
{
}

/// While a cycle is in progress, only the nursery is collected, until the cycle is ended. Outside
/// of a cycle, none is ended. In particular a full collection never comes in a cycle, and a cycle is
/// never started in a cycle.
pub proof fn law_pauses_fit_the_cycle(states: Seq<CycleState>, turns: Seq<Turn>, i: int)
    requires
        history(states, turns),
        0 <= i < turns.len(),
    ensures
        global::pause_fits(pause_in(states[i], turns[i]), states[i].marking),
        states[i].marking ==> (pause_in(states[i], turns[i]) == (
        if turns[i].inputs.concurrent_drained {
            Pause::FinalMark
        } else {
            Pause::Nursery
        })),
        !states[i].marking ==> pause_in(states[i], turns[i]) != Pause::FinalMark,
{
}

/// After the start of a cycle, every pause is a collection of the nursery until the pause that ends
/// the cycle.
pub proof fn law_a_cycle_is_closed(states: Seq<CycleState>, turns: Seq<Turn>, i: int, j: int)
    requires
        history(states, turns),
        0 <= i < j < turns.len(),
        pause_in(states[i], turns[i]) == Pause::InitialMark,
        forall|k: int| i < k < j ==> pause_in(states[k], #[trigger] turns[k]) != Pause::FinalMark,
    ensures
        states[j].marking,
        forall|k: int| i < k < j ==> pause_in(states[k], #[trigger] turns[k]) == Pause::Nursery,
        pause_in(states[j], turns[j]) == Pause::Nursery || pause_in(states[j], turns[j])
            == Pause::FinalMark,
    decreases j - i,
{
    if j == i + 1 {
        assert(states[i + 1] == state_after(states[i], turns[i]));
    } else {
        law_a_cycle_is_closed(states, turns, i, j - 1);
        assert(states[j - 1 + 1] == state_after(states[j - 1], turns[j - 1]));
        assert(pause_in(states[j - 1], turns[j - 1]) != Pause::FinalMark);
    }
}

/// A request that comes while a cycle is in progress is not lost: it stays pending until the cycle
/// is ended, and the pause after that is a full collection or starts the next cycle.
pub proof fn law_a_pending_request_is_honoured(
    states: Seq<CycleState>,
    turns: Seq<Turn>,
    i: int,
    j: int,
)
    requires
        history(states, turns),
        0 <= i <= j,
        j + 1 < turns.len(),
        states[i].marking,
        states[i].requested,
        forall|k: int| i <= k < j ==> pause_in(states[k], #[trigger] turns[k]) != Pause::FinalMark,
        pause_in(states[j], turns[j]) == Pause::FinalMark,
    ensures
        forall|k: int| i <= k <= j ==> (#[trigger] states[k]).requested,
        pause_in(states[j + 1], turns[j + 1]) == Pause::Full || pause_in(
            states[j + 1],
            turns[j + 1],
        ) == Pause::InitialMark,
{
    assert forall|k: int| i <= k <= j implies (#[trigger] states[k]).requested by {
        lemma_request_stays(states, turns, i, k);
    }
    lemma_request_stays(states, turns, i, j);
    assert(states[j + 1] == state_after(states[j], turns[j]));
}

proof fn lemma_request_stays(states: Seq<CycleState>, turns: Seq<Turn>, i: int, k: int)
    requires
        history(states, turns),
        0 <= i <= k < turns.len(),
        states[i].marking,
        states[i].requested,
        forall|m: int| i <= m < k ==> pause_in(states[m], #[trigger] turns[m]) != Pause::FinalMark,
    ensures
        states[k].marking,
        states[k].requested,
    decreases k - i,
{
    if i < k {
        lemma_request_stays(states, turns, i, k - 1);
        assert(states[k - 1 + 1] == state_after(states[k - 1], turns[k - 1]));
        assert(pause_in(states[k - 1], turns[k - 1]) != Pause::FinalMark);
    }
}

/// The slots that a single tracer has processed: those it was given, and those of the objects that
/// it came upon.
pub open spec fn processed(h: TraceHeap, slots: Seq<usize>, found: Seq<usize>) -> Seq<usize> {
    slots + gc_work::fields_of(h, found)
}

proof fn lemma_fields_contain(h: TraceHeap, objects: Seq<usize>, i: int, k: int)
    requires
        0 <= i < objects.len(),
        0 <= k < h.slots_of(objects[i]).len(),
    ensures
        gc_work::fields_of(h, objects).contains(h.slots_of(objects[i])[k]),
    decreases objects.len(),
{
    let rest = gc_work::fields_of(h, objects.drop_last());
    let last = h.slots_of(objects.last());
    let s = h.slots_of(objects[i])[k];
    gc_work::lemma_contains_add(rest, last, s);
    if i == objects.len() - 1 {
        assert(last[k] == s);
    } else {
        lemma_fields_contain(h, objects.drop_last(), i, k);
        assert(objects.drop_last()[i] == objects[i]);
    }
}

/// After the trace of a single tracer, no slot that it was given, and no slot of an object that it
/// came upon, refers into the nursery, or to a large object that is still young. In the pause that
/// ends a marking cycle, what these slots refer to is marked.
pub proof fn law_a_trace_leaves_nothing_undone(
    pause: Pause,
    h0: TraceHeap,
    h1: TraceHeap,
    slots: Seq<usize>,
    found: Seq<usize>,
    visited: Seq<usize>,
)
    requires
        gc_work::traced(pause, h0, h1, processed(h1, slots, found), found, found, visited),
    ensures
        forall|i: int|
            0 <= i < slots.len() ==> (h1.word(#[trigger] slots[i]) matches Some(x) ==> settled(
                pause,
                h1,
                x,
            )),
        forall|i: int, k: int|
            0 <= i < found.len() && 0 <= k < h1.slots_of(found[i]).len() ==> (h1.word(
                #[trigger] h1.slots_of(found[i])[k],
            ) matches Some(x) ==> settled(pause, h1, x)),
{
    let all = processed(h1, slots, found);
    let fields = gc_work::fields_of(h1, found);
    assert forall|i: int| 0 <= i < slots.len() implies (h1.word(#[trigger] slots[i]) matches Some(
        x,
    ) ==> settled(pause, h1, x)) by {
        assert(slots.contains(slots[i]));
        gc_work::lemma_contains_add(slots, fields, slots[i]);
        assert(all.contains(slots[i]));
    }
    assert forall|i: int, k: int|
        0 <= i < found.len() && 0 <= k < h1.slots_of(found[i]).len() implies (h1.word(
        #[trigger] h1.slots_of(found[i])[k],
    ) matches Some(x) ==> settled(pause, h1, x)) by {
        let s = h1.slots_of(found[i])[k];
        lemma_fields_contain(h1, found, i, k);
        gc_work::lemma_contains_add(slots, fields, s);
        assert(all.contains(s));
    }
}

/// Whether `x` is mature, and marked if the pause ends a marking cycle.
pub open spec fn settled(pause: Pause, h: TraceHeap, x: usize) -> bool {
    let space = h.object(x).space;
    &&& h.has(x)
    &&& space == ObjectSpace::Mature || space == ObjectSpace::Large
    &&& pause == Pause::FinalMark ==> h.object(x).marked
}

/// Copying keeps the graph: each field of the copy of an object refers to where the object is now
/// that the field of the copied object referred to.
pub proof fn law_copies_keep_the_graph(
    pause: Pause,
    h0: TraceHeap,
    h1: TraceHeap,
    slots: Seq<usize>,
    found: Seq<usize>,
    visited: Seq<usize>,
    o: usize,
    k: int,
)
    requires
        h1.wf(),
        gc_work::traced(pause, h0, h1, processed(h1, slots, found), found, found, visited),
        h0.has(o),
        h0.object(o).forward is None,
        h1.object(o).forward is Some,
        0 <= k < h0.slots_of(o).len(),
    ensures
        h1.slots_of(h1.now(o)).len() == h0.slots_of(o).len(),
        h1.word(h1.slots_of(h1.now(o))[k]) == h1.resolved(h0.word(h0.slots_of(o)[k])),
{
    let c = h1.now(o);
    assert(h1.copy_of(h0, o, c));
    assert(h1.has(c));
    assert(gc_work::discovered(pause, h0, h1, c));
    assert(found.contains(c));
    let i = found.index_of(c);
    law_a_trace_leaves_nothing_undone(pause, h0, h1, slots, found, visited);
    let s = h1.slots_of(c)[k];
    assert(found[i] == c);
    assert(h1.slots_of(found[i])[k] == s);
    if let Some(x) = h1.word(s) {
        assert(settled(pause, h1, x));
        assert(h1.object(x).forward is None);
    }
}

/// The seeds of the pause that starts a marking cycle are the snapshot: every mature object to
/// which a slot of the trace, or a field of an object that it promotes, refers is a seed, unless it
/// is a copy; copies are born marked.
pub proof fn law_seeds_cover_the_snapshot(
    h0: TraceHeap,
    h1: TraceHeap,
    slots: Seq<usize>,
    found: Seq<usize>,
    visited: Seq<usize>,
    s: usize,
)
    requires
        gc_work::traced(
            Pause::InitialMark,
            h0,
            h1,
            processed(h1, slots, found),
            found,
            found,
            visited,
        ),
        processed(h1, slots, found).contains(s),
    ensures
        h1.word(s) matches Some(x) ==> gc_work::seeds_of(
            Pause::InitialMark,
            h1,
            visited,
        ).contains(x) || !h0.has(x) || gc_work::copied_to(h0, x),
{
    if let Some(x) = h1.word(s) {
        if visited.contains(x) {
            assert(h1.done(Pause::InitialMark, x));
            lemma_mature_of_contains(h1, visited, x);
        }
    }
}

proof fn lemma_mature_of_contains(h: TraceHeap, visited: Seq<usize>, x: usize)
    requires
        visited.contains(x),
        !h.is_nursery(x),
    ensures
        gc_work::mature_of(h, visited).contains(x),
    decreases visited.len(),
{
    let rest = visited.drop_last();
    let m = gc_work::mature_of(h, rest);
    if visited.last() == x {
        assert(m.push(x)[m.len() as int] == x);
    } else {
        let i = visited.index_of(x);
        assert(rest[i] == x);
        lemma_mature_of_contains(h, rest, x);
        let j = m.index_of(x);
        assert(m.push(visited.last())[j] == x);
    }
}

/// Every seed is a mature object that the trace met, and no other pause has seeds.
pub proof fn law_seeds_are_mature(
    pause: Pause,
    h: TraceHeap,
    visited: Seq<usize>,
    x: usize,
)
    requires
        gc_work::seeds_of(pause, h, visited).contains(x),
    ensures
        pause == Pause::InitialMark,
        !h.is_nursery(x),
        visited.contains(x),
    decreases visited.len(),
{
    let seeds = gc_work::seeds_of(pause, h, visited);
    if visited.len() > 0 {
        let rest = visited.drop_last();
        let m = gc_work::mature_of(h, rest);
        let i = seeds.index_of(x);
        if !h.is_nursery(visited.last()) && i == m.len() {
            assert(visited[visited.len() - 1] == x);
        } else {
            assert(m[i] == x);
            law_seeds_are_mature(pause, h, rest, x);
            let j = rest.index_of(x);
            assert(visited[j] == x);
        }
    }
}

/// Tracing slots again, with nothing changed in between, finds nothing: a slot may be traced more
/// than once.
pub proof fn law_a_second_trace_finds_nothing(
    pause: Pause,
    h1: TraceHeap,
    h2: TraceHeap,
    slots: Seq<usize>,
    found: Seq<usize>,
    visited: Seq<usize>,
)
    requires
        h1.wf(),
        h2.wf(),
        forall|s: usize| #[trigger]
            slots.contains(s) ==> s < h1.words@.len() && (h1.word(s) matches Some(x) ==> h1.done(
                pause,
                x,
            )),
        gc_work::traced(pause, h1, h2, slots, Seq::empty(), found, visited),
    ensures
        found.len() == 0,
        h2.objects@.len() == h1.objects@.len(),
        forall|s: usize|
            s < h1.words@.len() ==> #[trigger] h2.word(s) == h1.word(s),
{
    assert forall|s: usize| s < h1.words@.len() implies #[trigger] h2.word(s) == h1.word(s) by {
        if slots.contains(s) {
            if let Some(x) = h1.word(s) {
                gc_work::lemma_word_stays(pause, h1, h2, slots, s, x);
            } else {
                assert(h2.resolved(h2.word(s)) == h2.resolved(h1.word(s)));
            }
        }
    }
    if found.len() > 0 {
        let x = found[0];
        assert(found.contains(x));
        assert(gc_work::referenced(h2, slots, found[0]));
        let s = choose|s: usize| #[trigger] slots.contains(s) && h2.word(s) == Some(x);
        assert(h1.word(s) == Some(x));
    }
    if h2.objects@.len() > h1.objects@.len() {
        assert(h2.objects@.len() == h2.objects.len());
        let c = h1.objects@.len() as usize;
        assert(h2.has(c));
        assert(gc_work::discovered(pause, h1, h2, c));
        assert(found.contains(c));
    }
}

/// Outside of a marking cycle, a collection that was attempted before, one whose copies may not fit in
/// the mature space, one where every collection is full, and one that the user asks for as a full
/// collection is full: whether or not a cycle was asked for.
pub proof fn law_pressure_forces_a_full_collection(
    before: Bactrian,
    after: Bactrian,
    inputs: PauseInputs,
)
    requires
        Bactrian::scheduled(before, after, inputs),
        !before.concurrent_marking_active,
        ({
            ||| inputs.cur_collection_attempts > 1
            ||| inputs.worst_case_copy_pages > inputs.mature_pages_available
            ||| inputs.full_nursery_gc
            ||| inputs.user_triggered && before.gen.next_gc_full_heap
            ||| inputs.user_triggered && inputs.full_heap_system_gc
        }),
    ensures
        after.current_pause == Some(Pause::Full),
        after.gen.gc_full_heap,
        !after.concurrent_marking_active,
{
}

/// Outside of a marking cycle, and without pressure, the pause depends on the request alone: a request
/// starts a cycle, or a full collection where cycles are switched off; without a request only the
/// nursery is collected. The request is consumed.
pub proof fn law_without_pressure_the_request_decides(
    before: Bactrian,
    after: Bactrian,
    inputs: PauseInputs,
)
    requires
        Bactrian::scheduled(before, after, inputs),
        !before.concurrent_marking_active,
        inputs.cur_collection_attempts <= 1,
        inputs.worst_case_copy_pages <= inputs.mature_pages_available,
        !inputs.full_nursery_gc,
        !inputs.user_triggered || !before.gen.next_gc_full_heap && !inputs.full_heap_system_gc,
    ensures
        before.gen.next_gc_full_heap && !inputs.no_concurrent ==> after.current_pause == Some(
            Pause::InitialMark,
        ),
        before.gen.next_gc_full_heap && inputs.no_concurrent ==> after.current_pause == Some(
            Pause::Full,
        ),
        !before.gen.next_gc_full_heap ==> after.current_pause == Some(Pause::Nursery),
        !after.gen.next_gc_full_heap,
        after.gen.gc_full_heap == (after.current_pause == Some(Pause::Full)),
{
}

/// While a marking cycle is in progress, nothing but whether marking is done decides, and a request
/// stays. No pressure makes such a collection full.
pub proof fn law_in_a_cycle_only_marking_decides(
    before: Bactrian,
    after: Bactrian,
    inputs: PauseInputs,
)
    requires
        Bactrian::scheduled(before, after, inputs),
        before.concurrent_marking_active,
    ensures
        inputs.concurrent_drained ==> after.current_pause == Some(Pause::FinalMark),
        !inputs.concurrent_drained ==> after.current_pause == Some(Pause::Nursery),
        !after.gen.gc_full_heap,
        after.gen.next_gc_full_heap == before.gen.next_gc_full_heap,
        after.concurrent_marking_active,
{
}

/// More pressure never saves a full collection: where one is scheduled, one is also scheduled after
/// more attempts, with more to copy, with less to copy into, with a request, or for the user.
pub proof fn law_more_pressure_keeps_a_collection_full(
    before1: Bactrian,
    after1: Bactrian,
    inputs1: PauseInputs,
    before2: Bactrian,
    after2: Bactrian,
    inputs2: PauseInputs,
)
    requires
        Bactrian::scheduled(before1, after1, inputs1),
        Bactrian::scheduled(before2, after2, inputs2),
        before1.concurrent_marking_active == before2.concurrent_marking_active,
        before1.gen.next_gc_full_heap ==> before2.gen.next_gc_full_heap,
        inputs1.concurrent_drained == inputs2.concurrent_drained,
        inputs1.user_triggered ==> inputs2.user_triggered,
        inputs1.full_heap_system_gc ==> inputs2.full_heap_system_gc,
        inputs1.cur_collection_attempts <= inputs2.cur_collection_attempts,
        inputs1.worst_case_copy_pages <= inputs2.worst_case_copy_pages,
        inputs1.mature_pages_available >= inputs2.mature_pages_available,
        inputs1.full_nursery_gc ==> inputs2.full_nursery_gc,
        inputs1.no_concurrent ==> inputs2.no_concurrent,
        after1.current_pause == Some(Pause::Full),
    ensures
        after2.current_pause == Some(Pause::Full),
{
}

/// Scheduling a collection changes the pause, the request and the kind of the collection, and nothing
/// else.
pub proof fn law_scheduling_leaves_the_rest_alone(
    before: Bactrian,
    after: Bactrian,
    inputs: PauseInputs,
)
    requires
        Bactrian::scheduled(before, after, inputs),
    ensures
        after.current_pause is Some,
        after.previous_pause == before.previous_pause,
        after.concurrent_marking_active == before.concurrent_marking_active,
        after.last_gc_was_defrag == before.last_gc_was_defrag,
        after.allocate_as_live == before.allocate_as_live,
        after.gen.nursery == before.gen.nursery,
        after.gen.common == before.gen.common,
        after.gen.full_heap_gc_count == before.gen.full_heap_gc_count,
{
}

/// Whether the mature space is given new marks, and whether it is swept by them, over a collection:
/// marks are begun in the pause that starts a cycle and in a full collection, and are used in the
/// pause that ends a cycle and in a full collection. So they are used only when they are complete.
/// Only a full collection clears the unlog bits; no collection sets them.
pub proof fn law_the_mature_space_is_swept_by_complete_marks(pause: Pause)
    ensures
        forall|op: UnlogBitsOperation| #[trigger]
            Bactrian::prepare_actions(pause).contains(BactrianAction::PrepareMature(op)) <==> (
            pause == Pause::Full && op == UnlogBitsOperation::BulkClear || pause
                == Pause::InitialMark && op == UnlogBitsOperation::NoOp),
        forall|op: UnlogBitsOperation| #[trigger]
            Bactrian::release_actions(pause).contains(BactrianAction::ReleaseMature(op)) <==> ((
            pause == Pause::Full || pause == Pause::FinalMark) && op == UnlogBitsOperation::NoOp),
{
    lemma_actions(pause);
}

/// The nursery is prepared and released in every pause, either with the common spaces or alone. Where
/// it is prepared alone, what leaves it is promoted, and it is prepared before that is set.
pub proof fn law_every_pause_collects_the_nursery(pause: Pause)
    ensures
        Bactrian::prepare_actions(pause).contains(BactrianAction::PrepareGen) <==> pause
            == Pause::Full || pause == Pause::Nursery,
        Bactrian::prepare_actions(pause).contains(BactrianAction::PrepareNursery) <==> pause
            == Pause::InitialMark || pause == Pause::FinalMark,
        forall|semantics: CopySemantics| #[trigger]
            Bactrian::prepare_actions(pause).contains(BactrianAction::SetNurseryCopy(semantics))
                <==> (pause == Pause::InitialMark || pause == Pause::FinalMark) && semantics
                == CopySemantics::PromoteToMature,
        pause == Pause::InitialMark || pause == Pause::FinalMark ==> Bactrian::prepare_actions(
            pause,
        )[0] == BactrianAction::PrepareNursery,
        Bactrian::release_actions(pause).contains(BactrianAction::ReleaseGen) <==> pause
            != Pause::FinalMark,
        Bactrian::release_actions(pause).contains(BactrianAction::ReleaseNursery) <==> pause
            == Pause::FinalMark,
        Bactrian::prepare_actions(pause).no_duplicates(),
        Bactrian::release_actions(pause).no_duplicates(),
{
    lemma_actions(pause);
}

/// Over a marking cycle, the common spaces are prepared for a full collection once, in its first
/// pause, and released after one once, in its last.
pub proof fn law_a_cycle_collects_the_common_spaces_once(pause: Pause)
    ensures
        forall|full: bool| #[trigger]
            Bactrian::prepare_actions(pause).contains(BactrianAction::PrepareCommon { full })
                <==> pause == Pause::InitialMark && full,
        forall|full: bool| #[trigger]
            Bactrian::release_actions(pause).contains(BactrianAction::ReleaseCommon { full })
                <==> pause == Pause::FinalMark && full,
{
    lemma_actions(pause);
}

/// The actions of a pause are those that are listed, one by one.
proof fn lemma_actions(pause: Pause)
    ensures
        forall|a: BactrianAction| #[trigger]
            Bactrian::prepare_actions(pause).contains(a) <==> (match pause {
                Pause::Full => a == BactrianAction::PrepareGen || a
                    == BactrianAction::PrepareMature(UnlogBitsOperation::BulkClear),
                Pause::InitialMark => a == BactrianAction::PrepareNursery || a
                    == BactrianAction::SetNurseryCopy(CopySemantics::PromoteToMature) || a
                    == (BactrianAction::PrepareCommon { full: true }) || a
                    == BactrianAction::PrepareMature(UnlogBitsOperation::NoOp),
                Pause::Nursery => a == BactrianAction::PrepareGen,
                Pause::FinalMark => a == BactrianAction::PrepareNursery || a
                    == BactrianAction::SetNurseryCopy(CopySemantics::PromoteToMature),
            }),
        forall|a: BactrianAction| #[trigger]
            Bactrian::release_actions(pause).contains(a) <==> (match pause {
                Pause::Full => a == BactrianAction::ReleaseGen || a
                    == BactrianAction::ReleaseMature(UnlogBitsOperation::NoOp),
                Pause::InitialMark | Pause::Nursery => a == BactrianAction::ReleaseGen,
                Pause::FinalMark => a == BactrianAction::ReleaseNursery || a
                    == (BactrianAction::ReleaseCommon { full: true }) || a
                    == BactrianAction::ReleaseMature(UnlogBitsOperation::NoOp),
            }),
{
    let prepare = Bactrian::prepare_actions(pause);
    let release = Bactrian::release_actions(pause);
    match pause {
        Pause::Full => {
            assert(prepare[0] == BactrianAction::PrepareGen);
            assert(prepare[1] == BactrianAction::PrepareMature(UnlogBitsOperation::BulkClear));
            assert(release[0] == BactrianAction::ReleaseGen);
            assert(release[1] == BactrianAction::ReleaseMature(UnlogBitsOperation::NoOp));
        },
        Pause::InitialMark => {
            assert(prepare[0] == BactrianAction::PrepareNursery);
            assert(prepare[1] == BactrianAction::SetNurseryCopy(CopySemantics::PromoteToMature));
            assert(prepare[2] == (BactrianAction::PrepareCommon { full: true }));
            assert(prepare[3] == BactrianAction::PrepareMature(UnlogBitsOperation::NoOp));
            assert(release[0] == BactrianAction::ReleaseGen);
        },
        Pause::Nursery => {
            assert(prepare[0] == BactrianAction::PrepareGen);
            assert(release[0] == BactrianAction::ReleaseGen);
        },
        Pause::FinalMark => {
            assert(prepare[0] == BactrianAction::PrepareNursery);
            assert(prepare[1] == BactrianAction::SetNurseryCopy(CopySemantics::PromoteToMature));
            assert(release[0] == BactrianAction::ReleaseNursery);
            assert(release[1] == (BactrianAction::ReleaseCommon { full: true }));
            assert(release[2] == BactrianAction::ReleaseMature(UnlogBitsOperation::NoOp));
        },
    }
}

/// A marking cycle is in progress from the preparation of the pause that starts it to the end of the
/// pause that ends it: what these two pauses promote, and what is allocated between them, is allocated
/// as live in every space. Each cycle is counted once. No other pause changes any of this.
pub proof fn law_a_cycle_lasts_from_its_first_to_its_last_pause(
    scheduled: Bactrian,
    prepared: Bactrian,
    ended: Bactrian,
    asked: bool,
    did_defrag: bool,
)
    requires
        Bactrian::prepared(scheduled, prepared),
        Bactrian::ended(prepared, ended, asked, did_defrag),
        prepared.wf(),
        ended.wf(),
    ensures
        scheduled.current_pause == Some(Pause::InitialMark) ==> prepared.concurrent_marking_active
            && ended.concurrent_marking_active && prepared.gen.full_heap_gc_count
            == scheduled.gen.full_heap_gc_count + 1,
        scheduled.current_pause == Some(Pause::FinalMark) ==> prepared.concurrent_marking_active
            == scheduled.concurrent_marking_active && !ended.concurrent_marking_active,
        scheduled.current_pause == Some(Pause::Nursery) || scheduled.current_pause == Some(
            Pause::Full,
        ) ==> prepared.concurrent_marking_active == scheduled.concurrent_marking_active
            && ended.concurrent_marking_active == scheduled.concurrent_marking_active,
        scheduled.current_pause != Some(Pause::InitialMark) ==> prepared.gen.full_heap_gc_count
            == scheduled.gen.full_heap_gc_count,
        forall|i: int|
            0 <= i < prepared.allocate_as_live@.len() ==> #[trigger] prepared.allocate_as_live@[i]
                == prepared.concurrent_marking_active,
        forall|i: int|
            0 <= i < ended.allocate_as_live@.len() ==> #[trigger] ended.allocate_as_live@[i]
                == ended.concurrent_marking_active,
        prepared.allocate_as_live@.len() == scheduled.allocate_as_live@.len(),
        ended.allocate_as_live@.len() == scheduled.allocate_as_live@.len(),
        prepared.current_pause == scheduled.current_pause,
        prepared.gen.next_gc_full_heap == scheduled.gen.next_gc_full_heap,
        prepared.gen.gc_full_heap == scheduled.gen.gc_full_heap,
        ended.current_pause is None,
        ended.previous_pause == scheduled.current_pause,
        ended.last_gc_was_defrag == did_defrag,
        ended.gen.full_heap_gc_count == prepared.gen.full_heap_gc_count,
        ended.gen.gc_full_heap == scheduled.gen.gc_full_heap,
        prepared.previous_pause == scheduled.previous_pause,
        prepared.last_gc_was_defrag == scheduled.last_gc_was_defrag,
        prepared.gen.nursery == scheduled.gen.nursery,
        prepared.gen.common == scheduled.gen.common,
        ended.gen.nursery == scheduled.gen.nursery,
        ended.gen.common == scheduled.gen.common,
        asked ==> ended.gen.next_gc_full_heap,
        scheduled.gen.next_gc_full_heap ==> ended.gen.next_gc_full_heap,
        !asked && !scheduled.gen.next_gc_full_heap ==> !ended.gen.next_gc_full_heap,
{
}

/// The largest object of the nursery fits in a block of the mature space and in what can be copied, and
/// nothing larger does. The other constraints are those of a generational plan whose deletion barrier
/// may remember a slot more than once.
pub proof fn law_young_objects_fit_where_they_go(
    defaults: PlanConstraints,
    immix: usize,
    copying: usize,
)
    ensures
        ({
            let c = global::constraints_from(defaults, immix, copying);
            &&& c.max_non_los_default_alloc_bytes <= immix
            &&& c.max_non_los_default_alloc_bytes <= copying
            &&& c.max_non_los_default_alloc_bytes == immix || c.max_non_los_default_alloc_bytes
                == copying
            &&& c.moves_objects
            &&& c.generational
            &&& c.needs_log_bit
            &&& c.needs_field_log_bit == defaults.needs_field_log_bit
            &&& c.rc_enabled == defaults.rc_enabled
            &&& c.barrier == BarrierSelector::SATBBarrier
            &&& c.may_trace_duplicate_edges
            &&& c.needs_prepare_mutator
        }),
{
}

/// The stages for forwarding and for compaction are without use, and no other.
pub proof fn law_only_forwarding_and_compaction_have_no_use(stage: WorkBucketStage)
    ensures
        global::never_used(WorkBucketStage::VMRefForwarding),
        global::never_used(WorkBucketStage::CalculateForwarding),
        global::never_used(WorkBucketStage::SecondRoots),
        global::never_used(WorkBucketStage::RefForwarding),
        global::never_used(WorkBucketStage::FinalizableForwarding),
        global::never_used(WorkBucketStage::Compact),
        stage != WorkBucketStage::VMRefForwarding && stage != WorkBucketStage::CalculateForwarding
            && stage != WorkBucketStage::SecondRoots && stage != WorkBucketStage::RefForwarding
            && stage != WorkBucketStage::FinalizableForwarding && stage != WorkBucketStage::Compact
            ==> !global::never_used(stage),
{
}

/// The nursery consists of its ranges: every address of a range is in it, the end of a range is not
/// part of it, and an address outside of all ranges is not in the nursery.
pub proof fn law_the_nursery_is_its_ranges(nursery: Nursery, addr: usize, k: int)
    ensures
        0 <= k < nursery.ranges@.len() && nursery.ranges@[k].0 <= addr < nursery.ranges@[k].1
            ==> nursery.has(addr),
        (forall|i: int|
            0 <= i < nursery.ranges@.len() ==> addr < (#[trigger] nursery.ranges@[i]).0 || addr
                >= nursery.ranges@[i].1) ==> !nursery.has(addr),
{
    if 0 <= k < nursery.ranges@.len() && nursery.ranges@[k].0 <= addr < nursery.ranges@[k].1 {
        assert(nursery.ranges@[k].0 <= addr && addr < nursery.ranges@[k].1);
    }
}

/// Within a pause, the nursery goes first, then what it copies with is set, then come the common spaces,
/// and the mature space goes last, both in preparing and in releasing.
pub proof fn law_the_nursery_goes_first_and_the_mature_space_last(pause: Pause, i: int)
    requires
        0 <= i,
    ensures
        i < Bactrian::prepare_actions(pause).len() ==> match Bactrian::prepare_actions(pause)[i] {
            BactrianAction::PrepareGen | BactrianAction::PrepareNursery => i == 0,
            BactrianAction::SetNurseryCopy(_) => i == 1,
            BactrianAction::PrepareCommon { .. } => i == 2,
            BactrianAction::PrepareMature(_) => i + 1 == Bactrian::prepare_actions(pause).len(),
            _ => false,
        },
        i < Bactrian::release_actions(pause).len() ==> match Bactrian::release_actions(pause)[i] {
            BactrianAction::ReleaseGen | BactrianAction::ReleaseNursery => i == 0,
            BactrianAction::ReleaseCommon { .. } => i == 1,
            BactrianAction::ReleaseMature(_) => i + 1 == Bactrian::release_actions(pause).len(),
            _ => false,
        },
{
}

/// A cycle is started, or replaced by a full collection, only outside of a cycle, and ended only in one.
/// The nursery can be collected at any time.
pub proof fn law_a_cycle_is_started_outside_and_ended_inside(marking: bool)
    ensures
        global::pause_fits(Pause::Nursery, marking),
        global::pause_fits(Pause::FinalMark, marking) == marking,
        global::pause_fits(Pause::InitialMark, marking) == !marking,
        global::pause_fits(Pause::Full, marking) == !marking,
{
}

/// What the plan tells the rest of the collector is its state: concurrent work is in progress while a
/// cycle is, and the pause is the one in progress.
pub proof fn law_the_plan_tells_its_state(b: Bactrian)
    ensures
        b.marking() == b.concurrent_marking_active,
        b.pause() == b.current_pause,
{
}

/// The plan is in order exactly if every space allocates objects as live while a cycle is in progress,
/// and none does otherwise.
pub proof fn law_what_the_plan_needs(b: Bactrian)
    ensures
        b.wf() <==> (forall|i: int|
            0 <= i < b.allocate_as_live@.len() ==> #[trigger] b.allocate_as_live@[i]
                == b.concurrent_marking_active),
{
}

} // verus!
