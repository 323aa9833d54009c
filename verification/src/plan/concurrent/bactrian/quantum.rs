//! Quanta: slices of marking or sweeping that run in a pause, packet by packet, until there is no
//! packet left or the time is up. A quantum says what to do next; its driver pops and runs the
//! packets, and looks at the clock.

use vstd::prelude::*;

use crate::policy::largeobjectspace::LargeObjectSpace;

verus! {

/// What has happened to a quantum.
#[derive(Clone, Copy, PartialEq, Eq, Structural, Debug)]
pub enum QuantumEvent {
    /// It was started.
    Started,
    /// A packet was popped, or none was left.
    Popped(Option<u64>),
    /// The packet was run. Says whether the time of the quantum, if it is limited, is up, and whether
    /// no packet is left.
    Ran { expired: bool, drained: bool },
}

/// What a quantum has its driver do.
#[derive(Clone, Copy, PartialEq, Eq, Structural, Debug)]
pub enum QuantumAction {
    /// Pop a packet.
    Pop,
    /// Run the packet.
    Run(u64),
    /// Note that nothing is left to sweep, and stop.
    EmptiedAndStop,
    /// Stop.
    Stop,
}

/// A slice of marking. While it runs, the large-object space marks mature objects too, which it
/// would skip in the nursery pause around the quantum.
pub struct BactrianMarkQuantum {
    /// Whether the time is limited.
    pub budgeted: bool,
    /// How the large-object space marked before.
    pub was_full: bool,
}

impl BactrianMarkQuantum {
    /// A quantum with limited time.
    pub fn budgeted() -> (q: Self)
        ensures
            q.budgeted,
    {
        BactrianMarkQuantum { budgeted: true, was_full: false }
    }

    /// A quantum that goes on until nothing is left.
    pub fn unbudgeted() -> (q: Self)
        ensures
            !q.budgeted,
    {
        BactrianMarkQuantum { budgeted: false, was_full: false }
    }

    /// What to do after `event`.
    pub open spec fn action(budgeted: bool, event: QuantumEvent) -> QuantumAction {
        match event {
            QuantumEvent::Started => QuantumAction::Pop,
            QuantumEvent::Popped(Some(packet)) => QuantumAction::Run(packet),
            QuantumEvent::Popped(None) => QuantumAction::Stop,
            QuantumEvent::Ran { expired, .. } => if budgeted && expired {
                QuantumAction::Stop
            } else {
                QuantumAction::Pop
            },
        }
    }

    /// Whether, after `event`, quantum and large-object space go from the first of each to the
    /// second: full marking is switched on at the start, and set back at the end.
    pub open spec fn steps(
        q0: Self,
        q1: Self,
        los0: LargeObjectSpace,
        los1: LargeObjectSpace,
        event: QuantumEvent,
    ) -> bool {
        let action = Self::action(q0.budgeted, event);
        &&& q1.budgeted == q0.budgeted
        &&& q1.was_full == (if event == QuantumEvent::Started {
            los0.full_semantics
        } else {
            q0.was_full
        })
        &&& los1 == (LargeObjectSpace {
            full_semantics: if event == QuantumEvent::Started {
                true
            } else if action == QuantumAction::Stop {
                q0.was_full
            } else {
                los0.full_semantics
            },
            ..los0
        })
    }

    /// Say what to do after `event`.
    pub fn do_work(&mut self, event: QuantumEvent, los: &mut LargeObjectSpace) -> (action:
        QuantumAction)
        ensures
            action == Self::action(old(self).budgeted, event),
            Self::steps(*old(self), *final(self), *old(los), *final(los), event),
    {
        match event {
            QuantumEvent::Started => {
                self.was_full = los.set_marking_full_semantics(true);
                QuantumAction::Pop
            },
            QuantumEvent::Popped(popped) => match popped {
                Some(packet) => QuantumAction::Run(packet),
                None => {
                    los.set_marking_full_semantics(self.was_full);
                    QuantumAction::Stop
                },
            },
            QuantumEvent::Ran { expired, .. } => {
                if self.budgeted && expired {
                    los.set_marking_full_semantics(self.was_full);
                    QuantumAction::Stop
                } else {
                    QuantumAction::Pop
                }
            },
        }
    }
}

/// How far a sweeping quantum has come.
#[derive(Clone, Copy, PartialEq, Eq, Structural, Debug)]
pub enum SweepPhase {
    /// The time is not up.
    Draining,
    /// The time is up; one more packet is popped to see whether any is left.
    LastLook,
}

/// A slice of sweeping. It notes when nothing is left to sweep: also if that comes with its last
/// packet, be it the one that it runs after its time is up.
pub struct BactrianSweepQuantum {
    /// Whether the time is limited.
    pub budgeted: bool,
    pub phase: SweepPhase,
}

impl BactrianSweepQuantum {
    /// A quantum with limited time.
    pub fn budgeted() -> (q: Self)
        ensures
            q.budgeted,
            q.phase == SweepPhase::Draining,
    {
        BactrianSweepQuantum { budgeted: true, phase: SweepPhase::Draining }
    }

    /// A quantum that goes on until nothing is left.
    pub fn unbudgeted() -> (q: Self)
        ensures
            !q.budgeted,
            q.phase == SweepPhase::Draining,
    {
        BactrianSweepQuantum { budgeted: false, phase: SweepPhase::Draining }
    }

    /// What to do after `event`. A packet that the last look finds cannot be put back, so it is
    /// run. Whether any is left after that one, the quantum is told.
    pub open spec fn action(q: Self, event: QuantumEvent) -> QuantumAction {
        match event {
            QuantumEvent::Started => QuantumAction::Pop,
            QuantumEvent::Popped(Some(packet)) => QuantumAction::Run(packet),
            QuantumEvent::Popped(None) => QuantumAction::EmptiedAndStop,
            QuantumEvent::Ran { drained, .. } => if q.phase == SweepPhase::Draining {
                QuantumAction::Pop
            } else if drained {
                QuantumAction::EmptiedAndStop
            } else {
                QuantumAction::Stop
            },
        }
    }

    /// The quantum after `event`.
    pub open spec fn after(q: Self, event: QuantumEvent) -> Self {
        BactrianSweepQuantum {
            phase: if q.budgeted && (event matches QuantumEvent::Ran { expired, .. } && expired) {
                SweepPhase::LastLook
            } else {
                q.phase
            },
            ..q
        }
    }

    /// Say what to do after `event`.
    pub fn do_work(&mut self, event: QuantumEvent) -> (action: QuantumAction)
        ensures
            action == Self::action(*old(self), event),
            *final(self) == Self::after(*old(self), event),
    {
        match event {
            QuantumEvent::Started => QuantumAction::Pop,
            QuantumEvent::Popped(popped) => match popped {
                Some(packet) => QuantumAction::Run(packet),
                None => QuantumAction::EmptiedAndStop,
            },
            QuantumEvent::Ran { expired, drained } => {
                let last = self.phase == SweepPhase::LastLook;
                if self.budgeted && expired {
                    self.phase = SweepPhase::LastLook;
                }
                if !last {
                    QuantumAction::Pop
                } else if drained {
                    QuantumAction::EmptiedAndStop
                } else {
                    QuantumAction::Stop
                }
            },
        }
    }
}

/// Whether the driver answers `action` with `event`.
pub open spec fn answers(action: QuantumAction, event: QuantumEvent) -> bool {
    match action {
        QuantumAction::Pop => event is Popped,
        QuantumAction::Run(_) => event is Ran,
        _ => false,
    }
}

/// The packets that `events` popped, in their order.
pub open spec fn popped(events: Seq<QuantumEvent>) -> Seq<u64>
    decreases events.len(),
{
    if events.len() == 0 {
        Seq::empty()
    } else {
        match events.last() {
            QuantumEvent::Popped(Some(packet)) => popped(events.drop_last()).push(packet),
            _ => popped(events.drop_last()),
        }
    }
}

/// The packets that `actions` ran, in their order.
pub open spec fn ran(actions: Seq<QuantumAction>) -> Seq<u64>
    decreases actions.len(),
{
    if actions.len() == 0 {
        Seq::empty()
    } else {
        match actions.last() {
            QuantumAction::Run(packet) => ran(actions.drop_last()).push(packet),
            _ => ran(actions.drop_last()),
        }
    }
}

/// Whether `events` and `actions` are what happens in a marking quantum, started and driven as it
/// asks for, with the states of the quantum between them, and with the large-object space before
/// and after each step of the quantum. Between two steps, others may change that space, but not how
/// it marks.
pub open spec fn mark_run(
    qs: Seq<BactrianMarkQuantum>,
    los0: Seq<LargeObjectSpace>,
    los1: Seq<LargeObjectSpace>,
    events: Seq<QuantumEvent>,
    actions: Seq<QuantumAction>,
) -> bool {
    &&& events.len() == actions.len() == los0.len() == los1.len()
    &&& qs.len() == events.len() + 1
    &&& events.len() > 0
    &&& events[0] == QuantumEvent::Started
    &&& forall|i: int|
        0 <= i < events.len() ==> #[trigger] actions[i] == BactrianMarkQuantum::action(
            qs[i].budgeted,
            events[i],
        )
    &&& forall|i: int|
        0 <= i < events.len() ==> BactrianMarkQuantum::steps(
            qs[i],
            qs[i + 1],
            los0[i],
            los1[i],
            #[trigger] events[i],
        )
    &&& forall|i: int|
        0 < i < events.len() ==> answers(actions[i - 1], #[trigger] events[i])
            && los0[i].full_semantics == los1[i - 1].full_semantics
}

/// While a marking quantum drains packets, the large-object space marks in full; when the quantum
/// has stopped, it marks as it did before. Every packet that is popped is run, once, in the order
/// of the pops. The quantum stops only when no packet is left, or when its time is limited and up.
pub proof fn law_a_marking_quantum_marks_in_full_and_restores(
    qs: Seq<BactrianMarkQuantum>,
    los0: Seq<LargeObjectSpace>,
    los1: Seq<LargeObjectSpace>,
    events: Seq<QuantumEvent>,
    actions: Seq<QuantumAction>,
)
    requires
        mark_run(qs, los0, los1, events, actions),
    ensures
        forall|i: int| 0 < i < events.len() ==> (#[trigger] los0[i]).full_semantics,
        actions.last() == QuantumAction::Stop ==> los1.last().full_semantics
            == los0[0].full_semantics,
        actions.last() != QuantumAction::Stop ==> los1.last().full_semantics,
        ran(actions) == popped(events),
        actions.last() == QuantumAction::Stop ==> events.last() == QuantumEvent::Popped(None) || (
        qs[0].budgeted && (events.last() matches QuantumEvent::Ran { expired, .. } && expired)),
{
    lemma_mark_run(qs, los0, los1, events, actions, events.len() as int);
    assert(events.take(events.len() as int) =~= events);
    assert(actions.take(actions.len() as int) =~= actions);
    assert forall|i: int| 0 < i < events.len() implies (#[trigger] los0[i]).full_semantics by {
        lemma_mark_run(qs, los0, los1, events, actions, i);
        assert(answers(actions[i - 1], events[i]));
    }
    let last = events.len() - 1;
    lemma_mark_run(qs, los0, los1, events, actions, last);
    assert(actions[last] == BactrianMarkQuantum::action(qs[last].budgeted, events[last]));
    assert(BactrianMarkQuantum::steps(
        qs[last],
        qs[last + 1],
        los0[last],
        los1[last],
        events[last],
    ));
    if last > 0 {
        assert(answers(actions[last - 1], events[last]));
    }
}

proof fn lemma_mark_run(
    qs: Seq<BactrianMarkQuantum>,
    los0: Seq<LargeObjectSpace>,
    los1: Seq<LargeObjectSpace>,
    events: Seq<QuantumEvent>,
    actions: Seq<QuantumAction>,
    n: int,
)
    requires
        mark_run(qs, los0, los1, events, actions),
        0 <= n <= events.len(),
    ensures
        qs[n].budgeted == qs[0].budgeted,
        n > 0 ==> qs[n].was_full == los0[0].full_semantics,
        n > 0 && actions[n - 1] != QuantumAction::Stop ==> los1[n - 1].full_semantics,
        ran(actions.take(n)) == popped(events.take(n)),
    decreases n,
{
    if n > 0 {
        lemma_mark_run(qs, los0, los1, events, actions, n - 1);
        assert(actions[n - 1] == BactrianMarkQuantum::action(qs[n - 1].budgeted, events[n - 1]));
        assert(BactrianMarkQuantum::steps(
            qs[n - 1],
            qs[n],
            los0[n - 1],
            los1[n - 1],
            events[n - 1],
        ));
        if n > 1 {
            assert(answers(actions[n - 2], events[n - 1]));
        }
        assert(actions.take(n).drop_last() =~= actions.take(n - 1));
        assert(events.take(n).drop_last() =~= events.take(n - 1));
    } else {
        assert(actions.take(0) =~= Seq::empty());
        assert(events.take(0) =~= Seq::empty());
    }
}

/// Whether `events` and `actions` are what happens in a sweeping quantum, started and driven as it
/// asks for, with the states of the quantum between them.
pub open spec fn sweep_run(
    qs: Seq<BactrianSweepQuantum>,
    events: Seq<QuantumEvent>,
    actions: Seq<QuantumAction>,
) -> bool {
    &&& events.len() == actions.len()
    &&& qs.len() == events.len() + 1
    &&& events.len() > 0
    &&& events[0] == QuantumEvent::Started
    &&& qs[0].phase == SweepPhase::Draining
    &&& forall|i: int|
        0 <= i < events.len() ==> #[trigger] actions[i] == BactrianSweepQuantum::action(
            qs[i],
            events[i],
        ) && qs[i + 1] == BactrianSweepQuantum::after(qs[i], events[i])
    &&& forall|i: int|
        0 < i < events.len() ==> answers(actions[i - 1], #[trigger] events[i])
}

/// Whether `event` tells that no packet is left.
pub open spec fn tells_empty(event: QuantumEvent) -> bool {
    match event {
        QuantumEvent::Started => false,
        QuantumEvent::Popped(popped) => popped is None,
        QuantumEvent::Ran { drained, .. } => drained,
    }
}

/// A sweeping quantum that has stopped has noted that nothing is left exactly if nothing is left:
/// also if its last packet was the one that it ran after its time was up. One without limit stops in
/// no other way. Every packet that is popped is run, once, in the order of the pops.
pub proof fn law_a_sweeping_quantum_notes_the_empty_queue(
    qs: Seq<BactrianSweepQuantum>,
    events: Seq<QuantumEvent>,
    actions: Seq<QuantumAction>,
)
    requires
        sweep_run(qs, events, actions),
    ensures
        actions.last() == QuantumAction::EmptiedAndStop ==> tells_empty(events.last()),
        actions.last() == QuantumAction::Stop ==> !tells_empty(events.last()),
        !qs[0].budgeted ==> actions.last() != QuantumAction::Stop,
        ran(actions) == popped(events),
{
    lemma_sweep_run(qs, events, actions, events.len() as int);
    assert(events.take(events.len() as int) =~= events);
    assert(actions.take(actions.len() as int) =~= actions);
    let last = events.len() - 1;
    lemma_sweep_run(qs, events, actions, last);
    assert(actions[last] == BactrianSweepQuantum::action(qs[last], events[last]));
}

/// After its time is up, a sweeping quantum runs at most one packet more: the step after that packet
/// is the last.
pub proof fn law_a_sweeping_quantum_overruns_by_one_packet(
    qs: Seq<BactrianSweepQuantum>,
    events: Seq<QuantumEvent>,
    actions: Seq<QuantumAction>,
    i: int,
    j: int,
)
    requires
        sweep_run(qs, events, actions),
        qs[0].budgeted,
        0 <= i < j < events.len(),
        events[i] matches QuantumEvent::Ran { expired, .. } && expired,
        actions[j] is Run,
    ensures
        events.len() <= j + 2,
        j + 1 < events.len() ==> actions[j + 1] == (if tells_empty(events[j + 1]) {
            QuantumAction::EmptiedAndStop
        } else {
            QuantumAction::Stop
        }),
{
    lemma_sweep_run(qs, events, actions, i);
    assert(actions[i] == BactrianSweepQuantum::action(qs[i], events[i]));
    assert(qs[i + 1].phase == SweepPhase::LastLook);
    lemma_last_look_stays(qs, events, actions, i + 1, j);
    assert(actions[j] == BactrianSweepQuantum::action(qs[j], events[j]));
    if j + 1 < events.len() {
        assert(answers(actions[j + 1 - 1], events[j + 1]));
        assert(actions[j + 1] == BactrianSweepQuantum::action(qs[j + 1], events[j + 1]));
        if j + 2 < events.len() {
            assert(answers(actions[j + 2 - 1], events[j + 2]));
        }
    }
}

proof fn lemma_last_look_stays(
    qs: Seq<BactrianSweepQuantum>,
    events: Seq<QuantumEvent>,
    actions: Seq<QuantumAction>,
    i: int,
    j: int,
)
    requires
        sweep_run(qs, events, actions),
        0 <= i <= j < qs.len(),
        qs[i].phase == SweepPhase::LastLook,
    ensures
        qs[j].phase == SweepPhase::LastLook,
    decreases j - i,
{
    if i < j {
        lemma_last_look_stays(qs, events, actions, i, j - 1);
        assert(actions[j - 1] == BactrianSweepQuantum::action(qs[j - 1], events[j - 1]));
    }
}

proof fn lemma_sweep_run(
    qs: Seq<BactrianSweepQuantum>,
    events: Seq<QuantumEvent>,
    actions: Seq<QuantumAction>,
    n: int,
)
    requires
        sweep_run(qs, events, actions),
        0 <= n <= events.len(),
    ensures
        qs[n].budgeted == qs[0].budgeted,
        !qs[0].budgeted ==> qs[n].phase == SweepPhase::Draining,
        ran(actions.take(n)) == popped(events.take(n)),
    decreases n,
{
    if n > 0 {
        lemma_sweep_run(qs, events, actions, n - 1);
        assert(actions[n - 1] == BactrianSweepQuantum::action(qs[n - 1], events[n - 1]));
        assert(actions.take(n).drop_last() =~= actions.take(n - 1));
        assert(events.take(n).drop_last() =~= events.take(n - 1));
    } else {
        assert(actions.take(0) =~= Seq::empty());
        assert(events.take(0) =~= Seq::empty());
    }
}

/// Only its time cuts a sweeping quantum short. As long as no packet that it ran has said that the
/// time is up, it goes on popping after each packet; so if it stops with packets left, an earlier event
/// said so, and the quantum is one with limited time.
pub proof fn law_a_sweeping_quantum_is_cut_short_only_by_its_time(
    qs: Seq<BactrianSweepQuantum>,
    events: Seq<QuantumEvent>,
    actions: Seq<QuantumAction>,
    n: int,
)
    requires
        sweep_run(qs, events, actions),
        0 <= n < events.len(),
    ensures
        (forall|i: int|
            0 <= i < n ==> !((#[trigger] events[i]) matches QuantumEvent::Ran { expired, .. }
                && expired)) || !qs[0].budgeted ==> match events[n] {
            QuantumEvent::Started => actions[n] == QuantumAction::Pop,
            QuantumEvent::Popped(Some(packet)) => actions[n] == QuantumAction::Run(packet),
            QuantumEvent::Popped(None) => actions[n] == QuantumAction::EmptiedAndStop,
            QuantumEvent::Ran { .. } => actions[n] == QuantumAction::Pop,
        },
        actions[n] == QuantumAction::Stop ==> qs[0].budgeted && exists|i: int|
            0 <= i < n && (#[trigger] events[i] matches QuantumEvent::Ran { expired, .. }
                && expired),
{
    if forall|i: int|
        0 <= i < n ==> !((#[trigger] events[i]) matches QuantumEvent::Ran { expired, .. }
            && expired) {
        lemma_draining(qs, events, actions, n);
    }
    lemma_sweep_run(qs, events, actions, n);
    assert(actions[n] == BactrianSweepQuantum::action(qs[n], events[n]));
}

proof fn lemma_draining(
    qs: Seq<BactrianSweepQuantum>,
    events: Seq<QuantumEvent>,
    actions: Seq<QuantumAction>,
    n: int,
)
    requires
        sweep_run(qs, events, actions),
        0 <= n <= events.len(),
        forall|i: int|
            0 <= i < n ==> !((#[trigger] events[i]) matches QuantumEvent::Ran { expired, .. }
                && expired),
    ensures
        qs[n].phase == SweepPhase::Draining,
    decreases n,
{
    if n > 0 {
        lemma_draining(qs, events, actions, n - 1);
        assert(actions[n - 1] == BactrianSweepQuantum::action(qs[n - 1], events[n - 1]));
    }
}

/// Once the time of a sweeping quantum with limited time is up, it looks once more: it pops, and if that
/// gives a packet it runs it and then stops, noting whether anything is left.
pub proof fn law_a_sweeping_quantum_looks_once_more(
    qs: Seq<BactrianSweepQuantum>,
    events: Seq<QuantumEvent>,
    actions: Seq<QuantumAction>,
    i: int,
)
    requires
        sweep_run(qs, events, actions),
        qs[0].budgeted,
        0 <= i < events.len(),
        events[i] matches QuantumEvent::Ran { expired, .. } && expired,
        forall|k: int|
            0 <= k < i ==> !((#[trigger] events[k]) matches QuantumEvent::Ran { expired, .. }
                && expired),
    ensures
        actions[i] == QuantumAction::Pop,
        i + 1 < events.len() ==> match events[i + 1] {
            QuantumEvent::Popped(Some(packet)) => {
                &&& actions[i + 1] == QuantumAction::Run(packet)
                &&& i + 2 < events.len() ==> match events[i + 2] {
                    QuantumEvent::Ran { drained, .. } => {
                        &&& events.len() == i + 3
                        &&& drained ==> actions[i + 2] == QuantumAction::EmptiedAndStop
                        &&& !drained ==> actions[i + 2] == QuantumAction::Stop
                    },
                    _ => false,
                }
            },
            QuantumEvent::Popped(None) => actions[i + 1] == QuantumAction::EmptiedAndStop
                && events.len() == i + 2,
            _ => false,
        },
{
    law_a_sweeping_quantum_is_cut_short_only_by_its_time(qs, events, actions, i);
    lemma_sweep_run(qs, events, actions, i);
    assert(actions[i] == BactrianSweepQuantum::action(qs[i], events[i]));
    assert(qs[i + 1].phase == SweepPhase::LastLook);
    if i + 1 < events.len() {
        assert(answers(actions[i + 1 - 1], events[i + 1]));
        assert(actions[i + 1] == BactrianSweepQuantum::action(qs[i + 1], events[i + 1]));
        lemma_last_look_stays(qs, events, actions, i + 1, i + 2);
        if i + 2 < events.len() {
            assert(answers(actions[i + 2 - 1], events[i + 2]));
            assert(actions[i + 2] == BactrianSweepQuantum::action(qs[i + 2], events[i + 2]));
            if i + 3 < events.len() {
                assert(answers(actions[i + 3 - 1], events[i + 3]));
            }
        }
    }
}

/// A marking quantum pops until no packet is left, or until it is told, after a packet, that its
/// limited time is up: it stops then, and at no other time, and never notes anything for sweeping.
pub proof fn law_a_marking_quantum_stops_in_time(
    qs: Seq<BactrianMarkQuantum>,
    los0: Seq<LargeObjectSpace>,
    los1: Seq<LargeObjectSpace>,
    events: Seq<QuantumEvent>,
    actions: Seq<QuantumAction>,
    n: int,
)
    requires
        mark_run(qs, los0, los1, events, actions),
        0 <= n < events.len(),
    ensures
        match events[n] {
            QuantumEvent::Started => actions[n] == QuantumAction::Pop,
            QuantumEvent::Popped(Some(packet)) => actions[n] == QuantumAction::Run(packet),
            QuantumEvent::Popped(None) => actions[n] == QuantumAction::Stop,
            QuantumEvent::Ran { expired, .. } => {
                &&& qs[0].budgeted && expired ==> actions[n] == QuantumAction::Stop
                &&& !qs[0].budgeted ==> actions[n] == QuantumAction::Pop
                &&& !expired ==> actions[n] == QuantumAction::Pop
            },
        },
        los1[n].reserved_pages == los0[n].reserved_pages,
        actions[n] != QuantumAction::Stop ==> los1[n].full_semantics,
        actions[n] == QuantumAction::Stop ==> los1[n].full_semantics == los0[0].full_semantics,
{
    lemma_mark_run(qs, los0, los1, events, actions, n);
    assert(actions[n] == BactrianMarkQuantum::action(qs[n].budgeted, events[n]));
    assert(BactrianMarkQuantum::steps(qs[n], qs[n + 1], los0[n], los1[n], events[n]));
    lemma_mark_run(qs, los0, los1, events, actions, n + 1);
    if n > 0 {
        assert(answers(actions[n - 1], events[n]));
    }
}

/// A step of a sweeping quantum, from whatever state: it looks for the last time from then on if its
/// limited time is found to be up, and never goes back. It runs what it popped, notes that nothing is
/// left exactly when a pop gives nothing or the last packet leaves nothing, and pops otherwise.
pub proof fn law_a_step_of_a_sweeping_quantum(
    q: BactrianSweepQuantum,
    event: QuantumEvent,
    packet: u64,
)
    ensures
        ({
            let next = BactrianSweepQuantum::after(q, event);
            let action = BactrianSweepQuantum::action(q, event);
            &&& next.budgeted == q.budgeted
            &&& q.phase == SweepPhase::LastLook ==> next.phase == SweepPhase::LastLook
            &&& q.phase == SweepPhase::Draining ==> (next.phase == SweepPhase::LastLook <==> (
            q.budgeted && match event {
                QuantumEvent::Ran { expired, .. } => expired,
                _ => false,
            }))
            &&& event == QuantumEvent::Started ==> action == QuantumAction::Pop
            &&& action == QuantumAction::Run(packet) <==> event == QuantumEvent::Popped(
                Some(packet),
            )
            &&& event == QuantumEvent::Popped(None) ==> action == QuantumAction::EmptiedAndStop
            &&& event is Ran && q.phase == SweepPhase::Draining ==> action == QuantumAction::Pop
            &&& event is Ran && q.phase == SweepPhase::LastLook ==> (match event {
                QuantumEvent::Ran { drained, .. } => if drained {
                    action == QuantumAction::EmptiedAndStop
                } else {
                    action == QuantumAction::Stop
                },
                _ => true,
            })
        }),
{
}

/// A step of a marking quantum, from whatever state: being started, it keeps how the large-object space
/// marked and has it mark in full; when it stops, it has that space mark as it kept; and any other step
/// leaves both as they are.
pub proof fn law_a_step_of_a_marking_quantum(
    q0: BactrianMarkQuantum,
    q1: BactrianMarkQuantum,
    los0: LargeObjectSpace,
    los1: LargeObjectSpace,
    event: QuantumEvent,
)
    requires
        BactrianMarkQuantum::steps(q0, q1, los0, los1, event),
    ensures
        q1.budgeted == q0.budgeted,
        los1.reserved_pages == los0.reserved_pages,
        event == QuantumEvent::Started ==> los1.full_semantics && q1.was_full
            == los0.full_semantics,
        event != QuantumEvent::Started ==> q1.was_full == q0.was_full,
        event == QuantumEvent::Popped(None) ==> los1.full_semantics == q0.was_full,
        event is Ran && q0.budgeted && event->expired ==> los1.full_semantics == q0.was_full,
        event is Ran && (!q0.budgeted || !event->expired) ==> los1.full_semantics
            == los0.full_semantics,
        event is Popped && event != QuantumEvent::Popped(None) ==> los1.full_semantics
            == los0.full_semantics,
{
}

/// What is popped and what is run is listed in its order, and nothing else is.
pub proof fn law_pops_and_runs_are_listed_in_their_order(
    events: Seq<QuantumEvent>,
    event: QuantumEvent,
    actions: Seq<QuantumAction>,
    action: QuantumAction,
    packet: u64,
)
    ensures
        popped(Seq::empty()) == Seq::<u64>::empty(),
        popped(events.push(QuantumEvent::Popped(Some(packet)))) == popped(events).push(packet),
        !(event is Popped) || event == QuantumEvent::Popped(None) ==> popped(events.push(event))
            == popped(events),
        ran(Seq::empty()) == Seq::<u64>::empty(),
        ran(actions.push(QuantumAction::Run(packet))) == ran(actions).push(packet),
        !(action is Run) ==> ran(actions.push(action)) == ran(actions),
{
    assert(events.push(QuantumEvent::Popped(Some(packet))).drop_last() =~= events);
    assert(events.push(event).drop_last() =~= events);
    assert(actions.push(QuantumAction::Run(packet)).drop_last() =~= actions);
    assert(actions.push(action).drop_last() =~= actions);
}

} // verus!
