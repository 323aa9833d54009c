//! Work buckets. A packet belongs to the bucket of a stage, and runs once that bucket is open.

use vstd::prelude::*;

verus! {

/// The stages of a collection.
#[derive(Clone, Copy, PartialEq, Eq, Structural, Debug)]
pub enum WorkBucketStage {
    /// Always open.
    Unconstrained,
    /// Work that runs beside the mutators.
    Concurrent,
    /// The first stage of a pause; increments are processed in it.
    RCProcessIncs,
    Prepare,
    Closure,
    SoftRefClosure,
    WeakRefClosure,
    FinalRefClosure,
    PhantomRefClosure,
    VMRefForwarding,
    CalculateForwarding,
    SecondRoots,
    RefForwarding,
    FinalizableForwarding,
    Compact,
    /// Decrements and the sweep of the blocks they leave.
    STWRCDecsAndSweep,
    Release,
    Final,
}

/// The number of stages.
pub const NUM_STAGES: usize = 18;

impl WorkBucketStage {
    /// The position of the stage among the stages.
    pub open spec fn position(&self) -> int {
        match self {
            WorkBucketStage::Unconstrained => 0,
            WorkBucketStage::Concurrent => 1,
            WorkBucketStage::RCProcessIncs => 2,
            WorkBucketStage::Prepare => 3,
            WorkBucketStage::Closure => 4,
            WorkBucketStage::SoftRefClosure => 5,
            WorkBucketStage::WeakRefClosure => 6,
            WorkBucketStage::FinalRefClosure => 7,
            WorkBucketStage::PhantomRefClosure => 8,
            WorkBucketStage::VMRefForwarding => 9,
            WorkBucketStage::CalculateForwarding => 10,
            WorkBucketStage::SecondRoots => 11,
            WorkBucketStage::RefForwarding => 12,
            WorkBucketStage::FinalizableForwarding => 13,
            WorkBucketStage::Compact => 14,
            WorkBucketStage::STWRCDecsAndSweep => 15,
            WorkBucketStage::Release => 16,
            WorkBucketStage::Final => 17,
        }
    }

    /// The position of the stage among the stages.
    pub fn index(&self) -> (i: usize)
        ensures
            i == self.position(),
            i < NUM_STAGES,
    {
        match self {
            WorkBucketStage::Unconstrained => 0,
            WorkBucketStage::Concurrent => 1,
            WorkBucketStage::RCProcessIncs => 2,
            WorkBucketStage::Prepare => 3,
            WorkBucketStage::Closure => 4,
            WorkBucketStage::SoftRefClosure => 5,
            WorkBucketStage::WeakRefClosure => 6,
            WorkBucketStage::FinalRefClosure => 7,
            WorkBucketStage::PhantomRefClosure => 8,
            WorkBucketStage::VMRefForwarding => 9,
            WorkBucketStage::CalculateForwarding => 10,
            WorkBucketStage::SecondRoots => 11,
            WorkBucketStage::RefForwarding => 12,
            WorkBucketStage::FinalizableForwarding => 13,
            WorkBucketStage::Compact => 14,
            WorkBucketStage::STWRCDecsAndSweep => 15,
            WorkBucketStage::Release => 16,
            WorkBucketStage::Final => 17,
        }
    }
}

/// The packets of one stage.
pub struct WorkBucket<P> {
    pub enabled: bool,
    pub open: bool,
    /// The packets, in the order in which they were added.
    pub packets: Vec<P>,
    /// The packets that go before the others, if the bucket tells them apart.
    pub prioritized: Option<Vec<P>>,
    /// The packet that runs once the others are done.
    pub sentinel: Option<P>,
}

/// What a bucket holds.
#[verifier::ext_equal]
pub struct BucketView<P> {
    pub enabled: bool,
    pub open: bool,
    pub packets: Seq<P>,
    pub prioritized: Option<Seq<P>>,
    pub sentinel: Option<P>,
}

impl<P> BucketView<P> {
    /// Whether no packet waits in the bucket; the sentinel does not count.
    pub open spec fn nothing_waits(&self) -> bool {
        &&& self.packets.len() == 0
        &&& self.prioritized matches Some(packets) ==> packets.len() == 0
    }
}

impl<P> View for WorkBucket<P> {
    type V = BucketView<P>;

    open spec fn view(&self) -> BucketView<P> {
        BucketView {
            enabled: self.enabled,
            open: self.open,
            packets: self.packets@,
            prioritized: match self.prioritized {
                Some(v) => Some(v@),
                None => None,
            },
            sentinel: self.sentinel,
        }
    }
}

/// The buckets of all stages.
pub struct GCWorkScheduler<P> {
    pub work_buckets: Vec<WorkBucket<P>>,
}

impl<P> GCWorkScheduler<P> {
    /// There is a bucket for each stage.
    pub open spec fn wf(&self) -> bool {
        self.work_buckets@.len() == NUM_STAGES
    }

    /// What the bucket of `stage` holds.
    pub open spec fn bucket(&self, stage: WorkBucketStage) -> BucketView<P> {
        self.work_buckets@[stage.position()]@
    }

    /// Empty, enabled buckets, of which only that of the unconstrained stage is open. The buckets
    /// other than that one tell prioritized packets apart.
    pub fn new() -> (s: Self)
        ensures
            s.wf(),
            forall|stage: WorkBucketStage| #[trigger]
                s.bucket(stage) == (BucketView::<P> {
                    enabled: true,
                    open: stage == WorkBucketStage::Unconstrained,
                    packets: Seq::<P>::empty(),
                    prioritized: if stage == WorkBucketStage::Unconstrained {
                        None
                    } else {
                        Some(Seq::<P>::empty())
                    },
                    sentinel: None,
                }),
    {
        let mut work_buckets: Vec<WorkBucket<P>> = Vec::new();
        let mut i: usize = 0;
        while i < NUM_STAGES
            invariant
                i <= NUM_STAGES,
                work_buckets@.len() == i,
                forall|k: int|
                    0 <= k < i ==> (#[trigger] work_buckets@[k])@ == (BucketView::<P> {
                        enabled: true,
                        open: k == 0,
                        packets: Seq::<P>::empty(),
                        prioritized: if k == 0 {
                            None
                        } else {
                            Some(Seq::<P>::empty())
                        },
                        sentinel: None,
                    }),
            decreases NUM_STAGES - i,
        {
            let prioritized: Option<Vec<P>> = if i == 0 {
                None
            } else {
                Some(Vec::new())
            };
            let bucket = WorkBucket {
                enabled: true,
                open: i == 0,
                packets: Vec::new(),
                prioritized,
                sentinel: None,
            };
            assert(bucket.packets@ =~= Seq::<P>::empty());
            assert(i != 0 ==> bucket.prioritized->0@ =~= Seq::<P>::empty());
            work_buckets.push(bucket);
            i = i + 1;
        }
        GCWorkScheduler { work_buckets }
    }

    /// Whether the bucket of `stage` is open.
    pub fn is_open(&self, stage: WorkBucketStage) -> (r: bool)
        requires
            self.wf(),
        ensures
            r == self.bucket(stage).open,
    {
        let i: usize = stage.index();
        self.work_buckets[i].open
    }

    /// Enable or disable the bucket of `stage`. The packets of a disabled bucket do not run.
    pub fn set_enabled(&mut self, stage: WorkBucketStage, enabled: bool)
        requires
            old(self).wf(),
        ensures
            final(self).wf(),
            forall|s: WorkBucketStage| #[trigger]
                final(self).bucket(s) == (if s == stage {
                    BucketView { enabled, ..old(self).bucket(s) }
                } else {
                    old(self).bucket(s)
                }),
    {
        let i: usize = stage.index();
        self.work_buckets[i].enabled = enabled;
        proof {
            lemma_positions();
        }
    }

    /// Add a packet to the bucket of `stage`.
    pub fn add_packet(&mut self, stage: WorkBucketStage, packet: P)
        requires
            old(self).wf(),
        ensures
            final(self).wf(),
            forall|s: WorkBucketStage| #[trigger]
                final(self).bucket(s) == (if s == stage {
                    BucketView {
                        packets: old(self).bucket(s).packets.push(packet),
                        ..old(self).bucket(s)
                    }
                } else {
                    old(self).bucket(s)
                }),
    {
        let i: usize = stage.index();
        self.work_buckets[i].packets.push(packet);
        proof {
            lemma_positions();
        }
    }

    /// Add a packet that goes before the others to the bucket of `stage`.
    pub fn add_prioritized(&mut self, stage: WorkBucketStage, packet: P)
        requires
            old(self).wf(),
            old(self).bucket(stage).prioritized is Some,
        ensures
            final(self).wf(),
            forall|s: WorkBucketStage| #[trigger]
                final(self).bucket(s) == (if s == stage {
                    BucketView {
                        prioritized: Some(old(self).bucket(s).prioritized->0.push(packet)),
                        ..old(self).bucket(s)
                    }
                } else {
                    old(self).bucket(s)
                }),
    {
        let i: usize = stage.index();
        let mut queue = self.work_buckets[i].prioritized.take();
        if let Some(q) = &mut queue {
            q.push(packet);
        }
        self.work_buckets[i].prioritized = queue;
        proof {
            lemma_positions();
        }
    }

    /// Have `packet` run once the other packets of `stage` are done.
    pub fn set_sentinel(&mut self, stage: WorkBucketStage, packet: P)
        requires
            old(self).wf(),
        ensures
            final(self).wf(),
            forall|s: WorkBucketStage| #[trigger]
                final(self).bucket(s) == (if s == stage {
                    BucketView { sentinel: Some(packet), ..old(self).bucket(s) }
                } else {
                    old(self).bucket(s)
                }),
    {
        let i: usize = stage.index();
        self.work_buckets[i].sentinel = Some(packet);
        proof {
            lemma_positions();
        }
    }

    /// Whether no packet waits in the bucket of `stage`.
    pub fn nothing_waits(&self, stage: WorkBucketStage) -> (r: bool)
        requires
            self.wf(),
        ensures
            r == self.bucket(stage).nothing_waits(),
            r ==> self.bucket(stage).packets.len() == 0,
            r ==> (self.bucket(stage).prioritized matches Some(packets) ==> packets.len() == 0),
            self.bucket(stage).packets.len() == 0 && self.bucket(stage).prioritized is None ==> r,
    {
        let i: usize = stage.index();
        let prioritized_waits = match &self.work_buckets[i].prioritized {
            Some(packets) => packets.len() != 0,
            None => false,
        };
        self.work_buckets[i].packets.len() == 0 && !prioritized_waits
    }

    /// Whether the sentinel of `stage` is due, when no worker runs a packet: there is one, and no
    /// packet waits in this stage or in the unconstrained one, to which packets hand new work over.
    pub open spec fn sentinel_due(&self, stage: WorkBucketStage) -> bool {
        &&& self.bucket(stage).sentinel is Some
        &&& self.bucket(stage).nothing_waits()
        &&& self.bucket(WorkBucketStage::Unconstrained).nothing_waits()
    }

    /// Add the sentinel of `stage` to its packets if it is due. To be called when no worker runs a
    /// packet. Returns whether it was due.
    pub fn maybe_schedule_sentinel(&mut self, stage: WorkBucketStage) -> (r: bool)
        requires
            old(self).wf(),
        ensures
            final(self).wf(),
            r == old(self).sentinel_due(stage),
            forall|s: WorkBucketStage| #[trigger]
                final(self).bucket(s) == (if r && s == stage {
                    BucketView {
                        packets: seq![old(self).bucket(s).sentinel->0],
                        sentinel: None,
                        ..old(self).bucket(s)
                    }
                } else {
                    old(self).bucket(s)
                }),
    {
        if !self.nothing_waits(stage) || !self.nothing_waits(WorkBucketStage::Unconstrained) {
            return false;
        }
        let i: usize = stage.index();
        let sentinel = self.work_buckets[i].sentinel.take();
        proof {
            lemma_positions();
        }
        match sentinel {
            Some(packet) => {
                self.work_buckets[i].packets.push(packet);
                assert(self.work_buckets@[i as int].packets@ =~= seq![packet]);
                true
            },
            None => false,
        }
    }

    /// Add `packets` to the bucket of `stage`, in their order.
    pub fn bulk_add(&mut self, stage: WorkBucketStage, packets: Vec<P>)
        requires
            old(self).wf(),
        ensures
            final(self).wf(),
            forall|s: WorkBucketStage| #[trigger]
                final(self).bucket(s) == (if s == stage {
                    BucketView {
                        packets: old(self).bucket(s).packets + packets@,
                        ..old(self).bucket(s)
                    }
                } else {
                    old(self).bucket(s)
                }),
    {
        let i: usize = stage.index();
        let mut packets = packets;
        self.work_buckets[i].packets.append(&mut packets);
        proof {
            lemma_positions();
        }
    }
}

/// Stages differ in their positions.
proof fn lemma_positions()
    ensures
        forall|a: WorkBucketStage, b: WorkBucketStage|
            #![trigger a.position(), b.position()]
            a.position() == b.position() ==> a == b,
{
}

/// The stages have positions of their own, from that of the unconstrained stage on, which comes first,
/// to that of the last stage; and they come in the order of a pause.
pub proof fn law_stages_have_their_order(a: WorkBucketStage, b: WorkBucketStage)
    ensures
        0 <= a.position() < 18,
        a != b ==> a.position() != b.position(),
        WorkBucketStage::Unconstrained.position() == 0,
        WorkBucketStage::Unconstrained.position() < WorkBucketStage::Concurrent.position()
            < WorkBucketStage::RCProcessIncs.position() < WorkBucketStage::Prepare.position()
            < WorkBucketStage::Closure.position() < WorkBucketStage::SoftRefClosure.position()
            < WorkBucketStage::WeakRefClosure.position()
            < WorkBucketStage::FinalRefClosure.position()
            < WorkBucketStage::PhantomRefClosure.position()
            < WorkBucketStage::VMRefForwarding.position()
            < WorkBucketStage::CalculateForwarding.position()
            < WorkBucketStage::SecondRoots.position() < WorkBucketStage::RefForwarding.position()
            < WorkBucketStage::FinalizableForwarding.position()
            < WorkBucketStage::Compact.position()
            < WorkBucketStage::STWRCDecsAndSweep.position() < WorkBucketStage::Release.position()
            < WorkBucketStage::Final.position(),
{
}

/// What the view of a bucket shows is what the bucket holds.
pub proof fn law_a_bucket_is_seen_as_it_is<P>(b: WorkBucket<P>)
    ensures
        b@.enabled == b.enabled,
        b@.open == b.open,
        b@.packets == b.packets@,
        b.prioritized is None ==> b@.prioritized is None,
        b.prioritized is Some ==> b@.prioritized == Some(b.prioritized->0@),
        b@.sentinel == b.sentinel,
{
}

/// The bucket of a stage is the one at the position of the stage.
pub proof fn law_each_stage_has_its_bucket<P>(s: GCWorkScheduler<P>, stage: WorkBucketStage)
    requires
        s.wf(),
    ensures
        s.work_buckets@.len() == 18,
        s.bucket(stage) == s.work_buckets@[stage.position()]@,
{
}

/// A sentinel waits as long as any packet waits in its stage or in the unconstrained one, prioritized
/// or not; and it does not wait without reason.
pub proof fn law_a_sentinel_waits_for_all_packets<P>(
    s: GCWorkScheduler<P>,
    stage: WorkBucketStage,
    other: WorkBucketStage,
)
    requires
        s.wf(),
        other == stage || other == WorkBucketStage::Unconstrained,
    ensures
        s.bucket(other).packets.len() > 0 ==> !s.sentinel_due(stage),
        s.bucket(other).prioritized is Some && s.bucket(other).prioritized->0.len() > 0
            ==> !s.sentinel_due(stage),
        s.bucket(stage).sentinel is None ==> !s.sentinel_due(stage),
        s.bucket(stage).sentinel is Some && s.bucket(stage).packets.len() == 0 && s.bucket(
            WorkBucketStage::Unconstrained,
        ).packets.len() == 0 && (s.bucket(stage).prioritized is None || s.bucket(
            stage,
        ).prioritized->0.len() == 0) && (s.bucket(
            WorkBucketStage::Unconstrained,
        ).prioritized is None || s.bucket(
            WorkBucketStage::Unconstrained,
        ).prioritized->0.len() == 0) ==> s.sentinel_due(stage),
{
}

} // verus!
