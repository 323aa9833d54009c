//! Workers: the threads that take work packets and run them. A packet is named by a number.

use atomic_refcell::AtomicRefCell;
use crossbeam::deque;
use crossbeam::deque::Stealer;
use crossbeam::queue::ArrayQueue;
use vstd::prelude::*;

use crate::scheduler::queues;
use crate::scheduler::work_bucket::{BucketView, GCWorkScheduler, WorkBucketStage};

verus! {

/// The ordinal of a worker.
pub type ThreadId = usize;

/// The number of spaces that live bytes are counted for.
pub const MAX_SPACES: usize = 16;

/// The number of packets that can wait for one particular worker.
pub const DESIGNATED_WORK_CAPACITY: usize = 16;

/// The ordinal of the current worker, given what the current thread has stored as its own: a
/// thread that is not a worker has stored the largest number.
pub fn current_worker_ordinal(worker_ordinal: ThreadId) -> (r: Option<ThreadId>)
    ensures
        r == (if worker_ordinal == usize::MAX {
            None::<ThreadId>
        } else {
            Some(worker_ordinal)
        }),
{
    if worker_ordinal == usize::MAX {
        None
    } else {
        Some(worker_ordinal)
    }
}

/// The part of a worker that the others can reach: the packets meant for this worker alone, the
/// handle to steal from it, and its statistics.
pub struct GCWorkerShared {
    /// Worker-local statistics.
    stat: AtomicRefCell<Vec<usize>>,
    /// The bytes of the live objects that the worker scanned, by the index of their space.
    live_bytes_per_space: AtomicRefCell<Vec<usize>>,
    /// The packets that only this worker may run.
    pub designated_work: ArrayQueue<u64>,
    /// The handle to steal packets from this worker.
    stealer: Option<Stealer<u64>>,
}

impl GCWorkerShared {
    /// The statistics of the worker.
    pub closed spec fn stat(&self) -> Seq<usize> {
        queues::held(self.stat)
    }

    /// The live bytes of each space.
    pub closed spec fn live_bytes(&self) -> Seq<usize> {
        queues::held(self.live_bytes_per_space)
    }

    /// The packets that only this worker may run, the oldest first.
    pub closed spec fn designated(&self) -> Seq<u64> {
        queues::designated(self.designated_work)
    }

    /// How many packets can wait for this worker alone.
    pub closed spec fn designated_capacity(&self) -> nat {
        queues::designated_capacity(self.designated_work)
    }

    /// The handle to steal packets from this worker.
    pub closed spec fn stealing_handle(&self) -> Option<Stealer<u64>> {
        self.stealer
    }

    /// Live bytes are counted for every space.
    pub open spec fn wf(&self) -> bool {
        self.live_bytes().len() == MAX_SPACES
    }

    /// The shared part of a worker from which `stealer` steals: nothing waits, and nothing was
    /// counted.
    pub fn new(stealer: Option<Stealer<u64>>) -> (s: Self)
        ensures
            s.wf(),
            s.stat() == Seq::<usize>::empty(),
            s.live_bytes() == Seq::new(MAX_SPACES as nat, |i: int| 0usize),
            s.designated() == Seq::<u64>::empty(),
            s.designated_capacity() == DESIGNATED_WORK_CAPACITY,
            s.stealing_handle() == stealer,
    {
        let mut zeros: Vec<usize> = Vec::new();
        let mut i: usize = 0;
        while i < MAX_SPACES
            invariant
                i <= MAX_SPACES,
                zeros@ =~= Seq::new(i as nat, |i: int| 0usize),
            decreases MAX_SPACES - i,
        {
            zeros.push(0);
            i = i + 1;
        }
        let stat: Vec<usize> = Vec::new();
        assert(stat@ =~= Seq::<usize>::empty());
        GCWorkerShared {
            stat: queues::new_cell(stat),
            live_bytes_per_space: queues::new_cell(zeros),
            designated_work: queues::new_designated(DESIGNATED_WORK_CAPACITY),
            stealer,
        }
    }

    /// The handle to steal packets from this worker.
    pub fn stealer(&self) -> (r: &Option<Stealer<u64>>)
        ensures
            *r == self.stealing_handle(),
    {
        &self.stealer
    }

    /// Count a live object of `bytes` bytes for the space of index `space_index`. An object outside
    /// of every space is not counted.
    pub fn increase_live_bytes(
        live_bytes_per_space: &mut Vec<usize>,
        bytes: usize,
        space_index: Option<usize>,
    )
        requires
            space_index matches Some(i) ==> i < old(live_bytes_per_space)@.len() && old(live_bytes_per_space)@[i as int] + bytes <= usize::MAX,
        ensures
            final(live_bytes_per_space)@ == (match space_index {
                Some(i) => old(live_bytes_per_space)@.update(
                    i as int,
                    (old(live_bytes_per_space)@[i as int] + bytes) as usize,
                ),
                None => old(live_bytes_per_space)@,
            }),
    {
        if let Some(i) = space_index {
            let sum: usize = live_bytes_per_space[i] + bytes;
            live_bytes_per_space[i] = sum;
        }
    }

    /// Count a live object that this worker scanned.
    pub fn count_live_object(&mut self, bytes: usize, space_index: Option<usize>)
        requires
            old(self).wf(),
            space_index matches Some(i) ==> i < MAX_SPACES && old(self).live_bytes()[i as int]
                + bytes <= usize::MAX,
        ensures
            final(self).wf(),
            final(self).live_bytes() == (match space_index {
                Some(i) => old(self).live_bytes().update(
                    i as int,
                    (old(self).live_bytes()[i as int] + bytes) as usize,
                ),
                None => old(self).live_bytes(),
            }),
            final(self).stat() == old(self).stat(),
            final(self).designated() == old(self).designated(),
            final(self).designated_capacity() == old(self).designated_capacity(),
            final(self).stealing_handle() == old(self).stealing_handle(),
    {
        let live = queues::cell_mut(&mut self.live_bytes_per_space);
        Self::increase_live_bytes(live, bytes, space_index);
    }

    /// Move the live bytes of each space over to `ret`.
    fn drain_live_bytes(&mut self, ret: &mut [usize; MAX_SPACES])
        requires
            old(self).wf(),
            forall|space: int|
                0 <= space < MAX_SPACES ==> (#[trigger] old(ret)@[space]) + old(self).live_bytes()[space]
                    <= usize::MAX,
        ensures
            final(self).wf(),
            final(ret)@ == Seq::new(
                MAX_SPACES as nat,
                |i: int| (old(ret)@[i] + old(self).live_bytes()[i]) as usize,
            ),
            final(self).live_bytes() == Seq::new(MAX_SPACES as nat, |i: int| 0usize),
            final(self).stat() == old(self).stat(),
            final(self).designated() == old(self).designated(),
            final(self).designated_capacity() == old(self).designated_capacity(),
            final(self).stealing_handle() == old(self).stealing_handle(),
    {
        let live = queues::cell_mut(&mut self.live_bytes_per_space);
        let ghost live0 = live@;
        let mut idx: usize = 0;
        while idx < MAX_SPACES
            invariant
                idx <= MAX_SPACES,
                live@.len() == MAX_SPACES,
                live0.len() == MAX_SPACES,
                ret@.len() == MAX_SPACES,
                forall|space: int|
                    0 <= space < MAX_SPACES ==> (#[trigger] old(ret)@[space]) + live0[space]
                        <= usize::MAX,
                forall|k: int|
                    0 <= k < MAX_SPACES ==> #[trigger] live@[k] == (if k < idx {
                        0
                    } else {
                        live0[k]
                    }),
                forall|k: int|
                    0 <= k < MAX_SPACES ==> #[trigger] ret@[k] == old(ret)@[k] + (if k < idx {
                        live0[k] as int
                    } else {
                        0
                    }),
            decreases MAX_SPACES - idx,
        {
            assert(old(ret)@[idx as int] + live0[idx as int] <= usize::MAX);
            let sum: usize = ret[idx] + live[idx];
            ret[idx] = sum;
            live[idx] = 0;
            idx = idx + 1;
        }
        assert(live@ =~= Seq::new(MAX_SPACES as nat, |i: int| 0usize));
    }

    /// The statistics of the worker.
    pub fn borrow_stat(&mut self) -> (r: &Vec<usize>)
        ensures
            r@ == old(self).stat(),
            final(self).stat() == old(self).stat(),
            final(self).live_bytes() == old(self).live_bytes(),
            final(self).designated() == old(self).designated(),
            final(self).designated_capacity() == old(self).designated_capacity(),
            final(self).stealing_handle() == old(self).stealing_handle(),
    {
        queues::cell_mut(&mut self.stat)
    }

    /// The statistics of the worker, to change them.
    pub fn borrow_stat_mut(&mut self) -> (r: &mut Vec<usize>)
        ensures
            r@ == old(self).stat(),
            final(self).stat() == final(r)@,
            final(self).live_bytes() == old(self).live_bytes(),
            final(self).designated() == old(self).designated(),
            final(self).designated_capacity() == old(self).designated_capacity(),
            final(self).stealing_handle() == old(self).stealing_handle(),
    {
        queues::cell_mut(&mut self.stat)
    }
}

/// What a worker copies objects with.
#[derive(Clone, Copy, PartialEq, Eq, Structural, Debug)]
pub enum GCWorkerCopyContext {
    /// The worker cannot copy.
    NonCopy,
    /// The copy context of this number.
    Copy(usize),
}

/// A worker that was asked to exit.
#[derive(Clone, Copy, PartialEq, Eq, Structural, Debug)]
pub struct WorkerShouldExit;

/// What polling the scheduler gives: a packet, or the request to exit.
pub type PollResult = Result<u64, WorkerShouldExit>;

/// What happens to a worker.
#[derive(Clone, Copy, Debug)]
pub enum WorkerEvent {
    /// Its thread, with this thread-local state of the virtual machine, has started.
    Started(usize),
    /// Its copy context was made.
    CopyContextCreated(GCWorkerCopyContext),
    /// It has run a packet.
    PacketDone,
    /// It has polled the scheduler.
    Polled(PollResult),
}

/// What a worker has its thread do.
#[derive(Clone, Copy, PartialEq, Eq, Structural, Debug)]
pub enum WorkerAction {
    /// Store the ordinal as that of the current thread.
    StoreOrdinal(ThreadId),
    /// Set the thread's affinity.
    ResolveAffinity(ThreadId),
    /// Make a copy context for the thread-local state.
    CreateCopyContext(usize),
    /// Mirror the single-tracer flag of the instance into the thread's view.
    SyncUpTrace,
    /// Run the packet.
    Run(u64),
    /// Poll the open buckets, then steal; wait if there is nothing.
    PollScheduler,
    /// Give the worker back to its group and end the thread.
    Surrender,
}

/// A worker. This part is owned by the thread of the worker.
pub struct GCWorker {
    /// The thread-local state of the virtual machine; zero until the thread has started.
    pub tls: usize,
    /// The ordinal of the worker, which is the position of its shared part in the group.
    pub ordinal: ThreadId,
    pub copy: GCWorkerCopyContext,
    /// The packets that the worker keeps to itself.
    pub local_work_buffer: deque::Worker<u64>,
}

impl GCWorker {
    /// The packets that were entered into the worker's own queue, in that order.
    pub open spec fn kept(&self) -> Seq<u64> {
        queues::entered(self.local_work_buffer)
    }

    /// What the worker's own queue gave when the worker asked, in that order.
    pub open spec fn handed(&self) -> Seq<Option<u64>> {
        queues::given(self.local_work_buffer)
    }

    /// Whether `after` is `self` but for its own queue, from which the same handles take.
    pub open spec fn same_but_queue(&self, after: GCWorker) -> bool {
        &&& after.tls == self.tls
        &&& after.ordinal == self.ordinal
        &&& after.copy == self.copy
        &&& self.same_handles(after)
    }

    /// Whether the same handles take from the own queues of both.
    pub open spec fn same_handles(&self, after: GCWorker) -> bool {
        forall|s: Stealer<u64>| #[trigger]
            queues::steals_from(s, after.local_work_buffer) == queues::steals_from(
                s,
                self.local_work_buffer,
            )
    }

    /// A worker whose thread has not started.
    pub fn new(ordinal: ThreadId, local_work_buffer: deque::Worker<u64>) -> (w: Self)
        ensures
            w.tls == 0,
            w.ordinal == ordinal,
            w.copy == GCWorkerCopyContext::NonCopy,
            w.local_work_buffer == local_work_buffer,
    {
        GCWorker { tls: 0, ordinal, copy: GCWorkerCopyContext::NonCopy, local_work_buffer }
    }

    /// Add a packet that goes before the others. If `bucket` is open, the packet goes to the worker's
    /// own queue, otherwise to the bucket, before its other packets.
    pub fn add_work_prioritized(
        &mut self,
        scheduler: &mut GCWorkScheduler<u64>,
        bucket: WorkBucketStage,
        work: u64,
    )
        requires
            old(scheduler).wf(),
            !old(scheduler).bucket(bucket).open ==> old(scheduler).bucket(bucket).prioritized is Some,
        ensures
            final(scheduler).wf(),
            old(self).same_but_queue(*final(self)),
            old(scheduler).bucket(bucket).open ==> final(self).kept() == old(self).kept().push(work)
                && final(self).handed() == old(self).handed() && *final(scheduler) == *old(scheduler),
            !old(scheduler).bucket(bucket).open ==> *final(self) == *old(self) && forall|
                s: WorkBucketStage,
            | #[trigger]
                final(scheduler).bucket(s) == (if s == bucket {
                    BucketView {
                        prioritized: Some(old(scheduler).bucket(s).prioritized->0.push(work)),
                        ..old(scheduler).bucket(s)
                    }
                } else {
                    old(scheduler).bucket(s)
                }),
    {
        if !scheduler.is_open(bucket) {
            scheduler.add_prioritized(bucket, work);
            return;
        }
        queues::push_local(&mut self.local_work_buffer, work);
    }

    /// Add a packet. If `bucket` is open, the packet goes to the worker's own queue, otherwise to the
    /// bucket.
    pub fn add_work(
        &mut self,
        scheduler: &mut GCWorkScheduler<u64>,
        bucket: WorkBucketStage,
        work: u64,
    )
        requires
            old(scheduler).wf(),
        ensures
            final(scheduler).wf(),
            old(self).same_but_queue(*final(self)),
            old(scheduler).bucket(bucket).open ==> final(self).kept() == old(self).kept().push(work)
                && final(self).handed() == old(self).handed() && *final(scheduler) == *old(scheduler),
            !old(scheduler).bucket(bucket).open ==> *final(self) == *old(self) && forall|
                s: WorkBucketStage,
            | #[trigger]
                final(scheduler).bucket(s) == (if s == bucket {
                    BucketView {
                        packets: old(scheduler).bucket(s).packets.push(work),
                        ..old(scheduler).bucket(s)
                    }
                } else {
                    old(scheduler).bucket(s)
                }),
    {
        if !scheduler.is_open(bucket) {
            scheduler.add_packet(bucket, work);
            return;
        }
        queues::push_local(&mut self.local_work_buffer, work);
    }

    /// The copy context of the worker, to change it.
    pub fn get_copy_context_mut(&mut self) -> (r: &mut GCWorkerCopyContext)
        ensures
            *r == old(self).copy,
            *final(self) == (GCWorker { copy: *final(r), ..*old(self) }),
    {
        &mut self.copy
    }

    /// The packet to run, given what the designated ones and the worker's own queue gave: one that
    /// only this worker may run goes first. `None` says that the scheduler is to be polled.
    pub fn next_packet(designated: Option<u64>, local: Option<u64>) -> (r: Option<u64>)
        ensures
            r == Self::chosen(designated, local),
            designated is Some ==> r == designated,
            designated is None ==> r == local,
    {
        match designated {
            Some(work) => Some(work),
            None => local,
        }
    }

    /// The first of two packets that is there.
    pub open spec fn chosen(designated: Option<u64>, local: Option<u64>) -> Option<u64> {
        if designated is Some {
            designated
        } else {
            local
        }
    }

    /// The oldest of `packets`.
    pub open spec fn oldest(packets: Seq<u64>) -> Option<u64> {
        if packets.len() > 0 {
            Some(packets[0])
        } else {
            None
        }
    }

    /// `packets` without the oldest.
    pub open spec fn without_oldest(packets: Seq<u64>) -> Seq<u64> {
        if packets.len() > 0 {
            packets.skip(1)
        } else {
            packets
        }
    }

    /// Whether the worker's own queue, into which `kept` were entered, can give `local`.
    pub open spec fn can_give(kept: Seq<u64>, local: Option<u64>) -> bool {
        local matches Some(work) ==> kept.contains(work)
    }

    /// Take the next packet that needs no scheduler: first one that only this worker may run, the
    /// oldest of them; then what its own queue gives, which may be any packet that was entered, or
    /// none, as thieves have left it. `None` says that the scheduler is to be polled.
    pub fn poll(&mut self, shared: &mut GCWorkerShared) -> (r: Option<u64>)
        ensures
            old(self).same_but_queue(*final(self)),
            final(self).kept() == old(self).kept(),
            final(shared).stat() == old(shared).stat(),
            final(shared).live_bytes() == old(shared).live_bytes(),
            final(shared).designated_capacity() == old(shared).designated_capacity(),
            final(shared).stealing_handle() == old(shared).stealing_handle(),
            final(shared).designated() == Self::without_oldest(old(shared).designated()),
            old(shared).designated().len() > 0 ==> r == Some(old(shared).designated()[0]) && final(shared).designated() == old(shared).designated().skip(1),
            old(shared).designated().len() == 0 ==> final(shared).designated().len() == 0 && (
            r matches Some(work) ==> old(self).kept().contains(work)),
            old(shared).designated().len() > 0 ==> r == Self::oldest(old(shared).designated())
                && *final(self) == *old(self),
            old(shared).designated().len() == 0 ==> Self::can_give(old(self).kept(), r)
                && final(self).handed() == old(self).handed().push(r),
    {
        let designated = queues::pop_designated(&mut shared.designated_work);
        let mut local: Option<u64> = None;
        if designated.is_none() {
            local = queues::pop_local(&mut self.local_work_buffer);
        }
        Self::next_packet(designated, local)
    }

    /// What a worker has its thread do with what polling gave.
    pub open spec fn actions_for(polled: Option<u64>) -> Seq<WorkerAction> {
        match polled {
            Some(work) => seq![WorkerAction::SyncUpTrace, WorkerAction::Run(work)],
            None => seq![WorkerAction::PollScheduler],
        }
    }

    /// Say what to do with what polling gave: run the packet, with the view of the single-tracer flag
    /// refreshed before, or poll the scheduler.
    pub fn after_poll(polled: Option<u64>) -> (actions: Vec<WorkerAction>)
        ensures
            actions@ == Self::actions_for(polled),
            polled matches Some(work) ==> actions@ == seq![
                WorkerAction::SyncUpTrace,
                WorkerAction::Run(work),
            ],
            polled is None ==> actions@ == seq![WorkerAction::PollScheduler],
    {
        let mut actions: Vec<WorkerAction> = Vec::new();
        match polled {
            Some(work) => {
                actions.push(WorkerAction::SyncUpTrace);
                actions.push(WorkerAction::Run(work));
            },
            None => {
                actions.push(WorkerAction::PollScheduler);
            },
        }
        actions
    }

    /// Drive the thread of the worker: what to do once `event` has happened. A worker first stores
    /// its ordinal, sets its affinity and gets its copy context. Then it takes and runs packets,
    /// with its view of the single-tracer flag refreshed before each, until it is asked to exit.
    pub fn run(&mut self, event: WorkerEvent, shared: &mut GCWorkerShared) -> (actions: Vec<
        WorkerAction,
    >)
        ensures
            final(self).ordinal == old(self).ordinal,
            final(self).kept() == old(self).kept(),
            old(self).same_handles(*final(self)),
            final(shared).stat() == old(shared).stat(),
            final(shared).live_bytes() == old(shared).live_bytes(),
            final(shared).designated_capacity() == old(shared).designated_capacity(),
            final(shared).stealing_handle() == old(shared).stealing_handle(),
            final(self).tls == (match event {
                WorkerEvent::Started(tls) => tls,
                _ => old(self).tls,
            }),
            final(self).copy == (match event {
                WorkerEvent::CopyContextCreated(copy) => copy,
                _ => old(self).copy,
            }),
            match event {
                WorkerEvent::Started(tls) => {
                    &&& actions@ == seq![
                        WorkerAction::StoreOrdinal(old(self).ordinal),
                        WorkerAction::ResolveAffinity(old(self).ordinal),
                        WorkerAction::CreateCopyContext(tls),
                    ]
                    &&& final(self).local_work_buffer == old(self).local_work_buffer
                    &&& final(shared).designated() == old(shared).designated()
                },
                WorkerEvent::CopyContextCreated(_) | WorkerEvent::PacketDone => {
                    &&& final(shared).designated() == Self::without_oldest(
                        old(shared).designated(),
                    )
                    &&& old(shared).designated().len() > 0 ==> actions@ == Self::actions_for(
                        Self::oldest(old(shared).designated()),
                    ) && final(self).local_work_buffer == old(self).local_work_buffer
                    &&& old(shared).designated().len() == 0 ==> {
                        let local = final(self).handed().last();
                        &&& final(self).handed() == old(self).handed().push(local)
                        &&& Self::can_give(old(self).kept(), local)
                        &&& actions@ == Self::actions_for(local)
                    }
                },
                WorkerEvent::Polled(polled) => {
                    &&& actions@ == (match polled {
                        Ok(work) => Self::actions_for(Some(work)),
                        Err(_) => seq![WorkerAction::Surrender],
                    })
                    &&& final(self).local_work_buffer == old(self).local_work_buffer
                    &&& final(shared).designated() == old(shared).designated()
                },
            },
    {
        match event {
            WorkerEvent::Started(tls) => {
                self.tls = tls;
                let mut actions: Vec<WorkerAction> = Vec::new();
                actions.push(WorkerAction::StoreOrdinal(self.ordinal));
                actions.push(WorkerAction::ResolveAffinity(self.ordinal));
                actions.push(WorkerAction::CreateCopyContext(tls));
                actions
            },
            WorkerEvent::Polled(polled) => {
                match polled {
                    Ok(work) => Self::after_poll(Some(work)),
                    Err(_) => {
                        let mut actions: Vec<WorkerAction> = Vec::new();
                        actions.push(WorkerAction::Surrender);
                        actions
                    },
                }
            },
            _ => {
                if let WorkerEvent::CopyContextCreated(copy) = event {
                    self.copy = copy;
                }
                let polled = self.poll(shared);
                Self::after_poll(polled)
            },
        }
    }
}

/// How far the workers of a group have come.
pub enum WorkerCreationState {
    /// The workers were not created. There is a queue for each of the preallocated slots.
    Initial { local_work_queues: Vec<deque::Worker<u64>> },
    /// The workers were handed to their threads.
    Spawned,
    /// The threads of the workers stop, or have stopped. Those that have stopped have given their
    /// workers back.
    Surrendered { workers: Vec<GCWorker> },
}

/// The workers of an instance.
pub struct WorkerGroup {
    /// The shared parts of the workers, one for each preallocated slot.
    pub workers_shared: Vec<GCWorkerShared>,
    /// The number of workers that were spawned; zero before the first spawn.
    pub active_count: usize,
    pub state: WorkerCreationState,
    /// The queues of the slots that no worker was spawned for.
    pub unused_queues: Vec<deque::Worker<u64>>,
}

/// `n`, brought between 1 and `max`.
pub open spec fn clamped(n: int, max: int) -> int {
    if n < 1 {
        1
    } else if n > max {
        max
    } else {
        n
    }
}

/// Whether `shared` is the fresh shared part of a worker whose own queue is `queue`: nothing waits,
/// nothing was counted, and its handle takes from that queue.
pub open spec fn fresh_slot(shared: GCWorkerShared, queue: deque::Worker<u64>) -> bool {
    &&& shared.wf()
    &&& shared.stat() == Seq::<usize>::empty()
    &&& shared.live_bytes() == Seq::new(MAX_SPACES as nat, |i: int| 0usize)
    &&& shared.designated() == Seq::<u64>::empty()
    &&& shared.designated_capacity() == DESIGNATED_WORK_CAPACITY
    &&& shared.stealing_handle() is Some
    &&& queues::steals_from(shared.stealing_handle()->0, queue)
}

/// Whether nothing was entered into `queue`, and it gave nothing.
pub open spec fn fresh_queue(queue: deque::Worker<u64>) -> bool {
    &&& queues::entered(queue) == Seq::<u64>::empty()
    &&& queues::given(queue) == Seq::<Option<u64>>::empty()
}

/// Fresh workers for the queues, numbered from zero.
pub open spec fn fresh_workers(queues: Seq<deque::Worker<u64>>) -> Seq<GCWorker> {
    Seq::new(
        queues.len(),
        |i: int|
            GCWorker {
                tls: 0,
                ordinal: i as usize,
                copy: GCWorkerCopyContext::NonCopy,
                local_work_buffer: queues[i],
            },
    )
}

/// The live bytes that the first `n` of `shared` counted for space `space`.
pub open spec fn live_total(shared: Seq<GCWorkerShared>, n: int, space: int) -> nat
    decreases n,
{
    if n <= 0 {
        0
    } else {
        live_total(shared, n - 1, space) + shared[n - 1].live_bytes()[space] as nat
    }
}

proof fn lemma_live_total_monotone(shared: Seq<GCWorkerShared>, m: int, n: int, space: int)
    requires
        0 <= m <= n,
    ensures
        live_total(shared, m, space) <= live_total(shared, n, space),
    decreases n,
{
    if m < n {
        lemma_live_total_monotone(shared, m, n - 1, space);
    }
}

impl WorkerGroup {
    /// No more workers were spawned than there are slots, and every slot counts live bytes.
    pub open spec fn wf(&self) -> bool {
        &&& self.active_count <= self.workers_shared@.len()
        &&& forall|i: int|
            0 <= i < self.workers_shared@.len() ==> (#[trigger] self.workers_shared@[i]).wf()
        &&& self.state matches WorkerCreationState::Initial { local_work_queues }
            ==> local_work_queues@.len() == self.workers_shared@.len() && self.active_count == 0
            && self.unused_queues@.len() == 0
        &&& !(self.state is Initial) ==> self.active_count >= 1 && self.active_count
            + self.unused_queues@.len() == self.workers_shared@.len()
    }

    /// A group with `max_workers` preallocated slots, of which none is spawned.
    pub fn new(max_workers: usize) -> (g: Self)
        ensures
            g.wf(),
            g.workers_shared@.len() == max_workers,
            g.active_count == 0,
            g.state is Initial,
            forall|i: int|
                0 <= i < max_workers ==> fresh_queue(#[trigger] g.state->local_work_queues@[i]),
            forall|i: int|
                0 <= i < max_workers ==> fresh_slot(
                    #[trigger] g.workers_shared@[i],
                    g.state->local_work_queues@[i],
                ),
    {
        let mut local_work_queues: Vec<deque::Worker<u64>> = Vec::new();
        let mut workers_shared: Vec<GCWorkerShared> = Vec::new();
        let mut i: usize = 0;
        while i < max_workers
            invariant
                i <= max_workers,
                local_work_queues@.len() == i,
                workers_shared@.len() == i,
                forall|k: int|
                    0 <= k < i ==> fresh_queue(#[trigger] local_work_queues@[k]),
                forall|k: int|
                    0 <= k < i ==> fresh_slot(#[trigger] workers_shared@[k], local_work_queues@[k]),
            decreases max_workers - i,
        {
            let queue = queues::new_local();
            let stealer = queues::stealer_of(&queue);
            local_work_queues.push(queue);
            workers_shared.push(GCWorkerShared::new(Some(stealer)));
            i = i + 1;
        }
        assert forall|k: int| 0 <= k < max_workers implies (#[trigger] workers_shared@[k]).wf() by {
            assert(fresh_slot(workers_shared@[k], local_work_queues@[k]));
        }
        WorkerGroup {
            workers_shared,
            active_count: 0,
            state: WorkerCreationState::Initial { local_work_queues },
            unused_queues: Vec::new(),
        }
    }

    /// The number of preallocated slots.
    pub fn max_workers(&self) -> (r: usize)
        ensures
            r == self.workers_shared@.len(),
    {
        self.workers_shared.len()
    }

    /// The number of workers that were spawned. Surrendering and respawning count these, not the
    /// preallocated slots.
    pub fn worker_count(&self) -> (r: usize)
        ensures
            r == self.active_count,
    {
        self.active_count
    }

    /// Create the workers of all slots, to be handed to threads.
    pub fn initial_spawn(&mut self) -> (workers: Vec<GCWorker>)
        requires
            old(self).wf(),
            old(self).state is Initial,
            old(self).workers_shared@.len() >= 1,
        ensures
            final(self).wf(),
            final(self).workers_shared == old(self).workers_shared,
            final(self).state is Spawned,
            final(self).active_count == old(self).workers_shared@.len(),
            final(self).unused_queues@.len() == 0,
            workers@ == fresh_workers(old(self).state->local_work_queues@),
    {
        let max: usize = self.max_workers();
        let workers = self.deferred_initial_spawn(max);
        proof {
            let queues = old(self).state->local_work_queues@;
            assert(queues.take(max as int) =~= queues);
        }
        workers
    }

    /// Create the workers of the first `active` slots, at least one and at most all, to be handed
    /// to threads. The queues of the other slots are kept, unused.
    pub fn deferred_initial_spawn(&mut self, active: usize) -> (workers: Vec<GCWorker>)
        requires
            old(self).wf(),
            old(self).state is Initial,
            old(self).workers_shared@.len() >= 1,
        ensures
            final(self).wf(),
            final(self).workers_shared == old(self).workers_shared,
            final(self).state is Spawned,
            final(self).active_count == clamped(
                active as int,
                old(self).workers_shared@.len() as int,
            ),
            1 <= active <= old(self).workers_shared@.len() ==> final(self).active_count == active,
            active == 0 ==> final(self).active_count == 1,
            active > old(self).workers_shared@.len() ==> final(self).active_count == old(self).workers_shared@.len(),
            workers@.len() == final(self).active_count,
            final(self).unused_queues@ == old(self).state->local_work_queues@.skip(
                final(self).active_count as int,
            ),
            workers@ == fresh_workers(
                old(self).state->local_work_queues@.take(final(self).active_count as int),
            ),
    {
        let max: usize = self.max_workers();
        let active: usize = if active < 1 {
            1
        } else if active > max {
            max
        } else {
            active
        };
        let ghost all = self.state->local_work_queues@;
        let mut state = WorkerCreationState::Spawned;
        std::mem::swap(&mut state, &mut self.state);
        let mut workers: Vec<GCWorker> = Vec::new();
        if let WorkerCreationState::Initial { local_work_queues } = state {
            let mut spawn_queues = local_work_queues;
            let unused = spawn_queues.split_off(active);
            assert(spawn_queues@ =~= all.take(active as int));
            assert(unused@ =~= all.skip(active as int));
            workers = self.create_workers(spawn_queues);
            self.unused_queues = unused;
        }
        self.active_count = active;
        workers
    }

    /// Take the workers that were given back, to be handed to threads again.
    pub fn respawn(&mut self) -> (workers: Vec<GCWorker>)
        requires
            old(self).wf(),
            old(self).state is Surrendered,
        ensures
            final(self).wf(),
            *final(self) == (WorkerGroup { state: WorkerCreationState::Spawned, ..*old(self) }),
            workers == old(self).state->workers,
    {
        let mut state = WorkerCreationState::Spawned;
        std::mem::swap(&mut state, &mut self.state);
        match state {
            WorkerCreationState::Surrendered { workers } => workers,
            _ => Vec::new(),
        }
    }

    /// Create a worker for each of the queues, numbered from zero.
    fn create_workers(&self, local_work_queues: Vec<deque::Worker<u64>>) -> (workers: Vec<GCWorker>)
        requires
            local_work_queues@.len() <= self.workers_shared@.len(),
        ensures
            workers@ == fresh_workers(local_work_queues@),
    {
        let ghost all = local_work_queues@;
        let mut rest = local_work_queues;
        let mut workers: Vec<GCWorker> = Vec::new();
        assert(all.skip(0) =~= all);
        assert(workers@ =~= fresh_workers(all).take(0));
        while rest.len() > 0
            invariant
                workers@.len() <= all.len(),
                rest@ =~= all.skip(workers@.len() as int),
                workers@ =~= fresh_workers(all).take(workers@.len() as int),
            decreases rest@.len(),
        {
            let ordinal: usize = workers.len();
            let queue = rest.remove(0);
            assert(queue == all[ordinal as int]);
            let worker = GCWorker::new(ordinal, queue);
            assert(worker == fresh_workers(all)[ordinal as int]);
            workers.push(worker);
        }
        workers
    }

    /// Make ready to take the workers back.
    pub fn prepare_surrender_buffer(&mut self)
        requires
            old(self).wf(),
            old(self).state is Spawned,
        ensures
            final(self).wf(),
            final(self).workers_shared == old(self).workers_shared,
            final(self).active_count == old(self).active_count,
            final(self).unused_queues == old(self).unused_queues,
            final(self).state is Surrendered,
            final(self).state->workers@ == Seq::<GCWorker>::empty(),
    {
        self.state = WorkerCreationState::Surrendered { workers: Vec::new() };
    }

    /// Whether giving `worker` back turns `before` into `after`, with the answer `all`: whether
    /// every worker that was spawned has been given back.
    pub open spec fn surrenders(
        before: WorkerGroup,
        worker: GCWorker,
        after: WorkerGroup,
        all: bool,
    ) -> bool {
        &&& before.state is Surrendered
        &&& after.state is Surrendered
        &&& after.workers_shared == before.workers_shared
        &&& after.active_count == before.active_count
        &&& after.unused_queues == before.unused_queues
        &&& after.state->workers@ == before.state->workers@.push(worker)
        &&& all == (after.state->workers@.len() == after.active_count)
    }

    /// Give a worker back. Returns whether all workers have been given back.
    pub fn surrender_gc_worker(&mut self, worker: GCWorker) -> (all: bool)
        requires
            old(self).wf(),
            old(self).state is Surrendered,
        ensures
            final(self).wf(),
            Self::surrenders(*old(self), worker, *final(self), all),
    {
        let mut state = WorkerCreationState::Spawned;
        std::mem::swap(&mut state, &mut self.state);
        let mut returned: Vec<GCWorker> = match state {
            WorkerCreationState::Surrendered { workers } => workers,
            _ => Vec::new(),
        };
        returned.push(worker);
        let all = returned.len() == self.worker_count();
        self.state = WorkerCreationState::Surrendered { workers: returned };
        all
    }

    /// Whether a packet waits for one particular worker.
    pub fn has_designated_work(&mut self) -> (r: bool)
        requires
            old(self).wf(),
        ensures
            r == (exists|i: int|
                0 <= i < old(self).workers_shared@.len() && (
                #[trigger] old(self).workers_shared@[i]).designated().len() > 0),
            final(self).wf(),
            final(self).workers_shared@ == old(self).workers_shared@,
            final(self).active_count == old(self).active_count,
            final(self).state == old(self).state,
            final(self).unused_queues == old(self).unused_queues,
    {
        let mut i: usize = 0;
        while i < self.workers_shared.len()
            invariant
                i <= self.workers_shared@.len(),
                self.workers_shared@ == old(self).workers_shared@,
                self.active_count == old(self).active_count,
                self.state == old(self).state,
                self.unused_queues == old(self).unused_queues,
                self.wf(),
                forall|k: int|
                    0 <= k < i ==> (#[trigger] old(self).workers_shared@[k]).designated().len()
                        == 0,
            decreases self.workers_shared@.len() - i,
        {
            let empty = queues::no_designated(&mut self.workers_shared[i].designated_work);
            assert(self.workers_shared@ =~= old(self).workers_shared@);
            if !empty {
                assert(old(self).workers_shared@[i as int].designated().len() > 0);
                return true;
            }
            i = i + 1;
        }
        false
    }

    /// The live bytes of each space, over all workers. The counters of the workers start again
    /// from zero.
    pub fn get_and_clear_worker_live_bytes(&mut self) -> (ret: [usize; MAX_SPACES])
        requires
            old(self).wf(),
            forall|space: int|
                0 <= space < MAX_SPACES ==> #[trigger] live_total(
                    old(self).workers_shared@,
                    old(self).workers_shared@.len() as int,
                    space,
                ) <= usize::MAX,
        ensures
            final(self).wf(),
            forall|space: int|
                0 <= space < MAX_SPACES ==> #[trigger] ret@[space] == live_total(
                    old(self).workers_shared@,
                    old(self).workers_shared@.len() as int,
                    space,
                ),
            final(self).workers_shared@.len() == old(self).workers_shared@.len(),
            forall|i: int|
                0 <= i < old(self).workers_shared@.len() ==> {
                    &&& (#[trigger] final(self).workers_shared@[i]).live_bytes() == Seq::new(
                        MAX_SPACES as nat,
                        |k: int| 0usize,
                    )
                    &&& final(self).workers_shared@[i].stat() == old(self).workers_shared@[i].stat()
                    &&& final(self).workers_shared@[i].designated() == old(self).workers_shared@[i].designated()
                    &&& final(self).workers_shared@[i].designated_capacity() == old(self).workers_shared@[i].designated_capacity()
                    &&& final(self).workers_shared@[i].stealing_handle() == old(self).workers_shared@[i].stealing_handle()
                },
            final(self).active_count == old(self).active_count,
            final(self).state == old(self).state,
            final(self).unused_queues == old(self).unused_queues,
    {
        let mut ret: [usize; MAX_SPACES] = [0;MAX_SPACES];
        let ghost shared0 = self.workers_shared@;
        let mut i: usize = 0;
        while i < self.workers_shared.len()
            invariant
                i <= self.workers_shared@.len(),
                self.workers_shared@.len() == shared0.len(),
                self.wf(),
                shared0 == old(self).workers_shared@,
                self.active_count == old(self).active_count,
                self.state == old(self).state,
                self.unused_queues == old(self).unused_queues,
                forall|space: int|
                    0 <= space < MAX_SPACES ==> #[trigger] live_total(
                        shared0,
                        shared0.len() as int,
                        space,
                    ) <= usize::MAX,
                ret@.len() == MAX_SPACES,
                forall|space: int|
                    0 <= space < MAX_SPACES ==> #[trigger] ret@[space] == live_total(
                        shared0,
                        i as int,
                        space,
                    ),
                forall|k: int| i <= k < shared0.len() ==> #[trigger] self.workers_shared@[k] == shared0[k],
                forall|k: int|
                    0 <= k < i ==> {
                        &&& (#[trigger] self.workers_shared@[k]).live_bytes() == Seq::new(
                            MAX_SPACES as nat,
                            |k: int| 0usize,
                        )
                        &&& self.workers_shared@[k].stat() == shared0[k].stat()
                        &&& self.workers_shared@[k].designated() == shared0[k].designated()
                        &&& self.workers_shared@[k].designated_capacity()
                            == shared0[k].designated_capacity()
                        &&& self.workers_shared@[k].stealing_handle() == shared0[k].stealing_handle()
                    },
            decreases self.workers_shared@.len() - i,
        {
            let ghost ret1 = ret@;
            proof {
                assert forall|space: int| 0 <= space < MAX_SPACES implies (#[trigger] ret1[space])
                    + shared0[i as int].live_bytes()[space] == live_total(
                    shared0,
                    i as int + 1,
                    space,
                ) && live_total(shared0, i as int + 1, space) <= usize::MAX by {
                    lemma_live_total_monotone(
                        shared0,
                        i as int + 1,
                        shared0.len() as int,
                        space,
                    );
                    assert(live_total(shared0, shared0.len() as int, space) <= usize::MAX);
                }
            }
            self.workers_shared[i].drain_live_bytes(&mut ret);
            assert forall|space: int| 0 <= space < MAX_SPACES implies #[trigger] ret@[space]
                == live_total(shared0, i as int + 1, space) by {
                assert(ret1[space] + shared0[i as int].live_bytes()[space] == live_total(
                    shared0,
                    i as int + 1,
                    space,
                ));
            }
            i = i + 1;
        }
        ret
    }
}

/// A worker for which no new packets are designated takes those that are first, each once, in the
/// order in which they came, whatever its own queue holds. After that, the polls give what that queue
/// gives, one after the other: packets that were entered, or none. So no packet that was taken out is
/// lost. `designated` are the designated packets before and after each poll, `handed` is what the
/// queue gave by then, and `kept` are the packets that were entered.
pub proof fn law_designated_packets_come_first(
    designated: Seq<Seq<u64>>,
    handed: Seq<Seq<Option<u64>>>,
    kept: Seq<u64>,
    results: Seq<Option<u64>>,
    n: int,
)
    requires
        designated.len() == results.len() + 1,
        handed.len() == results.len() + 1,
        forall|i: int|
            0 <= i < results.len() ==> designated[i + 1] == GCWorker::without_oldest(designated[i])
                && (if designated[i].len() > 0 {
                #[trigger] results[i] == GCWorker::oldest(designated[i]) && handed[i + 1]
                    == handed[i]
            } else {
                GCWorker::can_give(kept, results[i]) && handed[i + 1] == handed[i].push(results[i])
            }),
        0 <= n <= results.len(),
    ensures
        designated[n] == (if n <= designated[0].len() {
            designated[0].skip(n)
        } else {
            Seq::empty()
        }),
        handed[n] == (if n <= designated[0].len() {
            handed[0]
        } else {
            handed[0] + results.subrange(designated[0].len() as int, n)
        }),
        forall|i: int|
            0 <= i < n ==> if i < designated[0].len() {
                #[trigger] results[i] == Some(designated[0][i])
            } else {
                GCWorker::can_give(kept, results[i])
            },
    decreases n,
{
    let m = designated[0].len() as int;
    if n > 0 {
        law_designated_packets_come_first(designated, handed, kept, results, n - 1);
        assert(results[n - 1] == results[n - 1]);
        assert(designated[n - 1 + 1] == GCWorker::without_oldest(designated[n - 1]));
        if n > m {
            if n - 1 == m {
                assert(designated[0].skip(m) =~= Seq::empty());
                assert(handed[0] + results.subrange(m, n) =~= handed[0].push(results[n - 1]));
            } else {
                assert(results.subrange(m, n) =~= results.subrange(m, n - 1).push(results[n - 1]));
                assert(handed[0] + results.subrange(m, n) =~= (handed[0] + results.subrange(
                    m,
                    n - 1,
                )).push(results[n - 1]));
            }
        }
    }
    assert(designated[n] =~= (if n <= m {
        designated[0].skip(n)
    } else {
        Seq::empty()
    }));
}

/// When the spawned workers are given back one after the other, exactly the last of them is told
/// that all have been; and respawning then hands out the same workers.
pub proof fn law_the_last_surrender_completes_the_group(
    groups: Seq<WorkerGroup>,
    workers: Seq<GCWorker>,
    answers: Seq<bool>,
)
    requires
        groups.len() == workers.len() + 1,
        answers.len() == workers.len(),
        workers.len() == groups[0].active_count,
        groups[0].state is Surrendered,
        groups[0].state->workers@.len() == 0,
        forall|i: int|
            0 <= i < workers.len() ==> WorkerGroup::surrenders(
                groups[i],
                workers[i],
                groups[i + 1],
                #[trigger] answers[i],
            ),
    ensures
        forall|i: int| 0 <= i < answers.len() ==> #[trigger] answers[i] == (i == answers.len() - 1),
        groups.last().state is Surrendered,
        groups.last().state->workers@ == workers,
        groups.last().active_count == groups[0].active_count,
{
    lemma_surrenders(groups, workers, answers, workers.len() as int);
    assert(workers.take(workers.len() as int) =~= workers);
    assert forall|i: int| 0 <= i < answers.len() implies #[trigger] answers[i] == (i
        == answers.len() - 1) by {
        lemma_surrenders(groups, workers, answers, i + 1);
    }
}

proof fn lemma_surrenders(
    groups: Seq<WorkerGroup>,
    workers: Seq<GCWorker>,
    answers: Seq<bool>,
    n: int,
)
    requires
        groups.len() == workers.len() + 1,
        answers.len() == workers.len(),
        groups[0].state is Surrendered,
        groups[0].state->workers@.len() == 0,
        0 <= n <= workers.len(),
        forall|i: int|
            0 <= i < workers.len() ==> WorkerGroup::surrenders(
                groups[i],
                workers[i],
                groups[i + 1],
                #[trigger] answers[i],
            ),
    ensures
        groups[n].state is Surrendered,
        groups[n].state->workers@ == workers.take(n),
        groups[n].active_count == groups[0].active_count,
        n > 0 ==> answers[n - 1] == (n == groups[0].active_count),
    decreases n,
{
    if n > 0 {
        lemma_surrenders(groups, workers, answers, n - 1);
        assert(WorkerGroup::surrenders(groups[n - 1], workers[n - 1], groups[n], answers[n - 1]));
        assert(workers.take(n) =~= workers.take(n - 1).push(workers[n - 1]));
    } else {
        assert(groups[0].state->workers@ =~= workers.take(0));
    }
}

/// Of the slots of a group, as many get a worker as are asked for: at least one, and at most all. The
/// workers are numbered from zero and take the queues of the first slots, in their order; the queues of
/// the other slots are kept.
pub proof fn law_as_many_workers_are_spawned_as_are_asked_for(
    before: WorkerGroup,
    after: WorkerGroup,
    workers: Seq<GCWorker>,
    active: usize,
)
    requires
        before.wf(),
        before.state is Initial,
        before.workers_shared@.len() >= 1,
        after.active_count == clamped(active as int, before.workers_shared@.len() as int),
        after.unused_queues@ == before.state->local_work_queues@.skip(after.active_count as int),
        workers == fresh_workers(
            before.state->local_work_queues@.take(after.active_count as int),
        ),
    ensures
        1 <= active <= before.workers_shared@.len() ==> workers.len() == active,
        active == 0 ==> workers.len() == 1,
        active > before.workers_shared@.len() ==> workers.len() == before.workers_shared@.len(),
        after.active_count == workers.len(),
        workers.len() + after.unused_queues@.len() == before.workers_shared@.len(),
        forall|i: int|
            0 <= i < workers.len() ==> {
                &&& (#[trigger] workers[i]).ordinal == i
                &&& workers[i].tls == 0
                &&& workers[i].copy == GCWorkerCopyContext::NonCopy
                &&& workers[i].local_work_buffer == before.state->local_work_queues@[i]
            },
        forall|i: int|
            0 <= i < after.unused_queues@.len() ==> #[trigger] after.unused_queues@[i]
                == before.state->local_work_queues@[workers.len() + i],
{
    assert(before.workers_shared@.len() == before.workers_shared.len());
}

/// Asking for more workers never spawns fewer, and two numbers that can both be met are not treated
/// alike.
pub proof fn law_asking_for_more_workers_gives_no_fewer(a: int, b: int, slots: int)
    requires
        0 <= a <= b,
        slots >= 1,
    ensures
        clamped(a, slots) <= clamped(b, slots),
        1 <= clamped(a, slots) <= slots,
        1 <= a < b <= slots ==> clamped(a, slots) < clamped(b, slots),
        clamped(clamped(a, slots), slots) == clamped(a, slots),
{
}

/// A fresh slot holds nothing and has counted nothing: sixteen packets can wait for its worker, none
/// does, and its handle takes from the queue of its worker.
pub proof fn law_a_fresh_slot_is_empty(shared: GCWorkerShared, queue: deque::Worker<u64>, space: int)
    requires
        fresh_slot(shared, queue),
        fresh_queue(queue),
        0 <= space < 16,
    ensures
        shared.stat().len() == 0,
        shared.live_bytes().len() == 16,
        shared.live_bytes()[space] == 0,
        shared.designated().len() == 0,
        shared.designated_capacity() == 16,
        shared.stealing_handle() is Some,
        queues::steals_from(shared.stealing_handle()->0, queue),
        queues::entered(queue).len() == 0,
        queues::given(queue).len() == 0,
{
}

/// The live bytes of a space add up over the workers: without a worker there are none, and each worker
/// adds what it has counted for that space.
pub proof fn law_live_bytes_add_up(shared: Seq<GCWorkerShared>, n: int, space: int)
    requires
        0 <= n < shared.len(),
    ensures
        live_total(shared, 0, space) == 0,
        live_total(shared, n + 1, space) == live_total(shared, n, space)
            + shared[n].live_bytes()[space],
{
}

/// What a worker does next, given what its designated packets and its own queue have: the oldest
/// designated packet, if there is one, is taken out and run; otherwise what its own queue gave is run;
/// and if that is nothing, the scheduler is polled. The view of the single-tracer flag is refreshed
/// before a packet is run.
pub proof fn law_a_packet_is_run_before_the_scheduler_is_polled(
    designated: Seq<u64>,
    local: Option<u64>,
)
    ensures
        designated.len() > 0 ==> GCWorker::actions_for(
            GCWorker::chosen(GCWorker::oldest(designated), local),
        ) == seq![WorkerAction::SyncUpTrace, WorkerAction::Run(designated[0])],
        designated.len() > 0 ==> GCWorker::without_oldest(designated) == designated.skip(1),
        designated.len() == 0 ==> GCWorker::oldest(designated) is None
            && GCWorker::without_oldest(designated) == designated,
        designated.len() == 0 && local is Some ==> GCWorker::actions_for(
            GCWorker::chosen(GCWorker::oldest(designated), local),
        ) == seq![WorkerAction::SyncUpTrace, WorkerAction::Run(local->0)],
        designated.len() == 0 && local is None ==> GCWorker::actions_for(
            GCWorker::chosen(GCWorker::oldest(designated), local),
        ) == seq![WorkerAction::PollScheduler],
{
}

/// Giving a worker back adds it to those that were, and changes nothing else; the answer says whether
/// as many are back as were spawned, whatever the number of slots.
pub proof fn law_a_worker_that_is_given_back_is_kept(
    before: WorkerGroup,
    worker: GCWorker,
    after: WorkerGroup,
    all: bool,
)
    requires
        WorkerGroup::surrenders(before, worker, after, all),
    ensures
        after.state->workers@.len() == before.state->workers@.len() + 1,
        after.state->workers@.last() == worker,
        forall|i: int|
            0 <= i < before.state->workers@.len() ==> #[trigger] after.state->workers@[i]
                == before.state->workers@[i],
        all <==> before.state->workers@.len() + 1 == before.active_count,
        after.active_count == before.active_count,
        after.workers_shared == before.workers_shared,
        after.unused_queues == before.unused_queues,
{
}

/// What a worker's own queue can give is nothing, or one of the packets that were entered.
pub proof fn law_an_own_queue_gives_what_was_entered(kept: Seq<u64>, work: u64)
    ensures
        GCWorker::can_give(kept, None),
        GCWorker::can_give(kept, Some(work)) <==> kept.contains(work),
{
}

/// A worker that changes nothing but its queue keeps its thread, its ordinal, its copy context and the
/// handles that take from it. What it keeps and was handed is told by its queue.
pub proof fn law_a_worker_stays_the_same_but_for_its_queue(
    before: GCWorker,
    after: GCWorker,
    s: Stealer<u64>,
)
    requires
        before.same_but_queue(after),
    ensures
        after.tls == before.tls,
        after.ordinal == before.ordinal,
        after.copy == before.copy,
        queues::steals_from(s, after.local_work_buffer) == queues::steals_from(
            s,
            before.local_work_buffer,
        ),
        after.kept() == queues::entered(after.local_work_buffer),
        after.handed() == queues::given(after.local_work_buffer),
{
}

} // verus!
