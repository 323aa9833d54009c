use crossbeam::deque::Steal;
use mmtk::scheduler::work_bucket::{GCWorkScheduler, WorkBucketStage};
use mmtk::scheduler::worker::{
    current_worker_ordinal, GCWorker, GCWorkerCopyContext, GCWorkerShared, WorkerAction,
    WorkerEvent, WorkerGroup, WorkerShouldExit,
};

fn one_worker() -> (WorkerGroup, GCWorker) {
    let mut group = WorkerGroup::new(1);
    let mut workers = group.initial_spawn();
    let worker = workers.pop().unwrap();
    (group, worker)
}

#[test]
fn a_thread_that_is_no_worker_has_no_ordinal() {
    assert_eq!(current_worker_ordinal(usize::MAX), None);
    assert_eq!(current_worker_ordinal(0), Some(0));
    assert_eq!(current_worker_ordinal(7), Some(7));
}

#[test]
fn packets_for_a_closed_bucket_go_to_the_bucket() {
    let (_, mut w) = one_worker();
    let mut s: GCWorkScheduler<u64> = GCWorkScheduler::new();
    w.add_work(&mut s, WorkBucketStage::Closure, 5);
    w.add_work_prioritized(&mut s, WorkBucketStage::Closure, 6);
    assert_eq!(s.work_buckets[WorkBucketStage::Closure.index()].packets, vec![5]);
    assert_eq!(s.work_buckets[WorkBucketStage::Closure.index()].prioritized, Some(vec![6]));
    assert_eq!(w.local_work_buffer.len(), 0);
}

#[test]
fn packets_for_an_open_bucket_stay_with_the_worker() {
    let (_, mut w) = one_worker();
    let mut s: GCWorkScheduler<u64> = GCWorkScheduler::new();
    for p in 0..20 {
        w.add_work(&mut s, WorkBucketStage::Unconstrained, p);
    }
    for p in 20..40 {
        w.add_work_prioritized(&mut s, WorkBucketStage::Unconstrained, p);
    }
    assert_eq!(w.local_work_buffer.len(), 40);
    assert!(s.nothing_waits(WorkBucketStage::Unconstrained));
}

#[test]
fn a_packet_can_be_stolen_through_the_handle_of_its_worker() {
    let mut group = WorkerGroup::new(2);
    let mut workers = group.initial_spawn();
    let mut s: GCWorkScheduler<u64> = GCWorkScheduler::new();
    workers[1].add_work(&mut s, WorkBucketStage::Unconstrained, 7);
    let steal = |i: usize| group.workers_shared[i].stealer().as_ref().unwrap().steal();
    assert_eq!(steal(0), Steal::Empty);
    assert_eq!(steal(1), Steal::Success(7));
    assert_eq!(steal(1), Steal::Empty);
    // What was stolen does not come to its worker any more.
    assert_eq!(workers[1].poll(&mut group.workers_shared[1]), None);
}

#[test]
fn a_shared_part_keeps_the_handle_that_it_is_given() {
    assert!(GCWorkerShared::new(None).stealer().is_none());
    let (_, w) = one_worker();
    w.local_work_buffer.push(5);
    let shared = GCWorkerShared::new(Some(w.local_work_buffer.stealer()));
    assert_eq!(shared.stealer().as_ref().unwrap().steal(), Steal::Success(5));
}

#[test]
fn the_packet_to_run_is_the_designated_one_if_there_is_one() {
    assert_eq!(GCWorker::next_packet(Some(1), Some(2)), Some(1));
    assert_eq!(GCWorker::next_packet(Some(1), None), Some(1));
    assert_eq!(GCWorker::next_packet(None, Some(2)), Some(2));
    assert_eq!(GCWorker::next_packet(None, None), None);
}

#[test]
fn what_polling_gave_is_run_or_the_scheduler_is_polled() {
    assert_eq!(
        GCWorker::after_poll(Some(4)),
        vec![WorkerAction::SyncUpTrace, WorkerAction::Run(4)]
    );
    assert_eq!(GCWorker::after_poll(None), vec![WorkerAction::PollScheduler]);
}

#[test]
fn designated_packets_come_first_and_each_kind_in_order() {
    let (mut group, mut w) = one_worker();
    let mut s: GCWorkScheduler<u64> = GCWorkScheduler::new();
    w.add_work(&mut s, WorkBucketStage::Unconstrained, 10);
    w.add_work(&mut s, WorkBucketStage::Unconstrained, 11);
    let shared = &mut group.workers_shared[0];
    shared.designated_work.push(1).unwrap();
    shared.designated_work.push(2).unwrap();
    assert_eq!(w.poll(shared), Some(1));
    assert_eq!(w.poll(shared), Some(2));
    assert_eq!(w.poll(shared), Some(10));
    assert_eq!(w.poll(shared), Some(11));
    assert_eq!(w.poll(shared), None);
}

#[test]
fn a_worker_can_be_given_sixteen_designated_packets() {
    let shared = GCWorkerShared::new(None);
    for p in 0..16 {
        assert_eq!(shared.designated_work.push(p), Ok(()));
    }
    assert_eq!(shared.designated_work.push(16), Err(16));
}

#[test]
fn a_worker_runs_until_it_is_asked_to_exit() {
    let (mut group, mut w) = one_worker();
    let shared = &mut group.workers_shared[0];
    shared.designated_work.push(3).unwrap();
    assert_eq!(
        w.run(WorkerEvent::Started(42), shared),
        vec![
            WorkerAction::StoreOrdinal(0),
            WorkerAction::ResolveAffinity(0),
            WorkerAction::CreateCopyContext(42),
        ]
    );
    assert_eq!(w.tls, 42);
    let copy = GCWorkerCopyContext::Copy(1);
    assert_eq!(
        w.run(WorkerEvent::CopyContextCreated(copy), shared),
        vec![WorkerAction::SyncUpTrace, WorkerAction::Run(3)]
    );
    assert_eq!(*w.get_copy_context_mut(), copy);
    assert_eq!(w.run(WorkerEvent::PacketDone, shared), vec![WorkerAction::PollScheduler]);
    assert_eq!(
        w.run(WorkerEvent::Polled(Ok(9)), shared),
        vec![WorkerAction::SyncUpTrace, WorkerAction::Run(9)]
    );
    assert_eq!(
        w.run(WorkerEvent::Polled(Err(WorkerShouldExit)), shared),
        vec![WorkerAction::Surrender]
    );
}

#[test]
fn the_number_of_active_workers_is_clamped() {
    for (asked, active) in [(0, 1), (2, 2), (9, 3)] {
        let mut group = WorkerGroup::new(3);
        assert_eq!(group.max_workers(), 3);
        assert_eq!(group.worker_count(), 0);
        let workers = group.deferred_initial_spawn(asked);
        assert_eq!(workers.len(), active);
        assert_eq!(group.worker_count(), active);
        assert_eq!(group.max_workers(), 3);
        assert_eq!(group.unused_queues.len(), 3 - active);
        for (i, w) in workers.iter().enumerate() {
            assert_eq!(w.ordinal, i);
            assert_eq!(w.tls, 0);
            assert_eq!(w.copy, GCWorkerCopyContext::NonCopy);
        }
    }
}

#[test]
fn the_last_surrender_completes_the_group() {
    let mut group = WorkerGroup::new(4);
    let mut workers = group.deferred_initial_spawn(3);
    group.prepare_surrender_buffer();
    let c = workers.pop().unwrap();
    let b = workers.pop().unwrap();
    let a = workers.pop().unwrap();
    assert!(!group.surrender_gc_worker(b));
    assert!(!group.surrender_gc_worker(c));
    assert!(group.surrender_gc_worker(a));
    let again = group.respawn();
    let ordinals: Vec<usize> = again.iter().map(|w| w.ordinal).collect();
    assert_eq!(ordinals, vec![1, 2, 0]);
    assert_eq!(group.worker_count(), 3);
}

#[test]
fn designated_work_of_any_worker_is_seen() {
    let mut group = WorkerGroup::new(3);
    assert!(!group.has_designated_work());
    group.workers_shared[2].designated_work.push(8).unwrap();
    assert!(group.has_designated_work());
    group.workers_shared[2].designated_work.pop();
    assert!(!group.has_designated_work());
}

#[test]
fn live_bytes_are_summed_over_workers_and_cleared() {
    let mut group = WorkerGroup::new(2);
    group.workers_shared[0].count_live_object(100, Some(3));
    group.workers_shared[0].count_live_object(20, Some(3));
    group.workers_shared[1].count_live_object(7, Some(3));
    group.workers_shared[1].count_live_object(1, Some(15));
    group.workers_shared[1].count_live_object(999, None);
    let mut expected = [0; 16];
    expected[3] = 127;
    expected[15] = 1;
    assert_eq!(group.get_and_clear_worker_live_bytes(), expected);
    assert_eq!(group.get_and_clear_worker_live_bytes(), [0; 16]);
}

#[test]
fn live_bytes_of_an_object_outside_of_every_space_are_not_counted() {
    let mut live = vec![5; 16];
    GCWorkerShared::increase_live_bytes(&mut live, 8, None);
    assert_eq!(live, vec![5; 16]);
    GCWorkerShared::increase_live_bytes(&mut live, 8, Some(0));
    assert_eq!(live[0], 13);
}

#[test]
fn statistics_can_be_read_and_changed() {
    let mut shared = GCWorkerShared::new(None);
    assert!(shared.borrow_stat().is_empty());
    shared.borrow_stat_mut().push(4);
    assert_eq!(*shared.borrow_stat(), vec![4]);
}

#[test]
fn prioritized_packets_are_kept_apart() {
    let mut s: GCWorkScheduler<u64> = GCWorkScheduler::new();
    assert!(s.is_open(WorkBucketStage::Unconstrained));
    assert!(!s.is_open(WorkBucketStage::Release));
    s.bulk_add(WorkBucketStage::Release, vec![1, 2]);
    s.add_packet(WorkBucketStage::Release, 3);
    s.add_prioritized(WorkBucketStage::Release, 4);
    s.set_enabled(WorkBucketStage::Release, false);
    let b = &s.work_buckets[WorkBucketStage::Release.index()];
    assert_eq!(b.packets, vec![1, 2, 3]);
    assert_eq!(b.prioritized, Some(vec![4]));
    assert!(!b.enabled);
}

#[test]
fn a_sentinel_is_scheduled_when_nothing_waits() {
    let mut s: GCWorkScheduler<u64> = GCWorkScheduler::new();
    let stage = WorkBucketStage::STWRCDecsAndSweep;
    assert!(!s.maybe_schedule_sentinel(stage));
    s.set_sentinel(stage, 9);
    s.add_packet(stage, 1);
    assert!(!s.maybe_schedule_sentinel(stage));
    assert_eq!(s.work_buckets[stage.index()].packets.pop(), Some(1));
    // Packets hand new work over to the unconstrained stage.
    s.add_packet(WorkBucketStage::Unconstrained, 2);
    assert!(!s.maybe_schedule_sentinel(stage));
    s.work_buckets[WorkBucketStage::Unconstrained.index()].packets.clear();
    s.add_prioritized(stage, 3);
    assert!(!s.maybe_schedule_sentinel(stage));
    s.work_buckets[stage.index()].prioritized = Some(vec![]);
    assert!(s.maybe_schedule_sentinel(stage));
    assert_eq!(s.work_buckets[stage.index()].packets, vec![9]);
    assert_eq!(s.work_buckets[stage.index()].sentinel, None);
    s.work_buckets[stage.index()].packets.clear();
    assert!(!s.maybe_schedule_sentinel(stage));
}
