use mmtk::plan::concurrent::bactrian::quantum::{
    BactrianMarkQuantum, BactrianSweepQuantum, QuantumAction, QuantumEvent,
};
use mmtk::policy::largeobjectspace::LargeObjectSpace;

// Drive a marking quantum over `queue`; the time is up after `limit` packets.
fn mark(q: &mut BactrianMarkQuantum, los: &mut LargeObjectSpace, queue: &mut Vec<u64>, limit: usize) -> Vec<u64> {
    let mut ran = vec![];
    let mut action = q.do_work(QuantumEvent::Started, los);
    loop {
        let event = match action {
            QuantumAction::Pop => {
                assert!(los.full_semantics);
                QuantumEvent::Popped(queue.pop())
            }
            QuantumAction::Run(packet) => {
                assert!(los.full_semantics);
                ran.push(packet);
                QuantumEvent::Ran { expired: ran.len() >= limit, drained: queue.is_empty() }
            }
            QuantumAction::Stop => return ran,
            QuantumAction::EmptiedAndStop => panic!("a marking quantum sweeps nothing"),
        };
        action = q.do_work(event, los);
    }
}

// Drive a sweeping quantum. Also returns whether it noted that nothing is left.
fn sweep(q: &mut BactrianSweepQuantum, queue: &mut Vec<u64>, limit: usize) -> (Vec<u64>, bool) {
    let mut ran = vec![];
    let mut action = q.do_work(QuantumEvent::Started);
    loop {
        let event = match action {
            QuantumAction::Pop => QuantumEvent::Popped(queue.pop()),
            QuantumAction::Run(packet) => {
                ran.push(packet);
                QuantumEvent::Ran { expired: ran.len() >= limit, drained: queue.is_empty() }
            }
            QuantumAction::Stop => return (ran, false),
            QuantumAction::EmptiedAndStop => return (ran, true),
        };
        action = q.do_work(event);
    }
}

#[test]
fn a_marking_quantum_restores_how_large_objects_are_marked() {
    for was_full in [false, true] {
        let mut los = LargeObjectSpace::new();
        los.full_semantics = was_full;
        los.reserved_pages = 9;
        let mut queue = vec![3, 2, 1];
        let ran = mark(&mut BactrianMarkQuantum::budgeted(), &mut los, &mut queue, 2);
        assert_eq!(ran, vec![1, 2]);
        assert_eq!(queue, vec![3]);
        assert_eq!(los.full_semantics, was_full);
        assert_eq!(los.reserved_pages, 9);
    }
}

#[test]
fn an_unbudgeted_marking_quantum_drains_everything() {
    let mut los = LargeObjectSpace::new();
    let mut queue = vec![3, 2, 1];
    let ran = mark(&mut BactrianMarkQuantum::unbudgeted(), &mut los, &mut queue, 1);
    assert_eq!(ran, vec![1, 2, 3]);
    assert!(!los.full_semantics);
}

#[test]
fn an_empty_queue_ends_a_quantum_at_once() {
    let mut los = LargeObjectSpace::new();
    assert!(mark(&mut BactrianMarkQuantum::budgeted(), &mut los, &mut vec![], 1).is_empty());
    assert_eq!(sweep(&mut BactrianSweepQuantum::budgeted(), &mut vec![], 1), (vec![], true));
}

#[test]
fn a_sweeping_quantum_overruns_by_one_packet() {
    let mut queue = vec![4, 3, 2, 1];
    let r = sweep(&mut BactrianSweepQuantum::budgeted(), &mut queue, 1);
    assert_eq!(r, (vec![1, 2], false));
    assert_eq!(queue, vec![4, 3]);
}

#[test]
fn a_sweep_that_is_complete_with_the_last_packet_is_noted() {
    let mut queue = vec![2, 1];
    let r = sweep(&mut BactrianSweepQuantum::budgeted(), &mut queue, 2);
    assert_eq!(r, (vec![1, 2], true));
    // Also if the last look finds the last packet.
    let mut queue = vec![2, 1];
    let r = sweep(&mut BactrianSweepQuantum::budgeted(), &mut queue, 1);
    assert_eq!(r, (vec![1, 2], true));
    let mut queue = vec![1];
    let r = sweep(&mut BactrianSweepQuantum::budgeted(), &mut queue, 1);
    assert_eq!(r, (vec![1], true));
}

#[test]
fn an_unbudgeted_sweeping_quantum_always_completes() {
    let mut queue = vec![3, 2, 1];
    let r = sweep(&mut BactrianSweepQuantum::unbudgeted(), &mut queue, 1);
    assert_eq!(r, (vec![1, 2, 3], true));
}
