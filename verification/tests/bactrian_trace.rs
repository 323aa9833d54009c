use mmtk::plan::concurrent::bactrian::gc_work::{
    BactrianNurseryProcessEdges, TraceOutput, SEED_CAPACITY,
};
use mmtk::plan::concurrent::bactrian::trace_heap::{ObjectSpace, TraceHeap, TracedObject};
use mmtk::plan::concurrent::Pause;

fn object(space: ObjectSpace, slots: Vec<usize>) -> TracedObject {
    TracedObject { space, slots, forward: None, marked: false, scanned: false }
}

// Objects 0 and 1 are in the nursery, 2 is large and young, 3 and 4 are mature. Object 0 refers to
// 1, 2 and 3; object 1 to 0; object 2 to 1; object 3 to 4. Slots 7 and 8 are roots.
fn heap() -> TraceHeap {
    TraceHeap {
        objects: vec![
            object(ObjectSpace::Nursery, vec![0, 1, 2]),
            object(ObjectSpace::Nursery, vec![3]),
            object(ObjectSpace::YoungLarge, vec![4]),
            object(ObjectSpace::Mature, vec![5]),
            object(ObjectSpace::Mature, vec![6]),
        ],
        words: vec![
            Some(1),
            Some(2),
            Some(3),
            Some(0),
            Some(1),
            Some(4),
            None,
            Some(0),
            Some(4),
        ],
    }
}

fn output() -> TraceOutput {
    TraceOutput { seeds: vec![], scans: vec![] }
}

fn forwards(h: &TraceHeap) -> Vec<Option<usize>> {
    h.objects.iter().map(|o| o.forward).collect()
}

fn run(h: &mut TraceHeap, slots: Vec<usize>, pause: Option<Pause>, up: bool) -> TraceOutput {
    let mut out = output();
    let mut w = BactrianNurseryProcessEdges::new(slots, pause);
    w.do_work(up, false, h, &mut out);
    assert!(w.nodes.is_empty());
    assert!(w.mark_seed.is_empty());
    out
}

#[test]
fn a_nursery_pause_promotes_what_the_roots_reach() {
    let mut h = heap();
    let out = run(&mut h, vec![7, 8], Some(Pause::Nursery), true);
    // The copies of 0 and 1.
    assert_eq!(forwards(&h), vec![Some(5), Some(6), None, None, None, None, None]);
    assert_eq!(h.words[7], Some(5));
    assert_eq!(h.words[8], Some(4));
    let fields = |o: usize| -> Vec<Option<usize>> {
        h.objects[o].slots.iter().map(|s| h.words[*s]).collect()
    };
    assert_eq!(fields(5), vec![Some(6), Some(2), Some(3)]);
    assert_eq!(fields(6), vec![Some(5)]);
    assert_eq!(fields(2), vec![Some(6)]);
    assert_eq!(h.objects[2].space, ObjectSpace::Large);
    // The objects that were copied are left alone.
    assert_eq!(fields(0), vec![Some(1), Some(2), Some(3)]);
    // Mature objects are neither marked nor scanned.
    assert!(!h.objects[3].marked && !h.objects[4].marked);
    assert!(!h.objects[3].scanned && !h.objects[4].scanned);
    assert!(h.objects[5].marked && h.objects[6].marked && h.objects[2].marked);
    assert!(h.objects[5].scanned && h.objects[6].scanned && h.objects[2].scanned);
    assert!(out.seeds.is_empty() && out.scans.is_empty());
}

#[test]
fn the_pause_defaults_to_a_nursery_pause() {
    let w = BactrianNurseryProcessEdges::new(vec![], None);
    assert_eq!(w.pause, Pause::Nursery);
    let w = BactrianNurseryProcessEdges::new(vec![], Some(Pause::FinalMark));
    assert_eq!(w.pause, Pause::FinalMark);
}

#[test]
fn the_initial_mark_seeds_the_mature_objects_that_it_meets() {
    let mut h = heap();
    let out = run(&mut h, vec![8, 7], Some(Pause::InitialMark), true);
    // 4 from the root; 2 and 3 from the fields of 0.
    assert_eq!(out.seeds, vec![vec![4, 2, 3]]);
    assert!(!h.objects[3].marked && !h.objects[4].marked);
    assert!(!h.objects[3].scanned && !h.objects[4].scanned);
}

#[test]
fn seeds_are_handed_over_when_there_are_enough() {
    let mut h = heap();
    let out = run(&mut h, vec![8; SEED_CAPACITY + 1], Some(Pause::InitialMark), true);
    assert_eq!(out.seeds.len(), 2);
    assert_eq!(out.seeds[0].len(), SEED_CAPACITY);
    assert_eq!(out.seeds[1], vec![4]);
}

#[test]
fn a_seed_waits_until_it_fills_a_packet() {
    let mut h = heap();
    let mut out = output();
    let mut w = BactrianNurseryProcessEdges::new(vec![], Some(Pause::InitialMark));
    // An object of the nursery is no seed.
    w.trace_object(0, &mut h, &mut out);
    assert!(w.mark_seed.is_empty());
    for i in 1..SEED_CAPACITY {
        w.trace_object(3, &mut h, &mut out);
        assert_eq!(w.mark_seed.len(), i);
    }
    assert!(out.seeds.is_empty());
    w.trace_object(4, &mut h, &mut out);
    assert!(w.mark_seed.is_empty());
    assert_eq!(out.seeds.len(), 1);
    assert_eq!(out.seeds[0].len(), SEED_CAPACITY);
    assert_eq!(out.seeds[0][SEED_CAPACITY - 1], 4);
    w.trace_object(4, &mut h, &mut out);
    assert_eq!(w.mark_seed, vec![4]);
    assert_eq!(out.seeds.len(), 1);
}

#[test]
fn each_slot_is_met_once_and_in_order() {
    let mut h = heap();
    h.words[6] = Some(3);
    let out = run(&mut h, vec![8, 6, 8], Some(Pause::InitialMark), true);
    assert_eq!(out.seeds, vec![vec![4, 3, 4]]);
    let mut h = heap();
    let out = run(&mut h, vec![7, 8, 7], Some(Pause::InitialMark), true);
    // The root that was processed before refers to the copy, which is mature. Then come the fields of
    // the copy. The other copy refers to an object of the nursery, which is no seed.
    assert_eq!(out.seeds, vec![vec![4, 5, 2, 3]]);
}

#[test]
fn the_final_mark_marks_what_was_missed() {
    let mut h = heap();
    let out = run(&mut h, vec![7], Some(Pause::FinalMark), true);
    assert!(out.seeds.is_empty());
    for o in &h.objects[2..] {
        assert!(o.marked && o.scanned);
    }
    // What is marked already is not scanned again.
    let mut h = heap();
    h.objects[3].marked = true;
    run(&mut h, vec![7], Some(Pause::FinalMark), true);
    assert!(!h.objects[3].scanned);
    assert!(!h.objects[4].marked);
}

#[test]
fn without_a_single_tracer_the_objects_to_scan_are_handed_over() {
    let mut h = heap();
    let out = run(&mut h, vec![7, 7, 8], Some(Pause::Nursery), false);
    assert_eq!(out.scans, vec![vec![5]]);
    assert_eq!(h.words[7], Some(5));
    assert!(!h.objects[5].scanned);
    // The fields of the copy still refer into the nursery.
    assert_eq!(h.words[h.objects[5].slots[0]], Some(1));
    let mut h = heap();
    let mut out = output();
    let mut w = BactrianNurseryProcessEdges::new(vec![7], Some(Pause::Nursery));
    w.do_work(true, true, &mut h, &mut out);
    assert_eq!(out.scans, vec![vec![5]]);
}

#[test]
fn a_second_trace_finds_nothing() {
    let mut h = heap();
    run(&mut h, vec![7, 8], Some(Pause::FinalMark), true);
    let words = h.words.clone();
    let n = h.objects.len();
    let out = run(&mut h, vec![7, 8], Some(Pause::FinalMark), false);
    assert!(out.scans.is_empty());
    assert_eq!(h.words, words);
    assert_eq!(h.objects.len(), n);
}

#[test]
fn an_object_is_traced_to_where_it_is() {
    let mut h = heap();
    let mut out = output();
    let mut w = BactrianNurseryProcessEdges::new(vec![], Some(Pause::Nursery));
    assert_eq!(w.trace_object(0, &mut h, &mut out), 5);
    assert_eq!(w.trace_object(0, &mut h, &mut out), 5);
    assert_eq!(w.trace_object(5, &mut h, &mut out), 5);
    assert_eq!(w.trace_object(2, &mut h, &mut out), 2);
    assert_eq!(w.trace_object(2, &mut h, &mut out), 2);
    assert_eq!(w.trace_object(3, &mut h, &mut out), 3);
    assert_eq!(w.nodes, vec![5, 2]);
}

#[test]
fn seeds_are_not_lost_when_a_trace_is_dropped() {
    let mut h = heap();
    let mut out = output();
    let mut w = BactrianNurseryProcessEdges::new(vec![], Some(Pause::InitialMark));
    w.trace_object(3, &mut h, &mut out);
    w.trace_object(4, &mut h, &mut out);
    assert!(out.seeds.is_empty());
    w.finish(&mut out);
    assert_eq!(out.seeds, vec![vec![3, 4]]);
    w.finish(&mut out);
    assert_eq!(out.seeds.len(), 1);
}
