use mmtk::util::allocators::large_object_allocator::{
    los_phase_range, parse_usize, AllocRequest, LargeObjectAllocator, PhaseSetting,
};

fn text(s: &str) -> Option<Vec<u8>> {
    Some(s.as_bytes().to_vec())
}

#[test]
fn numbers_are_parsed_as_decimals() {
    for (s, n) in [
        ("0", Some(0)),
        ("64", Some(64)),
        ("007", Some(7)),
        ("+12", Some(12)),
        ("18446744073709551615", Some(usize::MAX)),
        ("18446744073709551616", None),
        ("99999999999999999999", None),
        ("", None),
        ("+", None),
        ("-1", None),
        ("1 ", None),
        ("1a", None),
        ("++1", None),
    ] {
        assert_eq!(parse_usize(&s.as_bytes().to_vec()), n);
        assert_eq!(s.parse::<usize>().ok(), n);
    }
}

#[test]
fn the_range_of_phases_is_capped() {
    assert_eq!(los_phase_range(&None), 16);
    assert_eq!(los_phase_range(&text("2")), 2);
    assert_eq!(los_phase_range(&text("64")), 64);
    assert_eq!(los_phase_range(&text("65")), 16);
    assert_eq!(los_phase_range(&text("many")), 16);
    assert_eq!(los_phase_range(&text("0")), 0);
    assert_eq!(los_phase_range(&text("1")), 1);
}

#[test]
fn the_first_reading_of_the_setting_is_kept() {
    let mut s = PhaseSetting::new();
    assert_eq!(s.get(&text("8")), 8);
    assert_eq!(s.get(&text("32")), 8);
    assert_eq!(s.get(&None), 8);
    let mut s = PhaseSetting::new();
    assert_eq!(s.get(&None), 16);
    assert_eq!(s.get(&text("8")), 16);
}

#[test]
fn phases_rotate() {
    let mut a = LargeObjectAllocator::new(3, 16);
    assert_eq!(a.get_tls(), 3);
    assert!(!a.does_thread_local_allocation());
    for n in 0..40usize {
        assert_eq!(a.next_phase(8), (n % 16) * 64);
    }
}

#[test]
fn a_range_of_at_most_one_switches_phases_off() {
    for range in [0, 1] {
        let mut a = LargeObjectAllocator::new(0, range);
        assert_eq!(a.next_phase(8), 0);
        assert_eq!(a.next_phase(8), 0);
        assert_eq!(a.phase, 0);
    }
}

#[test]
fn the_pad_is_rounded_up_to_the_alignment() {
    let mut a = LargeObjectAllocator::new(0, 16);
    a.phase = 3;
    assert_eq!(a.next_phase(128), 256);
    a.phase = 4;
    assert_eq!(a.next_phase(128), 256);
    a.phase = 1;
    assert_eq!(a.next_phase(1024), 1024);
    a.phase = 5;
    assert_eq!(a.next_phase(1), 320);
}

#[test]
fn the_pad_is_always_less_than_a_page() {
    let mut a = LargeObjectAllocator::new(0, 64);
    a.phase = 63;
    assert_eq!(a.next_phase(64), 4032);
    a.phase = 63;
    assert_eq!(a.next_phase(128), 0);
    assert_eq!(a.phase, 0);
    a.phase = 62;
    assert_eq!(a.next_phase(128), 3968);
    a.phase = 1;
    assert_eq!(a.next_phase(2048), 2048);
    a.phase = 1;
    assert_eq!(a.next_phase(4096), 0);
    a.phase = 1;
    assert_eq!(a.next_phase(8192), 0);
    a.phase = 0;
    assert_eq!(a.next_phase(8192), 0);
    for k in 0..64 {
        for log in 0..20 {
            let align = 1 << log;
            a.phase = k;
            let pad = a.next_phase(align);
            assert!(pad < 4096 && pad % align == 0);
        }
    }
}

#[test]
fn the_pad_is_part_of_the_request() {
    let mut a = LargeObjectAllocator::new(0, 16);
    a.phase = 2;
    let r = a.alloc_request(10000, 8, 0);
    assert_eq!(r, AllocRequest { size: 10128, align: 8, offset: 0, phase: 128 });
    assert_eq!(a.phase, 3);
    assert_eq!(r.finish(40960), 41088);
    assert_eq!(r.finish(40960) / 4096 * 4096, 40960);
    assert_eq!(r.finish(0), 0);
}

#[test]
fn the_object_is_aligned_at_its_offset() {
    let r = AllocRequest { size: 100, align: 32, offset: 8, phase: 64 };
    let object = r.finish(8192);
    assert_eq!(object, 8192 + 64 + 24);
    assert_eq!((object + 8) % 32, 0);
    let r = AllocRequest { size: 100, align: 16, offset: 0, phase: 64 };
    assert_eq!(r.finish(8192), 8256);
}

#[test]
fn pages_are_rounded_up() {
    let a = LargeObjectAllocator::new(0, 16);
    assert_eq!(a.alloc_slow_once(4096, 8, 8, false), Some(1));
    assert_eq!(a.alloc_slow_once(4097, 8, 8, false), Some(2));
    assert_eq!(a.alloc_slow_once(4096, 16, 8, false), Some(2));
    assert_eq!(a.alloc_slow_once(4088, 16, 8, false), Some(1));
    assert_eq!(a.alloc_slow_once(0, 8, 8, false), Some(0));
    assert_eq!(a.alloc_slow_once(usize::MAX, 8, 8, true), None);
}

#[test]
fn an_object_fits_in_its_pages() {
    let mut a = LargeObjectAllocator::new(0, 64);
    for size in [1usize, 4000, 4096, 9000] {
        for align in [8usize, 16, 64] {
            for offset in [0usize, 8] {
                let r = a.alloc_request(size, align, offset);
                let pages = a.alloc_slow_once(r.size, r.align, 8, false).unwrap();
                let cell = 4096 * 50;
                assert!(r.finish(cell) + size <= cell + pages * 4096);
                assert!(r.finish(cell) < cell + 4096);
            }
        }
    }
}
