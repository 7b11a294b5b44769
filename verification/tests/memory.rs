//! Memory walks, object searches and the caches around them.

use steam_input_lease::memory::{
    declared_module_size, discovery_store, judge, live_candidates, memory_is_readable,
    nt_header_offset, plausible_module_size, LayoutAnswer, LayoutCache, ObjectPattern, ObjectScan,
    ReadRange, Region, ScanStep, SearchBudget, SnapshotWalk, ThreadAnswer, ThreadCache, Verdict,
    DEADLINE_LIMIT, MEM_COMMIT, MEM_PRIVATE, NEGATIVE_ZERO, PROCESS_SCAN_CHUNK, SCHEDULE_NOW,
};
use steam_input_lease::resolve::RecoveryLayout;

fn region(base: usize, size: usize) -> Region {
    Region {
        base,
        size,
        state: MEM_COMMIT,
        protect: 4,
        kind: MEM_PRIVATE,
    }
}

fn pattern() -> ObjectPattern {
    ObjectPattern {
        primary: 0x1111,
        secondary: 0x2222,
        secondary_offset: 24,
        deadline_offset: 0x88,
        counter_offset: 0xa8,
    }
}

#[test]
fn guarded_and_uncommitted_memory_is_not_read() {
    assert!(memory_is_readable(&region(0, 1)));
    assert!(!memory_is_readable(&Region { state: 0x2000, ..region(0, 1) }));
    assert!(!memory_is_readable(&Region { protect: 0x104, ..region(0, 1) }));
    assert!(!memory_is_readable(&Region { protect: 1, ..region(0, 1) }));
}

#[test]
fn a_snapshot_reads_the_readable_parts_of_its_range() {
    let mut walk = SnapshotWalk::new(0x10000, 0x5000);
    assert_eq!(walk.next_query(), Some(0x10000));
    assert_eq!(
        walk.region(Some(region(0xf000, 0x2000))),
        Some(ReadRange { address: 0x10000, offset: 0, length: 0x1000 })
    );
    assert_eq!(walk.next_query(), Some(0x11000));
    assert_eq!(walk.region(None), None);
    assert_eq!(walk.next_query(), Some(0x12000));
    assert_eq!(walk.region(Some(Region { protect: 1, ..region(0x12000, 0x1000) })), None);
    assert_eq!(walk.next_query(), Some(0x13000));
    assert_eq!(walk.region(Some(region(0x1000, 0x1000))), None);
    assert_eq!(walk.next_query(), Some(0x14000));
    assert_eq!(
        walk.region(Some(region(0x14000, 0x8000))),
        Some(ReadRange { address: 0x14000, offset: 0x4000, length: 0x1000 })
    );
    assert_eq!(walk.next_query(), None);
}

#[test]
fn module_headers_must_be_plausible() {
    assert_eq!(nt_header_offset(Some(0x5a4d), Some(0x80)), Some(0x80));
    assert_eq!(nt_header_offset(Some(0x5a4d), Some(0x1_0001)), None);
    assert_eq!(nt_header_offset(Some(0x5a4e), Some(0x80)), None);
    assert_eq!(nt_header_offset(None, Some(0x80)), None);
    assert_eq!(declared_module_size(Some(0x4550), Some(0x20b), Some(0x5000)), Some(0x5000));
    assert_eq!(declared_module_size(Some(0x4550), Some(0x10b), Some(0x5000)), None);
    assert_eq!(declared_module_size(Some(0x4550), Some(0x20b), Some(0)), None);
    assert!(plausible_module_size(512 * 1024 * 1024));
    assert!(!plausible_module_size(512 * 1024 * 1024 + 1));
}

#[test]
fn deadlines_are_plausible_as_the_numbers_they_hold() {
    assert_eq!(SCHEDULE_NOW, (-1.0f64).to_bits());
    assert_eq!(DEADLINE_LIMIT, 1.0e12f64.to_bits());
    assert_eq!(NEGATIVE_ZERO, (-0.0f64).to_bits());
    let live = |deadline: f64| {
        pattern().is_live(0x1000, Some(0x1111), Some(0x2222), Some(deadline.to_bits()))
    };
    for value in [-1.0, 0.0, -0.0, 1.5, 999_999_999_999.0, f64::MIN_POSITIVE] {
        assert!(live(value), "{value}");
        assert!(value.is_finite() && (value == -1.0 || (0.0..1.0e12).contains(&value)));
    }
    for value in [-0.5, -2.0, 1.0e12, f64::INFINITY, f64::NEG_INFINITY, f64::NAN] {
        assert!(!live(value), "{value}");
        assert!(!(value.is_finite() && (value == -1.0 || (0.0..1.0e12).contains(&value))));
    }
}

#[test]
fn a_live_object_carries_both_vtables() {
    let good = Some(SCHEDULE_NOW);
    assert!(pattern().is_live(8, Some(0x1111), Some(0x2222), good));
    assert!(!pattern().is_live(0, Some(0x1111), Some(0x2222), good));
    assert!(!pattern().is_live(8, Some(0x1112), Some(0x2222), good));
    assert!(!pattern().is_live(8, Some(0x1111), None, good));
    assert!(!pattern().is_live(8, Some(0x1111), Some(0x2222), None));
    assert_eq!(discovery_store(0x1008), Some(SCHEDULE_NOW));
    assert_eq!(discovery_store(0x1004), None);
}

#[test]
fn patterns_are_absolute() {
    let layout = RecoveryLayout {
        primary_vtable_rva: 0x10,
        secondary_vtable_rva: 0x20,
        secondary_object_offset: 8,
        worker_method_rva: 0x30,
        discovery_deadline_offset: 0x88,
        discovery_counter_offset: 0xa8,
    };
    assert_eq!(
        ObjectPattern::new(0x1000, layout),
        Some(ObjectPattern {
            primary: 0x1010,
            secondary: 0x1020,
            secondary_offset: 8,
            deadline_offset: 0x88,
            counter_offset: 0xa8,
        })
    );
    assert_eq!(ObjectPattern::new(usize::MAX, layout), None);
}

/// Runs a search over made-up memory of one private region.
fn search(base: usize, memory: &[u8]) -> Vec<usize> {
    let mut scan = ObjectScan::new(pattern());
    let mut queried = false;
    loop {
        match scan.next_step() {
            ScanStep::Query(address) => {
                if queried {
                    scan.region(None);
                } else {
                    assert_eq!(address, 0x1_0000);
                    scan.region(Some(region(base, memory.len())));
                    queried = true;
                }
            }
            ScanStep::Read(address, length) => {
                let start = address - base;
                scan.chunk_read(Some(&memory[start..start + length]));
            }
            ScanStep::Finished => return scan.into_candidates(),
        }
    }
}

#[test]
fn objects_are_found_wherever_they_stand_across_chunks() {
    let base = 0x10_0000;
    for place in [
        0,
        PROCESS_SCAN_CHUNK - 32,
        PROCESS_SCAN_CHUNK - 24,
        PROCESS_SCAN_CHUNK - 8,
        PROCESS_SCAN_CHUNK,
        2 * PROCESS_SCAN_CHUNK - 64,
    ] {
        let mut memory = vec![0u8; 2 * PROCESS_SCAN_CHUNK];
        memory[place..place + 8].copy_from_slice(&0x1111u64.to_le_bytes());
        memory[place + 24..place + 32].copy_from_slice(&0x2222u64.to_le_bytes());
        let found = search(base, &memory);
        let once = live_candidates(&found, &vec![true; found.len()]);
        assert_eq!(once, vec![base + place]);
    }
}

#[test]
fn only_private_readable_memory_and_delivered_bytes_are_searched() {
    let mut scan = ObjectScan::new(pattern());
    scan.region(Some(Region { kind: 0x4_0000, ..region(0x1_0000, 0x1000) }));
    assert_eq!(scan.next_step(), ScanStep::Query(0x1_1000));
    scan.region(Some(region(0x1_1000, 0x1000)));
    assert_eq!(scan.next_step(), ScanStep::Read(0x1_1000, 0x1000));
    scan.chunk_read(None);
    assert_eq!(scan.next_step(), ScanStep::Query(0x1_2000));
    scan.region(Some(region(0x1_0000, 0x10)));
    assert_eq!(scan.next_step(), ScanStep::Read(0x1_0000, 0x10));
    scan.chunk_read(Some(&[]));
    assert_eq!(scan.next_step(), ScanStep::Finished);
    assert!(scan.into_candidates().is_empty());
}

#[test]
fn a_search_finds_the_objects_of_all_its_regions() {
    let wanted = pattern();
    let mut bytes = vec![0u8; 0x1000];
    bytes[0x20..0x28].copy_from_slice(&(wanted.primary as u64).to_le_bytes());
    let second = 0x20 + wanted.secondary_offset;
    bytes[second..second + 8].copy_from_slice(&(wanted.secondary as u64).to_le_bytes());
    let mut scan = ObjectScan::new(wanted);
    let answers = [
        region(0x1_0000, 0x1000),
        Region { kind: 0x4_0000, ..region(0x1_1000, 0x1000) },
        region(0x1_2000, 0x1000),
    ];
    for answer in answers {
        scan.region(Some(answer));
        while let ScanStep::Read(_, length) = scan.next_step() {
            scan.chunk_read(Some(&bytes[..length]));
        }
    }
    scan.region(None);
    assert_eq!(scan.next_step(), ScanStep::Finished);
    assert_eq!(scan.into_candidates(), vec![0x1_0020, 0x1_2020]);
}

#[test]
fn live_candidates_are_sorted_and_unique() {
    assert_eq!(
        live_candidates(&[30, 10, 20, 10, 40], &[true, true, true, true, false]),
        vec![10, 20, 30]
    );
    assert_eq!(judge(&[]), Verdict::Missing);
    assert_eq!(judge(&[7]), Verdict::Found(7));
    assert_eq!(judge(&[7, 8]), Verdict::Ambiguous);
}

#[test]
fn search_budgets_bound_polls_but_not_recovery() {
    let mut budget = SearchBudget::new(2);
    budget.failed();
    assert!(budget.allows(false));
    budget.failed();
    assert!(!budget.allows(false));
    assert!(budget.allows(true));
    budget.renew();
    assert!(budget.allows(false));
}

#[test]
fn only_a_resolved_layout_is_remembered() {
    let mut cache = LayoutCache::new();
    for _ in 0..4 {
        assert_eq!(cache.runtime_recovery_layout(false), LayoutAnswer::Resolve);
        cache.resolved(None);
    }
    assert_eq!(cache.runtime_recovery_layout(false), LayoutAnswer::Spent);
    assert_eq!(cache.runtime_recovery_layout(true), LayoutAnswer::Resolve);
    cache.resolved(Some(pattern()));
    assert_eq!(cache.runtime_recovery_layout(false), LayoutAnswer::Known(pattern()));
    cache.resolved(Some(ObjectPattern { primary: 9, ..pattern() }));
    assert_eq!(cache.runtime_recovery_layout(false), LayoutAnswer::Known(pattern()));
}

#[test]
fn a_known_thread_is_believed_while_it_lives() {
    let mut cache = ThreadCache::new();
    assert_eq!(cache.find_hid_thread(true, false), ThreadAnswer::Search);
    cache.searched(Some(0x5000));
    assert_eq!(cache.find_hid_thread(true, false), ThreadAnswer::Known(0x5000));
    assert_eq!(cache.find_hid_thread(false, false), ThreadAnswer::Search);
    assert_eq!(cache.address, 0);
    for _ in 0..3 {
        cache.searched(None);
    }
    assert_eq!(cache.find_hid_thread(false, false), ThreadAnswer::Spent);
    assert_eq!(cache.find_hid_thread(false, true), ThreadAnswer::Search);
    assert_eq!(ThreadCache::field(0x5000, 0x88), Some(0x5088));
    assert_eq!(ThreadCache::field(usize::MAX, 1), None);
}
