//! Resolution of the scheduler layout and the searches beneath it.

use steam_input_lease::election::{
    ambiguous_candidates, describe_candidate_movement, sample_candidates,
    select_progressing_candidate, unreadable_candidates, Election, ElectionStep, SchedulerSample,
};
use steam_input_lease::pe::{executable_end, parse_pe_sections, rva_is_executable, PeSection};
use steam_input_lease::resolve::{
    find_complete_object_locators, find_scheduler_layouts, find_vtables, resolve_recovery_layout,
    unique_vtable, vtable_has_executable_entry, RecoveryLayout, ResolveError, VtableCandidate,
    TYPE_DESCRIPTOR_NAME_OFFSET,
};
use steam_input_lease::scheduler::{
    analyze_scheduler_method, scheduler_fields, DecodedInstruction, SchedulerFields,
    KIND_IMMEDIATE32_TO64, KIND_IMMEDIATE8, KIND_IMMEDIATE8_SECOND, KIND_MEMORY, KIND_REGISTER,
    MNEMONIC_ADD, MNEMONIC_INC, MNEMONIC_MOVSD, MNEMONIC_RET, NO_REGISTER,
};
use steam_input_lease::search::{
    byte_offsets, find_u64, find_unique, find_vtable_pairs, read_u16, read_u32, read_u64,
};

const TEST_BASE: usize = 0x0001_8000_0000;
const HID_THREAD_RTTI_NAME: &[u8] = b".?AVCHIDIOThread@CSteamController@@\0";

fn put_u16(image: &mut [u8], offset: usize, value: u16) {
    image[offset..offset + 2].copy_from_slice(&value.to_le_bytes());
}

fn put_u32(image: &mut [u8], offset: usize, value: u32) {
    image[offset..offset + 4].copy_from_slice(&value.to_le_bytes());
}

fn put_u64(image: &mut [u8], offset: usize, value: u64) {
    image[offset..offset + 8].copy_from_slice(&value.to_le_bytes());
}

const SCHEDULER: [u8; 28] = [
    0xf2, 0x41, 0x0f, 0x10, 0x87, 0x80, 0x00, 0x00, 0x00, 0x90, 0x90, 0x41, 0xff, 0x87, 0xa0, 0x00,
    0x00, 0x00, 0xf2, 0x41, 0x0f, 0x11, 0x87, 0x80, 0x00, 0x00, 0x00, 0xc3,
];

fn synthetic_loaded_image() -> Vec<u8> {
    let mut image = vec![0u8; 0x5000];
    put_u16(&mut image, 0, 0x5a4d);
    put_u32(&mut image, 0x3c, 0x80);
    put_u32(&mut image, 0x80, 0x0000_4550);
    put_u16(&mut image, 0x86, 2);
    put_u16(&mut image, 0x94, 0xf0);
    put_u16(&mut image, 0x98, 0x20b);
    put_u32(&mut image, 0x98 + 56, 0x5000);

    let section_table = 0x188;
    put_u32(&mut image, section_table + 8, 0x1000);
    put_u32(&mut image, section_table + 12, 0x1000);
    put_u32(&mut image, section_table + 16, 0x1000);
    put_u32(&mut image, section_table + 36, 0x6000_0020);
    put_u32(&mut image, section_table + 40 + 8, 0x2000);
    put_u32(&mut image, section_table + 40 + 12, 0x2000);
    put_u32(&mut image, section_table + 40 + 16, 0x2000);
    put_u32(&mut image, section_table + 40 + 36, 0x4000_0040);

    let type_descriptor = 0x2ff0;
    image[type_descriptor + TYPE_DESCRIPTOR_NAME_OFFSET
        ..type_descriptor + TYPE_DESCRIPTOR_NAME_OFFSET + HID_THREAD_RTTI_NAME.len()]
        .copy_from_slice(HID_THREAD_RTTI_NAME);
    for (locator, object_offset) in [(0x2100, 0), (0x2120, 8)] {
        put_u32(&mut image, locator, 1);
        put_u32(&mut image, locator + 4, object_offset);
        put_u32(&mut image, locator + 12, type_descriptor as u32);
        put_u32(&mut image, locator + 16, 0x2200);
        put_u32(&mut image, locator + 20, locator as u32);
    }
    put_u64(&mut image, 0x2300, (TEST_BASE + 0x2100) as u64);
    put_u64(&mut image, 0x2308, (TEST_BASE + 0x1100) as u64);
    image[0x1100] = 0xc3;

    put_u64(&mut image, 0x2400, (TEST_BASE + 0x2120) as u64);
    put_u64(&mut image, 0x2408, (TEST_BASE + 0x1200) as u64);
    put_u64(&mut image, 0x2410, (TEST_BASE + 0x1210) as u64);
    put_u64(&mut image, 0x2418, (TEST_BASE + 0x1300) as u64);
    image[0x1200] = 0xc3;
    image[0x1210] = 0xc3;
    image[0x1300..0x1300 + SCHEDULER.len()].copy_from_slice(&SCHEDULER);
    image
}

#[test]
fn complete_layout_is_resolved_without_build_offsets() {
    assert_eq!(
        resolve_recovery_layout(TEST_BASE, &synthetic_loaded_image()).unwrap(),
        RecoveryLayout {
            primary_vtable_rva: 0x2308,
            secondary_vtable_rva: 0x2408,
            secondary_object_offset: 8,
            worker_method_rva: 0x1300,
            discovery_deadline_offset: 0x88,
            discovery_counter_offset: 0xa8,
        }
    );
}

#[test]
fn scheduler_fields_are_derived_from_instruction_semantics() {
    // movsd xmm0,[r15+80h]; inc dword ptr [r15+0A0h];
    // movsd [r15+80h],xmm0; ret. The unrelated NOPs stand in for the
    // comparisons and branches that occur between these operations.
    let mut image = vec![0; 0x2000];
    image[0x1000..0x1000 + SCHEDULER.len()].copy_from_slice(&SCHEDULER);
    let sections = [PeSection {
        start: 0x1000,
        end: 0x1100,
        executable: true,
    }];
    assert_eq!(
        analyze_scheduler_method(TEST_BASE, &image, &sections, 0x1000),
        Some(SchedulerFields {
            deadline_from_secondary: 0x80,
            counter_from_secondary: 0xa0,
        })
    );
}

#[test]
fn ambiguous_names_are_rejected() {
    assert_eq!(find_unique(b"abc abc", b"abc"), Err(2));
}

fn vtable_pair_window() -> Vec<u8> {
    // Object 16 bytes into the window: primary at +0, secondary at +24.
    let mut bytes = vec![0u8; 96];
    put_u64(&mut bytes, 16, 0x1111_2222_3333_4440);
    put_u64(&mut bytes, 40, 0x5555_6666_7777_8880);
    bytes
}

#[test]
fn vtable_pairs_are_found_at_their_absolute_address() {
    let bytes = vtable_pair_window();
    assert_eq!(
        find_vtable_pairs(&bytes, 0x4000, 0x1111_2222_3333_4440, 0x5555_6666_7777_8880, 24),
        vec![0x4010]
    );
}

#[test]
fn vtable_pairs_require_both_halves() {
    let bytes = vtable_pair_window();
    assert!(
        find_vtable_pairs(&bytes, 0x4000, 0x1111_2222_3333_4440, 0xdead_beef_dead_beef, 24)
            .is_empty()
    );
}

#[test]
fn vtable_pairs_skip_misaligned_addresses() {
    // The same bytes read from an address 4 modulo 8 place the primary word
    // at a misaligned address, which cannot begin a C++ object.
    let bytes = vtable_pair_window();
    assert!(
        find_vtable_pairs(&bytes, 0x4004, 0x1111_2222_3333_4440, 0x5555_6666_7777_8880, 24)
            .is_empty()
    );
}

#[test]
fn vtable_pairs_reject_a_window_shorter_than_the_pair() {
    let bytes = vec![0u8; 16];
    assert!(find_vtable_pairs(&bytes, 0x4000, 0x1111, 0x2222, 24).is_empty());
}

#[test]
fn vtable_pairs_reject_a_null_primary_over_zeroed_memory() {
    // Without the guard every 8-aligned word of this page would match.
    let bytes = vec![0u8; 4096];
    assert!(find_vtable_pairs(&bytes, 0x4000, 0, 0, 24).is_empty());
}

#[test]
fn vtable_pairs_keep_the_alignment_of_an_odd_snapshot() {
    let mut bytes = vec![0u8; 64];
    put_u64(&mut bytes, 5, 0x77);
    put_u64(&mut bytes, 16, 0x88);
    assert_eq!(find_vtable_pairs(&bytes, 0x4003, 0x77, 0x88, 11), vec![0x4008]);
}

fn sample(deadline: f64, counter: u32) -> SchedulerSample {
    SchedulerSample {
        deadline_bits: deadline.to_bits(),
        counter,
    }
}

#[test]
fn the_only_candidate_that_reschedules_discovery_is_selected() {
    let before = [sample(1000.0, 7), sample(940.0, 5)];
    let after = [sample(1000.0, 7), sample(1200.0, 5)];
    assert_eq!(select_progressing_candidate(&before, &after), Some(1));
}

#[test]
fn a_moving_counter_alone_identifies_the_live_candidate() {
    let before = [sample(1000.0, 7), sample(940.0, 5)];
    let after = [sample(1000.0, 8), sample(940.0, 5)];
    assert_eq!(select_progressing_candidate(&before, &after), Some(0));
}

#[test]
fn candidates_that_all_stand_still_stay_ambiguous() {
    let before = [sample(1000.0, 7), sample(940.0, 5)];
    assert_eq!(select_progressing_candidate(&before, &before), None);
}

#[test]
fn several_moving_candidates_stay_ambiguous() {
    let before = [sample(1000.0, 7), sample(940.0, 5)];
    let after = [sample(1100.0, 7), sample(1200.0, 5)];
    assert_eq!(select_progressing_candidate(&before, &after), None);
}

#[test]
fn a_deadline_holding_nan_in_both_observations_is_not_movement() {
    // f64 equality would call this a change and elect a dead candidate.
    let before = [sample(f64::NAN, 1), sample(500.0, 1)];
    let after = [sample(f64::NAN, 1), sample(600.0, 1)];
    assert_eq!(select_progressing_candidate(&before, &after), Some(1));
}

#[test]
fn mismatched_or_empty_observations_are_rejected() {
    let before = [sample(1000.0, 7)];
    assert_eq!(select_progressing_candidate(&before, &[]), None);
    assert_eq!(select_progressing_candidate(&[], &[]), None);
}

#[test]
fn find_unique_counts_occurrences() {
    assert_eq!(find_unique(b"xxabcxx", b"abc"), Ok(2));
    assert_eq!(find_unique(b"xxxxxxx", b"abc"), Err(0));
    assert_eq!(find_unique(b"abc abc abc", b"abc"), Err(3));
    assert_eq!(find_unique(b"ab", b"abc"), Err(0));
    assert_eq!(find_unique(b"", b"abc"), Err(0));
    assert_eq!(find_unique(b"abc", b"abc"), Ok(0));
}

#[test]
fn find_unique_matches_at_both_extremes() {
    let mut haystack = vec![b'.'; 64];
    haystack[0..3].copy_from_slice(b"abc");
    assert_eq!(find_unique(&haystack, b"abc"), Ok(0));

    let mut haystack = vec![b'.'; 64];
    haystack[61..64].copy_from_slice(b"abc");
    assert_eq!(find_unique(&haystack, b"abc"), Ok(61));
}

#[test]
fn find_unique_rejects_a_trailing_needle_prefix() {
    let mut haystack = vec![b'.'; 64];
    haystack[62..64].copy_from_slice(b"ab");
    assert_eq!(find_unique(&haystack, b"abc"), Err(0));
}

#[test]
fn find_unique_rejects_first_byte_hits_that_do_not_match() {
    // Every position carries the needle's first byte, so the whole scan
    // reaches the comparison and only one position may survive it.
    let mut haystack = vec![b'a'; 1024];
    haystack[500..503].copy_from_slice(b"abc");
    assert_eq!(find_unique(&haystack, b"abc"), Ok(500));
}

#[test]
fn find_unique_rejects_a_borrow_flagged_lane() {
    // 'c' is 'b' ^ 1, so the lane after a matching 'b' is flagged by the
    // word-at-a-time search without holding the needle's first byte. If
    // that flag were trusted, the trailing "aa" would make this resolve to
    // offset 7, where no needle begins.
    assert_eq!(find_unique(b"xxxxxxbcaa", b"baa"), Err(0));
    assert_eq!(find_unique(b"xxxxxbccaa", b"baa"), Err(0));
}

#[test]
fn find_unique_spans_chunk_boundaries_and_the_tail() {
    for start in 0..16usize {
        let mut haystack = vec![b'.'; 45];
        haystack[start..start + 5].copy_from_slice(b"abcde");
        assert_eq!(find_unique(&haystack, b"abcde"), Ok(start));
    }
    let mut haystack = vec![b'.'; 45];
    haystack[40..45].copy_from_slice(b"abcde");
    assert_eq!(find_unique(&haystack, b"abcde"), Ok(40));
}

#[test]
fn an_empty_needle_occurs_nowhere() {
    assert_eq!(find_unique(b"abc", b""), Err(0));
}

#[test]
fn complete_object_locators_are_found_in_ascending_order() {
    let image = synthetic_loaded_image();
    assert_eq!(
        find_complete_object_locators(&image, 0x2ff0),
        vec![(0x2100, 0), (0x2120, 8)]
    );
}

#[test]
fn byte_searches_agree_with_a_plain_scan() {
    let haystack: Vec<u8> = (0..200u32).map(|value| (value * 7 % 11) as u8).collect();
    for needle in 0..12u8 {
        let expected: Vec<usize> = (0..haystack.len())
            .filter(|&index| haystack[index] == needle)
            .collect();
        assert_eq!(byte_offsets(&haystack, needle), expected);
    }
}

#[test]
fn words_are_found_at_aligned_offsets_only() {
    let mut bytes = vec![0u8; 40];
    put_u64(&mut bytes, 8, 0x0102_0304_0506_0708);
    put_u64(&mut bytes, 20, 0x0102_0304_0506_0708);
    put_u64(&mut bytes, 32, 0x0102_0304_0506_0708);
    assert_eq!(find_u64(&bytes, 0x0102_0304_0506_0708), vec![8, 32]);
}

#[test]
fn reads_are_little_endian_and_stop_at_the_end() {
    let bytes = [1, 2, 3, 4, 5, 6, 7, 8, 9];
    assert_eq!(read_u16(&bytes, 1), Some(0x0302));
    assert_eq!(read_u32(&bytes, 1), Some(0x0504_0302));
    assert_eq!(read_u64(&bytes, 1), Some(0x0908_0706_0504_0302));
    assert_eq!(read_u16(&bytes, 8), None);
    assert_eq!(read_u32(&bytes, 6), None);
    assert_eq!(read_u64(&bytes, 2), None);
    assert_eq!(read_u64(&bytes, usize::MAX), None);
}

fn resolve_error(image: &[u8]) -> ResolveError {
    resolve_recovery_layout(TEST_BASE, image).unwrap_err()
}

#[test]
fn every_header_fault_has_its_reason() {
    let good = synthetic_loaded_image();
    assert_eq!(resolve_error(&[]), ResolveError::InvalidPe("DOS signature is missing"));
    assert_eq!(
        resolve_error(&good[..0x20]),
        ResolveError::InvalidPe("DOS header is truncated")
    );
    let mut image = good.clone();
    put_u32(&mut image, 0x80, 0);
    assert_eq!(resolve_error(&image), ResolveError::InvalidPe("NT signature is missing"));
    assert_eq!(
        resolve_error(&good[..0x86]),
        ResolveError::InvalidPe("COFF header is truncated")
    );
    let mut image = good.clone();
    put_u16(&mut image, 0x98, 0x10b);
    assert_eq!(resolve_error(&image), ResolveError::InvalidPe("image is not PE32+"));
    assert_eq!(
        resolve_error(&good[..0x98 + 56]),
        ResolveError::InvalidPe("optional header is truncated")
    );
    let mut image = good.clone();
    put_u32(&mut image, 0x98 + 56, 0x5001);
    assert_eq!(
        resolve_error(&image),
        ResolveError::InvalidPe("snapshot is shorter than SizeOfImage")
    );
    let mut image = good.clone();
    put_u16(&mut image, 0x94, 0xffff);
    assert_eq!(
        resolve_error(&image),
        ResolveError::InvalidPe("section table is truncated")
    );
    let mut image = good.clone();
    put_u32(&mut image, 0x188 + 36, 0x4000_0040);
    assert_eq!(
        resolve_error(&image),
        ResolveError::InvalidPe("image has no executable section")
    );
}

#[test]
fn ambiguity_in_each_stage_is_an_error() {
    let good = synthetic_loaded_image();
    let mut image = good.clone();
    image[0x3000] = b'x';
    assert_eq!(resolve_error(&image), ResolveError::RttiNameCount(0));
    let mut image = good.clone();
    image[0x4000..0x4000 + HID_THREAD_RTTI_NAME.len()].copy_from_slice(HID_THREAD_RTTI_NAME);
    assert_eq!(resolve_error(&image), ResolveError::RttiNameCount(2));
    let mut image = good.clone();
    put_u32(&mut image, 0x2100, 2);
    put_u32(&mut image, 0x2120, 2);
    assert_eq!(resolve_error(&image), ResolveError::CompleteObjectLocatorNotFound);
    let mut image = good.clone();
    put_u64(&mut image, 0x2308, 0);
    assert_eq!(resolve_error(&image), ResolveError::VtableNotUnique("primary"));
    let mut image = good.clone();
    image[0x1300] = 0xc3;
    assert_eq!(resolve_error(&image), ResolveError::SchedulerNotUnique(0));
    let mut image = good;
    image[0x1400..0x1400 + SCHEDULER.len()].copy_from_slice(&SCHEDULER);
    put_u64(&mut image, 0x2420, (TEST_BASE + 0x1400) as u64);
    assert_eq!(resolve_error(&image), ResolveError::SchedulerNotUnique(2));
}

#[test]
fn a_name_at_the_very_start_has_no_descriptor() {
    // The headers are laid out around a name that begins below the descriptor's
    // own header.
    let mut image = synthetic_loaded_image();
    image[0x3000] = b'x';
    image[8..8 + HID_THREAD_RTTI_NAME.len()].copy_from_slice(HID_THREAD_RTTI_NAME);
    assert_eq!(
        resolve_error(&image),
        ResolveError::InvalidPe("RTTI type descriptor underflow")
    );
}

#[test]
fn a_module_beyond_the_address_space_is_refused() {
    let image = synthetic_loaded_image();
    assert_eq!(
        resolve_recovery_layout(usize::MAX - 0x1000, &image).unwrap_err(),
        ResolveError::InvalidPe("module address overflow")
    );
}

#[test]
fn resolve_errors_speak_for_themselves() {
    assert_eq!(
        ResolveError::InvalidPe("why").message(),
        "invalid steamclient PE image: why"
    );
    assert_eq!(
        ResolveError::RttiNameCount(3).message(),
        "CHIDIOThread RTTI name was expected once, but occurred 3 times"
    );
    assert_eq!(
        ResolveError::CompleteObjectLocatorNotFound.message(),
        "CHIDIOThread RTTI has no valid MSVC complete-object locator"
    );
    assert_eq!(
        ResolveError::VtableNotUnique("primary").message(),
        "CHIDIOThread primary vtable was not unique"
    );
    assert_eq!(
        ResolveError::SchedulerNotUnique(12).message(),
        "controller discovery scheduler was expected once, but matched 12 methods"
    );
}

#[test]
fn sections_clamp_and_drop_what_does_not_fit() {
    let mut image = synthetic_loaded_image();
    put_u32(&mut image, 0x188 + 40 + 12, 0xffff_f000);
    assert_eq!(
        parse_pe_sections(&image).unwrap(),
        vec![PeSection { start: 0x1000, end: 0x2000, executable: true }]
    );
}

#[test]
fn executable_addresses_lie_in_executable_sections() {
    let sections = [
        PeSection { start: 0x1000, end: 0x1100, executable: true },
        PeSection { start: 0x1080, end: 0x2000, executable: true },
        PeSection { start: 0x3000, end: 0x4000, executable: false },
    ];
    assert!(rva_is_executable(&sections, 0x10ff));
    assert!(!rva_is_executable(&sections, 0x3000));
    assert_eq!(executable_end(&sections, 0x1090), Some(0x1100));
    assert_eq!(executable_end(&sections, 0x1100), Some(0x2000));
    assert_eq!(executable_end(&sections, 0x2000), None);
}

#[test]
fn vtables_follow_the_references_to_their_locators() {
    let image = synthetic_loaded_image();
    let sections = parse_pe_sections(&image).unwrap();
    let locators = find_complete_object_locators(&image, 0x2ff0);
    let vtables = find_vtables(TEST_BASE, &image, &sections, &locators).unwrap();
    let primary = VtableCandidate { object_offset: 0, vtable_rva: 0x2308 };
    let secondary = VtableCandidate { object_offset: 8, vtable_rva: 0x2408 };
    assert_eq!(vtables, vec![primary, secondary]);
    assert_eq!(unique_vtable(&vtables, 0), Some(primary));
    assert_eq!(unique_vtable(&vtables, 16), None);
    assert_eq!(unique_vtable(&[primary, primary], 0), None);
    assert!(vtable_has_executable_entry(TEST_BASE, &image, &sections, 0x2308));
    assert!(!vtable_has_executable_entry(TEST_BASE, &image, &sections, 0x2300));
    assert_eq!(
        find_scheduler_layouts(TEST_BASE, &image, &sections, &vtables, primary).len(),
        1
    );
}

fn plain() -> DecodedInstruction {
    DecodedInstruction {
        length: 1,
        mnemonic: 0,
        operand_count: 0,
        kind0: KIND_REGISTER,
        kind1: KIND_REGISTER,
        immediate1: None,
        base: 0,
        index: 0,
        displacement: 0,
        ip_relative: false,
    }
}

fn load(displacement: u64) -> DecodedInstruction {
    DecodedInstruction {
        mnemonic: MNEMONIC_MOVSD,
        operand_count: 2,
        kind1: KIND_MEMORY,
        base: 5,
        displacement,
        ..plain()
    }
}

fn store(displacement: u64) -> DecodedInstruction {
    DecodedInstruction {
        mnemonic: MNEMONIC_MOVSD,
        operand_count: 2,
        kind0: KIND_MEMORY,
        base: 5,
        displacement,
        ..plain()
    }
}

fn increment(displacement: u64) -> DecodedInstruction {
    DecodedInstruction {
        mnemonic: MNEMONIC_INC,
        operand_count: 1,
        kind0: KIND_MEMORY,
        base: 5,
        displacement,
        ..plain()
    }
}

fn fields(deadline: u32, counter: u32) -> Option<SchedulerFields> {
    Some(SchedulerFields {
        deadline_from_secondary: deadline,
        counter_from_secondary: counter,
    })
}

#[test]
fn an_added_one_counts_as_an_increment() {
    let mut added = increment(0x40);
    added.mnemonic = MNEMONIC_ADD;
    added.operand_count = 2;
    added.kind1 = KIND_IMMEDIATE8;
    added.immediate1 = Some(1);
    assert_eq!(scheduler_fields(&[load(8), added, store(8)]), fields(8, 0x40));
    added.immediate1 = Some(2);
    assert_eq!(scheduler_fields(&[load(8), added, store(8)]), None);
    added.immediate1 = Some(1);
    added.kind1 = KIND_IMMEDIATE8_SECOND;
    assert_eq!(scheduler_fields(&[load(8), added, store(8)]), None);
}

#[test]
fn the_sequence_must_be_close_and_aligned() {
    let mut code = vec![load(8), increment(0x40)];
    code.extend(std::iter::repeat(plain()).take(7));
    code.push(store(8));
    assert_eq!(scheduler_fields(&code), fields(8, 0x40));
    code.insert(2, plain());
    assert_eq!(scheduler_fields(&code), None);

    let mut code = vec![load(8)];
    code.extend(std::iter::repeat(plain()).take(47));
    code.extend([increment(0x40), store(8)]);
    assert_eq!(scheduler_fields(&code), fields(8, 0x40));
    code.insert(1, plain());
    assert_eq!(scheduler_fields(&code), None);

    assert_eq!(scheduler_fields(&[load(12), increment(0x40), store(12)]), None);
    assert_eq!(
        scheduler_fields(&[load(0x2_0000), increment(0x2_0000), store(0x2_0000)]),
        fields(0x2_0000, 0x2_0000)
    );
    assert_eq!(
        scheduler_fields(&[load(0x2_0008), increment(0x40), store(0x2_0008)]),
        None
    );
}

#[test]
fn other_bases_and_indexed_operands_do_not_count() {
    let mut other = store(8);
    other.base = 6;
    assert_eq!(scheduler_fields(&[load(8), increment(0x40), other]), None);
    let mut indexed = increment(0x40);
    indexed.index = 3;
    assert_eq!(scheduler_fields(&[load(8), indexed, store(8)]), None);
    let mut relative = increment(0x40);
    relative.ip_relative = true;
    assert_eq!(scheduler_fields(&[load(8), relative, store(8)]), None);
    assert_eq!(scheduler_fields(&[store(8), increment(0x40), load(8)]), None);
}

#[test]
fn two_different_schedulers_are_ambiguous() {
    let twice = [
        load(8),
        increment(0x40),
        store(8),
        load(16),
        increment(0x44),
        store(16),
    ];
    assert_eq!(scheduler_fields(&twice), None);
    let repeated = [load(8), increment(0x40), store(8), increment(0x40), store(8)];
    assert_eq!(scheduler_fields(&repeated), fields(8, 0x40));
}

#[test]
fn numbers_are_those_of_the_decoder() {
    assert_eq!(MNEMONIC_ADD, iced_x86::Mnemonic::Add as u32);
    assert_eq!(MNEMONIC_INC, iced_x86::Mnemonic::Inc as u32);
    assert_eq!(MNEMONIC_MOVSD, iced_x86::Mnemonic::Movsd as u32);
    assert_eq!(MNEMONIC_RET, iced_x86::Mnemonic::Ret as u32);
    assert_eq!(KIND_REGISTER, iced_x86::OpKind::Register as u32);
    assert_eq!(KIND_IMMEDIATE8, iced_x86::OpKind::Immediate8 as u32);
    assert_eq!(KIND_IMMEDIATE8_SECOND, iced_x86::OpKind::Immediate8_2nd as u32);
    assert_eq!(KIND_IMMEDIATE32_TO64, iced_x86::OpKind::Immediate32to64 as u32);
    assert_eq!(KIND_MEMORY, iced_x86::OpKind::Memory as u32);
    assert_eq!(NO_REGISTER, iced_x86::Register::None as u32);
}

#[test]
fn decoding_stops_at_the_first_return() {
    let mut image = vec![0x90u8; 0x200];
    image[0x100] = 0xc3;
    image[0x101..0x101 + SCHEDULER.len()].copy_from_slice(&SCHEDULER);
    let sections = [PeSection { start: 0x100, end: 0x200, executable: true }];
    assert_eq!(analyze_scheduler_method(TEST_BASE, &image, &sections, 0x100), None);
    assert_eq!(
        analyze_scheduler_method(TEST_BASE, &image, &sections, 0x101),
        fields(0x80, 0xa0)
    );
    assert_eq!(analyze_scheduler_method(TEST_BASE, &image, &sections, 0x80), None);
    assert_eq!(
        analyze_scheduler_method(usize::MAX - 0x80, &image, &sections, 0x101),
        None
    );
}

#[test]
fn a_decoded_add_of_one_is_recognized() {
    // movsd xmm0,[rbx+10h]; add dword ptr [rbx+20h],1; movsd [rbx+10h],xmm0; ret
    let code = [
        0xf2, 0x0f, 0x10, 0x43, 0x10, 0x83, 0x43, 0x20, 0x01, 0xf2, 0x0f, 0x11, 0x43, 0x10, 0xc3,
    ];
    let sections = [PeSection { start: 0, end: 15, executable: true }];
    assert_eq!(
        analyze_scheduler_method(TEST_BASE, &code, &sections, 0),
        fields(0x10, 0x20)
    );
    // The same with an index register in the increment.
    let indexed = [
        0xf2, 0x0f, 0x10, 0x43, 0x10, 0x83, 0x44, 0x0b, 0x20, 0x01, 0xf2, 0x0f, 0x11, 0x43, 0x10,
        0xc3,
    ];
    let sections = [PeSection { start: 0, end: 16, executable: true }];
    assert_eq!(analyze_scheduler_method(TEST_BASE, &indexed, &sections, 0), None);
}

#[test]
fn decoding_survives_bytes_that_are_no_code() {
    let image = vec![0xffu8; 0x40];
    let sections = [PeSection { start: 0, end: 0x40, executable: true }];
    assert_eq!(analyze_scheduler_method(TEST_BASE, &image, &sections, 0), None);
    // A method that ends inside an instruction.
    let cut = [0xf2, 0x41, 0x0f];
    let sections = [PeSection { start: 0, end: 3, executable: true }];
    assert_eq!(analyze_scheduler_method(TEST_BASE, &cut, &sections, 0), None);
}

#[test]
fn an_election_elects_the_candidate_that_moves() {
    let first = vec![sample(1.0, 1), sample(2.0, 2)];
    let mut election = Election::begin(vec![0x1000, 0x2000], Some(first.clone())).unwrap();
    assert!(matches!(election.poll(0), ElectionStep::Observe));
    assert!(matches!(election.poll(1499), ElectionStep::Observe));
    assert!(matches!(election.poll(1500), ElectionStep::Ambiguous));
    assert!(election.observe(Some(first)).is_none());
    assert!(matches!(
        election.observe(Some(vec![sample(1.0, 1), sample(2.0, 3)])),
        Some(ElectionStep::Elected(0x2000))
    ));
    assert!(matches!(election.observe(None), Some(ElectionStep::Unreadable)));
    assert!(matches!(
        Election::begin(vec![1], None),
        Err(ElectionStep::Unreadable)
    ));
}

#[test]
fn one_unreadable_candidate_spoils_an_observation() {
    let one = sample(1.0, 1);
    assert_eq!(sample_candidates(&vec![Some(one), Some(one)]), Some(vec![one, one]));
    assert_eq!(sample_candidates(&vec![Some(one), None]), None);
}

#[test]
fn undecided_elections_explain_themselves() {
    let before = [sample(1.0, 7), sample(0.0, 5)];
    let after = [sample(1.0, 7), sample(0.0, 6)];
    let movement = describe_candidate_movement(&[0x1a0, 0x2b0, 0x3c0], &before, &after);
    assert_eq!(
        movement,
        "0x1a0: deadline 0x3ff0000000000000->0x3ff0000000000000 counter 7->7 still; \
         0x2b0: deadline 0x0000000000000000->0x0000000000000000 counter 5->6 MOVED; \
         0x3c0: unsampled"
    );
    assert_eq!(
        ambiguous_candidates(&[0x1a0], &before[..1], &after[..1]),
        "runtime RTTI resolved, but 1 live CHIDIOThread candidates were ambiguous and none could \
         be elected by observing discovery scheduling [0x1a0: deadline \
         0x3ff0000000000000->0x3ff0000000000000 counter 7->7 still]"
    );
    assert_eq!(
        unreadable_candidates(4),
        "runtime RTTI resolved, but a CHIDIOThread candidate among 4 became unreadable during the \
         discovery-scheduling election"
    );
}
