//! Handle classification, hook installation and handle revocation.

use steam_input_lease::handles::{
    denies_open, handle_hash, may_ask_for_attributes, names_file_type, narrow_has_hid_prefix,
    native_has_hid_prefix, probed_class, wide_ascii_eq, wide_has_hid_prefix, HandleClass,
    HandleDecision, HandleTable, FILE_TYPE_DISK, FILE_TYPE_PIPE, FILE_TYPE_UNKNOWN,
    HANDLE_TABLE_SIZE, INVALID_HANDLE,
};
use steam_input_lease::hooks::{
    install_hooks, process_handle_entries, queue_hook, system_handle_entries, xinput_hook,
    xinput_module, ExportKey, HookEvent, HookStage, OpenHandle, QueryStep, QueueOutcome,
    RequiredHook, Revocation, RevokeStep, SizedQuery, REQUIRED_HOOKS,
    STATUS_INFO_LENGTH_MISMATCH, XINPUT_MODULES,
};

fn wide(text: &str) -> Vec<u16> {
    text.encode_utf16().collect()
}

#[test]
fn remembered_handles_are_found_until_forgotten() {
    let mut table = HandleTable::new();
    assert_eq!(table.lookup_handle(0x44), HandleClass::Unknown);
    table.remember_handle(0x44, HandleClass::Hid);
    table.remember_handle(0x48, HandleClass::Other);
    assert_eq!(table.lookup_handle(0x44), HandleClass::Hid);
    assert_eq!(table.lookup_handle(0x48), HandleClass::Other);
    assert_eq!(table.hid_handle_count(), 1);
    table.remember_handle(0x48, HandleClass::Hid);
    assert_eq!(table.hid_handle_count(), 2);
    table.remember_handle(0x44, HandleClass::Other);
    assert_eq!(table.hid_handle_count(), 1);
    table.forget_handle(0x48);
    table.forget_handle(0x48);
    assert_eq!(table.lookup_handle(0x48), HandleClass::Unknown);
    assert_eq!(table.hid_handle_count(), 0);
}

#[test]
fn values_that_are_no_handles_are_other_and_never_kept() {
    let mut table = HandleTable::new();
    for value in [0, 1, INVALID_HANDLE] {
        table.remember_handle(value, HandleClass::Hid);
        assert_eq!(table.lookup_handle(value), HandleClass::Other);
        table.forget_handle(value);
    }
    assert_eq!(table.hid_handle_count(), 0);
}

#[test]
fn hashes_stay_in_the_table_and_have_known_values() {
    // value >> 2, folded, multiplied and folded again.
    fn expected(handle: usize) -> usize {
        let mut value = handle >> 2;
        value ^= value >> 17;
        value = value.wrapping_mul(0xed5a_d4bb);
        value ^= value >> 11;
        value % HANDLE_TABLE_SIZE
    }
    for handle in [4usize, 8, 0x1234, 0xffff_fffc, 0x7fff_ffff_fffc] {
        assert_eq!(handle_hash(handle), expected(handle));
    }
}

#[test]
fn colliding_handles_share_a_window_and_a_full_window_drops_the_rest() {
    let mut same: Vec<usize> = Vec::new();
    let mut handle = 4usize;
    while same.len() < 17 {
        if handle_hash(handle) == handle_hash(4) {
            same.push(handle);
        }
        handle += 4;
    }
    let mut table = HandleTable::new();
    for &handle in &same {
        table.remember_handle(handle, HandleClass::Hid);
    }
    assert_eq!(table.hid_handle_count(), 16);
    assert_eq!(table.lookup_handle(same[15]), HandleClass::Hid);
    assert_eq!(table.lookup_handle(same[16]), HandleClass::Unknown);
    // A removed entry keeps the ones behind it reachable and makes room.
    table.forget_handle(same[3]);
    assert_eq!(table.lookup_handle(same[15]), HandleClass::Hid);
    table.remember_handle(same[16], HandleClass::Other);
    assert_eq!(table.lookup_handle(same[16]), HandleClass::Other);
    assert_eq!(table.hid_handle_count(), 15);
}

#[test]
fn forgetting_takes_back_one_handle() {
    let mut table = HandleTable::new();
    table.remember_handle(0x44, HandleClass::Hid);
    table.remember_handle(0x48, HandleClass::Hid);
    table.remember_handle(0x4c, HandleClass::Other);
    // Neither an untracked handle nor one of another kind counts.
    table.forget_handle(0x50);
    assert_eq!(table.hid_handle_count(), 2);
    table.forget_handle(0x4c);
    assert_eq!(table.lookup_handle(0x4c), HandleClass::Unknown);
    assert_eq!(table.hid_handle_count(), 2);
    table.forget_handle(0x44);
    assert_eq!(table.lookup_handle(0x44), HandleClass::Unknown);
    assert_eq!(table.lookup_handle(0x48), HandleClass::Hid);
    assert_eq!(table.hid_handle_count(), 1);
}

#[test]
fn remembering_replaces_one_handle() {
    let mut table = HandleTable::new();
    table.remember_handle(0x44, HandleClass::Hid);
    table.remember_handle(0x48, HandleClass::Other);
    table.remember_handle(0x44, HandleClass::Hid);
    assert_eq!(table.hid_handle_count(), 1);
    table.remember_handle(0x44, HandleClass::Other);
    assert_eq!(table.lookup_handle(0x44), HandleClass::Other);
    assert_eq!(table.lookup_handle(0x48), HandleClass::Other);
    assert_eq!(table.hid_handle_count(), 0);
    table.remember_handle(0x48, HandleClass::Hid);
    assert_eq!(table.lookup_handle(0x44), HandleClass::Other);
    assert_eq!(table.hid_handle_count(), 1);
}

#[test]
fn only_hid_handles_are_denied_and_only_while_blocking() {
    let mut table = HandleTable::new();
    table.remember_handle(0x44, HandleClass::Hid);
    table.remember_handle(0x48, HandleClass::Other);
    assert_eq!(table.should_deny(0x44, true, false), HandleDecision::Deny);
    assert_eq!(table.should_deny(0x44, false, false), HandleDecision::Forward);
    assert_eq!(table.should_deny(0x44, true, true), HandleDecision::Forward);
    assert_eq!(table.should_deny(0x48, true, false), HandleDecision::Forward);
    assert_eq!(table.should_deny(0x4c, true, false), HandleDecision::Probe);
    assert_eq!(table.decide_probed(0x4c, HandleClass::Hid), HandleDecision::Deny);
    assert_eq!(table.should_deny(0x4c, true, false), HandleDecision::Deny);
    assert_eq!(table.decide_probed(0x50, HandleClass::Other), HandleDecision::Forward);
    assert_eq!(table.should_deny(1, true, false), HandleDecision::Forward);
}

#[test]
fn forwarded_opens_of_hid_paths_are_tracked() {
    let mut table = HandleTable::new();
    table.record_open(true, Some(0x60));
    table.record_open(false, Some(0x64));
    table.record_open(true, None);
    table.record_open(true, Some(INVALID_HANDLE));
    assert_eq!(table.lookup_handle(0x60), HandleClass::Hid);
    assert_eq!(table.lookup_handle(0x64), HandleClass::Unknown);
    assert_eq!(table.hid_handle_count(), 1);
    assert!(denies_open(true, true));
    assert!(!denies_open(true, false));
    assert!(!denies_open(false, true));
}

#[test]
fn hid_paths_are_recognized_in_every_notation() {
    assert!(wide_has_hid_prefix(&wide(r"\\?\hid#vid_054c")));
    assert!(wide_has_hid_prefix(&wide(r"\\.\HID#x")));
    assert!(!wide_has_hid_prefix(&wide(r"\\!\hid#x")));
    assert!(!wide_has_hid_prefix(&wide(r"\\?\hi")));
    assert!(!wide_has_hid_prefix(&wide(r"C:\hid")));
    // Letters are compared by their low byte.
    assert!(wide_has_hid_prefix(&[92, 92, 63, 92, 0x168, 105, 100]));
    assert!(!wide_has_hid_prefix(&[92, 92, 0x13f, 92, 104, 105, 100]));
    assert!(narrow_has_hid_prefix(br"\\?\Hid#x"));
    assert!(!narrow_has_hid_prefix(br"\\?\usb#x"));
    assert!(native_has_hid_prefix(&wide(r"\??\hid#x")));
    assert!(native_has_hid_prefix(&wide(r"\\?\HID#x")));
    assert!(!native_has_hid_prefix(&wide(r"\\.\hid#x")));
    assert!(!native_has_hid_prefix(&wide(r"\??\hi")));
}

#[test]
fn file_objects_are_told_by_their_type_name() {
    assert!(names_file_type(&wide("File")));
    assert!(names_file_type(&wide("FILE")));
    assert!(!names_file_type(&wide("Files")));
    assert!(!names_file_type(&wide("Key")));
    assert!(wide_ascii_eq(&wide("AbC"), &wide("aBc")));
    assert!(!wide_ascii_eq(&wide("abc"), &wide("abd")));
}

#[test]
fn disks_and_pipes_are_never_asked_for_attributes() {
    assert!(!may_ask_for_attributes(FILE_TYPE_DISK, 0));
    assert!(!may_ask_for_attributes(FILE_TYPE_PIPE, 0));
    assert!(!may_ask_for_attributes(FILE_TYPE_UNKNOWN, 6));
    assert!(may_ask_for_attributes(FILE_TYPE_UNKNOWN, 0));
    assert!(may_ask_for_attributes(2, 0));
    assert_eq!(probed_class(Some(true)), HandleClass::Hid);
    assert_eq!(probed_class(Some(false)), HandleClass::Other);
    assert_eq!(probed_class(None), HandleClass::Other);
}

fn installation(mut fails: impl FnMut(HookStage) -> bool) -> (Vec<HookStage>, bool) {
    let mut stages = vec![HookStage::Initializing];
    loop {
        let stage = *stages.last().unwrap();
        if let HookStage::Finished(installed) = stage {
            return (stages, installed);
        }
        let event = if fails(stage) { HookEvent::Failed } else { HookEvent::Succeeded };
        stages.push(install_hooks(stage, event));
    }
}

#[test]
fn an_installation_queues_everything_before_applying() {
    let (stages, installed) = installation(|_| false);
    assert!(installed);
    let applying = stages.iter().position(|&stage| stage == HookStage::Applying).unwrap();
    let required = stages
        .iter()
        .filter(|&&stage| matches!(stage, HookStage::Required(_, false)))
        .count();
    let optional = stages
        .iter()
        .filter(|&&stage| matches!(stage, HookStage::Optional(_, _)))
        .count();
    assert_eq!((required, optional), (9, 20));
    assert_eq!(applying, stages.len() - 2);
    assert!(!stages.contains(&HookStage::Undoing));
}

#[test]
fn a_missing_required_hook_undoes_the_installation() {
    let (stages, installed) = installation(|stage| matches!(stage, HookStage::Required(3, _)));
    assert!(!installed);
    assert!(!stages.contains(&HookStage::Applying));
    assert!(stages.contains(&HookStage::Required(8, true)));
    assert_eq!(stages[stages.len() - 2], HookStage::Undoing);
}

#[test]
fn missing_modules_and_optional_hooks_are_passed_over() {
    let (stages, installed) =
        installation(|stage| matches!(stage, HookStage::LoadingXInput(1) | HookStage::Optional(2, 0)));
    assert!(installed);
    assert!(!stages.contains(&HookStage::Optional(1, 0)));
    assert!(stages.contains(&HookStage::Optional(2, 3)));
}

#[test]
fn every_other_failure_undoes_what_was_set_up() {
    let (stages, installed) = installation(|stage| stage == HookStage::Initializing);
    assert!(!installed);
    assert!(!stages.contains(&HookStage::Undoing));
    for failing in [HookStage::Locating, HookStage::Resolving, HookStage::Applying] {
        let (stages, installed) = installation(|stage| stage == failing);
        assert!(!installed);
        assert!(stages.contains(&HookStage::Undoing));
    }
}

#[test]
fn hook_tables_name_their_functions() {
    let names: Vec<&str> = (0..REQUIRED_HOOKS).map(|index| RequiredHook::at(index).export()).collect();
    assert_eq!(
        names,
        vec![
            "CreateFileW",
            "CreateFileA",
            "CreateFile2",
            "NtReadFile",
            "NtWriteFile",
            "NtDeviceIoControlFile",
            "NtClose",
            "NtCreateFile",
            "NtOpenFile"
        ]
    );
    assert!(RequiredHook::CreateFile2.in_kernel32());
    assert!(!RequiredHook::NtClose.in_kernel32());
    let modules: Vec<&str> = (0..XINPUT_MODULES).map(xinput_module).collect();
    assert_eq!(
        modules,
        vec![
            "xinput1_4.dll",
            "xinput1_3.dll",
            "xinput1_2.dll",
            "xinput1_1.dll",
            "xinput9_1_0.dll"
        ]
    );
    assert_eq!(xinput_hook(1), ExportKey::Ordinal(100));
    assert_eq!(xinput_hook(3), ExportKey::Ordinal(108));
    assert!(queue_hook(QueueOutcome::Absent, false));
    assert!(!queue_hook(QueueOutcome::NotCreated, true));
    assert!(!queue_hook(QueueOutcome::Created(false), false));
    assert!(queue_hook(QueueOutcome::Created(true), true));
}

#[test]
fn handle_queries_grow_until_the_reply_fits() {
    let mut query = SizedQuery::new(1001);
    assert_eq!(query.words(), Some(126));
    assert_eq!(query.query_until_sized(STATUS_INFO_LENGTH_MISMATCH, 5000), QueryStep::Retry);
    assert_eq!(query.capacity, 5000 + 65536);
    assert_eq!(query.query_until_sized(STATUS_INFO_LENGTH_MISMATCH, 10), QueryStep::Retry);
    assert_eq!(query.capacity, 2 * (5000 + 65536));
    assert_eq!(query.query_until_sized(0, 0), QueryStep::Accept);
    assert_eq!(query.query_until_sized(-1, 0), QueryStep::Reject);
    assert_eq!(query.query_until_sized(STATUS_INFO_LENGTH_MISMATCH, 0), QueryStep::Retry);
    assert_eq!(query.query_until_sized(STATUS_INFO_LENGTH_MISMATCH, 0), QueryStep::Retry);
    assert_eq!(query.words(), None);
    assert_eq!(SizedQuery::new(0x4000_0001).words(), None);
    assert_eq!(STATUS_INFO_LENGTH_MISMATCH, 0xC000_0004u32 as i32);
}

#[test]
fn handle_replies_are_read_by_their_layout() {
    let own = [2, 0, 0x44, 1, 1, 0x0000_0025_0012_019f, 0, 0x48, 1, 1, 0x0000_0026_0000_0000, 0];
    assert_eq!(
        process_handle_entries(&own),
        Some(vec![
            OpenHandle { handle: 0x44, object_type: 0x25 },
            OpenHandle { handle: 0x48, object_type: 0x26 }
        ])
    );
    // A reported count beyond the reply is cut to what fits.
    let mut short = own[..7].to_vec();
    short[0] = 1000;
    assert_eq!(process_handle_entries(&short).unwrap().len(), 1);
    assert_eq!(process_handle_entries(&[0, 0]), None);
    assert_eq!(process_handle_entries(&[7]), None);
    let system = [
        2,
        0,
        0xdead,
        42,
        0x44,
        0x0025_0000_0012_019f,
        0,
        0xbeef,
        43,
        0x48,
        0x0025_0000_0012_019f,
        0,
    ];
    assert_eq!(
        system_handle_entries(&system, 42),
        Some(vec![OpenHandle { handle: 0x44, object_type: 0x25 }])
    );
    assert_eq!(system_handle_entries(&system, 44), None);
}

#[test]
fn revocation_learns_the_file_type_from_the_first_file() {
    let mut revocation = Revocation::new();
    assert_eq!(revocation.examine(3), RevokeStep::AskType);
    assert_eq!(revocation.type_known(3, false), RevokeStep::Skip);
    assert_eq!(revocation.examine(5), RevokeStep::AskType);
    assert_eq!(revocation.type_known(5, true), RevokeStep::Probe);
    assert_eq!(revocation.examine(3), RevokeStep::Skip);
    assert_eq!(revocation.examine(5), RevokeStep::Probe);
    assert!(revocation.must_close(HandleClass::Hid));
    assert!(!revocation.must_close(HandleClass::Other));
    revocation.closed(true);
    revocation.closed(false);
    assert_eq!(revocation.revoked, 1);
}
