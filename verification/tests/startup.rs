//! The payload's start, its stand-in exports and rediscovery.

use steam_input_lease::paths::{join, parent, with_extension};
use steam_input_lease::proxy::{
    classify_image, classify_vector, export_definition, forward_call, is_self, module_path_step,
    system_module_path, Bootstrap, ForwardDecision, Forwarding, PathStep, ProxyExport, Vector,
    EXPORT_COUNT, NAMED_EXPORT_COUNT,
};
use steam_input_lease::rediscovery::{
    arrival_delivered, notify_controller_rescan, refresh_sdl_hidapi_devices, RescanStage,
    RescanTimer, SdlStage, TimerStep,
};
use steam_input_lease::startup::{
    begin_server, client_connected, control_pipe_sddl, deployment_stamp, forwarding_report,
    is_trace_name, load_report, plausible_sid_length, process_attach, prune_old_traces,
    scoped_pipe_sddl, server_thread, token_information_size, trace_descriptor, trace_directory,
    trace_exports, trace_forwarding, trace_header, trace_line, trace_marks, trace_path,
    AttachStage, ServerStage, ATTACH_ENTERED, PIN_FAILED, PIN_SUCCEEDED, SELF_RECORDED,
    SERVER_EXIT_CODE, WORKER_CREATE_FAILED, WORKER_REQUESTED,
};
use steam_input_lease::text::{decode_wide, encode_wide};

const SAMPLE_OWNER: &str = "S-1-5-21-1111111111-2222222222-3333333333-1001";

fn wide(text: &str) -> Vec<u16> {
    text.encode_utf16().collect()
}

fn narrow(units: &[u16]) -> String {
    String::from_utf16_lossy(units)
}

#[test]
fn control_pipe_sddl_grants_system_administrators_and_the_token_owner() {
    assert_eq!(
        control_pipe_sddl(SAMPLE_OWNER),
        "D:(A;;FA;;;SY)(A;;FA;;;BA)(A;;FA;;;S-1-5-21-1111111111-2222222222-3333333333-1001)"
    );
}

#[test]
fn control_pipe_sddl_drops_the_default_everyone_and_anonymous_read_aces() {
    let sddl = control_pipe_sddl(SAMPLE_OWNER);
    assert!(!sddl.contains(";WD)"), "Everyone survived the scoped DACL: {sddl}");
    assert!(!sddl.contains(";AN)"), "ANONYMOUS survived the scoped DACL: {sddl}");
}

#[test]
fn the_user_of_the_token_is_granted_access_once() {
    let owner = "S-1-5-32-544".to_string();
    let user = SAMPLE_OWNER.to_string();
    assert_eq!(
        scoped_pipe_sddl(&owner, Some(&user)),
        format!("D:(A;;FA;;;SY)(A;;FA;;;BA)(A;;FA;;;{owner})(A;;FA;;;{user})")
    );
    assert_eq!(scoped_pipe_sddl(&user, Some(&user)), control_pipe_sddl(&user));
    assert_eq!(scoped_pipe_sddl(&user, None), control_pipe_sddl(&user));
    assert!(plausible_sid_length(12));
    assert!(!plausible_sid_length(0));
    assert!(!plausible_sid_length(512));
    assert_eq!(token_information_size(false, 122, 44, 8), Some(44));
    assert_eq!(token_information_size(false, 5, 44, 8), None);
    assert_eq!(token_information_size(true, 0, 4, 8), None);
    assert_eq!(token_information_size(false, 122, 4097, 8), None);
}

#[test]
fn classify_vector_recognises_each_deployed_name_case_insensitively() {
    assert_eq!(classify_vector("XInput1_4.dll"), Vector::XInput14);
    assert_eq!(classify_vector("xinput1_4.dll"), Vector::XInput14);
    assert_eq!(classify_vector("dinput8.dll"), Vector::DInput8);
    assert_eq!(classify_vector("DInput8.DLL"), Vector::DInput8);
}

#[test]
fn classify_vector_reports_the_payloads_own_name_as_injected() {
    assert_eq!(classify_vector("steam_input_gate.dll"), Vector::Injected);
}

#[test]
fn classify_vector_reports_an_unrecognised_name_rather_than_guessing() {
    assert_eq!(classify_vector("winmm.dll"), Vector::Unknown);
    assert_eq!(classify_vector(""), Vector::Unknown);
}

#[test]
fn every_vector_has_a_distinct_label_for_the_load_diagnostic() {
    let labels = [
        Vector::Injected.label(),
        Vector::XInput14.label(),
        Vector::DInput8.label(),
        Vector::Unknown.label(),
    ];
    for (index, label) in labels.iter().enumerate() {
        assert!(!label.is_empty());
        assert!(!labels[..index].contains(label));
    }
}

#[test]
fn an_unknown_self_module_fails_closed_so_no_hook_lands_on_our_own_exports() {
    // Before the handle is recorded every candidate must be treated as
    // possibly-us: hooking our own forwarder would recurse.
    assert!(is_self(0, 0x1234));
    assert!(is_self(0x1234, 0x1234));
    assert!(!is_self(0x1234, 0x5678));
}

#[test]
fn images_are_classified_by_their_last_part() {
    assert_eq!(classify_image(&wide(r"C:\Steam\XINPUT1_4.DLL")), Vector::XInput14);
    assert_eq!(classify_image(&wide(r"C:\xinput1_4.dll\other.dll")), Vector::Unknown);
    // Only the backslash separates here.
    assert_eq!(classify_image(&wide("a/dinput8.dll")), Vector::Unknown);
    assert_eq!(classify_image(&wide(r"a/b\dinput8.dll")), Vector::DInput8);
    assert_eq!(classify_image(&wide("dinput8.dll")), Vector::DInput8);
    assert_eq!(classify_image(&wide("dinput8.dll\0")), Vector::Unknown);
    assert_eq!(module_path_step(10, 260), PathStep::Done(10));
    assert_eq!(module_path_step(260, 260), PathStep::Grow(520));
    assert_eq!(module_path_step(32768, 32768), PathStep::Done(32768));
}

#[test]
fn system_modules_are_named_by_their_full_path() {
    let directory = wide(r"C:\Windows\System32");
    let path = system_module_path(&directory, directory.len(), "dinput8.dll").unwrap();
    assert_eq!(narrow(&path), "C:\\Windows\\System32\\dinput8.dll\0");
    assert_eq!(system_module_path(&directory, 0, "x"), None);
    assert_eq!(system_module_path(&directory, 260, "x"), None);
}

#[test]
fn exports_have_the_ordinals_of_the_real_module() {
    for index in 0..EXPORT_COUNT {
        assert_eq!(ProxyExport::at(index).is_nameless(), index >= NAMED_EXPORT_COUNT);
    }
    let definition = export_definition();
    assert!(definition.starts_with("LIBRARY steam_input_gate\nEXPORTS\n  DllMain @1\n"));
    assert!(definition.contains("  XInputGetAudioDeviceIds @10\n  DirectInput8Create @200\n"));
    assert!(definition.contains("  WsgmSteamInputGateProxy @206\n"));
    assert!(definition.contains("  wsgm_ord_100=wsgm_xinput_ordinal_100 @100 NONAME\n"));
    assert!(definition.ends_with("  wsgm_ord_108=wsgm_xinput_ordinal_108 @108 NONAME\n"));
    assert_eq!(definition.lines().count(), 2 + EXPORT_COUNT);
    let mut ordinals: Vec<u16> = (0..EXPORT_COUNT).map(|index| ProxyExport::at(index).ordinal()).collect();
    ordinals.sort_unstable();
    ordinals.dedup();
    assert_eq!(ordinals.len(), EXPORT_COUNT);
    assert!(!ordinals.contains(&104) && !ordinals.contains(&109));
}

#[test]
fn calls_are_answered_before_gated_and_forwarded() {
    let state = ProxyExport::XInputGetState;
    let rumble = ProxyExport::XInputSetState;
    assert_eq!(forward_call(state, false, true, true), ForwardDecision::NotReady);
    assert_eq!(forward_call(state, true, true, true), ForwardDecision::Disconnected);
    assert_eq!(forward_call(rumble, true, true, true), ForwardDecision::Forward);
    assert_eq!(forward_call(rumble, true, false, false), ForwardDecision::Disconnected);
    let gated: Vec<u16> = (0..EXPORT_COUNT)
        .map(ProxyExport::at)
        .filter(|export| export.is_gated())
        .map(|export| export.ordinal())
        .collect();
    assert_eq!(gated, vec![2, 4, 100, 108]);
}

#[test]
fn forwarding_is_released_once_every_required_target_is_known() {
    let mut found = vec![true; EXPORT_COUNT];
    found[17] = false;
    let mut bootstrap = Bootstrap::new();
    assert!(!bootstrap.ready());
    assert!(bootstrap.initialize_forwarding(Vector::XInput14, true, &found));
    assert_eq!(
        bootstrap.outcome,
        Some(Forwarding { ready: true, missing_required: 0, missing_optional: 1 })
    );
    found[1] = false;
    let mut bootstrap = Bootstrap::new();
    assert!(!bootstrap.initialize_forwarding(Vector::XInput14, true, &found));
    assert_eq!(bootstrap.outcome.unwrap().missing_required, 1);
    // A failure is final.
    assert!(!bootstrap.initialize_forwarding(Vector::XInput14, true, &vec![true; EXPORT_COUNT]));
    // The other vector does not miss what it does not forward.
    assert!(Bootstrap::new().initialize_forwarding(Vector::DInput8, true, &found));
    assert!(!Bootstrap::new().initialize_forwarding(Vector::DInput8, false, &found));
    assert!(!Bootstrap::new().initialize_forwarding(Vector::Injected, true, &found));
}

#[test]
fn a_standalone_gate_traces_beside_its_own_image() {
    assert_eq!(
        trace_directory(
            &wide(r"C:\Steam\XInput1_4.dll"),
            false,
            Some(&wide(r"C:\Users\someone\AppData\Local")),
        ),
        Some(wide(r"C:\Steam"))
    );
}

#[test]
fn a_wsgm_deployed_gate_traces_to_the_wsgm_log_directory() {
    assert_eq!(
        trace_directory(
            &wide(r"C:\Steam\XInput1_4.dll"),
            true,
            Some(&wide(r"C:\Users\someone\AppData\Local")),
        ),
        Some(wide(r"C:\Users\someone\AppData\Local\WSGM"))
    );
    assert_eq!(trace_directory(&wide(r"C:\Steam\XInput1_4.dll"), true, None), None);
}

#[test]
fn an_image_without_a_directory_has_no_trace_directory() {
    assert_eq!(trace_directory(&wide(""), false, None), None);
    assert_eq!(trace_directory(&wide("XInput1_4.dll"), false, None), None);
}

#[test]
fn the_wsgm_stamp_sits_beside_the_proxy_under_its_own_stem() {
    assert_eq!(
        deployment_stamp(&wide(r"C:\Steam\XInput1_4.dll")),
        wide(r"C:\Steam\XInput1_4.wsgm-shim")
    );
    assert_eq!(
        deployment_stamp(&wide(r"C:\Steam\dinput8.dll")),
        wide(r"C:\Steam\dinput8.wsgm-shim")
    );
}

#[test]
fn paths_have_parents_names_and_extensions() {
    let up = |path: &str| parent(&wide(path)).map(|units| narrow(&units));
    assert_eq!(up(r"C:\a\b.txt").as_deref(), Some(r"C:\a"));
    assert_eq!(up(r"C:\b.txt").as_deref(), Some(r"C:\"));
    assert_eq!(up(r"\b.txt").as_deref(), Some(r"\"));
    assert_eq!(up("b.txt").as_deref(), Some(""));
    assert_eq!(up("C:b.txt").as_deref(), Some("C:"));
    assert_eq!(up(r"a\b\").as_deref(), Some("a"));
    assert_eq!(up(r"a/\b").as_deref(), Some("a"));
    assert_eq!(up(r"C:\"), None);
    assert_eq!(up(""), None);
    let both = |first: &str, second: &str| narrow(&join(&wide(first), &wide(second)));
    assert_eq!(both(r"C:\a", "b"), r"C:\a\b");
    assert_eq!(both(r"C:\", "b"), r"C:\b");
    assert_eq!(both("C:", "b"), "C:b");
    assert_eq!(both("", "b"), "b");
    assert_eq!(narrow(&with_extension(&wide("a.b.c"), "d")), "a.b.d");
    assert_eq!(narrow(&with_extension(&wide(".hidden"), "d")), ".hidden.d");
    assert_eq!(narrow(&with_extension(&wide(r"x.y\plain"), "d")), r"x.y\plain.d");
    assert_eq!(narrow(&with_extension(&wide(r"a.b\."), "d")), "a.d");
    assert_eq!(narrow(&with_extension(&wide(r"a\.."), "d")), r"a\..");
    assert_eq!(narrow(&with_extension(&wide(r"\\s\t.u"), "d")), r"\\s\t.u");
}

#[test]
fn a_prefix_with_at_most_its_root_has_no_directory() {
    let up = |path: &str| parent(&wide(path)).map(|units| narrow(&units));
    for path in [
        "C:", r"C:\", "C:.", r"\", r"\\s\t", r"\\s\t\", "//s/t", r"\\.\COM1", r"\\?\C:", r"\\?\C:\",
        r"\\?\UNC\s\t", r"\\?\UNC\s\t\", r"\\?\volume", r"\\?\",
    ] {
        assert_eq!(up(path), None, "{path}");
    }
    assert_eq!(up(r"\\s\t\x.dll").as_deref(), Some(r"\\s\t\"));
    assert_eq!(up(r"\\s\t\a\x.dll").as_deref(), Some(r"\\s\t\a"));
    assert_eq!(up(r"\\?\C:\x.dll").as_deref(), Some(r"\\?\C:\"));
    assert_eq!(up(r"\\?\C:\a\x.dll").as_deref(), Some(r"\\?\C:\a"));
    assert_eq!(up(r"\\?\UNC\s\t\x").as_deref(), Some(r"\\?\UNC\s\t\"));
    assert_eq!(up(r"\\?\volume\x").as_deref(), Some(r"\\?\volume\"));
    assert_eq!(up(r"\\.\COM1\x").as_deref(), Some(r"\\.\COM1\"));
    // A server without a share is no prefix, nor is a colon behind another character.
    assert_eq!(up(r"\\s").as_deref(), Some(r"\"));
    assert_eq!(up("1:x").as_deref(), Some(""));
    // In a literal path only the backslash separates, and a dot is a name.
    assert_eq!(up(r"\\?\C:\a/b").as_deref(), Some(r"\\?\C:\"));
    assert_eq!(up(r"\\?\C:\a\.").as_deref(), Some(r"\\?\C:\a"));
    // Elsewhere a dot names nothing, but where it begins a path.
    assert_eq!(up(r"a\.\b").as_deref(), Some("a"));
    assert_eq!(up(r"a\b\.").as_deref(), Some("a"));
    assert_eq!(up(".").as_deref(), Some(""));
    assert_eq!(up(r".\b").as_deref(), Some("."));
    assert_eq!(up(r"C:.\b").as_deref(), Some("C:."));
    assert_eq!(trace_directory(&wide(r"\\s\t"), false, None), None);
    let directory = trace_directory(&wide(r"\\?\C:\x.dll"), false, None);
    assert_eq!(directory.map(|units| narrow(&units)).as_deref(), Some(r"\\?\C:\"));
}

#[test]
fn names_are_put_behind_directories_of_every_kind() {
    let both = |first: &str| narrow(&join(&wide(first), &wide("b")));
    assert_eq!(both(r"\\s\t"), r"\\s\t\b");
    assert_eq!(both(r"\\?\C:"), r"\\?\C:\b");
    assert_eq!(both(r"\\?\C:\"), r"\\?\C:\b");
    assert_eq!(both(r"\\?\C:\a\\c\"), r"\\?\C:\a\c\b");
    assert_eq!(both(r"a/"), "a/b");
    assert_eq!(both("."), r".\b");
    for directory in [r"C:\", r"C:\a", "C:", "", ".", r"a\b", r"\\s\t\", r"\\s\t\a"] {
        assert_eq!(narrow(&parent(&wide(&both(directory))).unwrap()), directory);
    }
}

#[test]
fn traces_are_named_and_pruned() {
    assert_eq!(
        narrow(&trace_path(&wide(r"C:\Steam"), 42)),
        r"C:\Steam\steam-input-gate-42.log"
    );
    assert!(is_trace_name(&wide("steam-input-gate-7.log")));
    assert!(!is_trace_name(&wide("steam-input-gate-7.txt")));
    assert!(!is_trace_name(&wide("steam-input-lease.log")));
    assert!(!is_trace_name(&wide(".log")));
    let mut broken = wide("steam-input-gate-");
    broken.push(0xD800);
    broken.extend(wide(".log"));
    assert!(!is_trace_name(&broken));
    assert_eq!(
        prune_old_traces(&[5, 9, 1, 9, 7], 3),
        vec![true, false, true, false, false]
    );
    assert_eq!(prune_old_traces(&[4, 4, 4], 2), vec![false, false, true]);
    assert_eq!(prune_old_traces(&[], 0), Vec::<bool>::new());
}

#[test]
fn trace_lines_have_their_form() {
    assert_eq!(trace_line(7, "x"), "     7 ms x\n");
    assert_eq!(trace_line(1234567, "x"), "1234567 ms x\n");
    assert_eq!(trace_header(42, 100, 160), "trace v1 pid=42 attach-to-worker=60 ms");
    assert_eq!(trace_header(42, 160, 100), "trace v1 pid=42 attach-to-worker=0 ms");
    assert_eq!(
        trace_marks(ATTACH_ENTERED | SELF_RECORDED | PIN_SUCCEEDED | WORKER_REQUESTED),
        "DllMain attach=true self-recorded=true pin-succeeded=true pin-failed=false \
         worker-requested=true worker-create-failed=false"
    );
    let forwarding = Forwarding { ready: false, missing_required: 2, missing_optional: 3 };
    assert_eq!(
        trace_exports(forwarding),
        "forwarding exports missing-required=2 missing-optional=3"
    );
    assert_eq!(
        trace_forwarding(true, 12),
        "forwarding initialization finished; ready=true; bootstrap-fallback-calls=12"
    );
    assert_eq!(
        trace_descriptor(None),
        "control pipe descriptor scoped=false; owner=<unavailable>"
    );
    assert_eq!(
        trace_descriptor(Some(&"S-1".to_string())),
        "control pipe descriptor scoped=true; owner=S-1"
    );
    assert_eq!(
        load_report(Vector::DInput8),
        "WSGM SteamInputGate loaded: vector=dinput8.dll\n"
    );
    assert!(forwarding_report(true).contains("released"));
    assert!(forwarding_report(false).contains("remains blocked"));
}

#[test]
fn attach_records_pins_and_starts_in_that_order() {
    let (stage, marks) = process_attach(AttachStage::Recording, true);
    assert_eq!((stage, marks), (AttachStage::Pinning, ATTACH_ENTERED | SELF_RECORDED));
    let (stage, marks) = process_attach(stage, true);
    assert_eq!((stage, marks), (AttachStage::Settling, PIN_SUCCEEDED));
    let (stage, marks) = process_attach(stage, true);
    assert_eq!((stage, marks), (AttachStage::StartingWorker, WORKER_REQUESTED));
    assert_eq!(process_attach(stage, true), (AttachStage::Finished(true), 0));
    assert_eq!(
        process_attach(stage, false),
        (AttachStage::Finished(false), WORKER_CREATE_FAILED)
    );
    assert_eq!(
        process_attach(AttachStage::Pinning, false),
        (AttachStage::Finished(false), PIN_FAILED)
    );
}

#[test]
fn the_server_gives_up_after_thirty_failures_in_a_row() {
    assert_eq!(begin_server(Vector::XInput14), ServerStage::Forwarding);
    assert_eq!(begin_server(Vector::Injected), ServerStage::Scoping);
    let mut stage = server_thread(ServerStage::Scoping, false);
    for _ in 0..29 {
        stage = server_thread(stage, false);
        assert!(matches!(stage, ServerStage::Pausing(_)));
        stage = server_thread(stage, true);
    }
    assert_eq!(stage, ServerStage::Creating(29));
    assert_eq!(server_thread(stage, true), ServerStage::Connecting);
    assert_eq!(server_thread(stage, false), ServerStage::Exited);
    assert_eq!(SERVER_EXIT_CODE, 2);
    assert_eq!(server_thread(ServerStage::Connecting, true), ServerStage::Spawning);
    assert_eq!(server_thread(ServerStage::Connecting, false), ServerStage::Discarding);
    assert_eq!(server_thread(ServerStage::Spawning, true), ServerStage::Creating(0));
    assert_eq!(server_thread(ServerStage::Forwarding, false), ServerStage::Scoping);
    assert_eq!(server_thread(ServerStage::Forwarding, true), ServerStage::Rediscovering);
    assert!(client_connected(false, 535));
    assert!(client_connected(true, 0));
    assert!(!client_connected(false, 232));
}

#[test]
fn rediscovery_follows_up_and_respects_new_leases() {
    assert_eq!(notify_controller_rescan(RescanStage::CheckingBlock, true), RescanStage::Finished);
    assert_eq!(notify_controller_rescan(RescanStage::CheckingBlock, false), RescanStage::RefreshingSdl);
    assert_eq!(notify_controller_rescan(RescanStage::RefreshingSdl, false), RescanStage::Requesting);
    assert_eq!(notify_controller_rescan(RescanStage::Requesting, true), RescanStage::Scheduling);
    assert_eq!(notify_controller_rescan(RescanStage::Requesting, false), RescanStage::Notifying);
    assert_eq!(notify_controller_rescan(RescanStage::Scheduling, true), RescanStage::Finished);
    assert_eq!(notify_controller_rescan(RescanStage::Scheduling, false), RescanStage::Pausing);
    assert_eq!(notify_controller_rescan(RescanStage::Pausing, true), RescanStage::CheckingAgain);
    assert_eq!(notify_controller_rescan(RescanStage::CheckingAgain, true), RescanStage::Finished);
    assert_eq!(notify_controller_rescan(RescanStage::CheckingAgain, false), RescanStage::RequestingAgain);
    assert_eq!(notify_controller_rescan(RescanStage::RequestingAgain, false), RescanStage::Finished);
    assert_eq!(notify_controller_rescan(RescanStage::Notifying, true), RescanStage::Finished);
}

#[test]
fn sdl_is_refreshed_through_its_own_window() {
    let mut stage = SdlStage::FindingWindow;
    for outcome in [true, false, true, true, true, true, true, true, true] {
        stage = refresh_sdl_hidapi_devices(stage, outcome);
    }
    assert_eq!(stage, SdlStage::Finished(true));
    for failing in [
        SdlStage::FindingWindow,
        SdlStage::Sending,
        SdlStage::FindingModule,
        SdlStage::FindingUpdate,
    ] {
        assert_eq!(refresh_sdl_hidapi_devices(failing, false), SdlStage::Finished(false));
    }
    assert!(arrival_delivered(1, 1));
    assert!(!arrival_delivered(1, 0));
    assert!(!arrival_delivered(0, 1));
}

#[test]
fn the_timer_fires_once_per_arming() {
    let mut timer = RescanTimer::new();
    assert!(!timer.schedule_second_discovery(false, 100));
    assert_eq!(timer.rescan_timer_loop(5000), TimerStep::WaitForArming);
    assert!(timer.schedule_second_discovery(true, 100));
    assert_eq!(timer.rescan_timer_loop(200), TimerStep::Wait(2100));
    assert!(timer.schedule_second_discovery(false, 1000));
    assert_eq!(timer.rescan_timer_loop(2300), TimerStep::Wait(900));
    assert_eq!(timer.rescan_timer_loop(3200), TimerStep::Due);
    assert_eq!(timer.rescan_timer_loop(3200), TimerStep::WaitForArming);
}

#[test]
fn wide_text_round_trips_and_marks_what_is_broken() {
    for text in ["", "plain", "ä€😀x"] {
        assert_eq!(encode_wide(text), wide(text));
        assert_eq!(decode_wide(&wide(text)), (text.to_string(), true));
    }
    assert_eq!(decode_wide(&[0xd83d, 65, 0xde00]), ("\u{FFFD}A\u{FFFD}".to_string(), false));
    assert_eq!(decode_wide(&[0xd83d]), (String::from_utf16_lossy(&[0xd83d]), false));
}
