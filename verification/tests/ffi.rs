//! The C ABI's values and rules.

use steam_input_lease::client::{
    Action, Client, ClientOptions, Event, Lease, Outcome, RecoveryOutcome, ReleaseOutcome,
    RescanResult, Status,
};
use steam_input_lease::error::Error;
use steam_input_lease::ffi::{
    ffi_call, last_error_bytes, read_utf16, sil_abi_version, sil_lease_release, write_fixed_utf8,
    CallOutcome, ReleasePlan, SilClient, SilClientOptions, SilLease, SilReleaseOutcome,
    SilRescanResult, SilStatus, SIL_ERROR, SIL_OK, SIL_PANIC, SIL_RECOVERY_COMPLETED,
    SIL_RECOVERY_MESSAGE_CAPACITY, SIL_RECOVERY_NOT_REQUIRED, SIL_RECOVERY_SCHEDULED,
    SIL_RECOVERY_UNAVAILABLE,
};
use steam_input_lease::protocol::{Response, PROTOCOL_MAGIC, PROTOCOL_VERSION};

fn default_client() -> Client {
    Client::new(ClientOptions::beside_executable(None))
}

fn wide(text: &str) -> Vec<u16> {
    text.encode_utf16().collect()
}

fn text_of(buffer: &[u8]) -> Vec<u8> {
    buffer.iter().take_while(|&&byte| byte != 0).copied().collect()
}

#[test]
fn public_abi_structs_have_fixed_layout() {
    assert_eq!(std::mem::size_of::<SilStatus>(), 16);
    assert_eq!(std::mem::size_of::<SilRescanResult>(), 16);
    assert_eq!(std::mem::size_of::<SilReleaseOutcome>(), 296);
    assert_eq!(std::mem::align_of::<SilReleaseOutcome>(), 8);
}

#[test]
fn a_recovery_message_longer_than_the_buffer_stays_a_valid_c_string() {
    let mut buffer = vec![0u8; SIL_RECOVERY_MESSAGE_CAPACITY];
    write_fixed_utf8(&mut buffer, &"a".repeat(1000));
    assert_eq!(buffer[SIL_RECOVERY_MESSAGE_CAPACITY - 1], 0);
    assert_eq!(text_of(&buffer).len(), SIL_RECOVERY_MESSAGE_CAPACITY - 1);
}

#[test]
fn truncation_never_splits_a_utf8_code_point() {
    // The buffer boundary lands mid-character, so a byte-wise copy would
    // leave a partial code point that no UTF-8 decoder can read.
    let mut buffer = vec![0u8; 8];
    write_fixed_utf8(&mut buffer, "aa€€€");
    assert_eq!(std::str::from_utf8(&text_of(&buffer)).unwrap(), "aa€");
}

#[test]
fn an_interior_nul_does_not_truncate_the_recovery_message() {
    let mut buffer = vec![0u8; SIL_RECOVERY_MESSAGE_CAPACITY];
    write_fixed_utf8(&mut buffer, "before\0after");
    assert_eq!(std::str::from_utf8(&text_of(&buffer)).unwrap(), "before after");
}

#[test]
fn last_error_is_always_nul_terminated() {
    assert_eq!(last_error_bytes("hello"), b"hello\0");
    assert_eq!(last_error_bytes("a\0b"), b"a b\0");
    assert_eq!(last_error_bytes(""), b"\0");
}

#[test]
fn a_short_text_leaves_the_rest_of_its_buffer_alone() {
    let mut buffer = vec![7u8; 5];
    write_fixed_utf8(&mut buffer, "ab");
    assert_eq!(buffer, vec![b'a', b'b', 0, 7, 7]);
    let mut tiny = vec![7u8; 1];
    write_fixed_utf8(&mut tiny, "€");
    assert_eq!(tiny, vec![0]);
}

#[test]
fn calls_report_their_result_and_message() {
    assert_eq!(sil_abi_version(), 4);
    assert_eq!(ffi_call(CallOutcome::Done), (SIL_OK, b"\0".to_vec()));
    assert_eq!(
        ffi_call(CallOutcome::Failed("why".into())),
        (SIL_ERROR, b"why\0".to_vec())
    );
    let (code, message) = ffi_call(CallOutcome::Panicked);
    assert_eq!(code, SIL_PANIC);
    assert_eq!(message, b"Rust panic crossed the Steam Input Lease ABI boundary\0");
}

#[test]
fn string_arguments_end_at_their_terminator() {
    assert_eq!(read_utf16(Some(&[65, 66, 0, 67])), Ok(vec![65, 66]));
    assert_eq!(read_utf16(Some(&[0])), Ok(vec![]));
    assert_eq!(read_utf16(None), Err("required UTF-16 string pointer was null"));
    let mut long = vec![65u16; 32767];
    long.push(0);
    assert_eq!(read_utf16(Some(&long)).unwrap().len(), 32767);
    assert_eq!(
        read_utf16(Some(&vec![65u16; 32768])),
        Err("UTF-16 string exceeds 32767 code units")
    );
}

#[test]
fn zeroed_options_are_the_defaults() {
    let zeroed = SilClientOptions {
        target_name: None,
        payload_path: None,
        connect_timeout_ms: 0,
        allow_injection: 0,
    };
    for options in [None, Some(zeroed)] {
        let client = SilClient::create(options, ClientOptions::beside_executable(None));
        let chosen = client.get().options();
        assert_eq!(chosen.target_name, "steam.exe");
        assert_eq!(chosen.connect_timeout, 10_000);
        assert!(!chosen.allow_injection);
        assert_eq!(String::from_utf16_lossy(&chosen.payload_path), r".\steam_input_gate.dll");
    }
    let client = SilClient::create(
        Some(SilClientOptions {
            target_name: Some(vec![0xd800, 120]),
            payload_path: Some(wide("p")),
            connect_timeout_ms: 5,
            allow_injection: 2,
        }),
        ClientOptions::beside_executable(None),
    );
    let chosen = client.get().options();
    assert_eq!(chosen.target_name, "\u{FFFD}x");
    assert_eq!(chosen.payload_path, wide("p"));
    assert_eq!(chosen.connect_timeout, 5);
    assert!(chosen.allow_injection);
}

fn lease() -> Lease {
    let mut operation = default_client().acquire();
    operation.next(Event::Located(Ok(7)));
    operation.next(Event::Connected);
    let reply = Response {
        magic: PROTOCOL_MAGIC,
        version: PROTOCOL_VERSION,
        capabilities: 0,
        result: 0,
        lease_count: 1,
        hid_handle_count: 0,
        last_revoked_handle_count: 0,
    };
    match operation.next(Event::Replied(Ok(reply))) {
        Action::Finish(Ok(Outcome::Lease(lease))) => lease,
        other => panic!("unexpected: {other:?}"),
    }
}

#[test]
fn a_lease_handle_gives_its_lease_once() {
    let mut handle = SilLease::new(lease());
    assert_eq!(handle.take().unwrap().process_id(), 7);
    assert_eq!(handle.take().unwrap_err(), "lease was already released");
    assert_eq!(sil_lease_release(false, true), ReleasePlan::NothingToRelease);
    assert_eq!(sil_lease_release(false, false), ReleasePlan::NothingToRelease);
    assert_eq!(sil_lease_release(true, false), ReleasePlan::CloseUnreported);
    assert_eq!(sil_lease_release(true, true), ReleasePlan::Release);
}

#[test]
fn releases_are_reported_with_their_recovery() {
    let status = Status {
        capabilities: 3,
        lease_count: 1,
        hid_handle_count: 2,
        last_revoked_handle_count: 4,
    };
    let report = |recovery| SilReleaseOutcome::from(ReleaseOutcome { status, recovery });
    let plain = report(RecoveryOutcome::NotRequired);
    assert_eq!(plain.recovery, SIL_RECOVERY_NOT_REQUIRED);
    assert_eq!(
        plain.status,
        SilStatus {
            capabilities: 3,
            reserved: 0,
            lease_count: 1,
            hid_handle_count: 2,
            last_revoked_handle_count: 4
        }
    );
    assert_eq!(plain.recovery_message, [0u8; 256]);
    assert_eq!(report(RecoveryOutcome::Scheduled).recovery, SIL_RECOVERY_SCHEDULED);
    let done = report(RecoveryOutcome::Completed(RescanResult {
        previous_deadline: 5,
        scan_count_before: 6,
        scan_count_after: 7,
    }));
    assert_eq!(done.recovery, SIL_RECOVERY_COMPLETED);
    assert_eq!(
        done.rescan,
        SilRescanResult { previous_deadline: 5, scan_count_before: 6, scan_count_after: 7 }
    );
    let failed = report(RecoveryOutcome::Unavailable(Error::ArchitectureMismatch));
    assert_eq!(failed.recovery, SIL_RECOVERY_UNAVAILABLE);
    assert_eq!(
        text_of(&failed.recovery_message),
        b"the library and target process have different architectures"
    );
    assert_eq!(SilReleaseOutcome::default().reserved, 0);
}
