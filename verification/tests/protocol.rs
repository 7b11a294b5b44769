//! Wire protocol and lease accounting.

use steam_input_lease::gate::{
    needs_hooks, Effect, HookInstallation, LeaseState, Opening, Ownership,
};
use steam_input_lease::protocol::{
    pipe_name, Command, Request, Response, ResultCode, PROTOCOL_MAGIC, PROTOCOL_VERSION,
};

#[test]
fn protocol_layout_remains_compatible_with_cpp_poc() {
    assert_eq!(std::mem::size_of::<Request>(), 8);
    assert_eq!(std::mem::size_of::<Response>(), 24);
    assert_eq!(Request::new(Command::QueryStatus).encode().len(), 8);
}

#[test]
fn pipe_name_is_nul_terminated() {
    let name = pipe_name(42);
    assert_eq!(name.last(), Some(&0));
    assert_eq!(
        String::from_utf16_lossy(&name[..name.len() - 1]),
        r"\\.\pipe\SteamInputGate-42"
    );
}

#[test]
fn requests_have_their_bytes_on_the_wire() {
    let request = Request::new(Command::AcquirePassThrough);
    assert_eq!(request.encode(), vec![0x54, 0x47, 0x49, 0x53, 1, 0, 4, 0]);
    assert_eq!(Request::decode(&request.encode()), Some(request));
    assert_eq!(Request::decode(&[0; 7]), None);
    let codes: Vec<u16> = [
        Command::AcquireLease,
        Command::QueryStatus,
        Command::ReleaseLease,
        Command::AcquirePassThrough,
        Command::ReleasePassThrough,
    ]
    .iter()
    .map(|command| command.code())
    .collect();
    assert_eq!(codes, vec![1, 2, 3, 4, 5]);
}

#[test]
fn responses_round_trip_in_exactly_their_size() {
    let response = Response {
        magic: PROTOCOL_MAGIC,
        version: PROTOCOL_VERSION,
        capabilities: 5,
        result: 0,
        lease_count: 2,
        hid_handle_count: 0x0102_0304,
        last_revoked_handle_count: 9,
    };
    let bytes = response.encode();
    assert_eq!(bytes.len(), 24);
    assert_eq!(&bytes[16..20], &[4, 3, 2, 1]);
    assert_eq!(Response::decode(&bytes), Some(response));
    assert_eq!(Response::decode(&bytes[..23]), None);
    assert!(response.is_valid());
    assert!(response.has_internal_recovery());
    assert!(!response.supports_pass_through());
    assert!(response.pass_through_active());
    assert!(!Response { result: 2, ..response }.is_valid());
    assert!(!Response { magic: 0, ..response }.is_valid());
    assert!(!Response { version: 2, ..response }.is_valid());
}

fn open(state: &mut LeaseState, command: Command) -> Opening {
    state.open(Some(&Request::new(command).encode()), true)
}

#[test]
fn the_first_lease_revokes_and_the_last_release_rediscovers() {
    let mut state = LeaseState::new();
    let first = open(&mut state, Command::AcquireLease);
    assert_eq!(first.result, ResultCode::Success);
    assert_eq!(first.owned, Some(Ownership::Lease));
    assert_eq!(first.effect, Effect::Revoke);
    assert_eq!(open(&mut state, Command::AcquireLease).effect, Effect::Nothing);
    assert_eq!(state.lease_count(), 2);
    let release = Request::new(Command::ReleaseLease).encode();
    let ending = state.end(Ownership::Lease, Some(&release));
    assert!(ending.reply);
    assert_eq!(ending.effect, Effect::Nothing);
    // A closed pipe counts like an explicit release, but nobody waits.
    let ending = state.end(Ownership::Lease, None);
    assert!(!ending.reply);
    assert_eq!(ending.effect, Effect::Rediscover);
    assert!(!state.blocking());
}

#[test]
fn refused_requests_change_nothing() {
    let mut state = LeaseState::new();
    for message in [
        None,
        Some(vec![]),
        Some(Request::new(Command::AcquireLease).encode()[..7].to_vec()),
        Some(Request { magic: 1, ..Request::new(Command::AcquireLease) }.encode()),
        Some(Request { version: 2, ..Request::new(Command::AcquireLease) }.encode()),
        Some(Request { command: 9, ..Request::new(Command::AcquireLease) }.encode()),
        Some(Request::new(Command::ReleaseLease).encode()),
    ] {
        let opening = state.open(message.as_deref(), true);
        assert_eq!(opening.result, ResultCode::InvalidRequest);
        assert_eq!(opening.owned, None);
        assert_eq!(opening.effect, Effect::Nothing);
    }
    let acquire = Request::new(Command::AcquireLease).encode();
    assert!(needs_hooks(Some(&acquire)));
    assert!(!needs_hooks(Some(&Request::new(Command::QueryStatus).encode())));
    let opening = state.open(Some(&acquire), false);
    assert_eq!(opening.result, ResultCode::HookInstallFailed);
    assert_eq!(opening.owned, None);
    assert_eq!(state.lease_count(), 0);
}

#[test]
fn only_the_matching_release_is_answered() {
    let mut state = LeaseState::new();
    for message in [
        Request::new(Command::ReleasePassThrough).encode(),
        Request::new(Command::QueryStatus).encode(),
        [Request::new(Command::ReleaseLease).encode(), vec![0]].concat(),
    ] {
        open(&mut state, Command::AcquireLease);
        assert!(!state.end(Ownership::Lease, Some(&message)).reply);
    }
    assert_eq!(state.lease_count(), 0);
}

#[test]
fn overlapping_pass_through_preserves_and_restores_block_owners() {
    let mut state = LeaseState::new();
    let release = Request::new(Command::ReleaseLease).encode();
    let hand_back = Request::new(Command::ReleasePassThrough).encode();
    open(&mut state, Command::AcquireLease);
    open(&mut state, Command::AcquireLease);
    assert!(state.blocking());
    let handoff = open(&mut state, Command::AcquirePassThrough);
    assert_eq!(handoff.effect, Effect::Rediscover);
    let reply = state.response(handoff.result, false, 0, 0);
    assert_eq!(reply.lease_count, 2);
    assert!(reply.supports_pass_through());
    assert!(reply.pass_through_active());
    assert!(!state.blocking());
    open(&mut state, Command::AcquirePassThrough);
    state.end(Ownership::Lease, Some(&release));
    open(&mut state, Command::AcquireLease);
    assert!(!state.blocking());
    assert!(state.end(Ownership::PassThrough, Some(&hand_back)).reply);
    assert!(!state.blocking());
    // EOF follows the same cleanup path as a crashed claim owner.
    let restored = state.end(Ownership::PassThrough, None);
    assert_eq!(restored.effect, Effect::Revoke);
    assert!(state.blocking());
    open(&mut state, Command::AcquirePassThrough);
    state.end(Ownership::Lease, Some(&release));
    state.end(Ownership::Lease, Some(&release));
    let last = state.end(Ownership::PassThrough, Some(&hand_back));
    assert_eq!(last.effect, Effect::Nothing);
    assert!(!state.blocking());
    assert_eq!(state.claim_count(), 0);
}

#[test]
fn replies_report_the_state() {
    let mut state = LeaseState::new();
    let idle = state.response(ResultCode::InvalidRequest, true, 3, 4);
    assert_eq!(idle.result, 1);
    assert_eq!(idle.capabilities, 3);
    assert_eq!(idle.hid_handle_count, 3);
    assert_eq!(idle.last_revoked_handle_count, 4);
    open(&mut state, Command::AcquirePassThrough);
    assert_eq!(state.response(ResultCode::Success, false, 0, 0).capabilities, 6);
}

#[test]
fn hooks_are_tried_once() {
    let mut hooks = HookInstallation::new();
    assert_eq!(hooks.known(), None);
    assert!(!hooks.record(false));
    assert_eq!(hooks.known(), Some(false));
    assert!(!hooks.record(true));
    assert_eq!(hooks.known(), Some(false));
    let mut hooks = HookInstallation::new();
    assert!(hooks.record(true));
    assert_eq!(hooks.known(), Some(true));
}
