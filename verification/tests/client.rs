//! The host's client, its recovery and the opt-in loading of the payload.

use steam_input_lease::client::{
    check_reply, check_sent, connect_pipe, find_process, Action, Client,
    ClientOptions, ConnectFailure, Event, Operation, Outcome, PipeAttempt, PipeStep, ProcessEntry,
    RecoveryOutcome, ReleaseOutcome, ReleaseStep, RescanResult, Status, WrappedRun,
};
use steam_input_lease::election::{Election, SchedulerSample};
use steam_input_lease::error::{Error, OsError};
use steam_input_lease::inject::{
    inject_payload, relocated, same_architecture, LoadEvent, LoadStage, WAIT_OBJECT_0, WAIT_TIMEOUT,
};
use steam_input_lease::memory::SCHEDULE_NOW;
use steam_input_lease::protocol::{
    Command, Response, PROTOCOL_MAGIC, PROTOCOL_VERSION,
};
use steam_input_lease::recovery::{
    choose_hid_thread, election_abandoned, election_undecided, find_module, recovery_module,
    recovery_pattern, remote_module, wide_slice_to_string, Choice, ModuleEntry, ModuleListing, ModuleStep, RemoteModule,
    ScanAction, ScanEvent, ScanRequest, ERROR_BAD_LENGTH,
};

fn default_client() -> Client {
    Client::new(ClientOptions::beside_executable(None))
}

fn wide(text: &str) -> Vec<u16> {
    text.encode_utf16().collect()
}

fn os_error(code: u32) -> OsError {
    OsError { code, text: format!("error {code}") }
}

fn process(id: u32, name: &str, session: Option<u32>) -> ProcessEntry {
    let mut units = wide(name);
    units.push(0);
    units.push(120);
    ProcessEntry { id, name: units, session }
}

fn response(capabilities: u16) -> Response {
    Response {
        magic: PROTOCOL_MAGIC,
        version: PROTOCOL_VERSION,
        capabilities,
        result: 0,
        lease_count: 1,
        hid_handle_count: 2,
        last_revoked_handle_count: 3,
    }
}

#[test]
fn the_target_is_the_only_match_in_the_session() {
    let processes = vec![
        process(1, "other.exe", Some(4)),
        process(2, "STEAM.exe", Some(4)),
        process(3, "steam.exe", Some(5)),
        process(4, "steam.exe", None),
    ];
    let name = "steam.exe".to_string();
    assert_eq!(find_process(&processes, &name, Some(4)).unwrap(), 2);
    let missing = find_process(&processes, &name, Some(6)).unwrap_err();
    assert!(matches!(missing, Error::TargetNotFound(_)));
    assert_eq!(missing.message(), "target process is not running: steam.exe");
    assert!(find_process(&processes, &name, None).is_err());
    let twice = vec![process(2, "steam.exe", Some(4)), process(9, "steam.exe", Some(4))];
    let ambiguous = default_client().process_id(&twice, Some(4)).unwrap_err();
    assert!(matches!(ambiguous, Error::AmbiguousTarget(_)));
    assert_eq!(
        ambiguous.message(),
        "multiple steam.exe processes run in this Windows session"
    );
}

#[test]
fn default_options_look_beside_the_executable() {
    let options = ClientOptions::beside_executable(Some(&wide(r"C:\Tools\app.exe")));
    assert_eq!(
        String::from_utf16_lossy(&options.payload_path),
        r"C:\Tools\steam_input_gate.dll"
    );
    assert_eq!(options.target_name, "steam.exe");
    assert_eq!(options.connect_timeout, 10_000);
    assert!(!options.allow_injection);
    assert_eq!(Status::default().lease_count, 0);
    assert_eq!(RescanResult::default().previous_deadline, 0);
}

#[test]
fn pipes_are_polled_until_the_deadline() {
    let failed = |code| PipeAttempt::Failed(os_error(code));
    assert!(matches!(connect_pipe(7, failed(2), 0, 20), PipeStep::Pause));
    assert!(matches!(connect_pipe(7, failed(231), 0, 20), PipeStep::WaitForInstance));
    match connect_pipe(7, failed(2), 20, 20) {
        PipeStep::Failed(ConnectFailure::Absent(error)) => {
            assert_eq!(error.message(), "timed out connecting to payload pipe: error 2");
        }
        other => panic!("unexpected: {other:?}"),
    }
    match connect_pipe(7, failed(5), 0, 20) {
        PipeStep::Failed(ConnectFailure::Refused(error)) => {
            assert_eq!(error.message(), "could not connect to payload pipe: error 5");
            assert_eq!(error.source().unwrap().code, 5);
        }
        other => panic!("unexpected: {other:?}"),
    }
}

#[test]
fn a_pipe_of_another_process_is_refused() {
    assert!(matches!(
        connect_pipe(7, PipeAttempt::Opened(Ok(7)), 0, 20),
        PipeStep::Connected
    ));
    match connect_pipe(7, PipeAttempt::Opened(Ok(9)), 0, 20) {
        PipeStep::Failed(ConnectFailure::Foreign(error)) => {
            assert!(matches!(error, Error::Protocol(_)));
            assert_eq!(
                error.message(),
                "the payload pipe for process 7 is served by process 9"
            );
        }
        other => panic!("unexpected: {other:?}"),
    }
    assert!(matches!(
        connect_pipe(7, PipeAttempt::Opened(Err(os_error(1))), 0, 20),
        PipeStep::Failed(ConnectFailure::Refused(_))
    ));
}

#[test]
fn exchanges_are_checked_to_the_byte() {
    assert!(check_sent(true, 8, os_error(0)).is_ok());
    assert!(check_sent(false, 8, os_error(0)).is_err());
    let error = check_sent(true, 7, os_error(9)).unwrap_err();
    assert_eq!(error.message(), "could not send command to payload: error 9");
    let bytes = response(1).encode();
    assert_eq!(check_reply(true, &bytes, os_error(0)).unwrap(), response(1));
    let error = check_reply(true, &bytes[..23], os_error(9)).unwrap_err();
    assert_eq!(error.message(), "could not read payload response: error 9");
    assert!(check_reply(false, &bytes, os_error(9)).is_err());
    let refused = Response { result: 2, ..response(1) }.encode();
    let error = check_reply(true, &refused, os_error(0)).unwrap_err();
    assert!(matches!(error, Error::Protocol(_)));
    assert_eq!(
        error.message(),
        "the payload rejected the command or uses a different protocol version"
    );
}

fn absent() -> Event {
    Event::ConnectFailed(ConnectFailure::Absent(Error::Message("absent".into())))
}

fn injecting() -> Client {
    Client::new(ClientOptions {
        target_name: "Steam.exe".into(),
        payload_path: wide("gate.dll"),
        connect_timeout: 3000,
        allow_injection: true,
    })
}

fn failure(action: Action) -> Error {
    match action {
        Action::Finish(Err(error)) => error,
        other => panic!("unexpected: {other:?}"),
    }
}

#[test]
fn a_default_client_waits_for_a_resident_payload_only() {
    let mut operation = default_client().acquire();
    assert!(matches!(operation.next(Event::Located(Ok(7))), Action::Connect(7, 10_000)));
    let error = failure(operation.next(absent()));
    assert!(matches!(error, Error::PayloadUnavailable(_)));
    assert!(error.message().starts_with("no resident Steam Input payload answered"));
    let mut operation = default_client().ensure_payload();
    operation.next(Event::Located(Ok(7)));
    let refused = Event::ConnectFailed(ConnectFailure::Refused(Error::Message("denied".into())));
    assert_eq!(failure(operation.next(refused)).message(), "denied");
    let mut operation = default_client().acquire();
    let gone = Event::Located(Err(Error::TargetNotFound("steam.exe".into())));
    assert!(matches!(failure(operation.next(gone)), Error::TargetNotFound(_)));
}

#[test]
fn an_injecting_client_probes_checks_and_injects() {
    let mut operation = injecting().acquire();
    assert!(matches!(operation.next(Event::Located(Ok(7))), Action::Connect(7, 20)));
    assert!(matches!(operation.next(absent()), Action::CheckPayload));
    assert!(matches!(operation.next(Event::PayloadFile(true)), Action::Inject(7)));
    assert!(matches!(operation.next(Event::Injected(Ok(()))), Action::Connect(7, 3000)));
    assert!(matches!(
        operation.next(Event::Connected),
        Action::Exchange(Command::AcquireLease)
    ));
    match operation.next(Event::Replied(Ok(response(0)))) {
        Action::Finish(Ok(Outcome::Lease(lease))) => {
            assert_eq!(lease.process_id(), 7);
            assert_eq!(lease.status(), Status::from(response(0)));
        }
        other => panic!("unexpected: {other:?}"),
    }
}

#[test]
fn an_injecting_client_reports_each_failure() {
    let probed = || {
        let mut operation = injecting().acquire();
        operation.next(Event::Located(Ok(7)));
        operation
    };
    let mut operation = probed();
    operation.next(absent());
    let error = failure(operation.next(Event::PayloadFile(false)));
    assert_eq!(error.message(), "payload not found: gate.dll");
    let mut operation = probed();
    operation.next(absent());
    operation.next(Event::PayloadFile(true));
    let error = failure(operation.next(Event::Injected(Err(Error::ArchitectureMismatch))));
    assert_eq!(
        error.message(),
        "the library and target process have different architectures"
    );
    let mut operation = probed();
    operation.next(absent());
    operation.next(Event::PayloadFile(true));
    operation.next(Event::Injected(Ok(())));
    assert_eq!(
        failure(operation.next(absent())).message(),
        "the payload loaded, but its control pipe did not become available"
    );
    // A foreign server is no reason to inject.
    let mut operation = probed();
    let foreign = Event::ConnectFailed(ConnectFailure::Foreign(Error::Protocol("foreign".into())));
    assert_eq!(failure(operation.next(foreign)).message(), "foreign");
    let mut operation = probed();
    operation.next(Event::Connected);
    let broken = Event::Replied(Err(Error::Protocol("bad".into())));
    assert_eq!(failure(operation.next(broken)).message(), "bad");
}

#[test]
fn a_status_query_never_injects() {
    let mut operation = injecting().status();
    assert!(matches!(operation.next(Event::Located(Ok(7))), Action::Connect(7, 500)));
    assert_eq!(failure(operation.next(absent())).message(), "absent");
    let mut operation = injecting().status();
    operation.next(Event::Located(Ok(7)));
    assert!(matches!(
        operation.next(Event::Connected),
        Action::Exchange(Command::QueryStatus)
    ));
    assert!(matches!(
        operation.next(Event::Replied(Ok(response(5)))),
        Action::Finish(Ok(Outcome::Status(Status { capabilities: 5, .. })))
    ));
}

#[test]
fn claims_are_taken_and_handed_back() {
    let mut operation = default_client().acquire_pass_through();
    operation.next(Event::Located(Ok(7)));
    assert!(matches!(
        operation.next(Event::Connected),
        Action::Exchange(Command::AcquirePassThrough)
    ));
    let claim = match operation.next(Event::Replied(Ok(response(6)))) {
        Action::Finish(Ok(Outcome::PassThrough(claim))) => claim,
        other => panic!("unexpected: {other:?}"),
    };
    assert_eq!(claim.status().capabilities, 6);
    assert_eq!(claim.release(Ok(response(2))).unwrap().capabilities, 2);
}

fn rescanned(count: u32) -> RescanResult {
    RescanResult {
        previous_deadline: u64::from(count),
        scan_count_before: count,
        scan_count_after: count + 1,
    }
}

#[test]
fn recovery_makes_two_requests() {
    let mut operation = default_client().rescan();
    assert!(matches!(operation.next(Event::Located(Ok(7))), Action::ResolveRecovery(7)));
    assert!(matches!(operation.next(Event::Resolved(Ok(()))), Action::Scan));
    assert!(matches!(operation.next(Event::Scanned(Ok(rescanned(1)))), Action::Scan));
    match operation.next(Event::Scanned(Ok(rescanned(5)))) {
        Action::Finish(Ok(Outcome::Rescanned(result))) => assert_eq!(
            result,
            RescanResult { previous_deadline: 1, scan_count_before: 1, scan_count_after: 6 }
        ),
        other => panic!("unexpected: {other:?}"),
    }
    let mut operation = default_client().check_recovery();
    operation.next(Event::Located(Ok(7)));
    assert!(matches!(
        operation.next(Event::Resolved(Ok(()))),
        Action::Finish(Ok(Outcome::Recoverable))
    ));
    let mut operation = Operation::recovery_after_release(7);
    let failed = Event::Resolved(Err(Error::Message("no".into())));
    assert_eq!(failure(operation.next(failed)).message(), "no");
}

fn lease_of(client: Client) -> steam_input_lease::client::Lease {
    let mut operation = client.acquire();
    operation.next(Event::Located(Ok(7)));
    operation.next(Event::Connected);
    match operation.next(Event::Replied(Ok(response(0)))) {
        Action::Finish(Ok(Outcome::Lease(lease))) => lease,
        other => panic!("unexpected: {other:?}"),
    }
}

#[test]
fn releases_report_recovery_apart() {
    match lease_of(default_client()).release(Ok(response(1))) {
        ReleaseStep::Finished(Ok(outcome)) => {
            assert!(matches!(outcome.recovery, RecoveryOutcome::Scheduled));
            assert!(outcome.recovery.requested());
        }
        other => panic!("unexpected: {other:?}"),
    }
    let pending = match lease_of(default_client()).release(Ok(response(0))) {
        ReleaseStep::Recover(pending) => pending,
        other => panic!("unexpected: {other:?}"),
    };
    assert_eq!(pending.process_id, 7);
    let outcome = pending.complete(Err(Error::Message("gone".into())));
    assert!(!outcome.recovery.requested());
    assert_eq!(outcome.recovery.error().unwrap().message(), "gone");
    let other = Client::new(ClientOptions {
        target_name: "test.exe".into(),
        ..ClientOptions::beside_executable(None)
    });
    match lease_of(other).release(Ok(response(0))) {
        ReleaseStep::Finished(Ok(outcome)) => {
            assert!(matches!(outcome.recovery, RecoveryOutcome::NotRequired));
            assert!(outcome.recovery.error().is_none());
        }
        other => panic!("unexpected: {other:?}"),
    }
    assert!(matches!(
        lease_of(default_client()).release(Err(Error::Message("lost".into()))),
        ReleaseStep::Finished(Err(_))
    ));
}

#[test]
fn a_failed_release_is_no_failed_run() {
    let run = WrappedRun::conclude(Ok(3), Err(Error::Message("lost".into()))).unwrap();
    assert_eq!(run.exit_code, 3);
    assert!(run.release.is_err());
    let outcome = ReleaseOutcome {
        status: Status::default(),
        recovery: RecoveryOutcome::Completed(rescanned(1)),
    };
    assert!(WrappedRun::conclude(Err(Error::Message("never".into())), Ok(outcome)).is_err());
    let error = default_client().run_wrapped(&vec![]).unwrap_err();
    assert_eq!(error.message(), "the wrapped command is empty");
    assert!(default_client().run_wrapped(&vec![wide("g.exe")]).is_ok());
}

fn module(name: &str, base: usize) -> ModuleEntry {
    ModuleEntry { name: wide(name), base, size: 0x5000 }
}

#[test]
fn modules_are_found_by_name_with_bounded_retries() {
    let modules = vec![module("a.dll", 1), module("STEAMCLIENT64.dll", 2), module("steamclient64.dll", 3)];
    assert_eq!(
        find_module(&modules, "steamclient64.dll"),
        Some(RemoteModule { base: 2, size: 0x5000 })
    );
    assert_eq!(find_module(&modules, "b.dll"), None);
    let foreign = vec![module("\u{e4}.dll", 4), module("\u{c4}.DLL", 5)];
    assert_eq!(find_module(&foreign, "\u{c4}.dll"), Some(RemoteModule { base: 5, size: 0x5000 }));
    let mut ended = module("a.dll", 6);
    ended.name.extend([0, 98]);
    assert_eq!(find_module(&vec![ended], "A.dll"), Some(RemoteModule { base: 6, size: 0x5000 }));
    assert_eq!(wide_slice_to_string(&[0xD800, 97, 0, 98]), "\u{FFFD}a");
    let step = |attempt, listing| remote_module(attempt, listing, "a.dll");
    assert_eq!(step(0, ModuleListing::Failed(ERROR_BAD_LENGTH)), ModuleStep::Retry(10));
    assert_eq!(step(2, ModuleListing::Unreadable), ModuleStep::Retry(30));
    assert_eq!(step(4, ModuleListing::Unreadable), ModuleStep::Finished(None));
    assert_eq!(step(0, ModuleListing::Failed(5)), ModuleStep::Finished(None));
    assert_eq!(
        step(0, ModuleListing::Listed(modules)),
        ModuleStep::Finished(Some(RemoteModule { base: 1, size: 0x5000 }))
    );
}

#[test]
fn recovery_targets_must_be_proven() {
    assert_eq!(
        recovery_module(None).unwrap_err().message(),
        "steamclient64.dll is not loaded in Steam"
    );
    assert_eq!(
        recovery_module(Some(RemoteModule { base: 1, size: 0 })).unwrap_err().message(),
        "steamclient64.dll reported an implausible image size"
    );
    let module = RemoteModule { base: 1, size: 0x5000 };
    assert_eq!(recovery_module(Some(module)).unwrap(), module);
    let error = recovery_pattern(module, &[]).unwrap_err();
    assert!(matches!(error, Error::UnsupportedSteamBuild(_)));
    assert_eq!(
        error.message(),
        "steamclient runtime recovery resolution failed: invalid steamclient PE image: DOS \
         signature is missing"
    );
    assert_eq!(choose_hid_thread(&[8]).unwrap(), Choice::Found(8));
    assert_eq!(choose_hid_thread(&[8, 16]).unwrap(), Choice::Elect);
    assert_eq!(
        choose_hid_thread(&[]).unwrap_err().message(),
        "runtime RTTI resolved, but Steam's live CHIDIOThread object was not found"
    );
    assert!(election_abandoned(2).message().contains("among 2 became unreadable"));
    let sample = SchedulerSample { deadline_bits: 0, counter: 1 };
    let election = Election::begin(vec![1, 2], Some(vec![sample, sample])).unwrap();
    assert!(election_undecided(&election).message().contains("but 2 live"));
}

#[test]
fn a_request_writes_once_to_a_live_object() {
    let mut request = ScanRequest::new(0x1088);
    assert!(matches!(request.next(ScanEvent::Validated(true)), ScanAction::ReadDeadline));
    assert!(matches!(request.next(ScanEvent::Deadline(Ok(77))), ScanAction::ReadCounter));
    assert!(matches!(
        request.next(ScanEvent::Counter(Ok(4))),
        ScanAction::Store(SCHEDULE_NOW)
    ));
    assert!(matches!(request.next(ScanEvent::Written(Ok(()))), ScanAction::Pause(2200)));
    assert!(matches!(request.next(ScanEvent::Paused), ScanAction::ReadCounter));
    match request.next(ScanEvent::Counter(Err(os_error(1)))) {
        ScanAction::Finish(Ok(result)) => assert_eq!(
            result,
            RescanResult { previous_deadline: 77, scan_count_before: 4, scan_count_after: 4 }
        ),
        other => panic!("unexpected: {other:?}"),
    }
}

#[test]
fn a_request_stops_before_it_would_guess() {
    let text = |action| match action {
        ScanAction::Finish(Err(error)) => error.message(),
        other => panic!("unexpected: {other:?}"),
    };
    assert_eq!(
        text(ScanRequest::new(0x1088).next(ScanEvent::Validated(false))),
        "Steam's CHIDIOThread object is no longer valid at the resolved address"
    );
    assert_eq!(
        text(ScanRequest::new(0x1084).next(ScanEvent::Validated(true))),
        "Steam's discovery deadline is not aligned at the resolved address"
    );
    let mut request = ScanRequest::new(8);
    request.next(ScanEvent::Validated(true));
    assert_eq!(
        text(request.next(ScanEvent::Deadline(Err(os_error(3))))),
        "ReadProcessMemory failed: error 3"
    );
    let mut request = ScanRequest::new(8);
    request.next(ScanEvent::Validated(true));
    request.next(ScanEvent::Deadline(Ok(1)));
    request.next(ScanEvent::Counter(Ok(1)));
    assert_eq!(
        text(request.next(ScanEvent::Written(Err(os_error(3))))),
        "could not request Steam controller discovery: error 3"
    );
}

#[test]
fn loading_ends_where_it_fails() {
    let text = |stage| match stage {
        LoadStage::Finished(Err(error)) | LoadStage::Freeing(Err(error)) => error.message(),
        other => panic!("unexpected: {other:?}"),
    };
    let fail = |stage| inject_payload(stage, LoadEvent::Failed(os_error(5)));
    assert_eq!(text(fail(LoadStage::Opening)), "OpenProcess failed: error 5");
    assert_eq!(
        text(fail(LoadStage::FindingModule)),
        "could not locate kernel32.dll in the target"
    );
    assert_eq!(text(fail(LoadStage::FindingFunction)), "could not locate LoadLibraryW");
    assert_eq!(
        text(fail(LoadStage::ResolvingPath)),
        "could not resolve payload path: error 5"
    );
    assert!(matches!(fail(LoadStage::Writing), LoadStage::Freeing(Err(_))));
    assert!(matches!(fail(LoadStage::Starting), LoadStage::Freeing(Err(_))));
    assert!(matches!(
        fail(LoadStage::Comparing),
        LoadStage::Finished(Err(Error::ArchitectureMismatch))
    ));
}

#[test]
fn the_path_is_freed_only_when_the_thread_is_gone() {
    let wait = |code| inject_payload(LoadStage::Waiting, LoadEvent::Waited(code, os_error(5)));
    assert!(matches!(wait(WAIT_OBJECT_0), LoadStage::ReadingResult));
    assert!(matches!(wait(WAIT_TIMEOUT), LoadStage::Finished(Err(Error::Message(_)))));
    assert!(matches!(wait(9), LoadStage::Finished(Err(Error::Windows { .. }))));
    let freeing = inject_payload(LoadStage::ReadingResult, LoadEvent::Succeeded);
    assert!(matches!(freeing, LoadStage::Freeing(Ok(()))));
    assert!(matches!(
        inject_payload(freeing, LoadEvent::Succeeded),
        LoadStage::Finished(Ok(()))
    ));
    assert!(same_architecture(Some((0, 1)), Some((0, 1))));
    assert!(!same_architecture(Some((0, 1)), Some((2, 1))));
    assert!(!same_architecture(None, None));
    assert_eq!(relocated(0x9000, 0x1000, 0x1234), Some(0x9234));
    assert_eq!(relocated(0x9000, 0x1000, 0x0fff), None);
}
