//! The launcher's command line and messages.

use steam_input_lease::cli::{
    parse, rescan_line, run_command, run_unleased, status_line, usage, AfterRun, Invocation, Level,
    Mode, RESIDENT_CONNECT_TIMEOUT,
};
use steam_input_lease::client::{
    ClientOptions, RecoveryOutcome, ReleaseOutcome, RescanResult, Status, WrappedRun,
};
use steam_input_lease::error::Error;

fn wide(text: &str) -> Vec<u16> {
    text.encode_utf16().collect()
}

fn parse_args(arguments: &[&str]) -> Result<Invocation, String> {
    parse(
        &arguments.iter().map(|text| wide(text)).collect(),
        ClientOptions::beside_executable(None),
    )
}

#[test]
fn a_launch_connects_only_to_a_resident_gate_by_default() {
    let invocation = parse_args(&["--", "game.exe", "--fullscreen"]).expect("valid launch");
    assert!(!invocation.options.allow_injection);
    assert_eq!(invocation.options.connect_timeout, RESIDENT_CONNECT_TIMEOUT);
    assert_eq!(
        invocation.mode,
        Mode::Run(vec![wide("game.exe"), wide("--fullscreen")])
    );
}

#[test]
fn everything_after_the_separator_belongs_to_the_program() {
    let invocation = parse_args(&["--", "game.exe", "--status", "--", "-h"]).expect("valid launch");
    assert_eq!(
        invocation.mode,
        Mode::Run(vec![
            wide("game.exe"),
            wide("--status"),
            wide("--"),
            wide("-h")
        ])
    );
}

#[test]
fn injection_is_opt_in_and_keeps_the_longer_startup_wait() {
    let invocation = parse_args(&["--inject", "--payload", r"D:\gate.dll", "--", "game.exe"])
        .expect("valid injecting launch");
    assert!(invocation.options.allow_injection);
    assert_eq!(invocation.options.payload_path, wide(r"D:\gate.dll"));
    assert_eq!(
        invocation.options.connect_timeout,
        ClientOptions::beside_executable(None).connect_timeout
    );
}

#[test]
fn a_payload_without_inject_is_rejected() {
    let error = parse_args(&["--payload", r"D:\gate.dll", "--", "game.exe"])
        .expect_err("--payload alone must be refused");
    assert!(error.contains("--inject"), "unexpected error: {error}");
}

#[test]
fn diagnostics_take_precedence_over_a_command() {
    let invocation = parse_args(&["--status", "--", "game.exe"]).expect("valid status");
    assert_eq!(invocation.mode, Mode::Status);
}

#[test]
fn a_launch_without_a_program_is_rejected() {
    assert!(parse_args(&[]).is_err());
    assert!(parse_args(&["--"]).is_err());
    assert!(parse_args(&["--bogus"]).is_err());
}

#[test]
fn every_refusal_says_why() {
    let refusal = |arguments: &[&str]| parse_args(arguments).unwrap_err();
    assert_eq!(refusal(&[]), "a program to run is required after --");
    assert_eq!(refusal(&["--bogus"]), "unknown option: --bogus");
    assert_eq!(refusal(&["--target-name"]), "--target-name requires a value");
    assert_eq!(refusal(&["--payload"]), "--payload requires a value");
    assert_eq!(
        refusal(&["--payload", "x", "--", "y"]),
        "--payload is only used together with --inject"
    );
    let broken = parse(
        &vec![wide("--target-name"), vec![0xd800], wide("--status")],
        ClientOptions::beside_executable(None),
    );
    assert_eq!(broken.unwrap_err(), "--target-name must be valid Unicode");
    let broken = parse(&vec![vec![0xd800, 65]], ClientOptions::beside_executable(None));
    assert_eq!(broken.unwrap_err(), "unknown option: \u{FFFD}A");
}

#[test]
fn help_precedes_everything_and_names_are_kept() {
    let invocation = parse_args(&["--rescan", "-h", "--status"]).unwrap();
    assert_eq!(invocation.mode, Mode::Help);
    let invocation = parse_args(&["--rescan", "--target-name", "täst.exe"]).unwrap();
    assert_eq!(invocation.mode, Mode::Rescan);
    assert_eq!(invocation.options.target_name, "täst.exe");
    assert!(usage("1.2.3").starts_with("Steam Input Lease 1.2.3\n\nStops Steam Input"));
    assert!(usage("1.2.3").ends_with("--help, -h           show this text"));
}

fn status() -> Status {
    Status {
        capabilities: 1,
        lease_count: 2,
        hid_handle_count: 3,
        last_revoked_handle_count: 4,
    }
}

fn ran(release: Result<ReleaseOutcome, Error>) -> Vec<(Level, String)> {
    match run_command(&Ok(WrappedRun { exit_code: 7, release })) {
        AfterRun::Exit(7, messages) => messages
            .into_iter()
            .map(|message| (message.level, message.text))
            .collect(),
        other => panic!("unexpected: {other:?}"),
    }
}

#[test]
fn a_finished_run_reports_its_release() {
    let unblocked = "Process tree exited with code 7; Steam Input unblocked.".to_string();
    assert_eq!(
        ran(Ok(ReleaseOutcome { status: status(), recovery: RecoveryOutcome::Scheduled })),
        vec![(Level::Information, unblocked.clone())]
    );
    let failed = RecoveryOutcome::Unavailable(Error::Message("gone".into()));
    assert_eq!(
        ran(Ok(ReleaseOutcome { status: status(), recovery: failed })),
        vec![
            (Level::Information, unblocked),
            (
                Level::Warning,
                "Steam was not asked to look for controllers again: gone".to_string()
            )
        ]
    );
    assert_eq!(
        ran(Err(Error::Message("lost".into()))),
        vec![(
            Level::Warning,
            "Process tree exited with code 7; Steam Input unblocked, but the release handshake \
             failed and controller recovery did not run: lost"
                .to_string()
        )]
    );
}

#[test]
fn a_launch_without_a_lease_fails_open() {
    match run_command(&Err(Error::TargetNotFound("steam.exe".into()))) {
        AfterRun::RunUnleased(message) => assert_eq!(
            message.text,
            "Steam Input block unavailable (target process is not running: steam.exe); starting \
             without it."
        ),
        other => panic!("unexpected: {other:?}"),
    }
    let (code, message) = run_unleased(&Ok(0xC000_0005));
    assert_eq!(code, 0xC000_0005);
    assert_eq!(message.text, "Process tree exited with code 3221225477.");
    let (code, message) = run_unleased(&Err(Error::Message("no".into())));
    assert_eq!(code, 1);
    assert_eq!(message.text, "Could not start the program: no");
}

#[test]
fn diagnostics_have_their_lines() {
    assert_eq!(
        status_line(status()),
        "Gate active; leases=2, tracked HID handles=3, handles revoked by last transition=4."
    );
    let result = RescanResult {
        previous_deadline: 0,
        scan_count_before: 10,
        scan_count_after: 12,
    };
    assert_eq!(
        rescan_line(result),
        "Requested Steam controller discovery (scan counter 10 -> 12)."
    );
}
