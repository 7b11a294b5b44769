//! Command lines, environments and process trees.

use steam_input_lease::error::{Error, OsError};
use steam_input_lease::launch::{
    command_line, is_ignored_entry, launch_and_wait, quote_argument, units_eq_ignore_ascii_case,
    wide_eq_ignore_ascii_case,
    wrapped_environment, LaunchEvent, LaunchStage, ERROR_PROCESS_ABORTED,
};

fn wide(text: &str) -> Vec<u16> {
    text.encode_utf16().collect()
}

fn quoted(text: &str) -> String {
    String::from_utf16_lossy(&quote_argument(&wide(text)))
}

#[test]
fn windows_command_line_quoting_matches_command_line_to_argv_rules() {
    assert_eq!(quoted("plain"), "plain");
    assert_eq!(quoted("two words"), "\"two words\"");
    assert_eq!(quoted(r#"a\"b"#), "\"a\\\\\\\"b\"");
}

#[test]
fn empty_and_backslashed_arguments_are_quoted_too() {
    assert_eq!(quoted(""), "\"\"");
    assert_eq!(quoted(r"C:\dir\"), r"C:\dir\");
    assert_eq!(quoted(r"C:\my dir\"), "\"C:\\my dir\\\\\"");
    assert_eq!(quoted("tab\there"), "\"tab\there\"");
    assert_eq!(quoted("line\nhere"), "\"line\nhere\"");
}

#[test]
fn command_lines_join_their_arguments() {
    let line = command_line(&vec![wide(r"C:\a b\g.exe"), wide("-x"), wide(""), wide("c d")]);
    assert_eq!(line.last(), Some(&0));
    assert_eq!(
        String::from_utf16_lossy(&line[..line.len() - 1]),
        "\"C:\\a b\\g.exe\" -x \"\" \"c d\""
    );
    assert_eq!(command_line(&vec![]), vec![0]);
}

/// Reads arguments off a command line by the documented rules.
fn split(line: &[u16]) -> Vec<Vec<u16>> {
    let mut arguments = Vec::new();
    let mut current: Option<Vec<u16>> = None;
    let mut quotes = false;
    let mut slashes = 0;
    for &unit in line.iter().chain(&[0]) {
        if unit == 92 {
            slashes += 1;
            current.get_or_insert_with(Vec::new);
            continue;
        }
        if unit == 34 {
            let text = current.get_or_insert_with(Vec::new);
            text.extend(vec![92; slashes / 2]);
            if slashes % 2 == 1 {
                text.push(34);
            } else {
                quotes = !quotes;
            }
            slashes = 0;
            continue;
        }
        if slashes > 0 {
            current.get_or_insert_with(Vec::new).extend(vec![92; slashes]);
            slashes = 0;
        }
        if unit == 0 || (!quotes && (unit == 32 || unit == 9)) {
            arguments.extend(current.take());
        } else {
            current.get_or_insert_with(Vec::new).push(unit);
        }
    }
    arguments
}

#[test]
fn command_lines_read_back_as_their_arguments() {
    let arguments: Vec<Vec<u16>> = [
        "plain", "two words", "", "\"", "\\", "\\\\", "a\\", "a b\\", "\\\"", "\" \\\\\" ", "x\\\\y z",
    ]
    .iter()
    .map(|text| wide(text))
    .collect();
    let line = command_line(&arguments);
    assert_eq!(split(&line[..line.len() - 1]), arguments);
}

#[test]
fn the_ignore_variable_is_removed_in_any_case() {
    assert!(is_ignored_entry(&wide("SDL_GAMECONTROLLER_IGNORE_DEVICES=0x1")));
    assert!(is_ignored_entry(&wide("sdl_GameController_ignore_devices=")));
    assert!(!is_ignored_entry(&wide("SDL_GAMECONTROLLER_IGNORE_DEVICES_EXCEPT=0x1")));
    assert!(!is_ignored_entry(&wide("SDL_GAMECONTROLLER_IGNORE_DEVICES")));
    assert!(!is_ignored_entry(&wide("=C:=C:\\")));
}

#[test]
fn a_wrapped_environment_keeps_everything_else() {
    let block = wrapped_environment(&vec![
        wide("=C:=C:\\"),
        wide("SDL_gamecontroller_IGNORE_devices=x"),
        wide("SteamAppId=7"),
    ]);
    assert_eq!(String::from_utf16_lossy(&block), "=C:=C:\\\0SteamAppId=7\0\0");
    assert_eq!(wrapped_environment(&vec![]), vec![0, 0]);
}

#[test]
fn names_match_by_ascii_alone() {
    assert!(wide_eq_ignore_ascii_case(&wide("Steam.EXE"), "steam.exe"));
    assert!(!wide_eq_ignore_ascii_case(&wide("steam.ex"), "steam.exe"));
    // A unit whose low byte is a matching letter is still another character.
    assert!(!wide_eq_ignore_ascii_case(&[0x173], "s"));
    assert!(!wide_eq_ignore_ascii_case(&wide("ä"), "ä"));
    // Units end at the first zero unit, unless all of them are compared.
    assert!(wide_eq_ignore_ascii_case(&[0x73, 0], "s"));
    assert!(wide_eq_ignore_ascii_case(&[0x73, 0, 0x74], "S"));
    assert!(!wide_eq_ignore_ascii_case(&[0x73, 0x74], "s"));
    assert!(wide_eq_ignore_ascii_case(&[0, 0x73], ""));
    assert!(!units_eq_ignore_ascii_case(&[0x73, 0], "s"));
    assert!(units_eq_ignore_ascii_case(&[0x73], "S"));
}

fn os_error(code: u32) -> OsError {
    OsError { code, text: format!("error {code}") }
}

fn run(events: Vec<LaunchEvent>) -> LaunchStage {
    events.into_iter().fold(LaunchStage::Creating, launch_and_wait)
}

#[test]
fn a_program_runs_in_its_job_until_the_tree_is_gone() {
    let stage = run(vec![
        LaunchEvent::Succeeded,
        LaunchEvent::Succeeded,
        LaunchEvent::Succeeded,
        LaunchEvent::Succeeded,
        LaunchEvent::Active(2),
        LaunchEvent::Succeeded,
        LaunchEvent::Active(0),
        LaunchEvent::Exited(0xC000_0005),
    ]);
    assert!(matches!(stage, LaunchStage::Finished(Ok(0xC000_0005))));
}

#[test]
fn failures_before_the_start_terminate_and_report() {
    let stage = run(vec![LaunchEvent::Failed(os_error(2))]);
    let LaunchStage::Finished(Err(error)) = stage else {
        panic!("expected an error");
    };
    assert_eq!(error.message(), "could not start wrapped process: error 2");
    for (before, operation) in [
        (1, "could not create the process job: error 5"),
        (2, "could not assign the process to its job: error 5"),
        (3, "could not resume the wrapped process: error 5"),
    ] {
        let mut events: Vec<LaunchEvent> = (0..before).map(|_| LaunchEvent::Succeeded).collect();
        events.push(LaunchEvent::Failed(os_error(5)));
        let stage = run(events);
        assert!(matches!(stage, LaunchStage::TerminatingProcess(_)));
        let LaunchStage::Finished(Err(error)) = launch_and_wait(stage, LaunchEvent::Succeeded)
        else {
            panic!("expected an error");
        };
        assert!(matches!(error, Error::Windows { .. }));
        assert_eq!(error.message(), operation);
    }
}

#[test]
fn failures_after_the_start_are_no_errors() {
    let mut events: Vec<LaunchEvent> = (0..4).map(|_| LaunchEvent::Succeeded).collect();
    events.push(LaunchEvent::Failed(os_error(5)));
    let stage = run(events);
    assert!(matches!(stage, LaunchStage::TerminatingJob));
    assert!(matches!(
        launch_and_wait(stage, LaunchEvent::Succeeded),
        LaunchStage::Finished(Ok(ERROR_PROCESS_ABORTED))
    ));
    let mut events: Vec<LaunchEvent> = (0..4).map(|_| LaunchEvent::Succeeded).collect();
    events.push(LaunchEvent::Active(0));
    events.push(LaunchEvent::Failed(os_error(6)));
    assert!(matches!(run(events), LaunchStage::Finished(Ok(0))));
}
