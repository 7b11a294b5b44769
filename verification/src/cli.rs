//! The console launcher: its command line, messages and exit codes.

use vstd::prelude::*;
use vstd::string::*;

use crate::client::{ClientOptions, RecoveryOutcome, RescanResult, Status, WrappedRun};
use crate::error::{owned, Error};
use crate::launch::views;
use crate::text::{
    copy_units, decimal, decode_wide, encode_wide, lemma_ascii_units, push_decimal, same_units,
    utf16, utf16_lossy, utf16_well_formed,
};

verus! {

/// How long a launch that may not inject waits for the payload, in milliseconds. A
/// resident payload keeps its pipe open, so a missing pipe is an answer.
pub const RESIDENT_CONNECT_TIMEOUT: u64 = 2_000;

/// File name of the record of the last launch.
pub const LOG_FILE_NAME: &'static str = "steam-input-lease.log";

/// The usage text behind the version.
pub const USAGE: &'static str = "

Stops Steam Input from holding your controllers while a program runs, and gives
them back when the program and everything it started have exited.

Run a program through it:
  steam-input-lease.exe [options] -- program.exe [arguments...]

Steam launch options (with steam-input-lease.exe beside steam.exe):
  \"C:\\Program Files (x86)\\Steam\\steam-input-lease.exe\" -- %command%

Diagnostics:
  steam-input-lease.exe --status   query a gate that Steam has loaded
  steam-input-lease.exe --rescan   ask Steam to look for controllers again

Options:
  --inject             load steam_input_gate.dll into the target when no gate answers
  --payload PATH       the DLL --inject loads (default: beside this executable)
  --target-name NAME   target process instead of steam.exe
  --help, -h           show this text";

/// The usage text of a version.
pub fn usage(version: &str) -> (text: String)
    ensures
        text@ == "Steam Input Lease "@ + version@ + USAGE@,
{
    let mut text = String::new();
    text.append("Steam Input Lease ");
    text.append(version);
    text.append(USAGE);
    assert(text@ =~= "Steam Input Lease "@ + version@ + USAGE@);
    text
}

/// What an invocation asks for.
#[derive(Debug, PartialEq, Eq)]
pub enum Mode {
    /// Show the usage text.
    Help,
    /// Query the payload.
    Status,
    /// Run controller recovery.
    Rescan,
    /// Run a program with arguments under a lease.
    Run(Vec<Vec<u16>>),
}

/// A parsed command line.
#[derive(Debug)]
pub struct Invocation {
    /// How to reach the payload.
    pub options: ClientOptions,
    /// What to do.
    pub mode: Mode,
}

/// What the options of a command line say.
pub struct Switches {
    /// Target name, where one was given.
    pub target: Option<Seq<char>>,
    /// Payload path, where one was given.
    pub payload: Option<Seq<u16>>,
    /// Whether injection was asked for.
    pub inject: bool,
    /// Whether help was asked for.
    pub help: bool,
    /// Whether the status was asked for.
    pub status: bool,
    /// Whether recovery was asked for.
    pub rescan: bool,
    /// What follows the separator, where there is one.
    pub command: Option<Seq<Seq<u16>>>,
}

impl Switches {
    /// Nothing was given yet.
    pub open spec fn none() -> Switches {
        Switches {
            target: None,
            payload: None,
            inject: false,
            help: false,
            status: false,
            rescan: false,
            command: None,
        }
    }

    /// What arguments add to what came before them, or what is wrong with them.
    /// Everything behind the separator belongs to the program.
    pub open spec fn read(self, arguments: Seq<Seq<u16>>) -> Result<Switches, Seq<char>>
        decreases arguments.len(),
    {
        if arguments.len() == 0 {
            Ok(self)
        } else {
            let first = arguments[0];
            if first == utf16("--"@) {
                Ok(Switches { command: Some(arguments.skip(1)), ..self })
            } else if first == utf16("--status"@) {
                Switches { status: true, ..self }.read(arguments.skip(1))
            } else if first == utf16("--rescan"@) {
                Switches { rescan: true, ..self }.read(arguments.skip(1))
            } else if first == utf16("--inject"@) {
                Switches { inject: true, ..self }.read(arguments.skip(1))
            } else if first == utf16("--target-name"@) {
                if arguments.len() < 2 {
                    Err("--target-name requires a value"@)
                } else if !utf16_well_formed(arguments[1]) {
                    Err("--target-name must be valid Unicode"@)
                } else {
                    Switches { target: Some(utf16_lossy(arguments[1])), ..self }.read(
                        arguments.skip(2),
                    )
                }
            } else if first == utf16("--payload"@) {
                if arguments.len() < 2 {
                    Err("--payload requires a value"@)
                } else {
                    Switches { payload: Some(arguments[1]), ..self }.read(arguments.skip(2))
                }
            } else if first == utf16("--help"@) || first == utf16("-h"@) {
                Switches { help: true, ..self }.read(arguments.skip(1))
            } else {
                Err("unknown option: "@ + utf16_lossy(first))
            }
        }
    }

    /// What is wrong with the switches together.
    pub open spec fn conflict(self) -> Option<Seq<char>> {
        if self.payload is Some && !self.inject {
            Some("--payload is only used together with --inject"@)
        } else if !self.help && !self.status && !self.rescan && (self.command is None
            || self.command->0.len() == 0) {
            Some("a program to run is required after --"@)
        } else {
            None
        }
    }

    /// Whether options are the defaults with the switches applied.
    pub open spec fn applied(self, defaults: ClientOptions, options: ClientOptions) -> bool {
        &&& options.target_name@ == match self.target {
            Some(name) => name,
            None => defaults.target_name@,
        }
        &&& options.payload_path@ == match self.payload {
            Some(path) => path,
            None => defaults.payload_path@,
        }
        &&& options.allow_injection == (self.inject || defaults.allow_injection)
        &&& options.connect_timeout == if options.allow_injection {
            defaults.connect_timeout
        } else {
            RESIDENT_CONNECT_TIMEOUT
        }
    }

    /// Whether a mode is what the switches ask for. Help and diagnostics precede a
    /// program on the same line.
    pub open spec fn selects(self, mode: Mode) -> bool {
        if self.help {
            mode is Help
        } else if self.status {
            mode is Status
        } else if self.rescan {
            mode is Rescan
        } else {
            mode is Run && views(mode->Run_0@) == self.command->0
        }
    }
}

fn is_option(argument: &Vec<u16>, option: &str) -> (equal: bool)
    ensures
        equal == (argument@ == utf16(option@)),
{
    let expected = encode_wide(option);
    same_units(argument, &expected)
}

fn copy_from(arguments: &Vec<Vec<u16>>, start: usize) -> (result: Vec<Vec<u16>>)
    requires
        start <= arguments@.len(),
    ensures
        views(result@) == views(arguments@).skip(start as int),
{
    let mut result: Vec<Vec<u16>> = Vec::new();
    let mut index: usize = start;
    let ghost whole = views(arguments@).skip(start as int);
    while index < arguments.len()
        invariant
            start <= index <= arguments.len(),
            whole == views(arguments@).skip(start as int),
            result@.len() == index - start,
            forall|at: int| 0 <= at < index - start ==> (#[trigger] result@[at])@ == whole[at],
        decreases arguments.len() - index,
    {
        let next = copy_units(&arguments[index]);
        assert(next@ == whole[index - start]);
        result.push(next);
        index = index + 1;
    }
    assert(views(result@) =~= whole);
    result
}

/// The switches read so far.
struct Reading {
    target: Option<String>,
    payload: Option<Vec<u16>>,
    inject: bool,
    help: bool,
    status: bool,
    rescan: bool,
    command: Option<Vec<Vec<u16>>>,
}

impl Reading {
    spec fn switches(&self) -> Switches {
        Switches {
            target: match self.target {
                Some(name) => Some(name@),
                None => None,
            },
            payload: match self.payload {
                Some(path) => Some(path@),
                None => None,
            },
            inject: self.inject,
            help: self.help,
            status: self.status,
            rescan: self.rescan,
            command: match self.command {
                Some(command) => Some(views(command@)),
                None => None,
            },
        }
    }
}

fn read_switches(arguments: &Vec<Vec<u16>>) -> (read: Result<Reading, String>)
    ensures
        match read {
            Ok(reading) => Switches::none().read(views(arguments@)) == Ok::<Switches, Seq<char>>(
                reading.switches(),
            ),
            Err(text) => Switches::none().read(views(arguments@)) == Err::<Switches, Seq<char>>(
                text@,
            ),
        },
{
    let mut reading = Reading {
        target: None,
        payload: None,
        inject: false,
        help: false,
        status: false,
        rescan: false,
        command: None,
    };
    let ghost all = views(arguments@);
    let mut index: usize = 0;
    assert(all.skip(0) =~= all);
    while index < arguments.len()
        invariant
            index <= arguments.len(),
            all == views(arguments@),
            Switches::none().read(all) == reading.switches().read(all.skip(index as int)),
        decreases arguments.len() - index,
    {
        let argument = &arguments[index];
        let ghost rest = all.skip(index as int);
        assert(rest[0] == argument@);
        assert(rest.skip(1) =~= all.skip(index + 1));
        if is_option(argument, "--") {
            reading.command = Some(copy_from(arguments, index + 1));
            return Ok(reading);
        } else if is_option(argument, "--status") {
            reading.status = true;
        } else if is_option(argument, "--rescan") {
            reading.rescan = true;
        } else if is_option(argument, "--inject") {
            reading.inject = true;
        } else if is_option(argument, "--target-name") {
            index = index + 1;
            if index >= arguments.len() {
                return Err(owned("--target-name requires a value"));
            }
            assert(rest[1] == arguments@[index as int]@);
            assert(rest.skip(2) =~= all.skip(index + 1));
            let decoded = decode_wide(&arguments[index]);
            if !decoded.1 {
                return Err(owned("--target-name must be valid Unicode"));
            }
            reading.target = Some(decoded.0);
        } else if is_option(argument, "--payload") {
            index = index + 1;
            if index >= arguments.len() {
                return Err(owned("--payload requires a value"));
            }
            assert(rest[1] == arguments@[index as int]@);
            assert(rest.skip(2) =~= all.skip(index + 1));
            reading.payload = Some(copy_units(&arguments[index]));
        } else if is_option(argument, "--help") || is_option(argument, "-h") {
            reading.help = true;
        } else {
            let mut text = owned("unknown option: ");
            let decoded = decode_wide(argument);
            text.append(decoded.0.as_str());
            assert(text@ =~= "unknown option: "@ + utf16_lossy(argument@));
            return Err(text);
        }
        index = index + 1;
    }
    assert(all.skip(index as int).len() == 0);
    Ok(reading)
}

/// Parses a command line, over the options that a launcher has by default.
pub fn parse(arguments: &Vec<Vec<u16>>, defaults: ClientOptions) -> (parsed: Result<
    Invocation,
    String,
>)
    ensures
        match (Switches::none().read(views(arguments@)), parsed) {
            (Ok(switches), Ok(invocation)) => {
                &&& switches.conflict() is None
                &&& switches.applied(defaults, invocation.options)
                &&& switches.selects(invocation.mode)
            },
            (Ok(switches), Err(text)) => switches.conflict() == Some(text@),
            (Err(reason), Err(text)) => text@ == reason,
            (Err(_), Ok(_)) => false,
        },
{
    let reading = match read_switches(arguments) {
        Ok(reading) => reading,
        Err(text) => {
            return Err(text);
        },
    };
    let mut options = defaults;
    if reading.inject {
        options.allow_injection = true;
    }
    if let Some(name) = reading.target {
        options.target_name = name;
    }
    if let Some(path) = reading.payload {
        if !reading.inject {
            return Err(owned("--payload is only used together with --inject"));
        }
        options.payload_path = path;
    }
    if !options.allow_injection {
        options.connect_timeout = RESIDENT_CONNECT_TIMEOUT;
    }
    let mode: Mode = if reading.help {
        Mode::Help
    } else if reading.status {
        Mode::Status
    } else if reading.rescan {
        Mode::Rescan
    } else {
        match reading.command {
            Some(command) => if command.len() > 0 {
                Mode::Run(command)
            } else {
                return Err(owned("a program to run is required after --"));
            },
            None => {
                return Err(owned("a program to run is required after --"));
            },
        }
    };
    Ok(Invocation { options, mode })
}

/// What follows the separator reaches the program as it stands, whatever it looks
/// like.
pub proof fn law_the_rest_belongs_to_the_program(switches: Switches, rest: Seq<Seq<u16>>)
    ensures
        switches.read(seq![utf16("--"@)] + rest) == Ok::<Switches, Seq<char>>(
            Switches { command: Some(rest), ..switches },
        ),
{
    let arguments = seq![utf16("--"@)] + rest;
    assert(arguments.skip(1) =~= rest);
}

/// Where a message goes besides the record of the launch.
#[derive(Clone, Copy, Debug, PartialEq, Eq, Structural)]
pub enum Level {
    /// To the standard output.
    Information,
    /// To the standard error output.
    Warning,
}

/// A message of the launcher.
#[derive(Debug)]
pub struct Message {
    /// Where it goes.
    pub level: Level,
    /// What it says.
    pub text: String,
}

/// Whether a message says something at a level.
pub open spec fn says(message: Message, level: Level, text: Seq<char>) -> bool {
    message.level == level && message.text@ == text
}

/// What the launcher does after an attempt to run a program under a lease.
#[derive(Debug)]
pub enum AfterRun {
    /// The program ran: show the messages and exit with its code.
    Exit(u32, Vec<Message>),
    /// The program never started: show the message and run it without a lease.
    RunUnleased(Message),
}

/// Whether what follows an attempt is right.
pub open spec fn follows(run: Result<WrappedRun, Error>, after: AfterRun) -> bool {
    match run {
        Ok(done) => {
            &&& after matches AfterRun::Exit(code, messages)
            &&& code == done.exit_code
            &&& messages@.len() > 0
            &&& match done.release {
                Ok(outcome) => {
                    &&& says(
                        messages@[0],
                        Level::Information,
                        "Process tree exited with code "@ + decimal(code as nat)
                            + "; Steam Input unblocked."@,
                    )
                    &&& match outcome.recovery {
                        RecoveryOutcome::Unavailable(error) => messages@.len() == 2 && says(
                            messages@[1],
                            Level::Warning,
                            "Steam was not asked to look for controllers again: "@ + error.text(),
                        ),
                        _ => messages@.len() == 1,
                    }
                },
                Err(error) => messages@.len() == 1 && says(
                    messages@[0],
                    Level::Warning,
                    "Process tree exited with code "@ + decimal(code as nat)
                        + "; Steam Input unblocked, but the release handshake failed and controller recovery did not run: "@
                        + error.text(),
                ),
            }
        },
        Err(error) => {
            &&& after matches AfterRun::RunUnleased(message)
            &&& says(
                message,
                Level::Warning,
                "Steam Input block unavailable ("@ + error.text() + "); starting without it."@,
            )
        },
    }
}

/// Decides what follows an attempt to run a program under a lease.
///
/// The launcher fails open: an error means that the program never started, so
/// starting it without a lease cannot run it twice.
pub fn run_command(run: &Result<WrappedRun, Error>) -> (after: AfterRun)
    ensures
        follows(*run, after),
{
    match run {
        Ok(done) => {
            let mut messages: Vec<Message> = Vec::new();
            let mut text = owned("Process tree exited with code ");
            push_decimal(&mut text, done.exit_code as u64);
            match &done.release {
                Ok(outcome) => {
                    text.append("; Steam Input unblocked.");
                    assert(text@ =~= "Process tree exited with code "@ + decimal(
                        done.exit_code as nat,
                    ) + "; Steam Input unblocked."@);
                    messages.push(Message { level: Level::Information, text });
                    if let Some(error) = outcome.recovery.error() {
                        let mut warning = owned(
                            "Steam was not asked to look for controllers again: ",
                        );
                        let reason = error.message();
                        warning.append(reason.as_str());
                        assert(warning@ =~= "Steam was not asked to look for controllers again: "@
                            + error.text());
                        messages.push(Message { level: Level::Warning, text: warning });
                    }
                },
                Err(error) => {
                    text.append(
                        "; Steam Input unblocked, but the release handshake failed and controller recovery did not run: ",
                    );
                    let reason = error.message();
                    text.append(reason.as_str());
                    assert(text@ =~= "Process tree exited with code "@ + decimal(
                        done.exit_code as nat,
                    )
                        + "; Steam Input unblocked, but the release handshake failed and controller recovery did not run: "@
                        + error.text());
                    messages.push(Message { level: Level::Warning, text });
                },
            }
            AfterRun::Exit(done.exit_code, messages)
        },
        Err(error) => {
            let mut text = owned("Steam Input block unavailable (");
            let reason = error.message();
            text.append(reason.as_str());
            text.append("); starting without it.");
            assert(text@ =~= "Steam Input block unavailable ("@ + error.text()
                + "); starting without it."@);
            AfterRun::RunUnleased(Message { level: Level::Warning, text })
        },
    }
}

/// The exit code and message after a run without a lease.
pub fn run_unleased(run: &Result<u32, Error>) -> (after: (u32, Message))
    ensures
        match *run {
            Ok(code) => after.0 == code && says(
                after.1,
                Level::Information,
                "Process tree exited with code "@ + decimal(code as nat) + "."@,
            ),
            Err(error) => after.0 == 1 && says(
                after.1,
                Level::Warning,
                "Could not start the program: "@ + error.text(),
            ),
        },
{
    match run {
        Ok(code) => {
            let mut text = owned("Process tree exited with code ");
            push_decimal(&mut text, *code as u64);
            text.append(".");
            assert(text@ =~= "Process tree exited with code "@ + decimal(*code as nat) + "."@);
            (*code, Message { level: Level::Information, text })
        },
        Err(error) => {
            let mut text = owned("Could not start the program: ");
            let reason = error.message();
            text.append(reason.as_str());
            assert(text@ =~= "Could not start the program: "@ + error.text());
            (1, Message { level: Level::Warning, text })
        },
    }
}

/// The line that reports a status.
pub fn status_line(status: Status) -> (text: String)
    ensures
        text@ == "Gate active; leases="@ + decimal(status.lease_count as nat)
            + ", tracked HID handles="@ + decimal(status.hid_handle_count as nat)
            + ", handles revoked by last transition="@ + decimal(
            status.last_revoked_handle_count as nat,
        ) + "."@,
{
    let mut text = owned("Gate active; leases=");
    push_decimal(&mut text, status.lease_count as u64);
    text.append(", tracked HID handles=");
    push_decimal(&mut text, status.hid_handle_count as u64);
    text.append(", handles revoked by last transition=");
    push_decimal(&mut text, status.last_revoked_handle_count as u64);
    text.append(".");
    assert(text@ =~= "Gate active; leases="@ + decimal(status.lease_count as nat)
        + ", tracked HID handles="@ + decimal(status.hid_handle_count as nat)
        + ", handles revoked by last transition="@ + decimal(
        status.last_revoked_handle_count as nat,
    ) + "."@);
    text
}

/// The line that reports a recovery.
pub fn rescan_line(result: RescanResult) -> (text: String)
    ensures
        text@ == "Requested Steam controller discovery (scan counter "@ + decimal(
            result.scan_count_before as nat,
        ) + " -> "@ + decimal(result.scan_count_after as nat) + ")."@,
{
    let mut text = owned("Requested Steam controller discovery (scan counter ");
    push_decimal(&mut text, result.scan_count_before as u64);
    text.append(" -> ");
    push_decimal(&mut text, result.scan_count_after as u64);
    text.append(").");
    assert(text@ =~= "Requested Steam controller discovery (scan counter "@ + decimal(
        result.scan_count_before as nat,
    ) + " -> "@ + decimal(result.scan_count_after as nat) + ")."@);
    text
}

proof fn lemma_options()
    ensures
        utf16("--"@) == seq![45u16, 45u16],
        utf16("-h"@) == seq![45u16, 104u16],
        utf16("--help"@).len() == 6,
        utf16("--status"@).len() == 8 && utf16("--status"@)[2] == 115,
        utf16("--rescan"@).len() == 8 && utf16("--rescan"@)[2] == 114,
        utf16("--inject"@).len() == 8 && utf16("--inject"@)[2] == 105,
        utf16("--payload"@).len() == 9,
        utf16("--target-name"@).len() == 13,
{
    reveal_strlit("--");
    reveal_strlit("-h");
    reveal_strlit("--help");
    reveal_strlit("--status");
    reveal_strlit("--rescan");
    reveal_strlit("--inject");
    reveal_strlit("--payload");
    reveal_strlit("--target-name");
    lemma_ascii_units("--"@);
    lemma_ascii_units("-h"@);
    lemma_ascii_units("--help"@);
    lemma_ascii_units("--status"@);
    lemma_ascii_units("--rescan"@);
    lemma_ascii_units("--inject"@);
    lemma_ascii_units("--payload"@);
    lemma_ascii_units("--target-name"@);
    assert(utf16("--"@)[0] as int == "--"@[0] as int && utf16("--"@)[1] as int == "--"@[1] as int);
    assert(utf16("-h"@)[0] as int == "-h"@[0] as int && utf16("-h"@)[1] as int == "-h"@[1] as int);
    assert(utf16("--"@) =~= seq![45u16, 45u16]);
    assert(utf16("-h"@) =~= seq![45u16, 104u16]);
    assert(utf16("--status"@)[2] as int == "--status"@[2] as int);
    assert(utf16("--rescan"@)[2] as int == "--rescan"@[2] as int);
    assert(utf16("--inject"@)[2] as int == "--inject"@[2] as int);
}

/// Nothing that was asked for is lost by what follows, and nothing is asked for that was
/// not given.
pub proof fn law_switches_are_those_given(switches: Switches, arguments: Seq<Seq<u16>>)
    requires
        switches.read(arguments) is Ok,
    ensures
        ({
            let read = switches.read(arguments)->Ok_0;
            &&& switches.status ==> read.status
            &&& switches.rescan ==> read.rescan
            &&& switches.inject ==> read.inject
            &&& switches.help ==> read.help
            &&& read.status ==> switches.status || arguments.contains(utf16("--status"@))
            &&& read.rescan ==> switches.rescan || arguments.contains(utf16("--rescan"@))
            &&& read.inject ==> switches.inject || arguments.contains(utf16("--inject"@))
            &&& read.help ==> switches.help || arguments.contains(utf16("--help"@))
                || arguments.contains(utf16("-h"@))
            &&& !arguments.contains(utf16("--payload"@)) ==> read.payload == switches.payload
            &&& !arguments.contains(utf16("--target-name"@)) ==> read.target == switches.target
            &&& !arguments.contains(utf16("--"@)) ==> read.command == switches.command
            &&& switches.payload is Some ==> read.payload is Some
            &&& switches.target is Some ==> read.target is Some
        }),
    decreases arguments.len(),
{
    if arguments.len() > 0 {
        let first = arguments[0];
        let one = arguments.skip(1);
        let two = arguments.skip(2);
        assert(arguments.contains(first));
        assert forall|item: Seq<u16>| #[trigger] one.contains(item) implies arguments.contains(
            item,
        ) by {
            let at = choose|at: int| 0 <= at < one.len() && one[at] == item;
            assert(arguments[at + 1] == item);
        }
        if arguments.len() > 1 {
            assert forall|item: Seq<u16>| #[trigger] two.contains(item) implies arguments.contains(
                item,
            ) by {
                let at = choose|at: int| 0 <= at < two.len() && two[at] == item;
                assert(arguments[at + 2] == item);
            }
        }
        lemma_options();
        if first == utf16("--"@) {
        } else if first == utf16("--status"@) {
            law_switches_are_those_given(Switches { status: true, ..switches }, one);
        } else if first == utf16("--rescan"@) {
            law_switches_are_those_given(Switches { rescan: true, ..switches }, one);
        } else if first == utf16("--inject"@) {
            law_switches_are_those_given(Switches { inject: true, ..switches }, one);
        } else if first == utf16("--target-name"@) {
            law_switches_are_those_given(
                Switches { target: Some(utf16_lossy(arguments[1])), ..switches },
                two,
            );
        } else if first == utf16("--payload"@) {
            law_switches_are_those_given(
                Switches { payload: Some(arguments[1]), ..switches },
                two,
            );
        } else {
            law_switches_are_those_given(Switches { help: true, ..switches }, one);
        }
    }
}

/// A switch that is given first is in force at the end, whatever follows, and does not
/// change whether what follows is accepted.
pub proof fn law_a_given_switch_is_in_force(switches: Switches, rest: Seq<Seq<u16>>)
    ensures
        switches.read(seq![utf16("--status"@)] + rest) matches Ok(read) ==> read.status,
        switches.read(seq![utf16("--rescan"@)] + rest) matches Ok(read) ==> read.rescan,
        switches.read(seq![utf16("--inject"@)] + rest) matches Ok(read) ==> read.inject,
        switches.read(seq![utf16("--help"@)] + rest) matches Ok(read) ==> read.help,
        switches.read(seq![utf16("-h"@)] + rest) matches Ok(read) ==> read.help,
        switches.read(seq![utf16("--status"@)] + rest) is Ok <==> switches.read(rest) is Ok,
        switches.read(seq![utf16("--rescan"@)] + rest) is Ok <==> switches.read(rest) is Ok,
        switches.read(seq![utf16("--inject"@)] + rest) is Ok <==> switches.read(rest) is Ok,
        switches.read(seq![utf16("--help"@)] + rest) is Ok <==> switches.read(rest) is Ok,
        switches.read(seq![utf16("-h"@)] + rest) is Ok <==> switches.read(rest) is Ok,
{
    lemma_options();
    assert((seq![utf16("--status"@)] + rest).skip(1) =~= rest);
    assert((seq![utf16("--rescan"@)] + rest).skip(1) =~= rest);
    assert((seq![utf16("--inject"@)] + rest).skip(1) =~= rest);
    assert((seq![utf16("--help"@)] + rest).skip(1) =~= rest);
    assert((seq![utf16("-h"@)] + rest).skip(1) =~= rest);
    let status = Switches { status: true, ..switches };
    let rescan = Switches { rescan: true, ..switches };
    let inject = Switches { inject: true, ..switches };
    let help = Switches { help: true, ..switches };
    lemma_acceptance_is_the_same(switches, status, rest);
    lemma_acceptance_is_the_same(switches, rescan, rest);
    lemma_acceptance_is_the_same(switches, inject, rest);
    lemma_acceptance_is_the_same(switches, help, rest);
    if switches.read(rest) is Ok {
        law_switches_are_those_given(status, rest);
        law_switches_are_those_given(rescan, rest);
        law_switches_are_those_given(inject, rest);
        law_switches_are_those_given(help, rest);
    }
}

/// Whether arguments are accepted, and why not, does not depend on what came before them.
proof fn lemma_acceptance_is_the_same(
    first: Switches,
    second: Switches,
    arguments: Seq<Seq<u16>>,
)
    ensures
        first.read(arguments) is Ok <==> second.read(arguments) is Ok,
        first.read(arguments) matches Err(reason) ==> second.read(arguments) == Err::<
            Switches,
            Seq<char>,
        >(reason),
    decreases arguments.len(),
{
    if arguments.len() > 0 {
        let item = arguments[0];
        let one = arguments.skip(1);
        let two = arguments.skip(2);
        if item == utf16("--"@) {
        } else if item == utf16("--status"@) {
            lemma_acceptance_is_the_same(
                Switches { status: true, ..first },
                Switches { status: true, ..second },
                one,
            );
        } else if item == utf16("--rescan"@) {
            lemma_acceptance_is_the_same(
                Switches { rescan: true, ..first },
                Switches { rescan: true, ..second },
                one,
            );
        } else if item == utf16("--inject"@) {
            lemma_acceptance_is_the_same(
                Switches { inject: true, ..first },
                Switches { inject: true, ..second },
                one,
            );
        } else if item == utf16("--target-name"@) {
            if arguments.len() >= 2 {
                lemma_acceptance_is_the_same(
                    Switches { target: Some(utf16_lossy(arguments[1])), ..first },
                    Switches { target: Some(utf16_lossy(arguments[1])), ..second },
                    two,
                );
            }
        } else if item == utf16("--payload"@) {
            if arguments.len() >= 2 {
                lemma_acceptance_is_the_same(
                    Switches { payload: Some(arguments[1]), ..first },
                    Switches { payload: Some(arguments[1]), ..second },
                    two,
                );
            }
        } else if item == utf16("--help"@) || item == utf16("-h"@) {
            lemma_acceptance_is_the_same(
                Switches { help: true, ..first },
                Switches { help: true, ..second },
                one,
            );
        }
    }
}

/// A value belongs to its option, whatever it looks like, and the last one given counts. A
/// target's name must be Unicode text; a path need not be.
pub proof fn law_a_value_belongs_to_its_option(
    switches: Switches,
    value: Seq<u16>,
    rest: Seq<Seq<u16>>,
)
    ensures
        ({
            let payload = switches.read(seq![utf16("--payload"@), value] + rest);
            let target = switches.read(seq![utf16("--target-name"@), value] + rest);
            &&& payload is Ok <==> switches.read(rest) is Ok
            &&& payload is Ok && !rest.contains(utf16("--payload"@)) ==> payload->Ok_0.payload
                == Some(value)
            &&& target is Ok <==> utf16_well_formed(value) && switches.read(rest) is Ok
            &&& target is Ok && !rest.contains(utf16("--target-name"@)) ==> target->Ok_0.target
                == Some(utf16_lossy(value))
        }),
        switches.read(seq![utf16("--payload"@)]) == Err::<Switches, Seq<char>>(
            "--payload requires a value"@,
        ),
        switches.read(seq![utf16("--target-name"@)]) == Err::<Switches, Seq<char>>(
            "--target-name requires a value"@,
        ),
{
    lemma_options();
    let with_payload = seq![utf16("--payload"@), value] + rest;
    let with_target = seq![utf16("--target-name"@), value] + rest;
    assert(with_payload.skip(2) =~= rest && with_payload[0] == utf16("--payload"@)
        && with_payload[1] == value);
    assert(with_target.skip(2) =~= rest && with_target[0] == utf16("--target-name"@)
        && with_target[1] == value);
    let payload = Switches { payload: Some(value), ..switches };
    let target = Switches { target: Some(utf16_lossy(value)), ..switches };
    lemma_acceptance_is_the_same(switches, payload, rest);
    lemma_acceptance_is_the_same(switches, target, rest);
    if switches.read(rest) is Ok {
        law_switches_are_those_given(payload, rest);
        law_switches_are_those_given(target, rest);
    }
}

/// Whatever is no option is refused by name, before anything behind it is looked at.
pub proof fn law_an_unknown_option_is_refused(
    switches: Switches,
    unknown: Seq<u16>,
    rest: Seq<Seq<u16>>,
)
    requires
        unknown != utf16("--"@),
        unknown != utf16("--status"@),
        unknown != utf16("--rescan"@),
        unknown != utf16("--inject"@),
        unknown != utf16("--target-name"@),
        unknown != utf16("--payload"@),
        unknown != utf16("--help"@),
        unknown != utf16("-h"@),
    ensures
        switches.read(seq![unknown] + rest) == Err::<Switches, Seq<char>>(
            "unknown option: "@ + utf16_lossy(unknown),
        ),
{
    assert((seq![unknown] + rest)[0] == unknown);
}

/// Switches go together exactly where a payload comes only with injection and there is a
/// task: help, a diagnosis or a program.
pub proof fn law_a_task_is_required(switches: Switches)
    ensures
        switches.conflict() is None <==> {
            &&& switches.payload is Some ==> switches.inject
            &&& switches.help || switches.status || switches.rescan || (
            switches.command matches Some(command) && command.len() > 0)
        },
{
}

/// A program is run exactly where nothing else was asked for, with the arguments that were
/// given; help precedes the diagnoses, and the status precedes recovery.
pub proof fn law_a_program_runs_only_alone(switches: Switches, mode: Mode)
    requires
        switches.selects(mode),
    ensures
        mode is Help <==> switches.help,
        mode is Status <==> !switches.help && switches.status,
        mode is Rescan <==> !switches.help && !switches.status && switches.rescan,
        mode matches Mode::Run(command) ==> views(command@) == switches.command->0,
{
}

/// What was not given stays at its default, and without injection the payload is waited for
/// two seconds.
pub proof fn law_only_given_options_change(
    switches: Switches,
    defaults: ClientOptions,
    options: ClientOptions,
)
    requires
        switches.applied(defaults, options),
    ensures
        switches.target is None ==> options.target_name@ == defaults.target_name@,
        switches.payload is None ==> options.payload_path@ == defaults.payload_path@,
        switches.target matches Some(name) ==> options.target_name@ == name,
        switches.payload matches Some(path) ==> options.payload_path@ == path,
        switches.inject ==> options.allow_injection,
        !switches.inject ==> options.allow_injection == defaults.allow_injection,
        options.allow_injection ==> options.connect_timeout == defaults.connect_timeout,
        !options.allow_injection ==> options.connect_timeout == 2_000,
{
}

/// A program that ran is never run again: its exit code is passed on, whatever became of the
/// release. Only one that never started is run without a lease, and the reason is told.
pub proof fn law_a_program_runs_once(run: Result<WrappedRun, Error>, after: AfterRun)
    requires
        follows(run, after),
    ensures
        run matches Ok(done) ==> (after matches AfterRun::Exit(code, messages) && code
            == done.exit_code && messages@.len() > 0),
        run is Err ==> after is RunUnleased,
        run matches Err(error) ==> (after matches AfterRun::RunUnleased(message) && message.level
            == Level::Warning && message.text@.len() > error.text().len()),
        run matches Ok(done) ==> done.release matches Err(error) ==> (
        after matches AfterRun::Exit(code, messages) && messages@.len() == 1 && messages@[0].level
            == Level::Warning && messages@[0].text@.skip(
            messages@[0].text@.len() - error.text().len(),
        ) == error.text()),
        run matches Ok(done) ==> done.release matches Ok(outcome) ==> (after matches AfterRun::Exit(
            code,
            messages,
        ) && messages@[0].level == Level::Information && messages@.len() <= 2 && (messages@.len()
            == 2 <==> outcome.recovery is Unavailable)),
        run matches Ok(done) ==> (after matches AfterRun::Exit(code, messages)
            && messages@[0].text@.subrange(30, 30int + decimal(done.exit_code as nat).len())
            == decimal(done.exit_code as nat)),
{
    reveal_strlit("Process tree exited with code ");
    if let Ok(done) = run {
        if let AfterRun::Exit(code, messages) = after {
            let text = messages@[0].text@;
            assert(text.subrange(30, 30int + decimal(code as nat).len()) =~= decimal(code as nat));
            if let Err(error) = done.release {
                assert(text.skip(text.len() - error.text().len()) =~= error.text());
            }
        }
    }
    reveal_strlit("Steam Input block unavailable (");
}

} // verus!
