//! The host's client: finding the target, reaching the payload, leasing.
//!
//! System calls are the caller's work. An [`Operation`] says what to do next and
//! takes the outcome, until it finishes with a result.

use vstd::prelude::*;
use vstd::string::*;

use crate::error::{foreign_server, foreign_server_text, owned, Error, OsError};
use crate::handles::ascii_lower;
use crate::launch::{
    is_ascii_letter_like, is_ascii_text_like, is_text_like, units_eq_ignore_ascii_case, until_nul,
    wide_eq_ignore_ascii_case,
};
use crate::paths::{directory_of, join, lemma_text_is_name, parent, path_join};
use crate::protocol::{
    has_capability, Command, Response, CAPABILITY_INTERNAL_RECOVERY, REQUEST_SIZE,
};
use crate::search::{hits, law_hits_are_the_wanted_indices};
use crate::text::{encode_wide, lemma_ascii_text, lemma_ascii_units, utf16};

verus! {

/// How long a client waits for the payload's pipe by default, in milliseconds.
pub const DEFAULT_CONNECT_TIMEOUT: u64 = 10_000;

/// How long an injecting client looks for a payload that is already there.
pub const RESIDENT_PROBE_TIMEOUT: u64 = 20;

/// How long a status query waits.
pub const STATUS_TIMEOUT: u64 = 500;

/// How a client finds its target and reaches the payload.
#[derive(Clone, Debug)]
pub struct ClientOptions {
    /// Executable name of the target in the caller's session.
    pub target_name: String,
    /// Path of the payload that is injected, where injection is allowed.
    pub payload_path: Vec<u16>,
    /// How long to wait for the payload's pipe, in milliseconds.
    pub connect_timeout: u64,
    /// Whether the payload may be injected when no resident one answers.
    pub allow_injection: bool,
}

/// The payload's place beside an executable, or in the current directory.
pub open spec fn payload_beside(executable: Option<Seq<u16>>) -> Seq<u16> {
    let directory = match executable {
        Some(path) => match directory_of(path) {
            Some(found) => found,
            None => utf16("."@),
        },
        None => utf16("."@),
    };
    path_join(directory, utf16("steam_input_gate.dll"@))
}

impl ClientOptions {
    /// Whether these are the default options of a program at `executable`.
    pub open spec fn is_default(self, executable: Option<Seq<u16>>) -> bool {
        &&& self.target_name@ == "steam.exe"@
        &&& self.payload_path@ == payload_beside(executable)
        &&& self.connect_timeout == DEFAULT_CONNECT_TIMEOUT
        &&& !self.allow_injection
    }

    /// The default options of a program at `executable`.
    ///
    /// A program passes the path of its own executable, and `None` only where the
    /// system does not tell it.
    pub fn beside_executable(executable: Option<&[u16]>) -> (options: ClientOptions)
        ensures
            options.is_default(
                match executable {
                    Some(path) => Some(path@),
                    None => None,
                },
            ),
    {
        let directory: Vec<u16> = match executable {
            Some(path) => match parent(path) {
                Some(found) => found,
                None => encode_wide("."),
            },
            None => encode_wide("."),
        };
        let name = encode_wide("steam_input_gate.dll");
        proof {
            reveal_strlit("steam_input_gate.dll");
            lemma_text_is_name("steam_input_gate.dll"@);
        }
        ClientOptions {
            target_name: owned("steam.exe"),
            payload_path: join(&directory, &name),
            connect_timeout: DEFAULT_CONNECT_TIMEOUT,
            allow_injection: false,
        }
    }
}

/// What the payload reports of its state.
#[derive(Clone, Copy, Debug, PartialEq, Eq, Structural)]
pub struct Status {
    /// Capability bits.
    pub capabilities: u16,
    /// Number of block leases over all clients.
    pub lease_count: u32,
    /// Number of HID handles that the payload tracks.
    pub hid_handle_count: u32,
    /// HID handles closed when blocking last became effective.
    pub last_revoked_handle_count: u32,
}

impl Default for Status {
    fn default() -> (status: Status)
        ensures
            status == (Status {
                capabilities: 0,
                lease_count: 0,
                hid_handle_count: 0,
                last_revoked_handle_count: 0,
            }),
    {
        Status {
            capabilities: 0,
            lease_count: 0,
            hid_handle_count: 0,
            last_revoked_handle_count: 0,
        }
    }
}

/// The status in a response.
pub open spec fn status_of(response: Response) -> Status {
    Status {
        capabilities: response.capabilities,
        lease_count: response.lease_count,
        hid_handle_count: response.hid_handle_count,
        last_revoked_handle_count: response.last_revoked_handle_count,
    }
}

impl vstd::std_specs::convert::FromSpecImpl<Response> for Status {
    open spec fn obeys_from_spec() -> bool {
        true
    }

    open spec fn from_spec(response: Response) -> Status {
        status_of(response)
    }
}

impl From<Response> for Status {
    fn from(response: Response) -> (status: Status) {
        Status {
            capabilities: response.capabilities,
            lease_count: response.lease_count,
            hid_handle_count: response.hid_handle_count,
            last_revoked_handle_count: response.last_revoked_handle_count,
        }
    }
}

/// What a two-pass controller discovery showed.
#[derive(Clone, Copy, Debug, PartialEq, Eq, Structural)]
pub struct RescanResult {
    /// Bits of the deadline before the first pass.
    pub previous_deadline: u64,
    /// Discovery counter before the first pass.
    pub scan_count_before: u32,
    /// Discovery counter after the second pass.
    pub scan_count_after: u32,
}

impl Default for RescanResult {
    fn default() -> (result: RescanResult)
        ensures
            result == (RescanResult {
                previous_deadline: 0,
                scan_count_before: 0,
                scan_count_after: 0,
            }),
    {
        RescanResult { previous_deadline: 0, scan_count_before: 0, scan_count_after: 0 }
    }
}

/// A running process, as far as finding the target goes.
#[derive(Debug)]
pub struct ProcessEntry {
    /// Process identifier.
    pub id: u32,
    /// Executable name, ended by a zero unit or by its length.
    pub name: Vec<u16>,
    /// Session of the process, where it could be found out.
    pub session: Option<u32>,
}

/// Whether a process has the target's name and runs in the session.
pub open spec fn is_target(
    processes: Seq<ProcessEntry>,
    target: Seq<char>,
    session: Option<u32>,
) -> spec_fn(int) -> bool {
    |index: int|
        {
            &&& session is Some
            &&& processes[index].session == session
            &&& is_ascii_text_like(until_nul(processes[index].name@), target)
        }
}

/// The indices of all processes that may be meant.
pub open spec fn targets(
    processes: Seq<ProcessEntry>,
    target: Seq<char>,
    session: Option<u32>,
) -> Seq<int> {
    hits(processes.len() as int, is_target(processes, target, session))
}

/// Finds the only process with the target's name in the session.
///
/// Other sessions are left alone, so that a service or a second user cannot
/// become the target, and no choice is made between several processes.
pub fn find_process(
    processes: &Vec<ProcessEntry>,
    target: &String,
    session: Option<u32>,
) -> (found: Result<u32, Error>)
    ensures
        ({
            let all = targets(processes@, target@, session);
            match found {
                Ok(id) => all.len() == 1 && id == processes@[all[0]].id,
                Err(error) => if all.len() == 0 {
                    error is TargetNotFound && error->TargetNotFound_0@ == target@
                } else {
                    all.len() > 1 && error is AmbiguousTarget && error->AmbiguousTarget_0@
                        == target@
                },
            }
        }),
{
    let ghost wanted = is_target(processes@, target@, session);
    let mut found: Option<u32> = None;
    let mut index: usize = 0;
    while index < processes.len()
        invariant
            index <= processes.len(),
            wanted == is_target(processes@, target@, session),
            match found {
                Some(id) => hits(index as int, wanted).len() == 1 && id == processes@[hits(
                    index as int,
                    wanted,
                )[0]].id,
                None => hits(index as int, wanted).len() == 0,
            },
        decreases processes.len() - index,
    {
        let entry = &processes[index];
        let in_session: bool = match (session, entry.session) {
            (Some(current), Some(own)) => current == own,
            _ => false,
        };
        if in_session && wide_eq_ignore_ascii_case(&entry.name, target.as_str()) {
            assert(wanted(index as int));
            if found.is_some() {
                proof {
                    lemma_hits_grow(index + 1, processes@.len() as int, wanted);
                }
                return Err(Error::AmbiguousTarget(owned(target.as_str())));
            }
            found = Some(entry.id);
        } else {
            assert(!wanted(index as int));
        }
        index = index + 1;
    }
    match found {
        Some(id) => Ok(id),
        None => Err(Error::TargetNotFound(owned(target.as_str()))),
    }
}

proof fn lemma_hits_grow(from: int, to: int, wanted: spec_fn(int) -> bool)
    requires
        0 <= from <= to,
    ensures
        hits(to, wanted).len() >= hits(from, wanted).len(),
    decreases to - from,
{
    if from < to {
        lemma_hits_grow(from, to - 1, wanted);
    }
}

/// The pipe does not exist.
pub const ERROR_FILE_NOT_FOUND: u32 = 2;

/// Every instance of the pipe is taken.
pub const ERROR_PIPE_BUSY: u32 = 231;

/// How an attempt to open the payload's pipe went.
#[derive(Debug)]
pub enum PipeAttempt {
    /// The pipe was opened; the process that serves it, where that is known.
    Opened(Result<u32, OsError>),
    /// The pipe could not be opened.
    Failed(OsError),
}

/// Why no pipe could be used.
#[derive(Debug)]
pub enum ConnectFailure {
    /// None could be opened in time.
    Absent(Error),
    /// It could not be opened or its server is unknown.
    Refused(Error),
    /// Another process serves it.
    Foreign(Error),
}

/// What to do after an attempt to open the pipe.
#[derive(Debug)]
pub enum PipeStep {
    /// Use the pipe.
    Connected,
    /// Pause for five milliseconds and try again.
    Pause,
    /// Wait for a free instance, up to a tenth of a second, and try again.
    WaitForInstance,
    /// Give up.
    Failed(ConnectFailure),
}

/// Whether a step is right after an attempt, that long after the first one.
pub open spec fn pipe_step(
    process_id: u32,
    attempt: PipeAttempt,
    elapsed: u64,
    timeout: u64,
    step: PipeStep,
) -> bool {
    match attempt {
        PipeAttempt::Opened(Ok(server)) => if server == process_id {
            step is Connected
        } else {
            &&& step matches PipeStep::Failed(ConnectFailure::Foreign(error))
            &&& error is Protocol
            &&& error.text() == foreign_server_text(process_id as nat, server as nat)
        },
        PipeAttempt::Opened(Err(source)) => step == PipeStep::Failed(
            ConnectFailure::Refused(
                Error::Windows { operation: "could not identify the payload pipe server", source },
            ),
        ),
        PipeAttempt::Failed(source) => if source.code != ERROR_PIPE_BUSY && source.code
            != ERROR_FILE_NOT_FOUND {
            step == PipeStep::Failed(
                ConnectFailure::Refused(
                    Error::Windows { operation: "could not connect to payload pipe", source },
                ),
            )
        } else if elapsed >= timeout {
            step == PipeStep::Failed(
                ConnectFailure::Absent(
                    Error::Windows { operation: "timed out connecting to payload pipe", source },
                ),
            )
        } else if source.code == ERROR_FILE_NOT_FOUND {
            step is Pause
        } else {
            step is WaitForInstance
        },
    }
}

/// Decides what to do after an attempt to open the pipe.
///
/// Waiting for an instance returns at once where the pipe does not exist, so that
/// case pauses instead. A pipe that another process serves is never trusted.
pub fn connect_pipe(process_id: u32, attempt: PipeAttempt, elapsed: u64, timeout: u64) -> (step:
    PipeStep)
    ensures
        pipe_step(process_id, attempt, elapsed, timeout, step),
{
    match attempt {
        PipeAttempt::Opened(Ok(server)) => if server == process_id {
            PipeStep::Connected
        } else {
            PipeStep::Failed(ConnectFailure::Foreign(foreign_server(process_id, server)))
        },
        PipeAttempt::Opened(Err(source)) => PipeStep::Failed(
            ConnectFailure::Refused(
                Error::windows("could not identify the payload pipe server", source),
            ),
        ),
        PipeAttempt::Failed(source) => if source.code != ERROR_PIPE_BUSY && source.code
            != ERROR_FILE_NOT_FOUND {
            PipeStep::Failed(
                ConnectFailure::Refused(
                    Error::windows("could not connect to payload pipe", source),
                ),
            )
        } else if elapsed >= timeout {
            PipeStep::Failed(
                ConnectFailure::Absent(
                    Error::windows("timed out connecting to payload pipe", source),
                ),
            )
        } else if source.code == ERROR_FILE_NOT_FOUND {
            PipeStep::Pause
        } else {
            PipeStep::WaitForInstance
        },
    }
}

/// Why a reply is refused, in words.
pub open spec fn rejection_text() -> Seq<char> {
    "the payload rejected the command or uses a different protocol version"@
}

/// Accepts a sent request: the call succeeded and took the whole message.
///
/// `source` is the system's last error.
pub fn check_sent(succeeded: bool, transferred: usize, source: OsError) -> (sent: Result<(), Error>)
    ensures
        match sent {
            Ok(_) => succeeded && transferred == REQUEST_SIZE,
            Err(error) => {
                &&& !(succeeded && transferred == REQUEST_SIZE)
                &&& error == (Error::Windows {
                    operation: "could not send command to payload",
                    source,
                })
            },
        },
{
    if succeeded && transferred == REQUEST_SIZE {
        Ok(())
    } else {
        Err(Error::windows("could not send command to payload", source))
    }
}

/// Accepts a reply: the call succeeded and delivered one valid response.
///
/// `source` is the system's last error.
pub fn check_reply(succeeded: bool, message: &[u8], source: OsError) -> (reply: Result<
    Response,
    Error,
>)
    ensures
        match (succeeded, Response::from_wire(message@), reply) {
            (true, Some(response), Ok(accepted)) => response.valid() && accepted == response,
            (true, Some(response), Err(error)) => {
                &&& !response.valid()
                &&& error is Protocol
                &&& error.text() == rejection_text()
            },
            (_, _, Ok(_)) => false,
            (_, _, Err(error)) => error == (Error::Windows {
                operation: "could not read payload response",
                source,
            }),
        },
{
    if succeeded {
        if let Some(response) = Response::decode(message) {
            if response.is_valid() {
                return Ok(response);
            }
            return Err(
                Error::Protocol(
                    owned("the payload rejected the command or uses a different protocol version"),
                ),
            );
        }
    }
    Err(Error::windows("could not read payload response", source))
}

/// What a client was asked for.
#[derive(Clone, Copy, Debug, PartialEq, Eq, Structural)]
pub enum Goal {
    /// Reach the payload without leasing.
    EnsurePayload,
    /// Query a resident payload.
    Status,
    /// Take a block lease.
    Acquire,
    /// Take a pass-through claim.
    AcquirePassThrough,
    /// Prove that controller recovery can run.
    CheckRecovery,
    /// Run controller recovery.
    Rescan,
}

/// How far an operation has come.
#[derive(Clone, Copy, Debug, PartialEq, Eq, Structural)]
pub enum Stage {
    /// The target is being looked for.
    Locating,
    /// A resident payload is being looked for before injecting one.
    Probing(u32),
    /// The payload file is being looked for.
    CheckingPayload(u32),
    /// The payload is being injected.
    Injecting(u32),
    /// The payload's pipe is being opened.
    Connecting(u32),
    /// A command is being exchanged.
    Exchanging(u32),
    /// The recovery target is being resolved.
    Resolving(u32),
    /// The first discovery request is being made.
    Scanning,
    /// The second discovery request is being made, after this first one.
    ScanningAgain(RescanResult),
    /// The operation is over.
    Finished,
}

/// The outcome of what an operation asked for.
#[derive(Debug)]
pub enum Event {
    /// The target was looked for.
    Located(Result<u32, Error>),
    /// The pipe is open.
    Connected,
    /// The pipe could not be used.
    ConnectFailed(ConnectFailure),
    /// Whether the payload file exists.
    PayloadFile(bool),
    /// The payload was injected or not.
    Injected(Result<(), Error>),
    /// The command was answered or not.
    Replied(Result<Response, Error>),
    /// The recovery target was resolved or not.
    Resolved(Result<(), Error>),
    /// A discovery request was made or not.
    Scanned(Result<RescanResult, Error>),
}

/// What an operation comes to.
#[derive(Debug)]
pub enum Outcome {
    /// The payload's state.
    Status(Status),
    /// A block lease over the open pipe.
    Lease(Lease),
    /// A pass-through claim over the open pipe.
    PassThrough(PassThrough),
    /// Recovery can run.
    Recoverable,
    /// Recovery ran.
    Rescanned(RescanResult),
}

/// What to do next.
#[derive(Debug)]
pub enum Action {
    /// Look for the target.
    Locate,
    /// Open the pipe of a process, for that many milliseconds.
    Connect(u32, u64),
    /// See whether the payload file exists.
    CheckPayload,
    /// Inject the payload into a process.
    Inject(u32),
    /// Exchange a command over the open pipe.
    Exchange(Command),
    /// Resolve the recovery target in a process.
    ResolveRecovery(u32),
    /// Make one discovery request.
    Scan,
    /// The operation is over.
    Finish(Result<Outcome, Error>),
}

/// An active block lease. Its pipe is the lease: closing it releases.
#[derive(Debug)]
pub struct Lease {
    process_id: u32,
    target_is_steam: bool,
    acquired_status: Status,
}

/// An active pass-through claim. Its pipe is the claim: closing it releases.
#[derive(Debug)]
pub struct PassThrough {
    acquired_status: Status,
}

/// The command by which a goal is reached over the pipe.
pub open spec fn command_for(goal: Goal) -> Command {
    match goal {
        Goal::Acquire => Command::AcquireLease,
        Goal::AcquirePassThrough => Command::AcquirePassThrough,
        _ => Command::QueryStatus,
    }
}

/// Why a client that may not inject found no payload, in words.
pub open spec fn unavailable_text() -> Seq<char> {
    "no resident Steam Input payload answered: the proxy is not deployed, Steam has not been restarted since it was deployed, or Steam Input management is off"@
}

/// Why an injecting client found no pipe, in words.
pub open spec fn silent_payload_text() -> Seq<char> {
    "the payload loaded, but its control pipe did not become available"@
}

/// A running operation of a client.
#[derive(Debug)]
pub struct Operation {
    goal: Goal,
    allow_injection: bool,
    timeout: u64,
    target_is_steam: bool,
    payload_path: Vec<u16>,
    stage: Stage,
}

impl Lease {
    /// The process whose payload granted the lease.
    pub closed spec fn process(&self) -> u32 {
        self.process_id
    }

    /// Whether the target is Steam itself.
    pub closed spec fn over_steam(&self) -> bool {
        self.target_is_steam
    }

    /// The payload's state when the lease was granted.
    pub closed spec fn granted_status(&self) -> Status {
        self.acquired_status
    }

    /// The payload's state when the lease was granted.
    pub fn status(&self) -> (status: Status)
        ensures
            status == self.granted_status(),
    {
        self.acquired_status
    }

    /// The process whose payload granted the lease.
    pub fn process_id(&self) -> (id: u32)
        ensures
            id == self.process(),
    {
        self.process_id
    }
}

impl PassThrough {
    /// The payload's state when the claim was granted.
    pub closed spec fn granted_status(&self) -> Status {
        self.acquired_status
    }

    /// The payload's state when the claim was granted.
    pub fn status(&self) -> (status: Status)
        ensures
            status == self.granted_status(),
    {
        self.acquired_status
    }
}

impl Operation {
    /// What the client was asked for.
    pub closed spec fn goal(&self) -> Goal {
        self.goal
    }

    /// Whether the payload may be injected.
    pub closed spec fn may_inject(&self) -> bool {
        self.allow_injection
    }

    /// How long to wait for the pipe.
    pub closed spec fn timeout(&self) -> u64 {
        self.timeout
    }

    /// Whether the target is Steam itself.
    pub closed spec fn over_steam(&self) -> bool {
        self.target_is_steam
    }

    /// The payload to inject.
    pub closed spec fn payload(&self) -> Seq<u16> {
        self.payload_path@
    }

    /// How far the operation has come.
    pub closed spec fn stage(&self) -> Stage {
        self.stage
    }

    /// Whether an event answers what was last asked for.
    pub open spec fn awaits(&self, event: Event) -> bool {
        match self.stage() {
            Stage::Locating => event is Located,
            Stage::Probing(_) => event is Connected || event is ConnectFailed,
            Stage::CheckingPayload(_) => event is PayloadFile,
            Stage::Injecting(_) => event is Injected,
            Stage::Connecting(_) => event is Connected || event is ConnectFailed,
            Stage::Exchanging(_) => event is Replied,
            Stage::Resolving(_) => event is Resolved,
            Stage::Scanning => event is Scanned,
            Stage::ScanningAgain(_) => event is Scanned,
            Stage::Finished => false,
        }
    }

    /// Whether the operation finishes with that error.
    pub open spec fn fails_with(stage: Stage, action: Action, error: Error) -> bool {
        stage == Stage::Finished && action == Action::Finish(Err(error))
    }

    /// Whether what a reply gives the client is right.
    pub open spec fn replies(&self, process_id: u32, response: Response, action: Action) -> bool {
        match self.goal() {
            Goal::Acquire => {
                &&& action matches Action::Finish(Ok(Outcome::Lease(lease)))
                &&& lease.process() == process_id
                &&& lease.over_steam() == self.over_steam()
                &&& lease.granted_status() == status_of(response)
            },
            Goal::AcquirePassThrough => {
                &&& action matches Action::Finish(Ok(Outcome::PassThrough(claim)))
                &&& claim.granted_status() == status_of(response)
            },
            _ => action == Action::Finish(Ok(Outcome::Status(status_of(response)))),
        }
    }

    /// Whether an operation that takes an event moves to a stage with an action.
    pub open spec fn moves(&self, event: Event, stage: Stage, action: Action) -> bool {
        match (self.stage(), event) {
            (Stage::Locating, Event::Located(Err(error))) => Operation::fails_with(
                stage,
                action,
                error,
            ),
            (Stage::Locating, Event::Located(Ok(id))) => match self.goal() {
                Goal::CheckRecovery | Goal::Rescan => stage == Stage::Resolving(id) && action
                    == Action::ResolveRecovery(id),
                Goal::Status => stage == Stage::Connecting(id) && action == Action::Connect(
                    id,
                    STATUS_TIMEOUT,
                ),
                _ => if self.may_inject() {
                    stage == Stage::Probing(id) && action == Action::Connect(
                        id,
                        RESIDENT_PROBE_TIMEOUT,
                    )
                } else {
                    stage == Stage::Connecting(id) && action == Action::Connect(id, self.timeout())
                },
            },
            (Stage::Probing(id), Event::ConnectFailed(ConnectFailure::Foreign(error))) =>
                Operation::fails_with(stage, action, error),
            (Stage::Probing(id), Event::ConnectFailed(_)) => stage == Stage::CheckingPayload(id)
                && action == Action::CheckPayload,
            (Stage::CheckingPayload(id), Event::PayloadFile(true)) => stage == Stage::Injecting(id)
                && action == Action::Inject(id),
            (Stage::CheckingPayload(id), Event::PayloadFile(false)) => {
                &&& stage == Stage::Finished
                &&& action matches Action::Finish(Err(Error::PayloadNotFound(path)))
                &&& path@ == self.payload()
            },
            (Stage::Injecting(id), Event::Injected(Ok(_))) => stage == Stage::Connecting(id)
                && action == Action::Connect(id, self.timeout()),
            (Stage::Injecting(id), Event::Injected(Err(error))) => Operation::fails_with(
                stage,
                action,
                error,
            ),
            (Stage::Probing(id), Event::Connected) | (Stage::Connecting(id), Event::Connected) =>
                stage == Stage::Exchanging(id) && action == Action::Exchange(
                    command_for(self.goal()),
                ),
            (Stage::Connecting(id), Event::ConnectFailed(ConnectFailure::Foreign(error))) =>
                Operation::fails_with(stage, action, error),
            (Stage::Connecting(id), Event::ConnectFailed(failure)) => if self.goal() is Status {
                Operation::fails_with(
                    stage,
                    action,
                    match failure {
                        ConnectFailure::Absent(error) => error,
                        ConnectFailure::Refused(error) => error,
                        ConnectFailure::Foreign(error) => error,
                    },
                )
            } else if self.may_inject() {
                &&& stage == Stage::Finished
                &&& action matches Action::Finish(Err(Error::Message(text)))
                &&& text@ == silent_payload_text()
            } else {
                match failure {
                    ConnectFailure::Absent(_) => {
                        &&& stage == Stage::Finished
                        &&& action matches Action::Finish(Err(Error::PayloadUnavailable(text)))
                        &&& text@ == unavailable_text()
                    },
                    ConnectFailure::Refused(error) => Operation::fails_with(stage, action, error),
                    ConnectFailure::Foreign(error) => Operation::fails_with(stage, action, error),
                }
            },
            (Stage::Exchanging(id), Event::Replied(Err(error))) => Operation::fails_with(
                stage,
                action,
                error,
            ),
            (Stage::Exchanging(id), Event::Replied(Ok(response))) => stage == Stage::Finished
                && self.replies(id, response, action),
            (Stage::Resolving(_), Event::Resolved(Err(error))) => Operation::fails_with(
                stage,
                action,
                error,
            ),
            (Stage::Resolving(_), Event::Resolved(Ok(_))) => if self.goal() is CheckRecovery {
                stage == Stage::Finished && action == Action::Finish(Ok(Outcome::Recoverable))
            } else {
                stage == Stage::Scanning && action == Action::Scan
            },
            (Stage::Scanning, Event::Scanned(Ok(first))) => stage == Stage::ScanningAgain(first)
                && action == Action::Scan,
            (Stage::ScanningAgain(first), Event::Scanned(Ok(second))) => stage == Stage::Finished
                && action == Action::Finish(
                Ok(Outcome::Rescanned(both_passes(first, second))),
            ),
            (Stage::Scanning, Event::Scanned(Err(error))) => Operation::fails_with(
                stage,
                action,
                error,
            ),
            (Stage::ScanningAgain(_), Event::Scanned(Err(error))) => Operation::fails_with(
                stage,
                action,
                error,
            ),
            _ => false,
        }
    }

    /// Whether two operations differ in their stage alone.
    pub open spec fn same_request(&self, other: &Operation) -> bool {
        &&& self.goal() == other.goal()
        &&& self.may_inject() == other.may_inject()
        &&& self.timeout() == other.timeout()
        &&& self.over_steam() == other.over_steam()
        &&& self.payload() == other.payload()
    }

    /// The recovery that a release runs where the payload does not.
    pub fn recovery_after_release(process_id: u32) -> (operation: Operation)
        ensures
            operation.goal() is Rescan,
            operation.stage() == Stage::Resolving(process_id),
            !operation.may_inject(),
    {
        Operation {
            goal: Goal::Rescan,
            allow_injection: false,
            timeout: DEFAULT_CONNECT_TIMEOUT,
            target_is_steam: true,
            payload_path: Vec::new(),
            stage: Stage::Resolving(process_id),
        }
    }

    /// Takes the outcome of what was last asked for, and says what to do next.
    pub fn next(&mut self, event: Event) -> (action: Action)
        requires
            old(self).awaits(event),
        ensures
            old(self).same_request(final(self)),
            old(self).moves(event, final(self).stage(), action),
    {
        match (self.stage, event) {
            (Stage::Locating, Event::Located(Ok(id))) => match self.goal {
                Goal::CheckRecovery | Goal::Rescan => {
                    self.stage = Stage::Resolving(id);
                    Action::ResolveRecovery(id)
                },
                Goal::Status => {
                    self.stage = Stage::Connecting(id);
                    Action::Connect(id, STATUS_TIMEOUT)
                },
                _ => if self.allow_injection {
                    self.stage = Stage::Probing(id);
                    Action::Connect(id, RESIDENT_PROBE_TIMEOUT)
                } else {
                    self.stage = Stage::Connecting(id);
                    Action::Connect(id, self.timeout)
                },
            },
            (Stage::Probing(id), Event::ConnectFailed(ConnectFailure::Foreign(error))) => self.fail(
                error,
            ),
            (Stage::Probing(id), Event::ConnectFailed(_)) => {
                self.stage = Stage::CheckingPayload(id);
                Action::CheckPayload
            },
            (Stage::CheckingPayload(id), Event::PayloadFile(present)) => if present {
                self.stage = Stage::Injecting(id);
                Action::Inject(id)
            } else {
                let mut path: Vec<u16> = Vec::new();
                path.extend_from_slice(self.payload_path.as_slice());
                assert(path@ =~= self.payload_path@);
                self.fail(Error::PayloadNotFound(path))
            },
            (Stage::Injecting(id), Event::Injected(Ok(_))) => {
                self.stage = Stage::Connecting(id);
                Action::Connect(id, self.timeout)
            },
            (Stage::Probing(id), Event::Connected) | (Stage::Connecting(id), Event::Connected) => {
                self.stage = Stage::Exchanging(id);
                Action::Exchange(
                    match self.goal {
                        Goal::Acquire => Command::AcquireLease,
                        Goal::AcquirePassThrough => Command::AcquirePassThrough,
                        _ => Command::QueryStatus,
                    },
                )
            },
            (Stage::Connecting(id), Event::ConnectFailed(failure)) => self.connect_failed(failure),
            (Stage::Exchanging(id), Event::Replied(Ok(response))) => self.replied(id, response),
            (Stage::Resolving(_), Event::Resolved(Ok(_))) => match self.goal {
                Goal::CheckRecovery => {
                    self.stage = Stage::Finished;
                    Action::Finish(Ok(Outcome::Recoverable))
                },
                _ => {
                    self.stage = Stage::Scanning;
                    Action::Scan
                },
            },
            (Stage::Scanning, Event::Scanned(Ok(first))) => {
                self.stage = Stage::ScanningAgain(first);
                Action::Scan
            },
            (Stage::ScanningAgain(first), Event::Scanned(Ok(second))) => {
                self.stage = Stage::Finished;
                Action::Finish(Ok(Outcome::Rescanned(combine_passes(first, second))))
            },
            (_, Event::Located(Err(error))) => self.fail(error),
            (_, Event::Injected(Err(error))) => self.fail(error),
            (_, Event::Replied(Err(error))) => self.fail(error),
            (_, Event::Resolved(Err(error))) => self.fail(error),
            (_, Event::Scanned(Err(error))) => self.fail(error),
            (_, _) => self.fail(Error::Message(owned("unexpected event"))),
        }
    }

    fn fail(&mut self, error: Error) -> (action: Action)
        ensures
            old(self).same_request(final(self)),
            Operation::fails_with(final(self).stage(), action, error),
    {
        self.stage = Stage::Finished;
        Action::Finish(Err(error))
    }

    fn connect_failed(&mut self, failure: ConnectFailure) -> (action: Action)
        requires
            old(self).stage() is Connecting,
        ensures
            old(self).same_request(final(self)),
            old(self).moves(Event::ConnectFailed(failure), final(self).stage(), action),
    {
        let status: bool = match self.goal {
            Goal::Status => true,
            _ => false,
        };
        match failure {
            ConnectFailure::Foreign(error) => self.fail(error),
            ConnectFailure::Refused(error) => if status || !self.allow_injection {
                self.fail(error)
            } else {
                self.fail(
                    Error::Message(
                        owned("the payload loaded, but its control pipe did not become available"),
                    ),
                )
            },
            ConnectFailure::Absent(error) => if status {
                self.fail(error)
            } else if self.allow_injection {
                self.fail(
                    Error::Message(
                        owned("the payload loaded, but its control pipe did not become available"),
                    ),
                )
            } else {
                self.fail(
                    Error::PayloadUnavailable(
                        owned(
                            "no resident Steam Input payload answered: the proxy is not deployed, Steam has not been restarted since it was deployed, or Steam Input management is off",
                        ),
                    ),
                )
            },
        }
    }

    fn replied(&mut self, process_id: u32, response: Response) -> (action: Action)
        ensures
            old(self).same_request(final(self)),
            final(self).stage() == Stage::Finished,
            old(self).replies(process_id, response, action),
    {
        self.stage = Stage::Finished;
        let status = Status::from(response);
        match self.goal {
            Goal::Acquire => Action::Finish(
                Ok(
                    Outcome::Lease(
                        Lease {
                            process_id,
                            target_is_steam: self.target_is_steam,
                            acquired_status: status,
                        },
                    ),
                ),
            ),
            Goal::AcquirePassThrough => Action::Finish(
                Ok(Outcome::PassThrough(PassThrough { acquired_status: status })),
            ),
            _ => Action::Finish(Ok(Outcome::Status(status))),
        }
    }
}

/// What two discovery requests together show. Stale cleanup may follow the first,
/// so the second is part of recovery and not a retry.
pub open spec fn both_passes(first: RescanResult, second: RescanResult) -> RescanResult {
    RescanResult {
        previous_deadline: first.previous_deadline,
        scan_count_before: first.scan_count_before,
        scan_count_after: second.scan_count_after,
    }
}

fn combine_passes(first: RescanResult, second: RescanResult) -> (result: RescanResult)
    ensures
        result == both_passes(first, second),
{
    RescanResult {
        previous_deadline: first.previous_deadline,
        scan_count_before: first.scan_count_before,
        scan_count_after: second.scan_count_after,
    }
}

/// A reusable way to reach the payload.
#[derive(Clone, Debug)]
pub struct Client {
    options: ClientOptions,
}

impl Client {
    /// The options of the client.
    pub closed spec fn settings(&self) -> ClientOptions {
        self.options
    }

    /// A client with explicit options.
    pub fn new(options: ClientOptions) -> (client: Client)
        ensures
            client.settings() == options,
    {
        Client { options }
    }

    /// The client's options.
    pub fn options(&self) -> (options: &ClientOptions)
        ensures
            *options == self.settings(),
    {
        &self.options
    }

    /// Finds the target among the running processes.
    ///
    /// `session` is the caller's own session, where it could be found out.
    pub fn process_id(&self, processes: &Vec<ProcessEntry>, session: Option<u32>) -> (found: Result<
        u32,
        Error,
    >)
        ensures
            ({
                let name = self.settings().target_name@;
                let all = targets(processes@, name, session);
                match found {
                    Ok(id) => all.len() == 1 && id == processes@[all[0]].id,
                    Err(error) => if all.len() == 0 {
                        error is TargetNotFound && error->TargetNotFound_0@ == name
                    } else {
                        all.len() > 1 && error is AmbiguousTarget && error->AmbiguousTarget_0@
                            == name
                    },
                }
            }),
    {
        find_process(processes, &self.options.target_name, session)
    }

    /// Whether an operation is a fresh one of this client.
    pub open spec fn begins(&self, operation: Operation, goal: Goal) -> bool {
        &&& operation.goal() == goal
        &&& operation.stage() == Stage::Locating
        &&& operation.may_inject() == self.settings().allow_injection
        &&& operation.timeout() == self.settings().connect_timeout
        &&& operation.over_steam() == is_steam(self.settings().target_name@)
        &&& operation.payload() == self.settings().payload_path@
    }

    fn begin(&self, goal: Goal) -> (operation: Operation)
        ensures
            self.begins(operation, goal),
    {
        let mut payload_path: Vec<u16> = Vec::new();
        payload_path.extend_from_slice(self.options.payload_path.as_slice());
        assert(payload_path@ =~= self.options.payload_path@);
        Operation {
            goal,
            allow_injection: self.options.allow_injection,
            timeout: self.options.connect_timeout,
            target_is_steam: names_steam(&self.options.target_name),
            payload_path,
            stage: Stage::Locating,
        }
    }

    /// Reaches the payload without leasing. Begins with [`Action::Locate`].
    pub fn ensure_payload(&self) -> (operation: Operation)
        ensures
            self.begins(operation, Goal::EnsurePayload),
    {
        self.begin(Goal::EnsurePayload)
    }

    /// Queries a resident payload; never injects. Begins with [`Action::Locate`].
    pub fn status(&self) -> (operation: Operation)
        ensures
            self.begins(operation, Goal::Status),
    {
        self.begin(Goal::Status)
    }

    /// Takes a block lease. Begins with [`Action::Locate`].
    pub fn acquire(&self) -> (operation: Operation)
        ensures
            self.begins(operation, Goal::Acquire),
    {
        self.begin(Goal::Acquire)
    }

    /// Takes a pass-through claim. Begins with [`Action::Locate`].
    pub fn acquire_pass_through(&self) -> (operation: Operation)
        ensures
            self.begins(operation, Goal::AcquirePassThrough),
    {
        self.begin(Goal::AcquirePassThrough)
    }

    /// Proves that recovery can run; writes nothing. Begins with
    /// [`Action::Locate`].
    pub fn check_recovery(&self) -> (operation: Operation)
        ensures
            self.begins(operation, Goal::CheckRecovery),
    {
        self.begin(Goal::CheckRecovery)
    }

    /// Runs controller recovery without leasing. Begins with [`Action::Locate`].
    pub fn rescan(&self) -> (operation: Operation)
        ensures
            self.begins(operation, Goal::Rescan),
    {
        self.begin(Goal::Rescan)
    }
}

/// Whether a target's name is Steam's own.
pub open spec fn is_steam(name: Seq<char>) -> bool {
    is_ascii_text_like(utf16(name), "steam.exe"@)
}

fn names_steam(name: &String) -> (result: bool)
    ensures
        result == is_steam(name@),
{
    let units = encode_wide(name.as_str());
    units_eq_ignore_ascii_case(&units, "steam.exe")
}

/// Whether a sequence of operations is one run: each takes an event and becomes
/// the next with an action.
pub open spec fn is_run(
    operations: Seq<Operation>,
    events: Seq<Event>,
    actions: Seq<Action>,
) -> bool {
    &&& operations.len() == events.len() + 1
    &&& actions.len() == events.len()
    &&& forall|index: int|
        #![trigger actions[index]]
        0 <= index < events.len() ==> {
            &&& operations[index].same_request(&operations[index + 1])
            &&& operations[index].moves(
                events[index],
                operations[index + 1].stage(),
                actions[index],
            )
        }
}

/// Whether a stage comes only before an injection.
pub open spec fn leads_to_injection(stage: Stage) -> bool {
    stage is Probing || stage is CheckingPayload || stage is Injecting
}

/// Whatever happens, a client that does not allow injection never injects, and
/// neither does a status query of any client.
pub proof fn law_injection_is_opt_in(
    client: Client,
    goal: Goal,
    operations: Seq<Operation>,
    events: Seq<Event>,
    actions: Seq<Action>,
)
    requires
        is_run(operations, events, actions),
        client.begins(operations[0], goal),
        !client.settings().allow_injection || goal == Goal::Status,
    ensures
        forall|index: int|
            0 <= index < actions.len() ==> !((#[trigger] actions[index]) is Inject),
{
    lemma_no_injection(operations, events, actions, events.len() as int);
}

proof fn lemma_no_injection(
    operations: Seq<Operation>,
    events: Seq<Event>,
    actions: Seq<Action>,
    count: int,
)
    requires
        is_run(operations, events, actions),
        operations[0].stage() == Stage::Locating,
        !operations[0].may_inject() || operations[0].goal() == Goal::Status,
        0 <= count <= events.len(),
    ensures
        operations[0].same_request(&operations[count]),
        !leads_to_injection(operations[count].stage()),
        forall|index: int| 0 <= index < count ==> !((#[trigger] actions[index]) is Inject),
    decreases count,
{
    if count > 0 {
        lemma_no_injection(operations, events, actions, count - 1);
        let action = actions[count - 1];
        assert(operations[count - 1].same_request(&operations[count]));
        assert(operations[count - 1].moves(
            events[count - 1],
            operations[count].stage(),
            action,
        ));
    }
}

/// Whatever happens, a lease comes only out of an acquiring operation, from the
/// payload's own valid reply.
pub proof fn law_a_lease_comes_from_a_reply(
    operation: Operation,
    event: Event,
    stage: Stage,
    action: Action,
)
    requires
        operation.moves(event, stage, action),
        action matches Action::Finish(Ok(Outcome::Lease(_))),
    ensures
        operation.goal() == Goal::Acquire,
        event matches Event::Replied(Ok(_)),
{
}

/// What became of controller recovery at a release.
///
/// Closing the pipe lifts blocking; only asking Steam to look for controllers
/// again can fail after that, so it is reported apart from the release.
#[derive(Debug)]
pub enum RecoveryOutcome {
    /// The target is not Steam.
    NotRequired,
    /// The payload scheduled discovery itself.
    Scheduled,
    /// The host ran both passes.
    Completed(RescanResult),
    /// Recovery could not run.
    Unavailable(Error),
}

impl RecoveryOutcome {
    /// Whether Steam was asked to look for controllers again.
    pub fn requested(&self) -> (result: bool)
        ensures
            result == (*self is Scheduled || *self is Completed),
    {
        match self {
            RecoveryOutcome::Scheduled => true,
            RecoveryOutcome::Completed(_) => true,
            _ => false,
        }
    }

    /// Why recovery could not run, where it could not.
    pub fn error(&self) -> (error: Option<&Error>)
        ensures
            match *self {
                RecoveryOutcome::Unavailable(reason) => error == Some(&reason),
                _ => error is None,
            },
    {
        match self {
            RecoveryOutcome::Unavailable(reason) => Some(reason),
            _ => None,
        }
    }
}

/// An explicit release. Blocking is lifted whenever there is one.
#[derive(Debug)]
pub struct ReleaseOutcome {
    /// The payload's state at the release.
    pub status: Status,
    /// What became of controller recovery.
    pub recovery: RecoveryOutcome,
}

/// A release whose recovery the host must run itself.
#[derive(Debug)]
pub struct PendingRelease {
    /// The payload's state at the release.
    pub status: Status,
    /// The process to recover.
    pub process_id: u32,
}

impl PendingRelease {
    /// Concludes the release with the outcome of recovery.
    pub fn complete(self, recovery: Result<RescanResult, Error>) -> (outcome: ReleaseOutcome)
        ensures
            outcome.status == self.status,
            outcome.recovery == match recovery {
                Ok(result) => RecoveryOutcome::Completed(result),
                Err(error) => RecoveryOutcome::Unavailable(error),
            },
    {
        ReleaseOutcome {
            status: self.status,
            recovery: match recovery {
                Ok(result) => RecoveryOutcome::Completed(result),
                Err(error) => RecoveryOutcome::Unavailable(error),
            },
        }
    }
}

/// What follows the reply to a release.
#[derive(Debug)]
pub enum ReleaseStep {
    /// The release is over.
    Finished(Result<ReleaseOutcome, Error>),
    /// The payload does not recover by itself: run
    /// [`Operation::recovery_after_release`] and complete the release.
    Recover(PendingRelease),
}

impl Lease {
    /// Takes the reply to [`Command::ReleaseLease`], after which the pipe is
    /// closed whatever the reply was.
    pub fn release(self, reply: Result<Response, Error>) -> (step: ReleaseStep)
        ensures
            match reply {
                Err(error) => step == ReleaseStep::Finished(Err(error)),
                Ok(response) => if !self.over_steam() {
                    step == ReleaseStep::Finished(
                        Ok(
                            ReleaseOutcome {
                                status: status_of(response),
                                recovery: RecoveryOutcome::NotRequired,
                            },
                        ),
                    )
                } else if has_capability(response.capabilities, CAPABILITY_INTERNAL_RECOVERY) {
                    step == ReleaseStep::Finished(
                        Ok(
                            ReleaseOutcome {
                                status: status_of(response),
                                recovery: RecoveryOutcome::Scheduled,
                            },
                        ),
                    )
                } else {
                    step == ReleaseStep::Recover(
                        PendingRelease {
                            status: status_of(response),
                            process_id: self.process(),
                        },
                    )
                },
            },
    {
        match reply {
            Err(error) => ReleaseStep::Finished(Err(error)),
            Ok(response) => {
                let status = Status::from(response);
                if !self.target_is_steam {
                    ReleaseStep::Finished(
                        Ok(ReleaseOutcome { status, recovery: RecoveryOutcome::NotRequired }),
                    )
                } else if response.has_internal_recovery() {
                    ReleaseStep::Finished(
                        Ok(ReleaseOutcome { status, recovery: RecoveryOutcome::Scheduled }),
                    )
                } else {
                    ReleaseStep::Recover(PendingRelease { status, process_id: self.process_id })
                }
            },
        }
    }
}

impl PassThrough {
    /// Takes the reply to [`Command::ReleasePassThrough`], after which the pipe is
    /// closed whatever the reply was.
    pub fn release(self, reply: Result<Response, Error>) -> (released: Result<Status, Error>)
        ensures
            match reply {
                Err(error) => released == Err::<Status, Error>(error),
                Ok(response) => released == Ok::<Status, Error>(status_of(response)),
            },
    {
        match reply {
            Err(error) => Err(error),
            Ok(response) => Ok(Status::from(response)),
        }
    }
}

/// A program that ran to its end under a lease.
#[derive(Debug)]
pub struct WrappedRun {
    /// Exit code of the program.
    pub exit_code: u32,
    /// The release afterwards. A failure here is no failure of the run: taken for
    /// one, it would have the program started a second time.
    pub release: Result<ReleaseOutcome, Error>,
}

impl WrappedRun {
    /// Concludes a wrapped run. It is an error only where the program never
    /// started.
    pub fn conclude(launched: Result<u32, Error>, release: Result<ReleaseOutcome, Error>) -> (run:
        Result<WrappedRun, Error>)
        ensures
            match launched {
                Ok(exit_code) => run == Ok::<WrappedRun, Error>(WrappedRun { exit_code, release }),
                Err(error) => run == Err::<WrappedRun, Error>(error),
            },
    {
        match launched {
            Ok(exit_code) => Ok(WrappedRun { exit_code, release }),
            Err(error) => Err(error),
        }
    }
}

impl Client {
    /// Begins to run a command under a lease: acquires the lease.
    ///
    /// The program is then launched, waited for and concluded with
    /// [`WrappedRun::conclude`].
    pub fn run_wrapped(&self, command: &Vec<Vec<u16>>) -> (acquiring: Result<Operation, Error>)
        ensures
            match acquiring {
                Ok(operation) => command@.len() > 0 && self.begins(operation, Goal::Acquire),
                Err(error) => {
                    &&& command@.len() == 0
                    &&& error is Message
                    &&& error.text() == "the wrapped command is empty"@
                },
            },
    {
        if command.len() == 0 {
            return Err(Error::Message(owned("the wrapped command is empty")));
        }
        Ok(self.acquire())
    }
}

/// A process may be meant exactly where the caller's session is known, the process runs in
/// it, and its name up to the end is the target's but for case. Each is listed once.
pub proof fn law_targets_are_named_and_in_the_session(
    processes: Seq<ProcessEntry>,
    target: Seq<char>,
    session: Option<u32>,
    index: int,
)
    ensures
        targets(processes, target, session).contains(index) <==> {
            &&& 0 <= index < processes.len()
            &&& session is Some
            &&& processes[index].session == session
            &&& is_ascii_text_like(until_nul(processes[index].name@), target)
        },
        targets(processes, target, session).no_duplicates(),
{
    law_hits_are_the_wanted_indices(
        processes.len() as int,
        is_target(processes, target, session),
    );
}

/// A pipe is used exactly where it could be opened and the target itself serves it.
pub proof fn law_only_the_targets_own_pipe_is_used(
    process_id: u32,
    attempt: PipeAttempt,
    elapsed: u64,
    timeout: u64,
    step: PipeStep,
)
    requires
        pipe_step(process_id, attempt, elapsed, timeout, step),
    ensures
        step is Connected <==> (attempt matches PipeAttempt::Opened(Ok(server)) && server
            == process_id),
        attempt matches PipeAttempt::Opened(Ok(server)) ==> server != process_id ==> (
        step matches PipeStep::Failed(ConnectFailure::Foreign(error)) && error is Protocol),
        attempt matches PipeAttempt::Opened(Err(source)) ==> (step matches PipeStep::Failed(
            ConnectFailure::Refused(error),
        ) && (error matches Error::Windows { operation, source: reason } && reason == source)),
{
}

/// A pipe that is missing or busy is tried again until the time is up, and then it is
/// absent; with any other error it is refused at once. The error that was met is told.
pub proof fn law_a_missing_or_busy_pipe_is_waited_for(
    process_id: u32,
    source: OsError,
    elapsed: u64,
    timeout: u64,
    step: PipeStep,
)
    requires
        pipe_step(process_id, PipeAttempt::Failed(source), elapsed, timeout, step),
    ensures
        (source.code == 2 || source.code == 231) && elapsed < timeout ==> if source.code == 2 {
            step is Pause
        } else {
            step is WaitForInstance
        },
        (source.code == 2 || source.code == 231) && elapsed >= timeout ==> (
        step matches PipeStep::Failed(ConnectFailure::Absent(error)) && (
        error matches Error::Windows { operation, source: reason } && reason == source)),
        source.code != 2 && source.code != 231 ==> (step matches PipeStep::Failed(
            ConnectFailure::Refused(error),
        ) && (error matches Error::Windows { operation, source: reason } && reason == source)),
{
}

/// A status repeats what the reply says.
pub proof fn law_a_status_repeats_the_reply(response: Response)
    ensures
        status_of(response).capabilities == response.capabilities,
        status_of(response).lease_count == response.lease_count,
        status_of(response).hid_handle_count == response.hid_handle_count,
        status_of(response).last_revoked_handle_count == response.last_revoked_handle_count,
{
}

/// A resident payload that answers serves every goal at once: the pipe of the located
/// process is opened, one command is exchanged, and the reply is what the caller gets. A
/// lease is asked for exactly where one is wanted, a claim likewise, and otherwise the
/// state alone.
pub proof fn law_an_answering_payload_serves_the_goal(
    client: Client,
    goal: Goal,
    operations: Seq<Operation>,
    events: Seq<Event>,
    actions: Seq<Action>,
    id: u32,
    response: Response,
)
    requires
        is_run(operations, events, actions),
        client.begins(operations[0], goal),
        goal != Goal::CheckRecovery,
        goal != Goal::Rescan,
        events.len() == 3,
        events[0] == Event::Located(Ok(id)),
        events[1] is Connected,
        events[2] == Event::Replied(Ok(response)),
    ensures
        actions[0] matches Action::Connect(process, timeout) && process == id && timeout == (if goal
            == Goal::Status {
            500
        } else if client.settings().allow_injection {
            20
        } else {
            client.settings().connect_timeout
        }),
        actions[1] matches Action::Exchange(command) && {
            &&& command is AcquireLease <==> goal == Goal::Acquire
            &&& command is AcquirePassThrough <==> goal == Goal::AcquirePassThrough
            &&& command is AcquireLease || command is AcquirePassThrough || command is QueryStatus
        },
        match goal {
            Goal::Acquire => {
                &&& actions[2] matches Action::Finish(Ok(Outcome::Lease(lease)))
                &&& lease.process() == id
                &&& lease.over_steam() == is_steam(client.settings().target_name@)
                &&& lease.granted_status().lease_count == response.lease_count
                &&& lease.granted_status().capabilities == response.capabilities
            },
            Goal::AcquirePassThrough => {
                &&& actions[2] matches Action::Finish(Ok(Outcome::PassThrough(claim)))
                &&& claim.granted_status().lease_count == response.lease_count
                &&& claim.granted_status().capabilities == response.capabilities
            },
            _ => {
                &&& actions[2] matches Action::Finish(Ok(Outcome::Status(status)))
                &&& status.lease_count == response.lease_count
                &&& status.capabilities == response.capabilities
                &&& status.hid_handle_count == response.hid_handle_count
                &&& status.last_revoked_handle_count == response.last_revoked_handle_count
            },
        },
{
    assert(operations[0].moves(events[0], operations[1].stage(), actions[0]));
    assert(operations[0].same_request(&operations[1]));
    assert(operations[1].moves(events[1], operations[2].stage(), actions[1]));
    assert(operations[1].same_request(&operations[2]));
    assert(operations[2].moves(events[2], operations[3].stage(), actions[2]));
}

/// Where injection is allowed and no resident payload answers, the payload file is looked
/// for, injected into the located process and then waited for as long as the client says.
pub proof fn law_injection_follows_a_silent_process(
    client: Client,
    goal: Goal,
    operations: Seq<Operation>,
    events: Seq<Event>,
    actions: Seq<Action>,
    id: u32,
)
    requires
        is_run(operations, events, actions),
        client.begins(operations[0], goal),
        goal == Goal::EnsurePayload || goal == Goal::Acquire || goal == Goal::AcquirePassThrough,
        client.settings().allow_injection,
        events.len() == 4,
        events[0] == Event::Located(Ok(id)),
        events[1] matches Event::ConnectFailed(failure) && !(failure is Foreign),
        events[2] == Event::PayloadFile(true),
        events[3] matches Event::Injected(Ok(_)),
    ensures
        actions[0] == Action::Connect(id, 20),
        actions[1] is CheckPayload,
        actions[2] == Action::Inject(id),
        actions[3] == Action::Connect(id, client.settings().connect_timeout),
{
    assert(operations[0].moves(events[0], operations[1].stage(), actions[0]));
    assert(operations[0].same_request(&operations[1]));
    assert(operations[1].moves(events[1], operations[2].stage(), actions[1]));
    assert(operations[1].same_request(&operations[2]));
    assert(operations[2].moves(events[2], operations[3].stage(), actions[2]));
    assert(operations[2].same_request(&operations[3]));
    assert(operations[3].moves(events[3], operations[4].stage(), actions[3]));
}

/// A payload file that is missing ends the operation with its path.
pub proof fn law_a_missing_payload_is_named(operation: Operation, stage: Stage, action: Action)
    requires
        operation.stage() is CheckingPayload,
        operation.moves(Event::PayloadFile(false), stage, action),
    ensures
        stage == Stage::Finished,
        action matches Action::Finish(Err(Error::PayloadNotFound(path))) && path@
            == operation.payload(),
{
}

/// What fails outside ends the operation with that very error, and so does a pipe that
/// another process serves.
pub proof fn law_an_outside_error_ends_the_operation(
    operation: Operation,
    event: Event,
    error: Error,
    stage: Stage,
    action: Action,
)
    requires
        operation.awaits(event),
        operation.moves(event, stage, action),
        event == Event::Located(Err(error)) || event == Event::Injected(Err(error)) || event
            == Event::Replied(Err(error)) || event == Event::Resolved(Err(error)) || event
            == Event::Scanned(Err(error)) || event == Event::ConnectFailed(
            ConnectFailure::Foreign(error),
        ),
    ensures
        stage == Stage::Finished,
        action == Action::Finish(Err(error)),
{
}

/// A client that may not inject says that no resident payload answered where none did in
/// time, and otherwise why its pipe was refused. A status query tells either as it is.
pub proof fn law_an_absent_payload_is_told(
    operation: Operation,
    failure: ConnectFailure,
    stage: Stage,
    action: Action,
)
    requires
        operation.stage() is Connecting,
        operation.moves(Event::ConnectFailed(failure), stage, action),
    ensures
        stage == Stage::Finished,
        action matches Action::Finish(Err(_)),
        operation.goal() == Goal::Status ==> match failure {
            ConnectFailure::Absent(error) => action == Action::Finish(Err(error)),
            ConnectFailure::Refused(error) => action == Action::Finish(Err(error)),
            ConnectFailure::Foreign(error) => action == Action::Finish(Err(error)),
        },
        operation.goal() != Goal::Status && !operation.may_inject() ==> match failure {
            ConnectFailure::Absent(_) => action matches Action::Finish(
                Err(Error::PayloadUnavailable(_)),
            ),
            ConnectFailure::Refused(error) => action == Action::Finish(Err(error)),
            ConnectFailure::Foreign(error) => action == Action::Finish(Err(error)),
        },
{
}

/// Recovery resolves the located process and then makes two discovery requests. What it
/// reports spans both: the state before the first and the counter after the second.
pub proof fn law_recovery_makes_two_requests(
    client: Client,
    operations: Seq<Operation>,
    events: Seq<Event>,
    actions: Seq<Action>,
    id: u32,
    first: RescanResult,
    second: RescanResult,
)
    requires
        is_run(operations, events, actions),
        client.begins(operations[0], Goal::Rescan),
        events.len() == 4,
        events[0] == Event::Located(Ok(id)),
        events[1] matches Event::Resolved(Ok(_)),
        events[2] == Event::Scanned(Ok(first)),
        events[3] == Event::Scanned(Ok(second)),
    ensures
        actions[0] == Action::ResolveRecovery(id),
        actions[1] is Scan,
        actions[2] is Scan,
        actions[3] matches Action::Finish(Ok(Outcome::Rescanned(result))) && {
            &&& result.previous_deadline == first.previous_deadline
            &&& result.scan_count_before == first.scan_count_before
            &&& result.scan_count_after == second.scan_count_after
        },
{
    assert(operations[0].moves(events[0], operations[1].stage(), actions[0]));
    assert(operations[0].same_request(&operations[1]));
    assert(operations[1].moves(events[1], operations[2].stage(), actions[1]));
    assert(operations[1].same_request(&operations[2]));
    assert(operations[2].moves(events[2], operations[3].stage(), actions[2]));
    assert(operations[2].same_request(&operations[3]));
    assert(operations[3].moves(events[3], operations[4].stage(), actions[3]));
}

/// Whatever happens, a check of recovery requests no discovery and exchanges no command,
/// and it succeeds exactly where the target was resolved.
pub proof fn law_a_recovery_check_changes_nothing(
    client: Client,
    operations: Seq<Operation>,
    events: Seq<Event>,
    actions: Seq<Action>,
    index: int,
)
    requires
        is_run(operations, events, actions),
        client.begins(operations[0], Goal::CheckRecovery),
        0 <= index < actions.len(),
    ensures
        !(actions[index] is Scan),
        !(actions[index] is Exchange),
        !(actions[index] is Inject),
        actions[index] matches Action::Finish(Ok(_)) <==> (events[index] matches Event::Resolved(
            Ok(_),
        )),
{
    lemma_check_stages(client, operations, events, actions, index);
    let action = actions[index];
    assert(operations[index].moves(events[index], operations[index + 1].stage(), action));
}

proof fn lemma_check_stages(
    client: Client,
    operations: Seq<Operation>,
    events: Seq<Event>,
    actions: Seq<Action>,
    count: int,
)
    requires
        is_run(operations, events, actions),
        client.begins(operations[0], Goal::CheckRecovery),
        0 <= count <= events.len(),
    ensures
        operations[count].goal() == Goal::CheckRecovery,
        operations[count].stage() is Locating || operations[count].stage() is Resolving
            || operations[count].stage() is Finished,
    decreases count,
{
    if count > 0 {
        lemma_check_stages(client, operations, events, actions, count - 1);
        let action = actions[count - 1];
        assert(operations[count - 1].same_request(&operations[count]));
        assert(operations[count - 1].moves(events[count - 1], operations[count].stage(), action));
    }
}

/// The process that a stage works on.
pub open spec fn worked_on(stage: Stage) -> Option<u32> {
    match stage {
        Stage::Probing(id) => Some(id),
        Stage::CheckingPayload(id) => Some(id),
        Stage::Injecting(id) => Some(id),
        Stage::Connecting(id) => Some(id),
        Stage::Exchanging(id) => Some(id),
        Stage::Resolving(id) => Some(id),
        _ => None,
    }
}

/// Whatever happens, only the process that was located is connected to, injected into or
/// recovered.
pub proof fn law_only_the_located_process_is_touched(
    client: Client,
    goal: Goal,
    operations: Seq<Operation>,
    events: Seq<Event>,
    actions: Seq<Action>,
    index: int,
)
    requires
        is_run(operations, events, actions),
        client.begins(operations[0], goal),
        0 <= index < actions.len(),
    ensures
        match actions[index] {
            Action::Connect(id, _) => events[0] == Event::Located(Ok(id)),
            Action::Inject(id) => events[0] == Event::Located(Ok(id)),
            Action::ResolveRecovery(id) => events[0] == Event::Located(Ok(id)),
            Action::Finish(Ok(Outcome::Lease(lease))) => events[0] == Event::Located(
                Ok(lease.process()),
            ),
            _ => true,
        },
{
    lemma_worked_on(operations, events, actions, index);
    let action = actions[index];
    assert(operations[index].moves(events[index], operations[index + 1].stage(), action));
}

proof fn lemma_worked_on(
    operations: Seq<Operation>,
    events: Seq<Event>,
    actions: Seq<Action>,
    count: int,
)
    requires
        is_run(operations, events, actions),
        operations[0].stage() == Stage::Locating,
        0 <= count <= events.len(),
    ensures
        operations[count].stage() == Stage::Locating ==> count == 0,
        worked_on(operations[count].stage()) matches Some(id) ==> count > 0 && events[0]
            == Event::Located(Ok(id)),
    decreases count,
{
    if count > 0 {
        lemma_worked_on(operations, events, actions, count - 1);
        let action = actions[count - 1];
        assert(operations[count - 1].moves(events[count - 1], operations[count].stage(), action));
    }
}

/// A target is Steam exactly where its name is Steam's but for case.
pub proof fn law_steam_is_told_by_its_name(name: Seq<char>)
    ensures
        is_steam(name) <==> is_text_like(name, "steam.exe"@),
{
    reveal_strlit("steam.exe");
    let wanted = "steam.exe"@;
    let units = utf16(name);
    if is_steam(name) {
        assert forall|index: int| 0 <= index < units.len() implies #[trigger] units[index] < 128 by {
            assert(is_ascii_letter_like(units[index], wanted[index]));
        }
        lemma_ascii_text(name);
        lemma_ascii_units(name);
        assert forall|index: int| 0 <= index < name.len() implies ascii_lower(
            #[trigger] name[index] as int,
        ) == ascii_lower(wanted[index] as int) by {
            assert(is_ascii_letter_like(units[index], wanted[index]));
            assert(units[index] as int == name[index] as int);
        }
    }
    if is_text_like(name, wanted) {
        assert forall|index: int| 0 <= index < name.len() implies (#[trigger] name[index] as int)
            < 128 by {
            assert(ascii_lower(name[index] as int) == ascii_lower(wanted[index] as int));
        }
        lemma_ascii_units(name);
        assert forall|index: int| 0 <= index < units.len() implies is_ascii_letter_like(
            #[trigger] units[index],
            wanted[index],
        ) by {
            assert(ascii_lower(name[index] as int) == ascii_lower(wanted[index] as int));
            assert(units[index] as int == name[index] as int);
        }
    }
}

/// By default a client leases Steam, waits ten seconds, injects nothing, and would find
/// the payload in the directory of its own executable.
pub proof fn law_defaults_look_beside_the_executable(
    options: ClientOptions,
    executable: Seq<u16>,
    directory: Seq<u16>,
)
    requires
        directory_of(executable) == Some(directory),
    ensures
        options.is_default(Some(executable)) ==> {
            &&& options.payload_path@ == path_join(directory, utf16("steam_input_gate.dll"@))
            &&& is_steam(options.target_name@)
            &&& options.connect_timeout == 10_000
            &&& !options.allow_injection
        },
        options.is_default(None) ==> options.payload_path@ == path_join(
            utf16("."@),
            utf16("steam_input_gate.dll"@),
        ),
{
    law_steam_is_told_by_its_name(options.target_name@);
}

} // verus!
