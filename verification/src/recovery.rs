//! Controller recovery that the host runs against a running Steam.

use vstd::prelude::*;
use vstd::string::*;

use crate::client::RescanResult;
use crate::election::{ambiguity_text, unreadable_candidates, unreadable_text, Election};
use crate::error::{owned, Error, OsError};
use crate::launch::{is_text_like, length_until_nul, text_eq_ignore_ascii_case, until_nul};
use crate::memory::{
    judge, plausible_module_size, ObjectPattern, Verdict, MODULE_SNAPSHOT_LIMIT, SCHEDULE_NOW,
};
use crate::resolve::{
    resolve_recovery_layout, resolved, ResolveFailure, MAX_SECONDARY_OFFSET,
};
use crate::search::{hits, law_hits_are_the_wanted_indices};
use crate::text::{decode_wide, utf16_lossy};

verus! {

/// How often a module list is asked for while the loader changes it.
pub const MODULE_SNAPSHOT_ATTEMPTS: u32 = 5;

/// The pause before the first repetition, in milliseconds; each later one is
/// longer by as much.
pub const MODULE_SNAPSHOT_RETRY_DELAY: u64 = 10;

/// The module list changed while it was read.
pub const ERROR_BAD_LENGTH: u32 = 24;

/// How long a discovery request is given, in milliseconds.
pub const DISCOVERY_PAUSE: u64 = 2200;

/// A module of a process.
#[derive(Debug)]
pub struct ModuleEntry {
    /// File name, ended by a zero unit or by its length.
    pub name: Vec<u16>,
    /// Address of the image.
    pub base: usize,
    /// Size of the image.
    pub size: usize,
}

/// Where a module lies.
#[derive(Clone, Copy, Debug, PartialEq, Eq, Structural)]
pub struct RemoteModule {
    /// Address of the image.
    pub base: usize,
    /// Size of the image.
    pub size: usize,
}

/// Decodes the units before the first zero unit.
pub fn wide_slice_to_string(units: &[u16]) -> (text: String)
    ensures
        text@ == utf16_lossy(until_nul(units@)),
{
    let length: usize = length_until_nul(units);
    let part = vstd::slice::slice_subrange(units, 0, length);
    assert(part@ =~= until_nul(units@));
    let decoded = decode_wide(part);
    decoded.0
}

/// Whether a module has a name.
pub open spec fn is_named(modules: Seq<ModuleEntry>, name: Seq<char>) -> spec_fn(int) -> bool {
    |index: int| is_text_like(utf16_lossy(until_nul(modules[index].name@)), name)
}

/// The indices of the modules with a name.
pub open spec fn modules_named(modules: Seq<ModuleEntry>, name: Seq<char>) -> Seq<int> {
    hits(modules.len() as int, is_named(modules, name))
}

/// Finds the first module with a name.
pub fn find_module(modules: &Vec<ModuleEntry>, name: &str) -> (found: Option<RemoteModule>)
    ensures
        ({
            let all = modules_named(modules@, name@);
            match found {
                Some(module) => {
                    &&& all.len() > 0
                    &&& module.base == modules@[all[0]].base
                    &&& module.size == modules@[all[0]].size
                },
                None => all.len() == 0,
            }
        }),
{
    let ghost wanted = is_named(modules@, name@);
    let mut index: usize = 0;
    while index < modules.len()
        invariant
            index <= modules.len(),
            wanted == is_named(modules@, name@),
            hits(index as int, wanted).len() == 0,
        decreases modules.len() - index,
    {
        let entry = &modules[index];
        let text = wide_slice_to_string(&entry.name);
        if text_eq_ignore_ascii_case(text.as_str(), name) {
            proof {
                assert(wanted(index as int));
                assert(hits(index + 1, wanted)[0] == index);
                lemma_first_hit_stays(index + 1, modules@.len() as int, wanted);
            }
            return Some(RemoteModule { base: entry.base, size: entry.size });
        }
        assert(!wanted(index as int));
        index = index + 1;
    }
    None
}

proof fn lemma_first_hit_stays(from: int, to: int, wanted: spec_fn(int) -> bool)
    requires
        0 <= from <= to,
        hits(from, wanted).len() > 0,
    ensures
        hits(to, wanted).len() > 0,
        hits(to, wanted)[0] == hits(from, wanted)[0],
    decreases to - from,
{
    if from < to {
        lemma_first_hit_stays(from, to - 1, wanted);
    }
}

/// How an attempt to list the modules of a process went.
#[derive(Debug)]
pub enum ModuleListing {
    /// No list could be made.
    Failed(u32),
    /// A list was made, but nothing could be read from it.
    Unreadable,
    /// The modules.
    Listed(Vec<ModuleEntry>),
}

/// What follows an attempt to find a module.
#[derive(Clone, Copy, Debug, PartialEq, Eq, Structural)]
pub enum ModuleStep {
    /// Pause for that many milliseconds and list again.
    Retry(u64),
    /// The search is over.
    Finished(Option<RemoteModule>),
}

/// Decides what follows the attempt with that number, counted from zero.
///
/// Lists are unreliable while the loader changes them, so those failures are
/// repeated, with pauses that grow; other failures end the search.
pub fn remote_module(attempt: u32, listing: ModuleListing, name: &str) -> (step: ModuleStep)
    requires
        attempt < MODULE_SNAPSHOT_ATTEMPTS,
    ensures
        match listing {
            ModuleListing::Listed(modules) => {
                let all = modules_named(modules@, name@);
                step == ModuleStep::Finished(
                    if all.len() > 0 {
                        Some(
                            RemoteModule {
                                base: modules@[all[0]].base,
                                size: modules@[all[0]].size,
                            },
                        )
                    } else {
                        None
                    },
                )
            },
            ModuleListing::Failed(code) if code != ERROR_BAD_LENGTH => step
                == ModuleStep::Finished(None),
            _ => if attempt + 1 < MODULE_SNAPSHOT_ATTEMPTS {
                step == ModuleStep::Retry((MODULE_SNAPSHOT_RETRY_DELAY * (attempt + 1)) as u64)
            } else {
                step == ModuleStep::Finished(None)
            },
        },
{
    let retry: bool = match &listing {
        ModuleListing::Listed(_) => false,
        ModuleListing::Failed(code) => *code == ERROR_BAD_LENGTH,
        ModuleListing::Unreadable => true,
    };
    if retry {
        if attempt + 1 < MODULE_SNAPSHOT_ATTEMPTS {
            return ModuleStep::Retry(MODULE_SNAPSHOT_RETRY_DELAY * (attempt as u64 + 1));
        }
        return ModuleStep::Finished(None);
    }
    match listing {
        ModuleListing::Listed(modules) => {
            let found = find_module(&modules, name);
            ModuleStep::Finished(found)
        },
        _ => ModuleStep::Finished(None),
    }
}

fn unsupported(text: &str) -> (error: Error)
    ensures
        error is UnsupportedSteamBuild,
        error.text() == text@,
{
    Error::UnsupportedSteamBuild(owned(text))
}

/// Accepts the module that holds the controller code.
///
/// It must be loaded and of a plausible size.
pub fn recovery_module(found: Option<RemoteModule>) -> (module: Result<RemoteModule, Error>)
    ensures
        match (found, module) {
            (Some(known), Ok(accepted)) => accepted == known && 0 < known.size
                <= MODULE_SNAPSHOT_LIMIT,
            (Some(known), Err(error)) => {
                &&& !(0 < known.size <= MODULE_SNAPSHOT_LIMIT)
                &&& error is UnsupportedSteamBuild
                &&& error.text() == "steamclient64.dll reported an implausible image size"@
            },
            (None, Err(error)) => {
                &&& error is UnsupportedSteamBuild
                &&& error.text() == "steamclient64.dll is not loaded in Steam"@
            },
            (None, Ok(_)) => false,
        },
{
    match found {
        Some(known) => if plausible_module_size(known.size) {
            Ok(known)
        } else {
            Err(unsupported("steamclient64.dll reported an implausible image size"))
        },
        None => Err(unsupported("steamclient64.dll is not loaded in Steam")),
    }
}

/// Why a snapshot could not be resolved, in words.
pub open spec fn resolution_text(failure: ResolveFailure) -> Seq<char> {
    "steamclient runtime recovery resolution failed: "@ + failure.text()
}

/// Derives what a live object looks like from a snapshot of the module.
pub fn recovery_pattern(module: RemoteModule, image: &[u8]) -> (pattern: Result<
    ObjectPattern,
    Error,
>)
    ensures
        match (resolved(module.base as u64, image@), pattern) {
            (Ok(layout), Ok(found)) => {
                &&& found.primary == module.base + layout.primary_vtable_rva
                &&& found.secondary == module.base + layout.secondary_vtable_rva
                &&& found.secondary_offset == layout.secondary_object_offset
                &&& found.deadline_offset == layout.discovery_deadline_offset
                &&& found.counter_offset == layout.discovery_counter_offset
                &&& found.secondary_offset <= MAX_SECONDARY_OFFSET
            },
            (Ok(layout), Err(error)) => {
                &&& module.base + layout.primary_vtable_rva > usize::MAX || module.base
                    + layout.secondary_vtable_rva > usize::MAX
                &&& error is UnsupportedSteamBuild
                &&& error.text() == "steamclient64.dll is mapped beyond the address space"@
            },
            (Err(failure), Err(error)) => {
                &&& error is UnsupportedSteamBuild
                &&& error.text() == resolution_text(failure)
            },
            (Err(_), Ok(_)) => false,
        },
{
    match resolve_recovery_layout(module.base, image) {
        Ok(layout) => match ObjectPattern::new(module.base, layout) {
            Some(pattern) => Ok(pattern),
            None => Err(unsupported("steamclient64.dll is mapped beyond the address space")),
        },
        Err(failure) => {
            let mut text = String::new();
            text.append("steamclient runtime recovery resolution failed: ");
            let reason = failure.message();
            text.append(reason.as_str());
            assert(text@ =~= resolution_text(failure@));
            Err(Error::UnsupportedSteamBuild(text))
        },
    }
}

/// What follows the search of a process for live objects.
#[derive(Clone, Copy, Debug, PartialEq, Eq, Structural)]
pub enum Choice {
    /// This is the live object.
    Found(usize),
    /// The candidates must be told apart by an election.
    Elect,
}

/// Judges the live candidates of a search.
pub fn choose_hid_thread(candidates: &[usize]) -> (choice: Result<Choice, Error>)
    ensures
        match choice {
            Ok(Choice::Found(address)) => candidates@ == seq![address],
            Ok(Choice::Elect) => candidates@.len() > 1,
            Err(error) => {
                &&& candidates@.len() == 0
                &&& error is UnsupportedSteamBuild
                &&& error.text()
                    == "runtime RTTI resolved, but Steam's live CHIDIOThread object was not found"@
            },
        },
{
    match judge(candidates) {
        Verdict::Found(address) => {
            assert(candidates@ =~= seq![address]);
            Ok(Choice::Found(address))
        },
        Verdict::Ambiguous => Ok(Choice::Elect),
        Verdict::Missing => Err(
            unsupported(
                "runtime RTTI resolved, but Steam's live CHIDIOThread object was not found",
            ),
        ),
    }
}

/// The error of an election among that many candidates that was abandoned because
/// one of them became unreadable.
pub fn election_abandoned(count: usize) -> (error: Error)
    ensures
        error is UnsupportedSteamBuild,
        error.text() == unreadable_text(count as nat),
{
    Error::UnsupportedSteamBuild(unreadable_candidates(count))
}

/// The error of an election that stayed undecided.
pub fn election_undecided(election: &Election) -> (error: Error)
    requires
        election.wf(),
    ensures
        error is UnsupportedSteamBuild,
        error.text() == ambiguity_text(
            election.candidates(),
            election.first_samples(),
            election.last_samples(),
        ),
{
    Error::UnsupportedSteamBuild(election.ambiguous_candidates())
}

/// How far a discovery request has come.
#[derive(Clone, Copy, Debug, PartialEq, Eq, Structural)]
pub enum ScanStage {
    /// The object is being looked at once more.
    Validating,
    /// The deadline is being read.
    ReadingDeadline,
    /// The counter is being read; the deadline had these bits.
    ReadingCounter(u64),
    /// The deadline is being written; deadline and counter had these values.
    Writing(u64, u32),
    /// The request is given time.
    Pausing(u64, u32),
    /// The counter is being read again.
    ReadingAgain(u64, u32),
    /// The request is over.
    Finished,
}

/// The outcome of what a discovery request asked for.
#[derive(Debug)]
pub enum ScanEvent {
    /// Whether the address still holds the live object.
    Validated(bool),
    /// The deadline's bits, where they could be read.
    Deadline(Result<u64, OsError>),
    /// The counter, where it could be read.
    Counter(Result<u32, OsError>),
    /// Whether the deadline was written.
    Written(Result<(), OsError>),
    /// The pause is over.
    Paused,
}

/// What a discovery request does next.
#[derive(Debug)]
pub enum ScanAction {
    /// Look at the object's vtable pointers and deadline.
    Validate,
    /// Read the deadline.
    ReadDeadline,
    /// Read the counter.
    ReadCounter,
    /// Write this word to the deadline.
    Store(u64),
    /// Pause for that many milliseconds.
    Pause(u64),
    /// The request is over.
    Finish(Result<RescanResult, Error>),
}

/// One guarded request for controller discovery.
#[derive(Debug)]
pub struct ScanRequest {
    deadline_address: usize,
    stage: ScanStage,
}

impl ScanRequest {
    /// Where the deadline is.
    pub closed spec fn deadline(&self) -> usize {
        self.deadline_address
    }

    /// How far the request has come.
    pub closed spec fn stage(&self) -> ScanStage {
        self.stage
    }

    /// Begins a request with [`ScanAction::Validate`].
    pub fn new(deadline_address: usize) -> (request: ScanRequest)
        ensures
            request.deadline() == deadline_address,
            request.stage() == ScanStage::Validating,
    {
        ScanRequest { deadline_address, stage: ScanStage::Validating }
    }

    /// Whether an event answers what was last asked for.
    pub open spec fn awaits(&self, event: ScanEvent) -> bool {
        match self.stage() {
            ScanStage::Validating => event is Validated,
            ScanStage::ReadingDeadline => event is Deadline,
            ScanStage::ReadingCounter(_) => event is Counter,
            ScanStage::Writing(_, _) => event is Written,
            ScanStage::Pausing(_, _) => event is Paused,
            ScanStage::ReadingAgain(_, _) => event is Counter,
            ScanStage::Finished => false,
        }
    }

    /// Whether the request ends with a failed call.
    pub open spec fn fails_with(
        stage: ScanStage,
        action: ScanAction,
        operation: &'static str,
        source: OsError,
    ) -> bool {
        &&& stage == ScanStage::Finished
        &&& action == ScanAction::Finish(Err(Error::Windows { operation, source }))
    }

    /// Whether the request ends because its target is gone.
    pub open spec fn is_unsupported(stage: ScanStage, action: ScanAction, text: Seq<char>) -> bool {
        &&& stage == ScanStage::Finished
        &&& action matches ScanAction::Finish(Err(error))
        &&& error is UnsupportedSteamBuild
        &&& error.text() == text
    }

    /// Whether a request that takes an event moves to a stage with an action.
    pub open spec fn moves(&self, event: ScanEvent, stage: ScanStage, action: ScanAction) -> bool {
        match (self.stage(), event) {
            (ScanStage::Validating, ScanEvent::Validated(live)) => if !live {
                ScanRequest::is_unsupported(
                    stage,
                    action,
                    "Steam's CHIDIOThread object is no longer valid at the resolved address"@,
                )
            } else if self.deadline() % 8 != 0 {
                ScanRequest::is_unsupported(
                    stage,
                    action,
                    "Steam's discovery deadline is not aligned at the resolved address"@,
                )
            } else {
                stage == ScanStage::ReadingDeadline && action == ScanAction::ReadDeadline
            },
            (ScanStage::ReadingDeadline, ScanEvent::Deadline(Ok(bits))) => stage
                == ScanStage::ReadingCounter(bits) && action == ScanAction::ReadCounter,
            (ScanStage::ReadingDeadline, ScanEvent::Deadline(Err(source))) =>
                ScanRequest::fails_with(stage, action, "ReadProcessMemory failed", source),
            (ScanStage::ReadingCounter(bits), ScanEvent::Counter(Ok(count))) => stage
                == ScanStage::Writing(bits, count) && action == ScanAction::Store(SCHEDULE_NOW),
            (ScanStage::ReadingCounter(bits), ScanEvent::Counter(Err(source))) =>
                ScanRequest::fails_with(stage, action, "ReadProcessMemory failed", source),
            (ScanStage::Writing(bits, count), ScanEvent::Written(Ok(_))) => stage
                == ScanStage::Pausing(bits, count) && action == ScanAction::Pause(DISCOVERY_PAUSE),
            (ScanStage::Writing(bits, count), ScanEvent::Written(Err(source))) =>
                ScanRequest::fails_with(
                    stage,
                    action,
                    "could not request Steam controller discovery",
                    source,
                ),
            (ScanStage::Pausing(bits, count), ScanEvent::Paused) => stage
                == ScanStage::ReadingAgain(bits, count) && action == ScanAction::ReadCounter,
            (ScanStage::ReadingAgain(bits, count), ScanEvent::Counter(again)) => {
                &&& stage == ScanStage::Finished
                &&& action == ScanAction::Finish(
                    Ok(
                        RescanResult {
                            previous_deadline: bits,
                            scan_count_before: count,
                            scan_count_after: match again {
                                Ok(after) => after,
                                Err(_) => count,
                            },
                        },
                    ),
                )
            },
            _ => false,
        }
    }

    /// Takes the outcome of what was last asked for, and says what to do next.
    pub fn next(&mut self, event: ScanEvent) -> (action: ScanAction)
        requires
            old(self).awaits(event),
        ensures
            final(self).deadline() == old(self).deadline(),
            old(self).moves(event, final(self).stage(), action),
    {
        match (self.stage, event) {
            (ScanStage::Validating, ScanEvent::Validated(live)) => if !live {
                self.stage = ScanStage::Finished;
                ScanAction::Finish(
                    Err(
                        unsupported(
                            "Steam's CHIDIOThread object is no longer valid at the resolved address",
                        ),
                    ),
                )
            } else if self.deadline_address % 8 != 0 {
                self.stage = ScanStage::Finished;
                ScanAction::Finish(
                    Err(
                        unsupported(
                            "Steam's discovery deadline is not aligned at the resolved address",
                        ),
                    ),
                )
            } else {
                self.stage = ScanStage::ReadingDeadline;
                ScanAction::ReadDeadline
            },
            (ScanStage::ReadingDeadline, ScanEvent::Deadline(Ok(bits))) => {
                self.stage = ScanStage::ReadingCounter(bits);
                ScanAction::ReadCounter
            },
            (ScanStage::ReadingDeadline, ScanEvent::Deadline(Err(source))) => {
                self.stage = ScanStage::Finished;
                ScanAction::Finish(Err(Error::windows("ReadProcessMemory failed", source)))
            },
            (ScanStage::ReadingCounter(bits), ScanEvent::Counter(Ok(count))) => {
                self.stage = ScanStage::Writing(bits, count);
                ScanAction::Store(SCHEDULE_NOW)
            },
            (ScanStage::ReadingCounter(_), ScanEvent::Counter(Err(source))) => {
                self.stage = ScanStage::Finished;
                ScanAction::Finish(Err(Error::windows("ReadProcessMemory failed", source)))
            },
            (ScanStage::Writing(bits, count), ScanEvent::Written(Ok(_))) => {
                self.stage = ScanStage::Pausing(bits, count);
                ScanAction::Pause(DISCOVERY_PAUSE)
            },
            (ScanStage::Writing(_, _), ScanEvent::Written(Err(source))) => {
                self.stage = ScanStage::Finished;
                ScanAction::Finish(
                    Err(Error::windows("could not request Steam controller discovery", source)),
                )
            },
            (ScanStage::Pausing(bits, count), ScanEvent::Paused) => {
                self.stage = ScanStage::ReadingAgain(bits, count);
                ScanAction::ReadCounter
            },
            (ScanStage::ReadingAgain(bits, count), ScanEvent::Counter(again)) => {
                self.stage = ScanStage::Finished;
                ScanAction::Finish(
                    Ok(
                        RescanResult {
                            previous_deadline: bits,
                            scan_count_before: count,
                            scan_count_after: match again {
                                Ok(after) => after,
                                Err(_) => count,
                            },
                        },
                    ),
                )
            },
            (_, _) => {
                self.stage = ScanStage::Finished;
                ScanAction::Finish(Err(Error::Message(owned("unexpected event"))))
            },
        }
    }
}

/// Whether a sequence of requests is one run: each takes an event and becomes the
/// next with an action.
pub open spec fn is_scan(
    requests: Seq<ScanRequest>,
    events: Seq<ScanEvent>,
    actions: Seq<ScanAction>,
) -> bool {
    &&& requests.len() == events.len() + 1
    &&& actions.len() == events.len()
    &&& forall|index: int|
        #![trigger actions[index]]
        0 <= index < events.len() ==> {
            &&& requests[index].deadline() == requests[index + 1].deadline()
            &&& requests[index].moves(events[index], requests[index + 1].stage(), actions[index])
        }
}

/// Whether a stage is reached only through a live and aligned object.
spec fn guarded(stage: ScanStage) -> bool {
    !(stage is Validating) && !(stage is Finished)
}

proof fn lemma_scan_is_guarded(
    requests: Seq<ScanRequest>,
    events: Seq<ScanEvent>,
    actions: Seq<ScanAction>,
    count: int,
)
    requires
        is_scan(requests, events, actions),
        requests[0].stage() == ScanStage::Validating,
        0 <= count <= events.len(),
    ensures
        requests[count].deadline() == requests[0].deadline(),
        guarded(requests[count].stage()) ==> count > 0 && events[0] == ScanEvent::Validated(true)
            && requests[0].deadline() % 8 == 0,
        requests[count].stage() is Validating ==> count == 0,
    decreases count,
{
    if count > 0 {
        lemma_scan_is_guarded(requests, events, actions, count - 1);
        let action = actions[count - 1];
        assert(requests[count - 1].moves(events[count - 1], requests[count].stage(), action));
    }
}

/// Whatever happens, memory is written only where the object was found live just
/// before and its deadline is aligned, and nothing but the word that schedules
/// discovery is written.
pub proof fn law_only_a_live_object_is_written(
    requests: Seq<ScanRequest>,
    events: Seq<ScanEvent>,
    actions: Seq<ScanAction>,
    index: int,
)
    requires
        is_scan(requests, events, actions),
        requests[0].stage() == ScanStage::Validating,
        0 <= index < actions.len(),
        actions[index] is Store,
    ensures
        actions[index] == ScanAction::Store(SCHEDULE_NOW),
        events[0] == ScanEvent::Validated(true),
        requests[0].deadline() % 8 == 0,
{
    lemma_scan_is_guarded(requests, events, actions, index);
    let action = actions[index];
    assert(requests[index].moves(events[index], requests[index + 1].stage(), action));
}

/// A request that succeeds looked at the object, read its deadline and its counter, wrote
/// the word that schedules discovery, waited 2.2 seconds and read the counter again, once
/// each and in this order. It reports what it read; a counter that could not be read
/// again counts as unchanged.
pub proof fn law_a_finished_request_reports_what_was_read(
    requests: Seq<ScanRequest>,
    events: Seq<ScanEvent>,
    actions: Seq<ScanAction>,
    result: RescanResult,
)
    requires
        is_scan(requests, events, actions),
        requests[0].stage() == ScanStage::Validating,
        actions.len() > 0,
        actions.last() == ScanAction::Finish(Ok(result)),
    ensures
        events.len() == 6,
        events[0] == ScanEvent::Validated(true),
        actions[0] is ReadDeadline,
        events[1] matches ScanEvent::Deadline(Ok(bits)) && bits == result.previous_deadline,
        actions[1] is ReadCounter,
        events[2] matches ScanEvent::Counter(Ok(count)) && count == result.scan_count_before,
        actions[2] == ScanAction::Store(0xBFF0_0000_0000_0000),
        events[3] matches ScanEvent::Written(Ok(_)),
        actions[3] == ScanAction::Pause(2200),
        events[4] is Paused,
        actions[4] is ReadCounter,
        match events[5] {
            ScanEvent::Counter(Ok(count)) => result.scan_count_after == count,
            ScanEvent::Counter(Err(_)) => result.scan_count_after == result.scan_count_before,
            _ => false,
        },
{
    let last = actions.len() - 1;
    lemma_scan_history(requests, events, actions, last);
    let action = actions[last];
    assert(requests[last].moves(events[last], requests[last + 1].stage(), action));
}

proof fn lemma_scan_history(
    requests: Seq<ScanRequest>,
    events: Seq<ScanEvent>,
    actions: Seq<ScanAction>,
    count: int,
)
    requires
        is_scan(requests, events, actions),
        requests[0].stage() == ScanStage::Validating,
        0 <= count <= events.len(),
    ensures
        match requests[count].stage() {
            ScanStage::Validating => count == 0,
            ScanStage::ReadingDeadline => count == 1 && undisturbed(events, actions, 1, 0, 0),
            ScanStage::ReadingCounter(bits) => count == 2 && undisturbed(
                events,
                actions,
                2,
                bits,
                0,
            ),
            ScanStage::Writing(bits, counter) => count == 3 && undisturbed(
                events,
                actions,
                3,
                bits,
                counter,
            ),
            ScanStage::Pausing(bits, counter) => count == 4 && undisturbed(
                events,
                actions,
                4,
                bits,
                counter,
            ),
            ScanStage::ReadingAgain(bits, counter) => count == 5 && undisturbed(
                events,
                actions,
                5,
                bits,
                counter,
            ),
            ScanStage::Finished => true,
        },
    decreases count,
{
    if count > 0 {
        lemma_scan_history(requests, events, actions, count - 1);
        let action = actions[count - 1];
        assert(requests[count - 1].moves(events[count - 1], requests[count].stage(), action));
    }
}

/// Whether the first `count` steps of a request are those of an undisturbed one.
spec fn undisturbed(
    events: Seq<ScanEvent>,
    actions: Seq<ScanAction>,
    count: int,
    bits: u64,
    counter: u32,
) -> bool {
    &&& count > 0 ==> events[0] == ScanEvent::Validated(true) && actions[0] is ReadDeadline
    &&& count > 1 ==> (events[1] matches ScanEvent::Deadline(Ok(read)) && read == bits)
        && actions[1] is ReadCounter
    &&& count > 2 ==> (events[2] matches ScanEvent::Counter(Ok(read)) && read == counter)
        && actions[2] == ScanAction::Store(SCHEDULE_NOW)
    &&& count > 3 ==> (events[3] matches ScanEvent::Written(Ok(_))) && actions[3]
        == ScanAction::Pause(DISCOVERY_PAUSE)
    &&& count > 4 ==> events[4] is Paused && actions[4] is ReadCounter
}

/// A request whose steps all succeed on a live, aligned object succeeds.
pub proof fn law_an_undisturbed_request_succeeds(
    requests: Seq<ScanRequest>,
    events: Seq<ScanEvent>,
    actions: Seq<ScanAction>,
)
    requires
        is_scan(requests, events, actions),
        requests[0].stage() == ScanStage::Validating,
        requests[0].deadline() % 8 == 0,
        events.len() == 6,
        events[0] == ScanEvent::Validated(true),
        events[1] matches ScanEvent::Deadline(Ok(_)),
        events[2] matches ScanEvent::Counter(Ok(_)),
        events[3] matches ScanEvent::Written(Ok(_)),
        events[4] is Paused,
        events[5] is Counter,
    ensures
        actions[5] matches ScanAction::Finish(Ok(_)),
{
    assert(requests[0].moves(events[0], requests[1].stage(), actions[0]));
    assert(requests[1].moves(events[1], requests[2].stage(), actions[1]));
    assert(requests[2].moves(events[2], requests[3].stage(), actions[2]));
    assert(requests[3].moves(events[3], requests[4].stage(), actions[3]));
    assert(requests[4].moves(events[4], requests[5].stage(), actions[4]));
    assert(requests[5].moves(events[5], requests[6].stage(), actions[5]));
}

/// An object that is gone, or whose deadline is not aligned, ends the request at once
/// with an error, before anything is read or written.
pub proof fn law_a_doubtful_object_ends_the_request(
    request: ScanRequest,
    live: bool,
    stage: ScanStage,
    action: ScanAction,
)
    requires
        request.stage() == ScanStage::Validating,
        request.moves(ScanEvent::Validated(live), stage, action),
        !live || request.deadline() % 8 != 0,
    ensures
        stage == ScanStage::Finished,
        action matches ScanAction::Finish(Err(error)) && error is UnsupportedSteamBuild && (!live
            ==> error.text()
            == "Steam's CHIDIOThread object is no longer valid at the resolved address"@) && (live
            ==> error.text()
            == "Steam's discovery deadline is not aligned at the resolved address"@),
{
}

/// A read or write that fails ends the request with what the system reported. Only the
/// last reading of the counter may fail without harm.
pub proof fn law_a_failed_step_ends_the_request(
    request: ScanRequest,
    source: OsError,
    stage: ScanStage,
    action: ScanAction,
)
    ensures
        ({
            let reported = stage == ScanStage::Finished && (action matches ScanAction::Finish(
                Err(error),
            ) && (error matches Error::Windows { operation, source: reason } && reason == source));
            &&& request.stage() == ScanStage::ReadingDeadline && request.moves(
                ScanEvent::Deadline(Err(source)),
                stage,
                action,
            ) ==> reported
            &&& request.stage() is ReadingCounter && request.moves(
                ScanEvent::Counter(Err(source)),
                stage,
                action,
            ) ==> reported
            &&& request.stage() is Writing && request.moves(
                ScanEvent::Written(Err(source)),
                stage,
                action,
            ) ==> reported
            &&& request.stage() is ReadingAgain && request.moves(
                ScanEvent::Counter(Err(source)),
                stage,
                action,
            ) ==> (action matches ScanAction::Finish(Ok(_)))
        }),
{
}

/// The module that is found is the first whose name, up to its end, is like the wanted
/// one but for case; none is found only where none is.
pub proof fn law_the_first_module_of_a_name_is_found(
    modules: Seq<ModuleEntry>,
    name: Seq<char>,
    index: int,
)
    requires
        0 <= index < modules.len(),
    ensures
        ({
            let all = modules_named(modules, name);
            let named = is_text_like(utf16_lossy(until_nul(modules[index].name@)), name);
            &&& named ==> all.len() > 0 && all[0] <= index
            &&& all.len() > 0 && all[0] == index ==> named
            &&& all.len() > 0 ==> 0 <= all[0] < modules.len()
        }),
{
    let wanted = is_named(modules, name);
    let all = modules_named(modules, name);
    law_hits_are_the_wanted_indices(modules.len() as int, wanted);
    if wanted(index) {
        assert(all.contains(index));
        let at = choose|at: int| 0 <= at < all.len() && all[at] == index;
        assert(at == 0 || all[0] < all[at]);
    }
    if all.len() > 0 {
        assert(all.contains(all[0]));
    }
}

/// A failed resolution is reported in full behind what failed.
pub proof fn law_a_resolution_report_ends_with_its_reason(failure: ResolveFailure)
    ensures
        resolution_text(failure).len() == 48 + failure.text().len(),
        resolution_text(failure).skip(48) == failure.text(),
{
    reveal_strlit("steamclient runtime recovery resolution failed: ");
    assert(resolution_text(failure).skip(48) =~= failure.text());
}

} // verus!
