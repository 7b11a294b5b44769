//! Opt-in loading of the payload into a running target.
//!
//! This is for launch wrappers and tests on machines where the payload is not
//! deployed; a client with default options never gets here.

use vstd::prelude::*;

use crate::error::{owned, Error, OsError};

verus! {

/// How long the target is given to load the payload, in milliseconds.
pub const LOAD_TIMEOUT: u32 = 10_000;

/// The wait ended because the thread did.
pub const WAIT_OBJECT_0: u32 = 0;

/// The wait ended because the time was up.
pub const WAIT_TIMEOUT: u32 = 258;

/// Whether two processes have the same architecture, from what the system reports
/// of each: its own machine and the native one.
pub fn same_architecture(own: Option<(u16, u16)>, target: Option<(u16, u16)>) -> (same: bool)
    ensures
        same == (own is Some && own == target),
{
    match (own, target) {
        (Some(first), Some(second)) => first.0 == second.0 && first.1 == second.1,
        _ => false,
    }
}

/// Where a function lies in the target, from where it lies here: modules are
/// placed anew in every process, but functions keep their place in a module.
pub fn relocated(remote_base: usize, local_base: usize, local_function: usize) -> (address: Option<
    usize,
>)
    ensures
        address == if local_base <= local_function && remote_base + (local_function - local_base)
            <= usize::MAX {
            Some((remote_base + (local_function - local_base)) as usize)
        } else {
            None
        },
{
    if local_base <= local_function {
        remote_base.checked_add(local_function - local_base)
    } else {
        None
    }
}

/// A stage of loading the payload.
#[derive(Debug)]
pub enum LoadStage {
    /// Open the target.
    Opening,
    /// Compare the architectures.
    Comparing,
    /// Find the module with the loading function in the target.
    FindingModule,
    /// Find the loading function here.
    FindingFunction,
    /// Make the payload's path absolute.
    ResolvingPath,
    /// Allocate room for the path in the target.
    Allocating,
    /// Write the path.
    Writing,
    /// Start the thread that loads the payload.
    Starting,
    /// Wait for the thread.
    Waiting,
    /// Read what the thread returned.
    ReadingResult,
    /// Free the room for the path, and then end so.
    Freeing(Result<(), Error>),
    /// Loading is over.
    Finished(Result<(), Error>),
}

/// The outcome of a stage.
#[derive(Debug)]
pub enum LoadEvent {
    /// The stage succeeded.
    Succeeded,
    /// The stage failed.
    Failed(OsError),
    /// The wait ended with this code; the system's last error.
    Waited(u32, OsError),
}

impl LoadStage {
    /// Whether an event answers what the stage stands for.
    pub open spec fn awaits(self, event: LoadEvent) -> bool {
        match self {
            LoadStage::Waiting => event is Waited,
            LoadStage::Finished(_) => false,
            _ => event is Succeeded || event is Failed,
        }
    }

    /// Whether a stage ends with a text.
    pub open spec fn ends_with_text(stage: LoadStage, text: Seq<char>) -> bool {
        &&& stage matches LoadStage::Finished(Err(error))
        &&& error is Message
        &&& error.text() == text
    }

    /// Whether a stage frees the path and then ends with a text.
    pub open spec fn frees_with_text(stage: LoadStage, text: Seq<char>) -> bool {
        &&& stage matches LoadStage::Freeing(Err(error))
        &&& error is Message
        &&& error.text() == text
    }

    /// Whether a stage follows an event.
    pub open spec fn leads(self, event: LoadEvent, next: LoadStage) -> bool {
        match (self, event) {
            (LoadStage::Opening, LoadEvent::Failed(source)) => next == LoadStage::Finished(
                Err(Error::Windows { operation: "OpenProcess failed", source }),
            ),
            (LoadStage::Opening, _) => next is Comparing,
            (LoadStage::Comparing, LoadEvent::Failed(_)) => next == LoadStage::Finished(
                Err(Error::ArchitectureMismatch),
            ),
            (LoadStage::Comparing, _) => next is FindingModule,
            (LoadStage::FindingModule, LoadEvent::Failed(_)) => LoadStage::ends_with_text(
                next,
                "could not locate kernel32.dll in the target"@,
            ),
            (LoadStage::FindingModule, _) => next is FindingFunction,
            (LoadStage::FindingFunction, LoadEvent::Failed(_)) => LoadStage::ends_with_text(
                next,
                "could not locate LoadLibraryW"@,
            ),
            (LoadStage::FindingFunction, _) => next is ResolvingPath,
            (LoadStage::ResolvingPath, LoadEvent::Failed(source)) => next == LoadStage::Finished(
                Err(Error::Windows { operation: "could not resolve payload path", source }),
            ),
            (LoadStage::ResolvingPath, _) => next is Allocating,
            (LoadStage::Allocating, LoadEvent::Failed(source)) => next == LoadStage::Finished(
                Err(Error::Windows { operation: "VirtualAllocEx failed", source }),
            ),
            (LoadStage::Allocating, _) => next is Writing,
            (LoadStage::Writing, LoadEvent::Failed(source)) => next == LoadStage::Freeing(
                Err(Error::Windows { operation: "WriteProcessMemory failed", source }),
            ),
            (LoadStage::Writing, _) => next is Starting,
            (LoadStage::Starting, LoadEvent::Failed(source)) => next == LoadStage::Freeing(
                Err(Error::Windows { operation: "CreateRemoteThread failed", source }),
            ),
            (LoadStage::Starting, _) => next is Waiting,
            (LoadStage::Waiting, LoadEvent::Waited(code, source)) => if code == WAIT_OBJECT_0 {
                next is ReadingResult
            } else if code == WAIT_TIMEOUT {
                LoadStage::ends_with_text(next, "payload injection timed out"@)
            } else {
                next == LoadStage::Finished(
                    Err(
                        Error::Windows {
                            operation: "waiting for payload injection failed",
                            source,
                        },
                    ),
                )
            },
            (LoadStage::ReadingResult, LoadEvent::Succeeded) => next == LoadStage::Freeing(Ok(())),
            (LoadStage::ReadingResult, _) => LoadStage::frees_with_text(
                next,
                "the target did not load steam_input_gate.dll"@,
            ),
            (LoadStage::Freeing(result), _) => next == LoadStage::Finished(result),
            _ => false,
        }
    }
}

fn ended(text: &str) -> (stage: LoadStage)
    ensures
        LoadStage::ends_with_text(stage, text@),
{
    LoadStage::Finished(Err(Error::Message(owned(text))))
}

/// Decides the stage that follows.
///
/// The path may be freed only once the thread that reads it is known to be gone:
/// after a wait that timed out or failed it is left where it is.
pub fn inject_payload(stage: LoadStage, event: LoadEvent) -> (next: LoadStage)
    requires
        stage.awaits(event),
    ensures
        stage.leads(event, next),
{
    match (stage, event) {
        (LoadStage::Opening, LoadEvent::Failed(source)) => LoadStage::Finished(
            Err(Error::windows("OpenProcess failed", source)),
        ),
        (LoadStage::Opening, _) => LoadStage::Comparing,
        (LoadStage::Comparing, LoadEvent::Failed(_)) => LoadStage::Finished(
            Err(Error::ArchitectureMismatch),
        ),
        (LoadStage::Comparing, _) => LoadStage::FindingModule,
        (LoadStage::FindingModule, LoadEvent::Failed(_)) => ended(
            "could not locate kernel32.dll in the target",
        ),
        (LoadStage::FindingModule, _) => LoadStage::FindingFunction,
        (LoadStage::FindingFunction, LoadEvent::Failed(_)) => ended(
            "could not locate LoadLibraryW",
        ),
        (LoadStage::FindingFunction, _) => LoadStage::ResolvingPath,
        (LoadStage::ResolvingPath, LoadEvent::Failed(source)) => LoadStage::Finished(
            Err(Error::windows("could not resolve payload path", source)),
        ),
        (LoadStage::ResolvingPath, _) => LoadStage::Allocating,
        (LoadStage::Allocating, LoadEvent::Failed(source)) => LoadStage::Finished(
            Err(Error::windows("VirtualAllocEx failed", source)),
        ),
        (LoadStage::Allocating, _) => LoadStage::Writing,
        (LoadStage::Writing, LoadEvent::Failed(source)) => LoadStage::Freeing(
            Err(Error::windows("WriteProcessMemory failed", source)),
        ),
        (LoadStage::Writing, _) => LoadStage::Starting,
        (LoadStage::Starting, LoadEvent::Failed(source)) => LoadStage::Freeing(
            Err(Error::windows("CreateRemoteThread failed", source)),
        ),
        (LoadStage::Starting, _) => LoadStage::Waiting,
        (LoadStage::Waiting, LoadEvent::Waited(code, source)) => if code == WAIT_OBJECT_0 {
            LoadStage::ReadingResult
        } else if code == WAIT_TIMEOUT {
            ended("payload injection timed out")
        } else {
            LoadStage::Finished(
                Err(Error::windows("waiting for payload injection failed", source)),
            )
        },
        (LoadStage::ReadingResult, LoadEvent::Succeeded) => LoadStage::Freeing(Ok(())),
        (LoadStage::ReadingResult, _) => LoadStage::Freeing(
            Err(Error::Message(owned("the target did not load steam_input_gate.dll"))),
        ),
        (LoadStage::Freeing(result), _) => LoadStage::Finished(result),
        (other, _) => other,
    }
}

/// Whether stages and events are one run of loading, from its beginning: each stage
/// takes its event and is followed by the next.
pub open spec fn is_load(stages: Seq<LoadStage>, events: Seq<LoadEvent>) -> bool {
    &&& stages.len() == events.len() + 1
    &&& stages[0] is Opening
    &&& forall|index: int|
        0 <= index < events.len() ==> (#[trigger] stages[index]).awaits(events[index])
            && stages[index].leads(events[index], stages[index + 1])
}

/// Whether a run held a stage with such an event.
pub open spec fn happened(
    stages: Seq<LoadStage>,
    events: Seq<LoadEvent>,
    what: spec_fn(LoadStage, LoadEvent) -> bool,
) -> bool {
    exists|index: int| 0 <= index < events.len() && what(#[trigger] stages[index], events[index])
}

/// Room for the path was allocated.
pub open spec fn allocates() -> spec_fn(LoadStage, LoadEvent) -> bool {
    |stage: LoadStage, event: LoadEvent| stage is Allocating && event is Succeeded
}

/// The thread that reads the path was created.
pub open spec fn creates_thread() -> spec_fn(LoadStage, LoadEvent) -> bool {
    |stage: LoadStage, event: LoadEvent| stage is Starting && event is Succeeded
}

/// The wait showed that the thread is gone.
pub open spec fn sees_thread_gone() -> spec_fn(LoadStage, LoadEvent) -> bool {
    |stage: LoadStage, event: LoadEvent|
        stage is Waiting && event is Waited && event->Waited_0 == WAIT_OBJECT_0
}

/// The thread's result was read, and it names a module.
pub open spec fn reads_module() -> spec_fn(LoadStage, LoadEvent) -> bool {
    |stage: LoadStage, event: LoadEvent| stage is ReadingResult && event is Succeeded
}

/// The room for the path was freed.
pub open spec fn frees() -> spec_fn(LoadStage, LoadEvent) -> bool {
    |stage: LoadStage, event: LoadEvent| stage is Freeing
}

proof fn lemma_happened(
    stages: Seq<LoadStage>,
    events: Seq<LoadEvent>,
    what: spec_fn(LoadStage, LoadEvent) -> bool,
)
    requires
        stages.len() == events.len() + 1,
        events.len() > 0,
    ensures
        happened(stages, events, what) == (happened(stages.drop_last(), events.drop_last(), what)
            || what(stages[events.len() - 1], events.last())),
{
    let fewer = stages.drop_last();
    if happened(stages, events, what) {
        let index = choose|index: int|
            0 <= index < events.len() && what(#[trigger] stages[index], events[index]);
        if index < events.len() - 1 {
            assert(fewer[index] == stages[index]);
            assert(what(fewer[index], events.drop_last()[index]));
        }
    }
    if happened(fewer, events.drop_last(), what) {
        let index = choose|index: int|
            0 <= index < events.len() - 1 && what(
                #[trigger] fewer[index],
                events.drop_last()[index],
            );
        assert(what(stages[index], events[index]));
    }
    if what(stages[events.len() - 1], events.last()) {
        assert(what(stages[events.len() - 1], events[events.len() - 1]));
    }
}

/// What a stage tells of the run that led to it.
proof fn lemma_run(stages: Seq<LoadStage>, events: Seq<LoadEvent>)
    requires
        is_load(stages, events),
    ensures
        ({
            let allocated = happened(stages, events, allocates());
            let created = happened(stages, events, creates_thread());
            let gone = happened(stages, events, sees_thread_gone());
            let read = happened(stages, events, reads_module());
            let freed = happened(stages, events, frees());
            match stages.last() {
                LoadStage::Writing | LoadStage::Starting => allocated && !created && !gone && !read
                    && !freed,
                LoadStage::Waiting => allocated && created && !gone && !read && !freed,
                LoadStage::ReadingResult => allocated && created && gone && !read && !freed,
                LoadStage::Freeing(result) => {
                    &&& allocated && !freed
                    &&& created ==> gone
                    &&& result is Ok <==> created && gone && read
                },
                LoadStage::Finished(result) => {
                    &&& freed <==> allocated && (!created || gone)
                    &&& result is Ok <==> created && gone && read
                },
                _ => !allocated && !created && !gone && !read && !freed,
            }
        }),
    decreases events.len(),
{
    if events.len() > 0 {
        let fewer = stages.drop_last();
        let earlier = events.drop_last();
        assert forall|index: int| 0 <= index < earlier.len() implies (
        #[trigger] fewer[index]).awaits(earlier[index]) && fewer[index].leads(
            earlier[index],
            fewer[index + 1],
        ) by {
            assert(stages[index].awaits(events[index]));
        }
        lemma_run(fewer, earlier);
        lemma_happened(stages, events, allocates());
        lemma_happened(stages, events, creates_thread());
        lemma_happened(stages, events, sees_thread_gone());
        lemma_happened(stages, events, reads_module());
        lemma_happened(stages, events, frees());
        let last = events.len() - 1;
        assert(stages[last].awaits(events[last]));
        assert(fewer.last() == stages[last]);
    }
}

/// A whole run frees the path exactly where it was allocated and no thread can be
/// reading it: none was created, or the wait showed it gone. The run succeeds exactly
/// where the thread was created, was seen gone and returned a module.
pub proof fn law_the_path_is_freed_exactly_when_unused(
    stages: Seq<LoadStage>,
    events: Seq<LoadEvent>,
)
    requires
        is_load(stages, events),
        stages.last() is Finished,
    ensures
        happened(stages, events, frees()) <==> happened(stages, events, allocates()) && (!happened(
            stages,
            events,
            creates_thread(),
        ) || happened(stages, events, sees_thread_gone())),
        stages.last()->Finished_0 is Ok <==> happened(stages, events, creates_thread()) && happened(
            stages,
            events,
            sees_thread_gone(),
        ) && happened(stages, events, reads_module()),
{
    lemma_run(stages, events);
}

/// A run whose steps all succeed and whose thread ends in time loads the payload.
pub proof fn law_an_undisturbed_load_succeeds(
    stages: Seq<LoadStage>,
    events: Seq<LoadEvent>,
    source: OsError,
)
    requires
        is_load(stages, events),
        events.len() == 11,
        forall|index: int|
            0 <= index < 11 && index != 8 ==> #[trigger] events[index] is Succeeded,
        events[8] == LoadEvent::Waited(0, source),
    ensures
        stages[11] == LoadStage::Finished(Ok(())),
{
    assert(stages[0].leads(events[0], stages[1]));
    assert(stages[1].leads(events[1], stages[2]));
    assert(stages[2].leads(events[2], stages[3]));
    assert(stages[3].leads(events[3], stages[4]));
    assert(stages[4].leads(events[4], stages[5]));
    assert(stages[5].leads(events[5], stages[6]));
    assert(stages[6].leads(events[6], stages[7]));
    assert(stages[7].leads(events[7], stages[8]));
    assert(stages[8].leads(events[8], stages[9]));
    assert(stages[9].leads(events[9], stages[10]));
    assert(stages[10].leads(events[10], stages[11]));
}

/// Nothing is allocated, written or started in the target before it was opened, its
/// architecture agreed, its loader was found and the path was made absolute, each with
/// success; nothing is started before the path was written.
pub proof fn law_the_target_is_touched_only_when_it_fits(
    stages: Seq<LoadStage>,
    events: Seq<LoadEvent>,
    count: int,
)
    requires
        is_load(stages, events),
        0 <= count <= events.len(),
    ensures
        stages[count] is Comparing ==> count == 1,
        stages[count] is FindingModule ==> count == 2,
        stages[count] is Allocating ==> count == 5,
        stages[count] is Writing ==> count == 6,
        stages[count] is Starting ==> count == 7,
        stages[count] is Waiting ==> count == 8,
        stages[count] is Allocating || stages[count] is Writing || stages[count] is Starting
            || stages[count] is Waiting ==> forall|index: int|
            0 <= index < count ==> #[trigger] events[index] is Succeeded,
        stages[count] is Allocating ==> stages[1] is Comparing && stages[2] is FindingModule
            && stages[3] is FindingFunction && stages[4] is ResolvingPath,
        stages[count] is Starting ==> stages[6] is Writing,
{
    lemma_load_order(stages, events, count);
    if count >= 5 && stages[count] is Allocating {
        lemma_load_order(stages, events, 1);
        lemma_load_order(stages, events, 2);
        lemma_load_order(stages, events, 3);
        lemma_load_order(stages, events, 4);
    }
}

spec fn load_place(stage: LoadStage) -> int {
    match stage {
        LoadStage::Opening => 0,
        LoadStage::Comparing => 1,
        LoadStage::FindingModule => 2,
        LoadStage::FindingFunction => 3,
        LoadStage::ResolvingPath => 4,
        LoadStage::Allocating => 5,
        LoadStage::Writing => 6,
        LoadStage::Starting => 7,
        LoadStage::Waiting => 8,
        _ => -1,
    }
}

proof fn lemma_load_order(stages: Seq<LoadStage>, events: Seq<LoadEvent>, count: int)
    requires
        is_load(stages, events),
        0 <= count <= events.len(),
    ensures
        load_place(stages[count]) >= 0 ==> {
            &&& load_place(stages[count]) == count
            &&& forall|index: int| 0 <= index < count ==> #[trigger] events[index] is Succeeded
            &&& forall|index: int|
                0 <= index < count ==> load_place(#[trigger] stages[index]) == index
        },
    decreases count,
{
    if count > 0 {
        lemma_load_order(stages, events, count - 1);
        assert(stages[count - 1].awaits(events[count - 1]));
        assert(stages[count - 1].leads(events[count - 1], stages[count]));
    }
}

/// A step that fails ends the run with what the system reported; once room was allocated
/// and before a thread was started, that room is freed first.
pub proof fn law_a_failed_step_tells_its_cause(
    stage: LoadStage,
    source: OsError,
    next: LoadStage,
)
    requires
        stage.leads(LoadEvent::Failed(source), next),
    ensures
        stage is Opening || stage is ResolvingPath || stage is Allocating ==> (
        next matches LoadStage::Finished(Err(Error::Windows { operation, source: reason })) && reason
            == source),
        stage is Writing || stage is Starting ==> (next matches LoadStage::Freeing(
            Err(Error::Windows { operation, source: reason }),
        ) && reason == source),
        stage is Comparing ==> next == LoadStage::Finished(Err(Error::ArchitectureMismatch)),
        stage is FindingModule ==> (next matches LoadStage::Finished(Err(error)) && error.text()
            == "could not locate kernel32.dll in the target"@),
        stage is FindingFunction ==> (next matches LoadStage::Finished(Err(error)) && error.text()
            == "could not locate LoadLibraryW"@),
        stage is ReadingResult ==> (next matches LoadStage::Freeing(Err(error)) && error.text()
            == "the target did not load steam_input_gate.dll"@),
{
}

/// A wait ends well exactly with the code zero; the code 258 means that the time was up,
/// and any other is a failure that the system explains. Neither frees the path.
pub proof fn law_a_wait_ends_well_with_zero_alone(code: u32, source: OsError, next: LoadStage)
    requires
        LoadStage::Waiting.leads(LoadEvent::Waited(code, source), next),
    ensures
        code == 0 <==> next is ReadingResult,
        code != 0 ==> (next matches LoadStage::Finished(Err(_))),
        code == 258 ==> (next matches LoadStage::Finished(Err(error)) && error.text()
            == "payload injection timed out"@),
        code != 0 && code != 258 ==> (next matches LoadStage::Finished(
            Err(Error::Windows { operation, source: reason }),
        ) && reason == source),
{
}

/// Freeing the path does not change how the run ends.
pub proof fn law_freeing_keeps_the_result(
    result: Result<(), Error>,
    event: LoadEvent,
    next: LoadStage,
)
    requires
        LoadStage::Freeing(result).leads(event, next),
    ensures
        next == LoadStage::Finished(result),
{
}

} // verus!
