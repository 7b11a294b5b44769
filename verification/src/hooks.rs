//! Installation of the payload's hooks, and revocation of open handles.
//!
//! Every required hook is queued before any is applied, so that blocking is never
//! half active.

use vstd::prelude::*;

use crate::handles::HandleClass;
use crate::pe::smaller;

verus! {

/// The number of hooks without which blocking cannot work.
pub const REQUIRED_HOOKS: usize = 9;

/// The number of XInput modules that are hooked where they exist.
pub const XINPUT_MODULES: usize = 5;

/// The number of hooks in each XInput module.
pub const XINPUT_HOOKS: usize = 4;

/// A function that must be hooked.
#[derive(Clone, Copy, Debug, PartialEq, Eq, Structural)]
pub enum RequiredHook {
    /// `CreateFileW` of kernel32.
    CreateFileW,
    /// `CreateFileA` of kernel32.
    CreateFileA,
    /// `CreateFile2` of kernel32.
    CreateFile2,
    /// `NtReadFile` of ntdll.
    NtReadFile,
    /// `NtWriteFile` of ntdll.
    NtWriteFile,
    /// `NtDeviceIoControlFile` of ntdll.
    NtDeviceIoControlFile,
    /// `NtClose` of ntdll.
    NtClose,
    /// `NtCreateFile` of ntdll.
    NtCreateFile,
    /// `NtOpenFile` of ntdll.
    NtOpenFile,
}

impl RequiredHook {
    /// The hooks in the order in which they are queued.
    pub open spec fn numbered(index: int) -> RequiredHook {
        if index == 0 {
            RequiredHook::CreateFileW
        } else if index == 1 {
            RequiredHook::CreateFileA
        } else if index == 2 {
            RequiredHook::CreateFile2
        } else if index == 3 {
            RequiredHook::NtReadFile
        } else if index == 4 {
            RequiredHook::NtWriteFile
        } else if index == 5 {
            RequiredHook::NtDeviceIoControlFile
        } else if index == 6 {
            RequiredHook::NtClose
        } else if index == 7 {
            RequiredHook::NtCreateFile
        } else {
            RequiredHook::NtOpenFile
        }
    }

    /// The hook that is queued as number `index`.
    pub fn at(index: usize) -> (hook: RequiredHook)
        requires
            index < REQUIRED_HOOKS,
        ensures
            hook == RequiredHook::numbered(index as int),
    {
        match index {
            0 => RequiredHook::CreateFileW,
            1 => RequiredHook::CreateFileA,
            2 => RequiredHook::CreateFile2,
            3 => RequiredHook::NtReadFile,
            4 => RequiredHook::NtWriteFile,
            5 => RequiredHook::NtDeviceIoControlFile,
            6 => RequiredHook::NtClose,
            7 => RequiredHook::NtCreateFile,
            _ => RequiredHook::NtOpenFile,
        }
    }

    /// The name of the hooked function.
    pub open spec fn name(self) -> Seq<char> {
        match self {
            RequiredHook::CreateFileW => "CreateFileW"@,
            RequiredHook::CreateFileA => "CreateFileA"@,
            RequiredHook::CreateFile2 => "CreateFile2"@,
            RequiredHook::NtReadFile => "NtReadFile"@,
            RequiredHook::NtWriteFile => "NtWriteFile"@,
            RequiredHook::NtDeviceIoControlFile => "NtDeviceIoControlFile"@,
            RequiredHook::NtClose => "NtClose"@,
            RequiredHook::NtCreateFile => "NtCreateFile"@,
            RequiredHook::NtOpenFile => "NtOpenFile"@,
        }
    }

    /// The name of the hooked function.
    pub fn export(self) -> (name: &'static str)
        ensures
            name@ == self.name(),
    {
        match self {
            RequiredHook::CreateFileW => "CreateFileW",
            RequiredHook::CreateFileA => "CreateFileA",
            RequiredHook::CreateFile2 => "CreateFile2",
            RequiredHook::NtReadFile => "NtReadFile",
            RequiredHook::NtWriteFile => "NtWriteFile",
            RequiredHook::NtDeviceIoControlFile => "NtDeviceIoControlFile",
            RequiredHook::NtClose => "NtClose",
            RequiredHook::NtCreateFile => "NtCreateFile",
            RequiredHook::NtOpenFile => "NtOpenFile",
        }
    }

    /// Whether the hooked function is in kernel32 and not in ntdll.
    pub fn in_kernel32(self) -> (result: bool)
        ensures
            result == (self is CreateFileW || self is CreateFileA || self is CreateFile2),
    {
        match self {
            RequiredHook::CreateFileW => true,
            RequiredHook::CreateFileA => true,
            RequiredHook::CreateFile2 => true,
            _ => false,
        }
    }
}

/// The name of an XInput module.
pub open spec fn xinput_name(index: int) -> Seq<char> {
    if index == 0 {
        "xinput1_4.dll"@
    } else if index == 1 {
        "xinput1_3.dll"@
    } else if index == 2 {
        "xinput1_2.dll"@
    } else if index == 3 {
        "xinput1_1.dll"@
    } else {
        "xinput9_1_0.dll"@
    }
}

/// The name of an XInput module. It is loaded by its full system path: by its bare
/// name the loader would find the payload itself.
pub fn xinput_module(index: usize) -> (name: &'static str)
    requires
        index < XINPUT_MODULES,
    ensures
        name@ == xinput_name(index as int),
{
    match index {
        0 => "xinput1_4.dll",
        1 => "xinput1_3.dll",
        2 => "xinput1_2.dll",
        3 => "xinput1_1.dll",
        _ => "xinput9_1_0.dll",
    }
}

/// How a function is looked up in a module.
#[derive(Clone, Copy, Debug, PartialEq, Eq, Structural)]
pub enum ExportKey {
    /// By name.
    GetState,
    /// By name.
    GetCapabilities,
    /// By ordinal.
    Ordinal(u16),
}

/// The functions that are hooked in each XInput module.
pub open spec fn xinput_export(index: int) -> ExportKey {
    if index == 0 {
        ExportKey::GetState
    } else if index == 1 {
        ExportKey::Ordinal(100)
    } else if index == 2 {
        ExportKey::GetCapabilities
    } else {
        ExportKey::Ordinal(108)
    }
}

/// The function that is hooked as number `index` in each XInput module.
pub fn xinput_hook(index: usize) -> (key: ExportKey)
    requires
        index < XINPUT_HOOKS,
    ensures
        key == xinput_export(index as int),
{
    match index {
        0 => ExportKey::GetState,
        1 => ExportKey::Ordinal(100),
        2 => ExportKey::GetCapabilities,
        _ => ExportKey::Ordinal(108),
    }
}

/// How queueing one hook went.
#[derive(Clone, Copy, Debug, PartialEq, Eq, Structural)]
pub enum QueueOutcome {
    /// The function does not exist.
    Absent,
    /// No trampoline could be made.
    NotCreated,
    /// A trampoline was made and published; whether the hook was queued.
    Created(bool),
}

/// Whether the outcome is acceptable. An optional hook may be absent or impossible
/// to make.
pub fn queue_hook(outcome: QueueOutcome, required: bool) -> (accepted: bool)
    ensures
        accepted == match outcome {
            QueueOutcome::Created(queued) => queued,
            _ => !required,
        },
{
    match outcome {
        QueueOutcome::Created(queued) => queued,
        _ => !required,
    }
}

/// How far the installation has come.
#[derive(Clone, Copy, Debug, PartialEq, Eq, Structural)]
pub enum HookStage {
    /// The hook engine is being set up.
    Initializing,
    /// kernel32 and ntdll are being located.
    Locating,
    /// The query functions of ntdll are being resolved.
    Resolving,
    /// The required hook with this number is being queued; whether one failed.
    Required(usize, bool),
    /// The XInput module with this number is being loaded.
    LoadingXInput(usize),
    /// A hook of an XInput module is being queued.
    Optional(usize, usize),
    /// All queued hooks are being applied.
    Applying,
    /// The hook engine is being taken down.
    Undoing,
    /// The installation is over; whether the hooks are active.
    Finished(bool),
}

/// The outcome of an installation step.
#[derive(Clone, Copy, Debug, PartialEq, Eq, Structural)]
pub enum HookEvent {
    /// The step succeeded.
    Succeeded,
    /// The step failed.
    Failed,
}

/// The stage after an XInput module was dealt with.
pub open spec fn after_module(module: usize) -> HookStage {
    if module + 1 < XINPUT_MODULES {
        HookStage::LoadingXInput((module + 1) as usize)
    } else {
        HookStage::Applying
    }
}

/// The stage that follows an outcome.
///
/// The query function for one process is optional and not part of a step; the
/// other two are required. A module that cannot be loaded, and an optional hook
/// that cannot be queued, are passed over.
pub open spec fn hook_stage_after(stage: HookStage, event: HookEvent) -> HookStage {
    let succeeded = event is Succeeded;
    match stage {
        HookStage::Initializing => if succeeded {
            HookStage::Locating
        } else {
            HookStage::Finished(false)
        },
        HookStage::Locating => if succeeded {
            HookStage::Resolving
        } else {
            HookStage::Undoing
        },
        HookStage::Resolving => if succeeded {
            HookStage::Required(0, false)
        } else {
            HookStage::Undoing
        },
        HookStage::Required(index, failed) => if index + 1 < REQUIRED_HOOKS {
            HookStage::Required((index + 1) as usize, failed || !succeeded)
        } else if failed || !succeeded {
            HookStage::Undoing
        } else {
            HookStage::LoadingXInput(0)
        },
        HookStage::LoadingXInput(module) => if succeeded {
            HookStage::Optional(module, 0)
        } else {
            after_module(module)
        },
        HookStage::Optional(module, index) => if index + 1 < XINPUT_HOOKS {
            HookStage::Optional(module, (index + 1) as usize)
        } else {
            after_module(module)
        },
        HookStage::Applying => if succeeded {
            HookStage::Finished(true)
        } else {
            HookStage::Undoing
        },
        HookStage::Undoing => HookStage::Finished(false),
        HookStage::Finished(installed) => HookStage::Finished(installed),
    }
}

/// Decides the stage that follows an outcome.
pub fn install_hooks(stage: HookStage, event: HookEvent) -> (next: HookStage)
    ensures
        next == hook_stage_after(stage, event),
{
    let succeeded: bool = match event {
        HookEvent::Succeeded => true,
        HookEvent::Failed => false,
    };
    match stage {
        HookStage::Initializing => if succeeded {
            HookStage::Locating
        } else {
            HookStage::Finished(false)
        },
        HookStage::Locating => if succeeded {
            HookStage::Resolving
        } else {
            HookStage::Undoing
        },
        HookStage::Resolving => if succeeded {
            HookStage::Required(0, false)
        } else {
            HookStage::Undoing
        },
        HookStage::Required(index, failed) => if index < REQUIRED_HOOKS - 1 {
            HookStage::Required(index + 1, failed || !succeeded)
        } else if failed || !succeeded {
            HookStage::Undoing
        } else {
            HookStage::LoadingXInput(0)
        },
        HookStage::LoadingXInput(module) => if succeeded {
            HookStage::Optional(module, 0)
        } else {
            next_module(module)
        },
        HookStage::Optional(module, index) => if index < XINPUT_HOOKS - 1 {
            HookStage::Optional(module, index + 1)
        } else {
            next_module(module)
        },
        HookStage::Applying => if succeeded {
            HookStage::Finished(true)
        } else {
            HookStage::Undoing
        },
        HookStage::Undoing => HookStage::Finished(false),
        HookStage::Finished(installed) => HookStage::Finished(installed),
    }
}

fn next_module(module: usize) -> (stage: HookStage)
    ensures
        stage == after_module(module),
{
    if module < XINPUT_MODULES - 1 {
        HookStage::LoadingXInput(module + 1)
    } else {
        HookStage::Applying
    }
}

/// The stage after a whole history of outcomes.
pub open spec fn hook_stage(events: Seq<HookEvent>) -> HookStage
    decreases events.len(),
{
    if events.len() == 0 {
        HookStage::Initializing
    } else {
        hook_stage_after(hook_stage(events.drop_last()), events.last())
    }
}

/// How many required hooks were queued in a history of outcomes.
pub open spec fn queued_hooks(events: Seq<HookEvent>) -> nat
    decreases events.len(),
{
    if events.len() == 0 {
        0
    } else {
        let before = queued_hooks(events.drop_last());
        if hook_stage(events.drop_last()) is Required && events.last() is Succeeded {
            before + 1
        } else {
            before
        }
    }
}

proof fn lemma_queued_hooks(events: Seq<HookEvent>)
    ensures
        match hook_stage(events) {
            HookStage::Initializing | HookStage::Locating | HookStage::Resolving => queued_hooks(
                events,
            ) == 0,
            HookStage::Required(index, failed) => {
                &&& index < REQUIRED_HOOKS
                &&& if failed {
                    queued_hooks(events) < index
                } else {
                    queued_hooks(events) == index
                }
            },
            HookStage::LoadingXInput(_) | HookStage::Optional(_, _) | HookStage::Applying =>
                queued_hooks(events) == REQUIRED_HOOKS,
            HookStage::Finished(true) => queued_hooks(events) == REQUIRED_HOOKS,
            _ => true,
        },
    decreases events.len(),
{
    if events.len() > 0 {
        lemma_queued_hooks(events.drop_last());
    }
}

/// Hooks are applied only after every required one was queued.
pub proof fn law_all_required_hooks_precede_activation(events: Seq<HookEvent>)
    ensures
        hook_stage(events) is Applying ==> queued_hooks(events) == REQUIRED_HOOKS,
        hook_stage(events) == HookStage::Finished(true) ==> queued_hooks(events) == REQUIRED_HOOKS,
{
    lemma_queued_hooks(events);
}

/// An installation that fails after the hook engine was set up takes it down
/// again before it is over.
pub proof fn law_a_failed_installation_is_undone(events: Seq<HookEvent>)
    requires
        events.len() > 0,
        hook_stage(events) == HookStage::Finished(false),
    ensures
        events[0] is Failed || exists|count: int|
            0 < count < events.len() && #[trigger] hook_stage(events.take(count)) is Undoing,
    decreases events.len(),
{
    let before = events.drop_last();
    if hook_stage(before) == HookStage::Finished(false) {
        if before.len() > 0 {
            law_a_failed_installation_is_undone(before);
            if !(before[0] is Failed) {
                let count = choose|count: int|
                    0 < count < before.len() && #[trigger] hook_stage(before.take(count)) is Undoing;
                assert(before.take(count) =~= events.take(count));
            }
        }
    } else if hook_stage(before) is Undoing {
        assert(events.take(events.len() - 1) =~= before);
        if before.len() == 0 {
            assert(hook_stage(before) is Initializing);
        }
    } else {
        assert(hook_stage(before) is Initializing);
        lemma_initializing_is_the_start(before);
    }
}

proof fn lemma_initializing_is_the_start(events: Seq<HookEvent>)
    requires
        hook_stage(events) is Initializing,
    ensures
        events.len() == 0,
{
    if events.len() > 0 {
        let before = hook_stage(events.drop_last());
        assert(!(hook_stage_after(before, events.last()) is Initializing));
    }
}

/// The reply was larger than the buffer.
pub const STATUS_INFO_LENGTH_MISMATCH: i32 = -1073741820;

/// The largest buffer for a handle query.
pub const HANDLE_QUERY_LIMIT: usize = 0x4000_0000;

/// How often a handle query is repeated with a larger buffer.
pub const HANDLE_QUERY_ATTEMPTS: u32 = 6;

/// What follows a handle query.
#[derive(Clone, Copy, Debug, PartialEq, Eq, Structural)]
pub enum QueryStep {
    /// The buffer holds the reply.
    Accept,
    /// The query failed.
    Reject,
    /// Query again with the grown buffer.
    Retry,
}

/// A handle query that grows its buffer until the reply fits.
///
/// Running out of memory would abort the process, and the system-wide reply is
/// sized by handles of other processes, so the buffer is bounded. Giving up costs
/// one revocation.
#[derive(Clone, Copy, Debug, PartialEq, Eq, Structural)]
pub struct SizedQuery {
    /// Bytes to ask for.
    pub capacity: usize,
    /// Queries made so far.
    pub attempts: u32,
}

impl SizedQuery {
    /// Begins with a buffer of that many bytes.
    pub fn new(initial: usize) -> (query: SizedQuery)
        ensures
            query.capacity == initial,
            query.attempts == 0,
    {
        SizedQuery { capacity: initial, attempts: 0 }
    }

    /// Whether another query may be made.
    pub open spec fn open(self) -> bool {
        self.attempts < HANDLE_QUERY_ATTEMPTS && self.capacity <= HANDLE_QUERY_LIMIT
    }

    /// The number of eight-byte words for the next query, unless it is given up.
    pub fn words(&self) -> (words: Option<usize>)
        ensures
            words == if self.open() {
                Some(((self.capacity + 7) / 8) as usize)
            } else {
                None
            },
    {
        if self.attempts < HANDLE_QUERY_ATTEMPTS && self.capacity <= HANDLE_QUERY_LIMIT {
            Some((self.capacity + 7) / 8)
        } else {
            None
        }
    }

    /// Takes the status of a query and the size that it asked for.
    pub fn query_until_sized(&mut self, status: i32, required: u32) -> (step: QueryStep)
        requires
            old(self).open(),
        ensures
            step == if status != STATUS_INFO_LENGTH_MISMATCH {
                if status >= 0 {
                    QueryStep::Accept
                } else {
                    QueryStep::Reject
                }
            } else {
                QueryStep::Retry
            },
            final(self).attempts == old(self).attempts + 1,
            final(self).capacity == if step is Retry {
                if required > old(self).capacity {
                    smaller(required + 0x1_0000, usize::MAX as int)
                } else {
                    2 * old(self).capacity
                }
            } else {
                old(self).capacity as int
            },
    {
        self.attempts = self.attempts + 1;
        if status != STATUS_INFO_LENGTH_MISMATCH {
            if status >= 0 {
                QueryStep::Accept
            } else {
                QueryStep::Reject
            }
        } else {
            if required as usize > self.capacity {
                self.capacity = (required as usize).saturating_add(0x1_0000);
            } else {
                self.capacity = self.capacity * 2;
            }
            QueryStep::Retry
        }
    }
}

/// The words before the entries of a handle reply: the count and a reserved word.
pub const REPLY_HEADER_WORDS: usize = 2;

/// The words of one entry of a handle reply.
pub const ENTRY_WORDS: usize = 5;

/// How many entries a handle reply really holds: what it reports, but no more than
/// fit into it.
pub open spec fn entry_count(reply: Seq<u64>) -> int {
    if reply.len() < REPLY_HEADER_WORDS {
        0
    } else {
        smaller(reply[0] as int, (reply.len() - REPLY_HEADER_WORDS) / ENTRY_WORDS as int)
    }
}

/// A word of an entry.
pub open spec fn entry_word(reply: Seq<u64>, entry: int, word: int) -> u64 {
    reply[REPLY_HEADER_WORDS + ENTRY_WORDS * entry + word]
}

/// One open handle and the index of its object type.
#[derive(Clone, Copy, Debug, PartialEq, Eq, Structural)]
pub struct OpenHandle {
    /// The handle.
    pub handle: usize,
    /// The index of its object type.
    pub object_type: u32,
}

/// A handle of the process's own reply: the handle comes first and the type
/// index is the upper half of the fourth word.
pub open spec fn own_handle(reply: Seq<u64>, entry: int) -> OpenHandle {
    OpenHandle {
        handle: entry_word(reply, entry, 0) as usize,
        object_type: (entry_word(reply, entry, 3) / 0x1_0000_0000) as u32,
    }
}

/// A handle of the system-wide reply: the handle comes third and the type index is
/// the uppermost quarter of the fourth word.
pub open spec fn system_handle(reply: Seq<u64>, entry: int) -> OpenHandle {
    OpenHandle {
        handle: entry_word(reply, entry, 2) as usize,
        object_type: (entry_word(reply, entry, 3) / 0x1_0000_0000_0000) as u32,
    }
}

/// The first `count` handles of a system-wide reply that belong to a process.
pub open spec fn system_handles(reply: Seq<u64>, process_id: u64, count: int) -> Seq<OpenHandle>
    decreases count,
{
    if count <= 0 {
        Seq::empty()
    } else {
        let before = system_handles(reply, process_id, count - 1);
        if entry_word(reply, count - 1, 1) == process_id {
            before.push(system_handle(reply, count - 1))
        } else {
            before
        }
    }
}

fn reply_entries(reply: &[u64]) -> (count: usize)
    ensures
        count == entry_count(reply@),
        reply@.len() >= REPLY_HEADER_WORDS ==> REPLY_HEADER_WORDS + ENTRY_WORDS * count
            <= reply@.len(),
{
    if reply.len() < REPLY_HEADER_WORDS {
        return 0;
    }
    let maximum: usize = (reply.len() - REPLY_HEADER_WORDS) / ENTRY_WORDS;
    if reply[0] < maximum as u64 {
        reply[0] as usize
    } else {
        maximum
    }
}

/// Reads the handles of this process from its own reply.
///
/// A process always owns handles, so an empty reply was not understood and counts
/// as none at all.
pub fn process_handle_entries(reply: &[u64]) -> (handles: Option<Vec<OpenHandle>>)
    ensures
        match handles {
            Some(list) => {
                &&& list@.len() == entry_count(reply@)
                &&& list@.len() > 0
                &&& forall|index: int|
                    0 <= index < list@.len() ==> #[trigger] list@[index] == own_handle(
                        reply@,
                        index,
                    )
            },
            None => entry_count(reply@) == 0,
        },
{
    let count: usize = reply_entries(reply);
    if count == 0 {
        return None;
    }
    let mut list: Vec<OpenHandle> = Vec::new();
    let mut index: usize = 0;
    while index < count
        invariant
            index <= count,
            count == entry_count(reply@),
            REPLY_HEADER_WORDS + ENTRY_WORDS * count <= reply.len(),
            list@.len() == index,
            forall|before: int|
                0 <= before < index ==> #[trigger] list@[before] == own_handle(reply@, before),
        decreases count - index,
    {
        let at: usize = REPLY_HEADER_WORDS + ENTRY_WORDS * index;
        list.push(
            OpenHandle {
                handle: reply[at] as usize,
                object_type: (reply[at + 3] / 0x1_0000_0000) as u32,
            },
        );
        index = index + 1;
    }
    if list.len() == 0 {
        None
    } else {
        Some(list)
    }
}

/// Reads the handles of a process from a system-wide reply.
pub fn system_handle_entries(reply: &[u64], process_id: u32) -> (handles: Option<Vec<OpenHandle>>)
    ensures
        match handles {
            Some(list) => {
                &&& list@ == system_handles(reply@, process_id as u64, entry_count(reply@))
                &&& list@.len() > 0
            },
            None => system_handles(reply@, process_id as u64, entry_count(reply@)).len() == 0,
        },
{
    let count: usize = reply_entries(reply);
    if count == 0 {
        return None;
    }
    let mut list: Vec<OpenHandle> = Vec::new();
    let mut index: usize = 0;
    while index < count
        invariant
            index <= count,
            count == entry_count(reply@),
            REPLY_HEADER_WORDS + ENTRY_WORDS * count <= reply.len(),
            list@ == system_handles(reply@, process_id as u64, index as int),
        decreases count - index,
    {
        let at: usize = REPLY_HEADER_WORDS + ENTRY_WORDS * index;
        if reply[at + 1] == process_id as u64 {
            list.push(
                OpenHandle {
                    handle: reply[at + 2] as usize,
                    object_type: (reply[at + 3] / 0x1_0000_0000_0000) as u32,
                },
            );
        }
        index = index + 1;
    }
    if list.len() == 0 {
        None
    } else {
        Some(list)
    }
}

/// What the revocation of handles does with an entry.
#[derive(Clone, Copy, Debug, PartialEq, Eq, Structural)]
pub enum RevokeStep {
    /// Leave the handle alone.
    Skip,
    /// Ask whether the handle is a file.
    AskType,
    /// Find out whether the file is a HID device, and remember that.
    Probe,
}

/// The revocation of the HID handles that a process holds.
///
/// The first file that is met reveals the type index of files, after which other
/// objects need not be asked for their type.
#[derive(Clone, Copy, Debug, PartialEq, Eq, Structural)]
pub struct Revocation {
    /// The type index of files, once it is known.
    pub file_type: Option<u32>,
    /// How many handles were closed.
    pub revoked: u32,
}

impl Revocation {
    /// Nothing is known or closed yet.
    pub fn new() -> (revocation: Revocation)
        ensures
            revocation.file_type is None,
            revocation.revoked == 0,
    {
        Revocation { file_type: None, revoked: 0 }
    }

    /// What to do with an entry.
    pub fn examine(&self, object_type: u32) -> (step: RevokeStep)
        ensures
            step == match self.file_type {
                None => RevokeStep::AskType,
                Some(known) => if known == object_type {
                    RevokeStep::Probe
                } else {
                    RevokeStep::Skip
                },
            },
    {
        match self.file_type {
            None => RevokeStep::AskType,
            Some(known) => if known == object_type {
                RevokeStep::Probe
            } else {
                RevokeStep::Skip
            },
        }
    }

    /// Takes the answer to whether an entry is a file.
    pub fn type_known(&mut self, object_type: u32, is_file: bool) -> (step: RevokeStep)
        requires
            old(self).file_type is None,
        ensures
            final(self).revoked == old(self).revoked,
            final(self).file_type == if is_file {
                Some(object_type)
            } else {
                None
            },
            step == if is_file {
                RevokeStep::Probe
            } else {
                RevokeStep::Skip
            },
    {
        if is_file {
            self.file_type = Some(object_type);
            RevokeStep::Probe
        } else {
            RevokeStep::Skip
        }
    }

    /// Whether a probed file must be closed: its pending work is canceled, it is
    /// forgotten, and then closed.
    pub fn must_close(&self, class: HandleClass) -> (close: bool)
        ensures
            close == (class == HandleClass::Hid),
    {
        match class {
            HandleClass::Hid => true,
            _ => false,
        }
    }

    /// Counts a handle whose closing was tried.
    pub fn closed(&mut self, succeeded: bool)
        requires
            old(self).revoked < u32::MAX,
        ensures
            final(self).file_type == old(self).file_type,
            final(self).revoked == old(self).revoked + if succeeded {
                1int
            } else {
                0
            },
    {
        if succeeded {
            self.revoked = self.revoked + 1;
        }
    }
}

/// Every entry that a reply reports and that fits into it counts, however many they are;
/// a reply that reports more than fit into it counts the whole entries that it holds.
pub proof fn law_every_reported_entry_counts(reply: Seq<u64>, count: nat)
    ensures
        reply.len() >= 2 + 5 * count && reply[0] == count ==> entry_count(reply) == count,
        2 + 5 * count <= reply.len() < 2 + 5 * (count + 1) && reply[0] >= count ==> entry_count(
            reply,
        ) == count,
        reply.len() < 2 ==> entry_count(reply) == 0,
        0 <= entry_count(reply),
        reply.len() >= 2 ==> entry_count(reply) <= reply[0] && 2 + 5 * entry_count(reply)
            <= reply.len(),
{
}

/// An entry of a process's own reply gives the handle in its first word and the object
/// type in the upper half of its fourth.
pub proof fn law_own_entries_are_read_by_their_layout(reply: Seq<u64>, entry: int)
    requires
        0 <= entry,
        2 + 5 * (entry + 1) <= reply.len(),
    ensures
        ({
            let words = reply.subrange(2 + 5 * entry, 2 + 5 * (entry + 1));
            &&& own_handle(reply, entry).handle == words[0] as usize
            &&& own_handle(reply, entry).object_type * 0x1_0000_0000 <= words[3]
            &&& words[3] < (own_handle(reply, entry).object_type + 1) * 0x1_0000_0000
        }),
{
    let words = reply.subrange(2 + 5 * entry, 2 + 5 * (entry + 1));
    assert(words[0] == reply[2 + 5 * entry] && words[3] == reply[2 + 5 * entry + 3]);
}

/// Of a system-wide reply exactly the entries of the wanted process are listed, in their
/// order: another process's entry adds nothing, and one of this process adds the handle
/// in its third word with the object type in the uppermost quarter of its fourth.
pub proof fn law_the_entries_of_one_process_are_listed(
    reply: Seq<u64>,
    process_id: u64,
    entry: int,
)
    requires
        0 <= entry,
        2 + 5 * (entry + 1) <= reply.len(),
    ensures
        ({
            let words = reply.subrange(2 + 5 * entry, 2 + 5 * (entry + 1));
            let before = system_handles(reply, process_id, entry);
            let after = system_handles(reply, process_id, entry + 1);
            &&& words[1] != process_id ==> after == before
            &&& words[1] == process_id ==> {
                &&& after.len() == before.len() + 1
                &&& after.drop_last() == before
                &&& after.last().handle == words[2] as usize
                &&& after.last().object_type * 0x1_0000_0000_0000 <= words[3]
                &&& words[3] < (after.last().object_type + 1) * 0x1_0000_0000_0000
            }
        }),
        system_handles(reply, process_id, 0).len() == 0,
{
    let words = reply.subrange(2 + 5 * entry, 2 + 5 * (entry + 1));
    assert(words[1] == reply[2 + 5 * entry + 1] && words[2] == reply[2 + 5 * entry + 2] && words[3]
        == reply[2 + 5 * entry + 3]);
    let before = system_handles(reply, process_id, entry);
    let after = system_handles(reply, process_id, entry + 1);
    if words[1] == process_id {
        assert(after.drop_last() =~= before);
    }
}

/// Whatever stands among the first `count` entries and belongs to the process is listed.
pub proof fn law_no_entry_of_the_process_is_missed(
    reply: Seq<u64>,
    process_id: u64,
    entry: int,
    count: int,
)
    requires
        0 <= entry < count,
        2 + 5 * count <= reply.len(),
        reply[2 + 5 * entry + 1] == process_id,
    ensures
        exists|at: int|
            0 <= at < system_handles(reply, process_id, count).len() && (#[trigger] system_handles(
                reply,
                process_id,
                count,
            )[at]).handle == reply[2 + 5 * entry + 2] as usize,
    decreases count,
{
    let all = system_handles(reply, process_id, count);
    let before = system_handles(reply, process_id, count - 1);
    if entry < count - 1 {
        law_no_entry_of_the_process_is_missed(reply, process_id, entry, count - 1);
        let at = choose|at: int|
            0 <= at < before.len() && (#[trigger] before[at]).handle == reply[2 + 5 * entry
                + 2] as usize;
        assert(all[at] == before[at]);
    } else {
        assert(all[all.len() - 1].handle == reply[2 + 5 * entry + 2] as usize);
    }
}

/// The nine numbers name nine different functions, and every required function has one.
pub proof fn law_every_required_function_is_queued_once(hook: RequiredHook, first: int, second: int)
    requires
        0 <= first < 9,
        0 <= second < 9,
    ensures
        RequiredHook::numbered(first) == RequiredHook::numbered(second) ==> first == second,
        exists|index: int| 0 <= index < 9 && #[trigger] RequiredHook::numbered(index) == hook,
{
    match hook {
        RequiredHook::CreateFileW => assert(RequiredHook::numbered(0) == hook),
        RequiredHook::CreateFileA => assert(RequiredHook::numbered(1) == hook),
        RequiredHook::CreateFile2 => assert(RequiredHook::numbered(2) == hook),
        RequiredHook::NtReadFile => assert(RequiredHook::numbered(3) == hook),
        RequiredHook::NtWriteFile => assert(RequiredHook::numbered(4) == hook),
        RequiredHook::NtDeviceIoControlFile => assert(RequiredHook::numbered(5) == hook),
        RequiredHook::NtClose => assert(RequiredHook::numbered(6) == hook),
        RequiredHook::NtCreateFile => assert(RequiredHook::numbered(7) == hook),
        RequiredHook::NtOpenFile => assert(RequiredHook::numbered(8) == hook),
    }
}

/// A required hook is never passed over: each of the nine is tried in turn, and one
/// failure among them, or of any step before them or of the final activation, ends the
/// installation without active hooks.
pub proof fn law_a_required_failure_ends_the_installation(events: Seq<HookEvent>, index: int)
    requires
        0 <= index < events.len(),
        events[index] is Failed,
        match hook_stage(events.take(index)) {
            HookStage::Initializing
            | HookStage::Locating
            | HookStage::Resolving
            | HookStage::Applying => true,
            HookStage::Required(_, _) => true,
            _ => false,
        },
    ensures
        hook_stage(events) != HookStage::Finished(true),
        !(hook_stage(events) is Applying),
        !(hook_stage(events) is LoadingXInput),
        !(hook_stage(events) is Optional),
        hook_stage(events) matches HookStage::Required(_, failed) ==> failed,
    decreases events.len(),
{
    assert(events.take(events.len() as int) =~= events);
    let earlier = events.drop_last();
    if index < earlier.len() {
        assert(earlier.take(index) =~= events.take(index));
        assert(earlier[index] == events[index]);
        law_a_required_failure_ends_the_installation(earlier, index);
        lemma_failure_is_kept(events, index);
    } else {
        assert(earlier =~= events.take(index));
    }
}

proof fn lemma_failure_is_kept(events: Seq<HookEvent>, index: int)
    requires
        0 <= index < events.len() - 1,
        events[index] is Failed,
        match hook_stage(events.take(index)) {
            HookStage::Initializing
            | HookStage::Locating
            | HookStage::Resolving
            | HookStage::Applying => true,
            HookStage::Required(_, _) => true,
            _ => false,
        },
    ensures
        match hook_stage(events.drop_last()) {
            HookStage::Required(_, failed) => failed,
            HookStage::Undoing => true,
            HookStage::Finished(installed) => !installed,
            _ => false,
        },
    decreases events.len(),
{
    let earlier = events.drop_last();
    if index < earlier.len() - 1 {
        assert(earlier.take(index) =~= events.take(index));
        assert(earlier[index] == events[index]);
        lemma_failure_is_kept(earlier, index);
    } else {
        assert(earlier.drop_last() =~= events.take(index));
        assert(earlier.last() == events[index]);
    }
}

/// An installation without active hooks has a reason: a step that is required failed.
/// What fails of an optional module is passed over.
pub proof fn law_only_a_required_failure_prevents_activation(events: Seq<HookEvent>)
    requires
        hook_stage(events) == HookStage::Finished(false) || hook_stage(events) is Undoing,
    ensures
        exists|index: int|
            #![trigger events[index]]
            0 <= index < events.len() && events[index] is Failed && match hook_stage(
                events.take(index),
            ) {
                HookStage::Initializing
                | HookStage::Locating
                | HookStage::Resolving
                | HookStage::Applying => true,
                HookStage::Required(_, _) => true,
                _ => false,
            },
{
    lemma_failures_are_found(events);
}

proof fn lemma_failures_are_found(events: Seq<HookEvent>)
    ensures
        match hook_stage(events) {
            HookStage::Required(_, failed) => failed,
            HookStage::Undoing => true,
            HookStage::Finished(installed) => !installed,
            _ => false,
        } ==> exists|index: int|
            #![trigger events[index]]
            0 <= index < events.len() && events[index] is Failed && match hook_stage(
                events.take(index),
            ) {
                HookStage::Initializing
                | HookStage::Locating
                | HookStage::Resolving
                | HookStage::Applying => true,
                HookStage::Required(_, _) => true,
                _ => false,
            },
    decreases events.len(),
{
    if events.len() > 0 {
        let earlier = events.drop_last();
        lemma_failures_are_found(earlier);
        let last = events.len() - 1;
        assert(events.take(last) =~= earlier);
        assert(events[last] == events.last());
        if exists|index: int|
            #![trigger earlier[index]]
            0 <= index < earlier.len() && earlier[index] is Failed && match hook_stage(
                earlier.take(index),
            ) {
                HookStage::Initializing
                | HookStage::Locating
                | HookStage::Resolving
                | HookStage::Applying => true,
                HookStage::Required(_, _) => true,
                _ => false,
            } {
            let index = choose|index: int|
                #![trigger earlier[index]]
                0 <= index < earlier.len() && earlier[index] is Failed && match hook_stage(
                    earlier.take(index),
                ) {
                    HookStage::Initializing
                    | HookStage::Locating
                    | HookStage::Resolving
                    | HookStage::Applying => true,
                    HookStage::Required(_, _) => true,
                    _ => false,
                };
            assert(earlier.take(index) =~= events.take(index));
            assert(events[index] == earlier[index]);
        }
    }
}

/// Each of the five optional modules is tried before the hooks are applied.
pub proof fn law_every_optional_module_is_tried(events: Seq<HookEvent>, module: usize)
    requires
        module < 5,
        hook_stage(events) is Applying || hook_stage(events) == HookStage::Finished(true),
    ensures
        exists|count: int|
            0 <= count < events.len() && #[trigger] hook_stage(events.take(count))
                == HookStage::LoadingXInput(module),
{
    lemma_modules_tried_so_far(events, module);
}

proof fn lemma_modules_tried_so_far(events: Seq<HookEvent>, module: usize)
    requires
        module < 5,
        match hook_stage(events) {
            HookStage::LoadingXInput(present) => module <= present,
            HookStage::Optional(present, _) => module <= present,
            HookStage::Applying => true,
            HookStage::Finished(installed) => installed,
            _ => false,
        },
    ensures
        exists|count: int|
            0 <= count <= events.len() && #[trigger] hook_stage(events.take(count))
                == HookStage::LoadingXInput(module),
        !(hook_stage(events) is LoadingXInput) ==> exists|count: int|
            0 <= count < events.len() && #[trigger] hook_stage(events.take(count))
                == HookStage::LoadingXInput(module),
    decreases events.len(),
{
    assert(events.take(events.len() as int) =~= events);
    if events.len() > 0 {
        let earlier = events.drop_last();
        let last = events.len() - 1;
        assert(events.take(last) =~= earlier);
        if hook_stage(events) != HookStage::LoadingXInput(module) {
            lemma_modules_tried_so_far(earlier, module);
            let count = choose|count: int|
                0 <= count <= earlier.len() && #[trigger] hook_stage(earlier.take(count))
                    == HookStage::LoadingXInput(module);
            assert(earlier.take(count) =~= events.take(count));
        }
    }
}

/// Each of the four functions of an optional module that was loaded is tried, whether
/// or not the ones before it could be hooked.
pub proof fn law_every_function_of_a_loaded_module_is_tried(
    events: Seq<HookEvent>,
    module: usize,
    at: int,
    index: usize,
)
    requires
        index < 4,
        0 <= at,
        at + 1 + index <= events.len(),
        hook_stage(events.take(at)) == HookStage::LoadingXInput(module),
        events[at] is Succeeded,
    ensures
        hook_stage(events.take(at + 1 + index)) == HookStage::Optional(module, index),
    decreases index,
{
    let now = events.take(at + 1 + index);
    assert(now.drop_last() =~= events.take(at + index));
    assert(now.last() == events[at + index]);
    if index > 0 {
        law_every_function_of_a_loaded_module_is_tried(
            events,
            module,
            at,
            (index - 1) as usize,
        );
    }
}

/// Behind the last function of a module, and behind a module that could not be loaded, the
/// next module is tried; behind the fifth the hooks are applied.
pub proof fn law_modules_follow_each_other(events: Seq<HookEvent>, module: usize, event: HookEvent)
    requires
        module < 5,
    ensures
        ({
            let next = if module < 4 {
                HookStage::LoadingXInput((module + 1) as usize)
            } else {
                HookStage::Applying
            };
            &&& hook_stage(events) == HookStage::Optional(module, 3) ==> hook_stage(
                events.push(event),
            ) == next
            &&& hook_stage(events) == HookStage::LoadingXInput(module) && event is Failed
                ==> hook_stage(events.push(event)) == next
        }),
{
    assert(events.push(event).drop_last() =~= events);
}

/// Each of the five versions of XInput is among the modules, once.
pub proof fn law_every_version_of_xinput_is_hooked(first: int, second: int)
    requires
        0 <= first < 5,
        0 <= second < 5,
    ensures
        xinput_name(first) == xinput_name(second) ==> first == second,
        xinput_name(first) == "xinput1_4.dll"@ || xinput_name(first) == "xinput1_3.dll"@
            || xinput_name(first) == "xinput1_2.dll"@ || xinput_name(first) == "xinput1_1.dll"@
            || xinput_name(first) == "xinput9_1_0.dll"@,
{
    reveal_strlit("xinput1_4.dll");
    reveal_strlit("xinput1_3.dll");
    reveal_strlit("xinput1_2.dll");
    reveal_strlit("xinput1_1.dll");
    reveal_strlit("xinput9_1_0.dll");
    if xinput_name(first) == xinput_name(second) {
        assert(xinput_name(first).len() == xinput_name(second).len());
        assert(xinput_name(first)[8] == xinput_name(second)[8]);
    }
}

/// The four functions of an XInput module are told apart, by name or by ordinal.
pub proof fn law_optional_functions_differ(first: int, second: int)
    requires
        0 <= first < second < 4,
    ensures
        xinput_export(first) != xinput_export(second),
{
}

/// A handle query is repeated at most six times and never asks for more than a gigabyte;
/// within these bounds it is not given up.
pub proof fn law_a_handle_query_is_bounded(query: SizedQuery)
    ensures
        query.open() <==> query.attempts < 6 && query.capacity <= 0x4000_0000,
{
}

/// The four functions hooked in each XInput module differ. Those without a public name are
/// the state function at ordinal 100 and the capability function at ordinal 108.
pub proof fn law_unnamed_functions_are_told_by_their_ordinals(first: int, second: int)
    requires
        0 <= first < 4,
        0 <= second < 4,
    ensures
        xinput_export(first) == xinput_export(second) ==> first == second,
        xinput_export(first) matches ExportKey::Ordinal(ordinal) ==> ordinal == 100 || ordinal
            == 108,
        xinput_export(first) is Ordinal <==> first % 2 == 1,
{
}

} // verus!
