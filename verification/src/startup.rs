//! The payload's start: process attach, control-pipe server and startup trace.

use vstd::prelude::*;
use vstd::string::*;

use crate::paths::{
    directory_of, extended, is_name, join, lemma_text_is_name, parent, path_join, with_extension,
};
use crate::proxy::{Forwarding, Vector};
use crate::text::{
    decimal, decode_wide, encode_wide, law_decimal_is_unique, law_encoding_keeps_the_order,
    law_utf16_round_trip, lemma_ascii_units, lemma_decimal_digits, push_decimal, same_units, utf16,
    utf16_well_formed,
};

verus! {

/// Mark: process attach was entered.
pub const ATTACH_ENTERED: u32 = 1;

/// Mark: the payload's own address was recorded.
pub const SELF_RECORDED: u32 = 2;

/// Mark: the image was pinned.
pub const PIN_SUCCEEDED: u32 = 4;

/// Mark: the image could not be pinned.
pub const PIN_FAILED: u32 = 8;

/// Mark: the worker thread was asked for.
pub const WORKER_REQUESTED: u32 = 16;

/// Mark: the worker thread could not be created.
pub const WORKER_CREATE_FAILED: u32 = 32;

/// A stage of process attach. The loader's call always succeeds: a refusal would
/// fail the load that the process itself asked for.
#[derive(Clone, Copy, Debug, PartialEq, Eq, Structural)]
pub enum AttachStage {
    /// Mark the entry and record the payload's own address.
    Recording,
    /// Pin the image.
    Pinning,
    /// Record the pinned address and switch thread notifications off.
    Settling,
    /// Create the worker thread.
    StartingWorker,
    /// Nothing is left to do; whether the worker runs.
    Finished(bool),
}

/// The stage that follows, and the marks that it leaves.
pub open spec fn attach_after(stage: AttachStage, succeeded: bool) -> (AttachStage, u32) {
    match stage {
        AttachStage::Recording => (AttachStage::Pinning, 3),
        AttachStage::Pinning => if succeeded {
            (AttachStage::Settling, PIN_SUCCEEDED)
        } else {
            (AttachStage::Finished(false), PIN_FAILED)
        },
        AttachStage::Settling => (AttachStage::StartingWorker, WORKER_REQUESTED),
        AttachStage::StartingWorker => if succeeded {
            (AttachStage::Finished(true), 0)
        } else {
            (AttachStage::Finished(false), WORKER_CREATE_FAILED)
        },
        AttachStage::Finished(running) => (AttachStage::Finished(running), 0),
    }
}

/// Decides the stage that follows, and the marks that it leaves.
///
/// The own address is recorded first: until it is known, no system module can be
/// told from the payload. The image is pinned before a thread runs in it, and
/// without the pin no thread is started.
pub fn process_attach(stage: AttachStage, succeeded: bool) -> (next: (AttachStage, u32))
    ensures
        next == attach_after(stage, succeeded),
{
    match stage {
        AttachStage::Recording => (AttachStage::Pinning, 3),
        AttachStage::Pinning => if succeeded {
            (AttachStage::Settling, PIN_SUCCEEDED)
        } else {
            (AttachStage::Finished(false), PIN_FAILED)
        },
        AttachStage::Settling => (AttachStage::StartingWorker, WORKER_REQUESTED),
        AttachStage::StartingWorker => if succeeded {
            (AttachStage::Finished(true), 0)
        } else {
            (AttachStage::Finished(false), WORKER_CREATE_FAILED)
        },
        AttachStage::Finished(running) => (AttachStage::Finished(running), 0),
    }
}

/// The stage after a whole history of outcomes.
pub open spec fn attach_stage(outcomes: Seq<bool>) -> AttachStage
    decreases outcomes.len(),
{
    if outcomes.len() == 0 {
        AttachStage::Recording
    } else {
        attach_after(attach_stage(outcomes.drop_last()), outcomes.last()).0
    }
}

/// The worker is started only in a pinned image whose address is known.
pub proof fn law_the_worker_starts_in_a_pinned_image(outcomes: Seq<bool>)
    requires
        attach_stage(outcomes) is StartingWorker,
    ensures
        outcomes.len() == 3,
        outcomes[1],
{
    let settling = outcomes.drop_last();
    assert(attach_stage(settling) is Settling);
    let pinning = settling.drop_last();
    assert(attach_stage(pinning) is Pinning && settling.last());
    let recording = pinning.drop_last();
    assert(attach_stage(recording) is Recording);
    if recording.len() > 0 {
        let before = attach_stage(recording.drop_last());
        assert(!(attach_after(before, recording.last()).0 is Recording));
    }
    assert(outcomes[1] == settling.last());
}

/// How many failures in a row end the server.
pub const PIPE_CREATE_MAX_FAILURES: u32 = 30;

/// The pause after a failure, in milliseconds.
pub const PIPE_CREATE_RETRY_DELAY: u64 = 250;

/// What the server's thread returns once it is over.
pub const SERVER_EXIT_CODE: u32 = 2;

/// The client connected before the server waited for it.
pub const ERROR_PIPE_CONNECTED: u32 = 535;

/// A stage of the control-pipe server.
#[derive(Clone, Copy, Debug, PartialEq, Eq, Structural)]
pub enum ServerStage {
    /// Load the real module and resolve its exports.
    Forwarding,
    /// Have the process look for devices that the startup block hid.
    Rediscovering,
    /// Build the pipe's security descriptor.
    Scoping,
    /// Create a pipe instance; so many attempts failed in a row.
    Creating(u32),
    /// Pause before the next attempt; so many failed in a row.
    Pausing(u32),
    /// Wait for a client.
    Connecting,
    /// Start a thread for the client.
    Spawning,
    /// Close the instance.
    Discarding,
    /// The server is over; its thread returns [`SERVER_EXIT_CODE`].
    Exited,
}

/// Where the server begins, under the name by which the payload was loaded. Only a
/// stand-in for a system module forwards.
pub open spec fn server_start(vector: Vector) -> ServerStage {
    if vector is XInput14 || vector is DInput8 {
        ServerStage::Forwarding
    } else {
        ServerStage::Scoping
    }
}

/// The stage that follows. Without a security descriptor the default one is used.
pub open spec fn server_after(stage: ServerStage, succeeded: bool) -> ServerStage {
    match stage {
        ServerStage::Forwarding => if succeeded {
            ServerStage::Rediscovering
        } else {
            ServerStage::Scoping
        },
        ServerStage::Rediscovering => ServerStage::Scoping,
        ServerStage::Scoping => ServerStage::Creating(0),
        ServerStage::Creating(failures) => if succeeded {
            ServerStage::Connecting
        } else if failures + 1 >= PIPE_CREATE_MAX_FAILURES {
            ServerStage::Exited
        } else {
            ServerStage::Pausing((failures + 1) as u32)
        },
        ServerStage::Pausing(failures) => ServerStage::Creating(failures),
        ServerStage::Connecting => if succeeded {
            ServerStage::Spawning
        } else {
            ServerStage::Discarding
        },
        ServerStage::Spawning => if succeeded {
            ServerStage::Creating(0)
        } else {
            ServerStage::Discarding
        },
        ServerStage::Discarding => ServerStage::Creating(0),
        ServerStage::Exited => ServerStage::Exited,
    }
}

/// Decides where the server begins.
pub fn begin_server(vector: Vector) -> (stage: ServerStage)
    ensures
        stage == server_start(vector),
{
    if vector.is_proxy() {
        ServerStage::Forwarding
    } else {
        ServerStage::Scoping
    }
}

/// Decides the stage that follows.
///
/// The image is pinned, so a server that ends does so for the life of the process;
/// passing shortages are waited out.
pub fn server_thread(stage: ServerStage, succeeded: bool) -> (next: ServerStage)
    ensures
        next == server_after(stage, succeeded),
{
    match stage {
        ServerStage::Forwarding => if succeeded {
            ServerStage::Rediscovering
        } else {
            ServerStage::Scoping
        },
        ServerStage::Rediscovering => ServerStage::Scoping,
        ServerStage::Scoping => ServerStage::Creating(0),
        ServerStage::Creating(failures) => if succeeded {
            ServerStage::Connecting
        } else if failures >= PIPE_CREATE_MAX_FAILURES - 1 {
            ServerStage::Exited
        } else {
            ServerStage::Pausing(failures + 1)
        },
        ServerStage::Pausing(failures) => ServerStage::Creating(failures),
        ServerStage::Connecting => if succeeded {
            ServerStage::Spawning
        } else {
            ServerStage::Discarding
        },
        ServerStage::Spawning => if succeeded {
            ServerStage::Creating(0)
        } else {
            ServerStage::Discarding
        },
        ServerStage::Discarding => ServerStage::Creating(0),
        ServerStage::Exited => ServerStage::Exited,
    }
}

/// Whether a client is connected: the wait succeeded, or the client was faster.
pub fn client_connected(succeeded: bool, last_error: u32) -> (connected: bool)
    ensures
        connected == (succeeded || last_error == ERROR_PIPE_CONNECTED),
{
    succeeded || last_error == ERROR_PIPE_CONNECTED
}

/// The stage after a whole history of outcomes.
pub open spec fn server_stage(vector: Vector, outcomes: Seq<bool>) -> ServerStage
    decreases outcomes.len(),
{
    if outcomes.len() == 0 {
        server_start(vector)
    } else {
        server_after(server_stage(vector, outcomes.drop_last()), outcomes.last())
    }
}

/// How many attempts to create an instance failed since one last succeeded.
pub open spec fn failures_in_a_row(vector: Vector, outcomes: Seq<bool>) -> nat
    decreases outcomes.len(),
{
    if outcomes.len() == 0 {
        0
    } else {
        let before = failures_in_a_row(vector, outcomes.drop_last());
        if server_stage(vector, outcomes.drop_last()) is Creating {
            if outcomes.last() {
                0
            } else {
                before + 1
            }
        } else {
            before
        }
    }
}

proof fn lemma_failures_are_counted(vector: Vector, outcomes: Seq<bool>)
    ensures
        match server_stage(vector, outcomes) {
            ServerStage::Creating(failures) => {
                &&& failures == failures_in_a_row(vector, outcomes)
                &&& failures < PIPE_CREATE_MAX_FAILURES
            },
            ServerStage::Pausing(failures) => {
                &&& failures == failures_in_a_row(vector, outcomes)
                &&& failures < PIPE_CREATE_MAX_FAILURES
            },
            ServerStage::Exited => failures_in_a_row(vector, outcomes) == PIPE_CREATE_MAX_FAILURES,
            _ => failures_in_a_row(vector, outcomes) == 0,
        },
    decreases outcomes.len(),
{
    if outcomes.len() > 0 {
        lemma_failures_are_counted(vector, outcomes.drop_last());
    }
}

/// The server ends exactly when creating a pipe instance failed so often in a row.
pub proof fn law_the_server_survives_passing_failures(vector: Vector, outcomes: Seq<bool>)
    ensures
        server_stage(vector, outcomes) is Exited <==> failures_in_a_row(vector, outcomes)
            >= PIPE_CREATE_MAX_FAILURES,
{
    lemma_failures_are_counted(vector, outcomes);
}

/// The access list of the control pipe, in the system's notation: full access for
/// the system, for administrators and for the owner of the process's token.
pub open spec fn owner_access(owner: Seq<char>) -> Seq<char> {
    "D:(A;;FA;;;SY)(A;;FA;;;BA)(A;;FA;;;"@ + owner + ")"@
}

/// The access list of the control pipe where the token's user is known: the user
/// is granted access too, unless that is the owner already.
pub open spec fn pipe_access(owner: Seq<char>, user: Option<Seq<char>>) -> Seq<char> {
    match user {
        Some(name) if name != owner => owner_access(owner) + "(A;;FA;;;"@ + name + ")"@,
        _ => owner_access(owner),
    }
}

/// Builds the access list of the control pipe for the owner of the token.
pub fn control_pipe_sddl(owner: &str) -> (text: String)
    ensures
        text@ == owner_access(owner@),
{
    let mut text = String::new();
    text.append("D:(A;;FA;;;SY)(A;;FA;;;BA)(A;;FA;;;");
    text.append(owner);
    text.append(")");
    assert(text@ =~= owner_access(owner@));
    text
}

/// Builds the access list of the control pipe.
///
/// An elevated process is owned by the administrators, which the same user's
/// ordinary processes cannot act as, so the user is granted access too.
pub fn scoped_pipe_sddl(owner: &String, user: Option<&String>) -> (text: String)
    ensures
        text@ == pipe_access(
            owner@,
            match user {
                Some(name) => Some(name@),
                None => None,
            },
        ),
{
    let mut text = control_pipe_sddl(owner.as_str());
    if let Some(name) = user {
        if !same_text(name, owner) {
            text.append("(A;;FA;;;");
            text.append(name.as_str());
            text.append(")");
            assert(text@ =~= owner_access(owner@) + "(A;;FA;;;"@ + name@ + ")"@);
        }
    }
    text
}

fn same_text(first: &String, second: &String) -> (equal: bool)
    ensures
        equal == (first@ == second@),
{
    proof {
        law_utf16_round_trip(first@);
        law_utf16_round_trip(second@);
    }
    let left = encode_wide(first.as_str());
    let right = encode_wide(second.as_str());
    same_units(&left, &right)
}

/// The longest security identifier that is believed.
pub const SID_STRING_MAX_CHARS: usize = 512;

/// The largest token information that is read.
pub const TOKEN_INFORMATION_MAX_BYTES: u32 = 4096;

/// The error by which a size query reports the size.
pub const ERROR_INSUFFICIENT_BUFFER: u32 = 122;

/// Whether the length of a security identifier's text is believed: it must end
/// within the units that were looked at, and not at once.
pub fn plausible_sid_length(length: usize) -> (result: bool)
    ensures
        result == (0 < length < SID_STRING_MAX_CHARS),
{
    length != 0 && length != SID_STRING_MAX_CHARS && length < SID_STRING_MAX_CHARS
}

/// The size of the token information to read, after a query of its size: that
/// query fails with the size, and the size must hold the fixed part.
pub fn token_information_size(
    succeeded: bool,
    last_error: u32,
    needed: u32,
    fixed: u32,
) -> (size: Option<u32>)
    ensures
        size == if (succeeded || last_error == ERROR_INSUFFICIENT_BUFFER) && fixed <= needed
            <= TOKEN_INFORMATION_MAX_BYTES {
            Some(needed)
        } else {
            None
        },
{
    if !succeeded && last_error != ERROR_INSUFFICIENT_BUFFER {
        return None;
    }
    if needed < fixed || needed > TOKEN_INFORMATION_MAX_BYTES {
        return None;
    }
    Some(needed)
}

/// How many startup traces are kept.
pub const TRACE_RETENTION: usize = 8;

/// The directory of the startup trace.
pub open spec fn trace_place(
    image: Seq<u16>,
    managed: bool,
    local_app_data: Option<Seq<u16>>,
) -> Option<Seq<u16>> {
    if managed {
        match local_app_data {
            Some(directory) => Some(path_join(directory, utf16("WSGM"@))),
            None => None,
        }
    } else {
        match directory_of(image) {
            Some(directory) if directory.len() > 0 => Some(directory),
            _ => None,
        }
    }
}

/// Chooses the directory of the startup trace: beside the image, or for a managed
/// deployment in the manager's log directory.
pub fn trace_directory(image: &[u16], managed: bool, local_app_data: Option<&[u16]>) -> (directory:
    Option<Vec<u16>>)
    ensures
        ({
            let place = trace_place(
                image@,
                managed,
                match local_app_data {
                    Some(path) => Some(path@),
                    None => None,
                },
            );
            match directory {
                Some(path) => place == Some(path@),
                None => place is None,
            }
        }),
{
    if managed {
        match local_app_data {
            Some(path) => {
                let name = encode_wide("WSGM");
                proof {
                    reveal_strlit("WSGM");
                    lemma_text_is_name("WSGM"@);
                }
                Some(join(path, &name))
            },
            None => None,
        }
    } else {
        match parent(image) {
            Some(path) => if path.len() > 0 {
                Some(path)
            } else {
                None
            },
            None => None,
        }
    }
}

/// The stamp that a manager keeps beside an image that it deployed.
pub fn deployment_stamp(image: &[u16]) -> (stamp: Vec<u16>)
    ensures
        stamp@ == extended(image@, utf16("wsgm-shim"@)),
{
    with_extension(image, "wsgm-shim")
}

/// The file name of a process's startup trace.
pub open spec fn trace_name(process_id: nat) -> Seq<char> {
    "steam-input-gate-"@ + decimal(process_id) + ".log"@
}

proof fn lemma_trace_name(process_id: nat)
    ensures
        is_name(utf16(trace_name(process_id))),
{
    reveal_strlit("steam-input-gate-");
    reveal_strlit(".log");
    let name = trace_name(process_id);
    let digits = decimal(process_id);
    lemma_decimal_digits(process_id);
    assert forall|index: int| 0 <= index < name.len() implies (#[trigger] name[index] as int) < 128
        && name[index] != '/' && name[index] != '\\' && name[index] != ':' by {
        if 17 <= index < 17 + digits.len() {
            assert(name[index] == digits[index - 17]);
        } else if index >= 17 + digits.len() {
            assert(name[index] == ".log"@[index - 17 - digits.len()]);
        } else {
            assert(name[index] == "steam-input-gate-"@[index]);
        }
    }
    lemma_text_is_name(name);
}

/// The path of a process's startup trace in a directory.
pub fn trace_path(directory: &[u16], process_id: u32) -> (path: Vec<u16>)
    ensures
        path@ == path_join(directory@, utf16(trace_name(process_id as nat))),
{
    let mut name = String::new();
    name.append("steam-input-gate-");
    push_decimal(&mut name, process_id as u64);
    name.append(".log");
    assert(name@ =~= trace_name(process_id as nat));
    let units = encode_wide(name.as_str());
    proof {
        lemma_trace_name(process_id as nat);
    }
    join(directory, &units)
}

/// Whether a text begins with another.
pub open spec fn begins_with<T>(text: Seq<T>, start: Seq<T>) -> bool {
    text.len() >= start.len() && text.take(start.len() as int) == start
}

/// Whether a text ends with another.
pub open spec fn ends_with<T>(text: Seq<T>, end: Seq<T>) -> bool {
    text.len() >= end.len() && text.skip(text.len() - end.len()) == end
}

/// Whether a file name is that of a startup trace. A name that is no Unicode text is
/// not.
pub open spec fn is_trace(name: Seq<u16>) -> bool {
    &&& utf16_well_formed(name)
    &&& begins_with(name, utf16("steam-input-gate-"@))
    &&& ends_with(name, utf16(".log"@))
}

/// Whether a file name is that of a startup trace.
pub fn is_trace_name(name: &[u16]) -> (result: bool)
    ensures
        result == is_trace(name@),
{
    let start = encode_wide("steam-input-gate-");
    let end = encode_wide(".log");
    let length: usize = name.len();
    if length < start.len() || length < end.len() {
        return false;
    }
    let first = vstd::slice::slice_subrange(name, 0, start.len());
    assert(first@ =~= name@.take(start@.len() as int));
    let last = vstd::slice::slice_subrange(name, length - end.len(), length);
    assert(last@ =~= name@.skip(length - end@.len()));
    let decoded = decode_wide(name);
    decoded.1 && same_units(first, &start) && same_units(last, &end)
}

/// Whether the trace at one index is kept before the one at another: the newer
/// first, and of two equally old ones the one listed first.
pub open spec fn kept_before(modified: Seq<u64>, first: int, second: int) -> bool {
    modified[first] > modified[second] || (modified[first] == modified[second] && first < second)
}

/// How many of the first `count` traces are kept before the one at an index.
pub open spec fn rank(modified: Seq<u64>, index: int, count: int) -> int
    decreases count,
{
    if count <= 0 {
        0
    } else if kept_before(modified, count - 1, index) {
        rank(modified, index, count - 1) + 1
    } else {
        rank(modified, index, count - 1)
    }
}

fn rank_of(modified: &[u64], index: usize) -> (result: usize)
    requires
        index < modified@.len(),
    ensures
        result == rank(modified@, index as int, modified@.len() as int),
        result <= modified@.len(),
{
    let mut result: usize = 0;
    let mut other: usize = 0;
    while other < modified.len()
        invariant
            other <= modified.len(),
            index < modified.len(),
            result <= other,
            result == rank(modified@, index as int, other as int),
        decreases modified.len() - other,
    {
        if modified[other] > modified[index] || (modified[other] == modified[index] && other
            < index) {
            result = result + 1;
        }
        other = other + 1;
    }
    result
}

/// Which traces to delete so that the newest `keep` remain, given when each was
/// last modified.
pub fn prune_old_traces(modified: &[u64], keep: usize) -> (deleted: Vec<bool>)
    ensures
        deleted@.len() == modified@.len(),
        forall|index: int|
            0 <= index < modified@.len() ==> #[trigger] deleted@[index] == (rank(
                modified@,
                index,
                modified@.len() as int,
            ) >= keep),
{
    let mut deleted: Vec<bool> = Vec::new();
    let mut index: usize = 0;
    while index < modified.len()
        invariant
            index <= modified.len(),
            deleted@.len() == index,
            forall|before: int|
                0 <= before < index ==> #[trigger] deleted@[before] == (rank(
                    modified@,
                    before,
                    modified@.len() as int,
                ) >= keep),
        decreases modified.len() - index,
    {
        let place: usize = rank_of(modified, index);
        deleted.push(place >= keep);
        index = index + 1;
    }
    deleted
}

proof fn lemma_rank_below(modified: Seq<u64>, first: int, second: int, count: int)
    requires
        0 <= first < modified.len(),
        0 <= second < modified.len(),
        0 <= count <= modified.len(),
        kept_before(modified, first, second),
    ensures
        rank(modified, first, count) <= rank(modified, second, count),
        first < count ==> rank(modified, first, count) < rank(modified, second, count),
    decreases count,
{
    if count > 0 {
        lemma_rank_below(modified, first, second, count - 1);
    }
}

/// Of two traces one is kept before the other, and that one has the lower rank.
pub proof fn law_newer_traces_are_kept_first(modified: Seq<u64>, first: int, second: int)
    requires
        0 <= first < modified.len(),
        0 <= second < modified.len(),
        first != second,
    ensures
        kept_before(modified, first, second) || kept_before(modified, second, first),
        kept_before(modified, first, second) ==> rank(modified, first, modified.len() as int)
            < rank(modified, second, modified.len() as int),
{
    if kept_before(modified, first, second) {
        lemma_rank_below(modified, first, second, modified.len() as int);
    }
}

proof fn lemma_rank_is_natural(modified: Seq<u64>, index: int, count: int)
    ensures
        0 <= rank(modified, index, count),
    decreases count,
{
    if count > 0 {
        lemma_rank_is_natural(modified, index, count - 1);
    }
}

/// The traces that remain.
pub open spec fn kept_traces(modified: Seq<u64>, keep: nat) -> Set<int> {
    vstd::set_lib::set_int_range(0, modified.len() as int).filter(
        |index: int| rank(modified, index, modified.len() as int) < keep,
    )
}

/// At most `keep` traces remain.
pub proof fn law_at_most_so_many_traces_remain(modified: Seq<u64>, keep: nat)
    ensures
        kept_traces(modified, keep).finite(),
        kept_traces(modified, keep).len() <= keep,
{
    let all = vstd::set_lib::set_int_range(0, modified.len() as int);
    let kept = kept_traces(modified, keep);
    let place = |index: int| rank(modified, index, modified.len() as int);
    vstd::set_lib::lemma_int_range(0, modified.len() as int);
    vstd::set_lib::lemma_int_range(0, keep as int);
    assert(kept.subset_of(all));
    vstd::set_lib::lemma_len_subset(kept, all);
    assert forall|first: int, second: int|
        #![trigger place(first), place(second)]
        kept.contains(first) && kept.contains(second) && place(first) == place(
            second,
        ) implies first == second by {
        if first != second {
            law_newer_traces_are_kept_first(modified, first, second);
            law_newer_traces_are_kept_first(modified, second, first);
        }
    }
    let places = kept.map(place);
    vstd::set_lib::lemma_map_size(kept, places, place);
    assert forall|value: int| places.contains(value) implies vstd::set_lib::set_int_range(
        0,
        keep as int,
    ).contains(value) by {
        let index = choose|index: int| kept.contains(index) && place(index) == value;
        lemma_rank_is_natural(modified, index, modified.len() as int);
    }
    vstd::set_lib::lemma_len_subset(places, vstd::set_lib::set_int_range(0, keep as int));
}

/// Spaces in front of a number, so that it takes at least `width` places.
pub open spec fn padding(length: nat, width: nat) -> Seq<char> {
    if length < width {
        Seq::new((width - length) as nat, |index: int| ' ')
    } else {
        Seq::empty()
    }
}

/// One line of the startup trace.
pub open spec fn trace_line_text(elapsed: nat, message: Seq<char>) -> Seq<char> {
    padding(decimal(elapsed).len(), 6) + decimal(elapsed) + " ms "@ + message + "\n"@
}

/// Formats one line of the startup trace, with the milliseconds since the worker
/// started.
pub fn trace_line(elapsed: u64, message: &str) -> (line: String)
    ensures
        line@ == trace_line_text(elapsed as nat, message@),
{
    let mut number = String::new();
    push_decimal(&mut number, elapsed);
    assert(number@ =~= decimal(elapsed as nat));
    let digits = crate::text::characters(number.as_str());
    let length: usize = digits.len();
    let mut line = String::new();
    let mut pad: usize = 0;
    assert(line@ =~= Seq::new(0, |index: int| ' '));
    while length < 6 && pad < 6 - length
        invariant
            length < 6 ==> pad <= 6 - length,
            length >= 6 ==> pad == 0,
            line@ == Seq::new(pad as nat, |index: int| ' '),
        decreases 6 - pad,
    {
        line.push(' ');
        pad = pad + 1;
        assert(line@ =~= Seq::new(pad as nat, |index: int| ' '));
    }
    assert(line@ =~= padding(length as nat, 6));
    line.append(number.as_str());
    line.append(" ms ");
    line.append(message);
    line.append("\n");
    assert(line@ =~= trace_line_text(elapsed as nat, message@));
    line
}

/// A truth value in words.
pub open spec fn truth(value: bool) -> Seq<char> {
    if value {
        "true"@
    } else {
        "false"@
    }
}

fn push_truth(text: &mut String, value: bool)
    ensures
        final(text)@ == old(text)@ + truth(value),
{
    if value {
        text.append("true");
    } else {
        text.append("false");
    }
}

/// The first message of a startup trace.
pub fn trace_header(process_id: u32, attach_tick: u64, worker_tick: u64) -> (text: String)
    ensures
        text@ == "trace v1 pid="@ + decimal(process_id as nat) + " attach-to-worker="@ + decimal(
            if worker_tick >= attach_tick {
                (worker_tick - attach_tick) as nat
            } else {
                0
            },
        ) + " ms"@,
{
    let mut text = String::new();
    text.append("trace v1 pid=");
    push_decimal(&mut text, process_id as u64);
    text.append(" attach-to-worker=");
    push_decimal(&mut text, worker_tick.saturating_sub(attach_tick));
    text.append(" ms");
    assert(text@ =~= "trace v1 pid="@ + decimal(process_id as nat) + " attach-to-worker="@
        + decimal(
        if worker_tick >= attach_tick {
            (worker_tick - attach_tick) as nat
        } else {
            0
        },
    ) + " ms"@);
    text
}

/// What the marks of process attach say, in words.
pub open spec fn marks_text(marks: u32) -> Seq<char> {
    "DllMain attach="@ + truth(marks & ATTACH_ENTERED != 0) + " self-recorded="@ + truth(
        marks & SELF_RECORDED != 0,
    ) + " pin-succeeded="@ + truth(marks & PIN_SUCCEEDED != 0) + " pin-failed="@ + truth(
        marks & PIN_FAILED != 0,
    ) + " worker-requested="@ + truth(marks & WORKER_REQUESTED != 0) + " worker-create-failed="@
        + truth(marks & WORKER_CREATE_FAILED != 0)
}

/// The message of a startup trace about process attach.
pub fn trace_marks(marks: u32) -> (text: String)
    ensures
        text@ == marks_text(marks),
{
    let mut text = String::new();
    text.append("DllMain attach=");
    push_truth(&mut text, marks & ATTACH_ENTERED != 0);
    text.append(" self-recorded=");
    push_truth(&mut text, marks & SELF_RECORDED != 0);
    text.append(" pin-succeeded=");
    push_truth(&mut text, marks & PIN_SUCCEEDED != 0);
    text.append(" pin-failed=");
    push_truth(&mut text, marks & PIN_FAILED != 0);
    text.append(" worker-requested=");
    push_truth(&mut text, marks & WORKER_REQUESTED != 0);
    text.append(" worker-create-failed=");
    push_truth(&mut text, marks & WORKER_CREATE_FAILED != 0);
    assert(text@ =~= marks_text(marks));
    text
}

/// The message of a startup trace about the resolved exports.
pub fn trace_exports(forwarding: Forwarding) -> (text: String)
    ensures
        text@ == "forwarding exports missing-required="@ + decimal(
            forwarding.missing_required as nat,
        ) + " missing-optional="@ + decimal(forwarding.missing_optional as nat),
{
    let mut text = String::new();
    text.append("forwarding exports missing-required=");
    push_decimal(&mut text, forwarding.missing_required as u64);
    text.append(" missing-optional=");
    push_decimal(&mut text, forwarding.missing_optional as u64);
    assert(text@ =~= "forwarding exports missing-required="@ + decimal(
        forwarding.missing_required as nat,
    ) + " missing-optional="@ + decimal(forwarding.missing_optional as nat));
    text
}

/// The message of a startup trace about the end of forwarding's start.
pub fn trace_forwarding(ready: bool, fallback_calls: u32) -> (text: String)
    ensures
        text@ == "forwarding initialization finished; ready="@ + truth(ready)
            + "; bootstrap-fallback-calls="@ + decimal(fallback_calls as nat),
{
    let mut text = String::new();
    text.append("forwarding initialization finished; ready=");
    push_truth(&mut text, ready);
    text.append("; bootstrap-fallback-calls=");
    push_decimal(&mut text, fallback_calls as u64);
    assert(text@ =~= "forwarding initialization finished; ready="@ + truth(ready)
        + "; bootstrap-fallback-calls="@ + decimal(fallback_calls as nat));
    text
}

/// The message of a startup trace about the pipe's security descriptor.
pub fn trace_descriptor(owner: Option<&String>) -> (text: String)
    ensures
        text@ == "control pipe descriptor scoped="@ + truth(owner is Some) + "; owner="@
            + match owner {
            Some(name) => name@,
            None => "<unavailable>"@,
        },
{
    let mut text = String::new();
    text.append("control pipe descriptor scoped=");
    push_truth(&mut text, owner.is_some());
    text.append("; owner=");
    match owner {
        Some(name) => {
            text.append(name.as_str());
        },
        None => {
            text.append("<unavailable>");
        },
    }
    assert(text@ =~= "control pipe descriptor scoped="@ + truth(owner is Some) + "; owner="@
        + match owner {
        Some(name) => name@,
        None => "<unavailable>"@,
    });
    text
}

/// The debug line that says under which name the payload was loaded.
pub fn load_report(vector: Vector) -> (text: String)
    ensures
        text@ == "WSGM SteamInputGate loaded: vector="@ + vector.text() + "\n"@,
{
    let mut text = String::new();
    text.append("WSGM SteamInputGate loaded: vector=");
    text.append(vector.label());
    text.append("\n");
    assert(text@ =~= "WSGM SteamInputGate loaded: vector="@ + vector.text() + "\n"@);
    text
}

/// The debug line that says whether forwarding was released.
pub fn forwarding_report(released: bool) -> (text: &'static str)
    ensures
        text@ == if released {
            "WSGM SteamInputGate bootstrap block released\n"@
        } else {
            "WSGM SteamInputGate bootstrap initialization failed; proxy remains blocked\n"@
        },
{
    if released {
        "WSGM SteamInputGate bootstrap block released\n"
    } else {
        "WSGM SteamInputGate bootstrap initialization failed; proxy remains blocked\n"
    }
}

/// Process attach always comes to its end: without a pin no worker is asked for, and with
/// one the worker runs exactly where its thread could be created.
pub proof fn law_attach_starts_the_worker_where_it_can(
    recorded: bool,
    settled: bool,
    created: bool,
)
    ensures
        attach_stage(seq![recorded, false]) == AttachStage::Finished(false),
        attach_stage(seq![recorded, true, settled, created]) == AttachStage::Finished(created),
{
    let first = seq![recorded];
    lemma_attach_step(Seq::empty(), recorded);
    assert(Seq::<bool>::empty().push(recorded) =~= first);
    lemma_attach_step(first, false);
    lemma_attach_step(first, true);
    assert(first.push(false) =~= seq![recorded, false]);
    lemma_attach_step(first.push(true), settled);
    lemma_attach_step(first.push(true).push(settled), created);
    assert(first.push(true).push(settled).push(created) =~= seq![recorded, true, settled, created]);
}

proof fn lemma_attach_step(outcomes: Seq<bool>, outcome: bool)
    ensures
        attach_stage(outcomes.push(outcome)) == attach_after(attach_stage(outcomes), outcome).0,
{
    assert(outcomes.push(outcome).drop_last() =~= outcomes);
}

/// Each stage of process attach leaves marks of its own: both of the entry, one for the
/// pin's outcome, one for the request of a worker, and one more only where that failed.
pub proof fn law_marks_tell_how_far_attach_came(stage: AttachStage, succeeded: bool)
    ensures
        ({
            let marks = attach_after(stage, succeeded).1;
            &&& stage is Recording <==> marks == 3
            &&& stage is Pinning && succeeded <==> marks == 4
            &&& stage is Pinning && !succeeded <==> marks == 8
            &&& stage is Settling <==> marks == 16
            &&& stage is StartingWorker && !succeeded <==> marks == 32
            &&& (stage is StartingWorker && succeeded) || stage is Finished <==> marks == 0
        }),
{
}

/// Only a stand-in for a system module forwards. Whatever becomes of that, and whether or
/// not a security descriptor could be made, the server then creates its pipe.
pub proof fn law_every_payload_serves_its_pipe(
    vector: Vector,
    forwarded: bool,
    rediscovered: bool,
    scoped: bool,
)
    ensures
        vector == Vector::XInput14 || vector == Vector::DInput8 ==> {
            &&& server_stage(vector, Seq::empty()) is Forwarding
            &&& server_stage(vector, seq![false, scoped]) == ServerStage::Creating(0)
            &&& server_stage(vector, seq![true]) is Rediscovering
            &&& server_stage(vector, seq![true, rediscovered, scoped]) == ServerStage::Creating(0)
        },
        vector == Vector::Injected || vector == Vector::Unknown ==> server_stage(
            vector,
            seq![scoped],
        ) == ServerStage::Creating(0),
{
    let none = Seq::<bool>::empty();
    lemma_server_step(vector, none, true);
    lemma_server_step(vector, none, false);
    lemma_server_step(vector, none, scoped);
    lemma_server_step(vector, none.push(false), scoped);
    lemma_server_step(vector, none.push(true), rediscovered);
    lemma_server_step(vector, none.push(true).push(rediscovered), scoped);
    assert(none.push(false).push(scoped) =~= seq![false, scoped]);
    assert(none.push(true) =~= seq![true]);
    assert(none.push(scoped) =~= seq![scoped]);
    assert(none.push(true).push(rediscovered).push(scoped) =~= seq![true, rediscovered, scoped]);
}

proof fn lemma_server_step(vector: Vector, outcomes: Seq<bool>, outcome: bool)
    ensures
        server_stage(vector, outcomes.push(outcome)) == server_after(
            server_stage(vector, outcomes),
            outcome,
        ),
{
    assert(outcomes.push(outcome).drop_last() =~= outcomes);
}

/// After every client, served or lost, the next instance of the pipe is created, with all
/// attempts before it. A failed attempt is followed by a pause and another attempt, and
/// only the thirtieth in a row ends the server.
pub proof fn law_the_server_goes_on_after_every_client(
    vector: Vector,
    outcomes: Seq<bool>,
    last: bool,
)
    ensures
        server_stage(vector, outcomes) is Creating ==> server_stage(
            vector,
            outcomes.push(true),
        ) is Connecting,
        server_stage(vector, outcomes) is Connecting ==> {
            &&& server_stage(vector, outcomes.push(true)) is Spawning
            &&& server_stage(vector, outcomes.push(true).push(true)) == ServerStage::Creating(0)
            &&& server_stage(vector, outcomes.push(true).push(false)) is Discarding
            &&& server_stage(vector, outcomes.push(true).push(false).push(last))
                == ServerStage::Creating(0)
            &&& server_stage(vector, outcomes.push(false)) is Discarding
            &&& server_stage(vector, outcomes.push(false).push(last)) == ServerStage::Creating(0)
        },
        server_stage(vector, outcomes) is Creating ==> {
            let failures = server_stage(vector, outcomes)->Creating_0;
            let failed = outcomes.push(false);
            &&& failures < 29 ==> server_stage(vector, failed.push(last)) == ServerStage::Creating(
                (failures + 1) as u32,
            )
            &&& failures == 29 ==> server_stage(vector, failed) is Exited
        },
        server_stage(vector, outcomes) is Exited ==> server_stage(
            vector,
            outcomes.push(last),
        ) is Exited,
{
    lemma_server_step(vector, outcomes, true);
    lemma_server_step(vector, outcomes, false);
    lemma_server_step(vector, outcomes, last);
    lemma_server_step(vector, outcomes.push(true), true);
    lemma_server_step(vector, outcomes.push(true), false);
    lemma_server_step(vector, outcomes.push(true).push(false), last);
    lemma_server_step(vector, outcomes.push(false), last);
}

/// One entry of an access list: full access for someone.
pub open spec fn full_access(someone: Seq<char>) -> Seq<char> {
    "(A;;FA;;;"@ + someone + ")"@
}

/// The pipe is open to the system, to administrators, to the token's owner and, where that
/// is someone else, to its user, each with an entry of their own, and to nobody else.
pub proof fn law_the_pipe_is_open_to_owner_and_user(owner: Seq<char>, user: Seq<char>)
    ensures
        owner_access(owner) == "D:"@ + full_access("SY"@) + full_access("BA"@) + full_access(owner),
        user != owner ==> pipe_access(owner, Some(user)) == owner_access(owner) + full_access(user),
        pipe_access(owner, Some(owner)) == owner_access(owner),
        pipe_access(owner, None) == owner_access(owner),
{
    reveal_strlit("D:(A;;FA;;;SY)(A;;FA;;;BA)(A;;FA;;;");
    reveal_strlit("D:");
    reveal_strlit("(A;;FA;;;");
    reveal_strlit("SY");
    reveal_strlit("BA");
    reveal_strlit(")");
    let start = "D:"@ + full_access("SY"@) + full_access("BA"@) + "(A;;FA;;;"@;
    assert(start =~= "D:(A;;FA;;;SY)(A;;FA;;;BA)(A;;FA;;;"@);
    assert(owner_access(owner) =~= "D:"@ + full_access("SY"@) + full_access("BA"@) + full_access(
        owner,
    ));
    assert(pipe_access(owner, Some(user)) =~= if user != owner {
        owner_access(owner) + full_access(user)
    } else {
        owner_access(owner)
    });
}

/// The trace of every process is recognized as one, so that it is counted and pruned.
pub proof fn law_every_trace_is_recognized(process_id: nat)
    ensures
        is_trace(utf16(trace_name(process_id))),
{
    let start = "steam-input-gate-"@;
    let digits = decimal(process_id);
    let end = ".log"@;
    let name = trace_name(process_id);
    law_utf16_round_trip(name);
    law_encoding_keeps_the_order(start + digits, end);
    law_encoding_keeps_the_order(start, digits);
    let units = utf16(name);
    assert(units =~= utf16(start) + utf16(digits) + utf16(end));
    assert(units.take(utf16(start).len() as int) =~= utf16(start));
    assert(units.skip(units.len() - utf16(end).len()) =~= utf16(end));
}

/// Two processes never share a trace.
pub proof fn law_traces_have_names_of_their_own(first: nat, second: nat)
    requires
        trace_name(first) == trace_name(second),
    ensures
        first == second,
{
    reveal_strlit("steam-input-gate-");
    reveal_strlit(".log");
    let one = trace_name(first);
    let other = trace_name(second);
    assert(one.subrange(17, one.len() - 4) =~= decimal(first));
    assert(other.subrange(17, other.len() - 4) =~= decimal(second));
    law_decimal_is_unique(first, second);
}

/// Only what begins and ends like a trace is taken for one, whatever stands between.
pub proof fn law_only_traces_are_recognized(name: Seq<u16>)
    ensures
        is_trace(name) ==> {
            &&& name.len() >= 17
            &&& name.take(17) == utf16("steam-input-gate-"@)
            &&& name.skip(name.len() - 4) == utf16(".log"@)
            &&& utf16_well_formed(name)
        },
        name.len() >= 17 && name.take(17) == utf16("steam-input-gate-"@) && name.skip(
            name.len() - 4,
        ) == utf16(".log"@) && utf16_well_formed(name) ==> is_trace(name),
{
    reveal_strlit("steam-input-gate-");
    reveal_strlit(".log");
    lemma_ascii_units("steam-input-gate-"@);
    lemma_ascii_units(".log"@);
}

/// The traces that are kept before one.
pub open spec fn traces_before(modified: Seq<u64>, index: int, count: int) -> Set<int> {
    vstd::set_lib::set_int_range(0, count).filter(
        |other: int|
            modified[other] > modified[index] || (modified[other] == modified[index] && other
                < index),
    )
}

/// A trace's rank is the number of newer ones, those of its own age that are listed before
/// it counted too. So a trace is deleted exactly where that many others remain.
pub proof fn law_a_rank_counts_the_newer_traces(modified: Seq<u64>, index: int, count: int)
    requires
        0 <= count <= modified.len(),
    ensures
        traces_before(modified, index, count).finite(),
        rank(modified, index, count) == traces_before(modified, index, count).len(),
    decreases count,
{
    let all = traces_before(modified, index, count);
    vstd::set_lib::lemma_int_range(0, count);
    if count > 0 {
        law_a_rank_counts_the_newer_traces(modified, index, count - 1);
        vstd::set_lib::lemma_int_range(0, count - 1);
        let fewer = traces_before(modified, index, count - 1);
        if kept_before(modified, count - 1, index) {
            assert(all =~= fewer.insert(count - 1));
        } else {
            assert(all =~= fewer);
        }
    } else {
        assert(all =~= Set::empty());
    }
}

/// No trace is deleted without need: where there are no more than may be kept, all remain.
pub proof fn law_few_traces_all_remain(modified: Seq<u64>, index: int)
    requires
        0 <= index < modified.len(),
    ensures
        rank(modified, index, modified.len() as int) < modified.len(),
{
    lemma_rank_leaves_one_out(modified, index, modified.len() as int);
}

proof fn lemma_rank_leaves_one_out(modified: Seq<u64>, index: int, count: int)
    requires
        0 <= count <= modified.len(),
        0 <= index < modified.len(),
    ensures
        rank(modified, index, count) <= count,
        index < count ==> rank(modified, index, count) < count,
    decreases count,
{
    if count > 0 {
        lemma_rank_leaves_one_out(modified, index, count - 1);
    }
}

/// A line of a trace holds its time, right-aligned in six places, and the message to its
/// end.
pub proof fn law_a_trace_line_holds_time_and_message(elapsed: nat, message: Seq<char>)
    ensures
        ({
            let line = trace_line_text(elapsed, message);
            let digits = decimal(elapsed);
            let width = if digits.len() < 6 {
                6
            } else {
                digits.len() as int
            };
            &&& line.len() == width + 4 + message.len() + 1
            &&& line.subrange(width - digits.len(), width) == digits
            &&& forall|index: int| 0 <= index < width - digits.len() ==> #[trigger] line[index] == ' '
            &&& line.subrange(width + 4, line.len() - 1) == message
            &&& line.last() == '\n'
        }),
{
    reveal_strlit(" ms ");
    reveal_strlit("\n");
    let line = trace_line_text(elapsed, message);
    let digits = decimal(elapsed);
    let width = if digits.len() < 6 {
        6
    } else {
        digits.len() as int
    };
    assert(line.subrange(width - digits.len(), width) =~= digits);
    assert(line.subrange(width + 4, line.len() - 1) =~= message);
}

/// A trace lies beside the image, or for a managed deployment in the manager's own
/// directory and nowhere else.
pub proof fn law_a_managed_trace_stays_with_its_manager(
    image: Seq<u16>,
    other: Seq<u16>,
    local: Option<Seq<u16>>,
    directory: Seq<u16>,
)
    ensures
        trace_place(image, true, local) == trace_place(other, true, local),
        trace_place(image, true, None) is None,
        trace_place(image, true, Some(directory)) == Some(path_join(directory, utf16("WSGM"@))),
        trace_place(image, false, local) == trace_place(image, false, None),
        directory_of(image) == Some(directory) && directory.len() > 0 ==> trace_place(
            image,
            false,
            local,
        ) == Some(directory),
        trace_place(image, false, local) is Some ==> trace_place(image, false, local)
            == directory_of(image),
        directory_of(image) == Some(Seq::<u16>::empty()) || directory_of(image) is None
            ==> trace_place(image, false, local) is None,
{
}

/// Truth is told in two words.
pub proof fn law_truth_is_told_in_two_words(value: bool)
    ensures
        truth(value) == "true"@ <==> value,
        truth(value) == "false"@ <==> !value,
{
    reveal_strlit("true");
    reveal_strlit("false");
    assert("true"@.len() != "false"@.len());
}

/// A mark that is set is told as true at its place, and one that is not as false.
pub proof fn law_marks_are_told_in_order(marks: u32)
    ensures
        marks_text(marks) == "DllMain attach="@ + truth(marks % 2 == 1) + " self-recorded="@ + truth(
            marks / 2 % 2 == 1,
        ) + " pin-succeeded="@ + truth(marks / 4 % 2 == 1) + " pin-failed="@ + truth(
            marks / 8 % 2 == 1,
        ) + " worker-requested="@ + truth(marks / 16 % 2 == 1) + " worker-create-failed="@ + truth(
            marks / 32 % 2 == 1,
        ),
{
    assert((marks & 1 != 0) == (marks % 2 == 1) && (marks & 2 != 0) == (marks / 2 % 2 == 1) && (
    marks & 4 != 0) == (marks / 4 % 2 == 1) && (marks & 8 != 0) == (marks / 8 % 2 == 1) && (marks
        & 16 != 0) == (marks / 16 % 2 == 1) && (marks & 32 != 0) == (marks / 32 % 2 == 1))
        by (bit_vector);
}

} // verus!
