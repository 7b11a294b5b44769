//! Values and rules of the C ABI.
//!
//! Pointers stay with the exported functions around the library. What they point
//! to arrives here as plain values, and an absent pointer as `None`.

use vstd::prelude::*;
use vstd::string::*;
use vstd::utf8::{encode_utf8, is_char_boundary, valid_utf8};

use crate::client::{
    Client, ClientOptions, Lease, RecoveryOutcome, ReleaseOutcome, RescanResult, Status,
};
use crate::launch::{first_unit, lemma_first_zero};
use crate::text::{copy_units, decode_wide, utf16_lossy};

verus! {

/// Version of the ABI.
pub const SIL_ABI_VERSION: u32 = 4;

/// A call succeeded.
pub const SIL_OK: i32 = 0;

/// A call failed and left a message.
pub const SIL_ERROR: i32 = 1;

/// A call panicked.
pub const SIL_PANIC: i32 = 2;

/// Recovery did not apply: the target is not Steam.
pub const SIL_RECOVERY_NOT_REQUIRED: u32 = 0;

/// The payload scheduled discovery itself.
pub const SIL_RECOVERY_SCHEDULED: u32 = 1;

/// The host ran both passes.
pub const SIL_RECOVERY_COMPLETED: u32 = 2;

/// Recovery could not run.
pub const SIL_RECOVERY_UNAVAILABLE: u32 = 3;

/// Bytes of the recovery message, its terminator counted.
pub const SIL_RECOVERY_MESSAGE_CAPACITY: usize = 256;

/// The most units that a string argument may have, its terminator counted.
pub const SIL_STRING_LIMIT: usize = 32768;

/// Returns the version of the ABI.
pub fn sil_abi_version() -> (version: u32)
    ensures
        version == SIL_ABI_VERSION,
{
    SIL_ABI_VERSION
}

/// Options of a client. What is absent or zero takes its default.
#[derive(Debug)]
pub struct SilClientOptions {
    /// Target executable name.
    pub target_name: Option<Vec<u16>>,
    /// Payload path.
    pub payload_path: Option<Vec<u16>>,
    /// Pipe connection timeout in milliseconds.
    pub connect_timeout_ms: u32,
    /// Whether the payload may be injected.
    pub allow_injection: u32,
}

/// The payload's state.
#[derive(Clone, Copy, Debug, PartialEq, Eq, Structural)]
pub struct SilStatus {
    /// Capability bits.
    pub capabilities: u16,
    /// Always zero.
    pub reserved: u16,
    /// Number of block leases.
    pub lease_count: u32,
    /// Number of HID handles that the payload tracks.
    pub hid_handle_count: u32,
    /// HID handles closed when blocking last became effective.
    pub last_revoked_handle_count: u32,
}

impl Default for SilStatus {
    fn default() -> (status: SilStatus)
        ensures
            status == (SilStatus {
                capabilities: 0,
                reserved: 0,
                lease_count: 0,
                hid_handle_count: 0,
                last_revoked_handle_count: 0,
            }),
    {
        SilStatus {
            capabilities: 0,
            reserved: 0,
            lease_count: 0,
            hid_handle_count: 0,
            last_revoked_handle_count: 0,
        }
    }
}

impl vstd::std_specs::convert::FromSpecImpl<Status> for SilStatus {
    open spec fn obeys_from_spec() -> bool {
        true
    }

    open spec fn from_spec(status: Status) -> SilStatus {
        SilStatus {
            capabilities: status.capabilities,
            reserved: 0,
            lease_count: status.lease_count,
            hid_handle_count: status.hid_handle_count,
            last_revoked_handle_count: status.last_revoked_handle_count,
        }
    }
}

impl From<Status> for SilStatus {
    fn from(status: Status) -> (result: SilStatus) {
        SilStatus {
            capabilities: status.capabilities,
            reserved: 0,
            lease_count: status.lease_count,
            hid_handle_count: status.hid_handle_count,
            last_revoked_handle_count: status.last_revoked_handle_count,
        }
    }
}

/// What a two-pass controller discovery showed.
#[derive(Clone, Copy, Debug, PartialEq, Eq, Structural)]
pub struct SilRescanResult {
    /// Bits of the deadline before the first pass.
    pub previous_deadline: u64,
    /// Discovery counter before the first pass.
    pub scan_count_before: u32,
    /// Discovery counter after the second pass.
    pub scan_count_after: u32,
}

impl Default for SilRescanResult {
    fn default() -> (result: SilRescanResult)
        ensures
            result == (SilRescanResult {
                previous_deadline: 0,
                scan_count_before: 0,
                scan_count_after: 0,
            }),
    {
        SilRescanResult { previous_deadline: 0, scan_count_before: 0, scan_count_after: 0 }
    }
}

impl vstd::std_specs::convert::FromSpecImpl<RescanResult> for SilRescanResult {
    open spec fn obeys_from_spec() -> bool {
        true
    }

    open spec fn from_spec(result: RescanResult) -> SilRescanResult {
        SilRescanResult {
            previous_deadline: result.previous_deadline,
            scan_count_before: result.scan_count_before,
            scan_count_after: result.scan_count_after,
        }
    }
}

impl From<RescanResult> for SilRescanResult {
    fn from(result: RescanResult) -> (converted: SilRescanResult) {
        SilRescanResult {
            previous_deadline: result.previous_deadline,
            scan_count_before: result.scan_count_before,
            scan_count_after: result.scan_count_after,
        }
    }
}

/// The outcome of a release. A successful call lifted blocking; what became of
/// recovery is reported here.
#[derive(Clone, Copy, Debug)]
pub struct SilReleaseOutcome {
    /// The payload's state at the release.
    pub status: SilStatus,
    /// What became of recovery.
    pub recovery: u32,
    /// Always zero.
    pub reserved: u32,
    /// What recovery showed, where the host ran it.
    pub rescan: SilRescanResult,
    /// Why recovery could not run, as a terminated UTF-8 string.
    pub recovery_message: [u8; 256],
}

/// A byte as it stands in a C string: a zero byte becomes a space.
pub open spec fn c_byte(byte: u8) -> u8 {
    if byte == 0 {
        32
    } else {
        byte
    }
}

/// Whether the first `end` bytes are the longest run of whole characters that
/// leaves room for a terminator.
pub open spec fn is_cut(bytes: Seq<u8>, capacity: int, end: int) -> bool {
    &&& 0 <= end < capacity
    &&& end <= bytes.len()
    &&& is_char_boundary(bytes, end)
    &&& forall|other: int|
        end < other < capacity && other <= bytes.len() ==> !#[trigger] is_char_boundary(
            bytes,
            other,
        )
}

/// Whether a buffer holds a text, cut to whole characters, as a C string. What
/// follows the terminator is as before.
pub open spec fn holds_text(before: Seq<u8>, after: Seq<u8>, text: Seq<char>) -> bool {
    let bytes = encode_utf8(text);
    &&& after.len() == before.len()
    &&& exists|end: int| #[trigger]
        is_cut(bytes, before.len() as int, end) && {
            &&& after[end] == 0
            &&& forall|index: int|
                0 <= index < end ==> #[trigger] after[index] == c_byte(bytes[index])
            &&& forall|index: int|
                end < index < before.len() ==> #[trigger] after[index] == before[index]
        }
}

/// Copies a text into a fixed buffer as a terminated UTF-8 string.
///
/// The text is cut to whole characters, and zero characters become spaces so that
/// none cuts the message short.
pub fn write_fixed_utf8(buffer: &mut Vec<u8>, text: &str)
    requires
        old(buffer)@.len() > 0,
    ensures
        holds_text(old(buffer)@, final(buffer)@, text@),
{
    let ghost before = buffer@;
    let bytes = text.as_bytes();
    let limit: usize = buffer.len() - 1;
    let mut end: usize = if bytes.len() < limit {
        bytes.len()
    } else {
        limit
    };
    proof {
        vstd::utf8::encode_utf8_valid_utf8(text@);
    }
    assert(text.spec_bytes() == encode_utf8(text@));
    while end > 0 && !text.is_char_boundary(end)
        invariant
            bytes@ == text.spec_bytes(),
            valid_utf8(bytes@),
            end <= limit,
            end <= bytes@.len(),
            limit + 1 == before.len(),
            forall|other: int|
                end < other <= limit && other <= bytes@.len() ==> !#[trigger] is_char_boundary(
                    bytes@,
                    other,
                ),
        decreases end,
    {
        end = end - 1;
    }
    assert(is_char_boundary(bytes@, 0));
    assert(is_cut(bytes@, before.len() as int, end as int));
    let mut index: usize = 0;
    while index < end
        invariant
            index <= end,
            end <= bytes@.len(),
            end < before.len(),
            buffer@.len() == before.len(),
            forall|at: int| 0 <= at < index ==> #[trigger] buffer@[at] == c_byte(bytes@[at]),
            forall|at: int| index <= at < before.len() ==> #[trigger] buffer@[at] == before[at],
        decreases end - index,
    {
        let byte: u8 = bytes[index];
        buffer.set(
            index,
            if byte == 0 {
                32
            } else {
                byte
            },
        );
        index = index + 1;
    }
    buffer.set(end, 0);
}

/// What a fixed buffer holds up to its terminator is whole UTF-8 text before zero
/// characters became spaces, and the terminator is the first zero byte.
pub proof fn law_a_fixed_text_is_a_c_string(before: Seq<u8>, after: Seq<u8>, text: Seq<char>)
    requires
        holds_text(before, after, text),
    ensures
        exists|end: int|
            0 <= end < after.len() && #[trigger] after[end] == 0 && {
                &&& forall|index: int| 0 <= index < end ==> #[trigger] after[index] != 0
                &&& end <= encode_utf8(text).len()
                &&& valid_utf8(encode_utf8(text).subrange(0, end))
            },
{
    let bytes = encode_utf8(text);
    let end = choose|end: int| #[trigger]
        is_cut(bytes, before.len() as int, end) && {
            &&& after[end] == 0
            &&& forall|index: int|
                0 <= index < end ==> #[trigger] after[index] == c_byte(bytes[index])
            &&& forall|index: int|
                end < index < before.len() ==> #[trigger] after[index] == before[index]
        };
    vstd::utf8::encode_utf8_valid_utf8(text);
    vstd::utf8::valid_utf8_split(bytes, end);
    assert(after[end] == 0);
}

/// A text as a terminated UTF-8 string of its own length.
pub open spec fn c_string(text: Seq<char>) -> Seq<u8> {
    encode_utf8(text).map_values(|byte: u8| c_byte(byte)).push(0)
}

/// Turns a text into a terminated UTF-8 string, for the last error of a thread.
pub fn last_error_bytes(text: &str) -> (bytes: Vec<u8>)
    ensures
        bytes@ == c_string(text@),
{
    let source = text.as_bytes();
    let mut bytes: Vec<u8> = Vec::new();
    let mut index: usize = 0;
    let ghost whole = encode_utf8(text@).map_values(|byte: u8| c_byte(byte));
    assert(text.spec_bytes() == encode_utf8(text@));
    while index < source.len()
        invariant
            index <= source.len(),
            source@ == encode_utf8(text@),
            whole == encode_utf8(text@).map_values(|byte: u8| c_byte(byte)),
            bytes@ == whole.take(index as int),
        decreases source.len() - index,
    {
        let byte: u8 = source[index];
        bytes.push(
            if byte == 0 {
                32
            } else {
                byte
            },
        );
        assert(bytes@ =~= whole.take(index + 1));
        index = index + 1;
    }
    assert(whole.take(whole.len() as int) =~= whole);
    bytes.push(0);
    bytes
}

/// How an exported call went.
#[derive(Debug)]
pub enum CallOutcome {
    /// It succeeded.
    Done,
    /// It failed for this reason.
    Failed(String),
    /// It panicked.
    Panicked,
}

/// The result of an exported call, and the message that it leaves for its thread.
/// A successful call clears the message.
pub fn ffi_call(outcome: CallOutcome) -> (result: (i32, Vec<u8>))
    ensures
        match outcome {
            CallOutcome::Done => result.0 == SIL_OK && result.1@ == c_string(""@),
            CallOutcome::Failed(reason) => result.0 == SIL_ERROR && result.1@ == c_string(reason@),
            CallOutcome::Panicked => result.0 == SIL_PANIC && result.1@ == c_string(
                "Rust panic crossed the Steam Input Lease ABI boundary"@,
            ),
        },
{
    match outcome {
        CallOutcome::Done => (SIL_OK, last_error_bytes("")),
        CallOutcome::Failed(reason) => (SIL_ERROR, last_error_bytes(reason.as_str())),
        CallOutcome::Panicked => (
            SIL_PANIC,
            last_error_bytes("Rust panic crossed the Steam Input Lease ABI boundary"),
        ),
    }
}

impl Default for SilReleaseOutcome {
    fn default() -> (outcome: SilReleaseOutcome)
        ensures
            outcome.status == (SilStatus {
                capabilities: 0,
                reserved: 0,
                lease_count: 0,
                hid_handle_count: 0,
                last_revoked_handle_count: 0,
            }),
            outcome.recovery == SIL_RECOVERY_NOT_REQUIRED,
            outcome.reserved == 0,
            outcome.rescan == (SilRescanResult {
                previous_deadline: 0,
                scan_count_before: 0,
                scan_count_after: 0,
            }),
            forall|index: int| 0 <= index < 256 ==> #[trigger] outcome.recovery_message@[index] == 0,
    {
        SilReleaseOutcome {
            status: SilStatus::default(),
            recovery: SIL_RECOVERY_NOT_REQUIRED,
            reserved: 0,
            rescan: SilRescanResult::default(),
            recovery_message: [0u8; 256],
        }
    }
}

/// The bytes of an empty message.
pub open spec fn empty_message() -> Seq<u8> {
    Seq::new(256, |index: int| 0u8)
}

impl SilReleaseOutcome {
    /// Whether an outcome says what a release came to.
    pub open spec fn reports(self, release: ReleaseOutcome) -> bool {
        &&& self.status == <SilStatus as vstd::std_specs::convert::FromSpec<Status>>::from_spec(
            release.status,
        )
        &&& self.reserved == 0
        &&& match release.recovery {
            RecoveryOutcome::NotRequired => {
                &&& self.recovery == SIL_RECOVERY_NOT_REQUIRED
                &&& self.rescan_is_empty()
                &&& self.recovery_message@ == empty_message()
            },
            RecoveryOutcome::Scheduled => {
                &&& self.recovery == SIL_RECOVERY_SCHEDULED
                &&& self.rescan_is_empty()
                &&& self.recovery_message@ == empty_message()
            },
            RecoveryOutcome::Completed(result) => {
                &&& self.recovery == SIL_RECOVERY_COMPLETED
                &&& self.rescan.previous_deadline == result.previous_deadline
                &&& self.rescan.scan_count_before == result.scan_count_before
                &&& self.rescan.scan_count_after == result.scan_count_after
                &&& self.recovery_message@ == empty_message()
            },
            RecoveryOutcome::Unavailable(error) => {
                &&& self.recovery == SIL_RECOVERY_UNAVAILABLE
                &&& self.rescan_is_empty()
                &&& holds_text(empty_message(), self.recovery_message@, error.text())
            },
        }
    }

    /// Whether no recovery is reported.
    pub open spec fn rescan_is_empty(self) -> bool {
        &&& self.rescan.previous_deadline == 0
        &&& self.rescan.scan_count_before == 0
        &&& self.rescan.scan_count_after == 0
    }

    /// Reports what a release came to.
    pub fn report(release: ReleaseOutcome) -> (outcome: SilReleaseOutcome)
        ensures
            outcome.reports(release),
    {
        let mut outcome = SilReleaseOutcome::default();
        outcome.status = SilStatus::from(release.status);
        assert(outcome.recovery_message@ =~= empty_message());
        match release.recovery {
            RecoveryOutcome::NotRequired => {},
            RecoveryOutcome::Scheduled => {
                outcome.recovery = SIL_RECOVERY_SCHEDULED;
            },
            RecoveryOutcome::Completed(result) => {
                outcome.recovery = SIL_RECOVERY_COMPLETED;
                outcome.rescan = SilRescanResult::from(result);
            },
            RecoveryOutcome::Unavailable(error) => {
                outcome.recovery = SIL_RECOVERY_UNAVAILABLE;
                let text = error.message();
                outcome.recovery_message = message_buffer(text.as_str());
            },
        }
        outcome
    }
}

fn message_buffer(text: &str) -> (message: [u8; 256])
    ensures
        holds_text(empty_message(), message@, text@),
{
    let mut buffer: Vec<u8> = Vec::new();
    while buffer.len() < SIL_RECOVERY_MESSAGE_CAPACITY
        invariant
            buffer.len() <= SIL_RECOVERY_MESSAGE_CAPACITY,
            forall|at: int| 0 <= at < buffer@.len() ==> #[trigger] buffer@[at] == 0,
        decreases SIL_RECOVERY_MESSAGE_CAPACITY - buffer.len(),
    {
        buffer.push(0);
    }
    assert(buffer@ =~= empty_message());
    write_fixed_utf8(&mut buffer, text);
    let mut message: [u8; 256] = [0u8; 256];
    let mut index: usize = 0;
    while index < SIL_RECOVERY_MESSAGE_CAPACITY
        invariant
            index <= SIL_RECOVERY_MESSAGE_CAPACITY,
            buffer@.len() == SIL_RECOVERY_MESSAGE_CAPACITY,
            forall|at: int| 0 <= at < index ==> #[trigger] message@[at] == buffer@[at],
        decreases SIL_RECOVERY_MESSAGE_CAPACITY - index,
    {
        message[index] = buffer[index];
        index = index + 1;
    }
    assert(message@ =~= buffer@);
    message
}

impl vstd::std_specs::convert::FromSpecImpl<ReleaseOutcome> for SilReleaseOutcome {
    open spec fn obeys_from_spec() -> bool {
        false
    }

    open spec fn from_spec(release: ReleaseOutcome) -> SilReleaseOutcome {
        arbitrary()
    }
}

impl From<ReleaseOutcome> for SilReleaseOutcome {
    fn from(release: ReleaseOutcome) -> (outcome: SilReleaseOutcome)
        ensures
            outcome.reports(release),
    {
        SilReleaseOutcome::report(release)
    }
}

/// Reads a string argument from the units behind its pointer, up to the first zero
/// unit. `units` reaches at least to that unit or to the limit.
pub fn read_utf16(units: Option<&[u16]>) -> (read: Result<Vec<u16>, &'static str>)
    requires
        units matches Some(found) ==> found@.len() >= SIL_STRING_LIMIT || found@.contains(0u16),
    ensures
        match units {
            None => read == Err::<Vec<u16>, &'static str>(
                "required UTF-16 string pointer was null",
            ),
            Some(found) => {
                let length = first_unit(found@, |unit: u16| unit == 0);
                match read {
                    Ok(text) => length < SIL_STRING_LIMIT && text@ == found@.take(length),
                    Err(reason) => length >= SIL_STRING_LIMIT && reason
                        == "UTF-16 string exceeds 32767 code units",
                }
            },
        },
{
    match units {
        None => Err("required UTF-16 string pointer was null"),
        Some(found) => {
            let mut length: usize = 0;
            while length < found.len() && length < SIL_STRING_LIMIT && found[length] != 0
                invariant
                    length <= found.len(),
                    length <= SIL_STRING_LIMIT,
                    forall|before: int| 0 <= before < length ==> #[trigger] found@[before] != 0,
                decreases found.len() - length,
            {
                length = length + 1;
            }
            proof {
                lemma_first_zero(found@, length as int);
                if length == found@.len() && length < SIL_STRING_LIMIT {
                    let at = choose|at: int| 0 <= at < found@.len() && found@[at] == 0u16;
                    assert(found@[at] != 0);
                }
            }
            if length == SIL_STRING_LIMIT {
                return Err("UTF-16 string exceeds 32767 code units");
            }
            let part = vstd::slice::slice_subrange(found, 0, length);
            assert(part@ =~= found@.take(length as int));
            Ok(copy_units(part))
        },
    }
}

/// A client behind a handle.
#[derive(Debug)]
pub struct SilClient {
    client: Client,
}

impl SilClient {
    /// The client.
    pub closed spec fn inner(&self) -> Client {
        self.client
    }

    /// Resolves the given options over the defaults and makes a client.
    pub fn create(options: Option<SilClientOptions>, defaults: ClientOptions) -> (handle: SilClient)
        ensures
            ({
                let chosen = handle.inner().settings();
                match options {
                    None => chosen == defaults,
                    Some(given) => {
                        &&& match given.target_name {
                            Some(name) => chosen.target_name@ == utf16_lossy(name@),
                            None => chosen.target_name == defaults.target_name,
                        }
                        &&& match given.payload_path {
                            Some(path) => chosen.payload_path == path,
                            None => chosen.payload_path == defaults.payload_path,
                        }
                        &&& chosen.connect_timeout == if given.connect_timeout_ms != 0 {
                            given.connect_timeout_ms as u64
                        } else {
                            defaults.connect_timeout
                        }
                        &&& chosen.allow_injection == (given.allow_injection != 0)
                    },
                }
            }),
    {
        let mut resolved = defaults;
        if let Some(given) = options {
            if let Some(name) = given.target_name {
                let decoded = decode_wide(&name);
                resolved.target_name = decoded.0;
            }
            if let Some(path) = given.payload_path {
                resolved.payload_path = path;
            }
            if given.connect_timeout_ms != 0 {
                resolved.connect_timeout = given.connect_timeout_ms as u64;
            }
            resolved.allow_injection = given.allow_injection != 0;
        }
        SilClient { client: Client::new(resolved) }
    }

    /// The client behind a handle.
    pub fn get(&self) -> (client: &Client)
        ensures
            *client == self.inner(),
    {
        &self.client
    }
}

/// A lease behind a handle.
#[derive(Debug)]
pub struct SilLease {
    lease: Option<Lease>,
}

impl SilLease {
    /// The lease, until it is taken.
    pub closed spec fn inner(&self) -> Option<Lease> {
        self.lease
    }

    /// Puts a lease behind a handle.
    pub fn new(lease: Lease) -> (handle: SilLease)
        ensures
            handle.inner() == Some(lease),
    {
        SilLease { lease: Some(lease) }
    }

    /// Takes the lease out of its handle, which is possible once.
    pub fn take(&mut self) -> (lease: Result<Lease, &'static str>)
        ensures
            final(self).inner() is None,
            match old(self).inner() {
                Some(held) => lease == Ok::<Lease, &'static str>(held),
                None => lease == Err::<Lease, &'static str>("lease was already released"),
            },
    {
        let held = self.lease.take();
        match held {
            Some(lease) => Ok(lease),
            None => Err("lease was already released"),
        }
    }
}

/// What a release call does with its handle.
#[derive(Clone, Copy, Debug, PartialEq, Eq, Structural)]
pub enum ReleasePlan {
    /// There is no lease: fail, and leave everything as it is.
    NothingToRelease,
    /// There is no room for a report: close the lease, and fail.
    CloseUnreported,
    /// Release, report, and consume the handle whatever comes of it.
    Release,
}

/// Decides what a release call does with its handle.
pub fn sil_lease_release(has_lease: bool, has_outcome: bool) -> (plan: ReleasePlan)
    ensures
        plan == if !has_lease {
            ReleasePlan::NothingToRelease
        } else if !has_outcome {
            ReleasePlan::CloseUnreported
        } else {
            ReleasePlan::Release
        },
{
    if !has_lease {
        ReleasePlan::NothingToRelease
    } else if !has_outcome {
        ReleasePlan::CloseUnreported
    } else {
        ReleasePlan::Release
    }
}

/// A text as a terminated string holds no other zero byte, and every byte but zero stands
/// in it unchanged.
pub proof fn law_a_c_string_ends_at_its_only_zero(text: Seq<char>, index: int)
    requires
        0 <= index < encode_utf8(text).len(),
    ensures
        c_string(text).len() == encode_utf8(text).len() + 1,
        c_string(text).last() == 0,
        c_string(text)[index] != 0,
        encode_utf8(text)[index] != 0 ==> c_string(text)[index] == encode_utf8(text)[index],
        encode_utf8(text)[index] == 0 ==> c_string(text)[index] == 32,
{
}

/// A text that fits into a buffer with its terminator stands in it whole.
pub proof fn law_a_text_that_fits_is_held_whole(
    before: Seq<u8>,
    after: Seq<u8>,
    text: Seq<char>,
    index: int,
)
    requires
        holds_text(before, after, text),
        encode_utf8(text).len() < before.len(),
        0 <= index < encode_utf8(text).len(),
    ensures
        after[encode_utf8(text).len() as int] == 0,
        encode_utf8(text)[index] != 0 ==> after[index] == encode_utf8(text)[index],
        encode_utf8(text)[index] == 0 ==> after[index] == 32,
{
    let bytes = encode_utf8(text);
    let end = choose|end: int| #[trigger]
        is_cut(bytes, before.len() as int, end) && {
            &&& after[end] == 0
            &&& forall|index: int|
                0 <= index < end ==> #[trigger] after[index] == c_byte(bytes[index])
            &&& forall|index: int|
                end < index < before.len() ==> #[trigger] after[index] == before[index]
        };
    vstd::utf8::encode_utf8_valid_utf8(text);
    vstd::utf8::is_char_boundary_start_end_of_seq(bytes);
    assert(is_char_boundary(bytes, bytes.len() as int));
    assert(end == bytes.len());
}

/// A text that does not fit is cut by less than one character: where it is cut a character
/// ends, and up to the buffer's end no later one does. The rest of the buffer stays as it
/// was.
pub proof fn law_a_long_text_is_cut_between_characters(
    before: Seq<u8>,
    after: Seq<u8>,
    text: Seq<char>,
)
    requires
        holds_text(before, after, text),
    ensures
        after.len() == before.len(),
        exists|end: int|
            #![trigger is_char_boundary(encode_utf8(text), end)]
            {
                &&& 0 <= end < before.len()
                &&& end <= encode_utf8(text).len()
                &&& is_char_boundary(encode_utf8(text), end)
                &&& after[end] == 0
                &&& forall|index: int|
                    end < index < before.len() ==> #[trigger] after[index] == before[index]
                &&& forall|other: int|
                    end < other < before.len() && other <= encode_utf8(text).len()
                        ==> !#[trigger] is_char_boundary(encode_utf8(text), other)
            },
{
    let bytes = encode_utf8(text);
    let end = choose|end: int| #[trigger]
        is_cut(bytes, before.len() as int, end) && {
            &&& after[end] == 0
            &&& forall|index: int|
                0 <= index < end ==> #[trigger] after[index] == c_byte(bytes[index])
            &&& forall|index: int|
                end < index < before.len() ==> #[trigger] after[index] == before[index]
        };
    assert(is_char_boundary(bytes, end));
}

/// A report says which of the four things became of recovery, repeats the payload's state,
/// and carries a result or a reason only where there is one.
pub proof fn law_a_report_tells_what_became_of_recovery(
    outcome: SilReleaseOutcome,
    release: ReleaseOutcome,
)
    requires
        outcome.reports(release),
    ensures
        release.recovery is NotRequired <==> outcome.recovery == 0,
        release.recovery is Scheduled <==> outcome.recovery == 1,
        release.recovery is Completed <==> outcome.recovery == 2,
        release.recovery is Unavailable <==> outcome.recovery == 3,
        outcome.status.capabilities == release.status.capabilities,
        outcome.status.reserved == 0,
        outcome.reserved == 0,
        outcome.status.lease_count == release.status.lease_count,
        outcome.status.hid_handle_count == release.status.hid_handle_count,
        outcome.status.last_revoked_handle_count == release.status.last_revoked_handle_count,
        release.recovery matches RecoveryOutcome::Completed(result) ==> {
            &&& outcome.rescan.previous_deadline == result.previous_deadline
            &&& outcome.rescan.scan_count_before == result.scan_count_before
            &&& outcome.rescan.scan_count_after == result.scan_count_after
        },
        !(release.recovery is Completed) ==> outcome.rescan.previous_deadline == 0
            && outcome.rescan.scan_count_before == 0 && outcome.rescan.scan_count_after == 0,
        !(release.recovery is Unavailable) ==> forall|index: int|
            0 <= index < 256 ==> #[trigger] outcome.recovery_message@[index] == 0,
        release.recovery matches RecoveryOutcome::Unavailable(error) ==> holds_text(
            Seq::new(256, |index: int| 0u8),
            outcome.recovery_message@,
            error.text(),
        ),
{
}

/// What the host reports of a state or a recovery reaches a C program field by field.
pub proof fn law_states_and_results_are_handed_on(status: Status, result: RescanResult)
    ensures
        ({
            let given = <SilStatus as vstd::std_specs::convert::FromSpec<Status>>::from_spec(status);
            &&& given.capabilities == status.capabilities
            &&& given.reserved == 0
            &&& given.lease_count == status.lease_count
            &&& given.hid_handle_count == status.hid_handle_count
            &&& given.last_revoked_handle_count == status.last_revoked_handle_count
        }),
        ({
            let given = <SilRescanResult as vstd::std_specs::convert::FromSpec<
                RescanResult,
            >>::from_spec(result);
            &&& given.previous_deadline == result.previous_deadline
            &&& given.scan_count_before == result.scan_count_before
            &&& given.scan_count_after == result.scan_count_after
        }),
{
}

} // verus!
