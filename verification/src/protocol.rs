//! Wire protocol between the host library and the resident payload.
//!
//! Messages are fixed-width and little-endian. Commands and results travel as
//! numbers, so that malformed input cannot form an invalid value.

use vstd::prelude::*;
use vstd::string::*;

use crate::search::{read_u16, read_u32, u16_at, u32_at};
use crate::text::{
    decimal, encode_wide, law_decimal_is_unique, law_utf16_round_trip, push_decimal, utf16,
};

verus! {

/// Signature of every request and response.
pub const PROTOCOL_MAGIC: u32 = 0x5349_4754;

/// Current version of the protocol.
pub const PROTOCOL_VERSION: u16 = 1;

/// Capability: the payload runs its own controller recovery.
pub const CAPABILITY_INTERNAL_RECOVERY: u16 = 1;

/// Capability: the payload accepts pass-through claims.
pub const CAPABILITY_PASS_THROUGH: u16 = 2;

/// Capability: a pass-through claim overrides the block leases.
pub const CAPABILITY_PASS_THROUGH_ACTIVE: u16 = 4;

/// Size of a request on the wire.
pub const REQUEST_SIZE: usize = 8;

/// Size of a response on the wire.
pub const RESPONSE_SIZE: usize = 24;

/// Commands that the payload accepts.
#[derive(Clone, Copy, Debug, PartialEq, Eq, Structural)]
pub enum Command {
    /// Take a block lease for as long as the connection stays open.
    AcquireLease,
    /// Read the payload's state.
    QueryStatus,
    /// Release the connection's block lease.
    ReleaseLease,
    /// Take a pass-through claim for as long as the connection stays open.
    AcquirePassThrough,
    /// Release the connection's pass-through claim.
    ReleasePassThrough,
}

impl Command {
    /// The command's number on the wire.
    pub open spec fn number(self) -> u16 {
        match self {
            Command::AcquireLease => 1,
            Command::QueryStatus => 2,
            Command::ReleaseLease => 3,
            Command::AcquirePassThrough => 4,
            Command::ReleasePassThrough => 5,
        }
    }

    /// The command's number on the wire.
    pub fn code(self) -> (number: u16)
        ensures
            number == self.number(),
    {
        match self {
            Command::AcquireLease => 1,
            Command::QueryStatus => 2,
            Command::ReleaseLease => 3,
            Command::AcquirePassThrough => 4,
            Command::ReleasePassThrough => 5,
        }
    }
}

/// Results that the payload reports.
#[derive(Clone, Copy, Debug, PartialEq, Eq, Structural)]
pub enum ResultCode {
    /// The request completed.
    Success,
    /// The header, the version or the command was invalid.
    InvalidRequest,
    /// The hooks could not be installed, so no lease can be granted.
    HookInstallFailed,
}

impl ResultCode {
    /// The result's number on the wire.
    pub open spec fn number(self) -> u32 {
        match self {
            ResultCode::Success => 0,
            ResultCode::InvalidRequest => 1,
            ResultCode::HookInstallFailed => 2,
        }
    }

    /// The result's number on the wire.
    pub fn code(self) -> (number: u32)
        ensures
            number == self.number(),
    {
        match self {
            ResultCode::Success => 0,
            ResultCode::InvalidRequest => 1,
            ResultCode::HookInstallFailed => 2,
        }
    }
}

/// A request to the payload.
#[derive(Clone, Copy, Debug, PartialEq, Eq, Structural)]
pub struct Request {
    /// Must be [`PROTOCOL_MAGIC`].
    pub magic: u32,
    /// Must be [`PROTOCOL_VERSION`].
    pub version: u16,
    /// Number of a [`Command`].
    pub command: u16,
}

/// The little-endian bytes of a `u16`.
pub open spec fn u16_bytes(value: u16) -> Seq<u8> {
    seq![(value % 256) as u8, (value / 256) as u8]
}

/// The little-endian bytes of a `u32`.
pub open spec fn u32_bytes(value: u32) -> Seq<u8> {
    seq![
        (value % 256) as u8,
        (value / 256 % 256) as u8,
        (value / 0x1_0000 % 256) as u8,
        (value / 0x100_0000) as u8,
    ]
}

fn push_u16(bytes: &mut Vec<u8>, value: u16)
    ensures
        final(bytes)@ == old(bytes)@ + u16_bytes(value),
{
    bytes.push((value % 256) as u8);
    bytes.push((value / 256) as u8);
    assert(bytes@ =~= old(bytes)@ + u16_bytes(value));
}

fn push_u32(bytes: &mut Vec<u8>, value: u32)
    ensures
        final(bytes)@ == old(bytes)@ + u32_bytes(value),
{
    bytes.push((value % 256) as u8);
    bytes.push((value / 256 % 256) as u8);
    bytes.push((value / 0x1_0000 % 256) as u8);
    bytes.push((value / 0x100_0000) as u8);
    assert(bytes@ =~= old(bytes)@ + u32_bytes(value));
}

proof fn lemma_u16_bytes(bytes: Seq<u8>, offset: int, value: u16)
    requires
        0 <= offset,
        offset + 2 <= bytes.len(),
        bytes.subrange(offset, offset + 2) == u16_bytes(value),
    ensures
        u16_at(bytes, offset) == Some(value),
{
    let part = bytes.subrange(offset, offset + 2);
    assert(part[0] == bytes[offset] && part[1] == bytes[offset + 1]);
}

proof fn lemma_u32_bytes(bytes: Seq<u8>, offset: int, value: u32)
    requires
        0 <= offset,
        offset + 4 <= bytes.len(),
        bytes.subrange(offset, offset + 4) == u32_bytes(value),
    ensures
        u32_at(bytes, offset) == Some(value),
{
    let part = bytes.subrange(offset, offset + 4);
    assert(part[0] == bytes[offset] && part[1] == bytes[offset + 1] && part[2] == bytes[offset + 2]
        && part[3] == bytes[offset + 3]);
}

impl Request {
    /// A valid request for `command`.
    pub fn new(command: Command) -> (request: Request)
        ensures
            request.magic == PROTOCOL_MAGIC,
            request.version == PROTOCOL_VERSION,
            request.command == command.number(),
    {
        Request { magic: PROTOCOL_MAGIC, version: PROTOCOL_VERSION, command: command.code() }
    }

    /// Whether the header is that of this protocol.
    pub open spec fn well_formed(self) -> bool {
        self.magic == PROTOCOL_MAGIC && self.version == PROTOCOL_VERSION
    }

    /// Whether this is a well-formed request for `command`.
    pub open spec fn asks(self, command: Command) -> bool {
        self.well_formed() && self.command == command.number()
    }

    /// Whether this is a well-formed request for `command`.
    pub fn is_for(&self, command: Command) -> (result: bool)
        ensures
            result == self.asks(command),
    {
        self.magic == PROTOCOL_MAGIC && self.version == PROTOCOL_VERSION && self.command
            == command.code()
    }

    /// The request on the wire.
    pub open spec fn wire(self) -> Seq<u8> {
        u32_bytes(self.magic) + u16_bytes(self.version) + u16_bytes(self.command)
    }

    /// The request that the first bytes of a message hold.
    pub open spec fn from_wire(bytes: Seq<u8>) -> Option<Request> {
        if bytes.len() >= REQUEST_SIZE {
            Some(
                Request {
                    magic: u32_at(bytes, 0)->0,
                    version: u16_at(bytes, 4)->0,
                    command: u16_at(bytes, 6)->0,
                },
            )
        } else {
            None
        }
    }

    /// Encodes the request.
    pub fn encode(&self) -> (bytes: Vec<u8>)
        ensures
            bytes@ == self.wire(),
    {
        let mut bytes: Vec<u8> = Vec::with_capacity(REQUEST_SIZE);
        push_u32(&mut bytes, self.magic);
        push_u16(&mut bytes, self.version);
        push_u16(&mut bytes, self.command);
        assert(bytes@ =~= self.wire());
        bytes
    }

    /// Decodes the first bytes of a message. A shorter message is no request.
    pub fn decode(bytes: &[u8]) -> (request: Option<Request>)
        ensures
            request == Request::from_wire(bytes@),
    {
        if bytes.len() < REQUEST_SIZE {
            return None;
        }
        Some(
            Request {
                magic: read_u32(bytes, 0).unwrap(),
                version: read_u16(bytes, 4).unwrap(),
                command: read_u16(bytes, 6).unwrap(),
            },
        )
    }
}

/// Decoding an encoded request gives the request back, whatever follows it.
pub proof fn law_request_round_trip(request: Request, rest: Seq<u8>)
    ensures
        request.wire().len() == REQUEST_SIZE,
        Request::from_wire(request.wire() + rest) == Some(request),
{
    let bytes = request.wire() + rest;
    assert(bytes.subrange(0, 4) =~= u32_bytes(request.magic));
    assert(bytes.subrange(4, 6) =~= u16_bytes(request.version));
    assert(bytes.subrange(6, 8) =~= u16_bytes(request.command));
    lemma_u32_bytes(bytes, 0, request.magic);
    lemma_u16_bytes(bytes, 4, request.version);
    lemma_u16_bytes(bytes, 6, request.command);
}

/// A response of the payload.
#[derive(Clone, Copy, Debug, PartialEq, Eq, Structural)]
pub struct Response {
    /// Must be [`PROTOCOL_MAGIC`].
    pub magic: u32,
    /// Must be [`PROTOCOL_VERSION`].
    pub version: u16,
    /// Bits such as [`CAPABILITY_INTERNAL_RECOVERY`].
    pub capabilities: u16,
    /// Number of a [`ResultCode`].
    pub result: u32,
    /// Number of block leases that are held.
    pub lease_count: u32,
    /// Number of HID handles that the payload tracks.
    pub hid_handle_count: u32,
    /// HID handles closed when blocking last became effective.
    pub last_revoked_handle_count: u32,
}

/// Whether a bit of a capability set is set.
pub open spec fn has_capability(capabilities: u16, capability: u16) -> bool {
    capabilities & capability != 0
}

impl Response {
    /// Whether the header is that of this protocol and the request succeeded.
    pub open spec fn valid(self) -> bool {
        &&& self.magic == PROTOCOL_MAGIC
        &&& self.version == PROTOCOL_VERSION
        &&& self.result == ResultCode::Success.number()
    }

    /// Whether the header is compatible and the request succeeded.
    pub fn is_valid(self) -> (result: bool)
        ensures
            result == self.valid(),
    {
        self.magic == PROTOCOL_MAGIC && self.version == PROTOCOL_VERSION && self.result
            == ResultCode::Success.code()
    }

    /// Whether the payload runs its own two-pass recovery on the final release.
    pub fn has_internal_recovery(self) -> (result: bool)
        ensures
            result == has_capability(self.capabilities, CAPABILITY_INTERNAL_RECOVERY),
    {
        self.capabilities & CAPABILITY_INTERNAL_RECOVERY != 0
    }

    /// Whether the payload accepts pass-through claims.
    pub fn supports_pass_through(self) -> (result: bool)
        ensures
            result == has_capability(self.capabilities, CAPABILITY_PASS_THROUGH),
    {
        self.capabilities & CAPABILITY_PASS_THROUGH != 0
    }

    /// Whether a pass-through claim overrides the block leases.
    pub fn pass_through_active(self) -> (result: bool)
        ensures
            result == has_capability(self.capabilities, CAPABILITY_PASS_THROUGH_ACTIVE),
    {
        self.capabilities & CAPABILITY_PASS_THROUGH_ACTIVE != 0
    }

    /// The response on the wire.
    pub open spec fn wire(self) -> Seq<u8> {
        u32_bytes(self.magic) + u16_bytes(self.version) + u16_bytes(self.capabilities) + u32_bytes(
            self.result,
        ) + u32_bytes(self.lease_count) + u32_bytes(self.hid_handle_count) + u32_bytes(
            self.last_revoked_handle_count,
        )
    }

    /// The response that a message of exactly its size holds.
    pub open spec fn from_wire(bytes: Seq<u8>) -> Option<Response> {
        if bytes.len() == RESPONSE_SIZE {
            Some(
                Response {
                    magic: u32_at(bytes, 0)->0,
                    version: u16_at(bytes, 4)->0,
                    capabilities: u16_at(bytes, 6)->0,
                    result: u32_at(bytes, 8)->0,
                    lease_count: u32_at(bytes, 12)->0,
                    hid_handle_count: u32_at(bytes, 16)->0,
                    last_revoked_handle_count: u32_at(bytes, 20)->0,
                },
            )
        } else {
            None
        }
    }

    /// Encodes the response.
    pub fn encode(&self) -> (bytes: Vec<u8>)
        ensures
            bytes@ == self.wire(),
    {
        let mut bytes: Vec<u8> = Vec::with_capacity(RESPONSE_SIZE);
        push_u32(&mut bytes, self.magic);
        push_u16(&mut bytes, self.version);
        push_u16(&mut bytes, self.capabilities);
        push_u32(&mut bytes, self.result);
        push_u32(&mut bytes, self.lease_count);
        push_u32(&mut bytes, self.hid_handle_count);
        push_u32(&mut bytes, self.last_revoked_handle_count);
        assert(bytes@ =~= self.wire());
        bytes
    }

    /// Decodes a message. One of another size is no response.
    pub fn decode(bytes: &[u8]) -> (response: Option<Response>)
        ensures
            response == Response::from_wire(bytes@),
    {
        if bytes.len() != RESPONSE_SIZE {
            return None;
        }
        Some(
            Response {
                magic: read_u32(bytes, 0).unwrap(),
                version: read_u16(bytes, 4).unwrap(),
                capabilities: read_u16(bytes, 6).unwrap(),
                result: read_u32(bytes, 8).unwrap(),
                lease_count: read_u32(bytes, 12).unwrap(),
                hid_handle_count: read_u32(bytes, 16).unwrap(),
                last_revoked_handle_count: read_u32(bytes, 20).unwrap(),
            },
        )
    }
}

/// Decoding an encoded response gives the response back.
pub proof fn law_response_round_trip(response: Response)
    ensures
        response.wire().len() == RESPONSE_SIZE,
        Response::from_wire(response.wire()) == Some(response),
{
    let bytes = response.wire();
    assert(bytes.subrange(0, 4) =~= u32_bytes(response.magic));
    assert(bytes.subrange(4, 6) =~= u16_bytes(response.version));
    assert(bytes.subrange(6, 8) =~= u16_bytes(response.capabilities));
    assert(bytes.subrange(8, 12) =~= u32_bytes(response.result));
    assert(bytes.subrange(12, 16) =~= u32_bytes(response.lease_count));
    assert(bytes.subrange(16, 20) =~= u32_bytes(response.hid_handle_count));
    assert(bytes.subrange(20, 24) =~= u32_bytes(response.last_revoked_handle_count));
    lemma_u32_bytes(bytes, 0, response.magic);
    lemma_u16_bytes(bytes, 4, response.version);
    lemma_u16_bytes(bytes, 6, response.capabilities);
    lemma_u32_bytes(bytes, 8, response.result);
    lemma_u32_bytes(bytes, 12, response.lease_count);
    lemma_u32_bytes(bytes, 16, response.hid_handle_count);
    lemma_u32_bytes(bytes, 20, response.last_revoked_handle_count);
}

/// The name of the control pipe of a process.
pub open spec fn pipe_text(process_id: nat) -> Seq<char> {
    "\\\\.\\pipe\\SteamInputGate-"@ + decimal(process_id)
}

/// Every process has a control pipe of its own name.
pub proof fn law_pipe_names_differ(first: u32, second: u32)
    requires
        utf16(pipe_text(first as nat)).push(0) == utf16(pipe_text(second as nat)).push(0),
    ensures
        first == second,
{
    let one = pipe_text(first as nat);
    let other = pipe_text(second as nat);
    assert(utf16(one).push(0).drop_last() =~= utf16(one));
    assert(utf16(other).push(0).drop_last() =~= utf16(other));
    law_utf16_round_trip(one);
    law_utf16_round_trip(other);
    let start = "\\\\.\\pipe\\SteamInputGate-"@;
    assert(one.skip(start.len() as int) =~= decimal(first as nat));
    assert(other.skip(start.len() as int) =~= decimal(second as nat));
    law_decimal_is_unique(first as nat, second as nat);
}

/// No two commands share a number, nor do two results.
pub proof fn law_wire_numbers_are_distinct(
    command: Command,
    other_command: Command,
    result: ResultCode,
    other_result: ResultCode,
)
    ensures
        command.number() == other_command.number() ==> command == other_command,
        result.number() == other_result.number() ==> result == other_result,
{
}

/// Builds the NUL-terminated path of the control pipe of a process.
pub fn pipe_name(process_id: u32) -> (name: Vec<u16>)
    ensures
        name@ == utf16(pipe_text(process_id as nat)).push(0),
{
    let mut text = String::new();
    text.append("\\\\.\\pipe\\SteamInputGate-");
    push_decimal(&mut text, process_id as u64);
    assert(text@ =~= pipe_text(process_id as nat));
    let mut name = encode_wide(text.as_str());
    name.push(0);
    name
}

/// A request stands on the wire as its fields in order, each with its least significant
/// byte first.
pub proof fn law_a_request_is_little_endian(request: Request)
    ensures
        ({
            let bytes = request.wire();
            &&& bytes.len() == 8
            &&& request.magic == bytes[0] + 0x100 * bytes[1] + 0x1_0000 * bytes[2] + 0x100_0000
                * bytes[3]
            &&& request.version == bytes[4] + 0x100 * bytes[5]
            &&& request.command == bytes[6] + 0x100 * bytes[7]
        }),
{
    law_request_round_trip(request, Seq::empty());
    assert(request.wire() + Seq::<u8>::empty() =~= request.wire());
}

proof fn lemma_decoded_response(bytes: Seq<u8>, response: Response)
    requires
        Response::from_wire(bytes) == Some(response),
    ensures
        ({
            let word = |at: int|
                bytes[at] + 0x100 * bytes[at + 1] + 0x1_0000 * bytes[at + 2] + 0x100_0000 * bytes[at
                    + 3];
            &&& bytes.len() == 24
            &&& response.magic == word(0)
            &&& response.version == bytes[4] + 0x100 * bytes[5]
            &&& response.capabilities == bytes[6] + 0x100 * bytes[7]
            &&& response.result == word(8)
            &&& response.lease_count == word(12)
            &&& response.hid_handle_count == word(16)
            &&& response.last_revoked_handle_count == word(20)
        }),
{
}

/// A response stands on the wire as its fields in order, each with its least significant
/// byte first.
pub proof fn law_a_response_is_little_endian(response: Response)
    ensures
        ({
            let bytes = response.wire();
            let word = |at: int|
                bytes[at] + 0x100 * bytes[at + 1] + 0x1_0000 * bytes[at + 2] + 0x100_0000 * bytes[at
                    + 3];
            &&& bytes.len() == 24
            &&& response.magic == word(0)
            &&& response.version == bytes[4] + 0x100 * bytes[5]
            &&& response.capabilities == bytes[6] + 0x100 * bytes[7]
            &&& response.result == word(8)
            &&& response.lease_count == word(12)
            &&& response.hid_handle_count == word(16)
            &&& response.last_revoked_handle_count == word(20)
        }),
{
    law_response_round_trip(response);
    lemma_decoded_response(response.wire(), response);
}

/// A message of another size is no response, and a shorter one no request.
pub proof fn law_a_message_of_another_size_is_none(bytes: Seq<u8>)
    ensures
        Response::from_wire(bytes) is Some <==> bytes.len() == 24,
        Request::from_wire(bytes) is Some <==> bytes.len() >= 8,
{
}

/// A number on the wire says which command or result it is, to every payload and host
/// of this protocol.
pub proof fn law_wire_numbers_are_agreed_on(command: Command, result: ResultCode)
    ensures
        command is AcquireLease <==> command.number() == 1,
        command is QueryStatus <==> command.number() == 2,
        command is ReleaseLease <==> command.number() == 3,
        command is AcquirePassThrough <==> command.number() == 4,
        command is ReleasePassThrough <==> command.number() == 5,
        result is Success <==> result.number() == 0,
        result is InvalidRequest <==> result.number() == 1,
        result is HookInstallFailed <==> result.number() == 2,
{
}

/// The three capabilities are the three lowest bits, independent of each other and of
/// all higher ones.
pub proof fn law_capabilities_are_single_bits(capabilities: u16)
    ensures
        has_capability(capabilities, CAPABILITY_INTERNAL_RECOVERY) <==> capabilities % 2 == 1,
        has_capability(capabilities, CAPABILITY_PASS_THROUGH) <==> capabilities / 2 % 2 == 1,
        has_capability(capabilities, CAPABILITY_PASS_THROUGH_ACTIVE) <==> capabilities / 4 % 2 == 1,
{
    assert((capabilities & 1 != 0) == (capabilities % 2 == 1) && (capabilities & 2 != 0) == (
    capabilities / 2 % 2 == 1) && (capabilities & 4 != 0) == (capabilities / 4 % 2 == 1))
        by (bit_vector);
}

/// A reply is accepted exactly where it carries this protocol's header and reports
/// success, whatever else it says.
pub proof fn law_a_valid_reply_reports_success(response: Response)
    ensures
        response.valid() <==> response.magic == 0x5349_4754 && response.version == 1
            && response.result == 0,
{
}

} // verus!
