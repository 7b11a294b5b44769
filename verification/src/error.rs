//! Errors of the host library.

use vstd::prelude::*;
use vstd::string::*;

use crate::text::{decimal, decode_wide, push_decimal, utf16_lossy};

verus! {

/// An error that the operating system reported.
#[derive(Debug)]
pub struct OsError {
    /// Numeric error code.
    pub code: u32,
    /// The system's words for it.
    pub text: String,
}

/// Why the host library could not do what it was asked for.
#[derive(Debug)]
pub enum Error {
    /// No matching process runs in the caller's session.
    TargetNotFound(String),
    /// Several matching processes run in the caller's session.
    AmbiguousTarget(String),
    /// No payload answered in time.
    PayloadUnavailable(String),
    /// Injection was asked for, but there is no payload at this path.
    PayloadNotFound(Vec<u16>),
    /// The caller and the target use different architectures.
    ArchitectureMismatch,
    /// The payload rejected a message or answered with an incompatible one.
    Protocol(String),
    /// No safe recovery target could be proven.
    UnsupportedSteamBuild(String),
    /// An operating system call failed.
    Windows {
        /// What was attempted.
        operation: &'static str,
        /// What the system reported.
        source: OsError,
    },
    /// Some other condition was not met.
    Message(String),
}

impl Error {
    /// The error as a sentence for people.
    pub open spec fn text(self) -> Seq<char> {
        match self {
            Error::TargetNotFound(name) => "target process is not running: "@ + name@,
            Error::AmbiguousTarget(name) => "multiple "@ + name@
                + " processes run in this Windows session"@,
            Error::PayloadNotFound(path) => "payload not found: "@ + utf16_lossy(path@),
            Error::ArchitectureMismatch =>
                "the library and target process have different architectures"@,
            Error::PayloadUnavailable(message) => message@,
            Error::Protocol(message) => message@,
            Error::UnsupportedSteamBuild(message) => message@,
            Error::Message(message) => message@,
            Error::Windows { operation, source } => operation@ + ": "@ + source.text@,
        }
    }

    /// An error of an operating system call.
    pub fn windows(operation: &'static str, source: OsError) -> (error: Error)
        ensures
            error == (Error::Windows { operation, source }),
    {
        Error::Windows { operation, source }
    }

    /// The error as a sentence for people.
    pub fn message(&self) -> (text: String)
        ensures
            text@ == self.text(),
    {
        let mut text = String::new();
        match self {
            Error::TargetNotFound(name) => {
                text.append("target process is not running: ");
                text.append(name.as_str());
            },
            Error::AmbiguousTarget(name) => {
                text.append("multiple ");
                text.append(name.as_str());
                text.append(" processes run in this Windows session");
            },
            Error::PayloadNotFound(path) => {
                text.append("payload not found: ");
                let decoded = decode_wide(path);
                text.append(decoded.0.as_str());
            },
            Error::ArchitectureMismatch => {
                text.append("the library and target process have different architectures");
            },
            Error::PayloadUnavailable(message) => {
                text.append(message.as_str());
            },
            Error::Protocol(message) => {
                text.append(message.as_str());
            },
            Error::UnsupportedSteamBuild(message) => {
                text.append(message.as_str());
            },
            Error::Message(message) => {
                text.append(message.as_str());
            },
            Error::Windows { operation, source } => {
                text.append(operation);
                text.append(": ");
                text.append(source.text.as_str());
            },
        }
        assert(text@ =~= self.text());
        text
    }

    /// The system's error behind this one.
    pub fn source(&self) -> (source: Option<&OsError>)
        ensures
            match *self {
                Error::Windows { operation, source: inner } => source == Some(&inner),
                _ => source is None,
            },
    {
        match self {
            Error::Windows { source, .. } => Some(source),
            _ => None,
        }
    }
}

/// Why a pipe that another process serves is refused, in words.
pub open spec fn foreign_server_text(process_id: nat, server_id: nat) -> Seq<char> {
    "the payload pipe for process "@ + decimal(process_id) + " is served by process "@ + decimal(
        server_id,
    )
}

/// Refuses a pipe that another process serves.
pub fn foreign_server(process_id: u32, server_id: u32) -> (error: Error)
    ensures
        error is Protocol,
        error.text() == foreign_server_text(process_id as nat, server_id as nat),
{
    let mut text = String::new();
    text.append("the payload pipe for process ");
    push_decimal(&mut text, process_id as u64);
    text.append(" is served by process ");
    push_decimal(&mut text, server_id as u64);
    assert(text@ =~= foreign_server_text(process_id as nat, server_id as nat));
    Error::Protocol(text)
}

/// An owned copy of a text.
pub fn owned(text: &str) -> (copy: String)
    ensures
        copy@ == text@,
{
    let mut copy = String::new();
    copy.append(text);
    assert(copy@ =~= text@);
    copy
}

/// An error of a system call names what was attempted and ends with the system's words.
pub proof fn law_a_system_error_tells_both(operation: &'static str, source: OsError)
    ensures
        ({
            let text = (Error::Windows { operation, source }).text();
            &&& text.len() == operation@.len() + 2 + source.text@.len()
            &&& text.take(operation@.len() as int) == operation@
            &&& text.skip(operation@.len() + 2int) == source.text@
        }),
{
    reveal_strlit(": ");
    let text = (Error::Windows { operation, source }).text();
    assert(text.take(operation@.len() as int) =~= operation@);
    assert(text.skip(operation@.len() + 2int) =~= source.text@);
}

/// An error that came with words says just these.
pub proof fn law_given_words_are_said(words: String)
    ensures
        Error::PayloadUnavailable(words).text() == words@,
        Error::Protocol(words).text() == words@,
        Error::UnsupportedSteamBuild(words).text() == words@,
        Error::Message(words).text() == words@,
{
}

/// An error about a process or a file names it.
pub proof fn law_an_error_names_its_subject(name: String, path: Vec<u16>)
    ensures
        ({
            let missing = Error::TargetNotFound(name).text();
            let several = Error::AmbiguousTarget(name).text();
            let absent = Error::PayloadNotFound(path).text();
            &&& missing.skip(31) == name@ && missing.len() == 31 + name@.len()
            &&& several.subrange(9, 9int + name@.len()) == name@
            &&& absent.skip(19) == utf16_lossy(path@) && absent.len() == 19 + utf16_lossy(
                path@,
            ).len()
        }),
{
    reveal_strlit("target process is not running: ");
    reveal_strlit("multiple ");
    reveal_strlit(" processes run in this Windows session");
    reveal_strlit("payload not found: ");
    assert(Error::TargetNotFound(name).text().skip(31) =~= name@);
    assert(Error::AmbiguousTarget(name).text().subrange(9, 9int + name@.len()) =~= name@);
    assert(Error::PayloadNotFound(path).text().skip(19) =~= utf16_lossy(path@));
}

/// A pipe that another process serves is refused with both processes named, the expected
/// one first.
pub proof fn law_a_foreign_server_is_named(process_id: nat, server_id: nat)
    ensures
        ({
            let text = foreign_server_text(process_id, server_id);
            let end = 29int + decimal(process_id).len();
            &&& text.subrange(29, end) == decimal(process_id)
            &&& text.skip(end + 22) == decimal(server_id)
        }),
{
    reveal_strlit("the payload pipe for process ");
    reveal_strlit(" is served by process ");
    let text = foreign_server_text(process_id, server_id);
    let end = 29int + decimal(process_id).len();
    assert(text.subrange(29, end) =~= decimal(process_id));
    assert(text.skip(end + 22) =~= decimal(server_id));
}

} // verus!
