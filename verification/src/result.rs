//! The error type shared by every layer of the crate.

use vstd::prelude::*;
use vstd::std_specs::convert::FromSpecImpl;

verus! {

/// The ways in which reading, writing, framing or decoding can fail.
#[derive(Copy, Clone, PartialEq, Eq, Structural, Debug)]
pub enum SshErrorKind {
    /// The underlying byte source or byte sink reported an error.
    IoFailure,
    /// The byte source ended before a required length or delimiter was seen.
    UnexpectedEndOfStream,
    /// A framing rule of the protocol was broken.
    ProtocolViolation,
    /// A message began with a tag that names no known message.
    UnknownMessageTag,
    /// The value has no representation on the wire.
    UnsupportedOperation,
}

/// An error: its kind, and a description for people.
#[derive(Debug)]
pub struct SshError {
    pub kind: SshErrorKind,
    pub desc: String,
}

pub type SshResult<T> = Result<T, SshError>;

/// The kind of the error that `r` carries, if it carries one.
pub open spec fn kind_of<T>(r: SshResult<T>) -> Option<SshErrorKind> {
    match r {
        Ok(_) => None,
        Err(e) => Some(e.kind),
    }
}

impl SshError {
    /// Builds the failing result that carries `kind` and `desc`.
    pub fn new<T>(kind: SshErrorKind, desc: String) -> (r: SshResult<T>)
        ensures
            r == Err::<T, SshError>(SshError { kind, desc }),
    {
        Err(SshError { kind, desc })
    }

    /// A short name for the kind of the error.
    pub fn description(&self) -> (text: &'static str)
        ensures
            text@ == match self.kind {
                SshErrorKind::IoFailure => "i/o error"@,
                SshErrorKind::UnexpectedEndOfStream => "unexpected end of stream"@,
                SshErrorKind::ProtocolViolation => "protocol violation"@,
                SshErrorKind::UnknownMessageTag => "unknown message tag"@,
                SshErrorKind::UnsupportedOperation => "unsupported operation"@,
            },
    {
        match self.kind {
            SshErrorKind::IoFailure => "i/o error",
            SshErrorKind::UnexpectedEndOfStream => "unexpected end of stream",
            SshErrorKind::ProtocolViolation => "protocol violation",
            SshErrorKind::UnknownMessageTag => "unknown message tag",
            SshErrorKind::UnsupportedOperation => "unsupported operation",
        }
    }
}

/// The error type of `std::io`, `std::io::Error`. It is carried through as it
/// is: nothing is known of what a value of it holds.
#[verifier::external_type_specification]
#[verifier::external_body]
pub struct ExIoError(std::io::Error);

/// What `Display` of `std::io::Error` writes, put into a string by `format!`.
/// Nothing is claimed of the text.
#[verifier::external_body]
fn io_error_text(err: &std::io::Error) -> String {
    format!("{}", err)
}

impl SshError {
    /// The `IoFailure` whose description is `io error: ` followed by `text`.
    pub fn io_failure(text: &str) -> (e: SshError)
        ensures
            e.kind == SshErrorKind::IoFailure,
            e.desc@ == "io error: "@ + text@,
    {
        let desc = String::from_str("io error: ").concat(text);
        SshError { kind: SshErrorKind::IoFailure, desc }
    }
}

impl From<std::io::Error> for SshError {
    /// An error of the byte source or sink becomes an `IoFailure` whose
    /// description is `io error: ` followed by the error's own text.
    fn from(err: std::io::Error) -> (e: SshError)
        ensures
            e.kind == SshErrorKind::IoFailure,
            e.desc@.len() >= 10,
            e.desc@.subrange(0, 10) == "io error: "@,
    {
        let text = io_error_text(&err);
        let e = SshError::io_failure(text.as_str());
        proof {
            reveal_strlit("io error: ");
            assert(e.desc@.subrange(0, 10) =~= "io error: "@);
        }
        e
    }
}

/// The conversion is no function of anything that can be written down here:
/// the text behind the prefix depends on what the error holds, which is not
/// known.
impl FromSpecImpl<std::io::Error> for SshError {
    open spec fn obeys_from_spec() -> bool {
        false
    }

    open spec fn from_spec(err: std::io::Error) -> SshError {
        arbitrary()
    }
}

} // verus!
