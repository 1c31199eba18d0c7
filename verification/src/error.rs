//! The error kinds requests and transcodes can end with.

use vstd::prelude::*;

verus! {

/// Everything that can go wrong while serving: unresolvable ids, bad
/// requests, failures of the probe or encoder, and I/O reported by the
/// surrounding process.
#[derive(Debug)]
pub enum Error {
    NotFound(String),
    NotAFile(String),
    NotADirectory(String),
    Invalid(String),
    Unimplemented(String),
    Io,
    Utf8,
    Xml,
    ProbeFailed,
    EncoderSpawnFailed,
    EOFMismatch,
    ExecuteError,
}

/// The text of each error kind, its context appended where it carries one.
pub open spec fn spec_message(e: Error) -> Seq<char> {
    match e {
        Error::NotFound(m) => "not found: "@ + m@,
        Error::NotAFile(m) => "not a file: "@ + m@,
        Error::NotADirectory(m) => "not a directory: "@ + m@,
        Error::Invalid(m) => "invalid: "@ + m@,
        Error::Unimplemented(m) => "unimplemented: "@ + m@,
        Error::Io => "i/o error"@,
        Error::Utf8 => "invalid utf-8"@,
        Error::Xml => "xml error"@,
        Error::ProbeFailed => "probe failed"@,
        Error::EncoderSpawnFailed => "encoder spawn failed"@,
        Error::EOFMismatch => "read eof when expecting content"@,
        Error::ExecuteError => "execute error"@,
    }
}

impl Error {
    /// A short text for logs and plain-text error bodies.
    pub fn message(&self) -> (r: String)
        ensures
            r@ == spec_message(*self),
            r@.len() > 0,
    {
        let base = match self {
            Error::NotFound(m) => String::from_str("not found: ").concat(m.as_str()),
            Error::NotAFile(m) => String::from_str("not a file: ").concat(m.as_str()),
            Error::NotADirectory(m) => String::from_str("not a directory: ").concat(m.as_str()),
            Error::Invalid(m) => String::from_str("invalid: ").concat(m.as_str()),
            Error::Unimplemented(m) => String::from_str("unimplemented: ").concat(m.as_str()),
            Error::Io => String::from_str("i/o error"),
            Error::Utf8 => String::from_str("invalid utf-8"),
            Error::Xml => String::from_str("xml error"),
            Error::ProbeFailed => String::from_str("probe failed"),
            Error::EncoderSpawnFailed => String::from_str("encoder spawn failed"),
            Error::EOFMismatch => String::from_str("read eof when expecting content"),
            Error::ExecuteError => String::from_str("execute error"),
        };
        proof {
            reveal_strlit("not found: ");
            reveal_strlit("not a file: ");
            reveal_strlit("not a directory: ");
            reveal_strlit("invalid: ");
            reveal_strlit("unimplemented: ");
            reveal_strlit("i/o error");
            reveal_strlit("invalid utf-8");
            reveal_strlit("xml error");
            reveal_strlit("probe failed");
            reveal_strlit("encoder spawn failed");
            reveal_strlit("read eof when expecting content");
            reveal_strlit("execute error");
        }
        base
    }
}

} // verus!
