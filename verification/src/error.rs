//! Error kinds of the store and their stable numeric codes.

use vstd::prelude::*;

verus! {

/// The kinds of error the store reports.
#[derive(Clone, Copy, Debug, PartialEq, Eq, Structural)]
pub enum ErrorKind {
    /// Backend I/O, connectivity or query failure.
    Backend,
    /// A resource is currently in use.
    Busy,
    /// A uniqueness conflict on insert.
    Duplicate,
    /// An authenticated-encryption failure, wrong wrap key, or a
    /// malformed envelope.
    Encryption,
    /// Malformed arguments or an unsupported URI.
    Input,
    /// A missing row or handle.
    NotFound,
    /// An internal invariant was violated.
    Unexpected,
    /// An unsupported feature or algorithm.
    Unsupported,
    /// An error raised by an embedding application.
    Custom,
}

impl ErrorKind {
    /// The stable numeric code of this kind.
    pub fn code(&self) -> (r: u8)
        ensures
            r == self.spec_code(),
    {
        match self {
            ErrorKind::Backend => 1,
            ErrorKind::Busy => 2,
            ErrorKind::Duplicate => 3,
            ErrorKind::Encryption => 4,
            ErrorKind::Input => 5,
            ErrorKind::NotFound => 6,
            ErrorKind::Unexpected => 7,
            ErrorKind::Unsupported => 8,
            ErrorKind::Custom => 99,
        }
    }

    /// The numeric code of each kind; `0` is reserved for success.
    pub open spec fn spec_code(&self) -> u8 {
        match self {
            ErrorKind::Backend => 1,
            ErrorKind::Busy => 2,
            ErrorKind::Duplicate => 3,
            ErrorKind::Encryption => 4,
            ErrorKind::Input => 5,
            ErrorKind::NotFound => 6,
            ErrorKind::Unexpected => 7,
            ErrorKind::Unsupported => 8,
            ErrorKind::Custom => 99,
        }
    }
}

/// An error of the store: a kind together with a free-form message.
#[derive(Clone, Debug)]
pub struct Error {
    /// The kind of failure.
    pub kind: ErrorKind,
    /// A human-readable description.
    pub message: String,
}

impl Error {
    /// Build an error of the given kind.
    pub fn new(kind: ErrorKind, message: String) -> (r: Error)
        ensures
            r.kind == kind,
            r.message == message,
    {
        Error { kind, message }
    }

    /// The kind of this error.
    pub fn kind(&self) -> (r: ErrorKind)
        ensures
            r == self.kind,
    {
        self.kind
    }

    /// The stable numeric code of this error.
    pub fn code(&self) -> (r: u8)
        ensures
            r == self.kind.spec_code(),
    {
        self.kind.code()
    }
}

} // verus!
