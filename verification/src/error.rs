//! Error kinds reported by the store.

use vstd::prelude::*;

verus! {

/// The reason an operation failed.
#[derive(Clone, Copy, Debug, PartialEq, Eq, Structural)]
pub enum ErrorKind {
    /// The database failed, or answered with an unexpected row count or schema state.
    Backend,
    /// The connection pool is exhausted, or the database reported lock contention.
    Busy,
    /// A unique constraint was violated by an insert or by the creation of a profile.
    Duplicate,
    /// A key could not be unwrapped, or a ciphertext could not be authenticated or decrypted.
    Encryption,
    /// The caller passed an invalid filter or left out a required value.
    Input,
    /// A required profile or entry does not exist.
    NotFound,
    /// Persisted data is malformed.
    Unexpected,
}

/// An error of the store, identified by its kind.
#[derive(Clone, Copy, Debug, PartialEq, Eq, Structural)]
pub struct Error {
    pub kind: ErrorKind,
}

impl Error {
    /// An error of the given kind.
    pub fn new(kind: ErrorKind) -> (e: Error)
        ensures
            e.kind == kind,
    {
        Error { kind }
    }

    /// The kind of this error.
    pub fn kind(&self) -> (k: ErrorKind)
        ensures
            k == self.kind,
    {
        self.kind
    }

    /// A short description of the error, fixed per kind.
    pub fn message(&self) -> (s: &'static str)
        ensures
            s@ == kind_message(self.kind),
    {
        match self.kind {
            ErrorKind::Backend => "Backend error",
            ErrorKind::Busy => "Busy",
            ErrorKind::Duplicate => "Duplicate",
            ErrorKind::Encryption => "Encryption error",
            ErrorKind::Input => "Input error",
            ErrorKind::NotFound => "Not found",
            ErrorKind::Unexpected => "Unexpected error",
        }
    }
}

/// The description that goes with each error kind.
pub open spec fn kind_message(kind: ErrorKind) -> Seq<char> {
    match kind {
        ErrorKind::Backend => "Backend error"@,
        ErrorKind::Busy => "Busy"@,
        ErrorKind::Duplicate => "Duplicate"@,
        ErrorKind::Encryption => "Encryption error"@,
        ErrorKind::Input => "Input error"@,
        ErrorKind::NotFound => "Not found"@,
        ErrorKind::Unexpected => "Unexpected error"@,
    }
}

} // verus!
