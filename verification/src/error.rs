//! Error kinds surfaced by the storage engine and its command types.

use vstd::prelude::*;

verus! {

/// Every failure the engine classifies. Structural and I/O failures are
/// returned to the caller as typed results and never retried internally.
#[derive(Clone, Copy, Debug, PartialEq, Eq, Structural)]
pub enum Error {
    /// Unknown stream, topic, partition or consumer scope.
    NotFound,
    /// A structural create found the identifier or name already taken.
    AlreadyExists,
    /// A read or offset store referred to offsets the partition does not hold.
    OffsetOutOfRange,
    /// I/O failure while appending or persisting.
    WriteFailed,
    /// I/O failure while reading a segment.
    ReadFailed,
    /// The caller's session has not authenticated.
    Unauthenticated,
    /// The authorization gate refused the caller.
    Unauthorized,
    /// Recovery found an inconsistent segment or index.
    CorruptState,
    /// The startup layout could not be created on disk.
    CannotCreateDirectory,
    /// A command could not be parsed from its textual or binary form.
    InvalidCommand,
    /// An identifier had an invalid kind, length or value.
    InvalidIdentifier,
}

impl Error {
    /// A short human-readable label for the error, for transports to map.
    pub fn as_str(&self) -> (r: &'static str)
        ensures
            (*self is NotFound) ==> r@ == "not found"@,
            (*self is AlreadyExists) ==> r@ == "already exists"@,
            (*self is OffsetOutOfRange) ==> r@ == "offset out of range"@,
            (*self is WriteFailed) ==> r@ == "write failed"@,
            (*self is ReadFailed) ==> r@ == "read failed"@,
            (*self is Unauthenticated) ==> r@ == "unauthenticated"@,
            (*self is Unauthorized) ==> r@ == "unauthorized"@,
            (*self is CorruptState) ==> r@ == "corrupt state"@,
            (*self is CannotCreateDirectory) ==> r@ == "cannot create directory"@,
            (*self is InvalidCommand) ==> r@ == "invalid command"@,
            (*self is InvalidIdentifier) ==> r@ == "invalid identifier"@,
    {
        match self {
            Error::NotFound => "not found",
            Error::AlreadyExists => "already exists",
            Error::OffsetOutOfRange => "offset out of range",
            Error::WriteFailed => "write failed",
            Error::ReadFailed => "read failed",
            Error::Unauthenticated => "unauthenticated",
            Error::Unauthorized => "unauthorized",
            Error::CorruptState => "corrupt state",
            Error::CannotCreateDirectory => "cannot create directory",
            Error::InvalidCommand => "invalid command",
            Error::InvalidIdentifier => "invalid identifier",
        }
    }
}

} // verus!
