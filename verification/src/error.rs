//! The failures of the container functions.

use crate::otpauth::ParseError;
use vstd::prelude::*;

verus! {

/// What went wrong, as far as a caller needs it to decide what to do next.
#[derive(Debug, Clone, Copy, PartialEq, Eq)]
pub enum ErrorKind {
    /// No file, no entry or no record of that name.
    NotFound,
    /// The file system refused, or a read failed.
    PermissionOrIoFailure,
    /// The entry is encrypted and no password was given.
    PasswordRequired,
    /// The password does not open the entry or the database.
    InvalidPassword,
    /// The container is damaged or of a kind that cannot be read.
    CorruptContainer,
    /// No code was detected in the image, or the first one could not be decoded.
    NoPayload,
    /// The payload of the code is no `otpauth` address.
    InvalidPayload(ParseError),
}

/// A failure of a container function.
#[derive(Debug, Clone, Copy, PartialEq, Eq)]
pub struct Error {
    pub kind: ErrorKind,
}

impl Error {
    /// The failure of the given kind.
    pub fn new(kind: ErrorKind) -> (error: Error)
        ensures
            error.kind == kind,
    {
        Error { kind }
    }
}

} // verus!
