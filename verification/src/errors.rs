//! The failure categories of the note store and of the file-browser
//! operations, as a tagged enumeration so that callers can branch
//! programmatically; `message` gives a human-readable rendering.

use vstd::prelude::*;

verus! {

/// Why an operation failed.
#[derive(Clone, Copy, Debug, PartialEq, Eq, Structural)]
pub enum NoteError {
    /// The target path or note does not exist.
    NotFound,
    /// The operating system denied the operation.
    PermissionDenied,
    /// A required directory (downloads, application data) cannot be determined.
    Unavailable,
    /// The request itself is malformed (for instance a note filename without
    /// a timestamp prefix).
    InvalidInput,
    /// Any other failure of the underlying system call.
    IoFailure,
}

impl NoteError {
    /// A fixed human-readable description, for display in a front end.
    pub fn message(&self) -> (r: &'static str)
        ensures
            *self == NoteError::NotFound ==> r@ == "Not found"@,
            *self == NoteError::PermissionDenied ==> r@ == "Permission denied"@,
            *self == NoteError::Unavailable ==> r@ == "Unavailable"@,
            *self == NoteError::InvalidInput ==> r@ == "Invalid input"@,
            *self == NoteError::IoFailure ==> r@ == "Operation failed"@,
    {
        match self {
            NoteError::NotFound => "Not found",
            NoteError::PermissionDenied => "Permission denied",
            NoteError::Unavailable => "Unavailable",
            NoteError::InvalidInput => "Invalid input",
            NoteError::IoFailure => "Operation failed",
        }
    }
}

} // verus!
