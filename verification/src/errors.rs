//! The error kinds that the core operations report.

use vstd::prelude::*;
use vstd::string::StringExecFns;

verus! {

/// Why an operation failed.
///
/// - `InvalidPath`: the candidate path resolves outside the served root.
/// - `NotFound`: the file is missing, unreadable, or rejected on the serving
///   path (the HTTP layer collapses every serving failure to this kind).
/// - `IoFailure`: creating a directory or writing a file failed.
/// - `NotReady`: the root or port was queried before the server finished
///   binding; a zero or unset port is never handed out as a real port.
/// - `DialogCancelled`: the folder picker reported that nothing was selected.
#[derive(Clone, Copy, Debug, PartialEq, Eq, Structural)]
pub enum ErrorKind {
    InvalidPath,
    NotFound,
    IoFailure,
    NotReady,
    DialogCancelled,
}

impl ErrorKind {
    /// A user-visible message for this error kind.
    pub fn message(&self) -> (r: String)
        ensures
            *self == ErrorKind::InvalidPath ==> r@ == "Invalid path"@,
            *self == ErrorKind::NotFound ==> r@ == "Not found"@,
            *self == ErrorKind::IoFailure ==> r@ == "Error writing to file"@,
            *self == ErrorKind::NotReady ==> r@ == "Not ready"@,
            *self == ErrorKind::DialogCancelled ==> r@ == "No folder selected"@,
    {
        match self {
            ErrorKind::InvalidPath => String::from_str("Invalid path"),
            ErrorKind::NotFound => String::from_str("Not found"),
            ErrorKind::IoFailure => String::from_str("Error writing to file"),
            ErrorKind::NotReady => String::from_str("Not ready"),
            ErrorKind::DialogCancelled => String::from_str("No folder selected"),
        }
    }
}

} // verus!
