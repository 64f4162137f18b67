//! The kinds of failure that the library reports.

use vstd::prelude::*;

verus! {

/// What kind of failure an error is, for whoever reports it further.
#[derive(Debug, Clone, Copy, PartialEq, Eq)]
pub enum ErrorKind {
    /// Something that was looked for is not there.
    NotFound,
    /// Something that was read does not have the form it should have.
    InvalidData,
    /// Something that was to be made is there already.
    AlreadyExists,
    /// The operating system did not allow it.
    PermissionDenied,
}

} // verus!
