//! The error taxonomy of the store: every domain failure an operation can
//! report, plus the two fatal kinds that the persistence layer distinguishes.

use vstd::prelude::*;

verus! {

/// Why an operation on the store failed.
#[derive(Clone, Copy, Debug, PartialEq, Eq, Structural)]
pub enum TmError {
    /// A path or a name did not resolve to an existing task or project.
    NotFound,
    /// A project with the requested name already exists.
    AlreadyExists,
    /// The `"default"` project cannot be deleted.
    Protected,
    /// A move direction was neither a keyword nor a usable position.
    InvalidDirection,
    /// The data file matches neither the current nor the legacy layout.
    DataCorruption,
    /// The filesystem failed; reported by the caller that performs the I/O.
    IoFailure,
}

impl TmError {
    /// The human-readable reason paired with each failure kind.
    pub open spec fn describe_spec(self) -> Seq<char> {
        match self {
            TmError::NotFound => "not found"@,
            TmError::AlreadyExists => "already exists"@,
            TmError::Protected => "the default project cannot be deleted"@,
            TmError::InvalidDirection => "invalid move direction or position"@,
            TmError::DataCorruption => "invalid data format"@,
            TmError::IoFailure => "could not access the data file"@,
        }
    }

    pub fn describe(&self) -> (r: &'static str)
        ensures
            r@ == self.describe_spec(),
    {
        match self {
            TmError::NotFound => "not found",
            TmError::AlreadyExists => "already exists",
            TmError::Protected => "the default project cannot be deleted",
            TmError::InvalidDirection => "invalid move direction or position",
            TmError::DataCorruption => "invalid data format",
            TmError::IoFailure => "could not access the data file",
        }
    }
}

} // verus!
