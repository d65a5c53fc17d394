//! The error taxonomy shared by every component.

use vstd::prelude::*;

verus! {

/// What can go wrong in the storage and lifecycle engine.
#[derive(Clone, Copy, Debug, PartialEq, Eq, Structural)]
pub enum Error {
    /// The persisted store could not be opened: it is unusable or corrupt.
    Initialization,
    /// A read or a write of the store failed after initialization.
    Storage,
    /// A malformed argument, such as an empty ping name or document id.
    InvalidArgument,
}

impl Error {
    /// A short description for the host to log or show.
    pub fn message(&self) -> (text: &'static str)
        ensures
            text@ == match *self {
                Error::Initialization => "the store could not be initialized"@,
                Error::Storage => "a store operation failed"@,
                Error::InvalidArgument => "an argument is malformed"@,
            },
    {
        match self {
            Error::Initialization => "the store could not be initialized",
            Error::Storage => "a store operation failed",
            Error::InvalidArgument => "an argument is malformed",
        }
    }
}

} // verus!
