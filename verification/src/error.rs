//! The failures a session can meet.

use vstd::prelude::*;

verus! {

/// Why a call or a whole session failed.
#[derive(Clone, Copy, Debug, PartialEq, Eq, Structural)]
pub enum SessionError {
    /// The service could not be reached, or the transfer broke.
    FetchFailure,
    /// The service answered with something that is not the expected shape.
    DecodeFailure,
    /// The service answered in the expected shape, but a part that must be
    /// present was empty.
    InvariantViolation,
    /// A selection named a position that the visible list does not have.
    SelectionOutOfRange,
}

impl SessionError {
    /// A one-line message for the user.
    pub fn describe(&self) -> (message: String)
        ensures
            message@ == match *self {
                SessionError::FetchFailure => "cannot fetch from the service"@,
                SessionError::DecodeFailure => "cannot decode the answer of the service"@,
                SessionError::InvariantViolation => "threads must be present"@,
                SessionError::SelectionOutOfRange => "selection out of range"@,
            },
    {
        match self {
            SessionError::FetchFailure => "cannot fetch from the service".to_owned(),
            SessionError::DecodeFailure => "cannot decode the answer of the service".to_owned(),
            SessionError::InvariantViolation => "threads must be present".to_owned(),
            SessionError::SelectionOutOfRange => "selection out of range".to_owned(),
        }
    }
}

} // verus!
