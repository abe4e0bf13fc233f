//! The error type shared by the engine.

use vstd::prelude::*;

verus! {

/// Why an operation was refused.
#[derive(Debug, Clone)]
pub enum AppError {
    /// The caller handed in a value that the operation does not accept.
    InvalidInput(String),
    /// The thing asked for does not exist.
    NotFound(String),
}

impl AppError {
    /// The human-readable reason carried by the error.
    pub fn message(&self) -> (text: String)
        ensures
            text@ == self.reason(),
    {
        match self {
            AppError::InvalidInput(reason) => reason.clone(),
            AppError::NotFound(reason) => reason.clone(),
        }
    }

    /// The text of the reason, whichever the variant.
    pub open spec fn reason(&self) -> Seq<char> {
        match self {
            AppError::InvalidInput(reason) => reason@,
            AppError::NotFound(reason) => reason@,
        }
    }
}

} // verus!
