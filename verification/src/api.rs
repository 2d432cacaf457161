//! Errors handed to the user interface.

use vstd::prelude::*;

verus! {

/// An error with a stable machine-readable code and a readable message.
#[derive(Clone, Debug, PartialEq, Eq)]
pub struct ApiError {
    pub code: &'static str,
    pub message: String,
}

impl ApiError {
    /// Wraps the message of a failed operation under the generic
    /// `operation_failed` code.
    pub fn from_error(message: String) -> (e: Self)
        ensures
            e.code@ == "operation_failed"@,
            e.message@ == message@,
    {
        ApiError { code: "operation_failed", message }
    }

    /// An error with the given code and message.
    pub fn new(code: &'static str, message: String) -> (e: Self)
        ensures
            e.code@ == code@,
            e.message@ == message@,
    {
        ApiError { code, message }
    }
}

} // verus!
