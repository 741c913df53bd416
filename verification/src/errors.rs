//! The error reported when a field fails validation.
use vstd::prelude::*;

verus! {

/// A failed validation rule: a short machine-readable `code` naming the
/// field kind and a human-readable `message`.
#[derive(Debug, PartialEq, Eq)]
pub struct FieldError {
    pub code: String,
    pub message: String,
}

impl FieldError {
    /// Builds an error from its code and message.
    pub fn new(code: &str, message: &str) -> (e: FieldError)
        ensures
            e.code@ == code@,
            e.message@ == message@,
    {
        FieldError { code: code.to_owned(), message: message.to_owned() }
    }
}

} // verus!
