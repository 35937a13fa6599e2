//! Failure taxonomy of the generation core. Each failure is surfaced to
//! the caller as a typed value, never a transport status; none is
//! retried inside the engine.

use vstd::prelude::*;
use vstd::string::StringExecFns;

verus! {

/// A failure of one generation call.
#[derive(Debug, PartialEq, Eq, Structural)]
pub enum GenError {
    /// The prompt text could not be tokenized (a word outside the
    /// vocabulary).
    Encoding,
    /// The output token sequence held an id outside the vocabulary: a
    /// backend/tokenizer mismatch, propagated as a bug.
    Decoding,
    /// The model backend saw inconsistent shapes (most commonly a stale
    /// cache); the generation is aborted with no partial output.
    ForwardPass,
}

impl GenError {
    /// A short description of the failure. Internal details are not part
    /// of the external message.
    pub fn message(&self) -> (r: String)
        ensures
            *self is Encoding ==> r@ == "encoding failed"@,
            *self is Decoding ==> r@ == "decoding failed"@,
            *self is ForwardPass ==> r@ == "forward pass failed"@,
    {
        match self {
            GenError::Encoding => String::from_str("encoding failed"),
            GenError::Decoding => String::from_str("decoding failed"),
            GenError::ForwardPass => String::from_str("forward pass failed"),
        }
    }
}

} // verus!
