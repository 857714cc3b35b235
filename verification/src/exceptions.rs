//! Error type of the library.
use vstd::prelude::*;
use vstd::string::StringExecFns;

verus! {

/// What can go wrong when composing counterpoint.
#[derive(Debug)]
pub enum CounterpointError {
    ConstraintViolation(String),
    InvalidInput(String),
    GenerationFailed(String),
}

impl CounterpointError {
    /// The text of the error as it is shown to a user.
    pub open spec fn spec_message(&self) -> Seq<char> {
        match self {
            CounterpointError::ConstraintViolation(s) => "constraint violation: "@ + s@,
            CounterpointError::InvalidInput(s) => "invalid input: "@ + s@,
            CounterpointError::GenerationFailed(s) => "generation failed: "@ + s@,
        }
    }

    /// The text of the error as it is shown to a user.
    pub fn message(&self) -> (r: String)
        ensures
            r@ == self.spec_message(),
    {
        match self {
            CounterpointError::ConstraintViolation(s) => String::from_str("constraint violation: ").concat(s.as_str()),
            CounterpointError::InvalidInput(s) => String::from_str("invalid input: ").concat(s.as_str()),
            CounterpointError::GenerationFailed(s) => String::from_str("generation failed: ").concat(s.as_str()),
        }
    }
}

} // verus!
