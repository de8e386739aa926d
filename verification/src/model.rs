//! Failures of the statistics kernels and the rules that turn their inputs
//! and status codes into results.

use vstd::prelude::*;
use vstd::string::*;

verus! {

/// Why a statistics kernel produced no result.
#[derive(Debug, PartialEq, Eq, Structural)]
pub enum ModelError {
    ModelErrorFail,
    ModelErrorInvalidInput,
}

/// The human-readable text of a model error.
pub open spec fn model_error_text(e: ModelError) -> Seq<char> {
    match e {
        ModelError::ModelErrorFail => "Model execution failed"@,
        ModelError::ModelErrorInvalidInput => "Invalid input data"@,
    }
}

impl ModelError {
    /// The human-readable text of the error.
    pub fn to_string(&self) -> (s: String)
        ensures
            s@ == model_error_text(*self),
    {
        match self {
            ModelError::ModelErrorFail => String::from_str("Model execution failed"),
            ModelError::ModelErrorInvalidInput => String::from_str("Invalid input data"),
        }
    }
}

/// A kernel runs only on a non-empty series.
pub fn check_input(len: usize) -> (r: Result<(), ModelError>)
    ensures
        r is Ok <==> len > 0,
        r is Err ==> r == Err::<(), ModelError>(ModelError::ModelErrorInvalidInput),
{
    if len == 0 {
        Err(ModelError::ModelErrorInvalidInput)
    } else {
        Ok(())
    }
}

/// A kernel reports success with status code 0 and failure with any other.
pub fn check_status(code: i32) -> (r: Result<(), ModelError>)
    ensures
        r is Ok <==> code == 0,
        r is Err ==> r == Err::<(), ModelError>(ModelError::ModelErrorFail),
{
    if code != 0 {
        Err(ModelError::ModelErrorFail)
    } else {
        Ok(())
    }
}

} // verus!
