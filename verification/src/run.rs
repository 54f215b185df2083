//! Decisions of a merge run that come before any file is read.
use vstd::prelude::*;

verus! {

/// Why a run cannot start: a merge needs at least two input files.
#[derive(Debug, Clone, Copy, PartialEq, Eq, Structural)]
pub enum InputCountError {
    /// No input file was given.
    NoInputs,
    /// Only one input file was given.
    SingleInput,
}

impl InputCountError {
    /// The human-readable message of this error.
    pub fn message(&self) -> (r: String)
        ensures
            r@ == match self {
                InputCountError::NoInputs => "At least one input file is required"@,
                InputCountError::SingleInput => "At least two input files are required for merging"@,
            },
    {
        match self {
            InputCountError::NoInputs => String::from_str("At least one input file is required"),
            InputCountError::SingleInput => String::from_str(
                "At least two input files are required for merging",
            ),
        }
    }
}

/// Checks that there are enough input files for a merge.
pub fn check_input_count(count: usize) -> (r: Result<(), InputCountError>)
    ensures
        count == 0 ==> r == Err::<(), InputCountError>(InputCountError::NoInputs),
        count == 1 ==> r == Err::<(), InputCountError>(InputCountError::SingleInput),
        count >= 2 ==> r is Ok,
{
    if count == 0 {
        Err(InputCountError::NoInputs)
    } else if count < 2 {
        Err(InputCountError::SingleInput)
    } else {
        Ok(())
    }
}

} // verus!
