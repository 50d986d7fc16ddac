//! Errors of the grid algorithms.
use vstd::prelude::*;

verus! {

/// Why a flood fill could not run.
#[derive(PartialEq, Eq, Structural, Copy, Clone, Debug)]
pub enum FFError {
    /// The seed is no index of the array.
    InvalidSeed,
}

impl FFError {
    /// A description of the error.
    pub fn message(&self) -> (m: &'static str)
        ensures
            m@ == "provided seed is out of bounds of the provided array"@,
    {
        match self {
            FFError::InvalidSeed => "provided seed is out of bounds of the provided array",
        }
    }
}

} // verus!
