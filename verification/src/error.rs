//! The ways in which an operation of the simulator rejects its input.

use vstd::prelude::*;

verus! {

/// Why an operation was refused.  None of these is recoverable: the caller
/// handed in something that the operation has no answer for.
#[derive(Debug, Clone, Copy, PartialEq, Eq, Structural)]
pub enum SimError {
    /// The rows of a matrix have unequal lengths, or there is no row or no
    /// column.
    InvalidShape,
    /// The left matrix of a product has another number of columns than the
    /// right one has rows.
    DimensionMismatch,
    /// The squared amplitudes of a state vector do not sum to 1 within the
    /// tolerance, or its length is not a power of two.
    InvalidState,
    /// A qubit index lies outside the range that the operation accepts.
    IndexOutOfRange,
}

impl SimError {
    /// A short sentence that says what was wrong.
    pub fn message(&self) -> (s: &'static str)
        ensures
            s@ == match *self {
                SimError::InvalidShape => "invalid matrix: all rows must have the same, nonzero length"@,
                SimError::DimensionMismatch => "the number of columns of the left matrix must match the number of rows of the right one"@,
                SimError::InvalidState => "invalid state vector: the squared amplitudes must sum to 1 and the length must be a power of two"@,
                SimError::IndexOutOfRange => "qubit index out of range"@,
            },
    {
        match self {
            SimError::InvalidShape => "invalid matrix: all rows must have the same, nonzero length",
            SimError::DimensionMismatch => "the number of columns of the left matrix must match the number of rows of the right one",
            SimError::InvalidState => "invalid state vector: the squared amplitudes must sum to 1 and the length must be a power of two",
            SimError::IndexOutOfRange => "qubit index out of range",
        }
    }
}

} // verus!
