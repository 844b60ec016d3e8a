//! The failures that the library reports.

use vstd::prelude::*;

verus! {

/// Why an operation of the library refused its input.
#[derive(Clone, Copy, Debug, PartialEq, Eq, Structural)]
pub enum TaError {
    /// The timestamp text is not made of exactly six numeric fields.
    MalformedTimestamp,
    /// The input series is shorter than the indicator needs.
    InsufficientData { received: usize, required: usize },
    /// Two series that are indexed together differ in length.
    LengthMismatch { prices: usize, volumes: usize },
    /// The arithmetic has no defined result on this input.
    DegenerateComputation,
}

} // verus!
