//! The ways in which an operation of this crate can be refused.

use vstd::prelude::*;

verus! {

/// Why an operation was refused. Every refusal is final: repeating the call
/// with the same arguments is refused again.
#[derive(Clone, Copy, Debug, PartialEq, Eq, Structural)]
pub enum Error {
    /// A population without members was given where one member is needed.
    EmptyPopulation,
    /// Two gene sequences that must have the same length do not.
    LengthMismatch,
    /// A parameter lies outside the values it may take.
    InvalidParameter,
}

} // verus!
