//! What the engine reports when an operand cannot be used.

use vstd::prelude::*;

verus! {

/// The ways an operation can refuse its operands.
#[derive(Clone, Copy, Debug, PartialEq, Eq, Structural)]
pub enum EcError {
    /// A byte encoding stands for an integer at or above its modulus.
    NonCanonicalEncoding,
    /// A well-formed 32-byte encoding names no point of the curve.
    PointDecompressionFailure,
    /// Zero has no multiplicative inverse.
    UndefinedInverse,
    /// Batched multiplication got unequal numbers of scalars and points.
    LengthMismatch,
}

} // verus!
