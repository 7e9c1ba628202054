//! Arithmetic over the prime field of order 2^255 - 19, over the ring of
//! scalars modulo the group order of the twisted Edwards curve built on it,
//! and group operations, a 32-byte point codec and batched scalar
//! multiplication on that curve.

pub mod limbs;
pub mod serial;
pub mod error;
pub mod bytes;
pub mod field;
pub mod scalar;
pub mod edwards;
pub mod compressed;
pub mod multiscalar;
pub mod laws;
pub mod instruction;
