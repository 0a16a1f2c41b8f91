//! Arbitrary-precision unsigned integers stored as little-endian sequences of
//! 64-bit digits, kept in canonical form (no trailing zero digit).

pub mod bigint;
pub mod digits;
pub mod laws;

pub use bigint::BigInt;
