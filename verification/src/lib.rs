//! Approximate-equality comparisons (absolute difference and units in the
//! last place) for small linear-algebra value types: 2, 3 and 4 component
//! vectors and a 4x4 column-major matrix.
//!
//! Scalar components are IEEE 754 binary32 values, carried here as their
//! 32-bit patterns so that every comparison is exact integer arithmetic.

pub mod scalar;
pub mod types;
