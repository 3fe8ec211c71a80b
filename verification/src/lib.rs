//! Greatest common divisor, least common multiple and Bézout coefficients of
//! arbitrary-precision integers, with machine-checked contracts.
//!
//! [`util`] holds the three functions. Their contracts are stated over the
//! mathematical functions of [`euclid`], which also proves the laws that hold
//! of them: Bézout's identity, the product law of greatest common divisor and
//! least common multiple, and a bound on the number of reduction steps.
//! [`bigint`] is the integer type; its arithmetic is that of the `num` crate.

pub mod arith;
pub mod bigint;
pub mod digits;
pub mod divisibility;
pub mod euclid;
mod num_ops;
pub mod util;
