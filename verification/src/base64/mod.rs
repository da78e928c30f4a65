//! Base64 in the alphabet of the export strings: the digits, the small letters,
//! the capital letters, `(` and `)`, without padding.

pub mod byte_map;
pub mod decode;
pub mod encode;
pub mod model;

use vstd::prelude::*;

verus! {

/// The ways in which the codec can walk over its input. They differ in speed
/// alone: each gives the same output for the same input.
#[derive(Clone, Copy, Debug, PartialEq, Eq, Structural)]
pub enum Kernel {
    /// One group of symbols to a step, by table lookups.
    Scalar,
    /// Sixteen symbols to a step, the width of a 128-bit register.
    Lanes16,
    /// Thirty-two symbols to a step, the width of a 256-bit register.
    Lanes32,
}

} // verus!
