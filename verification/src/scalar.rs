//! Plain values that stand for real numbers, points and ranges.
use vstd::prelude::*;

verus! {

/// A real number, carried as its IEEE 754 binary64 bit pattern.
#[derive(Clone, Copy, PartialEq, Eq, Debug, Hash, Structural)]
pub struct Scalar {
    pub bits: u64,
}

/// A position in the plane.
#[derive(Clone, Copy, PartialEq, Eq, Debug, Hash, Structural)]
pub struct Point {
    pub x: Scalar,
    pub y: Scalar,
}

/// A closed range of reals.
#[derive(Clone, Copy, PartialEq, Eq, Debug, Hash, Structural)]
pub struct Interval {
    pub min: Scalar,
    pub max: Scalar,
}

/// The four parameters of a recurrence, in their order.
#[derive(Clone, Copy, PartialEq, Eq, Debug, Hash, Structural)]
pub struct Parameters {
    pub a: Scalar,
    pub b: Scalar,
    pub c: Scalar,
    pub d: Scalar,
}

/// Bit pattern of `0.0`.
pub const ZERO_BITS: u64 = 0;

/// Bit pattern of `2.0`.
pub const TWO_BITS: u64 = 0x4000_0000_0000_0000;

/// Bit pattern of `-2.0`.
pub const NEGATIVE_TWO_BITS: u64 = 0xC000_0000_0000_0000;

impl Scalar {
    /// The scalar whose bit pattern is `bits`.
    pub fn from_bits(bits: u64) -> (s: Scalar)
        ensures
            s.bits == bits,
    {
        Scalar { bits }
    }

    /// The bit pattern of this scalar.
    pub fn to_bits(self) -> (bits: u64)
        ensures
            bits == self.bits,
    {
        self.bits
    }
}

impl Point {
    /// The origin `(0.0, 0.0)`, where every orbit starts.
    pub open spec fn spec_origin() -> Point {
        Point { x: Scalar { bits: ZERO_BITS }, y: Scalar { bits: ZERO_BITS } }
    }

    /// The origin `(0.0, 0.0)`.
    #[verifier::when_used_as_spec(spec_origin)]
    pub fn origin() -> (p: Point)
        ensures
            p == Point::spec_origin(),
    {
        Point { x: Scalar { bits: ZERO_BITS }, y: Scalar { bits: ZERO_BITS } }
    }
}

} // verus!
