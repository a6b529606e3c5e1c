//! Single-precision numbers as bit patterns.
//!
//! The library never does arithmetic on numbers: every sum, product, quotient
//! and root is computed by the caller. What the library does is *decide*: it
//! orders numbers, takes minima and maxima, flips signs and compares against
//! thresholds. All of that is exact on the IEEE 754 binary32 encoding and needs
//! nothing but integer logic on the 32 bits, which is what this module holds.

use vstd::prelude::*;

verus! {

/// The sign bit of the encoding.
pub const SIGN_BIT: u32 = 0x8000_0000;

/// The encoding of positive infinity; every larger magnitude encodes a NaN.
pub const INFINITY_BITS: u32 = 0x7f80_0000;

/// The encoding of `0.0`.
pub const ZERO_BITS: u32 = 0x0000_0000;

/// The encoding of `1.0`.
pub const ONE_BITS: u32 = 0x3f80_0000;

/// The encoding of the shared tolerance `1e-3`.
pub const EPS_BITS: u32 = 0x3a83_126f;

/// The encoding of `1.0 - 1e-3`, the upper edge of the open unit interval
/// shrunk by the tolerance.
pub const ONE_MINUS_EPS_BITS: u32 = 0x3f7f_be77;

/// The encoding of `1e9`, the distance beyond which nothing is looked for.
pub const FAR_BITS: u32 = 0x4e6e_6b28;

/// The encoding of `-1e9`.
pub const NEG_FAR_BITS: u32 = 0xce6e_6b28;

/// A single-precision number, held as its IEEE 754 bit pattern.
///
/// The derived `==` is identity of bit patterns: it tells `0.0` from `-0.0`
/// and finds a NaN equal to itself. Numeric comparison is [`Scalar::lt`],
/// [`Scalar::le`] and [`Scalar::same`].
#[derive(Clone, Copy, Debug, PartialEq, Eq, Structural)]
pub struct Scalar {
    pub bits: u32,
}

impl Scalar {
    /// The encoding with the sign bit cleared.
    pub open spec fn magnitude(self) -> int {
        if self.bits >= SIGN_BIT {
            self.bits - SIGN_BIT
        } else {
            self.bits as int
        }
    }

    /// Whether the sign bit is set.
    pub open spec fn sign(self) -> bool {
        self.bits >= SIGN_BIT
    }

    /// Whether the pattern encodes a NaN.
    pub open spec fn spec_is_nan(self) -> bool {
        self.magnitude() > INFINITY_BITS
    }

    /// An integer that orders the numbers as their values do.
    ///
    /// For two patterns that are not NaN, the one with the smaller rank
    /// encodes the smaller number, and equal ranks encode equal numbers
    /// (both zeros have rank 0).
    pub open spec fn rank(self) -> int {
        if self.sign() {
            -self.magnitude()
        } else {
            self.magnitude()
        }
    }

    pub open spec fn spec_from_bits(bits: u32) -> Scalar {
        Scalar { bits }
    }

    /// `self < rhs`; false when either is a NaN.
    pub open spec fn spec_lt(self, rhs: Scalar) -> bool {
        !self.spec_is_nan() && !rhs.spec_is_nan() && self.rank() < rhs.rank()
    }

    /// `self <= rhs`; false when either is a NaN.
    pub open spec fn spec_le(self, rhs: Scalar) -> bool {
        !self.spec_is_nan() && !rhs.spec_is_nan() && self.rank() <= rhs.rank()
    }

    /// `self > rhs`; false when either is a NaN.
    pub open spec fn spec_gt(self, rhs: Scalar) -> bool {
        rhs.spec_lt(self)
    }

    /// `self >= rhs`; false when either is a NaN.
    pub open spec fn spec_ge(self, rhs: Scalar) -> bool {
        rhs.spec_le(self)
    }

    /// `self == rhs` as numbers; false when either is a NaN.
    pub open spec fn spec_same(self, rhs: Scalar) -> bool {
        !self.spec_is_nan() && !rhs.spec_is_nan() && self.rank() == rhs.rank()
    }

    /// The smaller of the two; a NaN gives way to the other argument, and of
    /// two equal numbers the first is kept.
    pub open spec fn spec_min(self, rhs: Scalar) -> Scalar {
        if self.spec_is_nan() {
            rhs
        } else if rhs.spec_lt(self) {
            rhs
        } else {
            self
        }
    }

    /// The larger of the two; a NaN gives way to the other argument, and of
    /// two equal numbers the first is kept.
    pub open spec fn spec_max(self, rhs: Scalar) -> Scalar {
        if self.spec_is_nan() {
            rhs
        } else if self.spec_lt(rhs) {
            rhs
        } else {
            self
        }
    }

    /// The pattern with the sign bit cleared.
    pub open spec fn spec_abs(self) -> Scalar {
        Scalar { bits: self.magnitude() as u32 }
    }

    /// The pattern with the sign bit flipped.
    pub open spec fn spec_neg(self) -> Scalar {
        if self.sign() {
            Scalar { bits: (self.bits - SIGN_BIT) as u32 }
        } else {
            Scalar { bits: (self.bits + SIGN_BIT) as u32 }
        }
    }

    /// The number with the given encoding.
    #[verifier::when_used_as_spec(spec_from_bits)]
    pub fn from_bits(bits: u32) -> (r: Scalar)
        ensures
            r == Scalar::spec_from_bits(bits),
    {
        Scalar { bits }
    }

    /// The encoding of the number.
    pub fn to_bits(self) -> (bits: u32)
        ensures
            bits == self.bits,
    {
        self.bits
    }

    fn magnitude_bits(self) -> (m: u32)
        ensures
            m == self.magnitude(),
    {
        if self.bits >= SIGN_BIT {
            self.bits - SIGN_BIT
        } else {
            self.bits
        }
    }

    /// Whether the number is a NaN.
    #[verifier::when_used_as_spec(spec_is_nan)]
    pub fn is_nan(self) -> (b: bool)
        ensures
            b == self.spec_is_nan(),
    {
        self.magnitude_bits() > INFINITY_BITS
    }

    /// Whether the sign bit is set: true of the negative numbers and of
    /// `-0.0`.
    pub fn is_sign_negative(self) -> (b: bool)
        ensures
            b == self.sign(),
    {
        self.bits >= SIGN_BIT
    }

    /// The rank as a machine integer: the key by which numbers are sorted.
    pub fn key(self) -> (k: i64)
        ensures
            k == self.rank(),
    {
        let m: i64 = self.magnitude_bits() as i64;
        if self.bits >= SIGN_BIT {
            -m
        } else {
            m
        }
    }

    /// `self < rhs`.
    #[verifier::when_used_as_spec(spec_lt)]
    pub fn lt(self, rhs: Scalar) -> (b: bool)
        ensures
            b == self.spec_lt(rhs),
    {
        !self.is_nan() && !rhs.is_nan() && self.key() < rhs.key()
    }

    /// `self <= rhs`.
    #[verifier::when_used_as_spec(spec_le)]
    pub fn le(self, rhs: Scalar) -> (b: bool)
        ensures
            b == self.spec_le(rhs),
    {
        !self.is_nan() && !rhs.is_nan() && self.key() <= rhs.key()
    }

    /// `self > rhs`.
    #[verifier::when_used_as_spec(spec_gt)]
    pub fn gt(self, rhs: Scalar) -> (b: bool)
        ensures
            b == self.spec_gt(rhs),
    {
        rhs.lt(self)
    }

    /// `self >= rhs`.
    #[verifier::when_used_as_spec(spec_ge)]
    pub fn ge(self, rhs: Scalar) -> (b: bool)
        ensures
            b == self.spec_ge(rhs),
    {
        rhs.le(self)
    }

    /// `self == rhs` as numbers.
    #[verifier::when_used_as_spec(spec_same)]
    pub fn same(self, rhs: Scalar) -> (b: bool)
        ensures
            b == self.spec_same(rhs),
    {
        !self.is_nan() && !rhs.is_nan() && self.key() == rhs.key()
    }

    /// The smaller of the two numbers.
    #[verifier::when_used_as_spec(spec_min)]
    pub fn min(self, rhs: Scalar) -> (m: Scalar)
        ensures
            m == self.spec_min(rhs),
    {
        if self.is_nan() {
            rhs
        } else if rhs.lt(self) {
            rhs
        } else {
            self
        }
    }

    /// The larger of the two numbers.
    #[verifier::when_used_as_spec(spec_max)]
    pub fn max(self, rhs: Scalar) -> (m: Scalar)
        ensures
            m == self.spec_max(rhs),
    {
        if self.is_nan() {
            rhs
        } else if self.lt(rhs) {
            rhs
        } else {
            self
        }
    }

    /// The absolute value: the same pattern without its sign.
    #[verifier::when_used_as_spec(spec_abs)]
    pub fn abs(self) -> (a: Scalar)
        ensures
            a == self.spec_abs(),
    {
        Scalar { bits: self.magnitude_bits() }
    }

    /// The negation: the same pattern with its sign flipped.
    #[verifier::when_used_as_spec(spec_neg)]
    pub fn neg(self) -> (n: Scalar)
        ensures
            n == self.spec_neg(),
    {
        if self.bits >= SIGN_BIT {
            Scalar { bits: self.bits - SIGN_BIT }
        } else {
            Scalar { bits: self.bits + SIGN_BIT }
        }
    }
}

/// Numbers that are not NaN are totally ordered by `le`: any two compare, and
/// the order is reflexive, antisymmetric up to the sign of zero, and
/// transitive.
pub proof fn order_is_total(a: Scalar, b: Scalar, c: Scalar)
    requires
        !a.is_nan(),
        !b.is_nan(),
        !c.is_nan(),
    ensures
        a.le(a),
        a.le(b) || b.le(a),
        a.le(b) && b.le(a) ==> a.same(b),
        a.le(b) && b.le(c) ==> a.le(c),
        a.lt(b) <==> !b.le(a),
{
}

/// Negation reverses the order and is its own inverse; the absolute value is
/// never below zero and is the number itself or its negation.
pub proof fn negation_mirrors(a: Scalar, b: Scalar)
    ensures
        a.neg().neg() == a,
        a.neg().is_nan() == a.is_nan(),
        a.lt(b) <==> b.neg().lt(a.neg()),
        a.abs() == a || a.abs() == a.neg(),
        !a.is_nan() ==> Scalar::from_bits(ZERO_BITS).le(a.abs()),
{
}

/// `min` and `max` return one of their arguments, the result bounds both
/// arguments whenever neither is a NaN, and a NaN comes out only when both
/// arguments are NaN.
pub proof fn min_max_bound(a: Scalar, b: Scalar)
    ensures
        a.min(b) == a || a.min(b) == b,
        a.max(b) == a || a.max(b) == b,
        !a.is_nan() && !b.is_nan() ==> a.min(b).le(a) && a.min(b).le(b),
        !a.is_nan() && !b.is_nan() ==> a.le(a.max(b)) && b.le(a.max(b)),
        a.min(b).is_nan() <==> a.is_nan() && b.is_nan(),
        a.max(b).is_nan() <==> a.is_nan() && b.is_nan(),
{
}

} // verus!
