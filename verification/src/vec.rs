//! Small vectors of numbers: plain values that are moved, indexed and
//! compared component by component.

use vstd::prelude::*;
use crate::scalar::Scalar;
use crate::scalar::ONE_BITS;
use crate::scalar::ZERO_BITS;

verus! {

/// A pair of numbers: a texture coordinate.
#[derive(Clone, Copy, Debug, PartialEq, Eq, Structural)]
pub struct Vec2(pub Scalar, pub Scalar);

/// A triple of numbers: a point, a direction or a colour.
#[derive(Clone, Copy, Debug, PartialEq, Eq, Structural)]
pub struct Vec3(pub Scalar, pub Scalar, pub Scalar);

/// A homogeneous point or direction.
#[derive(Clone, Copy, Debug, PartialEq, Eq, Structural)]
pub struct Vec4(pub Scalar, pub Scalar, pub Scalar, pub Scalar);

impl Vec2 {
    pub open spec fn spec_zero() -> Vec2 {
        Vec2(Scalar::from_bits(ZERO_BITS), Scalar::from_bits(ZERO_BITS))
    }

    /// The origin.
    #[verifier::when_used_as_spec(spec_zero)]
    pub fn zero() -> (r: Vec2)
        ensures
            r == Vec2::spec_zero(),
    {
        Vec2(Scalar::from_bits(ZERO_BITS), Scalar::from_bits(ZERO_BITS))
    }
}

impl Vec3 {
    pub open spec fn spec_zero() -> Vec3 {
        Vec3(
            Scalar::from_bits(ZERO_BITS),
            Scalar::from_bits(ZERO_BITS),
            Scalar::from_bits(ZERO_BITS),
        )
    }

    /// The same number on all three axes.
    pub open spec fn spec_splat(s: Scalar) -> Vec3 {
        Vec3(s, s, s)
    }

    /// The component on axis 0, 1 or 2 (on any other axis, that on axis 2).
    pub open spec fn spec_get(self, axis: int) -> Scalar {
        if axis == 0 {
            self.0
        } else if axis == 1 {
            self.1
        } else {
            self.2
        }
    }

    /// Whether any component is a NaN.
    pub open spec fn spec_has_nan(self) -> bool {
        self.0.is_nan() || self.1.is_nan() || self.2.is_nan()
    }

    pub open spec fn spec_min(self, rhs: Vec3) -> Vec3 {
        Vec3(self.0.min(rhs.0), self.1.min(rhs.1), self.2.min(rhs.2))
    }

    pub open spec fn spec_max(self, rhs: Vec3) -> Vec3 {
        Vec3(self.0.max(rhs.0), self.1.max(rhs.1), self.2.max(rhs.2))
    }

    pub open spec fn spec_neg(self) -> Vec3 {
        Vec3(self.0.neg(), self.1.neg(), self.2.neg())
    }

    /// A direction at a right angle to this one, not of unit length: this
    /// direction with two components swapped, one of them negated, and the
    /// third set to zero. The component set to zero is the second one,
    /// unless the direction runs along the second axis.
    pub open spec fn spec_orthogonal(self) -> Vec3 {
        if self.1.abs().same(Scalar::from_bits(ONE_BITS)) {
            Vec3(Scalar::from_bits(ZERO_BITS), self.2, self.1.neg())
        } else {
            Vec3(self.2, Scalar::from_bits(ZERO_BITS), self.0.neg())
        }
    }

    pub open spec fn spec_extend(&self, w: Scalar) -> Vec4 {
        Vec4(self.0, self.1, self.2, w)
    }

    pub open spec fn spec_to_vec2(&self) -> Vec2 {
        Vec2(self.0, self.1)
    }

    /// The origin.
    #[verifier::when_used_as_spec(spec_zero)]
    pub fn zero() -> (r: Vec3)
        ensures
            r == Vec3::spec_zero(),
    {
        Vec3(
            Scalar::from_bits(ZERO_BITS),
            Scalar::from_bits(ZERO_BITS),
            Scalar::from_bits(ZERO_BITS),
        )
    }

    /// The vector with `s` on every axis.
    #[verifier::when_used_as_spec(spec_splat)]
    pub fn splat(s: Scalar) -> (r: Vec3)
        ensures
            r == Vec3::spec_splat(s),
    {
        Vec3(s, s, s)
    }

    /// The component on the given axis.
    pub fn get(self, axis: usize) -> (s: Scalar)
        requires
            axis < 3,
        ensures
            s == self.spec_get(axis as int),
    {
        if axis == 0 {
            self.0
        } else if axis == 1 {
            self.1
        } else {
            self.2
        }
    }

    /// Whether any component is a NaN.
    #[verifier::when_used_as_spec(spec_has_nan)]
    pub fn has_nan(self) -> (b: bool)
        ensures
            b == self.spec_has_nan(),
    {
        self.0.is_nan() || self.1.is_nan() || self.2.is_nan()
    }

    /// The component-wise minimum.
    #[verifier::when_used_as_spec(spec_min)]
    pub fn min(self, rhs: Vec3) -> (m: Vec3)
        ensures
            m == self.spec_min(rhs),
    {
        Vec3(self.0.min(rhs.0), self.1.min(rhs.1), self.2.min(rhs.2))
    }

    /// The component-wise maximum.
    #[verifier::when_used_as_spec(spec_max)]
    pub fn max(self, rhs: Vec3) -> (m: Vec3)
        ensures
            m == self.spec_max(rhs),
    {
        Vec3(self.0.max(rhs.0), self.1.max(rhs.1), self.2.max(rhs.2))
    }

    /// The opposite vector.
    #[verifier::when_used_as_spec(spec_neg)]
    pub fn neg(self) -> (n: Vec3)
        ensures
            n == self.spec_neg(),
    {
        Vec3(self.0.neg(), self.1.neg(), self.2.neg())
    }

    /// A direction at a right angle to this direction of unit length. The
    /// caller brings it to unit length.
    #[verifier::when_used_as_spec(spec_orthogonal)]
    pub fn orthogonal(self) -> (r: Vec3)
        ensures
            r == self.spec_orthogonal(),
    {
        if self.1.abs().same(Scalar::from_bits(ONE_BITS)) {
            Vec3(Scalar::from_bits(ZERO_BITS), self.2, self.1.neg())
        } else {
            Vec3(self.2, Scalar::from_bits(ZERO_BITS), self.0.neg())
        }
    }

    /// The vector with a fourth component appended.
    #[verifier::when_used_as_spec(spec_extend)]
    pub fn extend(&self, w: Scalar) -> (r: Vec4)
        ensures
            r == self.spec_extend(w),
    {
        Vec4(self.0, self.1, self.2, w)
    }

    /// The first two components.
    #[verifier::when_used_as_spec(spec_to_vec2)]
    pub fn to_vec2(&self) -> (r: Vec2)
        ensures
            r == self.spec_to_vec2(),
    {
        Vec2(self.0, self.1)
    }
}

impl Vec4 {
    pub open spec fn spec_zero() -> Vec4 {
        Vec4(
            Scalar::from_bits(ZERO_BITS),
            Scalar::from_bits(ZERO_BITS),
            Scalar::from_bits(ZERO_BITS),
            Scalar::from_bits(ZERO_BITS),
        )
    }

    pub open spec fn spec_to_vec3(&self) -> Vec3 {
        Vec3(self.0, self.1, self.2)
    }

    /// The origin.
    #[verifier::when_used_as_spec(spec_zero)]
    pub fn zero() -> (r: Vec4)
        ensures
            r == Vec4::spec_zero(),
    {
        Vec4(
            Scalar::from_bits(ZERO_BITS),
            Scalar::from_bits(ZERO_BITS),
            Scalar::from_bits(ZERO_BITS),
            Scalar::from_bits(ZERO_BITS),
        )
    }

    /// The first three components.
    #[verifier::when_used_as_spec(spec_to_vec3)]
    pub fn to_vec3(&self) -> (r: Vec3)
        ensures
            r == self.spec_to_vec3(),
    {
        Vec3(self.0, self.1, self.2)
    }
}

} // verus!
