//! Rays, the geometric primitives, and the rule by which each primitive
//! accepts or rejects a crossing.
//!
//! A crossing is described by the numbers that the intersection formulas
//! yield; the functions here say whether those numbers are a hit. Every
//! primitive shares one condition: a hit lies strictly beyond the tolerance
//! along the ray, which keeps a surface from shadowing itself.

use vstd::prelude::*;
use crate::material::Color;
use crate::material::Texture;
use crate::mesh::Mesh;
use crate::scalar::Scalar;
use crate::scalar::EPS_BITS;
use crate::scalar::ONE_BITS;
use crate::scalar::ONE_MINUS_EPS_BITS;
use crate::scalar::ZERO_BITS;
use crate::vec::Vec2;
use crate::vec::Vec3;

verus! {

/// A half-line: an origin and a direction of unit length.
#[derive(Clone, Copy, Debug, PartialEq, Eq, Structural)]
pub struct Ray {
    pub o: Vec3,
    pub d: Vec3,
}

/// Where a ray met a surface: the distance along the ray, the surface normal
/// and the texture coordinate.
#[derive(Clone, Copy, Debug, PartialEq, Eq, Structural)]
pub struct HitResult {
    pub t: Scalar,
    pub norm: Vec3,
    pub uv: Vec2,
}

/// A sphere, by centre and radius.
#[derive(Clone, Copy, Debug, PartialEq, Eq, Structural)]
pub struct Sphere {
    pub c: Vec3,
    pub r: Scalar,
}

/// An unbounded plane, by a point on it and its unit normal.
#[derive(Clone, Copy, Debug, PartialEq, Eq, Structural)]
pub struct InfPlane {
    pub p: Vec3,
    pub n: Vec3,
}

/// A disc: the plane through its centre, and two orthogonal radii.
#[derive(Clone, Copy, Debug, PartialEq, Eq, Structural)]
pub struct Circle {
    pub plane: InfPlane,
    pub u: Vec3,
    pub v: Vec3,
}

/// A rectangle: the plane through one corner, the unit directions of its two
/// sides and the reciprocals of their lengths.
#[derive(Clone, Copy, Debug, PartialEq, Eq, Structural)]
pub struct Rectangle {
    pub plane: InfPlane,
    pub u: Vec3,
    pub inv_u_len: Scalar,
    pub v: Vec3,
    pub inv_v_len: Scalar,
}

/// What the triangle formulas yield for one ray and one triangle: the
/// determinant, the two barycentric weights `u` and `v`, their sum, and the
/// distance `t` along the ray.
#[derive(Clone, Copy, Debug, PartialEq, Eq, Structural)]
pub struct TriSample {
    pub det: Scalar,
    pub u: Scalar,
    pub v: Scalar,
    pub sum: Scalar,
    pub t: Scalar,
}

/// Whether a distance along the ray counts as a hit: strictly beyond the
/// tolerance.
pub open spec fn spec_in_front(t: Scalar) -> bool {
    t.gt(Scalar::from_bits(EPS_BITS))
}

/// Whether a distance along the ray counts as a hit.
#[verifier::when_used_as_spec(spec_in_front)]
pub fn in_front(t: Scalar) -> (b: bool)
    ensures
        b == spec_in_front(t),
{
    t.gt(Scalar::from_bits(EPS_BITS))
}

impl Sphere {
    /// The distance of the hit, given the discriminant `det` of the
    /// quadratic and its two roots `near <= far`: the near root if it lies in
    /// front, else the far root if that does, else none. A negative
    /// discriminant is a miss.
    pub open spec fn spec_hit(det: Scalar, near: Scalar, far: Scalar) -> Option<Scalar> {
        if det.lt(Scalar::from_bits(ZERO_BITS)) {
            None
        } else if in_front(near) {
            Some(near)
        } else if in_front(far) {
            Some(far)
        } else {
            None
        }
    }

    /// Picks the distance at which a ray hits a sphere.
    #[verifier::when_used_as_spec(spec_hit)]
    pub fn hit(det: Scalar, near: Scalar, far: Scalar) -> (r: Option<Scalar>)
        ensures
            r == Sphere::spec_hit(det, near, far),
            r matches Some(t) ==> in_front(t),
    {
        if det.lt(Scalar::from_bits(ZERO_BITS)) {
            None
        } else if in_front(near) {
            Some(near)
        } else if in_front(far) {
            Some(far)
        } else {
            None
        }
    }
}

impl InfPlane {
    /// The distance of the hit, given the cosine `dot_d_n` between the ray
    /// and the normal and the solved distance `t`: a ray that runs nearly
    /// along the plane misses it, and so does a crossing that is not in
    /// front.
    pub open spec fn spec_hit(dot_d_n: Scalar, t: Scalar) -> Option<Scalar> {
        if dot_d_n.abs().lt(Scalar::from_bits(EPS_BITS)) {
            None
        } else if in_front(t) {
            Some(t)
        } else {
            None
        }
    }

    /// Decides whether a ray hits a plane.
    #[verifier::when_used_as_spec(spec_hit)]
    pub fn hit(dot_d_n: Scalar, t: Scalar) -> (r: Option<Scalar>)
        ensures
            r == InfPlane::spec_hit(dot_d_n, t),
            r matches Some(d) ==> in_front(d),
    {
        if dot_d_n.abs().lt(Scalar::from_bits(EPS_BITS)) {
            None
        } else if in_front(t) {
            Some(t)
        } else {
            None
        }
    }
}

impl Circle {
    /// The distance of the hit: that of the disc's plane, if the crossing
    /// lies strictly closer to the centre than the radius. `dist2` is the
    /// squared distance of the crossing from the centre, `radius2` the
    /// squared radius.
    pub open spec fn spec_hit(dot_d_n: Scalar, t: Scalar, dist2: Scalar, radius2: Scalar) -> Option<
        Scalar,
    > {
        if InfPlane::hit(dot_d_n, t) is Some && dist2.lt(radius2) {
            Some(t)
        } else {
            None
        }
    }

    /// Decides whether a ray hits a disc.
    #[verifier::when_used_as_spec(spec_hit)]
    pub fn hit(dot_d_n: Scalar, t: Scalar, dist2: Scalar, radius2: Scalar) -> (r: Option<Scalar>)
        ensures
            r == Circle::spec_hit(dot_d_n, t, dist2, radius2),
            r matches Some(d) ==> in_front(d),
    {
        if InfPlane::hit(dot_d_n, t).is_some() && dist2.lt(radius2) {
            Some(t)
        } else {
            None
        }
    }
}

impl Rectangle {
    /// Whether a coordinate along a side lies strictly inside the side,
    /// with the tolerance as margin at both ends.
    pub open spec fn inside(x: Scalar) -> bool {
        Scalar::from_bits(EPS_BITS).lt(x) && x.lt(Scalar::from_bits(ONE_MINUS_EPS_BITS))
    }

    /// The distance and texture coordinate of the hit: those of the
    /// rectangle's plane, if the crossing, projected on the two sides, lies
    /// inside both.
    pub open spec fn spec_hit(dot_d_n: Scalar, t: Scalar, u: Scalar, v: Scalar) -> Option<
        (Scalar, Vec2),
    > {
        if InfPlane::hit(dot_d_n, t) is Some && Rectangle::inside(u) && Rectangle::inside(v) {
            Some((t, Vec2(u, v)))
        } else {
            None
        }
    }

    /// Decides whether a ray hits a rectangle.
    #[verifier::when_used_as_spec(spec_hit)]
    pub fn hit(dot_d_n: Scalar, t: Scalar, u: Scalar, v: Scalar) -> (r: Option<(Scalar, Vec2)>)
        ensures
            r == Rectangle::spec_hit(dot_d_n, t, u, v),
            r matches Some(h) ==> in_front(h.0),
    {
        let lo = Scalar::from_bits(EPS_BITS);
        let hi = Scalar::from_bits(ONE_MINUS_EPS_BITS);
        if InfPlane::hit(dot_d_n, t).is_some() && lo.lt(u) && u.lt(hi) && lo.lt(v) && v.lt(hi) {
            Some((t, Vec2(u, v)))
        } else {
            None
        }
    }
}

impl TriSample {
    /// Whether the sample is a hit of its triangle: the ray is not nearly
    /// parallel to the triangle's plane, both weights and their sum lie in
    /// the unit interval, and the crossing is in front.
    pub open spec fn spec_accepts(self) -> bool {
        &&& !self.det.abs().lt(Scalar::from_bits(EPS_BITS))
        &&& !(self.u.lt(Scalar::from_bits(ZERO_BITS)) || self.u.gt(Scalar::from_bits(ONE_BITS)))
        &&& !(self.v.lt(Scalar::from_bits(ZERO_BITS)) || self.sum.gt(Scalar::from_bits(ONE_BITS)))
        &&& in_front(self.t)
    }

    /// Decides whether a ray hits a triangle.
    #[verifier::when_used_as_spec(spec_accepts)]
    pub fn accepts(self) -> (b: bool)
        ensures
            b == self.spec_accepts(),
            b ==> in_front(self.t),
    {
        let zero = Scalar::from_bits(ZERO_BITS);
        let one = Scalar::from_bits(ONE_BITS);
        if self.det.abs().lt(Scalar::from_bits(EPS_BITS)) {
            false
        } else if self.u.lt(zero) || self.u.gt(one) {
            false
        } else if self.v.lt(zero) || self.sum.gt(one) {
            false
        } else {
            in_front(self.t)
        }
    }
}

/// The shape of an object.
#[derive(Debug)]
pub enum Geo {
    Sphere(Sphere),
    InfPlane(InfPlane),
    Circle(Circle),
    Rectangle(Rectangle),
    Mesh(Mesh),
}

/// A thing in the scene: a shape, a colour and a material.
#[derive(Debug)]
pub struct Object {
    pub geo: Geo,
    pub color: Color,
    pub texture: Texture,
}

/// The shape of the light.
#[derive(Clone, Copy, Debug, PartialEq, Eq, Structural)]
pub enum LightGeo {
    Circle(Circle),
}

/// The light of the scene: a disc that emits the given radiance. A ray that
/// reaches it ends there.
#[derive(Clone, Copy, Debug, PartialEq, Eq, Structural)]
pub struct LightSource {
    pub geo: LightGeo,
    pub emission: Vec3,
}

} // verus!
