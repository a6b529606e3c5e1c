//! Axis-aligned boxes and the triangle mesh that owns a spatial index.

use vstd::prelude::*;
use crate::scalar::Scalar;
use crate::scalar::FAR_BITS;
use crate::scalar::NEG_FAR_BITS;
use crate::scalar::ZERO_BITS;
use crate::kd_tree::held;
use crate::kd_tree::indexes;
use crate::kd_tree::tree_in_range;
use crate::kd_tree::triangles_in_range;
use crate::kd_tree::KDTree;
use crate::vec::Vec2;
use crate::vec::Vec3;

verus! {

/// A triangle mesh: for every vertex a position, a texture coordinate and a
/// normal, the triangles as triples of vertex positions, and the spatial
/// index over the triangles. The index is built once and never changed.
#[derive(Debug)]
pub struct Mesh {
    pub v: Vec<Vec3>,
    pub uv: Vec<Vec2>,
    pub norm: Vec<Vec3>,
    pub index: Vec<(u32, u32, u32)>,
    pub kd: KDTree,
}

impl Mesh {
    /// The invariant of the type: the three vertex arrays are equally long,
    /// the triangles name vertices of the mesh, and the index is an index of
    /// this mesh: a tree over the positions, whose leaves hold exactly the
    /// triangles of the mesh.
    pub open spec fn wf(&self) -> bool {
        &&& self.uv@.len() == self.v@.len()
        &&& self.norm@.len() == self.v@.len()
        &&& triangles_in_range(self.index@, self.v@.len())
        &&& self.kd.wf()
        &&& tree_in_range(self.kd@, self.v@.len())
        &&& indexes(self.kd@, self.v@)
        &&& forall|t: (u32, u32, u32)| held(self.kd@, 0, t) <==> #[trigger] self.index@.contains(t)
    }

    /// Puts a mesh together from its vertex arrays, its triangles and the
    /// index built over them.
    pub fn new(
        v: Vec<Vec3>,
        uv: Vec<Vec2>,
        norm: Vec<Vec3>,
        index: Vec<(u32, u32, u32)>,
        kd: KDTree,
    ) -> (m: Mesh)
        requires
            uv@.len() == v@.len(),
            norm@.len() == v@.len(),
            triangles_in_range(index@, v@.len()),
            kd.wf(),
            tree_in_range(kd@, v@.len()),
            indexes(kd@, v@),
            forall|t: (u32, u32, u32)| held(kd@, 0, t) <==> #[trigger] index@.contains(t),
        ensures
            m.v == v,
            m.uv == uv,
            m.norm == norm,
            m.index == index,
            m.kd == kd,
            m.wf(),
    {
        Mesh { v, uv, norm, index, kd }
    }
}

/// An axis-aligned box, given by its two extreme corners. A box whose `min`
/// lies above its `max` on some axis holds no point.
#[derive(Clone, Copy, Debug, PartialEq, Eq, Structural)]
pub struct AABB {
    pub min: Vec3,
    pub max: Vec3,
}

impl AABB {
    /// The box that holds nothing: every extent starts from the far distance
    /// on the wrong side.
    pub open spec fn spec_empty() -> AABB {
        AABB {
            min: Vec3::splat(Scalar::from_bits(FAR_BITS)),
            max: Vec3::splat(Scalar::from_bits(NEG_FAR_BITS)),
        }
    }

    /// The box widened, where needed, to hold `p`.
    pub open spec fn spec_grow(self, p: Vec3) -> AABB {
        AABB { min: self.min.min(p), max: self.max.max(p) }
    }

    /// The empty box grown by each point in turn.
    pub open spec fn of_points(s: Seq<Vec3>) -> AABB
        decreases s.len(),
    {
        if s.len() == 0 {
            AABB::spec_empty()
        } else {
            AABB::of_points(s.drop_last()).spec_grow(s.last())
        }
    }

    /// Whether `p` lies between the corners on every axis.
    pub open spec fn contains(self, p: Vec3) -> bool {
        &&& self.min.0.le(p.0) && p.0.le(self.max.0)
        &&& self.min.1.le(p.1) && p.1.le(self.max.1)
        &&& self.min.2.le(p.2) && p.2.le(self.max.2)
    }

    /// Whether no corner component is a NaN.
    pub open spec fn is_numeric(self) -> bool {
        !self.min.has_nan() && !self.max.has_nan()
    }

    /// Where the ray enters the box: the latest of the three entries into the
    /// slabs, whose two crossings on each axis are `t0s` and `t1s`.
    pub open spec fn entry(t0s: Vec3, t1s: Vec3) -> Scalar {
        t0s.0.min(t1s.0).max(t0s.1.min(t1s.1)).max(t0s.2.min(t1s.2))
    }

    /// Where the ray leaves the box: the earliest of the three exits.
    pub open spec fn exit(t0s: Vec3, t1s: Vec3) -> Scalar {
        t0s.0.max(t1s.0).min(t0s.1.max(t1s.1)).min(t0s.2.max(t1s.2))
    }

    /// The slab test: the ray meets the box when it enters before it leaves,
    /// and leaves in front of its origin.
    pub open spec fn spec_hit(t0s: Vec3, t1s: Vec3) -> Option<(Scalar, Scalar)> {
        if AABB::entry(t0s, t1s).max(Scalar::from_bits(ZERO_BITS)).lt(AABB::exit(t0s, t1s)) {
            Some((AABB::entry(t0s, t1s), AABB::exit(t0s, t1s)))
        } else {
            None
        }
    }

    pub open spec fn spec_intersect_ray(t0s: Vec3, t1s: Vec3) -> bool {
        AABB::spec_hit(t0s, t1s) is Some
    }

    /// The box that holds nothing.
    #[verifier::when_used_as_spec(spec_empty)]
    pub fn empty() -> (b: AABB)
        ensures
            b == AABB::spec_empty(),
    {
        AABB {
            min: Vec3::splat(Scalar::from_bits(FAR_BITS)),
            max: Vec3::splat(Scalar::from_bits(NEG_FAR_BITS)),
        }
    }

    /// The box widened to hold `p`.
    #[verifier::when_used_as_spec(spec_grow)]
    pub fn grow(self, p: Vec3) -> (b: AABB)
        ensures
            b == self.spec_grow(p),
    {
        AABB { min: self.min.min(p), max: self.max.max(p) }
    }

    /// The bounding box of a set of points.
    pub fn from_slice(s: &[Vec3]) -> (b: AABB)
        requires
            s.len() >= 1,
        ensures
            b == AABB::of_points(s@),
    {
        let mut b = AABB::empty();
        let mut i: usize = 0;
        while i < s.len()
            invariant
                i <= s.len(),
                b == AABB::of_points(s@.take(i as int)),
            decreases s.len() - i,
        {
            proof {
                assert(s@.take(i + 1).drop_last() =~= s@.take(i as int));
            }
            b = b.grow(s[i]);
            i += 1;
        }
        proof {
            assert(s@.take(i as int) =~= s@);
        }
        b
    }

    /// The slab test of a ray against a box.
    ///
    /// `t0s` holds, axis by axis, the ray parameter at which the ray crosses
    /// the plane of the lower corner, `t1s` that of the upper corner: the
    /// corner minus the ray's origin, times the reciprocal of the ray's
    /// direction. A reciprocal may be infinite, and a crossing may then be a
    /// NaN: a NaN crossing gives way to the other crossing of its axis.
    /// Returns the parameters at which the ray enters and leaves the box.
    #[verifier::when_used_as_spec(spec_hit)]
    pub fn hit(t0s: Vec3, t1s: Vec3) -> (r: Option<(Scalar, Scalar)>)
        ensures
            r == AABB::spec_hit(t0s, t1s),
    {
        let t_min = t0s.0.min(t1s.0).max(t0s.1.min(t1s.1)).max(t0s.2.min(t1s.2));
        let t_max = t0s.0.max(t1s.0).min(t0s.1.max(t1s.1)).min(t0s.2.max(t1s.2));
        if t_min.max(Scalar::from_bits(ZERO_BITS)).lt(t_max) {
            Some((t_min, t_max))
        } else {
            None
        }
    }

    /// Whether the ray meets the box at all.
    #[verifier::when_used_as_spec(spec_intersect_ray)]
    pub fn intersect_ray(t0s: Vec3, t1s: Vec3) -> (b: bool)
        ensures
            b == AABB::spec_intersect_ray(t0s, t1s),
    {
        AABB::hit(t0s, t1s).is_some()
    }
}

/// A box grown from points that are not NaN has corners that are not NaN.
pub proof fn bounds_are_numeric(s: Seq<Vec3>)
    requires
        forall|i: int| 0 <= i < s.len() ==> !(#[trigger] s[i]).has_nan(),
    ensures
        AABB::of_points(s).is_numeric(),
    decreases s.len(),
{
    if s.len() > 0 {
        bounds_are_numeric(s.drop_last());
    }
}

/// The bounding box holds every point it was grown from, as long as no
/// coordinate is a NaN.
pub proof fn bounds_contain_points(s: Seq<Vec3>, i: int)
    requires
        0 <= i < s.len(),
        forall|j: int| 0 <= j < s.len() ==> !(#[trigger] s[j]).has_nan(),
    ensures
        AABB::of_points(s).contains(s[i]),
    decreases s.len(),
{
    bounds_are_numeric(s.drop_last());
    if i < s.len() - 1 {
        bounds_contain_points(s.drop_last(), i);
    }
}

/// What the slab test returns is the intersection of the three slabs: when no
/// crossing is a NaN, the entry is at or after the entry into every slab and
/// is the entry into one of them, the exit is at or before the exit from every
/// slab and is the exit from one of them, and the box is met exactly when the
/// entry lies before the exit and the exit in front of the origin.
pub proof fn slabs_intersect(t0s: Vec3, t1s: Vec3)
    requires
        !t0s.has_nan(),
        !t1s.has_nan(),
    ensures
        forall|a: int|
            0 <= a < 3 ==> (#[trigger] t0s.spec_get(a)).min(t1s.spec_get(a)).le(
                AABB::entry(t0s, t1s),
            ),
        exists|a: int|
            0 <= a < 3 && AABB::entry(t0s, t1s) == (#[trigger] t0s.spec_get(a)).min(
                t1s.spec_get(a),
            ),
        forall|a: int|
            0 <= a < 3 ==> AABB::exit(t0s, t1s).le(
                (#[trigger] t0s.spec_get(a)).max(t1s.spec_get(a)),
            ),
        exists|a: int|
            0 <= a < 3 && AABB::exit(t0s, t1s) == (#[trigger] t0s.spec_get(a)).max(
                t1s.spec_get(a),
            ),
        AABB::hit(t0s, t1s) is Some <==> AABB::entry(t0s, t1s).lt(AABB::exit(t0s, t1s))
            && Scalar::from_bits(ZERO_BITS).lt(AABB::exit(t0s, t1s)),
{
    let e = AABB::entry(t0s, t1s);
    let x = AABB::exit(t0s, t1s);
    assert(e == t0s.spec_get(0).min(t1s.spec_get(0)) || e == t0s.spec_get(1).min(
        t1s.spec_get(1),
    ) || e == t0s.spec_get(2).min(t1s.spec_get(2)));
    assert(x == t0s.spec_get(0).max(t1s.spec_get(0)) || x == t0s.spec_get(1).max(
        t1s.spec_get(1),
    ) || x == t0s.spec_get(2).max(t1s.spec_get(2)));
}

} // verus!
