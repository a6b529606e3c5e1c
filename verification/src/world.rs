//! The scene, and the decisions of the light-transport estimator: which
//! surface a ray reaches first, how a path goes on from there, and where it
//! ends.

use vstd::prelude::*;
use crate::geo::HitResult;
use crate::geo::LightSource;
use crate::geo::Object;
use crate::geo::Ray;
use crate::material::Refraction;
use crate::material::Texture;
use crate::scalar::Scalar;
use crate::scalar::FAR_BITS;
use crate::scalar::ZERO_BITS;
use crate::vec::Vec3;

verus! {

/// A path is cut off at this depth.
pub const MAX_DEPTH: u32 = 5;

/// Below this depth a path through glass follows both the reflected and the
/// refracted ray; from this depth on it follows one of them, picked at
/// random.
pub const BRANCH_DEPTH: u32 = 2;

/// The scene: the objects, the light, the radiance of the surroundings, the
/// camera and the size of the picture.
#[derive(Debug)]
pub struct World {
    pub objs: Vec<Object>,
    pub light: LightSource,
    pub env: Vec3,
    pub cam: Ray,
    pub w: u32,
    pub h: u32,
}

/// The nearest hit among the first `k` objects, with the object's position:
/// each object in turn replaces the nearest so far if it is hit strictly
/// nearer, and nothing at or beyond the far distance counts.
pub open spec fn nearest_object(hits: Seq<Option<HitResult>>, k: nat) -> Option<(HitResult, usize)>
    decreases k,
{
    if k == 0 {
        None
    } else {
        let before = nearest_object(hits, (k - 1) as nat);
        match hits[k - 1] {
            Some(r) if r.t.lt(reach(before)) => Some((r, (k - 1) as usize)),
            _ => before,
        }
    }
}

/// The distance that a hit has to beat.
pub open spec fn reach(best: Option<(HitResult, usize)>) -> Scalar {
    match best {
        Some(b) => b.0.t,
        None => Scalar::from_bits(FAR_BITS),
    }
}

/// What a ray reaches first: the hit, the position of the object that was
/// hit or `None` for the light, and the radiance emitted there. The light
/// wins only where it is hit strictly nearer than every object.
pub open spec fn first_hit(
    hits: Seq<Option<HitResult>>,
    light: Option<HitResult>,
    emission: Vec3,
) -> Option<(HitResult, Option<usize>, Vec3)> {
    let best = nearest_object(hits, hits.len());
    match light {
        Some(r) if r.t.lt(reach(best)) => Some((r, None, emission)),
        _ => match best {
            Some(b) => Some((b.0, Some(b.1), Vec3::zero())),
            None => None,
        },
    }
}

/// How a path goes on after a ray was cast.
#[derive(Clone, Copy, Debug, PartialEq, Eq, Structural)]
pub enum Bounce {
    /// The path ends with the radiance of the surroundings.
    Environment,
    /// The path ends at the light, with its emission.
    Emission,
    /// One ray is sampled from the cosine-weighted hemisphere; what it brings
    /// is tinted by the surface colour.
    Diffuse,
    /// One ray is mirrored; what it brings is tinted by the surface colour.
    Specular,
    /// The ray meets glass: see [`World::branch`].
    Refractive,
    /// The surface is a mixture of materials: one number is drawn,
    /// [`Texture::resolve`] picks the material, and the path is decided
    /// again.
    Mixed,
}

/// How a path goes on through glass.
#[derive(Clone, Copy, Debug, PartialEq, Eq, Structural)]
pub enum Branch {
    /// Only the reflected ray is followed, at full weight and untinted.
    ReflectOnly,
    /// Both rays are followed, each weighted by its share of the energy.
    Both,
    /// One random number is drawn, and [`World::roulette`] picks the ray.
    Roulette,
}

impl World {
    /// Whether a path of depth `dep` has reached the depth cap and casts no
    /// further ray.
    pub open spec fn spec_exhausted(dep: u32) -> bool {
        dep >= MAX_DEPTH
    }

    /// What a path does at depth `dep`, given what its ray reached:
    /// nothing, the light (`Some(None)`), or an object with the given
    /// material.
    ///
    /// At the depth cap and where nothing is reached, the path ends with the
    /// radiance of the surroundings. At the light it ends with the light's
    /// emission. At an object it goes on as the material says; a mixture
    /// of materials is resolved first.
    pub open spec fn spec_bounce(dep: u32, reached: Option<Option<Texture>>) -> Bounce {
        if World::exhausted(dep) {
            Bounce::Environment
        } else {
            match reached {
                None => Bounce::Environment,
                Some(None) => Bounce::Emission,
                Some(Some(Texture::Diffuse)) => Bounce::Diffuse,
                Some(Some(Texture::Specular)) => Bounce::Specular,
                Some(Some(Texture::Refractive)) => Bounce::Refractive,
                Some(Some(Texture::Mixed { .. })) => Bounce::Mixed,
            }
        }
    }

    /// How a path goes on through glass at depth `dep`.
    pub open spec fn spec_branch(dep: u32, refraction: Refraction) -> Branch {
        if refraction is TotalReflection {
            Branch::ReflectOnly
        } else if dep >= BRANCH_DEPTH {
            Branch::Roulette
        } else {
            Branch::Both
        }
    }

    /// Whether the roulette picks the reflected ray: the drawn number lies
    /// strictly below the reflectance.
    pub open spec fn spec_roulette(xi: Scalar, reflectance: Scalar) -> bool {
        xi.lt(reflectance)
    }

    /// The surface normal turned to face the incoming ray: the normal itself
    /// where the ray runs against it, its opposite otherwise. `cos` is the
    /// cosine between the normal and the ray.
    pub open spec fn spec_facing(norm: Vec3, cos: Scalar) -> Vec3 {
        if cos.lt(Scalar::from_bits(ZERO_BITS)) {
            norm
        } else {
            norm.neg()
        }
    }

    /// The column and the row of the pixel with the given position in the
    /// picture's buffer. Rows count from the bottom of the picture, the
    /// buffer from its top.
    pub open spec fn spec_pixel(&self, index: u32) -> (u32, u32) {
        ((index % self.w) as u32, (self.h - 1 - index / self.w) as u32)
    }

    /// Picks what a ray reaches first. `hits` holds, for each object of the
    /// scene in order, where the ray met it; `light` where it met the light.
    pub fn hit_all(&self, hits: &Vec<Option<HitResult>>, light: Option<HitResult>) -> (r: Option<
        (HitResult, Option<usize>, Vec3),
    >)
        ensures
            r == first_hit(hits@, light, self.light.emission),
    {
        let mut best: Option<(HitResult, usize)> = None;
        let mut t = Scalar::from_bits(FAR_BITS);
        let mut i: usize = 0;
        while i < hits.len()
            invariant
                i <= hits.len(),
                best == nearest_object(hits@, i as nat),
                t == reach(best),
            decreases hits.len() - i,
        {
            match hits[i] {
                Some(r) => {
                    if r.t.lt(t) {
                        t = r.t;
                        best = Some((r, i));
                    }
                },
                None => {},
            }
            i += 1;
        }
        match light {
            Some(r) => {
                if r.t.lt(t) {
                    return Some((r, None, self.light.emission));
                }
            },
            None => {},
        }
        match best {
            Some(b) => Some((b.0, Some(b.1), Vec3::zero())),
            None => None,
        }
    }

    /// Decides whether a path has reached the depth cap.
    #[verifier::when_used_as_spec(spec_exhausted)]
    pub fn exhausted(dep: u32) -> (b: bool)
        ensures
            b == World::spec_exhausted(dep),
    {
        dep >= MAX_DEPTH
    }

    /// Decides what a path does after a ray was cast.
    #[verifier::when_used_as_spec(spec_bounce)]
    pub fn bounce(dep: u32, reached: Option<Option<Texture>>) -> (b: Bounce)
        ensures
            b == World::spec_bounce(dep, reached),
            reached is None ==> b == Bounce::Environment,
            World::exhausted(dep) ==> b == Bounce::Environment,
            b == Bounce::Mixed <==> !World::exhausted(dep) && (reached matches Some(Some(t))
                && t.is_mixed()),
    {
        if World::exhausted(dep) {
            return Bounce::Environment;
        }
        match reached {
            None => Bounce::Environment,
            Some(None) => Bounce::Emission,
            Some(Some(Texture::Diffuse)) => Bounce::Diffuse,
            Some(Some(Texture::Specular)) => Bounce::Specular,
            Some(Some(Texture::Refractive)) => Bounce::Refractive,
            Some(Some(Texture::Mixed { .. })) => Bounce::Mixed,
        }
    }

    /// Decides how a path goes on through glass.
    #[verifier::when_used_as_spec(spec_branch)]
    pub fn branch(dep: u32, refraction: Refraction) -> (b: Branch)
        ensures
            b == World::spec_branch(dep, refraction),
    {
        match refraction {
            Refraction::TotalReflection => Branch::ReflectOnly,
            _ => if dep >= BRANCH_DEPTH {
                Branch::Roulette
            } else {
                Branch::Both
            },
        }
    }

    /// Decides whether the roulette picks the reflected ray.
    #[verifier::when_used_as_spec(spec_roulette)]
    pub fn roulette(xi: Scalar, reflectance: Scalar) -> (reflect: bool)
        ensures
            reflect == World::spec_roulette(xi, reflectance),
    {
        xi.lt(reflectance)
    }

    /// Turns the surface normal to face the incoming ray.
    #[verifier::when_used_as_spec(spec_facing)]
    pub fn facing(norm: Vec3, cos: Scalar) -> (w: Vec3)
        ensures
            w == World::spec_facing(norm, cos),
    {
        if cos.lt(Scalar::from_bits(ZERO_BITS)) {
            norm
        } else {
            norm.neg()
        }
    }

    /// Finds the column and the row of a pixel of the buffer.
    pub fn pixel(&self, index: u32) -> (p: (u32, u32))
        requires
            self.w > 0,
            index < self.w * self.h,
        ensures
            p == self.spec_pixel(index),
            p.0 < self.w,
            p.1 < self.h,
            index == (self.h - 1 - p.1) * self.w + p.0,
    {
        let row = index / self.w;
        proof {
            let wi = self.w as int;
            let hi = self.h as int;
            let ii = index as int;
            assert(ii / wi < hi && ii == (ii / wi) * wi + ii % wi) by (nonlinear_arith)
                requires
                    wi > 0,
                    0 <= ii < wi * hi,
            ;
        }
        (index % self.w, self.h - 1 - row)
    }
}

/// The nearest object is nearest: it is hit nearer than the far distance,
/// no object is hit nearer, and it is the first of the objects hit that near.
pub proof fn nearest_object_is_nearest(hits: Seq<Option<HitResult>>, k: nat)
    requires
        k <= hits.len() <= usize::MAX,
    ensures
        match nearest_object(hits, k) {
            Some((r, at)) => {
                &&& at < k
                &&& hits[at as int] == Some(r)
                &&& r.t.lt(Scalar::from_bits(FAR_BITS))
                &&& forall|i: int|
                    0 <= i < k ==> ((#[trigger] hits[i]) matches Some(h) ==> !h.t.lt(r.t))
                &&& forall|i: int|
                    0 <= i < at ==> ((#[trigger] hits[i]) matches Some(h) ==> r.t.lt(h.t)
                        || h.t.is_nan())
            },
            None => forall|i: int|
                0 <= i < k ==> ((#[trigger] hits[i]) matches Some(h) ==> !h.t.lt(
                    Scalar::from_bits(FAR_BITS),
                )),
        },
    decreases k,
{
    if k > 0 {
        nearest_object_is_nearest(hits, (k - 1) as nat);
    }
}

/// What a ray reaches first is nearest: nothing, where nothing is hit nearer
/// than the far distance; else a hit that no object and no light undercuts,
/// which is the light's only where the light is strictly nearer than every
/// object.
pub proof fn first_hit_is_nearest(
    hits: Seq<Option<HitResult>>,
    light: Option<HitResult>,
    emission: Vec3,
)
    requires
        hits.len() <= usize::MAX,
    ensures
        match first_hit(hits, light, emission) {
            Some((r, who, e)) => {
                &&& r.t.lt(Scalar::from_bits(FAR_BITS))
                &&& forall|i: int|
                    0 <= i < hits.len() ==> ((#[trigger] hits[i]) matches Some(h) ==> !h.t.lt(r.t))
                &&& light matches Some(l) ==> !l.t.lt(r.t)
                &&& match who {
                    Some(at) => at < hits.len() && hits[at as int] == Some(r) && e == Vec3::zero(),
                    None => {
                        &&& light == Some(r)
                        &&& e == emission
                        &&& forall|i: int|
                            0 <= i < hits.len() ==> ((#[trigger] hits[i]) matches Some(h)
                                ==> r.t.lt(h.t) || h.t.is_nan())
                    },
                }
            },
            None => {
                &&& forall|i: int|
                    0 <= i < hits.len() ==> ((#[trigger] hits[i]) matches Some(h) ==> !h.t.lt(
                        Scalar::from_bits(FAR_BITS),
                    ))
                &&& light matches Some(l) ==> !l.t.lt(Scalar::from_bits(FAR_BITS))
            },
        },
{
    nearest_object_is_nearest(hits, hits.len());
}

} // verus!
