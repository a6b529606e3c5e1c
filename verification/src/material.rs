//! Surface materials: how a surface scatters light, and what colour it has.

use vstd::prelude::*;
use crate::scalar::Scalar;
use crate::scalar::ZERO_BITS;
use crate::vec::Vec3;

verus! {

/// The encoding of `1.5`: the refractive index of glass over that of air.
pub const INTO_GLASS_BITS: u32 = 0x3fc0_0000;

/// The encoding of `1.0 / 1.5`: the refractive index of air over that of
/// glass.
pub const OUT_OF_GLASS_BITS: u32 = 0x3f2a_aaab;

/// The encoding of the reflectance of glass at normal incidence,
/// `((1.0 - 1.5) / (1.0 + 1.5))^2`.
pub const R0_BITS: u32 = 0x3d23_d70a;

/// How a surface scatters light.
#[derive(Clone, Copy, Debug, PartialEq, Eq, Structural)]
pub enum Texture {
    /// Scatters evenly into the hemisphere.
    Diffuse,
    /// Reflects as a mirror.
    Specular,
    /// Reflects and refracts as glass.
    Refractive,
    /// Diffuse with probability `d_prob`, specular with probability `s_prob`,
    /// refractive otherwise.
    Mixed { d_prob: Scalar, s_prob: Scalar },
}

/// What happens to a ray at the surface of glass.
#[derive(Clone, Copy, Debug, PartialEq, Eq, Structural)]
pub enum Refraction {
    /// The ray enters the glass; `ratio` is the index it is bent by.
    Entering { ratio: Scalar },
    /// The ray leaves the glass; `ratio` is the index it is bent by.
    Leaving { ratio: Scalar },
    /// The ray would leave the glass, but meets the surface too flatly: all
    /// of it is reflected.
    TotalReflection,
}

impl Texture {
    /// The material that a surface shows to one ray: a mixture shows itself
    /// as diffuse where the drawn number `xi` lies below `d_prob`, as
    /// specular where it lies below `both`, the sum of `d_prob` and `s_prob`,
    /// and as refractive otherwise; any other material shows itself as it is.
    pub open spec fn spec_resolve(self, xi: Scalar, both: Scalar) -> Texture {
        match self {
            Texture::Mixed { d_prob, s_prob } => {
                if xi.lt(d_prob) {
                    Texture::Diffuse
                } else if xi.lt(both) {
                    Texture::Specular
                } else {
                    Texture::Refractive
                }
            },
            other => other,
        }
    }

    /// Whether the material is a mixture, which takes one drawn number to
    /// resolve.
    pub open spec fn spec_is_mixed(self) -> bool {
        self is Mixed
    }

    /// Whether the material is a mixture.
    #[verifier::when_used_as_spec(spec_is_mixed)]
    pub fn is_mixed(self) -> (b: bool)
        ensures
            b == self.spec_is_mixed(),
    {
        match self {
            Texture::Mixed { .. } => true,
            _ => false,
        }
    }

    /// Resolves the material for one ray from one number drawn from the unit
    /// interval. `both` is the sum of the two probabilities of a mixture.
    #[verifier::when_used_as_spec(spec_resolve)]
    pub fn resolve(self, xi: Scalar, both: Scalar) -> (t: Texture)
        ensures
            t == self.spec_resolve(xi, both),
            !t.is_mixed(),
            !self.is_mixed() ==> t == self,
    {
        match self {
            Texture::Mixed { d_prob, s_prob } => {
                if xi.lt(d_prob) {
                    Texture::Diffuse
                } else if xi.lt(both) {
                    Texture::Specular
                } else {
                    Texture::Refractive
                }
            },
            other => other,
        }
    }

    /// The case of refraction, given the cosine and the sine of the angle
    /// between the ray and the surface normal.
    ///
    /// A ray against the normal enters. A ray along the normal leaves, unless
    /// the sine reaches the ratio of the indices: then it is reflected whole.
    pub open spec fn spec_refract(cos_theta: Scalar, sin_theta: Scalar) -> Refraction {
        if cos_theta.lt(Scalar::from_bits(ZERO_BITS)) {
            Refraction::Entering { ratio: Scalar::from_bits(INTO_GLASS_BITS) }
        } else if sin_theta.ge(Scalar::from_bits(OUT_OF_GLASS_BITS)) {
            Refraction::TotalReflection
        } else {
            Refraction::Leaving { ratio: Scalar::from_bits(OUT_OF_GLASS_BITS) }
        }
    }

    /// Decides how a ray is refracted at the surface of glass.
    #[verifier::when_used_as_spec(spec_refract)]
    pub fn refract(cos_theta: Scalar, sin_theta: Scalar) -> (r: Refraction)
        ensures
            r == Texture::spec_refract(cos_theta, sin_theta),
    {
        if cos_theta.lt(Scalar::from_bits(ZERO_BITS)) {
            Refraction::Entering { ratio: Scalar::from_bits(INTO_GLASS_BITS) }
        } else if sin_theta.ge(Scalar::from_bits(OUT_OF_GLASS_BITS)) {
            Refraction::TotalReflection
        } else {
            Refraction::Leaving { ratio: Scalar::from_bits(OUT_OF_GLASS_BITS) }
        }
    }
}

/// The colour of a surface: one colour all over, or a picture laid on it.
#[derive(Debug)]
pub enum Color {
    RGB(Vec3),
    /// A picture of `w` by `h` texels in row-major order.
    Image { data: Vec<Vec3>, w: u32, h: u32 },
}

impl Color {
    /// The invariant of the type: a picture is not empty and holds one texel
    /// for each position.
    pub open spec fn wf(&self) -> bool {
        match self {
            Color::RGB(_) => true,
            Color::Image { data, w, h } => *w > 0 && *h > 0 && data@.len() == *w * *h,
        }
    }

    /// The colour at column `x` and row `y`, both wrapped around the picture.
    pub open spec fn texel(&self, x: u32, y: u32) -> Vec3 {
        match self {
            Color::RGB(rgb) => *rgb,
            Color::Image { data, w, h } => data@[(y % *h) * *w + x % *w],
        }
    }

    /// Looks up the colour of the surface. `x` and `y` are the texture
    /// coordinate scaled by the picture's width and height and cut to whole
    /// numbers; a picture repeats in both directions.
    pub fn to_vec3(&self, x: u32, y: u32) -> (c: Vec3)
        requires
            self.wf(),
        ensures
            c == self.texel(x, y),
    {
        match self {
            Color::RGB(rgb) => *rgb,
            Color::Image { data, w, h } => {
                let row: u64 = (y % *h) as u64;
                let col: u64 = (x % *w) as u64;
                proof {
                    let wi = *w as int;
                    let hi = *h as int;
                    assert(0 <= row * wi && row * wi + col < wi * hi && wi * hi
                        <= 0xffff_ffff * 0xffff_ffff) by (nonlinear_arith)
                        requires
                            0 <= row < hi,
                            0 <= col < wi,
                            wi <= 0xffff_ffff,
                            hi <= 0xffff_ffff,
                    ;
                }
                let at: u64 = row * (*w as u64) + col;
                let n: usize = data.len();
                proof {
                    assert(at as int == (y % *h) * *w + x % *w);
                    assert(at < n);
                }
                data[at as usize]
            },
        }
    }
}

} // verus!
