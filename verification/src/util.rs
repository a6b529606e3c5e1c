//! Clamping to the unit interval, and the pseudo-random generator that every
//! pixel seeds for itself.

use vstd::prelude::*;
use crate::scalar::Scalar;
use crate::scalar::ONE_BITS;
use crate::scalar::ZERO_BITS;

verus! {

/// `x` held to the unit interval: 0 below it, 1 above it, `x` itself inside
/// it. A NaN is handed back as it is.
pub open spec fn spec_clamp(x: Scalar) -> Scalar {
    if x.lt(Scalar::from_bits(ZERO_BITS)) {
        Scalar::from_bits(ZERO_BITS)
    } else if x.gt(Scalar::from_bits(ONE_BITS)) {
        Scalar::from_bits(ONE_BITS)
    } else {
        x
    }
}

/// Holds a number to the unit interval.
#[verifier::when_used_as_spec(spec_clamp)]
pub fn clamp(x: Scalar) -> (r: Scalar)
    ensures
        r == spec_clamp(x),
{
    if x.lt(Scalar::from_bits(ZERO_BITS)) {
        Scalar::from_bits(ZERO_BITS)
    } else if x.gt(Scalar::from_bits(ONE_BITS)) {
        Scalar::from_bits(ONE_BITS)
    } else {
        x
    }
}

/// A clamped number lies in the unit interval, clamping a number of the unit
/// interval changes nothing, and so clamping twice is clamping once.
pub proof fn clamp_is_a_projection(x: Scalar)
    ensures
        !x.is_nan() ==> Scalar::from_bits(ZERO_BITS).le(clamp(x)) && clamp(x).le(
            Scalar::from_bits(ONE_BITS),
        ),
        Scalar::from_bits(ZERO_BITS).le(x) && x.le(Scalar::from_bits(ONE_BITS)) ==> clamp(x) == x,
        clamp(clamp(x)) == clamp(x),
{
}

/// One round of the generator: three shifts, each folded back in.
pub open spec fn xorshift(x: u32) -> u32 {
    let a = x ^ (x << 13);
    let b = a ^ (a >> 17);
    b ^ (b << 5)
}

/// A xorshift generator with 32 bits of state. Its state is never 0, the
/// one value from which the generator would not move.
#[derive(Debug)]
pub struct XorShiftRng {
    seed: u32,
}

impl View for XorShiftRng {
    type V = u32;

    closed spec fn view(&self) -> u32 {
        self.seed
    }
}

impl XorShiftRng {
    /// The invariant of the type: the state is not 0.
    pub open spec fn wf(&self) -> bool {
        self@ != 0
    }

    /// A generator seeded with `seed`, or with 1 where `seed` is 0.
    pub fn new(seed: u32) -> (rng: XorShiftRng)
        ensures
            rng@ == if seed == 0 {
                1u32
            } else {
                seed
            },
            rng.wf(),
    {
        XorShiftRng {
            seed: if seed == 0 {
                1
            } else {
                seed
            },
        }
    }

    /// Advances the generator by one round and returns the new state. The
    /// caller scales it to the unit interval.
    pub fn next_u32(&mut self) -> (x: u32)
        requires
            old(self).wf(),
        ensures
            x == xorshift(old(self)@),
            final(self)@ == x,
            final(self).wf(),
    {
        let mut x: u32 = self.seed;
        x ^= x << 13;
        x ^= x >> 17;
        x ^= x << 5;
        proof {
            round_keeps_nonzero(self.seed);
        }
        self.seed = x;
        x
    }

    /// Advances the generator by one round and returns the upper 24 bits of
    /// the new state: a whole number below 2^24, which the caller divides by
    /// 2^24 to get a number of the unit interval that is never 1.
    pub fn next_fraction(&mut self) -> (x: u32)
        requires
            old(self).wf(),
        ensures
            x == xorshift(old(self)@) >> 8,
            x < 0x100_0000,
            final(self)@ == xorshift(old(self)@),
            final(self).wf(),
    {
        let state = self.next_u32();
        assert(state >> 8 < 0x100_0000) by (bit_vector);
        state >> 8
    }
}

/// A round maps a state that is not 0 to a state that is not 0.
pub proof fn round_keeps_nonzero(x: u32)
    requires
        x != 0,
    ensures
        xorshift(x) != 0,
{
    assert(x != 0 ==> ({
        let a = x ^ (x << 13);
        let b = a ^ (a >> 17);
        b ^ (b << 5)
    }) != 0) by (bit_vector);
}

} // verus!
