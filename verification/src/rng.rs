//! Deterministic pseudo-random number generation.
//!
//! Every stochastic choice in the renderer draws from an explicit
//! `XorRand` stream, so a render with a fixed seed is reproducible; only
//! seeding from the machine's entropy goes through the `rand` crate.

use vstd::prelude::*;
use crate::fx::{FX_ONE, fx_add, fx_mul, fx_sub, fx_in_range};

verus! {

/// One step of the xorshift64 generator.
pub open spec fn xs_step(s: u64) -> u64 {
    let a = s ^ (s << 13);
    let b = a ^ (a >> 7);
    b ^ (b << 17)
}

/// A 64-bit xorshift pseudo-random generator; the state is never zero, so
/// the stream never collapses to a fixed point.
pub struct XorRand {
    pub state: u64,
}

impl XorRand {
    /// The generator state is productive.
    pub open spec fn wf(&self) -> bool {
        self.state != 0
    }

    /// Build a generator from a seed; a zero seed is replaced by a fixed
    /// nonzero constant.
    pub fn seeded(seed: u64) -> (r: XorRand)
        ensures
            r.wf(),
            seed != 0 ==> r.state == seed,
    {
        if seed == 0 {
            XorRand { state: 0x9e37_79b9_7f4a_7c15u64 }
        } else {
            XorRand { state: seed }
        }
    }

    /// Build a generator seeded from the machine's entropy.
    pub fn from_entropy() -> (r: XorRand)
        ensures
            r.wf(),
    {
        let s = entropy_u64();
        XorRand::seeded(s)
    }

    /// Draw the next machine word and advance the state.
    pub fn next_u64(&mut self) -> (r: u64)
        requires
            old(self).wf(),
        ensures
            final(self).wf(),
            final(self).state == xs_step(old(self).state),
            r == final(self).state,
    {
        let s0 = self.state;
        let a = s0 ^ (s0 << 13u64);
        let b = a ^ (a >> 7u64);
        let c = b ^ (b << 17u64);
        proof {
            assert(c == xs_step(s0));
            assert(c != 0) by (bit_vector)
                requires c == ((s0 ^ (s0 << 13u64)) ^ ((s0 ^ (s0 << 13u64)) >> 7u64)) ^ (((s0
                    ^ (s0 << 13u64)) ^ ((s0 ^ (s0 << 13u64)) >> 7u64)) << 17u64) && s0 != 0u64;
        }
        self.state = c;
        c
    }

    /// Draw a scalar uniformly spaced over `[0, 1)`: the top bits of the
    /// next generator word.
    pub fn random_unit(&mut self) -> (r: i64)
        requires
            old(self).wf(),
        ensures
            final(self).wf(),
            final(self).state == xs_step(old(self).state),
            r as u64 == xs_step(old(self).state) >> 48u64,
            0 <= r < FX_ONE,
    {
        let w = self.next_u64();
        let bits = w >> 48u64;
        proof {
            assert(bits < 65536u64) by (bit_vector)
                requires bits == w >> 48u64;
        }
        bits as i64
    }

    /// Draw a scalar in `[min, max)` (or `min` when the interval is empty).
    pub fn random_range(&mut self, min: i64, max: i64) -> (r: i64)
        requires
            old(self).wf(),
            fx_in_range(min as int),
            fx_in_range(max as int),
        ensures
            final(self).wf(),
            min <= max ==> min <= r <= max,
            min < max ==> r < max,
    {
        let u = self.random_unit();
        let d = fx_sub(max, min);
        let step = fx_mul(u, d);
        proof {
            if min <= max {
                crate::fx::lemma_unit_scale_bounds(u as int, d as int);
                assert(0 <= step as int <= d as int);
                assert(d as int <= max - min);
                assert(min + step <= max);
            }
            if min < max {
                crate::fx::lemma_unit_scale_strict(u as int, d as int);
                assert(min + step < max);
            }
        }
        fx_add(min, step)
    }

    /// Draw an integer in `[min, max)`.
    pub fn random_int_range(&mut self, min: i32, max: i32) -> (r: i32)
        requires
            old(self).wf(),
            min < max,
        ensures
            final(self).wf(),
            min <= r < max,
    {
        let w = self.next_u64();
        let span = (max as i64) - (min as i64);
        let off = (w % (span as u64)) as i64;
        (min as i64 + off) as i32
    }
}

/// Relies on rand::random: draws one machine word from the thread-local
/// generator, used only to seed the deterministic stream.
#[verifier::external_body]
fn entropy_u64() -> u64 {
    rand::random::<u64>()
}

} // verus!
