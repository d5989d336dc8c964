//! Three-component fixed-point vectors, used for points, directions and
//! colors.
//!
//! Every executable operation is proved equal to a specification mirror
//! (`vadd`, `sdot`, ...) that states the exact saturated fixed-point result.

use vstd::prelude::*;
use crate::fx::{
    FX_ONE, fx_add, fx_sub, fx_neg, fx_mul, fx_div, fx_sqrt, fx_abs, fx_min,
    sadd, ssub, sneg, smul, sdiv, ssqrt, sabs, smin, fx_in_range,
};
use crate::rng::XorRand;

verus! {

/// A vector of three fixed-point scalars.
#[derive(Clone, Copy, Debug, PartialEq, Eq, Structural)]
pub struct Vec3 {
    pub x: i64,
    pub y: i64,
    pub z: i64,
}

/// A point in space.
pub type Point3 = Vec3;

/// An RGB color; 1.0 per channel is full intensity.
pub type Color = Vec3;

/// All three components are representable scalars.
pub open spec fn vwf(v: Vec3) -> bool {
    fx_in_range(v.x as int) && fx_in_range(v.y as int) && fx_in_range(v.z as int)
}

/// Build a vector from three unbounded components known to be in range.
pub open spec fn v3(x: int, y: int, z: int) -> Vec3 {
    Vec3 { x: x as i64, y: y as i64, z: z as i64 }
}

/// Componentwise saturated sum.
pub open spec fn vadd(a: Vec3, b: Vec3) -> Vec3 {
    v3(sadd(a.x as int, b.x as int), sadd(a.y as int, b.y as int), sadd(a.z as int, b.z as int))
}

/// Componentwise saturated difference.
pub open spec fn vsub(a: Vec3, b: Vec3) -> Vec3 {
    v3(ssub(a.x as int, b.x as int), ssub(a.y as int, b.y as int), ssub(a.z as int, b.z as int))
}

/// Componentwise negation.
pub open spec fn vneg(a: Vec3) -> Vec3 {
    v3(sneg(a.x as int), sneg(a.y as int), sneg(a.z as int))
}

/// Componentwise (Hadamard) product.
pub open spec fn vhad(a: Vec3, b: Vec3) -> Vec3 {
    v3(smul(a.x as int, b.x as int), smul(a.y as int, b.y as int), smul(a.z as int, b.z as int))
}

/// Scale by a scalar.
pub open spec fn vscale(a: Vec3, s: int) -> Vec3 {
    v3(smul(a.x as int, s), smul(a.y as int, s), smul(a.z as int, s))
}

/// Divide each component by a scalar.
pub open spec fn vdiv(a: Vec3, s: int) -> Vec3 {
    v3(sdiv(a.x as int, s), sdiv(a.y as int, s), sdiv(a.z as int, s))
}

/// Saturated fixed-point dot product.
pub open spec fn sdot(a: Vec3, b: Vec3) -> int {
    sadd(
        sadd(smul(a.x as int, b.x as int), smul(a.y as int, b.y as int)),
        smul(a.z as int, b.z as int),
    )
}

/// Saturated cross product.
pub open spec fn vcross(a: Vec3, b: Vec3) -> Vec3 {
    v3(
        ssub(smul(a.y as int, b.z as int), smul(a.z as int, b.y as int)),
        ssub(smul(a.z as int, b.x as int), smul(a.x as int, b.z as int)),
        ssub(smul(a.x as int, b.y as int), smul(a.y as int, b.x as int)),
    )
}

/// Squared length.
pub open spec fn ssqrlen(a: Vec3) -> int {
    sdot(a, a)
}

/// Length: square root of the squared length.
pub open spec fn slen(a: Vec3) -> int {
    ssqrt(ssqrlen(a))
}

/// Normalization: each component divided by the length.
pub open spec fn vunit(a: Vec3) -> Vec3 {
    vdiv(a, slen(a))
}

/// A vector whose every component rounds to the zero grid cell.
pub open spec fn near_zero(a: Vec3) -> bool {
    sabs(a.x as int) < 1 && sabs(a.y as int) < 1 && sabs(a.z as int) < 1
}

/// Mirror reflection of `v` about the unit normal `n`.
pub open spec fn sreflect(v: Vec3, n: Vec3) -> Vec3 {
    vsub(v, vscale(n, sadd(sdot(v, n), sdot(v, n))))
}

/// Snell refraction of the unit vector `uv` at the unit normal `n` with
/// index ratio `etai_over_etat`.
pub open spec fn srefract(uv: Vec3, n: Vec3, etai_over_etat: int) -> Vec3 {
    let cos_theta = smin(sdot(vneg(uv), n), FX_ONE as int);
    let r_out_perp = vscale(vadd(uv, vscale(n, cos_theta)), etai_over_etat);
    let r_out_parallel = vscale(n, sneg(ssqrt(sabs(ssub(FX_ONE as int, ssqrlen(r_out_perp))))));
    vadd(r_out_perp, r_out_parallel)
}

impl Vec3 {
    /// Build a vector.
    pub fn new(x: i64, y: i64, z: i64) -> (r: Vec3)
        ensures
            r == (Vec3 { x, y, z }),
    {
        Vec3 { x, y, z }
    }

    /// Build a color from three channels.
    pub fn color(r: i64, g: i64, b: i64) -> (c: Color)
        ensures
            c == (Vec3 { x: r, y: g, z: b }),
    {
        Vec3 { x: r, y: g, z: b }
    }

    pub fn to_array(&self) -> (r: [i64; 3])
        ensures
            r[0] == self.x && r[1] == self.y && r[2] == self.z,
    {
        [self.x, self.y, self.z]
    }

    pub fn x(&self) -> (r: i64)
        ensures
            r == self.x,
    {
        self.x
    }

    pub fn y(&self) -> (r: i64)
        ensures
            r == self.y,
    {
        self.y
    }

    pub fn z(&self) -> (r: i64)
        ensures
            r == self.z,
    {
        self.z
    }

    pub fn r(&self) -> (r: i64)
        ensures
            r == self.x,
    {
        self.x
    }

    pub fn g(&self) -> (r: i64)
        ensures
            r == self.y,
    {
        self.y
    }

    pub fn b(&self) -> (r: i64)
        ensures
            r == self.z,
    {
        self.z
    }

    /// Componentwise saturated sum.
    pub fn add(self, rhs: Vec3) -> (r: Vec3)
        ensures
            r == vadd(self, rhs),
            vwf(r),
    {
        Vec3 { x: fx_add(self.x, rhs.x), y: fx_add(self.y, rhs.y), z: fx_add(self.z, rhs.z) }
    }

    /// Componentwise saturated difference.
    pub fn sub(self, rhs: Vec3) -> (r: Vec3)
        ensures
            r == vsub(self, rhs),
            vwf(r),
    {
        Vec3 { x: fx_sub(self.x, rhs.x), y: fx_sub(self.y, rhs.y), z: fx_sub(self.z, rhs.z) }
    }

    /// Componentwise negation.
    pub fn neg(self) -> (r: Vec3)
        requires
            vwf(self),
        ensures
            r == vneg(self),
            vwf(r),
    {
        Vec3 { x: fx_neg(self.x), y: fx_neg(self.y), z: fx_neg(self.z) }
    }

    /// Componentwise (Hadamard) product.
    pub fn mul(self, rhs: Vec3) -> (r: Vec3)
        ensures
            r == vhad(self, rhs),
            vwf(r),
    {
        Vec3 { x: fx_mul(self.x, rhs.x), y: fx_mul(self.y, rhs.y), z: fx_mul(self.z, rhs.z) }
    }

    /// Scale by a scalar.
    pub fn scale(self, s: i64) -> (r: Vec3)
        ensures
            r == vscale(self, s as int),
            vwf(r),
    {
        Vec3 { x: fx_mul(self.x, s), y: fx_mul(self.y, s), z: fx_mul(self.z, s) }
    }

    /// Divide each component by a scalar.
    pub fn div(self, s: i64) -> (r: Vec3)
        ensures
            r == vdiv(self, s as int),
            vwf(r),
    {
        Vec3 { x: fx_div(self.x, s), y: fx_div(self.y, s), z: fx_div(self.z, s) }
    }

    /// Saturated squared length.
    pub fn sqrlen(&self) -> (r: i64)
        ensures
            r as int == ssqrlen(*self),
    {
        dot(*self, *self)
    }

    /// Saturated length.
    pub fn len(&self) -> (r: i64)
        ensures
            r as int == slen(*self),
            r >= 0,
    {
        fx_sqrt(self.sqrlen())
    }

    /// True when every component rounds to the zero grid cell.
    pub fn zero_near(&self) -> (r: bool)
        requires
            vwf(*self),
        ensures
            r == near_zero(*self),
    {
        fx_abs(self.x) < 1 && fx_abs(self.y) < 1 && fx_abs(self.z) < 1
    }

    /// Draw a vector with each component uniform over `[0, 1)`.
    pub fn random(rng: &mut XorRand) -> (r: Vec3)
        requires
            old(rng).wf(),
        ensures
            final(rng).wf(),
            vwf(r),
            0 <= r.x < FX_ONE && 0 <= r.y < FX_ONE && 0 <= r.z < FX_ONE,
    {
        let x = rng.random_unit();
        let y = rng.random_unit();
        let z = rng.random_unit();
        Vec3 { x, y, z }
    }

    /// Draw a vector with each component in `[min, max)`.
    pub fn random_range(rng: &mut XorRand, min: i64, max: i64) -> (r: Vec3)
        requires
            old(rng).wf(),
            min <= max,
            crate::fx::fx_in_range(min as int),
            crate::fx::fx_in_range(max as int),
        ensures
            final(rng).wf(),
            min <= r.x <= max && min <= r.y <= max && min <= r.z <= max,
    {
        let x = rng.random_range(min, max);
        let y = rng.random_range(min, max);
        let z = rng.random_range(min, max);
        Vec3 { x, y, z }
    }
}

/// Saturated fixed-point dot product.
pub fn dot(u: Vec3, v: Vec3) -> (r: i64)
    ensures
        r as int == sdot(u, v),
{
    fx_add(fx_add(fx_mul(u.x, v.x), fx_mul(u.y, v.y)), fx_mul(u.z, v.z))
}

/// Saturated cross product.
pub fn cross(u: Vec3, v: Vec3) -> (r: Vec3)
    ensures
        r == vcross(u, v),
{
    Vec3 {
        x: fx_sub(fx_mul(u.y, v.z), fx_mul(u.z, v.y)),
        y: fx_sub(fx_mul(u.z, v.x), fx_mul(u.x, v.z)),
        z: fx_sub(fx_mul(u.x, v.y), fx_mul(u.y, v.x)),
    }
}

/// Normalize `v`; a zero-length vector saturates componentwise.
pub fn unit_vector(v: Vec3) -> (r: Vec3)
    ensures
        r == vunit(v),
{
    let l = v.len();
    v.div(l)
}

/// Mirror reflection of `v` about the unit normal `n`.
pub fn reflect(v: Vec3, n: Vec3) -> (r: Vec3)
    ensures
        r == sreflect(v, n),
{
    let d = dot(v, n);
    v.sub(n.scale(fx_add(d, d)))
}

/// Snell refraction of the unit vector `uv` at the unit normal `n` with
/// index ratio `etai_over_etat`.
pub fn refract(uv: &Vec3, n: &Vec3, etai_over_etat: i64) -> (r: Vec3)
    requires
        vwf(*uv),
        vwf(*n),
    ensures
        r == srefract(*uv, *n, etai_over_etat as int),
{
    let cos_theta = fx_min(dot(uv.neg(), *n), FX_ONE);
    let r_out_perp = uv.add(n.scale(cos_theta)).scale(etai_over_etat);
    let r_out_parallel = n.scale(fx_neg(fx_sqrt(fx_abs(fx_sub(FX_ONE, r_out_perp.sqrlen())))));
    r_out_perp.add(r_out_parallel)
}

/// Draw a vector inside the unit sphere; after a bounded number of rejected
/// draws the attempt falls back to a fixed interior vector.
pub fn random_in_unit_sphere(rng: &mut XorRand) -> (r: Vec3)
    requires
        old(rng).wf(),
    ensures
        final(rng).wf(),
        vwf(r),
        ssqrlen(r) < FX_ONE,
{
    let mut tries: u32 = 0;
    while tries < 64
        invariant
            rng.wf(),
        decreases 64 - tries,
    {
        let p = Vec3::random_range(rng, -FX_ONE, FX_ONE);
        if p.sqrlen() < FX_ONE {
            return p;
        }
        tries = tries + 1;
    }
    proof {
        crate::fx::lemma_tdiv_nonneg(0, 65536);
    }
    Vec3 { x: 0, y: 0, z: 0 }
}

/// Draw a vector inside the unit disk in the xy-plane, with the same
/// bounded-retry fallback.
pub fn random_in_unit_disk(rng: &mut XorRand) -> (r: Vec3)
    requires
        old(rng).wf(),
    ensures
        final(rng).wf(),
        vwf(r),
        ssqrlen(r) < FX_ONE,
        r.z == 0,
{
    let mut tries: u32 = 0;
    while tries < 64
        invariant
            rng.wf(),
        decreases 64 - tries,
    {
        let x = rng.random_range(-FX_ONE, FX_ONE);
        let y = rng.random_range(-FX_ONE, FX_ONE);
        let p = Vec3 { x, y, z: 0 };
        if p.sqrlen() < FX_ONE {
            return p;
        }
        tries = tries + 1;
    }
    proof {
        crate::fx::lemma_tdiv_nonneg(0, 65536);
    }
    Vec3 { x: 0, y: 0, z: 0 }
}

/// Draw a direction on (a fixed-point approximation of) the unit sphere.
pub fn random_unit_vector(rng: &mut XorRand) -> (r: Vec3)
    requires
        old(rng).wf(),
    ensures
        final(rng).wf(),
        vwf(r),
{
    let p = random_in_unit_sphere(rng);
    unit_vector(p)
}

} // verus!
