//! Axis-aligned bounding boxes and the ray/slab test.
//!
//! The slab interval `[slab_t0, slab_t1]` of a box along a ray is a pure
//! function of the box and the ray; the box test over a parameter interval
//! `[t_min, t_max]` asks whether the two intervals overlap.  An axis whose
//! direction component is zero contributes the full interval when the origin
//! lies inside that slab (never an undefined value), and an empty interval
//! otherwise.

use vstd::prelude::*;
use crate::fx::{
    FX_ONE, FX_MAX, fx_mul, fx_sub, fx_div, fx_min, fx_max,
    smul, ssub, sdiv, smin, smax, lemma_smul_mono,
};
use crate::vector::{Vec3, Point3};
use crate::ray::Ray;

verus! {

/// An axis-aligned box given by its componentwise minimum and maximum
/// corners.
#[derive(Clone, Copy, Debug, PartialEq, Eq, Structural)]
pub struct Aabb {
    pub minimum: Point3,
    pub maximum: Point3,
}

/// `big` bounds `small` on every axis.
pub open spec fn box_contains(big: Aabb, small: Aabb) -> bool {
    &&& big.minimum.x <= small.minimum.x
    &&& big.minimum.y <= small.minimum.y
    &&& big.minimum.z <= small.minimum.z
    &&& small.maximum.x <= big.maximum.x
    &&& small.maximum.y <= big.maximum.y
    &&& small.maximum.z <= big.maximum.z
}

/// Componentwise union of two boxes.
pub open spec fn box_union(a: Aabb, b: Aabb) -> Aabb {
    Aabb {
        minimum: Vec3 {
            x: if a.minimum.x <= b.minimum.x { a.minimum.x } else { b.minimum.x },
            y: if a.minimum.y <= b.minimum.y { a.minimum.y } else { b.minimum.y },
            z: if a.minimum.z <= b.minimum.z { a.minimum.z } else { b.minimum.z },
        },
        maximum: Vec3 {
            x: if a.maximum.x >= b.maximum.x { a.maximum.x } else { b.maximum.x },
            y: if a.maximum.y >= b.maximum.y { a.maximum.y } else { b.maximum.y },
            z: if a.maximum.z >= b.maximum.z { a.maximum.z } else { b.maximum.z },
        },
    }
}

/// Entry and exit parameters of one slab along the ray: the interval where
/// the ray is between `lo` and `hi` on this axis.  A zero direction
/// component gives the full parameter range when the origin is inside the
/// slab and an empty interval otherwise.
pub open spec fn axis_interval(lo: int, hi: int, o: int, d: int) -> (int, int) {
    if d == 0 {
        if lo <= o <= hi {
            (-(FX_MAX as int), FX_MAX as int)
        } else {
            (FX_MAX as int, -(FX_MAX as int))
        }
    } else {
        let inv = sdiv(FX_ONE as int, d);
        let t0 = smul(ssub(lo, o), inv);
        let t1 = smul(ssub(hi, o), inv);
        if inv < 0 {
            (t1, t0)
        } else {
            (t0, t1)
        }
    }
}

/// Latest slab entry over the three axes.
pub open spec fn slab_t0(b: Aabb, r: Ray) -> int {
    smax(
        smax(
            axis_interval(b.minimum.x as int, b.maximum.x as int, r.orig.x as int, r.dir.x as int).0,
            axis_interval(b.minimum.y as int, b.maximum.y as int, r.orig.y as int, r.dir.y as int).0,
        ),
        axis_interval(b.minimum.z as int, b.maximum.z as int, r.orig.z as int, r.dir.z as int).0,
    )
}

/// Earliest slab exit over the three axes.
pub open spec fn slab_t1(b: Aabb, r: Ray) -> int {
    smin(
        smin(
            axis_interval(b.minimum.x as int, b.maximum.x as int, r.orig.x as int, r.dir.x as int).1,
            axis_interval(b.minimum.y as int, b.maximum.y as int, r.orig.y as int, r.dir.y as int).1,
        ),
        axis_interval(b.minimum.z as int, b.maximum.z as int, r.orig.z as int, r.dir.z as int).1,
    )
}

/// The slab interval strictly overlaps `[t_min, t_max]`: a narrowed
/// interval whose upper end has met its lower end counts as a miss, so a
/// single-point tangency is classified as no-hit.
pub open spec fn aabb_hit(b: Aabb, r: Ray, t_min: int, t_max: int) -> bool {
    smax(slab_t0(b, r), t_min) < smin(slab_t1(b, r), t_max)
}

/// The box's slab interval contains the parameter `t` and is not a single
/// point; primitives only report hits whose parameter satisfies this of
/// their own box, which is what makes pruning by the strict box test
/// sound (a hit inside a point-degenerate slab interval would be pruned).
pub open spec fn slab_contains(b: Aabb, r: Ray, t: int) -> bool {
    slab_t0(b, r) <= t <= slab_t1(b, r) && slab_t0(b, r) < slab_t1(b, r)
}

impl Aabb {
    pub fn new(a: Point3, b: Point3) -> (r: Aabb)
        ensures
            r == (Aabb { minimum: a, maximum: b }),
    {
        Aabb { minimum: a, maximum: b }
    }

    /// Entry and exit parameters of the box's slab interval along `r`.
    pub fn slab_bounds(&self, r: &Ray) -> (res: (i64, i64))
        ensures
            res.0 as int == slab_t0(*self, *r),
            res.1 as int == slab_t1(*self, *r),
    {
        let (x0, x1) = axis_bounds(self.minimum.x, self.maximum.x, r.orig.x, r.dir.x);
        let (y0, y1) = axis_bounds(self.minimum.y, self.maximum.y, r.orig.y, r.dir.y);
        let (z0, z1) = axis_bounds(self.minimum.z, self.maximum.z, r.orig.z, r.dir.z);
        (fx_max(fx_max(x0, y0), z0), fx_min(fx_min(x1, y1), z1))
    }

    /// Slab test: does the box's slab interval strictly overlap
    /// `[t_min, t_max]`?
    pub fn hit(&self, r: &Ray, t_min: i64, t_max: i64) -> (res: bool)
        ensures
            res == aabb_hit(*self, *r, t_min as int, t_max as int),
    {
        let (t0, t1) = self.slab_bounds(r);
        fx_max(t0, t_min) < fx_min(t1, t_max)
    }

    /// Componentwise union of two boxes.
    pub fn surrounding_box(box0: &Aabb, box1: &Aabb) -> (r: Aabb)
        ensures
            r == box_union(*box0, *box1),
    {
        let small = Vec3 {
            x: fx_min(box0.minimum.x, box1.minimum.x),
            y: fx_min(box0.minimum.y, box1.minimum.y),
            z: fx_min(box0.minimum.z, box1.minimum.z),
        };
        let big = Vec3 {
            x: fx_max(box0.maximum.x, box1.maximum.x),
            y: fx_max(box0.maximum.y, box1.maximum.y),
            z: fx_max(box0.maximum.z, box1.maximum.z),
        };
        Aabb { minimum: small, maximum: big }
    }
}

/// One slab's entry and exit parameters.
fn axis_bounds(lo: i64, hi: i64, o: i64, d: i64) -> (res: (i64, i64))
    ensures
        res.0 as int == axis_interval(lo as int, hi as int, o as int, d as int).0,
        res.1 as int == axis_interval(lo as int, hi as int, o as int, d as int).1,
{
    if d == 0 {
        if lo <= o && o <= hi {
            (-FX_MAX, FX_MAX)
        } else {
            (FX_MAX, -FX_MAX)
        }
    } else {
        let inv = fx_div(FX_ONE, d);
        let t0 = fx_mul(fx_sub(lo, o), inv);
        let t1 = fx_mul(fx_sub(hi, o), inv);
        if inv < 0 {
            (t1, t0)
        } else {
            (t0, t1)
        }
    }
}

/// The union of two boxes bounds both of them on every axis.
pub proof fn lemma_union_contains(a: Aabb, b: Aabb)
    ensures
        box_contains(box_union(a, b), a),
        box_contains(box_union(a, b), b),
{
}

/// The box union is associative.
pub proof fn lemma_union_assoc(a: Aabb, b: Aabb, c: Aabb)
    ensures
        box_union(box_union(a, b), c) == box_union(a, box_union(b, c)),
{
}

/// Fixed-point multiplication by a nonpositive factor is antitone.
proof fn lemma_smul_antimono(a1: int, a2: int, b: int)
    requires
        a1 <= a2,
        b <= 0,
    ensures
        smul(a2, b) <= smul(a1, b),
{
    assert(a2 * b <= a1 * b) by (nonlinear_arith)
        requires a1 <= a2 && b <= 0;
    crate::fx::lemma_tdiv_mono(a2 * b, a1 * b, 65536);
}

/// A larger box has a larger slab interval along any ray: slabs widen on
/// every axis, so the entry can only move earlier and the exit later.
pub proof fn lemma_contains_widens_slab(big: Aabb, small: Aabb, r: Ray)
    requires
        box_contains(big, small),
    ensures
        slab_t0(big, r) <= slab_t0(small, r),
        slab_t1(small, r) <= slab_t1(big, r),
{
    lemma_axis_widens(
        big.minimum.x as int, big.maximum.x as int,
        small.minimum.x as int, small.maximum.x as int,
        r.orig.x as int, r.dir.x as int,
    );
    lemma_axis_widens(
        big.minimum.y as int, big.maximum.y as int,
        small.minimum.y as int, small.maximum.y as int,
        r.orig.y as int, r.dir.y as int,
    );
    lemma_axis_widens(
        big.minimum.z as int, big.maximum.z as int,
        small.minimum.z as int, small.maximum.z as int,
        r.orig.z as int, r.dir.z as int,
    );
}

/// Widening one slab moves its entry earlier and its exit later.
proof fn lemma_axis_widens(blo: int, bhi: int, slo: int, shi: int, o: int, d: int)
    requires
        blo <= slo,
        shi <= bhi,
    ensures
        axis_interval(blo, bhi, o, d).0 <= axis_interval(slo, shi, o, d).0,
        axis_interval(slo, shi, o, d).1 <= axis_interval(blo, bhi, o, d).1,
{
    if d == 0 {
        if slo <= o <= shi {
            assert(blo <= o <= bhi);
        }
    } else {
        let inv = sdiv(FX_ONE as int, d);
        if inv < 0 {
            lemma_smul_antimono(ssub(blo, o), ssub(slo, o), inv);
            lemma_smul_antimono(ssub(shi, o), ssub(bhi, o), inv);
        } else {
            lemma_smul_mono(ssub(blo, o), ssub(slo, o), inv);
            lemma_smul_mono(ssub(shi, o), ssub(bhi, o), inv);
        }
    }
}

/// A parameter strictly inside the slab interval and strictly inside
/// `[t_min, t_max]` witnesses the box test.
pub proof fn lemma_slab_contains_hit(b: Aabb, r: Ray, t: int, t_min: int, t_max: int)
    requires
        slab_contains(b, r, t),
        t_min < t < t_max,
    ensures
        aabb_hit(b, r, t_min, t_max),
{
}

/// The box test of a contained box implies the box test of the container,
/// given a witness parameter inside the contained box's slab interval.
pub proof fn lemma_contains_slab_contains(big: Aabb, small: Aabb, r: Ray, t: int)
    requires
        box_contains(big, small),
        slab_contains(small, r, t),
    ensures
        slab_contains(big, r, t),
{
    lemma_contains_widens_slab(big, small, r);
}

} // verus!
