//! Geometric primitives and their ray intersections.
//!
//! Deterministic primitives (everything except the volumetric medium) have
//! an exact specification mirror `obj_hit`; the executable `Object::hit` is
//! proved equal to it and to leave the random stream untouched.  Every hit,
//! stochastic or not, is filtered through the primitive's own bounding box:
//! a reported parameter always lies strictly inside the box's slab interval
//! along the ray, which is what makes pruning by the strict box test sound.
//! The filter is part of the stated behavior, not an implementation detail:
//! for translations and rotations a conjugated inner hit whose rounded
//! parameter falls outside the precomputed box's slab interval is
//! suppressed, which with saturating arithmetic can happen near the
//! representable extremes and, for rotations, by truncation in the rotation
//! products.
//!
//! A sphere's surface parametrization needs inverse trigonometry that the
//! fixed-point core does not provide; spheres therefore report a
//! piecewise-linear approximation of it (a diamond-angle azimuth and a
//! linear-in-cosine latitude), exact at the coordinate directions.
//! Rectangles carry their exact parametrization.

use vstd::prelude::*;
use crate::fx::{
    FX_ONE, FX_MAX, fx_add, fx_sub, fx_neg, fx_mul, fx_div, fx_sqrt, fx_max, fx_min, clamp,
    sadd, ssub, sneg, smul, sdiv, ssqrt, smin, smax, sclamp,
    lemma_tdiv_nonneg, lemma_smul_mono, lemma_sdiv_smul_le, lemma_smul_mono_right,
    lemma_sdiv_mono_num, lemma_sdiv_frac,
};
use crate::vector::{
    Vec3, Point3, dot, sdot, vadd, vsub, vneg, vscale, vdiv, ssqrlen, slen, v3, vwf,
};
use crate::ray::{Ray, ray_at};
use crate::rng::{XorRand, xs_step};
use crate::aabb::{
    Aabb, box_union, box_contains, slab_contains, lemma_contains_widens_slab,
};
use crate::hittable::HitRecord;
use crate::material::{Material, Isotropic};
use crate::texture::{Texture, SolidColor};

verus! {

/// Padding applied to the thin axis of a rectangle's bounding box, and the
/// offset between the two boundary queries of a volumetric medium.
pub const EPS_PAD: i64 = 7;

/// `log10(2)` in fixed-point units.
pub const LOG10_2: i64 = 19728;

/// A scene primitive.
#[derive(Debug)]
pub enum Object {
    Sphere(Sphere),
    MovingSphere(MovingSphere),
    XyRect(XyRect),
    XzRect(XzRect),
    YzRect(YzRect),
    BoxObject(BoxObject),
    Translate(Translate),
    RotateY(RotateY),
    ConstantMedium(ConstantMedium),
}

#[derive(Clone, Copy, Debug)]
pub struct Sphere {
    pub center: Point3,
    pub radius: i64,
    pub material: Material,
}

/// A sphere whose center moves linearly between `center0` at `time0` and
/// `center1` at `time1`.
#[derive(Clone, Copy, Debug)]
pub struct MovingSphere {
    pub center0: Point3,
    pub center1: Point3,
    pub time0: i64,
    pub time1: i64,
    pub radius: i64,
    pub material: Material,
}

/// An axis-aligned rectangle in the plane `z == k`.
#[derive(Clone, Copy, Debug)]
pub struct XyRect {
    pub x0: i64,
    pub x1: i64,
    pub y0: i64,
    pub y1: i64,
    pub k: i64,
    pub material: Material,
}

/// An axis-aligned rectangle in the plane `y == k`.
#[derive(Clone, Copy, Debug)]
pub struct XzRect {
    pub x0: i64,
    pub x1: i64,
    pub z0: i64,
    pub z1: i64,
    pub k: i64,
    pub material: Material,
}

/// An axis-aligned rectangle in the plane `x == k`.
#[derive(Clone, Copy, Debug)]
pub struct YzRect {
    pub y0: i64,
    pub y1: i64,
    pub z0: i64,
    pub z1: i64,
    pub k: i64,
    pub material: Material,
}

/// An axis-aligned box made of six rectangles.
#[derive(Clone, Copy, Debug)]
pub struct BoxObject {
    pub box_min: Point3,
    pub box_max: Point3,
    pub side_xy0: XyRect,
    pub side_xy1: XyRect,
    pub side_xz0: XzRect,
    pub side_xz1: XzRect,
    pub side_yz0: YzRect,
    pub side_yz1: YzRect,
}

/// A primitive shifted by a constant offset.
#[derive(Debug)]
pub struct Translate {
    pub obj: Box<Object>,
    pub offset: Vec3,
}

/// A primitive rotated about the y-axis; the sine and cosine of the angle
/// and the rotated bounding box are fixed at construction.
#[derive(Debug)]
pub struct RotateY {
    pub obj: Box<Object>,
    pub sin_theta: i64,
    pub cos_theta: i64,
    pub bbox: Option<Aabb>,
}

/// A volume of constant density inside a boundary primitive; a ray
/// scatters inside it after a random optical depth.
#[derive(Debug)]
pub struct ConstantMedium {
    pub boundary: Box<Object>,
    pub phase_function: Material,
    pub neg_inv_density: i64,
}

/// No volumetric medium occurs anywhere in the primitive, so its hit is a
/// pure function of the ray and the query interval.
pub open spec fn deterministic(o: Object) -> bool
    decreases o,
{
    match o {
        Object::ConstantMedium(_) => false,
        Object::Translate(t) => deterministic(*t.obj),
        Object::RotateY(ry) => deterministic(*ry.obj),
        _ => true,
    }
}

/// Geometric well-formedness: positive radii, ordered rectangle and box
/// extents, and a proper stored box on rotations.
pub open spec fn wf_obj(o: Object) -> bool
    decreases o,
{
    match o {
        Object::Sphere(_) => true,
        Object::MovingSphere(_) => true,
        Object::XyRect(rc) => rc.x0 <= rc.x1 && rc.y0 <= rc.y1,
        Object::XzRect(rc) => rc.x0 <= rc.x1 && rc.z0 <= rc.z1,
        Object::YzRect(rc) => rc.y0 <= rc.y1 && rc.z0 <= rc.z1,
        Object::BoxObject(b) => b.box_min.x <= b.box_max.x && b.box_min.y <= b.box_max.y
            && b.box_min.z <= b.box_max.z,
        Object::Translate(t) => wf_obj(*t.obj),
        Object::RotateY(ry) => wf_obj(*ry.obj) && (ry.bbox matches Some(bb) ==> box_proper(bb)),
        Object::ConstantMedium(cm) => wf_obj(*cm.boundary),
    }
}

/// The box's minimum is at most its maximum on every axis.
pub open spec fn box_proper(b: Aabb) -> bool {
    b.minimum.x <= b.maximum.x && b.minimum.y <= b.maximum.y && b.minimum.z <= b.maximum.z
}

/// The interpolated center of a moving sphere at `time`.
#[verifier::opaque]
pub open spec fn ms_center(ms: MovingSphere, time: int) -> Point3 {
    vadd(
        ms.center0,
        vscale(
            vsub(ms.center1, ms.center0),
            sdiv(ssub(time, ms.time0 as int), ssub(ms.time1 as int, ms.time0 as int)),
        ),
    )
}

/// The box of a sphere of radius `rad` centered at `c`: the extent is the
/// radius magnitude, so the negative-radius bubble configuration still gets
/// a proper box around its shell.
pub open spec fn sphere_box(c: Point3, rad: int) -> Aabb {
    let m = crate::fx::fx_clip(crate::fx::sabs(rad));
    Aabb {
        minimum: v3(ssub(c.x as int, m), ssub(c.y as int, m), ssub(c.z as int, m)),
        maximum: v3(sadd(c.x as int, m), sadd(c.y as int, m), sadd(c.z as int, m)),
    }
}

/// The bounding box a primitive reports for the time interval
/// `[time0, time1]`; `None` only when a rotation was built around a
/// primitive with no box.
#[verifier::opaque]
pub open spec fn obj_bbox(o: Object, time0: int, time1: int) -> Option<Aabb>
    decreases o,
{
    match o {
        Object::Sphere(s) => Some(sphere_box(s.center, s.radius as int)),
        Object::MovingSphere(ms) => Some(
            box_union(
                sphere_box(ms_center(ms, time0), ms.radius as int),
                sphere_box(ms_center(ms, time1), ms.radius as int),
            ),
        ),
        Object::XyRect(rc) => Some(
            Aabb {
                minimum: v3(rc.x0 as int, rc.y0 as int, ssub(rc.k as int, EPS_PAD as int)),
                maximum: v3(rc.x1 as int, rc.y1 as int, sadd(rc.k as int, EPS_PAD as int)),
            },
        ),
        Object::XzRect(rc) => Some(
            Aabb {
                minimum: v3(rc.x0 as int, ssub(rc.k as int, EPS_PAD as int), rc.z0 as int),
                maximum: v3(rc.x1 as int, sadd(rc.k as int, EPS_PAD as int), rc.z1 as int),
            },
        ),
        Object::YzRect(rc) => Some(
            Aabb {
                minimum: v3(ssub(rc.k as int, EPS_PAD as int), rc.y0 as int, rc.z0 as int),
                maximum: v3(sadd(rc.k as int, EPS_PAD as int), rc.y1 as int, rc.z1 as int),
            },
        ),
        Object::BoxObject(b) => Some(Aabb { minimum: b.box_min, maximum: b.box_max }),
        Object::Translate(t) => match obj_bbox(*t.obj, time0, time1) {
            Some(bb) => Some(
                Aabb { minimum: vadd(bb.minimum, t.offset), maximum: vadd(bb.maximum, t.offset) },
            ),
            None => None,
        },
        Object::RotateY(ry) => ry.bbox,
        Object::ConstantMedium(cm) => obj_bbox(*cm.boundary, time0, time1),
    }
}

/// The azimuthal surface coordinate of a sphere's outward normal: a
/// piecewise-linear "diamond angle" standing in for `atan2`, shifted so
/// the result at the coordinate directions matches the trigonometric
/// parametrization exactly (the normal (0, 0, -1) maps to 3/4).
pub open spec fn sphere_u(outward: Vec3) -> int {
    let a = outward.x as int;
    let b = sneg(outward.z as int);
    let d = if a == 0 && b == 0 {
        0
    } else if a >= 0 && b >= 0 {
        sdiv(b, sadd(a, b))
    } else if a < 0 && b >= 0 {
        sadd(FX_ONE as int, sdiv(sneg(a), sadd(sneg(a), b)))
    } else if a < 0 {
        sadd(131072, sdiv(sneg(b), sadd(sneg(a), sneg(b))))
    } else {
        sadd(196608, sdiv(a, sadd(a, sneg(b))))
    };
    let u0 = sadd(sdiv(d, 262144), 32768);
    if u0 >= FX_ONE as int {
        ssub(u0, FX_ONE as int)
    } else {
        u0
    }
}

/// The latitudinal surface coordinate: linear in the normal's vertical
/// component, matching the trigonometric parametrization at the poles and
/// the equator.
pub open spec fn sphere_v(outward: Vec3) -> int {
    sclamp(sdiv(sadd(FX_ONE as int, outward.y as int), 131072), 0, FX_ONE as int)
}

/// Compute the sphere surface coordinates of an outward normal.
fn sphere_uv(outward: &Vec3) -> (res: (i64, i64))
    requires
        vwf(*outward),
    ensures
        res.0 as int == sphere_u(*outward),
        res.1 as int == sphere_v(*outward),
        0 <= res.0 < FX_ONE,
        0 <= res.1 <= FX_ONE,
{
    let a = outward.x;
    let b = fx_neg(outward.z);
    let d: i64 = if a == 0 && b == 0 {
        0
    } else if a >= 0 && b >= 0 {
        proof {
            lemma_sdiv_frac(b as int, sadd(a as int, b as int));
        }
        fx_div(b, fx_add(a, b))
    } else if a < 0 && b >= 0 {
        proof {
            lemma_sdiv_frac(sneg(a as int), sadd(sneg(a as int), b as int));
        }
        fx_add(FX_ONE, fx_div(fx_neg(a), fx_add(fx_neg(a), b)))
    } else if a < 0 {
        proof {
            lemma_sdiv_frac(sneg(b as int), sadd(sneg(a as int), sneg(b as int)));
        }
        fx_add(131072, fx_div(fx_neg(b), fx_add(fx_neg(a), fx_neg(b))))
    } else {
        proof {
            lemma_sdiv_frac(a as int, sadd(a as int, sneg(b as int)));
        }
        fx_add(196608, fx_div(a, fx_add(a, fx_neg(b))))
    };
    proof {
        lemma_tdiv_nonneg(d as int * 65536, 262144);
        crate::fx::lemma_tdiv_mono(d as int * 65536, 262144int * 65536, 262144);
        lemma_tdiv_nonneg(262144int * 65536, 262144);
    }
    let u0 = fx_add(fx_div(d, 262144), 32768);
    let u = if u0 >= FX_ONE {
        fx_sub(u0, FX_ONE)
    } else {
        u0
    };
    let v = clamp(fx_div(fx_add(FX_ONE, outward.y), 131072), 0, FX_ONE);
    (u, v)
}

/// Orient an outward normal against the ray direction.
pub open spec fn oriented_normal(dir: Vec3, outward: Vec3) -> (Vec3, bool) {
    let ff = sdot(dir, outward) < 0;
    (if ff { outward } else { vneg(outward) }, ff)
}

/// The hit record of a sphere at parameter `root`.
pub open spec fn sphere_rec(center: Point3, radius: int, material: Material, r: Ray, root: int)
    -> HitRecord {
    let p = ray_at(r, root);
    let outward = vdiv(vsub(p, center), radius);
    let on = oriented_normal(r.dir, outward);
    HitRecord {
        p,
        normal: on.0,
        material,
        t: root as i64,
        u: sphere_u(outward) as i64,
        v: sphere_v(outward) as i64,
        front_face: on.1,
    }
}

/// Ray/sphere intersection: solve the quadratic, then take the nearer root
/// strictly inside `(t_min, t_max)`, or the farther one.
#[verifier::opaque]
pub open spec fn sphere_raw_hit(
    center: Point3,
    radius: int,
    material: Material,
    r: Ray,
    t_min: int,
    t_max: int,
) -> Option<HitRecord> {
    let oc = vsub(r.orig, center);
    let a = ssqrlen(r.dir);
    let half_b = sdot(oc, r.dir);
    let c = ssub(ssqrlen(oc), smul(radius, radius));
    let disc = ssub(smul(half_b, half_b), smul(a, c));
    if disc >= 0 {
        let sqrtd = ssqrt(disc);
        let root_a = sdiv(ssub(sneg(half_b), sqrtd), a);
        let root_b = sdiv(sadd(sneg(half_b), sqrtd), a);
        if t_min < root_a && root_a < t_max {
            Some(sphere_rec(center, radius, material, r, root_a))
        } else if t_min < root_b && root_b < t_max {
            Some(sphere_rec(center, radius, material, r, root_b))
        } else {
            None
        }
    } else {
        None
    }
}

/// Ray/rectangle intersection in the plane `z == k`.
#[verifier::opaque]
pub open spec fn xy_rect_raw_hit(rc: XyRect, r: Ray, t_min: int, t_max: int) -> Option<
    HitRecord,
> {
    let t = sdiv(ssub(rc.k as int, r.orig.z as int), r.dir.z as int);
    if t <= t_min || t >= t_max {
        None
    } else {
        let x = sadd(r.orig.x as int, smul(t, r.dir.x as int));
        let y = sadd(r.orig.y as int, smul(t, r.dir.y as int));
        if x < rc.x0 || x > rc.x1 || y < rc.y0 || y > rc.y1 {
            None
        } else {
            let u = sdiv(ssub(x, rc.x0 as int), ssub(rc.x1 as int, rc.x0 as int));
            let v = sdiv(ssub(y, rc.y0 as int), ssub(rc.y1 as int, rc.y0 as int));
            let on = oriented_normal(r.dir, v3(0, 0, FX_ONE as int));
            Some(
                HitRecord {
                    p: ray_at(r, t),
                    normal: on.0,
                    material: rc.material,
                    t: t as i64,
                    u: u as i64,
                    v: v as i64,
                    front_face: on.1,
                },
            )
        }
    }
}

/// Ray/rectangle intersection in the plane `y == k`.
#[verifier::opaque]
pub open spec fn xz_rect_raw_hit(rc: XzRect, r: Ray, t_min: int, t_max: int) -> Option<
    HitRecord,
> {
    let t = sdiv(ssub(rc.k as int, r.orig.y as int), r.dir.y as int);
    if t <= t_min || t >= t_max {
        None
    } else {
        let x = sadd(r.orig.x as int, smul(t, r.dir.x as int));
        let z = sadd(r.orig.z as int, smul(t, r.dir.z as int));
        if x < rc.x0 || x > rc.x1 || z < rc.z0 || z > rc.z1 {
            None
        } else {
            let u = sdiv(ssub(x, rc.x0 as int), ssub(rc.x1 as int, rc.x0 as int));
            let v = sdiv(ssub(z, rc.z0 as int), ssub(rc.z1 as int, rc.z0 as int));
            let on = oriented_normal(r.dir, v3(0, FX_ONE as int, 0));
            Some(
                HitRecord {
                    p: ray_at(r, t),
                    normal: on.0,
                    material: rc.material,
                    t: t as i64,
                    u: u as i64,
                    v: v as i64,
                    front_face: on.1,
                },
            )
        }
    }
}

/// Ray/rectangle intersection in the plane `x == k`.
#[verifier::opaque]
pub open spec fn yz_rect_raw_hit(rc: YzRect, r: Ray, t_min: int, t_max: int) -> Option<
    HitRecord,
> {
    let t = sdiv(ssub(rc.k as int, r.orig.x as int), r.dir.x as int);
    if t <= t_min || t >= t_max {
        None
    } else {
        let y = sadd(r.orig.y as int, smul(t, r.dir.y as int));
        let z = sadd(r.orig.z as int, smul(t, r.dir.z as int));
        if y < rc.y0 || y > rc.y1 || z < rc.z0 || z > rc.z1 {
            None
        } else {
            let u = sdiv(ssub(y, rc.y0 as int), ssub(rc.y1 as int, rc.y0 as int));
            let v = sdiv(ssub(z, rc.z0 as int), ssub(rc.z1 as int, rc.z0 as int));
            let on = oriented_normal(r.dir, v3(FX_ONE as int, 0, 0));
            Some(
                HitRecord {
                    p: ray_at(r, t),
                    normal: on.0,
                    material: rc.material,
                    t: t as i64,
                    u: u as i64,
                    v: v as i64,
                    front_face: on.1,
                },
            )
        }
    }
}

/// Of two optional hits, keep the nearer; on a tie the second wins, which
/// matches scanning the sides in order with a shrinking upper bound.
pub open spec fn nearer_hit(cur: Option<HitRecord>, nxt: Option<HitRecord>) -> Option<
    HitRecord,
> {
    match nxt {
        None => cur,
        Some(n) => match cur {
            None => Some(n),
            Some(c) => if n.t <= c.t {
                Some(n)
            } else {
                Some(c)
            },
        },
    }
}

/// Ray/box intersection: the nearest of the six side hits.
#[verifier::opaque]
pub open spec fn box_raw_hit(b: BoxObject, r: Ray, t_min: int, t_max: int) -> Option<HitRecord> {
    let h1 = xy_rect_raw_hit(b.side_xy0, r, t_min, t_max);
    let h2 = xy_rect_raw_hit(b.side_xy1, r, t_min, t_max);
    let h3 = xz_rect_raw_hit(b.side_xz0, r, t_min, t_max);
    let h4 = xz_rect_raw_hit(b.side_xz1, r, t_min, t_max);
    let h5 = yz_rect_raw_hit(b.side_yz0, r, t_min, t_max);
    let h6 = yz_rect_raw_hit(b.side_yz1, r, t_min, t_max);
    nearer_hit(nearer_hit(nearer_hit(nearer_hit(nearer_hit(h1, h2), h3), h4), h5), h6)
}

/// The record a translation reports: the inner record moved back, with the
/// normal re-oriented against the moved ray.
pub open spec fn translate_rec(rec: HitRecord, moved: Ray, offset: Vec3) -> HitRecord {
    let on = oriented_normal(moved.dir, rec.normal);
    HitRecord {
        p: vadd(rec.p, offset),
        normal: on.0,
        material: rec.material,
        t: rec.t,
        u: rec.u,
        v: rec.v,
        front_face: on.1,
    }
}

/// The ray a rotation hands to its inner primitive.
pub open spec fn rotate_ray(ry: RotateY, r: Ray) -> Ray {
    let cos = ry.cos_theta as int;
    let sin = ry.sin_theta as int;
    Ray {
        orig: v3(
            ssub(smul(cos, r.orig.x as int), smul(sin, r.orig.z as int)),
            r.orig.y as int,
            sadd(smul(sin, r.orig.x as int), smul(cos, r.orig.z as int)),
        ),
        dir: v3(
            ssub(smul(cos, r.dir.x as int), smul(sin, r.dir.z as int)),
            r.dir.y as int,
            sadd(smul(sin, r.dir.x as int), smul(cos, r.dir.z as int)),
        ),
        time: r.time,
    }
}

/// The record a rotation reports: hit point and normal rotated back, with
/// the normal re-oriented against the rotated ray.
pub open spec fn rotate_rec(ry: RotateY, rec: HitRecord, rotated: Ray) -> HitRecord {
    let cos = ry.cos_theta as int;
    let sin = ry.sin_theta as int;
    let p = v3(
        sadd(smul(cos, rec.p.x as int), smul(sin, rec.p.z as int)),
        rec.p.y as int,
        ssub(smul(cos, rec.p.z as int), smul(sin, rec.p.x as int)),
    );
    let normal0 = v3(
        sadd(smul(cos, rec.normal.x as int), smul(sin, rec.normal.z as int)),
        rec.normal.y as int,
        ssub(smul(cos, rec.normal.z as int), smul(sin, rec.normal.x as int)),
    );
    let on = oriented_normal(rotated.dir, normal0);
    HitRecord {
        p,
        normal: on.0,
        material: rec.material,
        t: rec.t,
        u: rec.u,
        v: rec.v,
        front_face: on.1,
    }
}

/// Normalize a box so its minimum is at most its maximum on every axis.
pub open spec fn box_norm(b: Aabb) -> Aabb {
    Aabb {
        minimum: v3(
            smin(b.minimum.x as int, b.maximum.x as int),
            smin(b.minimum.y as int, b.maximum.y as int),
            smin(b.minimum.z as int, b.maximum.z as int),
        ),
        maximum: v3(
            smax(b.minimum.x as int, b.maximum.x as int),
            smax(b.minimum.y as int, b.maximum.y as int),
            smax(b.minimum.z as int, b.maximum.z as int),
        ),
    }
}

/// Filter a hit through a bounding box: a surviving hit's parameter lies in
/// the (normalized) box's slab interval along the ray.
#[verifier::opaque]
pub open spec fn guard_spec(bb: Option<Aabb>, r: Ray, res: Option<HitRecord>) -> Option<
    HitRecord,
> {
    match res {
        None => None,
        Some(rec) => match bb {
            None => Some(rec),
            Some(b) => if slab_contains(box_norm(b), r, rec.t as int) {
                Some(rec)
            } else {
                None
            },
        },
    }
}

/// The hit of a deterministic primitive over `[t_min, t_max]` (exclusive
/// bounds where the primitive uses them), guarded by its own bounding box
/// at the ray's time.  Volumetric media are stochastic and have no mirror:
/// this function is `None` for them.
pub open spec fn obj_hit(o: Object, r: Ray, t_min: int, t_max: int) -> Option<HitRecord>
    decreases o,
{
    let raw = match o {
        Object::Sphere(s) => sphere_raw_hit(s.center, s.radius as int, s.material, r, t_min, t_max),
        Object::MovingSphere(ms) => sphere_raw_hit(
            ms_center(ms, r.time as int),
            ms.radius as int,
            ms.material,
            r,
            t_min,
            t_max,
        ),
        Object::XyRect(rc) => xy_rect_raw_hit(rc, r, t_min, t_max),
        Object::XzRect(rc) => xz_rect_raw_hit(rc, r, t_min, t_max),
        Object::YzRect(rc) => yz_rect_raw_hit(rc, r, t_min, t_max),
        Object::BoxObject(b) => box_raw_hit(b, r, t_min, t_max),
        Object::Translate(t) => {
            let moved = Ray { orig: vsub(r.orig, t.offset), dir: r.dir, time: r.time };
            match obj_hit(*t.obj, moved, t_min, t_max) {
                None => None,
                Some(rec) => Some(translate_rec(rec, moved, t.offset)),
            }
        },
        Object::RotateY(ry) => {
            let rotated = rotate_ray(ry, r);
            match obj_hit(*ry.obj, rotated, t_min, t_max) {
                None => None,
                Some(rec) => Some(rotate_rec(ry, rec, rotated)),
            }
        },
        Object::ConstantMedium(_) => None,
    };
    guard_spec(obj_bbox(o, r.time as int, r.time as int), r, raw)
}

/// What holds of every hit result, deterministic or stochastic: the
/// parameter respects the query interval, the record's point and normal
/// are representable, and on well-formed primitives the parameter lies in
/// the slab interval of the primitive's bounding box for any time interval
/// containing the ray's time.
pub open spec fn hit_basic(o: Object, r: Ray, t_min: int, t_max: int, res: Option<
    HitRecord,
>) -> bool {
    res matches Some(rec) ==> {
        &&& t_min <= rec.t as int
        &&& rec.t as int <= smax(t_max as int, 0)
        &&& vwf(rec.p)
        &&& vwf(rec.normal)
        &&& material_of_obj(o, rec.material)
        &&& forall |qt0: int, qt1: int|
            (wf_obj(o) && (#[trigger] obj_bbox(o, qt0, qt1)) is Some && qt0 <= r.time as int
                && r.time as int <= qt1) ==> slab_contains(
                obj_bbox(o, qt0, qt1).unwrap(),
                r,
                rec.t as int,
            )
    }
}


/// `v` lies between `a` and `b` in either order.
pub open spec fn between_i(v: int, a: int, b: int) -> bool {
    (a <= v && v <= b) || (b <= v && v <= a)
}

/// The interpolated center at a time inside `[qt0, qt1]` lies componentwise
/// between the centers at the interval's ends.
proof fn lemma_center_between(ms: MovingSphere, rt: int, qt0: int, qt1: int)
    requires
        qt0 <= rt,
        rt <= qt1,
    ensures
        between_i(ms_center(ms, rt).x as int, ms_center(ms, qt0).x as int, ms_center(ms, qt1).x as int),
        between_i(ms_center(ms, rt).y as int, ms_center(ms, qt0).y as int, ms_center(ms, qt1).y as int),
        between_i(ms_center(ms, rt).z as int, ms_center(ms, qt0).z as int, ms_center(ms, qt1).z as int),
{
    reveal(crate::objects::ms_center);
    let den = ssub(ms.time1 as int, ms.time0 as int);
    let n0 = ssub(qt0, ms.time0 as int);
    let nm = ssub(rt, ms.time0 as int);
    let n1 = ssub(qt1, ms.time0 as int);
    assert(n0 <= nm && nm <= n1);
    lemma_sdiv_mono_num(n0, nm, den);
    lemma_sdiv_mono_num(nm, n1, den);
    let r0 = sdiv(n0, den);
    let rm = sdiv(nm, den);
    let r1 = sdiv(n1, den);
    let d = vsub(ms.center1, ms.center0);
    if den >= 0 {
        lemma_smul_mono_right(d.x as int, r0, rm);
        lemma_smul_mono_right(d.x as int, rm, r1);
        lemma_smul_mono_right(d.y as int, r0, rm);
        lemma_smul_mono_right(d.y as int, rm, r1);
        lemma_smul_mono_right(d.z as int, r0, rm);
        lemma_smul_mono_right(d.z as int, rm, r1);
    } else {
        lemma_smul_mono_right(d.x as int, r1, rm);
        lemma_smul_mono_right(d.x as int, rm, r0);
        lemma_smul_mono_right(d.y as int, r1, rm);
        lemma_smul_mono_right(d.y as int, rm, r0);
        lemma_smul_mono_right(d.z as int, r1, rm);
        lemma_smul_mono_right(d.z as int, rm, r0);
    }
}

/// The primitive reports a box for this time interval.
pub open spec fn bbox_some(o: Object, t0: int, t1: int) -> bool {
    obj_bbox(o, t0, t1) is Some
}

/// The box at the single time `rt` exists, is proper, and sits inside the
/// box for `[qt0, qt1]`.
pub open spec fn bbox_time_ok(o: Object, rt: int, qt0: int, qt1: int) -> bool {
    &&& bbox_some(o, rt, rt)
    &&& box_proper(obj_bbox(o, rt, rt).unwrap())
    &&& box_contains(obj_bbox(o, qt0, qt1).unwrap(), obj_bbox(o, rt, rt).unwrap())
}

/// One axis of the moving-sphere box argument: a center coordinate between
/// two others keeps the sphere's extent inside the union of extents.
proof fn lemma_axis_extent(ca: int, cb: int, ct: int, rad: int)
    requires
        between_i(ct, ca, cb),
        rad >= 0,
    ensures
        smin(ssub(ca, rad), ssub(cb, rad)) <= ssub(ct, rad),
        sadd(ct, rad) <= smax(sadd(ca, rad), sadd(cb, rad)),
        ssub(ct, rad) <= sadd(ct, rad),
{
}

/// The moving-sphere case of `lemma_bbox_time`.
#[verifier::rlimit(100)]
#[verifier::spinoff_prover]
proof fn lemma_bbox_time_msphere(ms: MovingSphere, rt: int, qt0: int, qt1: int)
    requires
        qt0 <= rt,
        rt <= qt1,
    ensures
        bbox_time_ok(Object::MovingSphere(ms), rt, qt0, qt1),
{
    reveal(crate::objects::obj_bbox);
    lemma_center_between(ms, rt, qt0, qt1);
    let c0 = ms_center(ms, qt0);
    let c1 = ms_center(ms, qt1);
    let ct = ms_center(ms, rt);
    let rad = crate::fx::fx_clip(crate::fx::sabs(ms.radius as int));
    lemma_axis_extent(c0.x as int, c1.x as int, ct.x as int, rad);
    lemma_axis_extent(c0.y as int, c1.y as int, ct.y as int, rad);
    lemma_axis_extent(c0.z as int, c1.z as int, ct.z as int, rad);
    let o = Object::MovingSphere(ms);
    let bq = obj_bbox(o, qt0, qt1).unwrap();
    let br = obj_bbox(o, rt, rt).unwrap();
    assert(br == box_union(sphere_box(ct, rad), sphere_box(ct, rad)));
    assert(br.minimum.x as int == ssub(ct.x as int, rad));
    assert(br.minimum.y as int == ssub(ct.y as int, rad));
    assert(br.minimum.z as int == ssub(ct.z as int, rad));
    assert(br.maximum.x as int == sadd(ct.x as int, rad));
    assert(br.maximum.y as int == sadd(ct.y as int, rad));
    assert(br.maximum.z as int == sadd(ct.z as int, rad));
    assert(box_proper(br));
    assert(box_contains(bq, br));
}

/// Over a time interval containing the ray's time, a well-formed
/// primitive's box is proper at the single ray time and contained in the
/// box for the whole interval.
#[verifier::rlimit(100)]
#[verifier::spinoff_prover]
pub proof fn lemma_bbox_time(o: Object, rt: int, qt0: int, qt1: int)
    requires
        wf_obj(o),
        qt0 <= rt,
        rt <= qt1,
        bbox_some(o, qt0, qt1),
    ensures
        bbox_time_ok(o, rt, qt0, qt1),
    decreases o,
{
    reveal(crate::objects::obj_bbox);
    match o {
        Object::Sphere(_) => {
        },
        Object::MovingSphere(ms) => {
            lemma_bbox_time_msphere(ms, rt, qt0, qt1);
        },
        Object::XyRect(_) => {
        },
        Object::XzRect(_) => {
        },
        Object::YzRect(_) => {
        },
        Object::BoxObject(_) => {
        },
        Object::Translate(t) => {
            lemma_bbox_time(*t.obj, rt, qt0, qt1);
        },
        Object::RotateY(_) => {
        },
        Object::ConstantMedium(cm) => {
            lemma_bbox_time(*cm.boundary, rt, qt0, qt1);
        },
    }
}

/// Filter a hit through a bounding box.
fn guard_filter(bb: &Option<Aabb>, r: &Ray, res: Option<HitRecord>) -> (out: Option<HitRecord>)
    ensures
        out == guard_spec(*bb, *r, res),
{
    proof {
        reveal(crate::objects::guard_spec);
    }
    match res {
        None => None,
        Some(rec) => match bb {
            None => Some(rec),
            Some(b) => {
                let nb = Aabb {
                    minimum: Vec3 {
                        x: fx_min(b.minimum.x, b.maximum.x),
                        y: fx_min(b.minimum.y, b.maximum.y),
                        z: fx_min(b.minimum.z, b.maximum.z),
                    },
                    maximum: Vec3 {
                        x: fx_max(b.minimum.x, b.maximum.x),
                        y: fx_max(b.minimum.y, b.maximum.y),
                        z: fx_max(b.minimum.z, b.maximum.z),
                    },
                };
                let (t0, t1) = nb.slab_bounds(r);
                if t0 <= rec.t && rec.t <= t1 && t0 < t1 {
                    Some(rec)
                } else {
                    None
                }
            },
        },
    }
}

/// The nearer of two optional hits; on a tie the second wins.
fn nearer(cur: Option<HitRecord>, nxt: Option<HitRecord>) -> (r: Option<HitRecord>)
    ensures
        r == nearer_hit(cur, nxt),
{
    match nxt {
        None => cur,
        Some(n) => match cur {
            None => Some(n),
            Some(c) => if n.t <= c.t {
                Some(n)
            } else {
                Some(c)
            },
        },
    }
}

/// Doubling normalization for the rough logarithm: double `v` until it
/// reaches one half (in fixed point) or the step budget runs out.
pub open spec fn nlog_norm(v: int, k: int) -> (int, int)
    decreases 60 - k,
{
    if v < 32768 && k < 60 {
        nlog_norm(v + v, k + 1)
    } else {
        (v, k)
    }
}

/// A rough `-log10` of a fixed-point value in `(0, 1)`: the number of
/// doublings times `log10(2)`, plus a linear interpolation over the
/// normalized remainder; nonpositive inputs give the saturated maximum.
pub open spec fn nlog10_spec(u: int) -> int {
    if u <= 0 {
        FX_MAX as int
    } else {
        let vk = nlog_norm(u, 0);
        smax(
            sadd(
                vk.1 * LOG10_2 as int,
                smul(
                    sadd(ssub(FX_ONE as int, vk.0), ssub(FX_ONE as int, vk.0)),
                    LOG10_2 as int,
                ),
            ),
            0,
        )
    }
}

/// A rough `-log10` for a fixed-point value in `(0, 1)`: count halvings to
/// normalize into `[1/2, 1)`, then interpolate linearly; never negative.
fn neg_log10_units(u: i64) -> (r: i64)
    ensures
        r as int == nlog10_spec(u as int),
        0 <= r,
{
    if u <= 0 {
        return FX_MAX;
    }
    let mut v = u;
    let mut k: i64 = 0;
    while v < 32768 && k < 60
        invariant
            1 <= v,
            0 <= k <= 60,
            nlog_norm(u as int, 0) == nlog_norm(v as int, k as int),
        decreases 60 - k,
    {
        v = v + v;
        k = k + 1;
    }
    let frac2 = fx_sub(FX_ONE, v);
    let lin = fx_mul(fx_add(frac2, frac2), LOG10_2);
    let base = k * LOG10_2;
    fx_max(fx_add(base, lin), 0)
}

impl Sphere {
    pub fn new(center: Point3, radius: i64, material: Material) -> (r: Sphere)
        ensures
            r == (Sphere { center, radius, material }),
    {
        Sphere { center, radius, material }
    }

    /// Solve the sphere quadratic and take the nearer admissible root.
    pub fn hit(&self, r: &Ray, t_min: i64, t_max: i64) -> (res: Option<HitRecord>)
        ensures
            res == sphere_raw_hit(
                self.center,
                self.radius as int,
                self.material,
                *r,
                t_min as int,
                t_max as int,
            ),
            res matches Some(rec) ==> t_min < rec.t && rec.t < t_max && vwf(rec.p) && vwf(
                rec.normal,
            ) && rec.material == self.material,
    {
        sphere_hit_at(self.center, self.radius, self.material, r, t_min, t_max)
    }

    pub fn bounding_box(&self, time0: i64, time1: i64) -> (res: Option<Aabb>)
        ensures
            res == obj_bbox(Object::Sphere(*self), time0 as int, time1 as int),
    {
        proof {
            reveal(crate::objects::obj_bbox);
        }
        let m = crate::fx::fx_mag(self.radius);
        let rv = Vec3 { x: m, y: m, z: m };
        Some(Aabb { minimum: self.center.sub(rv), maximum: self.center.add(rv) })
    }
}

/// Shared sphere intersection against a center fixed for this query.
fn sphere_hit_at(center: Point3, radius: i64, material: Material, r: &Ray, t_min: i64, t_max: i64)
    -> (res: Option<HitRecord>)
    ensures
        res == sphere_raw_hit(center, radius as int, material, *r, t_min as int, t_max as int),
        res matches Some(rec) ==> t_min < rec.t && rec.t < t_max && vwf(rec.p) && vwf(rec.normal)
            && rec.material == material && 0 <= rec.u < FX_ONE && 0 <= rec.v <= FX_ONE,
{
    proof {
        reveal(crate::objects::sphere_raw_hit);
    }
    let oc = r.origin().sub(center);
    let a = r.direction().sqrlen();
    let half_b = dot(oc, r.dir);
    let c = fx_sub(oc.sqrlen(), fx_mul(radius, radius));
    let discriminant = fx_sub(fx_mul(half_b, half_b), fx_mul(a, c));
    if discriminant >= 0 {
        let sqrtd = fx_sqrt(discriminant);
        let root_a = fx_div(fx_sub(fx_neg(half_b), sqrtd), a);
        let root_b = fx_div(fx_add(fx_neg(half_b), sqrtd), a);
        let root = if t_min < root_a && root_a < t_max {
            root_a
        } else if t_min < root_b && root_b < t_max {
            root_b
        } else {
            return None;
        };
        let p = r.at(root);
        let outward = p.sub(center).div(radius);
        let (u, v) = sphere_uv(&outward);
        let front_face = dot(r.direction(), outward) < 0;
        let normal = if front_face {
            outward
        } else {
            outward.neg()
        };
        Some(HitRecord { p, normal, material, t: root, u, v, front_face })
    } else {
        None
    }
}

impl MovingSphere {
    pub fn new(
        center0: Point3,
        center1: Point3,
        time0: i64,
        time1: i64,
        radius: i64,
        material: Material,
    ) -> (r: MovingSphere)
        ensures
            r == (MovingSphere { center0, center1, time0, time1, radius, material }),
    {
        MovingSphere { center0, center1, time0, time1, radius, material }
    }

    /// The interpolated center at `time`.
    pub fn center(&self, time: i64) -> (c: Point3)
        ensures
            c == ms_center(*self, time as int),
    {
        proof {
            reveal(crate::objects::ms_center);
        }
        let ratio = fx_div(fx_sub(time, self.time0), fx_sub(self.time1, self.time0));
        self.center0.add(self.center1.sub(self.center0).scale(ratio))
    }

    /// Intersect against the sphere at the ray's time.
    pub fn hit(&self, r: &Ray, t_min: i64, t_max: i64) -> (res: Option<HitRecord>)
        ensures
            res == sphere_raw_hit(
                ms_center(*self, r.time as int),
                self.radius as int,
                self.material,
                *r,
                t_min as int,
                t_max as int,
            ),
            res matches Some(rec) ==> t_min < rec.t && rec.t < t_max && vwf(rec.p) && vwf(
                rec.normal,
            ) && rec.material == self.material,
    {
        let c = self.center(r.time());
        sphere_hit_at(c, self.radius, self.material, r, t_min, t_max)
    }

    pub fn bounding_box(&self, time0: i64, time1: i64) -> (res: Option<Aabb>)
        ensures
            res == obj_bbox(Object::MovingSphere(*self), time0 as int, time1 as int),
    {
        proof {
            reveal(crate::objects::obj_bbox);
        }
        let m = crate::fx::fx_mag(self.radius);
        let rv = Vec3 { x: m, y: m, z: m };
        let c0 = self.center(time0);
        let c1 = self.center(time1);
        let box0 = Aabb { minimum: c0.sub(rv), maximum: c0.add(rv) };
        let box1 = Aabb { minimum: c1.sub(rv), maximum: c1.add(rv) };
        Some(Aabb::surrounding_box(&box0, &box1))
    }
}

impl XyRect {
    pub fn new(x0: i64, x1: i64, y0: i64, y1: i64, k: i64, material: Material) -> (r: XyRect)
        ensures
            r == (XyRect { x0, x1, y0, y1, k, material }),
    {
        XyRect { x0, x1, y0, y1, k, material }
    }

    /// Intersect with the plane `z == k` and test the rectangle bounds.
    pub fn hit(&self, r: &Ray, t_min: i64, t_max: i64) -> (res: Option<HitRecord>)
        ensures
            res == xy_rect_raw_hit(*self, *r, t_min as int, t_max as int),
            res matches Some(rec) ==> t_min < rec.t && rec.t < t_max && vwf(rec.p) && vwf(
                rec.normal,
            ) && rec.material == self.material,
    {
        proof {
            reveal(crate::objects::xy_rect_raw_hit);
        }
        let t = fx_div(fx_sub(self.k, r.orig.z), r.dir.z);
        if t <= t_min || t >= t_max {
            return None;
        }
        let x = fx_add(r.orig.x, fx_mul(t, r.dir.x));
        let y = fx_add(r.orig.y, fx_mul(t, r.dir.y));
        if x < self.x0 || x > self.x1 || y < self.y0 || y > self.y1 {
            return None;
        }
        let u = fx_div(fx_sub(x, self.x0), fx_sub(self.x1, self.x0));
        let v = fx_div(fx_sub(y, self.y0), fx_sub(self.y1, self.y0));
        let outward = Vec3 { x: 0, y: 0, z: FX_ONE };
        let front_face = dot(r.direction(), outward) < 0;
        let normal = if front_face {
            outward
        } else {
            outward.neg()
        };
        let p = r.at(t);
        Some(HitRecord { p, normal, material: self.material, t, u, v, front_face })
    }

    pub fn bounding_box(&self, time0: i64, time1: i64) -> (res: Option<Aabb>)
        ensures
            res == obj_bbox(Object::XyRect(*self), time0 as int, time1 as int),
    {
        proof {
            reveal(crate::objects::obj_bbox);
        }
        Some(
            Aabb {
                minimum: Vec3 { x: self.x0, y: self.y0, z: fx_sub(self.k, EPS_PAD) },
                maximum: Vec3 { x: self.x1, y: self.y1, z: fx_add(self.k, EPS_PAD) },
            },
        )
    }
}

impl XzRect {
    pub fn new(x0: i64, x1: i64, z0: i64, z1: i64, k: i64, material: Material) -> (r: XzRect)
        ensures
            r == (XzRect { x0, x1, z0, z1, k, material }),
    {
        XzRect { x0, x1, z0, z1, k, material }
    }

    /// Intersect with the plane `y == k` and test the rectangle bounds.
    pub fn hit(&self, r: &Ray, t_min: i64, t_max: i64) -> (res: Option<HitRecord>)
        ensures
            res == xz_rect_raw_hit(*self, *r, t_min as int, t_max as int),
            res matches Some(rec) ==> t_min < rec.t && rec.t < t_max && vwf(rec.p) && vwf(
                rec.normal,
            ) && rec.material == self.material,
    {
        proof {
            reveal(crate::objects::xz_rect_raw_hit);
        }
        let t = fx_div(fx_sub(self.k, r.orig.y), r.dir.y);
        if t <= t_min || t >= t_max {
            return None;
        }
        let x = fx_add(r.orig.x, fx_mul(t, r.dir.x));
        let z = fx_add(r.orig.z, fx_mul(t, r.dir.z));
        if x < self.x0 || x > self.x1 || z < self.z0 || z > self.z1 {
            return None;
        }
        let u = fx_div(fx_sub(x, self.x0), fx_sub(self.x1, self.x0));
        let v = fx_div(fx_sub(z, self.z0), fx_sub(self.z1, self.z0));
        let outward = Vec3 { x: 0, y: FX_ONE, z: 0 };
        let front_face = dot(r.direction(), outward) < 0;
        let normal = if front_face {
            outward
        } else {
            outward.neg()
        };
        let p = r.at(t);
        Some(HitRecord { p, normal, material: self.material, t, u, v, front_face })
    }

    pub fn bounding_box(&self, time0: i64, time1: i64) -> (res: Option<Aabb>)
        ensures
            res == obj_bbox(Object::XzRect(*self), time0 as int, time1 as int),
    {
        proof {
            reveal(crate::objects::obj_bbox);
        }
        Some(
            Aabb {
                minimum: Vec3 { x: self.x0, y: fx_sub(self.k, EPS_PAD), z: self.z0 },
                maximum: Vec3 { x: self.x1, y: fx_add(self.k, EPS_PAD), z: self.z1 },
            },
        )
    }
}

impl YzRect {
    pub fn new(y0: i64, y1: i64, z0: i64, z1: i64, k: i64, material: Material) -> (r: YzRect)
        ensures
            r == (YzRect { y0, y1, z0, z1, k, material }),
    {
        YzRect { y0, y1, z0, z1, k, material }
    }

    /// Intersect with the plane `x == k` and test the rectangle bounds.
    pub fn hit(&self, r: &Ray, t_min: i64, t_max: i64) -> (res: Option<HitRecord>)
        ensures
            res == yz_rect_raw_hit(*self, *r, t_min as int, t_max as int),
            res matches Some(rec) ==> t_min < rec.t && rec.t < t_max && vwf(rec.p) && vwf(
                rec.normal,
            ) && rec.material == self.material,
    {
        proof {
            reveal(crate::objects::yz_rect_raw_hit);
        }
        let t = fx_div(fx_sub(self.k, r.orig.x), r.dir.x);
        if t <= t_min || t >= t_max {
            return None;
        }
        let y = fx_add(r.orig.y, fx_mul(t, r.dir.y));
        let z = fx_add(r.orig.z, fx_mul(t, r.dir.z));
        if y < self.y0 || y > self.y1 || z < self.z0 || z > self.z1 {
            return None;
        }
        let u = fx_div(fx_sub(y, self.y0), fx_sub(self.y1, self.y0));
        let v = fx_div(fx_sub(z, self.z0), fx_sub(self.z1, self.z0));
        let outward = Vec3 { x: FX_ONE, y: 0, z: 0 };
        let front_face = dot(r.direction(), outward) < 0;
        let normal = if front_face {
            outward
        } else {
            outward.neg()
        };
        let p = r.at(t);
        Some(HitRecord { p, normal, material: self.material, t, u, v, front_face })
    }

    pub fn bounding_box(&self, time0: i64, time1: i64) -> (res: Option<Aabb>)
        ensures
            res == obj_bbox(Object::YzRect(*self), time0 as int, time1 as int),
    {
        proof {
            reveal(crate::objects::obj_bbox);
        }
        Some(
            Aabb {
                minimum: Vec3 { x: fx_sub(self.k, EPS_PAD), y: self.y0, z: self.z0 },
                maximum: Vec3 { x: fx_add(self.k, EPS_PAD), y: self.y1, z: self.z1 },
            },
        )
    }
}

impl BoxObject {
    /// Build the six sides of the box `[p0, p1]`, all sharing one material.
    pub fn new(p0: Point3, p1: Point3, material: Material) -> (r: BoxObject)
        ensures
            r.box_min == p0,
            r.box_max == p1,
            r == (BoxObject {
                box_min: p0,
                box_max: p1,
                side_xy0: XyRect { x0: p0.x, x1: p1.x, y0: p0.y, y1: p1.y, k: p1.z, material },
                side_xy1: XyRect { x0: p0.x, x1: p1.x, y0: p0.y, y1: p1.y, k: p0.z, material },
                side_xz0: XzRect { x0: p0.x, x1: p1.x, z0: p0.z, z1: p1.z, k: p1.y, material },
                side_xz1: XzRect { x0: p0.x, x1: p1.x, z0: p0.z, z1: p1.z, k: p0.y, material },
                side_yz0: YzRect { y0: p0.y, y1: p1.y, z0: p0.z, z1: p1.z, k: p1.x, material },
                side_yz1: YzRect { y0: p0.y, y1: p1.y, z0: p0.z, z1: p1.z, k: p0.x, material },
            }),
    {
        BoxObject {
            box_min: p0,
            box_max: p1,
            side_xy0: XyRect { x0: p0.x, x1: p1.x, y0: p0.y, y1: p1.y, k: p1.z, material },
            side_xy1: XyRect { x0: p0.x, x1: p1.x, y0: p0.y, y1: p1.y, k: p0.z, material },
            side_xz0: XzRect { x0: p0.x, x1: p1.x, z0: p0.z, z1: p1.z, k: p1.y, material },
            side_xz1: XzRect { x0: p0.x, x1: p1.x, z0: p0.z, z1: p1.z, k: p0.y, material },
            side_yz0: YzRect { y0: p0.y, y1: p1.y, z0: p0.z, z1: p1.z, k: p1.x, material },
            side_yz1: YzRect { y0: p0.y, y1: p1.y, z0: p0.z, z1: p1.z, k: p0.x, material },
        }
    }

    /// The nearest hit among the six sides.
    pub fn hit(&self, r: &Ray, t_min: i64, t_max: i64) -> (res: Option<HitRecord>)
        ensures
            res == box_raw_hit(*self, *r, t_min as int, t_max as int),
            res matches Some(rec) ==> t_min < rec.t && rec.t < t_max && vwf(rec.p) && vwf(
                rec.normal,
            ) && material_of_obj(Object::BoxObject(*self), rec.material),
    {
        proof {
            reveal(crate::objects::box_raw_hit);
        }
        let h1 = self.side_xy0.hit(r, t_min, t_max);
        let h2 = self.side_xy1.hit(r, t_min, t_max);
        let h3 = self.side_xz0.hit(r, t_min, t_max);
        let h4 = self.side_xz1.hit(r, t_min, t_max);
        let h5 = self.side_yz0.hit(r, t_min, t_max);
        let h6 = self.side_yz1.hit(r, t_min, t_max);
        nearer(nearer(nearer(nearer(nearer(h1, h2), h3), h4), h5), h6)
    }

    pub fn bounding_box(&self, time0: i64, time1: i64) -> (res: Option<Aabb>)
        ensures
            res == obj_bbox(Object::BoxObject(*self), time0 as int, time1 as int),
    {
        proof {
            reveal(crate::objects::obj_bbox);
        }
        Some(Aabb { minimum: self.box_min, maximum: self.box_max })
    }
}

impl Translate {
    /// Shift a primitive by `displacement`.
    pub fn new(obj: Object, displacement: Vec3) -> (r: Translate)
        ensures
            *r.obj == obj,
            r.offset == displacement,
    {
        Translate { obj: Box::new(obj), offset: displacement }
    }
}

impl ConstantMedium {
    /// A medium of the given density bounded by `boundary`, scattering
    /// isotropically with the texture's color.
    pub fn new(boundary: Object, density: i64, texture: Texture) -> (r: ConstantMedium)
        ensures
            *r.boundary == boundary,
            r.phase_function == Material::Isotropic(Isotropic { albedo: texture }),
            r.neg_inv_density as int == sdiv(-(FX_ONE as int), density as int),
    {
        ConstantMedium {
            boundary: Box::new(boundary),
            phase_function: Material::Isotropic(Isotropic { albedo: texture }),
            neg_inv_density: fx_div(fx_neg(FX_ONE), density),
        }
    }

    /// A medium with a solid scattering color.
    pub fn new_color(boundary: Object, density: i64, color: Vec3) -> (r: ConstantMedium)
        ensures
            *r.boundary == boundary,
            r.phase_function == Material::Isotropic(
                Isotropic { albedo: Texture::SolidColor(SolidColor { color_value: color }) },
            ),
            r.neg_inv_density as int == sdiv(-(FX_ONE as int), density as int),
    {
        ConstantMedium {
            boundary: Box::new(boundary),
            phase_function: Material::Isotropic(
                Isotropic { albedo: Texture::SolidColor(SolidColor { color_value: color }) },
            ),
            neg_inv_density: fx_div(fx_neg(FX_ONE), density),
        }
    }
}

/// Rotated x-coordinate of a corner.
pub open spec fn rot_corner_x(cos: int, sin: int, x: int, z: int) -> int {
    sadd(smul(cos, x), smul(sin, z))
}

/// Rotated z-coordinate of a corner.
pub open spec fn rot_corner_z(cos: int, sin: int, x: int, z: int) -> int {
    ssub(smul(cos, z), smul(sin, x))
}

pub open spec fn min4(a: int, b: int, c: int, d: int) -> int {
    smin(smin(a, b), smin(c, d))
}

pub open spec fn max4(a: int, b: int, c: int, d: int) -> int {
    smax(smax(a, b), smax(c, d))
}

/// The axis-aligned box of the four rotated xz-corners of `bb`; the y
/// extent is unchanged.
pub open spec fn rotated_box(bb: Aabb, sin: int, cos: int) -> Aabb {
    let x00 = rot_corner_x(cos, sin, bb.minimum.x as int, bb.minimum.z as int);
    let x01 = rot_corner_x(cos, sin, bb.minimum.x as int, bb.maximum.z as int);
    let x10 = rot_corner_x(cos, sin, bb.maximum.x as int, bb.minimum.z as int);
    let x11 = rot_corner_x(cos, sin, bb.maximum.x as int, bb.maximum.z as int);
    let z00 = rot_corner_z(cos, sin, bb.minimum.x as int, bb.minimum.z as int);
    let z01 = rot_corner_z(cos, sin, bb.minimum.x as int, bb.maximum.z as int);
    let z10 = rot_corner_z(cos, sin, bb.maximum.x as int, bb.minimum.z as int);
    let z11 = rot_corner_z(cos, sin, bb.maximum.x as int, bb.maximum.z as int);
    Aabb {
        minimum: v3(min4(x00, x01, x10, x11), bb.minimum.y as int, min4(z00, z01, z10, z11)),
        maximum: v3(max4(x00, x01, x10, x11), bb.maximum.y as int, max4(z00, z01, z10, z11)),
    }
}

impl RotateY {
    /// Rotate a primitive about the y-axis; the caller supplies the sine
    /// and cosine of the rotation angle, and the rotated bounding box is
    /// precomputed from the inner box's corners.
    pub fn new(obj: Object, sin_theta: i64, cos_theta: i64) -> (r: RotateY)
        ensures
            *r.obj == obj,
            r.sin_theta == sin_theta,
            r.cos_theta == cos_theta,
            r.bbox == (match obj_bbox(obj, 0, FX_ONE as int) {
                Some(bb) => Some(rotated_box(bb, sin_theta as int, cos_theta as int)),
                None => None,
            }),
            (match obj_bbox(obj, 0, FX_ONE as int) {
                Some(bb) => box_proper(bb),
                None => true,
            }) ==> (r.bbox matches Some(b2) ==> box_proper(b2)),
    {
        let inner = obj.bounding_box(0, FX_ONE);
        let bbox = match inner {
            Some(bb) => {
                let x00 = fx_add(fx_mul(cos_theta, bb.minimum.x), fx_mul(sin_theta, bb.minimum.z));
                let x01 = fx_add(fx_mul(cos_theta, bb.minimum.x), fx_mul(sin_theta, bb.maximum.z));
                let x10 = fx_add(fx_mul(cos_theta, bb.maximum.x), fx_mul(sin_theta, bb.minimum.z));
                let x11 = fx_add(fx_mul(cos_theta, bb.maximum.x), fx_mul(sin_theta, bb.maximum.z));
                let z00 = fx_sub(fx_mul(cos_theta, bb.minimum.z), fx_mul(sin_theta, bb.minimum.x));
                let z01 = fx_sub(fx_mul(cos_theta, bb.maximum.z), fx_mul(sin_theta, bb.minimum.x));
                let z10 = fx_sub(fx_mul(cos_theta, bb.minimum.z), fx_mul(sin_theta, bb.maximum.x));
                let z11 = fx_sub(fx_mul(cos_theta, bb.maximum.z), fx_mul(sin_theta, bb.maximum.x));
                Some(
                    Aabb {
                        minimum: Vec3 {
                            x: fx_min(fx_min(x00, x01), fx_min(x10, x11)),
                            y: bb.minimum.y,
                            z: fx_min(fx_min(z00, z01), fx_min(z10, z11)),
                        },
                        maximum: Vec3 {
                            x: fx_max(fx_max(x00, x01), fx_max(x10, x11)),
                            y: bb.maximum.y,
                            z: fx_max(fx_max(z00, z01), fx_max(z10, z11)),
                        },
                    },
                )
            },
            None => None,
        };
        RotateY { obj: Box::new(obj), sin_theta, cos_theta, bbox }
    }
}

/// A well-formed primitive's bounding box, when it exists, is proper for
/// any time interval.
pub proof fn lemma_wf_bbox_proper(o: Object, t0: int, t1: int)
    requires
        wf_obj(o),
        bbox_some(o, t0, t1),
    ensures
        box_proper(obj_bbox(o, t0, t1).unwrap()),
    decreases o,
{
    reveal(crate::objects::obj_bbox);
    match o {
        Object::Translate(t) => {
            lemma_wf_bbox_proper(*t.obj, t0, t1);
        },
        Object::ConstantMedium(cm) => {
            lemma_wf_bbox_proper(*cm.boundary, t0, t1);
        },
        _ => {
        },
    }
}

impl Object {
    /// The bounding box reported for the time interval `[time0, time1]`.
    pub fn bounding_box(&self, time0: i64, time1: i64) -> (res: Option<Aabb>)
        ensures
            res == obj_bbox(*self, time0 as int, time1 as int),
        decreases *self,
    {
        proof {
            reveal(crate::objects::obj_bbox);
        }
        match self {
            Object::Sphere(s) => s.bounding_box(time0, time1),
            Object::MovingSphere(ms) => ms.bounding_box(time0, time1),
            Object::XyRect(rc) => rc.bounding_box(time0, time1),
            Object::XzRect(rc) => rc.bounding_box(time0, time1),
            Object::YzRect(rc) => rc.bounding_box(time0, time1),
            Object::BoxObject(b) => b.bounding_box(time0, time1),
            Object::Translate(t) => match t.obj.bounding_box(time0, time1) {
                Some(bb) => Some(
                    Aabb { minimum: bb.minimum.add(t.offset), maximum: bb.maximum.add(t.offset) },
                ),
                None => None,
            },
            Object::RotateY(ry) => ry.bbox,
            Object::ConstantMedium(cm) => cm.boundary.bounding_box(time0, time1),
        }
    }

    /// Intersect the ray with this primitive over `[t_min, t_max]`.
    ///
    /// For deterministic primitives the result equals the specification
    /// mirror `obj_hit`, which composes the raw geometric intersection with
    /// the box filter `guard_spec`, and the random stream is untouched; a
    /// volumetric medium with a deterministic boundary is pinned as a
    /// function of the generator state (`medium_hit_spec`).  Either way, a
    /// reported hit respects the query interval and lies strictly in its
    /// own bounding box's slab interval (see `hit_basic`).
    #[verifier::rlimit(100)]
    #[verifier::spinoff_prover]
    pub fn hit(&self, r: &Ray, t_min: i64, t_max: i64, rng: &mut XorRand) -> (res: Option<
        HitRecord,
    >)
        requires
            old(rng).wf(),
        ensures
            final(rng).wf(),
            deterministic(*self) ==> final(rng).state == old(rng).state && res == obj_hit(
                *self,
                *r,
                t_min as int,
                t_max as int,
            ),
            self matches Object::ConstantMedium(cm) ==> (deterministic(*cm.boundary) ==> (res
                == guard_spec(
                obj_bbox(*self, r.time as int, r.time as int),
                *r,
                medium_hit_spec(*cm, *r, t_min as int, t_max as int, old(rng).state),
            ) && final(rng).state == medium_state_spec(
                *cm,
                *r,
                t_min as int,
                t_max as int,
                old(rng).state,
            ))),
            hit_basic(*self, *r, t_min as int, t_max as int, res),
        decreases *self,
    {
        let raw = match self {
            Object::Sphere(s) => s.hit(r, t_min, t_max),
            Object::MovingSphere(ms) => ms.hit(r, t_min, t_max),
            Object::XyRect(rc) => rc.hit(r, t_min, t_max),
            Object::XzRect(rc) => rc.hit(r, t_min, t_max),
            Object::YzRect(rc) => rc.hit(r, t_min, t_max),
            Object::BoxObject(b) => b.hit(r, t_min, t_max),
            Object::Translate(tr) => {
                let moved = Ray { orig: r.origin().sub(tr.offset), dir: r.direction(), time: r.time };
                match tr.obj.hit(&moved, t_min, t_max, rng) {
                    None => None,
                    Some(rec) => {
                        let p = rec.p.add(tr.offset);
                        let front_face = dot(moved.direction(), rec.normal) < 0;
                        let normal = if front_face {
                            rec.normal
                        } else {
                            rec.normal.neg()
                        };
                        Some(
                            HitRecord {
                                p,
                                normal,
                                material: rec.material,
                                t: rec.t,
                                u: rec.u,
                                v: rec.v,
                                front_face,
                            },
                        )
                    },
                }
            },
            Object::RotateY(ry) => {
                let cos = ry.cos_theta;
                let sin = ry.sin_theta;
                let origin = Vec3 {
                    x: fx_sub(fx_mul(cos, r.orig.x), fx_mul(sin, r.orig.z)),
                    y: r.orig.y,
                    z: fx_add(fx_mul(sin, r.orig.x), fx_mul(cos, r.orig.z)),
                };
                let direction = Vec3 {
                    x: fx_sub(fx_mul(cos, r.dir.x), fx_mul(sin, r.dir.z)),
                    y: r.dir.y,
                    z: fx_add(fx_mul(sin, r.dir.x), fx_mul(cos, r.dir.z)),
                };
                let rotated_r = Ray { orig: origin, dir: direction, time: r.time };
                match ry.obj.hit(&rotated_r, t_min, t_max, rng) {
                    None => None,
                    Some(rec) => {
                        let p = Vec3 {
                            x: fx_add(fx_mul(cos, rec.p.x), fx_mul(sin, rec.p.z)),
                            y: rec.p.y,
                            z: fx_sub(fx_mul(cos, rec.p.z), fx_mul(sin, rec.p.x)),
                        };
                        let normal0 = Vec3 {
                            x: fx_add(fx_mul(cos, rec.normal.x), fx_mul(sin, rec.normal.z)),
                            y: rec.normal.y,
                            z: fx_sub(fx_mul(cos, rec.normal.z), fx_mul(sin, rec.normal.x)),
                        };
                        let front_face = dot(rotated_r.direction(), normal0) < 0;
                        let normal = if front_face {
                            normal0
                        } else {
                            normal0.neg()
                        };
                        Some(
                            HitRecord {
                                p,
                                normal,
                                material: rec.material,
                                t: rec.t,
                                u: rec.u,
                                v: rec.v,
                                front_face,
                            },
                        )
                    },
                }
            },
            Object::ConstantMedium(cm) => medium_raw_hit(cm, r, t_min, t_max, rng),
        };
        let bb = self.bounding_box(r.time(), r.time());
        let res = guard_filter(&bb, r, raw);
        proof {
            reveal(crate::objects::guard_spec);
            reveal(crate::objects::obj_bbox);
            if let Some(rec) = res {
                assert forall |qt0: int, qt1: int|
                    (wf_obj(*self) && (#[trigger] obj_bbox(*self, qt0, qt1)) is Some
                        && qt0 <= r.time as int && r.time as int <= qt1)
                        implies slab_contains(
                        obj_bbox(*self, qt0, qt1).unwrap(),
                        *r,
                        rec.t as int,
                    ) by {
                    lemma_bbox_time(*self, r.time as int, qt0, qt1);
                    let qb = obj_bbox(*self, qt0, qt1).unwrap();
                    let rb = obj_bbox(*self, r.time as int, r.time as int).unwrap();
                    assert(box_norm(rb) == rb);
                    crate::aabb::lemma_contains_widens_slab(qb, rb, *r);
                    crate::aabb::lemma_contains_slab_contains(qb, rb, *r, rec.t as int);
                }
            }
        }
        res
    }
}


/// The medium's stochastic hit, as a function of the ray, the interval,
/// and the generator state, for a deterministic boundary: the two
/// boundary crossings, the interval clamps, the drawn optical depth, and
/// the resulting scattering parameter.
pub open spec fn medium_hit_spec(
    cm: ConstantMedium,
    r: Ray,
    t_min: int,
    t_max: int,
    state: u64,
) -> Option<HitRecord> {
    match obj_hit(*cm.boundary, r, -(FX_MAX as int), FX_MAX as int) {
        None => None,
        Some(rec1) => match obj_hit(
            *cm.boundary,
            r,
            sadd(rec1.t as int, EPS_PAD as int),
            FX_MAX as int,
        ) {
            None => None,
            Some(rec2) => {
                let t1a = if (rec1.t as int) < t_min {
                    t_min
                } else {
                    rec1.t as int
                };
                let t2 = if (rec2.t as int) > t_max {
                    t_max
                } else {
                    rec2.t as int
                };
                if t1a >= t2 {
                    None
                } else {
                    let t1 = if t1a < 0 {
                        0
                    } else {
                        t1a
                    };
                    let len = slen(r.dir);
                    let dist = smul(ssub(t2, t1), len);
                    let draw = (xs_step(state) >> 48u64) as int;
                    let hd = smax(
                        smul(cm.neg_inv_density as int, sneg(nlog10_spec(draw))),
                        0,
                    );
                    if hd > dist {
                        None
                    } else {
                        let t = sadd(t1, sdiv(hd, len));
                        Some(
                            HitRecord {
                                p: ray_at(r, t),
                                normal: v3(FX_ONE as int, 0, 0),
                                material: cm.phase_function,
                                t: t as i64,
                                u: rec1.u,
                                v: rec1.v,
                                front_face: true,
                            },
                        )
                    }
                }
            },
        },
    }
}

/// The generator state after a medium query: one draw is consumed exactly
/// when the query reached the sampling step.
pub open spec fn medium_state_spec(
    cm: ConstantMedium,
    r: Ray,
    t_min: int,
    t_max: int,
    state: u64,
) -> u64 {
    match obj_hit(*cm.boundary, r, -(FX_MAX as int), FX_MAX as int) {
        None => state,
        Some(rec1) => match obj_hit(
            *cm.boundary,
            r,
            sadd(rec1.t as int, EPS_PAD as int),
            FX_MAX as int,
        ) {
            None => state,
            Some(rec2) => {
                let t1a = if (rec1.t as int) < t_min {
                    t_min
                } else {
                    rec1.t as int
                };
                let t2 = if (rec2.t as int) > t_max {
                    t_max
                } else {
                    rec2.t as int
                };
                if t1a >= t2 {
                    state
                } else {
                    xs_step(state)
                }
            },
        },
    }
}

/// One stochastic scattering query inside a constant medium, mirroring the
/// two boundary queries, the interval clamps, and the random optical
/// depth.  For a deterministic boundary the whole query is pinned as a
/// function of the generator state.
#[verifier::rlimit(100)]
#[verifier::spinoff_prover]
fn medium_raw_hit(cm: &ConstantMedium, r: &Ray, t_min: i64, t_max: i64, rng: &mut XorRand) -> (res:
    Option<HitRecord>)
    requires
        old(rng).wf(),
    ensures
        final(rng).wf(),
        res matches Some(rec) ==> t_min <= rec.t && rec.t as int <= smax(t_max as int, 0) && vwf(
            rec.p,
        ) && vwf(rec.normal) && rec.material == cm.phase_function,
        deterministic(*cm.boundary) ==> res == medium_hit_spec(
            *cm,
            *r,
            t_min as int,
            t_max as int,
            old(rng).state,
        ) && final(rng).state == medium_state_spec(
            *cm,
            *r,
            t_min as int,
            t_max as int,
            old(rng).state,
        ),
    decreases *cm,
{
    let h1 = cm.boundary.hit(r, -FX_MAX, FX_MAX, rng);
    match h1 {
        None => None,
        Some(rec1) => {
            let h2 = cm.boundary.hit(r, fx_add(rec1.t, EPS_PAD), FX_MAX, rng);
            match h2 {
                None => None,
                Some(rec2) => {
                    let mut t1 = rec1.t;
                    let mut t2 = rec2.t;
                    if t1 < t_min {
                        t1 = t_min;
                    }
                    if t2 > t_max {
                        t2 = t_max;
                    }
                    if t1 >= t2 {
                        return None;
                    }
                    if t1 < 0 {
                        t1 = 0;
                    }
                    let ray_length = r.direction().len();
                    let delta = fx_sub(t2, t1);
                    let dist_inside = fx_mul(delta, ray_length);
                    let draw = rng.random_unit();
                    let hd0 = fx_mul(cm.neg_inv_density, fx_neg(neg_log10_units(draw)));
                    let hd = fx_max(hd0, 0);
                    if hd > dist_inside {
                        return None;
                    }
                    proof {
                        if delta < 0 {
                            lemma_smul_mono(delta as int, 0, ray_length as int);
                            lemma_tdiv_nonneg(0, 65536);
                            assert(0int * ray_length as int == 0);
                            assert(smul(0, ray_length as int) == 0);
                        } else {
                            lemma_sdiv_smul_le(delta as int, ray_length as int, hd as int);
                        }
                        if ray_length == 0 {
                        } else {
                            lemma_tdiv_nonneg(0, ray_length as int);
                        }
                    }
                    let off = fx_div(hd, ray_length);
                    let t = fx_add(t1, off);
                    let p = r.at(t);
                    Some(
                        HitRecord {
                            p,
                            normal: Vec3 { x: FX_ONE, y: 0, z: 0 },
                            material: cm.phase_function,
                            t,
                            u: rec1.u,
                            v: rec1.v,
                            front_face: true,
                        },
                    )
                },
            }
        },
    }
}

/// A reported hit's parameter lies inside the query interval.
#[verifier::rlimit(100)]
#[verifier::spinoff_prover]
pub proof fn lemma_hit_in_interval(o: Object, r: Ray, t_min: int, t_max: int)
    ensures
        obj_hit(o, r, t_min, t_max) matches Some(rec) ==> t_min < rec.t as int && (rec.t as int)
            < t_max,
    decreases o,
{
    reveal(crate::objects::guard_spec);
    reveal(crate::objects::sphere_raw_hit);
    reveal(crate::objects::xy_rect_raw_hit);
    reveal(crate::objects::xz_rect_raw_hit);
    reveal(crate::objects::yz_rect_raw_hit);
    match o {
        Object::BoxObject(bx) => {
            lemma_box_in_interval(bx, r, t_min, t_max);
        },
        Object::Translate(t) => {
            let moved = Ray { orig: vsub(r.orig, t.offset), dir: r.dir, time: r.time };
            lemma_hit_in_interval(*t.obj, moved, t_min, t_max);
        },
        Object::RotateY(ry) => {
            lemma_hit_in_interval(*ry.obj, rotate_ray(ry, r), t_min, t_max);
        },
        _ => {
        },
    }
}

/// Shrinking the upper bound of the query interval changes the result in a
/// coherent way: a hit found with the smaller bound is matched at the same
/// parameter with the larger bound; a hit strictly below the smaller bound
/// is found identically by both; and a miss with the larger bound is a
/// miss with the smaller one.
pub proof fn lemma_hit_interval(o: Object, r: Ray, t_min: int, b: int, t_max: int)
    requires
        b <= t_max,
        deterministic(o),
    ensures
        (match obj_hit(o, r, t_min, b) {
            Some(n) => obj_hit(o, r, t_min, t_max) matches Some(w) && w.t == n.t,
            None => true,
        }),
        (match obj_hit(o, r, t_min, t_max) {
            Some(w) => w.t < b ==> obj_hit(o, r, t_min, b) == Some(w),
            None => obj_hit(o, r, t_min, b) is None,
        }),
    decreases o,
{
    reveal(crate::objects::guard_spec);
    reveal(crate::objects::xy_rect_raw_hit);
    reveal(crate::objects::xz_rect_raw_hit);
    reveal(crate::objects::yz_rect_raw_hit);
    match o {
        Object::Sphere(s) => {
            lemma_sphere_interval(s.center, s.radius as int, s.material, r, t_min, b, t_max);
        },
        Object::MovingSphere(ms) => {
            lemma_sphere_interval(
                ms_center(ms, r.time as int),
                ms.radius as int,
                ms.material,
                r,
                t_min,
                b,
                t_max,
            );
        },
        Object::XyRect(_) => {
        },
        Object::XzRect(_) => {
        },
        Object::YzRect(_) => {
        },
        Object::BoxObject(bx) => {
            lemma_box_interval(bx, r, t_min, b, t_max);
        },
        Object::Translate(t) => {
            let moved = Ray { orig: vsub(r.orig, t.offset), dir: r.dir, time: r.time };
            lemma_hit_interval(*t.obj, moved, t_min, b, t_max);
        },
        Object::RotateY(ry) => {
            lemma_hit_interval(*ry.obj, rotate_ray(ry, r), t_min, b, t_max);
        },
        Object::ConstantMedium(_) => {
        },
    }
}

/// The sphere intersection's two candidate roots are ordered, which gives
/// interval coherence: the nearer admissible root is the same under either
/// upper bound when it is below the smaller one.
#[verifier::rlimit(100)]
#[verifier::spinoff_prover]
proof fn lemma_sphere_interval(
    center: Point3,
    radius: int,
    material: Material,
    r: Ray,
    t_min: int,
    b: int,
    t_max: int,
)
    requires
        b <= t_max,
    ensures
        (match sphere_raw_hit(center, radius, material, r, t_min, b) {
            Some(n) => sphere_raw_hit(center, radius, material, r, t_min, t_max) == Some(n),
            None => true,
        }),
        (match sphere_raw_hit(center, radius, material, r, t_min, t_max) {
            Some(w) => w.t < b ==> sphere_raw_hit(center, radius, material, r, t_min, b) == Some(
                w,
            ),
            None => sphere_raw_hit(center, radius, material, r, t_min, b) is None,
        }),
{
    reveal(crate::objects::sphere_raw_hit);
    let oc = vsub(r.orig, center);
    let a = ssqrlen(r.dir);
    let half_b = sdot(oc, r.dir);
    let c = ssub(ssqrlen(oc), smul(radius, radius));
    let disc = ssub(smul(half_b, half_b), smul(a, c));
    if disc >= 0 {
        let sqrtd = ssqrt(disc);
        let na = ssub(sneg(half_b), sqrtd);
        let nb = sadd(sneg(half_b), sqrtd);
        assert(0 <= a) by {
            lemma_smul_sq_nonneg(r.dir.x as int);
            lemma_smul_sq_nonneg(r.dir.y as int);
            lemma_smul_sq_nonneg(r.dir.z as int);
        }
        assert(na <= nb) by {
            crate::fx::lemma_sqrt_nat_bracket((disc * FX_ONE as int) as nat);
        }
        lemma_sdiv_mono_num(na, nb, a);
    }
}

/// The fixed-point square of any value is nonnegative.
proof fn lemma_smul_sq_nonneg(x: int)
    ensures
        0 <= smul(x, x),
{
    assert(0 <= x * x) by (nonlinear_arith);
    lemma_tdiv_nonneg(x * x, 65536);
}

/// The parameter of a six-sided box hit lies in the query interval.
#[verifier::rlimit(100)]
#[verifier::spinoff_prover]
proof fn lemma_box_in_interval(bx: BoxObject, r: Ray, t_min: int, t_max: int)
    ensures
        box_raw_hit(bx, r, t_min, t_max) matches Some(rec) ==> t_min < rec.t as int && (rec.t
            as int) < t_max,
{
    reveal(crate::objects::box_raw_hit);
    reveal(crate::objects::xy_rect_raw_hit);
    reveal(crate::objects::xz_rect_raw_hit);
    reveal(crate::objects::yz_rect_raw_hit);
}

/// Coherence of one side's results under the two upper bounds: a rectangle
/// has a single candidate parameter, so the results agree exactly below
/// the smaller bound.
pub open spec fn side_coherent(
    n: Option<HitRecord>,
    w: Option<HitRecord>,
    t_min: int,
    b: int,
    t_max: int,
) -> bool {
    &&& (n matches Some(rec) ==> w == Some(rec) && t_min < rec.t && rec.t < b)
    &&& (w matches Some(rec) ==> t_min < rec.t && rec.t < t_max && (rec.t < b ==> n == Some(
        rec,
    )))
    &&& ((w is None) ==> (n is None))
}

/// The relation the nearest-of-sides fold maintains between the results
/// under the two upper bounds.
pub open spec fn pair_inv(nf: Option<HitRecord>, wf: Option<HitRecord>, b: int) -> bool {
    match nf {
        Some(n) => wf matches Some(w) && w.t == n.t && n.t <= b && (w.t < b ==> wf == nf),
        None => match wf {
            Some(w) => w.t >= b,
            None => true,
        },
    }
}

/// One fold step preserves the pair relation.
proof fn lemma_nearer_step(
    nf: Option<HitRecord>,
    wf: Option<HitRecord>,
    ni: Option<HitRecord>,
    wi: Option<HitRecord>,
    t_min: int,
    b: int,
    t_max: int,
)
    requires
        pair_inv(nf, wf, b),
        side_coherent(ni, wi, t_min, b, t_max),
    ensures
        pair_inv(nearer_hit(nf, ni), nearer_hit(wf, wi), b),
{
}

proof fn lemma_xy_side(rc: XyRect, r: Ray, t_min: int, b: int, t_max: int)
    requires
        b <= t_max,
    ensures
        side_coherent(
            xy_rect_raw_hit(rc, r, t_min, b),
            xy_rect_raw_hit(rc, r, t_min, t_max),
            t_min,
            b,
            t_max,
        ),
{
    reveal(crate::objects::xy_rect_raw_hit);
}

proof fn lemma_xz_side(rc: XzRect, r: Ray, t_min: int, b: int, t_max: int)
    requires
        b <= t_max,
    ensures
        side_coherent(
            xz_rect_raw_hit(rc, r, t_min, b),
            xz_rect_raw_hit(rc, r, t_min, t_max),
            t_min,
            b,
            t_max,
        ),
{
    reveal(crate::objects::xz_rect_raw_hit);
}

proof fn lemma_yz_side(rc: YzRect, r: Ray, t_min: int, b: int, t_max: int)
    requires
        b <= t_max,
    ensures
        side_coherent(
            yz_rect_raw_hit(rc, r, t_min, b),
            yz_rect_raw_hit(rc, r, t_min, t_max),
            t_min,
            b,
            t_max,
        ),
{
    reveal(crate::objects::yz_rect_raw_hit);
}

/// Interval coherence for the six-sided box: fold the pair relation over
/// the six sides.
#[verifier::rlimit(100)]
#[verifier::spinoff_prover]
proof fn lemma_box_interval(bx: BoxObject, r: Ray, t_min: int, b: int, t_max: int)
    requires
        b <= t_max,
    ensures
        (match box_raw_hit(bx, r, t_min, b) {
            Some(n) => box_raw_hit(bx, r, t_min, t_max) matches Some(w) && w.t == n.t,
            None => true,
        }),
        (match box_raw_hit(bx, r, t_min, t_max) {
            Some(w) => w.t < b ==> box_raw_hit(bx, r, t_min, b) == Some(w),
            None => box_raw_hit(bx, r, t_min, b) is None,
        }),
{
    reveal(crate::objects::box_raw_hit);
    lemma_xy_side(bx.side_xy0, r, t_min, b, t_max);
    lemma_xy_side(bx.side_xy1, r, t_min, b, t_max);
    lemma_xz_side(bx.side_xz0, r, t_min, b, t_max);
    lemma_xz_side(bx.side_xz1, r, t_min, b, t_max);
    lemma_yz_side(bx.side_yz0, r, t_min, b, t_max);
    lemma_yz_side(bx.side_yz1, r, t_min, b, t_max);
    let n1 = xy_rect_raw_hit(bx.side_xy0, r, t_min, b);
    let n2 = xy_rect_raw_hit(bx.side_xy1, r, t_min, b);
    let n3 = xz_rect_raw_hit(bx.side_xz0, r, t_min, b);
    let n4 = xz_rect_raw_hit(bx.side_xz1, r, t_min, b);
    let n5 = yz_rect_raw_hit(bx.side_yz0, r, t_min, b);
    let n6 = yz_rect_raw_hit(bx.side_yz1, r, t_min, b);
    let w1 = xy_rect_raw_hit(bx.side_xy0, r, t_min, t_max);
    let w2 = xy_rect_raw_hit(bx.side_xy1, r, t_min, t_max);
    let w3 = xz_rect_raw_hit(bx.side_xz0, r, t_min, t_max);
    let w4 = xz_rect_raw_hit(bx.side_xz1, r, t_min, t_max);
    let w5 = yz_rect_raw_hit(bx.side_yz0, r, t_min, t_max);
    let w6 = yz_rect_raw_hit(bx.side_yz1, r, t_min, t_max);
    assert(pair_inv(n1, w1, b)) by {
        lemma_nearer_step(None, None, n1, w1, t_min, b, t_max);
    }
    lemma_nearer_step(n1, w1, n2, w2, t_min, b, t_max);
    lemma_nearer_step(
        nearer_hit(n1, n2),
        nearer_hit(w1, w2),
        n3,
        w3,
        t_min,
        b,
        t_max,
    );
    lemma_nearer_step(
        nearer_hit(nearer_hit(n1, n2), n3),
        nearer_hit(nearer_hit(w1, w2), w3),
        n4,
        w4,
        t_min,
        b,
        t_max,
    );
    lemma_nearer_step(
        nearer_hit(nearer_hit(nearer_hit(n1, n2), n3), n4),
        nearer_hit(nearer_hit(nearer_hit(w1, w2), w3), w4),
        n5,
        w5,
        t_min,
        b,
        t_max,
    );
    lemma_nearer_step(
        nearer_hit(nearer_hit(nearer_hit(nearer_hit(n1, n2), n3), n4), n5),
        nearer_hit(nearer_hit(nearer_hit(nearer_hit(w1, w2), w3), w4), w5),
        n6,
        w6,
        t_min,
        b,
        t_max,
    );
}

/// At the specification level too, any reported hit of a well-formed
/// primitive lies in the slab interval of the primitive's box for every
/// time interval containing the ray's time.
pub proof fn lemma_obj_hit_guarded(o: Object, r: Ray, a: int, b: int, qt0: int, qt1: int)
    requires
        wf_obj(o),
        bbox_some(o, qt0, qt1),
        qt0 <= r.time as int,
        r.time as int <= qt1,
        (obj_hit(o, r, a, b) is Some),
    ensures
        slab_contains(obj_bbox(o, qt0, qt1).unwrap(), r, obj_hit(o, r, a, b).unwrap().t as int),
{
    reveal(crate::objects::guard_spec);
    lemma_bbox_time(o, r.time as int, qt0, qt1);
    let qb = obj_bbox(o, qt0, qt1).unwrap();
    let rb = obj_bbox(o, r.time as int, r.time as int).unwrap();
    assert(box_norm(rb) == rb);
    let t = obj_hit(o, r, a, b).unwrap().t as int;
    crate::aabb::lemma_contains_widens_slab(qb, rb, r);
    crate::aabb::lemma_contains_slab_contains(qb, rb, r, t);
}

/// The materials a hit on this primitive can report.
pub open spec fn material_of_obj(o: Object, m: Material) -> bool
    decreases o,
{
    match o {
        Object::Sphere(s) => m == s.material,
        Object::MovingSphere(ms) => m == ms.material,
        Object::XyRect(rc) => m == rc.material,
        Object::XzRect(rc) => m == rc.material,
        Object::YzRect(rc) => m == rc.material,
        Object::BoxObject(b) => m == b.side_xy0.material || m == b.side_xy1.material || m
            == b.side_xz0.material || m == b.side_xz1.material || m == b.side_yz0.material || m
            == b.side_yz1.material,
        Object::Translate(t) => material_of_obj(*t.obj, m),
        Object::RotateY(ry) => material_of_obj(*ry.obj, m),
        Object::ConstantMedium(cm) => m == cm.phase_function,
    }
}

} // verus!
