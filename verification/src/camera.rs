//! The thin-lens camera: turns normalized screen coordinates into primary
//! rays, with a random lens offset for depth of field and a random time in
//! the shutter interval for motion blur.
//!
//! The constructor takes the tangent of half the vertical field of view as
//! a scalar (`half_view`), since the fixed-point core provides no
//! trigonometry; callers compute it from the angle.

use vstd::prelude::*;
use crate::fx::{fx_add, fx_div, fx_in_range, sadd, sdiv, smul, lemma_smul_zero};
use crate::vector::{
    Vec3, Point3, vsub, vscale, vdiv, vcross, vunit, vwf, cross, unit_vector,
    random_in_unit_disk,
};
use crate::ray::Ray;
use crate::rng::XorRand;

verus! {

/// Precomputed camera frame and viewport.
#[derive(Clone, Copy, Debug)]
pub struct Camera {
    pub origin: Point3,
    pub horizontal: Vec3,
    pub vertical: Vec3,
    pub lower_left_corner: Vec3,
    pub u: Vec3,
    pub v: Vec3,
    pub w: Vec3,
    pub lens_radius: i64,
    pub time0: i64,
    pub time1: i64,
}

impl Camera {
    /// The shutter interval is ordered and representable, and the frame
    /// vectors are representable.
    pub open spec fn wf(&self) -> bool {
        &&& self.time0 <= self.time1
        &&& fx_in_range(self.time0 as int)
        &&& fx_in_range(self.time1 as int)
        &&& vwf(self.origin)
    }

    /// Build a camera looking from `look_from` toward `look_at`.
    ///
    /// `half_view` is the tangent of half the vertical field of view;
    /// `aspect` the width-to-height ratio; `focus_dist` the focal plane
    /// distance; `aperture` the lens diameter.
    pub fn new(
        look_from: Point3,
        look_at: Point3,
        vup: Point3,
        half_view: i64,
        aspect: i64,
        focus_dist: i64,
        aperture: i64,
        time0: i64,
        time1: i64,
    ) -> (c: Camera)
        requires
            time0 <= time1,
            fx_in_range(time0 as int),
            fx_in_range(time1 as int),
            fx_in_range(look_from.x as int) && fx_in_range(look_from.y as int) && fx_in_range(
                look_from.z as int,
            ),
        ensures
            c.wf(),
            c.origin == look_from,
            c.time0 == time0,
            c.time1 == time1,
            c.w == vunit(vsub(look_from, look_at)),
            c.u == vunit(vcross(vup, c.w)),
            c.v == vcross(c.w, c.u),
            c.horizontal == vscale(
                vscale(c.u, smul(aspect as int, sadd(half_view as int, half_view as int))),
                focus_dist as int,
            ),
            c.vertical == vscale(
                vscale(c.v, sadd(half_view as int, half_view as int)),
                focus_dist as int,
            ),
            c.lower_left_corner == vsub(
                vsub(
                    vsub(look_from, vdiv(c.horizontal, 131072)),
                    vdiv(c.vertical, 131072),
                ),
                vscale(c.w, focus_dist as int),
            ),
            c.lens_radius as int == sdiv(aperture as int, 131072),
    {
        let viewport_height = fx_add(half_view, half_view);
        let viewport_width = crate::fx::fx_mul(aspect, viewport_height);
        let w = unit_vector(look_from.sub(look_at));
        let u = unit_vector(cross(vup, w));
        let v = cross(w, u);
        let origin = look_from;
        let horizontal = u.scale(viewport_width).scale(focus_dist);
        let vertical = v.scale(viewport_height).scale(focus_dist);
        let lower_left_corner = origin.sub(horizontal.div(131072)).sub(vertical.div(131072)).sub(
            w.scale(focus_dist),
        );
        let lens_radius = fx_div(aperture, 131072);
        Camera {
            origin,
            horizontal,
            vertical,
            lower_left_corner,
            u,
            v,
            w,
            lens_radius,
            time0,
            time1,
        }
    }

    /// A primary ray through normalized screen coordinates `(s, t)`: the
    /// origin is perturbed inside the lens aperture and the time drawn
    /// from the shutter interval, so with a zero aperture the ray starts
    /// exactly at the camera origin, and the time always lies in the
    /// interval.
    pub fn get_ray(&self, s: i64, t: i64, rng: &mut XorRand) -> (r: Ray)
        requires
            self.wf(),
            old(rng).wf(),
        ensures
            final(rng).wf(),
            self.time0 <= r.time <= self.time1,
            self.lens_radius == 0 ==> r.orig == self.origin,
    {
        let rd = random_in_unit_disk(rng).scale(self.lens_radius);
        let offset = self.u.scale(rd.x).add(self.v.scale(rd.y));
        proof {
            if self.lens_radius == 0 {
                lemma_smul_zero(self.u.x as int);
                lemma_smul_zero(self.u.y as int);
                lemma_smul_zero(self.u.z as int);
                lemma_smul_zero(self.v.x as int);
                lemma_smul_zero(self.v.y as int);
                lemma_smul_zero(self.v.z as int);
            }
        }
        let time = rng.random_range(self.time0, self.time1);
        let dir = self.lower_left_corner.add(self.horizontal.scale(s)).add(
            self.vertical.scale(t),
        ).sub(self.origin).sub(offset);
        Ray { orig: self.origin.add(offset), dir, time }
    }
}

} // verus!
