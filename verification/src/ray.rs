//! Rays: an origin, a direction, and a time of emission (for motion blur).

use vstd::prelude::*;
use crate::vector::{Vec3, Point3, vadd, vscale, vwf};

verus! {

/// A ray with a time of emission; immutable once constructed.
#[derive(Clone, Copy, Debug, PartialEq, Eq, Structural)]
pub struct Ray {
    pub orig: Point3,
    pub dir: Vec3,
    pub time: i64,
}

/// The point reached at parameter `t`: `orig + t * dir`.
pub open spec fn ray_at(r: Ray, t: int) -> Point3 {
    vadd(r.orig, vscale(r.dir, t))
}

impl Ray {
    pub fn new(orig: Point3, dir: Vec3, time: i64) -> (r: Ray)
        ensures
            r == (Ray { orig, dir, time }),
    {
        Ray { orig, dir, time }
    }

    pub fn origin(&self) -> (r: Point3)
        ensures
            r == self.orig,
    {
        self.orig
    }

    pub fn direction(&self) -> (r: Vec3)
        ensures
            r == self.dir,
    {
        self.dir
    }

    pub fn time(&self) -> (r: i64)
        ensures
            r == self.time,
    {
        self.time
    }

    /// The point reached at parameter `t`.
    pub fn at(&self, t: i64) -> (r: Point3)
        ensures
            r == ray_at(*self, t as int),
            vwf(r),
    {
        self.origin().add(self.direction().scale(t))
    }
}

/// Build a ray at time zero.
pub fn ray(orig: Point3, dir: Vec3) -> (r: Ray)
    ensures
        r == (Ray { orig, dir, time: 0i64 }),
{
    Ray { orig, dir, time: 0 }
}

} // verus!
