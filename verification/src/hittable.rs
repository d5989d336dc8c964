//! Hit records and the linear list of scene objects.
//!
//! The list's `hit` scans all objects, narrowing the upper bound to the
//! best parameter found so far.  For lists without volumetric media the
//! contract pins the result exactly: the returned parameter is attained by
//! some object over the full interval, no object hits strictly nearer, and
//! the record itself is some object's hit over a subinterval.

use vstd::prelude::*;
use crate::vector::{Vec3, Point3, vwf};
use crate::ray::Ray;
use crate::rng::XorRand;
use crate::aabb::{Aabb, box_union, box_contains, lemma_union_contains};
use crate::material::Material;
use crate::fx::smax;
use crate::objects::{
    Object, obj_hit, obj_bbox, deterministic, wf_obj, material_of_obj, lemma_hit_interval,
    lemma_hit_in_interval,
};

verus! {

/// The result of a ray/primitive intersection: hit point, oriented surface
/// normal, the surface's material, the ray parameter, the surface
/// parametrization, and whether the ray struck the front face.
#[derive(Clone, Copy, Debug)]
pub struct HitRecord {
    pub p: Point3,
    pub normal: Vec3,
    pub material: Material,
    pub t: i64,
    pub u: i64,
    pub v: i64,
    pub front_face: bool,
}

/// Every object in the sequence is free of volumetric media.
pub open spec fn all_deterministic(s: Seq<Object>) -> bool {
    forall |i: int| 0 <= i < s.len() ==> deterministic(#[trigger] s[i])
}

/// Every object in the sequence is geometrically well-formed.
pub open spec fn all_wf(s: Seq<Object>) -> bool {
    forall |i: int| 0 <= i < s.len() ==> wf_obj(#[trigger] s[i])
}

/// None of the first `k` objects hits the ray over `[a, b]`.
pub open spec fn all_miss_upto(s: Seq<Object>, r: Ray, a: int, b: int, k: int) -> bool {
    forall |i: int| 0 <= i < k ==> (#[trigger] obj_hit(s[i], r, a, b)) is None
}

/// Some of the first `k` objects hits the ray over `[a, b]` at exactly
/// parameter `t`.
pub open spec fn hits_at_upto(s: Seq<Object>, r: Ray, a: int, b: int, t: int, k: int) -> bool {
    exists |i: int|
        0 <= i < k && ((#[trigger] obj_hit(s[i], r, a, b)) matches Some(rec) && rec.t == t)
}

/// No hit of the first `k` objects over `[a, b]` comes strictly before
/// parameter `t`.
pub open spec fn no_hit_before_upto(s: Seq<Object>, r: Ray, a: int, b: int, t: int, k: int)
    -> bool {
    forall |i: int|
        0 <= i < k ==> match #[trigger] obj_hit(s[i], r, a, b) {
            None => true,
            Some(rec) => t <= rec.t,
        }
}

/// The record is the hit of one of the first `k` objects over some
/// subinterval `[a, bnd]` with `bnd <= b`.
pub open spec fn valid_rec_upto(
    s: Seq<Object>,
    r: Ray,
    a: int,
    b: int,
    rec: HitRecord,
    k: int,
) -> bool {
    exists |i: int, bnd: int|
        0 <= i < k && bnd <= b && (#[trigger] obj_hit(s[i], r, a, bnd)) == Some(rec)
}

/// The exact meaning of a nearest-hit query over a sequence of
/// deterministic objects.
pub open spec fn scan_post(s: Seq<Object>, r: Ray, a: int, b: int, res: Option<HitRecord>)
    -> bool {
    match res {
        None => all_miss_upto(s, r, a, b, s.len() as int),
        Some(rec) => {
            &&& hits_at_upto(s, r, a, b, rec.t as int, s.len() as int)
            &&& no_hit_before_upto(s, r, a, b, rec.t as int, s.len() as int)
            &&& valid_rec_upto(s, r, a, b, rec, s.len() as int)
        },
    }
}

/// The bounding box of the first `k` objects: the union of their boxes, or
/// `None` if the list is empty or any object lacks a box.
pub open spec fn list_bbox_upto(s: Seq<Object>, t0: int, t1: int, k: int) -> Option<Aabb>
    decreases k,
{
    if k <= 0 {
        None
    } else if k == 1 {
        obj_bbox(s[0], t0, t1)
    } else {
        match (list_bbox_upto(s, t0, t1, k - 1), obj_bbox(s[k - 1], t0, t1)) {
            (Some(acc), Some(bb)) => Some(box_union(acc, bb)),
            _ => None,
        }
    }
}

/// The whole list's bounding box.
pub open spec fn list_bbox(s: Seq<Object>, t0: int, t1: int) -> Option<Aabb> {
    list_bbox_upto(s, t0, t1, s.len() as int)
}

/// The list's box, when it exists, bounds every member's box.
pub proof fn lemma_list_bbox_contains(s: Seq<Object>, t0: int, t1: int, k: int)
    requires
        0 < k <= s.len(),
        (list_bbox_upto(s, t0, t1, k) is Some),
    ensures
        forall |i: int|
            0 <= i < k ==> ((#[trigger] obj_bbox(s[i], t0, t1)) matches Some(bb) && box_contains(
                list_bbox_upto(s, t0, t1, k).unwrap(),
                bb,
            )),
    decreases k,
{
    if k == 1 {
    } else {
        lemma_list_bbox_contains(s, t0, t1, k - 1);
        let acc = list_bbox_upto(s, t0, t1, k - 1).unwrap();
        let bb = obj_bbox(s[k - 1], t0, t1).unwrap();
        lemma_union_contains(acc, bb);
        assert forall |i: int| 0 <= i < k implies ((#[trigger] obj_bbox(s[i], t0, t1))
            matches Some(bi) && box_contains(list_bbox_upto(s, t0, t1, k).unwrap(), bi)) by {
            if i < k - 1 {
                let bi = obj_bbox(s[i], t0, t1).unwrap();
                assert(box_contains(acc, bi));
            }
        }
    }
}

/// A list of scene objects, scanned in order.
#[derive(Debug)]
pub struct HittableList {
    pub objects: Vec<Object>,
}

impl HittableList {
    pub fn new(objects: Vec<Object>) -> (r: HittableList)
        ensures
            r.objects@ == objects@,
    {
        HittableList { objects }
    }

    /// An empty list.
    pub fn empty() -> (r: HittableList)
        ensures
            r.objects@.len() == 0,
    {
        HittableList { objects: Vec::new() }
    }

    /// Remove all objects.
    pub fn clear(&mut self)
        ensures
            final(self).objects@.len() == 0,
    {
        self.objects.clear()
    }

    /// Append one object.
    pub fn add_obj(&mut self, object: Object)
        ensures
            final(self).objects@ == old(self).objects@.push(object),
    {
        self.objects.push(object)
    }

    /// The nearest hit over `[t_min, t_max]`, by scanning every object and
    /// narrowing the upper bound to the best parameter found so far.
    #[verifier::rlimit(100)]
    #[verifier::spinoff_prover]
    pub fn hit(&self, r: &Ray, t_min: i64, t_max: i64, rng: &mut XorRand) -> (res: Option<
        HitRecord,
    >)
        requires
            old(rng).wf(),
        ensures
            final(rng).wf(),
            all_deterministic(self.objects@) ==> final(rng).state == old(rng).state && scan_post(
                self.objects@,
                *r,
                t_min as int,
                t_max as int,
                res,
            ),
            res matches Some(rec) ==> vwf(rec.p) && vwf(rec.normal) && t_min <= rec.t && rec.t
                as int <= smax(t_max as int, 0) && material_in(self.objects@, rec.material),
    {
        let ghost s = self.objects@;
        let ghost det = all_deterministic(s);
        let mut res: Option<HitRecord> = None;
        let mut closest = t_max;
        let n = self.objects.len();
        let mut i: usize = 0;
        while i < n
            invariant
                n == s.len(),
                self.objects@ == s,
                0 <= i <= n,
                det == all_deterministic(s),
                rng.wf(),
                (match res {
                    Some(rec) => closest == rec.t && t_min <= rec.t && rec.t as int <= smax(
                        t_max as int,
                        0,
                    ) && vwf(rec.p) && vwf(rec.normal) && material_in(s, rec.material),
                    None => closest == t_max,
                }),
                det ==> rng.state == old(rng).state && closest <= t_max && scan_post_upto(
                    s,
                    *r,
                    t_min as int,
                    t_max as int,
                    res,
                    i as int,
                ),
            decreases n - i,
        {
            let ghost res_old = res;
            let ghost closest_old = closest;
            let h = self.objects[i].hit(r, t_min, closest, rng);
            match h {
                Some(hrec) => {
                    proof {
                        assert(material_of_obj(s[i as int], hrec.material));
                        assert(material_in(s, hrec.material));
                    }
                    res = Some(hrec);
                    closest = hrec.t;
                },
                None => {
                },
            }
            proof {
                if det {
                    assert(deterministic(s[i as int]));
                    lemma_scan_step(s, *r, t_min as int, t_max as int, i as int,
                        closest_old as int, res_old, h);
                }
            }
            i = i + 1;
        }
        res
    }

    /// The union of all members' boxes; `None` when the list is empty or
    /// any member lacks a box.
    pub fn bounding_box(&self, time0: i64, time1: i64) -> (res: Option<Aabb>)
        ensures
            res == list_bbox(self.objects@, time0 as int, time1 as int),
    {
        let ghost s = self.objects@;
        let n = self.objects.len();
        if n == 0 {
            return None;
        }
        let first = self.objects[0].bounding_box(time0, time1);
        let mut acc = match first {
            Some(bb) => bb,
            None => {
                proof {
                    lemma_list_bbox_none(s, time0 as int, time1 as int, 1, s.len() as int);
                }
                return None;
            },
        };
        let mut i: usize = 1;
        while i < n
            invariant
                1 <= i <= n,
                n == s.len(),
                self.objects@ == s,
                list_bbox_upto(s, time0 as int, time1 as int, i as int) == Some(acc),
            decreases n - i,
        {
            match self.objects[i].bounding_box(time0, time1) {
                Some(bb) => {
                    acc = Aabb::surrounding_box(&acc, &bb);
                },
                None => {
                    proof {
                        lemma_list_bbox_none(s, time0 as int, time1 as int, i + 1, s.len() as int);
                    }
                    return None;
                },
            }
            i = i + 1;
        }
        Some(acc)
    }
}

/// The scan contract restricted to the first `k` objects.
pub open spec fn scan_post_upto(
    s: Seq<Object>,
    r: Ray,
    a: int,
    b: int,
    res: Option<HitRecord>,
    k: int,
) -> bool {
    match res {
        None => all_miss_upto(s, r, a, b, k),
        Some(rec) => {
            &&& hits_at_upto(s, r, a, b, rec.t as int, k)
            &&& no_hit_before_upto(s, r, a, b, rec.t as int, k)
            &&& valid_rec_upto(s, r, a, b, rec, k)
        },
    }
}

/// Once one member lacks a box, the fold is `None` for every larger
/// prefix.
proof fn lemma_list_bbox_none(s: Seq<Object>, t0: int, t1: int, k: int, m: int)
    requires
        0 < k <= m,
        (list_bbox_upto(s, t0, t1, k) is None),
    ensures
        list_bbox_upto(s, t0, t1, m) is None,
    decreases m,
{
    if m > k {
        lemma_list_bbox_none(s, t0, t1, k, m - 1);
    }
}

/// One step of the nearest-hit scan: folding the query of object `i` over
/// the narrowed interval into the running result preserves the scan
/// contract over the full interval.
#[verifier::rlimit(100)]
#[verifier::spinoff_prover]
proof fn lemma_scan_step(
    s: Seq<Object>,
    r: Ray,
    a: int,
    b: int,
    i: int,
    closest_old: int,
    res_old: Option<HitRecord>,
    h: Option<HitRecord>,
)
    requires
        0 <= i < s.len(),
        deterministic(s[i]),
        closest_old <= b,
        h == obj_hit(s[i], r, a, closest_old),
        scan_post_upto(s, r, a, b, res_old, i),
        (match res_old {
            Some(rec) => closest_old == rec.t as int,
            None => closest_old == b,
        }),
    ensures
        (match h {
            Some(hrec) => hrec.t as int <= closest_old && scan_post_upto(
                s,
                r,
                a,
                b,
                Some(hrec),
                i + 1,
            ),
            None => scan_post_upto(s, r, a, b, res_old, i + 1),
        }),
{
    lemma_hit_interval(s[i], r, a, closest_old, b);
    lemma_hit_in_interval(s[i], r, a, closest_old);
    lemma_hit_in_interval(s[i], r, a, b);
    let wide = obj_hit(s[i], r, a, b);
    match h {
        Some(hrec) => {
            assert(hits_at_upto(s, r, a, b, hrec.t as int, i + 1)) by {
                assert((obj_hit(s[i], r, a, b)) matches Some(w) && w.t == hrec.t);
            }
            assert(valid_rec_upto(s, r, a, b, hrec, i + 1)) by {
                assert((obj_hit(s[i], r, a, closest_old)) == Some(hrec) && closest_old <= b);
            }
            assert(no_hit_before_upto(s, r, a, b, hrec.t as int, i + 1));
        },
        None => {
            match res_old {
                Some(rec_old) => {
                    assert(no_hit_before_upto(s, r, a, b, rec_old.t as int, i + 1)) by {
                        match wide {
                            Some(w) => {
                                assert(!(w.t < closest_old));
                            },
                            None => {
                            },
                        }
                    }
                    assert(hits_at_upto(s, r, a, b, rec_old.t as int, i + 1));
                    assert(valid_rec_upto(s, r, a, b, rec_old, i + 1));
                },
                None => {
                    assert(all_miss_upto(s, r, a, b, i + 1));
                },
            }
        },
    }
}

/// The record's material belongs to one of the sequence's objects.
pub open spec fn material_in(s: Seq<Object>, m: crate::material::Material) -> bool {
    exists |i: int| 0 <= i < s.len() && material_of_obj(#[trigger] s[i], m)
}

} // verus!
