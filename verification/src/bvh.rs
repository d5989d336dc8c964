//! The bounding-volume hierarchy: a binary tree over the scene's
//! primitives, built once per scene and queried for nearest hits.
//!
//! Construction fails fast with a diagnosable error on an empty list or a
//! primitive without a bounding box, never by panicking.  The tree stores
//! indices into the scene list rather than copies of the primitives.
//!
//! The nearest-hit invariant is proved: over well-formed, media-free
//! scenes a tree query returns a hit at exactly the parameter a
//! brute-force linear scan of the same primitives finds
//! (`lemma_bvh_matches_linear_scan`).

use vstd::prelude::*;
use vstd::seq_lib::group_to_multiset_ensures;
use vstd::seq_lib::lemma_multiset_commutative;
use crate::fx::smax;
use crate::vector::vwf;
use crate::ray::Ray;
use crate::rng::XorRand;
use crate::aabb::{Aabb, aabb_hit, box_contains, lemma_union_contains, lemma_slab_contains_hit};
use crate::objects::{
    Object, obj_hit, obj_bbox, bbox_some, deterministic, wf_obj, lemma_hit_interval,
    lemma_hit_in_interval, lemma_obj_hit_guarded, material_of_obj,
};
use crate::hittable::{
    HitRecord, HittableList, all_deterministic, all_wf, scan_post, material_in,
};

verus! {

broadcast use group_to_multiset_ensures;

/// A child of a tree node: either a leaf holding the index of a primitive
/// in the scene list, or a further node.
#[derive(Debug)]
pub enum BvhChild {
    Leaf(usize),
    Node(Box<BvhNode>),
}

/// An inner node: one or two children and a box bounding everything below,
/// for the time interval the tree was built with.
#[derive(Debug)]
pub struct BvhNode {
    pub left: BvhChild,
    pub right: Option<BvhChild>,
    pub bounding_box: Aabb,
    pub time0: i64,
    pub time1: i64,
}

/// Why building a tree failed.
#[derive(Clone, Copy, Debug, PartialEq, Eq, Structural)]
pub enum BvhBuildError {
    /// The scene list was empty.
    EmptyList,
    /// Some primitive reports no bounding box for the build interval.
    MissingBoundingBox,
}

/// The primitive indices below a child.
pub open spec fn child_leaves(c: BvhChild) -> Seq<int>
    decreases c,
{
    match c {
        BvhChild::Leaf(i) => seq![i as int],
        BvhChild::Node(n) => node_leaves(*n),
    }
}

/// The primitive indices below a node.
pub open spec fn node_leaves(n: BvhNode) -> Seq<int>
    decreases n,
{
    child_leaves(n.left) + (match n.right {
        Some(c) => child_leaves(c),
        None => Seq::<int>::empty(),
    })
}

/// Index `i` names a primitive whose box for `[t0, t1]` exists and is
/// bounded by `bb`.
pub open spec fn leaf_in_box(arena: Seq<Object>, i: int, bb: Aabb, t0: int, t1: int) -> bool {
    &&& 0 <= i < arena.len()
    &&& bbox_some(arena[i], t0, t1)
    &&& box_contains(bb, obj_bbox(arena[i], t0, t1).unwrap())
}

/// Structural well-formedness of a child for the build interval
/// `[t0, t1]`.
pub open spec fn child_wf(c: BvhChild, arena: Seq<Object>, t0: int, t1: int) -> bool
    decreases c,
{
    match c {
        BvhChild::Leaf(i) => i < arena.len() && bbox_some(arena[i as int], t0, t1),
        BvhChild::Node(n) => n.time0 as int == t0 && n.time1 as int == t1 && node_wf(*n, arena),
    }
}

/// Structural well-formedness of a node: children are well-formed for the
/// node's build interval, and the node's box bounds every primitive below.
pub open spec fn node_wf(n: BvhNode, arena: Seq<Object>) -> bool
    decreases n,
{
    &&& child_wf(n.left, arena, n.time0 as int, n.time1 as int)
    &&& (n.right matches Some(c) ==> child_wf(c, arena, n.time0 as int, n.time1 as int))
    &&& forall |j: int|
        0 <= j < node_leaves(n).len() ==> leaf_in_box(
            arena,
            #[trigger] node_leaves(n)[j],
            n.bounding_box,
            n.time0 as int,
            n.time1 as int,
        )
}

/// None of the indexed primitives hits over `[a, b]`.
pub open spec fn idx_all_miss(arena: Seq<Object>, idxs: Seq<int>, r: Ray, a: int, b: int)
    -> bool {
    forall |j: int|
        0 <= j < idxs.len() ==> (#[trigger] obj_hit(arena[idxs[j]], r, a, b)) is None
}

/// Some indexed primitive hits over `[a, b]` at exactly parameter `t`.
pub open spec fn idx_hits_at(
    arena: Seq<Object>,
    idxs: Seq<int>,
    r: Ray,
    a: int,
    b: int,
    t: int,
) -> bool {
    exists |j: int|
        0 <= j < idxs.len() && ((#[trigger] obj_hit(arena[idxs[j]], r, a, b)) matches Some(rec)
            && rec.t == t)
}

/// No indexed primitive hits over `[a, b]` strictly before `t`.
pub open spec fn idx_no_before(
    arena: Seq<Object>,
    idxs: Seq<int>,
    r: Ray,
    a: int,
    b: int,
    t: int,
) -> bool {
    forall |j: int|
        0 <= j < idxs.len() ==> match #[trigger] obj_hit(arena[idxs[j]], r, a, b) {
            None => true,
            Some(rec) => t <= rec.t,
        }
}

/// The record is an indexed primitive's hit over a subinterval.
pub open spec fn idx_valid_rec(
    arena: Seq<Object>,
    idxs: Seq<int>,
    r: Ray,
    a: int,
    b: int,
    rec: HitRecord,
) -> bool {
    exists |j: int, bnd: int|
        0 <= j < idxs.len() && bnd <= b && (#[trigger] obj_hit(arena[idxs[j]], r, a, bnd))
            == Some(rec)
}

/// The exact meaning of a nearest-hit query over the indexed primitives.
pub open spec fn bvh_post(
    arena: Seq<Object>,
    idxs: Seq<int>,
    r: Ray,
    a: int,
    b: int,
    res: Option<HitRecord>,
) -> bool {
    match res {
        None => idx_all_miss(arena, idxs, r, a, b),
        Some(rec) => {
            &&& idx_hits_at(arena, idxs, r, a, b, rec.t as int)
            &&& idx_no_before(arena, idxs, r, a, b, rec.t as int)
            &&& idx_valid_rec(arena, idxs, r, a, b, rec)
        },
    }
}

/// The conditions under which a tree query is exact: a well-formed tree
/// over a well-formed, media-free scene, queried at a ray time inside the
/// build interval.
pub open spec fn bvh_usable(n: BvhNode, arena: Seq<Object>, r: Ray) -> bool {
    &&& node_wf(n, arena)
    &&& all_deterministic(arena)
    &&& all_wf(arena)
    &&& n.time0 as int <= r.time as int <= n.time1 as int
}

/// The indices `0, 1, ..., n-1`.
pub open spec fn all_idxs(n: int) -> Seq<int> {
    Seq::new(n as nat, |i: int| i)
}

/// Every index in the list names a primitive of the arena.
pub open spec fn idxs_ok(arena: Seq<Object>, idxs: Seq<int>) -> bool {
    forall |j: int| 0 <= j < idxs.len() ==> 0 <= #[trigger] idxs[j] < arena.len()
}

/// If the node's box test fails over `[a, b]`, nothing below it hits.
#[verifier::rlimit(100)]
#[verifier::spinoff_prover]
proof fn lemma_prune(arena: Seq<Object>, n: BvhNode, r: Ray, a: int, b: int)
    requires
        bvh_usable(n, arena, r),
        !aabb_hit(n.bounding_box, r, a, b),
    ensures
        idx_all_miss(arena, node_leaves(n), r, a, b),
{
    let idxs = node_leaves(n);
    assert forall |j: int| 0 <= j < idxs.len() implies (#[trigger] obj_hit(arena[idxs[j]], r, a, b))
        is None by {
        let i = idxs[j];
        assert(leaf_in_box(arena, i, n.bounding_box, n.time0 as int, n.time1 as int));
        let o = arena[i];
        assert(wf_obj(o));
        if obj_hit(o, r, a, b) is Some {
            let rec = obj_hit(o, r, a, b).unwrap();
            lemma_obj_hit_guarded(o, r, a, b, n.time0 as int, n.time1 as int);
            lemma_hit_in_interval(o, r, a, b);
            crate::aabb::lemma_contains_slab_contains(
                n.bounding_box,
                obj_bbox(o, n.time0 as int, n.time1 as int).unwrap(),
                r,
                rec.t as int,
            );
            lemma_slab_contains_hit(n.bounding_box, r, rec.t as int, a, b);
        }
    }
}

/// Merging the left child's result with the right child's result over the
/// interval narrowed to the left hit preserves the query contract.
#[verifier::rlimit(100)]
#[verifier::spinoff_prover]
proof fn lemma_combine_left_some(
    arena: Seq<Object>,
    li: Seq<int>,
    ri: Seq<int>,
    r: Ray,
    a: int,
    b: int,
    l: HitRecord,
    rres: Option<HitRecord>,
)
    requires
        all_deterministic(arena),
        idxs_ok(arena, li),
        idxs_ok(arena, ri),
        a <= l.t as int <= b,
        bvh_post(arena, li, r, a, b, Some(l)),
        bvh_post(arena, ri, r, a, l.t as int, rres),
    ensures
        bvh_post(
            arena,
            li + ri,
            r,
            a,
            b,
            match rres {
                Some(rr) => Some(rr),
                None => Some(l),
            },
        ),
{
    let all = li + ri;
    let bl = l.t as int;
    match rres {
        Some(rr) => {
            let j0 = choose |j: int|
                0 <= j < ri.len() && ((#[trigger] obj_hit(arena[ri[j]], r, a, bl)) matches Some(
                    rec,
                ) && rec.t == rr.t);
            lemma_hit_in_interval(arena[ri[j0]], r, a, bl);
            lemma_hit_interval(arena[ri[j0]], r, a, bl, b);
            assert(all[li.len() + j0] == ri[j0]);
            assert(idx_hits_at(arena, all, r, a, b, rr.t as int));
            assert(rr.t as int <= bl);
            assert forall |j: int|
                0 <= j < all.len() implies match #[trigger] obj_hit(arena[all[j]], r, a, b) {
                None => true,
                Some(rec) => rr.t as int <= rec.t,
            } by {
                if j < li.len() {
                    assert(all[j] == li[j]);
                } else {
                    assert(all[j] == ri[j - li.len()]);
                    let o = arena[all[j]];
                    assert(deterministic(o));
                    lemma_hit_interval(o, r, a, bl, b);
                }
            }
            let (jv, bndv) = choose |j: int, bnd: int|
                0 <= j < ri.len() && bnd <= bl && (#[trigger] obj_hit(arena[ri[j]], r, a, bnd))
                    == Some(rr);
            assert(all[li.len() + jv] == ri[jv]);
            assert(idx_valid_rec(arena, all, r, a, b, rr));
        },
        None => {
            let j0 = choose |j: int|
                0 <= j < li.len() && ((#[trigger] obj_hit(arena[li[j]], r, a, b)) matches Some(
                    rec,
                ) && rec.t == l.t);
            assert(all[j0] == li[j0]);
            assert(idx_hits_at(arena, all, r, a, b, l.t as int));
            assert forall |j: int|
                0 <= j < all.len() implies match #[trigger] obj_hit(arena[all[j]], r, a, b) {
                None => true,
                Some(rec) => l.t as int <= rec.t,
            } by {
                if j < li.len() {
                    assert(all[j] == li[j]);
                } else {
                    assert(all[j] == ri[j - li.len()]);
                    let o = arena[all[j]];
                    assert(deterministic(o));
                    assert(obj_hit(o, r, a, bl) is None);
                    lemma_hit_interval(o, r, a, bl, b);
                }
            }
            let (jv, bndv) = choose |j: int, bnd: int|
                0 <= j < li.len() && bnd <= b && (#[trigger] obj_hit(arena[li[j]], r, a, bnd))
                    == Some(l);
            assert(all[jv] == li[jv]);
            assert(idx_valid_rec(arena, all, r, a, b, l));
        },
    }
}

/// When the left child misses, the whole query is the right child's query.
#[verifier::rlimit(100)]
#[verifier::spinoff_prover]
proof fn lemma_combine_left_none(
    arena: Seq<Object>,
    li: Seq<int>,
    ri: Seq<int>,
    r: Ray,
    a: int,
    b: int,
    rres: Option<HitRecord>,
)
    requires
        idx_all_miss(arena, li, r, a, b),
        bvh_post(arena, ri, r, a, b, rres),
    ensures
        bvh_post(arena, li + ri, r, a, b, rres),
{
    let all = li + ri;
    assert(forall |j: int| 0 <= j < li.len() ==> all[j] == li[j]);
    assert(forall |j: int| li.len() <= j < all.len() ==> all[j] == ri[j - li.len()]);
    match rres {
        Some(rec) => {
            let j0 = choose |j: int|
                0 <= j < ri.len() && ((#[trigger] obj_hit(arena[ri[j]], r, a, b)) matches Some(
                    w,
                ) && w.t == rec.t);
            assert(all[li.len() + j0] == ri[j0]);
            assert(idx_hits_at(arena, all, r, a, b, rec.t as int));
            let (jv, bndv) = choose |j: int, bnd: int|
                0 <= j < ri.len() && bnd <= b && (#[trigger] obj_hit(arena[ri[j]], r, a, bnd))
                    == Some(rec);
            assert(all[li.len() + jv] == ri[jv]);
            assert(idx_valid_rec(arena, all, r, a, b, rec));
        },
        None => {
        },
    }
}

/// The nearest hit below a child.
#[verifier::rlimit(100)]
#[verifier::spinoff_prover]
fn child_hit(
    c: &BvhChild,
    list: &HittableList,
    r: &Ray,
    t_min: i64,
    t_max: i64,
    rng: &mut XorRand,
    time0: i64,
    time1: i64,
) -> (res: Option<HitRecord>)
    requires
        old(rng).wf(),
    ensures
        final(rng).wf(),
        res matches Some(rec) ==> vwf(rec.p) && vwf(rec.normal) && t_min <= rec.t && rec.t
            as int <= smax(t_max as int, 0) && material_in(list.objects@, rec.material),
        (child_wf(*c, list.objects@, time0 as int, time1 as int) && all_deterministic(
            list.objects@,
        ) && all_wf(list.objects@) && time0 <= r.time && r.time <= time1) ==> (final(rng).state
            == old(rng).state && bvh_post(
            list.objects@,
            child_leaves(*c),
            *r,
            t_min as int,
            t_max as int,
            res,
        )),
    decreases *c,
{
    match c {
        BvhChild::Leaf(i) => {
            if *i < list.objects.len() {
                let res = list.objects[*i].hit(r, t_min, t_max, rng);
                proof {
                    let arena = list.objects@;
                    if let Some(rec) = res {
                        assert(material_of_obj(arena[*i as int], rec.material));
                        assert(material_in(arena, rec.material));
                    }
                    if child_wf(*c, arena, time0 as int, time1 as int) && all_deterministic(arena)
                        && all_wf(arena) && time0 <= r.time && r.time <= time1 {
                        assert(deterministic(arena[*i as int]));
                        let idxs = child_leaves(*c);
                        assert(idxs == seq![*i as int]);
                        assert(idxs[0] == *i as int);
                        match res {
                            Some(rec) => {
                                assert(idx_hits_at(arena, idxs, *r, t_min as int, t_max as int,
                                    rec.t as int));
                                assert(obj_hit(arena[idxs[0]], *r, t_min as int, t_max as int)
                                    == Some(rec) && t_max as int <= t_max as int);
                                assert(idx_valid_rec(arena, idxs, *r, t_min as int, t_max as int,
                                    rec));
                            },
                            None => {
                            },
                        }
                    }
                }
                res
            } else {
                None
            }
        },
        BvhChild::Node(n) => n.hit(list, r, t_min, t_max, rng),
    }
}

impl BvhNode {
    /// The nearest hit below this node over `[t_min, t_max]`: prune by the
    /// node's box, query the left child, narrow the interval to its hit,
    /// query the right child, and prefer the right result.
    ///
    /// Over a well-formed tree on a media-free scene, with the ray's time
    /// inside the build interval, the result is exact: its parameter is
    /// the nearest any primitive below attains over the full interval.
    #[verifier::rlimit(100)]
    #[verifier::spinoff_prover]
    pub fn hit(&self, list: &HittableList, r: &Ray, t_min: i64, t_max: i64, rng: &mut XorRand)
        -> (res: Option<HitRecord>)
        requires
            old(rng).wf(),
        ensures
            final(rng).wf(),
            res matches Some(rec) ==> vwf(rec.p) && vwf(rec.normal) && t_min <= rec.t && rec.t
                as int <= smax(t_max as int, 0) && material_in(list.objects@, rec.material),
            bvh_usable(*self, list.objects@, *r) ==> final(rng).state == old(rng).state
                && bvh_post(
                list.objects@,
                node_leaves(*self),
                *r,
                t_min as int,
                t_max as int,
                res,
            ),
        decreases *self,
    {
        let ghost arena = list.objects@;
        let ghost usable = bvh_usable(*self, arena, *r);
        if !self.bounding_box.hit(r, t_min, t_max) {
            proof {
                if usable {
                    lemma_prune(arena, *self, *r, t_min as int, t_max as int);
                }
            }
            return None;
        }
        let hit_left = child_hit(&self.left, list, r, t_min, t_max, rng, self.time0, self.time1);
        let res = match hit_left {
            Some(l) => {
                match &self.right {
                    Some(rc) => {
                        let hit_right = child_hit(rc, list, r, t_min, l.t, rng, self.time0,
                            self.time1);
                        proof {
                            if usable {
                                let li = child_leaves(self.left);
                                let j0 = choose |j: int|
                                    0 <= j < li.len() && ((#[trigger] obj_hit(arena[li[j]], *r,
                                    t_min as int, t_max as int)) matches Some(w) && w.t == l.t);
                                lemma_hit_in_interval(arena[li[j0]], *r, t_min as int,
                                    t_max as int);
                                lemma_child_idxs_ok(self.left, arena, self.time0 as int,
                                    self.time1 as int);
                                lemma_child_idxs_ok(*rc, arena, self.time0 as int,
                                    self.time1 as int);
                                lemma_combine_left_some(arena, child_leaves(self.left),
                                    child_leaves(*rc), *r, t_min as int, t_max as int, l,
                                    hit_right);
                            }
                        }
                        match hit_right {
                            Some(rr) => Some(rr),
                            None => Some(l),
                        }
                    },
                    None => {
                        proof {
                            if usable {
                                assert(node_leaves(*self) =~= child_leaves(self.left));
                            }
                        }
                        Some(l)
                    },
                }
            },
            None => {
                match &self.right {
                    Some(rc) => {
                        let hit_right = child_hit(rc, list, r, t_min, t_max, rng, self.time0,
                            self.time1);
                        proof {
                            if usable {
                                lemma_combine_left_none(arena, child_leaves(self.left),
                                    child_leaves(*rc), *r, t_min as int, t_max as int, hit_right);
                            }
                        }
                        hit_right
                    },
                    None => {
                        proof {
                            if usable {
                                assert(node_leaves(*self) =~= child_leaves(self.left));
                            }
                        }
                        None
                    },
                }
            },
        };
        res
    }
}

/// Every leaf index below a well-formed child is in bounds.
proof fn lemma_child_idxs_ok(c: BvhChild, arena: Seq<Object>, t0: int, t1: int)
    requires
        child_wf(c, arena, t0, t1),
    ensures
        idxs_ok(arena, child_leaves(c)),
    decreases c,
{
    match c {
        BvhChild::Leaf(_) => {
        },
        BvhChild::Node(n) => {
            lemma_child_idxs_ok(n.left, arena, t0, t1);
            match n.right {
                Some(rc) => {
                    lemma_child_idxs_ok(rc, arena, t0, t1);
                },
                None => {
                },
            }
            assert forall |j: int| 0 <= j < child_leaves(c).len() implies 0 <= #[trigger]
                child_leaves(c)[j] < arena.len() by {
                let nl = node_leaves(*n);
                let ll = child_leaves(n.left);
                if j < ll.len() {
                    assert(nl[j] == ll[j]);
                } else {
                    match n.right {
                        Some(rc) => {
                            assert(nl[j] == child_leaves(rc)[j - ll.len()]);
                        },
                        None => {
                        },
                    }
                }
            }
        },
    }
}

/// Every face of `b` is attained by some indexed member's box: together
/// with containment this pins `b` to the exact componentwise union of the
/// members' boxes.
pub open spec fn box_face_tight(
    arena: Seq<Object>,
    idxs: Seq<int>,
    b: Aabb,
    t0: int,
    t1: int,
) -> bool {
    &&& exists |j: int|
        0 <= j < idxs.len() && (#[trigger] obj_bbox(arena[idxs[j]], t0, t1)).unwrap().minimum.x
            == b.minimum.x
    &&& exists |j: int|
        0 <= j < idxs.len() && (#[trigger] obj_bbox(arena[idxs[j]], t0, t1)).unwrap().minimum.y
            == b.minimum.y
    &&& exists |j: int|
        0 <= j < idxs.len() && (#[trigger] obj_bbox(arena[idxs[j]], t0, t1)).unwrap().minimum.z
            == b.minimum.z
    &&& exists |j: int|
        0 <= j < idxs.len() && (#[trigger] obj_bbox(arena[idxs[j]], t0, t1)).unwrap().maximum.x
            == b.maximum.x
    &&& exists |j: int|
        0 <= j < idxs.len() && (#[trigger] obj_bbox(arena[idxs[j]], t0, t1)).unwrap().maximum.y
            == b.maximum.y
    &&& exists |j: int|
        0 <= j < idxs.len() && (#[trigger] obj_bbox(arena[idxs[j]], t0, t1)).unwrap().maximum.z
            == b.maximum.z
}

/// Every node's box is face-tight over the node's own leaves.
pub open spec fn node_tight(n: BvhNode, arena: Seq<Object>) -> bool
    decreases n,
{
    &&& box_face_tight(arena, node_leaves(n), n.bounding_box, n.time0 as int, n.time1 as int)
    &&& child_tight(n.left, arena)
    &&& (n.right matches Some(c) ==> child_tight(c, arena))
}

pub open spec fn child_tight(c: BvhChild, arena: Seq<Object>) -> bool
    decreases c,
{
    match c {
        BvhChild::Leaf(_) => true,
        BvhChild::Node(m) => node_tight(*m, arena),
    }
}

/// The union of two face-tight boxes is face-tight over the concatenated
/// member lists.
#[verifier::rlimit(100)]
#[verifier::spinoff_prover]
proof fn lemma_union_face_tight(
    arena: Seq<Object>,
    li: Seq<int>,
    ri: Seq<int>,
    bl: Aabb,
    br: Aabb,
    t0: int,
    t1: int,
)
    requires
        box_face_tight(arena, li, bl, t0, t1),
        box_face_tight(arena, ri, br, t0, t1),
    ensures
        box_face_tight(arena, li + ri, crate::aabb::box_union(bl, br), t0, t1),
{
    let all = li + ri;
    let u = crate::aabb::box_union(bl, br);
    assert(forall |j: int| 0 <= j < li.len() ==> all[j] == li[j]);
    assert(forall |j: int| 0 <= j < ri.len() ==> all[li.len() + j] == ri[j]);
    assert(exists |j: int|
        0 <= j < all.len() && (#[trigger] obj_bbox(arena[all[j]], t0, t1)).unwrap().minimum.x
            == u.minimum.x) by {
        if bl.minimum.x <= br.minimum.x {
            let j = choose |j: int|
                0 <= j < li.len() && (#[trigger] obj_bbox(arena[li[j]], t0, t1)).unwrap().minimum.x
                    == bl.minimum.x;
            assert(obj_bbox(arena[all[j]], t0, t1).unwrap().minimum.x == u.minimum.x);
        } else {
            let j = choose |j: int|
                0 <= j < ri.len() && (#[trigger] obj_bbox(arena[ri[j]], t0, t1)).unwrap().minimum.x
                    == br.minimum.x;
            assert(obj_bbox(arena[all[li.len() + j]], t0, t1).unwrap().minimum.x == u.minimum.x);
        }
    }
    assert(exists |j: int|
        0 <= j < all.len() && (#[trigger] obj_bbox(arena[all[j]], t0, t1)).unwrap().minimum.y
            == u.minimum.y) by {
        if bl.minimum.y <= br.minimum.y {
            let j = choose |j: int|
                0 <= j < li.len() && (#[trigger] obj_bbox(arena[li[j]], t0, t1)).unwrap().minimum.y
                    == bl.minimum.y;
            assert(obj_bbox(arena[all[j]], t0, t1).unwrap().minimum.y == u.minimum.y);
        } else {
            let j = choose |j: int|
                0 <= j < ri.len() && (#[trigger] obj_bbox(arena[ri[j]], t0, t1)).unwrap().minimum.y
                    == br.minimum.y;
            assert(obj_bbox(arena[all[li.len() + j]], t0, t1).unwrap().minimum.y == u.minimum.y);
        }
    }
    assert(exists |j: int|
        0 <= j < all.len() && (#[trigger] obj_bbox(arena[all[j]], t0, t1)).unwrap().minimum.z
            == u.minimum.z) by {
        if bl.minimum.z <= br.minimum.z {
            let j = choose |j: int|
                0 <= j < li.len() && (#[trigger] obj_bbox(arena[li[j]], t0, t1)).unwrap().minimum.z
                    == bl.minimum.z;
            assert(obj_bbox(arena[all[j]], t0, t1).unwrap().minimum.z == u.minimum.z);
        } else {
            let j = choose |j: int|
                0 <= j < ri.len() && (#[trigger] obj_bbox(arena[ri[j]], t0, t1)).unwrap().minimum.z
                    == br.minimum.z;
            assert(obj_bbox(arena[all[li.len() + j]], t0, t1).unwrap().minimum.z == u.minimum.z);
        }
    }
    assert(exists |j: int|
        0 <= j < all.len() && (#[trigger] obj_bbox(arena[all[j]], t0, t1)).unwrap().maximum.x
            == u.maximum.x) by {
        if bl.maximum.x >= br.maximum.x {
            let j = choose |j: int|
                0 <= j < li.len() && (#[trigger] obj_bbox(arena[li[j]], t0, t1)).unwrap().maximum.x
                    == bl.maximum.x;
            assert(obj_bbox(arena[all[j]], t0, t1).unwrap().maximum.x == u.maximum.x);
        } else {
            let j = choose |j: int|
                0 <= j < ri.len() && (#[trigger] obj_bbox(arena[ri[j]], t0, t1)).unwrap().maximum.x
                    == br.maximum.x;
            assert(obj_bbox(arena[all[li.len() + j]], t0, t1).unwrap().maximum.x == u.maximum.x);
        }
    }
    assert(exists |j: int|
        0 <= j < all.len() && (#[trigger] obj_bbox(arena[all[j]], t0, t1)).unwrap().maximum.y
            == u.maximum.y) by {
        if bl.maximum.y >= br.maximum.y {
            let j = choose |j: int|
                0 <= j < li.len() && (#[trigger] obj_bbox(arena[li[j]], t0, t1)).unwrap().maximum.y
                    == bl.maximum.y;
            assert(obj_bbox(arena[all[j]], t0, t1).unwrap().maximum.y == u.maximum.y);
        } else {
            let j = choose |j: int|
                0 <= j < ri.len() && (#[trigger] obj_bbox(arena[ri[j]], t0, t1)).unwrap().maximum.y
                    == br.maximum.y;
            assert(obj_bbox(arena[all[li.len() + j]], t0, t1).unwrap().maximum.y == u.maximum.y);
        }
    }
    assert(exists |j: int|
        0 <= j < all.len() && (#[trigger] obj_bbox(arena[all[j]], t0, t1)).unwrap().maximum.z
            == u.maximum.z) by {
        if bl.maximum.z >= br.maximum.z {
            let j = choose |j: int|
                0 <= j < li.len() && (#[trigger] obj_bbox(arena[li[j]], t0, t1)).unwrap().maximum.z
                    == bl.maximum.z;
            assert(obj_bbox(arena[all[j]], t0, t1).unwrap().maximum.z == u.maximum.z);
        } else {
            let j = choose |j: int|
                0 <= j < ri.len() && (#[trigger] obj_bbox(arena[ri[j]], t0, t1)).unwrap().maximum.z
                    == br.maximum.z;
            assert(obj_bbox(arena[all[li.len() + j]], t0, t1).unwrap().maximum.z == u.maximum.z);
        }
    }
}

/// One primitive's index and its bounding box for the build interval.
#[derive(Clone, Copy, Debug)]
pub struct BvhEntry {
    pub idx: usize,
    pub bbox: Aabb,
}

/// The fixed-axis build ordering: box minimum on the x-axis, tie-broken by
/// box maximum.
pub open spec fn entry_le_spec(x: BvhEntry, y: BvhEntry) -> bool {
    x.bbox.minimum.x < y.bbox.minimum.x || (x.bbox.minimum.x == y.bbox.minimum.x
        && x.bbox.maximum.x <= y.bbox.maximum.x)
}

/// Nondecreasing in the fixed-axis build ordering.
pub open spec fn entries_sorted(es: Seq<BvhEntry>) -> bool {
    forall |i: int, j: int|
        0 <= i < j < es.len() ==> entry_le_spec(#[trigger] es[i], #[trigger] es[j])
}

/// Every entry names an in-bounds primitive whose box for `[t0, t1]` is
/// exactly the entry's box.
pub open spec fn entries_valid(es: Seq<BvhEntry>, arena: Seq<Object>, t0: int, t1: int) -> bool {
    forall |j: int|
        0 <= j < es.len() ==> (#[trigger] es[j]).idx < arena.len() && obj_bbox(
            arena[es[j].idx as int],
            t0,
            t1,
        ) == Some(es[j].bbox)
}

/// The indices the entries name, in order.
pub open spec fn entry_idxs(es: Seq<BvhEntry>) -> Seq<int> {
    es.map_values(|e: BvhEntry| e.idx as int)
}

/// The tree built over `entries` has the shape the construction
/// prescribes: one entry becomes a single leaf, two become two direct
/// leaves, and more are sorted on the fixed axis and split at the
/// midpoint, each node's box the union of its children's.
pub open spec fn tree_shape(n: BvhNode, arena: Seq<Object>, entries: Seq<BvhEntry>) -> bool
    decreases n,
{
    if entries.len() <= 0 {
        false
    } else if entries.len() == 1 {
        n.left == BvhChild::Leaf(entries[0].idx) && (n.right is None) && n.bounding_box
            == entries[0].bbox
    } else if entries.len() == 2 {
        n.left == BvhChild::Leaf(entries[0].idx) && n.right == Some(
            BvhChild::Leaf(entries[1].idx),
        ) && n.bounding_box == crate::aabb::box_union(entries[0].bbox, entries[1].bbox)
    } else {
        exists |es: Seq<BvhEntry>|
            {
                &&& #[trigger] entries_sorted(es)
                &&& es.to_multiset() == entries.to_multiset()
                &&& es.len() == entries.len()
                &&& (n.left matches BvhChild::Node(ln) && (n.right matches Some(rc) && (rc
                    matches BvhChild::Node(rn) && n.bounding_box == crate::aabb::box_union(
                    ln.bounding_box,
                    rn.bounding_box,
                ) && tree_shape(*ln, arena, es.subrange(0, es.len() as int / 2)) && tree_shape(
                    *rn,
                    arena,
                    es.subrange(es.len() as int / 2, es.len() as int),
                ))))
            }
    }
}

/// The entry list the builder starts from: every index in order, paired
/// with its primitive's box.
pub open spec fn canonical_entries(arena: Seq<Object>, t0: int, t1: int) -> Seq<BvhEntry> {
    Seq::new(arena.len(), |i: int| BvhEntry {
        idx: i as usize,
        bbox: obj_bbox(arena[i], t0, t1).unwrap(),
    })
}

/// Whether `x` sorts before `y` under the fixed-axis comparison: box
/// minimum on the x-axis, tie-broken by box maximum.
fn entry_le(x: &BvhEntry, y: &BvhEntry) -> (r: bool)
    ensures
        r == (x.bbox.minimum.x < y.bbox.minimum.x || (x.bbox.minimum.x == y.bbox.minimum.x
            && x.bbox.maximum.x <= y.bbox.maximum.x)),
{
    x.bbox.minimum.x < y.bbox.minimum.x || (x.bbox.minimum.x == y.bbox.minimum.x
        && x.bbox.maximum.x <= y.bbox.maximum.x)
}

/// Selection sort by the fixed-axis comparison; the multiset of entries is
/// unchanged.
#[verifier::rlimit(100)]
#[verifier::spinoff_prover]
fn sort_entries(entries: Vec<BvhEntry>) -> (res: Vec<BvhEntry>)
    ensures
        res@.to_multiset() == entries@.to_multiset(),
        entry_idxs(res@).to_multiset() == entry_idxs(entries@).to_multiset(),
        res@.len() == entries@.len(),
        entries_sorted(res@),
    decreases entries@.len(),
{
    let mut src = entries;
    let mut out: Vec<BvhEntry> = Vec::new();
    let ghost orig = src@;
    while src.len() > 0
        invariant
            out@.to_multiset().add(src@.to_multiset()) == orig.to_multiset(),
            entry_idxs(out@).to_multiset().add(entry_idxs(src@).to_multiset()) == entry_idxs(
                orig,
            ).to_multiset(),
            out@.len() + src@.len() == orig.len(),
            entries_sorted(out@),
            forall |i: int, j: int|
                0 <= i < out@.len() && 0 <= j < src@.len() ==> entry_le_spec(
                    #[trigger] out@[i],
                    #[trigger] src@[j],
                ),
        decreases src.len(),
    {
        let mut m: usize = 0;
        let mut j: usize = 1;
        while j < src.len()
            invariant
                0 <= m < src@.len(),
                j <= src@.len(),
                src@.len() > 0,
                forall |jj: int| 0 <= jj < j ==> entry_le_spec(src@[m as int], #[trigger] src@[jj]),
            decreases src.len() - j,
        {
            if entry_le(&src[j], &src[m]) {
                m = j;
            }
            j = j + 1;
        }
        let ghost src_before = src@;
        let ghost out_before = out@;
        let e = src.remove(m);
        out.push(e);
        proof {
            assert forall |i: int, j: int|
                0 <= i < out@.len() && 0 <= j < src@.len() implies entry_le_spec(
                #[trigger] out@[i],
                #[trigger] src@[j],
            ) by {
                let sj = if j < m as int {
                    j
                } else {
                    j + 1
                };
                assert(src@[j] == src_before[sj]);
                if i < out_before.len() {
                    assert(out@[i] == out_before[i]);
                } else {
                    assert(out@[i] == e);
                }
            }
            assert(entries_sorted(out@)) by {
                assert forall |i: int, j: int| 0 <= i < j < out@.len() implies entry_le_spec(
                    #[trigger] out@[i],
                    #[trigger] out@[j],
                ) by {
                    if j < out_before.len() {
                        assert(out@[i] == out_before[i] && out@[j] == out_before[j]);
                    } else {
                        assert(out@[j] == e);
                        assert(out@[i] == out_before[i]);
                        assert(entry_le_spec(out_before[i], src_before[m as int]));
                    }
                }
            }
            assert(src@.to_multiset() =~= src_before.to_multiset().remove(src_before[m as int]));
            assert(out@.to_multiset() =~= out_before.to_multiset().insert(e));
            assert(out@.to_multiset().add(src@.to_multiset()) =~= orig.to_multiset());
            lemma_entry_idxs_remove(src_before, m as int);
            lemma_entry_idxs_push(out_before, e);
            assert(entry_idxs(src@).to_multiset() =~= entry_idxs(src_before).to_multiset().remove(
                e.idx as int));
            assert(entry_idxs(out@).to_multiset() =~= entry_idxs(out_before).to_multiset().insert(
                e.idx as int));
            assert(entry_idxs(src_before).to_multiset().contains(e.idx as int)) by {
                assert(entry_idxs(src_before)[m as int] == e.idx as int);
                assert(entry_idxs(src_before).contains(e.idx as int));
            }
            assert(entry_idxs(out@).to_multiset().add(entry_idxs(src@).to_multiset())
                =~= entry_idxs(orig).to_multiset());
        }
    }
    out
}

/// Removing an entry removes its index from the index sequence.
proof fn lemma_entry_idxs_remove(es: Seq<BvhEntry>, m: int)
    requires
        0 <= m < es.len(),
    ensures
        entry_idxs(es.remove(m)) =~= entry_idxs(es).remove(m),
{
}

/// Pushing an entry pushes its index onto the index sequence.
proof fn lemma_entry_idxs_push(es: Seq<BvhEntry>, e: BvhEntry)
    ensures
        entry_idxs(es.push(e)) =~= entry_idxs(es).push(e.idx as int),
{
}

/// Build a tree over the given entries: a single entry becomes a leaf-only
/// node, two become a two-leaf node, and more are sorted on the fixed axis
/// and split at the midpoint.
#[verifier::rlimit(100)]
#[verifier::spinoff_prover]
fn build_tree(entries: Vec<BvhEntry>, Ghost(arena): Ghost<Seq<Object>>, time0: i64, time1: i64)
    -> (res: BvhNode)
    requires
        entries@.len() >= 1,
        entries_valid(entries@, arena, time0 as int, time1 as int),
    ensures
        node_wf(res, arena),
        res.time0 == time0,
        res.time1 == time1,
        node_leaves(res).to_multiset() == entry_idxs(entries@).to_multiset(),
        node_tight(res, arena),
        tree_shape(res, arena, entries@),
    decreases entries@.len(),
{
    let n = entries.len();
    if n == 1 {
        let e = entries[0];
        let res = BvhNode {
            left: BvhChild::Leaf(e.idx),
            right: None,
            bounding_box: e.bbox,
            time0,
            time1,
        };
        proof {
            assert(node_leaves(res) =~= seq![e.idx as int]);
            assert(entry_idxs(entries@) =~= seq![e.idx as int]);
            assert(obj_bbox(arena[node_leaves(res)[0]], time0 as int, time1 as int) == Some(
                e.bbox,
            ));
        }
        res
    } else if n == 2 {
        let e0 = entries[0];
        let e1 = entries[1];
        let res = BvhNode {
            left: BvhChild::Leaf(e0.idx),
            right: Some(BvhChild::Leaf(e1.idx)),
            bounding_box: Aabb::surrounding_box(&e0.bbox, &e1.bbox),
            time0,
            time1,
        };
        proof {
            lemma_union_contains(e0.bbox, e1.bbox);
            assert(node_leaves(res) =~= seq![e0.idx as int, e1.idx as int]);
            assert(entry_idxs(entries@) =~= seq![e0.idx as int, e1.idx as int]);
            assert(node_leaves(res)[0] == e0.idx as int);
            assert(node_leaves(res)[1] == e1.idx as int);
            assert(node_tight(res, arena)) by {
                assert(node_leaves(res) =~= seq![e0.idx as int] + seq![e1.idx as int]);
                assert(obj_bbox(arena[seq![e0.idx as int][0]], time0 as int, time1 as int)
                    == Some(e0.bbox));
                assert(obj_bbox(arena[seq![e1.idx as int][0]], time0 as int, time1 as int)
                    == Some(e1.bbox));
                lemma_union_face_tight(arena, seq![e0.idx as int], seq![e1.idx as int], e0.bbox,
                    e1.bbox, time0 as int, time1 as int);
            }
        }
        res
    } else {
        let sorted = sort_entries(entries);
        proof {
            lemma_valid_from_multiset(sorted@, entries@, arena, time0 as int, time1 as int);
        }
        let mid = n / 2;
        let mut left_vec: Vec<BvhEntry> = Vec::new();
        let mut right_vec: Vec<BvhEntry> = Vec::new();
        let mut i: usize = 0;
        while i < mid
            invariant
                i <= mid,
                mid < sorted@.len(),
                left_vec@ == sorted@.subrange(0, i as int),
            decreases mid - i,
        {
            left_vec.push(sorted[i]);
            proof {
                assert(left_vec@ =~= sorted@.subrange(0, i + 1));
            }
            i = i + 1;
        }
        let mut k: usize = mid;
        let slen = sorted.len();
        while k < slen
            invariant
                mid <= k <= slen,
                slen == sorted@.len(),
                mid < slen,
                right_vec@ == sorted@.subrange(mid as int, k as int),
            decreases slen - k,
        {
            right_vec.push(sorted[k]);
            proof {
                assert(right_vec@ =~= sorted@.subrange(mid as int, k + 1));
            }
            k = k + 1;
        }
        proof {
            assert(sorted@ =~= left_vec@ + right_vec@);
            assert(entries_valid(left_vec@, arena, time0 as int, time1 as int));
            assert(entries_valid(right_vec@, arena, time0 as int, time1 as int));
        }
        let left_node = build_tree(left_vec, Ghost(arena), time0, time1);
        let right_node = build_tree(right_vec, Ghost(arena), time0, time1);
        let bbox = Aabb::surrounding_box(&left_node.bounding_box, &right_node.bounding_box);
        let ghost ll = node_leaves(left_node);
        let ghost rl = node_leaves(right_node);
        let res = BvhNode {
            left: BvhChild::Node(Box::new(left_node)),
            right: Some(BvhChild::Node(Box::new(right_node))),
            bounding_box: bbox,
            time0,
            time1,
        };
        proof {
            assert(node_leaves(res) =~= ll + rl);
            lemma_multiset_commutative(ll, rl);
            lemma_entry_split_multisets(sorted@, left_vec@, right_vec@);
            assert(node_leaves(res).to_multiset() =~= entry_idxs(entries@).to_multiset());
            assert(node_tight(res, arena)) by {
                lemma_union_face_tight(arena, ll, rl, left_node.bounding_box,
                    right_node.bounding_box, time0 as int, time1 as int);
            }
            assert(tree_shape(res, arena, entries@)) by {
                assert(entries_sorted(sorted@));
                assert(sorted@.subrange(0, sorted@.len() as int / 2) == left_vec@);
                assert(sorted@.subrange(sorted@.len() as int / 2, sorted@.len() as int)
                    == right_vec@);
            }
            assert forall |j: int|
                0 <= j < node_leaves(res).len() implies leaf_in_box(
                arena,
                #[trigger] node_leaves(res)[j],
                res.bounding_box,
                time0 as int,
                time1 as int,
            ) by {
                lemma_union_contains_sides(res.bounding_box, left_node.bounding_box,
                    right_node.bounding_box);
                if j < ll.len() {
                    assert(node_leaves(res)[j] == ll[j]);
                    assert(leaf_in_box(arena, ll[j], left_node.bounding_box, time0 as int,
                        time1 as int));
                } else {
                    assert(node_leaves(res)[j] == rl[j - ll.len()]);
                    assert(leaf_in_box(arena, rl[j - ll.len()], right_node.bounding_box,
                        time0 as int, time1 as int));
                }
            }
        }
        res
    }
}

/// The union of the two child boxes bounds each of them.
proof fn lemma_union_contains_sides(u: Aabb, a: Aabb, b: Aabb)
    requires
        u == crate::aabb::box_union(a, b),
    ensures
        box_contains(u, a),
        box_contains(u, b),
{
    lemma_union_contains(a, b);
}

/// Concatenating the split halves concatenates the index sequences, so
/// the index multisets add up.
proof fn lemma_entry_split_multisets(s: Seq<BvhEntry>, l: Seq<BvhEntry>, r: Seq<BvhEntry>)
    requires
        s == l + r,
    ensures
        entry_idxs(s).to_multiset() == entry_idxs(l).to_multiset().add(
            entry_idxs(r).to_multiset(),
        ),
{
    assert(entry_idxs(s) =~= entry_idxs(l) + entry_idxs(r));
    lemma_multiset_commutative(entry_idxs(l), entry_idxs(r));
}

/// Validity of entries follows from validity of a multiset-equal sequence.
proof fn lemma_valid_from_multiset(
    es: Seq<BvhEntry>,
    base: Seq<BvhEntry>,
    arena: Seq<Object>,
    t0: int,
    t1: int,
)
    requires
        es.to_multiset() == base.to_multiset(),
        entries_valid(base, arena, t0, t1),
    ensures
        entries_valid(es, arena, t0, t1),
{
    assert forall |j: int|
        0 <= j < es.len() implies (#[trigger] es[j]).idx < arena.len() && obj_bbox(
        arena[es[j].idx as int],
        t0,
        t1,
    ) == Some(es[j].bbox) by {
        assert(es.contains(es[j]));
        assert(es.to_multiset().contains(es[j]));
        assert(base.to_multiset().contains(es[j]));
        assert(base.contains(es[j]));
        let k = choose |k: int| 0 <= k < base.len() && base[k] == es[j];
        assert(base[k].idx < arena.len());
    }
}

impl BvhNode {
    /// Build a tree over the list's primitives for the motion interval
    /// `[time0, time1]`.
    ///
    /// Succeeds exactly when the list is nonempty and every primitive
    /// reports a bounding box for the interval; the tree is then
    /// well-formed and its leaves are a permutation of the list's indices.
    #[verifier::rlimit(100)]
    #[verifier::spinoff_prover]
    pub fn new(src_objects: &HittableList, time0: i64, time1: i64) -> (res: Result<
        BvhNode,
        BvhBuildError,
    >)
        ensures
            (match res {
                Ok(node) => {
                    &&& node_wf(node, src_objects.objects@)
                    &&& node.time0 == time0
                    &&& node.time1 == time1
                    &&& node_leaves(node).to_multiset() == all_idxs(
                        src_objects.objects@.len() as int,
                    ).to_multiset()
                    &&& node_tight(node, src_objects.objects@)
                    &&& tree_shape(
                        node,
                        src_objects.objects@,
                        canonical_entries(src_objects.objects@, time0 as int, time1 as int),
                    )
                    &&& src_objects.objects@.len() > 0
                },
                Err(e) => (e == BvhBuildError::EmptyList && src_objects.objects@.len() == 0) || (
                e == BvhBuildError::MissingBoundingBox && exists |i: int|
                    0 <= i < src_objects.objects@.len() && !bbox_some(
                        #[trigger] src_objects.objects@[i],
                        time0 as int,
                        time1 as int,
                    )),
            }),
    {
        let ghost arena = src_objects.objects@;
        let n = src_objects.objects.len();
        if n == 0 {
            return Err(BvhBuildError::EmptyList);
        }
        let mut entries: Vec<BvhEntry> = Vec::new();
        let mut i: usize = 0;
        while i < n
            invariant
                i <= n,
                n == arena.len(),
                src_objects.objects@ == arena,
                entries@.len() == i,
                entries_valid(entries@, arena, time0 as int, time1 as int),
                entry_idxs(entries@) =~= all_idxs(i as int),
                entries@ == canonical_entries(arena, time0 as int, time1 as int).subrange(
                    0,
                    i as int,
                ),
            decreases n - i,
        {
            match src_objects.objects[i].bounding_box(time0, time1) {
                Some(bb) => {
                    let ghost before = entries@;
                    entries.push(BvhEntry { idx: i, bbox: bb });
                    proof {
                        lemma_entry_idxs_push(before, BvhEntry { idx: i, bbox: bb });
                        assert(entry_idxs(entries@) =~= all_idxs(i + 1));
                        assert(canonical_entries(arena, time0 as int, time1 as int)[i as int]
                            == (BvhEntry { idx: i, bbox: bb }));
                        assert(entries@ =~= canonical_entries(arena, time0 as int,
                            time1 as int).subrange(0, i + 1));
                    }
                },
                None => {
                    return Err(BvhBuildError::MissingBoundingBox);
                },
            }
            i = i + 1;
        }
        proof {
            assert(entries@ =~= canonical_entries(arena, time0 as int, time1 as int));
        }
        let node = build_tree(entries, Ghost(arena), time0, time1);
        Ok(node)
    }
}

/// Nearest-hit agreement of the hierarchy with a brute-force linear scan.
///
/// For any ray and interval, over any media-free scene: if a query whose
/// leaves are a permutation of the scene's indices satisfies the tree
/// contract, and a linear scan of the same scene satisfies the scan
/// contract, then both find a hit on exactly the same inputs, and when
/// they do, at exactly the same parameter.
#[verifier::rlimit(100)]
#[verifier::spinoff_prover]
pub proof fn lemma_bvh_matches_linear_scan(
    arena: Seq<Object>,
    idxs: Seq<int>,
    r: Ray,
    a: int,
    b: int,
    bres: Option<HitRecord>,
    lres: Option<HitRecord>,
)
    requires
        idxs.to_multiset() == all_idxs(arena.len() as int).to_multiset(),
        bvh_post(arena, idxs, r, a, b, bres),
        scan_post(arena, r, a, b, lres),
    ensures
        (bres is Some) == (lres is Some),
        bres matches Some(br) ==> (lres matches Some(lr) && br.t == lr.t),
{
    let n = arena.len() as int;
    assert forall |i: int| 0 <= i < n implies idxs.contains(i) by {
        assert(all_idxs(n)[i] == i);
        assert(all_idxs(n).contains(i));
        assert(all_idxs(n).to_multiset().contains(i));
        assert(idxs.to_multiset().contains(i));
    }
    assert forall |j: int| 0 <= j < idxs.len() implies 0 <= #[trigger] idxs[j] < n by {
        assert(idxs.contains(idxs[j]));
        assert(idxs.to_multiset().contains(idxs[j]));
        assert(all_idxs(n).to_multiset().contains(idxs[j]));
        assert(all_idxs(n).contains(idxs[j]));
        let k = choose |k: int| 0 <= k < n && all_idxs(n)[k] == idxs[j];
    }
    match bres {
        Some(br) => {
            let j0 = choose |j: int|
                0 <= j < idxs.len() && ((#[trigger] obj_hit(arena[idxs[j]], r, a, b))
                    matches Some(rec) && rec.t == br.t);
            let i0 = idxs[j0];
            match lres {
                Some(lr) => {
                    assert(lr.t as int <= br.t as int) by {
                        assert(0 <= i0 < n);
                        assert(match obj_hit(arena[i0], r, a, b) {
                            None => true,
                            Some(rec) => lr.t as int <= rec.t,
                        });
                    }
                    assert(br.t as int <= lr.t as int) by {
                        let i1 = choose |i: int|
                            0 <= i < n && ((#[trigger] obj_hit(arena[i], r, a, b)) matches Some(
                                rec,
                            ) && rec.t == lr.t);
                        let j1 = choose |j: int| 0 <= j < idxs.len() && idxs[j] == i1;
                        assert(idxs.contains(i1));
                        assert(match obj_hit(arena[idxs[j1]], r, a, b) {
                            None => true,
                            Some(rec) => br.t as int <= rec.t,
                        });
                    }
                },
                None => {
                    assert(0 <= i0 < n);
                    assert(obj_hit(arena[i0], r, a, b) is None);
                    assert(false);
                },
            }
        },
        None => {
            match lres {
                Some(lr) => {
                    let i1 = choose |i: int|
                        0 <= i < n && ((#[trigger] obj_hit(arena[i], r, a, b)) matches Some(rec)
                            && rec.t == lr.t);
                    assert(idxs.contains(i1));
                    let j1 = choose |j: int| 0 <= j < idxs.len() && idxs[j] == i1;
                    assert(obj_hit(arena[idxs[j1]], r, a, b) is None);
                    assert(false);
                },
                None => {
                },
            }
        },
    }
}

/// A tree query whose leaves are a permutation of the scene's indices
/// satisfies the linear scan's contract over the scene sequence itself.
#[verifier::rlimit(100)]
#[verifier::spinoff_prover]
pub proof fn lemma_bvh_post_to_scan(
    arena: Seq<Object>,
    idxs: Seq<int>,
    r: Ray,
    a: int,
    b: int,
    res: Option<HitRecord>,
)
    requires
        idxs.to_multiset() == all_idxs(arena.len() as int).to_multiset(),
        bvh_post(arena, idxs, r, a, b, res),
    ensures
        scan_post(arena, r, a, b, res),
{
    let n = arena.len() as int;
    assert forall |i: int| 0 <= i < n implies idxs.contains(i) by {
        assert(all_idxs(n)[i] == i);
        assert(all_idxs(n).contains(i));
        assert(all_idxs(n).to_multiset().contains(i));
        assert(idxs.to_multiset().contains(i));
    }
    assert forall |j: int| 0 <= j < idxs.len() implies 0 <= #[trigger] idxs[j] < n by {
        assert(idxs.contains(idxs[j]));
        assert(idxs.to_multiset().contains(idxs[j]));
        assert(all_idxs(n).to_multiset().contains(idxs[j]));
        assert(all_idxs(n).contains(idxs[j]));
        let k = choose |k: int| 0 <= k < n && all_idxs(n)[k] == idxs[j];
    }
    match res {
        Some(rec) => {
            let t = rec.t as int;
            assert(crate::hittable::hits_at_upto(arena, r, a, b, t, n)) by {
                let j0 = choose |j: int|
                    0 <= j < idxs.len() && ((#[trigger] obj_hit(arena[idxs[j]], r, a, b))
                        matches Some(w) && w.t == rec.t);
                assert(0 <= idxs[j0] < n);
                assert((obj_hit(arena[idxs[j0]], r, a, b)) matches Some(w) && w.t == t);
            }
            assert forall |i: int| 0 <= i < n implies match #[trigger] obj_hit(arena[i], r, a, b) {
                None => true,
                Some(w) => t <= w.t,
            } by {
                let j = choose |j: int| 0 <= j < idxs.len() && idxs[j] == i;
                assert(idxs.contains(i));
                assert(match obj_hit(arena[idxs[j]], r, a, b) {
                    None => true,
                    Some(w) => rec.t <= w.t,
                });
            }
            assert(crate::hittable::valid_rec_upto(arena, r, a, b, rec, n)) by {
                let (jv, bndv) = choose |j: int, bnd: int|
                    0 <= j < idxs.len() && bnd <= b && (#[trigger] obj_hit(arena[idxs[j]], r, a,
                    bnd)) == Some(rec);
                assert(0 <= idxs[jv] < n);
                assert(obj_hit(arena[idxs[jv]], r, a, bndv) == Some(rec) && bndv <= b);
            }
        },
        None => {
            assert forall |i: int| 0 <= i < n implies (#[trigger] obj_hit(arena[i], r, a, b))
                is None by {
                let j = choose |j: int| 0 <= j < idxs.len() && idxs[j] == i;
                assert(idxs.contains(i));
                assert(obj_hit(arena[idxs[j]], r, a, b) is None);
            }
        },
    }
}

} // verus!
