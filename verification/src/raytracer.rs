//! The light-transport integrator: turn a ray into a radiance color by
//! recursive stochastic sampling, bounded by a recursion budget.
//!
//! The energy bound is proved: over a non-emitting scene whose every
//! attenuation color is validated to lie in `[0, 1]`, the radiance of any
//! ray stays componentwise between zero and the background, whatever the
//! random draws; and an exhausted recursion budget yields black exactly.

use vstd::prelude::*;
use crate::fx::{FX_ONE, FX_MAX, smul, smax, lemma_smul_le_right, fx_add, fx_div};
use crate::vector::{Vec3, Color, vwf, vadd, vhad};
use crate::ray::Ray;
use crate::rng::XorRand;
use crate::hittable::{
    HitRecord, HittableList, material_in, all_deterministic, all_wf, scan_post, all_miss_upto,
    hits_at_upto, no_hit_before_upto, valid_rec_upto,
};
use crate::bvh::{BvhNode, node_wf, node_leaves, all_idxs, bvh_usable, lemma_bvh_post_to_scan};
use crate::camera::Camera;
use crate::image_object::{Image, ImageParams, Pixel};
use crate::material::{
    Material, emitted_value, scatter_attenuation, material_attenuation_bounded, can_scatter,
    always_scatters,
};
use crate::objects::Object;
use crate::texture::color_bounded;

verus! {

/// Offset from a hit point at which secondary rays restart, avoiding
/// self-intersection ("shadow acne").
pub const EPS_SHADOW: i64 = 66;

/// The scene as the integrator sees it: the primitive list, and
/// optionally an acceleration tree over it.
#[derive(Debug)]
pub struct World {
    pub objects: HittableList,
    pub accel: Option<BvhNode>,
}

/// The scene's hit queries are exact for this ray: no volumetric media,
/// and, when an acceleration tree is present, a well-formed tree over the
/// whole well-formed list, queried at a ray time inside its build
/// interval.
pub open spec fn world_exact(w: World, r: Ray) -> bool {
    &&& all_deterministic(w.objects.objects@)
    &&& match w.accel {
        None => true,
        Some(n) => all_wf(w.objects.objects@) && node_wf(n, w.objects.objects@) && node_leaves(
            n,
        ).to_multiset() == all_idxs(w.objects.objects@.len() as int).to_multiset() && n.time0
            <= r.time <= n.time1,
    }
}

/// Every material the scene can report is non-emitting and has its
/// attenuation validated into `[0, 1]`: such a scene can only lose
/// energy along a path.
pub open spec fn world_absorptive(w: World) -> bool {
    forall |m: Material|
        #[trigger] material_in(w.objects.objects@, m) ==> (match m {
            Material::DiffuseLight(_) => false,
            _ => true,
        }) && material_attenuation_bounded(m)
}

impl World {
    /// A scene scanned linearly, with no acceleration tree.
    pub fn new_list(objects: HittableList) -> (r: World)
        ensures
            r.objects.objects@ == objects.objects@,
            r.accel is None,
    {
        World { objects, accel: None }
    }

    /// A scene queried through an acceleration tree over its list.
    pub fn new_accel(objects: HittableList, accel: BvhNode) -> (r: World)
        ensures
            r.objects.objects@ == objects.objects@,
            r.accel == Some(accel),
    {
        World { objects, accel: Some(accel) }
    }

    /// The primitive list's view.
    pub open spec fn view_objects(&self) -> Seq<Object> {
        self.objects.objects@
    }

    /// The nearest hit: through the tree when one is present, otherwise by
    /// linear scan.
    pub fn hit(&self, r: &Ray, t_min: i64, t_max: i64, rng: &mut XorRand) -> (res: Option<
        HitRecord,
    >)
        requires
            old(rng).wf(),
        ensures
            final(rng).wf(),
            res matches Some(rec) ==> vwf(rec.p) && vwf(rec.normal) && t_min <= rec.t && rec.t
                as int <= smax(t_max as int, 0) && material_in(
                self.objects.objects@,
                rec.material,
            ),
            world_exact(*self, *r) ==> final(rng).state == old(rng).state && scan_post(
                self.objects.objects@,
                *r,
                t_min as int,
                t_max as int,
                res,
            ),
    {
        match &self.accel {
            Some(node) => {
                let res = node.hit(&self.objects, r, t_min, t_max, rng);
                proof {
                    if world_exact(*self, *r) {
                        assert(bvh_usable(*node, self.objects.objects@, *r));
                        lemma_bvh_post_to_scan(self.objects.objects@, node_leaves(*node), *r,
                            t_min as int, t_max as int, res);
                    }
                }
                res
            },
            None => self.objects.hit(r, t_min, t_max, rng),
        }
    }
}

/// A color with all channels in `[0, hi]`.
pub open spec fn channels_in(c: Color, hi: int) -> bool {
    color_bounded(c, 0, hi)
}

/// What `ray_color` returns at positive depth over an exact scene: either
/// nothing is hit in the shadow-offset interval and the result is the
/// background, or some nearest hit record determines it as the material's
/// emission plus its attenuation times a recursively transported color.
/// The attenuation is the material's except when the material declined to
/// scatter, in which case it is zero and only the emission remains; a hit
/// on the sentinel material has been counted.
pub open spec fn radiance_hit_case(
    w: World,
    r: Ray,
    res: Color,
    blank_old: int,
    blank_new: int,
    rec: HitRecord,
    att: Color,
    c: Color,
) -> bool {
    let s = w.objects.objects@;
    &&& hits_at_upto(s, r, EPS_SHADOW as int, FX_MAX as int, rec.t as int, s.len() as int)
    &&& no_hit_before_upto(s, r, EPS_SHADOW as int, FX_MAX as int, rec.t as int, s.len() as int)
    &&& valid_rec_upto(s, r, EPS_SHADOW as int, FX_MAX as int, rec, s.len() as int)
    &&& (att == scatter_attenuation(rec.material, rec) || att == (Vec3 {
        x: 0i64,
        y: 0i64,
        z: 0i64,
    }))
    &&& (always_scatters(rec.material) ==> att == scatter_attenuation(rec.material, rec))
    &&& (!can_scatter(rec.material) ==> att == (Vec3 { x: 0i64, y: 0i64, z: 0i64 }))
    &&& res == vadd(emitted_value(rec.material, rec.u as int, rec.v as int, rec.p), vhad(att, c))
    &&& (rec.material is BlankMaterial ==> blank_new > blank_old || blank_old == u64::MAX as int)
}

pub open spec fn radiance_law(
    w: World,
    r: Ray,
    background: Color,
    res: Color,
    blank_old: int,
    blank_new: int,
) -> bool {
    let s = w.objects.objects@;
    ||| (all_miss_upto(s, r, EPS_SHADOW as int, FX_MAX as int, s.len() as int) && res
        == background)
    ||| exists |rec: HitRecord, att: Color, c: Color|
        #[trigger] radiance_hit_case(w, r, res, blank_old, blank_new, rec, att, c)
}

/// Radiance transported along `r` into the camera: black when the
/// recursion budget is exhausted; the background on a miss; otherwise the
/// hit material's emission plus its attenuation times the radiance of the
/// scattered ray.  A hit on the sentinel material is a reportable scene
/// violation: it contributes nothing and increments `blank_hits`, which
/// the caller can surface.
#[verifier::rlimit(100)]
#[verifier::spinoff_prover]
pub fn ray_color(
    r: &Ray,
    background: Color,
    world: &World,
    depth: u32,
    rng: &mut XorRand,
    blank_hits: &mut u64,
) -> (res: Color)
    requires
        old(rng).wf(),
    ensures
        final(rng).wf(),
        *final(blank_hits) >= *old(blank_hits),
        depth == 0 ==> res == (Vec3 { x: 0, y: 0, z: 0 }),
        (world_exact(*world, *r) && depth > 0) ==> radiance_law(
            *world,
            *r,
            background,
            res,
            *old(blank_hits) as int,
            *final(blank_hits) as int,
        ),
        (world_absorptive(*world) && channels_in(background, FX_MAX as int)) ==> channels_in(
            res,
            FX_MAX as int,
        ) && res.x <= background.x && res.y <= background.y && res.z <= background.z,
    decreases depth,
{
    let ghost absorptive = world_absorptive(*world) && channels_in(background, FX_MAX as int);
    let ghost exact = world_exact(*world, *r);
    let ghost blank0 = *blank_hits;
    if depth == 0 {
        return Vec3 { x: 0, y: 0, z: 0 };
    }
    let hit = world.hit(r, EPS_SHADOW, FX_MAX, rng);
    match hit {
        Some(rec) => {
            let emitted = rec.material.emmited(rec.u, rec.v, &rec.p);
            if matches!(rec.material, Material::BlankMaterial(_)) {
                if *blank_hits < u64::MAX {
                    *blank_hits = *blank_hits + 1;
                }
            }
            let scatter = rec.material.scatter(r, &rec, rng);
            let mut attenuation = Vec3 { x: 0, y: 0, z: 0 };
            let mut scattered_color = Vec3 { x: 0, y: 0, z: 0 };
            match scatter {
                Some((scattered_attenuation, scattered_ray)) => {
                    attenuation = scattered_attenuation;
                    match scattered_ray {
                        Some(sray) => {
                            scattered_color = ray_color(&sray, background, world, depth - 1, rng,
                                blank_hits);
                        },
                        None => {
                        },
                    }
                },
                None => {
                },
            }
            let res = emitted.add(attenuation.mul(scattered_color));
            proof {
                if absorptive {
                    assert(material_in(world.objects.objects@, rec.material));
                    lemma_attenuation_bounded(rec.material, rec);
                    lemma_absorptive_step(*world, rec, emitted, attenuation, scattered_color,
                        background);
                }
                if exact {
                    assert(radiance_hit_case(*world, *r, res, blank0 as int, *blank_hits as int,
                        rec, attenuation, scattered_color));
                    assert(radiance_law(*world, *r, background, res, blank0 as int,
                        *blank_hits as int));
                }
            }
            res
        },
        None => background,
    }
}

/// One bounce of the energy argument: with black emission and attenuation
/// in `[0, 1]`, the bounced contribution cannot exceed the incoming one.
proof fn lemma_absorptive_step(
    w: World,
    rec: HitRecord,
    emitted: Color,
    attenuation: Color,
    scattered_color: Color,
    background: Color,
)
    requires
        world_absorptive(w),
        channels_in(background, FX_MAX as int),
        material_in(w.objects.objects@, rec.material),
        emitted == emitted_value(rec.material, rec.u as int, rec.v as int, rec.p),
        channels_in(attenuation, FX_ONE as int) || attenuation == (Vec3 { x: 0, y: 0, z: 0 }),
        channels_in(scattered_color, FX_MAX as int),
        scattered_color.x <= background.x,
        scattered_color.y <= background.y,
        scattered_color.z <= background.z,
    ensures
        channels_in(vadd(emitted, vhad(attenuation, scattered_color)), FX_MAX as int),
        vadd(emitted, vhad(attenuation, scattered_color)).x <= background.x,
        vadd(emitted, vhad(attenuation, scattered_color)).y <= background.y,
        vadd(emitted, vhad(attenuation, scattered_color)).z <= background.z,
{
    assert(emitted == (Vec3 { x: 0i64, y: 0i64, z: 0i64 })) by {
        assert(!(rec.material is DiffuseLight));
    }
    if attenuation == (Vec3 { x: 0i64, y: 0i64, z: 0i64 }) {
        crate::fx::lemma_tdiv_nonneg(0, 65536);
        assert(0int * scattered_color.x as int == 0);
        assert(0int * scattered_color.y as int == 0);
        assert(0int * scattered_color.z as int == 0);
        assert(smul(0, scattered_color.x as int) == 0);
        assert(smul(0, scattered_color.y as int) == 0);
        assert(smul(0, scattered_color.z as int) == 0);
    } else {
        lemma_smul_le_right(attenuation.x as int, scattered_color.x as int);
        lemma_smul_le_right(attenuation.y as int, scattered_color.y as int);
        lemma_smul_le_right(attenuation.z as int, scattered_color.z as int);
    }
}

/// The attenuation a bounded material reports is itself in `[0, 1]`.
proof fn lemma_attenuation_bounded(m: Material, rec: HitRecord)
    requires
        material_attenuation_bounded(m),
    ensures
        channels_in(scatter_attenuation(m, rec), FX_ONE as int),
{
}

/// The scheduler's work list for a `w x h` image: one coordinate `(i, j)`
/// per pixel, rows from the top (`j = h - 1`) down, columns left to right.
pub open spec fn pixel_grid(w: int, h: int) -> Seq<(u32, u32)> {
    Seq::new((w * h) as nat, |k: int| ((k % w) as u32, (h - 1 - k / w) as u32))
}

/// The grid entry at slot `row * w + i` is column `i` of the row counted
/// from the top.
proof fn lemma_grid_at(w: int, h: int, row: int, i: int)
    requires
        0 < w <= u32::MAX as int,
        0 < h <= u32::MAX as int,
        0 <= row < h,
        0 <= i < w,
    ensures
        0 <= row * w + i < w * h,
        pixel_grid(w, h)[row * w + i] == ((i as u32, (h - 1 - row) as u32)),
{
    let k = row * w + i;
    assert(0 <= k && k < w * h) by (nonlinear_arith)
        requires k == row * w + i && 0 <= row < h && 0 <= i < w && 0 < w;
    vstd::arithmetic::div_mod::lemma_fundamental_div_mod_converse(k, w, row, i);
}

/// Some slot of the work list holds the pixel `(x, y)`.
pub open spec fn grid_has(w: int, h: int, x: int, y: int) -> bool {
    exists |k: int| 0 <= k < w * h && #[trigger] pixel_grid(w, h)[k] == ((x as u32, y as u32))
}

/// Scheduler completeness, stated of the work list itself: every pixel
/// coordinate of the image appears in the list, and no slot repeats a
/// coordinate -- together, every pixel is handed out exactly once.
pub proof fn lemma_grid_complete(w: int, h: int)
    requires
        0 < w <= u32::MAX as int,
        0 < h <= u32::MAX as int,
    ensures
        forall |x: int, y: int| 0 <= x < w && 0 <= y < h ==> #[trigger] grid_has(w, h, x, y),
        forall |k1: int, k2: int|
            0 <= k1 < k2 < w * h ==> pixel_grid(w, h)[k1] != pixel_grid(w, h)[k2],
{
    assert forall |x: int, y: int| 0 <= x < w && 0 <= y < h implies #[trigger] grid_has(
        w,
        h,
        x,
        y,
    ) by {
        let row = h - 1 - y;
        lemma_grid_at(w, h, row, x);
        assert(pixel_grid(w, h)[row * w + x] == ((x as u32, y as u32)));
    }
    assert forall |k1: int, k2: int| 0 <= k1 < k2 < w * h implies pixel_grid(w, h)[k1]
        != pixel_grid(w, h)[k2] by {
        vstd::arithmetic::div_mod::lemma_fundamental_div_mod(k1, w);
        vstd::arithmetic::div_mod::lemma_fundamental_div_mod(k2, w);
        vstd::arithmetic::div_mod::lemma_mod_division_less_than_divisor(k1, w);
        vstd::arithmetic::div_mod::lemma_mod_division_less_than_divisor(k2, w);
        vstd::arithmetic::div_mod::lemma_div_pos_is_pos(k1, w);
        vstd::arithmetic::div_mod::lemma_div_pos_is_pos(k2, w);
        vstd::arithmetic::div_mod::lemma_multiply_divide_lt(k1, w, h);
        vstd::arithmetic::div_mod::lemma_multiply_divide_lt(k2, w, h);
        let x1 = k1 % w;
        let x2 = k2 % w;
        let r1 = k1 / w;
        let r2 = k2 / w;
        assert(0 <= x1 < w && 0 <= x2 < w);
        assert(0 <= r1 < h && 0 <= r2 < h);
        if r1 == r2 && x1 == x2 {
            assert(k1 == w * r1 + x1);
            assert(k2 == w * r2 + x2);
            assert(false);
        } else if x1 != x2 {
            assert((x1 as u32) != (x2 as u32));
            assert(pixel_grid(w, h)[k1].0 != pixel_grid(w, h)[k2].0);
        } else {
            assert(((h - 1 - r1) as u32) != ((h - 1 - r2) as u32));
            assert(pixel_grid(w, h)[k1].1 != pixel_grid(w, h)[k2].1);
        }
    }
}

/// A grid coordinate is inside the image.
proof fn lemma_grid_in_range(w: int, h: int, k: int)
    requires
        0 < w <= u32::MAX as int,
        0 < h <= u32::MAX as int,
        0 <= k < w * h,
    ensures
        0 <= (pixel_grid(w, h)[k].0 as int) < w,
        0 <= (pixel_grid(w, h)[k].1 as int) < h,
{
    vstd::arithmetic::div_mod::lemma_mod_division_less_than_divisor(k, w);
    vstd::arithmetic::div_mod::lemma_div_pos_is_pos(k, w);
    vstd::arithmetic::div_mod::lemma_multiply_divide_lt(k, w, h);
}

/// Row arithmetic for filling the queue.
proof fn lemma_row_bound(row: int, w: int, h: int) by (nonlinear_arith)
    requires
        0 <= row < h,
        0 < w,
    ensures
        (row + 1) * w <= w * h,
        0 <= row * w,
        (row + 1) * w == row * w + w,
        h * w == w * h,
{
}

/// The work queue: every pixel coordinate of the image, handed out one at
/// a time; `next` is the first slot not yet claimed, so no coordinate is
/// ever handed out twice.
#[derive(Debug)]
pub struct WorkQueue {
    pub coords: Vec<(u32, u32)>,
    pub next: usize,
}

impl WorkQueue {
    /// Fill the queue with every pixel of a `width x height` image, rows
    /// from the top down.
    pub fn new(width: u32, height: u32) -> (q: WorkQueue)
        requires
            0 < width,
            0 < height,
            width as int * height as int <= usize::MAX as int,
        ensures
            q.coords@ == pixel_grid(width as int, height as int),
            q.next == 0,
    {
        let ghost w = width as int;
        let ghost h = height as int;
        let mut coords: Vec<(u32, u32)> = Vec::new();
        let mut row: u32 = 0;
        while row < height
            invariant
                0 < width,
                0 < height,
                w == width as int,
                h == height as int,
                w * h <= usize::MAX as int,
                row <= height,
                coords@.len() == row as int * w,
                coords@ == pixel_grid(w, h).subrange(0, row as int * w),
            decreases height - row,
        {
            let j = height - 1 - row;
            let mut i: u32 = 0;
            proof {
                lemma_row_bound(row as int, w, h);
            }
            while i < width
                invariant
                    0 < width,
                    0 < height,
                    w == width as int,
                    h == height as int,
                    w * h <= usize::MAX as int,
                    row < height,
                    j == height - 1 - row,
                    i <= width,
                    (row as int + 1) * w <= w * h,
                    coords@.len() == row as int * w + i as int,
                    coords@ == pixel_grid(w, h).subrange(0, row as int * w + i as int),
                decreases width - i,
            {
                proof {
                    lemma_grid_at(w, h, row as int, i as int);
                    lemma_row_bound(row as int, w, h);
                }
                coords.push((i, j));
                proof {
                    assert(coords@ =~= pixel_grid(w, h).subrange(0, row as int * w + i as int
                        + 1));
                }
                i = i + 1;
            }
            proof {
                lemma_row_bound(row as int, w, h);
            }
            row = row + 1;
        }
        proof {
            lemma_row_bound(h - 1, w, h);
            assert(coords@ =~= pixel_grid(w, h));
        }
        WorkQueue { coords, next: 0 }
    }

    /// Hand out the next unclaimed coordinate, or report the queue empty.
    /// `next` only advances, so each slot is returned at most once.
    pub fn pop(&mut self) -> (res: Option<(u32, u32)>)
        ensures
            final(self).coords@ == old(self).coords@,
            (match res {
                Some(c) => old(self).next < old(self).coords@.len() && c == old(
                    self,
                ).coords@[old(self).next as int] && final(self).next == old(self).next + 1,
                None => old(self).next >= old(self).coords@.len() && final(self).next == old(
                    self,
                ).next,
            }),
    {
        if self.next < self.coords.len() {
            let c = self.coords[self.next];
            self.next = self.next + 1;
            Some(c)
        } else {
            None
        }
    }
}

/// The componentwise saturated sum of a sequence of colors.
pub open spec fn sum_colors(cs: Seq<Color>) -> Color
    decreases cs.len(),
{
    if cs.len() == 0 {
        Vec3 { x: 0, y: 0, z: 0 }
    } else {
        vadd(sum_colors(cs.drop_last()), cs.last())
    }
}

/// Accumulate the samples of one pixel: jitter the pixel coordinate, ask
/// the camera for a primary ray, and sum the transported radiance.  The
/// result is the saturated sum of one radiance draw per sample; over an
/// absorptive scene every draw, and hence every channel of the sum, is
/// nonnegative.
pub fn render_pixel(
    cam: &Camera,
    world: &World,
    params: &ImageParams,
    i: u32,
    j: u32,
    rng: &mut XorRand,
    blank_hits: &mut u64,
) -> (c: Color)
    requires
        cam.wf(),
        old(rng).wf(),
    ensures
        final(rng).wf(),
        *final(blank_hits) >= *old(blank_hits),
        exists |cs: Seq<Color>|
            {
                &&& cs.len() == params.samples_per_pixel as int
                &&& c == #[trigger] sum_colors(cs)
                &&& ((world_absorptive(*world) && channels_in(params.background, FX_MAX as int))
                    ==> forall |k: int|
                    0 <= k < cs.len() ==> channels_in(#[trigger] cs[k], FX_MAX as int))
            },
{
    let ghost absorptive = world_absorptive(*world) && channels_in(params.background,
        FX_MAX as int);
    let mut pixel_color = Vec3 { x: 0, y: 0, z: 0 };
    let ghost mut cs: Seq<Color> = Seq::empty();
    let mut s: u32 = 0;
    let wm1: i64 = if params.image_width > 1 {
        (params.image_width - 1) as i64 * FX_ONE
    } else {
        FX_ONE
    };
    let hm1: i64 = if params.image_height > 1 {
        (params.image_height - 1) as i64 * FX_ONE
    } else {
        FX_ONE
    };
    while s < params.samples_per_pixel
        invariant
            s <= params.samples_per_pixel,
            cam.wf(),
            rng.wf(),
            *blank_hits >= *old(blank_hits),
            absorptive == (world_absorptive(*world) && channels_in(params.background,
                FX_MAX as int)),
            cs.len() == s as int,
            pixel_color == sum_colors(cs),
            absorptive ==> forall |k: int|
                0 <= k < cs.len() ==> channels_in(#[trigger] cs[k], FX_MAX as int),
        decreases params.samples_per_pixel - s,
    {
        let du = rng.random_unit();
        let dv = rng.random_unit();
        let u = fx_div(fx_add((i as i64) * FX_ONE, du), wm1);
        let v = fx_div(fx_add((j as i64) * FX_ONE, dv), hm1);
        let r = cam.get_ray(u, v, rng);
        let sample = ray_color(&r, params.background, world, params.max_depth, rng, blank_hits);
        pixel_color = pixel_color.add(sample);
        proof {
            assert(cs.push(sample).drop_last() =~= cs);
            cs = cs.push(sample);
        }
        s = s + 1;
    }
    pixel_color
}

/// The grid cell of `(x, y)` holds the finalized quantization of some
/// accumulated color: the pixel has been claimed and written.
pub open spec fn cell_finalized(img: Image, x: int, y: int, spp: int) -> bool {
    exists |c: Color|
        img.pixels@[y * img.width as int + x] == (Pixel {
            r: crate::image_object::quantized(c.x as int, spp) as u8,
            g: crate::image_object::quantized(c.y as int, spp) as u8,
            b: crate::image_object::quantized(c.z as int, spp) as u8,
        })
}

/// Distinct in-range coordinates occupy distinct row-major cells.
proof fn lemma_row_major_injective(w: int, x1: int, y1: int, x2: int, y2: int) by (nonlinear_arith)
    requires
        0 <= x1 < w,
        0 <= x2 < w,
        0 <= y1,
        0 <= y2,
        y1 * w + x1 == y2 * w + x2,
    ensures
        x1 == x2,
        y1 == y2,
{
}

/// Render the whole image on the calling thread: drain the work queue and
/// finalize each claimed pixel exactly once.  On completion every pixel
/// cell of the image holds the finalized quantization of its own claimed
/// accumulation: no gaps, and the queue's exactly-once handout
/// (`lemma_grid_complete`, `WorkQueue::pop`) means no cell was written
/// twice.
#[verifier::rlimit(100)]
#[verifier::spinoff_prover]
pub fn render(
    cam: &Camera,
    world: &World,
    params: &ImageParams,
    rng: &mut XorRand,
    blank_hits: &mut u64,
) -> (img: Image)
    requires
        cam.wf(),
        old(rng).wf(),
        0 < params.image_width,
        0 < params.image_height,
        params.image_width as int * params.image_height as int <= usize::MAX as int,
    ensures
        final(rng).wf(),
        *final(blank_hits) >= *old(blank_hits),
        img.wf(),
        img.width == params.image_width,
        img.height == params.image_height,
        forall |x: int, y: int|
            0 <= x < params.image_width && 0 <= y < params.image_height ==> cell_finalized(
                img,
                x,
                y,
                params.samples_per_pixel as int,
            ),
{
    let width = params.image_width;
    let height = params.image_height;
    let ghost w = width as int;
    let ghost h = height as int;
    let mut queue = WorkQueue::new(width, height);
    let mut img = Image::new(width, height);
    proof {
        lemma_grid_complete(w, h);
    }
    loop
        invariant
            cam.wf(),
            rng.wf(),
            *blank_hits >= *old(blank_hits),
            img.wf(),
            img.width == width,
            img.height == height,
            0 < width,
            0 < height,
            w == width as int,
            h == height as int,
            queue.coords@ == pixel_grid(w, h),
            queue.next <= queue.coords@.len(),
            forall |k: int|
                0 <= k < queue.next ==> cell_finalized(
                    img,
                    #[trigger] pixel_grid(w, h)[k].0 as int,
                    pixel_grid(w, h)[k].1 as int,
                    params.samples_per_pixel as int,
                ),
        ensures
            rng.wf(),
            *blank_hits >= *old(blank_hits),
            img.wf(),
            img.width == width,
            img.height == height,
            forall |x: int, y: int|
                0 <= x < w && 0 <= y < h ==> cell_finalized(
                    img,
                    x,
                    y,
                    params.samples_per_pixel as int,
                ),
        decreases queue.coords@.len() - queue.next,
    {
        let item = queue.pop();
        match item {
            Some((i, j)) => {
                proof {
                    lemma_grid_in_range(w, h, queue.next - 1);
                }
                let color = render_pixel(cam, world, params, i, j, rng, blank_hits);
                let ghost img_before = img;
                img.set_pixel(i, j, color, params.samples_per_pixel);
                proof {
                    lemma_grid_index_cover(w, h, queue.next - 1, img_before, img, color,
                        params.samples_per_pixel as int, i as int, j as int);
                }
            },
            None => {
                proof {
                    lemma_grid_complete(w, h);
                    assert(queue.next >= queue.coords@.len());
                    assert forall |x: int, y: int|
                        0 <= x < w && 0 <= y < h implies cell_finalized(
                        img,
                        x,
                        y,
                        params.samples_per_pixel as int,
                    ) by {
                        assert(grid_has(w, h, x, y));
                        let k = choose |k: int|
                            0 <= k < w * h && #[trigger] pixel_grid(w, h)[k] == ((
                            x as u32,
                            y as u32,
                        ));
                        assert(pixel_grid(w, h)[k].0 as int == x);
                        assert(pixel_grid(w, h)[k].1 as int == y);
                    }
                }
                break;
            },
        }
    }
    img
}

/// Writing the freshly claimed pixel finalizes its cell and disturbs no
/// previously finalized cell.
#[verifier::rlimit(100)]
#[verifier::spinoff_prover]
proof fn lemma_grid_index_cover(
    w: int,
    h: int,
    kw: int,
    before: Image,
    after: Image,
    color: crate::vector::Color,
    spp: int,
    i: int,
    j: int,
)
    requires
        0 < w <= u32::MAX as int,
        0 < h <= u32::MAX as int,
        0 <= kw < w * h,
        before.wf(),
        before.width as int == w,
        before.height as int == h,
        after.width as int == w,
        after.height as int == h,
        i == pixel_grid(w, h)[kw].0 as int,
        j == pixel_grid(w, h)[kw].1 as int,
        after.pixels@ == before.pixels@.update(
            j * w + i,
            Pixel {
                r: crate::image_object::quantized(color.x as int, spp) as u8,
                g: crate::image_object::quantized(color.y as int, spp) as u8,
                b: crate::image_object::quantized(color.z as int, spp) as u8,
            },
        ),
        forall |k: int|
            0 <= k < kw ==> cell_finalized(
                before,
                #[trigger] pixel_grid(w, h)[k].0 as int,
                pixel_grid(w, h)[k].1 as int,
                spp,
            ),
    ensures
        forall |k: int|
            0 <= k < kw + 1 ==> cell_finalized(
                after,
                #[trigger] pixel_grid(w, h)[k].0 as int,
                pixel_grid(w, h)[k].1 as int,
                spp,
            ),
{
    lemma_grid_in_range(w, h, kw);
    lemma_grid_complete(w, h);
    assert forall |k: int| 0 <= k < kw + 1 implies cell_finalized(
        after,
        #[trigger] pixel_grid(w, h)[k].0 as int,
        pixel_grid(w, h)[k].1 as int,
        spp,
    ) by {
        let x = pixel_grid(w, h)[k].0 as int;
        let y = pixel_grid(w, h)[k].1 as int;
        if k == kw {
            assert(0 <= j * w + i < w * h) by (nonlinear_arith)
                requires 0 <= i < w && 0 <= j < h;
            assert(after.pixels@[y * w + x] == (Pixel {
                r: crate::image_object::quantized(color.x as int, spp) as u8,
                g: crate::image_object::quantized(color.y as int, spp) as u8,
                b: crate::image_object::quantized(color.z as int, spp) as u8,
            }));
        } else {
            lemma_grid_in_range(w, h, k);
            assert(0 <= j * w + i < w * h) by (nonlinear_arith)
                requires 0 <= i < w && 0 <= j < h;
            assert(0 <= y * w + x < w * h) by (nonlinear_arith)
                requires 0 <= x < w && 0 <= y < h;
            assert(pixel_grid(w, h)[k] != pixel_grid(w, h)[kw]);
            assert(y * w + x != j * w + i) by {
                if y * w + x == j * w + i {
                    lemma_row_major_injective(w, x, y, i, j);
                }
            }
            assert(cell_finalized(before, x, y, spp));
            let c0 = choose |c: Color|
                before.pixels@[y * w + x] == (Pixel {
                    r: crate::image_object::quantized(c.x as int, spp) as u8,
                    g: crate::image_object::quantized(c.y as int, spp) as u8,
                    b: crate::image_object::quantized(c.z as int, spp) as u8,
                });
            assert(after.pixels@[y * w + x] == before.pixels@[y * w + x]);
        }
    }
}

} // verus!
