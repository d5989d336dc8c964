//! Whole-renderer behavior: hierarchy vs. linear scan, energy bounds,
//! scheduler coverage, and pixel finalization.

use raytrace::bvh::{BvhBuildError, BvhNode};
use raytrace::camera::Camera;
use raytrace::fx::{FX_MAX, FX_ONE};
use raytrace::hittable::HittableList;
use raytrace::image_object::{Image, ImageParams};
use raytrace::material::{BlankMaterial, Lambertian, Material};
use raytrace::objects::{MovingSphere, Object, RotateY, Sphere};
use raytrace::ray::{ray, Ray};
use raytrace::raytracer::{ray_color, render, World, WorkQueue};
use raytrace::rng::XorRand;
use raytrace::vector::Vec3;

fn fx(v: i64) -> i64 {
    v * FX_ONE
}

fn gray() -> Material {
    Material::Lambertian(Lambertian::new_rgb(Vec3::color(32768, 32768, 32768)))
}

fn three_spheres() -> HittableList {
    let mut list = HittableList::empty();
    list.add_obj(Object::Sphere(Sphere::new(Vec3::new(0, 0, fx(-3)), fx(1), gray())));
    list.add_obj(Object::Sphere(Sphere::new(Vec3::new(fx(2), 0, fx(-5)), fx(1), gray())));
    list.add_obj(Object::Sphere(Sphere::new(Vec3::new(fx(-2), 0, fx(-7)), fx(1), gray())));
    list
}

// The hierarchy and a brute-force linear scan find hits at the same
// parameter, over many rays of a media-free scene.
#[test]
fn bvh_agrees_with_linear_scan() {
    let list = three_spheres();
    let tree = BvhNode::new(&list, 0, fx(1)).unwrap();
    let mut rng = XorRand::seeded(5);
    for dx in -4i64..5 {
        for dy in -4i64..5 {
            let r = ray(
                Vec3::new(0, 0, fx(2)),
                Vec3::new(dx * 16384, dy * 16384, fx(-1)),
            );
            let from_tree = tree.hit(&list, &r, 66, FX_MAX, &mut rng);
            let from_scan = list.hit(&r, 66, FX_MAX, &mut rng);
            match (from_tree, from_scan) {
                (Some(a), Some(b)) => assert_eq!(a.t, b.t),
                (None, None) => {},
                _ => panic!("tree and scan disagree on whether the ray hits"),
            }
        }
    }
}

// The same agreement holds with a moving sphere, queried at a ray time
// inside the interval the tree was built for.
#[test]
fn bvh_agrees_on_moving_sphere() {
    let mut list = three_spheres();
    list.add_obj(Object::MovingSphere(MovingSphere::new(
        Vec3::new(fx(-1), 0, fx(-4)),
        Vec3::new(fx(1), 0, fx(-4)),
        0,
        fx(1),
        fx(1),
        gray(),
    )));
    let tree = BvhNode::new(&list, 0, fx(1)).unwrap();
    let mut rng = XorRand::seeded(31);
    for dx in -4i64..5 {
        for time in [0i64, 32768, FX_ONE] {
            let r = Ray::new(
                Vec3::new(0, 0, fx(2)),
                Vec3::new(dx * 16384, 0, fx(-1)),
                time,
            );
            let from_tree = tree.hit(&list, &r, 66, FX_MAX, &mut rng);
            let from_scan = list.hit(&r, 66, FX_MAX, &mut rng);
            match (from_tree, from_scan) {
                (Some(a), Some(b)) => assert_eq!(a.t, b.t),
                (None, None) => {},
                _ => panic!("tree and scan disagree on whether the ray hits"),
            }
        }
    }
}

#[test]
fn bvh_build_rejects_empty_list() {
    let list = HittableList::empty();
    assert_eq!(BvhNode::new(&list, 0, fx(1)).unwrap_err(), BvhBuildError::EmptyList);
}

#[test]
fn bvh_build_rejects_missing_box() {
    let inner = Object::Sphere(Sphere::new(Vec3::new(0, 0, 0), fx(1), gray()));
    let rotated = RotateY { obj: Box::new(inner), sin_theta: 0, cos_theta: FX_ONE, bbox: None };
    let mut list = HittableList::empty();
    list.add_obj(Object::RotateY(rotated));
    assert_eq!(
        BvhNode::new(&list, 0, fx(1)).unwrap_err(),
        BvhBuildError::MissingBoundingBox,
    );
}

// Energy non-creation: with a black background and a non-emitting scene,
// the radiance of any ray is exactly black, at every recursion depth.
#[test]
fn radiance_of_absorptive_scene_is_bounded() {
    let world = World::new_list(three_spheres());
    let black = Vec3::color(0, 0, 0);
    let mut rng = XorRand::seeded(17);
    let mut blanks: u64 = 0;
    for depth in 0..8u32 {
        let r = ray(Vec3::new(0, 0, fx(2)), Vec3::new(0, 0, fx(-1)));
        let c = ray_color(&r, black, &world, depth, &mut rng, &mut blanks);
        assert_eq!(c, black);
    }
    assert_eq!(blanks, 0);
    // With a gray background every channel stays below the background.
    let bg = Vec3::color(45875, 52429, FX_ONE);
    for _ in 0..20 {
        let r = ray(Vec3::new(0, 0, fx(2)), Vec3::new(6554, 0, fx(-1)));
        let c = ray_color(&r, bg, &world, 8, &mut rng, &mut blanks);
        assert!(0 <= c.x && c.x <= bg.x);
        assert!(0 <= c.y && c.y <= bg.y);
        assert!(0 <= c.z && c.z <= bg.z);
    }
}

#[test]
fn radiance_at_zero_depth_is_black() {
    let world = World::new_list(three_spheres());
    let bg = Vec3::color(FX_ONE, FX_ONE, FX_ONE);
    let mut rng = XorRand::seeded(23);
    let mut blanks: u64 = 0;
    let r = ray(Vec3::new(0, 0, fx(2)), Vec3::new(0, 0, fx(-1)));
    assert_eq!(ray_color(&r, bg, &world, 0, &mut rng, &mut blanks), Vec3::color(0, 0, 0));
}

// Scheduler completeness on a small grid: draining the queue visits every
// pixel of a 4x4 image exactly once, then reports empty.
#[test]
fn queue_covers_every_pixel_exactly_once() {
    let mut queue = WorkQueue::new(4, 4);
    let mut seen = [[0u32; 4]; 4];
    let mut count = 0;
    while let Some((x, y)) = queue.pop() {
        assert!(x < 4 && y < 4);
        seen[y as usize][x as usize] += 1;
        count += 1;
    }
    assert_eq!(count, 16);
    for row in seen.iter() {
        for cell in row.iter() {
            assert_eq!(*cell, 1);
        }
    }
    assert!(queue.pop().is_none());
}

#[test]
fn pixel_quantization_is_exact() {
    let mut img = Image::new(2, 2);
    // A full-intensity red accumulated over one sample: sqrt(1.0) = 1.0,
    // clamped just below one, quantized to 254.
    img.set_pixel(0, 0, Vec3::color(FX_ONE, 0, 0), 1);
    let p = img.get_pixel(0, 0);
    assert_eq!(p.r, 254);
    assert_eq!(p.g, 0);
    assert_eq!(p.b, 0);
    // A quarter-intensity channel over one sample: sqrt(0.25) = 0.5 -> 127.
    img.set_pixel(1, 1, Vec3::color(16384, 16384, 16384), 1);
    let q = img.get_pixel(1, 1);
    assert_eq!(q.r, 127);
    assert_eq!(q.g, 127);
    assert_eq!(q.b, 127);
}

#[test]
fn render_fills_a_small_image() {
    let list = three_spheres();
    let world = World::new_list(list);
    let cam = Camera::new(
        Vec3::new(0, 0, fx(2)),
        Vec3::new(0, 0, fx(-3)),
        Vec3::new(0, fx(1), 0),
        FX_ONE,
        FX_ONE,
        fx(1),
        0,
        0,
        fx(1),
    );
    let params = ImageParams::new(FX_ONE, 4, 2, 4, Vec3::color(45875, 52429, FX_ONE));
    assert_eq!(params.image_height, 4);
    let mut rng = XorRand::seeded(99);
    let mut blanks: u64 = 0;
    let img = render(&cam, &world, &params, &mut rng, &mut blanks);
    assert_eq!(img.width, 4);
    assert_eq!(img.height, 4);
    let _ = img.get_pixel(3, 3);
}

// A hit on the sentinel material contributes nothing and is counted, so
// the caller can report the scene violation.
#[test]
fn sentinel_material_hit_is_counted() {
    let mut list = HittableList::empty();
    list.add_obj(Object::Sphere(Sphere::new(
        Vec3::new(0, 0, fx(-3)),
        fx(1),
        Material::BlankMaterial(BlankMaterial),
    )));
    let world = World::new_list(list);
    let mut rng = XorRand::seeded(41);
    let mut blanks: u64 = 0;
    let r = ray(Vec3::new(0, 0, fx(2)), Vec3::new(0, 0, fx(-1)));
    let c = ray_color(&r, Vec3::color(FX_ONE, FX_ONE, FX_ONE), &world, 8, &mut rng, &mut blanks);
    assert_eq!(c, Vec3::color(0, 0, 0));
    assert_eq!(blanks, 1);
}

#[test]
fn derived_height_follows_aspect_ratio() {
    // An aspect ratio of 1.75 in fixed point; 400 / 1.75 = 228.57...,
    // truncated to 228.
    let params = ImageParams::new(114688, 400, 10, 8, Vec3::color(0, 0, 0));
    assert_eq!(params.image_height, 228);
}
