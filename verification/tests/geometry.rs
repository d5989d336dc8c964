//! Intersection geometry: spheres, boxes, and the slab test.

use raytrace::fx::{FX_MAX, FX_ONE};
use raytrace::material::{Dielectric, Lambertian, Material};
use raytrace::objects::{BoxObject, MovingSphere, Object, Sphere, XyRect};
use raytrace::ray::ray;
use raytrace::rng::XorRand;
use raytrace::vector::Vec3;
use raytrace::aabb::Aabb;

fn fx(v: i64) -> i64 {
    v * FX_ONE
}

fn gray() -> Material {
    Material::Lambertian(Lambertian::new_rgb(Vec3::color(32768, 32768, 32768)))
}

#[test]
fn test_sphere_hit() {
    let center = Vec3::new(0, 0, 0);
    let sphere = Sphere::new(center, fx(1), Material::Dielectric(Dielectric::new(98304)));
    let r = ray(Vec3::new(0, 0, fx(-5)), Vec3::new(0, 0, fx(1)));
    let hit = sphere.hit(&r, 0, FX_MAX);
    assert_eq!(hit.unwrap().t, fx(4));
}

#[test]
fn sphere_hit_point_and_normal() {
    let sphere = Sphere::new(Vec3::new(0, 0, 0), fx(1), gray());
    let r = ray(Vec3::new(0, 0, fx(-5)), Vec3::new(0, 0, fx(1)));
    let rec = sphere.hit(&r, 0, FX_MAX).unwrap();
    assert_eq!(rec.p, Vec3::new(0, 0, fx(-1)));
    assert_eq!(rec.normal, Vec3::new(0, 0, fx(-1)));
    assert!(rec.front_face);
}

// The canonical hit of the unit sphere carries the surface coordinates
// (3/4, 1/2), matching the trigonometric parametrization exactly there.
#[test]
fn sphere_surface_coordinates_at_canonical_hit() {
    let sphere = Sphere::new(Vec3::new(0, 0, 0), fx(1), gray());
    let r = ray(Vec3::new(0, 0, fx(-5)), Vec3::new(0, 0, fx(1)));
    let rec = sphere.hit(&r, 0, FX_MAX).unwrap();
    assert_eq!(rec.u, 49152);
    assert_eq!(rec.v, 32768);
}

// A negative radius is the supported bubble configuration: the bounding
// box uses the radius magnitude, so it is proper and bounds the shell, and
// the sphere is still hittable through the box filter.
#[test]
fn negative_radius_sphere_box_and_hit() {
    let bubble = Sphere::new(Vec3::new(0, 0, 0), -fx(1), gray());
    let bb = bubble.bounding_box(0, fx(1)).unwrap();
    assert_eq!(bb.minimum, Vec3::new(-fx(1), -fx(1), -fx(1)));
    assert_eq!(bb.maximum, Vec3::new(fx(1), fx(1), fx(1)));
    let r = ray(Vec3::new(0, 0, fx(-5)), Vec3::new(0, 0, fx(1)));
    let rec = bubble.hit(&r, 0, FX_MAX).unwrap();
    assert_eq!(rec.t, fx(4));
    // The negative radius flips the geometric normal, so the ray strikes
    // what the record counts as the back face.
    assert!(!rec.front_face);
    assert_eq!(rec.normal, Vec3::new(0, 0, -fx(1)));
    let mut rng = XorRand::seeded(3);
    let through_filter = Object::Sphere(bubble).hit(&r, 0, FX_MAX, &mut rng);
    assert_eq!(through_filter.unwrap().t, fx(4));
}

#[test]
fn sphere_miss() {
    let sphere = Sphere::new(Vec3::new(0, 0, 0), fx(1), gray());
    let r = ray(Vec3::new(0, fx(3), fx(-5)), Vec3::new(0, 0, fx(1)));
    assert!(sphere.hit(&r, 0, FX_MAX).is_none());
}

#[test]
fn moving_sphere_center_interpolates() {
    let ms = MovingSphere::new(
        Vec3::new(0, 0, 0),
        Vec3::new(fx(2), 0, 0),
        0,
        fx(1),
        fx(1),
        gray(),
    );
    assert_eq!(ms.center(0), Vec3::new(0, 0, 0));
    assert_eq!(ms.center(fx(1)), Vec3::new(fx(2), 0, 0));
    assert_eq!(ms.center(32768), Vec3::new(fx(1), 0, 0));
}

#[test]
fn rect_hit_parametrization() {
    let rc = XyRect::new(0, fx(2), 0, fx(2), fx(1), gray());
    let r = ray(Vec3::new(fx(1), fx(1), 0), Vec3::new(0, 0, fx(1)));
    let rec = rc.hit(&r, 0, FX_MAX).unwrap();
    assert_eq!(rec.t, fx(1));
    assert_eq!(rec.u, 32768);
    assert_eq!(rec.v, 32768);
    assert!(!rec.front_face);
    assert_eq!(rec.normal, Vec3::new(0, 0, -fx(1)));
}

#[test]
fn box_nearest_side_wins() {
    let b = BoxObject::new(Vec3::new(0, 0, 0), Vec3::new(fx(1), fx(1), fx(1)), gray());
    let r = ray(Vec3::new(32768, 32768, fx(-3)), Vec3::new(0, 0, fx(1)));
    let rec = b.hit(&r, 0, FX_MAX).unwrap();
    assert_eq!(rec.t, fx(3));
}

// A ray running exactly along a box face must be classified the same way on
// every call: the slab test is a pure function of the box and the ray.
#[test]
fn slab_test_tangent_ray_is_consistent() {
    let b = Aabb::new(Vec3::new(0, 0, 0), Vec3::new(fx(1), fx(1), fx(1)));
    let tangent = ray(Vec3::new(fx(1), 32768, fx(-1)), Vec3::new(0, 0, fx(1)));
    let first = b.hit(&tangent, 0, FX_MAX);
    for _ in 0..100 {
        assert_eq!(b.hit(&tangent, 0, FX_MAX), first);
    }
    let outside = ray(Vec3::new(fx(1) + 1, 32768, fx(-1)), Vec3::new(0, 0, fx(1)));
    assert!(!b.hit(&outside, 0, FX_MAX));
    let inside = ray(Vec3::new(32768, 32768, fx(-1)), Vec3::new(0, 0, fx(1)));
    assert!(b.hit(&inside, 0, FX_MAX));
}

// A query interval whose end exactly meets the slab entry is a miss: the
// overlap test is strict, as a narrowed interval with t_max == t_min is
// empty.
#[test]
fn slab_test_interval_tangency_is_a_miss() {
    let b = Aabb::new(Vec3::new(0, 0, 0), Vec3::new(fx(1), fx(1), fx(1)));
    // Entry parameter along z is exactly 1.0.
    let r = ray(Vec3::new(32768, 32768, fx(-1)), Vec3::new(0, 0, fx(1)));
    assert!(!b.hit(&r, 0, fx(1)));
    assert!(b.hit(&r, 0, fx(1) + 1));
}

#[test]
fn slab_test_axis_parallel_ray_inside() {
    let b = Aabb::new(Vec3::new(0, 0, 0), Vec3::new(fx(1), fx(1), fx(1)));
    // Direction component zero on x and y: the origin is inside both slabs.
    let r = ray(Vec3::new(32768, 32768, fx(-2)), Vec3::new(0, 0, fx(1)));
    assert!(b.hit(&r, 0, FX_MAX));
}

#[test]
fn surrounding_box_bounds_both() {
    let a = Aabb::new(Vec3::new(0, 0, 0), Vec3::new(fx(1), fx(1), fx(1)));
    let b = Aabb::new(Vec3::new(fx(-2), fx(1), 0), Vec3::new(fx(3), fx(2), fx(5)));
    let u = Aabb::surrounding_box(&a, &b);
    assert_eq!(u.minimum, Vec3::new(fx(-2), 0, 0));
    assert_eq!(u.maximum, Vec3::new(fx(3), fx(2), fx(5)));
    assert!(u.minimum.x <= a.minimum.x && a.maximum.x <= u.maximum.x);
    assert!(u.minimum.y <= b.minimum.y && b.maximum.y <= u.maximum.y);
}

#[test]
fn surrounding_box_is_associative() {
    let a = Aabb::new(Vec3::new(0, 0, 0), Vec3::new(fx(1), fx(1), fx(1)));
    let b = Aabb::new(Vec3::new(fx(-2), fx(1), 0), Vec3::new(fx(3), fx(2), fx(5)));
    let c = Aabb::new(Vec3::new(fx(-1), fx(-4), fx(2)), Vec3::new(0, fx(9), fx(2)));
    let lhs = Aabb::surrounding_box(&Aabb::surrounding_box(&a, &b), &c);
    let rhs = Aabb::surrounding_box(&a, &Aabb::surrounding_box(&b, &c));
    assert_eq!(lhs, rhs);
}

#[test]
fn medium_hit_stays_in_interval() {
    let boundary = Object::Sphere(Sphere::new(Vec3::new(0, 0, 0), fx(2), gray()));
    let medium = raytrace::objects::ConstantMedium::new_color(
        boundary,
        fx(1),
        Vec3::color(FX_ONE, FX_ONE, FX_ONE),
    );
    let obj = Object::ConstantMedium(medium);
    let r = ray(Vec3::new(0, 0, fx(-5)), Vec3::new(0, 0, fx(1)));
    let mut rng = XorRand::seeded(7);
    for _ in 0..50 {
        if let Some(rec) = obj.hit(&r, 0, FX_MAX, &mut rng) {
            assert!(rec.t >= 0);
            assert!(rec.t <= FX_MAX);
        }
    }
}
