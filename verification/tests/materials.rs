//! Material formulas: refraction, reflectance, scatter behavior, textures.

use raytrace::fx::FX_ONE;
use raytrace::hittable::HitRecord;
use raytrace::material::{
    reflectance, BlankMaterial, Dielectric, DiffuseLight, Lambertian, Material, Metal,
};
use raytrace::ray::Ray;
use raytrace::rng::XorRand;
use raytrace::texture::{CheckeredTexture, SolidColor, Texture};
use raytrace::vector::{refract, Vec3};

fn fx(v: i64) -> i64 {
    v * FX_ONE
}

#[test]
fn test_refract() {
    let uv = Vec3::new(fx(1), fx(1), 0);
    let n = Vec3::new(fx(-1), 0, 0);
    let etai_over_etat = fx(1);
    let expected = Vec3::new(0, fx(1), 0);
    let actual = refract(&uv, &n, etai_over_etat);
    assert_eq!(actual, expected);
}

#[test]
fn test_reflectance() {
    let cosine = 0;
    let ref_idx = 98304;
    let expected = fx(1);
    let actual = reflectance(cosine, ref_idx);
    assert_eq!(actual, expected);
}

// At normal incidence the reflectance equals the base term
// ((1 - n) / (1 + n))^2; for n = 1.5 in fixed point that is 2621 units.
#[test]
fn reflectance_at_normal_incidence_is_base() {
    let actual = reflectance(FX_ONE, 98304);
    assert_eq!(actual, 2621);
}

fn hit_rec(material: Material) -> HitRecord {
    HitRecord {
        p: Vec3::new(0, 0, fx(-1)),
        normal: Vec3::new(0, 0, fx(-1)),
        material,
        t: fx(4),
        u: 0,
        v: 0,
        front_face: true,
    }
}

fn incoming() -> Ray {
    Ray::new(Vec3::new(0, 0, fx(-5)), Vec3::new(0, 0, fx(1)), 0)
}

#[test]
fn lambertian_scatter_reports_albedo_and_origin() {
    let mat = Material::Lambertian(Lambertian::new_rgb(Vec3::color(13107, 19661, 39322)));
    let rec = hit_rec(mat);
    let mut rng = XorRand::seeded(3);
    let (att, sray) = mat.scatter(&incoming(), &rec, &mut rng).unwrap();
    assert_eq!(att, Vec3::color(13107, 19661, 39322));
    let sray = sray.unwrap();
    assert_eq!(sray.orig, rec.p);
    assert_eq!(sray.time, 0);
}

#[test]
fn metal_scatter_leaves_surface_or_is_absorbed() {
    let mat = Material::Metal(Metal::new(Vec3::color(fx(1), fx(1), fx(1)), 0));
    let rec = hit_rec(mat);
    let mut rng = XorRand::seeded(9);
    match mat.scatter(&incoming(), &rec, &mut rng) {
        Some((att, Some(sray))) => {
            assert_eq!(att, Vec3::color(fx(1), fx(1), fx(1)));
            // Mirror reflection of (0,0,1) about (0,0,-1) with zero fuzz.
            assert_eq!(sray.dir, Vec3::new(0, 0, -fx(1)));
        },
        Some((_, None)) => panic!("metal scatter must carry a ray"),
        None => {},
    }
}

#[test]
fn dielectric_attenuation_is_white() {
    let mat = Material::Dielectric(Dielectric::new(98304));
    let rec = hit_rec(mat);
    let mut rng = XorRand::seeded(11);
    let (att, sray) = mat.scatter(&incoming(), &rec, &mut rng).unwrap();
    assert_eq!(att, Vec3::color(FX_ONE, FX_ONE, FX_ONE));
    assert!(sray.is_some());
}

#[test]
fn light_and_blank_never_scatter() {
    let light = Material::DiffuseLight(DiffuseLight::new_color(Vec3::color(fx(4), fx(4), fx(4))));
    let blank = Material::BlankMaterial(BlankMaterial);
    let mut rng = XorRand::seeded(1);
    assert!(light.scatter(&incoming(), &hit_rec(light), &mut rng).is_none());
    assert!(blank.scatter(&incoming(), &hit_rec(blank), &mut rng).is_none());
}

#[test]
fn emitted_is_black_except_for_lights() {
    let light = Material::DiffuseLight(DiffuseLight::new_color(Vec3::color(fx(4), fx(3), fx(2))));
    let gray = Material::Lambertian(Lambertian::new_rgb(Vec3::color(32768, 32768, 32768)));
    let p = Vec3::new(0, 0, 0);
    assert_eq!(light.emmited(0, 0, &p), Vec3::color(fx(4), fx(3), fx(2)));
    assert_eq!(gray.emmited(0, 0, &p), Vec3::color(0, 0, 0));
}

#[test]
fn checker_alternates_between_cells() {
    let tex = Texture::CheckeredTexture(CheckeredTexture::new_rgb(
        Vec3::color(0, 0, 0),
        Vec3::color(FX_ONE, FX_ONE, FX_ONE),
    ));
    // Scaled by 10, a step of 0.1 in x moves one lattice cell.
    let a = tex.value(0, 0, &Vec3::new(3277, 3277, 3277));
    let b = tex.value(0, 0, &Vec3::new(3277 + 6554, 3277, 3277));
    assert_ne!(a, b);
}

#[test]
fn solid_color_is_constant() {
    let tex = Texture::SolidColor(SolidColor::new(fx(1), 0, 0));
    assert_eq!(tex.value(0, 0, &Vec3::new(fx(5), 0, fx(-3))), Vec3::color(fx(1), 0, 0));
    assert_eq!(tex.value(fx(1), fx(1), &Vec3::new(0, 0, 0)), Vec3::color(fx(1), 0, 0));
}

#[test]
fn rng_is_deterministic_for_fixed_seed() {
    let mut a = XorRand::seeded(42);
    let mut b = XorRand::seeded(42);
    for _ in 0..100 {
        assert_eq!(a.next_u64(), b.next_u64());
    }
}
