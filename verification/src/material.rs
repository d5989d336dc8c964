//! Materials: how a surface scatters, absorbs, and emits light.
//!
//! Scatter directions are stochastic, so the contracts state what holds of
//! every outcome: which materials scatter at all, the exact attenuation
//! color, and that a scattered ray starts at the hit point with the
//! incoming ray's time.  The Schlick reflectance and Snell refraction
//! formulas themselves are deterministic and carry exact contracts.

use vstd::prelude::*;
use crate::fx::{
    FX_ONE, fx_add, fx_sub, fx_mul, fx_div, fx_min, fx_sqrt, sadd, ssub, smul, sdiv, smin,
    ssqrt, fx_in_range, lemma_smul_zero,
};
use crate::vector::{
    Vec3, Point3, Color, dot, reflect, refract, unit_vector, random_in_unit_sphere, sdot, vwf,
    vneg, vunit, sreflect, srefract,
};
use crate::ray::Ray;
use crate::rng::XorRand;
use crate::hittable::HitRecord;
use crate::texture::{Texture, SolidColor, texture_value, texture_bounded, color_bounded};

verus! {

/// A surface's scatter behavior.
#[derive(Clone, Copy, Debug)]
pub enum Material {
    BlankMaterial(BlankMaterial),
    Lambertian(Lambertian),
    Metal(Metal),
    Dielectric(Dielectric),
    DiffuseLight(DiffuseLight),
    Isotropic(Isotropic),
}

/// Sentinel material; hitting it means the scene is malformed, and it
/// contributes nothing.
#[derive(Clone, Copy, Debug)]
pub struct BlankMaterial;

/// Diffuse reflection with a texture albedo.
#[derive(Clone, Copy, Debug)]
pub struct Lambertian {
    pub albedo: Texture,
}

/// Mirror reflection perturbed by a fuzz radius.
#[derive(Clone, Copy, Debug)]
pub struct Metal {
    pub albedo: Color,
    pub fuzz: i64,
}

/// Refractive glass-like surface with index `ir`.
#[derive(Clone, Copy, Debug)]
pub struct Dielectric {
    pub ir: i64,
}

/// Pure emitter; never scatters.
#[derive(Clone, Copy, Debug)]
pub struct DiffuseLight {
    pub emit: Texture,
}

/// Uniform scattering in all directions, used by volumetric media.
#[derive(Clone, Copy, Debug)]
pub struct Isotropic {
    pub albedo: Texture,
}

/// The color a material emits at (u, v, p); black except for lights.
pub open spec fn emitted_value(m: Material, u: int, v: int, p: Vec3) -> Color {
    match m {
        Material::DiffuseLight(l) => texture_value(l.emit, u, v, p),
        _ => Vec3 { x: 0, y: 0, z: 0 },
    }
}

/// Which materials can return a scatter at all.
pub open spec fn can_scatter(m: Material) -> bool {
    match m {
        Material::BlankMaterial(_) => false,
        Material::DiffuseLight(_) => false,
        _ => true,
    }
}

/// Which materials scatter on every hit, whatever the random draws: all of
/// them except lights and the sentinel, and except metal, which absorbs a
/// perturbed ray that would enter the surface.
pub open spec fn always_scatters(m: Material) -> bool {
    match m {
        Material::Lambertian(_) => true,
        Material::Dielectric(_) => true,
        Material::Isotropic(_) => true,
        _ => false,
    }
}

/// The refraction ratio a dielectric uses: `1/ir` entering the surface,
/// `ir` leaving it.
pub open spec fn dielectric_ratio(d: Dielectric, rec: HitRecord) -> int {
    if rec.front_face {
        sdiv(FX_ONE as int, d.ir as int)
    } else {
        d.ir as int
    }
}

/// The cosine of the incidence angle, capped at one.
pub open spec fn dielectric_cos(r: Ray, rec: HitRecord) -> int {
    smin(sdot(vneg(vunit(r.dir)), rec.normal), FX_ONE as int)
}

/// Total internal reflection: the refraction ratio times the sine of the
/// incidence angle exceeds one, so Snell's law has no solution.
pub open spec fn dielectric_cannot_refract(d: Dielectric, r: Ray, rec: HitRecord) -> bool {
    let cos = dielectric_cos(r, rec);
    smul(dielectric_ratio(d, rec), ssqrt(ssub(FX_ONE as int, smul(cos, cos)))) > FX_ONE as int
}

/// The attenuation color a material reports when it does scatter.
pub open spec fn scatter_attenuation(m: Material, rec: HitRecord) -> Color {
    match m {
        Material::Lambertian(l) => texture_value(l.albedo, rec.u as int, rec.v as int, rec.p),
        Material::Metal(mt) => mt.albedo,
        Material::Dielectric(_) => Vec3 { x: FX_ONE, y: FX_ONE, z: FX_ONE },
        Material::Isotropic(i) => texture_value(i.albedo, rec.u as int, rec.v as int, rec.p),
        _ => Vec3 { x: 0, y: 0, z: 0 },
    }
}

/// Every attenuation color the material can report lies in `[0, 1]`
/// componentwise; lights are exempt (they never scatter).
pub open spec fn material_attenuation_bounded(m: Material) -> bool {
    match m {
        Material::BlankMaterial(_) => true,
        Material::Lambertian(l) => texture_bounded(l.albedo, 0, FX_ONE as int),
        Material::Metal(mt) => color_bounded(mt.albedo, 0, FX_ONE as int),
        Material::Dielectric(_) => true,
        Material::DiffuseLight(_) => true,
        Material::Isotropic(i) => texture_bounded(i.albedo, 0, FX_ONE as int),
    }
}

/// The base reflectance of the Schlick approximation:
/// `((1 - n) / (1 + n))^2`.
pub open spec fn schlick_r0(ref_idx: int) -> int {
    let r = sdiv(ssub(FX_ONE as int, ref_idx), sadd(FX_ONE as int, ref_idx));
    smul(r, r)
}

/// Fifth power under fixed-point multiplication.
pub open spec fn spow5(a: int) -> int {
    smul(smul(smul(smul(a, a), a), a), a)
}

/// The Schlick reflectance approximation:
/// `r0 + (1 - r0) * (1 - cosine)^5`.
pub open spec fn sreflectance(cosine: int, ref_idx: int) -> int {
    let r0 = schlick_r0(ref_idx);
    sadd(r0, smul(ssub(FX_ONE as int, r0), spow5(ssub(FX_ONE as int, cosine))))
}

/// Schlick reflectance.
pub fn reflectance(cosine: i64, ref_idx: i64) -> (r: i64)
    ensures
        r as int == sreflectance(cosine as int, ref_idx as int),
{
    let r0 = fx_div(fx_sub(FX_ONE, ref_idx), fx_add(FX_ONE, ref_idx));
    let r0sq = fx_mul(r0, r0);
    let omc = fx_sub(FX_ONE, cosine);
    let p5 = fx_mul(fx_mul(fx_mul(fx_mul(omc, omc), omc), omc), omc);
    fx_add(r0sq, fx_mul(fx_sub(FX_ONE, r0sq), p5))
}

/// At normal incidence (`cosine == 1`) the Schlick reflectance equals the
/// base reflectance, for every refractive index.
pub proof fn lemma_reflectance_normal_incidence(ref_idx: int)
    ensures
        sreflectance(FX_ONE as int, ref_idx) == schlick_r0(ref_idx),
{
    let r0 = schlick_r0(ref_idx);
    assert(ssub(FX_ONE as int, FX_ONE as int) == 0);
    crate::fx::lemma_tdiv_nonneg(0, 65536);
    assert(smul(0, 0) == 0);
    assert(spow5(0) == 0);
    assert(smul(ssub(FX_ONE as int, r0), 0) == 0) by {
        crate::fx::lemma_tdiv_nonneg(0, 65536);
        assert(ssub(FX_ONE as int, r0) * 0 == 0);
    }
    assert(crate::fx::fx_in_range(r0)) by {
        assert(sadd(r0, 0) == crate::fx::fx_clip(r0 + 0));
    }
}

impl Material {
    /// Ask the material for an emission color; black except for lights.
    pub fn emmited(&self, u: i64, v: i64, p: &Point3) -> (r: Color)
        ensures
            r == emitted_value(*self, u as int, v as int, *p),
    {
        match self {
            Material::DiffuseLight(l) => l.emit.value(u, v, p),
            _ => Vec3 { x: 0, y: 0, z: 0 },
        }
    }

    /// Ask the material to scatter the incoming ray at `rec`.
    ///
    /// Whatever the random draws: sentinel materials and lights never
    /// scatter; diffuse, dielectric and isotropic materials always do; a
    /// scatter carries the material's attenuation color and a ray starting
    /// at the hit point at the incoming ray's time.  A metal scatter
    /// always leaves the surface, and with zero fuzz it is exactly the
    /// mirror reflection, returned precisely when that reflection leaves
    /// the surface.  A dielectric reflects exactly under total internal
    /// reflection, and otherwise reflects or refracts by the Schlick draw.
    pub fn scatter(&self, ray_in: &Ray, rec: &HitRecord, rng: &mut XorRand) -> (res: Option<
        (Color, Option<Ray>),
    >)
        requires
            old(rng).wf(),
            vwf(rec.p),
            vwf(rec.normal),
        ensures
            final(rng).wf(),
            !can_scatter(*self) ==> res is None,
            always_scatters(*self) ==> res is Some,
            res matches Some(pair) ==> {
                &&& pair.0 == scatter_attenuation(*self, *rec)
                &&& pair.1 matches Some(sc)
                &&& sc.orig == rec.p
                &&& sc.time == ray_in.time
                &&& (self matches Material::Metal(_) ==> sdot(sc.dir, rec.normal) > 0)
            },
            self matches Material::Metal(m) && m.fuzz == 0 ==> {
                &&& (res is Some) == (sdot(sreflect(ray_in.dir, rec.normal), rec.normal) > 0)
                &&& (res matches Some(pair) ==> pair.1 matches Some(sc) && sc.dir == sreflect(
                    ray_in.dir,
                    rec.normal,
                ))
            },
            self matches Material::Dielectric(d) ==> (res matches Some(pair) && pair.1
                matches Some(sc) && (sc.dir == sreflect(ray_in.dir, rec.normal) || sc.dir
                == srefract(vunit(ray_in.dir), rec.normal, dielectric_ratio(*d, *rec)))
                && (dielectric_cannot_refract(*d, *ray_in, *rec) ==> sc.dir == sreflect(
                ray_in.dir,
                rec.normal,
            ))),
    {
        match self {
            Material::BlankMaterial(_) => None,
            Material::DiffuseLight(_) => None,
            Material::Lambertian(l) => {
                let rand_dir = random_in_unit_sphere(rng);
                let mut scatter_direction = rec.normal.add(rand_dir);
                if scatter_direction.zero_near() {
                    scatter_direction = rec.normal;
                }
                let scattered = Ray::new(rec.p, scatter_direction, ray_in.time);
                let albedo = l.albedo.value(rec.u, rec.v, &rec.p);
                Some((albedo, Some(scattered)))
            },
            Material::Metal(m) => {
                let reflected = reflect(ray_in.direction(), rec.normal);
                let perturbation = random_in_unit_sphere(rng).scale(m.fuzz);
                let fuzzed = reflected.add(perturbation);
                proof {
                    if m.fuzz == 0 {
                        lemma_smul_zero(perturbation.x as int);
                        lemma_smul_zero(perturbation.y as int);
                        lemma_smul_zero(perturbation.z as int);
                        assert(fuzzed == reflected);
                    }
                }
                let scattered = Ray::new(rec.p, fuzzed, ray_in.time);
                if dot(scattered.direction(), rec.normal) > 0 {
                    Some((m.albedo, Some(scattered)))
                } else {
                    None
                }
            },
            Material::Dielectric(d) => {
                let refraction_ratio = if rec.front_face {
                    fx_div(FX_ONE, d.ir)
                } else {
                    d.ir
                };
                let unit_direction = unit_vector(ray_in.direction());
                let cos_theta = fx_min(dot(unit_direction.neg(), rec.normal), FX_ONE);
                let sin_theta = fx_sqrt(fx_sub(FX_ONE, fx_mul(cos_theta, cos_theta)));
                let cannot_refract = fx_mul(refraction_ratio, sin_theta) > FX_ONE;
                let draw = rng.random_unit();
                let direction = if cannot_refract || reflectance(cos_theta, refraction_ratio)
                    > draw {
                    reflect(ray_in.direction(), rec.normal)
                } else {
                    refract(&unit_direction, &rec.normal, refraction_ratio)
                };
                let scattered = Ray::new(rec.p, direction, ray_in.time);
                Some((Vec3 { x: FX_ONE, y: FX_ONE, z: FX_ONE }, Some(scattered)))
            },
            Material::Isotropic(i) => {
                let dir = random_in_unit_sphere(rng);
                let scattered = Ray::new(rec.p, dir, ray_in.time);
                let albedo = i.albedo.value(rec.u, rec.v, &rec.p);
                Some((albedo, Some(scattered)))
            },
        }
    }
}

impl Lambertian {
    pub fn new(tex: Texture) -> (r: Lambertian)
        ensures
            r.albedo == tex,
    {
        Lambertian { albedo: tex }
    }

    /// Diffuse material with a solid color albedo.
    pub fn new_rgb(a: Color) -> (r: Lambertian)
        ensures
            r.albedo == Texture::SolidColor(SolidColor { color_value: a }),
    {
        Lambertian { albedo: Texture::SolidColor(SolidColor { color_value: a }) }
    }
}

impl Metal {
    pub fn new(albedo: Color, fuzz: i64) -> (r: Metal)
        ensures
            r == (Metal { albedo, fuzz }),
    {
        Metal { albedo, fuzz }
    }
}

impl Dielectric {
    pub fn new(ir: i64) -> (r: Dielectric)
        ensures
            r.ir == ir,
    {
        Dielectric { ir }
    }
}

impl DiffuseLight {
    pub fn new(texture: Texture) -> (r: DiffuseLight)
        ensures
            r.emit == texture,
    {
        DiffuseLight { emit: texture }
    }

    /// Light emitting a solid color.
    pub fn new_color(color: Color) -> (r: DiffuseLight)
        ensures
            r.emit == Texture::SolidColor(SolidColor { color_value: color }),
    {
        DiffuseLight { emit: Texture::SolidColor(SolidColor { color_value: color }) }
    }
}

impl Isotropic {
    pub fn new(texture: Texture) -> (r: Isotropic)
        ensures
            r.albedo == texture,
    {
        Isotropic { albedo: texture }
    }

    /// Isotropic phase function with a solid color albedo.
    pub fn new_color(color: Color) -> (r: Isotropic)
        ensures
            r.albedo == Texture::SolidColor(SolidColor { color_value: color }),
    {
        Isotropic { albedo: Texture::SolidColor(SolidColor { color_value: color }) }
    }
}

} // verus!
