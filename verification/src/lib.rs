//! A verified path-tracing renderer core.
//!
//! The renderer works over a fixed-point scalar type (`fx`), so every
//! geometric and radiometric computation has an exact, machine-checked
//! meaning: each executable operation is proved equal to its
//! specification-level mirror, and the structural guarantees of the
//! renderer (bounding-box containment and tightness, nearest-hit selection
//! in the bounding-volume hierarchy, the integrator's radiance law and
//! energy bounds, and the render loop's exactly-once finalization of every
//! pixel) are proved on top of those mirrors.

pub mod fx;
pub mod rng;
pub mod vector;
pub mod ray;
pub mod aabb;
pub mod texture;
pub mod hittable;
pub mod material;
pub mod objects;
pub mod bvh;
pub mod raytracer;
pub mod image_object;
pub mod camera;
