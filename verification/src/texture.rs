//! Surface textures: a color as a pure function of the surface
//! parametrization and the hit point.
//!
//! Procedural-noise and image-backed textures depend on outside data and
//! stay outside the core; the core offers solid colors and a checker
//! pattern over an integer lattice.

use vstd::prelude::*;
use crate::fx::{FX_ONE, fx_mul, smul};
use crate::vector::{Vec3, Point3, Color};

verus! {

/// Scale factor applied to a coordinate before the checker lattice.
pub const CHECKER_SCALE: i64 = 655360;

/// A color field over (u, v, point).
#[derive(Clone, Copy, Debug, PartialEq, Eq, Structural)]
pub enum Texture {
    SolidColor(SolidColor),
    CheckeredTexture(CheckeredTexture),
}

/// The same color everywhere.
#[derive(Clone, Copy, Debug, PartialEq, Eq, Structural)]
pub struct SolidColor {
    pub color_value: Color,
}

/// Two colors alternating over a three-dimensional integer lattice.
#[derive(Clone, Copy, Debug, PartialEq, Eq, Structural)]
pub struct CheckeredTexture {
    pub even: Color,
    pub odd: Color,
}

/// Lattice cell parity of one scaled coordinate: the low bit of the
/// floor of its integer part.
pub open spec fn checker_cell(a: int) -> int {
    ((a + 0x8000_0000_0000_0000) / (FX_ONE as int)) % 2
}

/// The checker pattern selects the odd color when the cell parities of the
/// three scaled coordinates sum to an odd number.
pub open spec fn checker_is_odd(p: Vec3) -> bool {
    (checker_cell(smul(p.x as int, CHECKER_SCALE as int)) + checker_cell(
        smul(p.y as int, CHECKER_SCALE as int),
    ) + checker_cell(smul(p.z as int, CHECKER_SCALE as int))) % 2 == 1
}

/// The color a texture takes at (u, v, p).
pub open spec fn texture_value(t: Texture, u: int, v: int, p: Vec3) -> Color {
    match t {
        Texture::SolidColor(s) => s.color_value,
        Texture::CheckeredTexture(c) => if checker_is_odd(p) {
            c.odd
        } else {
            c.even
        },
    }
}

/// Every color a texture can take lies in `[lo, hi]` componentwise.
pub open spec fn texture_bounded(t: Texture, lo: int, hi: int) -> bool {
    match t {
        Texture::SolidColor(s) => color_bounded(s.color_value, lo, hi),
        Texture::CheckeredTexture(c) => color_bounded(c.even, lo, hi) && color_bounded(
            c.odd,
            lo,
            hi,
        ),
    }
}

/// All three channels lie in `[lo, hi]`.
pub open spec fn color_bounded(c: Color, lo: int, hi: int) -> bool {
    lo <= c.x <= hi && lo <= c.y <= hi && lo <= c.z <= hi
}

/// Lattice cell parity of one scaled coordinate.
fn checker_cell_exec(a: i64) -> (r: i64)
    ensures
        r as int == checker_cell(a as int),
        0 <= r <= 1,
{
    let shifted: u128 = ((a as i128) + 0x8000_0000_0000_0000i128) as u128;
    let cell = shifted / 65536u128;
    let parity = cell % 2u128;
    proof {
        assert(shifted == a + 0x8000_0000_0000_0000);
    }
    parity as i64
}

impl SolidColor {
    pub fn new(red: i64, green: i64, blue: i64) -> (r: SolidColor)
        ensures
            r.color_value == (Vec3 { x: red, y: green, z: blue }),
    {
        SolidColor { color_value: Vec3 { x: red, y: green, z: blue } }
    }
}

impl CheckeredTexture {
    /// Build a checker from its two colors.
    pub fn new_rgb(even: Color, odd: Color) -> (r: CheckeredTexture)
        ensures
            r == (CheckeredTexture { even, odd }),
    {
        CheckeredTexture { even, odd }
    }
}

impl Texture {
    /// Sample the texture at (u, v, p).
    pub fn value(&self, u: i64, v: i64, p: &Point3) -> (r: Color)
        ensures
            r == texture_value(*self, u as int, v as int, *p),
    {
        match self {
            Texture::SolidColor(s) => s.color_value,
            Texture::CheckeredTexture(c) => {
                let cx = checker_cell_exec(fx_mul(p.x, CHECKER_SCALE));
                let cy = checker_cell_exec(fx_mul(p.y, CHECKER_SCALE));
                let cz = checker_cell_exec(fx_mul(p.z, CHECKER_SCALE));
                let total = cx + cy + cz;
                let odd = total == 1 || total == 3;
                proof {
                    assert(odd == checker_is_odd(*p)) by {
                        let s = checker_cell(smul(p.x as int, CHECKER_SCALE as int)) + checker_cell(
                            smul(p.y as int, CHECKER_SCALE as int),
                        ) + checker_cell(smul(p.z as int, CHECKER_SCALE as int));
                        assert(0 <= s <= 3);
                    }
                }
                if odd {
                    c.odd
                } else {
                    c.even
                }
            },
        }
    }
}

} // verus!
