//! Render parameters and the framebuffer.
//!
//! A pixel is finalized exactly once: the accumulated color is averaged
//! over the sample count, gamma-corrected by a square root, clamped to
//! `[0, 0.999]`, and quantized to 8-bit channels.

use vstd::prelude::*;
use crate::fx::{
    FX_ONE, fx_div, fx_mul, fx_sqrt, clamp, sdiv, smul, ssqrt, sclamp, tdiv,
    lemma_tdiv_nonneg,
};
use crate::vector::Color;

verus! {

/// Upper clamp for a finalized channel, just below 1.0, so that the
/// quantized byte never reaches 255 by rounding alone.
pub const CHANNEL_CLAMP: i64 = 65470;

/// Constant parameters of one render.
#[derive(Clone, Copy, Debug)]
pub struct ImageParams {
    pub aspect_ratio: i64,
    pub image_width: u32,
    pub image_height: u32,
    pub samples_per_pixel: u32,
    pub max_depth: u32,
    pub background: Color,
}

/// The image height derived from a width and an aspect ratio: the
/// truncated quotient, saturated into the `u32` range.
pub open spec fn derived_height(width: u32, aspect: int) -> int {
    let h = tdiv(width as int * FX_ONE as int, aspect);
    if h > u32::MAX as int {
        u32::MAX as int
    } else if h < 0 {
        0
    } else {
        h
    }
}

impl ImageParams {
    /// Assemble the parameters, deriving the pixel height from the width
    /// and the aspect ratio.
    pub fn new(
        aspect_ratio: i64,
        image_width: u32,
        samples_per_pixel: u32,
        max_depth: u32,
        background: Color,
    ) -> (r: ImageParams)
        requires
            aspect_ratio > 0,
        ensures
            r.aspect_ratio == aspect_ratio,
            r.image_width == image_width,
            r.samples_per_pixel == samples_per_pixel,
            r.max_depth == max_depth,
            r.background == background,
            r.image_height as int == derived_height(image_width, aspect_ratio as int),
    {
        let wide: u128 = (image_width as u128) * 65536;
        let q: u128 = wide / (aspect_ratio as u128);
        let h: u32 = if q > 0xffff_ffffu128 {
            u32::MAX
        } else {
            q as u32
        };
        proof {
            lemma_tdiv_nonneg(image_width as int * 65536, aspect_ratio as int);
        }
        ImageParams {
            aspect_ratio,
            image_width,
            image_height: h,
            samples_per_pixel,
            max_depth,
            background,
        }
    }
}

/// One 8-bit RGB pixel.
#[derive(Clone, Copy, Debug, PartialEq, Eq, Structural)]
pub struct Pixel {
    pub r: u8,
    pub g: u8,
    pub b: u8,
}

/// Finalize one accumulated channel: average over the samples, take the
/// gamma square root, clamp, and quantize to a byte.
pub open spec fn quantized(c: int, spp: int) -> int {
    let scale = sdiv(FX_ONE as int, spp * FX_ONE as int);
    let g = ssqrt(smul(c, scale));
    let clamped = sclamp(g, 0, CHANNEL_CLAMP as int);
    clamped * 255 / (FX_ONE as int)
}


/// A row-major index is inside the grid.
proof fn lemma_grid_index(w: int, h: int, x: int, y: int) by (nonlinear_arith)
    requires
        0 <= x < w,
        0 <= y < h,
    ensures
        0 <= y * w + x < w * h,
{
}

/// The framebuffer: a `width x height` grid of finalized pixels, stored in
/// row-major order.
#[derive(Debug)]
pub struct Image {
    pub width: u32,
    pub height: u32,
    pub pixels: Vec<Pixel>,
}

impl Image {
    /// The stored grid has exactly one pixel per coordinate.
    pub open spec fn wf(&self) -> bool {
        self.pixels@.len() == self.width as int * self.height as int
    }

    /// An all-black framebuffer.
    pub fn new(width: u32, height: u32) -> (r: Image)
        requires
            width as int * height as int <= usize::MAX as int,
        ensures
            r.wf(),
            r.width == width,
            r.height == height,
            forall |k: int|
                0 <= k < r.pixels@.len() ==> #[trigger] r.pixels@[k] == (Pixel {
                    r: 0u8,
                    g: 0u8,
                    b: 0u8,
                }),
    {
        let n: usize = (width as usize) * (height as usize);
        let mut pixels: Vec<Pixel> = Vec::new();
        let mut k: usize = 0;
        while k < n
            invariant
                k <= n,
                pixels@.len() == k,
                forall |j: int|
                    0 <= j < k ==> #[trigger] pixels@[j] == (Pixel { r: 0u8, g: 0u8, b: 0u8 }),
            decreases n - k,
        {
            pixels.push(Pixel { r: 0, g: 0, b: 0 });
            k = k + 1;
        }
        Image { width, height, pixels }
    }

    /// Finalize and store the pixel at `(x, y)`: the accumulated color is
    /// averaged, gamma-corrected, clamped and quantized, and exactly that
    /// one grid cell changes.
    pub fn set_pixel(&mut self, x: u32, y: u32, pixel_color: Color, samples_per_pixel: u32)
        requires
            old(self).wf(),
            x < old(self).width,
            y < old(self).height,
        ensures
            final(self).wf(),
            final(self).width == old(self).width,
            final(self).height == old(self).height,
            final(self).pixels@ == old(self).pixels@.update(
                y as int * old(self).width as int + x as int,
                Pixel {
                    r: quantized(pixel_color.x as int, samples_per_pixel as int) as u8,
                    g: quantized(pixel_color.y as int, samples_per_pixel as int) as u8,
                    b: quantized(pixel_color.z as int, samples_per_pixel as int) as u8,
                },
            ),
    {
        let r = quantize_channel(pixel_color.x, samples_per_pixel);
        let g = quantize_channel(pixel_color.y, samples_per_pixel);
        let b = quantize_channel(pixel_color.z, samples_per_pixel);
        let n = self.pixels.len();
        proof {
            lemma_grid_index(self.width as int, self.height as int, x as int, y as int);
        }
        let idx: usize = (y as usize) * (self.width as usize) + (x as usize);
        self.pixels.set(idx, Pixel { r, g, b });
    }

    /// Read the pixel at `(x, y)`.
    pub fn get_pixel(&self, x: u32, y: u32) -> (p: Pixel)
        requires
            self.wf(),
            x < self.width,
            y < self.height,
        ensures
            p == self.pixels@[y as int * self.width as int + x as int],
    {
        let n = self.pixels.len();
        proof {
            lemma_grid_index(self.width as int, self.height as int, x as int, y as int);
        }
        let idx: usize = (y as usize) * (self.width as usize) + (x as usize);
        self.pixels[idx]
    }
}

/// Finalize one channel to a byte.
fn quantize_channel(c: i64, spp: u32) -> (r: u8)
    ensures
        r as int == quantized(c as int, spp as int),
{
    let spp_fx: i64 = (spp as i64) * FX_ONE;
    let scale = fx_div(FX_ONE, spp_fx);
    let g = fx_sqrt(fx_mul(c, scale));
    let clamped = clamp(g, 0, CHANNEL_CLAMP);
    proof {
        assert(0 <= sclamp(g as int, 0, CHANNEL_CLAMP as int) <= 65470);
    }
    (((clamped as u128) * 255 / 65536) as u8)
}

} // verus!
