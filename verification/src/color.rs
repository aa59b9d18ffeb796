//! Gamma correction, clamping and 8-bit quantization of accumulated pixel
//! samples.

use crate::fixed::{div_trunc, div_trunc_i64, fsqrt, fsqrt_s, lemma_div_trunc_nonneg, ONE};
use crate::rtweekend::clamp;
use crate::vec3::Vec3;
use vstd::prelude::*;

verus! {

/// Raw fixed-point value of 0.999, the clamp ceiling that keeps quantized
/// channels below 256.
pub const CLAMP_MAX: i64 = 65470;

/// One channel of 8-bit output: average the accumulated sum over the sample
/// count, gamma-correct for gamma 2.0 (square root), clamp into
/// `[0, 0.999]`, and scale to `[0, 255]`.
pub open spec fn rgb8_channel_s(sum: int, samples: int) -> int {
    let avg = div_trunc(sum, samples);
    let g = fsqrt_s(
        if avg >= 0 {
            avg
        } else {
            0
        },
    );
    let c = if g < 0 {
        0
    } else if g > CLAMP_MAX as int {
        CLAMP_MAX as int
    } else {
        g
    };
    div_trunc(256 * c, ONE as int)
}

/// One quantized channel, in `[0, 255]`.
fn rgb8_channel(sum: i64, samples: i64) -> (r: u8)
    requires
        1 <= samples,
        sum > i64::MIN,
    ensures
        r as int == rgb8_channel_s(sum as int, samples as int),
{
    let avg: i64 = div_trunc_i64(sum, samples);
    let a: i64 = if avg >= 0 {
        avg
    } else {
        0
    };
    let g: i64 = fsqrt(a);
    let c: i64 = clamp(g, 0, CLAMP_MAX);
    proof {
        lemma_div_trunc_nonneg(256 * c as int, ONE as int);
        assert((256 * (c as int)) / 65536 <= 255) by (nonlinear_arith)
            requires
                0 <= c <= 65470,
        ;
    }
    let q: i64 = div_trunc_i64(256 * c, ONE);
    q as u8
}

/// The gamma-corrected, clamped, 8-bit-quantized triple for one pixel's
/// accumulated color sum.
pub fn to_rgb8(pixel_color: &Vec3, samples_per_pixel: usize) -> (rgb: (u8, u8, u8))
    requires
        1 <= samples_per_pixel <= 0x10000,
        pixel_color@.bounded(0x2_0000_0000_0000),
    ensures
        rgb.0 as int == rgb8_channel_s(pixel_color@.x, samples_per_pixel as int),
        rgb.1 as int == rgb8_channel_s(pixel_color@.y, samples_per_pixel as int),
        rgb.2 as int == rgb8_channel_s(pixel_color@.z, samples_per_pixel as int),
{
    let n: i64 = samples_per_pixel as i64;
    (
        rgb8_channel(pixel_color.x, n),
        rgb8_channel(pixel_color.y, n),
        rgb8_channel(pixel_color.z, n),
    )
}

} // verus!
