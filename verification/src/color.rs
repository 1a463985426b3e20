//! Turning accumulated radiance into 8-bit pixel channels.

use vstd::prelude::*;
use crate::fx::{tdiv, sqrt_floor, isqrt, i_div, i_min, i_max, lemma_tdiv_abs_le, FP_ONE};
use crate::vec3::{Color, vec_in_range};
use crate::material::COLOR_LIM;

verus! {

/// The largest channel value before scaling (0.999 in fixed point).
pub const CHANNEL_CLAMP: i128 = 4290772992;

/// One channel of the output pixel: the sample average, gamma-corrected by
/// a square root, clamped to just under one, and scaled to eight bits.
pub open spec fn schannel_out(c: int, samples: int) -> int {
    let avg = tdiv(c, samples);
    let nn = if avg < 0 { 0 } else { avg };
    let root = sqrt_floor((nn * FP_ONE) as nat) as int;
    let cl = if root > CHANNEL_CLAMP { CHANNEL_CLAMP as int } else { root };
    tdiv(cl * 255999, FP_ONE * 1000)
}

/// Average a pixel's accumulated color over its sample count and quantize
/// each channel to eight bits, with square-root gamma correction and the
/// usual clamp just below one. The input may hold the raw sum of up to a
/// million in-range samples.
pub fn write_color(pixel_color: &Color, samples_per_pixel: i128) -> (r: (u8, u8, u8))
    requires
        samples_per_pixel > 0,
        vec_in_range(*pixel_color, 1048576 * COLOR_LIM as int),
    ensures
        r.0 == schannel_out(pixel_color.x as int, samples_per_pixel as int),
        r.1 == schannel_out(pixel_color.y as int, samples_per_pixel as int),
        r.2 == schannel_out(pixel_color.z as int, samples_per_pixel as int),
{
    let a = channel_out(pixel_color.x, samples_per_pixel);
    let b = channel_out(pixel_color.y, samples_per_pixel);
    let c = channel_out(pixel_color.z, samples_per_pixel);
    (a, b, c)
}

fn channel_out(c: i128, samples: i128) -> (r: u8)
    requires
        samples > 0,
        -(1048576 * COLOR_LIM) <= c <= 1048576 * COLOR_LIM,
    ensures
        r == schannel_out(c as int, samples as int),
{
    proof {
        lemma_tdiv_abs_le(c as int, samples as int);
    }
    let avg = i_div(c, samples);
    let nn = i_max(avg, 0);
    let root = isqrt(nn * FP_ONE);
    let cl = i_min(root, CHANNEL_CLAMP);
    proof {
        assert(cl * 255999 >= 0) by (nonlinear_arith)
            requires cl >= 0
        ;
        lemma_tdiv_abs_le(cl as int * 255999, FP_ONE * 1000);
        assert(tdiv(cl as int * 255999, (FP_ONE * 1000) as int)
            == (cl as int * 255999) / ((FP_ONE * 1000) as int));
        vstd::arithmetic::div_mod::lemma_div_is_ordered(
            cl as int * 255999, 4290772992int * 255999, (FP_ONE * 1000) as int,
        );
        assert(4290772992int * 255999int / (4294967296000int) < 256);
        if cl * 255999 > 0 {
            vstd::arithmetic::div_mod::lemma_div_pos_is_pos(cl as int * 255999, (FP_ONE * 1000) as int);
        }
        assert(cl as int * 255999 <= 4290772992int * 255999int) by (nonlinear_arith)
            requires 0 <= cl <= 4290772992
        ;
    }
    let v = i_div(cl * 255999, FP_ONE * 1000);
    v as u8
}

} // verus!
