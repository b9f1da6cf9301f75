//! Colors and the tone-mapped textual pixel encoding.
//!
//! A color is a vector whose components are linear channel values, with
//! `SCALE` standing for channel value 1. Emission gamma-corrects each
//! channel (square root), clamps it to `[0, 0.999]` and scales it to an
//! eight-bit integer, then prints the three integers as one decimal line.

use crate::fx::SCALE;
use crate::fx::fsqrt;
use crate::fx::lemma_isqrt_bounds;
use crate::fx::tdiv;
use crate::interval::Interval;
use crate::interval::clamp_s;
use crate::vec3::V3;
use crate::vec3::Vec3;
use vstd::prelude::*;

verus! {

/// A color: three linear channels, `SCALE` = full intensity.
pub type Color = Vec3;

/// Top of the channel clamp range: 0.999 in raw units.
pub const CLAMP_MAX: i64 = 65470;

/// All three channels lie in `[0, 1]`.
pub open spec fn color01(c: V3) -> bool {
    0 <= c.0 <= SCALE as int && 0 <= c.1 <= SCALE as int && 0 <= c.2 <= SCALE as int
}

/// Gamma-2 correction: the square root of a nonnegative linear channel.
pub open spec fn gamma_s(x: int) -> int {
    if x > 0 {
        fsqrt(x)
    } else {
        0
    }
}

/// The eight-bit value a linear channel maps to: gamma-correct, clamp to
/// `[0, 0.999]`, scale by 256 and truncate.
pub open spec fn channel_byte_s(x: int) -> int {
    tdiv(256 * clamp_s(0, CLAMP_MAX as int, gamma_s(x)), SCALE as int)
}

/// The decimal digits of a nonnegative integer, as bytes.
pub open spec fn dec_s(n: int) -> Seq<u8>
    recommends
        n >= 0,
    decreases n,
{
    if n < 10 {
        seq![(48 + n) as u8]
    } else {
        dec_s(n / 10).push((48 + n % 10) as u8)
    }
}

/// The emitted line for one pixel: three bytes in decimal, space-separated,
/// with a trailing newline.
pub open spec fn line_s(c: V3) -> Seq<u8> {
    dec_s(channel_byte_s(c.0)) + seq![32u8] + dec_s(channel_byte_s(c.1)) + seq![32u8] + dec_s(
        channel_byte_s(c.2),
    ) + seq![10u8]
}

/// Gamma-2 correction of one linear channel.
pub fn linear_to_gamma(linear_component: i64) -> (r: i64)
    ensures
        r as int == gamma_s(linear_component as int),
        0 <= r < 0x1_0000_0000_0000,
{
    if linear_component > 0 {
        let r = crate::fx::sqrt_fx(linear_component);
        proof {
            lemma_isqrt_bounds(linear_component as int * SCALE as int);
            let rt = fsqrt(linear_component as int);
            assert(linear_component as int * SCALE as int <= 0x8000_0000_0000_0000_0000i128 as int)
                by (nonlinear_arith)
                requires
                    0 < linear_component <= i64::MAX,
            ;
            if rt >= 0x1_0000_0000_0000 {
                assert(rt * rt > 0x8000_0000_0000_0000_0000i128 as int) by (nonlinear_arith)
                    requires
                        rt >= 0x1_0000_0000_0000,
                ;
            }
        }
        r
    } else {
        0
    }
}

/// The eight-bit value of one linear channel; at most 255.
pub fn channel_byte(x: i64) -> (r: u8)
    ensures
        r as int == channel_byte_s(x as int),
{
    let g = linear_to_gamma(x);
    let intensity = Interval::new(0, CLAMP_MAX);
    let c = intensity.clamp(g);
    let v = (256 * c) / SCALE;
    proof {
        vstd::arithmetic::div_mod::lemma_div_is_ordered(256 * c, 256 * CLAMP_MAX as int, SCALE as int);
        vstd::arithmetic::div_mod::lemma_div_pos_is_pos(256 * c, SCALE as int);
    }
    v as u8
}

/// Append the decimal digits of `n`.
pub fn push_dec(out: &mut Vec<u8>, n: u32) -> (r: ())
    ensures
        final(out)@ == old(out)@ + dec_s(n as int),
    decreases n,
{
    if n < 10 {
        out.push(48 + (n as u8));
    } else {
        push_dec(out, n / 10);
        out.push(48 + ((n % 10) as u8));
    }
}

/// Append the tone-mapped decimal line for one pixel color.
pub fn write(out: &mut Vec<u8>, pixel_color: &Color) -> (r: ())
    ensures
        final(out)@ == old(out)@ + line_s(pixel_color@),
{
    let r = channel_byte(pixel_color.x);
    let g = channel_byte(pixel_color.y);
    let b = channel_byte(pixel_color.z);
    push_dec(out, r as u32);
    out.push(32);
    push_dec(out, g as u32);
    out.push(32);
    push_dec(out, b as u32);
    out.push(10);
    proof {
        assert(out@ =~= old(out)@ + line_s(pixel_color@));
    }
}

} // verus!
