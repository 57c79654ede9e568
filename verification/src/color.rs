//! Deterministic color generation: tag colors from a golden-ratio hue
//! walk, HSV conversion, and a fixed blue-to-red gradient. All of it is
//! exact fixed-point integer arithmetic, so a color is a pure function of
//! its inputs: the same tag yields the same bytes in every process.

use vstd::prelude::*;
use crate::scene::{Color, UNIT};

verus! {

/// One in 0.32 fixed point: fractions in `[0, 1]` are carried as
/// multiples of `2^-32`.
pub const FP_ONE: u64 = 0x1_0000_0000;

/// The reciprocal of the golden ratio in 0.32 fixed point
/// (`floor(0.6180339887498949 * 2^32)`). Successive multiples of it,
/// taken modulo one, spread maximally and avoid near-duplicate hues.
pub const PHI_INV: u64 = 0x9E37_79B9;

/// The fixed value channel of tag colors: `0.95` in 0.32 fixed point.
pub const TAG_VALUE: u64 = 0xF333_3333;

/// The standard six-sector HSV-to-RGB formula over 0.32 fixed-point
/// channels. The hue wraps modulo one; saturation and value must lie in
/// `[0, 1]`.
pub open spec fn spec_rgb_from_hsv(h: u64, s: u64, v: u64) -> (u64, u64, u64) {
    let hw = h % FP_ONE;
    let h6 = hw * 6;
    let sector = h6 / (FP_ONE as int);
    let f = h6 % (FP_ONE as int);
    let p = ((v * (FP_ONE - s)) / (FP_ONE as int)) as u64;
    let q = ((v * (FP_ONE - (f * s) / (FP_ONE as int))) / (FP_ONE as int)) as u64;
    let t = ((v * (FP_ONE - ((FP_ONE - f) * s) / (FP_ONE as int))) / (FP_ONE as int)) as u64;
    if sector == 0 {
        (v, t, p)
    } else if sector == 1 {
        (q, v, p)
    } else if sector == 2 {
        (p, v, t)
    } else if sector == 3 {
        (p, q, v)
    } else if sector == 4 {
        (t, p, v)
    } else {
        (v, p, q)
    }
}

/// Converts an HSV triple (0.32 fixed point, hue wrapping modulo one) to
/// RGB channels in `[0, 1]` fixed point.
pub fn rgb_from_hsv(h: u64, s: u64, v: u64) -> (rgb: (u64, u64, u64))
    requires
        s <= FP_ONE,
        v <= FP_ONE,
    ensures
        rgb == spec_rgb_from_hsv(h, s, v),
        rgb.0 <= FP_ONE,
        rgb.1 <= FP_ONE,
        rgb.2 <= FP_ONE,
{
    let hw = h % FP_ONE;
    let h6 = hw * 6;
    let sector = h6 / FP_ONE;
    let f = h6 % FP_ONE;
    proof {
        lemma_fp_mul_bounds(f, s);
        lemma_fp_mul_bounds((FP_ONE - f) as u64, s);
    }
    let fs = ((f as u128 * s as u128) / 0x1_0000_0000u128) as u64;
    let gs = (((FP_ONE - f) as u128 * s as u128) / 0x1_0000_0000u128) as u64;
    proof {
        lemma_fp_mul_bounds(v, (FP_ONE - s) as u64);
        lemma_fp_mul_bounds(v, (FP_ONE - fs) as u64);
        lemma_fp_mul_bounds(v, (FP_ONE - gs) as u64);
    }
    let p = ((v as u128 * (FP_ONE - s) as u128) / 0x1_0000_0000u128) as u64;
    let q = ((v as u128 * (FP_ONE - fs) as u128) / 0x1_0000_0000u128) as u64;
    let t = ((v as u128 * (FP_ONE - gs) as u128) / 0x1_0000_0000u128) as u64;
    if sector == 0 {
        (v, t, p)
    } else if sector == 1 {
        (q, v, p)
    } else if sector == 2 {
        (p, v, t)
    } else if sector == 3 {
        (p, q, v)
    } else if sector == 4 {
        (t, p, v)
    } else {
        (v, p, q)
    }
}

/// A product of two fixed-point fractions in `[0, 1]` stays in `[0, 1]`.
proof fn lemma_fp_mul_bounds(a: u64, b: u64)
    requires
        a <= FP_ONE,
        b <= FP_ONE,
    ensures
        a as u128 * b as u128 <= 0x1_0000_0000_0000_0000u128,
        (a as u128 * b as u128) / (0x1_0000_0000 as int) == (a * b) / (FP_ONE as int),
        (a * b) / (FP_ONE as int) <= FP_ONE,
{
    assert(a as u128 * b as u128 <= 0x1_0000_0000 * 0x1_0000_0000) by (nonlinear_arith)
        requires
            a <= 0x1_0000_0000u64,
            b <= 0x1_0000_0000u64,
    ;
    assert((a * b) / (FP_ONE as int) <= FP_ONE) by (nonlinear_arith)
        requires
            a <= 0x1_0000_0000u64,
            b <= 0x1_0000_0000u64,
            FP_ONE == 0x1_0000_0000u64,
    ;
}

/// A channel fraction saturated into `[0, 1]`.
pub open spec fn spec_sat_one(x: u64) -> u64 {
    if x > FP_ONE {
        FP_ONE
    } else {
        x
    }
}

/// The color whose channels are the given fixed-point fractions of one,
/// each saturated into `[0, 1]` and mapped to a byte by truncation.
pub open spec fn spec_ratio(r: u64, g: u64, b: u64) -> Color {
    Color {
        r: ((spec_sat_one(r) * 255) / (FP_ONE as int)) as u8,
        g: ((spec_sat_one(g) * 255) / (FP_ONE as int)) as u8,
        b: ((spec_sat_one(b) * 255) / (FP_ONE as int)) as u8,
        a: 255u8,
    }
}

impl Color {
    /// An opaque color from three channel fractions of one (0.32 fixed
    /// point); fractions above one saturate, and each channel maps to a
    /// byte by truncation.
    pub fn ratio(r: u64, g: u64, b: u64) -> (c: Self)
        ensures
            c == spec_ratio(r, g, b),
    {
        let rs = if r > FP_ONE {
            FP_ONE
        } else {
            r
        };
        let gs = if g > FP_ONE {
            FP_ONE
        } else {
            g
        };
        let bs = if b > FP_ONE {
            FP_ONE
        } else {
            b
        };
        proof {
            lemma_ratio_byte(rs);
            lemma_ratio_byte(gs);
            lemma_ratio_byte(bs);
        }
        let rb = ((rs as u128 * 255) / 0x1_0000_0000u128) as u8;
        let gb = ((gs as u128 * 255) / 0x1_0000_0000u128) as u8;
        let bb = ((bs as u128 * 255) / 0x1_0000_0000u128) as u8;
        Color { r: rb, g: gb, b: bb, a: 255 }
    }
}

proof fn lemma_ratio_byte(x: u64)
    requires
        x <= FP_ONE,
    ensures
        (x as u128 * 255) / (0x1_0000_0000 as int) == (x * 255) / (FP_ONE as int),
        (x * 255) / (FP_ONE as int) <= 255,
{
    assert((x * 255) / (FP_ONE as int) <= 255) by (nonlinear_arith)
        requires
            x <= 0x1_0000_0000u64,
            FP_ONE == 0x1_0000_0000u64,
    ;
}

/// The hue fraction of tag `idx`: `frac(phi_inv * idx * 17)` carried out
/// exactly modulo one in 0.32 fixed point.
pub open spec fn spec_tag_hue(idx: usize) -> u64 {
    (((((idx as u64 % FP_ONE) * 17) % (FP_ONE as int)) * PHI_INV) % (FP_ONE as int)) as u64
}

/// The raw saturation fraction of tag `idx`: `frac(phi_inv * idx * 11)`.
pub open spec fn spec_tag_sat_raw(idx: usize) -> u64 {
    (((((idx as u64 % FP_ONE) * 11) % (FP_ONE as int)) * PHI_INV) % (FP_ONE as int)) as u64
}

/// The color assigned to tag `idx`: hue and raw saturation from the
/// golden-ratio walk, saturation rescaled into `[0.25, 0.95]`, value
/// fixed at `0.95`, converted to RGB.
pub open spec fn spec_tag(idx: usize) -> Color {
    let h = spec_tag_hue(idx);
    let s = spec_tag_sat_raw(idx);
    let s2 = (0x4000_0000 + (s * 7) / 10) as u64;
    let (r, g, b) = spec_rgb_from_hsv(h, s2, TAG_VALUE);
    spec_ratio(r, g, b)
}

impl Color {
    /// The deterministic pseudo-random color of an integer tag: the same
    /// index yields the same color in every call, process and machine.
    pub fn tag(idx: usize) -> (c: Self)
        ensures
            c == spec_tag(idx),
    {
        let a = idx as u64 % FP_ONE;
        let h = ((a * 17) % FP_ONE) * PHI_INV % FP_ONE;
        let s = ((a * 11) % FP_ONE) * PHI_INV % FP_ONE;
        let s2 = 0x4000_0000 + (s * 7) / 10;
        proof {
            assert(s < FP_ONE);
            assert(s2 <= FP_ONE) by (nonlinear_arith)
                requires
                    s < 0x1_0000_0000u64,
                    s2 == 0x4000_0000 + (s * 7) / 10,
            ;
        }
        let (r, g, b) = rgb_from_hsv(h, s2, TAG_VALUE);
        Color::ratio(r, g, b)
    }
}

/// Any two results of [`Color::tag`] on the same index are identical:
/// the tag color is a pure function of the index alone.
pub proof fn lemma_tag_deterministic(idx: usize, c1: Color, c2: Color)
    requires
        call_ensures(Color::tag, (idx,), c1),
        call_ensures(Color::tag, (idx,), c2),
    ensures
        c1 == c2,
{
}

/// The gradient stop `k` of the fixed blue-to-red colormap, dark blue at
/// the low end through green and yellow to dark red at the high end.
pub open spec fn spec_turbo_stop(k: int) -> (u8, u8, u8) {
    if k <= 0 {
        (32u8, 16u8, 64u8)
    } else if k == 1 {
        (32u8, 96u8, 160u8)
    } else if k == 2 {
        (32u8, 160u8, 160u8)
    } else if k == 3 {
        (64u8, 192u8, 96u8)
    } else if k == 4 {
        (160u8, 208u8, 64u8)
    } else if k == 5 {
        (224u8, 160u8, 48u8)
    } else if k == 6 {
        (192u8, 96u8, 32u8)
    } else {
        (128u8, 16u8, 16u8)
    }
}

/// One channel linearly interpolated between two stops; `f` is the
/// position inside the segment in `[0, 32)` substeps.
pub open spec fn spec_lerp_channel(c0: u8, c1: u8, f: i64) -> u8 {
    if c1 >= c0 {
        (c0 + ((c1 - c0) * f) / 32) as u8
    } else {
        (c0 - ((c0 - c1) * f) / 32) as u8
    }
}

/// The gradient color at `t` (in coordinate subunits, one [`UNIT`] is the
/// high end): `t` is clamped to `[0, 1]`, then interpolated linearly
/// between the two neighboring stops of the fixed table.
pub open spec fn spec_turbo(t: i64) -> Color {
    let tc = if t < 0 {
        0i64
    } else if t > UNIT {
        UNIT
    } else {
        t
    };
    let k = tc / 32;
    let f = tc % 32;
    let (r0, g0, b0) = spec_turbo_stop(k as int);
    let (r1, g1, b1) = spec_turbo_stop(k as int + 1);
    Color {
        r: spec_lerp_channel(r0, r1, f),
        g: spec_lerp_channel(g0, g1, f),
        b: spec_lerp_channel(b0, b1, f),
        a: 255u8,
    }
}

fn turbo_stop(k: i64) -> (c: (u8, u8, u8))
    ensures
        c == spec_turbo_stop(k as int),
{
    if k <= 0 {
        (32, 16, 64)
    } else if k == 1 {
        (32, 96, 160)
    } else if k == 2 {
        (32, 160, 160)
    } else if k == 3 {
        (64, 192, 96)
    } else if k == 4 {
        (160, 208, 64)
    } else if k == 5 {
        (224, 160, 48)
    } else if k == 6 {
        (192, 96, 32)
    } else {
        (128, 16, 16)
    }
}

fn lerp_channel(c0: u8, c1: u8, f: i64) -> (c: u8)
    requires
        0 <= f < 32,
    ensures
        c == spec_lerp_channel(c0, c1, f),
{
    if c1 >= c0 {
        let d = (c1 - c0) as u64;
        proof {
            assert(d * (f as u64) <= 255 * 31) by (nonlinear_arith)
                requires
                    d <= 255,
                    0 <= (f as u64) < 32,
            ;
        }
        let step = d * (f as u64) / 32;
        proof {
            assert(step <= d) by (nonlinear_arith)
                requires
                    step == d * (f as u64) / 32,
                    0 <= (f as u64) < 32,
            ;
        }
        c0 + step as u8
    } else {
        let d = (c0 - c1) as u64;
        proof {
            assert(d * (f as u64) <= 255 * 31) by (nonlinear_arith)
                requires
                    d <= 255,
                    0 <= (f as u64) < 32,
            ;
        }
        let step = d * (f as u64) / 32;
        proof {
            assert(step <= d) by (nonlinear_arith)
                requires
                    step == d * (f as u64) / 32,
                    0 <= (f as u64) < 32,
            ;
        }
        c0 - step as u8
    }
}

impl Color {
    /// Samples the fixed blue-to-red gradient at `t` coordinate
    /// subunits; `t` at or below zero gives the dark blue end, `t` at or
    /// above one [`UNIT`] the dark red end.
    pub fn turbo(t: i64) -> (c: Self)
        ensures
            c == spec_turbo(t),
    {
        let tc: i64 = if t < 0 {
            0
        } else if t > UNIT {
            UNIT
        } else {
            t
        };
        let k = (tc as u64 / 32) as i64;
        let f = (tc as u64 % 32) as i64;
        let (r0, g0, b0) = turbo_stop(k);
        let (r1, g1, b1) = turbo_stop(k + 1);
        Color {
            r: lerp_channel(r0, r1, f),
            g: lerp_channel(g0, g1, f),
            b: lerp_channel(b0, b1, f),
            a: 255,
        }
    }
}

} // verus!
