//! Band-to-color mapping: a deterministic seven-stop hue gradient
//! (red, orange, yellow, green, cyan, blue, violet) over the band index.

use vstd::prelude::*;

verus! {

/// An RGB triple for one display band.
#[derive(Clone, Copy, Debug, PartialEq, Eq, Structural)]
pub struct Rgb {
    pub r: u8,
    pub g: u8,
    pub b: u8,
}

/// The seven gradient stops, red first and violet last.
pub open spec fn gradient_stop(seg: int) -> (int, int, int) {
    if seg <= 0 {
        (255, 0, 0)
    } else if seg == 1 {
        (255, 165, 0)
    } else if seg == 2 {
        (255, 255, 0)
    } else if seg == 3 {
        (0, 255, 0)
    } else if seg == 4 {
        (0, 255, 255)
    } else if seg == 5 {
        (0, 0, 255)
    } else {
        (148, 0, 211)
    }
}

/// Linear interpolation of one color channel from `a` toward `b` by the
/// fraction `num / den`, rounded toward `a`.
pub open spec fn lerp_spec(a: int, b: int, num: int, den: int) -> int {
    if b >= a {
        a + ((b - a) * num) / den
    } else {
        a - ((a - b) * num) / den
    }
}

/// The color of band `index` out of `total`, as an RGB triple.
///
/// The position `index / (total - 1)` is split into six equal segments
/// between the seven gradient stops and each channel is interpolated
/// linearly inside its segment. A band count of one (or none) gets the
/// red end of the gradient; the last band gets the violet end exactly.
pub open spec fn color_spec(index: int, total: int) -> (int, int, int) {
    let d = total - 1;
    if total <= 1 {
        gradient_stop(0)
    } else if index >= d {
        gradient_stop(6)
    } else {
        let p = 6 * index;
        let seg = p / d;
        let num = p % d;
        let lo = gradient_stop(seg);
        let hi = gradient_stop(seg + 1);
        (
            lerp_spec(lo.0, hi.0, num, d),
            lerp_spec(lo.1, hi.1, num, d),
            lerp_spec(lo.2, hi.2, num, d),
        )
    }
}

fn lerp_channel(a: u64, b: u64, num: u64, den: u64) -> (c: u64)
    requires
        a <= 255,
        b <= 255,
        den >= 1,
        num < den,
    ensures
        c == lerp_spec(a as int, b as int, num as int, den as int),
        c <= 255,
{
    let delta = if b >= a { b - a } else { a - b };
    proof {
        assert((delta as int) * (num as int) <= 255 * 0xffff_ffff_ffff_ffffu64) by (nonlinear_arith)
            requires delta as int <= 255, num as int <= 0xffff_ffff_ffff_ffffu64;
        assert((delta as int * num as int) / (den as int) <= delta as int) by (nonlinear_arith)
            requires num < den, den >= 1, delta as int >= 0;
    }
    let step = ((delta as u128 * num as u128) / (den as u128)) as u64;
    if b >= a {
        a + step
    } else {
        a - step
    }
}

/// Maps a band index to its point on the red-to-violet gradient.
///
/// Deterministic: the result is fixed by `index` and `total` alone.
pub fn frequency_to_color(index: usize, total: usize) -> (c: Rgb)
    ensures
        (c.r as int, c.g as int, c.b as int) == color_spec(index as int, total as int),
{
    if total <= 1 {
        Rgb { r: 255, g: 0, b: 0 }
    } else if index >= total - 1 {
        Rgb { r: 148, g: 0, b: 211 }
    } else {
        let d = (total - 1) as u64;
        let p = 6u128 * (index as u128);
        let seg = (p / (d as u128)) as u64;
        let num = (p % (d as u128)) as u64;
        assert(p / (d as u128) < 6) by (nonlinear_arith)
            requires p == 6 * (index as u128), (index as u128) < d as u128, d >= 1;
        assert(p % (d as u128) < d as u128) by (nonlinear_arith)
            requires d >= 1;
        let (r0, g0, b0) = stop_channels(seg);
        let (r1, g1, b1) = stop_channels(seg + 1);
        Rgb {
            r: lerp_channel(r0, r1, num, d) as u8,
            g: lerp_channel(g0, g1, num, d) as u8,
            b: lerp_channel(b0, b1, num, d) as u8,
        }
    }
}

fn stop_channels(seg: u64) -> (c: (u64, u64, u64))
    requires
        seg <= 6,
    ensures
        (c.0 as int, c.1 as int, c.2 as int) == gradient_stop(seg as int),
        c.0 <= 255 && c.1 <= 255 && c.2 <= 255,
{
    if seg == 0 {
        (255, 0, 0)
    } else if seg == 1 {
        (255, 165, 0)
    } else if seg == 2 {
        (255, 255, 0)
    } else if seg == 3 {
        (0, 255, 0)
    } else if seg == 4 {
        (0, 255, 255)
    } else if seg == 5 {
        (0, 0, 255)
    } else {
        (148, 0, 211)
    }
}

/// Two colorings of the same band agree: the gradient has no hidden state.
pub proof fn lemma_color_deterministic(c1: Rgb, c2: Rgb, index: int, total: int)
    requires
        (c1.r as int, c1.g as int, c1.b as int) == color_spec(index, total),
        (c2.r as int, c2.g as int, c2.b as int) == color_spec(index, total),
    ensures
        c1 == c2,
{
}

/// The first band of any gradient with at least two bands is pure red,
/// and the last band is the violet endpoint.
pub proof fn lemma_color_endpoints(total: int)
    requires
        total >= 2,
    ensures
        color_spec(0, total) == gradient_stop(0),
        color_spec(total - 1, total) == gradient_stop(6),
{
    let d = total - 1;
    assert(0int / d == 0 && 0int % d == 0) by (nonlinear_arith)
        requires d >= 1;
}

} // verus!
