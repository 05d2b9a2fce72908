//! Magnitudes of FFT output bins.
//!
//! The FFT hands back one complex value per bin; its real and imaginary
//! parts arrive here as fixed-point integers in whatever scale the caller
//! chose. A bin's magnitude is the Euclidean norm, computed exactly as an
//! integer square root.

use vstd::prelude::*;

verus! {

/// Largest component value a bin may carry. Keeps `re*re + im*im` inside
/// sixty-two bits.
pub const COMPONENT_LIMIT: i64 = 0x4000_0000;

/// Largest magnitude a bin can reach under `COMPONENT_LIMIT`.
pub const MAG_LIMIT: u64 = 0x8000_0000;

/// `r` is the integer square root of `x`.
pub open spec fn is_sqrt(x: int, r: int) -> bool {
    0 <= r && r * r <= x && x < (r + 1) * (r + 1)
}

/// Integer square root by binary search: the unique `r` with
/// `r^2 <= x < (r+1)^2`.
pub fn isqrt(x: u64) -> (r: u64)
    ensures
        is_sqrt(x as int, r as int),
        r < 0x1_0000_0000,
{
    if x == 0 {
        return 0;
    }
    let mut lo: u64 = 0;
    let mut hi: u64 = 0x1_0000_0000;
    proof {
        assert(0x1_0000_0000int * 0x1_0000_0000 > u64::MAX) by (nonlinear_arith);
    }
    while hi - lo > 1
        invariant
            lo < hi <= 0x1_0000_0000,
            (lo as int) * (lo as int) <= x as int,
            (x as int) < (hi as int) * (hi as int),
        decreases hi - lo,
    {
        let mid = lo + (hi - lo) / 2;
        proof {
            assert((mid as int) * (mid as int) < 0x1_0000_0000_0000_0000) by (nonlinear_arith)
                requires mid < 0x1_0000_0000;
        }
        if mid * mid <= x {
            lo = mid;
        } else {
            hi = mid;
        }
    }
    lo
}

/// The magnitude of one complex bin: the integer square root of
/// `re^2 + im^2`, in the same fixed-point scale as the components.
pub fn magnitude(re: i64, im: i64) -> (r: u64)
    requires
        -COMPONENT_LIMIT <= re <= COMPONENT_LIMIT,
        -COMPONENT_LIMIT <= im <= COMPONENT_LIMIT,
    ensures
        is_sqrt(re * re + im * im, r as int),
        r <= MAG_LIMIT,
{
    let ra: u64 = if re < 0 { (-re) as u64 } else { re as u64 };
    let ia: u64 = if im < 0 { (-im) as u64 } else { im as u64 };
    proof {
        assert((-re) * (-re) == re * re && (-im) * (-im) == im * im) by (nonlinear_arith);
        assert((ra as int) * (ra as int) <= 0x4000_0000int * 0x4000_0000) by (nonlinear_arith)
            requires 0 <= ra as int <= 0x4000_0000;
        assert((ia as int) * (ia as int) <= 0x4000_0000int * 0x4000_0000) by (nonlinear_arith)
            requires 0 <= ia as int <= 0x4000_0000;
    }
    let sum = ra * ra + ia * ia;
    let r = isqrt(sum);
    proof {
        assert((MAG_LIMIT as int + 1) * (MAG_LIMIT as int + 1) > 2 * (0x4000_0000int * 0x4000_0000))
            by (nonlinear_arith);
        assert((r as int) * (r as int) <= sum as int);
        if r > MAG_LIMIT {
            assert((r as int) * (r as int) >= (MAG_LIMIT as int + 1) * (MAG_LIMIT as int + 1))
                by (nonlinear_arith)
                requires r as int >= MAG_LIMIT as int + 1, MAG_LIMIT as int >= 0;
        }
    }
    r
}

/// Magnitudes of the first `count` bins of an FFT spectrum, given as
/// (real, imaginary) fixed-point pairs. For real input only the bins up to
/// the Nyquist frequency carry information, so `count` is half the window.
pub fn bin_magnitudes(spectrum: &Vec<(i64, i64)>, count: usize) -> (r: Vec<u64>)
    requires
        count <= spectrum.len(),
        forall|k: int| 0 <= k < spectrum.len() ==>
            -COMPONENT_LIMIT <= (#[trigger] spectrum@[k]).0 <= COMPONENT_LIMIT
            && -COMPONENT_LIMIT <= spectrum@[k].1 <= COMPONENT_LIMIT,
    ensures
        r.len() == count,
        forall|k: int| 0 <= k < count ==> is_sqrt(
            spectrum@[k].0 * spectrum@[k].0 + spectrum@[k].1 * spectrum@[k].1,
            #[trigger] r@[k] as int,
        ),
        forall|k: int| 0 <= k < count ==> #[trigger] r@[k] <= MAG_LIMIT,
{
    let mut out: Vec<u64> = Vec::new();
    let mut k: usize = 0;
    while k < count
        invariant
            k <= count,
            count <= spectrum.len(),
            out.len() == k,
            forall|j: int| 0 <= j < spectrum.len() ==>
                -COMPONENT_LIMIT <= (#[trigger] spectrum@[j]).0 <= COMPONENT_LIMIT
                && -COMPONENT_LIMIT <= spectrum@[j].1 <= COMPONENT_LIMIT,
            forall|j: int| 0 <= j < k ==> is_sqrt(
                spectrum@[j].0 * spectrum@[j].0 + spectrum@[j].1 * spectrum@[j].1,
                #[trigger] out@[j] as int,
            ),
            forall|j: int| 0 <= j < k ==> #[trigger] out@[j] <= MAG_LIMIT,
        decreases count - k,
    {
        let (re, im) = spectrum[k];
        let m = magnitude(re, im);
        out.push(m);
        k += 1;
    }
    out
}

} // verus!
