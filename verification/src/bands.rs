//! Logarithmic frequency bands.
//!
//! The audible range from `MIN_FREQ_HZ` up to the Nyquist frequency
//! (half the sample rate) is split into `n` segments of equal width in
//! log-frequency space, matching perceptual pitch. Each band then owns the
//! contiguous run of FFT bins whose center frequency falls inside its
//! segment, and its displayed value is the average bin magnitude with a
//! mild boost that grows with the band index.
//!
//! All log-space positions are 16.16 fixed point (`fixedlog`). Because the
//! fixed-point log is monotone, ordering positions in this scale never
//! disagrees with ordering the frequencies themselves.

use vstd::prelude::*;

verus! {

use vstd::arithmetic::div_mod::{
    lemma_div_is_ordered,
    lemma_div_plus_one,
    lemma_div_multiples_vanish,
};
use vstd::arithmetic::mul::lemma_mul_inequality;
use crate::fixedlog::{
    LOG_ONE,
    log2_fix,
    log2_fix_spec,
    floor_log2_spec,
    lemma_log2_fix_monotone,
    lemma_log2_fix_range,
};
use crate::magnitude::MAG_LIMIT;

/// Lower edge of the displayed range: human hearing starts near 20 Hz.
pub const MIN_FREQ_HZ: u64 = 20;

/// Largest supported band count (terminal widths stay far below this).
pub const MAX_BANDS: usize = 4096;

/// Largest value a boosted band can reach: three times the magnitude cap.
pub const BAND_LIMIT: u64 = 0x1_8000_0000;

/// Width of the whole displayed range in fixed-point log space.
pub open spec fn span_spec(rate: int) -> int {
    log2_fix_spec(rate / 2) - log2_fix_spec(MIN_FREQ_HZ as int)
}

/// The fixed-point log-frequency where band `i` of `n` starts.
pub open spec fn boundary_spec(i: int, n: int, rate: int) -> int {
    log2_fix_spec(MIN_FREQ_HZ as int) + (i * span_spec(rate)) / n
}

/// The fixed-point log-frequency of FFT bin `b`, whose center frequency is
/// `b * rate / window`: the logs of the factors are added and subtracted.
pub open spec fn bin_log_spec(b: int, rate: int, window: int) -> int {
    log2_fix_spec(b) + log2_fix_spec(rate) - log2_fix_spec(window)
}

/// At any real sample rate the displayed log range is far wider than one
/// fixed-point unit per band.
proof fn lemma_span_wide(rate: int)
    requires
        4096 <= rate < 0x8000_0000,
    ensures
        span_spec(rate) > 6 * (LOG_ONE as int),
        span_spec(rate) <= 31 * (LOG_ONE as int),
{
    reveal_with_fuel(floor_log2_spec, 13);
    assert(floor_log2_spec(2048) == 11);
    assert(floor_log2_spec(20) == 4);
    lemma_log2_fix_range(rate / 2);
    lemma_log2_fix_range(20);
    lemma_log2_fix_range(2048);
    lemma_log2_fix_monotone(2048, rate / 2);
}

/// Band boundaries move strictly up in log frequency, hence strictly up
/// in frequency: each band starts above the one before it.
pub proof fn lemma_boundaries_increase(i: int, n: int, rate: int)
    requires
        1 <= n <= MAX_BANDS as int,
        0 <= i < n,
        4096 <= rate < 0x8000_0000,
    ensures
        boundary_spec(i, n, rate) < boundary_spec(i + 1, n, rate),
{
    lemma_span_wide(rate);
    let s = span_spec(rate);
    assert((i + 1) * s == i * s + s) by (nonlinear_arith);
    assert(i * s >= 0) by (nonlinear_arith)
        requires i >= 0, s >= 0;
    lemma_div_is_ordered(i * s + n, i * s + s, n);
    lemma_div_plus_one(i * s, n);
}

/// The band boundaries in fixed-point log space: entry `i` is where band
/// `i` starts, entry `n` is the top of the range. Strictly increasing.
#[verifier::loop_isolation(false)]
pub fn band_boundaries(n: usize, rate: u32) -> (r: Vec<i64>)
    requires
        1 <= n <= MAX_BANDS,
        4096 <= rate < 0x8000_0000,
    ensures
        r.len() == n + 1,
        forall|i: int| 0 <= i <= n ==> #[trigger] r@[i] == boundary_spec(i, n as int, rate as int),
        forall|i: int| 0 <= i < n ==> #[trigger] r@[i] < r@[i + 1],
        forall|i: int| 0 <= i <= n ==> 0 <= #[trigger] r@[i] <= 62 * (LOG_ONE as int),
{
    let log_min = log2_fix(MIN_FREQ_HZ);
    let nyquist = (rate / 2) as u64;
    let log_max = log2_fix(nyquist);
    proof {
        lemma_log2_fix_monotone(MIN_FREQ_HZ as int, nyquist as int);
    }
    let sp = log_max - log_min;
    let mut out: Vec<i64> = Vec::new();
    let mut i: usize = 0;
    while i <= n
        invariant
            i <= n + 1,
            out.len() == i,
            forall|j: int| 0 <= j < i ==> #[trigger] out@[j] == boundary_spec(j, n as int, rate as int),
            forall|j: int| 0 <= j < i ==> 0 <= #[trigger] out@[j] <= 62 * (LOG_ONE as int),
        decreases n + 1 - i,
    {
        proof {
            lemma_mul_inequality(i as int, n as int, sp as int);
            lemma_div_is_ordered((i as int) * (sp as int), (n as int) * (sp as int), n as int);
            lemma_div_multiples_vanish(sp as int, n as int);
            assert((i as int) * (sp as int) >= 0) by (nonlinear_arith)
                requires i >= 0, sp >= 0;
            assert((i as int) * (sp as int) <= 4096 * (31 * 65536)) by (nonlinear_arith)
                requires 0 <= i <= 4096, 0 <= sp <= 31 * 65536;
        }
        let v = log_min + (i as u64 * sp) / (n as u64);
        out.push(v as i64);
        i += 1;
    }
    proof {
        assert forall|j: int| 0 <= j < n implies #[trigger] out@[j] < out@[j + 1] by {
            lemma_boundaries_increase(j, n as int, rate as int);
        }
    }
    out
}

/// The fixed-point log-frequency of bin `b`, exactly `bin_log_spec`.
fn bin_log(b: u64, rate: u32, window: usize) -> (r: i64)
    requires
        1 <= b < 0x8000_0000,
        1 <= rate < 0x8000_0000,
        1 <= window < 0x8000_0000,
    ensures
        r == bin_log_spec(b as int, rate as int, window as int),
{
    let lb = log2_fix(b);
    let lr = log2_fix(rate as u64);
    let lw = log2_fix(window as u64);
    lb as i64 + lr as i64 - lw as i64
}

/// Assigns each band its run of FFT bins.
///
/// Returns `n` half-open bin ranges, contiguous and in order, covering
/// exactly the bins (other than the zero-frequency bin) whose log-frequency
/// falls between the lowest and highest band boundary. A band whose segment
/// contains no bin center gets an empty range.
pub fn band_ranges(n: usize, rate: u32, window: usize) -> (r: Vec<(usize, usize)>)
    requires
        1 <= n <= MAX_BANDS,
        4096 <= rate < 0x8000_0000,
        2 <= window < 0x8000_0000,
    ensures
        r.len() == n,
        forall|i: int| 0 <= i < n ==> (#[trigger] r@[i]).0 <= r@[i].1 && r@[i].1 <= window / 2,
        forall|i: int| 0 <= i < n ==> 1 <= (#[trigger] r@[i]).0,
        forall|i: int| 0 <= i && i + 1 < n ==> (#[trigger] r@[i]).1 == r@[i + 1].0,
        forall|i: int, bb: int|
            #![trigger r@[i], bin_log_spec(bb, rate as int, window as int)]
            0 <= i < n && r@[i].0 <= bb < r@[i].1 ==>
                boundary_spec(i, n as int, rate as int)
                    <= bin_log_spec(bb, rate as int, window as int)
                    < boundary_spec(i + 1, n as int, rate as int),
        forall|bb: int| 1 <= bb < r@[0].0 ==>
            #[trigger] bin_log_spec(bb, rate as int, window as int)
                < boundary_spec(0, n as int, rate as int),
        r@[n - 1].1 == window / 2
            || bin_log_spec(r@[n - 1].1 as int, rate as int, window as int)
                >= boundary_spec(n as int, n as int, rate as int),
{
    let bounds = band_boundaries(n, rate);
    let half = window / 2;
    let mut out: Vec<(usize, usize)> = Vec::new();
    let mut b: usize = 1;
    let low = bounds[0];
    loop
        invariant
            1 <= b <= half,
            4096 <= rate < 0x8000_0000,
            2 <= window < 0x8000_0000,
            half == window / 2,
            low == boundary_spec(0, n as int, rate as int),
            forall|bb: int| 1 <= bb < b ==>
                #[trigger] bin_log_spec(bb, rate as int, window as int)
                    < boundary_spec(0, n as int, rate as int),
        ensures
            1 <= b <= half,
            b == half || bin_log_spec(b as int, rate as int, window as int)
                >= boundary_spec(0, n as int, rate as int),
            forall|bb: int| 1 <= bb < b ==>
                #[trigger] bin_log_spec(bb, rate as int, window as int)
                    < boundary_spec(0, n as int, rate as int),
        decreases half - b,
    {
        if b >= half {
            break;
        }
        let l = bin_log(b as u64, rate, window);
        if l >= low {
            break;
        }
        b += 1;
    }
    let first = b;
    let mut i: usize = 0;
    while i < n
        invariant
            i == 0 ==> b == first,
            i > 0 ==> out@[0].0 == first,
            forall|bb: int| 1 <= bb < first ==>
                #[trigger] bin_log_spec(bb, rate as int, window as int)
                    < boundary_spec(0, n as int, rate as int),
            1 <= n <= MAX_BANDS,
            4096 <= rate < 0x8000_0000,
            2 <= window < 0x8000_0000,
            half == window / 2,
            bounds.len() == n + 1,
            forall|j: int| 0 <= j <= n ==> #[trigger] bounds@[j] == boundary_spec(j, n as int, rate as int),
            i <= n,
            out.len() == i,
            1 <= b <= half,
            b >= half || bin_log_spec(b as int, rate as int, window as int)
                >= boundary_spec(i as int, n as int, rate as int),
            forall|j: int| 0 <= j < i ==> (#[trigger] out@[j]).0 <= out@[j].1 && out@[j].1 <= half,
            forall|j: int| 0 <= j < i ==> 1 <= (#[trigger] out@[j]).0,
            forall|j: int| 0 <= j && j + 1 < i ==> (#[trigger] out@[j]).1 == out@[j + 1].0,
            i > 0 ==> out@[i - 1].1 == b,
            forall|j: int, bb: int|
                #![trigger out@[j], bin_log_spec(bb, rate as int, window as int)]
                0 <= j < i && out@[j].0 <= bb < out@[j].1 ==>
                    boundary_spec(j, n as int, rate as int)
                        <= bin_log_spec(bb, rate as int, window as int)
                        < boundary_spec(j + 1, n as int, rate as int),
        decreases n - i,
    {
        let start = b;
        let high = bounds[i + 1];
        proof {
            assert(i > 0 ==> out@[i as int - 1].1 == start);
        }
        loop
            invariant
                1 <= n <= MAX_BANDS,
                4096 <= rate < 0x8000_0000,
                2 <= window < 0x8000_0000,
                half == window / 2,
                0 <= i < n,
                1 <= start <= half,
                start == half || bin_log_spec(start as int, rate as int, window as int)
                    >= boundary_spec(i as int, n as int, rate as int),
                high == boundary_spec(i + 1, n as int, rate as int),
                start <= b <= half,
                forall|bb: int| start <= bb < b ==>
                    boundary_spec(i as int, n as int, rate as int)
                        <= #[trigger] bin_log_spec(bb, rate as int, window as int)
                        < boundary_spec(i + 1, n as int, rate as int),
            ensures
                start <= b <= half,
                b >= half || bin_log_spec(b as int, rate as int, window as int)
                    >= boundary_spec(i + 1, n as int, rate as int),
                forall|bb: int| start <= bb < b ==>
                    boundary_spec(i as int, n as int, rate as int)
                        <= #[trigger] bin_log_spec(bb, rate as int, window as int)
                        < boundary_spec(i + 1, n as int, rate as int),
            decreases half - b,
        {
            if b >= half {
                break;
            }
            let l = bin_log(b as u64, rate, window);
            if l >= high {
                break;
            }
            proof {
                lemma_log2_fix_monotone(start as int, b as int);
            }
            b += 1;
        }
        out.push((start, b));
        proof {
            assert(out@[i as int] == (start, b));
            assert forall|j: int| 0 <= j && j + 1 < i + 1 implies (#[trigger] out@[j]).1 == out@[j + 1].0 by {
                if j + 1 == i {
                    assert(out@[j].1 == start);
                }
            };
        }
        i += 1;
    }
    out
}

/// The sum of the magnitudes of bins `lo` (inclusive) to `hi` (exclusive).
pub open spec fn sum_range_spec(mags: Seq<u64>, lo: int, hi: int) -> int
    decreases hi - lo,
{
    if lo >= hi {
        0
    } else {
        mags[hi - 1] + sum_range_spec(mags, lo, hi - 1)
    }
}

proof fn lemma_sum_range_bound(mags: Seq<u64>, lo: int, hi: int, cap: int)
    requires
        0 <= lo <= hi <= mags.len(),
        forall|k: int| 0 <= k < mags.len() ==> #[trigger] mags[k] <= cap,
        0 <= cap,
    ensures
        0 <= sum_range_spec(mags, lo, hi) <= (hi - lo) * cap,
    decreases hi - lo,
{
    if lo < hi {
        lemma_sum_range_bound(mags, lo, hi - 1, cap);
        assert((hi - lo) * cap == (hi - 1 - lo) * cap + cap) by (nonlinear_arith);
    }
}

/// The displayed value of band `i` of `n`: the average magnitude of its
/// bins, boosted by `(n + 2i) / n` (that is, `1 + 2i/n`) so the naturally
/// quieter high bands stay visible. A band with no bins reads zero.
pub open spec fn band_value_spec(mags: Seq<u64>, lo: int, hi: int, i: int, n: int) -> int {
    if lo < hi {
        ((sum_range_spec(mags, lo, hi) / (hi - lo)) * (n + 2 * i)) / n
    } else {
        0
    }
}

/// The raw (pre-smoothing) value of every band for one analysis frame.
#[verifier::loop_isolation(false)]
pub fn band_values(mags: &Vec<u64>, ranges: &Vec<(usize, usize)>) -> (r: Vec<u64>)
    requires
        1 <= ranges.len() <= MAX_BANDS,
        mags.len() <= 0x4000_0000,
        forall|i: int| 0 <= i < ranges.len() ==>
            (#[trigger] ranges@[i]).0 <= ranges@[i].1 && ranges@[i].1 <= mags.len(),
        forall|k: int| 0 <= k < mags.len() ==> #[trigger] mags@[k] <= MAG_LIMIT,
    ensures
        r.len() == ranges.len(),
        forall|i: int| 0 <= i < r.len() ==> #[trigger] r@[i] == band_value_spec(
            mags@,
            ranges@[i].0 as int,
            ranges@[i].1 as int,
            i,
            ranges.len() as int,
        ),
        forall|i: int| 0 <= i < r.len() ==> #[trigger] r@[i] <= BAND_LIMIT,
{
    let n = ranges.len();
    let mut out: Vec<u64> = Vec::new();
    let mut i: usize = 0;
    while i < n
        invariant
            i <= n,
            out.len() == i,
            forall|j: int| 0 <= j < i ==> #[trigger] out@[j] == band_value_spec(
                mags@,
                ranges@[j].0 as int,
                ranges@[j].1 as int,
                j,
                n as int,
            ),
            forall|j: int| 0 <= j < i ==> #[trigger] out@[j] <= BAND_LIMIT,
        decreases n - i,
    {
        let (lo, hi) = ranges[i];
        if lo < hi {
            let mut sum: u64 = 0;
            let mut k: usize = lo;
            while k < hi
                invariant
                    lo <= k <= hi,
                    sum == sum_range_spec(mags@, lo as int, k as int),
                    sum <= (k - lo) * (MAG_LIMIT as int),
                decreases hi - k,
            {
                proof {
                    lemma_sum_range_bound(mags@, lo as int, k + 1 as int, MAG_LIMIT as int);
                    assert((k + 1 - lo) * (MAG_LIMIT as int) <= 0x4000_0000 * (MAG_LIMIT as int))
                        by (nonlinear_arith)
                        requires k + 1 - lo <= 0x4000_0000;
                }
                sum = sum + mags[k];
                k += 1;
            }
            let cnt = (hi - lo) as u64;
            let avg = sum / cnt;
            proof {
                lemma_div_is_ordered(sum as int, (cnt as int) * (MAG_LIMIT as int), cnt as int);
                lemma_div_multiples_vanish(MAG_LIMIT as int, cnt as int);
            }
            let factor = (n + 2 * i) as u64;
            proof {
                assert((avg as int) * (factor as int) <= (avg as int) * (3 * n as int))
                    by (nonlinear_arith)
                    requires factor as int <= 3 * n as int, avg >= 0;
                assert((avg as int) * (3 * n as int) == (n as int) * (3 * avg as int))
                    by (nonlinear_arith);
                lemma_div_is_ordered(
                    (avg as int) * (factor as int),
                    (n as int) * (3 * avg as int),
                    n as int,
                );
                lemma_div_multiples_vanish(3 * avg as int, n as int);
                assert((avg as int) * (factor as int) >= 0) by (nonlinear_arith)
                    requires avg >= 0, factor >= 0;
                assert((avg as int) * (factor as int) <= 0x8000_0000int * 12288) by (nonlinear_arith)
                    requires 0 <= avg <= 0x8000_0000, 0 <= factor <= 12288;
            }
            let val = (avg * factor) / (n as u64);
            out.push(val);
        } else {
            out.push(0);
        }
        i += 1;
    }
    out
}

} // verus!
