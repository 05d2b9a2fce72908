//! Temporal smoothing and normalization of band values.
//!
//! The analyzer keeps one smoothed value per band across frames. Each new
//! frame of raw band values is folded in with an exponential moving
//! average (weight 3/10 on the new frame), and the smoothed values are
//! scaled to 0..=100 against the loudest band, with a floor of one whole
//! amplitude unit so silence divides safely and stays at zero.

use vstd::prelude::*;

verus! {

use vstd::arithmetic::div_mod::{lemma_div_is_ordered, lemma_div_multiples_vanish};
use crate::bands::{band_value_spec, band_values, BAND_LIMIT, MAX_BANDS};
use crate::magnitude::MAG_LIMIT;

/// The normalization divisor never drops below one amplitude unit
/// (1.0 in the 16-bit fixed-point scale of the magnitudes).
pub const AMP_FLOOR: u64 = 65536;

/// Exponential smoothing with weight 0.3 on the new frame:
/// `(7 * previous + 3 * raw) / 10`.
pub open spec fn smooth_spec(prev: int, raw: int) -> int {
    (7 * prev + 3 * raw) / 10
}

/// The normalization divisor for a frame: the loudest smoothed band, or
/// `AMP_FLOOR` if every band is quieter than that.
pub open spec fn peak_spec(s: Seq<u64>) -> int
    decreases s.len(),
{
    if s.len() == 0 {
        AMP_FLOOR as int
    } else {
        let rest = peak_spec(s.drop_last());
        if s.last() > rest {
            s.last() as int
        } else {
            rest
        }
    }
}

/// Band `i` of a frame on the displayable 0..=100 scale.
pub open spec fn norm_value_spec(s: Seq<u64>, i: int) -> int {
    (s[i] * 100) / peak_spec(s)
}

/// The divisor is at least the floor and at least every band.
pub proof fn lemma_peak_bounds(s: Seq<u64>)
    ensures
        peak_spec(s) >= AMP_FLOOR,
        forall|i: int| 0 <= i < s.len() ==> #[trigger] s[i] <= peak_spec(s),
    decreases s.len(),
{
    if s.len() > 0 {
        lemma_peak_bounds(s.drop_last());
        assert forall|i: int| 0 <= i < s.len() implies #[trigger] s[i] <= peak_spec(s) by {
            if i < s.len() - 1 {
                assert(s.drop_last()[i] == s[i]);
            }
        };
    }
}

/// A silent frame normalizes to zero in every band: the floor keeps the
/// division defined, and zero divided by it stays zero.
pub proof fn lemma_silence_normalizes_to_zero(s: Seq<u64>)
    requires
        forall|i: int| 0 <= i < s.len() ==> #[trigger] s[i] == 0,
    ensures
        forall|i: int| 0 <= i < s.len() ==> #[trigger] norm_value_spec(s, i) == 0,
{
    lemma_peak_bounds(s);
    assert forall|i: int| 0 <= i < s.len() implies #[trigger] norm_value_spec(s, i) == 0 by {
        assert(s[i] * 100 == 0);
        assert(0int / peak_spec(s) == 0);
    };
}

/// Per-band smoothing state. One value per display band, every value
/// bounded by `BAND_LIMIT`; the length is the current band count.
pub struct SpectrumAnalyzer {
    smoothed: Vec<u64>,
}

impl View for SpectrumAnalyzer {
    type V = Seq<u64>;

    closed spec fn view(&self) -> Seq<u64> {
        self.smoothed@
    }
}

impl SpectrumAnalyzer {
    pub open spec fn wf(&self) -> bool {
        1 <= self@.len()
        && forall|i: int| 0 <= i < self@.len() ==> #[trigger] self@[i] <= BAND_LIMIT
    }

    pub open spec fn band_count(&self) -> int {
        self@.len() as int
    }

    /// Fresh state for `n` bands, all silent.
    pub fn new(n: usize) -> (a: Self)
        requires
            1 <= n,
        ensures
            a.wf(),
            a.band_count() == n,
            forall|i: int| 0 <= i < n ==> #[trigger] a@[i] == 0,
    {
        let mut smoothed: Vec<u64> = Vec::new();
        let mut i: usize = 0;
        while i < n
            invariant
                i <= n,
                smoothed.len() == i,
                forall|j: int| 0 <= j < i ==> #[trigger] smoothed@[j] == 0,
            decreases n - i,
        {
            smoothed.push(0);
            i += 1;
        }
        SpectrumAnalyzer { smoothed }
    }

    /// Adapts the state to a new band count: bands that survive keep their
    /// smoothed value, new bands start silent, dropped bands disappear.
    pub fn resize(&mut self, n: usize)
        requires
            old(self).wf(),
            1 <= n,
        ensures
            final(self).wf(),
            final(self).band_count() == n,
            forall|i: int| 0 <= i < n && i < old(self)@.len() ==>
                #[trigger] final(self)@[i] == old(self)@[i],
            forall|i: int| old(self)@.len() <= i < n ==> #[trigger] final(self)@[i] == 0,
    {
        if n <= self.smoothed.len() {
            self.smoothed.truncate(n);
        } else {
            let ghost orig = self.smoothed@;
            while self.smoothed.len() < n
                invariant
                    orig.len() <= self.smoothed.len() <= n,
                    self.smoothed@.subrange(0, orig.len() as int) == orig,
                    forall|j: int| orig.len() <= j < self.smoothed.len() ==>
                        #[trigger] self.smoothed@[j] == 0,
                decreases n - self.smoothed.len(),
            {
                self.smoothed.push(0);
                assert(self.smoothed@.subrange(0, orig.len() as int) == orig);
            }
            assert forall|i: int| 0 <= i < orig.len() implies #[trigger] self.smoothed@[i] == orig[i] by {
                assert(self.smoothed@.subrange(0, orig.len() as int)[i] == self.smoothed@[i]);
            };
        }
    }

    /// Folds one frame of raw band values into the smoothed state:
    /// every band becomes `(7 * previous + 3 * raw) / 10`.
    pub fn absorb(&mut self, raw: &Vec<u64>)
        requires
            old(self).wf(),
            raw.len() == old(self)@.len(),
            forall|i: int| 0 <= i < raw.len() ==> #[trigger] raw@[i] <= BAND_LIMIT,
        ensures
            final(self).wf(),
            final(self).band_count() == old(self).band_count(),
            forall|i: int| 0 <= i < final(self)@.len() ==>
                #[trigger] final(self)@[i] == smooth_spec(old(self)@[i] as int, raw@[i] as int),
    {
        let n = self.smoothed.len();
        let mut next: Vec<u64> = Vec::new();
        let mut i: usize = 0;
        while i < n
            invariant
                i <= n,
                n == self.smoothed.len(),
                raw.len() == n,
                next.len() == i,
                self.wf(),
                forall|j: int| 0 <= j < raw.len() ==> #[trigger] raw@[j] <= BAND_LIMIT,
                forall|j: int| 0 <= j < i ==>
                    #[trigger] next@[j] == smooth_spec(self.smoothed@[j] as int, raw@[j] as int),
                forall|j: int| 0 <= j < i ==> #[trigger] next@[j] <= BAND_LIMIT,
            decreases n - i,
        {
            let prev = self.smoothed[i];
            let fresh = raw[i];
            let blended = (7 * prev + 3 * fresh) / 10;
            proof {
                lemma_div_is_ordered(
                    7 * (prev as int) + 3 * (fresh as int),
                    10 * (BAND_LIMIT as int),
                    10,
                );
                lemma_div_multiples_vanish(BAND_LIMIT as int, 10);
            }
            next.push(blended);
            i += 1;
        }
        self.smoothed = next;
    }

    /// One whole analysis frame: aggregates the bin magnitudes into raw
    /// band values, folds them into the smoothed state, and returns the
    /// display values — always exactly one per band, each within 0..=100.
    pub fn process_frame(&mut self, mags: &Vec<u64>, ranges: &Vec<(usize, usize)>) -> (shown: Vec<u64>)
        requires
            old(self).wf(),
            ranges.len() == old(self)@.len(),
            ranges.len() <= MAX_BANDS,
            mags.len() <= 0x4000_0000,
            forall|i: int| 0 <= i < ranges.len() ==>
                (#[trigger] ranges@[i]).0 <= ranges@[i].1 && ranges@[i].1 <= mags.len(),
            forall|k: int| 0 <= k < mags.len() ==> #[trigger] mags@[k] <= MAG_LIMIT,
        ensures
            final(self).wf(),
            final(self).band_count() == old(self).band_count(),
            forall|i: int| 0 <= i < final(self)@.len() ==> #[trigger] final(self)@[i]
                == smooth_spec(
                    old(self)@[i] as int,
                    band_value_spec(mags@, ranges@[i].0 as int, ranges@[i].1 as int, i, ranges.len() as int),
                ),
            shown.len() == old(self).band_count(),
            forall|i: int| 0 <= i < shown.len() ==> #[trigger] shown@[i]
                == norm_value_spec(final(self)@, i),
            forall|i: int| 0 <= i < shown.len() ==> #[trigger] shown@[i] <= 100,
    {
        let raw = band_values(mags, ranges);
        self.absorb(&raw);
        self.normalized()
    }

    /// The current frame on the display scale: band `i` reads
    /// `smoothed[i] * 100 / peak`, which always lands in 0..=100.
    pub fn normalized(&self) -> (r: Vec<u64>)
        requires
            self.wf(),
        ensures
            r.len() == self@.len(),
            forall|i: int| 0 <= i < r.len() ==> #[trigger] r@[i] == norm_value_spec(self@, i),
            forall|i: int| 0 <= i < r.len() ==> #[trigger] r@[i] <= 100,
    {
        proof {
            lemma_peak_bounds(self@);
        }
        let n = self.smoothed.len();
        let mut m: u64 = AMP_FLOOR;
        let mut i: usize = 0;
        while i < n
            invariant
                i <= n,
                n == self.smoothed.len(),
                self.wf(),
                m == peak_spec(self.smoothed@.take(i as int)),
                AMP_FLOOR <= m <= BAND_LIMIT,
            decreases n - i,
        {
            let v = self.smoothed[i];
            proof {
                assert(self.smoothed@.take(i + 1 as int).drop_last() =~= self.smoothed@.take(i as int));
                assert(self.smoothed@.take(i + 1 as int).last() == self.smoothed@[i as int]);
            }
            if v > m {
                m = v;
            }
            i += 1;
        }
        proof {
            assert(self.smoothed@.take(n as int) =~= self.smoothed@);
        }
        let mut out: Vec<u64> = Vec::new();
        let mut k: usize = 0;
        while k < n
            invariant
                k <= n,
                n == self.smoothed.len(),
                self.wf(),
                m == peak_spec(self.smoothed@),
                AMP_FLOOR <= m,
                out.len() == k,
                forall|j: int| 0 <= j < k ==> #[trigger] out@[j] == norm_value_spec(self.smoothed@, j),
                forall|j: int| 0 <= j < k ==> #[trigger] out@[j] <= 100,
            decreases n - k,
        {
            let v = self.smoothed[k];
            proof {
                lemma_peak_bounds(self.smoothed@);
                assert(v <= m);
                lemma_div_is_ordered(100 * (v as int), 100 * (m as int), m as int);
                lemma_div_multiples_vanish(100, m as int);
            }
            let scaled = (v * 100) / m;
            out.push(scaled);
            k += 1;
        }
        out
    }
}

} // verus!
