//! The shared sample history: a bounded buffer of the most recent audio
//! samples, written at audio rate by the sample tap and read at frame rate
//! by the spectrum analyzer.
//!
//! Samples are fixed-point amplitudes; the shell that feeds the buffer picks
//! the scale. The buffer never holds more than twice its window size: when an
//! append would exceed that, the oldest window of samples is dropped in one
//! bulk operation, so the amortized cost of trimming stays constant.

use vstd::prelude::*;

verus! {

pub struct SampleHistory {
    window: usize,
    samples: Vec<i64>,
}

impl View for SampleHistory {
    type V = Seq<i64>;

    closed spec fn view(&self) -> Seq<i64> {
        self.samples@
    }
}

impl SampleHistory {
    /// The configured window size: how many samples one analysis frame reads.
    pub closed spec fn window_size(&self) -> int {
        self.window as int
    }

    /// The buffer is well formed: a positive window, and at rest it never
    /// holds more than twice the window size.
    pub open spec fn wf(&self) -> bool {
        1 <= self.window_size() && self@.len() <= 2 * self.window_size()
    }

    pub fn new(window: usize) -> (h: Self)
        requires
            1 <= window,
        ensures
            h.wf(),
            h.window_size() == window,
            h@ == Seq::<i64>::empty(),
    {
        SampleHistory { window, samples: Vec::new() }
    }

    /// How many samples the buffer currently holds.
    pub fn len(&self) -> (n: usize)
        ensures
            n == self@.len(),
    {
        self.samples.len()
    }

    /// Adds one sample at the newest end. When the buffer would grow past
    /// twice the window size, the oldest window of samples is dropped in
    /// bulk first, so the bound `len <= 2 * window` always holds at rest.
    pub fn append(&mut self, sample: i64)
        requires
            old(self).wf(),
        ensures
            final(self).wf(),
            final(self).window_size() == old(self).window_size(),
            final(self)@ == if old(self)@.len() + 1 > 2 * old(self).window_size() {
                old(self)@.push(sample).skip(old(self).window_size())
            } else {
                old(self)@.push(sample)
            },
    {
        self.samples.push(sample);
        let len = self.samples.len();
        if len > self.window && len - self.window > self.window {
            let kept = self.samples.split_off(self.window);
            self.samples = kept;
        }
    }

    /// The most recent `window` samples in chronological order, or `None`
    /// while fewer than a full window has been collected.
    pub fn snapshot(&self) -> (r: Option<Vec<i64>>)
        requires
            self.wf(),
        ensures
            match r {
                Some(w) => self@.len() >= self.window_size()
                    && w@ == self@.skip(self@.len() - self.window_size()),
                None => self@.len() < self.window_size(),
            },
    {
        if self.samples.len() < self.window {
            return None;
        }
        let start = self.samples.len() - self.window;
        let mut out: Vec<i64> = Vec::new();
        let mut i: usize = start;
        while i < self.samples.len()
            invariant
                start <= i <= self.samples.len(),
                self.samples.len() - self.window == start,
                self.window <= self.samples.len(),
                out@ == self.samples@.subrange(start as int, i as int),
            decreases self.samples.len() - i,
        {
            out.push(self.samples[i]);
            assert(out@ == self.samples@.subrange(start as int, i + 1 as int));
            i += 1;
        }
        assert(self.samples@.subrange(start as int, self.samples@.len() as int)
            == self.samples@.skip(start as int));
        Some(out)
    }
}

} // verus!
