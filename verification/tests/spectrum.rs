use gruvberry::analyzer::SpectrumAnalyzer;
use gruvberry::bands::{band_boundaries, band_ranges, band_values};
use gruvberry::fixedlog::{exp2_fix, log2_fix};
use gruvberry::frame::{plan_frame, FrameStep};
use gruvberry::history::SampleHistory;
use gruvberry::lifecycle::{monitor_action, MonitorStep};
use gruvberry::magnitude::bin_magnitudes;

use rustfft::num_complex::Complex;
use rustfft::FftPlanner;

/// Fixed-point scale used by the tests for samples and magnitudes: 1.0
/// becomes 65536.
const SCALE: f32 = 65536.0;

#[test]
fn log_is_exact_on_powers_of_two() {
    assert_eq!(log2_fix(1), 0);
    assert_eq!(log2_fix(2), 65536);
    assert_eq!(log2_fix(1024), 10 * 65536);
    assert_eq!(exp2_fix(10 * 65536), 1024);
}

#[test]
fn log_and_exp_are_monotone() {
    let mut prev = log2_fix(16);
    for x in 17..2000u64 {
        let l = log2_fix(x);
        assert!(l >= prev);
        prev = l;
    }
    let mut prev_e = exp2_fix(0);
    for l in (0..20 * 65536u64).step_by(4096) {
        let e = exp2_fix(l);
        assert!(e >= prev_e);
        prev_e = e;
    }
}

#[test]
fn boundaries_increase_strictly() {
    let bounds = band_boundaries(60, 44100);
    assert_eq!(bounds.len(), 61);
    for i in 0..60 {
        assert!(bounds[i] < bounds[i + 1]);
    }
    // The range starts at 20 Hz and ends at the Nyquist frequency.
    let lowest = exp2_fix(bounds[0] as u64);
    assert!((19..=20).contains(&lowest));
    let highest = exp2_fix(bounds[60] as u64);
    assert!((21800..=22050).contains(&highest));
}

#[test]
fn ranges_are_contiguous_and_inside_the_spectrum() {
    for n in [1usize, 8, 60, 156] {
        let ranges = band_ranges(n, 44100, 1024);
        assert_eq!(ranges.len(), n);
        for i in 0..n {
            let (lo, hi) = ranges[i];
            assert!(lo <= hi);
            assert!(hi <= 512);
            assert!(lo >= 1);
            if i + 1 < n {
                assert_eq!(hi, ranges[i + 1].0);
            }
        }
    }
}

#[test]
fn band_values_average_and_boost() {
    let mags = vec![10u64, 20, 30, 40];
    let ranges = vec![(0usize, 2usize), (2, 4)];
    let values = band_values(&mags, &ranges);
    // Band 0: average 15, boost (2 + 0)/2 = 1. Band 1: average 35,
    // boost (2 + 2)/2 = 2.
    assert_eq!(values, vec![15, 70]);
}

#[test]
fn empty_band_reads_zero() {
    let mags = vec![50u64, 50];
    let ranges = vec![(0usize, 2usize), (2, 2)];
    assert_eq!(band_values(&mags, &ranges), vec![50, 0]);
}

#[test]
fn smoothing_blends_seven_to_three() {
    let mut a = SpectrumAnalyzer::new(2);
    a.absorb(&vec![100, 50]);
    assert_eq!(a.normalized().len(), 2);
    a.resize(2);
    let raw = vec![6_553_600u64, 3_276_800];
    let mut b = SpectrumAnalyzer::new(2);
    b.absorb(&raw);
    // From silence: (7 * 0 + 3 * raw) / 10.
    let shown = b.normalized();
    assert_eq!(shown, vec![100, 50]);
}

#[test]
fn resize_preserves_surviving_bands() {
    let mut a = SpectrumAnalyzer::new(3);
    a.absorb(&vec![1_000_000, 2_000_000, 3_000_000]);
    let before = a.normalized();
    a.resize(5);
    let grown = a.normalized();
    assert_eq!(grown.len(), 5);
    assert_eq!(&grown[..2], &before[..2]);
    assert_eq!(grown[3], 0);
    assert_eq!(grown[4], 0);
    a.resize(2);
    let shrunk = a.normalized();
    assert_eq!(shrunk.len(), 2);
}

#[test]
fn process_frame_yields_one_value_per_band_in_range() {
    for n in [1usize, 8, 60, 156] {
        let mut a = SpectrumAnalyzer::new(n);
        let ranges = band_ranges(n, 44100, 1024);
        let mags: Vec<u64> = (0..512u64).map(|b| b * 1000).collect();
        let shown = a.process_frame(&mags, &ranges);
        assert_eq!(shown.len(), n);
        for v in shown {
            assert!(v <= 100);
        }
    }
}

#[test]
fn silence_normalizes_to_zero() {
    let mut a = SpectrumAnalyzer::new(76);
    let ranges = band_ranges(76, 44100, 1024);
    let mags = vec![0u64; 512];
    let raw = band_values(&mags, &ranges);
    a.absorb(&raw);
    let shown = a.normalized();
    assert_eq!(shown.len(), 76);
    for v in shown {
        assert_eq!(v, 0);
    }
}

/// Runs a window of fixed-point samples through the real FFT and the
/// verified pipeline, returning the normalized band display.
fn analyze_window(samples: &[i64], n: usize, rate: u32, a: &mut SpectrumAnalyzer) -> Vec<u64> {
    let window = samples.len();
    let mut buf: Vec<Complex<f32>> = samples
        .iter()
        .map(|&s| Complex { re: s as f32 / SCALE, im: 0.0 })
        .collect();
    let mut planner = FftPlanner::new();
    let fft = planner.plan_fft_forward(window);
    fft.process(&mut buf);
    let spectrum: Vec<(i64, i64)> = buf
        .iter()
        .map(|c| ((c.re * SCALE) as i64, (c.im * SCALE) as i64))
        .collect();
    let mags = bin_magnitudes(&spectrum, window / 2);
    let ranges = band_ranges(n, rate, window);
    let raw = band_values(&mags, &ranges);
    a.absorb(&raw);
    a.normalized()
}

#[test]
fn sine_peaks_in_the_band_holding_its_frequency() {
    let rate: u32 = 44100;
    let window: usize = 1024;
    let freq: f32 = 1000.0;
    let samples: Vec<i64> = (0..window)
        .map(|t| {
            let x = (2.0 * std::f32::consts::PI * freq * t as f32 / rate as f32).sin();
            (x * SCALE) as i64
        })
        .collect();
    let n = 60;
    let mut a = SpectrumAnalyzer::new(n);
    let shown = analyze_window(&samples, n, rate, &mut a);
    let best = (0..n).max_by_key(|&i| shown[i]).unwrap();
    // The FFT bin nearest 1000 Hz is bin 23 (1000 / (44100 / 1024)).
    let ranges = band_ranges(n, rate, window);
    let (lo, hi) = ranges[best];
    assert!(
        lo <= 24 && 23 <= hi,
        "peak band {} covers bins {}..{}",
        best,
        lo,
        hi
    );
    assert_eq!(shown[best], 100);
}

#[test]
fn two_seconds_of_silence_terminate_naturally() {
    let rate: u32 = 44100;
    let window: usize = 1024;
    let total_ms: u64 = 2000;
    let mut history = SampleHistory::new(window);
    // The tap pushes every decoded sample into the shared history.
    for _ in 0..(2 * rate as usize) {
        history.append(0);
    }
    let mut a = SpectrumAnalyzer::new(76);
    let mut cancelled = false;
    let mut elapsed_ms: u64 = 0;
    let mut restores = 0u32;
    let mut frames = 0u64;
    loop {
        let step = plan_frame(false, cancelled, elapsed_ms, total_ms, 80, 24, history.len(), window);
        match step {
            FrameStep::Quit => {
                cancelled = true;
                restores += 1;
                break;
            }
            FrameStep::Finish => {
                restores += 1;
                break;
            }
            FrameStep::TooSmall | FrameStep::AwaitData => {}
            FrameStep::Render { num_bands, .. } => {
                let samples = history.snapshot().expect("history holds a full window");
                assert_eq!(samples.len(), window);
                assert!(samples.iter().all(|&s| s == 0));
                let shown = analyze_window(&samples, num_bands, rate, &mut a);
                assert_eq!(shown.len(), num_bands);
                assert!(shown.iter().all(|&v| v == 0));
                frames += 1;
            }
        }
        elapsed_ms += 16;
    }
    // The loop ended at two seconds, the flag was never raised, the
    // terminal was restored exactly once, and the sink reports drained.
    assert!(!cancelled);
    assert_eq!(elapsed_ms, 2000);
    assert!(frames > 100);
    assert_eq!(restores, 1);
    assert_eq!(monitor_action(true, cancelled), MonitorStep::Done);
}
