//! Core logic of a terminal audio-spectrum visualizer.
//!
//! The library holds the parts of the visualizer that compute: the bounded
//! sample history shared between playback and analysis, the logarithmic
//! partition of FFT bins into display bands, magnitude extraction, temporal
//! smoothing and normalization, the band-to-color gradient, the render-layout
//! arithmetic, and the per-frame and playback-monitoring decisions.
//!
//! Audio decoding, the audio device, the FFT itself (floating point) and the
//! terminal surface are external collaborators; a thin unverified shell feeds
//! their values in and out as plain integers.

pub mod color;
pub mod fixedlog;
pub mod history;
pub mod magnitude;
pub mod bands;
pub mod analyzer;
pub mod layout;
pub mod frame;
pub mod lifecycle;
