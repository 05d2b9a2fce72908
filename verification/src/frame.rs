//! The per-frame decision of the render loop.
//!
//! Each tick the loop looks at the quit input, the cancellation flag, the
//! elapsed playback time, the terminal size and the sample history, and
//! decides what the frame does. The decision is a pure function of those
//! inputs; the shell only carries it out (sets the flag, draws, sleeps).

use vstd::prelude::*;

verus! {

use crate::layout::{
    MIN_TOTAL_WIDTH,
    MIN_TOTAL_HEIGHT,
    bands_for_width_spec,
    legends_for_width_spec,
    layout_for_width,
};

/// What one iteration of the render loop does.
#[derive(PartialEq, Eq, Structural, Clone, Copy, Debug)]
pub enum FrameStep {
    /// A quit key arrived: set the cancellation flag and leave the loop
    /// without drawing this frame.
    Quit,
    /// Playback has run its course, or cancellation was signalled
    /// elsewhere: leave the loop without touching the flag.
    Finish,
    /// The terminal is below the minimum size: draw only the size notice
    /// and skip all computation for this frame.
    TooSmall,
    /// The sample history has no full window yet: skip this frame and
    /// try again next tick.
    AwaitData,
    /// Draw a full frame with this many bands and legend segments,
    /// both derived from the current terminal width.
    Render { num_bands: usize, num_legends: usize },
}

/// The decision table of the render loop, in the order the checks run:
/// quit input first, then end-of-playback or cancellation, then the
/// terminal size, then data availability, and otherwise a full frame
/// laid out for the current width.
pub open spec fn plan_frame_spec(
    quit_requested: bool,
    cancelled: bool,
    elapsed_ms: int,
    total_ms: int,
    width: int,
    height: int,
    history_len: int,
    window: int,
) -> FrameStep {
    if quit_requested {
        FrameStep::Quit
    } else if cancelled || elapsed_ms >= total_ms {
        FrameStep::Finish
    } else if width < MIN_TOTAL_WIDTH as int || height < MIN_TOTAL_HEIGHT as int {
        FrameStep::TooSmall
    } else if history_len < window {
        FrameStep::AwaitData
    } else {
        FrameStep::Render {
            num_bands: bands_for_width_spec(width) as usize,
            num_legends: legends_for_width_spec(width) as usize,
        }
    }
}

/// Decides what the current frame does. Exactly `plan_frame_spec` on the
/// same inputs; a `Render` step always carries a workable layout.
pub fn plan_frame(
    quit_requested: bool,
    cancelled: bool,
    elapsed_ms: u64,
    total_ms: u64,
    width: u16,
    height: u16,
    history_len: usize,
    window: usize,
) -> (step: FrameStep)
    ensures
        step == plan_frame_spec(
            quit_requested,
            cancelled,
            elapsed_ms as int,
            total_ms as int,
            width as int,
            height as int,
            history_len as int,
            window as int,
        ),
        step matches FrameStep::Render { num_bands, num_legends } ==>
            76 <= num_bands <= 156 && 8 <= num_legends <= 16,
{
    if quit_requested {
        FrameStep::Quit
    } else if cancelled || elapsed_ms >= total_ms {
        FrameStep::Finish
    } else if width < MIN_TOTAL_WIDTH || height < MIN_TOTAL_HEIGHT {
        FrameStep::TooSmall
    } else if history_len < window {
        FrameStep::AwaitData
    } else {
        let (num_bands, num_legends) = layout_for_width(width);
        FrameStep::Render { num_bands, num_legends }
    }
}

/// Once the cancellation flag is set, the next frame decision leaves the
/// render loop, whatever else the frame would have shown: the loop exits
/// within one frame interval of the flag being raised.
pub proof fn lemma_cancellation_exits(
    quit_requested: bool,
    elapsed_ms: int,
    total_ms: int,
    width: int,
    height: int,
    history_len: int,
    window: int,
)
    ensures
        plan_frame_spec(quit_requested, true, elapsed_ms, total_ms, width, height, history_len, window)
            == FrameStep::Quit
        || plan_frame_spec(quit_requested, true, elapsed_ms, total_ms, width, height, history_len, window)
            == FrameStep::Finish,
{
}

/// A full frame derives its band count from the terminal width it was
/// planned at and nothing else: after a resize, the very next drawn frame
/// uses the layout of the new width.
pub proof fn lemma_width_drives_band_count(
    elapsed_ms: int,
    total_ms: int,
    width: int,
    height: int,
    history_len: int,
    window: int,
)
    requires
        elapsed_ms < total_ms,
        width >= MIN_TOTAL_WIDTH as int,
        height >= MIN_TOTAL_HEIGHT as int,
        history_len >= window,
    ensures
        plan_frame_spec(false, false, elapsed_ms, total_ms, width, height, history_len, window)
            == (FrameStep::Render {
                num_bands: bands_for_width_spec(width) as usize,
                num_legends: legends_for_width_spec(width) as usize,
            }),
{
}

} // verus!
