//! The playback-monitoring decision of the lifecycle coordinator.
//!
//! While the render loop runs, the coordinator polls the playback sink at
//! a coarse interval. Each poll looks at whether the sink has drained and
//! whether cancellation was requested, and decides whether to keep
//! waiting, stop playback at once, or finish naturally. The shell performs
//! the chosen action and always joins the render loop before returning.

use vstd::prelude::*;

verus! {

/// What one monitoring poll does.
#[derive(PartialEq, Eq, Structural, Clone, Copy, Debug)]
pub enum MonitorStep {
    /// Audio is still playing and nobody cancelled: poll again later.
    Wait,
    /// Cancellation was requested: stop the sink now instead of letting
    /// it drain.
    StopPlayback,
    /// Playback drained on its own: nothing to stop, move on to joining
    /// the render loop.
    Done,
}

/// The decision table of the monitoring poll. Cancellation always wins
/// over a drained sink: the first setter of the flag is honored at once.
pub open spec fn monitor_spec(sink_empty: bool, cancelled: bool) -> MonitorStep {
    if cancelled {
        MonitorStep::StopPlayback
    } else if sink_empty {
        MonitorStep::Done
    } else {
        MonitorStep::Wait
    }
}

/// Decides what the current poll does: exactly `monitor_spec`.
pub fn monitor_action(sink_empty: bool, cancelled: bool) -> (step: MonitorStep)
    ensures
        step == monitor_spec(sink_empty, cancelled),
        step == MonitorStep::Wait <==> !sink_empty && !cancelled,
        step == MonitorStep::StopPlayback <==> cancelled,
        step == MonitorStep::Done <==> sink_empty && !cancelled,
{
    if cancelled {
        MonitorStep::StopPlayback
    } else if sink_empty {
        MonitorStep::Done
    } else {
        MonitorStep::Wait
    }
}

} // verus!
