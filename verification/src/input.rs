//! Handing frames to the operating system, and giving up.
use crate::protocol::ordered::OrderedFrames;
use vstd::prelude::*;

verus! {

/// A sink that takes no frame for this long has stalled.
pub const SINK_STALL_MILLIS: u64 = 8;

/// What to do after a sink refused a frame.
#[derive(Clone, Copy, Debug, PartialEq, Eq, Structural)]
pub enum RetryStep {
    /// To offer the frame again.
    Retry,
    /// The controller is being stopped.
    Stopped,
    /// The sink has stalled.
    TimedOut,
}

/// Judges a refusal: stopping goes before the time limit.
pub fn after_refusal(stopping: bool, elapsed_millis: u64) -> (step: RetryStep)
    ensures
        step == if stopping {
            RetryStep::Stopped
        } else if elapsed_millis >= SINK_STALL_MILLIS {
            RetryStep::TimedOut
        } else {
            RetryStep::Retry
        },
{
    if stopping {
        RetryStep::Stopped
    } else if elapsed_millis >= SINK_STALL_MILLIS {
        RetryStep::TimedOut
    } else {
        RetryStep::Retry
    }
}

/// What to do after a sink failed to cancel.
#[derive(Clone, Copy, Debug, PartialEq, Eq, Structural)]
pub enum CancelStep {
    Retry,
    GiveUp,
}

pub fn after_failed_cancel(deadline_passed: bool) -> (step: CancelStep)
    ensures
        step == if deadline_passed {
            CancelStep::GiveUp
        } else {
            CancelStep::Retry
        },
{
    if deadline_passed {
        CancelStep::GiveUp
    } else {
        CancelStep::Retry
    }
}

/// What became of the frame that was offered.
#[derive(Clone, Copy, Debug, PartialEq, Eq, Structural)]
pub enum CommitStep {
    /// It is committed, and another is ready.
    Another,
    /// It is committed, and no other is ready.
    Finished,
    /// There was none: the frame that the sink took is not in the window.
    Missing,
}

/// Commits the frame that the sink has just taken.
pub fn commit_accepted(ordered: &mut OrderedFrames) -> (step: CommitStep)
    requires
        old(ordered).wf(),
    ensures
        final(ordered).wf(),
        final(ordered)@ == old(ordered)@.committed(),
        step == if old(ordered)@.ready() is None {
            CommitStep::Missing
        } else if old(ordered)@.committed().ready() is Some {
            CommitStep::Another
        } else {
            CommitStep::Finished
        },
{
    if !ordered.commit_ready() {
        return CommitStep::Missing;
    }
    if ordered.next_ready().is_some() {
        CommitStep::Another
    } else {
        CommitStep::Finished
    }
}

} // verus!
