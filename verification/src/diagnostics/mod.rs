//! Analysis of numeric diagnostic events, away from the input path.
pub mod analysis;
pub mod event;
pub mod incidents;
pub mod keys;
pub mod laws;
pub mod model;
pub mod report;
pub mod series;
pub mod sets;
pub mod verdicts;
pub use analysis::{Analysis, Incident};
pub use event::{
    Event, ACCEPT, ACK, BEGIN, BOUNDARY, CANCEL, DUPLICATE, GAP, INGRESS, RECEIVE, REJECT,
    SINK_FAILURE, STALL,
};
pub use model::{CONTEXT, MAX_EVIDENCE, MAX_INCIDENTS, QUIET_NS};
pub use keys::{Cause, Count, Measure};
pub use series::Series;
pub use sets::{CauseSet, FrameKeySet};
