//! The decisions of the host program.
pub mod options;
pub mod run;
pub mod session;
pub mod status;
pub use options::{parse_options, Budget, Invocation, Mode, Options, OptionsError, Platform};
pub use session::{idle_peer_timed_out, Arrival, ControlState, Reply, Watch};
pub use status::{HostPhase, PairCommand, PairEvent, StatusReporter};
pub use run::{Outcome, Plan, Stage, Verdict};
