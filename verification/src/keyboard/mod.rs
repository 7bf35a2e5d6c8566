//! Lanes of keys under the fingers.
pub mod keys;
pub mod laws;
pub mod linux;
pub mod plan;
pub mod sink;
pub use keys::{linux_keycode, parse_virtual_key, validate_lane_keys, KeyError};
pub use plan::{lane_for, KeyChange, KeyboardState};
pub use sink::{KeyboardSink, SinkError, Step};
