//! The host side of a phone used as a touch controller.
pub mod bytes;
pub mod crc;
pub mod credentials;
pub mod diagnostics;
pub mod host;
pub mod input;
pub mod keyboard;
pub mod launcher;
pub mod metrics;
pub mod network;
pub mod probe;
pub mod protocol;
pub mod tether;
pub mod text;
pub mod touch;
pub mod usb;
pub mod v5;
