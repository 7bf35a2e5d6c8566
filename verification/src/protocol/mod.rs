//! Version 4 of the touch protocol: frames, control records, discovery.
pub mod discovery;
pub mod frame;
pub mod laws;
pub mod ordered;
pub use crate::crc::crc32;
pub use discovery::{
    decode_discovery, discovery_port_acceptable, encode_control, encode_discovery,
    DiscoveryMessage, CONTROL_ACK, CONTROL_HELLO, CONTROL_MAGIC, CONTROL_SIZE, DISCOVERY_ACK,
    DISCOVERY_HELLO, DISCOVERY_MAGIC, DISCOVERY_SIZE, DISCOVERY_VERSION,
};
pub use frame::{
    decode_frame, Contact, Contacts, FrameParser, ProtocolError, TouchFrame, ACTION_CANCEL,
    ACTION_DOWN, ACTION_HEARTBEAT, ACTION_MOVE, ACTION_UP, CONTACT_FLAG_INSIDE, CONTACT_FLAG_TIP,
    CONTACT_SIZE, CRC_SIZE, FRAME_FLAG_HISTORICAL, FRAME_FLAG_LOCKED, FRAME_FLAG_SESSION_START,
    FRAME_HEADER_SIZE, FRAME_MAGIC, MAX_CONTACTS, MAX_FRAME_SIZE, MESSAGE_TOUCH_FRAME,
    PROTOCOL_VERSION,
};
pub use ordered::{OrderedFrames, MAX_REORDERED_FRAMES};
