//! Version 5 of the protocol: framing, authenticated records, replay defence, pairing codes.
pub mod cipher;
pub mod crypto;
pub mod laws;
pub mod replay;
pub mod sas;
pub mod wire;
pub use cipher::RecordCipher;
pub use replay::{ReplayWindow, REPLAY_WINDOW_BITS};
pub use sas::{
    connection_id, fill_random, prologue, random_outcome, sas_commit, sas_digest, sas_pattern,
    try_sas_pattern,
};
pub use wire::{
    decode_pair_envelope, decode_quality_reply, decode_record_header, decode_touch_payload,
    decode_touch_record, encode_control_payload, encode_pair_envelope, write_record_header,
    Direction, OpenedRecord, PairEnvelope, QualityReply, RecordHeader, TransportKind, WireError,
    CONTROL_PAYLOAD_SIZE, HOST_ACK, HOST_AUTH_ABORT, HOST_HELLO, HOST_MAGIC, HOST_PAIR_COMPLETE,
    HOST_PONG, HOST_QUALITY_PROBE, HOST_SAS_COMMITMENT, HOST_SAS_REVEAL, IK_CONTINUE, IK_MESSAGE_1,
    MAX_DATAGRAM_SIZE, NO_ACK, PAIR_ABORT, PAIR_CONTINUE, PAIR_HEADER_SIZE, PAIR_MAGIC, PAIR_OFFER,
    PAIR_PROBE, PHONE_AUTH_ABORT, PHONE_MAGIC, PHONE_PAIR_CONFIRM, PHONE_PING, PHONE_QUALITY_REPLY,
    PHONE_SAS_COMMITMENT, PHONE_SAS_REVEAL, PHONE_TOUCH, PROTOCOL_VERSION, QUALITY_REPAIR_ONLY,
    QUALITY_REPLY_SIZE, RECORD_HEADER_SIZE, TAG_SIZE, TOUCH_PAYLOAD_HEADER_SIZE, UDP_PORT,
    VALID_CONTACT_FLAGS, VALID_FRAME_FLAGS,
};
