//! Control records of the host, and the messages by which the two sides find each other.
use crate::bytes;
use crate::bytes::{
    has_prefix, push_bytes, push_u16, push_u32, push_u64, read_u16, read_u32, read_u64, to_array,
};
use crate::crc;
use crate::crc::crc32;
use crate::protocol::frame::PROTOCOL_VERSION;
use vstd::prelude::*;

verus! {

/// `HPA4`.
pub const CONTROL_MAGIC: [u8; 4] = [0x48, 0x50, 0x41, 0x34];

/// `HPTD`.
pub const DISCOVERY_MAGIC: [u8; 4] = [0x48, 0x50, 0x54, 0x44];

pub const DISCOVERY_VERSION: u8 = 1;

pub const DISCOVERY_HELLO: u8 = 1;

pub const DISCOVERY_ACK: u8 = 2;

pub const CONTROL_HELLO: u8 = 1;

pub const CONTROL_ACK: u8 = 2;

pub const CONTROL_SIZE: usize = 40;

pub const DISCOVERY_SIZE: usize = 32;

#[derive(Clone, Copy, Debug, PartialEq, Eq)]
pub struct DiscoveryMessage {
    pub kind: u8,
    pub nonce: u64,
    pub session_id: u64,
    pub port: u16,
}

/// A message followed by its checksum.
pub open spec fn sealed(message: Seq<u8>) -> Seq<u8> {
    message + bytes::le_bytes(crc::checksum(message) as nat, 4)
}

/// The sequence of an acknowledgement on the wire: nothing acknowledged is the greatest
/// number.
pub open spec fn wire_sequence(acknowledged: Option<u64>) -> u64 {
    match acknowledged {
        Some(sequence) => sequence,
        None => u64::MAX,
    }
}

pub open spec fn control_fields(
    control_type: u8,
    lane_count: u8,
    session_id: u64,
    acknowledged_sequence: Option<u64>,
    receive_window: u32,
    host_send_nanos: u64,
) -> Seq<u8> {
    CONTROL_MAGIC@ + seq![PROTOCOL_VERSION, control_type] + bytes::le_bytes(lane_count as nat, 2)
        + bytes::le_bytes(session_id as nat, 8) + bytes::le_bytes(
        wire_sequence(acknowledged_sequence) as nat,
        8,
    ) + bytes::le_bytes(receive_window as nat, 4) + bytes::le_bytes(host_send_nanos as nat, 8)
}

pub open spec fn discovery_fields(kind: u8, nonce: u64, session_id: u64, port: u16) -> Seq<u8> {
    DISCOVERY_MAGIC@ + seq![DISCOVERY_VERSION, kind, 0u8, 0u8] + bytes::le_bytes(nonce as nat, 8)
        + bytes::le_bytes(session_id as nat, 8) + bytes::le_bytes(port as nat, 2) + seq![0u8, 0u8]
}

/// The discovery message in a datagram.
pub open spec fn discovery_of(bytes: Seq<u8>) -> Option<DiscoveryMessage> {
    if bytes.len() == DISCOVERY_SIZE && bytes.subrange(0, 4) == DISCOVERY_MAGIC@ && bytes[4]
        == DISCOVERY_VERSION && (bytes[5] == DISCOVERY_HELLO || bytes[5] == DISCOVERY_ACK)
        && bytes::field(bytes, 28, 4) == crc::checksum(bytes.subrange(0, 28)) {
        Some(
            DiscoveryMessage {
                kind: bytes[5],
                nonce: bytes::field(bytes, 8, 8) as u64,
                session_id: bytes::field(bytes, 16, 8) as u64,
                port: bytes::field(bytes, 24, 2) as u16,
            },
        )
    } else {
        None
    }
}

pub fn encode_control(
    control_type: u8,
    lane_count: u8,
    session_id: u64,
    acknowledged_sequence: Option<u64>,
    receive_window: u32,
    host_send_nanos: u64,
) -> (record: [u8; 40])
    ensures
        record@ == sealed(
            control_fields(
                control_type,
                lane_count,
                session_id,
                acknowledged_sequence,
                receive_window,
                host_send_nanos,
            ),
        ),
{
    let acknowledged: u64 = match acknowledged_sequence {
        Some(sequence) => sequence,
        None => u64::MAX,
    };
    let mut record: Vec<u8> = Vec::new();
    push_bytes(&mut record, &CONTROL_MAGIC);
    record.push(PROTOCOL_VERSION);
    record.push(control_type);
    push_u16(&mut record, lane_count as u16);
    push_u64(&mut record, session_id);
    push_u64(&mut record, acknowledged);
    push_u32(&mut record, receive_window);
    push_u64(&mut record, host_send_nanos);
    assert(record@ =~= control_fields(
        control_type,
        lane_count,
        session_id,
        acknowledged_sequence,
        receive_window,
        host_send_nanos,
    ));
    let sum: u32 = crc32(record.as_slice());
    push_u32(&mut record, sum);
    proof {
        field_widths();
    }
    to_array::<40>(record.as_slice())
}

pub fn encode_discovery(kind: u8, nonce: u64, session_id: u64, port: u16) -> (message: [u8; 32])
    ensures
        message@ == sealed(discovery_fields(kind, nonce, session_id, port)),
{
    let mut message: Vec<u8> = Vec::new();
    push_bytes(&mut message, &DISCOVERY_MAGIC);
    message.push(DISCOVERY_VERSION);
    message.push(kind);
    message.push(0);
    message.push(0);
    push_u64(&mut message, nonce);
    push_u64(&mut message, session_id);
    push_u16(&mut message, port);
    message.push(0);
    message.push(0);
    assert(message@ =~= discovery_fields(kind, nonce, session_id, port));
    let sum: u32 = crc32(message.as_slice());
    push_u32(&mut message, sum);
    proof {
        field_widths();
    }
    to_array::<32>(message.as_slice())
}

pub fn discovery_port_acceptable(advertised_port: u16, listening_port: u16) -> (acceptable: bool)
    ensures
        acceptable == (advertised_port == 0 || advertised_port == listening_port),
{
    advertised_port == 0 || advertised_port == listening_port
}

pub fn decode_discovery(bytes: &[u8]) -> (message: Option<DiscoveryMessage>)
    ensures
        message == discovery_of(bytes@),
{
    if bytes.len() != DISCOVERY_SIZE || !has_prefix(bytes, &DISCOVERY_MAGIC) || bytes[4]
        != DISCOVERY_VERSION || (bytes[5] != DISCOVERY_HELLO && bytes[5] != DISCOVERY_ACK)
        || read_u32(bytes, 28) != crc32(&bytes[0..28]) {
        return None;
    }
    Some(
        DiscoveryMessage {
            kind: bytes[5],
            nonce: read_u64(bytes, 8),
            session_id: read_u64(bytes, 16),
            port: read_u16(bytes, 24),
        },
    )
}

proof fn field_widths()
    ensures
        forall|n: nat| (#[trigger] bytes::le_bytes(n, 2)).len() == 2,
        forall|n: nat| (#[trigger] bytes::le_bytes(n, 4)).len() == 4,
        forall|n: nat| (#[trigger] bytes::le_bytes(n, 8)).len() == 8,
{
    assert forall|n: nat| (#[trigger] bytes::le_bytes(n, 2)).len() == 2 by {
        bytes::le_bytes_width(n, 2);
    }
    assert forall|n: nat| (#[trigger] bytes::le_bytes(n, 4)).len() == 4 by {
        bytes::le_bytes_width(n, 4);
    }
    assert forall|n: nat| (#[trigger] bytes::le_bytes(n, 8)).len() == 8 by {
        bytes::le_bytes_width(n, 8);
    }
}

/// Every hello and every acknowledgement that is encoded is decoded to what it says.
pub proof fn discovery_round_trip(kind: u8, nonce: u64, session_id: u64, port: u16)
    requires
        kind == DISCOVERY_HELLO || kind == DISCOVERY_ACK,
    ensures
        discovery_of(sealed(discovery_fields(kind, nonce, session_id, port))) == Some(
            DiscoveryMessage { kind, nonce, session_id, port },
        ),
{
    field_widths();
    bytes::byte_ranges();
    let fields = discovery_fields(kind, nonce, session_id, port);
    let message = sealed(fields);
    let head = DISCOVERY_MAGIC@ + seq![DISCOVERY_VERSION, kind, 0u8, 0u8];
    let n = bytes::le_bytes(nonce as nat, 8);
    let s = bytes::le_bytes(session_id as nat, 8);
    let p = bytes::le_bytes(port as nat, 2);
    let sum = bytes::le_bytes(crc::checksum(fields) as nat, 4);
    assert(message.subrange(0, 4) =~= DISCOVERY_MAGIC@);
    assert(message.subrange(0, 28) =~= fields);
    assert(message =~= head + n + (s + p + seq![0u8, 0u8] + sum));
    bytes::field_of_concat(head, nonce as nat, 8, s + p + seq![0u8, 0u8] + sum);
    assert(message =~= (head + n) + s + (p + seq![0u8, 0u8] + sum));
    bytes::field_of_concat(head + n, session_id as nat, 8, p + seq![0u8, 0u8] + sum);
    assert(message =~= (head + n + s) + p + (seq![0u8, 0u8] + sum));
    bytes::field_of_concat(head + n + s, port as nat, 2, seq![0u8, 0u8] + sum);
    assert(message =~= fields + sum + Seq::<u8>::empty());
    bytes::field_of_concat(fields, crc::checksum(fields) as nat, 4, Seq::<u8>::empty());
}

/// A discovery message with one byte changed is never decoded.
pub proof fn one_changed_byte_is_rejected(bytes: Seq<u8>, at: int, other: u8)
    requires
        discovery_of(bytes) is Some,
        0 <= at < bytes.len(),
        other != bytes[at],
    ensures
        discovery_of(bytes.update(at, other)) is None,
{
    let changed = bytes.update(at, other);
    let before = bytes.subrange(0, 28);
    let after = changed.subrange(0, 28);
    let stored = bytes.subrange(28, 32);
    let restored = changed.subrange(28, 32);
    crate::bytes::byte_ranges();
    crate::bytes::field_bounds(bytes, 28, 4);
    crate::bytes::field_bounds(changed, 28, 4);
    if at < 28 {
        assert(after =~= before.update(at, other));
        crc::one_byte_changes_checksum(before, at, other);
        assert(restored =~= stored);
    } else {
        assert(after =~= before);
        assert(restored[at - 28] != stored[at - 28]);
    }
}

} // verus!
