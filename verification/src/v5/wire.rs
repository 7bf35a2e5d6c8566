//! Envelopes, record headers and payloads, as bytes.
use crate::bytes;
use crate::bytes::{
    has_prefix, push_bytes, push_u16, push_u32, push_u64, read_i16, read_u16, read_u32,
    read_u64, to_array,
};
use crate::protocol::frame;
use crate::protocol::frame::{
    is_known_action, read_contact, Contact, Contacts, FrameView, TouchFrame, ACTION_CANCEL,
    CONTACT_SIZE, FRAME_FLAG_SESSION_START, MAX_CONTACTS,
};
use crate::text;
use crate::text::{numbered, same_text};
use vstd::prelude::*;
use vstd::string::*;

verus! {

pub const PROTOCOL_VERSION: u8 = 5;

pub const UDP_PORT: u16 = 42_825;

/// `HPP5`.
pub const PAIR_MAGIC: [u8; 4] = [0x48, 0x50, 0x50, 0x35];

/// `HPT5`.
pub const PHONE_MAGIC: [u8; 4] = [0x48, 0x50, 0x54, 0x35];

/// `HPA5`.
pub const HOST_MAGIC: [u8; 4] = [0x48, 0x50, 0x41, 0x35];

pub const PAIR_HEADER_SIZE: usize = 32;

pub const RECORD_HEADER_SIZE: usize = 48;

pub const TAG_SIZE: usize = 16;

pub const MAX_DATAGRAM_SIZE: usize = 1200;

pub const TOUCH_PAYLOAD_HEADER_SIZE: usize = 44;

pub const CONTROL_PAYLOAD_SIZE: usize = 16;

pub const QUALITY_REPLY_SIZE: usize = 32;

pub const PAIR_PROBE: u8 = 1;

pub const PAIR_OFFER: u8 = 2;

pub const PAIR_CONTINUE: u8 = 3;

pub const PAIR_ABORT: u8 = 4;

pub const IK_MESSAGE_1: u8 = 5;

pub const IK_CONTINUE: u8 = 6;

pub const PHONE_TOUCH: u8 = 1;

pub const PHONE_QUALITY_REPLY: u8 = 2;

pub const PHONE_SAS_COMMITMENT: u8 = 3;

pub const PHONE_SAS_REVEAL: u8 = 4;

pub const PHONE_PAIR_CONFIRM: u8 = 5;

pub const PHONE_AUTH_ABORT: u8 = 6;

pub const PHONE_PING: u8 = 7;

pub const HOST_HELLO: u8 = 1;

pub const HOST_ACK: u8 = 2;

pub const HOST_QUALITY_PROBE: u8 = 3;

pub const HOST_SAS_COMMITMENT: u8 = 4;

pub const HOST_SAS_REVEAL: u8 = 5;

pub const HOST_PAIR_COMPLETE: u8 = 6;

pub const HOST_AUTH_ABORT: u8 = 7;

pub const HOST_PONG: u8 = 8;

pub const QUALITY_REPAIR_ONLY: u32 = 0x01;

pub const NO_ACK: u64 = u64::MAX;

/// Locked, session start, historical.
pub const VALID_FRAME_FLAGS: u8 = 0x07;

/// Inside, tip.
pub const VALID_CONTACT_FLAGS: u8 = 0x03;

#[derive(Clone, Copy, Debug, PartialEq, Eq)]
pub enum WireError {
    BadMagic,
    BadVersion(u8),
    BadSuite(u8),
    BadTransport(u8),
    BadLength(usize),
    ReservedBits,
    WrongConnection,
    Replay,
    BadTag,
    EncryptFailed,
    PacketNumberExhausted,
    HandshakeIncomplete,
    BadMessage,
    BadAction(u8),
    BadContactCount(usize),
    DuplicatePointer(u8),
    BadSessionStart,
    RandomUnavailable,
}

impl WireError {
    /// The text for a reader.
    pub open spec fn wording(self) -> Seq<char> {
        match self {
            WireError::BadMagic => "invalid v5 magic"@,
            WireError::BadVersion(version) => "unsupported protocol v"@ + text::decimal(
                version as nat,
            ),
            WireError::BadSuite(suite) => "unsupported v5 suite "@ + text::decimal(suite as nat),
            WireError::BadTransport(transport) => "invalid transport "@ + text::decimal(
                transport as nat,
            ),
            WireError::BadLength(length) => "invalid v5 datagram length "@ + text::decimal(
                length as nat,
            ),
            WireError::ReservedBits => "reserved v5 field is nonzero"@,
            WireError::WrongConnection => "record belongs to another connection"@,
            WireError::Replay => "replayed or expired packet number"@,
            WireError::BadTag => "v5 authentication tag failed"@,
            WireError::EncryptFailed => "v5 encryption failed"@,
            WireError::PacketNumberExhausted => "v5 packet number exhausted"@,
            WireError::HandshakeIncomplete => "Noise handshake is incomplete"@,
            WireError::BadMessage => "invalid v5 message for this record"@,
            WireError::BadAction(action) => "invalid touch action "@ + text::decimal(action as nat),
            WireError::BadContactCount(count) => "invalid contact count "@ + text::decimal(
                count as nat,
            ),
            WireError::DuplicatePointer(pointer) => "duplicate pointer "@ + text::decimal(
                pointer as nat,
            ),
            WireError::BadSessionStart => "invalid v5 session-start CANCEL"@,
            WireError::RandomUnavailable => "secure random source unavailable"@,
        }
    }

    pub fn message(&self) -> (message: String)
        ensures
            message@ == self.wording(),
    {
        match *self {
            WireError::BadMagic => "invalid v5 magic".to_owned(),
            WireError::BadVersion(version) => numbered("unsupported protocol v", version as u64),
            WireError::BadSuite(suite) => numbered("unsupported v5 suite ", suite as u64),
            WireError::BadTransport(transport) => numbered("invalid transport ", transport as u64),
            WireError::BadLength(length) => numbered("invalid v5 datagram length ", length as u64),
            WireError::ReservedBits => "reserved v5 field is nonzero".to_owned(),
            WireError::WrongConnection => "record belongs to another connection".to_owned(),
            WireError::Replay => "replayed or expired packet number".to_owned(),
            WireError::BadTag => "v5 authentication tag failed".to_owned(),
            WireError::EncryptFailed => "v5 encryption failed".to_owned(),
            WireError::PacketNumberExhausted => "v5 packet number exhausted".to_owned(),
            WireError::HandshakeIncomplete => "Noise handshake is incomplete".to_owned(),
            WireError::BadMessage => "invalid v5 message for this record".to_owned(),
            WireError::BadAction(action) => numbered("invalid touch action ", action as u64),
            WireError::BadContactCount(count) => numbered("invalid contact count ", count as u64),
            WireError::DuplicatePointer(pointer) => numbered("duplicate pointer ", pointer as u64),
            WireError::BadSessionStart => "invalid v5 session-start CANCEL".to_owned(),
            WireError::RandomUnavailable => "secure random source unavailable".to_owned(),
        }
    }
}

#[derive(Clone, Copy, Debug, PartialEq, Eq, Structural)]
pub enum TransportKind {
    Usb,
    Wifi,
}

impl TransportKind {
    /// The byte that stands for the transport.
    pub open spec fn byte(self) -> u8 {
        match self {
            TransportKind::Usb => 1,
            TransportKind::Wifi => 2,
        }
    }

    pub open spec fn of_byte(value: u8) -> Option<TransportKind> {
        if value == 1 {
            Some(TransportKind::Usb)
        } else if value == 2 {
            Some(TransportKind::Wifi)
        } else {
            None
        }
    }

    pub fn parse(value: &str) -> (kind: Option<TransportKind>)
        ensures
            kind == if value@ == "usb"@ {
                Some(TransportKind::Usb)
            } else if value@ == "wifi"@ {
                Some(TransportKind::Wifi)
            } else {
                None
            },
    {
        if same_text(value, "usb") {
            Some(TransportKind::Usb)
        } else if same_text(value, "wifi") {
            Some(TransportKind::Wifi)
        } else {
            None
        }
    }

    pub fn label(self) -> (label: &'static str)
        ensures
            label@ == match self {
                TransportKind::Usb => "USB"@,
                TransportKind::Wifi => "Wi-Fi / local network"@,
            },
    {
        match self {
            TransportKind::Usb => "USB",
            TransportKind::Wifi => "Wi-Fi / local network",
        }
    }

    pub fn to_byte(self) -> (value: u8)
        ensures
            value == self.byte(),
    {
        match self {
            TransportKind::Usb => 1,
            TransportKind::Wifi => 2,
        }
    }

    pub fn from_byte(value: u8) -> (result: Result<TransportKind, WireError>)
        ensures
            match result {
                Ok(kind) => TransportKind::of_byte(value) == Some(kind),
                Err(error) => TransportKind::of_byte(value) is None && error
                    == WireError::BadTransport(value),
            },
    {
        match value {
            1 => Ok(TransportKind::Usb),
            2 => Ok(TransportKind::Wifi),
            _ => Err(WireError::BadTransport(value)),
        }
    }
}

#[derive(Clone, Copy, Debug, PartialEq, Eq, Structural)]
pub enum Direction {
    PhoneToHost,
    HostToPhone,
}

impl Direction {
    pub open spec fn prefix(self) -> Seq<u8> {
        match self {
            Direction::PhoneToHost => PHONE_MAGIC@,
            Direction::HostToPhone => HOST_MAGIC@,
        }
    }

    pub fn magic(self) -> (magic: [u8; 4])
        ensures
            magic@ == self.prefix(),
    {
        match self {
            Direction::PhoneToHost => PHONE_MAGIC,
            Direction::HostToPhone => HOST_MAGIC,
        }
    }
}

#[derive(Clone, Copy, Debug, PartialEq, Eq)]
pub struct PairEnvelope<'a> {
    pub kind: u8,
    pub exchange_id: [u8; 16],
    pub step: u32,
    pub transport: TransportKind,
    pub payload: &'a [u8],
}

/// What an envelope says.
#[verifier::ext_equal]
pub struct EnvelopeView {
    pub kind: u8,
    pub exchange_id: Seq<u8>,
    pub step: u32,
    pub transport: TransportKind,
    pub payload: Seq<u8>,
}

impl<'a> View for PairEnvelope<'a> {
    type V = EnvelopeView;

    open spec fn view(&self) -> EnvelopeView {
        EnvelopeView {
            kind: self.kind,
            exchange_id: self.exchange_id@,
            step: self.step,
            transport: self.transport,
            payload: self.payload@,
        }
    }
}

pub open spec fn envelope_bytes(envelope: EnvelopeView) -> Seq<u8> {
    PAIR_MAGIC@ + seq![PROTOCOL_VERSION, envelope.kind] + bytes::le_bytes(
        (PAIR_HEADER_SIZE + envelope.payload.len()) as nat,
        2,
    ) + envelope.exchange_id + bytes::le_bytes(envelope.step as nat, 4) + bytes::le_bytes(
        envelope.payload.len(),
        2,
    ) + seq![envelope.transport.byte(), 1u8] + envelope.payload
}

/// The envelope in a datagram, or what is wrong with it.
pub open spec fn envelope_of(bytes: Seq<u8>) -> Result<EnvelopeView, WireError> {
    let declared = bytes::field(bytes, 6, 2);
    if bytes.len() < PAIR_HEADER_SIZE || bytes.len() > MAX_DATAGRAM_SIZE {
        Err(WireError::BadLength(bytes.len() as usize))
    } else if bytes.subrange(0, 4) != PAIR_MAGIC@ {
        Err(WireError::BadMagic)
    } else if bytes[4] != PROTOCOL_VERSION {
        Err(WireError::BadVersion(bytes[4]))
    } else if declared != bytes.len() || PAIR_HEADER_SIZE + bytes::field(bytes, 28, 2)
        != bytes.len() {
        Err(WireError::BadLength(declared as usize))
    } else if bytes[31] != 1 {
        Err(WireError::BadSuite(bytes[31]))
    } else {
        match TransportKind::of_byte(bytes[30]) {
            None => Err(WireError::BadTransport(bytes[30])),
            Some(transport) => Ok(
                EnvelopeView {
                    kind: bytes[5],
                    exchange_id: bytes.subrange(8, 24),
                    step: bytes::field(bytes, 24, 4) as u32,
                    transport,
                    payload: bytes.subrange(PAIR_HEADER_SIZE as int, bytes.len() as int),
                },
            ),
        }
    }
}

pub fn encode_pair_envelope(
    kind: u8,
    exchange_id: [u8; 16],
    step: u32,
    transport: TransportKind,
    payload: &[u8],
) -> (result: Result<Vec<u8>, WireError>)
    ensures
        match result {
            Ok(bytes) => PAIR_HEADER_SIZE + payload@.len() <= MAX_DATAGRAM_SIZE && bytes@
                == envelope_bytes(
                EnvelopeView { kind, exchange_id: exchange_id@, step, transport, payload: payload@ },
            ),
            Err(error) => PAIR_HEADER_SIZE + payload@.len() > MAX_DATAGRAM_SIZE && error
                == WireError::BadLength(
                if PAIR_HEADER_SIZE + payload@.len() > usize::MAX {
                    payload@.len() as usize
                } else {
                    (PAIR_HEADER_SIZE + payload@.len()) as usize
                },
            ),
        },
{
    let Some(length) = PAIR_HEADER_SIZE.checked_add(payload.len()) else {
        return Err(WireError::BadLength(payload.len()));
    };
    if length > MAX_DATAGRAM_SIZE {
        return Err(WireError::BadLength(length));
    }
    let mut bytes: Vec<u8> = Vec::with_capacity(length);
    push_bytes(&mut bytes, &PAIR_MAGIC);
    bytes.push(PROTOCOL_VERSION);
    bytes.push(kind);
    push_u16(&mut bytes, length as u16);
    push_bytes(&mut bytes, &exchange_id);
    push_u32(&mut bytes, step);
    push_u16(&mut bytes, payload.len() as u16);
    bytes.push(transport.to_byte());
    bytes.push(1);
    push_bytes(&mut bytes, payload);
    assert(bytes@ =~= envelope_bytes(
        EnvelopeView { kind, exchange_id: exchange_id@, step, transport, payload: payload@ },
    ));
    Ok(bytes)
}

pub fn decode_pair_envelope(bytes: &[u8]) -> (result: Result<PairEnvelope<'_>, WireError>)
    ensures
        match (result, envelope_of(bytes@)) {
            (Ok(envelope), Ok(view)) => envelope@ == view,
            (Err(found), Err(owed)) => found == owed,
            _ => false,
        },
{
    if bytes.len() < PAIR_HEADER_SIZE || bytes.len() > MAX_DATAGRAM_SIZE {
        return Err(WireError::BadLength(bytes.len()));
    }
    if !has_prefix(bytes, &PAIR_MAGIC) {
        return Err(WireError::BadMagic);
    }
    if bytes[4] != PROTOCOL_VERSION {
        return Err(WireError::BadVersion(bytes[4]));
    }
    let declared: usize = read_u16(bytes, 6) as usize;
    let payload_length: usize = read_u16(bytes, 28) as usize;
    if declared != bytes.len() || PAIR_HEADER_SIZE + payload_length != bytes.len() {
        return Err(WireError::BadLength(declared));
    }
    if bytes[31] != 1 {
        return Err(WireError::BadSuite(bytes[31]));
    }
    let transport: TransportKind = match TransportKind::from_byte(bytes[30]) {
        Ok(transport) => transport,
        Err(error) => {
            return Err(error);
        },
    };
    Ok(
        PairEnvelope {
            kind: bytes[5],
            exchange_id: to_array::<16>(&bytes[8..24]),
            step: read_u32(bytes, 24),
            transport,
            payload: &bytes[PAIR_HEADER_SIZE..bytes.len()],
        },
    )
}

#[derive(Clone, Copy, Debug, PartialEq, Eq)]
pub struct RecordHeader {
    pub direction: Direction,
    pub message_type: u8,
    pub connection_id: u64,
    pub session_id: u64,
    pub packet_number: u64,
    pub logical_id: u64,
    pub flags: u32,
    pub payload_length: u16,
}

/// A record whose tag was right.
#[derive(Clone, Debug, PartialEq, Eq)]
pub struct OpenedRecord {
    pub header: RecordHeader,
    pub payload: Vec<u8>,
}

pub open spec fn header_bytes(header: RecordHeader) -> Seq<u8> {
    header.direction.prefix() + seq![PROTOCOL_VERSION, header.message_type] + bytes::le_bytes(
        (RECORD_HEADER_SIZE + header.payload_length + TAG_SIZE) as nat,
        2,
    ) + bytes::le_bytes(header.connection_id as nat, 8) + bytes::le_bytes(
        header.session_id as nat,
        8,
    ) + bytes::le_bytes(header.packet_number as nat, 8) + bytes::le_bytes(
        header.logical_id as nat,
        8,
    ) + bytes::le_bytes(header.flags as nat, 4) + bytes::le_bytes(header.payload_length as nat, 2)
        + seq![0u8, 0u8]
}

/// The header of a record of one direction, or what is wrong with it.
pub open spec fn header_of(bytes: Seq<u8>, expected: Direction) -> Result<RecordHeader, WireError> {
    let payload_length = bytes::field(bytes, 44, 2);
    let declared = bytes::field(bytes, 6, 2);
    if bytes.len() < RECORD_HEADER_SIZE + TAG_SIZE || bytes.len() > MAX_DATAGRAM_SIZE {
        Err(WireError::BadLength(bytes.len() as usize))
    } else if bytes.subrange(0, 4) != expected.prefix() {
        Err(WireError::BadMagic)
    } else if bytes[4] != PROTOCOL_VERSION {
        Err(WireError::BadVersion(bytes[4]))
    } else if RECORD_HEADER_SIZE + payload_length + TAG_SIZE != bytes.len() || declared
        != bytes.len() {
        Err(WireError::BadLength(declared as usize))
    } else if bytes::field(bytes, 46, 2) != 0 {
        Err(WireError::ReservedBits)
    } else {
        Ok(
            RecordHeader {
                direction: expected,
                message_type: bytes[5],
                connection_id: bytes::field(bytes, 8, 8) as u64,
                session_id: bytes::field(bytes, 16, 8) as u64,
                packet_number: bytes::field(bytes, 24, 8) as u64,
                logical_id: bytes::field(bytes, 32, 8) as u64,
                flags: bytes::field(bytes, 40, 4) as u32,
                payload_length: payload_length as u16,
            },
        )
    }
}

/// The bytes of a header.
pub fn write_record_header(header: &RecordHeader) -> (bytes: [u8; 48])
    requires
        RECORD_HEADER_SIZE + header.payload_length + TAG_SIZE <= u16::MAX,
    ensures
        bytes@ == header_bytes(*header),
{
    let complete_length: usize = RECORD_HEADER_SIZE + header.payload_length as usize + TAG_SIZE;
    let mut bytes: Vec<u8> = Vec::with_capacity(RECORD_HEADER_SIZE);
    push_bytes(&mut bytes, &header.direction.magic());
    bytes.push(PROTOCOL_VERSION);
    bytes.push(header.message_type);
    push_u16(&mut bytes, complete_length as u16);
    push_u64(&mut bytes, header.connection_id);
    push_u64(&mut bytes, header.session_id);
    push_u64(&mut bytes, header.packet_number);
    push_u64(&mut bytes, header.logical_id);
    push_u32(&mut bytes, header.flags);
    push_u16(&mut bytes, header.payload_length);
    bytes.push(0);
    bytes.push(0);
    assert(bytes@ =~= header_bytes(*header));
    proof {
        header_width(*header);
    }
    to_array::<48>(bytes.as_slice())
}

pub fn decode_record_header(bytes: &[u8], expected_direction: Direction) -> (result: Result<
    RecordHeader,
    WireError,
>)
    ensures
        result == header_of(bytes@, expected_direction),
{
    if bytes.len() < RECORD_HEADER_SIZE + TAG_SIZE || bytes.len() > MAX_DATAGRAM_SIZE {
        return Err(WireError::BadLength(bytes.len()));
    }
    if !has_prefix(bytes, &expected_direction.magic()) {
        return Err(WireError::BadMagic);
    }
    if bytes[4] != PROTOCOL_VERSION {
        return Err(WireError::BadVersion(bytes[4]));
    }
    let payload_length: u16 = read_u16(bytes, 44);
    let expected_length: usize = RECORD_HEADER_SIZE + payload_length as usize + TAG_SIZE;
    let declared_length: usize = read_u16(bytes, 6) as usize;
    if expected_length != bytes.len() || declared_length != bytes.len() {
        return Err(WireError::BadLength(declared_length));
    }
    if read_u16(bytes, 46) != 0 {
        return Err(WireError::ReservedBits);
    }
    Ok(
        RecordHeader {
            direction: expected_direction,
            message_type: bytes[5],
            connection_id: read_u64(bytes, 8),
            session_id: read_u64(bytes, 16),
            packet_number: read_u64(bytes, 24),
            logical_id: read_u64(bytes, 32),
            flags: read_u32(bytes, 40),
            payload_length,
        },
    )
}

/// What is wrong with the contacts from `from` on: a pointer that stands twice, or a
/// flag that has no meaning.
pub open spec fn contact_fault(contacts: Seq<Contact>, from: nat) -> Option<WireError>
    decreases contacts.len() - from,
{
    if from >= contacts.len() {
        None
    } else if frame::repeats(contacts, from as int) {
        Some(WireError::DuplicatePointer(contacts[from as int].pointer_id))
    } else if contacts[from as int].flags & !VALID_CONTACT_FLAGS != 0 {
        Some(WireError::ReservedBits)
    } else {
        contact_fault(contacts, from + 1)
    }
}

/// Sequence zero is a cancel without contacts that starts a session, and nothing else
/// starts one.
pub open spec fn session_start_valid(frame: FrameView) -> bool {
    if frame.sequence == 0 {
        frame.action == ACTION_CANCEL && frame.starts_session() && frame.flags
            == FRAME_FLAG_SESSION_START && frame.contacts.len() == 0
    } else {
        !frame.starts_session()
    }
}

pub open spec fn touch_fields(header: RecordHeader, payload: Seq<u8>) -> FrameView {
    FrameView {
        session_id: header.session_id,
        sequence: header.logical_id,
        phone_event_nanos: bytes::field(payload, 0, 8) as u64,
        phone_callback_nanos: bytes::field(payload, 8, 8) as u64,
        phone_send_nanos: bytes::field(payload, 16, 8) as u64,
        echo_host_send_nanos: bytes::field(payload, 24, 8) as u64,
        phone_control_receive_nanos: bytes::field(payload, 32, 8) as u64,
        action: payload[40],
        action_pointer_id: payload[41],
        flags: payload[43],
        contacts: frame::contacts_at(
            payload,
            TOUCH_PAYLOAD_HEADER_SIZE as int,
            payload[42] as nat,
        ),
    }
}

/// The touch frame in a record, or what is wrong with it.
pub open spec fn touch_of(header: RecordHeader, payload: Seq<u8>) -> Result<FrameView, WireError> {
    let count = payload[42] as int;
    if header.direction != Direction::PhoneToHost || header.message_type != PHONE_TOUCH
        || header.session_id == 0 || header.flags != 0 || payload.len()
        < TOUCH_PAYLOAD_HEADER_SIZE {
        Err(WireError::BadMessage)
    } else if !frame::known_action(payload[40]) {
        Err(WireError::BadAction(payload[40]))
    } else if count > MAX_CONTACTS || payload.len() != TOUCH_PAYLOAD_HEADER_SIZE + count
        * CONTACT_SIZE {
        Err(WireError::BadContactCount(count as usize))
    } else if payload[43] & !VALID_FRAME_FLAGS != 0 {
        Err(WireError::ReservedBits)
    } else {
        let touch = touch_fields(header, payload);
        match contact_fault(touch.contacts, 0) {
            Some(error) => Err(error),
            None => if session_start_valid(touch) {
                Ok(touch)
            } else {
                Err(WireError::BadSessionStart)
            },
        }
    }
}

pub fn decode_touch_record(record: &OpenedRecord) -> (result: Result<TouchFrame, WireError>)
    ensures
        match (result, touch_of(record.header, record.payload@)) {
            (Ok(frame), Ok(view)) => frame@ == view,
            (Err(found), Err(owed)) => found == owed,
            _ => false,
        },
{
    decode_touch_payload(&record.header, record.payload.as_slice())
}

pub fn decode_touch_payload(header: &RecordHeader, payload: &[u8]) -> (result: Result<
    TouchFrame,
    WireError,
>)
    ensures
        match (result, touch_of(*header, payload@)) {
            (Ok(frame), Ok(view)) => frame@ == view,
            (Err(found), Err(owed)) => found == owed,
            _ => false,
        },
{
    if header.direction != Direction::PhoneToHost || header.message_type != PHONE_TOUCH
        || header.session_id == 0 || header.flags != 0 || payload.len()
        < TOUCH_PAYLOAD_HEADER_SIZE {
        return Err(WireError::BadMessage);
    }
    let action: u8 = payload[40];
    if !is_known_action(action) {
        return Err(WireError::BadAction(action));
    }
    let count: usize = payload[42] as usize;
    if count > MAX_CONTACTS || payload.len() != TOUCH_PAYLOAD_HEADER_SIZE + count * CONTACT_SIZE {
        return Err(WireError::BadContactCount(count));
    }
    let flags: u8 = payload[43];
    if flags & !VALID_FRAME_FLAGS != 0 {
        return Err(WireError::ReservedBits);
    }
    let ghost all = frame::contacts_at(payload@, TOUCH_PAYLOAD_HEADER_SIZE as int, count as nat);
    let mut contacts = Contacts::default();
    let mut seen: [bool; 256] = [false; 256];
    let mut index: usize = 0;
    while index < count
        invariant
            index <= count <= MAX_CONTACTS,
            payload@.len() == TOUCH_PAYLOAD_HEADER_SIZE + count * CONTACT_SIZE,
            all == frame::contacts_at(payload@, TOUCH_PAYLOAD_HEADER_SIZE as int, count as nat),
            contacts@ == all.subrange(0, index as int),
            contact_fault(all, 0) == contact_fault(all, index as nat),
            contact_fault(all, 0) matches Some(error) ==> touch_of(*header, payload@) == Err::<
                FrameView,
                WireError,
            >(error),
            forall|id: u8| #[trigger]
                seen@[id as int] == exists|j: int|
                    0 <= j < index && (#[trigger] all[j]).pointer_id == id,
        decreases count - index,
    {
        let offset: usize = TOUCH_PAYLOAD_HEADER_SIZE + index * CONTACT_SIZE;
        let contact: Contact = read_contact(payload, offset);
        assert(contact == all[index as int]);
        let pointer_id: u8 = contact.pointer_id;
        if seen[pointer_id as usize] {
            assert(frame::repeats(all, index as int));
            return Err(WireError::DuplicatePointer(pointer_id));
        }
        assert(!frame::repeats(all, index as int));
        if contact.flags & !VALID_CONTACT_FLAGS != 0 {
            return Err(WireError::ReservedBits);
        }
        let ghost before = seen@;
        seen[pointer_id as usize] = true;
        contacts.push(contact);
        index = index + 1;
        assert(all.subrange(0, index as int) =~= all.subrange(0, index - 1).push(all[index - 1]));
        assert forall|id: u8| #[trigger] seen@[id as int] == exists|j: int|
            0 <= j < index && (#[trigger] all[j]).pointer_id == id by {
            if id == pointer_id {
                assert(all[index - 1].pointer_id == id);
            } else {
                assert(seen@[id as int] == before[id as int]);
                if before[id as int] {
                    let j = choose|j: int|
                        0 <= j < index - 1 && (#[trigger] all[j]).pointer_id == id;
                    assert(all[j].pointer_id == id);
                }
            }
        }
    }
    assert(contacts@ =~= all);
    let touch = TouchFrame {
        session_id: header.session_id,
        sequence: header.logical_id,
        phone_event_nanos: read_u64(payload, 0),
        phone_callback_nanos: read_u64(payload, 8),
        phone_send_nanos: read_u64(payload, 16),
        echo_host_send_nanos: read_u64(payload, 24),
        phone_control_receive_nanos: read_u64(payload, 32),
        action,
        action_pointer_id: payload[41],
        flags,
        contacts,
    };
    assert(touch@ =~= touch_fields(*header, payload@));
    match validate_session_start(&touch) {
        Ok(()) => Ok(touch),
        Err(error) => Err(error),
    }
}

fn validate_session_start(frame: &TouchFrame) -> (result: Result<(), WireError>)
    ensures
        match result {
            Ok(()) => session_start_valid(frame@),
            Err(error) => !session_start_valid(frame@) && error == WireError::BadSessionStart,
        },
{
    if frame.sequence == 0 {
        if frame.action != ACTION_CANCEL || !frame.session_start() || frame.flags
            != FRAME_FLAG_SESSION_START || !frame.contacts.is_empty() {
            return Err(WireError::BadSessionStart);
        }
    } else if frame.session_start() {
        return Err(WireError::BadSessionStart);
    }
    Ok(())
}

pub open spec fn control_payload_bytes(
    receive_window: u32,
    lane_count: u8,
    host_send_nanos: u64,
) -> Seq<u8> {
    bytes::le_bytes(receive_window as nat, 4) + seq![lane_count, 0u8, 0u8, 0u8] + bytes::le_bytes(
        host_send_nanos as nat,
        8,
    )
}

pub fn encode_control_payload(
    receive_window: u32,
    lane_count: u8,
    host_send_nanos: u64,
) -> (payload: [u8; 16])
    ensures
        payload@ == control_payload_bytes(receive_window, lane_count, host_send_nanos),
{
    let mut payload: Vec<u8> = Vec::with_capacity(CONTROL_PAYLOAD_SIZE);
    push_u32(&mut payload, receive_window);
    payload.push(lane_count);
    payload.push(0);
    payload.push(0);
    payload.push(0);
    push_u64(&mut payload, host_send_nanos);
    assert(payload@ =~= control_payload_bytes(receive_window, lane_count, host_send_nanos));
    proof {
        bytes::le_bytes_width(receive_window as nat, 4);
        bytes::le_bytes_width(host_send_nanos as nat, 8);
    }
    to_array::<16>(payload.as_slice())
}

#[derive(Clone, Copy, Debug, PartialEq, Eq)]
pub struct QualityReply {
    pub probe_id: u64,
    pub host_send_nanos: u64,
    pub phone_receive_nanos: u64,
    pub phone_send_nanos: u64,
    pub repair_only: bool,
    pub signal_level: i8,
    pub rssi_dbm: i16,
    pub frequency_mhz: u32,
}

/// The quality reply in a record: the signal level is unknown, or from 0 to 4.
pub open spec fn quality_of(header: RecordHeader, payload: Seq<u8>) -> Option<QualityReply> {
    let level = payload[25];
    if header.direction != Direction::PhoneToHost || header.message_type != PHONE_QUALITY_REPLY
        || header.session_id != 0 || header.flags != 0 || payload.len() != QUALITY_REPLY_SIZE
        || payload[24] > 1 || (level != 0xff && level > 4) {
        None
    } else {
        Some(
            QualityReply {
                probe_id: header.logical_id,
                host_send_nanos: bytes::field(payload, 0, 8) as u64,
                phone_receive_nanos: bytes::field(payload, 8, 8) as u64,
                phone_send_nanos: bytes::field(payload, 16, 8) as u64,
                repair_only: payload[24] == 1,
                signal_level: if level == 0xff {
                    -1i8
                } else {
                    level as i8
                },
                rssi_dbm: bytes::signed16(bytes::field(payload, 26, 2)) as i16,
                frequency_mhz: bytes::field(payload, 28, 4) as u32,
            },
        )
    }
}

pub fn decode_quality_reply(record: &OpenedRecord) -> (result: Result<QualityReply, WireError>)
    ensures
        match result {
            Ok(reply) => quality_of(record.header, record.payload@) == Some(reply),
            Err(error) => quality_of(record.header, record.payload@) is None && error
                == WireError::BadMessage,
        },
{
    if record.header.direction != Direction::PhoneToHost || record.header.message_type
        != PHONE_QUALITY_REPLY || record.header.session_id != 0 || record.header.flags != 0
        || record.payload.len() != QUALITY_REPLY_SIZE {
        return Err(WireError::BadMessage);
    }
    let payload: &[u8] = record.payload.as_slice();
    let repair: u8 = payload[24];
    let level: u8 = payload[25];
    if repair > 1 || (level != 0xff && level > 4) {
        return Err(WireError::BadMessage);
    }
    let signal_level: i8 = if level == 0xff {
        -1
    } else {
        level as i8
    };
    Ok(
        QualityReply {
            probe_id: record.header.logical_id,
            host_send_nanos: read_u64(payload, 0),
            phone_receive_nanos: read_u64(payload, 8),
            phone_send_nanos: read_u64(payload, 16),
            repair_only: repair == 1,
            signal_level,
            rssi_dbm: read_i16(payload, 26),
            frequency_mhz: read_u32(payload, 28),
        },
    )
}

/// A header always has the same size.
pub proof fn header_width(header: RecordHeader)
    ensures
        header_bytes(header).len() == RECORD_HEADER_SIZE,
{
    bytes::le_bytes_width(
        (RECORD_HEADER_SIZE + header.payload_length + TAG_SIZE) as nat,
        2,
    );
    bytes::le_bytes_width(header.connection_id as nat, 8);
    bytes::le_bytes_width(header.session_id as nat, 8);
    bytes::le_bytes_width(header.packet_number as nat, 8);
    bytes::le_bytes_width(header.logical_id as nat, 8);
    bytes::le_bytes_width(header.flags as nat, 4);
    bytes::le_bytes_width(header.payload_length as nat, 2);
}

/// A header is read back from the record that it starts, whatever follows it.
pub proof fn header_round_trip(header: RecordHeader, rest: Seq<u8>)
    requires
        rest.len() == header.payload_length + TAG_SIZE,
        RECORD_HEADER_SIZE + rest.len() <= MAX_DATAGRAM_SIZE,
    ensures
        header_of(header_bytes(header) + rest, header.direction) == Ok::<RecordHeader, WireError>(
            header,
        ),
{
    let complete = (RECORD_HEADER_SIZE + header.payload_length + TAG_SIZE) as nat;
    header_width(header);
    bytes::byte_ranges();
    let f0 = header.direction.prefix() + seq![PROTOCOL_VERSION, header.message_type];
    let f1 = bytes::le_bytes(complete, 2);
    let f2 = bytes::le_bytes(header.connection_id as nat, 8);
    let f3 = bytes::le_bytes(header.session_id as nat, 8);
    let f4 = bytes::le_bytes(header.packet_number as nat, 8);
    let f5 = bytes::le_bytes(header.logical_id as nat, 8);
    let f6 = bytes::le_bytes(header.flags as nat, 4);
    let f7 = bytes::le_bytes(header.payload_length as nat, 2);
    let zero = seq![0u8, 0u8];
    bytes::le_bytes_width(complete, 2);
    bytes::le_bytes_width(header.connection_id as nat, 8);
    bytes::le_bytes_width(header.session_id as nat, 8);
    bytes::le_bytes_width(header.packet_number as nat, 8);
    bytes::le_bytes_width(header.logical_id as nat, 8);
    bytes::le_bytes_width(header.flags as nat, 4);
    bytes::le_bytes_width(header.payload_length as nat, 2);
    let all = header_bytes(header) + rest;
    assert(all.subrange(0, 4) =~= header.direction.prefix());
    assert(all =~= f0 + f1 + (f2 + f3 + f4 + f5 + f6 + f7 + zero + rest));
    bytes::field_of_concat(f0, complete, 2, f2 + f3 + f4 + f5 + f6 + f7 + zero + rest);
    assert(all =~= (f0 + f1) + f2 + (f3 + f4 + f5 + f6 + f7 + zero + rest));
    bytes::field_of_concat(
        f0 + f1,
        header.connection_id as nat,
        8,
        f3 + f4 + f5 + f6 + f7 + zero + rest,
    );
    assert(all =~= (f0 + f1 + f2) + f3 + (f4 + f5 + f6 + f7 + zero + rest));
    bytes::field_of_concat(
        f0 + f1 + f2,
        header.session_id as nat,
        8,
        f4 + f5 + f6 + f7 + zero + rest,
    );
    assert(all =~= (f0 + f1 + f2 + f3) + f4 + (f5 + f6 + f7 + zero + rest));
    bytes::field_of_concat(
        f0 + f1 + f2 + f3,
        header.packet_number as nat,
        8,
        f5 + f6 + f7 + zero + rest,
    );
    assert(all =~= (f0 + f1 + f2 + f3 + f4) + f5 + (f6 + f7 + zero + rest));
    bytes::field_of_concat(
        f0 + f1 + f2 + f3 + f4,
        header.logical_id as nat,
        8,
        f6 + f7 + zero + rest,
    );
    assert(all =~= (f0 + f1 + f2 + f3 + f4 + f5) + f6 + (f7 + zero + rest));
    bytes::field_of_concat(
        f0 + f1 + f2 + f3 + f4 + f5,
        header.flags as nat,
        4,
        f7 + zero + rest,
    );
    assert(all =~= (f0 + f1 + f2 + f3 + f4 + f5 + f6) + f7 + (zero + rest));
    bytes::field_of_concat(
        f0 + f1 + f2 + f3 + f4 + f5 + f6,
        header.payload_length as nat,
        2,
        zero + rest,
    );
    assert(bytes::field(all, 46, 2) == 0) by {
        assert(all.subrange(46, 48) =~= zero);
        reveal_with_fuel(bytes::le, 3);
    }
}

/// Every envelope that can be encoded is decoded to what it says.
pub proof fn envelope_round_trip(envelope: EnvelopeView)
    requires
        envelope.exchange_id.len() == 16,
        PAIR_HEADER_SIZE + envelope.payload.len() <= MAX_DATAGRAM_SIZE,
    ensures
        envelope_of(envelope_bytes(envelope)) == Ok::<EnvelopeView, WireError>(envelope),
{
    let complete = (PAIR_HEADER_SIZE + envelope.payload.len()) as nat;
    bytes::byte_ranges();
    let f0 = PAIR_MAGIC@ + seq![PROTOCOL_VERSION, envelope.kind];
    let f1 = bytes::le_bytes(complete, 2);
    let f2 = envelope.exchange_id;
    let f3 = bytes::le_bytes(envelope.step as nat, 4);
    let f4 = bytes::le_bytes(envelope.payload.len(), 2);
    let f5 = seq![envelope.transport.byte(), 1u8];
    let f6 = envelope.payload;
    bytes::le_bytes_width(complete, 2);
    bytes::le_bytes_width(envelope.step as nat, 4);
    bytes::le_bytes_width(envelope.payload.len(), 2);
    let all = envelope_bytes(envelope);
    assert(all.subrange(0, 4) =~= PAIR_MAGIC@);
    assert(all.subrange(8, 24) =~= envelope.exchange_id);
    assert(all.subrange(32, all.len() as int) =~= envelope.payload);
    assert(all =~= f0 + f1 + (f2 + f3 + f4 + f5 + f6));
    bytes::field_of_concat(f0, complete, 2, f2 + f3 + f4 + f5 + f6);
    assert(all =~= (f0 + f1 + f2) + f3 + (f4 + f5 + f6));
    bytes::field_of_concat(f0 + f1 + f2, envelope.step as nat, 4, f4 + f5 + f6);
    assert(all =~= (f0 + f1 + f2 + f3) + f4 + (f5 + f6));
    bytes::field_of_concat(f0 + f1 + f2 + f3, envelope.payload.len(), 2, f5 + f6);
}

/// An envelope that is accepted has no other encoding than the bytes it was read from.
pub proof fn envelope_is_canonical(bytes: Seq<u8>)
    ensures
        envelope_of(bytes) matches Ok(envelope) ==> envelope_bytes(envelope) == bytes,
{
    if let Ok(envelope) = envelope_of(bytes) {
        bytes::byte_ranges();
        bytes::field_bounds(bytes, 6, 2);
        bytes::field_bounds(bytes, 24, 4);
        bytes::field_bounds(bytes, 28, 2);
        assert(bytes =~= bytes.subrange(0, 4) + seq![bytes[4], bytes[5]] + bytes.subrange(6, 8)
            + bytes.subrange(8, 24) + bytes.subrange(24, 28) + bytes.subrange(28, 30)
            + seq![bytes[30], bytes[31]] + bytes.subrange(32, bytes.len() as int));
    }
}

} // verus!
