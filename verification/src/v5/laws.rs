//! Where the fields of records and envelopes stand, byte by byte.
use crate::bytes;
use crate::protocol::frame;
use crate::protocol::frame::{Contact, FrameView};
use crate::protocol::laws;
use crate::v5::wire;
use crate::v5::wire::{
    Direction, EnvelopeView, QualityReply, RecordHeader, TransportKind, WireError,
};
use vstd::prelude::*;

verus! {

/// The bytes of the payload of a touch record: five numbers of eight bytes, the action with
/// its pointer, the number of contacts and the flags, and the contacts.
pub open spec fn holds_touch(payload: Seq<u8>, view: FrameView) -> bool {
    &&& payload.len() == 44 + 10 * view.contacts.len()
    &&& bytes::number64(payload, 0) == view.phone_event_nanos
    &&& bytes::number64(payload, 8) == view.phone_callback_nanos
    &&& bytes::number64(payload, 16) == view.phone_send_nanos
    &&& bytes::number64(payload, 24) == view.echo_host_send_nanos
    &&& bytes::number64(payload, 32) == view.phone_control_receive_nanos
    &&& payload[40] == view.action
    &&& payload[41] == view.action_pointer_id
    &&& payload[42] == view.contacts.len()
    &&& payload[43] == view.flags
    &&& laws::holds_contacts(payload, 44, view.contacts)
}

/// A frame that a phone may send: at most sixteen contacts, each of its own pointer, flags
/// that have a meaning, and a session that starts with an empty cancel as its number zero
/// and with nothing else.
pub open spec fn may_be_sent(view: FrameView) -> bool {
    &&& view.session_id != 0
    &&& view.action <= 4
    &&& view.contacts.len() <= 16
    &&& view.flags < 8
    &&& forall|i: int| 0 <= i < view.contacts.len() ==> (#[trigger] view.contacts[i]).flags < 4
    &&& laws::one_each(view.contacts)
    &&& if view.sequence == 0 {
        view.action == 4 && view.flags == 2 && view.contacts.len() == 0
    } else {
        !laws::bit(view.flags, 1)
    }
}

proof fn flags_below(flags: u8)
    ensures
        (flags & !wire::VALID_FRAME_FLAGS == 0) == (flags < 8),
        (flags & !wire::VALID_CONTACT_FLAGS == 0) == (flags < 4),
{
    assert((flags & !0x07u8 == 0) == (flags < 8)) by (bit_vector);
    assert((flags & !0x03u8 == 0) == (flags < 4)) by (bit_vector);
}

proof fn faultless(contacts: Seq<Contact>, from: nat)
    ensures
        wire::contact_fault(contacts, from) is None <==> forall|i: int|
            from <= i < contacts.len() ==> !(#[trigger] frame::repeats(contacts, i))
                && contacts[i].flags < 4,
    decreases contacts.len() - from,
{
    if from < contacts.len() {
        faultless(contacts, from + 1);
        flags_below(contacts[from as int].flags);
        if wire::contact_fault(contacts, from) is None {
            assert forall|i: int| from <= i < contacts.len() implies !(#[trigger] frame::repeats(
                contacts,
                i,
            )) && contacts[i].flags < 4 by {
                if i > from {
                    assert(wire::contact_fault(contacts, from + 1) is None);
                }
            }
        } else if forall|i: int|
            from <= i < contacts.len() ==> !(#[trigger] frame::repeats(contacts, i))
                && contacts[i].flags < 4 {
            assert(!frame::repeats(contacts, from as int));
        }
    }
}

proof fn each_once(contacts: Seq<Contact>)
    ensures
        laws::one_each(contacts) <==> forall|i: int|
            0 <= i < contacts.len() ==> !#[trigger] frame::repeats(contacts, i),
{
    if forall|i: int| 0 <= i < contacts.len() ==> !#[trigger] frame::repeats(contacts, i) {
        assert forall|i: int, j: int| 0 <= i < j < contacts.len() implies (
        #[trigger] contacts[i]).pointer_id != (#[trigger] contacts[j]).pointer_id by {
            assert(!frame::repeats(contacts, j));
        }
    }
}

proof fn touch_numbers(payload: Seq<u8>)
    requires
        payload.len() >= 44,
    ensures
        bytes::field(payload, 0, 8) == bytes::number64(payload, 0),
        bytes::field(payload, 8, 8) == bytes::number64(payload, 8),
        bytes::field(payload, 16, 8) == bytes::number64(payload, 16),
        bytes::field(payload, 24, 8) == bytes::number64(payload, 24),
        bytes::field(payload, 32, 8) == bytes::number64(payload, 32),
{
    bytes::fields_are_little_endian(payload, 0);
    bytes::fields_are_little_endian(payload, 8);
    bytes::fields_are_little_endian(payload, 16);
    bytes::fields_are_little_endian(payload, 24);
    bytes::fields_are_little_endian(payload, 32);
}

/// A record is decoded to a touch frame exactly if it is a touch record of the phone whose
/// payload holds that frame, and the phone may send it. So every frame that is written is
/// read back in every field: the flags are those of the payload, and so are the contacts.
pub proof fn touch_is_what_the_record_holds(
    header: RecordHeader,
    payload: Seq<u8>,
    view: FrameView,
)
    ensures
        wire::touch_of(header, payload) == Ok::<FrameView, WireError>(view) <==> {
            &&& header.direction == Direction::PhoneToHost
            &&& header.message_type == 1
            &&& header.flags == 0
            &&& header.session_id == view.session_id
            &&& header.logical_id == view.sequence
            &&& may_be_sent(view)
            &&& holds_touch(payload, view)
        },
{
    flags_below(view.flags);
    flags_below(payload[43]);
    faultless(view.contacts, 0);
    each_once(view.contacts);
    laws::frame_flags_mean(view);
    if wire::touch_of(header, payload) == Ok::<FrameView, WireError>(view) {
        touch_numbers(payload);
        laws::contacts_are_what_stands_there(payload, 44, view.contacts);
        assert forall|i: int| 0 <= i < view.contacts.len() implies (
        #[trigger] view.contacts[i]).flags < 4 by {
            assert(!frame::repeats(view.contacts, i));
        }
    }
    if header.session_id == view.session_id && header.logical_id == view.sequence && may_be_sent(
        view,
    ) && holds_touch(payload, view) {
        touch_numbers(payload);
        laws::contacts_are_what_stands_there(payload, 44, view.contacts);
        assert(wire::touch_fields(header, payload) =~= view);
        assert(view.sequence == 0 ==> laws::bit(2, 1));
    }
}

/// The mark of a direction: `HPT5` from the phone, `HPA5` from the host.
pub open spec fn marked(bytes: Seq<u8>, direction: Direction) -> bool {
    &&& bytes[0] == 0x48
    &&& bytes[1] == 0x50
    &&& bytes[2] == match direction {
        Direction::PhoneToHost => 0x54u8,
        Direction::HostToPhone => 0x41u8,
    }
    &&& bytes[3] == 0x35
}

/// The first 48 bytes of a record.
pub open spec fn holds_header(bytes: Seq<u8>, header: RecordHeader) -> bool {
    &&& marked(bytes, header.direction)
    &&& bytes[4] == 5
    &&& bytes[5] == header.message_type
    &&& bytes::number16(bytes, 6) == 64 + header.payload_length
    &&& bytes::number64(bytes, 8) == header.connection_id
    &&& bytes::number64(bytes, 16) == header.session_id
    &&& bytes::number64(bytes, 24) == header.packet_number
    &&& bytes::number64(bytes, 32) == header.logical_id
    &&& bytes::number32(bytes, 40) == header.flags
    &&& bytes::number16(bytes, 44) == header.payload_length
    &&& bytes[46] == 0 && bytes[47] == 0
}

/// A header is read from a record exactly if the record holds it and has the size that it
/// says.
pub proof fn header_is_what_the_record_holds(
    bytes: Seq<u8>,
    expected: Direction,
    header: RecordHeader,
)
    ensures
        wire::header_of(bytes, expected) == Ok::<RecordHeader, WireError>(header) <==> {
            &&& header.direction == expected
            &&& bytes.len() == 64 + header.payload_length
            &&& bytes.len() <= 1200
            &&& holds_header(bytes, header)
        },
{
    let mark = bytes.subrange(0, 4);
    if bytes.len() >= 64 {
        bytes::fields_are_little_endian(bytes, 6);
        bytes::fields_are_little_endian(bytes, 8);
        bytes::fields_are_little_endian(bytes, 16);
        bytes::fields_are_little_endian(bytes, 24);
        bytes::fields_are_little_endian(bytes, 32);
        bytes::fields_are_little_endian(bytes, 40);
        bytes::fields_are_little_endian(bytes, 44);
        bytes::fields_are_little_endian(bytes, 46);
        if mark == expected.prefix() {
            assert(mark[0] == 0x48 && mark[1] == 0x50 && mark[3] == 0x35);
            assert(mark[2] == expected.prefix()[2]);
        }
        if marked(bytes, expected) {
            assert(mark =~= expected.prefix());
        }
    }
}

/// A header that is written holds what it says.
pub proof fn written_header_holds(header: RecordHeader)
    requires
        header.payload_length <= 1136,
    ensures
        wire::header_bytes(header).len() == 48,
        holds_header(wire::header_bytes(header), header),
{
    let rest = Seq::new((header.payload_length + 16) as nat, |i: int| 0u8);
    let bytes = wire::header_bytes(header);
    let all = bytes + rest;
    wire::header_width(header);
    wire::header_round_trip(header, rest);
    header_is_what_the_record_holds(all, header.direction, header);
    assert forall|i: int| 0 <= i < 48 implies #[trigger] all[i] == bytes[i] by {}
}

/// The bytes of a pairing envelope.
pub open spec fn holds_envelope(bytes: Seq<u8>, envelope: EnvelopeView) -> bool {
    &&& bytes.len() == 32 + envelope.payload.len()
    &&& bytes.len() <= 1200
    &&& bytes[0] == 0x48 && bytes[1] == 0x50 && bytes[2] == 0x50 && bytes[3] == 0x35
    &&& bytes[4] == 5
    &&& bytes[5] == envelope.kind
    &&& bytes::number16(bytes, 6) == bytes.len()
    &&& envelope.exchange_id.len() == 16
    &&& forall|i: int| 0 <= i < 16 ==> bytes[8 + i] == #[trigger] envelope.exchange_id[i]
    &&& bytes::number32(bytes, 24) == envelope.step
    &&& bytes::number16(bytes, 28) == envelope.payload.len()
    &&& bytes[30] == match envelope.transport {
        TransportKind::Usb => 1u8,
        TransportKind::Wifi => 2u8,
    }
    &&& bytes[31] == 1
    &&& forall|i: int|
        0 <= i < envelope.payload.len() ==> bytes[32 + i] == #[trigger] envelope.payload[i]
}

/// A datagram is decoded to an envelope exactly if it holds that envelope.
pub proof fn envelope_is_what_the_datagram_holds(bytes: Seq<u8>, envelope: EnvelopeView)
    ensures
        wire::envelope_of(bytes) == Ok::<EnvelopeView, WireError>(envelope) <==> holds_envelope(
            bytes,
            envelope,
        ),
{
    let mark = bytes.subrange(0, 4);
    if bytes.len() >= 32 {
        bytes::fields_are_little_endian(bytes, 6);
        bytes::fields_are_little_endian(bytes, 24);
        bytes::fields_are_little_endian(bytes, 28);
        let id = bytes.subrange(8, 24);
        let payload = bytes.subrange(32, bytes.len() as int);
        if wire::envelope_of(bytes) == Ok::<EnvelopeView, WireError>(envelope) {
            assert(mark[0] == 0x48 && mark[1] == 0x50 && mark[2] == 0x50 && mark[3] == 0x35);
            assert forall|i: int| 0 <= i < 16 implies bytes[8 + i]
                == #[trigger] envelope.exchange_id[i] by {
                assert(id[i] == bytes[8 + i]);
            }
            assert forall|i: int| 0 <= i < envelope.payload.len() implies bytes[32 + i]
                == #[trigger] envelope.payload[i] by {
                assert(payload[i] == bytes[32 + i]);
            }
        }
        if holds_envelope(bytes, envelope) {
            assert(mark =~= wire::PAIR_MAGIC@);
            assert(id =~= envelope.exchange_id);
            assert(payload =~= envelope.payload);
        }
    }
}

/// An envelope that is sent holds what it says.
pub proof fn envelope_holds_what_is_sent(envelope: EnvelopeView)
    requires
        envelope.exchange_id.len() == 16,
        envelope.payload.len() <= 1168,
    ensures
        holds_envelope(wire::envelope_bytes(envelope), envelope),
{
    wire::envelope_round_trip(envelope);
    envelope_is_what_the_datagram_holds(wire::envelope_bytes(envelope), envelope);
}

/// The bytes of a quality reply; the signal level is -1 where the phone knows none.
pub open spec fn holds_reply(payload: Seq<u8>, reply: QualityReply) -> bool {
    &&& payload.len() == 32
    &&& bytes::number64(payload, 0) == reply.host_send_nanos
    &&& bytes::number64(payload, 8) == reply.phone_receive_nanos
    &&& bytes::number64(payload, 16) == reply.phone_send_nanos
    &&& payload[24] == if reply.repair_only {
        1int
    } else {
        0int
    }
    &&& -1 <= reply.signal_level <= 4
    &&& payload[25] == if reply.signal_level == -1 {
        0xffint
    } else {
        reply.signal_level as int
    }
    &&& laws::holds_signed(payload, 26, reply.rssi_dbm)
    &&& bytes::number32(payload, 28) == reply.frequency_mhz
}

/// A record is decoded to a quality reply exactly if it holds that reply.
pub proof fn reply_is_what_the_record_holds(
    header: RecordHeader,
    payload: Seq<u8>,
    reply: QualityReply,
)
    ensures
        wire::quality_of(header, payload) == Some(reply) <==> {
            &&& header.direction == Direction::PhoneToHost
            &&& header.message_type == 2
            &&& header.session_id == 0
            &&& header.flags == 0
            &&& header.logical_id == reply.probe_id
            &&& holds_reply(payload, reply)
        },
{
    if payload.len() == 32 {
        bytes::fields_are_little_endian(payload, 0);
        bytes::fields_are_little_endian(payload, 8);
        bytes::fields_are_little_endian(payload, 16);
        bytes::fields_are_little_endian(payload, 26);
        bytes::fields_are_little_endian(payload, 28);
    }
}

/// The payload of a control record holds the window, the lanes and the time.
pub proof fn control_payload_holds_what_is_sent(window: u32, lanes: u8, sent: u64)
    ensures
        ({
            let payload = wire::control_payload_bytes(window, lanes, sent);
            &&& payload.len() == 16
            &&& bytes::number32(payload, 0) == window
            &&& payload[4] == lanes
            &&& payload[5] == 0 && payload[6] == 0 && payload[7] == 0
            &&& bytes::number64(payload, 8) == sent
        }),
{
    let payload = wire::control_payload_bytes(window, lanes, sent);
    bytes::byte_ranges();
    bytes::le_bytes_width(window as nat, 4);
    bytes::le_bytes_width(sent as nat, 8);
    bytes::le_decodes_encoding(window as nat, 4);
    bytes::le_decodes_encoding(sent as nat, 8);
    assert(payload.subrange(0, 4) =~= bytes::le_bytes(window as nat, 4));
    assert(payload.subrange(8, 16) =~= bytes::le_bytes(sent as nat, 8));
    bytes::fields_are_little_endian(payload, 0);
    bytes::fields_are_little_endian(payload, 8);
}

proof fn faults_of_contacts(contacts: Seq<Contact>, from: nat)
    ensures
        match wire::contact_fault(contacts, from) {
            Some(WireError::DuplicatePointer(pointer)) => laws::doubled(contacts, pointer),
            Some(error) => error == WireError::ReservedBits && exists|i: int|
                0 <= i < contacts.len() && (#[trigger] contacts[i]).flags >= 4,
            None => true,
        },
    decreases contacts.len() - from,
{
    if from < contacts.len() {
        flags_below(contacts[from as int].flags);
        if frame::repeats(contacts, from as int) {
            let j = choose|j: int|
                0 <= j < from && (#[trigger] contacts[j]).pointer_id
                    == contacts[from as int].pointer_id;
            assert(contacts[j].pointer_id == contacts[from as int].pointer_id);
        } else if contacts[from as int].flags >= 4 {
            assert(contacts[from as int].flags >= 4);
        } else {
            faults_of_contacts(contacts, from + 1);
        }
    }
}

/// A refusal of a touch record says what is wrong with it, and names the value that is.
pub proof fn refused_touches_are_faulty(header: RecordHeader, payload: Seq<u8>)
    requires
        payload.len() <= usize::MAX,
    ensures
        ({
            let contacts = frame::contacts_at(payload, 44, payload[42] as nat);
            let sized = payload.len() == 44 + 10 * payload[42] && payload[42] <= 16;
            match wire::touch_of(header, payload) {
                Err(WireError::BadMessage) => header.direction != Direction::PhoneToHost
                    || header.message_type != 1 || header.session_id == 0 || header.flags != 0
                    || payload.len() < 44,
                Err(WireError::BadAction(action)) => payload.len() >= 44 && action == payload[40]
                    && action > 4,
                Err(WireError::BadContactCount(count)) => payload.len() >= 44 && count
                    == payload[42] && !sized,
                Err(WireError::ReservedBits) => sized && (payload[43] >= 8 || exists|i: int|
                    0 <= i < contacts.len() && (#[trigger] contacts[i]).flags >= 4),
                Err(WireError::DuplicatePointer(pointer)) => sized && laws::doubled(
                    contacts,
                    pointer,
                ),
                Err(WireError::BadSessionStart) => sized && if header.logical_id == 0 {
                    payload[40] != 4 || payload[43] != 2 || payload[42] != 0
                } else {
                    laws::bit(payload[43], 1)
                },
                Err(_) => false,
                Ok(_) => sized,
            }
        }),
{
    flags_below(payload[43]);
    let touch = wire::touch_fields(header, payload);
    faults_of_contacts(touch.contacts, 0);
    laws::frame_flags_mean(touch);
    assert(laws::bit(2, 1));
}

/// A refusal of a record says what is wrong with its header. Its size and its mark come first.
pub proof fn refused_headers_are_faulty(bytes: Seq<u8>, expected: Direction)
    requires
        bytes.len() <= usize::MAX,
    ensures
        ({
            let size = bytes.len();
            let stated = bytes::number16(bytes, 6);
            let carried = bytes::number16(bytes, 44);
            let fits = 64 <= size <= 1200;
            match wire::header_of(bytes, expected) {
                Err(WireError::BadLength(length)) => {
                    ||| !fits && length == size
                    ||| fits && marked(bytes, expected) && bytes[4] == 5 && (stated != size || 64
                        + carried != size) && length == stated
                },
                Err(WireError::BadMagic) => fits && !marked(bytes, expected),
                Err(WireError::BadVersion(version)) => fits && marked(bytes, expected) && version
                    == bytes[4] && version != 5,
                Err(WireError::ReservedBits) => fits && marked(bytes, expected) && stated == size
                    && (bytes[46] != 0 || bytes[47] != 0),
                Err(_) => false,
                Ok(_) => fits,
            }
        }),
{
    if bytes.len() >= 64 {
        let mark = bytes.subrange(0, 4);
        bytes::fields_are_little_endian(bytes, 6);
        bytes::fields_are_little_endian(bytes, 44);
        bytes::fields_are_little_endian(bytes, 46);
        if marked(bytes, expected) {
            assert(mark =~= expected.prefix());
        } else if mark == expected.prefix() {
            assert(mark[0] == bytes[0] && mark[1] == bytes[1] && mark[2] == bytes[2] && mark[3]
                == bytes[3]);
        }
    }
}

/// A refusal of an envelope says what is wrong with it.
pub proof fn refused_envelopes_are_faulty(bytes: Seq<u8>)
    requires
        bytes.len() <= usize::MAX,
    ensures
        ({
            let size = bytes.len();
            let own_mark = bytes[0] == 0x48 && bytes[1] == 0x50 && bytes[2] == 0x50 && bytes[3]
                == 0x35;
            let stated = bytes::number16(bytes, 6);
            let fits = 32 <= size <= 1200;
            match wire::envelope_of(bytes) {
                Err(WireError::BadLength(length)) => {
                    ||| !fits && length == size
                    ||| fits && own_mark && bytes[4] == 5 && (stated != size || 32
                        + bytes::number16(bytes, 28) != size) && length == stated
                },
                Err(WireError::BadMagic) => fits && !own_mark,
                Err(WireError::BadVersion(version)) => fits && own_mark && version == bytes[4]
                    && version != 5,
                Err(WireError::BadSuite(suite)) => fits && own_mark && suite == bytes[31] && suite
                    != 1,
                Err(WireError::BadTransport(transport)) => fits && own_mark && transport
                    == bytes[30] && transport != 1 && transport != 2,
                Err(_) => false,
                Ok(_) => fits,
            }
        }),
{
    if bytes.len() >= 32 {
        let mark = bytes.subrange(0, 4);
        bytes::fields_are_little_endian(bytes, 6);
        bytes::fields_are_little_endian(bytes, 28);
        if bytes[0] == 0x48 && bytes[1] == 0x50 && bytes[2] == 0x50 && bytes[3] == 0x35 {
            assert(mark =~= wire::PAIR_MAGIC@);
        } else if mark == wire::PAIR_MAGIC@ {
            assert(mark[0] == bytes[0] && mark[1] == bytes[1] && mark[2] == bytes[2] && mark[3]
                == bytes[3]);
        }
    }
}

} // verus!
