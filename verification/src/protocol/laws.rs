//! Where the fields of the datagrams stand, byte by byte, and what their flags mean.
use crate::bytes;
use crate::crc;
use crate::protocol::discovery;
use crate::protocol::discovery::DiscoveryMessage;
use crate::protocol::frame;
use crate::protocol::frame::{Contact, FrameView, ProtocolError};
use vstd::prelude::*;

verus! {

/// Whether bit `k` of a byte is set.
pub open spec fn bit(byte: u8, k: int) -> bool {
    byte / (if k == 0 {
        1u8
    } else if k == 1 {
        2u8
    } else {
        4u8
    }) % 2 == 1
}

/// A finger touches by the second bit of its flags alone, whether or not it is inside the
/// surface, which the first bit says.
pub proof fn contact_flags_mean(contact: Contact)
    ensures
        contact.is_inside() == bit(contact.flags, 0),
        contact.is_touching() == bit(contact.flags, 1),
{
    let flags = contact.flags;
    assert((flags & 1 != 0) == (flags % 2 == 1)) by (bit_vector);
    assert((flags & 2 != 0) == (flags / 2 % 2 == 1)) by (bit_vector);
}

/// The three bits of a frame's flags: the surface is locked, a session starts, the frame is
/// from history.
pub proof fn frame_flags_mean(view: FrameView)
    ensures
        view.is_locked() == bit(view.flags, 0),
        view.starts_session() == bit(view.flags, 1),
        view.is_historical() == bit(view.flags, 2),
{
    let flags = view.flags;
    assert((flags & 1 != 0) == (flags % 2 == 1)) by (bit_vector);
    assert((flags & 2 != 0) == (flags / 2 % 2 == 1)) by (bit_vector);
    assert((flags & 4 != 0) == (flags / 4 % 2 == 1)) by (bit_vector);
}

/// Two bytes hold a signed number.
pub open spec fn holds_signed(bytes: Seq<u8>, at: int, value: i16) -> bool {
    bytes::number16(bytes, at) == if value < 0 {
        value + 0x1_0000
    } else {
        value as int
    }
}

/// The ten bytes at `at` hold a contact.
pub open spec fn holds_contact(bytes: Seq<u8>, at: int, contact: Contact) -> bool {
    &&& bytes[at] == contact.pointer_id
    &&& bytes[at + 1] == contact.flags
    &&& holds_signed(bytes, at + 2, contact.x)
    &&& holds_signed(bytes, at + 4, contact.y)
    &&& bytes::number16(bytes, at + 6) == contact.pressure
    &&& bytes::number16(bytes, at + 8) == contact.touch_major
}

/// The contacts stand one after the other, ten bytes each, and there is one for each.
pub open spec fn holds_contacts(bytes: Seq<u8>, at: int, contacts: Seq<Contact>) -> bool {
    forall|i: int|
        0 <= i < contacts.len() ==> holds_contact(bytes, at + 10 * i, #[trigger] contacts[i])
}

/// No two contacts are of one pointer.
pub open spec fn one_each(contacts: Seq<Contact>) -> bool {
    forall|i: int, j: int|
        0 <= i < j < contacts.len() ==> (#[trigger] contacts[i]).pointer_id != (
        #[trigger] contacts[j]).pointer_id
}

/// A contact is read from ten bytes exactly if they hold it.
pub proof fn contact_is_what_stands_there(bytes: Seq<u8>, at: int, contact: Contact)
    requires
        0 <= at,
        at + 10 <= bytes.len(),
    ensures
        frame::contact_at(bytes, at) == contact <==> holds_contact(bytes, at, contact),
{
    bytes::fields_are_little_endian(bytes, at + 2);
    bytes::fields_are_little_endian(bytes, at + 4);
    bytes::fields_are_little_endian(bytes, at + 6);
    bytes::fields_are_little_endian(bytes, at + 8);
}

pub proof fn contacts_are_what_stands_there(bytes: Seq<u8>, at: int, contacts: Seq<Contact>)
    requires
        0 <= at,
        at + 10 * contacts.len() <= bytes.len(),
    ensures
        frame::contacts_at(bytes, at, contacts.len()) == contacts <==> holds_contacts(
            bytes,
            at,
            contacts,
        ),
{
    let read = frame::contacts_at(bytes, at, contacts.len());
    assert forall|i: int| 0 <= i < contacts.len() implies (read[i] == contacts[i] <==> holds_contact(
        bytes,
        at + 10 * i,
        #[trigger] contacts[i],
    )) by {
        contact_is_what_stands_there(bytes, at + 10 * i, contacts[i]);
    }
    if read == contacts {
        assert forall|i: int| 0 <= i < contacts.len() implies holds_contact(
            bytes,
            at + 10 * i,
            #[trigger] contacts[i],
        ) by {
            assert(read[i] == contacts[i]);
        }
    }
    if holds_contacts(bytes, at, contacts) {
        assert(read =~= contacts);
    }
}

/// The bytes of a frame: a mark, the version, the kind and the length, seven numbers of eight
/// bytes, the action with its pointer, the number of contacts and the flags, the contacts,
/// and the checksum of all that.
pub open spec fn holds_frame(bytes: Seq<u8>, view: FrameView) -> bool {
    let size = 72 + 10 * view.contacts.len();
    &&& bytes.len() == size
    &&& view.contacts.len() <= 16
    &&& bytes[0] == 0x48 && bytes[1] == 0x50 && bytes[2] == 0x54 && bytes[3] == 0x34
    &&& bytes[4] == 4
    &&& bytes[5] == 1
    &&& bytes::number16(bytes, 6) == size
    &&& bytes::number64(bytes, 8) == view.session_id
    &&& bytes::number64(bytes, 16) == view.sequence
    &&& bytes::number64(bytes, 24) == view.phone_event_nanos
    &&& bytes::number64(bytes, 32) == view.phone_callback_nanos
    &&& bytes::number64(bytes, 40) == view.phone_send_nanos
    &&& bytes::number64(bytes, 48) == view.echo_host_send_nanos
    &&& bytes::number64(bytes, 56) == view.phone_control_receive_nanos
    &&& bytes[64] == view.action && view.action <= 4
    &&& bytes[65] == view.action_pointer_id
    &&& bytes[66] == view.contacts.len()
    &&& bytes[67] == view.flags
    &&& holds_contacts(bytes, 68, view.contacts)
    &&& one_each(view.contacts)
    &&& bytes::number32(bytes, size - 4) == crc::checksum(bytes.subrange(0, size - 4))
}

proof fn repeats_nowhere(contacts: Seq<Contact>, from: nat)
    requires
        one_each(contacts),
    ensures
        frame::first_repeat(contacts, from) is None,
    decreases contacts.len() - from,
{
    if from < contacts.len() {
        repeats_nowhere(contacts, from + 1);
    }
}

proof fn frame_numbers(bytes: Seq<u8>)
    requires
        bytes.len() >= 72,
    ensures
        bytes::field(bytes, 6, 2) == bytes::number16(bytes, 6),
        bytes::field(bytes, 8, 8) == bytes::number64(bytes, 8),
        bytes::field(bytes, 16, 8) == bytes::number64(bytes, 16),
        bytes::field(bytes, 24, 8) == bytes::number64(bytes, 24),
        bytes::field(bytes, 32, 8) == bytes::number64(bytes, 32),
        bytes::field(bytes, 40, 8) == bytes::number64(bytes, 40),
        bytes::field(bytes, 48, 8) == bytes::number64(bytes, 48),
        bytes::field(bytes, 56, 8) == bytes::number64(bytes, 56),
        bytes::field(bytes, bytes.len() - 4, 4) == bytes::number32(bytes, bytes.len() - 4),
{
    bytes::fields_are_little_endian(bytes, 6);
    bytes::fields_are_little_endian(bytes, 8);
    bytes::fields_are_little_endian(bytes, 16);
    bytes::fields_are_little_endian(bytes, 24);
    bytes::fields_are_little_endian(bytes, 32);
    bytes::fields_are_little_endian(bytes, 40);
    bytes::fields_are_little_endian(bytes, 48);
    bytes::fields_are_little_endian(bytes, 56);
    bytes::fields_are_little_endian(bytes, bytes.len() - 4);
}

/// A datagram is decoded to a frame exactly if it holds that frame: so every frame that is
/// written is read back in every field, and nothing else is ever read.
pub proof fn frame_is_what_the_datagram_holds(bytes: Seq<u8>, view: FrameView)
    ensures
        frame::frame_of(bytes) == Ok::<FrameView, ProtocolError>(view) <==> holds_frame(bytes, view),
{
    let mark = bytes.subrange(0, 4);
    if frame::frame_of(bytes) == Ok::<FrameView, ProtocolError>(view) {
        frame_numbers(bytes);
        frame::decoded_pointers_are_distinct(bytes);
        contacts_are_what_stands_there(bytes, 68, view.contacts);
        assert(mark[0] == frame::FRAME_MAGIC[0] && mark[1] == frame::FRAME_MAGIC[1] && mark[2]
            == frame::FRAME_MAGIC[2] && mark[3] == frame::FRAME_MAGIC[3]);
    }
    if holds_frame(bytes, view) {
        frame_numbers(bytes);
        contacts_are_what_stands_there(bytes, 68, view.contacts);
        repeats_nowhere(view.contacts, 0);
        assert(mark =~= frame::FRAME_MAGIC@);
        assert(frame::frame_fields(bytes) =~= view);
    }
}

/// The bytes of a discovery message.
pub open spec fn holds_discovery(bytes: Seq<u8>, message: DiscoveryMessage) -> bool {
    &&& bytes.len() == 32
    &&& bytes[0] == 0x48 && bytes[1] == 0x50 && bytes[2] == 0x54 && bytes[3] == 0x44
    &&& bytes[4] == 1
    &&& bytes[5] == message.kind && (message.kind == 1 || message.kind == 2)
    &&& bytes::number64(bytes, 8) == message.nonce
    &&& bytes::number64(bytes, 16) == message.session_id
    &&& bytes::number16(bytes, 24) == message.port
    &&& bytes::number32(bytes, 28) == crc::checksum(bytes.subrange(0, 28))
}

/// A datagram is decoded to a discovery message exactly if it holds that message.
pub proof fn discovery_is_what_the_datagram_holds(bytes: Seq<u8>, message: DiscoveryMessage)
    ensures
        discovery::discovery_of(bytes) == Some(message) <==> holds_discovery(bytes, message),
{
    let mark = bytes.subrange(0, 4);
    if bytes.len() == 32 {
        bytes::fields_are_little_endian(bytes, 8);
        bytes::fields_are_little_endian(bytes, 16);
        bytes::fields_are_little_endian(bytes, 24);
        bytes::fields_are_little_endian(bytes, 28);
        if discovery::discovery_of(bytes) == Some(message) {
            assert(mark[0] == 0x48 && mark[1] == 0x50 && mark[2] == 0x54 && mark[3] == 0x44);
        }
        if holds_discovery(bytes, message) {
            assert(mark =~= discovery::DISCOVERY_MAGIC@);
        }
    }
}

/// A discovery message that is sent holds what it says.
pub proof fn discovery_holds_what_is_sent(kind: u8, nonce: u64, session_id: u64, port: u16)
    requires
        kind == 1 || kind == 2,
    ensures
        holds_discovery(
            discovery::sealed(discovery::discovery_fields(kind, nonce, session_id, port)),
            DiscoveryMessage { kind, nonce, session_id, port },
        ),
{
    discovery::discovery_round_trip(kind, nonce, session_id, port);
    discovery_is_what_the_datagram_holds(
        discovery::sealed(discovery::discovery_fields(kind, nonce, session_id, port)),
        DiscoveryMessage { kind, nonce, session_id, port },
    );
}

/// The bytes of a control record.
pub open spec fn holds_control(
    bytes: Seq<u8>,
    kind: u8,
    lanes: u8,
    session: u64,
    acknowledged: Option<u64>,
    window: u32,
    sent: u64,
) -> bool {
    &&& bytes.len() == 40
    &&& bytes[0] == 0x48 && bytes[1] == 0x50 && bytes[2] == 0x41 && bytes[3] == 0x34
    &&& bytes[4] == 4
    &&& bytes[5] == kind
    &&& bytes::number16(bytes, 6) == lanes
    &&& bytes::number64(bytes, 8) == session
    &&& bytes::number64(bytes, 16) == match acknowledged {
        Some(sequence) => sequence as int,
        None => 0xffff_ffff_ffff_ffff,
    }
    &&& bytes::number32(bytes, 24) == window
    &&& bytes::number64(bytes, 28) == sent
    &&& bytes::number32(bytes, 36) == crc::checksum(bytes.subrange(0, 36))
}

/// A control record that is sent holds what it says.
pub proof fn control_holds_what_is_sent(
    kind: u8,
    lanes: u8,
    session: u64,
    acknowledged: Option<u64>,
    window: u32,
    sent: u64,
)
    ensures
        holds_control(
            discovery::sealed(
                discovery::control_fields(kind, lanes, session, acknowledged, window, sent),
            ),
            kind,
            lanes,
            session,
            acknowledged,
            window,
            sent,
        ),
{
    let fields = discovery::control_fields(kind, lanes, session, acknowledged, window, sent);
    let all = discovery::sealed(fields);
    let sequence = discovery::wire_sequence(acknowledged);
    let sum = crc::checksum(fields);
    bytes::byte_ranges();
    bytes::le_bytes_width(lanes as nat, 2);
    bytes::le_bytes_width(session as nat, 8);
    bytes::le_bytes_width(sequence as nat, 8);
    bytes::le_bytes_width(window as nat, 4);
    bytes::le_bytes_width(sent as nat, 8);
    bytes::le_bytes_width(sum as nat, 4);
    bytes::le_decodes_encoding(lanes as nat, 2);
    bytes::le_decodes_encoding(session as nat, 8);
    bytes::le_decodes_encoding(sequence as nat, 8);
    bytes::le_decodes_encoding(window as nat, 4);
    bytes::le_decodes_encoding(sent as nat, 8);
    bytes::le_decodes_encoding(sum as nat, 4);
    assert(all.subrange(6, 8) =~= bytes::le_bytes(lanes as nat, 2));
    assert(all.subrange(8, 16) =~= bytes::le_bytes(session as nat, 8));
    assert(all.subrange(16, 24) =~= bytes::le_bytes(sequence as nat, 8));
    assert(all.subrange(24, 28) =~= bytes::le_bytes(window as nat, 4));
    assert(all.subrange(28, 36) =~= bytes::le_bytes(sent as nat, 8));
    assert(all.subrange(36, 40) =~= bytes::le_bytes(sum as nat, 4));
    assert(all.subrange(0, 36) =~= fields);
    bytes::fields_are_little_endian(all, 6);
    bytes::fields_are_little_endian(all, 8);
    bytes::fields_are_little_endian(all, 16);
    bytes::fields_are_little_endian(all, 24);
    bytes::fields_are_little_endian(all, 28);
    bytes::fields_are_little_endian(all, 36);
}

/// Two contacts are of this pointer.
pub open spec fn doubled(contacts: Seq<Contact>, pointer: u8) -> bool {
    exists|i: int, j: int|
        0 <= i < j < contacts.len() && (#[trigger] contacts[i]).pointer_id == pointer && (
        #[trigger] contacts[j]).pointer_id == pointer
}

proof fn repeat_is_doubled(contacts: Seq<Contact>, from: nat)
    ensures
        frame::first_repeat(contacts, from) matches Some(i) ==> from <= i < contacts.len()
            && doubled(contacts, contacts[i].pointer_id),
    decreases contacts.len() - from,
{
    if from < contacts.len() {
        if frame::repeats(contacts, from as int) {
            let j = choose|j: int|
                0 <= j < from && (#[trigger] contacts[j]).pointer_id
                    == contacts[from as int].pointer_id;
            assert(contacts[j].pointer_id == contacts[from as int].pointer_id);
        } else {
            repeat_is_doubled(contacts, from + 1);
        }
    }
}

/// A refusal says what is wrong with the datagram, and names the value that is: what is shorter
/// than any frame or does not have the size that it states, a foreign mark, another version,
/// another kind of message, an action that there is not, a checksum that is not that of the
/// bytes before it, too many contacts, or two of one pointer. Size and mark come first, so that
/// the other fields are read only from what is a frame.
pub proof fn refused_frames_are_faulty(bytes: Seq<u8>)
    requires
        bytes.len() <= usize::MAX,
    ensures
        ({
            let size = bytes.len();
            let own_mark = bytes[0] == 0x48 && bytes[1] == 0x50 && bytes[2] == 0x54 && bytes[3]
                == 0x34;
            let stated = bytes::number16(bytes, 6);
            let framed = 72 <= size <= 232 && own_mark && stated == size;
            let sum = crc::checksum(bytes.take(size - 4));
            match frame::frame_of(bytes) {
                Err(ProtocolError::BadLength(length)) => {
                    ||| size < 72 && length == size
                    ||| size >= 72 && own_mark && (stated != size || size > 232) && length == stated
                    ||| framed && size != 72 + 10 * bytes[66] && length == size
                },
                Err(ProtocolError::BadMagic) => size >= 72 && !own_mark,
                Err(ProtocolError::BadVersion(version)) => framed && version == bytes[4] && version
                    != 4,
                Err(ProtocolError::BadMessageType(kind)) => framed && bytes[4] == 4 && kind
                    == bytes[5] && kind != 1,
                Err(ProtocolError::BadAction(action)) => framed && bytes[4] == 4 && bytes[5] == 1
                    && action == bytes[64] && action > 4,
                Err(ProtocolError::BadCrc { expected, actual }) => framed && bytes[64] <= 4
                    && expected == bytes::number32(bytes, size - 4) && actual == sum && expected
                    != actual,
                Err(ProtocolError::BadContactCount(count)) => framed && count == bytes[66] && count
                    > 16 && bytes::number32(bytes, size - 4) == sum,
                Err(ProtocolError::DuplicatePointerId(pointer)) => framed && size == 72 + 10
                    * bytes[66] && doubled(
                    frame::contacts_at(bytes, 68, bytes[66] as nat),
                    pointer,
                ),
                Ok(_) => framed,
            }
        }),
{
    if bytes.len() >= 72 {
        let size = bytes.len() as int;
        let mark = bytes.subrange(0, 4);
        frame_numbers(bytes);
        bytes::fields_are_little_endian(bytes, 6);
        bytes::fields_are_little_endian(bytes, size - 4);
        assert(bytes.subrange(0, size - 4) =~= bytes.take(size - 4));
        repeat_is_doubled(frame::contacts_at(bytes, 68, bytes[66] as nat), 0);
        if bytes[0] == 0x48 && bytes[1] == 0x50 && bytes[2] == 0x54 && bytes[3] == 0x34 {
            assert(mark =~= frame::FRAME_MAGIC@);
        } else if mark == frame::FRAME_MAGIC@ {
            assert(mark[0] == 0x48 && mark[1] == 0x50 && mark[2] == 0x54 && mark[3] == 0x34);
        }
    }
}

/// A datagram with the mark of a frame tells the version of its sender, where it is not the
/// host's own.
pub proof fn versions_are_told(bytes: Seq<u8>)
    ensures
        frame::foreign_version(bytes) == if bytes.len() >= 5 && bytes[0] == 0x48 && bytes[1] == 0x50
            && bytes[2] == 0x54 && bytes[3] == 0x34 && bytes[4] != 4 {
            Some(bytes[4])
        } else {
            None
        },
{
    if bytes.len() >= 5 {
        let mark = bytes.subrange(0, 4);
        if bytes[0] == 0x48 && bytes[1] == 0x50 && bytes[2] == 0x54 && bytes[3] == 0x34 {
            assert(mark =~= frame::FRAME_MAGIC@);
        } else if mark == frame::FRAME_MAGIC@ {
            assert(mark[0] == 0x48 && mark[1] == 0x50 && mark[2] == 0x54 && mark[3] == 0x34);
        }
    }
}

} // verus!
