//! Touch frames and their decoding.
use crate::bytes;
use crate::bytes::{has_prefix, read_i16, read_u16, read_u32, read_u64};
use crate::crc;
use crate::crc::crc32;
use crate::text;
use crate::text::{numbered, push_hex};
use vstd::prelude::*;
use vstd::string::*;

verus! {

pub const PROTOCOL_VERSION: u8 = 4;

/// `HPT4`.
pub const FRAME_MAGIC: [u8; 4] = [0x48, 0x50, 0x54, 0x34];

pub const MESSAGE_TOUCH_FRAME: u8 = 1;

pub const ACTION_HEARTBEAT: u8 = 0;

pub const ACTION_DOWN: u8 = 1;

pub const ACTION_MOVE: u8 = 2;

pub const ACTION_UP: u8 = 3;

pub const ACTION_CANCEL: u8 = 4;

pub const FRAME_FLAG_LOCKED: u8 = 0x01;

pub const FRAME_FLAG_SESSION_START: u8 = 0x02;

pub const FRAME_FLAG_HISTORICAL: u8 = 0x04;

pub const CONTACT_FLAG_INSIDE: u8 = 0x01;

pub const CONTACT_FLAG_TIP: u8 = 0x02;

pub const FRAME_HEADER_SIZE: usize = 68;

pub const CONTACT_SIZE: usize = 10;

pub const CRC_SIZE: usize = 4;

pub const MAX_CONTACTS: usize = 16;

pub const MAX_FRAME_SIZE: usize = 232;

/// One finger. The position is in ten-thousandths of the surface, the pressure and the
/// size in 65535ths of the greatest.
#[derive(Clone, Copy, Debug, PartialEq)]
pub struct Contact {
    pub pointer_id: u8,
    pub flags: u8,
    pub x: i16,
    pub y: i16,
    pub pressure: u16,
    pub touch_major: u16,
}

impl Contact {
    pub open spec fn is_inside(self) -> bool {
        self.flags & CONTACT_FLAG_INSIDE != 0
    }

    pub open spec fn is_touching(self) -> bool {
        self.flags & CONTACT_FLAG_TIP != 0
    }

    pub fn inside(&self) -> (yes: bool)
        ensures
            yes == self.is_inside(),
    {
        self.flags & CONTACT_FLAG_INSIDE != 0
    }

    pub fn touching(&self) -> (yes: bool)
        ensures
            yes == self.is_touching(),
    {
        self.flags & CONTACT_FLAG_TIP != 0
    }
}

impl Default for Contact {
    fn default() -> (contact: Contact)
        ensures
            contact == (Contact {
                pointer_id: 0,
                flags: 0,
                x: 0,
                y: 0,
                pressure: 0,
                touch_major: 0,
            }),
    {
        Contact { pointer_id: 0, flags: 0, x: 0, y: 0, pressure: 0, touch_major: 0 }
    }
}

/// A complete snapshot has a protocol-defined maximum, so it never needs a heap
/// allocation.
#[derive(Clone, Copy, Debug, PartialEq)]
pub struct Contacts {
    items: [Contact; 16],
    len: usize,
}

impl View for Contacts {
    type V = Seq<Contact>;

    closed spec fn view(&self) -> Seq<Contact> {
        self.items@.subrange(0, self.len as int)
    }
}

impl Contacts {
    #[verifier::type_invariant]
    spec fn type_inv(self) -> bool {
        self.len <= MAX_CONTACTS
    }

    pub fn push(&mut self, contact: Contact)
        requires
            old(self)@.len() < MAX_CONTACTS,
        ensures
            final(self)@ == old(self)@.push(contact),
    {
        proof {
            use_type_invariant(&*self);
        }
        let len: usize = self.len;
        self.items[len] = contact;
        self.len = len + 1;
        assert(self@ =~= old(self)@.push(contact));
    }

    pub fn len(&self) -> (len: usize)
        ensures
            len == self@.len(),
            len <= MAX_CONTACTS,
    {
        proof {
            use_type_invariant(self);
        }
        self.len
    }

    pub fn is_empty(&self) -> (empty: bool)
        ensures
            empty == (self@.len() == 0),
    {
        self.len() == 0
    }

    /// The contact at a place of the snapshot.
    pub fn at(&self, index: usize) -> (contact: Contact)
        requires
            index < self@.len(),
        ensures
            contact == self@[index as int],
    {
        proof {
            use_type_invariant(self);
        }
        self.items[index]
    }

    /// A snapshot of `contacts`.
    pub fn from_slice(contacts: &[Contact]) -> (snapshot: Contacts)
        requires
            contacts@.len() <= MAX_CONTACTS,
        ensures
            snapshot@ == contacts@,
    {
        let mut snapshot = Contacts::default();
        let mut i: usize = 0;
        while i < contacts.len()
            invariant
                i <= contacts@.len() <= MAX_CONTACTS,
                snapshot@ == contacts@.subrange(0, i as int),
            decreases contacts@.len() - i,
        {
            snapshot.push(contacts[i]);
            i = i + 1;
            assert(contacts@.subrange(0, i as int) =~= contacts@.subrange(0, i - 1).push(
                contacts@[i - 1],
            ));
        }
        assert(snapshot@ =~= contacts@);
        snapshot
    }
}

impl Default for Contacts {
    fn default() -> (contacts: Contacts)
        ensures
            contacts@ == Seq::<Contact>::empty(),
    {
        let empty = Contact {
            pointer_id: 0,
            flags: 0,
            x: 0,
            y: 0,
            pressure: 0,
            touch_major: 0,
        };
        let contacts = Contacts { items: [empty; 16], len: 0 };
        assert(contacts@ =~= Seq::<Contact>::empty());
        contacts
    }
}

#[derive(Clone, Copy, Debug, PartialEq)]
pub struct TouchFrame {
    pub session_id: u64,
    pub sequence: u64,
    pub phone_event_nanos: u64,
    pub phone_callback_nanos: u64,
    pub phone_send_nanos: u64,
    pub echo_host_send_nanos: u64,
    pub phone_control_receive_nanos: u64,
    pub action: u8,
    pub action_pointer_id: u8,
    pub flags: u8,
    pub contacts: Contacts,
}

/// What a frame says.
#[verifier::ext_equal]
pub struct FrameView {
    pub session_id: u64,
    pub sequence: u64,
    pub phone_event_nanos: u64,
    pub phone_callback_nanos: u64,
    pub phone_send_nanos: u64,
    pub echo_host_send_nanos: u64,
    pub phone_control_receive_nanos: u64,
    pub action: u8,
    pub action_pointer_id: u8,
    pub flags: u8,
    pub contacts: Seq<Contact>,
}

impl View for TouchFrame {
    type V = FrameView;

    open spec fn view(&self) -> FrameView {
        FrameView {
            session_id: self.session_id,
            sequence: self.sequence,
            phone_event_nanos: self.phone_event_nanos,
            phone_callback_nanos: self.phone_callback_nanos,
            phone_send_nanos: self.phone_send_nanos,
            echo_host_send_nanos: self.echo_host_send_nanos,
            phone_control_receive_nanos: self.phone_control_receive_nanos,
            action: self.action,
            action_pointer_id: self.action_pointer_id,
            flags: self.flags,
            contacts: self.contacts@,
        }
    }
}

impl FrameView {
    pub open spec fn is_locked(self) -> bool {
        self.flags & FRAME_FLAG_LOCKED != 0
    }

    pub open spec fn starts_session(self) -> bool {
        self.flags & FRAME_FLAG_SESSION_START != 0
    }

    pub open spec fn is_historical(self) -> bool {
        self.flags & FRAME_FLAG_HISTORICAL != 0
    }
}

impl TouchFrame {
    pub fn locked(&self) -> (yes: bool)
        ensures
            yes == self@.is_locked(),
    {
        self.flags & FRAME_FLAG_LOCKED != 0
    }

    pub fn session_start(&self) -> (yes: bool)
        ensures
            yes == self@.starts_session(),
    {
        self.flags & FRAME_FLAG_SESSION_START != 0
    }

    pub fn historical(&self) -> (yes: bool)
        ensures
            yes == self@.is_historical(),
    {
        self.flags & FRAME_FLAG_HISTORICAL != 0
    }
}

#[derive(Clone, Copy, Debug, PartialEq, Eq)]
pub enum ProtocolError {
    BadMagic,
    BadVersion(u8),
    BadMessageType(u8),
    BadAction(u8),
    BadLength(usize),
    BadContactCount(usize),
    DuplicatePointerId(u8),
    BadCrc { expected: u32, actual: u32 },
}

impl ProtocolError {
    /// The text for a reader.
    pub open spec fn wording(self) -> Seq<char> {
        match self {
            ProtocolError::BadMagic => "invalid touch frame magic"@,
            ProtocolError::BadVersion(version) => "unsupported touch protocol v"@ + text::decimal(
                version as nat,
            ),
            ProtocolError::BadMessageType(kind) => "unsupported message type "@ + text::decimal(
                kind as nat,
            ),
            ProtocolError::BadAction(action) => "unsupported touch action "@ + text::decimal(
                action as nat,
            ),
            ProtocolError::BadLength(length) => "invalid touch frame length "@ + text::decimal(
                length as nat,
            ),
            ProtocolError::BadContactCount(count) => "invalid contact count "@ + text::decimal(
                count as nat,
            ),
            ProtocolError::DuplicatePointerId(pointer) => "duplicate pointer ID "@ + text::decimal(
                pointer as nat,
            ),
            ProtocolError::BadCrc { expected, actual } => "touch frame CRC mismatch: expected "@
                + text::hex(expected as nat, 8) + ", got "@ + text::hex(actual as nat, 8),
        }
    }

    pub fn message(&self) -> (message: String)
        ensures
            message@ == self.wording(),
    {
        match *self {
            ProtocolError::BadMagic => "invalid touch frame magic".to_owned(),
            ProtocolError::BadVersion(version) => numbered(
                "unsupported touch protocol v",
                version as u64,
            ),
            ProtocolError::BadMessageType(kind) => numbered(
                "unsupported message type ",
                kind as u64,
            ),
            ProtocolError::BadAction(action) => numbered(
                "unsupported touch action ",
                action as u64,
            ),
            ProtocolError::BadLength(length) => numbered(
                "invalid touch frame length ",
                length as u64,
            ),
            ProtocolError::BadContactCount(count) => numbered(
                "invalid contact count ",
                count as u64,
            ),
            ProtocolError::DuplicatePointerId(pointer) => numbered(
                "duplicate pointer ID ",
                pointer as u64,
            ),
            ProtocolError::BadCrc { expected, actual } => {
                let mut message: String = "touch frame CRC mismatch: expected ".to_owned();
                push_hex(&mut message, expected as u64, 8);
                message.append(", got ");
                push_hex(&mut message, actual as u64, 8);
                message
            },
        }
    }
}

pub open spec fn known_action(action: u8) -> bool {
    action == ACTION_HEARTBEAT || action == ACTION_DOWN || action == ACTION_MOVE || action
        == ACTION_UP || action == ACTION_CANCEL
}

pub fn is_known_action(action: u8) -> (known: bool)
    ensures
        known == known_action(action),
{
    action == ACTION_HEARTBEAT || action == ACTION_DOWN || action == ACTION_MOVE || action
        == ACTION_UP || action == ACTION_CANCEL
}

/// The contact in the ten bytes that start at `at`.
pub open spec fn contact_at(bytes: Seq<u8>, at: int) -> Contact {
    Contact {
        pointer_id: bytes[at],
        flags: bytes[at + 1],
        x: bytes::signed16(bytes::field(bytes, at + 2, 2)) as i16,
        y: bytes::signed16(bytes::field(bytes, at + 4, 2)) as i16,
        pressure: bytes::field(bytes, at + 6, 2) as u16,
        touch_major: bytes::field(bytes, at + 8, 2) as u16,
    }
}

/// The first `count` contacts of a list that starts at `at`.
pub open spec fn contacts_at(bytes: Seq<u8>, at: int, count: nat) -> Seq<Contact> {
    Seq::new(count, |i: int| contact_at(bytes, at + i * CONTACT_SIZE))
}

/// Whether the pointer of contact `i` already stands before it.
pub open spec fn repeats(contacts: Seq<Contact>, i: int) -> bool {
    exists|j: int| 0 <= j < i && #[trigger] contacts[j].pointer_id == contacts[i].pointer_id
}

/// The first contact, from `from` on, whose pointer already stands before it.
pub open spec fn first_repeat(contacts: Seq<Contact>, from: nat) -> Option<int>
    decreases contacts.len() - from,
{
    if from >= contacts.len() {
        None
    } else if repeats(contacts, from as int) {
        Some(from as int)
    } else {
        first_repeat(contacts, from + 1)
    }
}

pub open spec fn frame_fields(bytes: Seq<u8>) -> FrameView {
    FrameView {
        session_id: bytes::field(bytes, 8, 8) as u64,
        sequence: bytes::field(bytes, 16, 8) as u64,
        phone_event_nanos: bytes::field(bytes, 24, 8) as u64,
        phone_callback_nanos: bytes::field(bytes, 32, 8) as u64,
        phone_send_nanos: bytes::field(bytes, 40, 8) as u64,
        echo_host_send_nanos: bytes::field(bytes, 48, 8) as u64,
        phone_control_receive_nanos: bytes::field(bytes, 56, 8) as u64,
        action: bytes[64],
        action_pointer_id: bytes[65],
        flags: bytes[67],
        contacts: contacts_at(bytes, FRAME_HEADER_SIZE as int, bytes[66] as nat),
    }
}

/// The frame in a datagram, or what is wrong with it.
pub open spec fn frame_of(bytes: Seq<u8>) -> Result<FrameView, ProtocolError> {
    let size = bytes.len() as int;
    let declared = bytes::field(bytes, 6, 2);
    let count = bytes[66] as int;
    let stored = bytes::field(bytes, size - CRC_SIZE, 4) as u32;
    let actual = crc::checksum(bytes.subrange(0, size - CRC_SIZE));
    if size < FRAME_HEADER_SIZE + CRC_SIZE {
        Err(ProtocolError::BadLength(size as usize))
    } else if bytes.subrange(0, 4) != FRAME_MAGIC@ {
        Err(ProtocolError::BadMagic)
    } else if declared != size || size > MAX_FRAME_SIZE {
        Err(ProtocolError::BadLength(declared as usize))
    } else if bytes[4] != PROTOCOL_VERSION {
        Err(ProtocolError::BadVersion(bytes[4]))
    } else if bytes[5] != MESSAGE_TOUCH_FRAME {
        Err(ProtocolError::BadMessageType(bytes[5]))
    } else if !known_action(bytes[64]) {
        Err(ProtocolError::BadAction(bytes[64]))
    } else if stored != actual {
        Err(ProtocolError::BadCrc { expected: stored, actual })
    } else if count > MAX_CONTACTS {
        Err(ProtocolError::BadContactCount(count as usize))
    } else if size != FRAME_HEADER_SIZE + count * CONTACT_SIZE + CRC_SIZE {
        Err(ProtocolError::BadLength(size as usize))
    } else {
        let contacts = contacts_at(bytes, FRAME_HEADER_SIZE as int, count as nat);
        match first_repeat(contacts, 0) {
            Some(i) => Err(ProtocolError::DuplicatePointerId(contacts[i].pointer_id)),
            None => Ok(frame_fields(bytes)),
        }
    }
}

/// The contact in the ten bytes that start at `at`.
pub fn read_contact(bytes: &[u8], at: usize) -> (contact: Contact)
    requires
        at + CONTACT_SIZE <= bytes@.len(),
    ensures
        contact == contact_at(bytes@, at as int),
{
    Contact {
        pointer_id: bytes[at],
        flags: bytes[at + 1],
        x: read_i16(bytes, at + 2),
        y: read_i16(bytes, at + 4),
        pressure: read_u16(bytes, at + 6),
        touch_major: read_u16(bytes, at + 8),
    }
}

pub fn decode_frame(bytes: &[u8]) -> (result: Result<TouchFrame, ProtocolError>)
    ensures
        match (result, frame_of(bytes@)) {
            (Ok(frame), Ok(view)) => frame@ == view,
            (Err(found), Err(owed)) => found == owed,
            _ => false,
        },
{
    let size: usize = bytes.len();
    if size < FRAME_HEADER_SIZE + CRC_SIZE {
        return Err(ProtocolError::BadLength(size));
    }
    if !has_prefix(bytes, &FRAME_MAGIC) {
        return Err(ProtocolError::BadMagic);
    }
    let declared: usize = read_u16(bytes, 6) as usize;
    if declared != size || size > MAX_FRAME_SIZE {
        return Err(ProtocolError::BadLength(declared));
    }
    if bytes[4] != PROTOCOL_VERSION {
        return Err(ProtocolError::BadVersion(bytes[4]));
    }
    if bytes[5] != MESSAGE_TOUCH_FRAME {
        return Err(ProtocolError::BadMessageType(bytes[5]));
    }
    if !is_known_action(bytes[64]) {
        return Err(ProtocolError::BadAction(bytes[64]));
    }
    let expected: u32 = read_u32(bytes, size - CRC_SIZE);
    let actual: u32 = crc32(&bytes[0..size - CRC_SIZE]);
    if expected != actual {
        return Err(ProtocolError::BadCrc { expected, actual });
    }
    let count: usize = bytes[66] as usize;
    if count > MAX_CONTACTS {
        return Err(ProtocolError::BadContactCount(count));
    }
    if size != FRAME_HEADER_SIZE + count * CONTACT_SIZE + CRC_SIZE {
        return Err(ProtocolError::BadLength(size));
    }
    let ghost all = contacts_at(bytes@, FRAME_HEADER_SIZE as int, count as nat);
    let mut contacts = Contacts::default();
    let mut seen: [bool; 256] = [false; 256];
    let mut index: usize = 0;
    while index < count
        invariant
            index <= count <= MAX_CONTACTS,
            size == bytes@.len(),
            size == FRAME_HEADER_SIZE + count * CONTACT_SIZE + CRC_SIZE,
            all == contacts_at(bytes@, FRAME_HEADER_SIZE as int, count as nat),
            contacts@ == all.subrange(0, index as int),
            first_repeat(all, 0) == first_repeat(all, index as nat),
            frame_of(bytes@) == match first_repeat(all, 0) {
                Some(i) => Err::<FrameView, ProtocolError>(
                    ProtocolError::DuplicatePointerId(all[i].pointer_id),
                ),
                None => Ok(frame_fields(bytes@)),
            },
            forall|id: u8| #[trigger]
                seen@[id as int] == exists|j: int|
                    0 <= j < index && (#[trigger] all[j]).pointer_id == id,
        decreases count - index,
    {
        let offset: usize = FRAME_HEADER_SIZE + index * CONTACT_SIZE;
        let contact: Contact = read_contact(bytes, offset);
        assert(contact == all[index as int]);
        let pointer_id: u8 = contact.pointer_id;
        if seen[pointer_id as usize] {
            assert(repeats(all, index as int));
            return Err(ProtocolError::DuplicatePointerId(pointer_id));
        }
        let ghost before = seen@;
        assert(!repeats(all, index as int));
        seen[pointer_id as usize] = true;
        contacts.push(contact);
        index = index + 1;
        assert(all.subrange(0, index as int) =~= all.subrange(0, index - 1).push(all[index - 1]));
        assert forall|id: u8| #[trigger] seen@[id as int] == exists|j: int|
            0 <= j < index && (#[trigger] all[j]).pointer_id == id by {
            if id == pointer_id {
                assert(all[index - 1].pointer_id == id);
            } else {
                assert(seen@[id as int] == before[id as int]);
                if before[id as int] {
                    let j = choose|j: int|
                        0 <= j < index - 1 && (#[trigger] all[j]).pointer_id == id;
                    assert(all[j].pointer_id == id);
                }
            }
        }
    }
    assert(contacts@ =~= all);
    Ok(
        TouchFrame {
            session_id: read_u64(bytes, 8),
            sequence: read_u64(bytes, 16),
            phone_event_nanos: read_u64(bytes, 24),
            phone_callback_nanos: read_u64(bytes, 32),
            phone_send_nanos: read_u64(bytes, 40),
            echo_host_send_nanos: read_u64(bytes, 48),
            phone_control_receive_nanos: read_u64(bytes, 56),
            action: bytes[64],
            action_pointer_id: bytes[65],
            flags: bytes[67],
            contacts,
        },
    )
}

/// What a parser holds.
pub struct FrameParserView {
    pub discarded_bytes: u64,
    pub connection_discarded_bytes: u64,
    pub invalid_frames: u64,
    pub incompatible_version: Option<u8>,
}

/// Decodes datagrams and counts those that it cannot.
pub struct FrameParser {
    pub discarded_bytes: u64,
    pub connection_discarded_bytes: u64,
    pub invalid_frames: u64,
    incompatible_version: Option<u8>,
}

impl View for FrameParser {
    type V = FrameParserView;

    closed spec fn view(&self) -> FrameParserView {
        FrameParserView {
            discarded_bytes: self.discarded_bytes,
            connection_discarded_bytes: self.connection_discarded_bytes,
            invalid_frames: self.invalid_frames,
            incompatible_version: self.incompatible_version,
        }
    }
}

/// The version that a datagram of another version of this protocol names.
pub open spec fn foreign_version(bytes: Seq<u8>) -> Option<u8> {
    if bytes.len() > 4 && bytes.subrange(0, 4) == FRAME_MAGIC@ && bytes[4] != PROTOCOL_VERSION {
        Some(bytes[4])
    } else {
        None
    }
}

impl FrameParser {
    pub fn begin_connection(&mut self)
        ensures
            final(self)@ == (FrameParserView { incompatible_version: None, ..old(self)@ }),
    {
        self.incompatible_version = None;
    }

    /// Decodes one datagram, without copying it.
    pub fn decode_datagram(&mut self, bytes: &[u8]) -> (result: Result<TouchFrame, ProtocolError>)
        requires
            old(self)@.invalid_frames < u64::MAX,
        ensures
            match (result, frame_of(bytes@)) {
                (Ok(frame), Ok(view)) => frame@ == view,
                (Err(found), Err(owed)) => found == owed,
                _ => false,
            },
            final(self)@ == (FrameParserView {
                invalid_frames: if result is Err {
                    (old(self)@.invalid_frames + 1) as u64
                } else {
                    old(self)@.invalid_frames
                },
                incompatible_version: if foreign_version(bytes@) is Some {
                    foreign_version(bytes@)
                } else {
                    old(self)@.incompatible_version
                },
                ..old(self)@
            }),
    {
        if bytes.len() > 4 && has_prefix(bytes, &FRAME_MAGIC) && bytes[4] != PROTOCOL_VERSION {
            self.incompatible_version = Some(bytes[4]);
        }
        let result: Result<TouchFrame, ProtocolError> = decode_frame(bytes);
        if result.is_err() {
            self.invalid_frames = self.invalid_frames + 1;
        }
        result
    }

    pub fn take_incompatible_version(&mut self) -> (version: Option<u8>)
        ensures
            version == old(self)@.incompatible_version,
            final(self)@ == (FrameParserView { incompatible_version: None, ..old(self)@ }),
    {
        let version: Option<u8> = self.incompatible_version;
        self.incompatible_version = None;
        version
    }

    /// How many datagrams could not be decoded.
    pub fn invalid_count(&self) -> (count: u64)
        ensures
            count == self@.invalid_frames,
    {
        self.invalid_frames
    }
}

impl Default for FrameParser {
    fn default() -> (parser: FrameParser)
        ensures
            parser@ == (FrameParserView {
                discarded_bytes: 0,
                connection_discarded_bytes: 0,
                invalid_frames: 0,
                incompatible_version: None,
            }),
    {
        FrameParser {
            discarded_bytes: 0,
            connection_discarded_bytes: 0,
            invalid_frames: 0,
            incompatible_version: None,
        }
    }
}

proof fn no_repeat_means_distinct(contacts: Seq<Contact>, from: nat)
    requires
        first_repeat(contacts, from) is None,
    ensures
        forall|i: int| from <= i < contacts.len() ==> !repeats(contacts, i),
    decreases contacts.len() - from,
{
    if from < contacts.len() {
        no_repeat_means_distinct(contacts, from + 1);
    }
}

/// A decoded frame names each pointer once, and no more of them than a snapshot holds.
pub proof fn decoded_pointers_are_distinct(bytes: Seq<u8>)
    ensures
        frame_of(bytes) matches Ok(frame) ==> frame.contacts.len() <= MAX_CONTACTS && forall|
            i: int,
            j: int,
        |
            0 <= i < j < frame.contacts.len() ==> (#[trigger] frame.contacts[i]).pointer_id != (
            #[trigger] frame.contacts[j]).pointer_id,
{
    if let Ok(frame) = frame_of(bytes) {
        no_repeat_means_distinct(frame.contacts, 0);
        assert forall|i: int, j: int| 0 <= i < j < frame.contacts.len() implies (
        #[trigger] frame.contacts[i]).pointer_id != (#[trigger] frame.contacts[j]).pointer_id by {
            assert(!repeats(frame.contacts, j));
        }
    }
}

/// A frame with one byte changed is never decoded.
pub proof fn one_changed_byte_is_rejected(bytes: Seq<u8>, at: int, other: u8)
    requires
        frame_of(bytes) is Ok,
        0 <= at < bytes.len(),
        other != bytes[at],
    ensures
        frame_of(bytes.update(at, other)) is Err,
{
    let changed = bytes.update(at, other);
    let end = bytes.len() - CRC_SIZE;
    let before = bytes.subrange(0, end);
    let after = changed.subrange(0, end);
    let size = bytes.len() as int;
    let stored = bytes.subrange(end, end + 4);
    let restored = changed.subrange(end, end + 4);
    crate::bytes::byte_ranges();
    crate::bytes::field_bounds(bytes, end, 4);
    crate::bytes::field_bounds(changed, end, 4);
    if at < end {
        assert(after =~= before.update(at, other));
        crc::one_byte_changes_checksum(before, at, other);
        assert(restored =~= stored);
    } else {
        assert(after =~= before);
        assert(restored[at - end] != stored[at - end]);
    }
}

} // verus!
