//! Authenticated records of one connection.
use crate::bytes;
use crate::bytes::{push_bytes, push_u64, to_array, write_at};
use crate::v5::crypto;
use crate::v5::crypto::{decrypt, encrypt, wipe};
use crate::v5::replay;
use crate::v5::replay::{ReplayView, ReplayWindow};
use crate::v5::sas;
use crate::v5::sas::connection_id;
use crate::v5::wire;
use crate::v5::wire::{
    decode_record_header, write_record_header, Direction, OpenedRecord, RecordHeader, WireError,
    MAX_DATAGRAM_SIZE, RECORD_HEADER_SIZE, TAG_SIZE,
};
use snow::HandshakeState;
use vstd::prelude::*;

verus! {

/// The state of a Noise handshake.
#[verifier::external_type_specification]
#[verifier::external_body]
pub struct ExHandshakeState(snow::HandshakeState);

/// Whether all messages of a handshake were exchanged.
pub uninterp spec fn handshake_finished(state: HandshakeState) -> bool;

/// The hash of the messages of a handshake so far.
pub uninterp spec fn handshake_hash(state: HandshakeState) -> Seq<u8>;

/// The keys that a handshake comes to: that of the initiator and that of the responder.
pub uninterp spec fn handshake_keys(state: HandshakeState) -> (Seq<u8>, Seq<u8>);

/// `snow::HandshakeState::is_handshake_finished`: whether all messages of the pattern
/// were exchanged, which the state alone decides.
pub assume_specification[ snow::HandshakeState::is_handshake_finished ](
    state: &HandshakeState,
) -> (finished: bool)
    ensures
        finished == handshake_finished(*state),
;

/// `snow::HandshakeState::get_handshake_hash`: the hash of the transcript, as the state
/// holds it.
pub assume_specification[ snow::HandshakeState::get_handshake_hash ](
    state: &HandshakeState,
) -> (hash: &[u8])
    ensures
        hash@ == handshake_hash(*state),
;

/// `snow::HandshakeState::dangerously_get_raw_split`: the key of the initiator and that
/// of the responder, derived from the chaining key that the state holds. Neither the
/// transcript nor the place in the pattern changes.
#[verifier::external_body]
fn raw_split(state: &mut HandshakeState) -> (keys: ([u8; 32], [u8; 32]))
    ensures
        (keys.0@, keys.1@) == handshake_keys(*old(state)),
        handshake_finished(*final(state)) == handshake_finished(*old(state)),
        handshake_hash(*final(state)) == handshake_hash(*old(state)),
        handshake_keys(*final(state)) == handshake_keys(*old(state)),
{
    state.dangerously_get_raw_split()
}

/// What the cipher of a connection holds.
#[verifier::ext_equal]
pub struct CipherView {
    pub send_key: Seq<u8>,
    pub receive_key: Seq<u8>,
    pub connection_id: u64,
    pub next_packet_number: u64,
    pub replay: ReplayView,
}

/// The nonce of a packet: four zero bytes and the number.
pub open spec fn nonce_of(packet_number: u64) -> Seq<u8> {
    seq![0u8, 0u8, 0u8, 0u8] + bytes::le_bytes(packet_number as nat, 8)
}

/// A record: the header, the payload encrypted under it, the tag.
pub open spec fn record_bytes(key: Seq<u8>, header: RecordHeader, payload: Seq<u8>) -> Seq<u8> {
    let (ciphertext, tag) = crypto::aead_sealed(
        key,
        nonce_of(header.packet_number),
        wire::header_bytes(header),
        payload,
    );
    wire::header_bytes(header) + ciphertext + tag
}

/// The size of a record with a payload of `length` bytes.
pub open spec fn record_size(length: nat) -> nat {
    RECORD_HEADER_SIZE as nat + length + TAG_SIZE as nat
}

/// The length that an error names: that of the record, or of the payload where the
/// record's does not fit.
pub open spec fn named_size(length: nat) -> usize {
    if record_size(length) > usize::MAX {
        length as usize
    } else {
        record_size(length) as usize
    }
}

impl CipherView {
    pub open spec fn fresh(send_key: Seq<u8>, receive_key: Seq<u8>, connection_id: u64) -> CipherView {
        CipherView {
            send_key,
            receive_key,
            connection_id,
            next_packet_number: 0,
            replay: ReplayView::empty(),
        }
    }

    /// What a side holds after a handshake with this hash and these keys.
    pub open spec fn split(
        handshake_hash: Seq<u8>,
        initiator_key: Seq<u8>,
        responder_key: Seq<u8>,
        local_is_initiator: bool,
    ) -> CipherView {
        let id = sas::connection_number(handshake_hash) as u64;
        if local_is_initiator {
            CipherView::fresh(initiator_key, responder_key, id)
        } else {
            CipherView::fresh(responder_key, initiator_key, id)
        }
    }

    /// The header of the next record.
    pub open spec fn next_header(
        self,
        direction: Direction,
        message_type: u8,
        session_id: u64,
        logical_id: u64,
        flags: u32,
        length: nat,
    ) -> RecordHeader {
        RecordHeader {
            direction,
            message_type,
            connection_id: self.connection_id,
            session_id,
            packet_number: self.next_packet_number,
            logical_id,
            flags,
            payload_length: length as u16,
        }
    }

    /// The state after an attempt to seal: the number is used up, whatever comes of it.
    pub open spec fn burned(self) -> CipherView {
        if self.next_packet_number == u64::MAX {
            self
        } else {
            CipherView { next_packet_number: (self.next_packet_number + 1) as u64, ..self }
        }
    }

    /// Why a payload cannot be sealed into `room` bytes.
    pub open spec fn seal_error(self, length: nat, room: nat) -> Option<WireError> {
        if self.next_packet_number == u64::MAX {
            Some(WireError::PacketNumberExhausted)
        } else if record_size(length) > MAX_DATAGRAM_SIZE || record_size(length) > room {
            Some(WireError::BadLength(named_size(length)))
        } else {
            None
        }
    }

    /// The header and the payload of a record, or why it is refused.
    pub open spec fn opened(self, expected: Direction, bytes: Seq<u8>) -> Result<
        (RecordHeader, Seq<u8>),
        WireError,
    > {
        match wire::header_of(bytes, expected) {
            Err(error) => Err(error),
            Ok(header) => {
                let end = RECORD_HEADER_SIZE + header.payload_length;
                if header.connection_id != self.connection_id {
                    Err(WireError::WrongConnection)
                } else if !self.replay.accepts(header.packet_number) {
                    Err(WireError::Replay)
                } else {
                    match crypto::aead_opened(
                        self.receive_key,
                        nonce_of(header.packet_number),
                        bytes.subrange(0, RECORD_HEADER_SIZE as int),
                        bytes.subrange(RECORD_HEADER_SIZE as int, end),
                        bytes.subrange(end, bytes.len() as int),
                    ) {
                        None => Err(WireError::BadTag),
                        Some(payload) => Ok((header, payload)),
                    }
                }
            },
        }
    }

    /// The state after an attempt to open: only a record whose tag is right is remembered.
    pub open spec fn after_open(self, expected: Direction, bytes: Seq<u8>) -> CipherView {
        match self.opened(expected, bytes) {
            Ok((header, payload)) => CipherView {
                replay: self.replay.committed(header.packet_number),
                ..self
            },
            Err(_) => self,
        }
    }

    /// Whether a peer opens exactly this payload from a record.
    pub open spec fn is_read_back(
        self,
        direction: Direction,
        bytes: Seq<u8>,
        header: RecordHeader,
        payload: Seq<u8>,
    ) -> bool {
        forall|peer: CipherView|
            peer.receive_key == self.send_key && peer.connection_id == self.connection_id
                && peer.replay.accepts(header.packet_number) ==> #[trigger] peer.opened(
                direction,
                bytes,
            ) == Ok::<(RecordHeader, Seq<u8>), WireError>((header, payload))
    }
}

/// Directional keys and packet state of one completed handshake.
pub struct RecordCipher {
    send_key: [u8; 32],
    receive_key: [u8; 32],
    connection_id: u64,
    next_packet_number: u64,
    replay: ReplayWindow,
}

impl View for RecordCipher {
    type V = CipherView;

    closed spec fn view(&self) -> CipherView {
        CipherView {
            send_key: self.send_key@,
            receive_key: self.receive_key@,
            connection_id: self.connection_id,
            next_packet_number: self.next_packet_number,
            replay: self.replay@,
        }
    }
}

impl RecordCipher {
    /// The cipher of a handshake that is finished. Each side sends under the key of its own
    /// role.
    pub fn from_handshake(handshake: &mut HandshakeState, local_is_initiator: bool) -> (result:
        Result<RecordCipher, WireError>)
        ensures
            match result {
                Ok(cipher) => handshake_finished(*old(handshake)) && cipher@ == CipherView::split(
                    handshake_hash(*old(handshake)),
                    handshake_keys(*old(handshake)).0,
                    handshake_keys(*old(handshake)).1,
                    local_is_initiator,
                ),
                Err(error) => !handshake_finished(*old(handshake)) && error
                    == WireError::HandshakeIncomplete,
            },
            handshake_finished(*final(handshake)) == handshake_finished(*old(handshake)),
            handshake_hash(*final(handshake)) == handshake_hash(*old(handshake)),
            handshake_keys(*final(handshake)) == handshake_keys(*old(handshake)),
    {
        if !handshake.is_handshake_finished() {
            return Err(WireError::HandshakeIncomplete);
        }
        let mut hash: Vec<u8> = Vec::new();
        push_bytes(&mut hash, handshake.get_handshake_hash());
        assert(hash@ =~= handshake_hash(*old(handshake)));
        let (initiator_key, responder_key) = raw_split(handshake);
        RecordCipher::from_split(
            true,
            hash.as_slice(),
            initiator_key,
            responder_key,
            local_is_initiator,
        )
    }

    /// The cipher from what a handshake hands out: each side sends under the key of its
    /// own role.
    pub fn from_split(
        finished: bool,
        handshake_hash: &[u8],
        initiator_key: [u8; 32],
        responder_key: [u8; 32],
        local_is_initiator: bool,
    ) -> (result: Result<RecordCipher, WireError>)
        ensures
            match result {
                Ok(cipher) => finished && cipher@ == CipherView::split(
                    handshake_hash@,
                    initiator_key@,
                    responder_key@,
                    local_is_initiator,
                ),
                Err(error) => !finished && error == WireError::HandshakeIncomplete,
            },
    {
        if !finished {
            return Err(WireError::HandshakeIncomplete);
        }
        let id: u64 = connection_id(handshake_hash);
        if local_is_initiator {
            Ok(RecordCipher::from_keys(initiator_key, responder_key, id))
        } else {
            Ok(RecordCipher::from_keys(responder_key, initiator_key, id))
        }
    }

    pub fn from_keys(
        send_key: [u8; 32],
        receive_key: [u8; 32],
        connection_id: u64,
    ) -> (cipher: RecordCipher)
        ensures
            cipher@ == CipherView::fresh(send_key@, receive_key@, connection_id),
    {
        RecordCipher {
            send_key,
            receive_key,
            connection_id,
            next_packet_number: 0,
            replay: ReplayWindow::default(),
        }
    }

    pub fn connection_id(&self) -> (id: u64)
        ensures
            id == self@.connection_id,
    {
        self.connection_id
    }

    pub fn next_packet_number(&self) -> (number: u64)
        ensures
            number == self@.next_packet_number,
    {
        self.next_packet_number
    }

    pub fn seal(
        &mut self,
        direction: Direction,
        message_type: u8,
        session_id: u64,
        logical_id: u64,
        flags: u32,
        payload: &[u8],
    ) -> (result: Result<Vec<u8>, WireError>)
        ensures
            final(self)@ == old(self)@.burned(),
            match result {
                Err(error) => old(self)@.seal_error(payload@.len(), MAX_DATAGRAM_SIZE as nat)
                    == Some(error),
                Ok(bytes) => {
                    let header = old(self)@.next_header(
                        direction,
                        message_type,
                        session_id,
                        logical_id,
                        flags,
                        payload@.len(),
                    );
                    &&& old(self)@.seal_error(payload@.len(), MAX_DATAGRAM_SIZE as nat) is None
                    &&& bytes@ == record_bytes(old(self)@.send_key, header, payload@)
                    &&& bytes@.len() == record_size(payload@.len())
                    &&& old(self)@.is_read_back(direction, bytes@, header, payload@)
                },
            },
    {
        let packet_number: u64 = self.next_packet_number;
        let Some(next) = packet_number.checked_add(1) else {
            return Err(WireError::PacketNumberExhausted);
        };
        self.next_packet_number = next;
        let complete: Option<usize> = match RECORD_HEADER_SIZE.checked_add(payload.len()) {
            Some(partial) => partial.checked_add(TAG_SIZE),
            None => None,
        };
        let Some(complete_length) = complete else {
            return Err(WireError::BadLength(payload.len()));
        };
        if complete_length > MAX_DATAGRAM_SIZE {
            return Err(WireError::BadLength(complete_length));
        }
        let header = RecordHeader {
            direction,
            message_type,
            connection_id: self.connection_id,
            session_id,
            packet_number,
            logical_id,
            flags,
            payload_length: payload.len() as u16,
        };
        let head: [u8; 48] = write_record_header(&header);
        let nonce: [u8; 12] = noise_nonce(packet_number);
        match encrypt(&self.send_key, &nonce, &head, payload) {
            Ok((ciphertext, tag)) => {
                let mut bytes: Vec<u8> = Vec::with_capacity(complete_length);
                push_bytes(&mut bytes, &head);
                push_bytes(&mut bytes, ciphertext.as_slice());
                push_bytes(&mut bytes, &tag);
                proof {
                    let rest = ciphertext@ + tag@;
                    assert(bytes@ =~= wire::header_bytes(header) + rest);
                    assert(bytes@ =~= record_bytes(self.send_key@, header, payload@));
                    wire::header_width(header);
                    wire::header_round_trip(header, rest);
                    let end = RECORD_HEADER_SIZE + payload@.len();
                    assert(bytes@.subrange(0, RECORD_HEADER_SIZE as int) =~= head@);
                    assert(bytes@.subrange(RECORD_HEADER_SIZE as int, end as int) =~= ciphertext@);
                    assert(bytes@.subrange(end as int, bytes@.len() as int) =~= tag@);
                }
                Ok(bytes)
            },
            Err(_) => Err(WireError::EncryptFailed),
        }
    }

    /// The caller owns the datagram buffer; every attempt still uses up a number.
    pub fn seal_into(
        &mut self,
        direction: Direction,
        message_type: u8,
        session_id: u64,
        logical_id: u64,
        flags: u32,
        payload: &[u8],
        output: &mut [u8],
    ) -> (result: Result<usize, WireError>)
        ensures
            final(self)@ == old(self)@.burned(),
            final(output)@.len() == old(output)@.len(),
            match result {
                Err(error) => old(self)@.seal_error(payload@.len(), old(output)@.len()) == Some(
                    error,
                ) && final(output)@ == old(output)@,
                Ok(length) => {
                    let header = old(self)@.next_header(
                        direction,
                        message_type,
                        session_id,
                        logical_id,
                        flags,
                        payload@.len(),
                    );
                    let written = final(output)@.subrange(0, length as int);
                    &&& old(self)@.seal_error(payload@.len(), old(output)@.len()) is None
                    &&& length == record_size(payload@.len())
                    &&& written == record_bytes(old(self)@.send_key, header, payload@)
                    &&& old(self)@.is_read_back(direction, written, header, payload@)
                    &&& final(output)@.subrange(length as int, old(output)@.len() as int) == old(
                        output,
                    )@.subrange(length as int, old(output)@.len() as int)
                },
            },
    {
        if self.next_packet_number < u64::MAX && payload.len() <= MAX_DATAGRAM_SIZE - (
        RECORD_HEADER_SIZE + TAG_SIZE) && output.len() < RECORD_HEADER_SIZE + payload.len()
            + TAG_SIZE {
            self.next_packet_number = self.next_packet_number + 1;
            return Err(WireError::BadLength(RECORD_HEADER_SIZE + payload.len() + TAG_SIZE));
        }
        match self.seal(direction, message_type, session_id, logical_id, flags, payload) {
            Err(error) => Err(error),
            Ok(bytes) => {
                write_at(output, 0, bytes.as_slice());
                proof {
                    let length = bytes@.len() as int;
                    assert(output@.subrange(0, length) =~= bytes@);
                    assert(output@.subrange(length, output@.len() as int) =~= old(output)@.subrange(
                        length,
                        old(output)@.len() as int,
                    ));
                }
                Ok(bytes.len())
            },
        }
    }

    pub fn open(&mut self, expected_direction: Direction, bytes: &[u8]) -> (result: Result<
        OpenedRecord,
        WireError,
    >)
        ensures
            final(self)@ == old(self)@.after_open(expected_direction, bytes@),
            match (result, old(self)@.opened(expected_direction, bytes@)) {
                (Ok(record), Ok((header, payload))) => {
                    &&& record.header == header
                    &&& record.payload@ == payload
                    &&& payload.len() == header.payload_length
                    &&& bytes@ == record_bytes(old(self)@.receive_key, header, payload)
                },
                (Err(found), Err(owed)) => found == owed,
                _ => false,
            },
    {
        let header: RecordHeader = match decode_record_header(bytes, expected_direction) {
            Ok(header) => header,
            Err(error) => {
                return Err(error);
            },
        };
        if header.connection_id != self.connection_id {
            return Err(WireError::WrongConnection);
        }
        if !self.replay.would_accept(header.packet_number) {
            return Err(WireError::Replay);
        }
        let end: usize = RECORD_HEADER_SIZE + header.payload_length as usize;
        let nonce: [u8; 12] = noise_nonce(header.packet_number);
        let tag: [u8; 16] = to_array::<16>(&bytes[end..bytes.len()]);
        match decrypt(
            &self.receive_key,
            &nonce,
            &bytes[0..RECORD_HEADER_SIZE],
            &bytes[RECORD_HEADER_SIZE..end],
            &tag,
        ) {
            Ok(payload) => {
                self.replay.commit(header.packet_number);
                proof {
                    header_is_canonical(bytes@, expected_direction);
                    let head = bytes@.subrange(0, RECORD_HEADER_SIZE as int);
                    let ciphertext = bytes@.subrange(RECORD_HEADER_SIZE as int, end as int);
                    assert(bytes@ =~= head + ciphertext + tag@);
                    assert(self@ =~= old(self)@.after_open(expected_direction, bytes@));
                }
                Ok(OpenedRecord { header, payload })
            },
            Err(_) => Err(WireError::BadTag),
        }
    }

    pub fn open_in_place(&mut self, expected_direction: Direction, bytes: &mut [u8]) -> (result:
        Result<RecordHeader, WireError>)
        ensures
            final(self)@ == old(self)@.after_open(expected_direction, old(bytes)@),
            match (result, old(self)@.opened(expected_direction, old(bytes)@)) {
                (Ok(found), Ok((header, payload))) => {
                    let end = RECORD_HEADER_SIZE + header.payload_length;
                    &&& found == header
                    &&& payload.len() == header.payload_length
                    &&& final(bytes)@ == old(bytes)@.subrange(0, RECORD_HEADER_SIZE as int)
                        + payload + old(bytes)@.subrange(end, old(bytes)@.len() as int)
                },
                (Err(found), Err(owed)) => found == owed && final(bytes)@ == old(bytes)@,
                _ => false,
            },
    {
        match self.open(expected_direction, bytes) {
            Ok(record) => {
                write_at(bytes, RECORD_HEADER_SIZE, record.payload.as_slice());
                Ok(record.header)
            },
            Err(error) => Err(error),
        }
    }
}

impl Drop for RecordCipher {
    /// Erases the keys.
    fn drop(&mut self)
        opens_invariants none
        no_unwind
    {
        wipe(&mut self.send_key);
        wipe(&mut self.receive_key);
        self.next_packet_number = 0;
    }
}

fn noise_nonce(packet_number: u64) -> (nonce: [u8; 12])
    ensures
        nonce@ == nonce_of(packet_number),
{
    let mut nonce: Vec<u8> = Vec::with_capacity(12);
    nonce.push(0);
    nonce.push(0);
    nonce.push(0);
    nonce.push(0);
    push_u64(&mut nonce, packet_number);
    assert(nonce@ =~= nonce_of(packet_number));
    proof {
        bytes::le_bytes_width(packet_number as nat, 8);
    }
    to_array::<12>(nonce.as_slice())
}

/// The two sides of a handshake fit together: each receives under the key that the other
/// sends under, on the same connection.
pub proof fn sides_of_a_handshake_fit(
    handshake_hash: Seq<u8>,
    initiator_key: Seq<u8>,
    responder_key: Seq<u8>,
    local_is_initiator: bool,
)
    ensures
        ({
            let local = CipherView::split(
                handshake_hash,
                initiator_key,
                responder_key,
                local_is_initiator,
            );
            let remote = CipherView::split(
                handshake_hash,
                initiator_key,
                responder_key,
                !local_is_initiator,
            );
            &&& local.send_key == remote.receive_key
            &&& local.receive_key == remote.send_key
            &&& local.connection_id == remote.connection_id
        }),
{
}

/// A header that is accepted has no other encoding than the bytes it was read from.
pub proof fn header_is_canonical(bytes: Seq<u8>, direction: Direction)
    ensures
        wire::header_of(bytes, direction) matches Ok(header) ==> wire::header_bytes(header)
            == bytes.subrange(0, RECORD_HEADER_SIZE as int),
{
    if let Ok(header) = wire::header_of(bytes, direction) {
        bytes::byte_ranges();
        bytes::field_bounds(bytes, 6, 2);
        bytes::field_bounds(bytes, 8, 8);
        bytes::field_bounds(bytes, 16, 8);
        bytes::field_bounds(bytes, 24, 8);
        bytes::field_bounds(bytes, 32, 8);
        bytes::field_bounds(bytes, 40, 4);
        bytes::field_bounds(bytes, 44, 2);
        bytes::field_bounds(bytes, 46, 2);
        reveal_with_fuel(bytes::le_bytes, 3);
        let zero = bytes.subrange(46, 48);
        assert(zero =~= seq![0u8, 0u8]);
        assert(bytes.subrange(0, 48) =~= bytes.subrange(0, 4) + seq![bytes[4], bytes[5]]
            + bytes.subrange(6, 8) + bytes.subrange(8, 16) + bytes.subrange(16, 24)
            + bytes.subrange(24, 32) + bytes.subrange(32, 40) + bytes.subrange(40, 44)
            + bytes.subrange(44, 46) + zero);
    }
}

/// A record that was opened is refused when it comes again.
pub proof fn opened_record_is_refused_again(
    cipher: CipherView,
    direction: Direction,
    bytes: Seq<u8>,
)
    requires
        cipher.opened(direction, bytes) is Ok,
    ensures
        cipher.after_open(direction, bytes).opened(direction, bytes) == Err::<
            (RecordHeader, Seq<u8>),
            WireError,
        >(WireError::Replay),
{
    let (header, payload) = cipher.opened(direction, bytes)->Ok_0;
    replay::committed_number_is_refused(cipher.replay, header.packet_number);
}

/// A record that is refused changes nothing: neither a wrong tag nor a replay moves the
/// window.
pub proof fn refused_record_changes_nothing(
    cipher: CipherView,
    direction: Direction,
    bytes: Seq<u8>,
)
    requires
        cipher.opened(direction, bytes) is Err,
    ensures
        cipher.after_open(direction, bytes) == cipher,
{
}

/// Two attempts to seal never use the same number, so no two records share a nonce.
pub proof fn numbers_are_never_reused(cipher: CipherView)
    requires
        cipher.next_packet_number < u64::MAX,
    ensures
        cipher.burned().next_packet_number > cipher.next_packet_number,
        nonce_of(cipher.burned().next_packet_number) != nonce_of(cipher.next_packet_number),
{
    let a = cipher.next_packet_number as nat;
    let b = cipher.burned().next_packet_number as nat;
    bytes::byte_ranges();
    bytes::le_bytes_width(a, 8);
    bytes::le_bytes_width(b, 8);
    bytes::le_decodes_encoding(a, 8);
    bytes::le_decodes_encoding(b, 8);
    assert(nonce_of(a as u64).subrange(4, 12) =~= bytes::le_bytes(a, 8));
    assert(nonce_of(b as u64).subrange(4, 12) =~= bytes::le_bytes(b, 8));
}

/// Each side sends under the key of its own role and receives under that of the other, from
/// packet zero on, with nothing received yet; the connection has the number in the first
/// eight bytes of its digest.
pub proof fn sides_take_their_roles(
    handshake_hash: Seq<u8>,
    initiator_key: Seq<u8>,
    responder_key: Seq<u8>,
)
    requires
        crypto::blake2s(sas::connection_domain() + handshake_hash).len() == 32,
    ensures
        ({
            let initiator = CipherView::split(handshake_hash, initiator_key, responder_key, true);
            let responder = CipherView::split(handshake_hash, initiator_key, responder_key, false);
            let digest = crypto::blake2s(sas::connection_domain() + handshake_hash);
            &&& initiator.send_key == initiator_key && initiator.receive_key == responder_key
            &&& responder.send_key == responder_key && responder.receive_key == initiator_key
            &&& initiator.connection_id == bytes::number64(digest, 0)
            &&& initiator.next_packet_number == 0 && responder.next_packet_number == 0
            &&& forall|number: u64| #[trigger] initiator.replay.accepts(number)
        }),
{
    let digest = crypto::blake2s(sas::connection_domain() + handshake_hash);
    bytes::fields_are_little_endian(digest, 0);
}

/// A nonce is four zero bytes and the number of the packet.
pub proof fn nonce_holds_the_number(packet_number: u64)
    ensures
        nonce_of(packet_number).len() == 12,
        bytes::number32(nonce_of(packet_number), 0) == 0,
        bytes::number64(nonce_of(packet_number), 4) == packet_number,
{
    let zero = seq![0u8, 0u8, 0u8, 0u8];
    let nonce = nonce_of(packet_number);
    bytes::byte_ranges();
    bytes::le_bytes_width(packet_number as nat, 8);
    assert(nonce =~= zero + bytes::le_bytes(packet_number as nat, 8) + Seq::<u8>::empty());
    bytes::field_of_concat(zero, packet_number as nat, 8, Seq::empty());
    bytes::fields_are_little_endian(nonce, 4);
}

/// A payload can be sealed exactly where a number is left and the record, which is 64 bytes
/// longer, fits both the room and a datagram of 1200 bytes. Every attempt with a number left
/// uses it up, and changes nothing else.
pub proof fn sealing_needs_room(cipher: CipherView, length: nat, room: nat)
    requires
        length <= usize::MAX,
    ensures
        (cipher.seal_error(length, room) is None) == (cipher.next_packet_number
            < 0xffff_ffff_ffff_ffff && length <= 1136 && length + 64 <= room),
        cipher.seal_error(length, room) == Some(WireError::PacketNumberExhausted) <==> cipher.next_packet_number
            == 0xffff_ffff_ffff_ffff,
        cipher.next_packet_number < 0xffff_ffff_ffff_ffff ==> cipher.burned().next_packet_number
            == cipher.next_packet_number + 1,
        cipher.burned().send_key == cipher.send_key,
        cipher.burned().receive_key == cipher.receive_key,
        cipher.burned().connection_id == cipher.connection_id,
        cipher.burned().replay == cipher.replay,
{
}

/// A record is opened exactly where its header is sound and is for this direction and this
/// connection, its number did not come before, and its tag is right: under the receiving key,
/// over the 48 bytes of the header and all up to the last 16.
pub proof fn sound_records_are_opened(
    cipher: CipherView,
    direction: Direction,
    bytes: Seq<u8>,
    header: RecordHeader,
    payload: Seq<u8>,
)
    requires
        bytes.len() == 64 + header.payload_length,
    ensures
        cipher.opened(direction, bytes) == Ok::<(RecordHeader, Seq<u8>), WireError>(
            (header, payload),
        ) <==> {
            &&& wire::header_of(bytes, direction) == Ok::<RecordHeader, WireError>(header)
            &&& header.connection_id == cipher.connection_id
            &&& cipher.replay.accepts(header.packet_number)
            &&& crypto::aead_opened(
                cipher.receive_key,
                nonce_of(header.packet_number),
                bytes.take(48),
                bytes.subrange(48, bytes.len() - 16),
                bytes.skip(bytes.len() - 16),
            ) == Some(payload)
        },
{
    assert(bytes.subrange(0, 48) =~= bytes.take(48));
    assert(bytes.subrange(48 + header.payload_length, bytes.len() as int) =~= bytes.skip(
        bytes.len() - 16,
    ));
}

} // verus!
