use doritrack::credentials::{stored_record, CredentialError, Credentials};
use doritrack::protocol::{ACTION_CANCEL, ACTION_MOVE, CONTACT_FLAG_TIP, FRAME_FLAG_LOCKED};
use doritrack::v5::{
    connection_id, decode_pair_envelope, decode_quality_reply, decode_record_header,
    decode_touch_record, encode_control_payload, encode_pair_envelope, fill_random, prologue,
    random_outcome, sas_commit, sas_digest, sas_pattern, try_sas_pattern, write_record_header, Direction,
    OpenedRecord, RecordCipher, RecordHeader, ReplayWindow, TransportKind, WireError, HOST_ACK,
    HOST_MAGIC, MAX_DATAGRAM_SIZE, PAIR_PROBE, PHONE_MAGIC, PHONE_QUALITY_REPLY, PHONE_SAS_REVEAL,
    PHONE_TOUCH, RECORD_HEADER_SIZE, REPLAY_WINDOW_BITS, TAG_SIZE,
};

fn cipher_pair() -> (RecordCipher, RecordCipher) {
    let first = [0x11; 32];
    let second = [0x22; 32];
    (
        RecordCipher::from_keys(first, second, 0x8877_6655_4433_2211),
        RecordCipher::from_keys(second, first, 0x8877_6655_4433_2211),
    )
}

fn read_u64(bytes: &[u8], offset: usize) -> u64 {
    u64::from_le_bytes(bytes[offset..offset + 8].try_into().unwrap())
}

#[test]
fn pairing_envelope_is_strict() {
    let exchange = [0x41; 16];
    let bytes =
        encode_pair_envelope(PAIR_PROBE, exchange, 0, TransportKind::Wifi, &[]).expect("encode");
    let decoded = decode_pair_envelope(&bytes).expect("decode");
    assert_eq!(decoded.exchange_id, exchange);
    assert_eq!(decoded.transport, TransportKind::Wifi);
    assert!(decoded.payload.is_empty());
    let mut trailing = bytes;
    trailing.push(0);
    assert!(decode_pair_envelope(&trailing).is_err());
}

#[test]
fn pairing_envelope_keeps_its_payload_and_its_limits() {
    let bytes = encode_pair_envelope(3, [7; 16], 5, TransportKind::Usb, b"noise").unwrap();
    let decoded = decode_pair_envelope(&bytes).unwrap();
    assert_eq!(decoded.kind, 3);
    assert_eq!(decoded.step, 5);
    assert_eq!(decoded.transport, TransportKind::Usb);
    assert_eq!(decoded.payload, b"noise");
    let again = encode_pair_envelope(
        decoded.kind,
        decoded.exchange_id,
        decoded.step,
        decoded.transport,
        decoded.payload,
    );
    assert_eq!(again.unwrap(), bytes);
    let large = vec![0; MAX_DATAGRAM_SIZE];
    assert!(matches!(
        encode_pair_envelope(3, [7; 16], 5, TransportKind::Usb, &large),
        Err(WireError::BadLength(_))
    ));
    let mut magic = bytes.clone();
    magic[0] ^= 1;
    assert_eq!(decode_pair_envelope(&magic), Err(WireError::BadMagic));
    assert!(decode_pair_envelope(&bytes[..8]).is_err());
}

#[test]
fn record_header_is_authenticated_and_replays_are_rejected() {
    let (mut phone, mut host) = cipher_pair();
    let bytes = phone
        .seal(Direction::PhoneToHost, PHONE_SAS_REVEAL, 0, 7, 0, b"secret")
        .expect("seal");
    assert_eq!(
        host.open(Direction::PhoneToHost, &bytes)
            .expect("open")
            .payload,
        b"secret"
    );
    assert_eq!(
        host.open(Direction::PhoneToHost, &bytes),
        Err(WireError::Replay)
    );

    let mut changed = phone
        .seal(Direction::PhoneToHost, PHONE_SAS_REVEAL, 0, 8, 0, b"secret")
        .expect("seal");
    changed[32] ^= 1;
    assert_eq!(
        host.open(Direction::PhoneToHost, &changed),
        Err(WireError::BadTag)
    );
}

#[test]
fn replay_window_accepts_authenticated_reordering() {
    let (mut phone, mut host) = cipher_pair();
    let zero = phone
        .seal(Direction::PhoneToHost, PHONE_SAS_REVEAL, 0, 0, 0, b"zero")
        .unwrap();
    let one = phone
        .seal(Direction::PhoneToHost, PHONE_SAS_REVEAL, 0, 1, 0, b"one")
        .unwrap();
    assert_eq!(
        host.open(Direction::PhoneToHost, &one).unwrap().payload,
        b"one"
    );
    assert_eq!(
        host.open(Direction::PhoneToHost, &zero).unwrap().payload,
        b"zero"
    );
    assert_eq!(
        host.open(Direction::PhoneToHost, &zero),
        Err(WireError::Replay)
    );
}

#[test]
fn every_copy_burns_a_new_nonce() {
    let (mut phone, _) = cipher_pair();
    let first = phone
        .seal(Direction::PhoneToHost, PHONE_TOUCH, 9, 3, 0, b"same")
        .unwrap();
    let second = phone
        .seal(Direction::PhoneToHost, PHONE_TOUCH, 9, 3, 0, b"same")
        .unwrap();
    assert_eq!(read_u64(&first, 24), 0);
    assert_eq!(read_u64(&second, 24), 1);
    assert_ne!(first, second);
    assert_eq!(phone.next_packet_number(), 2);
}

#[test]
fn quality_reply_rejects_undefined_status_values() {
    let mut payload = vec![0_u8; 32];
    payload[24] = 2;
    payload[25] = 0xff;
    let mut record = OpenedRecord {
        header: RecordHeader {
            direction: Direction::PhoneToHost,
            message_type: PHONE_QUALITY_REPLY,
            connection_id: 1,
            session_id: 0,
            packet_number: 0,
            logical_id: 7,
            flags: 0,
            payload_length: 32,
        },
        payload,
    };
    assert_eq!(decode_quality_reply(&record), Err(WireError::BadMessage));
    record.payload[24] = 0;
    record.payload[25] = 5;
    assert_eq!(decode_quality_reply(&record), Err(WireError::BadMessage));
    record.payload[25] = 4;
    assert!(decode_quality_reply(&record).is_ok());
}

#[test]
fn quality_reply_reads_signed_strength_and_unknown_level() {
    let mut payload = vec![0_u8; 32];
    payload[..8].copy_from_slice(&1_u64.to_le_bytes());
    payload[8..16].copy_from_slice(&2_u64.to_le_bytes());
    payload[16..24].copy_from_slice(&3_u64.to_le_bytes());
    payload[24] = 1;
    payload[25] = 0xff;
    payload[26..28].copy_from_slice(&(-61_i16).to_le_bytes());
    payload[28..32].copy_from_slice(&5_180_u32.to_le_bytes());
    let record = OpenedRecord {
        header: header(PHONE_QUALITY_REPLY, 0, 7, 32),
        payload,
    };
    let reply = decode_quality_reply(&record).unwrap();
    assert_eq!(reply.probe_id, 7);
    assert_eq!(reply.host_send_nanos, 1);
    assert_eq!(reply.phone_receive_nanos, 2);
    assert_eq!(reply.phone_send_nanos, 3);
    assert!(reply.repair_only);
    assert_eq!(reply.signal_level, -1);
    assert_eq!(reply.rssi_dbm, -61);
    assert_eq!(reply.frequency_mhz, 5_180);
}

#[test]
fn sas_mapping_is_stable_and_one_based() {
    let hash = [0x10; 32];
    let phone = [0x20; 32];
    let host = [0x30; 32];
    let digest = sas_digest(&hash, &phone, &host);
    assert_eq!(sas_pattern(digest), [2, 4, 3, 2, 1, 4, 5, 5]);
    assert_eq!(try_sas_pattern(digest), Some([2, 4, 3, 2, 1, 4, 5, 5]));
}

#[test]
fn codes_have_eight_digits_from_one_to_six() {
    for first in 0..=255 {
        let pattern = try_sas_pattern([first; 32]).unwrap();
        assert!(pattern.iter().all(|digit| (1..=6).contains(digit)));
    }
}

#[test]
fn commitments_bind_role_and_randomness() {
    let hash = [1; 32];
    let base = sas_commit(1, &hash, &[2; 32]);
    assert_ne!(base, sas_commit(2, &hash, &[2; 32]));
    assert_ne!(base, sas_commit(1, &hash, &[3; 32]));
    assert_ne!(base, sas_commit(1, &[9; 32], &[2; 32]));
    assert_eq!(base, sas_commit(1, &hash, &[2; 32]));
    assert_ne!(connection_id(&hash), connection_id(&[2; 32]));
    assert_ne!(connection_id(&hash), read_u64(&hash, 0));
}

#[test]
fn prologue_names_transport_and_exchange() {
    let usb = prologue(TransportKind::Usb, [5; 16]);
    let mut expected = b"holodori-phone-trackpad-v5\0".to_vec();
    expected.push(1);
    expected.extend_from_slice(&[5; 16]);
    assert_eq!(usb, expected);
    assert_eq!(prologue(TransportKind::Wifi, [5; 16])[27], 2);
}

#[test]
fn random_bytes_are_filled() {
    let mut bytes = [0_u8; 64];
    fill_random(&mut bytes).unwrap();
    assert_ne!(bytes, [0_u8; 64]);
    assert_eq!(fill_random(&mut []), Ok(()));
}

#[test]
fn the_answer_of_the_system_decides_on_random_bytes() {
    assert_eq!(random_outcome(Ok(())), Ok(()));
    assert_eq!(
        random_outcome(Err(getrandom::Error::UNSUPPORTED)),
        Err(WireError::RandomUnavailable)
    );
}

#[test]
fn invalid_tag_does_not_advance_replay_window() {
    let (mut phone, mut host) = cipher_pair();
    let valid = phone
        .seal(Direction::PhoneToHost, PHONE_SAS_REVEAL, 0, 0, 0, b"value")
        .unwrap();
    let mut corrupt = valid.clone();
    *corrupt.last_mut().unwrap() ^= 1;
    assert_eq!(
        host.open(Direction::PhoneToHost, &corrupt),
        Err(WireError::BadTag)
    );
    assert!(host.open(Direction::PhoneToHost, &valid).is_ok());
}

#[test]
fn records_hide_their_payload_and_open_in_place() {
    let (mut phone, mut host) = cipher_pair();
    let mut buffer = [0xee_u8; 128];
    let length = phone
        .seal_into(
            Direction::PhoneToHost,
            PHONE_SAS_REVEAL,
            0,
            4,
            0,
            b"reveal me",
            &mut buffer,
        )
        .unwrap();
    assert_eq!(length, RECORD_HEADER_SIZE + 9 + TAG_SIZE);
    assert_eq!(buffer[length], 0xee);
    assert_ne!(&buffer[RECORD_HEADER_SIZE..RECORD_HEADER_SIZE + 9], b"reveal me");
    let header = host
        .open_in_place(Direction::PhoneToHost, &mut buffer[..length])
        .unwrap();
    assert_eq!(header.logical_id, 4);
    assert_eq!(header.payload_length, 9);
    assert_eq!(&buffer[RECORD_HEADER_SIZE..RECORD_HEADER_SIZE + 9], b"reveal me");
    let mut small = [0_u8; 10];
    assert!(phone
        .seal_into(
            Direction::PhoneToHost,
            PHONE_SAS_REVEAL,
            0,
            4,
            0,
            b"reveal me",
            &mut small
        )
        .is_err());
}

#[test]
fn records_of_another_connection_or_direction_are_refused() {
    let (mut phone, mut host) = cipher_pair();
    let bytes = phone
        .seal(Direction::PhoneToHost, PHONE_SAS_REVEAL, 0, 0, 0, b"x")
        .unwrap();
    assert_eq!(
        host.open(Direction::HostToPhone, &bytes),
        Err(WireError::BadMagic)
    );
    let mut other = RecordCipher::from_keys([0x22; 32], [0x11; 32], 1);
    assert_eq!(
        other.open(Direction::PhoneToHost, &bytes),
        Err(WireError::WrongConnection)
    );
    assert_eq!(host.connection_id(), 0x8877_6655_4433_2211);
    assert_eq!(Direction::PhoneToHost.magic(), PHONE_MAGIC);
    assert_eq!(Direction::HostToPhone.magic(), HOST_MAGIC);
}

#[test]
fn handshake_keys_open_what_the_other_side_sealed() {
    let name = "Noise_NN_25519_ChaChaPoly_BLAKE2s";
    let mut initiator = snow::Builder::new(name.parse().unwrap())
        .build_initiator()
        .unwrap();
    let mut responder = snow::Builder::new(name.parse().unwrap())
        .build_responder()
        .unwrap();
    assert!(matches!(
        RecordCipher::from_handshake(&mut initiator, true),
        Err(WireError::HandshakeIncomplete)
    ));
    let mut wire = [0_u8; 256];
    let mut scratch = [0_u8; 256];
    let sent = initiator.write_message(&[], &mut wire).unwrap();
    responder.read_message(&wire[..sent], &mut scratch).unwrap();
    let sent = responder.write_message(&[], &mut wire).unwrap();
    initiator.read_message(&wire[..sent], &mut scratch).unwrap();
    let mut phone = RecordCipher::from_handshake(&mut initiator, true).unwrap();
    let mut host = RecordCipher::from_handshake(&mut responder, false).unwrap();
    assert_eq!(phone.connection_id(), host.connection_id());
    let up = phone
        .seal(Direction::PhoneToHost, PHONE_SAS_REVEAL, 0, 0, 0, b"up")
        .unwrap();
    assert_eq!(
        host.open(Direction::PhoneToHost, &up).unwrap().payload,
        b"up"
    );
    let down = host
        .seal(Direction::HostToPhone, HOST_ACK, 0, 0, 0, b"down")
        .unwrap();
    assert_eq!(
        phone.open(Direction::HostToPhone, &down).unwrap().payload,
        b"down"
    );
    assert!(RecordCipher::from_split(false, &[1], [1; 32], [2; 32], true).is_err());
    let mut phone = RecordCipher::from_split(true, &[1], [1; 32], [2; 32], true).unwrap();
    let mut host = RecordCipher::from_split(true, &[1], [1; 32], [2; 32], false).unwrap();
    assert_eq!(phone.connection_id(), connection_id(&[1]));
    let up = phone
        .seal(Direction::PhoneToHost, PHONE_SAS_REVEAL, 0, 0, 0, b"up")
        .unwrap();
    assert_eq!(
        host.open(Direction::PhoneToHost, &up).unwrap().payload,
        b"up"
    );
}

fn header(message_type: u8, session_id: u64, logical_id: u64, payload_length: u16) -> RecordHeader {
    RecordHeader {
        direction: Direction::PhoneToHost,
        message_type,
        connection_id: 1,
        session_id,
        packet_number: 0,
        logical_id,
        flags: 0,
        payload_length,
    }
}

#[test]
fn record_headers_are_read_back() {
    let header = RecordHeader {
        direction: Direction::HostToPhone,
        message_type: 2,
        connection_id: 3,
        session_id: 4,
        packet_number: 5,
        logical_id: 6,
        flags: 7,
        payload_length: 9,
    };
    let bytes = write_record_header(&header);
    let mut datagram = bytes.to_vec();
    datagram.extend_from_slice(&[0; 9 + TAG_SIZE]);
    assert_eq!(
        decode_record_header(&datagram, Direction::HostToPhone),
        Ok(header)
    );
    datagram.push(0);
    assert!(matches!(
        decode_record_header(&datagram, Direction::HostToPhone),
        Err(WireError::BadLength(_))
    ));
}

fn touch(logical_id: u64, action: u8, flags: u8, contacts: &[[u8; 10]]) -> OpenedRecord {
    let mut payload = vec![0_u8; 44];
    payload[40] = action;
    payload[42] = contacts.len() as u8;
    payload[43] = flags;
    for contact in contacts {
        payload.extend_from_slice(contact);
    }
    OpenedRecord {
        header: header(PHONE_TOUCH, 9, logical_id, payload.len() as u16),
        payload,
    }
}

#[test]
fn touch_records_are_strict() {
    let finger = [7, CONTACT_FLAG_TIP, 0x4c, 0x1d, 0, 0, 0, 0, 0, 0];
    let frame = decode_touch_record(&touch(1, ACTION_MOVE, FRAME_FLAG_LOCKED, &[finger])).unwrap();
    assert_eq!(frame.session_id, 9);
    assert_eq!(frame.sequence, 1);
    assert_eq!(frame.contacts.at(0).x, 7_500);
    assert!(decode_touch_record(&touch(0, ACTION_CANCEL, 2, &[])).is_ok());
    assert_eq!(
        decode_touch_record(&touch(0, ACTION_MOVE, 1, &[])),
        Err(WireError::BadSessionStart)
    );
    assert_eq!(
        decode_touch_record(&touch(1, ACTION_CANCEL, 2, &[])),
        Err(WireError::BadSessionStart)
    );
    assert_eq!(
        decode_touch_record(&touch(1, 77, 1, &[])),
        Err(WireError::BadAction(77))
    );
    assert_eq!(
        decode_touch_record(&touch(1, ACTION_MOVE, 8, &[])),
        Err(WireError::ReservedBits)
    );
    assert_eq!(
        decode_touch_record(&touch(1, ACTION_MOVE, 1, &[finger, finger])),
        Err(WireError::DuplicatePointer(7))
    );
    assert_eq!(
        decode_touch_record(&touch(1, ACTION_MOVE, 1, &[finger; 17])),
        Err(WireError::BadContactCount(17))
    );
    let mut wrong = touch(1, ACTION_MOVE, 1, &[]);
    wrong.header.session_id = 0;
    assert_eq!(decode_touch_record(&wrong), Err(WireError::BadMessage));
}

#[test]
fn control_payload_states_lanes_and_window() {
    let payload = encode_control_payload(128, 6, 99);
    assert_eq!(payload[..8], [128, 0, 0, 0, 6, 0, 0, 0]);
    assert_eq!(read_u64(&payload, 8), 99);
}

#[test]
fn replay_window_has_its_width() {
    let mut window = ReplayWindow::default();
    assert!(window.would_accept(0));
    window.commit(0);
    assert!(!window.would_accept(0));
    let width = REPLAY_WINDOW_BITS as u64;
    window.commit(width);
    assert!(!window.would_accept(0));
    assert!(window.would_accept(1));
    window.commit(1);
    assert!(!window.would_accept(1));
    assert!(!window.would_accept(width));
    assert!(window.would_accept(width + 1));
}

#[test]
fn transports_have_words_and_bytes() {
    assert_eq!(TransportKind::parse("usb"), Some(TransportKind::Usb));
    assert_eq!(TransportKind::parse("wifi"), Some(TransportKind::Wifi));
    assert_eq!(TransportKind::parse("USB"), None);
    assert_eq!(TransportKind::Usb.label(), "USB");
    assert_eq!(TransportKind::Wifi.label(), "Wi-Fi / local network");
    assert_eq!(TransportKind::from_byte(1), Ok(TransportKind::Usb));
    assert_eq!(TransportKind::from_byte(3), Err(WireError::BadTransport(3)));
}

#[test]
fn wire_errors_have_words() {
    assert_eq!(WireError::Replay.message(), "replayed or expired packet number");
    assert_eq!(WireError::BadSuite(4).message(), "unsupported v5 suite 4");
    assert_eq!(
        WireError::BadLength(1201).message(),
        "invalid v5 datagram length 1201"
    );
    assert_eq!(
        WireError::RandomUnavailable.message(),
        "secure random source unavailable"
    );
}

fn stored(version: u8) -> Credentials {
    Credentials::from_parts(
        version,
        [1; 32],
        [2; 32],
        Some([3; 32]),
        Some("Phone".to_owned()),
    )
}

#[test]
fn forgetting_peer_preserves_installation_identity() {
    let mut credentials = stored(1);
    credentials.forget_phone();
    assert!(!credentials.is_paired());
    assert_eq!(credentials.private_key(), &[1; 32]);
    assert_eq!(credentials.public_key(), &[2; 32]);
}

#[test]
fn credential_json_rejects_unknown_or_wrong_version_data() {
    let credentials = stored(1);
    let mut object = serde_json::Map::new();
    object.insert(
        "private_key".to_owned(),
        serde_json::to_value(credentials.private_key()).unwrap(),
    );
    object.insert(
        "public_key".to_owned(),
        serde_json::to_value(credentials.public_key()).unwrap(),
    );
    object.insert(
        "paired_phone_public_key".to_owned(),
        serde_json::to_value(credentials.paired_phone_public_key()).unwrap(),
    );
    let encoded = serde_json::to_vec(&object).unwrap();
    let decoded: serde_json::Map<String, serde_json::Value> =
        serde_json::from_slice(&encoded).unwrap();
    let key = |name: &str| -> [u8; 32] {
        serde_json::from_value(decoded[name].clone()).expect("thirty-two numbers")
    };
    let restored = Credentials::from_parts(
        credentials.version(),
        key("private_key"),
        key("public_key"),
        Some(key("paired_phone_public_key")),
        credentials.paired_phone_name().map(str::to_owned),
    );
    assert!(restored.validate().is_ok());
    assert!(stored(99).validate().is_err());
}

#[test]
fn pairing_remembers_one_phone() {
    let mut credentials = stored(1);
    credentials.authorize_phone([9; 32], "Other".to_owned());
    assert!(credentials.is_paired());
    assert_eq!(credentials.paired_phone_public_key(), Some(&[9; 32]));
    assert_eq!(credentials.paired_phone_name(), Some("Other"));
    assert_eq!(credentials.private_key(), &[1; 32]);
    assert_eq!(credentials.public_key(), &[2; 32]);
}

#[test]
fn generated_identities_differ_and_are_valid() {
    let first = Credentials::generate().unwrap();
    let second = Credentials::generate().unwrap();
    assert_ne!(first.private_key(), second.private_key());
    assert_ne!(first.private_key(), first.public_key());
    assert!(first.validate().is_ok());
    assert!(!first.is_paired());
    assert!(Credentials::from_keypair(&vec![1; 31], &vec![2; 32]).is_err());
    assert!(Credentials::from_keypair(&vec![1; 32], &vec![2; 32]).is_ok());
}

#[test]
fn generated_public_key_belongs_to_the_private_key() {
    let identity = Credentials::generate().unwrap();
    let other = Credentials::generate().unwrap();
    let name = "Noise_XX_25519_ChaChaPoly_BLAKE2s";
    let mut initiator = snow::Builder::new(name.parse().unwrap())
        .local_private_key(identity.private_key())
        .unwrap()
        .build_initiator()
        .unwrap();
    let mut responder = snow::Builder::new(name.parse().unwrap())
        .local_private_key(other.private_key())
        .unwrap()
        .build_responder()
        .unwrap();
    let mut wire = [0_u8; 256];
    let mut scratch = [0_u8; 256];
    let sent = initiator.write_message(&[], &mut wire).unwrap();
    responder.read_message(&wire[..sent], &mut scratch).unwrap();
    let sent = responder.write_message(&[], &mut wire).unwrap();
    initiator.read_message(&wire[..sent], &mut scratch).unwrap();
    let sent = initiator.write_message(&[], &mut wire).unwrap();
    responder.read_message(&wire[..sent], &mut scratch).unwrap();
    assert_eq!(
        responder.get_remote_static(),
        Some(&identity.public_key()[..])
    );
    assert_eq!(initiator.get_remote_static(), Some(&other.public_key()[..]));
}

#[test]
fn stored_records_are_one_or_none() {
    assert_eq!(stored_record(0), Ok(false));
    assert_eq!(stored_record(1), Ok(true));
    assert!(stored_record(2).is_err());
    assert_eq!(
        CredentialError::Corrupt("x".to_owned()).message(),
        "stored v5 credentials are invalid: x"
    );
}
