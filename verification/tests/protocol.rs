use doritrack::input::{
    after_failed_cancel, after_refusal, commit_accepted, CancelStep, CommitStep, RetryStep,
};
use doritrack::protocol::{
    crc32, decode_discovery, decode_frame, discovery_port_acceptable, encode_control,
    encode_discovery, Contact, Contacts, DiscoveryMessage, FrameParser, OrderedFrames,
    ProtocolError, TouchFrame, ACTION_CANCEL, ACTION_DOWN, ACTION_MOVE, CONTACT_FLAG_INSIDE,
    CONTACT_FLAG_TIP, CONTACT_SIZE, CONTROL_ACK, CONTROL_HELLO, CONTROL_MAGIC, CRC_SIZE,
    DISCOVERY_ACK, DISCOVERY_HELLO, FRAME_FLAG_HISTORICAL, FRAME_FLAG_LOCKED,
    FRAME_FLAG_SESSION_START, FRAME_HEADER_SIZE, FRAME_MAGIC, MAX_CONTACTS, MAX_REORDERED_FRAMES,
    MESSAGE_TOUCH_FRAME, PROTOCOL_VERSION,
};

fn packet(session_id: u64, sequence: u64, action: u8, flags: u8, x: i16) -> Vec<u8> {
    let length = FRAME_HEADER_SIZE + CONTACT_SIZE + CRC_SIZE;
    let mut bytes = vec![0_u8; length];
    bytes[..4].copy_from_slice(&FRAME_MAGIC);
    bytes[4] = PROTOCOL_VERSION;
    bytes[5] = MESSAGE_TOUCH_FRAME;
    bytes[6..8].copy_from_slice(&(length as u16).to_le_bytes());
    bytes[8..16].copy_from_slice(&session_id.to_le_bytes());
    bytes[16..24].copy_from_slice(&sequence.to_le_bytes());
    bytes[24..32].copy_from_slice(&123_456_789_u64.to_le_bytes());
    bytes[32..40].copy_from_slice(&123_456_999_u64.to_le_bytes());
    bytes[40..48].copy_from_slice(&123_457_111_u64.to_le_bytes());
    bytes[48..56].copy_from_slice(&98_000_u64.to_le_bytes());
    bytes[56..64].copy_from_slice(&123_457_000_u64.to_le_bytes());
    bytes[64] = action;
    bytes[65] = 7;
    bytes[66] = 1;
    bytes[67] = flags;
    bytes[68] = 7;
    bytes[69] = CONTACT_FLAG_INSIDE | CONTACT_FLAG_TIP;
    bytes[70..72].copy_from_slice(&x.to_le_bytes());
    bytes[72..74].copy_from_slice(&2_500_i16.to_le_bytes());
    bytes[74..76].copy_from_slice(&32_768_u16.to_le_bytes());
    bytes[76..78].copy_from_slice(&8_192_u16.to_le_bytes());
    seal(&mut bytes);
    bytes
}

fn seal(bytes: &mut [u8]) {
    let end = bytes.len() - CRC_SIZE;
    let checksum = crc32(&bytes[..end]);
    bytes[end..].copy_from_slice(&checksum.to_le_bytes());
}

fn frame(session_id: u64, sequence: u64, action: u8, flags: u8, x: i16) -> TouchFrame {
    decode_frame(&packet(session_id, sequence, action, flags, x)).unwrap()
}

fn read_u32(bytes: &[u8], offset: usize) -> u32 {
    u32::from_le_bytes(bytes[offset..offset + 4].try_into().unwrap())
}

fn read_u64(bytes: &[u8], offset: usize) -> u64 {
    u64::from_le_bytes(bytes[offset..offset + 8].try_into().unwrap())
}

#[test]
fn decodes_complete_touch_frame() {
    let bytes = packet(
        44,
        9,
        ACTION_MOVE,
        FRAME_FLAG_LOCKED | FRAME_FLAG_HISTORICAL,
        7_500,
    );
    let frame = decode_frame(&bytes).unwrap();
    assert_eq!(frame.session_id, 44);
    assert_eq!(frame.sequence, 9);
    assert_eq!(frame.phone_callback_nanos, 123_456_999);
    assert_eq!(frame.phone_send_nanos, 123_457_111);
    assert!(frame.locked());
    assert!(frame.historical());
    assert_eq!(frame.contacts.len(), 1);
    let x = f32::from(frame.contacts.at(0).x) / 10_000.0;
    assert!((x - 0.75).abs() < 0.0001);
    assert!(frame.contacts.at(0).touching());
}

#[test]
fn a_frame_keeps_every_field() {
    let frame = frame(44, 9, ACTION_MOVE, FRAME_FLAG_LOCKED, -7_500);
    assert_eq!(frame.phone_event_nanos, 123_456_789);
    assert_eq!(frame.echo_host_send_nanos, 98_000);
    assert_eq!(frame.phone_control_receive_nanos, 123_457_000);
    assert_eq!(frame.action, ACTION_MOVE);
    assert_eq!(frame.action_pointer_id, 7);
    assert_eq!(frame.flags, FRAME_FLAG_LOCKED);
    assert!(!frame.session_start());
    assert!(!frame.historical());
    let contact = frame.contacts.at(0);
    assert_eq!(
        contact,
        Contact {
            pointer_id: 7,
            flags: CONTACT_FLAG_INSIDE | CONTACT_FLAG_TIP,
            x: -7_500,
            y: 2_500,
            pressure: 32_768,
            touch_major: 8_192,
        }
    );
    assert!(contact.inside());
}

#[test]
fn parser_identifies_an_incompatible_wire_version() {
    let mut parser = FrameParser::default();
    assert!(parser.decode_datagram(b"HPT4\x05").is_err());
    assert_eq!(parser.take_incompatible_version(), Some(5));
}

#[test]
fn parser_counts_what_it_refuses() {
    let mut parser = FrameParser::default();
    assert!(parser.decode_datagram(b"short").is_err());
    assert!(parser.decode_datagram(b"").is_err());
    assert_eq!(parser.invalid_count(), 2);
    assert_eq!(parser.take_incompatible_version(), None);
    assert!(parser
        .decode_datagram(&packet(1, 0, ACTION_DOWN, 0, 5_000))
        .is_ok());
    assert_eq!(parser.invalid_count(), 2);
    assert!(parser.decode_datagram(b"HPT4\x09").is_err());
    parser.begin_connection();
    assert_eq!(parser.take_incompatible_version(), None);
}

#[test]
fn crc_rejects_corruption() {
    let mut bytes = packet(1, 0, ACTION_DOWN, 0, 5_000);
    bytes[70] ^= 0x40;
    assert!(matches!(
        decode_frame(&bytes),
        Err(ProtocolError::BadCrc { .. })
    ));
}

#[test]
fn every_changed_byte_of_a_frame_is_rejected() {
    let bytes = packet(1, 0, ACTION_DOWN, 0, 5_000);
    for at in 0..bytes.len() {
        for bit in 0..8 {
            let mut changed = bytes.clone();
            changed[at] ^= 1 << bit;
            assert!(decode_frame(&changed).is_err());
        }
    }
}

#[test]
fn datagram_decoder_rejects_bad_magic_and_unknown_actions() {
    let mut bad_magic = packet(1, 0, ACTION_DOWN, 0, 5_000);
    bad_magic[..4].copy_from_slice(b"NOPE");
    assert_eq!(decode_frame(&bad_magic), Err(ProtocolError::BadMagic));

    let mut bad_action = packet(1, 0, 99, 0, 5_000);
    let checksum = crc32(&bad_action[..bad_action.len() - CRC_SIZE]);
    let crc_offset = bad_action.len() - CRC_SIZE;
    bad_action[crc_offset..].copy_from_slice(&checksum.to_le_bytes());
    assert_eq!(decode_frame(&bad_action), Err(ProtocolError::BadAction(99)));
}

#[test]
fn datagram_decoder_rejects_duplicate_pointer_ids() {
    let mut bytes = packet(1, 0, ACTION_DOWN, 0, 5_000);
    let length = FRAME_HEADER_SIZE + 2 * CONTACT_SIZE + CRC_SIZE;
    bytes.resize(length, 0);
    bytes[6..8].copy_from_slice(&(length as u16).to_le_bytes());
    bytes[66] = 2;
    bytes.copy_within(FRAME_HEADER_SIZE..FRAME_HEADER_SIZE + CONTACT_SIZE, 78);
    let checksum = crc32(&bytes[..length - CRC_SIZE]);
    bytes[length - CRC_SIZE..].copy_from_slice(&checksum.to_le_bytes());
    assert_eq!(
        decode_frame(&bytes),
        Err(ProtocolError::DuplicatePointerId(7))
    );
}

#[test]
fn each_fault_of_a_frame_has_its_words() {
    let refuse = |bytes: &[u8]| decode_frame(bytes).unwrap_err().message();
    assert!(refuse(b"HPT4").contains("length"));
    let mut version = packet(1, 0, ACTION_DOWN, 0, 0);
    version[4] = 9;
    seal(&mut version);
    assert!(matches!(
        decode_frame(&version),
        Err(ProtocolError::BadVersion(9))
    ));
    assert!(refuse(&version).contains('9'));
    let mut kind = packet(1, 0, ACTION_DOWN, 0, 0);
    kind[5] = 8;
    seal(&mut kind);
    assert!(decode_frame(&kind).is_err());
    let mut crowd = packet(1, 0, ACTION_DOWN, 0, 0);
    crowd[66] = MAX_CONTACTS as u8 + 1;
    seal(&mut crowd);
    assert!(decode_frame(&crowd).is_err());
    let mut crc = packet(1, 0, ACTION_DOWN, 0, 0);
    let actual = read_u32(&crc, crc.len() - 4);
    let end = crc.len() - 1;
    crc[end] ^= 0x80;
    let stated = read_u32(&crc, crc.len() - 4);
    let words = refuse(&crc);
    assert!(words.contains(&format!("{actual:08x}")));
    assert!(words.contains(&format!("{stated:08x}")));
    assert!(refuse(&packet(1, 0, 99, 0, 0)).contains("99"));
}

#[test]
fn a_snapshot_holds_sixteen_contacts() {
    let one = frame(1, 0, ACTION_DOWN, 0, 0).contacts.at(0);
    let snapshot = Contacts::from_slice(&[one; 16]);
    assert_eq!(snapshot.len(), 16);
    assert!(!snapshot.is_empty());
    assert!(Contacts::from_slice(&[]).is_empty());
    let mut grown = Contacts::from_slice(&[]);
    grown.push(one);
    assert_eq!(grown, Contacts::from_slice(&[one]));
}

#[test]
fn crc_matches_ieee_reference_vector() {
    assert_eq!(crc32(b"123456789"), 0xcbf4_3926);
}

#[test]
fn ordered_frames_deduplicates_and_fills_gap() {
    let start = frame(5, 0, ACTION_CANCEL, FRAME_FLAG_SESSION_START, 0);
    let one = frame(5, 1, ACTION_DOWN, 0, 2_000);
    let two = frame(5, 2, ACTION_MOVE, 0, 4_000);
    let mut ordered = OrderedFrames::new();
    ordered.push(start);
    assert_eq!(ordered.next_ready().unwrap().sequence, 0);
    assert_eq!(ordered.acknowledged_sequence(), None);
    assert!(ordered.commit_ready());
    ordered.push(two.clone());
    assert!(ordered.next_ready().is_none());
    ordered.push(one.clone());
    assert_eq!(ordered.next_ready(), Some(&one));
    assert!(ordered.commit_ready());
    assert_eq!(ordered.next_ready(), Some(&two));
    assert!(ordered.commit_ready());
    ordered.push(one);
    assert!(ordered.next_ready().is_none());
    assert_eq!(ordered.acknowledged_sequence(), Some(2));
}

#[test]
fn ordered_frames_bounds_far_future_datagrams() {
    let start = frame(5, 0, ACTION_CANCEL, FRAME_FLAG_SESSION_START, 0);
    let too_far = frame(
        5,
        MAX_REORDERED_FRAMES as u64 + 1,
        ACTION_MOVE,
        FRAME_FLAG_LOCKED,
        4_000,
    );
    let mut ordered = OrderedFrames::new();
    ordered.push(start);
    assert!(ordered.commit_ready());
    ordered.push(too_far);
    for sequence in 0..2 * MAX_REORDERED_FRAMES as u64 {
        assert!(!ordered.contains_sequence(sequence));
    }
    assert_eq!(ordered.expected_sequence(), 1);
}

#[test]
fn reordered_bursts_survive_ring_reuse_without_overwriting_a_gap() {
    let mut ordered = OrderedFrames::new();
    ordered.push(frame(5, 0, ACTION_CANCEL, FRAME_FLAG_SESSION_START, 0));
    assert!(ordered.commit_ready());
    for round in 0..8 {
        let first = 1 + round * MAX_REORDERED_FRAMES as u64;
        let end = first + MAX_REORDERED_FRAMES as u64;
        for sequence in (first + 1..end).rev() {
            ordered.push(frame(5, sequence, ACTION_MOVE, FRAME_FLAG_LOCKED, 4_000));
        }
        ordered.push(frame(5, end, ACTION_MOVE, FRAME_FLAG_LOCKED, 4_000));
        assert!(ordered.next_ready().is_none());
        ordered.push(frame(5, first, ACTION_MOVE, FRAME_FLAG_LOCKED, 4_000));
        for sequence in first..end {
            assert_eq!(ordered.next_ready().unwrap().sequence, sequence);
            assert!(ordered.commit_ready());
        }
        assert_eq!(ordered.acknowledged_sequence(), Some(end - 1));
        assert!(ordered.next_ready().is_none());
    }
}

#[test]
fn first_replayed_frame_bootstraps_a_restarted_host() {
    let replay = frame(77, 42, ACTION_MOVE, FRAME_FLAG_LOCKED, 5_000);
    let mut ordered = OrderedFrames::new();
    ordered.push(replay);
    assert_eq!(ordered.session_id(), Some(77));
    assert_eq!(ordered.expected_sequence(), 42);
    assert_eq!(ordered.next_ready().unwrap().sequence, 42);
    assert!(ordered.commit_ready());
    assert_eq!(ordered.acknowledged_sequence(), Some(42));
}

#[test]
fn session_start_cancel_switches_to_a_fresh_live_session() {
    let old_start = frame(10, 7, ACTION_CANCEL, FRAME_FLAG_SESSION_START, 0);
    let fresh_start = frame(11, 0, ACTION_CANCEL, FRAME_FLAG_SESSION_START, 0);
    let fresh_move = frame(11, 1, ACTION_MOVE, FRAME_FLAG_LOCKED, 4_000);

    let mut ordered = OrderedFrames::new();
    ordered.push(old_start);
    assert!(ordered.commit_ready());
    ordered.push(fresh_start);
    assert_eq!(ordered.session_id(), Some(11));
    assert_eq!(ordered.expected_sequence(), 0);
    assert_eq!(ordered.next_ready().unwrap().action, ACTION_CANCEL);
    assert!(ordered.commit_ready());
    ordered.push(fresh_move);
    assert_eq!(ordered.next_ready().unwrap().sequence, 1);
}

#[test]
fn liveness_failure_rejects_delayed_gameplay_until_a_fresh_session() {
    let start = frame(10, 0, ACTION_CANCEL, FRAME_FLAG_SESSION_START, 0);
    let delayed = frame(10, 1, ACTION_MOVE, FRAME_FLAG_LOCKED, 4_000);
    let fresh_start = frame(11, 0, ACTION_CANCEL, FRAME_FLAG_SESSION_START, 0);

    let mut ordered = OrderedFrames::new();
    ordered.push(start);
    assert!(ordered.commit_ready());
    ordered.require_fresh_session();
    ordered.push(delayed);
    assert!(ordered.session_id().is_none());
    assert!(ordered.next_ready().is_none());

    ordered.push(fresh_start);
    assert_eq!(ordered.session_id(), Some(11));
    assert_eq!(ordered.next_ready().unwrap().sequence, 0);
}

#[test]
fn two_arrival_orders_lead_to_the_same_commits() {
    let start = frame(5, 0, ACTION_CANCEL, FRAME_FLAG_SESSION_START, 0);
    let one = frame(5, 1, ACTION_DOWN, FRAME_FLAG_LOCKED, 2_000);
    let two = frame(5, 2, ACTION_MOVE, FRAME_FLAG_LOCKED, 4_000);
    let drain = |frames: [TouchFrame; 4]| {
        let mut ordered = OrderedFrames::new();
        ordered.push(start);
        for frame in frames {
            ordered.push(frame);
        }
        let mut sequences = Vec::new();
        while let Some(frame) = ordered.next_ready() {
            sequences.push(frame.sequence);
            assert!(ordered.commit_ready());
        }
        assert!(!ordered.commit_ready());
        sequences
    };
    assert_eq!(drain([one, two, one, two]), [0, 1, 2]);
    assert_eq!(drain([two, two, one, one]), [0, 1, 2]);
}

#[test]
fn accepted_frames_are_committed_until_none_is_ready() {
    let mut ordered = OrderedFrames::new();
    assert_eq!(commit_accepted(&mut ordered), CommitStep::Missing);
    ordered.push(frame(5, 0, ACTION_CANCEL, FRAME_FLAG_SESSION_START, 0));
    ordered.push(frame(5, 1, ACTION_DOWN, FRAME_FLAG_LOCKED, 0));
    assert_eq!(commit_accepted(&mut ordered), CommitStep::Another);
    assert_eq!(commit_accepted(&mut ordered), CommitStep::Finished);
    assert_eq!(ordered.acknowledged_sequence(), Some(1));
}

#[test]
fn a_refusing_sink_is_given_eight_milliseconds() {
    assert_eq!(after_refusal(false, 0), RetryStep::Retry);
    assert_eq!(after_refusal(false, 7), RetryStep::Retry);
    assert_eq!(after_refusal(false, 8), RetryStep::TimedOut);
    assert_eq!(after_refusal(true, 0), RetryStep::Stopped);
    assert_eq!(after_refusal(true, 100), RetryStep::Stopped);
    assert_eq!(after_failed_cancel(false), CancelStep::Retry);
    assert_eq!(after_failed_cancel(true), CancelStep::GiveUp);
}

#[test]
fn control_record_has_valid_crc_and_sentinel_ack() {
    let control = encode_control(CONTROL_HELLO, 6, 99, None, 64, 123_000);
    assert_eq!(&control[..4], &CONTROL_MAGIC);
    assert_eq!(read_u64(&control, 8), 99);
    assert_eq!(read_u64(&control, 16), u64::MAX);
    assert_eq!(read_u64(&control, 28), 123_000);
    assert_eq!(read_u32(&control, 36), crc32(&control[..36]));
}

#[test]
fn control_record_states_lanes_window_and_acknowledgement() {
    let control = encode_control(CONTROL_ACK, 6, 99, Some(41), 128, 5);
    assert_eq!(control[4], PROTOCOL_VERSION);
    assert_eq!(control[5], CONTROL_ACK);
    assert_eq!(control[6..8], [6, 0]);
    assert_eq!(read_u64(&control, 16), 41);
    assert_eq!(read_u32(&control, 24), 128);
}

#[test]
fn discovery_record_round_trips_with_crc() {
    let bytes = encode_discovery(DISCOVERY_HELLO, 123, 456, 42_825);
    assert_eq!(
        decode_discovery(&bytes),
        Some(DiscoveryMessage {
            kind: DISCOVERY_HELLO,
            nonce: 123,
            session_id: 456,
            port: 42_825,
        })
    );

    let mut corrupted = bytes;
    corrupted[16] ^= 1;
    assert_eq!(decode_discovery(&corrupted), None);
}

#[test]
fn every_changed_byte_of_a_discovery_message_is_rejected() {
    let bytes = encode_discovery(DISCOVERY_ACK, 123, 456, 42_825);
    for at in 0..bytes.len() {
        for bit in 0..8 {
            let mut changed = bytes;
            changed[at] ^= 1 << bit;
            assert_eq!(decode_discovery(&changed), None);
        }
    }
}

#[test]
fn discovery_port_accepts_legacy_zero_and_the_listening_port() {
    assert!(discovery_port_acceptable(0, 42_825));
    assert!(discovery_port_acceptable(42_825, 42_825));
    assert!(!discovery_port_acceptable(9, 42_825));

    let legacy = encode_discovery(DISCOVERY_ACK, 1, 2, 0);
    assert_eq!(decode_discovery(&legacy).unwrap().port, 0);
}
