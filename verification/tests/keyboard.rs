use doritrack::keyboard::keys::{
    key_input, linux_keycode, parse_virtual_key, validate_lane_keys, KeyError,
};
use doritrack::keyboard::linux::{
    ioc, whole_events, FirstWrite, InputEvent, KeySink, SubmitError,
};
use doritrack::keyboard::plan::{lane_for, plan_frame, KeyChange, KeyboardState};
use doritrack::keyboard::sink::{KeyboardSink, Step};
use doritrack::protocol::{
    Contact, Contacts, TouchFrame, ACTION_CANCEL, ACTION_DOWN, ACTION_MOVE, CONTACT_FLAG_INSIDE,
    CONTACT_FLAG_TIP, FRAME_FLAG_LOCKED, FRAME_FLAG_SESSION_START,
};

const EV_SYN: u16 = 0;
const EV_KEY: u16 = 1;
const SYN_REPORT: u16 = 0;
const KEYEVENTF_KEYUP: u32 = 2;
const KEYEVENTF_SCANCODE: u32 = 8;
const INPUT_KEYBOARD: u32 = 1;

fn wire(x: f32) -> i16 {
    (x * 10_000.0).round() as i16
}

fn contact(pointer_id: u8, flags: u8, x: f32) -> Contact {
    Contact {
        pointer_id,
        flags,
        x: wire(x),
        y: wire(0.5),
        pressure: 32_768,
        touch_major: 6_554,
    }
}

fn frame(
    sequence: u64,
    action: u8,
    action_pointer_id: u8,
    flags: u8,
    contacts: Vec<Contact>,
) -> TouchFrame {
    TouchFrame {
        session_id: 1,
        sequence,
        phone_event_nanos: 0,
        phone_callback_nanos: 0,
        phone_send_nanos: 0,
        echo_host_send_nanos: 0,
        phone_control_receive_nanos: 0,
        action,
        action_pointer_id,
        flags,
        contacts: Contacts::from_slice(&contacts),
    }
}

fn touch_frame(action: u8, x: f32) -> TouchFrame {
    frame(
        1,
        action,
        0,
        FRAME_FLAG_LOCKED,
        vec![contact(0, CONTACT_FLAG_INSIDE | CONTACT_FLAG_TIP, x)],
    )
}

fn pairs(changes: &[KeyChange]) -> Vec<(usize, bool)> {
    changes
        .iter()
        .map(|change| (change.lane, change.down))
        .collect()
}

fn assert_changes(actual: &[KeyChange], expected: &[(usize, bool)]) {
    assert_eq!(pairs(actual), expected);
}

fn active_pointer_count(state: &KeyboardState) -> usize {
    state.pointer_lanes.iter().flatten().count()
}

/// A sink on which the pointers hold their lanes.
fn held_sink(lanes: usize, pointers: &[(u8, usize)]) -> KeyboardSink {
    let mut sink = KeyboardSink::with_lanes(lanes);
    let contacts = pointers
        .iter()
        .map(|(pointer, lane)| {
            contact(
                *pointer,
                CONTACT_FLAG_INSIDE | CONTACT_FLAG_TIP,
                (*lane as f32 + 0.5) / lanes as f32,
            )
        })
        .collect();
    let down = frame(1, ACTION_DOWN, 0, FRAME_FLAG_LOCKED, contacts);
    assert_eq!(sink.accept(&down), Ok(Step::Submit));
    let count = sink.remaining().len();
    assert!(sink.submitted(count).is_ok());
    sink
}

fn holds(sink: &KeyboardSink, lanes: usize) -> Vec<u16> {
    (0..lanes).map(|lane| sink.lane_hold(lane)).collect()
}

fn pressed(sink: &KeyboardSink, lanes: usize) -> Vec<bool> {
    (0..lanes).map(|lane| sink.is_pressed(lane)).collect()
}

fn held_pointers(sink: &KeyboardSink) -> usize {
    (0..=255).filter(|p| sink.pointer_lane(*p).is_some()).count()
}

fn check_lane_mapping() {
    assert_eq!(lane_for(wire(-0.5), 6), 0);
    assert_eq!(lane_for(wire(0.49), 6), 2);
    assert_eq!(lane_for(wire(1.0), 6), 5);
    assert_eq!(lane_for(wire(2.0), 6), 5);
}

#[test]
fn keyboard_lane_mapping_clamps_both_edges() {
    check_lane_mapping();
}

#[test]
fn mod_lane_mapping_clamps_both_edges() {
    check_lane_mapping();
}

#[test]
fn lanes_agree_with_the_arithmetic_of_fractions() {
    for lanes in 1..=36_usize {
        for raw in i16::MIN..=i16::MAX {
            let x = f32::from(raw) / 10_000.0;
            let expected = ((x.clamp(0.0, 1.0) * lanes as f32).floor() as usize).min(lanes - 1);
            assert_eq!(lane_for(raw, lanes), expected, "{raw} of {lanes}");
        }
    }
}

fn check_tip_without_inside() {
    let empty = KeyboardState::new(4);
    let (left_state, left) = plan_frame(
        &empty,
        &frame(
            1,
            ACTION_DOWN,
            0,
            FRAME_FLAG_LOCKED,
            vec![contact(0, CONTACT_FLAG_TIP, -0.5)],
        ),
    );
    assert_changes(&left, &[(0, true)]);
    assert_eq!(left_state.pointer_lanes[0], Some(0));
    assert_eq!(left_state.lane_holds, [1, 0, 0, 0]);

    let (right_state, right) = plan_frame(
        &empty,
        &frame(
            1,
            ACTION_DOWN,
            0,
            FRAME_FLAG_LOCKED,
            vec![contact(0, CONTACT_FLAG_TIP, 1.5)],
        ),
    );
    assert_changes(&right, &[(3, true)]);
    assert_eq!(right_state.pointer_lanes[0], Some(3));
    assert_eq!(right_state.lane_holds, [0, 0, 0, 1]);
}

#[test]
fn keyboard_tip_without_inside_owns_the_clamped_edge_lane() {
    check_tip_without_inside();
}

#[test]
fn mod_tip_without_inside_owns_the_clamped_edge_lane() {
    check_tip_without_inside();
}

fn check_outside_tip_hold() {
    let empty = KeyboardState::new(4);
    let (down_state, down) = plan_frame(
        &empty,
        &frame(
            1,
            ACTION_DOWN,
            0,
            FRAME_FLAG_LOCKED,
            vec![contact(0, CONTACT_FLAG_INSIDE | CONTACT_FLAG_TIP, 0.05)],
        ),
    );
    assert_changes(&down, &[(0, true)]);

    let (outside_state, outside) = plan_frame(
        &down_state,
        &frame(
            2,
            ACTION_MOVE,
            0,
            FRAME_FLAG_LOCKED,
            vec![contact(0, CONTACT_FLAG_TIP, -0.25)],
        ),
    );
    assert_changes(&outside, &[]);
    assert_eq!(outside_state.pointer_lanes[0], Some(0));
    assert_eq!(outside_state.lane_holds, [1, 0, 0, 0]);

    let (tip_clear_state, tip_clear) = plan_frame(
        &outside_state,
        &frame(
            3,
            ACTION_MOVE,
            0,
            FRAME_FLAG_LOCKED,
            vec![contact(0, CONTACT_FLAG_INSIDE, 0.05)],
        ),
    );
    assert_changes(&tip_clear, &[(0, false)]);
    assert_eq!(active_pointer_count(&tip_clear_state), 0);
    assert_eq!(tip_clear_state.lane_holds, [0, 0, 0, 0]);

    let (missing_state, missing) = plan_frame(
        &outside_state,
        &frame(3, ACTION_MOVE, 0, FRAME_FLAG_LOCKED, vec![]),
    );
    assert_changes(&missing, &[(0, false)]);
    assert_eq!(active_pointer_count(&missing_state), 0);
    assert_eq!(missing_state.lane_holds, [0, 0, 0, 0]);
}

#[test]
fn keyboard_outside_tip_hold_releases_only_when_tip_clears_or_contact_is_missing() {
    check_outside_tip_hold();
}

#[test]
fn mod_outside_tip_hold_releases_only_when_tip_clears_or_contact_is_missing() {
    check_outside_tip_hold();
}

fn check_reference_counts() {
    let empty = KeyboardState::new(4);
    let (both_state, both) = plan_frame(
        &empty,
        &frame(
            1,
            ACTION_DOWN,
            0,
            FRAME_FLAG_LOCKED,
            vec![
                contact(0, CONTACT_FLAG_TIP, 1.1),
                contact(1, CONTACT_FLAG_TIP, 1.2),
            ],
        ),
    );
    assert_changes(&both, &[(3, true)]);
    assert_eq!(both_state.lane_holds, [0, 0, 0, 2]);

    let (one_state, one) = plan_frame(
        &both_state,
        &frame(
            2,
            ACTION_MOVE,
            1,
            FRAME_FLAG_LOCKED,
            vec![contact(1, CONTACT_FLAG_TIP, 1.3)],
        ),
    );
    assert_changes(&one, &[]);
    assert_eq!(active_pointer_count(&one_state), 1);
    assert_eq!(one_state.pointer_lanes[1], Some(3));
    assert_eq!(one_state.lane_holds, [0, 0, 0, 1]);

    let (none_state, none) = plan_frame(
        &one_state,
        &frame(
            3,
            ACTION_MOVE,
            1,
            FRAME_FLAG_LOCKED,
            vec![contact(1, 0, 1.3)],
        ),
    );
    assert_changes(&none, &[(3, false)]);
    assert_eq!(active_pointer_count(&none_state), 0);
    assert_eq!(none_state.lane_holds, [0, 0, 0, 0]);
}

#[test]
fn keyboard_outside_contacts_reference_count_the_same_edge_lane() {
    check_reference_counts();
}

#[test]
fn mod_outside_contacts_reference_count_the_same_edge_lane() {
    check_reference_counts();
}

fn check_slide() {
    let empty = KeyboardState::new(4);
    let (down_state, down) = plan_frame(&empty, &touch_frame(ACTION_DOWN, 0.05));
    assert_changes(&down, &[(0, true)]);

    let (_, slide) = plan_frame(
        &down_state,
        &frame(
            2,
            ACTION_MOVE,
            0,
            FRAME_FLAG_LOCKED,
            vec![contact(0, CONTACT_FLAG_TIP, 1.5)],
        ),
    );
    assert_changes(
        &slide,
        &[
            (1, true),
            (0, false),
            (2, true),
            (1, false),
            (3, true),
            (2, false),
        ],
    );
}

#[test]
fn keyboard_outside_slide_plan_emits_every_crossed_lane_without_a_gap() {
    check_slide();
}

#[test]
fn mod_outside_slide_plan_emits_every_crossed_lane_without_a_gap() {
    check_slide();
}

#[test]
fn simultaneous_lane_swap_keeps_the_chord_asserted() {
    let empty = KeyboardState::new(4);
    let (held, _) = plan_frame(
        &empty,
        &frame(
            1,
            ACTION_DOWN,
            0,
            FRAME_FLAG_LOCKED,
            vec![
                contact(0, CONTACT_FLAG_TIP, 0.1),
                contact(1, CONTACT_FLAG_TIP, 0.3),
            ],
        ),
    );
    let (next, changes) = plan_frame(
        &held,
        &frame(
            2,
            ACTION_MOVE,
            0,
            FRAME_FLAG_LOCKED,
            vec![
                contact(0, CONTACT_FLAG_TIP, 0.3),
                contact(1, CONTACT_FLAG_TIP, 0.1),
            ],
        ),
    );

    assert_changes(&changes, &[]);
    assert_eq!(next.pointer_lanes[0], Some(1));
    assert_eq!(next.pointer_lanes[1], Some(0));
    assert_eq!(next.lane_holds, [1, 1, 0, 0]);
}

fn check_releases() {
    for (action, flags) in [
        (ACTION_CANCEL, FRAME_FLAG_LOCKED),
        (ACTION_MOVE, 0),
        (ACTION_MOVE, FRAME_FLAG_LOCKED | FRAME_FLAG_SESSION_START),
    ] {
        let mut sink = held_sink(4, &[(0, 0), (1, 3)]);
        let mut batches = Vec::new();

        assert_eq!(
            sink.accept(&frame(2, action, 0, flags, vec![])),
            Ok(Step::Release)
        );
        assert_eq!(sink.release_all(), Step::Submit);
        let changes = sink.remaining();
        batches.push(pairs(&changes));
        assert!(sink.submitted(changes.len()).is_ok());

        assert_eq!(batches, [vec![(0, false), (3, false)]]);
        assert_eq!(held_pointers(&sink), 0);
        assert_eq!(holds(&sink, 4), [0, 0, 0, 0]);
        assert_eq!(pressed(&sink, 4), [false, false, false, false]);
        assert!(!sink.has_active_input(false));
        assert!(sink.has_active_input(true));
    }
}

#[test]
fn keyboard_cancel_unlock_and_session_start_batch_all_releases() {
    check_releases();
}

#[test]
fn mod_cancel_unlock_and_session_start_batch_all_releases() {
    check_releases();
}

fn check_whole_frame() {
    let mut sink = held_sink(4, &[(0, 0)]);
    let slide = frame(
        2,
        ACTION_MOVE,
        0,
        FRAME_FLAG_LOCKED,
        vec![contact(0, CONTACT_FLAG_INSIDE | CONTACT_FLAG_TIP, 0.99)],
    );
    assert_eq!(sink.accept(&slide), Ok(Step::Submit));
    let changes = sink.remaining();
    assert_changes(
        &changes,
        &[
            (1, true),
            (0, false),
            (2, true),
            (1, false),
            (3, true),
            (2, false),
        ],
    );
    assert!(sink.submitted(changes.len()).is_ok());
    assert_eq!(sink.pointer_lane(0), Some(3));
    assert_eq!(holds(&sink, 4), [0, 0, 0, 1]);
    assert_eq!(pressed(&sink, 4), [false, false, false, true]);
    assert!(!sink.frame_pending());
}

#[test]
fn keyboard_accept_submits_the_whole_planned_frame_in_exact_order() {
    check_whole_frame();
}

#[test]
fn mod_accept_submits_the_whole_planned_frame_in_exact_order() {
    check_whole_frame();
}

fn check_partial_prefix() {
    let mut sink = held_sink(4, &[(0, 0)]);
    let slide = frame(
        2,
        ACTION_MOVE,
        0,
        FRAME_FLAG_LOCKED,
        vec![contact(0, CONTACT_FLAG_TIP, 1.5)],
    );
    assert_eq!(sink.accept(&slide), Ok(Step::Submit));
    let first = sink.remaining();
    assert_changes(
        &first,
        &[
            (1, true),
            (0, false),
            (2, true),
            (1, false),
            (3, true),
            (2, false),
        ],
    );
    let error = sink.submitted(2).unwrap_err();
    assert!(error.message().contains("accepted 2 of 6"));
    assert_eq!(first.len() - sink.remaining().len(), 2);
    assert_eq!(sink.pointer_lane(0), Some(0));
    assert_eq!(holds(&sink, 4), [1, 0, 0, 0]);
    assert_eq!(pressed(&sink, 4), [false, true, false, false]);

    let future_error = sink
        .accept(&frame(
            3,
            ACTION_MOVE,
            0,
            FRAME_FLAG_LOCKED,
            vec![contact(0, CONTACT_FLAG_TIP, 0.5)],
        ))
        .unwrap_err();
    assert!(future_error.message().contains("sequence 2"));

    assert_eq!(sink.accept(&slide), Ok(Step::Submit));
    let retry = sink.remaining();
    assert_changes(&retry, &[(2, true), (1, false), (3, true), (2, false)]);
    assert!(sink.submitted(retry.len()).is_ok());
    assert_eq!(sink.pointer_lane(0), Some(3));
    assert_eq!(holds(&sink, 4), [0, 0, 0, 1]);
    assert_eq!(pressed(&sink, 4), [false, false, false, true]);
    assert!(!sink.frame_pending());
}

#[test]
fn keyboard_accept_records_a_partial_prefix_and_retries_only_the_suffix() {
    check_partial_prefix();
}

#[test]
fn mod_accept_records_a_partial_prefix_and_retries_only_the_suffix() {
    check_partial_prefix();
}

fn check_partial_release() {
    let mut sink = held_sink(5, &[(0, 0), (1, 2), (2, 4)]);
    assert_eq!(sink.release_all(), Step::Submit);
    assert_changes(&sink.remaining(), &[(0, false), (2, false), (4, false)]);
    let error = sink.submitted(2).unwrap_err();
    assert!(error.message().contains("accepted 2 of 3"));
    assert_eq!(pressed(&sink, 5), [false, false, false, false, true]);
    assert_eq!(held_pointers(&sink), 3);
    assert_eq!(holds(&sink, 5), [1, 0, 1, 0, 1]);

    assert_eq!(sink.release_all(), Step::Submit);
    let retry = sink.remaining();
    assert_changes(&retry, &[(4, false)]);
    assert!(sink.submitted(retry.len()).is_ok());
    assert_eq!(pressed(&sink, 5), [false, false, false, false, false]);
    assert_eq!(held_pointers(&sink), 0);
    assert_eq!(holds(&sink, 5), [0, 0, 0, 0, 0]);
}

#[test]
fn keyboard_release_all_records_a_partial_prefix_and_retries_remaining_keys() {
    check_partial_release();
}

#[test]
fn mod_release_all_records_a_partial_prefix_and_retries_remaining_keys() {
    check_partial_release();
}

fn check_unchanged() {
    let mut sink = held_sink(4, &[(0, 0)]);
    let step = sink.accept(&frame(
        2,
        ACTION_MOVE,
        0,
        FRAME_FLAG_LOCKED,
        vec![contact(0, CONTACT_FLAG_TIP, -0.5)],
    ));
    assert_eq!(step, Ok(Step::Done));
    assert_eq!(sink.pointer_lane(0), Some(0));
    assert_eq!(pressed(&sink, 4), [true, false, false, false]);
}

#[test]
fn keyboard_unchanged_frame_commits_without_calling_the_submitter() {
    check_unchanged();
}

#[test]
fn mod_unchanged_frame_commits_without_calling_the_submitter() {
    check_unchanged();
}

#[test]
fn duplicate_lane_keys_are_rejected_case_insensitively() {
    assert!(validate_lane_keys(&vec!["s".to_owned(), "D".to_owned()]).is_ok());
    let error = validate_lane_keys(&vec!["s".to_owned(), "S".to_owned()]).unwrap_err();
    assert!(error.message().contains("must be unique"));
}

#[test]
fn sinks_refuse_lanes_that_share_a_key() {
    let keys = |keys: &[&str]| keys.iter().map(|key| key.to_string()).collect::<Vec<_>>();
    assert_eq!(KeyboardSink::new(&keys(&["s", "d"])).map(|s| s.lane_count()).ok(), Some(2));
    assert!(KeyboardSink::new(&keys(&["s", "S"])).is_err());
    assert_eq!(
        KeySink::new(&keys(&["s", "!", "", "?"])).err(),
        Some(KeyError::NotAlphanumeric("!".to_owned()))
    );
    assert_eq!(
        KeySink::new(&keys(&["", "!"])).err(),
        Some(KeyError::Empty)
    );
    let sink = KeySink::new(&keys(&["s", "d"])).ok().unwrap();
    assert_eq!(sink.lane_count(), 2);
    assert_eq!(sink.keycode(1), 32);
}

#[test]
fn maps_the_default_lane_keys_to_documented_evdev_keycodes() {
    assert_eq!(linux_keycode("s").unwrap(), 31);
    assert_eq!(linux_keycode("d").unwrap(), 32);
    assert_eq!(linux_keycode("f").unwrap(), 33);
    assert_eq!(linux_keycode("j").unwrap(), 36);
    assert_eq!(linux_keycode("k").unwrap(), 37);
    assert_eq!(linux_keycode("l").unwrap(), 38);
}

#[test]
fn rejects_input_the_windows_sink_also_rejects() {
    assert!(linux_keycode("").is_err());
    assert!(linux_keycode("ab").is_err());
    assert!(linux_keycode("!").is_err());
}

#[test]
fn rejects_invalid_lane_key_text() {
    assert!(parse_virtual_key("").is_err());
    assert!(parse_virtual_key("ab").is_err());
    assert!(parse_virtual_key("!").is_err());
    assert_eq!(parse_virtual_key("s").unwrap(), u16::from(b'S'));
}

#[test]
fn refused_keys_are_quoted() {
    let error: KeyError = parse_virtual_key("a\"b").unwrap_err();
    assert!(error.message().contains(&format!("{:?}", "a\"b")));
}

#[test]
fn encodes_physical_scan_code_down_and_up() {
    let down = key_input(31, true);
    let up = key_input(31, false);
    assert_eq!(down.kind, INPUT_KEYBOARD);
    assert_eq!(down.virtual_key, 0);
    assert_eq!(down.scan_code, 31);
    assert_ne!(down.flags & KEYEVENTF_SCANCODE, 0);
    assert_eq!(down.flags & KEYEVENTF_KEYUP, 0);
    assert_ne!(up.flags & KEYEVENTF_SCANCODE, 0);
    assert_ne!(up.flags & KEYEVENTF_KEYUP, 0);
}

fn decode_events(events: &[InputEvent]) -> Vec<(u16, u16, i32)> {
    events
        .iter()
        .map(|event| (event.kind, event.code, event.value))
        .collect()
}

/// Submits changes; `write` stands for the device.
fn submit(
    sink: &mut KeySink,
    changes: &[KeyChange],
    mut write: impl FnMut(&[InputEvent]) -> usize,
) -> Result<usize, SubmitError> {
    let changes = changes.to_vec();
    let done = match sink.begin_submit(&changes)? {
        FirstWrite::Nothing => return Ok(0),
        FirstWrite::Sync => {
            let written = write(&[doritrack::keyboard::linux::sync_event()]);
            sink.sync_written(Some(written))?;
            1
        }
        FirstWrite::Changes => 0,
    };
    if done == changes.len() {
        return Ok(done);
    }
    let events = sink.encode_changes(&changes, done);
    let written = write(&events);
    sink.changes_written(&changes, done, Some(written))
}

#[test]
fn batches_each_transition_with_its_sync_boundary() {
    let mut sink = KeySink::with_keycodes(vec![1, 2]);
    let changes = [
        KeyChange {
            lane: 0,
            down: true,
        },
        KeyChange {
            lane: 1,
            down: false,
        },
    ];
    let mut observed = Vec::new();

    let accepted = submit(&mut sink, &changes, |events| {
        observed = decode_events(events);
        events.len()
    })
    .unwrap();

    assert_eq!(accepted, 2);
    assert_eq!(
        observed,
        [
            (EV_KEY, 1, 1),
            (EV_SYN, SYN_REPORT, 0),
            (EV_KEY, 2, 0),
            (EV_SYN, SYN_REPORT, 0),
        ]
    );
    assert!(!sink.has_pending_submission());
}

#[test]
fn odd_short_write_withholds_the_unsynchronized_transition() {
    let mut sink = KeySink::with_keycodes(vec![1, 2]);
    let changes = [
        KeyChange {
            lane: 0,
            down: true,
        },
        KeyChange {
            lane: 1,
            down: true,
        },
    ];

    assert_eq!(submit(&mut sink, &changes, |_| 3).unwrap(), 1);
    assert!(sink.has_pending_submission());

    let mut retry = Vec::new();
    assert_eq!(
        submit(&mut sink, &changes[1..], |events| {
            retry.push(decode_events(events));
            events.len()
        })
        .unwrap(),
        1
    );
    assert_eq!(retry, [vec![(EV_SYN, SYN_REPORT, 0)]]);
    assert!(!sink.has_pending_submission());
}

#[test]
fn cancellation_neutralizes_an_unsynchronized_key_down() {
    let mut sink = KeySink::with_keycodes(vec![1]);
    let down = [KeyChange {
        lane: 0,
        down: true,
    }];
    assert_eq!(submit(&mut sink, &down, |_| 1).unwrap(), 0);

    let first_cleanup = decode_events(&sink.cleanup_events());
    let error = sink.cleanup_written(Some(1)).unwrap_err();
    assert!(error.message().contains("not its SYN_REPORT"));
    assert_eq!(first_cleanup, [(EV_KEY, 1, 0), (EV_SYN, SYN_REPORT, 0)]);

    let final_cleanup = decode_events(&sink.cleanup_events());
    sink.cleanup_written(Some(1)).unwrap();
    assert_eq!(final_cleanup, [(EV_SYN, SYN_REPORT, 0)]);
    assert!(!sink.has_pending_submission());
}

#[test]
fn writes_come_in_whole_events() {
    assert_eq!(whole_events(48, 96, 24), Ok(2));
    assert!(whole_events(47, 96, 24).is_err());
    assert!(whole_events(120, 96, 24).is_err());
    assert_eq!(ioc(1, b'U', 100, 4), 0x4004_5564);
    let sink = KeySink::with_keycodes(vec![1]);
    assert_eq!(sink.begin_submit(&vec![]), Ok(FirstWrite::Nothing));
}

#[test]
fn lanes_agree_with_fractions_of_the_surface() {
    for lanes in 1..=36_usize {
        for x in -500..=10_500_i16 {
            let share = (f32::from(x) / 10_000.0).clamp(0.0, 1.0);
            let lane = ((share * lanes as f32).floor() as usize).min(lanes - 1);
            assert_eq!(lane_for(x, lanes), lane, "{x} of {lanes}");
        }
    }
}

#[test]
fn a_slide_takes_each_lane_before_it_leaves_the_last() {
    let (held, _) = plan_frame(&KeyboardState::new(6), &touch_frame(ACTION_DOWN, 0.95));
    let (_, changes) = plan_frame(&held, &touch_frame(ACTION_MOVE, 0.40));
    assert_changes(
        &changes,
        &[(4, true), (5, false), (3, true), (4, false), (2, true), (3, false)],
    );
}
