use doritrack::input::{
    after_failed_cancel, after_refusal, commit_accepted, CancelStep, CommitStep, RetryStep,
};
use doritrack::probe::{lane_edges, rgb, Point, PointerMessage, ProbeState};
use doritrack::protocol::{
    Contact, Contacts, OrderedFrames, TouchFrame, ACTION_CANCEL, ACTION_DOWN, ACTION_HEARTBEAT,
    ACTION_MOVE, ACTION_UP, CONTACT_FLAG_INSIDE, CONTACT_FLAG_TIP, FRAME_FLAG_LOCKED,
    FRAME_FLAG_SESSION_START,
};
use doritrack::touch::{
    transition_flags, ActiveContact, Edges, TouchInjector, TouchStage, TouchStep, TouchTarget,
    TouchVerdict, FLAGS_CANCEL, FLAGS_DOWN, FLAGS_UPDATE, POINTER_FLAG_DOWN,
    POINTER_FLAG_INCONTACT, POINTER_FLAG_INRANGE, POINTER_FLAG_UP, POINTER_FLAG_UPDATE,
};
use doritrack::usb::{
    completed_read, configuration_to_activate, find_bulk_pair, identity, is_accessory,
    may_negotiate, search_step, short_write, speaks_accessory, write_progress, Alternate, BulkPair,
    Endpoint, SearchStep, UsbFault, WriteStep,
};

const LIBUSB_ERROR_TIMEOUT: i32 = -7;

#[test]
fn timeout_preserves_partially_transferred_bytes() {
    assert_eq!(completed_read(LIBUSB_ERROR_TIMEOUT, 173).unwrap(), 173);
    assert_eq!(completed_read(LIBUSB_ERROR_TIMEOUT, 0).unwrap(), 0);
}

#[test]
fn failed_transfers_name_their_operation() {
    let fault = completed_read(-4, 3).unwrap_err();
    assert_eq!(fault.operation, "read the AOA touch stream");
    assert_eq!(
        fault.named("LIBUSB_ERROR_NO_DEVICE".to_owned()).message(),
        "could not read the AOA touch stream: LIBUSB_ERROR_NO_DEVICE (-4)"
    );
    assert_eq!(UsbFault::check("open", 0), Ok(0));
    assert!(UsbFault::check("open", -3).is_err());
    assert_eq!(
        short_write(3, 40).message(),
        "could not write a complete AOA acknowledgement: short write 3/40 (-1)"
    );
}

#[test]
fn messages_are_written_to_their_end() {
    assert_eq!(write_progress(0, 40, 0, 40), WriteStep::Complete);
    assert_eq!(write_progress(0, 40, LIBUSB_ERROR_TIMEOUT, 8), WriteStep::Continue(8));
    assert_eq!(write_progress(8, 40, 0, 0), WriteStep::Short(8));
    assert!(matches!(
        write_progress(8, 40, LIBUSB_ERROR_TIMEOUT, 0),
        WriteStep::Failed(_)
    ));
}

#[test]
fn accessories_are_told_from_phones() {
    assert!(is_accessory(0x18d1, 0x2d00) && is_accessory(0x18d1, 0x2d01));
    assert!(!is_accessory(0x18d1, 0x2d02));
    assert!(!may_negotiate(0x18d1, 0x2d00, None));
    assert!(may_negotiate(0x1234, 1, Some(0x1234)));
    assert!(!may_negotiate(0x1234, 1, None));
    assert!(speaks_accessory(2, [1, 0]) && speaks_accessory(2, [0, 1]));
    assert!(!speaks_accessory(2, [0, 0]) && !speaks_accessory(1, [1, 0]));
    assert_eq!(identity(0), Some("Holodori"));
    assert_eq!(identity(6), None);
    assert_eq!(configuration_to_activate(0), 1);
    assert_eq!(configuration_to_activate(3), 3);
    assert_eq!(search_step(true, false), SearchStep::Wait(100));
    assert_eq!(search_step(false, false), SearchStep::Wait(250));
    assert_eq!(search_step(true, true), SearchStep::TimedOut);
}

#[test]
fn the_first_setting_with_both_endpoints_is_taken() {
    let endpoint = |attributes, address| Endpoint {
        attributes,
        address,
    };
    let alternates = vec![
        Alternate {
            interface_number: 0,
            endpoints: vec![endpoint(2, 0x81), endpoint(3, 0x02)],
        },
        Alternate {
            interface_number: 1,
            endpoints: vec![endpoint(2, 0x82), endpoint(2, 0x03)],
        },
    ];
    assert_eq!(
        find_bulk_pair(&alternates),
        Ok(BulkPair {
            interface_number: 1,
            endpoint_in: 0x82,
            endpoint_out: 0x03
        })
    );
    assert_eq!(find_bulk_pair(&vec![]).unwrap_err().code, -5);
}

#[test]
fn a_replayed_move_reestablishes_an_unknown_contact() {
    assert_eq!(
        transition_flags(false, true),
        Some(POINTER_FLAG_DOWN | POINTER_FLAG_INRANGE | POINTER_FLAG_INCONTACT)
    );
    assert_eq!(
        transition_flags(true, true),
        Some(POINTER_FLAG_UPDATE | POINTER_FLAG_INRANGE | POINTER_FLAG_INCONTACT)
    );
}

#[test]
fn a_replayed_up_for_an_unknown_contact_is_already_satisfied() {
    assert_eq!(transition_flags(false, false), None);
    assert_eq!(transition_flags(true, false), Some(POINTER_FLAG_UP));
}

fn frame(sequence: u64, action: u8, pointer: u8, flags: u8, contacts: &[(u8, u8)]) -> TouchFrame {
    let contacts: Vec<Contact> = contacts
        .iter()
        .map(|(pointer_id, flags)| Contact {
            pointer_id: *pointer_id,
            flags: *flags,
            x: 5_000,
            y: 5_000,
            pressure: 32_768,
            touch_major: 6_554,
        })
        .collect();
    TouchFrame {
        session_id: 1,
        sequence,
        phone_event_nanos: 0,
        phone_callback_nanos: 0,
        phone_send_nanos: 0,
        echo_host_send_nanos: 0,
        phone_control_receive_nanos: 0,
        action,
        action_pointer_id: pointer,
        flags,
        contacts: Contacts::from_slice(&contacts),
    }
}

fn place(x: i32) -> ActiveContact {
    ActiveContact {
        x,
        y: 10,
        pressure: 512,
        radius: 4,
    }
}

const TOUCHING: u8 = CONTACT_FLAG_INSIDE | CONTACT_FLAG_TIP;

#[test]
fn the_screen_follows_the_snapshots() {
    let mut injector = TouchInjector::new();
    assert!(!injector.has_active_input());
    let down = frame(1, ACTION_DOWN, 3, FRAME_FLAG_LOCKED, &[(3, TOUCHING), (9, TOUCHING)]);
    let places = vec![place(100), place(200)];
    assert_eq!(injector.step(&down), TouchStep::Place);
    assert!(injector.move_first(&down, &places).is_none());
    let touches = injector.placement(&down, &places);
    assert_eq!(touches.len(), 2);
    assert_eq!((touches[0].pointer_id, touches[0].flags), (3, FLAGS_DOWN));
    assert_eq!(touches[1].contact.x, 200);
    injector.commit(&down, &places);
    assert!(injector.has_active_input());

    let repetition = injector.repetition();
    assert_eq!(repetition.len(), 2);
    assert!(repetition.iter().all(|touch| touch.flags == FLAGS_UPDATE));
    let cancellation = injector.cancellation();
    assert!(cancellation.iter().all(|touch| touch.flags == FLAGS_CANCEL));

    let up = frame(2, ACTION_UP, 3, FRAME_FLAG_LOCKED, &[(3, 0), (9, TOUCHING)]);
    let moved = vec![place(110), place(210)];
    let first = injector.move_first(&up, &moved).unwrap();
    assert!(first.iter().all(|touch| touch.flags == FLAGS_UPDATE));
    injector.moved_first(&up, &moved);
    let touches = injector.placement(&up, &moved);
    assert_eq!((touches[0].pointer_id, touches[0].flags), (3, POINTER_FLAG_UP));
    assert_eq!((touches[1].pointer_id, touches[1].flags), (9, FLAGS_UPDATE));
    injector.commit(&up, &moved);
    assert_eq!(injector.repetition().len(), 1);

    let missing = frame(3, ACTION_MOVE, 9, FRAME_FLAG_LOCKED, &[]);
    let touches = injector.placement(&missing, &vec![]);
    assert_eq!((touches[0].pointer_id, touches[0].flags), (9, POINTER_FLAG_UP));
    injector.cancelled();
    assert!(!injector.has_active_input());
}

#[test]
fn a_moved_pointer_moves_before_it_goes_up() {
    let mut injector = TouchInjector::new();
    let down = frame(1, ACTION_DOWN, 3, FRAME_FLAG_LOCKED, &[(3, TOUCHING)]);
    let places = vec![place(100)];
    assert_eq!(injector.first(&down, &places), TouchStage::Place);
    let verdict = injector.next(&down, &places, TouchStage::Place, false);
    assert_eq!(verdict, TouchVerdict::Failed);
    assert!(!injector.has_active_input());
    let verdict = injector.next(&down, &places, TouchStage::Place, true);
    assert_eq!(verdict, TouchVerdict::Finished);
    assert!(injector.has_active_input());

    let up = frame(2, ACTION_UP, 3, FRAME_FLAG_LOCKED, &[(3, 0)]);
    let moved = vec![place(110)];
    let stage = injector.first(&up, &moved);
    assert_eq!(stage, TouchStage::MoveFirst);
    let touches = injector.touches(&up, &moved, stage);
    assert_eq!(touches.len(), 1);
    assert_eq!((touches[0].contact.x, touches[0].flags), (110, FLAGS_UPDATE));
    assert_eq!(
        injector.next(&up, &moved, stage, true),
        TouchVerdict::Go(TouchStage::Place)
    );
    let touches = injector.touches(&up, &moved, TouchStage::Place);
    assert_eq!(touches.len(), 1);
    assert_eq!((touches[0].contact.x, touches[0].flags), (110, POINTER_FLAG_UP));
    injector.next(&up, &moved, TouchStage::Place, true);
    assert!(!injector.has_active_input());

    injector.next(&down, &places, TouchStage::Place, true);
    let unlocked = frame(3, ACTION_MOVE, 3, 0, &[(3, TOUCHING)]);
    let stage = injector.first(&unlocked, &vec![]);
    assert_eq!(stage, TouchStage::Cancel);
    let touches = injector.touches(&unlocked, &vec![], stage);
    assert_eq!(touches[0].flags, FLAGS_CANCEL);
    injector.next(&unlocked, &vec![], stage, true);
    assert!(!injector.has_active_input());
}

#[test]
fn unlocked_frames_cancel_and_heartbeats_repeat() {
    let injector = TouchInjector::new();
    let step = |action, flags| injector.step(&frame(1, action, 0, flags, &[]));
    assert_eq!(step(ACTION_MOVE, 0), TouchStep::Cancel);
    assert_eq!(step(ACTION_CANCEL, FRAME_FLAG_LOCKED), TouchStep::Cancel);
    assert_eq!(
        step(ACTION_MOVE, FRAME_FLAG_LOCKED | FRAME_FLAG_SESSION_START),
        TouchStep::Cancel
    );
    assert_eq!(step(ACTION_HEARTBEAT, FRAME_FLAG_LOCKED), TouchStep::Repeat);
}

#[test]
fn touch_areas_are_squares_around_their_place() {
    assert_eq!(
        place(100).area(),
        Edges {
            left: 96,
            top: 6,
            right: 104,
            bottom: 14
        }
    );
    let target = TouchTarget::from_client(
        5,
        6,
        Edges {
            left: 0,
            top: 0,
            right: 640,
            bottom: 0,
        },
    );
    assert_eq!((target.width, target.height), (640, 1));
}

#[test]
fn a_sink_is_given_eight_milliseconds() {
    assert_eq!(after_refusal(false, 7), RetryStep::Retry);
    assert_eq!(after_refusal(false, 8), RetryStep::TimedOut);
    assert_eq!(after_refusal(true, 8), RetryStep::Stopped);
    assert_eq!(after_failed_cancel(false), CancelStep::Retry);
    assert_eq!(after_failed_cancel(true), CancelStep::GiveUp);
}

#[test]
fn accepted_frames_are_committed_one_by_one() {
    let mut ordered = OrderedFrames::new();
    assert_eq!(commit_accepted(&mut ordered), CommitStep::Missing);
    ordered.push(frame(0, ACTION_CANCEL, 0, FRAME_FLAG_SESSION_START, &[]));
    ordered.push(frame(1, ACTION_MOVE, 0, FRAME_FLAG_LOCKED, &[]));
    assert_eq!(commit_accepted(&mut ordered), CommitStep::Another);
    assert_eq!(commit_accepted(&mut ordered), CommitStep::Finished);
    assert_eq!(commit_accepted(&mut ordered), CommitStep::Missing);
}

#[test]
fn the_probe_counts_pointers() {
    let mut state = ProbeState::new();
    state.receive_pointer(PointerMessage::Down, 12, Point { x: 1, y: -20 });
    state.receive_pointer(PointerMessage::Down, 3, Point { x: 12_345, y: 0 });
    state.receive_pointer(PointerMessage::Update, 12, Point { x: 2, y: 3 });
    assert_eq!(state.active().len(), 2);
    assert_eq!((state.active()[0].id, state.active()[1].point.x), (3, 2));
    assert_eq!(state.recent()[0], "UPDATE id=12  x=   2 y=   3");
    assert_eq!(state.recent()[1], "DOWN   id= 3  x=12345 y=   0");
    assert_eq!(state.recent()[2], "DOWN   id=12  x=   1 y= -20");
    state.receive_pointer(PointerMessage::Up, 12, Point { x: 2, y: 3 });
    assert_eq!(
        state.summary(),
        "WM_POINTER  active 1   down 2   update 1   up 1"
    );
    assert_eq!(rgb(1, 2, 3), 0x0003_0201);
    assert_eq!(lane_edges(603, 0), (0, 100));
    assert_eq!(lane_edges(603, 5), (500, 603));
}
