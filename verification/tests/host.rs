use doritrack::host::options::{parse_options, Budget, Invocation, Mode, Options, Platform};
use doritrack::host::run::{
    default_route_refusal, policy_fault, protect_fault, recovered_line, verify_v5_local_only,
    Outcome, Plan, Stage, Verdict,
};
use doritrack::host::session::{
    classify, idle_peer_timed_out, stated_lanes, version_message, watch, watch_message,
    ControlState, Watch, IDLE_PEER_SILENCE_MILLIS,
};
use doritrack::host::status::{
    authenticated_line, is_exit_command, linux_log_directory, metrics_file_name, pair_command,
    record_line, windows_log_directory, HostPhase, PairCommand, PairEvent, StatusReporter,
};
use doritrack::launcher::{
    may_close, poll_child, valid_lane_list, ChildState, PollStep, Settings, SettingsError,
};
use doritrack::network::{
    discovery_timeout, frame_session, greeting_step, ingress_interface, read_hello, send_redundant,
    short_write, Attempt, ControlLayout, Endpoint, GreetingStep, ReadStep, SendResult, Sender,
    UdpConnection, REDUNDANT_SENDS,
};
use doritrack::protocol::{
    decode_discovery, encode_discovery, Contacts, OrderedFrames, TouchFrame, ACTION_CANCEL,
    ACTION_MOVE, CONTROL_ACK, CONTROL_HELLO, DISCOVERY_ACK, DISCOVERY_HELLO, FRAME_FLAG_LOCKED,
    FRAME_FLAG_SESSION_START, FRAME_MAGIC,
};
use doritrack::text::{is_space_char, parse_number, split_at_each, tame, trim};
use doritrack::v5::TransportKind;

#[test]
fn status_tokens_are_stable() {
    assert_eq!(HostPhase::Waiting.token(), "HPT_STATUS WAITING");
    assert_eq!(HostPhase::Connected.token(), "HPT_STATUS CONNECTED");
    assert_eq!(HostPhase::Recovering.token(), "HPT_STATUS RECOVERING");
    assert_eq!(HostPhase::Stopping.token(), "HPT_STATUS STOPPING");
    assert_eq!(HostPhase::Pairing.token(), "HPT_STATUS PAIRING");
}

#[test]
fn phases_are_said_once() {
    let mut status = StatusReporter::start();
    assert!(!status.publish(HostPhase::Waiting));
    assert!(status.publish(HostPhase::Connected));
    assert!(!status.publish(HostPhase::Connected));
    assert!(status.publish(HostPhase::Waiting));
}

#[test]
fn legacy_idle_timeout_never_replaces_active_progress_watchdog() {
    assert!(!idle_peer_timed_out(false, IDLE_PEER_SILENCE_MILLIS - 1));
    assert!(idle_peer_timed_out(false, IDLE_PEER_SILENCE_MILLIS));
    assert!(!idle_peer_timed_out(true, IDLE_PEER_SILENCE_MILLIS + 1_000));
}

#[test]
fn held_input_is_watched_before_every_read() {
    assert_eq!(
        watch(false, 0, 1_000_000),
        Watch::Read {
            allow_discovery: true
        }
    );
    assert_eq!(watch(false, 2_000, 0), Watch::IdleTimeout);
    assert_eq!(
        watch(true, 1_000_000, 31),
        Watch::Read {
            allow_discovery: false
        }
    );
    assert_eq!(watch(true, 0, 32), Watch::ActiveTimeout);
    assert_eq!(
        watch_message(true),
        "phone sent no valid peer activity for 2000 ms; returning to discovery"
    );
    assert_eq!(
        watch_message(false),
        "phone input made no committed progress for 32 ms; released held input and require a fresh session"
    );
    assert_eq!(
        version_message(3),
        "phone is sending protocol v3; install the matching protocol-v4 alpha APK"
    );
}

fn frame(session_id: u64, sequence: u64, flags: u8) -> TouchFrame {
    TouchFrame {
        session_id,
        sequence,
        phone_event_nanos: 1,
        phone_callback_nanos: 2,
        phone_send_nanos: 3,
        echo_host_send_nanos: 0,
        phone_control_receive_nanos: 0,
        action: if flags & FRAME_FLAG_SESSION_START != 0 {
            ACTION_CANCEL
        } else {
            ACTION_MOVE
        },
        action_pointer_id: 0,
        flags,
        contacts: Contacts::default(),
    }
}

#[test]
fn replays_and_gaps_are_told_apart() {
    let mut ordered = OrderedFrames::new();
    let first = frame(7, 0, FRAME_FLAG_SESSION_START);
    let arrival = classify(&ordered, &first);
    assert!(!arrival.replay && arrival.gap.is_none());
    ordered.push(first);
    assert!(classify(&ordered, &first).replay);
    assert!(ordered.commit_ready());
    assert!(classify(&ordered, &first).replay);
    let third = frame(7, 3, FRAME_FLAG_LOCKED);
    assert_eq!(classify(&ordered, &third).gap, Some(1));
    ordered.push(third);
    assert!(classify(&ordered, &third).replay);
    assert_eq!(classify(&ordered, &third).gap, None);
    assert_eq!(classify(&ordered, &frame(8, 9, 0)).gap, None);
}

#[test]
fn a_session_is_greeted_once_and_then_acknowledged() {
    let mut ordered = OrderedFrames::new();
    let mut control = ControlState::new();
    assert_eq!(control.reply(&ordered, 7), None);
    ordered.push(frame(7, 0, FRAME_FLAG_SESSION_START));
    let hello = control.reply(&ordered, 7).unwrap();
    assert_eq!((hello.kind, hello.session_id, hello.acknowledged), (CONTROL_HELLO, 7, None));
    assert_eq!(
        hello.ready_line(),
        "Lossless stream ready (session 0000000000000007, acknowledged=None)"
    );
    assert!(ordered.commit_ready());
    let ack = control.reply(&ordered, 7).unwrap();
    assert_eq!((ack.kind, ack.acknowledged), (CONTROL_ACK, Some(0)));
    assert_eq!(control.reply(&ordered, 7), Some(ack));
    assert_eq!(control.reply(&ordered, 8), None);
    assert!(ack.ready_line().contains("acknowledged=Some(0)"));
    let record = ack.encode(6, 99);
    assert_eq!(record[5], CONTROL_ACK);
    assert_eq!(record[24..28], 128_u32.to_le_bytes());
    assert_eq!(stated_lanes(6), 6);
    assert_eq!(stated_lanes(1_000), 255);
}

#[test]
fn recorded_frames_are_one_line() {
    let line = record_line(&frame(0x1234, 9, FRAME_FLAG_LOCKED));
    assert_eq!(
        line,
        "session=0000000000001234 seq=9 action=2 contacts=0 locked=true event_ns=1 callback_ns=2 send_ns=3"
    );
}

#[test]
fn pairing_talks_in_lines() {
    assert_eq!(PairEvent::Waiting.line(), "HPT_PAIR WAITING");
    assert_eq!(
        PairEvent::Pattern(vec![2, 4, 3, 2, 1, 4, 5, 5]).line(),
        "HPT_PAIR PATTERN 2,4,3,2,1,4,5,5"
    );
    assert_eq!(PairEvent::RemoteConfirmed.line(), "HPT_PAIR CONFIRMED");
    assert_eq!(
        PairEvent::Quality("good".to_owned()).line(),
        "HPT_QUALITY good"
    );
    assert_eq!(PairEvent::Complete.line(), "HPT_PAIR COMPLETE");
    assert_eq!(pair_command("  Approve\r"), Some(PairCommand::Approve));
    assert_eq!(pair_command("CANCEL"), Some(PairCommand::Cancel));
    assert_eq!(pair_command("q"), Some(PairCommand::Cancel));
    assert_eq!(pair_command("approve it"), None);
    assert!(is_exit_command(" Q \n"));
    assert!(!is_exit_command("quit"));
}

#[test]
fn reports_keep_portable_and_msix_user_storage() {
    let base = r"C:\Users\Player One\AppData\Local".to_owned();
    assert_eq!(
        windows_log_directory(Some(&base), true, None).unwrap(),
        [base.as_str(), "Doritrack", "Logs"]
    );
    assert_eq!(
        windows_log_directory(Some(&base), true, Some(&"Doritrack_Test".to_owned())).unwrap(),
        [
            base.as_str(),
            "Packages",
            "Doritrack_Test",
            "LocalState",
            "Logs"
        ]
    );
    assert!(windows_log_directory(Some(&"relative".to_owned()), false, None).is_err());
    assert!(windows_log_directory(Some(&String::new()), true, None).is_err());
    assert!(windows_log_directory(None, true, None).is_err());
    let state = "/state".to_owned();
    let home = "/home/player".to_owned();
    assert_eq!(
        linux_log_directory(Some(&state), Some(&home)),
        ["/state", "holodori", "logs"]
    );
    assert_eq!(
        linux_log_directory(Some(&String::new()), Some(&home)),
        ["/home/player", ".local", "state", "holodori", "logs"]
    );
    assert_eq!(linux_log_directory(None, None)[0], ".");
    assert_eq!(metrics_file_name(17), "holodori-metrics-17.txt");
}

fn run(arguments: &[&str], platform: Platform) -> Result<Invocation, String> {
    let arguments: Vec<String> = arguments.iter().map(|text| text.to_string()).collect();
    let budgets: Vec<Budget> = arguments
        .iter()
        .map(|text| match text.parse::<f64>() {
            Ok(number) if number.is_finite() && number > 0.0 => Budget::Accepted,
            Ok(_) => Budget::NotPositive,
            Err(error) => Budget::Malformed(error.to_string()),
        })
        .collect();
    parse_options(&arguments, &budgets, platform).map_err(|error| error.message)
}

fn options(arguments: &[&str]) -> Options {
    match run(arguments, Platform::Linux) {
        Ok(Invocation::Run(options)) => options,
        _ => panic!("options expected"),
    }
}

fn refusal(arguments: &[&str]) -> String {
    match run(arguments, Platform::Linux) {
        Err(message) => message,
        Ok(_) => panic!("refusal expected"),
    }
}

#[test]
fn options_have_defaults() {
    let found = options(&["--transport", "usb"]);
    assert_eq!(found.mode, Mode::Keys);
    assert_eq!(found.lane_keys, ["s", "d", "f", "j", "k", "l"]);
    assert!(found.spawn_probe);
    assert_eq!(found.target_title, "Holodori Touch Probe");
    assert_eq!(found.udp_port, 42_825);
    assert!(!found.metrics && !found.pair && !found.legacy_v4 && !found.local_only_tether);
    assert_eq!(found.metrics_file, None);
    assert_eq!(found.warning_budget, None);
    assert_eq!(found.transport, Some(TransportKind::Usb));
    assert!(matches!(
        run(&["--transport", "usb"], Platform::Windows),
        Ok(Invocation::Run(Options {
            mode: Mode::Touch,
            ..
        }))
    ));
}

#[test]
fn options_are_read_from_the_left() {
    let found = options(&[
        "--mode", "record", "--lanes", " a , ,b,\tc", "--target-title", "Game", "--udp-port", "+9",
        "--metrics-file", "out.txt", "--transport", "wifi", "--warn-ms", "12.5", "--pair",
    ]);
    assert_eq!(found.mode, Mode::Record);
    assert_eq!(found.lane_keys, ["a", "b", "c"]);
    assert!(!found.spawn_probe);
    assert_eq!(found.target_title, "Game");
    assert_eq!(found.udp_port, 9);
    assert!(found.metrics && found.pair);
    assert_eq!(found.metrics_file.as_deref(), Some("out.txt"));
    assert_eq!(found.warning_budget, Some(13));
    assert_eq!(found.transport, Some(TransportKind::Wifi));
    let legacy = options(&["--legacy-v4", "--local-only-tether", "--no-probe"]);
    assert_eq!(legacy.transport, Some(TransportKind::Usb));
    assert!(legacy.local_only_tether && !legacy.spawn_probe);
    assert!(matches!(
        run(&["--metrics", "-h", "--bogus"], Platform::Other),
        Ok(Invocation::Help)
    ));
    assert!(matches!(
        run(&["--help"], Platform::Other),
        Ok(Invocation::Help)
    ));
}

#[test]
fn each_fault_of_the_command_line_has_its_words() {
    assert_eq!(refusal(&["--mode", "touch"]), "--mode touch is Windows-only");
    assert_eq!(refusal(&["--mode", "x\"y"]), format!("unknown mode {:?}", "x\"y"));
    assert_eq!(refusal(&["--mode"]), "--mode needs touch, keys, or record");
    assert_eq!(refusal(&["--lanes"]), "--lanes needs a comma list");
    assert_eq!(refusal(&["--lanes", " , ,"]), "--lanes requires 1 to 16 keys");
    assert_eq!(
        refusal(&["--lanes", "a,b,c,d,e,f,g,h,i,j,k,l,m,n,o,p,q"]),
        "--lanes requires 1 to 16 keys"
    );
    assert_eq!(refusal(&["--target-title"]), "--target-title needs a value");
    assert_eq!(refusal(&["--udp-port"]), "--udp-port needs a value");
    for text in ["", "x", "1x", "-1", "+", "70000", "99999x", "x99999"] {
        assert_eq!(
            refusal(&["--udp-port", text]),
            text.parse::<u16>().unwrap_err().to_string()
        );
    }
    assert_eq!(
        refusal(&["--udp-port", "0"]),
        "--udp-port must be between 1 and 65535"
    );
    assert_eq!(refusal(&["--transport"]), "--transport needs usb or wifi");
    assert_eq!(refusal(&["--transport", "USB"]), "unknown transport \"USB\"");
    assert_eq!(refusal(&["--metrics-file"]), "--metrics-file needs a path");
    assert_eq!(refusal(&["--warn-ms"]), "--warn-ms needs milliseconds");
    assert_eq!(refusal(&["--warn-ms", "-1"]), "--warn-ms must be positive");
    assert_eq!(refusal(&["--warn-ms", "NaN"]), "--warn-ms must be positive");
    assert_eq!(
        refusal(&["--warn-ms", "fast"]),
        "fast".parse::<f64>().unwrap_err().to_string()
    );
    assert_eq!(refusal(&["bogus"]), "unknown option \"bogus\"; use --help");
    assert_eq!(
        refusal(&["--pair", "--legacy-v4"]),
        "--pair cannot be combined with --legacy-v4"
    );
    assert_eq!(
        refusal(&["--legacy-v4", "--transport", "wifi"]),
        "protocol v4 is available only over explicit USB transport"
    );
    assert_eq!(
        refusal(&[]),
        "protocol v5 requires --transport usb or --transport wifi"
    );
    assert_eq!(
        refusal(&["--transport", "wifi", "--local-only-tether"]),
        "--local-only-tether requires --transport usb"
    );
    assert_eq!(
        run(&["--local-only-tether"], Platform::Other).err().unwrap(),
        "--local-only-tether is supported only on Windows and Linux"
    );
}

#[test]
fn text_agrees_with_std() {
    for code in 0..=0x3100 {
        if let Some(c) = char::from_u32(code) {
            assert_eq!(is_space_char(c), c.is_whitespace(), "{code:x}");
            let shown = if c.is_control() { ' ' } else { c };
            assert_eq!(tame(&format!("<{c}>"), 9), format!("<{shown}>"));
        }
    }
    for text in ["", "  ", " a b ", "\u{a0}x\u{2003}", "x", "\n\tx y\r\n"] {
        assert_eq!(trim(text), text.trim());
        assert_eq!(split_at_each(text, ' '), text.split(' ').collect::<Vec<_>>());
    }
    for text in ["", "0", "+7", "ff", "FFFFFFFF", "100000000", "g", "1g", "+"] {
        assert_eq!(
            parse_number(text, 16, u64::from(u32::MAX)).ok(),
            u32::from_str_radix(text, 16).ok().map(u64::from)
        );
    }
}

const LEGACY: Plan = Plan {
    legacy: true,
    platform: Platform::Windows,
    local_only: true,
};

#[test]
fn a_round_goes_from_refresh_to_service() {
    assert_eq!(LEGACY.start(false, false), Stage::Refresh);
    assert_eq!(LEGACY.start(true, true), Stage::Finish);
    let go = |stage, outcome| LEGACY.next(stage, outcome, false, false);
    assert_eq!(go(Stage::Refresh, Outcome::Done), Verdict::Go(Stage::Accept));
    assert_eq!(go(Stage::Accept, Outcome::Done), Verdict::Go(Stage::Protect));
    assert_eq!(go(Stage::Protect, Outcome::Done), Verdict::Go(Stage::Revalidate));
    assert_eq!(go(Stage::Revalidate, Outcome::Done), Verdict::Go(Stage::Serve));
    assert_eq!(go(Stage::Serve, Outcome::Failed), Verdict::Go(Stage::Recover));
    assert_eq!(
        go(Stage::Recover, Outcome::Failed),
        Verdict::Again {
            pause_millis: 100,
            recovering: false
        }
    );
    assert_eq!(go(Stage::Finish, Outcome::Done), Verdict::End);
    assert_eq!(
        LEGACY.next(Stage::Refresh, Outcome::Done, false, true),
        Verdict::Go(Stage::Release)
    );
    assert_eq!(
        LEGACY.next(Stage::Serve, Outcome::Failed, true, true),
        Verdict::Go(Stage::Finish)
    );
}

#[test]
fn faults_end_or_restart_a_round() {
    let go = |stage, outcome| LEGACY.next(stage, outcome, false, false);
    assert_eq!(go(Stage::Refresh, Outcome::Failed), Verdict::Abort);
    assert_eq!(
        go(Stage::Release, Outcome::Failed),
        Verdict::Again {
            pause_millis: 1,
            recovering: false
        }
    );
    assert_eq!(
        go(Stage::Accept, Outcome::Denied),
        Verdict::Again {
            pause_millis: 250,
            recovering: false
        }
    );
    assert_eq!(go(Stage::Protect, Outcome::Denied), Verdict::Abort);
    assert_eq!(
        go(Stage::Protect, Outcome::Failed),
        Verdict::Again {
            pause_millis: 0,
            recovering: true
        }
    );
    let linux = Plan {
        legacy: true,
        platform: Platform::Linux,
        local_only: true,
    };
    assert_eq!(
        linux.next(Stage::Accept, Outcome::Denied, false, false),
        Verdict::Abort
    );
    let v5 = Plan {
        legacy: false,
        ..linux
    };
    assert_eq!(
        v5.next(Stage::Accept, Outcome::Done, false, false),
        Verdict::Go(Stage::Confine)
    );
    assert_eq!(
        v5.next(Stage::Accept, Outcome::NotPaired, false, false),
        Verdict::Abort
    );
    assert_eq!(
        v5.next(Stage::Accept, Outcome::TimedOut, false, false),
        Verdict::Again {
            pause_millis: 0,
            recovering: false
        }
    );
    assert_eq!(
        v5.next(Stage::Accept, Outcome::Failed, false, false),
        Verdict::Again {
            pause_millis: 100,
            recovering: false
        }
    );
    assert_eq!(
        v5.next(Stage::Confine, Outcome::Failed, false, false),
        Verdict::Abort
    );
    assert_eq!(v5.announcement(Stage::Accept), Some(HostPhase::Waiting));
    assert_eq!(LEGACY.announcement(Stage::Accept), None);
    assert_eq!(LEGACY.announcement(Stage::Serve), Some(HostPhase::Connected));
    assert_eq!(LEGACY.announcement(Stage::Finish), Some(HostPhase::Stopping));
}

#[test]
fn faults_are_told_with_a_hint() {
    let peer = Endpoint {
        address: 0xc0a8_2a81,
        port: 9,
    };
    assert_eq!(
        policy_fault("enable local-only USB tethering", "no", true),
        "could not enable local-only USB tethering: no; run the launcher as administrator"
    );
    assert_eq!(
        protect_fault(peer, "gone", false),
        "could not protect the USB tether route for 192.168.42.129:9: gone"
    );
    assert_eq!(default_route_refusal(false, false), None);
    assert_eq!(
        default_route_refusal(true, true).unwrap(),
        "local-only routing failed closed because a IPv4 and IPv6 default route uses the discovered RNDIS device"
    );
    assert!(default_route_refusal(false, true).unwrap().contains(" IPv6 "));
    assert_eq!(
        recovered_line(2),
        "Recovered 2 orphaned USB-tether route settings."
    );
    assert_eq!(
        authenticated_line(peer, 0xabc),
        "Authenticated v5 link ready from 192.168.42.129:9 (connection 0000000000000abc)"
    );
}

const PHONE: Endpoint = Endpoint {
    address: 0x7f00_0001,
    port: 5_000,
};

const PORT: u16 = 42_825;

fn connected() -> UdpConnection {
    let hello = read_hello(&encode_discovery(DISCOVERY_HELLO, 11, 22, PORT), PORT).unwrap();
    UdpConnection::open(&hello, PHONE)
}

fn frame_prefix(session_id: u64) -> [u8; 16] {
    let mut frame = [0_u8; 16];
    frame[..4].copy_from_slice(&FRAME_MAGIC);
    frame[8..16].copy_from_slice(&session_id.to_le_bytes());
    frame
}

#[test]
fn discovers_a_phone_and_returns_the_ack() {
    let hello = read_hello(&encode_discovery(DISCOVERY_HELLO, 11, 22, PORT), PORT).unwrap();
    let reply = encode_discovery(DISCOVERY_ACK, hello.nonce, hello.session_id, PORT);
    let message = decode_discovery(&reply).unwrap();
    assert_eq!(message.nonce, 11);
    assert_eq!(message.session_id, 22);
    assert_eq!(message.port, PORT);
    let connection = UdpConnection::open(&hello, PHONE);
    assert_eq!(connection.peer(), PHONE);
    assert_eq!(connection.discovery_session_id(), 22);
    assert!(read_hello(&encode_discovery(DISCOVERY_ACK, 11, 22, PORT), PORT).is_none());
    assert!(read_hello(&encode_discovery(DISCOVERY_HELLO, 11, 22, 9), PORT).is_none());
    assert_eq!(
        discovery_timeout(PORT),
        "no USB-tethered phone discovered on UDP port 42825"
    );
}

#[test]
fn non_tether_hello_is_ignored_without_an_ack() {
    let hello = encode_discovery(DISCOVERY_HELLO, 11, 22, PORT);
    assert_eq!(greeting_step(&hello, PORT, Sender::Unknown), GreetingStep::LookUp);
    assert_eq!(greeting_step(&hello, PORT, Sender::Elsewhere), GreetingStep::Skip);
    let other_way = Sender::OnTether {
        ingress_accepted: false,
    };
    assert_eq!(greeting_step(&hello, PORT, other_way), GreetingStep::Skip);
    let tether = Sender::OnTether {
        ingress_accepted: true,
    };
    assert!(matches!(
        greeting_step(&hello, PORT, tether),
        GreetingStep::Acknowledge(_)
    ));
    assert_eq!(greeting_step(b"noise", PORT, tether), GreetingStep::Skip);
}

#[test]
fn pre_session_policy_failure_is_propagated_without_an_ack() {
    let hello = encode_discovery(DISCOVERY_HELLO, 11, 22, PORT);
    assert_eq!(greeting_step(&hello, PORT, Sender::Refused), GreetingStep::Fail);
}

#[test]
fn foreign_hello_does_not_interrupt_the_pinned_peer() {
    let connection = connected();
    let foreign = Endpoint {
        address: 0x7f00_0002,
        port: 5_000,
    };
    assert_eq!(
        connection.read(
            &encode_discovery(DISCOVERY_HELLO, 99, 100, PORT),
            foreign,
            true,
            true,
            PORT
        ),
        ReadStep::Skip
    );
    assert_eq!(
        connection.read(&frame_prefix(22), foreign, true, true, PORT),
        ReadStep::Skip
    );
    assert_eq!(
        connection.read(&frame_prefix(22), PHONE, true, true, PORT),
        ReadStep::Deliver
    );
    assert_eq!(
        connection.read(&frame_prefix(23), PHONE, true, true, PORT),
        ReadStep::Skip
    );
    assert_eq!(
        connection.read(&frame_prefix(22), PHONE, false, true, PORT),
        ReadStep::Skip
    );
    assert_eq!(
        connection.read(b"not a Holodori datagram", PHONE, true, true, PORT),
        ReadStep::Skip
    );
}

#[test]
fn active_input_path_skips_repeated_discovery_and_reads_the_next_frame() {
    let connection = connected();
    let hello = encode_discovery(DISCOVERY_HELLO, 11, 22, PORT);
    assert_eq!(
        connection.read(&hello, PHONE, true, false, PORT),
        ReadStep::Skip
    );
    assert!(matches!(
        connection.read(&hello, PHONE, true, true, PORT),
        ReadStep::Acknowledge(_)
    ));
    assert_eq!(
        connection.read(&frame_prefix(22), PHONE, true, false, PORT),
        ReadStep::Deliver
    );
}

fn migrate(connection: &mut UdpConnection, nonce: u64, session: u64, port: u16) -> bool {
    let sender = Endpoint {
        address: PHONE.address,
        port,
    };
    match connection.read(
        &encode_discovery(DISCOVERY_HELLO, nonce, session, PORT),
        sender,
        true,
        true,
        PORT,
    ) {
        ReadStep::Acknowledge(hello) => {
            connection.adopt_discovery(&hello, sender);
            true
        }
        _ => false,
    }
}

#[test]
fn same_ip_new_port_is_adopted_without_consuming_the_next_frame() {
    let mut connection = connected();
    assert!(migrate(&mut connection, 33, 44, 6_000));
    assert_eq!(connection.peer().port, 6_000);
    assert_eq!(connection.discovery_session_id(), 44);
    assert!(connection.take_session_changed());
    assert!(!connection.take_session_changed());
    assert_eq!(
        connection.read(&frame_prefix(44), connection.peer(), true, true, PORT),
        ReadStep::Deliver
    );
}

#[test]
fn same_session_port_migration_preserves_session_state() {
    let mut connection = connected();
    assert!(migrate(&mut connection, 11, 22, 6_000));
    assert_eq!(connection.peer().port, 6_000);
    assert!(!connection.take_session_changed());
    assert!(!migrate(&mut connection, 12, 22, 7_000));
    assert_eq!(connection.peer().port, 6_000);
}

#[test]
fn one_whole_datagram_is_enough() {
    assert_eq!(REDUNDANT_SENDS, 2);
    assert_eq!(
        send_redundant(&vec![Attempt::Failed, Attempt::Sent(40)], 40),
        SendResult::Delivered
    );
    assert_eq!(
        send_redundant(&vec![Attempt::Sent(39), Attempt::Failed], 40),
        SendResult::Short(39)
    );
    assert_eq!(
        send_redundant(&vec![Attempt::Failed, Attempt::Sent(39)], 40),
        SendResult::Failed
    );
    assert_eq!(send_redundant(&vec![], 40), SendResult::Nothing);
    assert_eq!(short_write(39, 40), "short UDP datagram write: 39/40");
    assert_eq!(frame_session(&frame_prefix(5)), Some(5));
    assert_eq!(frame_session(&[0; 15]), None);
}

fn control_record(level: u32, kind: u32, data: &[u8]) -> Vec<u8> {
    let mut record = ((16 + data.len()) as u64).to_le_bytes().to_vec();
    record.extend_from_slice(&level.to_le_bytes());
    record.extend_from_slice(&kind.to_le_bytes());
    record.extend_from_slice(data);
    while record.len() % 8 != 0 {
        record.push(0);
    }
    record
}

#[test]
fn the_interface_is_found_behind_other_records() {
    let mut info = [0_u8; 8];
    info[4] = 7;
    assert_eq!(ingress_interface(ControlLayout::Windows, &control_record(0, 19, &info), 8), Some(7));
    let mut two = control_record(1, 2, b"other");
    two.extend_from_slice(&control_record(0, 19, &info));
    assert_eq!(ingress_interface(ControlLayout::Windows, &two, 8), Some(7));
    assert_eq!(ingress_interface(ControlLayout::Windows, &control_record(0, 19, &[0; 8]), 8), None);
    assert_eq!(ingress_interface(ControlLayout::Windows, &control_record(0, 19, &info[..7]), 8), None);
    assert_eq!(ingress_interface(ControlLayout::Windows, &[], 8), None);
    assert_eq!(ingress_interface(ControlLayout::Windows, &[0; 24], 8), None);
    let mut small = 20_u32.to_le_bytes().to_vec();
    small.extend_from_slice(&0_u32.to_le_bytes());
    small.extend_from_slice(&19_u32.to_le_bytes());
    small.extend_from_slice(&info);
    assert_eq!(ingress_interface(ControlLayout::Windows, &small, 4), Some(7));
    let mut linux = [0_u8; 12];
    linux[0] = 9;
    assert_eq!(
        ingress_interface(ControlLayout::Linux, &control_record(0, 8, &linux), 8),
        Some(9)
    );
    assert_eq!(
        ingress_interface(ControlLayout::Linux, &control_record(0, 19, &linux), 8),
        None
    );
    let mut overlong = control_record(0, 8, &linux);
    assert_eq!(overlong.len(), 32);
    overlong[0] = 100;
    assert_eq!(
        ingress_interface(ControlLayout::Linux, &overlong, 8),
        Some(9)
    );
    assert_eq!(
        ingress_interface(ControlLayout::Linux, &overlong[..20], 8),
        Some(9)
    );
    assert_eq!(
        ingress_interface(ControlLayout::Linux, &overlong[..19], 8),
        None
    );
    let mut other = control_record(0, 19, &linux);
    other[0] = 100;
    other.extend_from_slice(&control_record(0, 8, &linux));
    assert_eq!(ingress_interface(ControlLayout::Linux, &other, 8), None);
    let mut overlong = control_record(0, 19, &info);
    overlong[0] = 100;
    assert_eq!(
        ingress_interface(ControlLayout::Windows, &overlong, 8),
        None
    );
    linux[3] = 0x80;
    assert_eq!(
        ingress_interface(ControlLayout::Linux, &control_record(0, 8, &linux), 8),
        None
    );
}

#[test]
fn accepts_the_default_lane_layout() {
    assert!(valid_lane_list("s,d,f,j,k,l"));
}

#[test]
fn rejects_empty_or_multi_character_lanes() {
    assert!(!valid_lane_list(""));
    assert!(!valid_lane_list("s,down,d"));
    assert!(!valid_lane_list("s,,d"));
}

#[test]
fn rejects_more_than_sixteen_lanes() {
    let lanes = (0..17).map(|_| "a").collect::<Vec<_>>().join(",");
    assert!(!valid_lane_list(&lanes));
}

fn settings() -> Settings {
    Settings {
        touch: false,
        lanes: "s, d".to_owned(),
        port: "42825".to_owned(),
        budget: Some("8.333".to_owned()),
        metrics: true,
    }
}

#[test]
fn settings_become_a_command_line() {
    assert_eq!(
        settings().arguments().unwrap(),
        [
            "--mode", "keys", "--udp-port", "42825", "--warn-ms", "8.333", "--lanes", "s, d",
            "--metrics"
        ]
    );
    let touch = Settings {
        touch: true,
        lanes: "nonsense".to_owned(),
        metrics: false,
        ..settings()
    };
    assert_eq!(
        touch.arguments().unwrap(),
        ["--mode", "touch", "--udp-port", "42825", "--warn-ms", "8.333"]
    );
    for port in ["0", "", "65536", "x"] {
        let wrong = Settings {
            port: port.to_owned(),
            ..settings()
        };
        assert_eq!(wrong.arguments(), Err(SettingsError::Port));
    }
    let wrong = Settings {
        budget: None,
        ..settings()
    };
    assert_eq!(wrong.arguments(), Err(SettingsError::Budget));
    let wrong = Settings {
        lanes: "s,,d".to_owned(),
        ..settings()
    };
    assert_eq!(wrong.arguments(), Err(SettingsError::Lanes));
    assert_eq!(SettingsError::Lanes.message().1, "Check keyboard lanes");
}

#[test]
fn a_stopping_host_is_waited_for() {
    assert_eq!(poll_child(ChildState::Exited, true, None), PollStep::Close);
    assert_eq!(poll_child(ChildState::Exited, false, Some(1)), PollStep::Stopped);
    assert_eq!(poll_child(ChildState::Running, true, None), PollStep::Nothing);
    assert_eq!(
        poll_child(ChildState::Running, true, Some(5_000_000_000)),
        PollStep::Nothing
    );
    assert_eq!(
        poll_child(ChildState::Running, true, Some(5_000_000_001)),
        PollStep::StillStopping
    );
    assert_eq!(poll_child(ChildState::Unknown, false, None), PollStep::Report);
    assert!(may_close(false));
    assert!(!may_close(true));
}

#[test]
fn an_encrypted_link_is_kept_local_or_refused() {
    assert_eq!(verify_v5_local_only(false, None), Ok(()));
    assert_eq!(verify_v5_local_only(false, Some((true, true))), Ok(()));
    assert_eq!(verify_v5_local_only(true, Some((false, false))), Ok(()));
    assert_eq!(
        verify_v5_local_only(true, None),
        Err("local-only tethering requires the selected USB transport")
    );
    for routes in [(true, false), (false, true), (true, true)] {
        assert_eq!(
            verify_v5_local_only(true, Some(routes)),
            Err("local-only routing failed closed because the USB tether owns a default route")
        );
    }
}
