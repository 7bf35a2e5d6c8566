use doritrack::diagnostics::report::{companion_extension, report_lines};
use doritrack::diagnostics::event::LineError;
use doritrack::diagnostics::{
    Analysis, Cause, Count, Event, Measure, Series, ACCEPT, ACK, BEGIN, BOUNDARY, DUPLICATE, GAP,
    INGRESS, MAX_EVIDENCE, MAX_INCIDENTS, RECEIVE, REJECT, SINK_FAILURE,
};
use doritrack::metrics::{
    clock_nanos, next_index, pop_slot, push_slot, HostMetrics, Queue, QUEUE_CAPACITY,
};
use doritrack::protocol::{
    Contacts, TouchFrame, ACTION_HEARTBEAT, ACTION_MOVE, FRAME_FLAG_HISTORICAL,
    FRAME_FLAG_SESSION_START, MAX_REORDERED_FRAMES,
};

fn receive(at: u64, sequence: u64, event: u64, callback: u64, send: u64, flags: u64) -> Event {
    Event([
        RECEIVE, at, 7, sequence, event, callback, send, 0, 0, flags, 0, 1,
    ])
}

fn accept(at: u64, sequence: u64, ready: u64) -> Event {
    Event([ACCEPT, at, 7, sequence, ready, 0, 0, 0, 0, 0, 0, 0])
}

fn series(a: &Analysis, key: Measure) -> &Series {
    a.series_of(key).expect("samples")
}

#[test]
fn duplicates_heartbeats_and_rests_do_not_make_gameplay_cadence_healthy_or_bad() {
    let mut a = Analysis::new(8_333_333);
    a.observe(receive(1_000_000, 1, 100, 110, 120, 1));
    a.observe(accept(1_010_000, 1, 1_001_000));
    for seq in 2..100 {
        a.observe(Event([
            DUPLICATE,
            seq * 100_000,
            7,
            1,
            0,
            0,
            0,
            0,
            0,
            0,
            0,
            0,
        ]));
        a.observe(receive(
            seq * 100_000,
            seq,
            seq * 100_000,
            seq * 100_000,
            seq * 100_000,
            4,
        ));
        a.observe(accept(seq * 100_000 + 1, seq, seq * 100_000));
    }
    a.observe(receive(30_000_000, 100, 1_000_100, 1_000_110, 1_000_120, 1));
    assert_eq!(series(&a, Measure::UniqueGameplayReceiveInterval).n, 1);
    assert_eq!(
        series(&a, Measure::UniqueGameplayCadenceExcess).max_ns,
        28_000_000
    );
    // One second rest with one second event spacing is not an input stall.
    a.observe(receive(
        1_030_000_000,
        101,
        1_001_000_100,
        1_001_000_110,
        1_001_000_120,
        1,
    ));
    assert_eq!(
        series(&a, Measure::UniqueGameplayCadenceExcess).over_budget,
        1
    );
}

#[test]
fn historical_failure_and_reset_cannot_disappear_into_accepted_latency() {
    let mut a = Analysis::new(8_333_333);
    a.observe(receive(30_000_000, 1, 1, 20_000_001, 21_000_001, 3));
    a.observe(accept(30_010_000, 1, 30_001_000));
    a.observe(receive(
        31_000_000, 2, 30_000_000, 30_010_000, 30_020_000, 1,
    ));
    a.observe(Event([
        SINK_FAILURE,
        40_000_000,
        7,
        2,
        31_001_000,
        32,
        123,
        0,
        0,
        0,
        0,
        0,
    ]));
    a.observe(Event([BOUNDARY, 40_000_001, 7, 2, 1, 0, 0, 0, 0, 0, 0, 0]));
    assert_eq!(
        series(&a, Measure::HistoricalEventToSinkLocalLowerBound).max_ns,
        19_989_000
    );
    assert_eq!(a.count_of(Count::OsAccepted), Some(1));
    assert_eq!(a.count_of(Count::OsFailed), Some(1));
    assert_eq!(a.count_of(Count::GameplayUncommittedAtBoundary), Some(1));
    assert_eq!(a.incidents.len(), 1);
    assert!(a.incidents[0].causes.contains(Cause::OsSinkFailure));
    assert_eq!(Cause::OsSinkFailure.name(), "os_sink_failure");
}

#[test]
fn reorder_cluster_retains_pre_post_and_measures_hole_recovery() {
    let mut a = Analysis::new(8_333_333);
    a.observe(receive(1_000_000, 1, 1, 2, 3, 1));
    a.observe(accept(1_010_000, 1, 1_001_000));
    for sequence in [3, 4] {
        a.observe(Event([
            GAP,
            sequence * 1_000_000,
            7,
            sequence,
            2,
            0,
            0,
            0,
            0,
            0,
            0,
            0,
        ]));
        a.observe(receive(
            sequence * 1_000_000,
            sequence,
            sequence,
            sequence,
            sequence,
            1,
        ));
    }
    a.observe(receive(5_000_000, 2, 2, 2, 2, 1));
    a.observe(accept(5_010_000, 2, 5_001_000));
    a.observe(accept(5_020_000, 3, 5_011_000));
    a.observe(accept(5_030_000, 4, 5_021_000));
    a.observe(Event([BEGIN, 50_000_000, 0, 0, 0, 0, 0, 0, 0, 0, 0, 0]));
    assert_eq!(a.count_of(Count::OrderingHoles), Some(1));
    assert_eq!(
        series(&a, Measure::OrderingHoleUntilCommit).max_ns,
        2_030_000
    );
    assert_eq!(a.incidents.len(), 1);
    assert_eq!(a.incidents[0].evidence[0].0[3], 1);
    assert!(a.incidents[0].post_context_complete);
}

#[test]
fn asymmetric_forward_stall_is_not_hidden_by_half_rtt() {
    let mut a = Analysis::new(8_333_333);
    // phone clock is host +1 second. Calibrate with 100us each direction.
    a.observe(Event([
        RECEIVE,
        1_300_000,
        7,
        1,
        1_001_100_000,
        1_001_100_000,
        1_001_200_000,
        1_000_000,
        1_001_100_000,
        1,
        0,
        1,
    ]));
    a.observe(accept(1_310_000, 1, 1_301_000));
    // 12ms forward, 100us reverse: RTT/2 would wrongly pass 8.333ms.
    a.observe(Event([
        RECEIVE,
        14_400_000,
        7,
        2,
        1_002_200_000,
        1_002_200_000,
        1_002_400_000,
        2_000_000,
        1_002_100_000,
        1,
        0,
        1,
    ]));
    a.observe(accept(14_410_000, 2, 14_401_000));
    assert!(series(&a, Measure::ForwardTransitLowerBound).max_ns > 11_000_000);
    assert!(a.incidents.iter().any(|i| {
        i.causes
            .contains(Cause::ForwardTransportOrEndpointStallBounded)
    }));
}

#[test]
fn histograms_have_exact_thresholds_zero_full_range_and_enclosing_quantiles() {
    let mut s = Series::default();
    for ns in [0, 8_333_332, 8_333_333, 8_333_334, 900_000_000, u64::MAX] {
        s.push(ns, 8_333_333);
    }
    assert_eq!(s.over_budget, 3);
    assert_eq!(s.quantile(1, 6), Some([0, 0]));
    let bounds = s.quantile(5, 6).unwrap();
    assert!(bounds[0] <= 900_000_000 && bounds[1] >= 900_000_000);
    assert_eq!(s.quantile(6, 6).unwrap()[1], u64::MAX);
}

#[test]
fn quantiles_enclose_their_rank_for_every_rank() {
    let mut s = Series::default();
    let mut samples: Vec<u64> = (0..500).map(|n| (n * n * n * 7_919) % 50_000_017).collect();
    for ns in &samples {
        s.push(*ns, 1_000);
    }
    samples.sort();
    for rank in 1..=500_u64 {
        let [low, high] = s.quantile(rank, 500).unwrap();
        let exact = samples[rank as usize - 1];
        assert!(low <= exact && exact <= high);
        assert!((high - low) * 32 <= low);
    }
    assert_eq!(s.max_ns, samples[499]);
    assert_eq!(s.sum_ns, samples.iter().map(|ns| u128::from(*ns)).sum());
    assert_eq!(Series::default().quantile(1, 2), None);
}

#[test]
fn retention_and_unknown_coverage_are_explicit_and_bounded() {
    let mut a = Analysis::new(8_333_333);
    for n in 1..1000 {
        a.observe(Event([
            INGRESS,
            n * 100_000_000,
            0,
            0,
            3,
            0,
            0,
            0,
            0,
            0,
            0,
            0,
        ]));
    }
    a.finish(42);
    assert_eq!(a.incidents.len(), MAX_INCIDENTS);
    assert!(a.incidents_omitted > 0);
    assert_eq!(a.diagnostic_records_dropped, 42);
    assert!(a.incidents.iter().all(|i| i.evidence.len() <= MAX_EVIDENCE));
}

#[test]
fn slow_reconnect_remains_linked_to_failed_incident_and_snapshot() {
    let mut a = Analysis::new(8_333_333);
    a.observe(receive(1_000_000, 1, 1, 2, 3, 1));
    a.observe(Event([BOUNDARY, 32_000_000, 7, 1, 1, 0, 0, 0, 0, 0, 0, 0]));
    a.observe(Event([BEGIN, 1_000_000_000, 8, 0, 0, 0, 0, 0, 0, 0, 0, 0]));
    let mut start = receive(1_001_000_000, 0, 1, 2, 3, 8);
    start.0[2] = 8;
    a.observe(start);
    let mut committed = accept(1_001_010_000, 0, 1_001_001_000);
    committed.0[2] = 8;
    a.observe(committed);
    let mut snapshot = receive(1_009_000_000, 1, 1, 2, 3, 4);
    snapshot.0[2] = 8;
    a.observe(snapshot);
    let mut committed = accept(1_009_010_000, 1, 1_009_001_000);
    committed.0[2] = 8;
    a.observe(committed);
    assert_eq!(a.incidents[0].recovery_ns, Some(969_010_000));
    assert_eq!(a.incidents[0].fresh_session_commit_ns, Some(1_001_010_000));
    assert_eq!(
        a.incidents[0].reconstructed_snapshot_ns,
        Some(1_009_010_000)
    );
    assert!(a.incidents[0]
        .evidence
        .iter()
        .any(|e| e.0[0] == ACCEPT && e.0[2] == 8 && e.0[3] == 1));
}

#[test]
fn rejected_far_future_frame_does_not_replace_an_observed_pending_frame() {
    let mut a = Analysis::new(8_333_333);
    a.observe(receive(1_000_000, 1, 1, 2, 3, 1));
    let mut rejected = receive(2_000_000, 1 + MAX_REORDERED_FRAMES as u64, 1, 2, 3, 1);
    rejected.0[0] = REJECT;
    a.observe(rejected);
    a.observe(accept(3_000_000, 1, 2_001_000));
    assert_eq!(a.count_of(Count::GameplayOsAccepted), Some(1));
    assert_eq!(a.count_of(Count::OutcomeWithoutReceiveEvidence), None);
}

#[test]
fn reverse_stall_and_repeated_echo_have_distinct_metrics() {
    let mut a = Analysis::new(8_333_333);
    a.observe(Event([
        RECEIVE,
        1_300_000,
        7,
        1,
        1_001_100_000,
        1_001_100_000,
        1_001_200_000,
        1_000_000,
        1_001_100_000,
        1,
        0,
        1,
    ]));
    a.observe(accept(1_310_000, 1, 1_301_000));
    a.observe(Event([
        RECEIVE,
        14_400_000,
        7,
        2,
        1_014_200_000,
        1_014_200_000,
        1_014_300_000,
        2_000_000,
        1_014_100_000,
        4,
        0,
        1,
    ]));
    a.observe(accept(14_410_000, 2, 14_401_000));
    a.observe(Event([
        RECEIVE,
        15_400_000,
        7,
        3,
        1_015_200_000,
        1_015_200_000,
        1_015_300_000,
        2_000_000,
        1_014_100_000,
        4,
        0,
        1,
    ]));
    assert_eq!(series(&a, Measure::ForwardTransitLowerBound).n, 1);
    assert_eq!(series(&a, Measure::ControlFrameForwardLower).n, 2);
    assert_eq!(series(&a, Measure::ReverseControlLowerBound).n, 2);
    assert!(series(&a, Measure::ReverseControlLowerBound).max_ns > 11_000_000);
    assert_eq!(
        a.count_of(Count::ReusedControlEchoExcludedFromReverseDistribution),
        Some(1)
    );
}

#[test]
fn every_accepted_frame_of_play_has_one_verdict() {
    let mut a = Analysis::new(8_333_333);
    for n in 1..=40_u64 {
        let at = n * 1_000_000;
        a.observe(receive(at, n, at / 2, at / 2, at / 2 + 1, 1));
        if n % 3 != 0 {
            a.observe(accept(at + 10_000 + (n % 5) * 4_000_000, n, at + 1_000));
        }
    }
    a.finish(0);
    let count = |key| a.count_of(key).unwrap_or(0);
    assert_eq!(count(Count::GameplayOsAccepted), 27);
    assert_eq!(
        count(Count::GameplayBudgetDefiniteFail)
            + count(Count::GameplayBudgetUncertain)
            + count(Count::GameplayWithinBudgetUnderClockAssumption)
            + count(Count::GameplayBudgetUnmeasurable),
        27
    );
}

#[test]
fn the_last_events_are_kept_in_order() {
    let mut a = Analysis::new(1);
    for n in 1..=200 {
        a.observe(Event([DUPLICATE, n, 7, n, 0, 0, 0, 0, 0, 0, 0, 0]));
    }
    assert_eq!(a.schema(), 2);
    let context = a.recent_context();
    assert_eq!(context.len(), 128);
    assert_eq!(context[0].0[1], 73);
    assert_eq!(context[127].0[1], 200);
    assert!(a.has_room_for(&Event::default()));
}

#[test]
fn keys_are_in_alphabetical_order() {
    let names = |name: &dyn Fn(usize) -> Option<&'static str>| {
        (0..).map_while(|i| name(i)).collect::<Vec<_>>()
    };
    for listed in [
        names(&|i| Count::at(i).map(Count::name)),
        names(&|i| Measure::at(i).map(Measure::name)),
        names(&|i| Cause::at(i).map(Cause::name)),
    ] {
        let mut sorted = listed.clone();
        sorted.sort();
        assert_eq!(listed, sorted);
    }
}

#[test]
fn disabled_and_saturated_producers_never_allocate_or_wait() {
    let disabled = HostMetrics::new(false, 5);
    assert!(!disabled.enabled());
    assert!(disabled.note(ACK, 1, 2, 3, 4, 5).is_none());
    let mut queue = Queue::new();
    for n in 0..QUEUE_CAPACITY {
        assert!(queue.push(Event([n as u64; 12])));
    }
    assert!(!queue.push(Event::default()));
    for n in 0..QUEUE_CAPACITY {
        assert_eq!(queue.pop().unwrap().0, [n as u64; 12]);
    }
    assert!(queue.pop().is_none());
}

#[test]
fn producer_consumer_wrap_and_stop_preserve_all_published_fields() {
    let mut queue = Queue::starting_at(usize::MAX - 50_000);
    let mut taken = 0_u64;
    for n in 0..100_000_u64 {
        while !queue.push(Event([n; 12])) {
            assert_eq!(queue.pop().unwrap().0, [taken; 12]);
            taken += 1;
        }
        if n % 3 == 0 {
            assert_eq!(queue.pop().unwrap().0, [taken; 12]);
            taken += 1;
        }
    }
    while let Some(event) = queue.pop() {
        assert_eq!(event.0, [taken; 12]);
        taken += 1;
    }
    assert_eq!(taken, 100_000);
}

#[test]
fn slots_follow_the_indices_across_the_wrap() {
    assert_eq!(pop_slot(5, 5), None);
    assert_eq!(pop_slot(5, 6), Some(5));
    assert_eq!(push_slot(0, QUEUE_CAPACITY), None);
    assert_eq!(push_slot(1, QUEUE_CAPACITY), Some(0));
    assert_eq!(next_index(usize::MAX), 0);
    assert_eq!(push_slot(usize::MAX, 3), Some(3));
    assert_eq!(pop_slot(usize::MAX, 3), Some(QUEUE_CAPACITY - 1));
    assert_eq!(clock_nanos(u128::MAX), u64::MAX);
    assert_eq!(clock_nanos(77), 77);
}

fn frame(action: u8, flags: u8) -> TouchFrame {
    TouchFrame {
        session_id: 1,
        sequence: 2,
        phone_event_nanos: 3,
        phone_callback_nanos: 4,
        phone_send_nanos: 5,
        echo_host_send_nanos: 6,
        phone_control_receive_nanos: 7,
        action,
        action_pointer_id: 0,
        flags,
        contacts: Contacts::default(),
    }
}

#[test]
fn events_hold_what_was_observed() {
    let metrics = HostMetrics::new(true, 5);
    let received = metrics
        .receive_event(&frame(ACTION_MOVE, FRAME_FLAG_HISTORICAL), 99, false)
        .unwrap();
    assert_eq!(
        received.0,
        [RECEIVE, 99, 1, 2, 3, 4, 5, 6, 7, 3, u64::from(ACTION_MOVE), 0]
    );
    let flags = |frame: &TouchFrame| metrics.receive_event(frame, 0, true).unwrap().0[9];
    assert_eq!(flags(&frame(ACTION_HEARTBEAT, 0)), 4);
    assert_eq!(flags(&frame(ACTION_MOVE, FRAME_FLAG_SESSION_START)), 8);
    assert_eq!(
        metrics
            .receive_event(&frame(ACTION_MOVE, 0), 0, true)
            .unwrap()
            .0[0],
        DUPLICATE
    );
    assert_eq!(
        metrics.observe_gap(9, 7, 3, 5).unwrap().0,
        [GAP, 9, 7, 5, 3, 2, 0, 0, 0, 0, 0, 0]
    );
    assert_eq!(metrics.observe_gap(9, 7, 5, 3).unwrap().0[5], 0);
    assert_eq!(
        metrics
            .observe_sink(&frame(ACTION_MOVE, 0), 10, 20, 3, Some(-1))
            .unwrap()
            .0,
        [SINK_FAILURE, 20, 1, 2, 10, 3, u64::MAX, 0, 0, 0, 0, 0]
    );
    assert_eq!(
        metrics
            .observe_sink(&frame(ACTION_MOVE, 0), 10, 20, 3, None)
            .unwrap()
            .0[0],
        ACCEPT
    );
    assert_eq!(
        metrics.observe_ack(7, None, 10, 25, 18, true, false).unwrap().0,
        [ACK, 25, 7, u64::MAX, 18, 1, 0, 10, 0, 0, 0, 0]
    );
    assert_eq!(
        metrics.observe_ack_write(25, 15).unwrap().0,
        [ACK, 25, 0, u64::MAX, 15, 0, 0, 0, 0, 0, 0, 0]
    );
    assert_eq!(metrics.begin_connection(8).unwrap().0[..2], [BEGIN, 8]);
}

#[test]
fn dropped_events_are_counted_with_their_span() {
    let mut metrics = HostMetrics::new(true, 5);
    metrics.record(&accept(10, 1, 1), true);
    assert_eq!((metrics.dropped, metrics.drop_span), (0, None));
    metrics.record(&accept(20, 1, 1), false);
    metrics.record(&accept(30, 1, 1), false);
    assert_eq!((metrics.dropped, metrics.drop_span), (2, Some([20, 30])));
    metrics.finish();
    assert!(metrics.enabled());
    metrics.record(&accept(40, 1, 1), false);
    assert_eq!(metrics.dropped, 2);
}

#[test]
fn reports_say_what_was_measured() {
    let mut a = Analysis::new(8_333_333);
    a.observe(receive(1_000_000, 1, 1, 2, 3, 1));
    a.observe(accept(1_010_000, 1, 1_001_000));
    a.observe(Event([INGRESS, 2_000_000, 7, 5, 3, 0, 0, 0, 0, 0, 0, 0]));
    a.finish(2);
    a.set_drop_span(Some([5, 6]));
    let mut metrics = HostMetrics::new(true, 5);
    metrics.configure("USB", "os=test".to_owned());
    metrics.set_parser_counters(1, 2, 3);
    metrics.finish();
    let lines = report_lines(&metrics, &a, "1.500", "os=stop");
    assert_eq!(
        lines[0],
        "Doritrack diagnostic report schema=2 protocol=5 transport=USB duration_s=1.500"
    );
    assert_eq!(lines[1], "environment=os=test");
    assert_eq!(
        lines[2],
        format!("diagnostic_drop_span_ns={:?}", Some([5_u64, 6_u64]))
    );
    assert_eq!(lines[3], "environment_at_stop=os=stop");
    assert!(lines[4].starts_with("budget_ns=8333333 diagnostic_records_dropped=2 incidents="));
    assert_eq!(
        lines[8],
        "parser_invalid=1 parser_discarded_bytes=2 parser_boundary_bytes=3"
    );
    assert!(lines.contains(&"os_accepted=1".to_owned()));
    let service = series(&a, Measure::HostReceiveToSinkOutcome);
    let expected = format!(
        "host_receive_to_sink_outcome_ns: n={} invalid={} over_budget={} mean_ns={} max_ns={} p50={:?} p90={:?} p99={:?} p99.9={:?} tail_quality={}",
        service.n,
        service.invalid,
        service.over_budget,
        service.sum_ns / u128::from(service.n),
        service.max_ns,
        service.quantile(50, 100),
        service.quantile(90, 100),
        None::<[u64; 2]>,
        None::<[u64; 2]>,
        "insufficient tail support; max/exceed counts still apply",
    );
    assert!(lines.contains(&expected));
    let incident = &a.incidents[0];
    let causes: std::collections::BTreeSet<&str> = incident
        .causes
        .listed()
        .into_iter()
        .map(Cause::name)
        .collect();
    let expected = format!(
        "incident={} at_ns={} last_anomaly_ns={} frames={:?}..{:?} affected_observations={} recovery_to_os_commit_ns={:?} causes={:?} evidence={} omitted={} post_context_complete={}",
        incident.id,
        incident.started_ns,
        incident.last_anomaly_ns,
        incident.first_frame,
        incident.last_frame,
        incident.affected_frames,
        incident.recovery_ns,
        causes,
        incident.evidence.len(),
        incident.evidence_omitted,
        incident.post_context_complete
    );
    let at = lines.iter().position(|line| *line == expected).unwrap();
    let keys: std::collections::BTreeSet<[u64; 2]> = incident
        .affected_frame_keys
        .listed()
        .iter()
        .copied()
        .collect();
    assert_eq!(
        lines[at + 1],
        format!(
            "  affected_frame_keys={:?} omitted_keys={} fresh_session_commit_ns={:?} reconstructed_snapshot_ns={:?}",
            keys,
            incident.affected_keys_omitted,
            incident.fresh_session_commit_ns,
            incident.reconstructed_snapshot_ns
        )
    );
    assert_eq!(lines.len(), at + 2);
}

#[test]
fn the_companion_never_replaces_the_report() {
    assert_eq!(companion_extension(None), "json");
    assert_eq!(companion_extension(Some(&"txt".to_owned())), "json");
    assert_eq!(companion_extension(Some(&"json".to_owned())), "events.json");
    assert_eq!(companion_extension(Some(&"JsOn".to_owned())), "events.json");
}

#[test]
fn events_are_read_from_lines() {
    let event = Event::from_line("1,2,3,4,5,6,7,8,9,10,11,18446744073709551615").unwrap();
    assert_eq!(event.0, [1, 2, 3, 4, 5, 6, 7, 8, 9, 10, 11, u64::MAX]);
    assert_eq!(Event::from_line("1,2,3").unwrap_err(), LineError::Columns);
    assert_eq!(
        Event::from_line("1,2,3").unwrap_err().message(),
        "expected 12 numeric columns"
    );
    assert_eq!(
        Event::from_line("1, 2,x").unwrap_err().message(),
        "1, 2,x"
            .split(',')
            .find_map(|column| column.parse::<u64>().err())
            .unwrap()
            .to_string()
    );
}

#[test]
fn only_occupied_bins_are_listed() {
    let mut series = Series::default();
    series.push(3, 10);
    series.push(3, 10);
    series.push(33, 10);
    assert_eq!(series.sparse_bins(), [(3, 2), (33, 1)]);
}
