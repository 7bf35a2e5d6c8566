//! What an analysis knows, and how each event changes it.
use crate::diagnostics::event::{
    Event, ACCEPT, ACK, BEGIN, BOUNDARY, CANCEL, DUPLICATE, GAP, INGRESS, RECEIVE, REJECT,
    SINK_FAILURE, STALL,
};
use crate::diagnostics::keys::{Cause, Count, Measure, COUNTS, MEASURES};
use crate::diagnostics::series::SeriesView;
use crate::protocol::MAX_REORDERED_FRAMES;
use vstd::prelude::*;

verus! {

/// The version of what a report holds.
pub const SCHEMA: u8 = 2;

/// How many earlier events an incident starts with, at most.
pub const CONTEXT: usize = 128;

pub const MAX_INCIDENTS: usize = 256;

pub const MAX_EVIDENCE: usize = 512;

/// An incident ends when no anomaly follows for this long.
pub const QUIET_NS: u64 = 32_000_000;

/// How many frames can await their outcome.
pub const SLOTS: usize = MAX_REORDERED_FRAMES;

/// An exchange of clock readings is used for at most this long.
pub const EXCHANGE_LIMIT_NS: u64 = 2_000_000_000;

/// The interval of an earlier exchange is used for at most this long.
pub const CLOCK_LIMIT_NS: u64 = 1_000_000_000;

/// What an incident holds.
#[verifier::ext_equal]
pub struct IncidentView {
    pub id: usize,
    pub started_ns: u64,
    pub last_anomaly_ns: u64,
    pub last_evidence_ns: u64,
    pub recovery_ns: Option<u64>,
    pub fresh_session_commit_ns: Option<u64>,
    pub reconstructed_snapshot_ns: Option<u64>,
    pub causes: Set<Cause>,
    pub affected_frames: u64,
    pub affected_frame_keys: Set<[u64; 2]>,
    pub affected_keys_omitted: u64,
    pub first_frame: [u64; 2],
    pub last_frame: [u64; 2],
    pub evidence_omitted: u64,
    pub pre_context_truncated: bool,
    pub post_context_complete: bool,
    pub evidence: Seq<Event>,
}

pub open spec fn later(a: u64, b: u64) -> u64 {
    if a < b {
        b
    } else {
        a
    }
}

/// `a - b`, or zero.
pub open spec fn since(a: u64, b: u64) -> u64 {
    if a < b {
        0
    } else {
        (a - b) as u64
    }
}

pub open spec fn capped(n: int) -> u64 {
    if n > u64::MAX {
        u64::MAX
    } else {
        n as u64
    }
}

pub open spec fn at_least_zero(n: int) -> u64 {
    if n < 0 {
        0
    } else {
        n as u64
    }
}

pub open spec fn slot_of(e: Event) -> int {
    (e.0[3] % SLOTS as u64) as int
}

/// The time from `earlier` to `later`, where both are known and in order.
pub open spec fn elapsed(later: u64, earlier: u64) -> Option<u64> {
    if earlier == 0 || later < earlier {
        None
    } else {
        Some((later - earlier) as u64)
    }
}

impl IncidentView {
    /// The incident with one more event as evidence, as far as there is room.
    pub open spec fn evidenced(self, e: Event) -> IncidentView {
        if self.evidence.len() < MAX_EVIDENCE {
            IncidentView { evidence: self.evidence.push(e), ..self }
        } else {
            IncidentView { evidence_omitted: (self.evidence_omitted + 1) as u64, ..self }
        }
    }

    /// The incident with one more frame key, as far as there is room. Session zero
    /// and the sequence `u64::MAX` name no frame.
    pub open spec fn keyed(self, e: Event) -> IncidentView {
        let key = [e.0[2], e.0[3]];
        if e.0[2] == 0 || e.0[3] == u64::MAX {
            self
        } else if self.affected_frame_keys.len() < MAX_EVIDENCE {
            IncidentView { affected_frame_keys: self.affected_frame_keys.insert(key), ..self }
        } else if !self.affected_frame_keys.contains(key) {
            IncidentView { affected_keys_omitted: (self.affected_keys_omitted + 1) as u64, ..self }
        } else {
            self
        }
    }

    /// The incident after an anomaly, which is about a `new_frame` or about the
    /// frame of the anomaly before.
    pub open spec fn struck(self, e: Event, cause: Cause, new_frame: bool) -> IncidentView {
        IncidentView {
            last_anomaly_ns: e.0[1],
            recovery_ns: None,
            causes: self.causes.insert(cause),
            affected_frames: if new_frame {
                (self.affected_frames + 1) as u64
            } else {
                self.affected_frames
            },
            last_frame: [e.0[2], e.0[3]],
            ..self
        }.keyed(e)
    }

    pub open spec fn wf(self, index: int) -> bool {
        &&& self.id == index + 1
        &&& self.evidence.len() <= MAX_EVIDENCE
        &&& self.affected_frame_keys.finite()
        &&& self.affected_frame_keys.len() <= MAX_EVIDENCE
    }
}

/// What an analysis holds.
#[verifier::ext_equal]
pub struct AnalysisView {
    /// The version of what a report holds.
    pub schema: u8,
    pub budget_ns: u64,
    /// By the position of the [`Count`].
    pub counts: Seq<Option<u64>>,
    /// By the position of the [`Measure`].
    pub series: Seq<Option<SeriesView>>,
    pub incidents: Seq<IncidentView>,
    pub incidents_omitted: u64,
    pub records_dropped: u64,
    /// The times of the first and the last record that was dropped.
    pub drop_span_ns: Option<[u64; 2]>,
    pub last_event_ns: u64,
    /// Frames received whose outcome is open, by their sequence modulo [`SLOTS`].
    pub pending: Seq<Option<Event>>,
    /// The bounds on the forward transit of the frame last received in each slot.
    pub forward_bounds: Seq<Option<[u64; 2]>>,
    /// Session, host time, and the interval that holds the host clock minus the phone clock.
    pub clock: Option<(u64, u64, i128, i128)>,
    /// The last events, oldest first.
    pub history: Seq<Event>,
    /// The incident that is open.
    pub active: Option<usize>,
    /// Session, missing sequence, time of discovery, highest sequence seen past it.
    pub gap: Option<(u64, u64, u64, u64)>,
    pub last_unique: Option<Event>,
    pub last_commit: Option<Event>,
    pub last_bad_frame: Option<[u64; 2]>,
    /// The incident whose failed session has not been replaced yet.
    pub recovering: Option<usize>,
    /// The incident whose replacing session has not shown its contacts yet.
    pub awaiting_snapshot: Option<usize>,
    pub last_reverse_echo: Option<(u64, u64)>,
}

impl AnalysisView {
    pub open spec fn fresh(budget_ns: u64) -> AnalysisView {
        AnalysisView {
            schema: SCHEMA,
            budget_ns,
            counts: Seq::new(COUNTS as nat, |i: int| None),
            series: Seq::new(MEASURES as nat, |i: int| None),
            incidents: Seq::empty(),
            incidents_omitted: 0,
            records_dropped: 0,
            drop_span_ns: None,
            last_event_ns: 0,
            pending: Seq::new(SLOTS as nat, |i: int| None),
            forward_bounds: Seq::new(SLOTS as nat, |i: int| None),
            clock: None,
            history: Seq::empty(),
            active: None,
            gap: None,
            last_unique: None,
            last_commit: None,
            last_bad_frame: None,
            recovering: None,
            awaiting_snapshot: None,
            last_reverse_echo: None,
        }
    }

    /// What every analysis keeps.
    pub open spec fn wf(self) -> bool {
        &&& self.schema == SCHEMA
        &&& self.counts.len() == COUNTS
        &&& self.series.len() == MEASURES
        &&& forall|i: int|
            0 <= i < MEASURES ==> (#[trigger] self.series[i] matches Some(series) ==> series.wf())
        &&& self.incidents.len() <= MAX_INCIDENTS
        &&& forall|i: int| 0 <= i < self.incidents.len() ==> (#[trigger] self.incidents[i]).wf(i)
        &&& self.pending.len() == SLOTS
        &&& self.forward_bounds.len() == SLOTS
        &&& self.history.len() <= CONTEXT
        &&& self.active matches Some(index) ==> index < self.incidents.len()
        &&& self.recovering matches Some(index) ==> index < self.incidents.len()
        &&& self.awaiting_snapshot matches Some(index) ==> index < self.incidents.len()
        &&& self.clock matches Some((session, at, low, high)) ==> -0x2_0000_0000_0000_0000 <= low
            && low <= high && high <= 0x2_0000_0000_0000_0000
    }

    /// No tally but that of the sink's own retries is above `limit`.
    pub open spec fn bounded(self, limit: nat) -> bool {
        &&& self.incidents_omitted <= limit
        &&& forall|i: int|
            0 <= i < COUNTS && i != Count::SinkRetries.position() ==> (
            #[trigger] self.counts[i] matches Some(n) ==> n <= limit)
        &&& forall|i: int|
            0 <= i < MEASURES ==> (#[trigger] self.series[i] matches Some(series) ==> series.n
                <= limit && series.invalid <= limit)
        &&& forall|i: int|
            0 <= i < self.incidents.len() ==> (#[trigger] self.incidents[i]).affected_frames
                <= limit && self.incidents[i].affected_keys_omitted <= limit
                && self.incidents[i].evidence_omitted <= limit
    }

    pub open spec fn count(self, key: Count) -> u64 {
        match self.counts[key.position()] {
            Some(n) => n,
            None => 0,
        }
    }

    pub open spec fn series_of(self, key: Measure) -> SeriesView {
        match self.series[key.position()] {
            Some(series) => series,
            None => SeriesView::empty(),
        }
    }

    pub open spec fn counted(self, key: Count, n: u64) -> AnalysisView {
        AnalysisView {
            counts: self.counts.update(key.position(), Some((self.count(key) + n) as u64)),
            ..self
        }
    }

    pub open spec fn sampled(self, key: Measure, ns: u64) -> AnalysisView {
        AnalysisView {
            series: self.series.update(
                key.position(),
                Some(self.series_of(key).push(ns, self.budget_ns)),
            ),
            ..self
        }
    }

    /// A time difference is a sample where it is known, and else counts as invalid.
    pub open spec fn measured(self, key: Measure, later: u64, earlier: u64) -> AnalysisView {
        match elapsed(later, earlier) {
            Some(ns) => self.sampled(key, ns),
            None => AnalysisView {
                series: self.series.update(key.position(), Some(self.series_of(key).reject())),
                ..self
            },
        }
    }

    pub open spec fn over_budget(self, later: u64, earlier: u64) -> bool {
        elapsed(later, earlier) matches Some(ns) && ns > self.budget_ns
    }

    pub open spec fn incident_opened_by(self, e: Event) -> IncidentView {
        IncidentView {
            id: (self.incidents.len() + 1) as usize,
            started_ns: e.0[1],
            last_anomaly_ns: e.0[1],
            last_evidence_ns: e.0[1],
            recovery_ns: None,
            fresh_session_commit_ns: None,
            reconstructed_snapshot_ns: None,
            causes: Set::empty(),
            affected_frames: 0,
            affected_frame_keys: Set::empty(),
            affected_keys_omitted: 0,
            first_frame: [e.0[2], e.0[3]],
            last_frame: [e.0[2], e.0[3]],
            evidence_omitted: 0,
            pre_context_truncated: self.history.len() == CONTEXT,
            post_context_complete: false,
            evidence: self.history,
        }
    }

    /// The open incident struck by an anomaly.
    pub open spec fn struck(self, index: int, e: Event, cause: Cause) -> AnalysisView {
        let new_frame = self.last_bad_frame != Some([e.0[2], e.0[3]]);
        AnalysisView {
            incidents: self.incidents.update(
                index,
                self.incidents[index].struck(e, cause, new_frame),
            ),
            last_bad_frame: Some([e.0[2], e.0[3]]),
            ..self
        }
    }

    /// An anomaly joins the open incident or opens one, as far as there is room.
    pub open spec fn reported(self, e: Event, cause: Cause) -> AnalysisView {
        match self.active {
            Some(index) => self.struck(index as int, e, cause),
            None => if self.incidents.len() == MAX_INCIDENTS {
                AnalysisView { incidents_omitted: (self.incidents_omitted + 1) as u64, ..self }
            } else {
                AnalysisView {
                    incidents: self.incidents.push(self.incident_opened_by(e)),
                    active: Some(self.incidents.len() as usize),
                    ..self
                }.struck(self.incidents.len() as int, e, cause)
            },
        }
    }

    pub open spec fn reported_if(self, condition: bool, e: Event, cause: Cause) -> AnalysisView {
        if condition {
            self.reported(e, cause)
        } else {
            self
        }
    }

    /// The event as evidence of the open incident.
    pub open spec fn retained(self, e: Event) -> AnalysisView {
        match self.active {
            Some(index) => AnalysisView {
                incidents: self.incidents.update(
                    index as int,
                    IncidentView {
                        last_evidence_ns: e.0[1],
                        ..self.incidents[index as int]
                    }.evidenced(e),
                ),
                ..self
            },
            None => self,
        }
    }

    pub open spec fn abandoned(frame: Event, at: u64) -> Event {
        Event(
            [
                REJECT,
                at,
                frame.0[2],
                frame.0[3],
                frame.0[4],
                frame.0[5],
                frame.0[6],
                frame.0[7],
                frame.0[8],
                frame.0[9],
                frame.0[10],
                frame.0[11],
            ],
        )
    }

    /// The frame in one slot given up at time `at`.
    pub open spec fn slot_discarded(self, slot: int, at: u64) -> AnalysisView {
        match self.pending[slot] {
            None => self,
            Some(frame) => {
                let counted = AnalysisView {
                    pending: self.pending.update(slot, None),
                    ..self
                }.counted(Count::ObservedUncommittedAtBoundary, 1);
                let counted = if frame.gameplay() {
                    counted.counted(Count::GameplayUncommittedAtBoundary, 1)
                } else {
                    counted
                };
                let discarded = AnalysisView::abandoned(frame, at);
                counted.reported(discarded, Cause::ProtocolObservedFrameAbandoned).retained(
                    discarded,
                )
            },
        }
    }

    /// The frames in the first `slots` slots given up at time `at`, in the order of
    /// the slots.
    pub open spec fn discarded(self, slots: nat, at: u64) -> AnalysisView
        decreases slots,
    {
        if slots == 0 {
            self
        } else {
            self.discarded((slots - 1) as nat, at).slot_discarded(slots - 1, at)
        }
    }
}

/// The interval that an exchange alone gives for the host clock minus the phone
/// clock: the host sent at `d[7]` what the phone received at `d[8]`, and the phone
/// sent at `d[6]` what the host received at `d[1]`.
pub open spec fn exchange_interval(e: Event) -> (int, int) {
    let uncertainty = drift(e.0[1] - e.0[7]);
    (e.0[7] - e.0[8] - uncertainty, e.0[1] - e.0[6] + uncertainty)
}

/// How far the two clocks are taken to drift apart in `span`: 1000 parts per million,
/// rounded up.
pub open spec fn drift(span: int) -> int {
    span / 1000 + 1
}

/// How long the frame was under way, for a clock offset in the interval.
pub open spec fn forward_transit(e: Event, interval: (int, int)) -> [u64; 2] {
    [
        at_least_zero(e.0[1] - e.0[6] - interval.1),
        at_least_zero(e.0[1] - e.0[6] - interval.0),
    ]
}

/// How long the echoed control message was under way, for a clock offset in the
/// interval.
pub open spec fn reverse_transit(e: Event, interval: (int, int)) -> [u64; 2] {
    [
        at_least_zero(e.0[8] - e.0[7] + interval.0),
        at_least_zero(e.0[8] - e.0[7] + interval.1),
    ]
}

impl AnalysisView {
    /// The interval of the exchange, narrowed by a recent one of the same session.
    pub open spec fn narrowed(self, e: Event) -> (int, int) {
        let (low, high) = exchange_interval(e);
        match self.clock {
            Some((session, at, old_low, old_high)) => {
                if session == e.0[2] && since(e.0[1], at) <= CLOCK_LIMIT_NS {
                    let widened = drift(since(e.0[1], at) as int);
                    (
                        if low < old_low - widened {
                            old_low - widened
                        } else {
                            low
                        },
                        if high > old_high + widened {
                            old_high + widened
                        } else {
                            high
                        },
                    )
                } else {
                    (low, high)
                }
            },
            None => (low, high),
        }
    }

    pub open spec fn echo_is_new(self, e: Event) -> bool {
        match self.last_reverse_echo {
            Some((session, echo)) => session != e.0[2] || e.0[7] > echo,
            None => true,
        }
    }

    pub open spec fn transit_sampled(self, e: Event, interval: (int, int)) -> AnalysisView {
        let forward = forward_transit(e, interval);
        let reverse = reverse_transit(e, interval);
        let timed = AnalysisView {
            clock: Some((e.0[2], e.0[1], interval.0 as i128, interval.1 as i128)),
            ..self
        };
        let ahead = if e.gameplay() {
            timed.sampled(Measure::ForwardTransitLowerBound, forward[0]).sampled(
                Measure::ForwardTransitUpperBound,
                forward[1],
            )
        } else {
            timed.sampled(Measure::ControlFrameForwardLower, forward[0]).sampled(
                Measure::ControlFrameForwardUpper,
                forward[1],
            )
        };
        let wide = ahead.sampled(
            Measure::ClockOffsetIntervalWidth,
            (interval.1 - interval.0) as u64,
        );
        if self.echo_is_new(e) {
            AnalysisView { last_reverse_echo: Some((e.0[2], e.0[7])), ..wide }.sampled(
                Measure::ReverseControlLowerBound,
                reverse[0],
            ).sampled(Measure::ReverseControlUpperBound, reverse[1])
        } else {
            wide.counted(Count::ReusedControlEchoExcludedFromReverseDistribution, 1)
        }
    }

    pub open spec fn transit_judged(self, e: Event, interval: (int, int)) -> AnalysisView {
        let forward = forward_transit(e, interval);
        let judged = if forward[0] > self.budget_ns {
            self.reported(e, Cause::ForwardTransportOrEndpointStallBounded)
        } else {
            self.reported_if(
                forward[1] > self.budget_ns,
                e,
                Cause::ForwardLatencyBudgetUncertain,
            )
        };
        judged.reported_if(
            reverse_transit(e, interval)[0] > self.budget_ns,
            e,
            Cause::ReverseControlOrEndpointStallBounded,
        )
    }

    /// What a received frame tells about the two clocks and the transit times: the
    /// state after it, and the bounds on the frame's own transit where it has any.
    #[verifier::opaque]
    pub open spec fn transported(self, e: Event) -> (AnalysisView, Option<[u64; 2]>) {
        let d = e.0;
        if d[7] == 0 || d[8] == 0 || d[6] < d[8] || d[1] < d[7] {
            (self.counted(Count::ClockExchangeMissingOrInvalid, 1), None)
        } else if d[1] - d[7] > EXCHANGE_LIMIT_NS {
            (self.counted(Count::ClockExchangeStale, 1), None)
        } else {
            let alone = exchange_interval(e);
            if alone.0 > alone.1 {
                (self.counted(Count::ClockExchangeInvalid, 1), None)
            } else {
                let residual = self.sampled(
                    Measure::DuplexExchangeResidualUpper,
                    (alone.1 - alone.0) as u64,
                );
                let interval = self.narrowed(e);
                if interval.0 > interval.1 {
                    (
                        AnalysisView {
                            clock: None,
                            ..residual.counted(Count::ClockModelResets, 1).reported(
                                e,
                                Cause::ClockRateAssumptionOrTimestampsInconsistent,
                            )
                        },
                        None,
                    )
                } else {
                    (
                        residual.transit_sampled(e, interval).transit_judged(e, interval),
                        Some(forward_transit(e, interval)),
                    )
                }
            }
        }
    }

    /// The end of an incident that has been quiet for long enough.
    pub open spec fn quieted(self, e: Event) -> AnalysisView {
        let timed = AnalysisView { last_event_ns: later(self.last_event_ns, e.0[1]), ..self };
        match self.active {
            Some(index) => {
                let incident = self.incidents[index as int];
                if self.gap is None && since(e.0[1], incident.last_anomaly_ns) > QUIET_NS {
                    AnalysisView {
                        incidents: self.incidents.update(
                            index as int,
                            IncidentView { post_context_complete: true, ..incident },
                        ),
                        active: None,
                        last_bad_frame: None,
                        ..timed
                    }
                } else {
                    timed
                }
            },
            None => timed,
        }
    }

    pub open spec fn began(self, e: Event) -> AnalysisView {
        AnalysisView {
            last_unique: None,
            last_commit: None,
            gap: None,
            clock: None,
            ..self.discarded(SLOTS as nat, e.0[1]).counted(Count::Connections, 1)
        }
    }

    /// The rhythm of a frame of play against the one before it in the same session.
    /// Sparse taps and rests are no stalls: only the excess over the sender's own
    /// spacing counts.
    pub open spec fn paced(self, e: Event) -> AnalysisView {
        let d = e.0;
        let paced = match self.last_unique {
            Some(previous) => {
                if previous.0[2] == d[2] {
                    let receive_gap = since(d[1], previous.0[1]);
                    let spaced = self.sampled(
                        Measure::UniqueGameplayReceiveInterval,
                        receive_gap,
                    );
                    if d[4] >= previous.0[4] {
                        let excess = since(receive_gap, (d[4] - previous.0[4]) as u64);
                        spaced.sampled(
                            Measure::UniqueGameplayCadenceExcess,
                            excess,
                        ).reported_if(
                            excess > self.budget_ns,
                            e,
                            Cause::DeliveryCadenceExcessOriginUnresolved,
                        )
                    } else {
                        spaced
                    }
                } else {
                    self
                }
            },
            None => self,
        };
        AnalysisView { last_unique: Some(e), ..paced }
    }

    /// What a frame of play tells about the phone.
    #[verifier::opaque]
    pub open spec fn played(self, e: Event) -> AnalysisView {
        let d = e.0;
        self.reported_if(
            d[4] == 0 || d[5] < d[4] || d[6] < d[5],
            e,
            Cause::AndroidTimestampOrderInvalid,
        ).counted(
            if e.historical() {
                Count::HistoricalFramesObserved
            } else {
                Count::CurrentFramesObserved
            },
            1,
        ).measured(
            if e.historical() {
                Measure::AndroidHistoricalDispatch
            } else {
                Measure::AndroidCurrentDispatch
            },
            d[5],
            d[4],
        ).reported_if(self.over_budget(d[5], d[4]), e, Cause::AndroidDispatchBudget).measured(
            Measure::AndroidCallbackToWinningAttempt,
            d[6],
            d[5],
        ).reported_if(
            self.over_budget(d[6], d[5]),
            e,
            Cause::AndroidQueueOrRepairAgeBudget,
        ).paced(e)
    }

    #[verifier::opaque]
    pub open spec fn received(self, e: Event) -> AnalysisView {
        let slot = slot_of(e);
        let observed = self.counted(Count::UniqueLogicalFramesObserved, 1);
        let observed = if e.heartbeat() {
            observed.counted(Count::UniqueHeartbeats, 1)
        } else {
            observed
        };
        let played = if e.gameplay() {
            observed.played(e)
        } else {
            observed
        };
        let (moved, forward) = played.transported(e);
        let collided = if moved.pending[slot] is Some {
            moved.counted(Count::DiagnosticPendingCollision, 1).reported(
                e,
                Cause::DiagnosticCoverageGap,
            )
        } else {
            moved
        };
        AnalysisView {
            pending: collided.pending.update(slot, Some(e)),
            forward_bounds: collided.forward_bounds.update(slot, forward),
            ..collided
        }
    }

    pub open spec fn gapped(self, e: Event) -> AnalysisView {
        let d = e.0;
        let counted = self.counted(Count::FutureUniqueFrames, 1);
        let noted = match self.gap {
            Some((session, missing, start, through)) => if session == d[2] && missing == d[4] {
                AnalysisView {
                    gap: Some((session, missing, start, later(through, d[3]))),
                    ..counted
                }
            } else {
                AnalysisView {
                    gap: Some((d[2], d[4], d[1], d[3])),
                    ..counted.counted(Count::OrderingHoles, 1)
                }
            },
            None => AnalysisView {
                gap: Some((d[2], d[4], d[1], d[3])),
                ..counted.counted(Count::OrderingHoles, 1)
            },
        };
        noted.reported(e, Cause::ProtocolOrderingHoleLossOrReorder)
    }

    /// The frame that the event is the outcome of.
    pub open spec fn awaited(self, e: Event) -> Option<Event> {
        match self.pending[slot_of(e)] {
            Some(frame) => if frame.same_frame(e) {
                Some(frame)
            } else {
                None
            },
            None => None,
        }
    }

    #[verifier::opaque]
    pub open spec fn sink_judged(self, e: Event) -> AnalysisView {
        let d = e.0;
        self.counted(
            if d[0] == ACCEPT {
                Count::OsAccepted
            } else {
                Count::OsFailed
            },
            1,
        ).counted(Count::SinkRetries, d[5]).reported_if(
            d[5] > 0,
            e,
            Cause::OsSinkRetry,
        ).reported_if(d[0] == SINK_FAILURE, e, Cause::OsSinkFailure).measured(
            Measure::SinkAttemptsIncludingPlanning,
            d[1],
            d[4],
        ).reported_if(self.over_budget(d[1], d[4]), e, Cause::SinkSubmissionBudget)
    }
}

/// The least time from the touch to the sink that the two local clocks show: no time
/// is subtracted across the clocks, a millisecond is allowed for the resolution of
/// touch times, and a thousandth of the phone's part for its clock rate.
pub open spec fn local_lower_bound(frame: Event, service: u64) -> u64 {
    let age = (frame.0[6] - frame.0[4]) as u64;
    since(capped(age + service), (1_000_000 + age / 1000) as u64)
}

/// The bounds on the time from the touch to the sink, with those on the transit.
pub open spec fn full_bounds(frame: Event, service: u64, transit: [u64; 2]) -> [u64; 2] {
    let age = (frame.0[6] - frame.0[4]) as u64;
    [
        capped(local_lower_bound(frame, service) + transit[0]),
        capped(capped(capped(age + service) + age / 1000) + transit[1]),
    ]
}

pub open spec fn phone_times_ordered(frame: Event) -> bool {
    frame.0[4] > 0 && frame.0[5] >= frame.0[4] && frame.0[6] >= frame.0[5]
}

impl AnalysisView {
    /// Whether the whole way of an accepted frame of play kept its budget.
    pub open spec fn way_judged(
        self,
        e: Event,
        frame: Event,
        service: u64,
        transit: Option<[u64; 2]>,
    ) -> AnalysisView {
        match transit {
            None => self.counted(Count::GameplayBudgetUnmeasurable, 1),
            Some(transit) => {
                let bounds = full_bounds(frame, service, transit);
                let sampled = self.sampled(
                    if frame.historical() {
                        Measure::HistoricalEventToSinkLower
                    } else {
                        Measure::CurrentEventToSinkLower
                    },
                    bounds[0],
                ).sampled(
                    if frame.historical() {
                        Measure::HistoricalEventToSinkUpper
                    } else {
                        Measure::CurrentEventToSinkUpper
                    },
                    bounds[1],
                );
                if bounds[0] > self.budget_ns {
                    sampled.counted(Count::GameplayBudgetDefiniteFail, 1).reported(
                        e,
                        Cause::BoundedEventToSinkBudgetViolation,
                    )
                } else if bounds[1] > self.budget_ns {
                    sampled.counted(Count::GameplayBudgetUncertain, 1).reported(
                        e,
                        Cause::EventToSinkBudgetUncertain,
                    )
                } else {
                    sampled.counted(Count::GameplayWithinBudgetUnderClockAssumption, 1)
                }
            },
        }
    }

    pub open spec fn play_accepted(self, e: Event, frame: Event, service: u64) -> AnalysisView {
        let counted = self.counted(Count::GameplayOsAccepted, 1);
        if phone_times_ordered(frame) {
            let lower = local_lower_bound(frame, service);
            counted.sampled(
                if frame.historical() {
                    Measure::HistoricalEventToSinkLocalLowerBound
                } else {
                    Measure::CurrentEventToSinkLocalLowerBound
                },
                lower,
            ).reported_if(
                lower > self.budget_ns,
                e,
                Cause::EventToSinkDefiniteBudgetViolation,
            ).way_judged(e, frame, service, self.forward_bounds[slot_of(e)])
        } else {
            counted.counted(Count::GameplayBudgetUnmeasurable, 1)
        }
    }

    /// The outcome of the frame that was awaited.
    #[verifier::opaque]
    pub open spec fn frame_settled(self, e: Event, frame: Event) -> AnalysisView {
        let d = e.0;
        let service = since(d[1], frame.0[1]);
        let timed = self.measured(Measure::HostReceiveToReady, d[4], frame.0[1]).sampled(
            Measure::HostReceiveToSinkOutcome,
            service,
        ).reported_if(
            since(d[4], frame.0[1]) > self.budget_ns,
            e,
            Cause::HostDecodeOrderOrSchedulingBudget,
        );
        if d[0] == ACCEPT {
            let cleared = AnalysisView {
                pending: timed.pending.update(slot_of(e), None),
                ..timed
            };
            if frame.gameplay() {
                cleared.play_accepted(e, frame, service)
            } else {
                cleared
            }
        } else {
            timed
        }
    }

    /// The first commit after a failed session ends its recovery.
    pub open spec fn recovered(self, e: Event) -> AnalysisView {
        match self.recovering {
            Some(index) => {
                let incident = self.incidents[index as int];
                AnalysisView {
                    incidents: self.incidents.update(
                        index as int,
                        IncidentView {
                            fresh_session_commit_ns: Some(e.0[1]),
                            recovery_ns: Some(since(e.0[1], incident.started_ns)),
                            ..incident
                        },
                    ),
                    recovering: None,
                    awaiting_snapshot: Some(index),
                    ..self
                }
            },
            None => self,
        }
    }

    /// The first commit that shows contacts ends the wait for a snapshot.
    pub open spec fn snapshot_seen(self, e: Event, awaited: Option<Event>) -> AnalysisView {
        match (awaited, self.awaiting_snapshot) {
            (Some(frame), Some(index)) => if frame.0[9] & 5 != 0 {
                AnalysisView {
                    incidents: self.incidents.update(
                        index as int,
                        IncidentView {
                            reconstructed_snapshot_ns: Some(e.0[1]),
                            ..self.incidents[index as int]
                        },
                    ),
                    awaiting_snapshot: None,
                    ..self
                }
            } else {
                self
            },
            _ => self,
        }
    }

    pub open spec fn hole_filled(self, e: Event) -> AnalysisView {
        match self.gap {
            Some((session, missing, start, through)) => if session == e.0[2] && e.0[3] >= through {
                AnalysisView {
                    gap: None,
                    ..self.sampled(Measure::OrderingHoleUntilCommit, since(e.0[1], start))
                }
            } else {
                self
            },
            None => self,
        }
    }

    pub open spec fn nothing_pending(self) -> bool {
        forall|i: int| 0 <= i < self.pending.len() ==> #[trigger] self.pending[i] is None
    }

    /// With no hole and nothing awaited, the open incident has recovered.
    pub open spec fn settled(self, e: Event) -> AnalysisView {
        match self.active {
            Some(index) => {
                let incident = self.incidents[index as int];
                if self.gap is None && self.nothing_pending() && incident.recovery_ns is None {
                    AnalysisView {
                        incidents: self.incidents.update(
                            index as int,
                            IncidentView {
                                recovery_ns: Some(since(e.0[1], incident.started_ns)),
                                ..incident
                            },
                        ),
                        ..self
                    }
                } else {
                    self
                }
            },
            None => self,
        }
    }

    /// The outcome of handing a frame to the operating system.
    #[verifier::opaque]
    pub open spec fn concluded(self, e: Event) -> AnalysisView {
        let awaited = self.awaited(e);
        let judged = self.sink_judged(e);
        let settled = match awaited {
            Some(frame) => judged.frame_settled(e, frame),
            None => judged.counted(Count::OutcomeWithoutReceiveEvidence, 1),
        };
        if e.0[0] == ACCEPT {
            AnalysisView {
                last_commit: Some(e),
                ..settled.recovered(e).snapshot_seen(e, awaited).hole_filled(e).settled(e)
            }
        } else {
            settled
        }
    }

    pub open spec fn rejected(self, e: Event) -> AnalysisView {
        let counted = self.counted(Count::ProtocolRejected, 1);
        AnalysisView {
            pending: if self.awaited(e) is Some {
                self.pending.update(slot_of(e), None)
            } else {
                self.pending
            },
            ..counted
        }.reported(e, Cause::ProtocolFrameRejected)
    }

    pub open spec fn bounded_off(self, e: Event) -> AnalysisView {
        let failed = if e.0[4] != 0 {
            let reported = self.counted(Count::FailedBoundaries, 1).reported(
                e,
                Cause::SessionFailureBoundary,
            );
            AnalysisView { recovering: reported.active, ..reported }
        } else {
            self
        };
        AnalysisView {
            gap: None,
            last_unique: None,
            ..failed.discarded(SLOTS as nat, e.0[1])
        }
    }

    pub open spec fn acknowledged(self, e: Event) -> AnalysisView {
        let d = e.0;
        self.counted(
            if d[5] != 0 {
                Count::AckProgressSubmissions
            } else {
                Count::AckRepeatSubmissions
            },
            1,
        ).sampled(Measure::HostAckSubmission, d[4]).reported_if(
            d[6] != 0,
            e,
            Cause::HostAckSendFailure,
        ).reported_if(d[4] > self.budget_ns, e, Cause::HostAckSubmissionBudget)
    }

    pub open spec fn discarded_at_ingress(self, e: Event) -> AnalysisView {
        self.counted(
            if e.0[4] == 1 {
                Count::IngressWrongPeerOrInterface
            } else if e.0[4] == 2 {
                Count::AeadPacketReplay
            } else if e.0[4] == 3 {
                Count::BadTag
            } else {
                Count::MalformedOrWrongConnection
            },
            1,
        ).reported(e, Cause::IngressDiscardNotGameplayLossProof)
    }

    pub open spec fn cancelled(self, e: Event) -> AnalysisView {
        self.counted(Count::ReleaseAttempts, 1).reported_if(
            e.0[5] != 0,
            e,
            Cause::OsReleaseFailure,
        ).reported_if(e.0[4] > self.budget_ns, e, Cause::OsReleaseBudget)
    }

    pub open spec fn handled(self, e: Event) -> AnalysisView {
        let kind = e.0[0];
        if kind == BEGIN {
            self.began(e)
        } else if kind == RECEIVE {
            self.received(e)
        } else if kind == DUPLICATE {
            self.counted(Count::LogicalDuplicateDatagrams, 1)
        } else if kind == GAP {
            self.gapped(e)
        } else if kind == ACCEPT || kind == SINK_FAILURE {
            self.concluded(e)
        } else if kind == REJECT {
            self.rejected(e)
        } else if kind == BOUNDARY {
            self.bounded_off(e)
        } else if kind == ACK {
            self.acknowledged(e)
        } else if kind == INGRESS {
            self.discarded_at_ingress(e)
        } else if kind == CANCEL {
            self.cancelled(e)
        } else if kind == STALL {
            self.counted(Count::WatchdogOrInterfaceFailures, 1).reported(
                e,
                Cause::WatchdogOrInterfaceBoundary,
            )
        } else {
            self
        }
    }

    pub open spec fn recovery_target(self) -> Option<usize> {
        if self.recovering is Some {
            self.recovering
        } else {
            self.awaiting_snapshot
        }
    }

    /// Recovery can take longer than an incident stays open: its later events are
    /// evidence of the incident that it belongs to, too.
    pub open spec fn linked(self, target: Option<usize>, e: Event) -> AnalysisView {
        match target {
            Some(index) => if self.active != Some(index) {
                AnalysisView {
                    incidents: self.incidents.update(
                        index as int,
                        self.incidents[index as int].evidenced(e),
                    ),
                    ..self
                }
            } else {
                self
            },
            None => self,
        }
    }

    pub open spec fn remembered(self, e: Event) -> AnalysisView {
        AnalysisView {
            history: if self.history.len() == CONTEXT {
                self.history.subrange(1, CONTEXT as int).push(e)
            } else {
                self.history.push(e)
            },
            ..self
        }
    }

    /// The analysis after one more event.
    pub open spec fn observed(self, e: Event) -> AnalysisView {
        self.quieted(e).handled(e).linked(self.recovery_target(), e).retained(e).remembered(e)
    }

    pub open spec fn finished(self, dropped: u64) -> AnalysisView {
        let event = Event(
            [BOUNDARY, self.last_event_ns, 0, 0, 0, 0, 0, 0, 0, 0, 0, 0],
        );
        AnalysisView { records_dropped: dropped, ..self }.discarded(
            SLOTS as nat,
            self.last_event_ns,
        ).reported_if(dropped > 0, event, Cause::DiagnosticCoverageGap)
    }
}

/// The latest time of some events, or zero.
pub open spec fn latest(events: Seq<Event>) -> u64
    decreases events.len(),
{
    if events.len() == 0 {
        0
    } else {
        later(latest(events.drop_last()), events.last().0[1])
    }
}

/// The last events, as many as there is room for.
pub open spec fn recent(events: Seq<Event>) -> Seq<Event> {
    if events.len() <= CONTEXT {
        events
    } else {
        events.subrange(events.len() - CONTEXT, events.len() as int)
    }
}

/// No event is later than the latest time, and it is that of an event.
pub proof fn latest_is_the_greatest(events: Seq<Event>)
    ensures
        forall|i: int| 0 <= i < events.len() ==> (#[trigger] events[i]).0[1] <= latest(events),
        events.len() > 0 ==> exists|i: int|
            0 <= i < events.len() && (#[trigger] events[i]).0[1] == latest(events),
    decreases events.len(),
{
    if events.len() > 0 {
        let front = events.drop_last();
        latest_is_the_greatest(front);
        assert forall|i: int| 0 <= i < events.len() implies (#[trigger] events[i]).0[1] <= latest(
            events,
        ) by {
            if i < front.len() {
                assert(front[i] == events[i]);
            }
        }
        if front.len() > 0 && latest(front) >= events.last().0[1] {
            let i = choose|i: int|
                0 <= i < front.len() && (#[trigger] front[i]).0[1] == latest(front);
            assert(events[i] == front[i]);
        } else {
            assert(events[events.len() - 1].0[1] == latest(events));
        }
    }
}

} // verus!
