//! The analysis of diagnostic events.
use crate::diagnostics::event::{
    Event, ACCEPT, ACK, BEGIN, BOUNDARY, CANCEL, DUPLICATE, GAP, INGRESS, RECEIVE, REJECT,
    SINK_FAILURE, STALL,
};
use crate::diagnostics::keys::{Cause, Count, Measure, COUNTS, MEASURES};
use crate::diagnostics::laws;
use crate::diagnostics::model;
use crate::diagnostics::model::{
    AnalysisView, IncidentView, CLOCK_LIMIT_NS, CONTEXT, EXCHANGE_LIMIT_NS, MAX_EVIDENCE,
    MAX_INCIDENTS, QUIET_NS, SCHEMA, SLOTS,
};
use crate::diagnostics::series::{Series, SeriesView};
use crate::diagnostics::sets::{CauseSet, FrameKeySet};
use std::collections::VecDeque;
use vstd::prelude::*;

verus! {

/// A run of anomalies with the events around it.
pub struct Incident {
    pub id: usize,
    pub started_ns: u64,
    pub last_anomaly_ns: u64,
    pub last_evidence_ns: u64,
    pub recovery_ns: Option<u64>,
    pub fresh_session_commit_ns: Option<u64>,
    pub reconstructed_snapshot_ns: Option<u64>,
    pub causes: CauseSet,
    pub affected_frames: u64,
    pub affected_frame_keys: FrameKeySet,
    pub affected_keys_omitted: u64,
    pub first_frame: [u64; 2],
    pub last_frame: [u64; 2],
    pub evidence_omitted: u64,
    pub pre_context_truncated: bool,
    pub post_context_complete: bool,
    pub evidence: Vec<Event>,
}

impl View for Incident {
    type V = IncidentView;

    open spec fn view(&self) -> IncidentView {
        IncidentView {
            id: self.id,
            started_ns: self.started_ns,
            last_anomaly_ns: self.last_anomaly_ns,
            last_evidence_ns: self.last_evidence_ns,
            recovery_ns: self.recovery_ns,
            fresh_session_commit_ns: self.fresh_session_commit_ns,
            reconstructed_snapshot_ns: self.reconstructed_snapshot_ns,
            causes: self.causes@,
            affected_frames: self.affected_frames,
            affected_frame_keys: self.affected_frame_keys@,
            affected_keys_omitted: self.affected_keys_omitted,
            first_frame: self.first_frame,
            last_frame: self.last_frame,
            evidence_omitted: self.evidence_omitted,
            pre_context_truncated: self.pre_context_truncated,
            post_context_complete: self.post_context_complete,
            evidence: self.evidence@,
        }
    }
}

pub open spec fn series_view(series: Option<Series>) -> Option<SeriesView> {
    match series {
        Some(series) => Some(series@),
        None => None,
    }
}

/// How many events an analysis can take before its counters could overflow.
pub const MAX_OBSERVED: u64 = 0x4_0000_0000_0000;

/// No tally grows by more than this for one event.
pub const LOAD_PER_EVENT: u64 = 2048;

pub struct Analysis {
    pub schema: u8,
    pub budget_ns: u64,
    pub counts: Vec<Option<u64>>,
    pub series: Vec<Option<Series>>,
    pub incidents: Vec<Incident>,
    pub incidents_omitted: u64,
    pub diagnostic_records_dropped: u64,
    pub diagnostic_drop_span_ns: Option<[u64; 2]>,
    pub last_event_ns: u64,
    pending: Vec<Option<Event>>,
    forward_bounds: Vec<Option<[u64; 2]>>,
    clock: Option<(u64, u64, i128, i128)>,
    history: VecDeque<Event>,
    active: Option<usize>,
    gap: Option<(u64, u64, u64, u64)>,
    last_unique: Option<Event>,
    last_commit: Option<Event>,
    last_bad_frame: Option<[u64; 2]>,
    recovering: Option<usize>,
    awaiting_snapshot: Option<usize>,
    last_reverse_echo: Option<(u64, u64)>,
    observed: u64,
    load: Ghost<nat>,
    seen: Ghost<Seq<Event>>,
}

impl View for Analysis {
    type V = AnalysisView;

    closed spec fn view(&self) -> AnalysisView {
        AnalysisView {
            schema: self.schema,
            budget_ns: self.budget_ns,
            counts: self.counts@,
            series: Seq::new(self.series@.len(), |i: int| series_view(self.series@[i])),
            incidents: Seq::new(self.incidents@.len(), |i: int| self.incidents@[i]@),
            incidents_omitted: self.incidents_omitted,
            records_dropped: self.diagnostic_records_dropped,
            drop_span_ns: self.diagnostic_drop_span_ns,
            last_event_ns: self.last_event_ns,
            pending: self.pending@,
            forward_bounds: self.forward_bounds@,
            clock: self.clock,
            history: self.history@,
            active: self.active,
            gap: self.gap,
            last_unique: self.last_unique,
            last_commit: self.last_commit,
            last_bad_frame: self.last_bad_frame,
            recovering: self.recovering,
            awaiting_snapshot: self.awaiting_snapshot,
            last_reverse_echo: self.last_reverse_echo,
        }
    }
}

impl Analysis {
    spec fn sound(&self) -> bool {
        &&& self@.wf()
        &&& self@.bounded(self.load@)
        &&& self.load@ < 0x4000_0000_0000_0000
        &&& forall|i: int|
            0 <= i < self.incidents@.len() ==> (
            #[trigger] self.incidents@[i]).affected_frame_keys.wf()
    }

    /// That nothing but what [`Analysis::view`] shows has changed, and by how much the
    /// tallies can have grown.
    spec fn loaded(&self, before: &Analysis, growth: nat) -> bool {
        &&& self.carried(before, growth)
        &&& self.history == before.history
        &&& self.last_event_ns == before.last_event_ns
    }

    /// As [`Analysis::loaded`], but for the time and the context.
    spec fn carried(&self, before: &Analysis, growth: nat) -> bool {
        &&& self.load@ <= before.load@ + growth
        &&& self.observed == before.observed
        &&& self.schema == before.schema
        &&& self.seen == before.seen
    }

    fn count(&mut self, key: Count, n: u64)
        requires
            old(self).sound(),
            old(self).load@ + 1 < 0x4000_0000_0000_0000,
            key == Count::SinkRetries || n == 1,
            old(self)@.count(key) + n <= u64::MAX,
        ensures
            final(self).sound(),
            final(self).loaded(old(self), 1),
            final(self)@ == old(self)@.counted(key, n),
    {
        let index: usize = key.index();
        let before: u64 = match self.counts[index] {
            Some(n) => n,
            None => 0,
        };
        self.counts[index] = Some(before + n);
        self.load = Ghost(self.load@ + 1);
        assert(self@ =~= old(self)@.counted(key, n));
    }

    fn sample(&mut self, key: Measure, ns: u64)
        requires
            old(self).sound(),
            old(self).load@ + 1 < 0x4000_0000_0000_0000,
        ensures
            final(self).sound(),
            final(self).loaded(old(self), 1),
            final(self)@ == old(self)@.sampled(key, ns),
    {
        let index: usize = key.index();
        let budget: u64 = self.budget_ns;
        if self.series[index].is_none() {
            self.series[index] = Some(Series::default());
        }
        if let Some(series) = &mut self.series[index] {
            series.push(ns, budget);
        }
        self.load = Ghost(self.load@ + 1);
        assert(self@ =~= old(self)@.sampled(key, ns));
    }

    fn delta(&mut self, key: Measure, later: u64, earlier: u64) -> (ns: Option<u64>)
        requires
            old(self).sound(),
            old(self).load@ + 1 < 0x4000_0000_0000_0000,
        ensures
            final(self).sound(),
            final(self).loaded(old(self), 1),
            final(self)@ == old(self)@.measured(key, later, earlier),
            ns == model::elapsed(later, earlier),
    {
        if earlier == 0 || later < earlier {
            let index: usize = key.index();
            if self.series[index].is_none() {
                self.series[index] = Some(Series::default());
            }
            if let Some(series) = &mut self.series[index] {
                series.invalid = series.invalid + 1;
            }
            self.load = Ghost(self.load@ + 1);
            assert(self@ =~= old(self)@.measured(key, later, earlier));
            return None;
        }
        let ns: u64 = later - earlier;
        self.sample(key, ns);
        Some(ns)
    }

    /// The events that an incident starts with.
    fn context(&self) -> (events: Vec<Event>)
        ensures
            events@ == self.history@,
    {
        let mut events: Vec<Event> = Vec::new();
        let mut i: usize = 0;
        while i < self.history.len()
            invariant
                i <= self.history@.len(),
                events@ == self.history@.subrange(0, i as int),
            decreases self.history@.len() - i,
        {
            events.push(self.history[i]);
            i = i + 1;
            assert(self.history@.subrange(0, i as int) =~= self.history@.subrange(0, i - 1).push(
                self.history@[i - 1],
            ));
        }
        assert(events@ =~= self.history@);
        events
    }

    fn strike(&mut self, e: Event, cause: Cause)
        requires
            old(self).sound(),
            old(self).load@ + 1 < 0x4000_0000_0000_0000,
            old(self).active is Some,
        ensures
            final(self).sound(),
            final(self).loaded(old(self), 1),
            final(self)@ == old(self)@.struck(old(self).active->0 as int, e, cause),
    {
        let index: usize = match self.active {
            Some(index) => index,
            None => 0,
        };
        let frame: [u64; 2] = [e.0[2], e.0[3]];
        let new_frame: bool = match self.last_bad_frame {
            Some(bad) => {
                assert(bad == frame <==> (bad[0] == frame[0] && bad[1] == frame[1])) by {
                    if bad[0] == frame[0] && bad[1] == frame[1] {
                        assert(bad =~= frame);
                    }
                }
                bad[0] != frame[0] || bad[1] != frame[1]
            },
            None => true,
        };
        assert(self@.incidents[index as int] == self.incidents@[index as int]@);
        assert(self@.incidents[index as int].wf(index as int));
        let incident = &mut self.incidents[index];
        incident.last_anomaly_ns = e.0[1];
        incident.recovery_ns = None;
        incident.causes.insert(cause);
        if new_frame {
            incident.affected_frames = incident.affected_frames + 1;
        }
        incident.last_frame = frame;
        if e.0[2] != 0 && e.0[3] != u64::MAX {
            if incident.affected_frame_keys.len() < MAX_EVIDENCE {
                incident.affected_frame_keys.insert(frame);
            } else if !incident.affected_frame_keys.contains(frame) {
                incident.affected_keys_omitted = incident.affected_keys_omitted + 1;
            }
        }
        self.last_bad_frame = Some(frame);
        self.load = Ghost(self.load@ + 1);
        assert(self@ =~= old(self)@.struck(index as int, e, cause));
    }

    fn anomaly(&mut self, e: Event, cause: Cause)
        requires
            old(self).sound(),
            old(self).load@ + 1 < 0x4000_0000_0000_0000,
        ensures
            final(self).sound(),
            final(self).loaded(old(self), 1),
            final(self)@ == old(self)@.reported(e, cause),
    {
        if self.active.is_none() {
            if self.incidents.len() == MAX_INCIDENTS {
                self.incidents_omitted = self.incidents_omitted + 1;
                self.load = Ghost(self.load@ + 1);
                assert(self@ =~= old(self)@.reported(e, cause));
                return ;
            }
            let evidence: Vec<Event> = self.context();
            let incident = Incident {
                id: self.incidents.len() + 1,
                started_ns: e.0[1],
                last_anomaly_ns: e.0[1],
                last_evidence_ns: e.0[1],
                recovery_ns: None,
                fresh_session_commit_ns: None,
                reconstructed_snapshot_ns: None,
                causes: CauseSet::new(),
                affected_frames: 0,
                affected_frame_keys: FrameKeySet::new(),
                affected_keys_omitted: 0,
                first_frame: [e.0[2], e.0[3]],
                last_frame: [e.0[2], e.0[3]],
                evidence_omitted: 0,
                pre_context_truncated: self.history.len() == CONTEXT,
                post_context_complete: false,
                evidence,
            };
            assert(incident@ =~= self@.incident_opened_by(e));
            self.incidents.push(incident);
            self.active = Some(self.incidents.len() - 1);
            assert(self@.incidents =~= old(self)@.incidents.push(old(self)@.incident_opened_by(e)));
        }
        self.strike(e, cause);
    }

    fn anomaly_if(&mut self, condition: bool, e: Event, cause: Cause)
        requires
            old(self).sound(),
            old(self).load@ + 1 < 0x4000_0000_0000_0000,
        ensures
            final(self).sound(),
            final(self).loaded(old(self), 1),
            final(self)@ == old(self)@.reported_if(condition, e, cause),
    {
        if condition {
            self.anomaly(e, cause);
        }
    }

    fn retain(&mut self, e: Event)
        requires
            old(self).sound(),
            old(self).load@ + 1 < 0x4000_0000_0000_0000,
        ensures
            final(self).sound(),
            final(self).loaded(old(self), 1),
            final(self)@ == old(self)@.retained(e),
    {
        if let Some(index) = self.active {
            assert(self@.incidents[index as int].wf(index as int));
            let incident = &mut self.incidents[index];
            incident.last_evidence_ns = e.0[1];
            if incident.evidence.len() < MAX_EVIDENCE {
                incident.evidence.push(e);
            } else {
                incident.evidence_omitted = incident.evidence_omitted + 1;
            }
            self.load = Ghost(self.load@ + 1);
        }
        assert(self@ =~= old(self)@.retained(e));
    }

    fn discard_slot(&mut self, slot: usize, at: u64)
        requires
            old(self).sound(),
            old(self).load@ + 4 < 0x4000_0000_0000_0000,
            slot < SLOTS,
        ensures
            final(self).sound(),
            final(self).loaded(old(self), 4),
            final(self)@ == old(self)@.slot_discarded(slot as int, at),
    {
        if let Some(frame) = self.pending[slot] {
            self.pending[slot] = None;
            assert(self@ =~= AnalysisView {
                pending: old(self)@.pending.update(slot as int, None),
                ..old(self)@
            });
            self.count(Count::ObservedUncommittedAtBoundary, 1);
            if frame.is_gameplay() {
                self.count(Count::GameplayUncommittedAtBoundary, 1);
            }
            let mut discarded: Event = frame;
            discarded.0[0] = REJECT;
            discarded.0[1] = at;
            assert(discarded == AnalysisView::abandoned(frame, at)) by {
                assert(discarded.0 =~= AnalysisView::abandoned(frame, at).0);
            }
            self.anomaly(discarded, Cause::ProtocolObservedFrameAbandoned);
            self.retain(discarded);
        }
    }

    fn discard_pending(&mut self, at: u64)
        requires
            old(self).sound(),
            old(self).load@ + 4 * SLOTS < 0x4000_0000_0000_0000,
        ensures
            final(self).sound(),
            final(self).loaded(old(self), (4 * SLOTS) as nat),
            final(self)@ == old(self)@.discarded(SLOTS as nat, at),
    {
        let mut slot: usize = 0;
        while slot < SLOTS
            invariant
                slot <= SLOTS,
                self.sound(),
                old(self).load@ + 4 * SLOTS < 0x4000_0000_0000_0000,
                self.loaded(old(self), (4 * slot) as nat),
                self@ == old(self)@.discarded(slot as nat, at),
            decreases SLOTS - slot,
        {
            self.discard_slot(slot, at);
            slot = slot + 1;
        }
    }

    /// The interval of the exchange, narrowed by a recent one of the same session.
    fn narrowed(&self, e: Event, low: i128, high: i128) -> (interval: (i128, i128))
        requires
            self.sound(),
            (low as int, high as int) == model::exchange_interval(e),
            -0x2_0000_0000_0000_0000 <= low <= high <= 0x2_0000_0000_0000_0000,
        ensures
            (interval.0 as int, interval.1 as int) == self@.narrowed(e),
            low <= interval.0,
            interval.1 <= high,
    {
        if let Some((session, at, old_low, old_high)) = self.clock {
            let age: u64 = e.0[1].saturating_sub(at);
            if session == e.0[2] && age <= CLOCK_LIMIT_NS {
                let widened: i128 = (age / 1000 + 1) as i128;
                let least: i128 = old_low - widened;
                let most: i128 = old_high + widened;
                return (
                    if low < least {
                        least
                    } else {
                        low
                    },
                    if high > most {
                        most
                    } else {
                        high
                    },
                );
            }
        }
        (low, high)
    }

    fn sample_transit(&mut self, e: Event, low: i128, high: i128)
        requires
            old(self).sound(),
            old(self).load@ + 6 < 0x4000_0000_0000_0000,
            -0x2_0000_0000_0000_0000 <= low <= high <= 0x2_0000_0000_0000_0000,
            high - low <= u64::MAX,
            e.0[1] - e.0[6] - low <= u64::MAX,
            e.0[8] - e.0[7] + high <= u64::MAX,
        ensures
            final(self).sound(),
            final(self).loaded(old(self), 6),
            final(self)@ == old(self)@.transit_sampled(e, (low as int, high as int)),
    {
        let observed: i128 = e.0[1] as i128 - e.0[6] as i128;
        let reverse: i128 = e.0[8] as i128 - e.0[7] as i128;
        let new_echo: bool = match self.last_reverse_echo {
            Some((session, echo)) => session != e.0[2] || e.0[7] > echo,
            None => true,
        };
        self.clock = Some((e.0[2], e.0[1], low, high));
        assert(self@ =~= AnalysisView {
            clock: Some((e.0[2], e.0[1], low, high)),
            ..old(self)@
        });
        if e.is_gameplay() {
            self.sample(Measure::ForwardTransitLowerBound, clamp_to_u64(observed - high));
            self.sample(Measure::ForwardTransitUpperBound, clamp_to_u64(observed - low));
        } else {
            self.sample(Measure::ControlFrameForwardLower, clamp_to_u64(observed - high));
            self.sample(Measure::ControlFrameForwardUpper, clamp_to_u64(observed - low));
        }
        self.sample(Measure::ClockOffsetIntervalWidth, (high - low) as u64);
        if new_echo {
            let ghost wide = self@;
            self.last_reverse_echo = Some((e.0[2], e.0[7]));
            assert(self@ =~= AnalysisView {
                last_reverse_echo: Some((e.0[2], e.0[7])),
                ..wide
            });
            self.sample(Measure::ReverseControlLowerBound, clamp_to_u64(reverse + low));
            self.sample(Measure::ReverseControlUpperBound, clamp_to_u64(reverse + high));
        } else {
            self.count(Count::ReusedControlEchoExcludedFromReverseDistribution, 1);
        }
    }

    fn judge_transit(&mut self, e: Event, forward: [u64; 2], reverse_low: u64)
        requires
            old(self).sound(),
            old(self).load@ + 2 < 0x4000_0000_0000_0000,
        ensures
            final(self).sound(),
            final(self).loaded(old(self), 2),
            forall|interval: (int, int)|
                #![trigger old(self)@.transit_judged(e, interval)]
                forward == model::forward_transit(e, interval) && reverse_low
                    == model::reverse_transit(e, interval)[0] ==> final(self)@
                    == old(self)@.transit_judged(e, interval),
    {
        let budget: u64 = self.budget_ns;
        if forward[0] > budget {
            self.anomaly(e, Cause::ForwardTransportOrEndpointStallBounded);
        } else {
            self.anomaly_if(forward[1] > budget, e, Cause::ForwardLatencyBudgetUncertain);
        }
        self.anomaly_if(
            reverse_low > budget,
            e,
            Cause::ReverseControlOrEndpointStallBounded,
        );
    }

    fn transport_bounds(&mut self, e: Event) -> (bounds: Option<[u64; 2]>)
        requires
            old(self).sound(),
            old(self).load@ + 16 < 0x4000_0000_0000_0000,
        ensures
            final(self).sound(),
            final(self).loaded(old(self), 16),
            (final(self)@, bounds) == old(self)@.transported(e),
    {
        proof {
            reveal(AnalysisView::transported);
        }
        if e.0[7] == 0 || e.0[8] == 0 || e.0[6] < e.0[8] || e.0[1] < e.0[7] {
            self.count(Count::ClockExchangeMissingOrInvalid, 1);
            return None;
        }
        let span: u64 = e.0[1] - e.0[7];
        if span > EXCHANGE_LIMIT_NS {
            self.count(Count::ClockExchangeStale, 1);
            return None;
        }
        let uncertainty: i128 = (span / 1000 + 1) as i128;
        let low: i128 = e.0[7] as i128 - e.0[8] as i128 - uncertainty;
        let high: i128 = e.0[1] as i128 - e.0[6] as i128 + uncertainty;
        if low > high {
            self.count(Count::ClockExchangeInvalid, 1);
            return None;
        }
        self.sample(Measure::DuplexExchangeResidualUpper, (high - low) as u64);
        let ghost residual = self@;
        let interval: (i128, i128) = self.narrowed(e, low, high);
        if interval.0 > interval.1 {
            self.count(Count::ClockModelResets, 1);
            self.anomaly(e, Cause::ClockRateAssumptionOrTimestampsInconsistent);
            let ghost reported = self@;
            self.clock = None;
            assert(self@ =~= AnalysisView { clock: None, ..reported });
            return None;
        }
        let observed: i128 = e.0[1] as i128 - e.0[6] as i128;
        let reverse: i128 = e.0[8] as i128 - e.0[7] as i128;
        self.sample_transit(e, interval.0, interval.1);
        let forward: [u64; 2] = [
            clamp_to_u64(observed - interval.1),
            clamp_to_u64(observed - interval.0),
        ];
        let ghost bounds = (interval.0 as int, interval.1 as int);
        assert(forward =~= model::forward_transit(e, bounds));
        self.judge_transit(e, forward, clamp_to_u64(reverse + interval.0));
        assert(self@ == residual.transit_sampled(e, bounds).transit_judged(e, bounds));
        Some(forward)
    }

    fn pace(&mut self, e: Event)
        requires
            old(self).sound(),
            old(self).load@ + 3 < 0x4000_0000_0000_0000,
        ensures
            final(self).sound(),
            final(self).loaded(old(self), 3),
            final(self)@ == old(self)@.paced(e),
    {
        let budget: u64 = self.budget_ns;
        if let Some(previous) = self.last_unique {
            if previous.0[2] == e.0[2] {
                let receive_gap: u64 = e.0[1].saturating_sub(previous.0[1]);
                self.sample(Measure::UniqueGameplayReceiveInterval, receive_gap);
                if e.0[4] >= previous.0[4] {
                    let event_gap: u64 = e.0[4] - previous.0[4];
                    let excess: u64 = receive_gap.saturating_sub(event_gap);
                    self.sample(Measure::UniqueGameplayCadenceExcess, excess);
                    self.anomaly_if(
                        excess > budget,
                        e,
                        Cause::DeliveryCadenceExcessOriginUnresolved,
                    );
                }
            }
        }
        let ghost paced = self@;
        self.last_unique = Some(e);
        assert(self@ =~= AnalysisView { last_unique: Some(e), ..paced });
    }

    fn observe_play(&mut self, e: Event)
        requires
            old(self).sound(),
            old(self).load@ + 9 < 0x4000_0000_0000_0000,
        ensures
            final(self).sound(),
            final(self).loaded(old(self), 9),
            final(self)@ == old(self)@.played(e),
    {
        proof {
            reveal(AnalysisView::played);
        }
        let budget: u64 = self.budget_ns;
        self.anomaly_if(
            e.0[4] == 0 || e.0[5] < e.0[4] || e.0[6] < e.0[5],
            e,
            Cause::AndroidTimestampOrderInvalid,
        );
        self.count(
            if e.is_historical() {
                Count::HistoricalFramesObserved
            } else {
                Count::CurrentFramesObserved
            },
            1,
        );
        let key: Measure = if e.is_historical() {
            Measure::AndroidHistoricalDispatch
        } else {
            Measure::AndroidCurrentDispatch
        };
        let dispatch: Option<u64> = self.delta(key, e.0[5], e.0[4]);
        self.anomaly_if(above(dispatch, budget), e, Cause::AndroidDispatchBudget);
        let queued: Option<u64> = self.delta(
            Measure::AndroidCallbackToWinningAttempt,
            e.0[6],
            e.0[5],
        );
        self.anomaly_if(above(queued, budget), e, Cause::AndroidQueueOrRepairAgeBudget);
        self.pace(e);
    }

    fn observe_receive(&mut self, e: Event)
        requires
            old(self).sound(),
            old(self).load@ + 32 < 0x4000_0000_0000_0000,
        ensures
            final(self).sound(),
            final(self).loaded(old(self), 32),
            final(self)@ == old(self)@.received(e),
    {
        proof {
            reveal(AnalysisView::received);
        }
        self.count(Count::UniqueLogicalFramesObserved, 1);
        if e.is_heartbeat() {
            self.count(Count::UniqueHeartbeats, 1);
        }
        if e.is_gameplay() {
            self.observe_play(e);
        }
        let forward: Option<[u64; 2]> = self.transport_bounds(e);
        let slot: usize = (e.0[3] % SLOTS as u64) as usize;
        if self.pending[slot].is_some() {
            self.count(Count::DiagnosticPendingCollision, 1);
            self.anomaly(e, Cause::DiagnosticCoverageGap);
        }
        let ghost collided = self@;
        self.pending[slot] = Some(e);
        self.forward_bounds[slot] = forward;
        assert(self@ =~= AnalysisView {
            pending: collided.pending.update(slot as int, Some(e)),
            forward_bounds: collided.forward_bounds.update(slot as int, forward),
            ..collided
        });
    }

    fn observe_gap(&mut self, e: Event)
        requires
            old(self).sound(),
            old(self).load@ + 3 < 0x4000_0000_0000_0000,
        ensures
            final(self).sound(),
            final(self).loaded(old(self), 3),
            final(self)@ == old(self)@.gapped(e),
    {
        self.count(Count::FutureUniqueFrames, 1);
        let ghost counted = self@;
        let known: Option<(u64, u64, u64, u64)> = match self.gap {
            Some(gap) => if gap.0 == e.0[2] && gap.1 == e.0[4] {
                Some(gap)
            } else {
                None
            },
            None => None,
        };
        if let Some((session, missing, start, through)) = known {
            let through: u64 = if through < e.0[3] {
                e.0[3]
            } else {
                through
            };
            self.gap = Some((session, missing, start, through));
            assert(self@ =~= AnalysisView {
                gap: Some((session, missing, start, through)),
                ..counted
            });
        } else {
            self.count(Count::OrderingHoles, 1);
            self.gap = Some((e.0[2], e.0[4], e.0[1], e.0[3]));
            assert(self@ =~= AnalysisView {
                gap: Some((e.0[2], e.0[4], e.0[1], e.0[3])),
                ..counted.counted(Count::OrderingHoles, 1)
            });
        }
        self.anomaly(e, Cause::ProtocolOrderingHoleLossOrReorder);
    }

    fn awaited(&self, e: Event) -> (frame: Option<Event>)
        requires
            self.sound(),
        ensures
            frame == self@.awaited(e),
    {
        let slot: usize = (e.0[3] % SLOTS as u64) as usize;
        match self.pending[slot] {
            Some(frame) => if frame.is_same_frame(&e) {
                Some(frame)
            } else {
                None
            },
            None => None,
        }
    }

    fn judge_sink(&mut self, e: Event)
        requires
            old(self).sound(),
            old(self).load@ + 6 < 0x4000_0000_0000_0000,
            old(self)@.count(Count::SinkRetries) + e.0[5] <= u64::MAX,
        ensures
            final(self).sound(),
            final(self).loaded(old(self), 6),
            final(self)@ == old(self)@.sink_judged(e),
    {
        proof {
            reveal(AnalysisView::sink_judged);
        }
        let budget: u64 = self.budget_ns;
        self.count(
            if e.0[0] == ACCEPT {
                Count::OsAccepted
            } else {
                Count::OsFailed
            },
            1,
        );
        self.count(Count::SinkRetries, e.0[5]);
        self.anomaly_if(e.0[5] > 0, e, Cause::OsSinkRetry);
        self.anomaly_if(e.0[0] == SINK_FAILURE, e, Cause::OsSinkFailure);
        let attempts: Option<u64> = self.delta(
            Measure::SinkAttemptsIncludingPlanning,
            e.0[1],
            e.0[4],
        );
        self.anomaly_if(above(attempts, budget), e, Cause::SinkSubmissionBudget);
    }

    fn judge_way(&mut self, e: Event, frame: Event, service: u64, transit: Option<[u64; 2]>)
        requires
            old(self).sound(),
            old(self).load@ + 4 < 0x4000_0000_0000_0000,
            model::phone_times_ordered(frame),
        ensures
            final(self).sound(),
            final(self).loaded(old(self), 4),
            final(self)@ == old(self)@.way_judged(e, frame, service, transit),
    {
        let budget: u64 = self.budget_ns;
        let Some(transit) = transit else {
            self.count(Count::GameplayBudgetUnmeasurable, 1);
            return ;
        };
        let age: u64 = frame.0[6] - frame.0[4];
        let total: u64 = age.saturating_add(service);
        let low: u64 = total.saturating_sub(1_000_000 + age / 1000).saturating_add(transit[0]);
        let high: u64 = total.saturating_add(age / 1000).saturating_add(transit[1]);
        self.sample(
            if frame.is_historical() {
                Measure::HistoricalEventToSinkLower
            } else {
                Measure::CurrentEventToSinkLower
            },
            low,
        );
        self.sample(
            if frame.is_historical() {
                Measure::HistoricalEventToSinkUpper
            } else {
                Measure::CurrentEventToSinkUpper
            },
            high,
        );
        if low > budget {
            self.count(Count::GameplayBudgetDefiniteFail, 1);
            self.anomaly(e, Cause::BoundedEventToSinkBudgetViolation);
        } else if high > budget {
            self.count(Count::GameplayBudgetUncertain, 1);
            self.anomaly(e, Cause::EventToSinkBudgetUncertain);
        } else {
            self.count(Count::GameplayWithinBudgetUnderClockAssumption, 1);
        }
    }

    fn accept_play(&mut self, e: Event, frame: Event, service: u64)
        requires
            old(self).sound(),
            old(self).load@ + 7 < 0x4000_0000_0000_0000,
        ensures
            final(self).sound(),
            final(self).loaded(old(self), 7),
            final(self)@ == old(self)@.play_accepted(e, frame, service),
    {
        let budget: u64 = self.budget_ns;
        let slot: usize = (e.0[3] % SLOTS as u64) as usize;
        let transit: Option<[u64; 2]> = self.forward_bounds[slot];
        self.count(Count::GameplayOsAccepted, 1);
        if frame.0[4] > 0 && frame.0[5] >= frame.0[4] && frame.0[6] >= frame.0[5] {
            let age: u64 = frame.0[6] - frame.0[4];
            let lower: u64 = age.saturating_add(service).saturating_sub(1_000_000 + age / 1000);
            self.sample(
                if frame.is_historical() {
                    Measure::HistoricalEventToSinkLocalLowerBound
                } else {
                    Measure::CurrentEventToSinkLocalLowerBound
                },
                lower,
            );
            self.anomaly_if(lower > budget, e, Cause::EventToSinkDefiniteBudgetViolation);
            self.judge_way(e, frame, service, transit);
        } else {
            self.count(Count::GameplayBudgetUnmeasurable, 1);
        }
    }

    fn settle_frame(&mut self, e: Event, frame: Event)
        requires
            old(self).sound(),
            old(self).load@ + 10 < 0x4000_0000_0000_0000,
        ensures
            final(self).sound(),
            final(self).loaded(old(self), 10),
            final(self)@ == old(self)@.frame_settled(e, frame),
    {
        proof {
            reveal(AnalysisView::frame_settled);
        }
        let budget: u64 = self.budget_ns;
        let service: u64 = e.0[1].saturating_sub(frame.0[1]);
        let _ready: Option<u64> = self.delta(Measure::HostReceiveToReady, e.0[4], frame.0[1]);
        self.sample(Measure::HostReceiveToSinkOutcome, service);
        self.anomaly_if(
            e.0[4].saturating_sub(frame.0[1]) > budget,
            e,
            Cause::HostDecodeOrderOrSchedulingBudget,
        );
        if e.0[0] == ACCEPT {
            let ghost timed = self@;
            let slot: usize = (e.0[3] % SLOTS as u64) as usize;
            self.pending[slot] = None;
            assert(self@ =~= AnalysisView {
                pending: timed.pending.update(slot as int, None),
                ..timed
            });
            if frame.is_gameplay() {
                self.accept_play(e, frame, service);
            }
        }
    }

    fn recover(&mut self, e: Event)
        requires
            old(self).sound(),
        ensures
            final(self).sound(),
            final(self).loaded(old(self), 0),
            final(self)@ == old(self)@.recovered(e),
    {
        if let Some(index) = self.recovering {
            assert(self@.incidents[index as int].wf(index as int));
            let incident = &mut self.incidents[index];
            incident.fresh_session_commit_ns = Some(e.0[1]);
            incident.recovery_ns = Some(e.0[1].saturating_sub(incident.started_ns));
            self.recovering = None;
            self.awaiting_snapshot = Some(index);
        }
        assert(self@ =~= old(self)@.recovered(e));
    }

    fn see_snapshot(&mut self, e: Event, awaited: Option<Event>)
        requires
            old(self).sound(),
        ensures
            final(self).sound(),
            final(self).loaded(old(self), 0),
            final(self)@ == old(self)@.snapshot_seen(e, awaited),
    {
        if let Some(frame) = awaited {
            if frame.0[9] & 5 != 0 {
                if let Some(index) = self.awaiting_snapshot {
                    assert(self@.incidents[index as int].wf(index as int));
                    let incident = &mut self.incidents[index];
                    incident.reconstructed_snapshot_ns = Some(e.0[1]);
                    self.awaiting_snapshot = None;
                }
            }
        }
        assert(self@ =~= old(self)@.snapshot_seen(e, awaited));
    }

    fn fill_hole(&mut self, e: Event)
        requires
            old(self).sound(),
            old(self).load@ + 1 < 0x4000_0000_0000_0000,
        ensures
            final(self).sound(),
            final(self).loaded(old(self), 1),
            final(self)@ == old(self)@.hole_filled(e),
    {
        if let Some((session, _missing, start, through)) = self.gap {
            if session == e.0[2] && e.0[3] >= through {
                self.sample(Measure::OrderingHoleUntilCommit, e.0[1].saturating_sub(start));
                let ghost sampled = self@;
                self.gap = None;
                assert(self@ =~= AnalysisView { gap: None, ..sampled });
            }
        }
    }

    fn nothing_pending(&self) -> (nothing: bool)
        ensures
            nothing == self@.nothing_pending(),
    {
        let mut slot: usize = 0;
        while slot < self.pending.len()
            invariant
                slot <= self.pending@.len(),
                forall|i: int| 0 <= i < slot ==> #[trigger] self.pending@[i] is None,
            decreases self.pending@.len() - slot,
        {
            if self.pending[slot].is_some() {
                assert(self@.pending[slot as int] is Some);
                return false;
            }
            slot = slot + 1;
        }
        true
    }

    fn settle(&mut self, e: Event)
        requires
            old(self).sound(),
        ensures
            final(self).sound(),
            final(self).loaded(old(self), 0),
            final(self)@ == old(self)@.settled(e),
    {
        if let Some(index) = self.active {
            assert(self@.incidents[index as int].wf(index as int));
            if self.gap.is_none() && self.nothing_pending() && self.incidents[index].recovery_ns.is_none() {
                let incident = &mut self.incidents[index];
                incident.recovery_ns = Some(e.0[1].saturating_sub(incident.started_ns));
            }
        }
        assert(self@ =~= old(self)@.settled(e));
    }

    fn observe_outcome(&mut self, e: Event)
        requires
            old(self).sound(),
            old(self).load@ + 20 < 0x4000_0000_0000_0000,
            old(self)@.count(Count::SinkRetries) + e.0[5] <= u64::MAX,
        ensures
            final(self).sound(),
            final(self).loaded(old(self), 20),
            final(self)@ == old(self)@.concluded(e),
    {
        proof {
            reveal(AnalysisView::concluded);
        }
        let awaited: Option<Event> = self.awaited(e);
        self.judge_sink(e);
        match awaited {
            Some(frame) => self.settle_frame(e, frame),
            None => self.count(Count::OutcomeWithoutReceiveEvidence, 1),
        }
        if e.0[0] == ACCEPT {
            self.recover(e);
            self.see_snapshot(e, awaited);
            self.fill_hole(e);
            self.settle(e);
            let ghost settled = self@;
            self.last_commit = Some(e);
            assert(self@ =~= AnalysisView { last_commit: Some(e), ..settled });
        }
    }

    fn observe_reject(&mut self, e: Event)
        requires
            old(self).sound(),
            old(self).load@ + 2 < 0x4000_0000_0000_0000,
        ensures
            final(self).sound(),
            final(self).loaded(old(self), 2),
            final(self)@ == old(self)@.rejected(e),
    {
        let awaited: Option<Event> = self.awaited(e);
        self.count(Count::ProtocolRejected, 1);
        let ghost counted = self@;
        if awaited.is_some() {
            let slot: usize = (e.0[3] % SLOTS as u64) as usize;
            self.pending[slot] = None;
        }
        assert(self@ =~= AnalysisView {
            pending: if old(self)@.awaited(e) is Some {
                old(self)@.pending.update(model::slot_of(e), None)
            } else {
                old(self)@.pending
            },
            ..counted
        });
        self.anomaly(e, Cause::ProtocolFrameRejected);
    }

    fn observe_boundary(&mut self, e: Event)
        requires
            old(self).sound(),
            old(self).load@ + 2 + 4 * SLOTS < 0x4000_0000_0000_0000,
        ensures
            final(self).sound(),
            final(self).loaded(old(self), (2 + 4 * SLOTS) as nat),
            final(self)@ == old(self)@.bounded_off(e),
    {
        if e.0[4] != 0 {
            self.count(Count::FailedBoundaries, 1);
            self.anomaly(e, Cause::SessionFailureBoundary);
            let ghost reported = self@;
            self.recovering = self.active;
            assert(self@ =~= AnalysisView { recovering: reported.active, ..reported });
        }
        self.discard_pending(e.0[1]);
        let ghost discarded = self@;
        self.gap = None;
        self.last_unique = None;
        assert(self@ =~= AnalysisView { gap: None, last_unique: None, ..discarded });
    }

    fn observe_begin(&mut self, e: Event)
        requires
            old(self).sound(),
            old(self).load@ + 1 + 4 * SLOTS < 0x4000_0000_0000_0000,
        ensures
            final(self).sound(),
            final(self).loaded(old(self), (1 + 4 * SLOTS) as nat),
            final(self)@ == old(self)@.began(e),
    {
        self.discard_pending(e.0[1]);
        self.count(Count::Connections, 1);
        let ghost counted = self@;
        self.last_unique = None;
        self.last_commit = None;
        self.gap = None;
        self.clock = None;
        assert(self@ =~= AnalysisView {
            last_unique: None,
            last_commit: None,
            gap: None,
            clock: None,
            ..counted
        });
    }

    fn observe_ack(&mut self, e: Event)
        requires
            old(self).sound(),
            old(self).load@ + 4 < 0x4000_0000_0000_0000,
        ensures
            final(self).sound(),
            final(self).loaded(old(self), 4),
            final(self)@ == old(self)@.acknowledged(e),
    {
        let budget: u64 = self.budget_ns;
        self.count(
            if e.0[5] != 0 {
                Count::AckProgressSubmissions
            } else {
                Count::AckRepeatSubmissions
            },
            1,
        );
        self.sample(Measure::HostAckSubmission, e.0[4]);
        self.anomaly_if(e.0[6] != 0, e, Cause::HostAckSendFailure);
        self.anomaly_if(e.0[4] > budget, e, Cause::HostAckSubmissionBudget);
    }

    fn observe_ingress(&mut self, e: Event)
        requires
            old(self).sound(),
            old(self).load@ + 2 < 0x4000_0000_0000_0000,
        ensures
            final(self).sound(),
            final(self).loaded(old(self), 2),
            final(self)@ == old(self)@.discarded_at_ingress(e),
    {
        self.count(
            match e.0[4] {
                1 => Count::IngressWrongPeerOrInterface,
                2 => Count::AeadPacketReplay,
                3 => Count::BadTag,
                _ => Count::MalformedOrWrongConnection,
            },
            1,
        );
        self.anomaly(e, Cause::IngressDiscardNotGameplayLossProof);
    }

    fn observe_cancel(&mut self, e: Event)
        requires
            old(self).sound(),
            old(self).load@ + 3 < 0x4000_0000_0000_0000,
        ensures
            final(self).sound(),
            final(self).loaded(old(self), 3),
            final(self)@ == old(self)@.cancelled(e),
    {
        let budget: u64 = self.budget_ns;
        self.count(Count::ReleaseAttempts, 1);
        self.anomaly_if(e.0[5] != 0, e, Cause::OsReleaseFailure);
        self.anomaly_if(e.0[4] > budget, e, Cause::OsReleaseBudget);
    }

    fn handle(&mut self, e: Event)
        requires
            old(self).sound(),
            old(self).load@ + 2 + 4 * SLOTS < 0x4000_0000_0000_0000,
            e.0[0] == ACCEPT || e.0[0] == SINK_FAILURE ==> old(self)@.count(Count::SinkRetries)
                + e.0[5] <= u64::MAX,
        ensures
            final(self).sound(),
            final(self).loaded(old(self), (2 + 4 * SLOTS) as nat),
            final(self)@ == old(self)@.handled(e),
    {
        let kind: u64 = e.0[0];
        if kind == BEGIN {
            self.observe_begin(e);
        } else if kind == RECEIVE {
            self.observe_receive(e);
        } else if kind == DUPLICATE {
            self.count(Count::LogicalDuplicateDatagrams, 1);
        } else if kind == GAP {
            self.observe_gap(e);
        } else if kind == ACCEPT || kind == SINK_FAILURE {
            self.observe_outcome(e);
        } else if kind == REJECT {
            self.observe_reject(e);
        } else if kind == BOUNDARY {
            self.observe_boundary(e);
        } else if kind == ACK {
            self.observe_ack(e);
        } else if kind == INGRESS {
            self.observe_ingress(e);
        } else if kind == CANCEL {
            self.observe_cancel(e);
        } else if kind == STALL {
            self.count(Count::WatchdogOrInterfaceFailures, 1);
            self.anomaly(e, Cause::WatchdogOrInterfaceBoundary);
        }
    }

    fn quiet(&mut self, e: Event)
        requires
            old(self).sound(),
        ensures
            final(self).sound(),
            final(self).carried(old(self), 0),
            final(self).history == old(self).history,
            final(self).last_event_ns == model::later(old(self).last_event_ns, e.0[1]),
            final(self)@ == old(self)@.quieted(e),
    {
        if self.last_event_ns < e.0[1] {
            self.last_event_ns = e.0[1];
        }
        if let Some(index) = self.active {
            assert(self@.incidents[index as int].wf(index as int));
            let last_anomaly: u64 = self.incidents[index].last_anomaly_ns;
            if self.gap.is_none() && e.0[1].saturating_sub(last_anomaly) > QUIET_NS {
                let incident = &mut self.incidents[index];
                incident.post_context_complete = true;
                self.active = None;
                self.last_bad_frame = None;
            }
        }
        assert(self@ =~= old(self)@.quieted(e));
    }

    fn link(&mut self, target: Option<usize>, e: Event)
        requires
            old(self).sound(),
            old(self).load@ + 1 < 0x4000_0000_0000_0000,
            target matches Some(index) ==> index < old(self)@.incidents.len(),
        ensures
            final(self).sound(),
            final(self).loaded(old(self), 1),
            final(self)@ == old(self)@.linked(target, e),
    {
        if let Some(index) = target {
            let apart: bool = match self.active {
                Some(active) => active != index,
                None => true,
            };
            if apart {
                assert(self@.incidents[index as int].wf(index as int));
                let incident = &mut self.incidents[index];
                if incident.evidence.len() < MAX_EVIDENCE {
                    incident.evidence.push(e);
                } else {
                    incident.evidence_omitted = incident.evidence_omitted + 1;
                }
                self.load = Ghost(self.load@ + 1);
            }
        }
        assert(self@ =~= old(self)@.linked(target, e));
    }

    fn remember(&mut self, e: Event)
        requires
            old(self).sound(),
        ensures
            final(self).sound(),
            final(self).carried(old(self), 0),
            final(self).last_event_ns == old(self).last_event_ns,
            final(self)@ == old(self)@.remembered(e),
    {
        if self.history.len() == CONTEXT {
            let _oldest: Option<Event> = self.history.pop_front();
        }
        self.history.push_back(e);
        assert(self@ =~= old(self)@.remembered(e));
    }

    /// What every analysis keeps.
    pub closed spec fn wf(&self) -> bool {
        &&& self.sound()
        &&& self.observed <= MAX_OBSERVED
        &&& self.load@ <= LOAD_PER_EVENT * self.observed
        &&& self@.last_event_ns == model::latest(self.seen@)
        &&& self@.history == model::recent(self.seen@)
        &&& laws::balanced(self@)
    }

    /// How often the analysis was changed.
    pub closed spec fn steps(&self) -> nat {
        self.observed as nat
    }

    /// The events that were observed, oldest first.
    pub closed spec fn events(&self) -> Seq<Event> {
        self.seen@
    }

    /// What an analysis holds has the sizes that it should have, and no tally but that of
    /// the sink's own retries is above a multiple of the steps, so none overflows.
    pub proof fn view_is_wf(&self)
        requires
            self.wf(),
        ensures
            self@.schema == SCHEMA,
            self@.wf(),
            self@.bounded(LOAD_PER_EVENT as nat * self.steps()),
            self.steps() <= MAX_OBSERVED,
    {
    }

    /// Whatever was observed, an analysis keeps no more than it has room for, numbers its
    /// incidents from one, and knows the latest time of all events.
    pub proof fn retention_is_bounded(&self)
        requires
            self.wf(),
        ensures
            self@.incidents.len() <= MAX_INCIDENTS,
            forall|i: int|
                0 <= i < self@.incidents.len() ==> {
                    let incident = #[trigger] self@.incidents[i];
                    &&& incident.id == i + 1
                    &&& incident.evidence.len() <= MAX_EVIDENCE
                    &&& incident.affected_frame_keys.finite()
                    &&& incident.affected_frame_keys.len() <= MAX_EVIDENCE
                },
            self@.history.len() <= CONTEXT,
            forall|i: int|
                0 <= i < self.events().len() ==> (#[trigger] self.events()[i]).0[1]
                    <= self@.last_event_ns,
            self.events().len() == 0 ==> self@.last_event_ns == 0,
            self.events().len() > 0 ==> exists|i: int|
                0 <= i < self.events().len() && (#[trigger] self.events()[i]).0[1]
                    == self@.last_event_ns,
    {
        model::latest_is_the_greatest(self.seen@);
        assert forall|i: int| 0 <= i < self@.incidents.len() implies {
            let incident = #[trigger] self@.incidents[i];
            &&& incident.id == i + 1
            &&& incident.evidence.len() <= MAX_EVIDENCE
            &&& incident.affected_frame_keys.finite()
            &&& incident.affected_frame_keys.len() <= MAX_EVIDENCE
        } by {
            assert(self@.incidents[i].wf(i));
        }
    }

    /// Whatever was observed, every accepted frame of play has exactly one verdict on its
    /// budget.
    pub proof fn verdicts_are_complete(&self)
        requires
            self.wf(),
        ensures
            laws::balanced(self@),
    {
    }

    /// The context is made of the last events that were observed, oldest first, as many as
    /// there is room for.
    pub proof fn context_is_the_latest(&self)
        requires
            self.wf(),
        ensures
            ({
                let n = self.events().len();
                let held = self@.history;
                &&& held.len() == if n < CONTEXT {
                    n
                } else {
                    CONTEXT as nat
                }
                &&& forall|i: int|
                    0 <= i < held.len() ==> #[trigger] held[i] == self.events()[n - held.len() + i]
            }),
    {
    }

    /// Whatever was observed before, a duplicate adds one to its own count, and changes no
    /// other count, no series and no incident's causes.
    pub proof fn duplicate_is_counted_once(&self, e: Event)
        requires
            self.wf(),
            self.room_for(e),
            e.0[0] == DUPLICATE,
        ensures
            ({
                let after = self@.observed(e);
                &&& after.count(Count::LogicalDuplicateDatagrams) == self@.count(
                    Count::LogicalDuplicateDatagrams,
                ) + 1
                &&& forall|key: Count|
                    key != Count::LogicalDuplicateDatagrams ==> #[trigger] after.count(key)
                        == self@.count(key)
                &&& after.series == self@.series
                &&& after.incidents.len() == self@.incidents.len()
                &&& forall|i: int|
                    0 <= i < self@.incidents.len() ==> (#[trigger] after.incidents[i]).causes
                        == self@.incidents[i].causes
            }),
    {
        laws::duplicate_is_only_counted(self@, e);
        assert(self@.counts[Count::LogicalDuplicateDatagrams.position()] matches Some(n) ==> n
            <= self.load@);
        assert forall|key: Count|
            key != Count::LogicalDuplicateDatagrams implies #[trigger] self@.observed(e).count(key)
            == self@.count(key) by {
            assert(key.position() != Count::LogicalDuplicateDatagrams.position());
        }
    }

    /// That an event cannot make a counter overflow.
    pub open spec fn room_for(&self, e: Event) -> bool {
        &&& self.steps() < MAX_OBSERVED
        &&& e.0[0] == ACCEPT || e.0[0] == SINK_FAILURE ==> self@.count(Count::SinkRetries)
            + e.0[5] <= u64::MAX
    }

    pub fn new(budget_ns: u64) -> (analysis: Analysis)
        ensures
            analysis.wf(),
            analysis@.schema == SCHEMA,
            analysis.steps() == 0,
            analysis.events() == Seq::<Event>::empty(),
            analysis@ == AnalysisView::fresh(budget_ns),
    {
        let mut counts: Vec<Option<u64>> = Vec::new();
        let mut i: usize = 0;
        while i < COUNTS
            invariant
                i <= COUNTS,
                counts@ == Seq::new(i as nat, |i: int| None::<u64>),
            decreases COUNTS - i,
        {
            counts.push(None);
            i = i + 1;
            assert(counts@ =~= Seq::new(i as nat, |i: int| None::<u64>));
        }
        let mut series: Vec<Option<Series>> = Vec::new();
        i = 0;
        while i < MEASURES
            invariant
                i <= MEASURES,
                series@.len() == i,
                forall|j: int| 0 <= j < i ==> #[trigger] series@[j] is None,
            decreases MEASURES - i,
        {
            series.push(None);
            i = i + 1;
        }
        let mut pending: Vec<Option<Event>> = Vec::new();
        let mut forward_bounds: Vec<Option<[u64; 2]>> = Vec::new();
        i = 0;
        while i < SLOTS
            invariant
                i <= SLOTS,
                pending@ == Seq::new(i as nat, |i: int| None::<Event>),
                forward_bounds@ == Seq::new(i as nat, |i: int| None::<[u64; 2]>),
            decreases SLOTS - i,
        {
            pending.push(None);
            forward_bounds.push(None);
            i = i + 1;
            assert(pending@ =~= Seq::new(i as nat, |i: int| None::<Event>));
            assert(forward_bounds@ =~= Seq::new(i as nat, |i: int| None::<[u64; 2]>));
        }
        let analysis = Analysis {
            schema: SCHEMA,
            budget_ns,
            counts,
            series,
            incidents: Vec::with_capacity(MAX_INCIDENTS),
            incidents_omitted: 0,
            diagnostic_records_dropped: 0,
            diagnostic_drop_span_ns: None,
            last_event_ns: 0,
            pending,
            forward_bounds,
            clock: None,
            history: VecDeque::with_capacity(CONTEXT),
            active: None,
            gap: None,
            last_unique: None,
            last_commit: None,
            last_bad_frame: None,
            recovering: None,
            awaiting_snapshot: None,
            last_reverse_echo: None,
            observed: 0,
            load: Ghost(0),
            seen: Ghost(Seq::empty()),
        };
        assert(analysis@ =~= AnalysisView::fresh(budget_ns));
        analysis
    }

    /// Whether an event cannot make a counter overflow.
    pub fn has_room_for(&self, e: &Event) -> (room: bool)
        requires
            self.wf(),
        ensures
            room == self.room_for(*e),
    {
        let retries: u64 = match self.counts[Count::SinkRetries.index()] {
            Some(n) => n,
            None => 0,
        };
        self.observed < MAX_OBSERVED && ((e.0[0] != ACCEPT && e.0[0] != SINK_FAILURE) || e.0[5]
            <= u64::MAX - retries)
    }

    pub fn observe(&mut self, e: Event)
        requires
            old(self).wf(),
            old(self).room_for(e),
        ensures
            final(self).wf(),
            final(self).steps() == old(self).steps() + 1,
            final(self)@.schema == old(self)@.schema,
            final(self).events() == old(self).events().push(e),
            final(self)@ == old(self)@.observed(e),
    {
        let target: Option<usize> = if self.recovering.is_some() {
            self.recovering
        } else {
            self.awaiting_snapshot
        };
        self.quiet(e);
        let ghost quiet = self@;
        self.handle(e);
        proof {
            laws::handled_keeps(quiet, e);
        }
        self.link(target, e);
        self.retain(e);
        self.remember(e);
        self.observed = self.observed + 1;
        self.seen = Ghost(self.seen@.push(e));
        assert(self@ =~= old(self)@.observed(e));
        proof {
            laws::observation_keeps(old(self)@, e);
            assert(self.seen@.drop_last() =~= old(self).seen@);
            assert(self@.history =~= model::recent(self.seen@));
        }
    }

    pub fn finish(&mut self, dropped: u64)
        requires
            old(self).wf(),
            old(self).steps() < MAX_OBSERVED,
        ensures
            final(self).wf(),
            final(self).steps() == old(self).steps() + 1,
            final(self)@.schema == old(self)@.schema,
            final(self).events() == old(self).events(),
            final(self)@ == old(self)@.finished(dropped),
    {
        self.diagnostic_records_dropped = dropped;
        assert(self@ =~= AnalysisView { records_dropped: dropped, ..old(self)@ });
        let at: u64 = self.last_event_ns;
        let event = Event([BOUNDARY, at, 0, 0, 0, 0, 0, 0, 0, 0, 0, 0]);
        self.discard_pending(at);
        self.anomaly_if(dropped > 0, event, Cause::DiagnosticCoverageGap);
        self.observed = self.observed + 1;
        assert(self@ =~= old(self)@.finished(dropped));
        proof {
            laws::finishing_keeps(old(self)@, dropped);
        }
    }

    /// Notes when records were dropped.
    pub fn set_drop_span(&mut self, span: Option<[u64; 2]>)
        requires
            old(self).wf(),
        ensures
            final(self).wf(),
            final(self).steps() == old(self).steps(),
            final(self)@.schema == old(self)@.schema,
            final(self).events() == old(self).events(),
            final(self)@ == (AnalysisView { drop_span_ns: span, ..old(self)@ }),
    {
        self.diagnostic_drop_span_ns = span;
        assert(self@ =~= AnalysisView { drop_span_ns: span, ..old(self)@ });
    }

    pub fn recent_context(&self) -> (history: &VecDeque<Event>)
        ensures
            history@ == self@.history,
    {
        &self.history
    }

    pub fn incident_count(&self) -> (count: usize)
        ensures
            count == self@.incidents.len(),
    {
        self.incidents.len()
    }

    pub fn incident(&self, index: usize) -> (incident: &Incident)
        requires
            self.wf(),
            index < self@.incidents.len(),
        ensures
            incident@ == self@.incidents[index as int],
            incident.affected_frame_keys.wf(),
    {
        &self.incidents[index]
    }

    pub fn schema(&self) -> (schema: u8)
        ensures
            schema == self@.schema,
    {
        self.schema
    }

    pub fn budget(&self) -> (budget_ns: u64)
        ensures
            budget_ns == self@.budget_ns,
    {
        self.budget_ns
    }

    pub fn records_dropped(&self) -> (dropped: u64)
        ensures
            dropped == self@.records_dropped,
    {
        self.diagnostic_records_dropped
    }

    pub fn drop_span(&self) -> (span: Option<[u64; 2]>)
        ensures
            span == self@.drop_span_ns,
    {
        self.diagnostic_drop_span_ns
    }

    pub fn omitted_incidents(&self) -> (omitted: u64)
        ensures
            omitted == self@.incidents_omitted,
    {
        self.incidents_omitted
    }

    /// How often `key` was counted, where it was.
    pub fn count_of(&self, key: Count) -> (n: Option<u64>)
        requires
            self.wf(),
        ensures
            n == self@.counts[key.position()],
    {
        self.counts[key.index()]
    }

    /// The samples of `key`, where there are any.
    pub fn series_of(&self, key: Measure) -> (series: Option<&Series>)
        requires
            self.wf(),
        ensures
            match series {
                Some(series) => series@.wf() && self@.series[key.position()] == Some(series@),
                None => self@.series[key.position()] is None,
            },
    {
        self.series[key.index()].as_ref()
    }
}

fn clamp_to_u64(n: i128) -> (clamped: u64)
    requires
        n <= u64::MAX,
    ensures
        clamped == model::at_least_zero(n as int),
{
    if n < 0 {
        0
    } else {
        n as u64
    }
}

fn above(ns: Option<u64>, budget: u64) -> (yes: bool)
    ensures
        yes == (ns matches Some(ns) && ns > budget),
{
    match ns {
        Some(ns) => ns > budget,
        None => false,
    }
}

} // verus!
