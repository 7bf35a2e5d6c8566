//! What holds of every analysis, whatever it observes.
use crate::diagnostics::event::{
    Event, ACCEPT, BEGIN, BOUNDARY, DUPLICATE, GAP, RECEIVE, REJECT, SINK_FAILURE, STALL,
};
use crate::diagnostics::keys::{Cause, Count, Measure, COUNTS, MEASURES};
use crate::diagnostics::model;
use crate::diagnostics::model::{AnalysisView, SLOTS};
use vstd::prelude::*;

verus! {

/// Every accepted frame of play has exactly one verdict on its budget.
pub open spec fn balanced(analysis: AnalysisView) -> bool {
    analysis.count(Count::GameplayOsAccepted) == analysis.count(Count::GameplayBudgetDefiniteFail)
        + analysis.count(Count::GameplayBudgetUncertain) + analysis.count(
        Count::GameplayBudgetUnmeasurable,
    ) + analysis.count(Count::GameplayWithinBudgetUnderClockAssumption)
}

/// That the tables have their sizes and every incident that is named exists.
pub open spec fn shaped(a: AnalysisView) -> bool {
    &&& a.counts.len() == COUNTS
    &&& a.series.len() == MEASURES
    &&& a.pending.len() == SLOTS
    &&& a.incidents.len() <= model::MAX_INCIDENTS
    &&& a.active matches Some(index) ==> index < a.incidents.len()
    &&& a.recovering matches Some(index) ==> index < a.incidents.len()
    &&& a.awaiting_snapshot matches Some(index) ==> index < a.incidents.len()
}

/// That no incident was removed, and no frame of play accepted or judged.
pub open spec fn kept(before: AnalysisView, after: AnalysisView) -> bool {
    &&& shaped(before) ==> shaped(after)
    &&& before.incidents.len() <= after.incidents.len()
    &&& after.count(Count::GameplayOsAccepted) == before.count(Count::GameplayOsAccepted)
    &&& after.count(Count::GameplayBudgetDefiniteFail) == before.count(
        Count::GameplayBudgetDefiniteFail,
    )
    &&& after.count(Count::GameplayBudgetUncertain) == before.count(Count::GameplayBudgetUncertain)
    &&& after.count(Count::GameplayBudgetUnmeasurable) == before.count(
        Count::GameplayBudgetUnmeasurable,
    )
    &&& after.count(Count::GameplayWithinBudgetUnderClockAssumption) == before.count(
        Count::GameplayWithinBudgetUnderClockAssumption,
    )
}

spec fn no_verdict(key: Count) -> bool {
    key != Count::GameplayOsAccepted && key != Count::GameplayBudgetDefiniteFail && key
        != Count::GameplayBudgetUncertain && key != Count::GameplayBudgetUnmeasurable && key
        != Count::GameplayWithinBudgetUnderClockAssumption
}

proof fn counted_kept(a: AnalysisView, key: Count, n: u64)
    requires
        shaped(a),
        no_verdict(key),
    ensures
        kept(a, a.counted(key, n)),
{
}

proof fn sampled_kept(a: AnalysisView, key: Measure, ns: u64)
    requires
        shaped(a),
    ensures
        kept(a, a.sampled(key, ns)),
{
}

proof fn reported_kept(a: AnalysisView, e: Event, cause: Cause)
    requires
        shaped(a),
    ensures
        kept(a, a.reported(e, cause)),
{
}

proof fn retained_kept(a: AnalysisView, e: Event)
    requires
        shaped(a),
    ensures
        kept(a, a.retained(e)),
{
}

proof fn discarded_kept(a: AnalysisView, slots: nat, at: u64)
    requires
        shaped(a),
        slots <= SLOTS,
    ensures
        kept(a, a.discarded(slots, at)),
    decreases slots,
{
    if slots > 0 {
        discarded_kept(a, (slots - 1) as nat, at);
        let b = a.discarded((slots - 1) as nat, at);
        if let Some(frame) = b.pending[slots - 1] {
            let c = AnalysisView { pending: b.pending.update(slots - 1, None), ..b };
            let c1 = c.counted(Count::ObservedUncommittedAtBoundary, 1);
            let c2 = if frame.gameplay() {
                c1.counted(Count::GameplayUncommittedAtBoundary, 1)
            } else {
                c1
            };
            assert(kept(b, c2));
            let discarded = AnalysisView::abandoned(frame, at);
            reported_kept(c2, discarded, Cause::ProtocolObservedFrameAbandoned);
            retained_kept(
                c2.reported(discarded, Cause::ProtocolObservedFrameAbandoned),
                discarded,
            );
        }
    }
}

proof fn paced_kept(a: AnalysisView, e: Event)
    requires
        shaped(a),
    ensures
        kept(a, a.paced(e)),
{
}

proof fn played_kept(a: AnalysisView, e: Event)
    requires
        shaped(a),
    ensures
        kept(a, a.played(e)),
{
    reveal(AnalysisView::played);
    let d = e.0;
    let a1 = a.reported_if(
        d[4] == 0 || d[5] < d[4] || d[6] < d[5],
        e,
        Cause::AndroidTimestampOrderInvalid,
    );
    reported_kept(a, e, Cause::AndroidTimestampOrderInvalid);
    assert(kept(a, a1));
    let a2 = a1.counted(
        if e.historical() {
            Count::HistoricalFramesObserved
        } else {
            Count::CurrentFramesObserved
        },
        1,
    ).measured(
        if e.historical() {
            Measure::AndroidHistoricalDispatch
        } else {
            Measure::AndroidCurrentDispatch
        },
        d[5],
        d[4],
    );
    assert(kept(a1, a2));
    let a3 = a2.reported_if(a.over_budget(d[5], d[4]), e, Cause::AndroidDispatchBudget);
    reported_kept(a2, e, Cause::AndroidDispatchBudget);
    let a4 = a3.measured(Measure::AndroidCallbackToWinningAttempt, d[6], d[5]);
    assert(kept(a3, a4));
    let a5 = a4.reported_if(a.over_budget(d[6], d[5]), e, Cause::AndroidQueueOrRepairAgeBudget);
    reported_kept(a4, e, Cause::AndroidQueueOrRepairAgeBudget);
    paced_kept(a5, e);
}

proof fn transit_sampled_kept(a: AnalysisView, e: Event, interval: (int, int))
    requires
        shaped(a),
    ensures
        kept(a, a.transit_sampled(e, interval)),
{
}

proof fn transit_judged_kept(a: AnalysisView, e: Event, interval: (int, int))
    requires
        shaped(a),
    ensures
        kept(a, a.transit_judged(e, interval)),
{
}

proof fn transported_kept(a: AnalysisView, e: Event)
    requires
        shaped(a),
    ensures
        kept(a, a.transported(e).0),
{
    reveal(AnalysisView::transported);
    let alone = model::exchange_interval(e);
    let residual = a.sampled(Measure::DuplexExchangeResidualUpper, (alone.1 - alone.0) as u64);
    assert(kept(a, residual));
    let interval = a.narrowed(e);
    let counted = residual.counted(Count::ClockModelResets, 1);
    reported_kept(counted, e, Cause::ClockRateAssumptionOrTimestampsInconsistent);
    transit_sampled_kept(residual, e, interval);
    transit_judged_kept(residual.transit_sampled(e, interval), e, interval);
}

proof fn received_kept(a: AnalysisView, e: Event)
    requires
        shaped(a),
    ensures
        kept(a, a.received(e)),
{
    let a1 = a.counted(Count::UniqueLogicalFramesObserved, 1);
    counted_kept(a, Count::UniqueLogicalFramesObserved, 1);
    counted_kept(a1, Count::UniqueHeartbeats, 1);
    let a2 = if e.heartbeat() {
        a1.counted(Count::UniqueHeartbeats, 1)
    } else {
        a1
    };
    played_kept(a2, e);
    let a3 = if e.gameplay() {
        a2.played(e)
    } else {
        a2
    };
    transported_kept(a3, e);
    let (a4, forward) = a3.transported(e);
    let a5 = a4.counted(Count::DiagnosticPendingCollision, 1);
    counted_kept(a4, Count::DiagnosticPendingCollision, 1);
    let a6 = a5.reported(e, Cause::DiagnosticCoverageGap);
    reported_kept(a5, e, Cause::DiagnosticCoverageGap);
    let slot = model::slot_of(e);
    let a7 = if a4.pending[slot] is Some {
        a6
    } else {
        a4
    };
    assert(kept(a, a7));
    let a8 = AnalysisView {
        pending: a7.pending.update(slot, Some(e)),
        forward_bounds: a7.forward_bounds.update(slot, forward),
        ..a7
    };
    assert(a8 == a.received(e)) by {
        reveal(AnalysisView::received);
    }
    assert(kept(a7, a8));
}

proof fn sink_judged_kept(a: AnalysisView, e: Event)
    requires
        shaped(a),
    ensures
        kept(a, a.sink_judged(e)),
{
    reveal(AnalysisView::sink_judged);
    let d = e.0;
    let a1 = a.counted(
        if d[0] == ACCEPT {
            Count::OsAccepted
        } else {
            Count::OsFailed
        },
        1,
    ).counted(Count::SinkRetries, d[5]);
    assert(kept(a, a1));
    reported_kept(a1, e, Cause::OsSinkRetry);
    let a2 = a1.reported_if(d[5] > 0, e, Cause::OsSinkRetry);
    reported_kept(a2, e, Cause::OsSinkFailure);
    let a3 = a2.reported_if(
        d[0] == SINK_FAILURE,
        e,
        Cause::OsSinkFailure,
    );
    let a4 = a3.measured(Measure::SinkAttemptsIncludingPlanning, d[1], d[4]);
    assert(kept(a3, a4));
    reported_kept(a4, e, Cause::SinkSubmissionBudget);
}

/// That no verdict count is about to overflow.
spec fn roomy(a: AnalysisView) -> bool {
    &&& shaped(a)
    &&& a.count(Count::GameplayOsAccepted) < u64::MAX
    &&& a.count(Count::GameplayBudgetDefiniteFail) < u64::MAX
    &&& a.count(Count::GameplayBudgetUncertain) < u64::MAX
    &&& a.count(Count::GameplayBudgetUnmeasurable) < u64::MAX
    &&& a.count(Count::GameplayWithinBudgetUnderClockAssumption) < u64::MAX
}

proof fn play_accepted_balanced(a: AnalysisView, e: Event, frame: Event, service: u64)
    requires
        roomy(a),
    ensures
        a.incidents.len() <= a.play_accepted(e, frame, service).incidents.len(),
        shaped(a.play_accepted(e, frame, service)),
        balanced(a) ==> balanced(a.play_accepted(e, frame, service)),
{
    let a1 = a.counted(Count::GameplayOsAccepted, 1);
    if model::phone_times_ordered(frame) {
        let lower = model::local_lower_bound(frame, service);
        let local = if frame.historical() {
            Measure::HistoricalEventToSinkLocalLowerBound
        } else {
            Measure::CurrentEventToSinkLocalLowerBound
        };
        let a2 = a1.sampled(local, lower);
        sampled_kept(a1, local, lower);
        let a3 = a2.reported_if(
            lower > a.budget_ns,
            e,
            Cause::EventToSinkDefiniteBudgetViolation,
        );
        reported_kept(a2, e, Cause::EventToSinkDefiniteBudgetViolation);
        assert(kept(a1, a3));
        way_judged_balances(a3, e, frame, service, a.forward_bounds[model::slot_of(e)]);
    }
}

/// One verdict more, and nothing accepted.
spec fn one_verdict(before: AnalysisView, after: AnalysisView) -> bool {
    &&& shaped(before) ==> shaped(after)
    &&& before.incidents.len() <= after.incidents.len()
    &&& after.count(Count::GameplayOsAccepted) == before.count(Count::GameplayOsAccepted)
    &&& after.count(Count::GameplayBudgetDefiniteFail) + after.count(
        Count::GameplayBudgetUncertain,
    ) + after.count(Count::GameplayBudgetUnmeasurable) + after.count(
        Count::GameplayWithinBudgetUnderClockAssumption,
    ) == before.count(Count::GameplayBudgetDefiniteFail) + before.count(
        Count::GameplayBudgetUncertain,
    ) + before.count(Count::GameplayBudgetUnmeasurable) + before.count(
        Count::GameplayWithinBudgetUnderClockAssumption,
    ) + 1
}

proof fn way_judged_balances(
    a: AnalysisView,
    e: Event,
    frame: Event,
    service: u64,
    transit: Option<[u64; 2]>,
)
    requires
        shaped(a),
        a.count(Count::GameplayBudgetDefiniteFail) < u64::MAX,
        a.count(Count::GameplayBudgetUncertain) < u64::MAX,
        a.count(Count::GameplayBudgetUnmeasurable) < u64::MAX,
        a.count(Count::GameplayWithinBudgetUnderClockAssumption) < u64::MAX,
    ensures
        one_verdict(a, a.way_judged(e, frame, service, transit)),
{
    if let Some(transit) = transit {
        let bounds = model::full_bounds(frame, service, transit);
        let low = if frame.historical() {
            Measure::HistoricalEventToSinkLower
        } else {
            Measure::CurrentEventToSinkLower
        };
        let high = if frame.historical() {
            Measure::HistoricalEventToSinkUpper
        } else {
            Measure::CurrentEventToSinkUpper
        };
        let a1 = a.sampled(low, bounds[0]);
        let a2 = a1.sampled(high, bounds[1]);
        sampled_kept(a, low, bounds[0]);
        sampled_kept(a1, high, bounds[1]);
        assert(kept(a, a2));
        reported_kept(
            a2.counted(Count::GameplayBudgetDefiniteFail, 1),
            e,
            Cause::BoundedEventToSinkBudgetViolation,
        );
        reported_kept(
            a2.counted(Count::GameplayBudgetUncertain, 1),
            e,
            Cause::EventToSinkBudgetUncertain,
        );
    }
}

proof fn frame_settled_balanced(a: AnalysisView, e: Event, frame: Event)
    requires
        roomy(a),
    ensures
        a.incidents.len() <= a.frame_settled(e, frame).incidents.len(),
        shaped(a.frame_settled(e, frame)),
        balanced(a) ==> balanced(a.frame_settled(e, frame)),
{
    reveal(AnalysisView::frame_settled);
    let d = e.0;
    let service = model::since(d[1], frame.0[1]);
    let a1 = a.measured(Measure::HostReceiveToReady, d[4], frame.0[1]).sampled(
        Measure::HostReceiveToSinkOutcome,
        service,
    );
    assert(kept(a, a1));
    reported_kept(a1, e, Cause::HostDecodeOrderOrSchedulingBudget);
    let a2 = a1.reported_if(
        model::since(d[4], frame.0[1]) > a.budget_ns,
        e,
        Cause::HostDecodeOrderOrSchedulingBudget,
    );
    let a3 = AnalysisView { pending: a2.pending.update(model::slot_of(e), None), ..a2 };
    assert(kept(a, a3));
    play_accepted_balanced(a3, e, frame, service);
}

proof fn recovered_kept(a: AnalysisView, e: Event)
    requires
        shaped(a),
    ensures
        kept(a, a.recovered(e)),
{
}

proof fn snapshot_seen_kept(a: AnalysisView, e: Event, awaited: Option<Event>)
    requires
        shaped(a),
    ensures
        kept(a, a.snapshot_seen(e, awaited)),
{
}

proof fn hole_filled_kept(a: AnalysisView, e: Event)
    requires
        shaped(a),
    ensures
        kept(a, a.hole_filled(e)),
{
}

proof fn settled_kept(a: AnalysisView, e: Event)
    requires
        shaped(a),
    ensures
        kept(a, a.settled(e)),
{
}

proof fn balance_kept(a: AnalysisView, b: AnalysisView)
    requires
        kept(a, b),
    ensures
        balanced(a) == balanced(b),
{
}

proof fn concluded_balanced(a: AnalysisView, e: Event)
    requires
        roomy(a),
    ensures
        a.incidents.len() <= a.concluded(e).incidents.len(),
        shaped(a.concluded(e)),
        balanced(a) ==> balanced(a.concluded(e)),
{
    reveal(AnalysisView::concluded);
    let awaited = a.awaited(e);
    let a1 = a.sink_judged(e);
    sink_judged_kept(a, e);
    let a2 = match awaited {
        Some(frame) => a1.frame_settled(e, frame),
        None => a1.counted(Count::OutcomeWithoutReceiveEvidence, 1),
    };
    if let Some(frame) = awaited {
        frame_settled_balanced(a1, e, frame);
    } else {
        counted_kept(a1, Count::OutcomeWithoutReceiveEvidence, 1);
    }
    let a3 = a2.recovered(e);
    recovered_kept(a2, e);
    let a4 = a3.snapshot_seen(e, awaited);
    snapshot_seen_kept(a3, e, awaited);
    let a5 = a4.hole_filled(e);
    hole_filled_kept(a4, e);
    let a6 = a5.settled(e);
    settled_kept(a5, e);
    balance_kept(a2, a6);
    balance_kept(a, a1);
    let a7 = AnalysisView { last_commit: Some(e), ..a6 };
    balance_kept(a6, a7);
}

proof fn gapped_kept(a: AnalysisView, e: Event)
    requires
        shaped(a),
    ensures
        kept(a, a.gapped(e)),
{
}

proof fn small_events_kept(a: AnalysisView, e: Event)
    requires
        shaped(a),
    ensures
        kept(a, a.rejected(e)),
        kept(a, a.acknowledged(e)),
        kept(a, a.cancelled(e)),
        kept(a, a.discarded_at_ingress(e)),
{
}

proof fn bounded_off_kept(a: AnalysisView, e: Event)
    requires
        shaped(a),
    ensures
        kept(a, a.bounded_off(e)),
{
    let counted = a.counted(Count::FailedBoundaries, 1);
    counted_kept(a, Count::FailedBoundaries, 1);
    let reported = counted.reported(e, Cause::SessionFailureBoundary);
    reported_kept(counted, e, Cause::SessionFailureBoundary);
    let failed = if e.0[4] != 0 {
        AnalysisView { recovering: reported.active, ..reported }
    } else {
        a
    };
    assert(kept(a, failed));
    discarded_kept(failed, SLOTS as nat, e.0[1]);
}

proof fn began_kept(a: AnalysisView, e: Event)
    requires
        shaped(a),
    ensures
        kept(a, a.began(e)),
{
    discarded_kept(a, SLOTS as nat, e.0[1]);
    counted_kept(a.discarded(SLOTS as nat, e.0[1]), Count::Connections, 1);
}

/// No event removes an incident, and none makes the verdicts disagree with the
/// accepted frames of play.
pub proof fn handled_keeps(a: AnalysisView, e: Event)
    requires
        a.wf(),
        a.bounded((u64::MAX - 1) as nat),
    ensures
        a.incidents.len() <= a.handled(e).incidents.len(),
        shaped(a.handled(e)),
        balanced(a) ==> balanced(a.handled(e)),
{
    assert(roomy(a)) by {
        assert(a.counts[Count::GameplayOsAccepted.position()] matches Some(n) ==> n < u64::MAX);
        assert(a.counts[Count::GameplayBudgetDefiniteFail.position()] matches Some(n) ==> n
            < u64::MAX);
        assert(a.counts[Count::GameplayBudgetUncertain.position()] matches Some(n) ==> n
            < u64::MAX);
        assert(a.counts[Count::GameplayBudgetUnmeasurable.position()] matches Some(n) ==> n
            < u64::MAX);
        assert(a.counts[Count::GameplayWithinBudgetUnderClockAssumption.position()] matches Some(n)
            ==> n < u64::MAX);
    }
    let kind = e.0[0];
    if kind == BEGIN {
        began_kept(a, e);
    } else if kind == RECEIVE {
        received_kept(a, e);
    } else if kind == DUPLICATE {
        counted_kept(a, Count::LogicalDuplicateDatagrams, 1);
    } else if kind == GAP {
        gapped_kept(a, e);
    } else if kind == ACCEPT || kind == SINK_FAILURE {
        concluded_balanced(a, e);
    } else if kind == BOUNDARY {
        bounded_off_kept(a, e);
    } else if kind == STALL {
        counted_kept(a, Count::WatchdogOrInterfaceFailures, 1);
        reported_kept(
            a.counted(Count::WatchdogOrInterfaceFailures, 1),
            e,
            Cause::WatchdogOrInterfaceBoundary,
        );
    } else {
        small_events_kept(a, e);
    }
}

/// Nothing that an analysis observes removes an incident, and every accepted frame of
/// play keeps exactly one verdict.
pub proof fn observation_keeps(a: AnalysisView, e: Event)
    requires
        a.wf(),
        a.bounded((u64::MAX - 1) as nat),
    ensures
        a.incidents.len() <= a.observed(e).incidents.len(),
        balanced(a) ==> balanced(a.observed(e)),
{
    let a1 = a.quieted(e);
    assert(kept(a, a1));
    assert(a1.wf()) by {
        assert forall|i: int| 0 <= i < a1.incidents.len() implies (#[trigger] a1.incidents[i]).wf(
            i,
        ) by {
            assert(a.incidents[i].wf(i));
        }
    }
    assert(a1.bounded((u64::MAX - 1) as nat)) by {
        assert forall|i: int| 0 <= i < a1.incidents.len() implies (
        #[trigger] a1.incidents[i]).affected_frames <= u64::MAX - 1
            && a1.incidents[i].affected_keys_omitted <= u64::MAX - 1
            && a1.incidents[i].evidence_omitted <= u64::MAX - 1 by {
            assert(a.incidents[i].affected_frames <= u64::MAX - 1);
        }
    }
    handled_keeps(a1, e);
    let a2 = a1.handled(e);
    let a3 = a2.linked(a.recovery_target(), e);
    assert(kept(a2, a3));
    retained_kept(a3, e);
}

/// Finishing removes no incident, and judges no frame of play.
pub proof fn finishing_keeps(a: AnalysisView, dropped: u64)
    requires
        a.wf(),
    ensures
        a.incidents.len() <= a.finished(dropped).incidents.len(),
        balanced(a) ==> balanced(a.finished(dropped)),
{
    let event = Event([BOUNDARY, a.last_event_ns, 0, 0, 0, 0, 0, 0, 0, 0, 0, 0]);
    let a1 = AnalysisView { records_dropped: dropped, ..a };
    assert(kept(a, a1));
    discarded_kept(a1, SLOTS as nat, a.last_event_ns);
    let a2 = a1.discarded(SLOTS as nat, a.last_event_ns);
    reported_kept(a2, event, Cause::DiagnosticCoverageGap);
    assert(kept(a, a.finished(dropped)));
}

/// A duplicate changes nothing but its own count and the evidence: no series, no open
/// frame, no incident's causes.
pub proof fn duplicate_is_only_counted(a: AnalysisView, e: Event)
    requires
        a.wf(),
        e.0[0] == DUPLICATE,
    ensures
        ({
            let after = a.observed(e);
            &&& after.series == a.series
            &&& after.pending == a.pending
            &&& after.clock == a.clock
            &&& after.last_unique == a.last_unique
            &&& after.counts == a.counted(Count::LogicalDuplicateDatagrams, 1).counts
            &&& after.incidents.len() == a.incidents.len()
            &&& forall|i: int|
                0 <= i < a.incidents.len() ==> (#[trigger] after.incidents[i]).causes
                    == a.incidents[i].causes
        }),
{
}

/// That the rhythm of play has no new sample.
spec fn steady(before: AnalysisView, after: AnalysisView) -> bool {
    &&& shaped(before) ==> shaped(after)
    &&& after.last_unique == before.last_unique
    &&& after.series_of(Measure::UniqueGameplayReceiveInterval) == before.series_of(
        Measure::UniqueGameplayReceiveInterval,
    )
    &&& after.series_of(Measure::UniqueGameplayCadenceExcess) == before.series_of(
        Measure::UniqueGameplayCadenceExcess,
    )
}

proof fn reported_steady(a: AnalysisView, e: Event, cause: Cause)
    requires
        shaped(a),
    ensures
        steady(a, a.reported(e, cause)),
{
}

proof fn transit_steady(a: AnalysisView, e: Event, interval: (int, int))
    requires
        shaped(a),
    ensures
        steady(a, a.transit_sampled(e, interval)),
        steady(a, a.transit_judged(e, interval)),
{
}

proof fn transported_steady(a: AnalysisView, e: Event)
    requires
        shaped(a),
    ensures
        steady(a, a.transported(e).0),
{
    reveal(AnalysisView::transported);
    let alone = model::exchange_interval(e);
    let residual = a.sampled(Measure::DuplexExchangeResidualUpper, (alone.1 - alone.0) as u64);
    assert(steady(a, residual));
    let interval = a.narrowed(e);
    let counted = residual.counted(Count::ClockModelResets, 1);
    reported_steady(counted, e, Cause::ClockRateAssumptionOrTimestampsInconsistent);
    transit_steady(residual, e, interval);
    transit_steady(residual.transit_sampled(e, interval), e, interval);
}

/// A frame that is no play leaves the rhythm of play as it was: neither the intervals
/// between frames of play nor their excess have another sample.
pub proof fn only_play_has_rhythm(a: AnalysisView, e: Event)
    requires
        a.wf(),
        e.0[0] == RECEIVE,
        !e.gameplay(),
    ensures
        a.observed(e).last_unique == a.last_unique,
        a.observed(e).series_of(Measure::UniqueGameplayReceiveInterval) == a.series_of(
            Measure::UniqueGameplayReceiveInterval,
        ),
        a.observed(e).series_of(Measure::UniqueGameplayCadenceExcess) == a.series_of(
            Measure::UniqueGameplayCadenceExcess,
        ),
{
    reveal(AnalysisView::received);
    let a1 = a.quieted(e);
    let a2 = a1.counted(Count::UniqueLogicalFramesObserved, 1);
    let a3 = if e.heartbeat() {
        a2.counted(Count::UniqueHeartbeats, 1)
    } else {
        a2
    };
    assert(steady(a, a3));
    transported_steady(a3, e);
    let a4 = a3.transported(e).0;
    let a5 = a4.counted(Count::DiagnosticPendingCollision, 1);
    reported_steady(a5, e, Cause::DiagnosticCoverageGap);
    let a6 = a1.handled(e);
    assert(steady(a, a6));
    assert(kept(a, a1));
    received_kept(a1, e);
    let a7 = a6.linked(a.recovery_target(), e);
    assert(steady(a6, a7));
    assert(steady(a7, a7.retained(e)));
}

/// A rejected frame frees no slot but its own: the frame that waits there under
/// another session or sequence stays.
pub proof fn rejection_spares_other_frames(a: AnalysisView, e: Event, slot: int)
    requires
        a.wf(),
        e.0[0] == REJECT,
        0 <= slot < SLOTS,
        a.pending[slot] matches Some(frame) ==> !frame.same_frame(e),
    ensures
        a.observed(e).pending[slot] == a.pending[slot],
{
}

/// The interval of an exchange holds the true offset of the clocks, if neither message
/// arrived before it was sent and the offset drifted no more than assumed: `there` is
/// the offset when the phone received, `back` when it sent, `now` when the host received.
pub proof fn exchange_holds_true_offset(e: Event, there: int, back: int, now: int)
    requires
        e.0[1] >= e.0[7],
        e.0[8] + there >= e.0[7],
        e.0[6] + back <= e.0[1],
        now - model::drift(e.0[1] - e.0[7]) <= there <= now + model::drift(e.0[1] - e.0[7]),
        now - model::drift(e.0[1] - e.0[7]) <= back <= now + model::drift(e.0[1] - e.0[7]),
    ensures
        model::exchange_interval(e).0 <= now <= model::exchange_interval(e).1,
{
}

/// For an offset in the interval, the bounds on the forward transit enclose the time
/// that the frame was under way: an asymmetric delay is not hidden by halving a round trip.
pub proof fn forward_bounds_enclose_transit(e: Event, interval: (int, int), offset: int)
    requires
        interval.0 <= offset <= interval.1,
        e.0[1] - e.0[6] - interval.0 <= u64::MAX,
        e.0[6] + offset <= e.0[1],
    ensures
        model::forward_transit(e, interval)[0] <= e.0[1] - (e.0[6] + offset)
            <= model::forward_transit(e, interval)[1],
{
}

/// For an offset in the interval, the bounds on the reverse transit enclose the time
/// that the echoed control message was under way.
pub proof fn reverse_bounds_enclose_transit(e: Event, interval: (int, int), offset: int)
    requires
        interval.0 <= offset <= interval.1,
        e.0[8] - e.0[7] + interval.1 <= u64::MAX,
        e.0[7] <= e.0[8] + offset,
    ensures
        model::reverse_transit(e, interval)[0] <= e.0[8] + offset - e.0[7]
            <= model::reverse_transit(e, interval)[1],
{
}

} // verus!
