//! What the numbers of an analysis mean: which event is counted where, when a frame has kept
//! its budget, and what an incident is blamed on.
use crate::diagnostics::event::Event;
use crate::diagnostics::keys::{Cause, Count, Measure, COUNTS, MEASURES};
use crate::diagnostics::laws;
use crate::diagnostics::model;
use crate::diagnostics::model::AnalysisView;
use vstd::prelude::*;

verus! {

/// The open incident is blamed on the cause; where there is none, there is no room for more
/// incidents.
pub open spec fn blames(a: AnalysisView, cause: Cause) -> bool {
    match a.active {
        Some(index) => index < a.incidents.len() && a.incidents[index as int].causes.contains(cause),
        None => a.incidents.len() == 256,
    }
}

/// No incident is blamed on the cause that was not blamed on it before.
pub open spec fn no_new_blame(before: AnalysisView, after: AnalysisView, cause: Cause) -> bool {
    forall|i: int|
        0 <= i < after.incidents.len() && (#[trigger] after.incidents[i]).causes.contains(cause)
            ==> i < before.incidents.len() && before.incidents[i].causes.contains(cause)
}

/// That incidents only gain causes, and the open one stays open.
spec fn mild(before: AnalysisView, after: AnalysisView) -> bool {
    &&& before.incidents.len() <= after.incidents.len() <= 256
    &&& before.active matches Some(index) ==> after.active == Some(index)
    &&& before.active is None && before.incidents.len() == 256 ==> after.active is None
    &&& after.active matches Some(index) ==> index < after.incidents.len()
    &&& forall|i: int, cause: Cause|
        0 <= i < before.incidents.len() && #[trigger] before.incidents[i].causes.contains(cause)
            ==> after.incidents[i].causes.contains(cause)
    &&& after.budget_ns == before.budget_ns
    &&& after.pending.len() == before.pending.len()
}

/// A step that blames the cause if, and only if, `guilty`.
spec fn step(before: AnalysisView, after: AnalysisView, cause: Cause, guilty: bool) -> bool {
    &&& mild(before, after)
    &&& guilty ==> blames(after, cause)
    &&& !guilty ==> no_new_blame(before, after, cause)
}

spec fn sized(a: AnalysisView) -> bool {
    &&& a.counts.len() == COUNTS
    &&& a.series.len() == MEASURES
    &&& a.pending.len() == 256
    &&& a.forward_bounds.len() == 256
    &&& a.incidents.len() <= 256
    &&& a.active matches Some(index) ==> index < a.incidents.len()
}

proof fn steps_join(
    a: AnalysisView,
    b: AnalysisView,
    c: AnalysisView,
    cause: Cause,
    first: bool,
    second: bool,
)
    requires
        step(a, b, cause, first),
        step(b, c, cause, second),
    ensures
        step(a, c, cause, first || second),
{
    if first && !second {
        if let Some(index) = b.active {
            assert(b.incidents[index as int].causes.contains(cause));
        }
    }
    assert(mild(a, c)) by {
        assert forall|i: int, other: Cause|
            0 <= i < a.incidents.len() && #[trigger] a.incidents[i].causes.contains(
                other,
            ) implies c.incidents[i].causes.contains(other) by {
            assert(b.incidents[i].causes.contains(other));
        }
    }
}

/// A step that leaves the incidents alone.
spec fn aside(before: AnalysisView, after: AnalysisView) -> bool {
    &&& after.incidents == before.incidents
    &&& after.active == before.active
    &&& after.budget_ns == before.budget_ns
    &&& after.pending.len() == before.pending.len()
}

proof fn aside_steps(a: AnalysisView, b: AnalysisView, cause: Cause)
    requires
        sized(a),
        aside(a, b),
    ensures
        step(a, b, cause, false),
{
}

/// A step that only changes what incidents hold besides their causes.
spec fn noted(before: AnalysisView, after: AnalysisView) -> bool {
    &&& after.incidents.len() == before.incidents.len()
    &&& forall|i: int|
        0 <= i < before.incidents.len() ==> (#[trigger] after.incidents[i]).causes
            == before.incidents[i].causes
    &&& after.active == before.active
    &&& after.budget_ns == before.budget_ns
    &&& after.pending.len() == before.pending.len()
}

proof fn noted_steps(a: AnalysisView, b: AnalysisView, cause: Cause)
    requires
        sized(a),
        noted(a, b),
    ensures
        step(a, b, cause, false),
{
    assert forall|i: int, other: Cause|
        0 <= i < a.incidents.len() && #[trigger] a.incidents[i].causes.contains(
            other,
        ) implies b.incidents[i].causes.contains(other) by {
        assert(b.incidents[i].causes == a.incidents[i].causes);
    }
}

proof fn report_steps(a: AnalysisView, condition: bool, e: Event, blamed: Cause, cause: Cause)
    requires
        sized(a),
    ensures
        sized(a.reported_if(condition, e, blamed)),
        step(a, a.reported_if(condition, e, blamed), cause, condition && cause == blamed),
        a.reported_if(condition, e, blamed).counts == a.counts,
        a.reported_if(condition, e, blamed).series == a.series,
        a.reported_if(condition, e, blamed).pending == a.pending,
        a.reported_if(condition, e, blamed).forward_bounds == a.forward_bounds,
        a.reported_if(condition, e, blamed).gap == a.gap,
        a.reported_if(condition, e, blamed).clock == a.clock,
        a.reported_if(condition, e, blamed).recovering == a.recovering,
        a.reported_if(condition, e, blamed).awaiting_snapshot == a.awaiting_snapshot,
{
    let b = a.reported_if(condition, e, blamed);
    if condition {
        if let Some(index) = a.active {
            assert(b.incidents[index as int].causes == a.incidents[index as int].causes.insert(
                blamed,
            ));
        } else if a.incidents.len() < 256 {
            let index = a.incidents.len() as int;
            assert(b.incidents[index].causes == Set::<Cause>::empty().insert(blamed));
        }
        assert forall|i: int, other: Cause|
            0 <= i < a.incidents.len() && #[trigger] a.incidents[i].causes.contains(
                other,
            ) implies b.incidents[i].causes.contains(other) by {}
    }
}

proof fn quiet_steps(a: AnalysisView, e: Event, cause: Cause)
    requires
        sized(a),
    ensures
        sized(a.quieted(e)),
        no_new_blame(a, a.quieted(e), cause),
        a.quieted(e).counts == a.counts,
        a.quieted(e).series == a.series,
        a.quieted(e).pending == a.pending,
        a.quieted(e).forward_bounds == a.forward_bounds,
        a.quieted(e).budget_ns == a.budget_ns,
        a.quieted(e).gap == a.gap,
        a.quieted(e).clock == a.clock,
        a.quieted(e).last_unique == a.last_unique,
{
}

/// The end of every observation: the event becomes evidence.
proof fn keep_steps(a: AnalysisView, target: Option<usize>, e: Event, cause: Cause)
    requires
        sized(a),
        target matches Some(index) ==> index < a.incidents.len(),
    ensures
        ({
            let b = a.linked(target, e).retained(e).remembered(e);
            &&& step(a, b, cause, false)
            &&& b.counts == a.counts
            &&& b.series == a.series
            &&& b.pending == a.pending
            &&& b.forward_bounds == a.forward_bounds
            &&& b.gap == a.gap
            &&& b.clock == a.clock
            &&& b.last_unique == a.last_unique
        }),
{
    let b = a.linked(target, e);
    let c = b.retained(e);
    let d = c.remembered(e);
    assert(noted(a, b));
    assert(noted(b, c));
    assert(aside(c, d));
    assert(noted(a, d));
    noted_steps(a, d, cause);
}

/// The time that is taken off the phone's own part and the host's part of the way, which is
/// the least of what the two clocks show apart: a millisecond for the resolution of touch
/// times, and a thousandth of the phone's part.
pub open spec fn allowance(age: int) -> int {
    1_000_000 + age / 1000
}

pub open spec fn at_most(n: int) -> int {
    if n > 0xffff_ffff_ffff_ffff {
        0xffff_ffff_ffff_ffff
    } else {
        n
    }
}

pub open spec fn not_below_zero(n: int) -> int {
    if n < 0 {
        0
    } else {
        n
    }
}

/// The least time from touch to sink that the clocks of phone and host show, each for itself.
pub open spec fn least_local(frame: Event, e: Event) -> int {
    let age = frame.0[6] - frame.0[4];
    not_below_zero(at_most(age + not_below_zero(e.0[1] - frame.0[1])) - allowance(age))
}

/// The least and the greatest time from touch to sink, with bounds on the transit.
pub open spec fn least_way(frame: Event, e: Event, transit: [u64; 2]) -> int {
    at_most(least_local(frame, e) + transit[0])
}

pub open spec fn greatest_way(frame: Event, e: Event, transit: [u64; 2]) -> int {
    let age = frame.0[6] - frame.0[4];
    at_most(
        at_most(at_most(age + not_below_zero(e.0[1] - frame.0[1])) + age / 1000) + transit[1],
    )
}

proof fn ways_agree(frame: Event, e: Event, transit: [u64; 2])
    requires
        frame.0[6] >= frame.0[5] >= frame.0[4],
    ensures
        model::local_lower_bound(frame, model::since(e.0[1], frame.0[1])) == least_local(frame, e),
        model::full_bounds(frame, model::since(e.0[1], frame.0[1]), transit)[0] == least_way(
            frame,
            e,
            transit,
        ),
        model::full_bounds(frame, model::since(e.0[1], frame.0[1]), transit)[1] == greatest_way(
            frame,
            e,
            transit,
        ),
{
}

/// A count after it was increased.
spec fn plus(counts: Seq<Option<u64>>, key: Count, n: u64) -> Seq<Option<u64>> {
    counts.update(
        key.position(),
        Some(
            ((match counts[key.position()] {
                Some(m) => m,
                None => 0u64,
            }) + n) as u64,
        ),
    )
}

proof fn sink_steps(a: AnalysisView, e: Event, cause: Cause)
    requires
        sized(a),
    ensures
        ({
            let b = a.sink_judged(e);
            let took = e.0[1] - e.0[4];
            &&& sized(b)
            &&& step(
                a,
                b,
                cause,
                (e.0[5] > 0 && cause == Cause::OsSinkRetry) || (e.0[0] == 8 && cause
                    == Cause::OsSinkFailure) || (e.0[4] != 0 && took > a.budget_ns && cause
                    == Cause::SinkSubmissionBudget),
            )
            &&& b.counts == plus(
                plus(
                    a.counts,
                    if e.0[0] == 2 {
                        Count::OsAccepted
                    } else {
                        Count::OsFailed
                    },
                    1,
                ),
                Count::SinkRetries,
                e.0[5],
            )
            &&& b.pending == a.pending
            &&& b.forward_bounds == a.forward_bounds
            &&& b.gap == a.gap
            &&& b.budget_ns == a.budget_ns
            &&& b.recovering == a.recovering
            &&& b.awaiting_snapshot == a.awaiting_snapshot
        }),
{
    reveal(AnalysisView::sink_judged);
    let d = e.0;
    let a1 = a.counted(
        if d[0] == 2 {
            Count::OsAccepted
        } else {
            Count::OsFailed
        },
        1,
    ).counted(Count::SinkRetries, d[5]);
    aside_steps(a, a1, cause);
    let a2 = a1.reported_if(d[5] > 0, e, Cause::OsSinkRetry);
    report_steps(a1, d[5] > 0, e, Cause::OsSinkRetry, cause);
    let a3 = a2.reported_if(d[0] == 8, e, Cause::OsSinkFailure);
    report_steps(a2, d[0] == 8, e, Cause::OsSinkFailure, cause);
    let a4 = a3.measured(Measure::SinkAttemptsIncludingPlanning, d[1], d[4]);
    aside_steps(a3, a4, cause);
    let over = a.over_budget(d[1], d[4]);
    report_steps(a4, over, e, Cause::SinkSubmissionBudget, cause);
    let a5 = a4.reported_if(over, e, Cause::SinkSubmissionBudget);
    let f1 = d[5] > 0 && cause == Cause::OsSinkRetry;
    let f2 = d[0] == 8 && cause == Cause::OsSinkFailure;
    steps_join(a, a1, a2, cause, false, f1);
    steps_join(a, a2, a3, cause, f1, f2);
    steps_join(a, a3, a4, cause, f1 || f2, false);
    steps_join(a, a4, a5, cause, f1 || f2, over && cause == Cause::SinkSubmissionBudget);
}

proof fn way_steps(
    a: AnalysisView,
    e: Event,
    frame: Event,
    transit: Option<[u64; 2]>,
    cause: Cause,
)
    requires
        sized(a),
        frame.0[6] >= frame.0[5] >= frame.0[4],
    ensures
        ({
            let b = a.way_judged(e, frame, model::since(e.0[1], frame.0[1]), transit);
            let low = least_way(frame, e, transit->0);
            let high = greatest_way(frame, e, transit->0);
            &&& sized(b)
            &&& step(
                a,
                b,
                cause,
                transit is Some && ((low > a.budget_ns && cause
                    == Cause::BoundedEventToSinkBudgetViolation) || (low <= a.budget_ns < high
                    && cause == Cause::EventToSinkBudgetUncertain)),
            )
            &&& b.counts == plus(
                a.counts,
                if transit is None {
                    Count::GameplayBudgetUnmeasurable
                } else if low > a.budget_ns {
                    Count::GameplayBudgetDefiniteFail
                } else if high > a.budget_ns {
                    Count::GameplayBudgetUncertain
                } else {
                    Count::GameplayWithinBudgetUnderClockAssumption
                },
                1,
            )
            &&& b.pending == a.pending
            &&& b.gap == a.gap
            &&& b.recovering == a.recovering
            &&& b.awaiting_snapshot == a.awaiting_snapshot
        }),
{
    let service = model::since(e.0[1], frame.0[1]);
    let b = a.way_judged(e, frame, service, transit);
    match transit {
        None => {
            aside_steps(a, b, cause);
        },
        Some(transit) => {
            ways_agree(frame, e, transit);
            let bounds = model::full_bounds(frame, service, transit);
            let sampled = a.sampled(
                if frame.historical() {
                    Measure::HistoricalEventToSinkLower
                } else {
                    Measure::CurrentEventToSinkLower
                },
                bounds[0],
            ).sampled(
                if frame.historical() {
                    Measure::HistoricalEventToSinkUpper
                } else {
                    Measure::CurrentEventToSinkUpper
                },
                bounds[1],
            );
            if bounds[0] > a.budget_ns {
                let c = sampled.counted(Count::GameplayBudgetDefiniteFail, 1);
                aside_steps(a, c, cause);
                report_steps(c, true, e, Cause::BoundedEventToSinkBudgetViolation, cause);
                steps_join(
                    a,
                    c,
                    b,
                    cause,
                    false,
                    cause == Cause::BoundedEventToSinkBudgetViolation,
                );
            } else if bounds[1] > a.budget_ns {
                let c = sampled.counted(Count::GameplayBudgetUncertain, 1);
                aside_steps(a, c, cause);
                report_steps(c, true, e, Cause::EventToSinkBudgetUncertain, cause);
                steps_join(a, c, b, cause, false, cause == Cause::EventToSinkBudgetUncertain);
            } else {
                aside_steps(a, b, cause);
            }
        },
    }
}

/// The frame's own times are known and in order.
pub open spec fn ordered(frame: Event) -> bool {
    0 < frame.0[4] <= frame.0[5] && frame.0[5] <= frame.0[6]
}

proof fn play_steps(a: AnalysisView, e: Event, frame: Event, cause: Cause)
    requires
        sized(a),
    ensures
        ({
            let b = a.play_accepted(e, frame, model::since(e.0[1], frame.0[1]));
            let transit = a.forward_bounds[(e.0[3] % 256) as int];
            let low = least_way(frame, e, transit->0);
            let high = greatest_way(frame, e, transit->0);
            &&& sized(b)
            &&& step(
                a,
                b,
                cause,
                ordered(frame) && ((least_local(frame, e) > a.budget_ns && cause
                    == Cause::EventToSinkDefiniteBudgetViolation) || (transit is Some && low
                    > a.budget_ns && cause == Cause::BoundedEventToSinkBudgetViolation) || (transit
                    is Some && low <= a.budget_ns < high && cause
                    == Cause::EventToSinkBudgetUncertain)),
            )
            &&& b.counts == plus(
                plus(a.counts, Count::GameplayOsAccepted, 1),
                if !ordered(frame) || transit is None {
                    Count::GameplayBudgetUnmeasurable
                } else if low > a.budget_ns {
                    Count::GameplayBudgetDefiniteFail
                } else if high > a.budget_ns {
                    Count::GameplayBudgetUncertain
                } else {
                    Count::GameplayWithinBudgetUnderClockAssumption
                },
                1,
            )
            &&& b.pending == a.pending
            &&& b.gap == a.gap
            &&& b.recovering == a.recovering
            &&& b.awaiting_snapshot == a.awaiting_snapshot
        }),
{
    let service = model::since(e.0[1], frame.0[1]);
    let counted = a.counted(Count::GameplayOsAccepted, 1);
    let transit = a.forward_bounds[(e.0[3] % 256) as int];
    aside_steps(a, counted, cause);
    if ordered(frame) {
        ways_agree(frame, e, [0u64, 0u64]);
        let lower = model::local_lower_bound(frame, service);
        let b = counted.sampled(
            if frame.historical() {
                Measure::HistoricalEventToSinkLocalLowerBound
            } else {
                Measure::CurrentEventToSinkLocalLowerBound
            },
            lower,
        );
        aside_steps(counted, b, cause);
        steps_join(a, counted, b, cause, false, false);
        let over = lower > a.budget_ns;
        report_steps(b, over, e, Cause::EventToSinkDefiniteBudgetViolation, cause);
        let c = b.reported_if(over, e, Cause::EventToSinkDefiniteBudgetViolation);
        let f = over && cause == Cause::EventToSinkDefiniteBudgetViolation;
        steps_join(a, b, c, cause, false, f);
        way_steps(c, e, frame, transit, cause);
        let low = least_way(frame, e, transit->0);
        let high = greatest_way(frame, e, transit->0);
        let g = transit is Some && ((low > a.budget_ns && cause
            == Cause::BoundedEventToSinkBudgetViolation) || (low <= a.budget_ns < high && cause
            == Cause::EventToSinkBudgetUncertain));
        steps_join(a, c, c.way_judged(e, frame, service, transit), cause, f, g);
    } else {
        aside_steps(a, counted.counted(Count::GameplayBudgetUnmeasurable, 1), cause);
    }
}

/// A frame of play has its first bit set.
pub open spec fn of_play(frame: Event) -> bool {
    frame.0[9] % 2 == 1
}

proof fn flags_of_events(e: Event)
    ensures
        e.gameplay() == of_play(e),
        e.historical() == (e.0[9] / 2 % 2 == 1),
        e.heartbeat() == (e.0[9] / 4 % 2 == 1),
{
    let flags = e.0[9];
    assert((flags & 1 != 0) == (flags % 2 == 1)) by (bit_vector);
    assert((flags & 2 != 0) == (flags / 2 % 2 == 1)) by (bit_vector);
    assert((flags & 4 != 0) == (flags / 4 % 2 == 1)) by (bit_vector);
}

/// What the verdict on an accepted frame of play is counted as.
spec fn verdict(budget: u64, frame: Event, e: Event, transit: Option<[u64; 2]>) -> Count {
    if !ordered(frame) || transit is None {
        Count::GameplayBudgetUnmeasurable
    } else if least_way(frame, e, transit->0) > budget {
        Count::GameplayBudgetDefiniteFail
    } else if greatest_way(frame, e, transit->0) > budget {
        Count::GameplayBudgetUncertain
    } else {
        Count::GameplayWithinBudgetUnderClockAssumption
    }
}

spec fn blamed_for_play(
    budget: u64,
    frame: Event,
    e: Event,
    transit: Option<[u64; 2]>,
    cause: Cause,
) -> bool {
    ordered(frame) && ((least_local(frame, e) > budget && cause
        == Cause::EventToSinkDefiniteBudgetViolation) || (transit is Some && least_way(
        frame,
        e,
        transit->0,
    ) > budget && cause == Cause::BoundedEventToSinkBudgetViolation) || (transit is Some
        && least_way(frame, e, transit->0) <= budget && greatest_way(frame, e, transit->0) > budget
        && cause == Cause::EventToSinkBudgetUncertain))
}

proof fn settle_steps(a: AnalysisView, e: Event, frame: Event, cause: Cause)
    requires
        sized(a),
    ensures
        ({
            let b = a.frame_settled(e, frame);
            let slot = (e.0[3] % 256) as int;
            let play = e.0[0] == 2 && of_play(frame);
            let transit = a.forward_bounds[slot];
            &&& sized(b)
            &&& step(
                a,
                b,
                cause,
                (e.0[4] - frame.0[1] > a.budget_ns && cause
                    == Cause::HostDecodeOrderOrSchedulingBudget) || (play && blamed_for_play(
                    a.budget_ns,
                    frame,
                    e,
                    transit,
                    cause,
                )),
            )
            &&& b.counts == if play {
                plus(
                    plus(a.counts, Count::GameplayOsAccepted, 1),
                    verdict(a.budget_ns, frame, e, transit),
                    1,
                )
            } else {
                a.counts
            }
            &&& b.gap == a.gap
            &&& b.recovering == a.recovering
            &&& b.awaiting_snapshot == a.awaiting_snapshot
            &&& b.pending == if e.0[0] == 2 {
                a.pending.update(slot, None)
            } else {
                a.pending
            }
        }),
{
    reveal(AnalysisView::frame_settled);
    flags_of_events(frame);
    let d = e.0;
    let service = model::since(d[1], frame.0[1]);
    let b = a.measured(Measure::HostReceiveToReady, d[4], frame.0[1]).sampled(
        Measure::HostReceiveToSinkOutcome,
        service,
    );
    aside_steps(a, b, cause);
    let late = model::since(d[4], frame.0[1]) > a.budget_ns;
    report_steps(b, late, e, Cause::HostDecodeOrderOrSchedulingBudget, cause);
    let timed = b.reported_if(late, e, Cause::HostDecodeOrderOrSchedulingBudget);
    let f = late && cause == Cause::HostDecodeOrderOrSchedulingBudget;
    steps_join(a, b, timed, cause, false, f);
    if d[0] == 2 {
        let cleared = AnalysisView {
            pending: timed.pending.update(model::slot_of(e), None),
            ..timed
        };
        aside_steps(timed, cleared, cause);
        steps_join(a, timed, cleared, cause, f, false);
        if frame.gameplay() {
            play_steps(cleared, e, frame, cause);
            steps_join(
                a,
                cleared,
                cleared.play_accepted(e, frame, service),
                cause,
                f,
                blamed_for_play(a.budget_ns, frame, e, a.forward_bounds[model::slot_of(e)], cause),
            );
        }
    }
}

proof fn tail_steps(a: AnalysisView, e: Event, awaited: Option<Event>, cause: Cause)
    requires
        sized(a),
        a.recovering matches Some(index) ==> index < a.incidents.len(),
        a.awaiting_snapshot matches Some(index) ==> index < a.incidents.len(),
    ensures
        ({
            let b = AnalysisView {
                last_commit: Some(e),
                ..a.recovered(e).snapshot_seen(e, awaited).hole_filled(e).settled(e)
            };
            &&& sized(b)
            &&& step(a, b, cause, false)
            &&& b.counts == a.counts
        }),
{
    let b = a.recovered(e);
    assert(noted(a, b));
    let c = b.snapshot_seen(e, awaited);
    assert(noted(b, c));
    let d = c.hole_filled(e);
    assert(aside(c, d));
    let f = d.settled(e);
    assert(noted(d, f));
    let g = AnalysisView { last_commit: Some(e), ..f };
    assert(noted(a, g));
    noted_steps(a, g, cause);
}

/// Everything that an outcome does, in the order of the parts above.
proof fn outcome_steps(a: AnalysisView, e: Event, cause: Cause)
    requires
        a.wf(),
        e.0[0] == 2 || e.0[0] == 8,
    ensures
        ({
            let after = a.observed(e);
            let slot = (e.0[3] % 256) as int;
            let sunk = plus(
                plus(
                    a.counts,
                    if e.0[0] == 2 {
                        Count::OsAccepted
                    } else {
                        Count::OsFailed
                    },
                    1,
                ),
                Count::SinkRetries,
                e.0[5],
            );
            let own = (e.0[5] > 0 && cause == Cause::OsSinkRetry) || (e.0[0] == 8 && cause
                == Cause::OsSinkFailure) || (e.0[4] != 0 && e.0[1] - e.0[4] > a.budget_ns && cause
                == Cause::SinkSubmissionBudget);
            match a.pending[slot] {
                Some(frame) => if frame.0[2] == e.0[2] && frame.0[3] == e.0[3] {
                    let play = e.0[0] == 2 && of_play(frame);
                    let transit = a.forward_bounds[slot];
                    let guilty = own || (e.0[4] - frame.0[1] > a.budget_ns && cause
                        == Cause::HostDecodeOrderOrSchedulingBudget) || (play && blamed_for_play(
                        a.budget_ns,
                        frame,
                        e,
                        transit,
                        cause,
                    ));
                    &&& guilty ==> blames(after, cause)
                    &&& !guilty ==> no_new_blame(a, after, cause)
                    &&& after.counts == if play {
                        plus(
                            plus(sunk, Count::GameplayOsAccepted, 1),
                            verdict(a.budget_ns, frame, e, transit),
                            1,
                        )
                    } else {
                        sunk
                    }
                } else {
                    &&& own ==> blames(after, cause)
                    &&& !own ==> no_new_blame(a, after, cause)
                    &&& after.counts == plus(sunk, Count::OutcomeWithoutReceiveEvidence, 1)
                },
                None => {
                    &&& own ==> blames(after, cause)
                    &&& !own ==> no_new_blame(a, after, cause)
                    &&& after.counts == plus(sunk, Count::OutcomeWithoutReceiveEvidence, 1)
                },
            }
        }),
{
    reveal(AnalysisView::concluded);
    let q = a.quieted(e);
    quiet_steps(a, e, cause);
    let j = q.sink_judged(e);
    sink_steps(q, e, cause);
    let own = (e.0[5] > 0 && cause == Cause::OsSinkRetry) || (e.0[0] == 8 && cause
        == Cause::OsSinkFailure) || (e.0[4] != 0 && e.0[1] - e.0[4] > a.budget_ns && cause
        == Cause::SinkSubmissionBudget);
    let awaited = q.awaited(e);
    let (s, more) = match awaited {
        Some(frame) => (
            j.frame_settled(e, frame),
            (e.0[4] - frame.0[1] > a.budget_ns && cause == Cause::HostDecodeOrderOrSchedulingBudget)
                || (e.0[0] == 2 && of_play(frame) && blamed_for_play(
                a.budget_ns,
                frame,
                e,
                a.forward_bounds[model::slot_of(e)],
                cause,
            )),
        ),
        None => (j.counted(Count::OutcomeWithoutReceiveEvidence, 1), false),
    };
    match awaited {
        Some(frame) => {
            settle_steps(j, e, frame, cause);
        },
        None => {
            aside_steps(j, s, cause);
        },
    }
    steps_join(q, j, s, cause, own, more);
    let h = q.handled(e);
    if e.0[0] == 2 {
        tail_steps(s, e, awaited, cause);
        steps_join(q, s, h, cause, own || more, false);
    }
    keep_steps(h, a.recovery_target(), e, cause);
    let after = a.observed(e);
    steps_join(q, h, after, cause, own || more, false);
    if !(own || more) {
        assert(no_new_blame(q, after, cause));
        assert forall|i: int|
            0 <= i < after.incidents.len() && (#[trigger] after.incidents[i]).causes.contains(
                cause,
            ) implies i < a.incidents.len() && a.incidents[i].causes.contains(cause) by {
            assert(q.incidents[i].causes.contains(cause));
        }
    }
}

proof fn plus_counts(counts: Seq<Option<u64>>, key: Count, n: u64, other: Count)
    requires
        counts.len() == COUNTS,
    ensures
        plus(counts, key, n).len() == COUNTS,
        other != key ==> plus(counts, key, n)[other.position()] == counts[other.position()],
        plus(counts, key, n)[key.position()] == Some(
            ((match counts[key.position()] {
                Some(m) => m,
                None => 0u64,
            }) + n) as u64,
        ),
{
}

/// That a count grows by one if, and only if, something holds.
pub open spec fn counts_if(
    before: AnalysisView,
    after: AnalysisView,
    key: Count,
    condition: bool,
) -> bool {
    after.count(key) == before.count(key) + if condition {
        1int
    } else {
        0int
    }
}

/// The verdict on an accepted frame of play goes by the bounds on its way from touch to sink:
/// it has surely missed its budget exactly if the lower bound is above it, it has kept it
/// exactly if both bounds are within, it is uncertain exactly if the budget lies between
/// them, and it cannot be measured exactly if there are no bounds. A frame that surely missed
/// its budget, and no other, has the open incident blamed on that.
pub proof fn verdicts_follow_the_bounds(a: AnalysisView, e: Event, frame: Event)
    requires
        a.wf(),
        a.bounded((u64::MAX - 1) as nat),
        e.0[0] == 2,
        a.pending[(e.0[3] % 256) as int] == Some(frame),
        frame.0[2] == e.0[2] && frame.0[3] == e.0[3],
        of_play(frame),
    ensures
        ({
            let after = a.observed(e);
            let transit = a.forward_bounds[(e.0[3] % 256) as int];
            let known = ordered(frame) && transit is Some;
            let low = least_way(frame, e, transit->0);
            let high = greatest_way(frame, e, transit->0);
            let missed = known && low > a.budget_ns;
            let unsure = known && low <= a.budget_ns < high;
            &&& counts_if(a, after, Count::GameplayOsAccepted, true)
            &&& counts_if(a, after, Count::GameplayBudgetDefiniteFail, missed)
            &&& counts_if(a, after, Count::GameplayBudgetUncertain, unsure)
            &&& counts_if(
                a,
                after,
                Count::GameplayWithinBudgetUnderClockAssumption,
                known && low <= a.budget_ns && high <= a.budget_ns,
            )
            &&& counts_if(a, after, Count::GameplayBudgetUnmeasurable, !known)
            &&& missed ==> blames(after, Cause::BoundedEventToSinkBudgetViolation)
            &&& !missed ==> no_new_blame(a, after, Cause::BoundedEventToSinkBudgetViolation)
            &&& unsure ==> blames(after, Cause::EventToSinkBudgetUncertain)
            &&& !unsure ==> no_new_blame(a, after, Cause::EventToSinkBudgetUncertain)
            &&& ordered(frame) && least_local(frame, e) > a.budget_ns ==> blames(
                after,
                Cause::EventToSinkDefiniteBudgetViolation,
            )
            &&& !(ordered(frame) && least_local(frame, e) > a.budget_ns) ==> no_new_blame(
                a,
                after,
                Cause::EventToSinkDefiniteBudgetViolation,
            )
        }),
{
    outcome_steps(a, e, Cause::BoundedEventToSinkBudgetViolation);
    outcome_steps(a, e, Cause::EventToSinkBudgetUncertain);
    outcome_steps(a, e, Cause::EventToSinkDefiniteBudgetViolation);
    assert(a.counts[Count::GameplayOsAccepted.position()] matches Some(n) ==> n < u64::MAX);
    assert(a.counts[Count::GameplayBudgetDefiniteFail.position()] matches Some(n) ==> n < u64::MAX);
    assert(a.counts[Count::GameplayBudgetUncertain.position()] matches Some(n) ==> n < u64::MAX);
    assert(a.counts[Count::GameplayBudgetUnmeasurable.position()] matches Some(n) ==> n < u64::MAX);
    assert(a.counts[Count::GameplayWithinBudgetUnderClockAssumption.position()] matches Some(n) ==> n
        < u64::MAX);
}

/// Bounds on the transit that enclose the true time under way give bounds on the whole way
/// that enclose the true time from touch to sink: `touch`, `sent` and `sink` are the true
/// times of the touch, of the sending and of the sink's answer by the host's clock, the phone's
/// clock may run a thousandth fast or slow, and it reports a touch up to a millisecond late.
pub proof fn way_encloses_the_truth(
    frame: Event,
    e: Event,
    transit: [u64; 2],
    touch: int,
    sent: int,
)
    requires
        ordered(frame),
        frame.0[1] <= e.0[1],
        transit[0] <= frame.0[1] - sent <= transit[1],
        ({
            let age = frame.0[6] - frame.0[4];
            age - age / 1000 - 1_000_000 <= sent - touch <= age + age / 1000
        }),
        touch <= sent,
        greatest_way(frame, e, transit) < u64::MAX,
    ensures
        least_way(frame, e, transit) <= e.0[1] - touch <= greatest_way(frame, e, transit),
{
}

/// What the outcome of any frame is counted as: as accepted or as failed, with its retries,
/// and as an outcome without a frame where none was awaited. Retries, failures and
/// submissions that take too long are what the open incident is blamed on, and nothing else.
pub proof fn outcomes_are_counted(a: AnalysisView, e: Event)
    requires
        a.wf(),
        a.bounded((u64::MAX - 1) as nat),
        e.0[0] == 2 || e.0[0] == 8,
        a.count(Count::SinkRetries) + e.0[5] <= u64::MAX,
    ensures
        ({
            let after = a.observed(e);
            let slot = a.pending[(e.0[3] % 256) as int];
            let frame = slot->0;
            let known = slot is Some && frame.0[2] == e.0[2] && frame.0[3] == e.0[3];
            let slow = e.0[4] != 0 && e.0[1] - e.0[4] > a.budget_ns;
            let late = known && e.0[4] - frame.0[1] > a.budget_ns;
            &&& counts_if(a, after, Count::OsAccepted, e.0[0] == 2)
            &&& counts_if(a, after, Count::OsFailed, e.0[0] == 8)
            &&& counts_if(a, after, Count::OutcomeWithoutReceiveEvidence, !known)
            &&& counts_if(
                a,
                after,
                Count::GameplayOsAccepted,
                e.0[0] == 2 && known && of_play(frame),
            )
            &&& after.count(Count::SinkRetries) == a.count(Count::SinkRetries) + e.0[5]
            &&& e.0[5] > 0 ==> blames(after, Cause::OsSinkRetry)
            &&& e.0[5] == 0 ==> no_new_blame(a, after, Cause::OsSinkRetry)
            &&& e.0[0] == 8 ==> blames(after, Cause::OsSinkFailure)
            &&& e.0[0] == 2 ==> no_new_blame(a, after, Cause::OsSinkFailure)
            &&& slow ==> blames(after, Cause::SinkSubmissionBudget)
            &&& !slow ==> no_new_blame(a, after, Cause::SinkSubmissionBudget)
            &&& late ==> blames(after, Cause::HostDecodeOrderOrSchedulingBudget)
            &&& !late ==> no_new_blame(a, after, Cause::HostDecodeOrderOrSchedulingBudget)
        }),
{
    outcome_steps(a, e, Cause::OsSinkRetry);
    outcome_steps(a, e, Cause::OsSinkFailure);
    outcome_steps(a, e, Cause::SinkSubmissionBudget);
    outcome_steps(a, e, Cause::HostDecodeOrderOrSchedulingBudget);
    assert(a.counts[Count::OsAccepted.position()] matches Some(n) ==> n < u64::MAX);
    assert(a.counts[Count::OsFailed.position()] matches Some(n) ==> n < u64::MAX);
    assert(a.counts[Count::OutcomeWithoutReceiveEvidence.position()] matches Some(n) ==> n
        < u64::MAX);
    assert(a.counts[Count::GameplayOsAccepted.position()] matches Some(n) ==> n < u64::MAX);
}

/// What a frame leaves as it was until the two clocks are looked at.
spec fn same_clocks(a: AnalysisView, b: AnalysisView) -> bool {
    &&& b.clock == a.clock
    &&& b.pending == a.pending
    &&& b.forward_bounds == a.forward_bounds
    &&& b.last_reverse_echo == a.last_reverse_echo
    &&& b.recovering == a.recovering
    &&& b.awaiting_snapshot == a.awaiting_snapshot
    &&& b.budget_ns == a.budget_ns
}

/// How much longer a frame of play took to come than it had taken to follow the one before.
pub open spec fn excess(previous: Event, e: Event) -> int {
    not_below_zero(
        not_below_zero(e.0[1] - previous.0[1]) - (e.0[4] - previous.0[4]),
    )
}

spec fn blamed_for_phone(a: AnalysisView, e: Event, cause: Cause) -> bool {
    ||| !ordered(e) && cause == Cause::AndroidTimestampOrderInvalid
    ||| e.0[4] != 0 && e.0[5] - e.0[4] > a.budget_ns && cause == Cause::AndroidDispatchBudget
    ||| e.0[5] != 0 && e.0[6] - e.0[5] > a.budget_ns && cause
        == Cause::AndroidQueueOrRepairAgeBudget
    ||| a.last_unique is Some && (a.last_unique->0).0[2] == e.0[2] && e.0[4] >= (
    a.last_unique->0).0[4] && excess(a.last_unique->0, e) > a.budget_ns && cause
        == Cause::DeliveryCadenceExcessOriginUnresolved
}

proof fn pace_steps(a: AnalysisView, e: Event, cause: Cause)
    requires
        sized(a),
    ensures
        sized(a.paced(e)),
        same_clocks(a, a.paced(e)),
        a.paced(e).counts == a.counts,
        a.paced(e).last_unique == Some(e),
        step(
            a,
            a.paced(e),
            cause,
            a.last_unique is Some && (a.last_unique->0).0[2] == e.0[2] && e.0[4] >= (
            a.last_unique->0).0[4] && excess(a.last_unique->0, e) > a.budget_ns && cause
                == Cause::DeliveryCadenceExcessOriginUnresolved,
        ),
{
    let b = a.paced(e);
    match a.last_unique {
        Some(previous) => {
            if previous.0[2] == e.0[2] && e.0[4] >= previous.0[4] {
                let gap = model::since(e.0[1], previous.0[1]);
                let over = model::since(gap, (e.0[4] - previous.0[4]) as u64);
                assert(over == excess(previous, e));
                let c = a.sampled(Measure::UniqueGameplayReceiveInterval, gap).sampled(
                    Measure::UniqueGameplayCadenceExcess,
                    over,
                );
                aside_steps(a, c, cause);
                let condition = over > a.budget_ns;
                report_steps(
                    c,
                    condition,
                    e,
                    Cause::DeliveryCadenceExcessOriginUnresolved,
                    cause,
                );
                let d = c.reported_if(
                    condition,
                    e,
                    Cause::DeliveryCadenceExcessOriginUnresolved,
                );
                let f = condition && cause == Cause::DeliveryCadenceExcessOriginUnresolved;
                steps_join(a, c, d, cause, false, f);
                aside_steps(d, b, cause);
                steps_join(a, d, b, cause, f, false);
            } else {
                aside_steps(a, b, cause);
            }
        },
        None => {
            aside_steps(a, b, cause);
        },
    }
}

proof fn phone_steps(a: AnalysisView, e: Event, cause: Cause)
    requires
        sized(a),
    ensures
        ({
            let b = a.played(e);
            &&& sized(b)
            &&& same_clocks(a, b)
            &&& b.last_unique == Some(e)
            &&& b.counts == plus(
                a.counts,
                if e.0[9] / 2 % 2 == 1 {
                    Count::HistoricalFramesObserved
                } else {
                    Count::CurrentFramesObserved
                },
                1,
            )
            &&& step(a, b, cause, blamed_for_phone(a, e, cause))
        }),
{
    reveal(AnalysisView::played);
    flags_of_events(e);
    let d = e.0;
    let c1 = d[4] == 0 || d[5] < d[4] || d[6] < d[5];
    report_steps(a, c1, e, Cause::AndroidTimestampOrderInvalid, cause);
    let a1 = a.reported_if(c1, e, Cause::AndroidTimestampOrderInvalid);
    let a2 = a1.counted(
        if e.historical() {
            Count::HistoricalFramesObserved
        } else {
            Count::CurrentFramesObserved
        },
        1,
    ).measured(
        if e.historical() {
            Measure::AndroidHistoricalDispatch
        } else {
            Measure::AndroidCurrentDispatch
        },
        d[5],
        d[4],
    );
    aside_steps(a1, a2, cause);
    let c2 = a.over_budget(d[5], d[4]);
    report_steps(a2, c2, e, Cause::AndroidDispatchBudget, cause);
    let a3 = a2.reported_if(c2, e, Cause::AndroidDispatchBudget);
    let a4 = a3.measured(Measure::AndroidCallbackToWinningAttempt, d[6], d[5]);
    aside_steps(a3, a4, cause);
    let c3 = a.over_budget(d[6], d[5]);
    report_steps(a4, c3, e, Cause::AndroidQueueOrRepairAgeBudget, cause);
    let a5 = a4.reported_if(c3, e, Cause::AndroidQueueOrRepairAgeBudget);
    assert(a5.last_unique == a.last_unique);
    pace_steps(a5, e, cause);
    let f1 = c1 && cause == Cause::AndroidTimestampOrderInvalid;
    let f2 = c2 && cause == Cause::AndroidDispatchBudget;
    let f3 = c3 && cause == Cause::AndroidQueueOrRepairAgeBudget;
    let f4 = a.last_unique is Some && (a.last_unique->0).0[2] == e.0[2] && e.0[4] >= (
    a.last_unique->0).0[4] && excess(a.last_unique->0, e) > a.budget_ns && cause
        == Cause::DeliveryCadenceExcessOriginUnresolved;
    steps_join(a, a1, a2, cause, f1, false);
    steps_join(a, a2, a3, cause, f1, f2);
    steps_join(a, a3, a4, cause, f1 || f2, false);
    steps_join(a, a4, a5, cause, f1 || f2, f3);
    steps_join(a, a5, a5.paced(e), cause, f1 || f2 || f3, f4);
}

/// The host's and the phone's times of an exchange are known and in order, and it is at most
/// two seconds old.
pub open spec fn exchanged(e: Event) -> bool {
    &&& e.0[7] != 0
    &&& e.0[8] != 0
    &&& e.0[6] >= e.0[8]
    &&& 0 <= e.0[1] - e.0[7] <= 2_000_000_000
}

/// What looking at the clocks leads to.
spec fn clocked(a: AnalysisView, e: Event, b: AnalysisView, forward: Option<[u64; 2]>) -> bool {
    let alone = model::exchange_interval(e);
    let interval = a.narrowed(e);
    let used = exchanged(e) && alone.0 <= alone.1 && interval.0 <= interval.1;
    &&& forward == if used {
        Some(model::forward_transit(e, interval))
    } else {
        None
    }
    &&& used ==> b.clock == Some((e.0[2], e.0[1], interval.0 as i128, interval.1 as i128))
}

proof fn clock_steps(a: AnalysisView, e: Event, cause: Cause)
    requires
        sized(a),
    ensures
        ({
            let (b, forward) = a.transported(e);
            let interval = a.narrowed(e);
            let alone = model::exchange_interval(e);
            let reset = exchanged(e) && alone.0 <= alone.1 && interval.0 > interval.1;
            &&& sized(b)
            &&& clocked(a, e, b, forward)
            &&& b.pending == a.pending
            &&& b.forward_bounds == a.forward_bounds
            &&& b.budget_ns == a.budget_ns
            &&& b.recovering == a.recovering
            &&& b.awaiting_snapshot == a.awaiting_snapshot
            &&& b.last_unique == a.last_unique
            &&& step(
                a,
                b,
                cause,
                (reset && cause == Cause::ClockRateAssumptionOrTimestampsInconsistent) || (
                forward matches Some(f) && ((f[0] > a.budget_ns && cause
                    == Cause::ForwardTransportOrEndpointStallBounded) || (f[0] <= a.budget_ns < f[1]
                    && cause == Cause::ForwardLatencyBudgetUncertain) || (
                model::reverse_transit(e, interval)[0] > a.budget_ns && cause
                    == Cause::ReverseControlOrEndpointStallBounded))),
            )
        }),
{
    reveal(AnalysisView::transported);
    let (b, forward) = a.transported(e);
    let alone = model::exchange_interval(e);
    let interval = a.narrowed(e);
    if !exchanged(e) || alone.0 > alone.1 {
        aside_steps(a, b, cause);
    } else {
        let residual = a.sampled(
            Measure::DuplexExchangeResidualUpper,
            (alone.1 - alone.0) as u64,
        );
        aside_steps(a, residual, cause);
        if interval.0 > interval.1 {
            let c = residual.counted(Count::ClockModelResets, 1);
            aside_steps(residual, c, cause);
            steps_join(a, residual, c, cause, false, false);
            report_steps(
                c,
                true,
                e,
                Cause::ClockRateAssumptionOrTimestampsInconsistent,
                cause,
            );
            let d = c.reported(e, Cause::ClockRateAssumptionOrTimestampsInconsistent);
            let f = cause == Cause::ClockRateAssumptionOrTimestampsInconsistent;
            steps_join(a, c, d, cause, false, f);
            aside_steps(d, b, cause);
            steps_join(a, d, b, cause, f, false);
        } else {
            let c = residual.transit_sampled(e, interval);
            aside_steps(residual, c, cause);
            steps_join(a, residual, c, cause, false, false);
            let forward = model::forward_transit(e, interval);
            let c1 = forward[0] > a.budget_ns;
            report_steps(c, c1, e, Cause::ForwardTransportOrEndpointStallBounded, cause);
            let d = c.reported_if(c1, e, Cause::ForwardTransportOrEndpointStallBounded);
            let f1 = c1 && cause == Cause::ForwardTransportOrEndpointStallBounded;
            steps_join(a, c, d, cause, false, f1);
            let c2 = !c1 && forward[1] > a.budget_ns;
            report_steps(d, c2, e, Cause::ForwardLatencyBudgetUncertain, cause);
            let f = d.reported_if(c2, e, Cause::ForwardLatencyBudgetUncertain);
            let f2 = c2 && cause == Cause::ForwardLatencyBudgetUncertain;
            steps_join(a, d, f, cause, f1, f2);
            let c3 = model::reverse_transit(e, interval)[0] > a.budget_ns;
            report_steps(f, c3, e, Cause::ReverseControlOrEndpointStallBounded, cause);
            let f3 = c3 && cause == Cause::ReverseControlOrEndpointStallBounded;
            assert(b == f.reported_if(c3, e, Cause::ReverseControlOrEndpointStallBounded));
            steps_join(a, f, b, cause, f1 || f2, f3);
        }
    }
}

spec fn blamed_for_receipt(a: AnalysisView, e: Event, forward: Option<[u64; 2]>, cause: Cause) -> bool {
    let alone = model::exchange_interval(e);
    let interval = a.narrowed(e);
    ||| of_play(e) && blamed_for_phone(a, e, cause)
    ||| exchanged(e) && alone.0 <= alone.1 && interval.0 > interval.1 && cause
        == Cause::ClockRateAssumptionOrTimestampsInconsistent
    ||| forward is Some && (forward->0)[0] > a.budget_ns && cause
        == Cause::ForwardTransportOrEndpointStallBounded
    ||| forward is Some && (forward->0)[0] <= a.budget_ns < (forward->0)[1] && cause
        == Cause::ForwardLatencyBudgetUncertain
    ||| forward is Some && model::reverse_transit(e, interval)[0] > a.budget_ns && cause
        == Cause::ReverseControlOrEndpointStallBounded
    ||| a.pending[(e.0[3] % 256) as int] is Some && cause == Cause::DiagnosticCoverageGap
}

proof fn receipt_steps(a: AnalysisView, e: Event, cause: Cause)
    requires
        a.wf(),
        e.0[0] == 1,
    ensures
        ({
            let after = a.observed(e);
            let slot = (e.0[3] % 256) as int;
            let forward = after.forward_bounds[slot];
            &&& after.pending == a.pending.update(slot, Some(e))
            &&& after.forward_bounds == a.forward_bounds.update(slot, forward)
            &&& after.forward_bounds.len() == 256
            &&& clocked(a, e, after, forward)
            &&& after.last_unique == if of_play(e) {
                Some(e)
            } else {
                a.last_unique
            }
            &&& blamed_for_receipt(a, e, forward, cause) ==> blames(after, cause)
            &&& !blamed_for_receipt(a, e, forward, cause) ==> no_new_blame(a, after, cause)
        }),
{
    reveal(AnalysisView::received);
    flags_of_events(e);
    let slot = (e.0[3] % 256) as int;
    let q = a.quieted(e);
    quiet_steps(a, e, cause);
    let o = q.counted(Count::UniqueLogicalFramesObserved, 1);
    let o = if e.heartbeat() {
        o.counted(Count::UniqueHeartbeats, 1)
    } else {
        o
    };
    aside_steps(q, o, cause);
    let p = if e.gameplay() {
        o.played(e)
    } else {
        o
    };
    let f1 = of_play(e) && blamed_for_phone(a, e, cause);
    if e.gameplay() {
        phone_steps(o, e, cause);
    } else {
        aside_steps(o, p, cause);
    }
    steps_join(q, o, p, cause, false, f1);
    clock_steps(p, e, cause);
    let (m, forward) = p.transported(e);
    assert(p.narrowed(e) == a.narrowed(e));
    let interval = a.narrowed(e);
    let alone = model::exchange_interval(e);
    let f2 = (exchanged(e) && alone.0 <= alone.1 && interval.0 > interval.1 && cause
        == Cause::ClockRateAssumptionOrTimestampsInconsistent) || (forward matches Some(f) && ((
    f[0] > a.budget_ns && cause == Cause::ForwardTransportOrEndpointStallBounded) || (f[0]
        <= a.budget_ns < f[1] && cause == Cause::ForwardLatencyBudgetUncertain) || (
    model::reverse_transit(e, interval)[0] > a.budget_ns && cause
        == Cause::ReverseControlOrEndpointStallBounded)));
    steps_join(q, p, m, cause, f1, f2);
    let counted = m.counted(Count::DiagnosticPendingCollision, 1);
    let c = if m.pending[slot] is Some {
        counted.reported(e, Cause::DiagnosticCoverageGap)
    } else {
        m
    };
    let f3 = a.pending[slot] is Some && cause == Cause::DiagnosticCoverageGap;
    if m.pending[slot] is Some {
        aside_steps(m, counted, cause);
        steps_join(q, m, counted, cause, f1 || f2, false);
        report_steps(counted, true, e, Cause::DiagnosticCoverageGap, cause);
        steps_join(q, counted, c, cause, f1 || f2, f3);
    }
    let h = q.handled(e);
    aside_steps(c, h, cause);
    steps_join(q, c, h, cause, f1 || f2 || f3, false);
    keep_steps(h, a.recovery_target(), e, cause);
    let after = a.observed(e);
    steps_join(q, h, after, cause, f1 || f2 || f3, false);
    if !(f1 || f2 || f3) {
        assert forall|i: int|
            0 <= i < after.incidents.len() && (#[trigger] after.incidents[i]).causes.contains(
                cause,
            ) implies i < a.incidents.len() && a.incidents[i].causes.contains(cause) by {
            assert(q.incidents[i].causes.contains(cause));
        }
    }
}

/// The host's clock minus the phone's at each host time, which drifts by no more than a
/// thousandth of the time that passes, and a nanosecond.
pub open spec fn steady(offset: spec_fn(int) -> int) -> bool {
    forall|s: int, t: int|
        s <= t ==> -((t - s) / 1000 + 1) <= #[trigger] offset(t) - #[trigger] offset(s) <= (t - s)
            / 1000 + 1
}

/// What is known of the clocks is true.
pub open spec fn knows(a: AnalysisView, offset: spec_fn(int) -> int) -> bool {
    a.clock matches Some((session, at, low, high)) ==> low <= offset(at as int) <= high
}

/// What is learned of the clocks stays true, and so do the bounds on the transit: whatever
/// the true offset of the clocks is, if a frame's times are true then a usable exchange gives
/// bounds that enclose how long the frame was under way, and they are no wider than the round
/// trip without the phone's part and the drift. `there` and `back` are the host times at which
/// the phone received the host's message and sent the frame.
pub proof fn transit_bounds_are_true(
    a: AnalysisView,
    e: Event,
    offset: spec_fn(int) -> int,
    there: int,
    back: int,
)
    requires
        a.wf(),
        e.0[0] == 1,
        exchanged(e),
        steady(offset),
        knows(a, offset),
        a.clock matches Some((session, at, low, high)) ==> at <= e.0[1],
        e.0[7] <= there <= back <= e.0[1],
        e.0[8] == there - offset(there),
        e.0[6] == back - offset(back),
        e.0[1] - e.0[6] - offset(e.0[1] as int) >= 0,
    ensures
        ({
            let after = a.observed(e);
            let transit = after.forward_bounds[(e.0[3] % 256) as int];
            let span = e.0[1] - e.0[7];
            &&& knows(after, offset)
            &&& after.clock is Some
            &&& transit is Some
            &&& (transit->0)[0] <= e.0[1] - e.0[6] - offset(e.0[1] as int) <= (transit->0)[1]
            &&& (transit->0)[1] - (transit->0)[0] <= span - (e.0[6] - e.0[8]) + 2 * (span / 1000
                + 1)
        }),
{
    receipt_steps(a, e, Cause::OsSinkRetry);
    let now = offset(e.0[1] as int);
    let t1 = e.0[1] as int;
    assert(-((t1 - there) / 1000 + 1) <= offset(t1) - offset(there) <= (t1 - there) / 1000 + 1);
    assert(-((t1 - back) / 1000 + 1) <= offset(t1) - offset(back) <= (t1 - back) / 1000 + 1);
    laws::exchange_holds_true_offset(e, offset(there), offset(back), now);
    if let Some((session, at, low, high)) = a.clock {
        let then = at as int;
        assert(-((t1 - then) / 1000 + 1) <= offset(t1) - offset(then) <= (t1 - then) / 1000 + 1);
    }
    let interval = a.narrowed(e);
    assert(interval.0 <= now <= interval.1);
    let alone = model::exchange_interval(e);
    assert(alone.0 <= interval.0 && interval.1 <= alone.1);
    assert(interval.0 as i128 == interval.0 && interval.1 as i128 == interval.1);
}

/// A frame that comes in is remembered under its number until its outcome is known, in place
/// of whatever waited there, and no other frame is disturbed.
pub proof fn received_frame_is_awaited(a: AnalysisView, e: Event)
    requires
        a.wf(),
        e.0[0] == 1,
    ensures
        a.observed(e).pending[(e.0[3] % 256) as int] == Some(e),
        forall|i: int|
            0 <= i < 256 && i != e.0[3] % 256 ==> #[trigger] a.observed(e).pending[i]
                == a.pending[i],
        forall|i: int|
            0 <= i < 256 && i != e.0[3] % 256 ==> #[trigger] a.observed(e).forward_bounds[i]
                == a.forward_bounds[i],
        !exchanged(e) ==> a.observed(e).forward_bounds[(e.0[3] % 256) as int] is None,
{
    receipt_steps(a, e, Cause::OsSinkRetry);
}

/// What a frame that comes in has the open incident blamed on: phone times out of order, a
/// slow dispatch or a long queue on the phone, a rhythm that lags by more than the sender's
/// own, a transit that surely or maybe took longer than the budget, and a frame that waited in
/// the same place; each exactly if it is so.
pub proof fn receipts_are_judged(a: AnalysisView, e: Event)
    requires
        a.wf(),
        e.0[0] == 1,
    ensures
        ({
            let after = a.observed(e);
            let slot = (e.0[3] % 256) as int;
            let b = after.forward_bounds[slot];
            let play = of_play(e);
            let last = a.last_unique->0;
            let disorder = play && !ordered(e);
            let dispatch = play && e.0[4] != 0 && e.0[5] - e.0[4] > a.budget_ns;
            let queue = play && e.0[5] != 0 && e.0[6] - e.0[5] > a.budget_ns;
            let lag = play && a.last_unique is Some && last.0[2] == e.0[2] && e.0[4] >= last.0[4]
                && excess(last, e) > a.budget_ns;
            let stalled = b is Some && (b->0)[0] > a.budget_ns;
            let unsure = b is Some && (b->0)[0] <= a.budget_ns < (b->0)[1];
            &&& disorder ==> blames(after, Cause::AndroidTimestampOrderInvalid)
            &&& !disorder ==> no_new_blame(a, after, Cause::AndroidTimestampOrderInvalid)
            &&& dispatch ==> blames(after, Cause::AndroidDispatchBudget)
            &&& !dispatch ==> no_new_blame(a, after, Cause::AndroidDispatchBudget)
            &&& queue ==> blames(after, Cause::AndroidQueueOrRepairAgeBudget)
            &&& !queue ==> no_new_blame(a, after, Cause::AndroidQueueOrRepairAgeBudget)
            &&& lag ==> blames(after, Cause::DeliveryCadenceExcessOriginUnresolved)
            &&& !lag ==> no_new_blame(a, after, Cause::DeliveryCadenceExcessOriginUnresolved)
            &&& stalled ==> blames(after, Cause::ForwardTransportOrEndpointStallBounded)
            &&& !stalled ==> no_new_blame(a, after, Cause::ForwardTransportOrEndpointStallBounded)
            &&& unsure ==> blames(after, Cause::ForwardLatencyBudgetUncertain)
            &&& !unsure ==> no_new_blame(a, after, Cause::ForwardLatencyBudgetUncertain)
            &&& a.pending[slot] is Some ==> blames(after, Cause::DiagnosticCoverageGap)
            &&& a.pending[slot] is None ==> no_new_blame(a, after, Cause::DiagnosticCoverageGap)
        }),
{
    receipt_steps(a, e, Cause::AndroidTimestampOrderInvalid);
    receipt_steps(a, e, Cause::AndroidDispatchBudget);
    receipt_steps(a, e, Cause::AndroidQueueOrRepairAgeBudget);
    receipt_steps(a, e, Cause::DeliveryCadenceExcessOriginUnresolved);
    receipt_steps(a, e, Cause::ForwardTransportOrEndpointStallBounded);
    receipt_steps(a, e, Cause::ForwardLatencyBudgetUncertain);
    receipt_steps(a, e, Cause::DiagnosticCoverageGap);
}

/// The control message that a frame echoes was surely slow, or was not, by what is known of
/// the clocks once the frame was looked at.
pub proof fn reverse_way_is_judged(a: AnalysisView, e: Event)
    requires
        a.wf(),
        e.0[0] == 1,
        a.observed(e).forward_bounds[(e.0[3] % 256) as int] is Some,
    ensures
        ({
            let after = a.observed(e);
            let slow = match after.clock {
                Some((session, at, low, high)) => e.0[8] - e.0[7] + low > a.budget_ns,
                None => false,
            };
            &&& after.clock matches Some((session, at, low, high)) && session == e.0[2] && at
                == e.0[1]
            &&& slow ==> blames(after, Cause::ReverseControlOrEndpointStallBounded)
            &&& !slow ==> no_new_blame(a, after, Cause::ReverseControlOrEndpointStallBounded)
        }),
{
    receipt_steps(a, e, Cause::ReverseControlOrEndpointStallBounded);
    let interval = a.narrowed(e);
    let alone = model::exchange_interval(e);
    assert(alone.0 <= interval.0 && interval.1 <= alone.1);
    assert(interval.0 as i128 == interval.0 && interval.1 as i128 == interval.1);
}

proof fn plain_steps(
    a: AnalysisView,
    e: Event,
    h: AnalysisView,
    cause: Cause,
    guilty: bool,
)
    requires
        a.wf(),
        h == a.quieted(e).handled(e),
        sized(h),
        step(a.quieted(e), h, cause, guilty),
    ensures
        a.observed(e).counts == h.counts,
        guilty ==> blames(a.observed(e), cause),
        !guilty ==> no_new_blame(a, a.observed(e), cause),
{
    let q = a.quieted(e);
    quiet_steps(a, e, cause);
    keep_steps(h, a.recovery_target(), e, cause);
    let after = a.observed(e);
    steps_join(q, h, after, cause, guilty, false);
    if !guilty {
        assert forall|i: int|
            0 <= i < after.incidents.len() && (#[trigger] after.incidents[i]).causes.contains(
                cause,
            ) implies i < a.incidents.len() && a.incidents[i].causes.contains(cause) by {
            assert(q.incidents[i].causes.contains(cause));
        }
    }
}

/// A step of counting, then of at most two reports.
proof fn two_reports(
    a: AnalysisView,
    e: Event,
    b: AnalysisView,
    first: bool,
    one: Cause,
    second: bool,
    two: Cause,
    cause: Cause,
)
    requires
        a.wf(),
        aside(a.quieted(e), b),
        sized(b),
        b.gap == a.gap,
        a.quieted(e).handled(e) == b.reported_if(first, e, one).reported_if(second, e, two),
    ensures
        a.observed(e).counts == b.counts,
        (first && cause == one) || (second && cause == two) ==> blames(a.observed(e), cause),
        !((first && cause == one) || (second && cause == two)) ==> no_new_blame(
            a,
            a.observed(e),
            cause,
        ),
{
    let q = a.quieted(e);
    quiet_steps(a, e, cause);
    aside_steps(q, b, cause);
    let c = b.reported_if(first, e, one);
    report_steps(b, first, e, one, cause);
    let h = c.reported_if(second, e, two);
    report_steps(c, second, e, two, cause);
    steps_join(q, b, c, cause, false, first && cause == one);
    steps_join(q, c, h, cause, first && cause == one, second && cause == two);
    plain_steps(a, e, h, cause, (first && cause == one) || (second && cause == two));
}

/// Acknowledgements, releases, stalls, refusals at the door and rejections each have a count
/// of their own, which grows by one, and no other count changes with them; they have the open
/// incident blamed on what went wrong, and on nothing else.
pub proof fn plain_events_are_counted(a: AnalysisView, e: Event, key: Count, cause: Cause)
    requires
        a.wf(),
        a.bounded((u64::MAX - 1) as nat),
        e.0[0] == 6 || e.0[0] == 9 || e.0[0] == 11 || e.0[0] == 12 || e.0[0] == 4,
        key != Count::SinkRetries,
    ensures
        ({
            let after = a.observed(e);
            let slow = e.0[4] > a.budget_ns;
            let guilty = match cause {
                Cause::HostAckSendFailure => e.0[0] == 6 && e.0[6] != 0,
                Cause::HostAckSubmissionBudget => e.0[0] == 6 && slow,
                Cause::IngressDiscardNotGameplayLossProof => e.0[0] == 9,
                Cause::OsReleaseFailure => e.0[0] == 11 && e.0[5] != 0,
                Cause::OsReleaseBudget => e.0[0] == 11 && slow,
                Cause::WatchdogOrInterfaceBoundary => e.0[0] == 12,
                Cause::ProtocolFrameRejected => e.0[0] == 4,
                _ => false,
            };
            &&& counts_if(
                a,
                after,
                key,
                match key {
                    Count::AckProgressSubmissions => e.0[0] == 6 && e.0[5] != 0,
                    Count::AckRepeatSubmissions => e.0[0] == 6 && e.0[5] == 0,
                    Count::IngressWrongPeerOrInterface => e.0[0] == 9 && e.0[4] == 1,
                    Count::AeadPacketReplay => e.0[0] == 9 && e.0[4] == 2,
                    Count::BadTag => e.0[0] == 9 && e.0[4] == 3,
                    Count::MalformedOrWrongConnection => e.0[0] == 9 && (e.0[4] < 1 || e.0[4] > 3),
                    Count::ReleaseAttempts => e.0[0] == 11,
                    Count::WatchdogOrInterfaceFailures => e.0[0] == 12,
                    Count::ProtocolRejected => e.0[0] == 4,
                    _ => false,
                },
            )
            &&& guilty ==> blames(after, cause)
            &&& !guilty ==> no_new_blame(a, after, cause)
        }),
{
    let q = a.quieted(e);
    quiet_steps(a, e, cause);
    assert(a.counts[key.position()] matches Some(n) ==> n < u64::MAX);
    let d = e.0;
    if d[0] == 6 {
        let own = if d[5] != 0 {
            Count::AckProgressSubmissions
        } else {
            Count::AckRepeatSubmissions
        };
        let b = q.counted(own, 1).sampled(Measure::HostAckSubmission, d[4]);
        two_reports(
            a,
            e,
            b,
            d[6] != 0,
            Cause::HostAckSendFailure,
            d[4] > a.budget_ns,
            Cause::HostAckSubmissionBudget,
            cause,
        );
        plus_counts(a.counts, own, 1, key);
    } else if d[0] == 9 {
        let own = if d[4] == 1 {
            Count::IngressWrongPeerOrInterface
        } else if d[4] == 2 {
            Count::AeadPacketReplay
        } else if d[4] == 3 {
            Count::BadTag
        } else {
            Count::MalformedOrWrongConnection
        };
        let b = q.counted(own, 1);
        two_reports(
            a,
            e,
            b,
            true,
            Cause::IngressDiscardNotGameplayLossProof,
            false,
            Cause::OsSinkRetry,
            cause,
        );
        plus_counts(a.counts, own, 1, key);
    } else if d[0] == 11 {
        let b = q.counted(Count::ReleaseAttempts, 1);
        two_reports(
            a,
            e,
            b,
            d[5] != 0,
            Cause::OsReleaseFailure,
            d[4] > a.budget_ns,
            Cause::OsReleaseBudget,
            cause,
        );
        plus_counts(a.counts, Count::ReleaseAttempts, 1, key);
    } else if d[0] == 12 {
        let b = q.counted(Count::WatchdogOrInterfaceFailures, 1);
        two_reports(
            a,
            e,
            b,
            true,
            Cause::WatchdogOrInterfaceBoundary,
            false,
            Cause::OsSinkRetry,
            cause,
        );
        plus_counts(a.counts, Count::WatchdogOrInterfaceFailures, 1, key);
    } else {
        let b = AnalysisView {
            pending: if q.awaited(e) is Some {
                q.pending.update(model::slot_of(e), None)
            } else {
                q.pending
            },
            ..q.counted(Count::ProtocolRejected, 1)
        };
        two_reports(
            a,
            e,
            b,
            true,
            Cause::ProtocolFrameRejected,
            false,
            Cause::OsSinkRetry,
            cause,
        );
        plus_counts(a.counts, Count::ProtocolRejected, 1, key);
    }
}

/// A frame past the one that is expected counts as one from the future, and opens a hole in
/// the order unless that hole is known; the incident is blamed on the hole.
pub proof fn holes_are_counted(a: AnalysisView, e: Event)
    requires
        a.wf(),
        a.bounded((u64::MAX - 1) as nat),
        e.0[0] == 3,
    ensures
        ({
            let after = a.observed(e);
            let known = match a.gap {
                Some((session, missing, start, through)) => session == e.0[2] && missing == e.0[4],
                None => false,
            };
            &&& counts_if(a, after, Count::FutureUniqueFrames, true)
            &&& counts_if(a, after, Count::OrderingHoles, !known)
            &&& blames(after, Cause::ProtocolOrderingHoleLossOrReorder)
            &&& after.gap matches Some((session, missing, start, through)) && session == e.0[2]
                && missing == e.0[4] && through >= e.0[3] && (known || start == e.0[1])
        }),
{
    let cause = Cause::ProtocolOrderingHoleLossOrReorder;
    let q = a.quieted(e);
    quiet_steps(a, e, cause);
    assert(a.counts[Count::FutureUniqueFrames.position()] matches Some(n) ==> n < u64::MAX);
    assert(a.counts[Count::OrderingHoles.position()] matches Some(n) ==> n < u64::MAX);
    let h = q.handled(e);
    let known = match a.gap {
        Some((session, missing, start, through)) => session == e.0[2] && missing == e.0[4],
        None => false,
    };
    let b = AnalysisView {
        gap: h.gap,
        ..if known {
            q.counted(Count::FutureUniqueFrames, 1)
        } else {
            q.counted(Count::FutureUniqueFrames, 1).counted(Count::OrderingHoles, 1)
        }
    };
    aside_steps(q, b, cause);
    report_steps(b, true, e, cause, cause);
    assert(h == b.reported(e, cause));
    steps_join(q, b, h, cause, false, true);
    plain_steps(a, e, h, cause, true);
    keep_steps(h, a.recovery_target(), e, cause);
}

/// What one event adds to a series of samples.
pub enum Sample {
    Nothing,
    Time(int),
    /// Times that are unknown or out of order.
    Invalid,
}

/// The time from `earlier` to `later`, where both are known and in order.
pub open spec fn between(earlier: u64, later: u64) -> Sample {
    if earlier != 0 && earlier <= later {
        Sample::Time(later - earlier)
    } else {
        Sample::Invalid
    }
}

/// A series takes a sample in, or not.
pub open spec fn takes(
    before: AnalysisView,
    after: AnalysisView,
    measure: Measure,
    sample: Sample,
) -> bool {
    match sample {
        Sample::Nothing => after.series_of(measure) == before.series_of(measure),
        Sample::Time(ns) => 0 <= ns <= 0xffff_ffff_ffff_ffff && after.series_of(measure)
            == before.series_of(measure).push(ns as u64, before.budget_ns),
        Sample::Invalid => after.series_of(measure) == before.series_of(measure).reject(),
    }
}

proof fn sink_series(a: AnalysisView, e: Event, m: Measure)
    requires
        sized(a),
    ensures
        takes(
            a,
            a.sink_judged(e),
            m,
            if m == Measure::SinkAttemptsIncludingPlanning {
                between(e.0[4], e.0[1])
            } else {
                Sample::Nothing
            },
        ),
{
    reveal(AnalysisView::sink_judged);
    let d = e.0;
    let a1 = a.counted(
        if d[0] == 2 {
            Count::OsAccepted
        } else {
            Count::OsFailed
        },
        1,
    ).counted(Count::SinkRetries, d[5]);
    let cause = Cause::OsSinkRetry;
    report_steps(a1, d[5] > 0, e, Cause::OsSinkRetry, cause);
    let a2 = a1.reported_if(d[5] > 0, e, Cause::OsSinkRetry);
    report_steps(a2, d[0] == 8, e, Cause::OsSinkFailure, cause);
    let a3 = a2.reported_if(d[0] == 8, e, Cause::OsSinkFailure);
    let a4 = a3.measured(Measure::SinkAttemptsIncludingPlanning, d[1], d[4]);
    report_steps(a4, a.over_budget(d[1], d[4]), e, Cause::SinkSubmissionBudget, cause);
    assert(a3.series == a.series && a3.budget_ns == a.budget_ns);
}

proof fn way_series(
    a: AnalysisView,
    e: Event,
    frame: Event,
    transit: Option<[u64; 2]>,
    m: Measure,
)
    requires
        sized(a),
        ordered(frame),
    ensures
        ({
            let b = a.way_judged(e, frame, model::since(e.0[1], frame.0[1]), transit);
            let past = frame.0[9] / 2 % 2 == 1;
            takes(
                a,
                b,
                m,
                if transit is None {
                    Sample::Nothing
                } else if m == Measure::HistoricalEventToSinkLower && past || m
                    == Measure::CurrentEventToSinkLower && !past {
                    Sample::Time(least_way(frame, e, transit->0))
                } else if m == Measure::HistoricalEventToSinkUpper && past || m
                    == Measure::CurrentEventToSinkUpper && !past {
                    Sample::Time(greatest_way(frame, e, transit->0))
                } else {
                    Sample::Nothing
                },
            )
        }),
{
    flags_of_events(frame);
    if let Some(transit) = transit {
        ways_agree(frame, e, transit);
        let bounds = model::full_bounds(frame, model::since(e.0[1], frame.0[1]), transit);
        let sampled = a.sampled(
            if frame.historical() {
                Measure::HistoricalEventToSinkLower
            } else {
                Measure::CurrentEventToSinkLower
            },
            bounds[0],
        ).sampled(
            if frame.historical() {
                Measure::HistoricalEventToSinkUpper
            } else {
                Measure::CurrentEventToSinkUpper
            },
            bounds[1],
        );
        let missed = sampled.counted(Count::GameplayBudgetDefiniteFail, 1);
        report_steps(
            missed,
            true,
            e,
            Cause::BoundedEventToSinkBudgetViolation,
            Cause::OsSinkRetry,
        );
        let unsure = sampled.counted(Count::GameplayBudgetUncertain, 1);
        report_steps(unsure, true, e, Cause::EventToSinkBudgetUncertain, Cause::OsSinkRetry);
        assert(a.way_judged(e, frame, model::since(e.0[1], frame.0[1]), Some(transit)).series
            == sampled.series);
    }
}

proof fn play_series(a: AnalysisView, e: Event, frame: Event, m: Measure)
    requires
        sized(a),
        ordered(frame),
    ensures
        ({
            let past = frame.0[9] / 2 % 2 == 1;
            let transit = a.forward_bounds[(e.0[3] % 256) as int];
            takes(
                a,
                a.play_accepted(e, frame, model::since(e.0[1], frame.0[1])),
                m,
                if m == Measure::HistoricalEventToSinkLocalLowerBound && past || m
                    == Measure::CurrentEventToSinkLocalLowerBound && !past {
                    Sample::Time(least_local(frame, e))
                } else if transit is None {
                    Sample::Nothing
                } else if m == Measure::HistoricalEventToSinkLower && past || m
                    == Measure::CurrentEventToSinkLower && !past {
                    Sample::Time(least_way(frame, e, transit->0))
                } else if m == Measure::HistoricalEventToSinkUpper && past || m
                    == Measure::CurrentEventToSinkUpper && !past {
                    Sample::Time(greatest_way(frame, e, transit->0))
                } else {
                    Sample::Nothing
                },
            )
        }),
{
    flags_of_events(frame);
    let service = model::since(e.0[1], frame.0[1]);
    let c = a.counted(Count::GameplayOsAccepted, 1);
    ways_agree(frame, e, [0u64, 0u64]);
    let lower = model::local_lower_bound(frame, service);
    let d = c.sampled(
        if frame.historical() {
            Measure::HistoricalEventToSinkLocalLowerBound
        } else {
            Measure::CurrentEventToSinkLocalLowerBound
        },
        lower,
    );
    let over = lower > a.budget_ns;
    report_steps(d, over, e, Cause::EventToSinkDefiniteBudgetViolation, Cause::OsSinkRetry);
    let f = d.reported_if(over, e, Cause::EventToSinkDefiniteBudgetViolation);
    way_series(f, e, frame, a.forward_bounds[(e.0[3] % 256) as int], m);
    assert(f.series == d.series);
}

proof fn host_series(a: AnalysisView, e: Event, frame: Event, m: Measure) -> (b: AnalysisView)
    requires
        sized(a),
        e.0[0] == 2,
        of_play(frame),
    ensures
        sized(b),
        b.forward_bounds == a.forward_bounds,
        b.budget_ns == a.budget_ns,
        a.frame_settled(e, frame) == b.play_accepted(e, frame, model::since(e.0[1], frame.0[1])),
        takes(
            a,
            b,
            m,
            if m == Measure::HostReceiveToReady {
                between(frame.0[1], e.0[4])
            } else if m == Measure::HostReceiveToSinkOutcome {
                Sample::Time(not_below_zero(e.0[1] - frame.0[1]))
            } else {
                Sample::Nothing
            },
        ),
{
    reveal(AnalysisView::frame_settled);
    flags_of_events(frame);
    let service = model::since(e.0[1], frame.0[1]);
    let b = a.measured(Measure::HostReceiveToReady, e.0[4], frame.0[1]).sampled(
        Measure::HostReceiveToSinkOutcome,
        service,
    );
    let late = model::since(e.0[4], frame.0[1]) > a.budget_ns;
    report_steps(
        b,
        late,
        e,
        Cause::HostDecodeOrderOrSchedulingBudget,
        Cause::OsSinkRetry,
    );
    let timed = b.reported_if(late, e, Cause::HostDecodeOrderOrSchedulingBudget);
    AnalysisView { pending: timed.pending.update(model::slot_of(e), None), ..timed }
}

proof fn tail_series(a: AnalysisView, e: Event, awaited: Option<Event>, m: Measure)
    requires
        sized(a),
    ensures
        takes(
            a,
            AnalysisView {
                last_commit: Some(e),
                ..a.recovered(e).snapshot_seen(e, awaited).hole_filled(e).settled(e)
            },
            m,
            if m != Measure::OrderingHoleUntilCommit {
                Sample::Nothing
            } else {
                match a.gap {
                    Some((session, missing, start, through)) => if session == e.0[2] && e.0[3]
                        >= through {
                        Sample::Time(not_below_zero(e.0[1] - start))
                    } else {
                        Sample::Nothing
                    },
                    None => Sample::Nothing,
                }
            },
        ),
{
    let b = a.recovered(e).snapshot_seen(e, awaited);
    assert(b.series == a.series && b.gap == a.gap && b.budget_ns == a.budget_ns);
}

/// The times of an accepted frame of play whose own times are in order: how long it took to
/// be ready, to the sink's answer and in the sink, and the bounds on its whole way, apart for
/// frames from history. Nothing else is measured, but for a hole in the order that ends.
pub proof fn accepted_play_is_measured(a: AnalysisView, e: Event, frame: Event, m: Measure)
    requires
        a.wf(),
        e.0[0] == 2,
        a.pending[(e.0[3] % 256) as int] == Some(frame),
        frame.0[2] == e.0[2] && frame.0[3] == e.0[3],
        of_play(frame),
        ordered(frame),
    ensures
        ({
            let past = frame.0[9] / 2 % 2 == 1;
            let transit = a.forward_bounds[(e.0[3] % 256) as int];
            takes(
                a,
                a.observed(e),
                m,
                match m {
                    Measure::SinkAttemptsIncludingPlanning => between(e.0[4], e.0[1]),
                    Measure::HostReceiveToReady => between(frame.0[1], e.0[4]),
                    Measure::HostReceiveToSinkOutcome => Sample::Time(
                        not_below_zero(e.0[1] - frame.0[1]),
                    ),
                    Measure::HistoricalEventToSinkLocalLowerBound => if past {
                        Sample::Time(least_local(frame, e))
                    } else {
                        Sample::Nothing
                    },
                    Measure::CurrentEventToSinkLocalLowerBound => if !past {
                        Sample::Time(least_local(frame, e))
                    } else {
                        Sample::Nothing
                    },
                    Measure::HistoricalEventToSinkLower => if past && transit is Some {
                        Sample::Time(least_way(frame, e, transit->0))
                    } else {
                        Sample::Nothing
                    },
                    Measure::CurrentEventToSinkLower => if !past && transit is Some {
                        Sample::Time(least_way(frame, e, transit->0))
                    } else {
                        Sample::Nothing
                    },
                    Measure::HistoricalEventToSinkUpper => if past && transit is Some {
                        Sample::Time(greatest_way(frame, e, transit->0))
                    } else {
                        Sample::Nothing
                    },
                    Measure::CurrentEventToSinkUpper => if !past && transit is Some {
                        Sample::Time(greatest_way(frame, e, transit->0))
                    } else {
                        Sample::Nothing
                    },
                    Measure::OrderingHoleUntilCommit => match a.gap {
                        Some((session, missing, start, through)) => if session == e.0[2] && e.0[3]
                            >= through {
                            Sample::Time(not_below_zero(e.0[1] - start))
                        } else {
                            Sample::Nothing
                        },
                        None => Sample::Nothing,
                    },
                    _ => Sample::Nothing,
                },
            )
        }),
{
    reveal(AnalysisView::concluded);
    let cause = Cause::OsSinkRetry;
    let q = a.quieted(e);
    quiet_steps(a, e, cause);
    let j = q.sink_judged(e);
    sink_steps(q, e, cause);
    sink_series(q, e, m);
    let b = host_series(j, e, frame, m);
    play_series(b, e, frame, m);
    settle_steps(j, e, frame, cause);
    let g = j.frame_settled(e, frame);
    let awaited = q.awaited(e);
    assert(awaited == Some(frame));
    tail_series(g, e, awaited, m);
    tail_steps(g, e, awaited, cause);
    let h = q.handled(e);
    keep_steps(h, a.recovery_target(), e, cause);
    assert(a.observed(e).series == h.series);
}

/// How long an acknowledgement took to send is measured for each that is sent, and nothing
/// else is.
pub proof fn acknowledgements_are_measured(a: AnalysisView, e: Event, m: Measure)
    requires
        a.wf(),
        e.0[0] == 6,
    ensures
        takes(
            a,
            a.observed(e),
            m,
            if m == Measure::HostAckSubmission {
                Sample::Time(e.0[4] as int)
            } else {
                Sample::Nothing
            },
        ),
{
    let q = a.quieted(e);
    let cause = Cause::OsSinkRetry;
    quiet_steps(a, e, cause);
    let b = q.counted(
        if e.0[5] != 0 {
            Count::AckProgressSubmissions
        } else {
            Count::AckRepeatSubmissions
        },
        1,
    ).sampled(Measure::HostAckSubmission, e.0[4]);
    report_steps(b, e.0[6] != 0, e, Cause::HostAckSendFailure, cause);
    let c = b.reported_if(e.0[6] != 0, e, Cause::HostAckSendFailure);
    report_steps(c, e.0[4] > a.budget_ns, e, Cause::HostAckSubmissionBudget, cause);
    let h = q.handled(e);
    assert(h.series == b.series);
    keep_steps(h, a.recovery_target(), e, cause);
}

/// The time that bounds give a received frame under way is what its series take in: those of
/// play apart from the others, and only where there are bounds.
pub proof fn transit_is_measured(a: AnalysisView, e: Event, m: Measure)
    requires
        a.wf(),
        e.0[0] == 1,
        m == Measure::ForwardTransitLowerBound || m == Measure::ForwardTransitUpperBound || m
            == Measure::ControlFrameForwardLower || m == Measure::ControlFrameForwardUpper,
    ensures
        ({
            let after = a.observed(e);
            let b = after.forward_bounds[(e.0[3] % 256) as int];
            let play = of_play(e);
            takes(
                a,
                after,
                m,
                if b is None {
                    Sample::Nothing
                } else if m == Measure::ForwardTransitLowerBound && play || m
                    == Measure::ControlFrameForwardLower && !play {
                    Sample::Time((b->0)[0] as int)
                } else if m == Measure::ForwardTransitUpperBound && play || m
                    == Measure::ControlFrameForwardUpper && !play {
                    Sample::Time((b->0)[1] as int)
                } else {
                    Sample::Nothing
                },
            )
        }),
{
    reveal(AnalysisView::received);
    flags_of_events(e);
    let cause = Cause::OsSinkRetry;
    receipt_steps(a, e, cause);
    let q = a.quieted(e);
    quiet_steps(a, e, cause);
    let o = q.counted(Count::UniqueLogicalFramesObserved, 1);
    let o = if e.heartbeat() {
        o.counted(Count::UniqueHeartbeats, 1)
    } else {
        o
    };
    let p = if e.gameplay() {
        o.played(e)
    } else {
        o
    };
    if e.gameplay() {
        phone_series(o, e, m);
        phone_steps(o, e, cause);
    }
    clock_steps(p, e, cause);
    clock_series(p, e, m);
    let (x, forward) = p.transported(e);
    let counted = x.counted(Count::DiagnosticPendingCollision, 1);
    report_steps(counted, true, e, Cause::DiagnosticCoverageGap, cause);
    let h = q.handled(e);
    assert(h.series == x.series);
    keep_steps(h, a.recovery_target(), e, cause);
    assert(p.narrowed(e) == a.narrowed(e));
}

proof fn phone_series(a: AnalysisView, e: Event, m: Measure)
    requires
        sized(a),
        m == Measure::ForwardTransitLowerBound || m == Measure::ForwardTransitUpperBound || m
            == Measure::ControlFrameForwardLower || m == Measure::ControlFrameForwardUpper,
    ensures
        a.played(e).series_of(m) == a.series_of(m),
{
    reveal(AnalysisView::played);
    let cause = Cause::OsSinkRetry;
    let d = e.0;
    let c1 = d[4] == 0 || d[5] < d[4] || d[6] < d[5];
    report_steps(a, c1, e, Cause::AndroidTimestampOrderInvalid, cause);
    let a1 = a.reported_if(c1, e, Cause::AndroidTimestampOrderInvalid);
    let a2 = a1.counted(
        if e.historical() {
            Count::HistoricalFramesObserved
        } else {
            Count::CurrentFramesObserved
        },
        1,
    ).measured(
        if e.historical() {
            Measure::AndroidHistoricalDispatch
        } else {
            Measure::AndroidCurrentDispatch
        },
        d[5],
        d[4],
    );
    let c2 = a.over_budget(d[5], d[4]);
    report_steps(a2, c2, e, Cause::AndroidDispatchBudget, cause);
    let a3 = a2.reported_if(c2, e, Cause::AndroidDispatchBudget);
    let a4 = a3.measured(Measure::AndroidCallbackToWinningAttempt, d[6], d[5]);
    let c3 = a.over_budget(d[6], d[5]);
    report_steps(a4, c3, e, Cause::AndroidQueueOrRepairAgeBudget, cause);
    let a5 = a4.reported_if(c3, e, Cause::AndroidQueueOrRepairAgeBudget);
    assert(a5.series_of(m) == a.series_of(m));
    pace_series(a5, e, m);
}

proof fn pace_series(a: AnalysisView, e: Event, m: Measure)
    requires
        sized(a),
        m != Measure::UniqueGameplayReceiveInterval,
        m != Measure::UniqueGameplayCadenceExcess,
    ensures
        a.paced(e).series_of(m) == a.series_of(m),
{
    let d = e.0;
    if let Some(previous) = a.last_unique {
        let gap = model::since(d[1], previous.0[1]);
        let spaced = a.sampled(Measure::UniqueGameplayReceiveInterval, gap);
        if d[4] >= previous.0[4] {
            let over = model::since(gap, (d[4] - previous.0[4]) as u64);
            let c = spaced.sampled(Measure::UniqueGameplayCadenceExcess, over);
            report_steps(
                c,
                over > a.budget_ns,
                e,
                Cause::DeliveryCadenceExcessOriginUnresolved,
                Cause::OsSinkRetry,
            );
        }
    }
}

proof fn clock_series(a: AnalysisView, e: Event, m: Measure)
    requires
        sized(a),
        m == Measure::ForwardTransitLowerBound || m == Measure::ForwardTransitUpperBound || m
            == Measure::ControlFrameForwardLower || m == Measure::ControlFrameForwardUpper,
    ensures
        ({
            let (b, forward) = a.transported(e);
            let play = of_play(e);
            takes(
                a,
                b,
                m,
                if forward is None {
                    Sample::Nothing
                } else if m == Measure::ForwardTransitLowerBound && play || m
                    == Measure::ControlFrameForwardLower && !play {
                    Sample::Time((forward->0)[0] as int)
                } else if m == Measure::ForwardTransitUpperBound && play || m
                    == Measure::ControlFrameForwardUpper && !play {
                    Sample::Time((forward->0)[1] as int)
                } else {
                    Sample::Nothing
                },
            )
        }),
{
    reveal(AnalysisView::transported);
    flags_of_events(e);
    let cause = Cause::OsSinkRetry;
    let (b, forward) = a.transported(e);
    let alone = model::exchange_interval(e);
    let interval = a.narrowed(e);
    if exchanged(e) && alone.0 <= alone.1 {
        let residual = a.sampled(
            Measure::DuplexExchangeResidualUpper,
            (alone.1 - alone.0) as u64,
        );
        if interval.0 > interval.1 {
            let c = residual.counted(Count::ClockModelResets, 1);
            report_steps(
                c,
                true,
                e,
                Cause::ClockRateAssumptionOrTimestampsInconsistent,
                cause,
            );
        } else {
            let c = residual.transit_sampled(e, interval);
            let f = model::forward_transit(e, interval);
            let c1 = f[0] > a.budget_ns;
            report_steps(c, c1, e, Cause::ForwardTransportOrEndpointStallBounded, cause);
            let d = c.reported_if(c1, e, Cause::ForwardTransportOrEndpointStallBounded);
            let c2 = !c1 && f[1] > a.budget_ns;
            report_steps(d, c2, e, Cause::ForwardLatencyBudgetUncertain, cause);
            let g = d.reported_if(c2, e, Cause::ForwardLatencyBudgetUncertain);
            let c3 = model::reverse_transit(e, interval)[0] > a.budget_ns;
            report_steps(g, c3, e, Cause::ReverseControlOrEndpointStallBounded, cause);
            assert(b.series == c.series);
        }
    }
}

} // verus!
