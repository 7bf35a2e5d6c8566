//! What an incident is: when it begins and ends, what it holds, and how it recovers.
use crate::diagnostics::event::Event;
use crate::diagnostics::keys::{Cause, Count, Measure, COUNTS};
use crate::diagnostics::model::{AnalysisView, IncidentView};
use vstd::prelude::*;

verus! {

/// An anomaly joins the incident that is open: it takes the cause, the time and the frame of
/// the anomaly, is no longer recovered, and counts one more frame unless the anomaly before
/// was of the same one. No other incident changes.
pub proof fn anomalies_join_the_open_incident(
    a: AnalysisView,
    e: Event,
    cause: Cause,
    index: usize,
    other: int,
)
    requires
        a.active == Some(index),
        index < a.incidents.len(),
        a.incidents[index as int].affected_frames < u64::MAX,
    ensures
        ({
            let before = a.incidents[index as int];
            let after = a.reported(e, cause).incidents[index as int];
            &&& a.reported(e, cause).active == Some(index)
            &&& a.reported(e, cause).incidents.len() == a.incidents.len()
            &&& 0 <= other < a.incidents.len() && other != index ==> a.reported(
                e,
                cause,
            ).incidents[other] == a.incidents[other]
            &&& after.causes == before.causes.insert(cause)
            &&& after.last_anomaly_ns == e.0[1]
            &&& after.started_ns == before.started_ns
            &&& after.recovery_ns is None
            &&& after.first_frame == before.first_frame
            &&& after.last_frame == [e.0[2], e.0[3]]
            &&& after.affected_frames - before.affected_frames == if a.last_bad_frame == Some(
                [e.0[2], e.0[3]],
            ) {
                0int
            } else {
                1
            }
            &&& after.evidence == before.evidence
        }),
{
}

/// An anomaly without an open incident opens the next one, which begins with it and with the
/// events before it as evidence; at most 256 are kept, and those beyond are counted.
pub proof fn anomalies_open_an_incident(a: AnalysisView, e: Event, cause: Cause)
    requires
        a.active is None,
        a.incidents.len() <= 256,
        a.incidents_omitted < u64::MAX,
        a.last_bad_frame is None,
    ensures
        ({
            let after = a.reported(e, cause);
            let incident = after.incidents.last();
            &&& a.incidents.len() == 256 ==> after.incidents == a.incidents && after.active is None
                && after.incidents_omitted == a.incidents_omitted + 1
            &&& a.incidents.len() < 256 ==> {
                &&& after.incidents.drop_last() == a.incidents
                &&& after.active == Some(a.incidents.len() as usize)
                &&& after.incidents_omitted == a.incidents_omitted
                &&& incident.id == a.incidents.len() + 1
                &&& incident.started_ns == e.0[1] && incident.last_anomaly_ns == e.0[1]
                &&& incident.causes == set![cause]
                &&& incident.affected_frames == 1
                &&& incident.first_frame == [e.0[2], e.0[3]] && incident.last_frame == [
                    e.0[2],
                    e.0[3],
                ]
                &&& incident.evidence == a.history
                &&& incident.evidence_omitted == 0
                &&& incident.pre_context_truncated == (a.history.len() == 128)
                &&& !incident.post_context_complete
                &&& incident.recovery_ns is None && incident.fresh_session_commit_ns is None
                    && incident.reconstructed_snapshot_ns is None
            }
        }),
{
    let after = a.reported(e, cause);
    if a.incidents.len() < 256 {
        assert(after.incidents.drop_last() =~= a.incidents);
        assert(after.incidents.last().causes =~= set![cause]);
    }
}

/// The frame of an anomaly is among those of its incident, once and for all; session zero and
/// the highest sequence name none. At most 512 are kept, and those beyond are counted.
pub proof fn affected_frames_are_kept(incident: IncidentView, e: Event, other: [u64; 2])
    requires
        incident.affected_frame_keys.len() <= 512,
        incident.affected_keys_omitted < u64::MAX,
    ensures
        ({
            let after = incident.keyed(e);
            let key = [e.0[2], e.0[3]];
            let named = e.0[2] != 0 && e.0[3] != 0xffff_ffff_ffff_ffff;
            let known = incident.affected_frame_keys.contains(key);
            let full = incident.affected_frame_keys.len() == 512;
            &&& named && !full ==> after.affected_frame_keys.contains(key)
            &&& !named || full ==> after.affected_frame_keys == incident.affected_frame_keys
            &&& other != key ==> after.affected_frame_keys.contains(other)
                == incident.affected_frame_keys.contains(other)
            &&& after.affected_keys_omitted - incident.affected_keys_omitted == if named && full
                && !known {
                1int
            } else {
                0
            }
        }),
{
}

/// An incident ends with the first event that is more than 32 milliseconds after its last
/// anomaly, unless a hole in the order is open; then its context is complete. The time of an
/// analysis never goes back.
pub proof fn quiet_ends_an_incident(a: AnalysisView, e: Event, index: usize)
    requires
        a.active == Some(index),
        index < a.incidents.len(),
    ensures
        ({
            let after = a.quieted(e);
            let incident = a.incidents[index as int];
            let quiet = a.gap is None && e.0[1] > incident.last_anomaly_ns + 32_000_000;
            &&& quiet ==> after.active is None && after.last_bad_frame is None
                && after.incidents[index as int] == (IncidentView {
                post_context_complete: true,
                ..incident
            })
            &&& !quiet ==> after.active == a.active && after.incidents == a.incidents
                && after.last_bad_frame == a.last_bad_frame
            &&& after.incidents.len() == a.incidents.len()
            &&& after.last_event_ns >= a.last_event_ns && after.last_event_ns >= e.0[1] && (
            after.last_event_ns == a.last_event_ns || after.last_event_ns == e.0[1])
        }),
{
}

/// Every event is evidence of the open incident: the first 512 are kept, in order, and those
/// beyond are counted.
pub proof fn events_are_evidence(a: AnalysisView, e: Event, index: usize, other: int)
    requires
        a.active == Some(index),
        index < a.incidents.len(),
        a.incidents[index as int].evidence.len() <= 512,
        a.incidents[index as int].evidence_omitted < u64::MAX,
    ensures
        ({
            let before = a.incidents[index as int];
            let after = a.retained(e).incidents[index as int];
            &&& after.last_evidence_ns == e.0[1]
            &&& before.evidence.len() < 512 ==> after.evidence == before.evidence.push(e)
                && after.evidence_omitted == before.evidence_omitted
            &&& before.evidence.len() == 512 ==> after.evidence == before.evidence
                && after.evidence_omitted == before.evidence_omitted + 1
            &&& after.causes == before.causes && after.last_anomaly_ns == before.last_anomaly_ns
            &&& 0 <= other < a.incidents.len() && other != index ==> a.retained(
                e,
            ).incidents[other] == a.incidents[other]
        }),
{
}

/// Events that belong to the recovery of an incident are evidence of it, once, also when
/// another incident or none is open by then.
pub proof fn recovery_is_evidence(a: AnalysisView, e: Event, index: usize)
    requires
        index < a.incidents.len(),
        a.incidents[index as int].evidence.len() < 512,
    ensures
        a.active != Some(index) ==> a.linked(Some(index), e).incidents[index as int].evidence
            == a.incidents[index as int].evidence.push(e),
        a.active == Some(index) ==> a.linked(Some(index), e) == a,
        a.linked(None, e) == a,
        a.recovering is Some ==> a.recovery_target() == a.recovering,
        a.recovering is None ==> a.recovery_target() == a.awaiting_snapshot,
{
}

/// The last 128 events are remembered, in order.
pub proof fn last_events_are_remembered(a: AnalysisView, e: Event, back: int)
    requires
        a.history.len() <= 128,
    ensures
        ({
            let after = a.remembered(e).history;
            &&& after.len() == if a.history.len() < 128 {
                a.history.len() + 1
            } else {
                128
            }
            &&& after.last() == e
            &&& 0 < back < after.len() ==> after[after.len() - 1 - back]
                == a.history[a.history.len() - back]
        }),
{
}

/// The first commit after a failed session is when its incident recovered, and from then on
/// its contacts are awaited.
pub proof fn first_commit_ends_the_recovery(a: AnalysisView, e: Event, index: usize)
    requires
        a.recovering == Some(index),
        index < a.incidents.len(),
    ensures
        ({
            let before = a.incidents[index as int];
            let after = a.recovered(e);
            let incident = after.incidents[index as int];
            &&& after.recovering is None
            &&& after.awaiting_snapshot == Some(index)
            &&& incident.fresh_session_commit_ns == Some(e.0[1])
            &&& e.0[1] >= before.started_ns ==> incident.recovery_ns == Some(
                (e.0[1] - before.started_ns) as u64,
            )
            &&& e.0[1] < before.started_ns ==> incident.recovery_ns == Some(0u64)
            &&& incident.causes == before.causes && incident.started_ns == before.started_ns
        }),
{
}

/// The first committed frame that is play or a heartbeat shows the contacts of the session;
/// one that only starts it does not.
pub proof fn first_contacts_end_the_wait(a: AnalysisView, e: Event, frame: Event, index: usize)
    requires
        a.awaiting_snapshot == Some(index),
        index < a.incidents.len(),
    ensures
        ({
            let after = a.snapshot_seen(e, Some(frame));
            let shows = frame.0[9] % 2 == 1 || frame.0[9] / 4 % 2 == 1;
            &&& shows ==> after.awaiting_snapshot is None
                && after.incidents[index as int].reconstructed_snapshot_ns == Some(e.0[1])
            &&& !shows ==> after == a
            &&& a.snapshot_seen(e, None) == a
        }),
{
    let flags = frame.0[9];
    assert((flags & 5 != 0) == (flags % 2 == 1 || flags / 4 % 2 == 1)) by (bit_vector);
}

/// A commit past everything that was seen beyond a hole fills it, in its own session only,
/// and the time since the hole was found is a sample.
pub proof fn holes_are_filled(
    a: AnalysisView,
    e: Event,
    session: u64,
    missing: u64,
    start: u64,
    through: u64,
)
    requires
        a.wf(),
        a.gap == Some((session, missing, start, through)),
        start <= e.0[1],
    ensures
        ({
            let after = a.hole_filled(e);
            let filled = e.0[2] == session && e.0[3] >= through;
            &&& (after.gap is None) == filled
            &&& !filled ==> after == a
            &&& filled ==> after.series_of(Measure::OrderingHoleUntilCommit) == a.series_of(
                Measure::OrderingHoleUntilCommit,
            ).push((e.0[1] - start) as u64, a.budget_ns)
        }),
{
}

/// An open incident has recovered once there is no hole and no frame awaits its outcome; a
/// recovery that is known already is kept.
pub proof fn incidents_recover(a: AnalysisView, e: Event, index: usize, slot: int)
    requires
        a.active == Some(index),
        index < a.incidents.len(),
    ensures
        ({
            let before = a.incidents[index as int];
            let after = a.settled(e).incidents[index as int];
            &&& before.recovery_ns is Some ==> after == before
            &&& a.gap is Some ==> after == before
            &&& 0 <= slot < a.pending.len() && a.pending[slot] is Some ==> after == before
            &&& before.recovery_ns is None && a.gap is None && (forall|i: int|
                0 <= i < a.pending.len() ==> #[trigger] a.pending[i] is None) ==> after.recovery_ns
                == Some(
                if e.0[1] < before.started_ns {
                    0u64
                } else {
                    (e.0[1] - before.started_ns) as u64
                },
            )
        }),
{
    if 0 <= slot < a.pending.len() && a.pending[slot] is Some {
        assert(!a.nothing_pending());
    }
}

/// How many of the first slots hold a frame.
pub open spec fn frames_in(pending: Seq<Option<Event>>, slots: nat) -> nat
    decreases slots,
{
    if slots == 0 {
        0
    } else if pending[slots - 1] is Some {
        frames_in(pending, (slots - 1) as nat) + 1
    } else {
        frames_in(pending, (slots - 1) as nat)
    }
}

/// Giving up frames empties their slots and no other, and counts every one of them.
pub proof fn given_up_frames_are_counted(a: AnalysisView, slots: nat, at: u64)
    requires
        slots <= a.pending.len(),
        a.counts.len() == COUNTS,
        a.count(Count::ObservedUncommittedAtBoundary) + slots <= u64::MAX,
    ensures
        ({
            let after = a.discarded(slots, at);
            &&& after.pending.len() == a.pending.len()
            &&& after.counts.len() == COUNTS
            &&& forall|i: int| 0 <= i < slots ==> #[trigger] after.pending[i] is None
            &&& forall|i: int|
                slots <= i < a.pending.len() ==> #[trigger] after.pending[i] == a.pending[i]
            &&& after.count(Count::ObservedUncommittedAtBoundary) == a.count(
                Count::ObservedUncommittedAtBoundary,
            ) + frames_in(a.pending, slots)
        }),
        frames_in(a.pending, slots) <= slots,
    decreases slots,
{
    if slots > 0 {
        given_up_frames_are_counted(a, (slots - 1) as nat, at);
        let before = a.discarded((slots - 1) as nat, at);
        assert(before.pending[slots - 1] == a.pending[slots - 1]);
        if let Some(frame) = before.pending[slots - 1] {
            let key = Count::ObservedUncommittedAtBoundary.position();
            let other = Count::GameplayUncommittedAtBoundary.position();
            assert(key != other);
            let cleared = AnalysisView {
                pending: before.pending.update(slots - 1, None),
                ..before
            }.counted(Count::ObservedUncommittedAtBoundary, 1);
            let counted = if frame.gameplay() {
                cleared.counted(Count::GameplayUncommittedAtBoundary, 1)
            } else {
                cleared
            };
            let after = before.slot_discarded(slots - 1, at);
            assert(after.counts == counted.counts);
            assert(after.pending == counted.pending);
            assert(counted.counts[key] == cleared.counts[key]);
        }
    }
}

/// A new connection starts afresh: nothing is awaited, no hole is open, the clocks and the
/// rhythm are unknown, and it is counted.
pub proof fn connections_start_afresh(a: AnalysisView, e: Event)
    requires
        a.wf(),
        a.count(Count::ObservedUncommittedAtBoundary) <= u64::MAX - 1024,
    ensures
        ({
            let after = a.began(e);
            &&& after.nothing_pending()
            &&& after.gap is None && after.clock is None && after.last_unique is None
                && after.last_commit is None
            &&& after.count(Count::ObservedUncommittedAtBoundary) == a.count(
                Count::ObservedUncommittedAtBoundary,
            ) + frames_in(a.pending, a.pending.len())
        }),
{
    given_up_frames_are_counted(a, a.pending.len(), e.0[1]);
    let given_up = a.discarded(a.pending.len(), e.0[1]);
    assert(Count::Connections.position() != Count::ObservedUncommittedAtBoundary.position());
    assert forall|i: int| 0 <= i < a.began(e).pending.len() implies #[trigger] a.began(
        e,
    ).pending[i] is None by {
        assert(given_up.pending[i] is None);
    }
}

/// The end of a session leaves nothing awaited and no hole open. Only one that failed is an
/// anomaly, and the incident that it belongs to is then the one to recover.
pub proof fn sessions_end(a: AnalysisView, e: Event)
    requires
        a.wf(),
        a.count(Count::ObservedUncommittedAtBoundary) <= u64::MAX - 1024,
    ensures
        ({
            let after = a.bounded_off(e);
            &&& after.nothing_pending()
            &&& after.gap is None && after.last_unique is None
            &&& e.0[4] == 0 ==> after.recovering == a.recovering
            &&& e.0[4] != 0 ==> after.recovering == a.reported(
                e,
                Cause::SessionFailureBoundary,
            ).active
        }),
{
    let failed = if e.0[4] != 0 {
        let reported = a.counted(Count::FailedBoundaries, 1).reported(
            e,
            Cause::SessionFailureBoundary,
        );
        AnalysisView { recovering: reported.active, ..reported }
    } else {
        a
    };
    assert(Count::FailedBoundaries.position() != Count::ObservedUncommittedAtBoundary.position());
    assert(failed.pending == a.pending);
    assert(failed.count(Count::ObservedUncommittedAtBoundary) == a.count(
        Count::ObservedUncommittedAtBoundary,
    ));
    given_up_frames_are_counted(failed, failed.pending.len(), e.0[1]);
    let given_up = failed.discarded(failed.pending.len(), e.0[1]);
    recovery_stays(failed, failed.pending.len(), e.0[1]);
    assert forall|i: int| 0 <= i < a.bounded_off(e).pending.len() implies #[trigger] a.bounded_off(
        e,
    ).pending[i] is None by {
        assert(given_up.pending[i] is None);
    }
}

proof fn recovery_stays(a: AnalysisView, slots: nat, at: u64)
    ensures
        a.discarded(slots, at).recovering == a.recovering,
    decreases slots,
{
    if slots > 0 {
        recovery_stays(a, (slots - 1) as nat, at);
    }
}

/// A frame that is given up is reported as it was received, at the time when it was given up.
pub proof fn given_up_frames_are_reported(frame: Event, at: u64, field: int)
    requires
        2 <= field < 12,
    ensures
        AnalysisView::abandoned(frame, at).0[0] == 4,
        AnalysisView::abandoned(frame, at).0[1] == at,
        AnalysisView::abandoned(frame, at).0[field] == frame.0[field],
{
}

/// At its end an analysis gives up what it still awaits, and says how many records it never
/// saw; those are an anomaly only where there are any.
pub proof fn analysis_ends(a: AnalysisView, dropped: u64)
    requires
        a.wf(),
        a.count(Count::ObservedUncommittedAtBoundary) <= u64::MAX - 1024,
    ensures
        ({
            let after = a.finished(dropped);
            &&& after.nothing_pending()
            &&& after.records_dropped == dropped
            &&& after.count(Count::ObservedUncommittedAtBoundary) == a.count(
                Count::ObservedUncommittedAtBoundary,
            ) + frames_in(a.pending, a.pending.len())
            &&& dropped == 0 && frames_in(a.pending, a.pending.len()) == 0 ==> after.incidents
                == a.incidents && after.incidents_omitted == a.incidents_omitted
        }),
{
    let counted = AnalysisView { records_dropped: dropped, ..a };
    assert(counted.count(Count::ObservedUncommittedAtBoundary) == a.count(
        Count::ObservedUncommittedAtBoundary,
    ));
    given_up_frames_are_counted(counted, counted.pending.len(), a.last_event_ns);
    drops_stay(counted, counted.pending.len(), a.last_event_ns);
    let given_up = counted.discarded(counted.pending.len(), a.last_event_ns);
    assert forall|i: int| 0 <= i < a.finished(dropped).pending.len() implies #[trigger] a.finished(
        dropped,
    ).pending[i] is None by {
        assert(given_up.pending[i] is None);
    }
}

proof fn drops_stay(a: AnalysisView, slots: nat, at: u64)
    requires
        slots <= a.pending.len(),
        a.counts.len() == COUNTS,
        a.count(Count::ObservedUncommittedAtBoundary) + slots <= u64::MAX,
    ensures
        a.discarded(slots, at).records_dropped == a.records_dropped,
        frames_in(a.pending, slots) == 0 ==> a.discarded(slots, at) == a,
    decreases slots,
{
    if slots > 0 {
        drops_stay(a, (slots - 1) as nat, at);
        given_up_frames_are_counted(a, (slots - 1) as nat, at);
        assert(a.discarded((slots - 1) as nat, at).pending[slots - 1] == a.pending[slots - 1]);
    }
}

/// The greater of two numbers.
pub open spec fn greater(a: int, b: int) -> int {
    if a < b {
        b
    } else {
        a
    }
}

/// What an exchange tells of the clocks: the host clock is ahead of the phone clock by no less
/// than from the host's sending to the phone's receiving, and by no more than from the phone's
/// sending to the host's receiving, each with a thousandth of the exchange to spare. What an
/// exchange of the same session told within the last second still counts, with a thousandth
/// of the time since then to spare; an older one does not, nor one of another session.
pub proof fn exchanges_narrow_the_clock(
    a: AnalysisView,
    e: Event,
    session: u64,
    at: u64,
    low: i128,
    high: i128,
)
    requires
        e.0[7] <= e.0[1],
        a.clock == Some((session, at, low, high)),
        at <= e.0[1],
    ensures
        ({
            let spare = (e.0[1] - e.0[7]) / 1000 + 1;
            let least = e.0[7] - e.0[8] - spare;
            let most = e.0[1] - e.0[6] + spare;
            let worn = (e.0[1] - at) / 1000 + 1;
            let counts = session == e.0[2] && e.0[1] - at <= 1_000_000_000;
            a.narrowed(e) == if counts {
                (greater(least, low - worn), -greater(-most, -(high + worn)))
            } else {
                (least, most)
            }
        }),
{
}

/// A control message counts once for the way back: its echo is new in another session, or
/// where it was sent after the last one that was counted.
pub proof fn echoes_count_once(a: AnalysisView, e: Event, session: u64, sent: u64)
    ensures
        a.last_reverse_echo is None ==> a.echo_is_new(e),
        a.last_reverse_echo == Some((session, sent)) ==> a.echo_is_new(e) == (session != e.0[2]
            || sent < e.0[7]),
{
}

} // verus!
