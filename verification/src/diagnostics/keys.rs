//! The names under which an analysis counts, measures and explains.
//!
//! Each list is in the alphabetical order of the names, which is the order of the
//! report.
use vstd::prelude::*;

verus! {

pub const COUNTS: usize = 35;

/// What is counted.
#[derive(Clone, Copy, Debug, PartialEq, Eq, Structural)]
pub enum Count {
    AckProgressSubmissions,
    AckRepeatSubmissions,
    AeadPacketReplay,
    BadTag,
    ClockExchangeInvalid,
    ClockExchangeMissingOrInvalid,
    ClockExchangeStale,
    ClockModelResets,
    Connections,
    CurrentFramesObserved,
    DiagnosticPendingCollision,
    FailedBoundaries,
    FutureUniqueFrames,
    GameplayBudgetDefiniteFail,
    GameplayBudgetUncertain,
    GameplayBudgetUnmeasurable,
    GameplayOsAccepted,
    GameplayUncommittedAtBoundary,
    GameplayWithinBudgetUnderClockAssumption,
    HistoricalFramesObserved,
    IngressWrongPeerOrInterface,
    LogicalDuplicateDatagrams,
    MalformedOrWrongConnection,
    ObservedUncommittedAtBoundary,
    OrderingHoles,
    OsAccepted,
    OsFailed,
    OutcomeWithoutReceiveEvidence,
    ProtocolRejected,
    ReleaseAttempts,
    ReusedControlEchoExcludedFromReverseDistribution,
    SinkRetries,
    UniqueHeartbeats,
    UniqueLogicalFramesObserved,
    WatchdogOrInterfaceFailures,
}

impl Count {
    /// The place of the name in the list.
    pub open spec fn position(self) -> int {
        match self {
            Count::AckProgressSubmissions => 0,
            Count::AckRepeatSubmissions => 1,
            Count::AeadPacketReplay => 2,
            Count::BadTag => 3,
            Count::ClockExchangeInvalid => 4,
            Count::ClockExchangeMissingOrInvalid => 5,
            Count::ClockExchangeStale => 6,
            Count::ClockModelResets => 7,
            Count::Connections => 8,
            Count::CurrentFramesObserved => 9,
            Count::DiagnosticPendingCollision => 10,
            Count::FailedBoundaries => 11,
            Count::FutureUniqueFrames => 12,
            Count::GameplayBudgetDefiniteFail => 13,
            Count::GameplayBudgetUncertain => 14,
            Count::GameplayBudgetUnmeasurable => 15,
            Count::GameplayOsAccepted => 16,
            Count::GameplayUncommittedAtBoundary => 17,
            Count::GameplayWithinBudgetUnderClockAssumption => 18,
            Count::HistoricalFramesObserved => 19,
            Count::IngressWrongPeerOrInterface => 20,
            Count::LogicalDuplicateDatagrams => 21,
            Count::MalformedOrWrongConnection => 22,
            Count::ObservedUncommittedAtBoundary => 23,
            Count::OrderingHoles => 24,
            Count::OsAccepted => 25,
            Count::OsFailed => 26,
            Count::OutcomeWithoutReceiveEvidence => 27,
            Count::ProtocolRejected => 28,
            Count::ReleaseAttempts => 29,
            Count::ReusedControlEchoExcludedFromReverseDistribution => 30,
            Count::SinkRetries => 31,
            Count::UniqueHeartbeats => 32,
            Count::UniqueLogicalFramesObserved => 33,
            Count::WatchdogOrInterfaceFailures => 34,
        }
    }

    /// The name as a report spells it.
    pub open spec fn spelling(self) -> Seq<char> {
        match self {
            Count::AckProgressSubmissions => "ack_progress_submissions"@,
            Count::AckRepeatSubmissions => "ack_repeat_submissions"@,
            Count::AeadPacketReplay => "aead_packet_replay"@,
            Count::BadTag => "bad_tag"@,
            Count::ClockExchangeInvalid => "clock_exchange_invalid"@,
            Count::ClockExchangeMissingOrInvalid => "clock_exchange_missing_or_invalid"@,
            Count::ClockExchangeStale => "clock_exchange_stale"@,
            Count::ClockModelResets => "clock_model_resets"@,
            Count::Connections => "connections"@,
            Count::CurrentFramesObserved => "current_frames_observed"@,
            Count::DiagnosticPendingCollision => "diagnostic_pending_collision"@,
            Count::FailedBoundaries => "failed_boundaries"@,
            Count::FutureUniqueFrames => "future_unique_frames"@,
            Count::GameplayBudgetDefiniteFail => "gameplay_budget_definite_fail"@,
            Count::GameplayBudgetUncertain => "gameplay_budget_uncertain"@,
            Count::GameplayBudgetUnmeasurable => "gameplay_budget_unmeasurable"@,
            Count::GameplayOsAccepted => "gameplay_os_accepted"@,
            Count::GameplayUncommittedAtBoundary => "gameplay_uncommitted_at_boundary"@,
            Count::GameplayWithinBudgetUnderClockAssumption => "gameplay_within_budget_under_clock_assumption"@,
            Count::HistoricalFramesObserved => "historical_frames_observed"@,
            Count::IngressWrongPeerOrInterface => "ingress_wrong_peer_or_interface"@,
            Count::LogicalDuplicateDatagrams => "logical_duplicate_datagrams"@,
            Count::MalformedOrWrongConnection => "malformed_or_wrong_connection"@,
            Count::ObservedUncommittedAtBoundary => "observed_uncommitted_at_boundary"@,
            Count::OrderingHoles => "ordering_holes"@,
            Count::OsAccepted => "os_accepted"@,
            Count::OsFailed => "os_failed"@,
            Count::OutcomeWithoutReceiveEvidence => "outcome_without_receive_evidence"@,
            Count::ProtocolRejected => "protocol_rejected"@,
            Count::ReleaseAttempts => "release_attempts"@,
            Count::ReusedControlEchoExcludedFromReverseDistribution => "reused_control_echo_excluded_from_reverse_distribution"@,
            Count::SinkRetries => "sink_retries"@,
            Count::UniqueHeartbeats => "unique_heartbeats"@,
            Count::UniqueLogicalFramesObserved => "unique_logical_frames_observed"@,
            Count::WatchdogOrInterfaceFailures => "watchdog_or_interface_failures"@,
        }
    }

    pub fn index(self) -> (index: usize)
        ensures
            index == self.position(),
            index < COUNTS,
    {
        match self {
            Count::AckProgressSubmissions => 0,
            Count::AckRepeatSubmissions => 1,
            Count::AeadPacketReplay => 2,
            Count::BadTag => 3,
            Count::ClockExchangeInvalid => 4,
            Count::ClockExchangeMissingOrInvalid => 5,
            Count::ClockExchangeStale => 6,
            Count::ClockModelResets => 7,
            Count::Connections => 8,
            Count::CurrentFramesObserved => 9,
            Count::DiagnosticPendingCollision => 10,
            Count::FailedBoundaries => 11,
            Count::FutureUniqueFrames => 12,
            Count::GameplayBudgetDefiniteFail => 13,
            Count::GameplayBudgetUncertain => 14,
            Count::GameplayBudgetUnmeasurable => 15,
            Count::GameplayOsAccepted => 16,
            Count::GameplayUncommittedAtBoundary => 17,
            Count::GameplayWithinBudgetUnderClockAssumption => 18,
            Count::HistoricalFramesObserved => 19,
            Count::IngressWrongPeerOrInterface => 20,
            Count::LogicalDuplicateDatagrams => 21,
            Count::MalformedOrWrongConnection => 22,
            Count::ObservedUncommittedAtBoundary => 23,
            Count::OrderingHoles => 24,
            Count::OsAccepted => 25,
            Count::OsFailed => 26,
            Count::OutcomeWithoutReceiveEvidence => 27,
            Count::ProtocolRejected => 28,
            Count::ReleaseAttempts => 29,
            Count::ReusedControlEchoExcludedFromReverseDistribution => 30,
            Count::SinkRetries => 31,
            Count::UniqueHeartbeats => 32,
            Count::UniqueLogicalFramesObserved => 33,
            Count::WatchdogOrInterfaceFailures => 34,
        }
    }

    pub fn name(self) -> (name: &'static str)
        ensures
            name@ == self.spelling(),
    {
        match self {
            Count::AckProgressSubmissions => "ack_progress_submissions",
            Count::AckRepeatSubmissions => "ack_repeat_submissions",
            Count::AeadPacketReplay => "aead_packet_replay",
            Count::BadTag => "bad_tag",
            Count::ClockExchangeInvalid => "clock_exchange_invalid",
            Count::ClockExchangeMissingOrInvalid => "clock_exchange_missing_or_invalid",
            Count::ClockExchangeStale => "clock_exchange_stale",
            Count::ClockModelResets => "clock_model_resets",
            Count::Connections => "connections",
            Count::CurrentFramesObserved => "current_frames_observed",
            Count::DiagnosticPendingCollision => "diagnostic_pending_collision",
            Count::FailedBoundaries => "failed_boundaries",
            Count::FutureUniqueFrames => "future_unique_frames",
            Count::GameplayBudgetDefiniteFail => "gameplay_budget_definite_fail",
            Count::GameplayBudgetUncertain => "gameplay_budget_uncertain",
            Count::GameplayBudgetUnmeasurable => "gameplay_budget_unmeasurable",
            Count::GameplayOsAccepted => "gameplay_os_accepted",
            Count::GameplayUncommittedAtBoundary => "gameplay_uncommitted_at_boundary",
            Count::GameplayWithinBudgetUnderClockAssumption => "gameplay_within_budget_under_clock_assumption",
            Count::HistoricalFramesObserved => "historical_frames_observed",
            Count::IngressWrongPeerOrInterface => "ingress_wrong_peer_or_interface",
            Count::LogicalDuplicateDatagrams => "logical_duplicate_datagrams",
            Count::MalformedOrWrongConnection => "malformed_or_wrong_connection",
            Count::ObservedUncommittedAtBoundary => "observed_uncommitted_at_boundary",
            Count::OrderingHoles => "ordering_holes",
            Count::OsAccepted => "os_accepted",
            Count::OsFailed => "os_failed",
            Count::OutcomeWithoutReceiveEvidence => "outcome_without_receive_evidence",
            Count::ProtocolRejected => "protocol_rejected",
            Count::ReleaseAttempts => "release_attempts",
            Count::ReusedControlEchoExcludedFromReverseDistribution => "reused_control_echo_excluded_from_reverse_distribution",
            Count::SinkRetries => "sink_retries",
            Count::UniqueHeartbeats => "unique_heartbeats",
            Count::UniqueLogicalFramesObserved => "unique_logical_frames_observed",
            Count::WatchdogOrInterfaceFailures => "watchdog_or_interface_failures",
        }
    }

    /// The name at a place in the list.
    pub fn at(index: usize) -> (key: Option<Count>)
        ensures
            index < COUNTS <==> key is Some,
            key matches Some(found) ==> found.position() == index,
    {
        match index {
            0 => Some(Count::AckProgressSubmissions),
            1 => Some(Count::AckRepeatSubmissions),
            2 => Some(Count::AeadPacketReplay),
            3 => Some(Count::BadTag),
            4 => Some(Count::ClockExchangeInvalid),
            5 => Some(Count::ClockExchangeMissingOrInvalid),
            6 => Some(Count::ClockExchangeStale),
            7 => Some(Count::ClockModelResets),
            8 => Some(Count::Connections),
            9 => Some(Count::CurrentFramesObserved),
            10 => Some(Count::DiagnosticPendingCollision),
            11 => Some(Count::FailedBoundaries),
            12 => Some(Count::FutureUniqueFrames),
            13 => Some(Count::GameplayBudgetDefiniteFail),
            14 => Some(Count::GameplayBudgetUncertain),
            15 => Some(Count::GameplayBudgetUnmeasurable),
            16 => Some(Count::GameplayOsAccepted),
            17 => Some(Count::GameplayUncommittedAtBoundary),
            18 => Some(Count::GameplayWithinBudgetUnderClockAssumption),
            19 => Some(Count::HistoricalFramesObserved),
            20 => Some(Count::IngressWrongPeerOrInterface),
            21 => Some(Count::LogicalDuplicateDatagrams),
            22 => Some(Count::MalformedOrWrongConnection),
            23 => Some(Count::ObservedUncommittedAtBoundary),
            24 => Some(Count::OrderingHoles),
            25 => Some(Count::OsAccepted),
            26 => Some(Count::OsFailed),
            27 => Some(Count::OutcomeWithoutReceiveEvidence),
            28 => Some(Count::ProtocolRejected),
            29 => Some(Count::ReleaseAttempts),
            30 => Some(Count::ReusedControlEchoExcludedFromReverseDistribution),
            31 => Some(Count::SinkRetries),
            32 => Some(Count::UniqueHeartbeats),
            33 => Some(Count::UniqueLogicalFramesObserved),
            34 => Some(Count::WatchdogOrInterfaceFailures),
            _ => None,
        }
    }
}

pub const MEASURES: usize = 24;

/// What is measured in nanoseconds.
#[derive(Clone, Copy, Debug, PartialEq, Eq, Structural)]
pub enum Measure {
    AndroidCallbackToWinningAttempt,
    AndroidCurrentDispatch,
    AndroidHistoricalDispatch,
    ClockOffsetIntervalWidth,
    ControlFrameForwardLower,
    ControlFrameForwardUpper,
    CurrentEventToSinkLocalLowerBound,
    CurrentEventToSinkLower,
    CurrentEventToSinkUpper,
    DuplexExchangeResidualUpper,
    ForwardTransitLowerBound,
    ForwardTransitUpperBound,
    HistoricalEventToSinkLocalLowerBound,
    HistoricalEventToSinkLower,
    HistoricalEventToSinkUpper,
    HostAckSubmission,
    HostReceiveToReady,
    HostReceiveToSinkOutcome,
    OrderingHoleUntilCommit,
    ReverseControlLowerBound,
    ReverseControlUpperBound,
    SinkAttemptsIncludingPlanning,
    UniqueGameplayCadenceExcess,
    UniqueGameplayReceiveInterval,
}

impl Measure {
    /// The place of the name in the list.
    pub open spec fn position(self) -> int {
        match self {
            Measure::AndroidCallbackToWinningAttempt => 0,
            Measure::AndroidCurrentDispatch => 1,
            Measure::AndroidHistoricalDispatch => 2,
            Measure::ClockOffsetIntervalWidth => 3,
            Measure::ControlFrameForwardLower => 4,
            Measure::ControlFrameForwardUpper => 5,
            Measure::CurrentEventToSinkLocalLowerBound => 6,
            Measure::CurrentEventToSinkLower => 7,
            Measure::CurrentEventToSinkUpper => 8,
            Measure::DuplexExchangeResidualUpper => 9,
            Measure::ForwardTransitLowerBound => 10,
            Measure::ForwardTransitUpperBound => 11,
            Measure::HistoricalEventToSinkLocalLowerBound => 12,
            Measure::HistoricalEventToSinkLower => 13,
            Measure::HistoricalEventToSinkUpper => 14,
            Measure::HostAckSubmission => 15,
            Measure::HostReceiveToReady => 16,
            Measure::HostReceiveToSinkOutcome => 17,
            Measure::OrderingHoleUntilCommit => 18,
            Measure::ReverseControlLowerBound => 19,
            Measure::ReverseControlUpperBound => 20,
            Measure::SinkAttemptsIncludingPlanning => 21,
            Measure::UniqueGameplayCadenceExcess => 22,
            Measure::UniqueGameplayReceiveInterval => 23,
        }
    }

    /// The name as a report spells it.
    pub open spec fn spelling(self) -> Seq<char> {
        match self {
            Measure::AndroidCallbackToWinningAttempt => "android_callback_to_winning_attempt_ns"@,
            Measure::AndroidCurrentDispatch => "android_current_dispatch_ns"@,
            Measure::AndroidHistoricalDispatch => "android_historical_dispatch_ns"@,
            Measure::ClockOffsetIntervalWidth => "clock_offset_interval_width_ns"@,
            Measure::ControlFrameForwardLower => "control_frame_forward_lower_ns"@,
            Measure::ControlFrameForwardUpper => "control_frame_forward_upper_ns"@,
            Measure::CurrentEventToSinkLocalLowerBound => "current_event_to_sink_local_lower_bound_ns"@,
            Measure::CurrentEventToSinkLower => "current_event_to_sink_lower_ns"@,
            Measure::CurrentEventToSinkUpper => "current_event_to_sink_upper_ns"@,
            Measure::DuplexExchangeResidualUpper => "duplex_exchange_residual_upper_ns"@,
            Measure::ForwardTransitLowerBound => "forward_transit_lower_bound_ns"@,
            Measure::ForwardTransitUpperBound => "forward_transit_upper_bound_ns"@,
            Measure::HistoricalEventToSinkLocalLowerBound => "historical_event_to_sink_local_lower_bound_ns"@,
            Measure::HistoricalEventToSinkLower => "historical_event_to_sink_lower_ns"@,
            Measure::HistoricalEventToSinkUpper => "historical_event_to_sink_upper_ns"@,
            Measure::HostAckSubmission => "host_ack_submission_ns"@,
            Measure::HostReceiveToReady => "host_receive_to_ready_ns"@,
            Measure::HostReceiveToSinkOutcome => "host_receive_to_sink_outcome_ns"@,
            Measure::OrderingHoleUntilCommit => "ordering_hole_until_commit_ns"@,
            Measure::ReverseControlLowerBound => "reverse_control_lower_bound_ns"@,
            Measure::ReverseControlUpperBound => "reverse_control_upper_bound_ns"@,
            Measure::SinkAttemptsIncludingPlanning => "sink_attempts_including_planning_ns"@,
            Measure::UniqueGameplayCadenceExcess => "unique_gameplay_cadence_excess_ns"@,
            Measure::UniqueGameplayReceiveInterval => "unique_gameplay_receive_interval_ns"@,
        }
    }

    pub fn index(self) -> (index: usize)
        ensures
            index == self.position(),
            index < MEASURES,
    {
        match self {
            Measure::AndroidCallbackToWinningAttempt => 0,
            Measure::AndroidCurrentDispatch => 1,
            Measure::AndroidHistoricalDispatch => 2,
            Measure::ClockOffsetIntervalWidth => 3,
            Measure::ControlFrameForwardLower => 4,
            Measure::ControlFrameForwardUpper => 5,
            Measure::CurrentEventToSinkLocalLowerBound => 6,
            Measure::CurrentEventToSinkLower => 7,
            Measure::CurrentEventToSinkUpper => 8,
            Measure::DuplexExchangeResidualUpper => 9,
            Measure::ForwardTransitLowerBound => 10,
            Measure::ForwardTransitUpperBound => 11,
            Measure::HistoricalEventToSinkLocalLowerBound => 12,
            Measure::HistoricalEventToSinkLower => 13,
            Measure::HistoricalEventToSinkUpper => 14,
            Measure::HostAckSubmission => 15,
            Measure::HostReceiveToReady => 16,
            Measure::HostReceiveToSinkOutcome => 17,
            Measure::OrderingHoleUntilCommit => 18,
            Measure::ReverseControlLowerBound => 19,
            Measure::ReverseControlUpperBound => 20,
            Measure::SinkAttemptsIncludingPlanning => 21,
            Measure::UniqueGameplayCadenceExcess => 22,
            Measure::UniqueGameplayReceiveInterval => 23,
        }
    }

    pub fn name(self) -> (name: &'static str)
        ensures
            name@ == self.spelling(),
    {
        match self {
            Measure::AndroidCallbackToWinningAttempt => "android_callback_to_winning_attempt_ns",
            Measure::AndroidCurrentDispatch => "android_current_dispatch_ns",
            Measure::AndroidHistoricalDispatch => "android_historical_dispatch_ns",
            Measure::ClockOffsetIntervalWidth => "clock_offset_interval_width_ns",
            Measure::ControlFrameForwardLower => "control_frame_forward_lower_ns",
            Measure::ControlFrameForwardUpper => "control_frame_forward_upper_ns",
            Measure::CurrentEventToSinkLocalLowerBound => "current_event_to_sink_local_lower_bound_ns",
            Measure::CurrentEventToSinkLower => "current_event_to_sink_lower_ns",
            Measure::CurrentEventToSinkUpper => "current_event_to_sink_upper_ns",
            Measure::DuplexExchangeResidualUpper => "duplex_exchange_residual_upper_ns",
            Measure::ForwardTransitLowerBound => "forward_transit_lower_bound_ns",
            Measure::ForwardTransitUpperBound => "forward_transit_upper_bound_ns",
            Measure::HistoricalEventToSinkLocalLowerBound => "historical_event_to_sink_local_lower_bound_ns",
            Measure::HistoricalEventToSinkLower => "historical_event_to_sink_lower_ns",
            Measure::HistoricalEventToSinkUpper => "historical_event_to_sink_upper_ns",
            Measure::HostAckSubmission => "host_ack_submission_ns",
            Measure::HostReceiveToReady => "host_receive_to_ready_ns",
            Measure::HostReceiveToSinkOutcome => "host_receive_to_sink_outcome_ns",
            Measure::OrderingHoleUntilCommit => "ordering_hole_until_commit_ns",
            Measure::ReverseControlLowerBound => "reverse_control_lower_bound_ns",
            Measure::ReverseControlUpperBound => "reverse_control_upper_bound_ns",
            Measure::SinkAttemptsIncludingPlanning => "sink_attempts_including_planning_ns",
            Measure::UniqueGameplayCadenceExcess => "unique_gameplay_cadence_excess_ns",
            Measure::UniqueGameplayReceiveInterval => "unique_gameplay_receive_interval_ns",
        }
    }

    /// The name at a place in the list.
    pub fn at(index: usize) -> (key: Option<Measure>)
        ensures
            index < MEASURES <==> key is Some,
            key matches Some(found) ==> found.position() == index,
    {
        match index {
            0 => Some(Measure::AndroidCallbackToWinningAttempt),
            1 => Some(Measure::AndroidCurrentDispatch),
            2 => Some(Measure::AndroidHistoricalDispatch),
            3 => Some(Measure::ClockOffsetIntervalWidth),
            4 => Some(Measure::ControlFrameForwardLower),
            5 => Some(Measure::ControlFrameForwardUpper),
            6 => Some(Measure::CurrentEventToSinkLocalLowerBound),
            7 => Some(Measure::CurrentEventToSinkLower),
            8 => Some(Measure::CurrentEventToSinkUpper),
            9 => Some(Measure::DuplexExchangeResidualUpper),
            10 => Some(Measure::ForwardTransitLowerBound),
            11 => Some(Measure::ForwardTransitUpperBound),
            12 => Some(Measure::HistoricalEventToSinkLocalLowerBound),
            13 => Some(Measure::HistoricalEventToSinkLower),
            14 => Some(Measure::HistoricalEventToSinkUpper),
            15 => Some(Measure::HostAckSubmission),
            16 => Some(Measure::HostReceiveToReady),
            17 => Some(Measure::HostReceiveToSinkOutcome),
            18 => Some(Measure::OrderingHoleUntilCommit),
            19 => Some(Measure::ReverseControlLowerBound),
            20 => Some(Measure::ReverseControlUpperBound),
            21 => Some(Measure::SinkAttemptsIncludingPlanning),
            22 => Some(Measure::UniqueGameplayCadenceExcess),
            23 => Some(Measure::UniqueGameplayReceiveInterval),
            _ => None,
        }
    }
}

pub const CAUSES: usize = 26;

/// Why an event is part of an incident.
#[derive(Clone, Copy, Debug, PartialEq, Eq, Structural)]
pub enum Cause {
    AndroidDispatchBudget,
    AndroidQueueOrRepairAgeBudget,
    AndroidTimestampOrderInvalid,
    BoundedEventToSinkBudgetViolation,
    ClockRateAssumptionOrTimestampsInconsistent,
    DeliveryCadenceExcessOriginUnresolved,
    DiagnosticCoverageGap,
    EventToSinkBudgetUncertain,
    EventToSinkDefiniteBudgetViolation,
    ForwardLatencyBudgetUncertain,
    ForwardTransportOrEndpointStallBounded,
    HostAckSendFailure,
    HostAckSubmissionBudget,
    HostDecodeOrderOrSchedulingBudget,
    IngressDiscardNotGameplayLossProof,
    OsReleaseBudget,
    OsReleaseFailure,
    OsSinkFailure,
    OsSinkRetry,
    ProtocolFrameRejected,
    ProtocolObservedFrameAbandoned,
    ProtocolOrderingHoleLossOrReorder,
    ReverseControlOrEndpointStallBounded,
    SessionFailureBoundary,
    SinkSubmissionBudget,
    WatchdogOrInterfaceBoundary,
}

impl Cause {
    /// The place of the name in the list.
    pub open spec fn position(self) -> int {
        match self {
            Cause::AndroidDispatchBudget => 0,
            Cause::AndroidQueueOrRepairAgeBudget => 1,
            Cause::AndroidTimestampOrderInvalid => 2,
            Cause::BoundedEventToSinkBudgetViolation => 3,
            Cause::ClockRateAssumptionOrTimestampsInconsistent => 4,
            Cause::DeliveryCadenceExcessOriginUnresolved => 5,
            Cause::DiagnosticCoverageGap => 6,
            Cause::EventToSinkBudgetUncertain => 7,
            Cause::EventToSinkDefiniteBudgetViolation => 8,
            Cause::ForwardLatencyBudgetUncertain => 9,
            Cause::ForwardTransportOrEndpointStallBounded => 10,
            Cause::HostAckSendFailure => 11,
            Cause::HostAckSubmissionBudget => 12,
            Cause::HostDecodeOrderOrSchedulingBudget => 13,
            Cause::IngressDiscardNotGameplayLossProof => 14,
            Cause::OsReleaseBudget => 15,
            Cause::OsReleaseFailure => 16,
            Cause::OsSinkFailure => 17,
            Cause::OsSinkRetry => 18,
            Cause::ProtocolFrameRejected => 19,
            Cause::ProtocolObservedFrameAbandoned => 20,
            Cause::ProtocolOrderingHoleLossOrReorder => 21,
            Cause::ReverseControlOrEndpointStallBounded => 22,
            Cause::SessionFailureBoundary => 23,
            Cause::SinkSubmissionBudget => 24,
            Cause::WatchdogOrInterfaceBoundary => 25,
        }
    }

    /// The name as a report spells it.
    pub open spec fn spelling(self) -> Seq<char> {
        match self {
            Cause::AndroidDispatchBudget => "android_dispatch_budget"@,
            Cause::AndroidQueueOrRepairAgeBudget => "android_queue_or_repair_age_budget"@,
            Cause::AndroidTimestampOrderInvalid => "android_timestamp_order_invalid"@,
            Cause::BoundedEventToSinkBudgetViolation => "bounded_event_to_sink_budget_violation"@,
            Cause::ClockRateAssumptionOrTimestampsInconsistent => "clock_rate_assumption_or_timestamps_inconsistent"@,
            Cause::DeliveryCadenceExcessOriginUnresolved => "delivery_cadence_excess_origin_unresolved"@,
            Cause::DiagnosticCoverageGap => "diagnostic_coverage_gap"@,
            Cause::EventToSinkBudgetUncertain => "event_to_sink_budget_uncertain"@,
            Cause::EventToSinkDefiniteBudgetViolation => "event_to_sink_definite_budget_violation"@,
            Cause::ForwardLatencyBudgetUncertain => "forward_latency_budget_uncertain"@,
            Cause::ForwardTransportOrEndpointStallBounded => "forward_transport_or_endpoint_stall_bounded"@,
            Cause::HostAckSendFailure => "host_ack_send_failure"@,
            Cause::HostAckSubmissionBudget => "host_ack_submission_budget"@,
            Cause::HostDecodeOrderOrSchedulingBudget => "host_decode_order_or_scheduling_budget"@,
            Cause::IngressDiscardNotGameplayLossProof => "ingress_discard_not_gameplay_loss_proof"@,
            Cause::OsReleaseBudget => "os_release_budget"@,
            Cause::OsReleaseFailure => "os_release_failure"@,
            Cause::OsSinkFailure => "os_sink_failure"@,
            Cause::OsSinkRetry => "os_sink_retry"@,
            Cause::ProtocolFrameRejected => "protocol_frame_rejected"@,
            Cause::ProtocolObservedFrameAbandoned => "protocol_observed_frame_abandoned"@,
            Cause::ProtocolOrderingHoleLossOrReorder => "protocol_ordering_hole_loss_or_reorder"@,
            Cause::ReverseControlOrEndpointStallBounded => "reverse_control_or_endpoint_stall_bounded"@,
            Cause::SessionFailureBoundary => "session_failure_boundary"@,
            Cause::SinkSubmissionBudget => "sink_submission_budget"@,
            Cause::WatchdogOrInterfaceBoundary => "watchdog_or_interface_boundary"@,
        }
    }

    pub fn index(self) -> (index: usize)
        ensures
            index == self.position(),
            index < CAUSES,
    {
        match self {
            Cause::AndroidDispatchBudget => 0,
            Cause::AndroidQueueOrRepairAgeBudget => 1,
            Cause::AndroidTimestampOrderInvalid => 2,
            Cause::BoundedEventToSinkBudgetViolation => 3,
            Cause::ClockRateAssumptionOrTimestampsInconsistent => 4,
            Cause::DeliveryCadenceExcessOriginUnresolved => 5,
            Cause::DiagnosticCoverageGap => 6,
            Cause::EventToSinkBudgetUncertain => 7,
            Cause::EventToSinkDefiniteBudgetViolation => 8,
            Cause::ForwardLatencyBudgetUncertain => 9,
            Cause::ForwardTransportOrEndpointStallBounded => 10,
            Cause::HostAckSendFailure => 11,
            Cause::HostAckSubmissionBudget => 12,
            Cause::HostDecodeOrderOrSchedulingBudget => 13,
            Cause::IngressDiscardNotGameplayLossProof => 14,
            Cause::OsReleaseBudget => 15,
            Cause::OsReleaseFailure => 16,
            Cause::OsSinkFailure => 17,
            Cause::OsSinkRetry => 18,
            Cause::ProtocolFrameRejected => 19,
            Cause::ProtocolObservedFrameAbandoned => 20,
            Cause::ProtocolOrderingHoleLossOrReorder => 21,
            Cause::ReverseControlOrEndpointStallBounded => 22,
            Cause::SessionFailureBoundary => 23,
            Cause::SinkSubmissionBudget => 24,
            Cause::WatchdogOrInterfaceBoundary => 25,
        }
    }

    pub fn name(self) -> (name: &'static str)
        ensures
            name@ == self.spelling(),
    {
        match self {
            Cause::AndroidDispatchBudget => "android_dispatch_budget",
            Cause::AndroidQueueOrRepairAgeBudget => "android_queue_or_repair_age_budget",
            Cause::AndroidTimestampOrderInvalid => "android_timestamp_order_invalid",
            Cause::BoundedEventToSinkBudgetViolation => "bounded_event_to_sink_budget_violation",
            Cause::ClockRateAssumptionOrTimestampsInconsistent => "clock_rate_assumption_or_timestamps_inconsistent",
            Cause::DeliveryCadenceExcessOriginUnresolved => "delivery_cadence_excess_origin_unresolved",
            Cause::DiagnosticCoverageGap => "diagnostic_coverage_gap",
            Cause::EventToSinkBudgetUncertain => "event_to_sink_budget_uncertain",
            Cause::EventToSinkDefiniteBudgetViolation => "event_to_sink_definite_budget_violation",
            Cause::ForwardLatencyBudgetUncertain => "forward_latency_budget_uncertain",
            Cause::ForwardTransportOrEndpointStallBounded => "forward_transport_or_endpoint_stall_bounded",
            Cause::HostAckSendFailure => "host_ack_send_failure",
            Cause::HostAckSubmissionBudget => "host_ack_submission_budget",
            Cause::HostDecodeOrderOrSchedulingBudget => "host_decode_order_or_scheduling_budget",
            Cause::IngressDiscardNotGameplayLossProof => "ingress_discard_not_gameplay_loss_proof",
            Cause::OsReleaseBudget => "os_release_budget",
            Cause::OsReleaseFailure => "os_release_failure",
            Cause::OsSinkFailure => "os_sink_failure",
            Cause::OsSinkRetry => "os_sink_retry",
            Cause::ProtocolFrameRejected => "protocol_frame_rejected",
            Cause::ProtocolObservedFrameAbandoned => "protocol_observed_frame_abandoned",
            Cause::ProtocolOrderingHoleLossOrReorder => "protocol_ordering_hole_loss_or_reorder",
            Cause::ReverseControlOrEndpointStallBounded => "reverse_control_or_endpoint_stall_bounded",
            Cause::SessionFailureBoundary => "session_failure_boundary",
            Cause::SinkSubmissionBudget => "sink_submission_budget",
            Cause::WatchdogOrInterfaceBoundary => "watchdog_or_interface_boundary",
        }
    }

    /// The name at a place in the list.
    pub fn at(index: usize) -> (key: Option<Cause>)
        ensures
            index < CAUSES <==> key is Some,
            key matches Some(found) ==> found.position() == index,
    {
        match index {
            0 => Some(Cause::AndroidDispatchBudget),
            1 => Some(Cause::AndroidQueueOrRepairAgeBudget),
            2 => Some(Cause::AndroidTimestampOrderInvalid),
            3 => Some(Cause::BoundedEventToSinkBudgetViolation),
            4 => Some(Cause::ClockRateAssumptionOrTimestampsInconsistent),
            5 => Some(Cause::DeliveryCadenceExcessOriginUnresolved),
            6 => Some(Cause::DiagnosticCoverageGap),
            7 => Some(Cause::EventToSinkBudgetUncertain),
            8 => Some(Cause::EventToSinkDefiniteBudgetViolation),
            9 => Some(Cause::ForwardLatencyBudgetUncertain),
            10 => Some(Cause::ForwardTransportOrEndpointStallBounded),
            11 => Some(Cause::HostAckSendFailure),
            12 => Some(Cause::HostAckSubmissionBudget),
            13 => Some(Cause::HostDecodeOrderOrSchedulingBudget),
            14 => Some(Cause::IngressDiscardNotGameplayLossProof),
            15 => Some(Cause::OsReleaseBudget),
            16 => Some(Cause::OsReleaseFailure),
            17 => Some(Cause::OsSinkFailure),
            18 => Some(Cause::OsSinkRetry),
            19 => Some(Cause::ProtocolFrameRejected),
            20 => Some(Cause::ProtocolObservedFrameAbandoned),
            21 => Some(Cause::ProtocolOrderingHoleLossOrReorder),
            22 => Some(Cause::ReverseControlOrEndpointStallBounded),
            23 => Some(Cause::SessionFailureBoundary),
            24 => Some(Cause::SinkSubmissionBudget),
            25 => Some(Cause::WatchdogOrInterfaceBoundary),
            _ => None,
        }
    }
}

} // verus!
