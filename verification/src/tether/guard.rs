//! How the interface of a phone is put under the route policy, and what is undone when
//! that fails.
use crate::tether::identity::{same_adapter_instance, AdapterIdentity, TetherBinding};
use crate::tether::policy::{PersistedRoute, FAMILY_IPV4, FAMILY_IPV6};
use vstd::prelude::*;

verus! {

/// What was captured of one address family of an interface before it was changed.
#[derive(Clone, Debug)]
pub struct InterfaceSnapshot {
    pub adapter: AdapterIdentity,
    pub interface_index: u32,
    pub family: u16,
    pub disable_default_routes: bool,
    pub default_routes: Vec<PersistedRoute>,
    pub persisted_name: String,
}

impl InterfaceSnapshot {
    /// Whether the snapshot is of the interface that a phone was found on.
    pub open spec fn is_on(self, binding: TetherBinding) -> bool {
        self.interface_index == binding.interface_index
    }

    /// Whether the snapshot is of the adapter that a phone was found on.
    pub open spec fn belongs_to(self, binding: TetherBinding) -> bool {
        self.is_on(binding) && self.adapter.same_instance(binding.adapter)
    }
}

/// The next step of putting an interface under the policy.
#[derive(Clone, Copy, Debug, PartialEq, Eq, Structural)]
pub enum GuardStep {
    /// To reassert the policy of this snapshot.
    Reassert(usize),
    /// To capture an address family, with a journal entry, and to append its snapshot.
    Capture(u16),
    /// To apply the policy of the snapshot that was appended for an address family.
    Apply(u16),
}

/// What came of a step.
#[derive(Clone, Copy, Debug, PartialEq, Eq, Structural)]
pub enum GuardOutcome {
    Done,
    /// The interface does not have the address family.
    Absent,
    Failed,
}

/// How it goes on.
#[derive(Clone, Copy, Debug, PartialEq, Eq, Structural)]
pub enum GuardVerdict {
    Go(GuardStep),
    /// The interface is under the policy.
    Finished,
    /// A snapshot of the interface is of another adapter.
    Foreign,
    /// The policy is not in force, and nothing was changed.
    Failed,
    /// To restore everything that was captured for this binding, and to fail.
    RollBack,
}

/// Whether an address family of the interface is under the policy already.
pub open spec fn is_protected(
    snapshots: Seq<InterfaceSnapshot>,
    binding: TetherBinding,
    family: u16,
) -> bool {
    exists|i: int|
        0 <= i < snapshots.len() && (#[trigger] snapshots[i]).is_on(binding) && snapshots[i].family
            == family
}

/// The capture that is due, from a family on.
pub open spec fn capture_from(
    snapshots: Seq<InterfaceSnapshot>,
    binding: TetherBinding,
    family: u16,
) -> GuardVerdict {
    if family == FAMILY_IPV4 && !is_protected(snapshots, binding, FAMILY_IPV4) {
        GuardVerdict::Go(GuardStep::Capture(FAMILY_IPV4))
    } else if !is_protected(snapshots, binding, FAMILY_IPV6) {
        GuardVerdict::Go(GuardStep::Capture(FAMILY_IPV6))
    } else {
        GuardVerdict::Finished
    }
}

/// What is due once the snapshots before `from` are reasserted: the next one of the
/// interface, then the families that are not captured yet.
pub open spec fn guard_from(
    snapshots: Seq<InterfaceSnapshot>,
    binding: TetherBinding,
    from: int,
) -> GuardVerdict
    decreases snapshots.len() - from,
{
    if from >= snapshots.len() {
        capture_from(snapshots, binding, FAMILY_IPV4)
    } else if !snapshots[from].is_on(binding) {
        guard_from(snapshots, binding, from + 1)
    } else if snapshots[from].belongs_to(binding) {
        GuardVerdict::Go(GuardStep::Reassert(from as usize))
    } else {
        GuardVerdict::Foreign
    }
}

/// How it goes on after a step. `snapshots` are those of before the first capture.
pub open spec fn guard_after(
    snapshots: Seq<InterfaceSnapshot>,
    binding: TetherBinding,
    step: GuardStep,
    outcome: GuardOutcome,
) -> GuardVerdict {
    let next = |family: u16|
        if family == FAMILY_IPV4 {
            capture_from(snapshots, binding, FAMILY_IPV6)
        } else {
            GuardVerdict::Finished
        };
    match (step, outcome) {
        (GuardStep::Reassert(at), GuardOutcome::Done) => guard_from(snapshots, binding, at + 1),
        (GuardStep::Reassert(_), _) => GuardVerdict::Failed,
        (GuardStep::Capture(family), GuardOutcome::Done) => GuardVerdict::Go(
            GuardStep::Apply(family),
        ),
        (GuardStep::Capture(family), GuardOutcome::Absent) => next(family),
        (GuardStep::Apply(family), GuardOutcome::Done) => next(family),
        _ => GuardVerdict::RollBack,
    }
}

fn has_protected(
    snapshots: &Vec<InterfaceSnapshot>,
    count: usize,
    binding: &TetherBinding,
    family: u16,
) -> (protected: bool)
    requires
        count <= snapshots@.len(),
    ensures
        protected == is_protected(snapshots@.take(count as int), *binding, family),
{
    let ghost first = snapshots@.take(count as int);
    let mut i: usize = 0;
    while i < count
        invariant
            i <= count <= snapshots@.len(),
            first == snapshots@.take(count as int),
            forall|j: int|
                0 <= j < i ==> !((#[trigger] first[j]).is_on(*binding) && first[j].family
                    == family),
        decreases count - i,
    {
        assert(first[i as int] == snapshots@[i as int]);
        if snapshots[i].interface_index == binding.interface_index && snapshots[i].family
            == family {
            assert(first[i as int].is_on(*binding) && first[i as int].family == family);
            return true;
        }
        i = i + 1;
    }
    false
}

fn next_capture(
    snapshots: &Vec<InterfaceSnapshot>,
    count: usize,
    binding: &TetherBinding,
    family: u16,
) -> (verdict: GuardVerdict)
    requires
        count <= snapshots@.len(),
    ensures
        verdict == capture_from(snapshots@.take(count as int), *binding, family),
{
    if family == FAMILY_IPV4 && !has_protected(snapshots, count, binding, FAMILY_IPV4) {
        GuardVerdict::Go(GuardStep::Capture(FAMILY_IPV4))
    } else if !has_protected(snapshots, count, binding, FAMILY_IPV6) {
        GuardVerdict::Go(GuardStep::Capture(FAMILY_IPV6))
    } else {
        GuardVerdict::Finished
    }
}

fn next_reassertion(
    snapshots: &Vec<InterfaceSnapshot>,
    count: usize,
    binding: &TetherBinding,
    from: usize,
) -> (verdict: GuardVerdict)
    requires
        count <= snapshots@.len(),
    ensures
        verdict == guard_from(snapshots@.take(count as int), *binding, from as int),
{
    let ghost first = snapshots@.take(count as int);
    let mut i: usize = from;
    while i < count
        invariant
            count <= snapshots@.len(),
            first == snapshots@.take(count as int),
            guard_from(first, *binding, from as int) == guard_from(first, *binding, i as int),
        decreases count - i,
    {
        assert(first[i as int] == snapshots@[i as int]);
        if snapshots[i].interface_index == binding.interface_index {
            return if same_adapter_instance(&snapshots[i].adapter, &binding.adapter) {
                GuardVerdict::Go(GuardStep::Reassert(i))
            } else {
                GuardVerdict::Foreign
            };
        }
        i = i + 1;
    }
    next_capture(snapshots, count, binding, FAMILY_IPV4)
}

/// Says how putting an interface under the policy begins.
pub fn guard_start(snapshots: &Vec<InterfaceSnapshot>, binding: &TetherBinding) -> (verdict:
    GuardVerdict)
    ensures
        verdict == guard_from(snapshots@, *binding, 0),
{
    let count: usize = snapshots.len();
    assert(snapshots@.take(count as int) =~= snapshots@);
    next_reassertion(snapshots, count, binding, 0)
}

/// Says how it goes on after a step. `count` is the number of snapshots when it began.
pub fn guard_next(
    snapshots: &Vec<InterfaceSnapshot>,
    count: usize,
    binding: &TetherBinding,
    step: GuardStep,
    outcome: GuardOutcome,
) -> (verdict: GuardVerdict)
    requires
        count <= snapshots@.len(),
    ensures
        verdict == guard_after(snapshots@.take(count as int), *binding, step, outcome),
{
    match (step, outcome) {
        (GuardStep::Reassert(at), GuardOutcome::Done) => if at < count {
            next_reassertion(snapshots, count, binding, at + 1)
        } else {
            next_capture(snapshots, count, binding, FAMILY_IPV4)
        },
        (GuardStep::Reassert(_), _) => GuardVerdict::Failed,
        (GuardStep::Capture(family), GuardOutcome::Done) => GuardVerdict::Go(
            GuardStep::Apply(family),
        ),
        (GuardStep::Capture(family), GuardOutcome::Absent) => if family == FAMILY_IPV4 {
            next_capture(snapshots, count, binding, FAMILY_IPV6)
        } else {
            GuardVerdict::Finished
        },
        (GuardStep::Apply(family), GuardOutcome::Done) => if family == FAMILY_IPV4 {
            next_capture(snapshots, count, binding, FAMILY_IPV6)
        } else {
            GuardVerdict::Finished
        },
        _ => GuardVerdict::RollBack,
    }
}

/// No route is touched before a phone was found: a policy without snapshots begins with the
/// capture of the interface that the phone was found on.
pub proof fn nothing_is_reasserted_before_a_phone_is_found(binding: TetherBinding)
    ensures
        guard_from(Seq::empty(), binding, 0) == GuardVerdict::Go(GuardStep::Capture(FAMILY_IPV4)),
{
    assert(!is_protected(Seq::empty(), binding, FAMILY_IPV4));
}

/// Nothing more is captured unless every snapshot of the interface, from `from` on, is of the
/// adapter that the phone was found on.
pub proof fn captures_follow_the_adapter(
    snapshots: Seq<InterfaceSnapshot>,
    binding: TetherBinding,
    from: int,
    at: int,
)
    requires
        guard_from(snapshots, binding, from) matches GuardVerdict::Go(GuardStep::Capture(_)),
        0 <= from <= at < snapshots.len(),
    ensures
        !snapshots[at].is_on(binding),
    decreases snapshots.len() - from,
{
    if from < at {
        captures_follow_the_adapter(snapshots, binding, from + 1, at);
    }
}

/// A policy is applied only to what was captured a step before, and every failure from the
/// first capture on leads to a rollback.
pub proof fn failed_changes_are_rolled_back(
    snapshots: Seq<InterfaceSnapshot>,
    binding: TetherBinding,
    step: GuardStep,
    outcome: GuardOutcome,
)
    ensures
        guard_after(snapshots, binding, step, outcome) matches GuardVerdict::Go(
            GuardStep::Apply(family),
        ) ==> step == GuardStep::Capture(family) && outcome == GuardOutcome::Done,
        outcome == GuardOutcome::Failed && !(step is Reassert) ==> guard_after(
            snapshots,
            binding,
            step,
            outcome,
        ) == GuardVerdict::RollBack,
{
    if let GuardStep::Reassert(at) = step {
        reassertion_applies_nothing(snapshots, binding, at + 1);
    }
}

proof fn reassertion_applies_nothing(
    snapshots: Seq<InterfaceSnapshot>,
    binding: TetherBinding,
    from: int,
)
    ensures
        !(guard_from(snapshots, binding, from) matches GuardVerdict::Go(GuardStep::Apply(_))),
    decreases snapshots.len() - from,
{
    if from < snapshots.len() {
        reassertion_applies_nothing(snapshots, binding, from + 1);
    }
}

/// What is due first, from a snapshot on: the policy of the next snapshot of the interface is
/// reasserted, where it is of the adapter that the phone was found on, and nothing is done
/// where it is of another. Only where there is none is a family captured that is not under
/// the policy yet, IPv4 (2) before IPv6 (23), and it is done where both are.
pub proof fn snapshots_come_first(
    snapshots: Seq<InterfaceSnapshot>,
    binding: TetherBinding,
    from: int,
)
    requires
        0 <= from <= snapshots.len() <= usize::MAX,
    ensures
        ({
            let on = |at: int| snapshots[at].interface_index == binding.interface_index;
            let covered = |family: u16|
                exists|at: int|
                    0 <= at < snapshots.len() && (#[trigger] snapshots[at]).interface_index
                        == binding.interface_index && snapshots[at].family == family;
            match guard_from(snapshots, binding, from) {
                GuardVerdict::Go(GuardStep::Reassert(at)) => from <= at < snapshots.len() && on(
                    at as int,
                ) && snapshots[at as int].adapter.same_instance(binding.adapter) && (forall|
                    earlier: int,
                |
                    from <= earlier < at ==> (#[trigger] snapshots[earlier]).interface_index
                        != binding.interface_index),
                GuardVerdict::Foreign => exists|at: int|
                    from <= at < snapshots.len() && (#[trigger] snapshots[at]).interface_index
                        == binding.interface_index && !snapshots[at].adapter.same_instance(
                        binding.adapter,
                    ),
                GuardVerdict::Go(GuardStep::Capture(family)) => !covered(family) && (family == 2
                    || family == 23 && covered(2)) && (forall|at: int|
                    from <= at < snapshots.len() ==> (#[trigger] snapshots[at]).interface_index
                        != binding.interface_index),
                GuardVerdict::Finished => covered(2) && covered(23),
                _ => false,
            }
        }),
    decreases snapshots.len() - from,
{
    if from < snapshots.len() {
        if snapshots[from].is_on(binding) {
        } else {
            snapshots_come_first(snapshots, binding, from + 1);
        }
    } else {
        assert forall|family: u16|
            #[trigger] is_protected(snapshots, binding, family) == (exists|at: int|
                0 <= at < snapshots.len() && (#[trigger] snapshots[at]).interface_index
                    == binding.interface_index && snapshots[at].family == family) by {
            if is_protected(snapshots, binding, family) {
                let at = choose|at: int|
                    0 <= at < snapshots.len() && (#[trigger] snapshots[at]).is_on(binding)
                        && snapshots[at].family == family;
                assert(snapshots[at].interface_index == binding.interface_index);
            }
            if exists|at: int|
                0 <= at < snapshots.len() && (#[trigger] snapshots[at]).interface_index
                    == binding.interface_index && snapshots[at].family == family {
                let at = choose|at: int|
                    0 <= at < snapshots.len() && (#[trigger] snapshots[at]).interface_index
                        == binding.interface_index && snapshots[at].family == family;
                assert(snapshots[at].is_on(binding));
            }
        }
        assert(is_protected(snapshots, binding, 2) || !is_protected(snapshots, binding, 2));
        assert(is_protected(snapshots, binding, 23) || !is_protected(snapshots, binding, 23));
    }
}

/// IPv6 follows IPv4, whether the interface had that or not, unless it is under the policy
/// already; with IPv6 it is done. A policy that cannot be reasserted is left as it is.
pub proof fn families_follow_each_other(
    snapshots: Seq<InterfaceSnapshot>,
    binding: TetherBinding,
    at: usize,
)
    ensures
        ({
            let second = if is_protected(snapshots, binding, 23) {
                GuardVerdict::Finished
            } else {
                GuardVerdict::Go(GuardStep::Capture(23))
            };
            &&& guard_after(snapshots, binding, GuardStep::Capture(2), GuardOutcome::Absent)
                == second
            &&& guard_after(snapshots, binding, GuardStep::Apply(2), GuardOutcome::Done) == second
            &&& guard_after(snapshots, binding, GuardStep::Capture(23), GuardOutcome::Absent)
                is Finished
            &&& guard_after(snapshots, binding, GuardStep::Apply(23), GuardOutcome::Done)
                is Finished
            &&& guard_after(snapshots, binding, GuardStep::Reassert(at), GuardOutcome::Failed)
                is Failed
        }),
{
}

} // verus!
