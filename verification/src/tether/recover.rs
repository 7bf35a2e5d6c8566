//! How the policies that earlier runs had left are taken back, one after the other.
use vstd::prelude::*;

verus! {

/// What became of the policies that earlier runs had left.
#[derive(Clone, Copy, Debug, PartialEq, Eq, Structural)]
pub enum RecoveryOutcome {
    NothingToDo,
    Restored { snapshots: usize },
    OwnerStillRunning,
}

/// What is to be done next, and with which policy.
#[derive(Clone, Copy, Debug, PartialEq, Eq, Structural)]
pub enum RecoveryStep {
    /// To ask whether the process that applied the policy still runs.
    AskOwner(usize),
    /// To take the policy back.
    Recover(usize),
    /// To remove the policy from the journal.
    Remove(usize),
}

/// What came of a step.
#[derive(Clone, Copy, Debug, PartialEq, Eq, Structural)]
pub enum RecoveryReport {
    /// Whether the owner runs.
    OwnerRuns(bool),
    /// The policy was taken back, or removed.
    Done,
    /// The system refused.
    Failed,
}

/// How the recovery goes on.
#[derive(Clone, Copy, Debug, PartialEq, Eq, Structural)]
pub enum RecoveryVerdict {
    Go(RecoveryStep),
    Finished(RecoveryOutcome),
    /// A step with this policy failed, or the report answers another one: it and all that
    /// follow stay in the journal.
    Stopped(usize),
}

/// How far a recovery has come.
#[verifier::ext_equal]
pub struct RecoveryView {
    pub policies: usize,
    pub restored: usize,
    pub owner_running: bool,
}

impl RecoveryStep {
    pub open spec fn policy(self) -> usize {
        match self {
            RecoveryStep::AskOwner(policy) => policy,
            RecoveryStep::Recover(policy) => policy,
            RecoveryStep::Remove(policy) => policy,
        }
    }
}

impl RecoveryView {
    pub open spec fn fresh(policies: usize) -> RecoveryView {
        RecoveryView { policies, restored: 0, owner_running: false }
    }

    /// What it comes to once every policy was dealt with.
    pub open spec fn outcome(self) -> RecoveryOutcome {
        if self.owner_running {
            RecoveryOutcome::OwnerStillRunning
        } else if self.restored > 0 {
            RecoveryOutcome::Restored { snapshots: self.restored }
        } else {
            RecoveryOutcome::NothingToDo
        }
    }

    /// The recovery with a policy and all that follow.
    pub open spec fn from(self, policy: int) -> RecoveryVerdict {
        if policy < self.policies {
            RecoveryVerdict::Go(RecoveryStep::AskOwner(policy as usize))
        } else {
            RecoveryVerdict::Finished(self.outcome())
        }
    }

    /// Whether a step can be one of this recovery, which restores no policy twice.
    pub open spec fn expects(self, step: RecoveryStep) -> bool {
        self.restored <= step.policy() < self.policies
    }

    /// The state after a step.
    pub open spec fn after(self, step: RecoveryStep, report: RecoveryReport) -> RecoveryView {
        match (step, report) {
            _ if !self.expects(step) => self,
            (RecoveryStep::AskOwner(_), RecoveryReport::OwnerRuns(true)) => RecoveryView {
                owner_running: true,
                ..self
            },
            (RecoveryStep::Remove(_), RecoveryReport::Done) => RecoveryView {
                restored: (self.restored + 1) as usize,
                ..self
            },
            _ => self,
        }
    }

    /// How the recovery goes on after a step: a policy whose owner runs is kept, any other
    /// is taken back, and removed only after that. Whatever fails ends the recovery.
    pub open spec fn verdict(self, step: RecoveryStep, report: RecoveryReport) -> RecoveryVerdict {
        match (step, report) {
            _ if !self.expects(step) => RecoveryVerdict::Stopped(step.policy()),
            (RecoveryStep::AskOwner(policy), RecoveryReport::OwnerRuns(runs)) => if runs {
                self.after(step, report).from(policy + 1)
            } else {
                RecoveryVerdict::Go(RecoveryStep::Recover(policy))
            },
            (RecoveryStep::Recover(policy), RecoveryReport::Done) => RecoveryVerdict::Go(
                RecoveryStep::Remove(policy),
            ),
            (RecoveryStep::Remove(policy), RecoveryReport::Done) => self.after(step, report).from(
                policy + 1,
            ),
            _ => RecoveryVerdict::Stopped(step.policy()),
        }
    }
}

/// The recovery of the policies in the journal.
pub struct Recovery {
    policies: usize,
    restored: usize,
    owner_running: bool,
}

impl View for Recovery {
    type V = RecoveryView;

    closed spec fn view(&self) -> RecoveryView {
        RecoveryView {
            policies: self.policies,
            restored: self.restored,
            owner_running: self.owner_running,
        }
    }
}

impl Recovery {
    pub fn new(policies: usize) -> (recovery: Recovery)
        ensures
            recovery@ == RecoveryView::fresh(policies),
    {
        Recovery { policies, restored: 0, owner_running: false }
    }

    /// What a recovery starts with.
    pub fn start(&self) -> (verdict: RecoveryVerdict)
        ensures
            verdict == self@.from(0),
    {
        self.go_on(0)
    }

    fn go_on(&self, policy: usize) -> (verdict: RecoveryVerdict)
        ensures
            verdict == self@.from(policy as int),
    {
        if policy < self.policies {
            RecoveryVerdict::Go(RecoveryStep::AskOwner(policy))
        } else if self.owner_running {
            RecoveryVerdict::Finished(RecoveryOutcome::OwnerStillRunning)
        } else if self.restored > 0 {
            RecoveryVerdict::Finished(RecoveryOutcome::Restored { snapshots: self.restored })
        } else {
            RecoveryVerdict::Finished(RecoveryOutcome::NothingToDo)
        }
    }

    /// Takes note of what came of a step.
    pub fn next(&mut self, step: RecoveryStep, report: RecoveryReport) -> (verdict: RecoveryVerdict)
        ensures
            final(self)@ == old(self)@.after(step, report),
            verdict == old(self)@.verdict(step, report),
    {
        let policy: usize = match step {
            RecoveryStep::AskOwner(policy) => policy,
            RecoveryStep::Recover(policy) => policy,
            RecoveryStep::Remove(policy) => policy,
        };
        if policy >= self.policies || self.restored > policy {
            return RecoveryVerdict::Stopped(policy);
        }
        match (step, report) {
            (RecoveryStep::AskOwner(_), RecoveryReport::OwnerRuns(runs)) => {
                if !runs {
                    return RecoveryVerdict::Go(RecoveryStep::Recover(policy));
                }
                self.owner_running = true;
                self.go_on(policy + 1)
            },
            (RecoveryStep::Recover(_), RecoveryReport::Done) => RecoveryVerdict::Go(
                RecoveryStep::Remove(policy),
            ),
            (RecoveryStep::Remove(_), RecoveryReport::Done) => {
                self.restored = self.restored + 1;
                self.go_on(policy + 1)
            },
            _ => RecoveryVerdict::Stopped(policy),
        }
    }
}

/// What the system answers on a policy in the journal.
#[derive(Clone, Copy, Debug, PartialEq, Eq, Structural)]
pub struct Orphan {
    /// Whether its owner runs; `None` where the system does not tell.
    pub owner_runs: Option<bool>,
    /// Whether it can be taken back.
    pub recovers: bool,
    /// Whether it can be removed from the journal.
    pub removes: bool,
}

impl Orphan {
    /// Whether the recovery ends at this policy.
    pub open spec fn fails(self) -> bool {
        match self.owner_runs {
            None => true,
            Some(runs) => !runs && !(self.recovers && self.removes),
        }
    }

    pub open spec fn answer(self, step: RecoveryStep) -> RecoveryReport {
        match step {
            RecoveryStep::AskOwner(_) => match self.owner_runs {
                Some(runs) => RecoveryReport::OwnerRuns(runs),
                None => RecoveryReport::Failed,
            },
            RecoveryStep::Recover(_) => if self.recovers {
                RecoveryReport::Done
            } else {
                RecoveryReport::Failed
            },
            RecoveryStep::Remove(_) => if self.removes {
                RecoveryReport::Done
            } else {
                RecoveryReport::Failed
            },
        }
    }

    fn answered(&self, step: RecoveryStep) -> (report: RecoveryReport)
        ensures
            report == self.answer(step),
    {
        let done: bool = match step {
            RecoveryStep::AskOwner(_) => {
                return match self.owner_runs {
                    Some(runs) => RecoveryReport::OwnerRuns(runs),
                    None => RecoveryReport::Failed,
                };
            },
            RecoveryStep::Recover(_) => self.recovers,
            RecoveryStep::Remove(_) => self.removes,
        };
        if done {
            RecoveryReport::Done
        } else {
            RecoveryReport::Failed
        }
    }
}

/// Whether the recovery ends at the policy `i`, and at none before.
pub open spec fn stops_at(orphans: Seq<Orphan>, i: int) -> bool {
    &&& 0 <= i < orphans.len()
    &&& orphans[i].fails()
    &&& forall|j: int| 0 <= j < i ==> !(#[trigger] orphans[j]).fails()
}

pub open spec fn none_fails(orphans: Seq<Orphan>) -> bool {
    forall|i: int| 0 <= i < orphans.len() ==> !(#[trigger] orphans[i]).fails()
}

pub open spec fn some_owner_runs(orphans: Seq<Orphan>) -> bool {
    exists|i: int| 0 <= i < orphans.len() && (#[trigger] orphans[i]).owner_runs == Some(true)
}

/// What the recovery of the policies in the journal comes to, given what the system answers
/// on each, and which of them are in the journal afterwards. One is removed only if its
/// owner does not run and it was taken back. Where one cannot be, the recovery ends with
/// its number, and it stays together with all that follow.
pub fn recover_orphaned_policy(orphans: &Vec<Orphan>) -> (result: (
    Result<RecoveryOutcome, usize>,
    Vec<bool>,
))
    ensures
        result.1@.len() == orphans@.len(),
        match result.0 {
            Err(stop) => {
                &&& stops_at(orphans@, stop as int)
                &&& forall|i: int|
                    0 <= i < orphans@.len() ==> #[trigger] result.1@[i] == (i >= stop
                        || orphans@[i].owner_runs == Some(true))
            },
            Ok(outcome) => {
                &&& none_fails(orphans@)
                &&& outcome == if some_owner_runs(orphans@) {
                    RecoveryOutcome::OwnerStillRunning
                } else if orphans@.len() > 0 {
                    RecoveryOutcome::Restored { snapshots: orphans@.len() as usize }
                } else {
                    RecoveryOutcome::NothingToDo
                }
                &&& forall|i: int|
                    0 <= i < orphans@.len() ==> #[trigger] result.1@[i] == (
                    orphans@[i].owner_runs == Some(true))
            },
        },
{
    let mut stored: Vec<bool> = Vec::new();
    let mut i: usize = 0;
    while i < orphans.len()
        invariant
            i <= orphans@.len(),
            stored@.len() == i,
            forall|j: int| 0 <= j < i ==> #[trigger] stored@[j],
        decreases orphans@.len() - i,
    {
        stored.push(true);
        i = i + 1;
    }
    let mut recovery: Recovery = Recovery::new(orphans.len());
    let mut verdict: RecoveryVerdict = recovery.start();
    let mut at: usize = 0;
    loop
        invariant
            at <= orphans@.len(),
            stored@.len() == orphans@.len(),
            recovery@.policies == orphans@.len(),
            recovery@.restored <= at,
            !recovery@.owner_running ==> recovery@.restored == at,
            recovery@.owner_running == some_owner_runs(orphans@.take(at as int)),
            forall|j: int| 0 <= j < at ==> !(#[trigger] orphans@[j]).fails(),
            forall|j: int|
                0 <= j < orphans@.len() ==> #[trigger] stored@[j] == (j >= at
                    || orphans@[j].owner_runs == Some(true)),
            match verdict {
                RecoveryVerdict::Go(step) => {
                    &&& step.policy() == at
                    &&& at < orphans@.len()
                    &&& step !is AskOwner ==> orphans@[at as int].owner_runs == Some(false)
                    &&& step is Remove ==> orphans@[at as int].recovers
                },
                RecoveryVerdict::Finished(outcome) => at == orphans@.len() && outcome
                    == recovery@.outcome(),
                RecoveryVerdict::Stopped(policy) => policy == at && stops_at(orphans@, at as int),
            },
        decreases orphans@.len() - at, steps_left(verdict),
    {
        match verdict {
            RecoveryVerdict::Finished(outcome) => {
                assert(orphans@.take(at as int) =~= orphans@);
                return (Ok(outcome), stored);
            },
            RecoveryVerdict::Stopped(policy) => {
                return (Err(policy), stored);
            },
            RecoveryVerdict::Go(step) => {
                let orphan: Orphan = orphans[at];
                let report: RecoveryReport = orphan.answered(step);
                let removed: bool = match (step, report) {
                    (RecoveryStep::Remove(_), RecoveryReport::Done) => true,
                    _ => false,
                };
                let kept: bool = match report {
                    RecoveryReport::OwnerRuns(runs) => runs,
                    _ => false,
                };
                verdict = recovery.next(step, report);
                if removed {
                    stored.set(at, false);
                }
                if removed || kept {
                    proof {
                        next_owner(orphans@, at as int);
                    }
                    at = at + 1;
                }
            },
        }
    }
}

/// How many steps at most are left with the policy that a verdict is about.
spec fn steps_left(verdict: RecoveryVerdict) -> nat {
    match verdict {
        RecoveryVerdict::Go(RecoveryStep::AskOwner(_)) => 3,
        RecoveryVerdict::Go(RecoveryStep::Recover(_)) => 2,
        RecoveryVerdict::Go(RecoveryStep::Remove(_)) => 1,
        _ => 0,
    }
}

proof fn next_owner(orphans: Seq<Orphan>, at: int)
    requires
        0 <= at < orphans.len(),
    ensures
        some_owner_runs(orphans.take(at + 1)) == (some_owner_runs(orphans.take(at))
            || orphans[at].owner_runs == Some(true)),
{
    let front = orphans.take(at);
    let more = orphans.take(at + 1);
    if some_owner_runs(front) {
        let i = choose|i: int|
            0 <= i < front.len() && (#[trigger] front[i]).owner_runs == Some(true);
        assert(more[i] == front[i]);
    }
    if orphans[at].owner_runs == Some(true) {
        assert(more[at] == orphans[at]);
    }
    if some_owner_runs(more) {
        let i = choose|i: int| 0 <= i < more.len() && (#[trigger] more[i]).owner_runs == Some(true);
        if i < at {
            assert(front[i] == more[i]);
        }
    }
}

/// A policy is taken back only after the system said that its owner does not run, and removed
/// only after it was taken back. Whatever is refused stops the recovery there; it has
/// finished only with the last policy.
pub proof fn policies_are_taken_back_in_order(
    view: RecoveryView,
    step: RecoveryStep,
    report: RecoveryReport,
)
    ensures
        ({
            let verdict = view.verdict(step, report);
            &&& verdict matches RecoveryVerdict::Go(RecoveryStep::Recover(policy)) ==> step
                == RecoveryStep::AskOwner(policy) && report == RecoveryReport::OwnerRuns(false)
            &&& verdict matches RecoveryVerdict::Go(RecoveryStep::Remove(policy)) ==> step
                == RecoveryStep::Recover(policy) && report == RecoveryReport::Done
            &&& verdict matches RecoveryVerdict::Go(RecoveryStep::AskOwner(policy)) ==> policy
                == step.policy() + 1 && (report == RecoveryReport::OwnerRuns(true) || step
                is Remove && report == RecoveryReport::Done)
            &&& report == RecoveryReport::Failed ==> verdict == RecoveryVerdict::Stopped(
                step.policy(),
            )
            &&& verdict is Finished ==> step.policy() + 1 == view.policies
        }),
{
}

/// Removed policies are counted, one by one, and an owner that was seen running is not
/// forgotten: only where none was is the count what the recovery comes to.
pub proof fn recoveries_are_counted(
    view: RecoveryView,
    step: RecoveryStep,
    report: RecoveryReport,
)
    requires
        view.restored <= step.policy() < view.policies,
    ensures
        ({
            let after = view.after(step, report);
            &&& after.policies == view.policies
            &&& after.restored - view.restored == if step is Remove && report
                == RecoveryReport::Done {
                1int
            } else {
                0
            }
            &&& after.owner_running == (view.owner_running || step is AskOwner && report
                == RecoveryReport::OwnerRuns(true))
            &&& (after.outcome() is OwnerStillRunning) == after.owner_running
            &&& (after.outcome() is NothingToDo) == (!after.owner_running && after.restored == 0)
            &&& after.outcome() matches RecoveryOutcome::Restored { snapshots } ==> snapshots
                == after.restored
        }),
{
}

} // verus!
