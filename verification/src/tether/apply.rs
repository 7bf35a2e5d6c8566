//! How the route policy is applied to an interface, step by step.
use crate::tether::policy::{may_delete, PersistedRoute};
use crate::text;
use vstd::prelude::*;
use vstd::seq_lib::*;
use vstd::string::*;

verus! {

/// What is to be done next with the interface. An application starts with `Compare`; a
/// policy that is in force is reasserted from `Inspect` on.
#[derive(Clone, Copy, Debug, PartialEq, Eq, Structural)]
pub enum ApplyStep {
    /// To read the default routes, before anything is changed.
    Compare,
    /// To read whether default routes are disabled.
    Look,
    /// To disable default routes.
    Disable,
    /// To read the default routes, before this one of the captured ones is removed.
    Recheck(usize),
    /// To remove this one of the captured routes.
    Remove(usize),
    /// To read whether default routes are disabled.
    Inspect,
    /// To disable default routes again.
    Reassert,
    /// To read whether default routes are disabled now.
    Confirm,
    /// To read the default routes that are left.
    Sweep,
}

/// What came of a step.
pub enum ApplyReport {
    /// The default routes of the interface.
    Routes(Vec<PersistedRoute>),
    /// Whether default routes are disabled; `None` where the interface is gone.
    Interface(Option<bool>),
    /// The change was made.
    Done,
    /// The system refused.
    Failed,
}

#[verifier::ext_equal]
pub enum ApplyReportView {
    Routes(Seq<PersistedRoute>),
    Interface(Option<bool>),
    Done,
    Failed,
}

impl View for ApplyReport {
    type V = ApplyReportView;

    open spec fn view(&self) -> ApplyReportView {
        match *self {
            ApplyReport::Routes(routes) => ApplyReportView::Routes(routes@),
            ApplyReport::Interface(disabled) => ApplyReportView::Interface(disabled),
            ApplyReport::Done => ApplyReportView::Done,
            ApplyReport::Failed => ApplyReportView::Failed,
        }
    }
}

/// Why the policy is not applied any further.
#[derive(Clone, Copy, Debug, PartialEq, Eq, Structural)]
pub enum ApplyRefusal {
    /// The routes are not those that were captured.
    ChangedAfterCapture,
    /// The interface is gone.
    GoneBefore,
    /// Some route came or went meanwhile.
    ChangedDuring,
    /// The protected interface is gone.
    GoneProtected,
    /// The protected interface went while it was looked at.
    GoneMeanwhile,
    /// Default routes are still enabled.
    StillEnabled,
    /// Routes appeared that no journal holds: they are not removed.
    Unjournaled(usize),
}

/// How an application goes on.
#[derive(Clone, Copy, Debug, PartialEq, Eq, Structural)]
pub enum ApplyVerdict {
    Go(ApplyStep),
    /// The policy is in force.
    Finished,
    Refused(ApplyRefusal),
    /// The system refused a step, or the report answers another one.
    Failed,
}

pub open spec fn removal(captured: nat, at: int) -> ApplyStep {
    if at < captured {
        ApplyStep::Recheck(at as usize)
    } else {
        ApplyStep::Inspect
    }
}

/// How an application goes on after a step.
pub open spec fn apply_after(
    captured: Seq<PersistedRoute>,
    step: ApplyStep,
    report: ApplyReportView,
) -> ApplyVerdict {
    match (step, report) {
        (ApplyStep::Compare, ApplyReportView::Routes(routes)) => if routes.to_multiset()
            == captured.to_multiset() {
            ApplyVerdict::Go(ApplyStep::Look)
        } else {
            ApplyVerdict::Refused(ApplyRefusal::ChangedAfterCapture)
        },
        (ApplyStep::Look, ApplyReportView::Interface(disabled)) => match disabled {
            None => ApplyVerdict::Refused(ApplyRefusal::GoneBefore),
            Some(true) => ApplyVerdict::Go(removal(captured.len(), 0)),
            Some(false) => ApplyVerdict::Go(ApplyStep::Disable),
        },
        (ApplyStep::Disable, ApplyReportView::Done) => ApplyVerdict::Go(removal(captured.len(), 0)),
        (ApplyStep::Recheck(at), ApplyReportView::Routes(routes)) => if at >= captured.len() {
            ApplyVerdict::Failed
        } else if routes.to_multiset() == captured.skip(at as int).to_multiset() {
            ApplyVerdict::Go(ApplyStep::Remove(at))
        } else {
            ApplyVerdict::Refused(ApplyRefusal::ChangedDuring)
        },
        (ApplyStep::Remove(at), ApplyReportView::Done) => if at >= captured.len() {
            ApplyVerdict::Failed
        } else {
            ApplyVerdict::Go(removal(captured.len(), at + 1))
        },
        (ApplyStep::Inspect, ApplyReportView::Interface(disabled)) => match disabled {
            None => ApplyVerdict::Refused(ApplyRefusal::GoneProtected),
            Some(true) => ApplyVerdict::Go(ApplyStep::Confirm),
            Some(false) => ApplyVerdict::Go(ApplyStep::Reassert),
        },
        (ApplyStep::Reassert, ApplyReportView::Done) => ApplyVerdict::Go(ApplyStep::Confirm),
        (ApplyStep::Confirm, ApplyReportView::Interface(disabled)) => match disabled {
            None => ApplyVerdict::Refused(ApplyRefusal::GoneMeanwhile),
            Some(true) => ApplyVerdict::Go(ApplyStep::Sweep),
            Some(false) => ApplyVerdict::Refused(ApplyRefusal::StillEnabled),
        },
        (ApplyStep::Sweep, ApplyReportView::Routes(routes)) => if routes.len() == 0 {
            ApplyVerdict::Finished
        } else {
            ApplyVerdict::Refused(ApplyRefusal::Unjournaled(routes.len() as usize))
        },
        _ => ApplyVerdict::Failed,
    }
}

fn next_removal(captured: &Vec<PersistedRoute>, at: usize) -> (step: ApplyStep)
    ensures
        step == removal(captured@.len(), at as int),
{
    if at < captured.len() {
        ApplyStep::Recheck(at)
    } else {
        ApplyStep::Inspect
    }
}

/// Says how an application of the policy for some captured routes goes on after a step.
pub fn apply_next(captured: &Vec<PersistedRoute>, step: ApplyStep, report: &ApplyReport) -> (verdict:
    ApplyVerdict)
    ensures
        verdict == apply_after(captured@, step, report@),
{
    let count: usize = captured.len();
    assert(captured@.skip(0) =~= captured@);
    match (step, report) {
        (ApplyStep::Compare, ApplyReport::Routes(routes)) => if may_delete(
            routes.as_slice(),
            captured.as_slice(),
            0,
        ) {
            ApplyVerdict::Go(ApplyStep::Look)
        } else {
            ApplyVerdict::Refused(ApplyRefusal::ChangedAfterCapture)
        },
        (ApplyStep::Look, ApplyReport::Interface(disabled)) => match *disabled {
            None => ApplyVerdict::Refused(ApplyRefusal::GoneBefore),
            Some(true) => ApplyVerdict::Go(next_removal(captured, 0)),
            Some(false) => ApplyVerdict::Go(ApplyStep::Disable),
        },
        (ApplyStep::Disable, ApplyReport::Done) => ApplyVerdict::Go(next_removal(captured, 0)),
        (ApplyStep::Recheck(at), ApplyReport::Routes(routes)) => if at >= count {
            ApplyVerdict::Failed
        } else if may_delete(routes.as_slice(), captured.as_slice(), at) {
            ApplyVerdict::Go(ApplyStep::Remove(at))
        } else {
            ApplyVerdict::Refused(ApplyRefusal::ChangedDuring)
        },
        (ApplyStep::Remove(at), ApplyReport::Done) => if at >= count {
            ApplyVerdict::Failed
        } else {
            ApplyVerdict::Go(next_removal(captured, at + 1))
        },
        (ApplyStep::Inspect, ApplyReport::Interface(disabled)) => match *disabled {
            None => ApplyVerdict::Refused(ApplyRefusal::GoneProtected),
            Some(true) => ApplyVerdict::Go(ApplyStep::Confirm),
            Some(false) => ApplyVerdict::Go(ApplyStep::Reassert),
        },
        (ApplyStep::Reassert, ApplyReport::Done) => ApplyVerdict::Go(ApplyStep::Confirm),
        (ApplyStep::Confirm, ApplyReport::Interface(disabled)) => match *disabled {
            None => ApplyVerdict::Refused(ApplyRefusal::GoneMeanwhile),
            Some(true) => ApplyVerdict::Go(ApplyStep::Sweep),
            Some(false) => ApplyVerdict::Refused(ApplyRefusal::StillEnabled),
        },
        (ApplyStep::Sweep, ApplyReport::Routes(routes)) => {
            let left: usize = routes.len();
            if left == 0 {
                ApplyVerdict::Finished
            } else {
                ApplyVerdict::Refused(ApplyRefusal::Unjournaled(left))
            }
        },
        _ => ApplyVerdict::Failed,
    }
}

impl ApplyRefusal {
    pub open spec fn wording(self, interface_index: u32) -> Seq<char> {
        let index = text::decimal(interface_index as nat);
        match self {
            ApplyRefusal::ChangedAfterCapture => "default routes on tether interface "@ + index
                + " changed after capture; refusing to delete newer state"@,
            ApplyRefusal::GoneBefore => "tether interface "@ + index
                + " disappeared before policy application"@,
            ApplyRefusal::ChangedDuring => "default routes on tether interface "@ + index
                + " changed during policy application; refusing further deletion"@,
            ApplyRefusal::GoneProtected => "protected tether interface "@ + index
                + " is no longer present"@,
            ApplyRefusal::GoneMeanwhile => "protected tether interface "@ + index
                + " disappeared during policy verification"@,
            ApplyRefusal::StillEnabled =>
                "Windows reported route-policy success but default routes remain enabled on tether interface "@
                + index,
            ApplyRefusal::Unjournaled(routes) => text::decimal(routes as nat)
                + " unjournaled default route(s) appeared on protected tether interface "@ + index
                + "; refusing to delete them"@,
        }
    }

    /// What is said of a refusal on an interface.
    pub fn message(self, interface_index: u32) -> (message: String)
        ensures
            message@ == self.wording(interface_index),
    {
        let index: u64 = interface_index as u64;
        match self {
            ApplyRefusal::ChangedAfterCapture => {
                let mut message: String = text::numbered(
                    "default routes on tether interface ",
                    index,
                );
                message.append(" changed after capture; refusing to delete newer state");
                message
            },
            ApplyRefusal::GoneBefore => {
                let mut message: String = text::numbered("tether interface ", index);
                message.append(" disappeared before policy application");
                message
            },
            ApplyRefusal::ChangedDuring => {
                let mut message: String = text::numbered(
                    "default routes on tether interface ",
                    index,
                );
                message.append(" changed during policy application; refusing further deletion");
                message
            },
            ApplyRefusal::GoneProtected => {
                let mut message: String = text::numbered("protected tether interface ", index);
                message.append(" is no longer present");
                message
            },
            ApplyRefusal::GoneMeanwhile => {
                let mut message: String = text::numbered("protected tether interface ", index);
                message.append(" disappeared during policy verification");
                message
            },
            ApplyRefusal::StillEnabled => text::numbered(
                "Windows reported route-policy success but default routes remain enabled on tether interface ",
                index,
            ),
            ApplyRefusal::Unjournaled(routes) => {
                let mut message: String = String::new();
                text::push_decimal(&mut message, routes as u128);
                assert(message@ =~= text::decimal(routes as nat));
                message.append(
                    " unjournaled default route(s) appeared on protected tether interface ",
                );
                text::push_decimal(&mut message, interface_index as u128);
                message.append("; refusing to delete them");
                message
            },
        }
    }
}

/// An interface, as far as the policy goes.
#[verifier::ext_equal]
pub struct Interface {
    pub routes: Seq<PersistedRoute>,
    pub disabled: bool,
}

/// `routes` without one of its routes.
pub open spec fn without(routes: Seq<PersistedRoute>, route: PersistedRoute) -> Seq<
    PersistedRoute,
> {
    if routes.contains(route) {
        routes.remove(routes.index_of(route))
    } else {
        routes
    }
}

impl Interface {
    /// What a step reports of an interface that is there and that obeys.
    pub open spec fn told(self, step: ApplyStep) -> ApplyReportView {
        match step {
            ApplyStep::Compare | ApplyStep::Recheck(_) | ApplyStep::Sweep
                => ApplyReportView::Routes(self.routes),
            ApplyStep::Look | ApplyStep::Inspect | ApplyStep::Confirm
                => ApplyReportView::Interface(Some(self.disabled)),
            ApplyStep::Disable | ApplyStep::Reassert | ApplyStep::Remove(_)
                => ApplyReportView::Done,
        }
    }

    /// The interface after a step that it obeyed.
    pub open spec fn changed(self, captured: Seq<PersistedRoute>, step: ApplyStep) -> Interface {
        match step {
            ApplyStep::Disable | ApplyStep::Reassert => Interface { disabled: true, ..self },
            ApplyStep::Remove(at) => Interface {
                routes: without(self.routes, captured[at as int]),
                ..self
            },
            _ => self,
        }
    }
}

/// How far a step is from the end.
pub open spec fn phase(step: ApplyStep) -> nat {
    match step {
        ApplyStep::Compare => 9,
        ApplyStep::Look => 8,
        ApplyStep::Disable => 7,
        ApplyStep::Recheck(_) | ApplyStep::Remove(_) => 6,
        ApplyStep::Inspect => 5,
        ApplyStep::Reassert => 4,
        ApplyStep::Confirm => 3,
        ApplyStep::Sweep => 2,
    }
}

/// How much of the removal a step has before it.
pub open spec fn to_remove(captured: nat, step: ApplyStep) -> int {
    match step {
        ApplyStep::Recheck(at) => 2 * (captured - at) + 1,
        ApplyStep::Remove(at) => 2 * (captured - at),
        _ => 0,
    }
}

/// The interface once an application that went on from a step has finished, where it does.
pub open spec fn applied(
    captured: Seq<PersistedRoute>,
    step: ApplyStep,
    interface: Interface,
) -> Option<Interface>
    decreases phase(step), to_remove(captured.len(), step),
{
    if captured.len() > usize::MAX {
        None
    } else {
        match apply_after(captured, step, interface.told(step)) {
            ApplyVerdict::Go(next) => applied(captured, next, interface.changed(captured, step)),
            ApplyVerdict::Finished => Some(interface.changed(captured, step)),
            _ => None,
        }
    }
}

/// How many of the captured routes are removed when a step is due.
pub open spec fn removed(captured: nat, step: ApplyStep) -> nat {
    match step {
        ApplyStep::Compare | ApplyStep::Look | ApplyStep::Disable => 0,
        ApplyStep::Recheck(at) | ApplyStep::Remove(at) => at as nat,
        _ => captured,
    }
}

/// An interface that holds exactly the captured routes that are not removed yet when a step
/// is due.
pub open spec fn on_course(
    captured: Seq<PersistedRoute>,
    step: ApplyStep,
    interface: Interface,
) -> bool {
    let count = removed(captured.len(), step);
    count <= captured.len() && interface.routes.to_multiset() == captured.skip(
        count as int,
    ).to_multiset()
}

/// Only what the journal holds is removed: a route is due for removal only where the routes
/// that are there are exactly the captured ones from that one on.
pub proof fn only_captured_routes_are_removed(
    captured: Seq<PersistedRoute>,
    step: ApplyStep,
    report: ApplyReportView,
    at: usize,
)
    requires
        apply_after(captured, step, report) == ApplyVerdict::Go(ApplyStep::Remove(at)),
    ensures
        at < captured.len(),
        report matches ApplyReportView::Routes(routes) && routes.to_multiset() == captured.skip(
            at as int,
        ).to_multiset(),
{
}

proof fn one_less(captured: Seq<PersistedRoute>, at: int, routes: Seq<PersistedRoute>)
    requires
        0 <= at < captured.len(),
        routes.to_multiset() == captured.skip(at).to_multiset(),
    ensures
        without(routes, captured[at]).to_multiset() == captured.skip(at + 1).to_multiset(),
{
    broadcast use group_to_multiset_ensures;

    let rest = captured.skip(at);
    assert(rest[0] == captured[at]);
    assert(rest.contains(captured[at]));
    assert(rest.to_multiset().count(captured[at]) > 0);
    assert(routes.contains(captured[at]));
    assert(rest.remove(0) =~= captured.skip(at + 1));
    to_multiset_remove(rest, 0);
    to_multiset_remove(routes, routes.index_of(captured[at]));
}

/// An interface that obeys stays on course: whenever an application stops, the routes that
/// are left are the captured ones that were not removed yet.
pub proof fn application_stays_on_course(
    captured: Seq<PersistedRoute>,
    step: ApplyStep,
    interface: Interface,
    next: ApplyStep,
)
    requires
        captured.len() <= usize::MAX,
        on_course(captured, step, interface),
        apply_after(captured, step, interface.told(step)) == ApplyVerdict::Go(next),
    ensures
        on_course(captured, next, interface.changed(captured, step)),
{
    if let ApplyStep::Remove(at) = step {
        one_less(captured, at as int, interface.routes);
    }
}

/// Applied to an interface as it was captured, the policy leaves no default route and
/// disables them.
pub proof fn application_cuts_the_gateway(captured: Seq<PersistedRoute>, interface: Interface)
    requires
        captured.len() <= usize::MAX,
        interface.routes.to_multiset() == captured.to_multiset(),
    ensures
        applied(captured, ApplyStep::Compare, interface) == Some(
            Interface { routes: Seq::empty(), disabled: true },
        ),
{
    assert(captured.skip(0) =~= captured);
    runs_to_the_end(captured, ApplyStep::Compare, interface);
}

proof fn runs_to_the_end(captured: Seq<PersistedRoute>, step: ApplyStep, interface: Interface)
    requires
        captured.len() <= usize::MAX,
        on_course(captured, step, interface),
        step matches ApplyStep::Recheck(at) ==> at < captured.len(),
        step matches ApplyStep::Remove(at) ==> at < captured.len(),
        phase(step) < 8 && step != ApplyStep::Disable && step != ApplyStep::Inspect && step
            != ApplyStep::Reassert ==> interface.disabled,
    ensures
        applied(captured, step, interface) == Some(
            Interface { routes: Seq::empty(), disabled: true },
        ),
    decreases phase(step), to_remove(captured.len(), step),
{
    broadcast use group_to_multiset_ensures;

    assert(captured.skip(0) =~= captured);
    assert(captured.skip(captured.len() as int) =~= Seq::<PersistedRoute>::empty());
    match apply_after(captured, step, interface.told(step)) {
        ApplyVerdict::Go(next) => {
            application_stays_on_course(captured, step, interface, next);
            runs_to_the_end(captured, next, interface.changed(captured, step));
        },
        _ => {
            if step == ApplyStep::Sweep {
                to_multiset_len(interface.routes);
                to_multiset_len(Seq::<PersistedRoute>::empty());
                assert(interface.routes =~= Seq::<PersistedRoute>::empty());
            }
        },
    }
}

/// A step that the system refused stops the application, and so does an interface that is
/// gone wherever it is looked at.
pub proof fn trouble_stops_the_application(captured: Seq<PersistedRoute>, step: ApplyStep)
    ensures
        apply_after(captured, step, ApplyReportView::Failed) is Failed,
        step is Look || step is Inspect || step is Confirm ==> apply_after(
            captured,
            step,
            ApplyReportView::Interface(None),
        ) is Refused,
{
}

/// Routes that are not those expected are left alone: the application is refused wherever
/// they show, and where some are left at the end it says how many.
pub proof fn newer_routes_are_left_alone(
    captured: Seq<PersistedRoute>,
    routes: Seq<PersistedRoute>,
    at: usize,
)
    requires
        at < captured.len(),
    ensures
        routes.to_multiset() != captured.to_multiset() ==> apply_after(
            captured,
            ApplyStep::Compare,
            ApplyReportView::Routes(routes),
        ) is Refused,
        routes.to_multiset() != captured.skip(at as int).to_multiset() ==> apply_after(
            captured,
            ApplyStep::Recheck(at),
            ApplyReportView::Routes(routes),
        ) is Refused,
        routes.len() > 0 ==> apply_after(
            captured,
            ApplyStep::Sweep,
            ApplyReportView::Routes(routes),
        ) == ApplyVerdict::Refused(ApplyRefusal::Unjournaled(routes.len() as usize)),
{
}

/// A policy is called in force only where no default route was left, after the interface had
/// said that default routes are disabled; and it is told to disable them only after it had
/// said that they are not.
pub proof fn force_is_confirmed(
    captured: Seq<PersistedRoute>,
    step: ApplyStep,
    report: ApplyReportView,
)
    ensures
        apply_after(captured, step, report) is Finished ==> step is Sweep && report
            == ApplyReportView::Routes(Seq::empty()),
        apply_after(captured, step, report) == ApplyVerdict::Go(ApplyStep::Sweep) ==> step
            is Confirm && report == ApplyReportView::Interface(Some(true)),
        apply_after(captured, step, report) == ApplyVerdict::Go(ApplyStep::Disable) || apply_after(
            captured,
            step,
            report,
        ) == ApplyVerdict::Go(ApplyStep::Reassert) ==> report == ApplyReportView::Interface(
            Some(false),
        ),
{
    if let ApplyReportView::Routes(routes) = report {
        if routes.len() == 0 {
            assert(routes =~= Seq::empty());
        }
    }
}

} // verus!
