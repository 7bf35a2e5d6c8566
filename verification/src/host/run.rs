//! The life of the host: waiting for a phone, serving it, recovering, stopping.
use crate::host::options::Platform;
use crate::host::status;
use crate::host::status::{push_endpoint, HostPhase};
use crate::network::Endpoint;
use crate::text;
use vstd::prelude::*;
use vstd::string::*;

verus! {

/// How the host was asked to run.
#[derive(Clone, Copy, Debug, PartialEq, Eq, Structural)]
pub struct Plan {
    /// Version 4 of the protocol.
    pub legacy: bool,
    pub platform: Platform,
    pub local_only: bool,
}

/// What the host does next.
#[derive(Clone, Copy, Debug, PartialEq, Eq, Structural)]
pub enum Stage {
    /// To bring the route policy up to date.
    Refresh,
    /// To release input that is still held.
    Release,
    /// To wait for a phone.
    Accept,
    /// To check that the tether owns no default route.
    Confine,
    /// To protect the route to the phone.
    Protect,
    /// To check again that the phone is where it was found.
    Revalidate,
    Serve,
    /// To demand a fresh session and release the input of the failed one.
    Recover,
    /// To release the input, write the report and restore the routes.
    Finish,
}

/// What the work of a stage came to.
#[derive(Clone, Copy, Debug, PartialEq, Eq, Structural)]
pub enum Outcome {
    Done,
    /// For want of permission.
    Denied,
    TimedOut,
    /// No phone was ever paired.
    NotPaired,
    Failed,
}

/// What follows.
#[derive(Clone, Copy, Debug, PartialEq, Eq, Structural)]
pub enum Verdict {
    Go(Stage),
    /// To start over after a pause.
    Again { pause_millis: u64, recovering: bool },
    /// To give up, with the fault of the stage.
    Abort,
    End,
}

impl Plan {
    /// Whether the host changes routes: only on Windows.
    pub open spec fn has_policy(self) -> bool {
        self.local_only && self.platform == Platform::Windows
    }

    /// Whether the host refuses a tether that owns a default route: only on Linux, where
    /// it changes none.
    pub open spec fn confines(self) -> bool {
        self.local_only && self.platform == Platform::Linux
    }

    pub open spec fn ready(held: bool) -> Stage {
        if held {
            Stage::Release
        } else {
            Stage::Accept
        }
    }

    /// Where a round starts.
    pub open spec fn head(self, stopping: bool, held: bool) -> Stage {
        if stopping {
            Stage::Finish
        } else if self.has_policy() {
            Stage::Refresh
        } else {
            Plan::ready(held)
        }
    }

    pub open spec fn accepted(self) -> Stage {
        if self.has_policy() {
            Stage::Protect
        } else if !self.legacy && self.confines() {
            Stage::Confine
        } else {
            Stage::Revalidate
        }
    }

    /// What follows a stage.
    pub open spec fn after(
        self,
        stage: Stage,
        outcome: Outcome,
        stopping: bool,
        held: bool,
    ) -> Verdict {
        let done = outcome == Outcome::Done;
        match stage {
            Stage::Refresh => if done {
                Verdict::Go(Plan::ready(held))
            } else {
                Verdict::Abort
            },
            Stage::Release => if done {
                Verdict::Go(Stage::Accept)
            } else {
                Verdict::Again { pause_millis: 1, recovering: false }
            },
            Stage::Accept => if done {
                Verdict::Go(self.accepted())
            } else if self.legacy {
                if outcome == Outcome::Denied && self.confines() {
                    Verdict::Abort
                } else {
                    Verdict::Again { pause_millis: 250, recovering: false }
                }
            } else if outcome == Outcome::TimedOut {
                Verdict::Again { pause_millis: 0, recovering: false }
            } else if outcome == Outcome::NotPaired {
                Verdict::Abort
            } else {
                Verdict::Again { pause_millis: 100, recovering: false }
            },
            Stage::Confine => if done {
                Verdict::Go(Stage::Revalidate)
            } else {
                Verdict::Abort
            },
            Stage::Protect => if done {
                Verdict::Go(Stage::Revalidate)
            } else if !self.legacy || outcome == Outcome::Denied {
                Verdict::Abort
            } else {
                Verdict::Again { pause_millis: 0, recovering: true }
            },
            Stage::Revalidate => if done {
                Verdict::Go(Stage::Serve)
            } else {
                Verdict::Again { pause_millis: 0, recovering: true }
            },
            Stage::Serve => if done {
                Verdict::Again { pause_millis: 0, recovering: false }
            } else if stopping {
                Verdict::Go(Stage::Finish)
            } else {
                Verdict::Go(Stage::Recover)
            },
            Stage::Recover => Verdict::Again {
                pause_millis: if self.legacy {
                    100
                } else {
                    0
                },
                recovering: false,
            },
            Stage::Finish => Verdict::End,
        }
    }

    /// The phase that is said on entering a stage.
    pub open spec fn said(self, stage: Stage) -> Option<HostPhase> {
        match stage {
            Stage::Accept => if self.legacy {
                None
            } else {
                Some(HostPhase::Waiting)
            },
            Stage::Serve => Some(HostPhase::Connected),
            Stage::Recover => Some(HostPhase::Recovering),
            Stage::Finish => Some(HostPhase::Stopping),
            _ => None,
        }
    }

    fn changes_routes(&self) -> (yes: bool)
        ensures
            yes == self.has_policy(),
    {
        self.local_only && matches!(self.platform, Platform::Windows)
    }

    fn is_confined(&self) -> (yes: bool)
        ensures
            yes == self.confines(),
    {
        self.local_only && matches!(self.platform, Platform::Linux)
    }

    /// The first stage of a round.
    pub fn start(&self, stopping: bool, held: bool) -> (stage: Stage)
        ensures
            stage == self.head(stopping, held),
    {
        if stopping {
            Stage::Finish
        } else if self.changes_routes() {
            Stage::Refresh
        } else if held {
            Stage::Release
        } else {
            Stage::Accept
        }
    }

    /// What follows a stage whose work came to `outcome`.
    pub fn next(&self, stage: Stage, outcome: Outcome, stopping: bool, held: bool) -> (verdict:
        Verdict)
        ensures
            verdict == self.after(stage, outcome, stopping, held),
    {
        let done: bool = outcome == Outcome::Done;
        match stage {
            Stage::Refresh => if done {
                Verdict::Go(
                    if held {
                        Stage::Release
                    } else {
                        Stage::Accept
                    },
                )
            } else {
                Verdict::Abort
            },
            Stage::Release => if done {
                Verdict::Go(Stage::Accept)
            } else {
                Verdict::Again { pause_millis: 1, recovering: false }
            },
            Stage::Accept => self.after_accept(outcome),
            Stage::Confine => if done {
                Verdict::Go(Stage::Revalidate)
            } else {
                Verdict::Abort
            },
            Stage::Protect => if done {
                Verdict::Go(Stage::Revalidate)
            } else if !self.legacy || outcome == Outcome::Denied {
                Verdict::Abort
            } else {
                Verdict::Again { pause_millis: 0, recovering: true }
            },
            Stage::Revalidate => if done {
                Verdict::Go(Stage::Serve)
            } else {
                Verdict::Again { pause_millis: 0, recovering: true }
            },
            Stage::Serve => if done {
                Verdict::Again { pause_millis: 0, recovering: false }
            } else if stopping {
                Verdict::Go(Stage::Finish)
            } else {
                Verdict::Go(Stage::Recover)
            },
            Stage::Recover => Verdict::Again {
                pause_millis: if self.legacy {
                    100
                } else {
                    0
                },
                recovering: false,
            },
            Stage::Finish => Verdict::End,
        }
    }

    fn after_accept(&self, outcome: Outcome) -> (verdict: Verdict)
        ensures
            verdict == self.after(Stage::Accept, outcome, false, false),
    {
        match outcome {
            Outcome::Done => Verdict::Go(
                if self.changes_routes() {
                    Stage::Protect
                } else if !self.legacy && self.is_confined() {
                    Stage::Confine
                } else {
                    Stage::Revalidate
                },
            ),
            Outcome::Denied if self.legacy && self.is_confined() => Verdict::Abort,
            _ if self.legacy => Verdict::Again { pause_millis: 250, recovering: false },
            Outcome::TimedOut => Verdict::Again { pause_millis: 0, recovering: false },
            Outcome::NotPaired => Verdict::Abort,
            _ => Verdict::Again { pause_millis: 100, recovering: false },
        }
    }

    /// The phase to say on entering a stage.
    pub fn announcement(&self, stage: Stage) -> (phase: Option<HostPhase>)
        ensures
            phase == self.said(stage),
    {
        match stage {
            Stage::Accept => if self.legacy {
                None
            } else {
                Some(HostPhase::Waiting)
            },
            Stage::Serve => Some(HostPhase::Connected),
            Stage::Recover => Some(HostPhase::Recovering),
            Stage::Finish => Some(HostPhase::Stopping),
            _ => None,
        }
    }
}

pub open spec fn hint(denied: bool) -> Seq<char> {
    if denied {
        "; run the launcher as administrator"@
    } else {
        ""@
    }
}

/// What is said of a fault in the route policy, with a hint where permission was missing.
pub fn policy_fault(intent: &str, error: &str, denied: bool) -> (message: String)
    ensures
        message@ == "could not "@ + intent@ + ": "@ + error@ + hint(denied),
{
    let mut message: String = "could not ".to_owned();
    message.append(intent);
    message.append(": ");
    message.append(error);
    message.append(
        if denied {
            "; run the launcher as administrator"
        } else {
            ""
        },
    );
    message
}

/// What is said when the route to a phone could not be protected.
pub fn protect_fault(peer: Endpoint, error: &str, denied: bool) -> (message: String)
    ensures
        message@ == "could not protect the USB tether route for "@ + status::endpoint_text(peer)
            + ": "@ + error@ + hint(denied),
{
    let mut message: String = "could not protect the USB tether route for ".to_owned();
    push_endpoint(&mut message, peer);
    message.append(": ");
    message.append(error);
    message.append(
        if denied {
            "; run the launcher as administrator"
        } else {
            ""
        },
    );
    message
}

/// Why a tether is refused by its default routes, where it is.
pub open spec fn confinement(ipv4: bool, ipv6: bool) -> Option<Seq<char>> {
    if ipv4 || ipv6 {
        Some(
            "local-only routing failed closed because a "@ + (if ipv4 && ipv6 {
                "IPv4 and IPv6"@
            } else if ipv4 {
                "IPv4"@
            } else {
                "IPv6"@
            }) + " default route uses the discovered RNDIS device"@,
        )
    } else {
        None
    }
}

/// Refuses a tether that owns a default route.
pub fn default_route_refusal(ipv4: bool, ipv6: bool) -> (message: Option<String>)
    ensures
        match message {
            Some(message) => confinement(ipv4, ipv6) == Some(message@),
            None => confinement(ipv4, ipv6) is None,
        },
{
    if !ipv4 && !ipv6 {
        return None;
    }
    let mut message: String = "local-only routing failed closed because a ".to_owned();
    message.append(
        if ipv4 && ipv6 {
            "IPv4 and IPv6"
        } else if ipv4 {
            "IPv4"
        } else {
            "IPv6"
        },
    );
    message.append(" default route uses the discovered RNDIS device");
    Some(message)
}

/// Why an encrypted link cannot be kept local: `routes` says which default routes its
/// tether owns, and is `None` where it runs over none.
pub open spec fn v5_confinement(local_only: bool, routes: Option<(bool, bool)>) -> Option<
    Seq<char>,
> {
    if !local_only {
        None
    } else {
        match routes {
            None => Some("local-only tethering requires the selected USB transport"@),
            Some((ipv4, ipv6)) => if ipv4 || ipv6 {
                Some(
                    "local-only routing failed closed because the USB tether owns a default route"@,
                )
            } else {
                None
            },
        }
    }
}

/// Refuses an encrypted link that is to be kept local and cannot be.
pub fn verify_v5_local_only(local_only: bool, routes: Option<(bool, bool)>) -> (result: Result<
    (),
    &'static str,
>)
    ensures
        match result {
            Ok(()) => v5_confinement(local_only, routes) is None,
            Err(message) => v5_confinement(local_only, routes) == Some(message@),
        },
{
    if !local_only {
        return Ok(());
    }
    match routes {
        None => Err("local-only tethering requires the selected USB transport"),
        Some((ipv4, ipv6)) => if ipv4 || ipv6 {
            Err("local-only routing failed closed because the USB tether owns a default route")
        } else {
            Ok(())
        },
    }
}

/// What is said of routes that an earlier run had left changed.
pub fn recovered_line(snapshots: usize) -> (line: String)
    ensures
        line@ == "Recovered "@ + text::decimal(snapshots as nat)
            + " orphaned USB-tether route settings."@,
{
    let mut line: String = "Recovered ".to_owned();
    text::push_decimal(&mut line, snapshots as u128);
    line.append(" orphaned USB-tether route settings.");
    line
}

/// The host waits for a phone with empty hands: input that is held is released first.
pub proof fn waiting_holds_nothing(
    plan: Plan,
    stage: Stage,
    outcome: Outcome,
    stopping: bool,
    held: bool,
)
    ensures
        plan.head(stopping, held) == Stage::Accept ==> !held,
        plan.after(stage, outcome, stopping, held) == Verdict::Go(Stage::Accept) ==> !held || (stage
            == Stage::Release && outcome == Outcome::Done),
{
}

/// A phone is served only right after it was found again where it was accepted.
pub proof fn serving_needs_revalidation(
    plan: Plan,
    stage: Stage,
    outcome: Outcome,
    stopping: bool,
    held: bool,
)
    ensures
        plan.after(stage, outcome, stopping, held) == Verdict::Go(Stage::Serve) ==> stage
            == Stage::Revalidate && outcome == Outcome::Done,
        plan.head(stopping, held) != Stage::Serve,
{
}

/// Under a local-only plan no phone is looked up again, and so none is served, before its
/// route is protected on Windows or, in version 5, its routes are inspected on Linux.
pub proof fn policy_comes_before_service(
    plan: Plan,
    stage: Stage,
    outcome: Outcome,
    stopping: bool,
    held: bool,
)
    requires
        plan.has_policy() || (plan.confines() && !plan.legacy),
    ensures
        plan.after(stage, outcome, stopping, held) == Verdict::Go(Stage::Revalidate) ==> outcome
            == Outcome::Done && (stage == Stage::Protect || stage == Stage::Confine),
{
}

/// A link that fails while the host goes on leads to the release of its input; a host that
/// is asked to stop never starts a round.
pub proof fn failed_link_is_released(plan: Plan, outcome: Outcome, held: bool)
    requires
        outcome != Outcome::Done,
    ensures
        plan.after(Stage::Serve, outcome, false, held) == Verdict::Go(Stage::Recover),
        plan.after(Stage::Serve, outcome, true, held) == Verdict::Go(Stage::Finish),
        plan.head(true, held) == Stage::Finish,
{
}

/// The host gives up for good only where it could not go on: when the route policy cannot be
/// brought up to date, when a tether cannot be confined, when a route cannot be protected in
/// version 5 or for want of permission, when version 4 is denied a confined tether, and when no
/// phone was ever paired. Everything else is tried again.
pub proof fn host_gives_up_only_for_good_reason(
    plan: Plan,
    stage: Stage,
    outcome: Outcome,
    stopping: bool,
    held: bool,
)
    ensures
        plan.after(stage, outcome, stopping, held) == Verdict::Abort <==> outcome != Outcome::Done
            && match stage {
            Stage::Refresh => true,
            Stage::Confine => true,
            Stage::Protect => !plan.legacy || outcome == Outcome::Denied,
            Stage::Accept => if plan.legacy {
                outcome == Outcome::Denied && plan.local_only && plan.platform == Platform::Linux
            } else {
                outcome == Outcome::NotPaired
            },
            _ => false,
        },
        plan.after(stage, outcome, stopping, held) == Verdict::End <==> stage == Stage::Finish,
{
}

/// A phone that is found is served, if every step succeeds: on Windows under a local-only plan
/// after its route is protected, on Linux in version 5 after its routes are looked at, and
/// otherwise at once; each time after it was looked up again.
pub proof fn found_phone_is_served(plan: Plan, stopping: bool, held: bool)
    ensures
        ({
            let done = Outcome::Done;
            let windows = plan.local_only && plan.platform == Platform::Windows;
            let linux = plan.local_only && plan.platform == Platform::Linux && !plan.legacy;
            let first = if windows {
                Stage::Protect
            } else if linux {
                Stage::Confine
            } else {
                Stage::Revalidate
            };
            &&& plan.head(false, held) == (if windows {
                Stage::Refresh
            } else if held {
                Stage::Release
            } else {
                Stage::Accept
            })
            &&& plan.after(Stage::Refresh, done, stopping, held) == Verdict::Go(
                if held {
                    Stage::Release
                } else {
                    Stage::Accept
                },
            )
            &&& plan.after(Stage::Release, done, stopping, held) == Verdict::Go(Stage::Accept)
            &&& plan.after(Stage::Accept, done, stopping, held) == Verdict::Go(first)
            &&& plan.after(Stage::Protect, done, stopping, held) == Verdict::Go(Stage::Revalidate)
            &&& plan.after(Stage::Confine, done, stopping, held) == Verdict::Go(Stage::Revalidate)
            &&& plan.after(Stage::Revalidate, done, stopping, held) == Verdict::Go(Stage::Serve)
        }),
{
}

/// A phone that is lost is looked for again: after a phone was served, after it could not be
/// found again, and after its input was released, the host starts over.
pub proof fn lost_phone_is_looked_for_again(
    plan: Plan,
    outcome: Outcome,
    stopping: bool,
    held: bool,
)
    ensures
        plan.after(Stage::Serve, Outcome::Done, stopping, held) is Again,
        outcome != Outcome::Done ==> plan.after(Stage::Revalidate, outcome, stopping, held) == (
        Verdict::Again { pause_millis: 0, recovering: true }),
        plan.after(Stage::Recover, outcome, stopping, held) is Again,
        outcome != Outcome::Done ==> plan.after(Stage::Release, outcome, stopping, held) is Again,
        outcome == Outcome::TimedOut ==> plan.after(Stage::Accept, outcome, stopping, held)
            is Again,
{
}

/// The phases that a reader is told of: a phone is connected when it is served, recovering
/// when a link failed, and stopping at the end; version 5 says that it waits.
pub proof fn phases_are_told(plan: Plan, stage: Stage)
    ensures
        plan.said(stage) == Some(HostPhase::Connected) <==> stage == Stage::Serve,
        plan.said(stage) == Some(HostPhase::Recovering) <==> stage == Stage::Recover,
        plan.said(stage) == Some(HostPhase::Stopping) <==> stage == Stage::Finish,
        plan.said(stage) == Some(HostPhase::Waiting) <==> stage == Stage::Accept && !plan.legacy,
        plan.said(stage) != Some(HostPhase::Pairing),
{
}

/// A tether is refused exactly where it owns a default route of either family, and the refusal
/// names the families.
pub proof fn default_routes_are_refused(ipv4: bool, ipv6: bool)
    ensures
        confinement(ipv4, ipv6) is None <==> !ipv4 && !ipv6,
        confinement(ipv4, ipv6) matches Some(reason) ==> {
            &&& ipv4 ==> text::has_part(reason, "IPv4"@)
            &&& ipv6 ==> text::has_part(reason, "IPv6"@)
        },
        v5_confinement(false, Some((ipv4, ipv6))) is None,
        v5_confinement(false, None) is None,
        v5_confinement(true, None) is Some,
        v5_confinement(true, Some((ipv4, ipv6))) is None <==> !ipv4 && !ipv6,
{
    reveal_strlit("IPv4");
    reveal_strlit("IPv6");
    reveal_strlit("IPv4 and IPv6");
    if let Some(reason) = confinement(ipv4, ipv6) {
        let front = "local-only routing failed closed because a "@;
        let at = front.len() as int;
        if ipv4 {
            assert(reason.subrange(at, at + 4) =~= "IPv4"@);
            assert(text::part_at(reason, "IPv4"@, at));
        }
        if ipv6 && !ipv4 {
            assert(reason.subrange(at, at + 4) =~= "IPv6"@);
            assert(text::part_at(reason, "IPv6"@, at));
        }
        if ipv6 && ipv4 {
            assert(reason.subrange(at + 9, at + 13) =~= "IPv6"@);
            assert(text::part_at(reason, "IPv6"@, at + 9));
        }
    }
}

/// How long the host waits before it tries again: a quarter of a second for a phone of version
/// 4, a tenth of one for a phone of version 5 unless the wait itself timed out, a millisecond
/// for keys that could not be released, and a tenth of a second after a link of version 4
/// failed. Only where a phone was found and then lost again does the host say that it recovers.
pub proof fn pauses_are_short(plan: Plan, stage: Stage, outcome: Outcome, stopping: bool, held: bool)
    ensures
        plan.after(stage, outcome, stopping, held) matches Verdict::Again {
            pause_millis,
            recovering,
        } ==> {
            &&& recovering == (outcome != Outcome::Done && (stage == Stage::Protect || stage
                == Stage::Revalidate))
            &&& pause_millis == match stage {
                Stage::Accept => if plan.legacy {
                    250u64
                } else if outcome == Outcome::TimedOut {
                    0
                } else {
                    100
                },
                Stage::Release => 1,
                Stage::Recover => if plan.legacy {
                    100
                } else {
                    0
                },
                _ => 0,
            }
        },
{
}

} // verus!
