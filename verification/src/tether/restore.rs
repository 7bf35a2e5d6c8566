//! How the route policy is taken back from an interface, step by step.
use crate::tether::address::Address;
use crate::tether::apply::Interface;
use crate::tether::policy;
use crate::tether::policy::{
    captured_gateway_is_available, missing_original_indices, should_restore_owned_flag,
    PersistedRoute, RouteKey,
};
use crate::text;
use vstd::prelude::*;
use vstd::seq_lib::*;
use vstd::string::*;

verus! {

/// What is to be done next with the interface. A restoration starts with `Look`.
#[derive(Clone, Copy, Debug, PartialEq, Eq, Structural)]
pub enum RestoreStep {
    /// To look for the interface.
    Look,
    /// To read which default routes there are.
    Compare,
    /// To create this one of the captured routes.
    Create { position: usize, route: usize },
    /// To read whether the created routes are there.
    Verify,
    /// To read whether default routes are disabled.
    LookAtFlag,
    /// To read it again, before it is changed.
    RecheckFlag,
    /// To enable default routes.
    Enable,
    /// To read whether they are enabled now.
    ConfirmFlag,
    /// To remove the journal entry.
    Forget,
}

/// What came of a step.
pub enum RestoreReport {
    /// Which default routes the interface has.
    Keys(Vec<RouteKey>),
    /// Whether default routes are disabled; `None` where the interface is gone.
    Interface(Option<bool>),
    /// The change was made.
    Done,
    /// The system refused.
    Failed,
}

#[verifier::ext_equal]
pub enum RestoreReportView {
    Keys(Seq<RouteKey>),
    Interface(Option<bool>),
    Done,
    Failed,
}

impl View for RestoreReport {
    type V = RestoreReportView;

    open spec fn view(&self) -> RestoreReportView {
        match *self {
            RestoreReport::Keys(keys) => RestoreReportView::Keys(keys@),
            RestoreReport::Interface(disabled) => RestoreReportView::Interface(disabled),
            RestoreReport::Done => RestoreReportView::Done,
            RestoreReport::Failed => RestoreReportView::Failed,
        }
    }
}

/// Why the policy is not taken back any further; its journal entry stays.
#[derive(Clone, Copy, Debug, PartialEq, Eq, Structural)]
pub enum RestoreRefusal {
    /// The interface does not have the address family.
    NoRow,
    /// The gateway of this captured route is no longer configured.
    GatewayGone(usize),
    /// This captured route was created and is not there.
    StillAbsent(usize),
    /// The interface went before, while or after the flag was restored.
    GoneBeforeFlag,
    GoneDuringFlag,
    GoneAfterFlag,
    /// The flag was set and has its old value.
    FlagKept,
}

/// How a restoration goes on.
#[derive(Clone, Copy, Debug, PartialEq, Eq, Structural)]
pub enum RestoreVerdict {
    Go(RestoreStep),
    /// All is as it was captured.
    Finished,
    Refused(RestoreRefusal),
    /// The system refused a step, or the report answers another one.
    Failed,
}

pub open spec fn blocked_at(next_hops: Seq<Address>, gateways: Seq<Address>, at: int) -> bool {
    !next_hops[at].unspecified() && !gateways.contains(next_hops[at])
}

/// The captured routes that are to be created: those that are missing, unless there is a
/// newer one.
pub open spec fn missing_of(current: Seq<RouteKey>, original: Seq<RouteKey>) -> Seq<usize> {
    match policy::unmatched(current, original, current.len()) {
        Some(flags) => policy::set_positions(flags, original.len()),
        None => seq![],
    }
}

/// Where, from `from` on, the first missing route stands whose gateway is gone; else the end.
pub open spec fn reach(
    missing: Seq<usize>,
    next_hops: Seq<Address>,
    gateways: Seq<Address>,
    from: int,
) -> int
    decreases missing.len() - from,
{
    if from >= missing.len() {
        missing.len() as int
    } else if blocked_at(next_hops, gateways, missing[from] as int) {
        from
    } else {
        reach(missing, next_hops, gateways, from + 1)
    }
}

/// The first created route, from `from` on, that is not among those that are there.
pub open spec fn lacking(
    create: Seq<usize>,
    keys: Seq<RouteKey>,
    present: Seq<RouteKey>,
    from: int,
) -> Option<usize>
    decreases create.len() - from,
{
    if from >= create.len() {
        None
    } else if !present.contains(keys[create[from] as int]) {
        Some(create[from])
    } else {
        lacking(create, keys, present, from + 1)
    }
}

/// A restoration: what was captured, the gateways that the interface has now, and what is
/// to be created once the routes are compared.
#[verifier::ext_equal]
pub struct RestoreView {
    pub keys: Seq<RouteKey>,
    pub next_hops: Seq<Address>,
    pub gateways: Seq<Address>,
    pub original_disabled: bool,
    pub create: Seq<usize>,
    pub blocked: Option<usize>,
}

impl RestoreView {
    pub open spec fn wf(self) -> bool {
        &&& self.next_hops.len() == self.keys.len()
        &&& forall|i: int| 0 <= i < self.create.len() ==> #[trigger] self.create[i] < self.keys.len()
    }

    /// The restoration once it is known which routes are there.
    pub open spec fn planned(self, current: Seq<RouteKey>) -> RestoreView {
        let missing = missing_of(current, self.keys);
        let end = reach(missing, self.next_hops, self.gateways, 0);
        RestoreView {
            create: missing.take(end),
            blocked: if end < missing.len() {
                Some(missing[end])
            } else {
                None
            },
            ..self
        }
    }

    pub open spec fn creation(self, at: int) -> RestoreVerdict {
        if at < self.create.len() {
            RestoreVerdict::Go(
                RestoreStep::Create { position: at as usize, route: self.create[at] },
            )
        } else {
            match self.blocked {
                Some(route) => RestoreVerdict::Refused(RestoreRefusal::GatewayGone(route)),
                None => if self.create.len() > 0 {
                    RestoreVerdict::Go(RestoreStep::Verify)
                } else {
                    RestoreVerdict::Go(RestoreStep::LookAtFlag)
                },
            }
        }
    }

    /// How a restoration goes on after a step.
    pub open spec fn verdict(self, step: RestoreStep, report: RestoreReportView) -> RestoreVerdict {
        match (step, report) {
            (RestoreStep::Look, RestoreReportView::Interface(disabled)) => match disabled {
                None => RestoreVerdict::Refused(RestoreRefusal::NoRow),
                Some(_) => RestoreVerdict::Go(RestoreStep::Compare),
            },
            (RestoreStep::Compare, RestoreReportView::Keys(keys)) => self.planned(keys).creation(0),
            (RestoreStep::Create { position, .. }, RestoreReportView::Done) => if position
                < self.create.len() {
                self.creation(position + 1)
            } else {
                RestoreVerdict::Failed
            },
            (RestoreStep::Verify, RestoreReportView::Keys(keys)) => match lacking(
                self.create,
                self.keys,
                keys,
                0,
            ) {
                Some(route) => RestoreVerdict::Refused(RestoreRefusal::StillAbsent(route)),
                None => RestoreVerdict::Go(RestoreStep::LookAtFlag),
            },
            (RestoreStep::LookAtFlag, RestoreReportView::Interface(disabled)) => match disabled {
                None => RestoreVerdict::Refused(RestoreRefusal::GoneBeforeFlag),
                Some(disabled) => if disabled && !self.original_disabled {
                    RestoreVerdict::Go(RestoreStep::RecheckFlag)
                } else {
                    RestoreVerdict::Go(RestoreStep::Forget)
                },
            },
            (RestoreStep::RecheckFlag, RestoreReportView::Interface(disabled)) => match disabled {
                None => RestoreVerdict::Refused(RestoreRefusal::GoneDuringFlag),
                Some(true) => RestoreVerdict::Go(RestoreStep::Enable),
                Some(false) => RestoreVerdict::Go(RestoreStep::Forget),
            },
            (RestoreStep::Enable, RestoreReportView::Done) => RestoreVerdict::Go(
                RestoreStep::ConfirmFlag,
            ),
            (RestoreStep::ConfirmFlag, RestoreReportView::Interface(disabled)) => match disabled {
                None => RestoreVerdict::Refused(RestoreRefusal::GoneAfterFlag),
                Some(true) => RestoreVerdict::Refused(RestoreRefusal::FlagKept),
                Some(false) => RestoreVerdict::Go(RestoreStep::Forget),
            },
            (RestoreStep::Forget, RestoreReportView::Done) => RestoreVerdict::Finished,
            _ => RestoreVerdict::Failed,
        }
    }

    /// The restoration after a step.
    pub open spec fn after(self, step: RestoreStep, report: RestoreReportView) -> RestoreView {
        match (step, report) {
            (RestoreStep::Compare, RestoreReportView::Keys(keys)) => self.planned(keys),
            _ => self,
        }
    }
}

/// The policy of one address family of an interface, being taken back.
pub struct Restoration {
    keys: Vec<RouteKey>,
    next_hops: Vec<Address>,
    gateways: Vec<Address>,
    original_disabled: bool,
    create: Vec<usize>,
    blocked: Option<usize>,
}

impl View for Restoration {
    type V = RestoreView;

    closed spec fn view(&self) -> RestoreView {
        RestoreView {
            keys: self.keys@,
            next_hops: self.next_hops@,
            gateways: self.gateways@,
            original_disabled: self.original_disabled,
            create: self.create@,
            blocked: self.blocked,
        }
    }
}

impl Restoration {
    /// A restoration of captured routes, each with its gateway, on an interface with
    /// some gateways.
    pub fn new(
        keys: Vec<RouteKey>,
        next_hops: Vec<Address>,
        gateways: Vec<Address>,
        original_disabled: bool,
    ) -> (restoration: Restoration)
        requires
            next_hops@.len() == keys@.len(),
        ensures
            restoration@ == (RestoreView {
                keys: keys@,
                next_hops: next_hops@,
                gateways: gateways@,
                original_disabled,
                create: Seq::empty(),
                blocked: None,
            }),
            restoration@.wf(),
    {
        let restoration = Restoration {
            keys,
            next_hops,
            gateways,
            original_disabled,
            create: Vec::new(),
            blocked: None,
        };
        assert(restoration@.create =~= Seq::<usize>::empty());
        restoration
    }

    fn created(&self, at: usize) -> (verdict: RestoreVerdict)
        ensures
            verdict == self@.creation(at as int),
    {
        if at < self.create.len() {
            RestoreVerdict::Go(RestoreStep::Create { position: at, route: self.create[at] })
        } else {
            match self.blocked {
                Some(route) => RestoreVerdict::Refused(RestoreRefusal::GatewayGone(route)),
                None => if self.create.len() > 0 {
                    RestoreVerdict::Go(RestoreStep::Verify)
                } else {
                    RestoreVerdict::Go(RestoreStep::LookAtFlag)
                },
            }
        }
    }

    fn plan(&mut self, current: &Vec<RouteKey>)
        requires
            old(self)@.wf(),
        ensures
            final(self)@ == old(self)@.planned(current@),
            final(self)@.wf(),
    {
        let count: usize = self.keys.len();
        let missing: Vec<usize> = match missing_original_indices(
            current.as_slice(),
            self.keys.as_slice(),
        ) {
            Some(missing) => missing,
            None => Vec::new(),
        };
        assert(missing@ =~= missing_of(current@, self.keys@));
        proof {
            assert(self.keys@.len() == count);
            missing_are_captured(current@, self.keys@);
        }
        let mut create: Vec<usize> = Vec::new();
        let mut i: usize = 0;
        assert(create@ =~= missing@.take(0));
        while i < missing.len() && captured_gateway_is_available(
            self.next_hops[missing[i]],
            &self.gateways,
        )
            invariant
                i <= missing@.len(),
                self.next_hops@.len() == self.keys@.len(),
                create@ == missing@.take(i as int),
                forall|j: int|
                    0 <= j < missing@.len() ==> #[trigger] missing@[j] < self.keys@.len(),
                reach(missing@, self.next_hops@, self.gateways@, 0) == reach(
                    missing@,
                    self.next_hops@,
                    self.gateways@,
                    i as int,
                ),
            decreases missing@.len() - i,
        {
            create.push(missing[i]);
            assert(missing@.take(i + 1) =~= missing@.take(i as int).push(missing@[i as int]));
            i = i + 1;
        }
        self.blocked = if i < missing.len() {
            Some(missing[i])
        } else {
            None
        };
        self.create = create;
        assert(self@ =~= old(self)@.planned(current@));
    }

    fn lacks(&self, present: &Vec<RouteKey>) -> (route: Option<usize>)
        requires
            self@.wf(),
        ensures
            route == lacking(self@.create, self@.keys, present@, 0),
    {
        let mut i: usize = 0;
        while i < self.create.len()
            invariant
                i <= self.create@.len(),
                self@.wf(),
                lacking(self.create@, self.keys@, present@, 0) == lacking(
                    self.create@,
                    self.keys@,
                    present@,
                    i as int,
                ),
            decreases self.create@.len() - i,
        {
            assert(self@.create[i as int] < self@.keys.len());
            let key: RouteKey = self.keys[self.create[i]];
            let mut k: usize = 0;
            while k < present.len() && !(present[k] == key)
                invariant
                    k <= present@.len(),
                    forall|j: int| 0 <= j < k ==> present@[j] != key,
                decreases present@.len() - k,
            {
                k = k + 1;
            }
            if k == present.len() {
                assert(!present@.contains(key));
                return Some(self.create[i]);
            }
            assert(present@[k as int] == key);
            assert(present@.contains(key));
            i = i + 1;
        }
        None
    }

    /// Says how the restoration goes on after a step.
    pub fn next(&mut self, step: RestoreStep, report: &RestoreReport) -> (verdict: RestoreVerdict)
        requires
            old(self)@.wf(),
        ensures
            verdict == old(self)@.verdict(step, report@),
            final(self)@ == old(self)@.after(step, report@),
            final(self)@.wf(),
    {
        match (step, report) {
            (RestoreStep::Look, RestoreReport::Interface(disabled)) => match *disabled {
                None => RestoreVerdict::Refused(RestoreRefusal::NoRow),
                Some(_) => RestoreVerdict::Go(RestoreStep::Compare),
            },
            (RestoreStep::Compare, RestoreReport::Keys(keys)) => {
                self.plan(keys);
                self.created(0)
            },
            (RestoreStep::Create { position, .. }, RestoreReport::Done) => if position
                < self.create.len() {
                self.created(position + 1)
            } else {
                RestoreVerdict::Failed
            },
            (RestoreStep::Verify, RestoreReport::Keys(keys)) => match self.lacks(keys) {
                Some(route) => RestoreVerdict::Refused(RestoreRefusal::StillAbsent(route)),
                None => RestoreVerdict::Go(RestoreStep::LookAtFlag),
            },
            (RestoreStep::LookAtFlag, RestoreReport::Interface(disabled)) => match *disabled {
                None => RestoreVerdict::Refused(RestoreRefusal::GoneBeforeFlag),
                Some(disabled) => if should_restore_owned_flag(disabled, self.original_disabled) {
                    RestoreVerdict::Go(RestoreStep::RecheckFlag)
                } else {
                    RestoreVerdict::Go(RestoreStep::Forget)
                },
            },
            (RestoreStep::RecheckFlag, RestoreReport::Interface(disabled)) => match *disabled {
                None => RestoreVerdict::Refused(RestoreRefusal::GoneDuringFlag),
                Some(true) => RestoreVerdict::Go(RestoreStep::Enable),
                Some(false) => RestoreVerdict::Go(RestoreStep::Forget),
            },
            (RestoreStep::Enable, RestoreReport::Done) => RestoreVerdict::Go(
                RestoreStep::ConfirmFlag,
            ),
            (RestoreStep::ConfirmFlag, RestoreReport::Interface(disabled)) => match *disabled {
                None => RestoreVerdict::Refused(RestoreRefusal::GoneAfterFlag),
                Some(true) => RestoreVerdict::Refused(RestoreRefusal::FlagKept),
                Some(false) => RestoreVerdict::Go(RestoreStep::Forget),
            },
            (RestoreStep::Forget, RestoreReport::Done) => RestoreVerdict::Finished,
            _ => RestoreVerdict::Failed,
        }
    }
}

proof fn missing_are_captured(current: Seq<RouteKey>, original: Seq<RouteKey>)
    requires
        original.len() <= usize::MAX,
    ensures
        forall|i: int|
            0 <= i < missing_of(current, original).len() ==> (#[trigger] missing_of(
                current,
                original,
            )[i]) < original.len(),
{
    if let Some(flags) = policy::unmatched(current, original, current.len()) {
        positions_are_below(flags, original.len());
    }
}

proof fn positions_are_below(flags: Seq<bool>, count: nat)
    requires
        count <= usize::MAX,
    ensures
        forall|i: int|
            0 <= i < policy::set_positions(flags, count).len() ==> (#[trigger] policy::set_positions(
                flags,
                count,
            )[i]) < count,
    decreases count,
{
    if count > 0 {
        positions_are_below(flags, (count - 1) as nat);
        let front = policy::set_positions(flags, (count - 1) as nat);
        let all = policy::set_positions(flags, count);
        assert forall|i: int| 0 <= i < all.len() implies (#[trigger] all[i]) < count by {
            if i < front.len() {
                assert(all[i] == front[i]);
            }
        }
    }
}

impl RestoreRefusal {
    pub open spec fn wording(self, interface_index: u32, recovering: bool, subject: Seq<char>) -> Seq<
        char,
    > {
        let index = text::decimal(interface_index as nat);
        match self {
            RestoreRefusal::NoRow => "captured tether interface "@ + index
                + " has no address-family row; reconnect it to finish route recovery"@,
            RestoreRefusal::GatewayGone(_) => "captured gateway "@ + subject
                + " is no longer configured on tether interface "@ + index
                + "; retaining the recovery journal"@,
            RestoreRefusal::StillAbsent(_) => if recovering {
                "Windows reported route recovery success but the route is still absent: "@ + subject
            } else {
                "Windows reported route restoration success but the route is still absent: "@
                    + subject
            },
            RestoreRefusal::GoneBeforeFlag => "tether interface "@ + index
                + " disappeared before flag restoration"@,
            RestoreRefusal::GoneDuringFlag => "tether interface "@ + index
                + " disappeared during flag restoration"@,
            RestoreRefusal::GoneAfterFlag => "tether interface "@ + index
                + " disappeared after flag restoration"@,
            RestoreRefusal::FlagKept =>
                "Windows reported flag restoration success but tether interface "@ + index
                + " retained the old value"@,
        }
    }

    /// What is said of a refusal on an interface. `subject` is the gateway or the route that
    /// it is about, and `recovering` says whether an earlier run had captured it.
    pub fn message(self, interface_index: u32, recovering: bool, subject: &str) -> (message: String)
        ensures
            message@ == self.wording(interface_index, recovering, subject@),
    {
        let index: u64 = interface_index as u64;
        match self {
            RestoreRefusal::NoRow => {
                let mut message: String = text::numbered("captured tether interface ", index);
                message.append(
                    " has no address-family row; reconnect it to finish route recovery",
                );
                message
            },
            RestoreRefusal::GatewayGone(_) => {
                let mut message: String = "captured gateway ".to_owned();
                message.append(subject);
                message.append(" is no longer configured on tether interface ");
                text::push_decimal(&mut message, interface_index as u128);
                message.append("; retaining the recovery journal");
                message
            },
            RestoreRefusal::StillAbsent(_) => {
                let mut message: String = if recovering {
                    "Windows reported route recovery success but the route is still absent: ".to_owned()
                } else {
                    "Windows reported route restoration success but the route is still absent: ".to_owned()
                };
                message.append(subject);
                message
            },
            RestoreRefusal::GoneBeforeFlag => {
                let mut message: String = text::numbered("tether interface ", index);
                message.append(" disappeared before flag restoration");
                message
            },
            RestoreRefusal::GoneDuringFlag => {
                let mut message: String = text::numbered("tether interface ", index);
                message.append(" disappeared during flag restoration");
                message
            },
            RestoreRefusal::GoneAfterFlag => {
                let mut message: String = text::numbered("tether interface ", index);
                message.append(" disappeared after flag restoration");
                message
            },
            RestoreRefusal::FlagKept => {
                let mut message: String = text::numbered(
                    "Windows reported flag restoration success but tether interface ",
                    index,
                );
                message.append(" retained the old value");
                message
            },
        }
    }
}

impl Interface {
    /// What a step reports of an interface that is there and that obeys, where `key` tells
    /// its routes apart.
    pub open spec fn shown(
        self,
        key: spec_fn(PersistedRoute) -> RouteKey,
        step: RestoreStep,
    ) -> RestoreReportView {
        match step {
            RestoreStep::Compare | RestoreStep::Verify => RestoreReportView::Keys(
                self.routes.map_values(key),
            ),
            RestoreStep::Look
            | RestoreStep::LookAtFlag
            | RestoreStep::RecheckFlag
            | RestoreStep::ConfirmFlag => RestoreReportView::Interface(Some(self.disabled)),
            RestoreStep::Create { .. } | RestoreStep::Enable | RestoreStep::Forget
                => RestoreReportView::Done,
        }
    }

    /// The interface after a step that it obeyed.
    pub open spec fn mended(self, captured: Seq<PersistedRoute>, step: RestoreStep) -> Interface {
        match step {
            RestoreStep::Create { route, .. } => Interface {
                routes: self.routes.push(captured[route as int]),
                ..self
            },
            RestoreStep::Enable => Interface { disabled: false, ..self },
            _ => self,
        }
    }
}

/// How far a step is from the end.
pub open spec fn phase(step: RestoreStep) -> nat {
    match step {
        RestoreStep::Look => 9,
        RestoreStep::Compare => 8,
        RestoreStep::Create { .. } => 7,
        RestoreStep::Verify => 6,
        RestoreStep::LookAtFlag => 5,
        RestoreStep::RecheckFlag => 4,
        RestoreStep::Enable => 3,
        RestoreStep::ConfirmFlag => 2,
        RestoreStep::Forget => 1,
    }
}

pub open spec fn to_create(create: nat, step: RestoreStep) -> int {
    match step {
        RestoreStep::Create { position, .. } => create - position,
        _ => 0,
    }
}

/// The interface once a restoration that went on from a step has finished, where it does.
pub open spec fn restored(
    view: RestoreView,
    captured: Seq<PersistedRoute>,
    key: spec_fn(PersistedRoute) -> RouteKey,
    step: RestoreStep,
    interface: Interface,
) -> Option<Interface>
    decreases phase(step), to_create(view.create.len(), step),
{
    let report = interface.shown(key, step);
    if view.create.len() > usize::MAX {
        None
    } else {
        match view.verdict(step, report) {
            RestoreVerdict::Go(next) => restored(
                view.after(step, report),
                captured,
                key,
                next,
                interface.mended(captured, step),
            ),
            RestoreVerdict::Finished => Some(interface.mended(captured, step)),
            _ => None,
        }
    }
}

proof fn map_keeps_equality<A, B>(left: Seq<A>, right: Seq<A>, f: spec_fn(A) -> B)
    requires
        left.to_multiset() == right.to_multiset(),
    ensures
        left.map_values(f).to_multiset() == right.map_values(f).to_multiset(),
    decreases left.len(),
{
    broadcast use group_to_multiset_ensures;

    to_multiset_len(left);
    to_multiset_len(right);
    if left.len() == 0 {
        assert(left =~= right);
    } else {
        let item = left.last();
        let front = left.drop_last();
        assert(left =~= front.push(item));
        assert(left.contains(item));
        assert(right.to_multiset().count(item) > 0);
        assert(right.contains(item));
        let at = right.index_of(item);
        to_multiset_remove(right, at);
        let rest = right.remove(at);
        assert(front.to_multiset() =~= rest.to_multiset());
        map_keeps_equality(front, rest, f);
        assert(left.map_values(f) =~= front.map_values(f).push(f(item)));
        assert(right.map_values(f).remove(at) =~= rest.map_values(f));
        to_multiset_remove(right.map_values(f), at);
        assert(right.map_values(f)[at] == f(item));
        assert(right.map_values(f).contains(f(item)));
        assert(right.map_values(f).to_multiset().count(f(item)) > 0);
        assert(left.map_values(f).to_multiset() =~= right.map_values(f).to_multiset());
    }
}

/// The routes that are there and the missing ones are the captured ones together.
proof fn missing_complete_the_rest(
    captured: Seq<PersistedRoute>,
    key: spec_fn(PersistedRoute) -> RouteKey,
    routes: Seq<PersistedRoute>,
    count: int,
)
    requires
        captured.len() <= usize::MAX,
        captured.map_values(key).no_duplicates(),
        0 <= count <= captured.len(),
        routes.to_multiset() == captured.skip(count).to_multiset(),
    ensures
        ({
            let missing = missing_of(routes.map_values(key), captured.map_values(key));
            (routes + policy::picked(captured, missing)).to_multiset() == captured.to_multiset()
        }),
{
    broadcast use group_to_multiset_ensures;

    let keys = captured.map_values(key);
    let current = routes.map_values(key);
    let rest = captured.skip(count).map_values(key);
    map_keeps_equality(routes, captured.skip(count), key);
    assert(keys =~= captured.take(count).map_values(key) + rest);
    lemma_multiset_commutative(captured.take(count).map_values(key), rest);
    assert(current.to_multiset().subset_of(keys.to_multiset()));
    policy::restoring_completes_the_capture(current, keys);
    let missing = missing_of(current, keys);
    missing_are_captured(current, keys);
    let whole = routes + policy::picked(captured, missing);
    lemma_multiset_commutative(current, policy::picked(keys, missing));
    assert(whole.map_values(key) =~= current + policy::picked(keys, missing)) by {
        assert forall|i: int| 0 <= i < whole.len() implies whole.map_values(key)[i] == (current
            + policy::picked(keys, missing))[i] by {
            if i >= routes.len() {
                assert(missing[i - routes.len()] < keys.len());
            }
        }
    }
    let back = |k: RouteKey| captured[keys.index_of(k)];
    map_keeps_equality(whole.map_values(key), keys, back);
    assert(keys.map_values(back) =~= captured) by {
        assert forall|i: int| 0 <= i < captured.len() implies keys.map_values(back)[i]
            == captured[i] by {
            assert(keys[keys.index_of(keys[i])] == keys[i]);
        }
    }
    assert(whole.map_values(key).map_values(back) =~= whole) by {
        assert forall|i: int| 0 <= i < whole.len() implies whole.map_values(key).map_values(
            back,
        )[i] == whole[i] by {
            let at = if i < routes.len() {
                assert(routes.contains(routes[i]));
                assert(captured.skip(count).to_multiset().count(routes[i]) > 0);
                assert(captured.skip(count).contains(routes[i]));
                captured.skip(count).index_of(routes[i]) + count
            } else {
                assert(missing[i - routes.len()] < keys.len());
                missing[i - routes.len()] as int
            };
            assert(captured[at] == whole[i]);
            assert(keys[at] == key(whole[i]));
            assert(keys.contains(keys[at]));
            assert(keys[keys.index_of(keys[at])] == keys[at]);
        }
    }
}

proof fn nothing_is_blocked(
    missing: Seq<usize>,
    next_hops: Seq<Address>,
    gateways: Seq<Address>,
    from: int,
)
    requires
        0 <= from <= missing.len(),
        forall|i: int|
            0 <= i < missing.len() ==> !blocked_at(next_hops, gateways, (#[trigger] missing[i]) as int),
    ensures
        reach(missing, next_hops, gateways, from) == missing.len(),
    decreases missing.len() - from,
{
    if from < missing.len() {
        assert(!blocked_at(next_hops, gateways, missing[from] as int));
        nothing_is_blocked(missing, next_hops, gateways, from + 1);
    }
}

proof fn nothing_is_lacking(
    create: Seq<usize>,
    keys: Seq<RouteKey>,
    present: Seq<RouteKey>,
    from: int,
)
    requires
        0 <= from <= create.len(),
        forall|i: int|
            0 <= i < create.len() ==> present.contains(keys[(#[trigger] create[i]) as int]),
    ensures
        lacking(create, keys, present, from) is None,
    decreases create.len() - from,
{
    if from < create.len() {
        assert(present.contains(keys[create[from] as int]));
        nothing_is_lacking(create, keys, present, from + 1);
    }
}

proof fn flag_is_restored(
    view: RestoreView,
    captured: Seq<PersistedRoute>,
    key: spec_fn(PersistedRoute) -> RouteKey,
    interface: Interface,
)
    requires
        view.create.len() <= usize::MAX,
        interface.disabled || interface.disabled == view.original_disabled,
    ensures
        restored(view, captured, key, RestoreStep::LookAtFlag, interface) == Some(
            Interface { disabled: view.original_disabled, ..interface },
        ),
{
    reveal_with_fuel(restored, 6);
}

proof fn creation_runs(
    view: RestoreView,
    captured: Seq<PersistedRoute>,
    key: spec_fn(PersistedRoute) -> RouteKey,
    before: Seq<PersistedRoute>,
    interface: Interface,
    at: int,
)
    requires
        view.wf(),
        view.create.len() <= usize::MAX,
        view.keys == captured.map_values(key),
        view.blocked is None,
        0 <= at < view.create.len(),
        interface.routes == before + policy::picked(captured, view.create.take(at)),
        interface.disabled || interface.disabled == view.original_disabled,
    ensures
        restored(
            view,
            captured,
            key,
            RestoreStep::Create { position: at as usize, route: view.create[at] },
            interface,
        ) == Some(
            Interface {
                routes: before + policy::picked(captured, view.create),
                disabled: view.original_disabled,
            },
        ),
    decreases view.create.len() - at,
{
    let step = RestoreStep::Create { position: at as usize, route: view.create[at] };
    let next = interface.mended(captured, step);
    assert(next.routes =~= before + policy::picked(captured, view.create.take(at + 1)));
    if at + 1 < view.create.len() {
        creation_runs(view, captured, key, before, next, at + 1);
    } else {
        assert(view.create.take(at + 1) =~= view.create);
        let present = next.routes.map_values(key);
        assert forall|i: int| 0 <= i < view.create.len() implies present.contains(
            view.keys[(#[trigger] view.create[i]) as int],
        ) by {
            assert(next.routes[before.len() + i] == captured[view.create[i] as int]);
            assert(present[before.len() + i] == view.keys[view.create[i] as int]);
        }
        nothing_is_lacking(view.create, view.keys, present, 0);
        flag_is_restored(view, captured, key, next);
        assert(restored(view, captured, key, RestoreStep::Verify, next) == restored(
            view,
            captured,
            key,
            RestoreStep::LookAtFlag,
            next,
        ));
    }
}

/// The policy is reversible: however many of the captured routes an application had removed
/// when it stopped, and whether or not it had disabled default routes, a restoration on an
/// interface that has all its gateways leaves the routes and the flag as they were captured.
pub proof fn restoration_undoes_application(
    view: RestoreView,
    captured: Seq<PersistedRoute>,
    key: spec_fn(PersistedRoute) -> RouteKey,
    interface: Interface,
    removed: int,
)
    requires
        captured.len() <= usize::MAX,
        view.wf(),
        view.create.len() <= usize::MAX,
        view.keys == captured.map_values(key),
        view.keys.no_duplicates(),
        forall|i: int|
            0 <= i < captured.len() ==> !#[trigger] blocked_at(view.next_hops, view.gateways, i),
        0 <= removed <= captured.len(),
        interface.routes.to_multiset() == captured.skip(removed).to_multiset(),
        interface.disabled || interface.disabled == view.original_disabled,
    ensures
        restored(view, captured, key, RestoreStep::Look, interface) matches Some(after)
            && after.routes.to_multiset() == captured.to_multiset() && after.disabled
            == view.original_disabled,
{
    let current = interface.routes.map_values(key);
    let missing = missing_of(current, view.keys);
    missing_are_captured(current, view.keys);
    assert forall|i: int| 0 <= i < missing.len() implies !blocked_at(
        view.next_hops,
        view.gateways,
        (#[trigger] missing[i]) as int,
    ) by {
        assert(missing[i] < captured.len());
    }
    nothing_is_blocked(missing, view.next_hops, view.gateways, 0);
    let planned = view.planned(current);
    assert(planned.create =~= missing);
    missing_complete_the_rest(captured, key, interface.routes, removed);
    positions_are_few(current, view.keys);
    assert(restored(view, captured, key, RestoreStep::Look, interface) == restored(
        view,
        captured,
        key,
        RestoreStep::Compare,
        interface,
    ));
    if missing.len() == 0 {
        flag_is_restored(planned, captured, key, interface);
        assert(interface.routes + policy::picked(captured, missing) =~= interface.routes);
    } else {
        assert(interface.routes =~= interface.routes + policy::picked(
            captured,
            planned.create.take(0),
        ));
        creation_runs(planned, captured, key, interface.routes, interface, 0);
    }
}

proof fn positions_are_few(current: Seq<RouteKey>, original: Seq<RouteKey>)
    ensures
        missing_of(current, original).len() <= original.len(),
{
    if let Some(flags) = policy::unmatched(current, original, current.len()) {
        set_positions_are_few(flags, original.len());
    }
}

proof fn set_positions_are_few(flags: Seq<bool>, count: nat)
    ensures
        policy::set_positions(flags, count).len() <= count,
    decreases count,
{
    if count > 0 {
        set_positions_are_few(flags, (count - 1) as nat);
    }
}

/// The journal entry goes last: it is due for removal only where the interface shows the
/// flag as it was captured, or a newer value that is left alone.
pub proof fn journal_is_kept_until_the_flag_is_restored(
    view: RestoreView,
    step: RestoreStep,
    report: RestoreReportView,
)
    requires
        view.verdict(step, report) == RestoreVerdict::Go(RestoreStep::Forget),
    ensures
        report matches RestoreReportView::Interface(Some(disabled)) && (!disabled
            || view.original_disabled),
{
}

/// A step that the system refused stops a restoration, and so does an interface that is gone
/// wherever it is looked at: the journal entry stays.
pub proof fn trouble_stops_a_restoration(view: RestoreView, step: RestoreStep)
    ensures
        view.verdict(step, RestoreReportView::Failed) is Failed,
        step is Look || step is LookAtFlag || step is RecheckFlag || step is ConfirmFlag
            ==> view.verdict(step, RestoreReportView::Interface(None)) is Refused,
{
}

/// The journal entry is forgotten only once default routes are enabled, or where they were
/// disabled before the policy; and a restoration has finished only once it is forgotten.
/// Default routes are enabled only where the policy had disabled them.
pub proof fn nothing_is_forgotten_early(
    view: RestoreView,
    step: RestoreStep,
    report: RestoreReportView,
)
    ensures
        view.verdict(step, report) is Finished ==> step is Forget && report is Done,
        view.verdict(step, report) == RestoreVerdict::Go(RestoreStep::Forget) ==> report
            == RestoreReportView::Interface(Some(false)) || (view.original_disabled && step
            is LookAtFlag && report is Interface),
        view.verdict(step, report) == RestoreVerdict::Go(RestoreStep::RecheckFlag)
            ==> !view.original_disabled && report == RestoreReportView::Interface(Some(true)),
        view.verdict(step, report) == RestoreVerdict::Go(RestoreStep::Enable) ==> step
            is RecheckFlag && report == RestoreReportView::Interface(Some(true)),
        view.verdict(RestoreStep::ConfirmFlag, RestoreReportView::Interface(Some(true)))
            is Refused,
{
}

proof fn reach_stops_at_the_first(
    missing: Seq<usize>,
    next_hops: Seq<Address>,
    gateways: Seq<Address>,
    from: int,
)
    requires
        0 <= from <= missing.len(),
    ensures
        from <= reach(missing, next_hops, gateways, from) <= missing.len(),
        forall|i: int|
            from <= i < reach(missing, next_hops, gateways, from) ==> !blocked_at(
                next_hops,
                gateways,
                #[trigger] missing[i] as int,
            ),
        reach(missing, next_hops, gateways, from) < missing.len() ==> blocked_at(
            next_hops,
            gateways,
            missing[reach(missing, next_hops, gateways, from)] as int,
        ),
    decreases missing.len() - from,
{
    if from < missing.len() && !blocked_at(next_hops, gateways, missing[from] as int) {
        reach_stops_at_the_first(missing, next_hops, gateways, from + 1);
    }
}

/// A route is created only where it needs no gateway or its gateway is still configured. The
/// first missing route whose gateway is gone ends the creation, and the restoration is refused
/// on its account; where there is none, all that is missing is created.
pub proof fn routes_need_their_gateway(view: RestoreView, current: Seq<RouteKey>, at: int)
    ensures
        ({
            let planned = view.planned(current);
            let missing = missing_of(current, view.keys);
            &&& 0 <= at < planned.create.len() ==> {
                let hop = view.next_hops[planned.create[at] as int];
                hop == Address::V4(0) || hop == Address::V6(0) || view.gateways.contains(hop)
            }
            &&& match planned.blocked {
                Some(route) => {
                    let hop = view.next_hops[route as int];
                    &&& hop != Address::V4(0) && hop != Address::V6(0) && !view.gateways.contains(
                        hop,
                    )
                    &&& planned.create.push(route).is_prefix_of(missing)
                    &&& planned.creation(planned.create.len() as int) == RestoreVerdict::Refused(
                        RestoreRefusal::GatewayGone(route),
                    )
                },
                None => planned.create == missing,
            }
        }),
{
    let missing = missing_of(current, view.keys);
    let end = reach(missing, view.next_hops, view.gateways, 0);
    reach_stops_at_the_first(missing, view.next_hops, view.gateways, 0);
    if 0 <= at < end {
        assert(missing.take(end)[at] == missing[at]);
    }
    if end < missing.len() {
        assert(missing.take(end).push(missing[end]) =~= missing.subrange(0, end + 1));
    } else {
        assert(missing.take(end) =~= missing);
    }
}

/// A restoration goes on to the flag only where every route that it created is there; else it
/// is refused on account of one that is not.
pub proof fn created_routes_are_verified(
    view: RestoreView,
    present: Seq<RouteKey>,
    from: int,
)
    requires
        0 <= from <= view.create.len(),
    ensures
        match lacking(view.create, view.keys, present, from) {
            Some(route) => view.create.contains(route) && !present.contains(
                view.keys[route as int],
            ),
            None => forall|i: int|
                from <= i < view.create.len() ==> present.contains(
                    view.keys[#[trigger] view.create[i] as int],
                ),
        },
        view.verdict(RestoreStep::Verify, RestoreReportView::Keys(present)) == match lacking(
            view.create,
            view.keys,
            present,
            0,
        ) {
            Some(route) => RestoreVerdict::Refused(RestoreRefusal::StillAbsent(route)),
            None => RestoreVerdict::Go(RestoreStep::LookAtFlag),
        },
    decreases view.create.len() - from,
{
    if from < view.create.len() {
        assert(view.create.contains(view.create[from]));
        created_routes_are_verified(view, present, from + 1);
    }
}

} // verus!
