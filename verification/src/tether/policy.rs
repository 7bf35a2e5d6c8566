//! The route policy of Windows: what is captured, deleted, restored and rolled back.
use crate::bytes::same_bytes;
use crate::tether::address::Address;
use crate::text;
use vstd::prelude::*;
use vstd::seq_lib::*;
use vstd::multiset::*;
use vstd::string::*;
use vstd::std_specs::cmp::PartialEqSpec;

verus! {

/// Where the first unused equal of an item stands, from `from` on.
pub open spec fn first_unused<T>(flags: Seq<bool>, original: Seq<T>, item: T, from: int) -> Option<
    int,
>
    decreases original.len() - from,
{
    if from < 0 || from >= original.len() {
        None
    } else if flags[from] && original[from] == item {
        Some(from)
    } else {
        first_unused(flags, original, item, from + 1)
    }
}

/// Which of the captured items are still unmatched once the first `count` current items
/// have each taken the first equal one.
pub open spec fn unmatched<T>(current: Seq<T>, original: Seq<T>, count: nat) -> Option<Seq<bool>>
    decreases count,
{
    if count == 0 {
        Some(Seq::new(original.len(), |i: int| true))
    } else {
        match unmatched(current, original, (count - 1) as nat) {
            Some(flags) => match first_unused(flags, original, current[count - 1], 0) {
                Some(at) => Some(flags.update(at, false)),
                None => None,
            },
            None => None,
        }
    }
}

/// The positions below `count` whose flag is set.
pub open spec fn set_positions(flags: Seq<bool>, count: nat) -> Seq<usize>
    decreases count,
{
    if count == 0 {
        seq![]
    } else if flags[count - 1] {
        set_positions(flags, (count - 1) as nat).push((count - 1) as usize)
    } else {
        set_positions(flags, (count - 1) as nat)
    }
}

/// The captured items that are missing, where every current item is a captured one.
/// Anything newer is authoritative: then nothing is to be restored.
pub fn missing_original_indices<T: PartialEq>(current: &[T], original: &[T]) -> (missing: Option<
    Vec<usize>,
>)
    requires
        T::obeys_eq_spec(),
        forall|a: T, b: T| #[trigger] a.eq_spec(&b) <==> a == b,
    ensures
        match missing {
            Some(missing) => unmatched(current@, original@, current@.len()) matches Some(flags)
                && missing@ == set_positions(flags, original@.len()),
            None => unmatched(current@, original@, current@.len()) is None,
        },
{
    let mut flags: Vec<bool> = Vec::new();
    let mut i: usize = 0;
    while i < original.len()
        invariant
            i <= original@.len(),
            flags@ == Seq::new(i as nat, |i: int| true),
        decreases original@.len() - i,
    {
        flags.push(true);
        i = i + 1;
        assert(flags@ =~= Seq::new(i as nat, |i: int| true));
    }
    let mut k: usize = 0;
    while k < current.len()
        invariant
            k <= current@.len(),
            flags@.len() == original@.len(),
            unmatched(current@, original@, k as nat) == Some(flags@),
            T::obeys_eq_spec(),
            forall|a: T, b: T| #[trigger] a.eq_spec(&b) <==> a == b,
        decreases current@.len() - k,
    {
        let mut at: usize = 0;
        while at < original.len() && !(flags[at] && original[at] == current[k])
            invariant
                k < current@.len(),
                at <= original@.len(),
                flags@.len() == original@.len(),
                first_unused(flags@, original@, current@[k as int], 0) == first_unused(
                    flags@,
                    original@,
                    current@[k as int],
                    at as int,
                ),
                T::obeys_eq_spec(),
                forall|a: T, b: T| #[trigger] a.eq_spec(&b) <==> a == b,
            decreases original@.len() - at,
        {
            at = at + 1;
        }
        if at == original.len() {
            proof {
                unmatched_stays_none(current@, original@, (k + 1) as nat, current@.len());
            }
            return None;
        }
        flags.set(at, false);
        k = k + 1;
    }
    let mut missing: Vec<usize> = Vec::new();
    let mut i: usize = 0;
    while i < original.len()
        invariant
            i <= original@.len(),
            flags@.len() == original@.len(),
            missing@ == set_positions(flags@, i as nat),
        decreases original@.len() - i,
    {
        if flags[i] {
            missing.push(i);
        }
        i = i + 1;
    }
    Some(missing)
}

proof fn unmatched_stays_none<T>(current: Seq<T>, original: Seq<T>, from: nat, to: nat)
    requires
        from <= to,
        unmatched(current, original, from) is None,
    ensures
        unmatched(current, original, to) is None,
    decreases to,
{
    if from < to {
        unmatched_stays_none(current, original, from, (to - 1) as nat);
    }
}

/// The items at positions.
pub open spec fn picked<T>(items: Seq<T>, positions: Seq<usize>) -> Seq<T> {
    Seq::new(positions.len(), |i: int| items[positions[i] as int])
}

/// The items below `count` whose flag is set.
spec fn kept<T>(items: Seq<T>, flags: Seq<bool>, count: nat) -> Multiset<T>
    decreases count,
{
    if count == 0 {
        Multiset::empty()
    } else if flags[count - 1] {
        kept(items, flags, (count - 1) as nat).insert(items[count - 1])
    } else {
        kept(items, flags, (count - 1) as nat)
    }
}

proof fn kept_is_picked<T>(items: Seq<T>, flags: Seq<bool>, count: nat)
    requires
        count <= items.len() <= usize::MAX,
    ensures
        kept(items, flags, count) == picked(items, set_positions(flags, count)).to_multiset(),
    decreases count,
{
    broadcast use group_to_multiset_ensures;

    if count == 0 {
        assert(picked(items, set_positions(flags, count)) =~= Seq::<T>::empty());
        assert(picked(items, set_positions(flags, count)).to_multiset() =~= Multiset::empty()) by {
            to_multiset_len(Seq::<T>::empty());
        }
    } else {
        kept_is_picked(items, flags, (count - 1) as nat);
        if flags[count - 1] {
            let front = picked(items, set_positions(flags, (count - 1) as nat));
            assert(picked(items, set_positions(flags, count)) =~= front.push(items[count - 1]));
        }
    }
}

proof fn all_kept<T>(items: Seq<T>, count: nat)
    requires
        count <= items.len(),
    ensures
        kept(items, Seq::new(items.len(), |i: int| true), count) == items.take(
            count as int,
        ).to_multiset(),
    decreases count,
{
    broadcast use group_to_multiset_ensures;

    if count == 0 {
        assert(items.take(0) =~= Seq::<T>::empty());
        to_multiset_len(Seq::<T>::empty());
        assert(items.take(0).to_multiset() =~= Multiset::empty());
    } else {
        all_kept(items, (count - 1) as nat);
        assert(items.take(count as int) =~= items.take(count - 1).push(items[count - 1]));
    }
}

proof fn kept_without_one<T>(items: Seq<T>, flags: Seq<bool>, at: int, count: nat)
    requires
        count <= items.len() == flags.len(),
        0 <= at < flags.len(),
        flags[at],
    ensures
        kept(items, flags, count) == if at < count {
            kept(items, flags.update(at, false), count).insert(items[at])
        } else {
            kept(items, flags.update(at, false), count)
        },
    decreases count,
{
    if count > 0 {
        kept_without_one(items, flags, at, (count - 1) as nat);
        let less = flags.update(at, false);
        if at < count - 1 && flags[count - 1] {
            assert(kept(items, less, (count - 1) as nat).insert(items[at]).insert(items[count - 1])
                =~= kept(items, less, (count - 1) as nat).insert(items[count - 1]).insert(
                items[at],
            ));
        }
    }
}

proof fn first_unused_is_unused<T>(flags: Seq<bool>, original: Seq<T>, item: T, from: int)
    requires
        0 <= from,
        flags.len() == original.len(),
    ensures
        match first_unused(flags, original, item, from) {
            Some(at) => from <= at < original.len() && flags[at] && original[at] == item,
            None => forall|i: int|
                from <= i < original.len() ==> !(flags[i] && #[trigger] original[i] == item),
        },
    decreases original.len() - from,
{
    if from < original.len() {
        first_unused_is_unused(flags, original, item, from + 1);
    }
}

proof fn kept_lacks<T>(items: Seq<T>, flags: Seq<bool>, item: T, count: nat)
    requires
        count <= items.len(),
        forall|i: int| 0 <= i < items.len() ==> !(flags[i] && #[trigger] items[i] == item),
    ensures
        kept(items, flags, count).count(item) == 0,
    decreases count,
{
    if count > 0 {
        kept_lacks(items, flags, item, (count - 1) as nat);
        assert(!(flags[count - 1] && items[count - 1] == item));
    }
}

proof fn matching_balances<T>(current: Seq<T>, original: Seq<T>, count: nat)
    requires
        count <= current.len(),
    ensures
        match unmatched(current, original, count) {
            Some(flags) => flags.len() == original.len() && current.take(
                count as int,
            ).to_multiset().add(kept(original, flags, original.len())) == original.to_multiset(),
            None => !current.to_multiset().subset_of(original.to_multiset()),
        },
    decreases count,
{
    broadcast use group_to_multiset_ensures;

    if count == 0 {
        all_kept(original, original.len());
        assert(original.take(original.len() as int) =~= original);
        assert(current.take(0) =~= Seq::<T>::empty());
        to_multiset_len(Seq::<T>::empty());
        assert(current.take(0).to_multiset() =~= Multiset::empty());
        assert(Multiset::empty().add(original.to_multiset()) =~= original.to_multiset());
    } else {
        matching_balances(current, original, (count - 1) as nat);
        let item = current[count - 1];
        assert(current.take(count as int) =~= current.take(count - 1).push(item));
        if let Some(flags) = unmatched(current, original, (count - 1) as nat) {
            first_unused_is_unused(flags, original, item, 0);
            match first_unused(flags, original, item, 0) {
                Some(at) => {
                    kept_without_one(original, flags, at, original.len());
                    let less = flags.update(at, false);
                    assert(current.take(count as int).to_multiset().add(
                        kept(original, less, original.len()),
                    ) =~= current.take(count - 1).to_multiset().add(
                        kept(original, flags, original.len()),
                    ));
                },
                None => {
                    kept_lacks(original, flags, item, original.len());
                    front_counts(current, count as int, item);
                    assert(current.to_multiset().count(item) > original.to_multiset().count(item));
                },
            }
        }
    }
}

proof fn front_counts<T>(items: Seq<T>, count: int, item: T)
    requires
        0 <= count <= items.len(),
    ensures
        items.take(count).to_multiset().count(item) <= items.to_multiset().count(item),
    decreases items.len() - count,
{
    broadcast use group_to_multiset_ensures;

    if count < items.len() {
        front_counts(items, count + 1, item);
        assert(items.take(count + 1) =~= items.take(count).push(items[count]));
    } else {
        assert(items.take(count) =~= items);
    }
}

/// What is restored completes what is there to what was captured, no more and no less;
/// and where anything is there that was not captured, nothing is restored.
pub proof fn restoring_completes_the_capture<T>(current: Seq<T>, original: Seq<T>)
    requires
        original.len() <= usize::MAX,
    ensures
        match unmatched(current, original, current.len()) {
            Some(flags) => current.to_multiset().add(
                picked(original, set_positions(flags, original.len())).to_multiset(),
            ) == original.to_multiset(),
            None => !current.to_multiset().subset_of(original.to_multiset()),
        },
{
    matching_balances(current, original, current.len());
    assert(current.take(current.len() as int) =~= current);
    if let Some(flags) = unmatched(current, original, current.len()) {
        kept_is_picked(original, flags, original.len());
    }
}

/// Whether both hold the same items, each as often.
pub fn same_multiset<T: PartialEq>(left: &[T], right: &[T]) -> (same: bool)
    requires
        T::obeys_eq_spec(),
        forall|a: T, b: T| #[trigger] a.eq_spec(&b) <==> a == b,
    ensures
        same == (left@.to_multiset() == right@.to_multiset()),
{
    let length: usize = right.len();
    proof {
        broadcast use group_to_multiset_ensures;

        restoring_completes_the_capture(left@, right@);
        to_multiset_len(left@);
        to_multiset_len(right@);
    }
    if left.len() != length {
        return false;
    }
    match missing_original_indices(left, right) {
        Some(missing) => {
            proof {
                let rest = picked(right@, missing@);
                to_multiset_len(rest);
                if missing@.len() == 0 {
                    assert(rest =~= Seq::<T>::empty());
                    assert(left@.to_multiset() =~= right@.to_multiset());
                } else {
                    assert(left@.to_multiset().add(rest.to_multiset()).len()
                        == left@.to_multiset().len() + rest.to_multiset().len());
                }
            }
            missing.len() == 0
        },
        None => false,
    }
}

/// Whether a captured gateway can still be used: it is none, or still configured.
pub fn captured_gateway_is_available(next_hop: Address, gateways: &Vec<Address>) -> (available:
    bool)
    ensures
        available == (next_hop.unspecified() || gateways@.contains(next_hop)),
{
    if next_hop.is_unspecified() {
        return true;
    }
    let mut i: usize = 0;
    while i < gateways.len()
        invariant
            i <= gateways@.len(),
            forall|j: int| 0 <= j < i ==> gateways@[j] != next_hop,
        decreases gateways@.len() - i,
    {
        if gateways[i] == next_hop {
            assert(gateways@.contains(next_hop)) by {
                assert(gateways@[i as int] == next_hop);
            }
            return true;
        }
        i = i + 1;
    }
    false
}

/// The order in which a suffix is undone: the last first.
pub fn rollback_order(length: usize, start: usize) -> (order: Vec<usize>)
    requires
        start <= length,
    ensures
        order@ == Seq::new((length - start) as nat, |i: int| (length - 1 - i) as usize),
{
    let mut order: Vec<usize> = Vec::new();
    let mut next: usize = length;
    while next > start
        invariant
            start <= next <= length,
            order@ == Seq::new((length - next) as nat, |i: int| (length - 1 - i) as usize),
        decreases next - start,
    {
        next = next - 1;
        order.push(next);
        assert(order@ =~= Seq::new((length - next) as nat, |i: int| (length - 1 - i) as usize));
    }
    order
}

/// The items from `start` below `end` that could not be restored.
pub open spec fn still_owned<T>(items: Seq<T>, restored: Seq<bool>, start: int, end: int) -> Seq<T>
    decreases end - start,
{
    if end <= start {
        seq![]
    } else if restored[end - 1] {
        still_owned(items, restored, start, end - 1)
    } else {
        still_owned(items, restored, start, end - 1).push(items[end - 1])
    }
}

/// Drops the items from `start` on that were restored; `restored` says so of each item.
/// Failures stay, in their order, for a later attempt.
pub fn rollback_suffix<T>(items: &mut Vec<T>, start: usize, restored: &Vec<bool>)
    requires
        start <= old(items)@.len(),
        restored@.len() == old(items)@.len(),
    ensures
        final(items)@ == old(items)@.take(start as int) + still_owned(
            old(items)@,
            restored@,
            start as int,
            old(items)@.len() as int,
        ),
{
    let length: usize = items.len();
    let mut at: usize = length;
    let ghost before = items@;
    proof {
        assert(before.skip(length as int) =~= Seq::<T>::empty());
        assert(items@ =~= before.take(at as int) + owned_after(
            before,
            restored@,
            at as int,
            length as int,
        ));
    }
    while at > start
        invariant
            start <= at <= length,
            before == old(items)@,
            length == before.len() == restored@.len(),
            items@ == before.take(at as int) + owned_after(
                before,
                restored@,
                at as int,
                length as int,
            ),
        decreases at - start,
    {
        at = at - 1;
        let ghost rest = owned_after(before, restored@, at + 1, length as int);
        assert(before.take(at + 1) =~= before.take(at as int).push(before[at as int]));
        if restored[at] {
            let _gone: T = items.remove(at);
            assert(items@ =~= before.take(at as int) + rest);
        } else {
            assert(items@ =~= before.take(at as int) + (seq![before[at as int]] + rest));
        }
    }
    proof {
        owned_both_ways(before, restored@, start as int, length as int);
    }
}

spec fn owned_after<T>(items: Seq<T>, restored: Seq<bool>, at: int, end: int) -> Seq<T>
    decreases end - at,
{
    if at >= end {
        seq![]
    } else if restored[at] {
        owned_after(items, restored, at + 1, end)
    } else {
        seq![items[at]] + owned_after(items, restored, at + 1, end)
    }
}

proof fn owned_both_ways<T>(items: Seq<T>, restored: Seq<bool>, at: int, end: int)
    ensures
        owned_after(items, restored, at, end) == still_owned(items, restored, at, end),
    decreases end - at,
{
    if at < end {
        owned_both_ways(items, restored, at, end - 1);
        owned_split(items, restored, at, end);
    }
}

proof fn owned_split<T>(items: Seq<T>, restored: Seq<bool>, at: int, end: int)
    requires
        at < end,
    ensures
        owned_after(items, restored, at, end) == if restored[end - 1] {
            owned_after(items, restored, at, end - 1)
        } else {
            owned_after(items, restored, at, end - 1).push(items[end - 1])
        },
    decreases end - at,
{
    if at + 1 < end {
        owned_split(items, restored, at + 1, end);
        if !restored[at] && !restored[end - 1] {
            let middle = owned_after(items, restored, at + 1, end - 1);
            assert(seq![items[at]] + middle.push(items[end - 1]) =~= (seq![items[at]]
                + middle).push(items[end - 1]));
        }
    } else {
        assert(owned_after(items, restored, at + 1, end) =~= seq![]);
        assert(owned_after(items, restored, at, at) =~= seq![]);
        assert(seq![items[at]] + Seq::<T>::empty() =~= Seq::<T>::empty().push(items[at]));
    }
}

/// A rollback touches nothing before its start, and drops everything after it once all
/// was restored.
pub proof fn complete_rollback_leaves_the_front<T>(
    items: Seq<T>,
    restored: Seq<bool>,
    start: int,
    end: int,
)
    requires
        forall|i: int| start <= i < end ==> #[trigger] restored[i],
    ensures
        still_owned(items, restored, start, end) == Seq::<T>::empty(),
    decreases end - start,
{
    if start < end {
        assert(restored[end - 1]);
        complete_rollback_leaves_the_front(items, restored, start, end - 1);
    }
}

/// What is said of errors while undoing, where there were any.
pub fn errors_to_result(context: &str, errors: &Vec<String>) -> (message: Option<String>)
    ensures
        match message {
            Some(message) => errors@.len() > 0 && message@ == context@ + ": "@ + text::join(
                text::texts(errors@),
                "; "@,
            ),
            None => errors@.len() == 0,
        },
{
    if errors.len() == 0 {
        return None;
    }
    let mut message: String = context.to_owned();
    message.append(": ");
    message.append(text::joined(errors, "; ").as_str());
    Some(message)
}

pub open spec fn rollback_wording(context: Seq<char>, primary: Seq<char>, errors: Seq<Seq<char>>) -> Seq<
    char,
> {
    if errors.len() == 0 {
        context + ": "@ + primary
    } else {
        context + ": "@ + primary + "; rollback also failed: "@ + text::join(errors, "; "@)
            + "; durable snapshot(s) retained for retry"@
    }
}

/// What is said of an error, and of the errors while undoing what came before it.
pub fn error_with_rollback(context: &str, primary: &str, rollback_errors: &Vec<String>) -> (message:
    String)
    ensures
        message@ == rollback_wording(context@, primary@, text::texts(rollback_errors@)),
{
    let mut message: String = context.to_owned();
    message.append(": ");
    message.append(primary);
    if rollback_errors.len() > 0 {
        message.append("; rollback also failed: ");
        message.append(text::joined(rollback_errors, "; ").as_str());
        message.append("; durable snapshot(s) retained for retry");
    }
    message
}

/// Whether the flag is to be set back: only where the policy has set it.
pub fn should_restore_owned_flag(current: bool, original: bool) -> (restore: bool)
    ensures
        restore == (current && !original),
{
    current && !original
}

pub const FAMILY_IPV4: u16 = 2;

pub const FAMILY_IPV6: u16 = 23;

/// What the policy changes of an interface.
#[derive(Clone, Copy, Debug, PartialEq, Eq, Structural)]
pub struct InterfaceRow {
    pub family: u16,
    pub disable_default_routes: bool,
    pub site_prefix_length: u32,
}

/// Readies a row for the system, which refuses one of IPv4 with a site prefix.
pub fn prepare_interface_row_for_set(row: &mut InterfaceRow, disable_default_routes: bool)
    ensures
        *final(row) == (InterfaceRow {
            family: old(row).family,
            disable_default_routes,
            site_prefix_length: if old(row).family == FAMILY_IPV4 {
                0
            } else {
                old(row).site_prefix_length
            },
        }),
{
    row.disable_default_routes = disable_default_routes;
    if row.family == FAMILY_IPV4 {
        row.site_prefix_length = 0;
    }
}

/// A default route as it is kept in the journal.
#[derive(Clone, Copy, Debug)]
pub struct PersistedRoute {
    pub next_hop: Address,
    pub next_hop_scope_id: u32,
    pub site_prefix_length: u8,
    pub valid_lifetime: u32,
    pub preferred_lifetime: u32,
    pub metric: u32,
    pub protocol: i32,
    pub loopback: bool,
    pub autoconfigure_address: bool,
    pub publish: bool,
    pub immortal: bool,
    pub origin: i32,
}

impl PartialEq for PersistedRoute {
    fn eq(&self, other: &PersistedRoute) -> (same: bool) {
        self.next_hop == other.next_hop && self.next_hop_scope_id == other.next_hop_scope_id
            && self.site_prefix_length == other.site_prefix_length && self.valid_lifetime
            == other.valid_lifetime && self.preferred_lifetime == other.preferred_lifetime
            && self.metric == other.metric && self.protocol == other.protocol && self.loopback
            == other.loopback && self.autoconfigure_address == other.autoconfigure_address
            && self.publish == other.publish && self.immortal == other.immortal && self.origin
            == other.origin
    }
}

impl vstd::std_specs::cmp::PartialEqSpecImpl for PersistedRoute {
    open spec fn obeys_eq_spec() -> bool {
        true
    }

    open spec fn eq_spec(&self, other: &PersistedRoute) -> bool {
        *self == *other
    }
}

impl PersistedRoute {
    pub open spec fn is_of(self, family: u16) -> bool {
        match self.next_hop {
            Address::V4(_) => family == FAMILY_IPV4,
            Address::V6(_) => family == FAMILY_IPV6,
        }
    }

    /// The route as it is to be restored on an interface of a family: a gateway of the link
    /// is in the scope of the interface as it is now.
    pub fn restored(&self, interface_index: u32, family: u16) -> (route: Result<
        PersistedRoute,
        &'static str,
    >)
        ensures
            match route {
                Ok(route) => self.is_of(family) && route == (PersistedRoute {
                    next_hop_scope_id: if self.next_hop.link_local_v6() {
                        interface_index
                    } else {
                        self.next_hop_scope_id
                    },
                    ..*self
                }),
                Err(message) => !self.is_of(family) && message@
                    == "persisted route address family does not match its interface family"@,
            },
    {
        let fits: bool = match self.next_hop {
            Address::V4(_) => family == FAMILY_IPV4,
            Address::V6(_) => family == FAMILY_IPV6,
        };
        if !fits {
            return Err("persisted route address family does not match its interface family");
        }
        let mut route: PersistedRoute = *self;
        if self.next_hop.is_unicast_link_local() {
            route.next_hop_scope_id = interface_index;
        }
        Ok(route)
    }
}

/// What tells one default route from another.
#[derive(Clone, Copy, Debug)]
pub struct RouteKey {
    pub interface_index: u32,
    pub family: u16,
    pub prefix_length: u8,
    pub prefix: [u8; 16],
    pub next_hop: [u8; 16],
}

/// The key of a route of an interface.
pub fn route_key(
    interface_index: u32,
    family: u16,
    prefix_length: u8,
    prefix: Address,
    next_hop: Address,
) -> (key: RouteKey)
    ensures
        key.interface_index == interface_index,
        key.family == family,
        key.prefix_length == prefix_length,
        key.prefix@ == prefix.octets(),
        key.next_hop@ == next_hop.octets(),
{
    RouteKey {
        interface_index,
        family,
        prefix_length,
        prefix: prefix.padded_octets(),
        next_hop: next_hop.padded_octets(),
    }
}

impl PartialEq for RouteKey {
    fn eq(&self, other: &RouteKey) -> (same: bool) {
        let prefixes: bool = same_bytes(&self.prefix, &other.prefix);
        let hops: bool = same_bytes(&self.next_hop, &other.next_hop);
        assert(prefixes == (self.prefix =~= other.prefix));
        assert(hops == (self.next_hop =~= other.next_hop));
        self.interface_index == other.interface_index && self.family == other.family
            && self.prefix_length == other.prefix_length && prefixes && hops
    }
}

impl vstd::std_specs::cmp::PartialEqSpecImpl for RouteKey {
    open spec fn obeys_eq_spec() -> bool {
        true
    }

    open spec fn eq_spec(&self, other: &RouteKey) -> bool {
        *self == *other
    }
}

pub const ERROR_SUCCESS: u32 = 0;

pub const ERROR_FILE_NOT_FOUND: u32 = 2;

pub const ERROR_ACCESS_DENIED: u32 = 5;

pub const ERROR_ALREADY_EXISTS: u32 = 183;

pub const ERROR_NOT_FOUND: u32 = 1168;

pub const ERROR_OBJECT_ALREADY_EXISTS: u32 = 5010;

/// Whether a code says that the thing is not there.
pub fn is_missing(result: u32) -> (missing: bool)
    ensures
        missing == (result == ERROR_FILE_NOT_FOUND || result == ERROR_NOT_FOUND),
{
    result == ERROR_FILE_NOT_FOUND || result == ERROR_NOT_FOUND
}

/// Whether a route is there after the attempt to create it.
pub fn creation_succeeded(result: u32) -> (succeeded: bool)
    ensures
        succeeded == (result == ERROR_SUCCESS || result == ERROR_ALREADY_EXISTS || result
            == ERROR_OBJECT_ALREADY_EXISTS),
{
    result == ERROR_SUCCESS || result == ERROR_ALREADY_EXISTS || result
        == ERROR_OBJECT_ALREADY_EXISTS
}

/// The kind of an error.
#[derive(Clone, Copy, Debug, PartialEq, Eq, Structural)]
pub enum FaultKind {
    PermissionDenied,
    NotFound,
    Other,
}

pub fn win32_kind(result: u32) -> (kind: FaultKind)
    ensures
        kind == if result == ERROR_ACCESS_DENIED {
            FaultKind::PermissionDenied
        } else if result == ERROR_FILE_NOT_FOUND || result == ERROR_NOT_FOUND {
            FaultKind::NotFound
        } else {
            FaultKind::Other
        },
{
    if result == ERROR_ACCESS_DENIED {
        FaultKind::PermissionDenied
    } else if is_missing(result) {
        FaultKind::NotFound
    } else {
        FaultKind::Other
    }
}

pub fn win32_error(operation: &str, result: u32) -> (message: String)
    ensures
        message@ == operation@ + " failed with Windows error "@ + text::decimal(result as nat),
{
    let mut message: String = operation.to_owned();
    message.append(" failed with Windows error ");
    text::push_decimal(&mut message, result as u128);
    message
}

/// Whether the next captured route may be deleted: the routes that are there are exactly
/// the captured ones that are not deleted yet.
pub fn may_delete(current: &[PersistedRoute], captured: &[PersistedRoute], deleted: usize) -> (may:
    bool)
    requires
        deleted <= captured@.len(),
    ensures
        may == (current@.to_multiset() == captured@.skip(deleted as int).to_multiset()),
{
    let rest: &[PersistedRoute] = &captured[deleted..captured.len()];
    assert(rest@ =~= captured@.skip(deleted as int));
    same_multiset(current, rest)
}

/// That positions are those of the items which were not restored, in their order.
pub open spec fn lists_failures(restored: Seq<bool>, start: int, end: int, positions: Seq<int>) -> bool {
    &&& forall|k: int| #![trigger positions[k]]
        0 <= k < positions.len() ==> start <= positions[k] < end && !restored[positions[k]]
    &&& forall|k: int, l: int| 0 <= k < l < positions.len() ==> positions[k] < positions[l]
    &&& forall|i: int|
        start <= i < end && !#[trigger] restored[i] ==> positions.contains(i)
}

/// After a rollback exactly the items that could not be restored are still owned, each once
/// and in the order in which they were.
pub proof fn failures_stay_in_order<T>(
    items: Seq<T>,
    restored: Seq<bool>,
    start: int,
    end: int,
    positions: Seq<int>,
)
    requires
        lists_failures(restored, start, end, positions),
    ensures
        still_owned(items, restored, start, end) == Seq::new(
            positions.len(),
            |k: int| items[positions[k]],
        ),
    decreases end - start,
{
    let all = Seq::new(positions.len(), |k: int| items[positions[k]]);
    if end <= start {
        if positions.len() > 0 {
            assert(start <= positions[0] < end);
        }
        assert(all =~= seq![]);
    } else if restored[end - 1] {
        assert forall|k: int| #![trigger positions[k]] 0 <= k < positions.len() implies start
            <= positions[k] < end - 1 && !restored[positions[k]] by {}
        failures_stay_in_order(items, restored, start, end - 1, positions);
    } else {
        assert(positions.contains(end - 1));
        let at = choose|k: int| 0 <= k < positions.len() && positions[k] == end - 1;
        if at + 1 < positions.len() {
            assert(positions[at] < positions[at + 1]);
        }
        let front = positions.drop_last();
        assert(positions.last() == end - 1);
        assert forall|i: int| start <= i < end - 1 && !#[trigger] restored[i] implies front.contains(
            i,
        ) by {
            let k = choose|k: int| 0 <= k < positions.len() && positions[k] == i;
            assert(front[k] == i);
        }
        assert forall|k: int| #![trigger front[k]] 0 <= k < front.len() implies start <= front[k]
            < end - 1 && !restored[front[k]] by {
            assert(positions[k] < positions[positions.len() - 1]);
        }
        failures_stay_in_order(items, restored, start, end - 1, front);
        assert(all =~= Seq::new(front.len(), |k: int| items[front[k]]).push(items[end - 1]));
    }
}

/// What is missing is restored in the order of the capture, nothing of it twice.
pub proof fn missing_positions_rise(flags: Seq<bool>, count: nat)
    requires
        count <= flags.len() <= usize::MAX,
    ensures
        forall|k: int, l: int|
            0 <= k < l < set_positions(flags, count).len() ==> #[trigger] set_positions(
                flags,
                count,
            )[k] < #[trigger] set_positions(flags, count)[l],
        forall|k: int|
            0 <= k < set_positions(flags, count).len() ==> #[trigger] set_positions(flags, count)[k]
                < count,
    decreases count,
{
    if count > 0 {
        missing_positions_rise(flags, (count - 1) as nat);
        let front = set_positions(flags, (count - 1) as nat);
        let all = set_positions(flags, count);
        assert forall|k: int| 0 <= k < all.len() implies #[trigger] all[k] < count by {
            if k < front.len() {
                assert(all[k] == front[k]);
            }
        }
        assert forall|k: int, l: int| 0 <= k < l < all.len() implies #[trigger] all[k]
            < #[trigger] all[l] by {
            assert(all[k] == front[k]);
            if l < front.len() {
                assert(all[l] == front[l]);
            }
        }
    }
}

} // verus!
