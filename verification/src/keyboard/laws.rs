//! What holds of every plan: the keys end up as the fingers are, and no slide leaves a gap.
use crate::keyboard::plan;
use crate::keyboard::plan::{KeyChange, PlanView, POINTER_ID_COUNT, SURFACE};
use crate::protocol::frame::Contact;
use vstd::prelude::*;

verus! {

/// How many of the pointers are on a lane.
pub open spec fn fingers_on(pointers: Seq<Option<usize>>, lane: int) -> nat
    decreases pointers.len(),
{
    if pointers.len() == 0 {
        0
    } else {
        fingers_on(pointers.drop_last(), lane) + if is_on(pointers.last(), lane) {
            1nat
        } else {
            0nat
        }
    }
}

pub open spec fn is_on(place: Option<usize>, lane: int) -> bool {
    place matches Some(found) && found == lane
}

/// The keys that are down after some changes.
pub open spec fn replayed(down: Seq<bool>, changes: Seq<KeyChange>) -> Seq<bool>
    decreases changes.len(),
{
    if changes.len() == 0 {
        down
    } else {
        replayed(down, changes.drop_last()).update(
            changes.last().lane as int,
            changes.last().down,
        )
    }
}

/// The keys of the lanes that fingers hold.
pub open spec fn held(holds: Seq<u16>) -> Seq<bool> {
    Seq::new(holds.len(), |lane: int| holds[lane] > 0)
}

/// Every change is one: no key goes down that is down, none goes up that is up.
pub open spec fn effective(down: Seq<bool>, changes: Seq<KeyChange>) -> bool {
    forall|i: int|
        0 <= i < changes.len() ==> {
            &&& (#[trigger] changes[i]).lane < down.len()
            &&& replayed(down, changes.subrange(0, i))[changes[i].lane as int] == !changes[i].down
        }
}

pub open spec fn some_down(down: Seq<bool>) -> bool {
    exists|lane: int| 0 <= lane < down.len() && down[lane]
}

/// After none, some or all of the changes, some key is down.
pub open spec fn gapless(down: Seq<bool>, changes: Seq<KeyChange>) -> bool {
    forall|k: int|
        0 <= k <= changes.len() ==> some_down(replayed(down, #[trigger] changes.subrange(0, k)))
}

/// The holds agree with the fingers.
pub open spec fn counted(pointers: Seq<Option<usize>>, holds: Seq<u16>) -> bool {
    forall|lane: int|
        0 <= lane < holds.len() ==> #[trigger] holds[lane] == fingers_on(pointers, lane)
}

/// The holds are few, and the changes so far lead from `down` to them.
spec fn followed(plan: PlanView, down: Seq<bool>, most: int) -> bool {
    &&& down.len() == plan.holds.len()
    &&& replayed(down, plan.changes) == held(plan.holds)
    &&& effective(down, plan.changes)
    &&& forall|lane: int| 0 <= lane < plan.holds.len() ==> #[trigger] plan.holds[lane] <= most
}

proof fn replayed_push(down: Seq<bool>, changes: Seq<KeyChange>, change: KeyChange)
    ensures
        replayed(down, changes.push(change)) == replayed(down, changes).update(
            change.lane as int,
            change.down,
        ),
{
    assert(changes.push(change).drop_last() =~= changes);
}

proof fn effective_push(down: Seq<bool>, changes: Seq<KeyChange>, change: KeyChange)
    requires
        effective(down, changes),
        change.lane < down.len(),
        replayed(down, changes)[change.lane as int] == !change.down,
    ensures
        effective(down, changes.push(change)),
{
    let more = changes.push(change);
    assert forall|i: int| 0 <= i < more.len() implies {
        &&& (#[trigger] more[i]).lane < down.len()
        &&& replayed(down, more.subrange(0, i))[more[i].lane as int] == !more[i].down
    } by {
        if i < changes.len() {
            assert(more[i] == changes[i]);
            assert(more.subrange(0, i) =~= changes.subrange(0, i));
        } else {
            assert(more.subrange(0, i) =~= changes);
        }
    }
}

proof fn gapless_push(down: Seq<bool>, changes: Seq<KeyChange>, change: KeyChange)
    requires
        gapless(down, changes),
        some_down(replayed(down, changes.push(change))),
    ensures
        gapless(down, changes.push(change)),
{
    let more = changes.push(change);
    assert forall|k: int| 0 <= k <= more.len() implies some_down(
        replayed(down, #[trigger] more.subrange(0, k)),
    ) by {
        if k <= changes.len() {
            assert(more.subrange(0, k) =~= changes.subrange(0, k));
        } else {
            assert(more.subrange(0, k) =~= more);
        }
    }
}

proof fn acquire_followed(plan: PlanView, down: Seq<bool>, most: int, lane: int)
    requires
        followed(plan, down, most),
        0 <= lane < plan.holds.len(),
        most < u16::MAX,
        plan.holds.len() <= usize::MAX,
    ensures
        followed(plan.acquired(lane), down, most + 1),
        plan.acquired(lane).holds == plan.holds.update(lane, (plan.holds[lane] + 1) as u16),
        plan.acquired(lane).pointers == plan.pointers,
        gapless(down, plan.changes) ==> gapless(down, plan.acquired(lane).changes),
{
    let after = plan.acquired(lane);
    if plan.holds[lane] == 0 {
        let change = KeyChange { lane: lane as usize, down: true };
        replayed_push(down, plan.changes, change);
        effective_push(down, plan.changes, change);
        assert(held(after.holds)[lane]);
        if gapless(down, plan.changes) {
            assert(replayed(down, after.changes)[lane]);
            gapless_push(down, plan.changes, change);
        }
    }
    assert(replayed(down, after.changes) =~= held(after.holds));
}

proof fn release_followed(plan: PlanView, down: Seq<bool>, most: int, lane: int)
    requires
        followed(plan, down, most),
        0 <= lane < plan.holds.len(),
        plan.holds[lane] > 0,
        plan.holds.len() <= usize::MAX,
    ensures
        followed(plan.released(lane), down, most),
        plan.released(lane).holds == plan.holds.update(lane, (plan.holds[lane] - 1) as u16),
        plan.released(lane).pointers == plan.pointers,
        gapless(down, plan.changes) && some_down(held(plan.released(lane).holds)) ==> gapless(
            down,
            plan.released(lane).changes,
        ),
{
    let after = plan.released(lane);
    if plan.holds[lane] == 1 {
        let change = KeyChange { lane: lane as usize, down: false };
        replayed_push(down, plan.changes, change);
        effective_push(down, plan.changes, change);
        assert(replayed(down, after.changes) =~= held(after.holds));
        if gapless(down, plan.changes) && some_down(held(after.holds)) {
            gapless_push(down, plan.changes, change);
        }
    }
    assert(replayed(down, after.changes) =~= held(after.holds));
}

/// A slide moves one hold from one lane to another, and never leaves both free.
proof fn slide_followed(plan: PlanView, down: Seq<bool>, most: int, from: int, to: int)
    requires
        followed(plan, down, most),
        0 <= from < plan.holds.len(),
        0 <= to < plan.holds.len(),
        plan.holds[from] > 0,
        most + 1 < u16::MAX,
        plan.holds.len() <= usize::MAX,
    ensures
        followed(plan.slid(from, to), down, most + 1),
        plan.slid(from, to).pointers == plan.pointers,
        plan.slid(from, to).holds == if from == to {
            plan.holds
        } else {
            plan.holds.update(from, (plan.holds[from] - 1) as u16).update(
                to,
                (plan.holds[to] + 1) as u16,
            )
        },
        gapless(down, plan.changes) ==> gapless(down, plan.slid(from, to).changes),
    decreases
            if from < to {
                to - from
            } else {
                from - to
            },
{
    if from != to {
        let next = if from < to {
            from + 1
        } else {
            from - 1
        };
        acquire_followed(plan, down, most, next);
        let taken = plan.acquired(next);
        release_followed(taken, down, most + 1, from);
        let left = taken.released(from);
        assert(held(left.holds)[next]);
        assert(some_down(held(left.holds)));
        slide_step(left, down, most, next, to, plan, from);
    }
}

/// The rest of a slide, after its first lane.
proof fn slide_step(
    plan: PlanView,
    down: Seq<bool>,
    most: int,
    from: int,
    to: int,
    before: PlanView,
    origin: int,
)
    requires
        followed(before, down, most),
        followed(plan, down, most + 1),
        0 <= origin < before.holds.len(),
        0 <= from < before.holds.len(),
        0 <= to < before.holds.len(),
        origin != from,
        origin != to,
        (origin < from <= to) || (origin > from >= to),
        before.holds[origin] > 0,
        plan.holds == before.holds.update(from, (before.holds[from] + 1) as u16).update(
            origin,
            (before.holds[origin] - 1) as u16,
        ),
        plan.pointers == before.pointers,
        most + 1 < u16::MAX,
        plan.holds.len() <= usize::MAX,
    ensures
        followed(plan.slid(from, to), down, most + 1),
        plan.slid(from, to).pointers == before.pointers,
        plan.slid(from, to).holds == before.holds.update(
            origin,
            (before.holds[origin] - 1) as u16,
        ).update(to, (before.holds[to] + 1) as u16),
        gapless(down, plan.changes) ==> gapless(down, plan.slid(from, to).changes),
    decreases
            if from < to {
                to - from
            } else {
                from - to
            },
{
    if from != to {
        let next = if from < to {
            from + 1
        } else {
            from - 1
        };
        acquire_followed(plan, down, most + 1, next);
        let taken = plan.acquired(next);
        release_followed(taken, down, most + 2, from);
        let left = taken.released(from);
        assert(held(left.holds)[next]);
        assert(some_down(held(left.holds)));
        assert(left.holds =~= before.holds.update(next, (before.holds[next] + 1) as u16).update(
            origin,
            (before.holds[origin] - 1) as u16,
        ));
        assert forall|lane: int| 0 <= lane < left.holds.len() implies #[trigger] left.holds[lane]
            <= most + 1 by {
            assert(before.holds[lane] <= most);
        }
        slide_step(left, down, most, next, to, before, origin);
    } else {
        assert(plan.holds =~= before.holds.update(
            origin,
            (before.holds[origin] - 1) as u16,
        ).update(to, (before.holds[to] + 1) as u16));
    }
}

proof fn fingers_update(pointers: Seq<Option<usize>>, p: int, place: Option<usize>, lane: int)
    requires
        0 <= p < pointers.len(),
    ensures
        fingers_on(pointers.update(p, place), lane) == fingers_on(pointers, lane) - (if is_on(
            pointers[p],
            lane,
        ) {
            1int
        } else {
            0int
        }) + (if is_on(place, lane) {
            1int
        } else {
            0int
        }),
    decreases pointers.len(),
{
    let changed = pointers.update(p, place);
    if p == pointers.len() - 1 {
        assert(changed.drop_last() =~= pointers.drop_last());
    } else {
        assert(changed.drop_last() =~= pointers.drop_last().update(p, place));
        fingers_update(pointers.drop_last(), p, place, lane);
    }
}

proof fn fingers_bounded(pointers: Seq<Option<usize>>, lane: int)
    ensures
        fingers_on(pointers, lane) <= pointers.len(),
    decreases pointers.len(),
{
    if pointers.len() > 0 {
        fingers_bounded(pointers.drop_last(), lane);
    }
}

proof fn finger_counts(pointers: Seq<Option<usize>>, p: int, lane: int)
    requires
        0 <= p < pointers.len(),
        is_on(pointers[p], lane),
    ensures
        fingers_on(pointers, lane) >= 1,
    decreases pointers.len(),
{
    if p < pointers.len() - 1 {
        finger_counts(pointers.drop_last(), p, lane);
    }
}

/// A finger on a lane counts.
pub proof fn finger_is_counted(pointers: Seq<Option<usize>>, p: int, lane: int)
    requires
        0 <= p < pointers.len(),
        is_on(pointers[p], lane),
    ensures
        fingers_on(pointers, lane) >= 1,
{
    finger_counts(pointers, p, lane);
}

/// A lane that no finger is on counts none.
pub proof fn lane_without_fingers(pointers: Seq<Option<usize>>, lane: int)
    requires
        forall|q: int| 0 <= q < pointers.len() ==> !is_on(#[trigger] pointers[q], lane),
    ensures
        fingers_on(pointers, lane) == 0,
{
    nobody_at_all(pointers, lane);
}

/// What a plan keeps from step to step.
spec fn sound(plan: PlanView, down: Seq<bool>) -> bool {
    &&& plan.wf()
    &&& 0 < plan.holds.len() <= u32::MAX
    &&& counted(plan.pointers, plan.holds)
    &&& followed(plan, down, 256)
}

/// That a pointer is on a lane, and some key was down all along.
spec fn anchored(plan: PlanView, down: Seq<bool>, p: int) -> bool {
    &&& 0 <= p < POINTER_ID_COUNT
    &&& plan.pointers[p] is Some
    &&& gapless(down, plan.changes)
}

proof fn bounds_hold(plan: PlanView, down: Seq<bool>, most: int)
    requires
        plan.pointers.len() == POINTER_ID_COUNT,
        counted(plan.pointers, plan.holds),
        followed(plan, down, most),
    ensures
        followed(plan, down, 256),
{
    assert forall|lane: int| 0 <= lane < plan.holds.len() implies #[trigger] plan.holds[lane]
        <= 256 by {
        fingers_bounded(plan.pointers, lane);
    }
}

proof fn lane_is_held(plan: PlanView, p: int)
    requires
        plan.wf(),
        counted(plan.pointers, plan.holds),
        0 <= p < POINTER_ID_COUNT,
        plan.pointers[p] is Some,
    ensures
        plan.holds[plan.pointers[p]->0 as int] > 0,
        some_down(held(plan.holds)),
{
    let lane = plan.pointers[p]->0 as int;
    finger_counts(plan.pointers, p, lane);
    assert(plan.holds[lane] == fingers_on(plan.pointers, lane));
    assert(held(plan.holds)[lane]);
}

proof fn moved_sound(plan: PlanView, down: Seq<bool>, p: int, to: int)
    requires
        sound(plan, down),
        0 <= p < POINTER_ID_COUNT,
        0 <= to < plan.holds.len(),
    ensures
        sound(plan.moved(p, to), down),
        plan.moved(p, to).pointers == plan.pointers.update(p, Some(to as usize)),
        plan.moved(p, to).holds.len() == plan.holds.len(),
        gapless(down, plan.changes) ==> gapless(down, plan.moved(p, to).changes),
{
    let after = plan.moved(p, to);
    match plan.pointers[p] {
        None => {
            acquire_followed(plan, down, 256, to);
        },
        Some(from) => {
            lane_is_held(plan, p);
            slide_followed(plan, down, 256, from as int, to);
        },
    }
    assert forall|lane: int| 0 <= lane < after.holds.len() implies #[trigger] after.holds[lane]
        == fingers_on(after.pointers, lane) by {
        fingers_update(plan.pointers, p, Some(to as usize), lane);
        assert(plan.holds[lane] == fingers_on(plan.pointers, lane));
        fingers_bounded(plan.pointers, lane);
    }
    assert(after.wf()) by {
        assert forall|i: int| 0 <= i < after.changes.len() implies (#[trigger] after.changes[i]).lane
            < after.holds.len() by {
            assert(effective(down, after.changes));
        }
    }
    bounds_hold(after, down, 257);
}

proof fn lifted_sound(plan: PlanView, down: Seq<bool>, p: int)
    requires
        sound(plan, down),
        0 <= p < POINTER_ID_COUNT,
    ensures
        sound(plan.lifted(p), down),
        plan.lifted(p).pointers == plan.pointers.update(p, None),
        plan.lifted(p).holds.len() == plan.holds.len(),
        forall|q: int| #[trigger]
            anchored(plan, down, q) && q != p ==> gapless(down, plan.lifted(p).changes),
{
    let after = plan.lifted(p);
    if let Some(from) = plan.pointers[p] {
        lane_is_held(plan, p);
        let placed = plan.placed(p, None);
        assert(followed(placed, down, 256));
        release_followed(placed, down, 256, from as int);
        assert forall|lane: int| 0 <= lane < after.holds.len() implies #[trigger] after.holds[lane]
            == fingers_on(after.pointers, lane) by {
            fingers_update(plan.pointers, p, None, lane);
            assert(plan.holds[lane] == fingers_on(plan.pointers, lane));
        }
        assert(after.wf()) by {
            assert forall|i: int| 0 <= i < after.changes.len() implies (
            #[trigger] after.changes[i]).lane < after.holds.len() by {
                assert(effective(down, after.changes));
            }
        }
        assert forall|q: int| #[trigger] anchored(plan, down, q) && q != p implies gapless(
            down,
            after.changes,
        ) by {
            assert(after.pointers[q] == plan.pointers[q]);
            lane_is_held(after, q);
        }
    } else {
        assert(plan.pointers.update(p, None) =~= plan.pointers);
    }
}

proof fn touched_sound(plan: PlanView, down: Seq<bool>, contact: Contact)
    requires
        sound(plan, down),
    ensures
        sound(plan.touched(contact), down),
        plan.touched(contact).holds.len() == plan.holds.len(),
        plan.touched(contact).pointers == plan.pointers.update(
            contact.pointer_id as int,
            place_of(contact, plan.holds.len()),
        ),
        forall|q: int| #[trigger]
            anchored(plan, down, q) && (q == contact.pointer_id ==> contact.is_touching())
                ==> anchored(plan.touched(contact), down, q),
{
    let p = contact.pointer_id as int;
    plan::lane_is_there(contact.x, plan.holds.len());
    let to = plan::lane_at(contact.x, plan.holds.len()) as int;
    if contact.is_touching() {
        moved_sound(plan, down, p, to);
    } else {
        lifted_sound(plan, down, p);
        assert forall|q: int| #[trigger]
            anchored(plan, down, q) && (q == p ==> contact.is_touching()) implies anchored(
            plan.touched(contact),
            down,
            q,
        ) by {
            assert(q != p);
        }
    }
}

/// The lane that a contact is on.
pub open spec fn place_of(contact: Contact, lanes: nat) -> Option<usize> {
    if contact.is_touching() {
        Some(plan::lane_at(contact.x, lanes) as usize)
    } else {
        None
    }
}

/// That a pointer touches in every contact that names it.
pub open spec fn touches(contacts: Seq<Contact>, p: int) -> bool {
    forall|i: int|
        0 <= i < contacts.len() && (#[trigger] contacts[i]).pointer_id == p
            ==> contacts[i].is_touching()
}

proof fn first_sound(plan: PlanView, down: Seq<bool>, contacts: Seq<Contact>, acting: u8, from: nat)
    requires
        sound(plan, down),
    ensures
        sound(plan.first_of(contacts, acting, from), down),
        plan.first_of(contacts, acting, from).holds.len() == plan.holds.len(),
        forall|q: int| #[trigger]
            anchored(plan, down, q) && touches(contacts, q) ==> anchored(
                plan.first_of(contacts, acting, from),
                down,
                q,
            ),
        forall|q: int|
            0 <= q < POINTER_ID_COUNT && q != acting ==> #[trigger] plan.first_of(
                contacts,
                acting,
                from,
            ).pointers[q] == plan.pointers[q],
        forall|i: int|
            from <= i < contacts.len() && (#[trigger] contacts[i]).pointer_id == acting && (forall|
                j: int,
            |
                from <= j < i ==> (#[trigger] contacts[j]).pointer_id != acting)
                ==> plan.first_of(contacts, acting, from).pointers[acting as int] == place_of(
                contacts[i],
                plan.holds.len(),
            ),
        (forall|i: int| from <= i < contacts.len() ==> (#[trigger] contacts[i]).pointer_id != acting)
            ==> plan.first_of(contacts, acting, from) == plan,
    decreases contacts.len() - from,
{
    if from < contacts.len() {
        let contact = contacts[from as int];
        if contact.pointer_id == acting {
            touched_sound(plan, down, contact);
            assert forall|q: int| #[trigger] anchored(plan, down, q) && touches(contacts, q) implies anchored(
                plan.first_of(contacts, acting, from),
                down,
                q,
            ) by {
                assert(q == contact.pointer_id ==> contact.is_touching());
            }
        } else {
            first_sound(plan, down, contacts, acting, from + 1);
        }
    }
}

proof fn rest_sound(plan: PlanView, down: Seq<bool>, contacts: Seq<Contact>, acting: u8, count: nat)
    requires
        sound(plan, down),
        count <= contacts.len(),
    ensures
        sound(plan.rest_of(contacts, acting, count), down),
        plan.rest_of(contacts, acting, count).holds.len() == plan.holds.len(),
        forall|q: int| #[trigger]
            anchored(plan, down, q) && touches(contacts, q) ==> anchored(
                plan.rest_of(contacts, acting, count),
                down,
                q,
            ),
        plan.rest_of(contacts, acting, count).pointers[acting as int]
            == plan.pointers[acting as int],
        forall|i: int|
            0 <= i < count && (#[trigger] contacts[i]).pointer_id != acting && (forall|j: int|
                i < j < count ==> (#[trigger] contacts[j]).pointer_id != contacts[i].pointer_id)
                ==> plan.rest_of(
                contacts,
                acting,
                count,
            ).pointers[contacts[i].pointer_id as int] == place_of(
                contacts[i],
                plan.holds.len(),
            ),
    decreases count,
{
    if count > 0 {
        let shorter = (count - 1) as nat;
        rest_sound(plan, down, contacts, acting, shorter);
        let before = plan.rest_of(contacts, acting, shorter);
        let contact = contacts[count - 1];
        if contact.pointer_id != acting {
            touched_sound(before, down, contact);
            assert forall|q: int| #[trigger] anchored(plan, down, q) && touches(contacts, q) implies anchored(
                plan.rest_of(contacts, acting, count),
                down,
                q,
            ) by {
                assert(anchored(before, down, q));
                assert(q == contact.pointer_id ==> contact.is_touching());
            }
        }
    }
}

proof fn absent_sound(plan: PlanView, down: Seq<bool>, contacts: Seq<Contact>, count: nat)
    requires
        sound(plan, down),
        count <= POINTER_ID_COUNT,
    ensures
        sound(plan.absent_lifted(contacts, count), down),
        plan.absent_lifted(contacts, count).holds.len() == plan.holds.len(),
        forall|q: int| #[trigger]
            anchored(plan, down, q) && plan::names(contacts, q) ==> anchored(
                plan.absent_lifted(contacts, count),
                down,
                q,
            ),
        forall|q: int|
            0 <= q < POINTER_ID_COUNT ==> #[trigger] plan.absent_lifted(contacts, count).pointers[q]
                == if q < count && !plan::names(contacts, q) {
                None
            } else {
                plan.pointers[q]
            },
    decreases count,
{
    if count > 0 {
        let shorter = (count - 1) as nat;
        absent_sound(plan, down, contacts, shorter);
        let before = plan.absent_lifted(contacts, shorter);
        if !plan::names(contacts, count - 1) {
            lifted_sound(before, down, count - 1);
            assert forall|q: int| #[trigger]
                anchored(plan, down, q) && plan::names(contacts, q) implies anchored(
                plan.absent_lifted(contacts, count),
                down,
                q,
            ) by {
                assert(anchored(before, down, q));
                assert(q != count - 1);
            }
        }
    }
}

proof fn start_sound(pointers: Seq<Option<usize>>, holds: Seq<u16>)
    requires
        (PlanView { pointers, holds, changes: seq![] }).wf(),
        0 < holds.len() <= u32::MAX,
        counted(pointers, holds),
    ensures
        sound(PlanView { pointers, holds, changes: seq![] }, held(holds)),
{
    let plan = PlanView { pointers, holds, changes: seq![] };
    assert(followed(plan, held(holds), u16::MAX as int));
    bounds_hold(plan, held(holds), u16::MAX as int);
}

proof fn snapshot_sound(
    pointers: Seq<Option<usize>>,
    holds: Seq<u16>,
    contacts: Seq<Contact>,
    acting: u8,
)
    requires
        (PlanView { pointers, holds, changes: seq![] }).wf(),
        0 < holds.len() <= u32::MAX,
        counted(pointers, holds),
    ensures
        ({
            let start = PlanView { pointers, holds, changes: seq![] };
            let end = start.snapshot(contacts, acting);
            &&& sound(end, held(holds))
            &&& end.holds.len() == holds.len()
            &&& forall|q: int|
                0 <= q < POINTER_ID_COUNT && pointers[q] is Some && plan::names(contacts, q)
                    && #[trigger] touches(contacts, q) ==> gapless(held(holds), end.changes)
        }),
{
    let down = held(holds);
    let start = PlanView { pointers, holds, changes: seq![] };
    start_sound(pointers, holds);
    first_sound(start, down, contacts, acting, 0);
    let first = start.first_of(contacts, acting, 0);
    rest_sound(first, down, contacts, acting, contacts.len());
    let rest = first.rest_of(contacts, acting, contacts.len());
    absent_sound(rest, down, contacts, POINTER_ID_COUNT as nat);
    assert forall|q: int|
        0 <= q < POINTER_ID_COUNT && pointers[q] is Some && plan::names(contacts, q)
            && #[trigger] touches(contacts, q) implies gapless(
        down,
        start.snapshot(contacts, acting).changes,
    ) by {
        lane_is_held(start, q);
        assert forall|k: int| 0 <= k <= start.changes.len() implies some_down(
            replayed(down, #[trigger] start.changes.subrange(0, k)),
        ) by {
            assert(start.changes.subrange(0, k) =~= start.changes);
        }
        assert(anchored(start, down, q));
        assert(anchored(first, down, q));
        assert(anchored(rest, down, q));
        assert(anchored(rest.absent_lifted(contacts, POINTER_ID_COUNT as nat), down, q));
    }
}

/// On every lane the net changes do what all the changes do, but for the lanes that are
/// held before and after: their keys stay down.
proof fn net_follows(
    changes: Seq<KeyChange>,
    before: Seq<u16>,
    after: Seq<u16>,
    count: nat,
)
    requires
        before.len() == after.len(),
        count <= changes.len(),
        effective(held(before), changes),
    ensures
        ({
            let down = held(before);
            let all = replayed(down, changes.subrange(0, count as int));
            let net = plan::net_changes(changes, before, after, count);
            let kept = replayed(down, net);
            &&& all.len() == before.len()
            &&& kept.len() == before.len()
            &&& effective(down, net)
            &&& forall|lane: int|
                0 <= lane < before.len() ==> #[trigger] kept[lane] == if before[lane] > 0
                    && after[lane] > 0 {
                    true
                } else {
                    all[lane]
                }
        }),
    decreases count,
{
    let down = held(before);
    if count > 0 {
        let shorter = (count - 1) as nat;
        net_follows(changes, before, after, shorter);
        let last = changes[count - 1];
        let front = plan::net_changes(changes, before, after, shorter);
        assert(changes.subrange(0, count as int) =~= changes.subrange(0, count - 1).push(last));
        replayed_push(down, changes.subrange(0, count - 1), last);
        replayed_push(down, front, last);
        assert(last.lane < down.len());
        if before[last.lane as int] == 0 || after[last.lane as int] == 0 {
            assert(replayed(down, front)[last.lane as int] == replayed(
                down,
                changes.subrange(0, count - 1),
            )[last.lane as int]);
            effective_push(down, front, last);
        }
    } else {
        assert(changes.subrange(0, 0) =~= Seq::<KeyChange>::empty());
    }
}

proof fn net_prefix(
    changes: Seq<KeyChange>,
    before: Seq<u16>,
    after: Seq<u16>,
    count: nat,
    k: int,
) -> (at: nat)
    requires
        0 <= k <= plan::net_changes(changes, before, after, count).len(),
        count <= changes.len(),
    ensures
        at <= count,
        plan::net_changes(changes, before, after, count).subrange(0, k) == plan::net_changes(
            changes,
            before,
            after,
            at,
        ),
    decreases count,
{
    let net = plan::net_changes(changes, before, after, count);
    if k == net.len() {
        assert(net.subrange(0, k) =~= net);
        count
    } else {
        let shorter = (count - 1) as nat;
        let front = plan::net_changes(changes, before, after, shorter);
        assert(net.subrange(0, k) =~= front.subrange(0, k));
        net_prefix(changes, before, after, shorter, k)
    }
}

/// The planned changes take the keys from those that the fingers held to those that they
/// hold then, and the holds agree with the fingers again.
pub proof fn plan_leads_to_the_fingers(
    pointers: Seq<Option<usize>>,
    holds: Seq<u16>,
    contacts: Seq<Contact>,
    acting: u8,
)
    requires
        (PlanView { pointers, holds, changes: seq![] }).wf(),
        0 < holds.len() <= u32::MAX,
        counted(pointers, holds),
    ensures
        ({
            let plan = plan::planned(pointers, holds, contacts, acting);
            &&& plan.wf()
            &&& plan.holds.len() == holds.len()
            &&& counted(plan.pointers, plan.holds)
            &&& effective(held(holds), plan.changes)
            &&& replayed(held(holds), plan.changes) == held(plan.holds)
        }),
{
    let start = PlanView { pointers, holds, changes: seq![] };
    let end = start.snapshot(contacts, acting);
    snapshot_sound(pointers, holds, contacts, acting);
    let all = end.changes;
    net_follows(all, holds, end.holds, all.len());
    assert(all.subrange(0, all.len() as int) =~= all);
    let plan = plan::planned(pointers, holds, contacts, acting);
    assert(replayed(held(holds), plan.changes) =~= held(plan.holds)) by {
        assert forall|lane: int| 0 <= lane < holds.len() implies replayed(
            held(holds),
            plan.changes,
        )[lane] == held(plan.holds)[lane] by {
            assert(replayed(held(holds), all)[lane] == held(end.holds)[lane]);
        }
    }
    assert forall|i: int| 0 <= i < plan.changes.len() implies (#[trigger] plan.changes[i]).lane
        < plan.holds.len() by {
        assert(effective(held(holds), plan.changes));
    }
}

/// A lane that fingers hold before and after a frame keeps its key down throughout, even
/// where the fingers change places: no planned change is about it.
pub proof fn held_lanes_are_left_alone(
    pointers: Seq<Option<usize>>,
    holds: Seq<u16>,
    contacts: Seq<Contact>,
    acting: u8,
    i: int,
)
    requires
        0 <= i < plan::planned(pointers, holds, contacts, acting).changes.len(),
    ensures
        ({
            let plan = plan::planned(pointers, holds, contacts, acting);
            let lane = plan.changes[i].lane as int;
            holds[lane] == 0 || plan.holds[lane] == 0
        }),
{
    let start = PlanView { pointers, holds, changes: seq![] };
    let end = start.snapshot(contacts, acting);
    net_members(end.changes, holds, end.holds, end.changes.len(), i);
}

proof fn net_members(
    changes: Seq<KeyChange>,
    before: Seq<u16>,
    after: Seq<u16>,
    count: nat,
    i: int,
)
    requires
        0 <= i < plan::net_changes(changes, before, after, count).len(),
    ensures
        ({
            let change = plan::net_changes(changes, before, after, count)[i];
            before[change.lane as int] == 0 || after[change.lane as int] == 0
        }),
    decreases count,
{
    let shorter = (count - 1) as nat;
    let front = plan::net_changes(changes, before, after, shorter);
    if i < front.len() {
        net_members(changes, before, after, shorter, i);
    }
}

/// While a finger that held a lane goes on touching, there is no moment without a key:
/// after none, some or all of the planned changes, some key is down.
pub proof fn slide_has_no_gap(
    pointers: Seq<Option<usize>>,
    holds: Seq<u16>,
    contacts: Seq<Contact>,
    acting: u8,
    p: int,
)
    requires
        (PlanView { pointers, holds, changes: seq![] }).wf(),
        0 < holds.len() <= u32::MAX,
        counted(pointers, holds),
        0 <= p < POINTER_ID_COUNT,
        pointers[p] is Some,
        plan::names(contacts, p),
        touches(contacts, p),
    ensures
        gapless(held(holds), plan::planned(pointers, holds, contacts, acting).changes),
{
    let down = held(holds);
    let start = PlanView { pointers, holds, changes: seq![] };
    let end = start.snapshot(contacts, acting);
    snapshot_sound(pointers, holds, contacts, acting);
    let all = end.changes;
    let net = plan::net_changes(all, holds, end.holds, all.len());
    assert forall|k: int| 0 <= k <= net.len() implies some_down(
        replayed(down, #[trigger] net.subrange(0, k)),
    ) by {
        let at = net_prefix(all, holds, end.holds, all.len(), k);
        net_follows(all, holds, end.holds, at);
        let raw = replayed(down, all.subrange(0, at as int));
        assert(some_down(raw));
        let lane = choose|lane: int| 0 <= lane < raw.len() && raw[lane];
        assert(replayed(down, net.subrange(0, k))[lane]);
    }
}

/// Where a snapshot names each pointer once, every pointer ends up on the lane of its
/// contact, and a pointer that it omits on none.
pub proof fn snapshot_places_pointers(
    pointers: Seq<Option<usize>>,
    holds: Seq<u16>,
    contacts: Seq<Contact>,
    acting: u8,
)
    requires
        (PlanView { pointers, holds, changes: seq![] }).wf(),
        0 < holds.len() <= u32::MAX,
        counted(pointers, holds),
        forall|i: int, j: int|
            0 <= i < j < contacts.len() ==> (#[trigger] contacts[i]).pointer_id != (
            #[trigger] contacts[j]).pointer_id,
    ensures
        forall|i: int|
            0 <= i < contacts.len() ==> plan::planned(
                pointers,
                holds,
                contacts,
                acting,
            ).pointers[(#[trigger] contacts[i]).pointer_id as int] == place_of(
                contacts[i],
                holds.len(),
            ),
        forall|p: int|
            0 <= p < POINTER_ID_COUNT && !#[trigger] plan::names(contacts, p) ==> plan::planned(
                pointers,
                holds,
                contacts,
                acting,
            ).pointers[p] is None,
{
    let down = held(holds);
    let start = PlanView { pointers, holds, changes: seq![] };
    start_sound(pointers, holds);
    first_sound(start, down, contacts, acting, 0);
    let first = start.first_of(contacts, acting, 0);
    rest_sound(first, down, contacts, acting, contacts.len());
    let rest = first.rest_of(contacts, acting, contacts.len());
    absent_sound(rest, down, contacts, POINTER_ID_COUNT as nat);
    let end = rest.absent_lifted(contacts, POINTER_ID_COUNT as nat);
    assert forall|i: int| 0 <= i < contacts.len() implies end.pointers[(
    #[trigger] contacts[i]).pointer_id as int] == place_of(contacts[i], holds.len()) by {
        let p = contacts[i].pointer_id as int;
        assert(plan::names(contacts, p));
        assert(end.pointers[p] == rest.pointers[p]);
        if contacts[i].pointer_id == acting {
            assert(first.pointers[acting as int] == place_of(contacts[i], holds.len()));
        }
    }
    assert forall|p: int|
        0 <= p < POINTER_ID_COUNT && !#[trigger] plan::names(contacts, p) implies end.pointers[p] is None by {
        assert(end.pointers[p] is None);
    }
}

/// The changes of a slide that meets no other finger: the next lane goes down before the
/// last one goes up, lane by lane.
pub open spec fn slide_changes(from: int, to: int) -> Seq<KeyChange>
    decreases
        if from < to {
            to - from
        } else {
            from - to
        },
{
    if from == to {
        seq![]
    } else {
        let next = if from < to {
            from + 1
        } else {
            from - 1
        };
        seq![
            KeyChange { lane: next as usize, down: true },
            KeyChange { lane: from as usize, down: false },
        ] + slide_changes(next, to)
    }
}

/// One finger holds a lane, and no other finger holds any.
pub open spec fn only_holds(holds: Seq<u16>, lane: int) -> bool {
    0 <= lane < holds.len() && holds[lane] == 1 && forall|other: int|
        0 <= other < holds.len() && other != lane ==> #[trigger] holds[other] == 0
}

proof fn lone_slide(plan: PlanView, from: int, to: int)
    requires
        only_holds(plan.holds, from),
        0 <= to < plan.holds.len() <= u32::MAX,
    ensures
        plan.slid(from, to).changes == plan.changes + slide_changes(from, to),
        plan.slid(from, to).pointers == plan.pointers,
        plan.slid(from, to).holds.len() == plan.holds.len(),
        only_holds(plan.slid(from, to).holds, to),
    decreases
            if from < to {
                to - from
            } else {
                from - to
            },
{
    if from != to {
        let next = if from < to {
            from + 1
        } else {
            from - 1
        };
        let step = plan.acquired(next).released(from);
        assert(only_holds(step.holds, next));
        assert(step.changes =~= plan.changes + seq![
            KeyChange { lane: next as usize, down: true },
            KeyChange { lane: from as usize, down: false },
        ]);
        lone_slide(step, next, to);
        assert(plan.changes + (seq![
            KeyChange { lane: next as usize, down: true },
            KeyChange { lane: from as usize, down: false },
        ] + slide_changes(next, to)) =~= step.changes + slide_changes(next, to));
    } else {
        assert(plan.changes + Seq::<KeyChange>::empty() =~= plan.changes);
    }
}

proof fn lifting_nobody(plan: PlanView, contacts: Seq<Contact>, count: nat)
    requires
        count <= plan.pointers.len(),
        forall|p: int|
            0 <= p < plan.pointers.len() && !#[trigger] plan::names(contacts, p)
                ==> plan.pointers[p] is None,
    ensures
        plan.absent_lifted(contacts, count) == plan,
    decreases count,
{
    if count > 0 {
        lifting_nobody(plan, contacts, (count - 1) as nat);
        assert(plan::names(contacts, count - 1) || plan.pointers[count - 1] is None);
    }
}

proof fn all_changes_count(
    changes: Seq<KeyChange>,
    before: Seq<u16>,
    after: Seq<u16>,
    count: nat,
)
    requires
        count <= changes.len(),
        forall|i: int|
            0 <= i < count ==> before[(#[trigger] changes[i]).lane as int] == 0
                || after[changes[i].lane as int] == 0,
    ensures
        plan::net_changes(changes, before, after, count) == changes.take(count as int),
    decreases count,
{
    if count > 0 {
        all_changes_count(changes, before, after, (count - 1) as nat);
        assert(changes.take(count as int) =~= changes.take(count - 1).push(changes[count - 1]));
    } else {
        assert(changes.take(0) =~= seq![]);
    }
}

proof fn slides_stay_on_the_lanes(from: int, to: int, lanes: int)
    requires
        0 <= from < lanes <= u32::MAX,
        0 <= to < lanes,
    ensures
        forall|i: int|
            0 <= i < slide_changes(from, to).len() ==> (#[trigger] slide_changes(from, to)[i]).lane
                < lanes,
    decreases
            if from < to {
                to - from
            } else {
                from - to
            },
{
    if from != to {
        let next = if from < to {
            from + 1
        } else {
            from - 1
        };
        slides_stay_on_the_lanes(next, to, lanes);
        let rest = slide_changes(next, to);
        let all = slide_changes(from, to);
        assert forall|i: int| 0 <= i < all.len() implies (#[trigger] all[i]).lane < lanes by {
            if i >= 2 {
                assert(all[i] == rest[i - 2]);
            }
        }
    }
}

/// A slide passes through every lane that it crosses, in order, and takes each before it
/// leaves the last: so it does where no other finger holds a lane.
pub proof fn slide_presses_every_lane_between(
    pointers: Seq<Option<usize>>,
    holds: Seq<u16>,
    contact: Contact,
    acting: u8,
    from: usize,
)
    requires
        pointers.len() == POINTER_ID_COUNT,
        pointers[contact.pointer_id as int] == Some(from),
        forall|p: int|
            0 <= p < POINTER_ID_COUNT && p != contact.pointer_id ==> #[trigger] pointers[p] is None,
        only_holds(holds, from as int),
        holds.len() <= u32::MAX,
        contact.is_touching(),
    ensures
        plan::planned(pointers, holds, seq![contact], acting).changes == slide_changes(
            from as int,
            plan::lane_at(contact.x, holds.len()) as int,
        ),
{
    let contacts = seq![contact];
    let to = plan::lane_at(contact.x, holds.len()) as int;
    let start = PlanView { pointers, holds, changes: seq![] };
    plan::lane_is_there(contact.x, holds.len());
    lone_slide(start, from as int, to);
    let end = start.moved(contact.pointer_id as int, to);
    reveal_with_fuel(PlanView::first_of, 2);
    reveal_with_fuel(PlanView::rest_of, 2);
    assert(start.first_of(contacts, acting, 0).rest_of(contacts, acting, 1) == end);
    assert forall|p: int|
        0 <= p < end.pointers.len() && !#[trigger] plan::names(
            contacts,
            p,
        ) implies end.pointers[p] is None by {
        if p == contact.pointer_id {
            assert(contacts[0].pointer_id == p);
        }
    }
    lifting_nobody(end, contacts, POINTER_ID_COUNT as nat);
    assert(start.snapshot(contacts, acting) == end);
    let all = end.changes;
    assert(all =~= slide_changes(from as int, to));
    slides_stay_on_the_lanes(from as int, to, holds.len() as int);
    assert forall|i: int| 0 <= i < all.len() implies holds[(#[trigger] all[i]).lane as int] == 0
        || end.holds[all[i].lane as int] == 0 by {
        assert(slide_changes(from as int, to)[i].lane < holds.len());
    }
    all_changes_count(all, holds, end.holds, all.len());
    assert(all.take(all.len() as int) =~= all);
}

/// A finger that touches past an edge of the surface holds the lane at that edge, until it
/// lifts.
pub proof fn touch_past_an_edge_holds_the_edge_lane(contact: Contact, lanes: nat)
    requires
        0 < lanes <= u32::MAX,
        contact.x < 0 || contact.x >= SURFACE,
    ensures
        place_of(contact, lanes) == if !contact.is_touching() {
            None::<usize>
        } else if contact.x < 0 {
            Some(0usize)
        } else {
            Some((lanes - 1) as usize)
        },
{
}

/// The lanes from one to another, both included, in either direction.
pub open spec fn on_the_way(from: int, to: int, lane: int) -> bool {
    from <= lane <= to || to <= lane <= from
}

pub open spec fn distance(a: int, b: int) -> int {
    if a < b {
        b - a
    } else {
        a - b
    }
}

/// When a slide from a lane makes a change: the lane at some distance goes down after the
/// one before it has, and before that one goes up.
pub open spec fn turn(from: int, change: KeyChange) -> int {
    let k = distance(from, change.lane as int);
    if change.down {
        2 * k - 1
    } else {
        2 * k + 2
    }
}

/// The changes are on the way and come in the order of a slide.
pub open spec fn in_slide_order(part: Seq<KeyChange>, from: int, to: int) -> bool {
    &&& forall|i: int|
        0 <= i < part.len() ==> on_the_way(from, to, (#[trigger] part[i]).lane as int)
    &&& forall|i: int, j: int|
        0 <= i < j < part.len() ==> turn(from, #[trigger] part[i]) < turn(from, #[trigger] part[j])
}

pub open spec fn press(lane: int) -> KeyChange {
    KeyChange { lane: lane as usize, down: true }
}

pub open spec fn release(lane: int) -> KeyChange {
    KeyChange { lane: lane as usize, down: false }
}

/// What a slide adds, whatever other fingers hold: on its way it presses exactly the lanes
/// that nobody held and releases exactly those that it held alone, lane by lane.
pub open spec fn slides(holds: Seq<u16>, added: Seq<KeyChange>, from: int, to: int) -> bool {
    &&& in_slide_order(added, from, to)
    &&& forall|lane: int|
        0 <= lane < holds.len() ==> (#[trigger] added.contains(press(lane)) <==> on_the_way(
            from,
            to,
            lane,
        ) && lane != from && holds[lane] == 0)
    &&& forall|lane: int|
        0 <= lane < holds.len() ==> (#[trigger] added.contains(release(lane)) <==> on_the_way(
            from,
            to,
            lane,
        ) && lane != to && holds[lane] == (if lane == from {
            1int
        } else {
            0int
        }))
}

/// The changes at the first lane of a slide.
spec fn first_lane(holds: Seq<u16>, from: int, next: int) -> Seq<KeyChange> {
    (if holds[next] == 0 {
        seq![press(next)]
    } else {
        seq![]
    }) + (if holds[from] == 1 {
        seq![release(from)]
    } else {
        seq![]
    })
}

/// That a slide begins: `next` is the lane behind `from` on the way to another one.
spec fn begins(holds: Seq<u16>, from: int, next: int, to: int) -> bool {
    &&& 0 <= from < holds.len() <= u32::MAX
    &&& 0 <= to < holds.len()
    &&& from < to && next == from + 1 || from > to && next == from - 1
    &&& holds[from] > 0
    &&& holds[next] < u16::MAX
}

spec fn shifted(holds: Seq<u16>, from: int, next: int) -> Seq<u16> {
    holds.update(next, (holds[next] + 1) as u16).update(from, (holds[from] - 1) as u16)
}

proof fn first_lane_members(holds: Seq<u16>, from: int, next: int, to: int, lane: int)
    requires
        begins(holds, from, next, to),
        0 <= lane < holds.len(),
    ensures
        first_lane(holds, from, next).contains(press(lane)) <==> lane == next && holds[next] == 0,
        first_lane(holds, from, next).contains(release(lane)) <==> lane == from && holds[from] == 1,
{
    let head = first_lane(holds, from, next);
    assert(holds[next] == 0 ==> head[0] == press(next));
    assert(holds[from] == 1 ==> head[head.len() - 1] == release(from));
    assert(head.len() <= 2);
}

proof fn joined_members(head: Seq<KeyChange>, tail: Seq<KeyChange>, change: KeyChange)
    ensures
        (head + tail).contains(change) <==> head.contains(change) || tail.contains(change),
{
    let all = head + tail;
    if all.contains(change) {
        let i = choose|i: int| 0 <= i < all.len() && all[i] == change;
        if i < head.len() {
            assert(head[i] == change);
        } else {
            assert(tail[i - head.len()] == change);
        }
    }
    if head.contains(change) {
        let i = choose|i: int| 0 <= i < head.len() && head[i] == change;
        assert(all[i] == change);
    }
    if tail.contains(change) {
        let i = choose|i: int| 0 <= i < tail.len() && tail[i] == change;
        assert(all[head.len() + i] == change);
    }
}

proof fn joined_order(holds: Seq<u16>, tail: Seq<KeyChange>, from: int, next: int, to: int)
    requires
        begins(holds, from, next, to),
        slides(shifted(holds, from, next), tail, next, to),
    ensures
        in_slide_order(first_lane(holds, from, next) + tail, from, to),
{
    let head = first_lane(holds, from, next);
    let all = head + tail;
    assert forall|i: int| 0 <= i < tail.len() implies turn(from, #[trigger] tail[i]) >= 3 && turn(
        from,
        tail[i],
    ) == turn(next, tail[i]) + 2 && on_the_way(from, to, tail[i].lane as int) by {
        assert(on_the_way(next, to, tail[i].lane as int));
        if tail[i].down && tail[i].lane == next {
            assert(tail[i] == press(next));
            assert(tail.contains(press(next)));
        }
    }
    assert forall|i: int| 0 <= i < head.len() implies turn(from, #[trigger] head[i]) == 1 || turn(
        from,
        head[i],
    ) == 2 by {}
    assert forall|i: int, j: int| 0 <= i < j < all.len() implies turn(from, #[trigger] all[i])
        < turn(from, #[trigger] all[j]) by {
        if j < head.len() {
            assert(all[i] == press(next) && all[j] == release(from));
        } else if i < head.len() {
            assert(all[i] == head[i]);
            assert(all[j] == tail[j - head.len()]);
        } else {
            assert(all[i] == tail[i - head.len()] && all[j] == tail[j - head.len()]);
        }
    }
    assert forall|i: int| 0 <= i < all.len() implies on_the_way(
        from,
        to,
        (#[trigger] all[i]).lane as int,
    ) by {
        if i >= head.len() {
            assert(all[i] == tail[i - head.len()]);
        } else {
            assert(all[i] == head[i]);
        }
    }
}

proof fn joined_slide(holds: Seq<u16>, tail: Seq<KeyChange>, from: int, next: int, to: int)
    requires
        begins(holds, from, next, to),
        slides(shifted(holds, from, next), tail, next, to),
    ensures
        slides(holds, first_lane(holds, from, next) + tail, from, to),
{
    let head = first_lane(holds, from, next);
    let all = head + tail;
    let after = shifted(holds, from, next);
    joined_order(holds, tail, from, next, to);
    assert forall|lane: int| 0 <= lane < holds.len() implies (#[trigger] all.contains(press(lane))
        <==> on_the_way(from, to, lane) && lane != from && holds[lane] == 0) by {
        joined_members(head, tail, press(lane));
        first_lane_members(holds, from, next, to, lane);
        assert(tail.contains(press(lane)) <==> on_the_way(next, to, lane) && lane != next
            && after[lane] == 0);
    }
    assert forall|lane: int| 0 <= lane < holds.len() implies (#[trigger] all.contains(release(lane))
        <==> on_the_way(from, to, lane) && lane != to && holds[lane] == (if lane == from {
        1int
    } else {
        0int
    })) by {
        joined_members(head, tail, release(lane));
        first_lane_members(holds, from, next, to, lane);
        assert(tail.contains(release(lane)) <==> on_the_way(next, to, lane) && lane != to
            && after[lane] == (if lane == next {
            1int
        } else {
            0int
        }));
    }
}

proof fn slide_adds(plan: PlanView, from: int, to: int)
    requires
        0 <= from < plan.holds.len(),
        0 <= to < plan.holds.len() <= u32::MAX,
        plan.holds[from] > 0,
        forall|lane: int|
            0 <= lane < plan.holds.len() && lane != from ==> #[trigger] plan.holds[lane] < u16::MAX,
    ensures
        adds(plan.changes, plan.slid(from, to).changes),
        slides(
            plan.holds,
            plan.slid(from, to).changes.skip(plan.changes.len() as int),
            from,
            to,
        ),
    decreases distance(from, to),
{
    let n = plan.changes.len() as int;
    let after = plan.slid(from, to).changes;
    if from == to {
        assert(after.take(n) =~= plan.changes);
        assert(after.skip(n) =~= seq![]);
    } else {
        let next = if from < to {
            from + 1
        } else {
            from - 1
        };
        let step = plan.acquired(next).released(from);
        let head = first_lane(plan.holds, from, next);
        assert(step.holds =~= shifted(plan.holds, from, next));
        assert(step.changes =~= plan.changes + head);
        slide_adds(step, next, to);
        let m = step.changes.len() as int;
        let tail = after.skip(m);
        joined_slide(plan.holds, tail, from, next, to);
        assert(after.take(n) =~= after.take(m).take(n));
        assert(after.take(n) =~= plan.changes);
        assert(after =~= after.take(m) + tail);
        assert(after.skip(n) =~= head + tail);
    }
}

/// That some changes were added behind others.
pub open spec fn adds(before: Seq<KeyChange>, after: Seq<KeyChange>) -> bool {
    before.len() <= after.len() && after.take(before.len() as int) == before
}

/// A finger that moves from one lane to another while other fingers hold any lanes presses,
/// in order, every lane on its way that nobody holds, each before it releases the one behind.
pub proof fn slide_crosses_every_lane(plan: PlanView, pointer: int, from: usize, to: int)
    requires
        plan.wf(),
        plan.holds.len() <= u32::MAX,
        counted(plan.pointers, plan.holds),
        0 <= pointer < POINTER_ID_COUNT,
        plan.pointers[pointer] == Some(from),
        0 <= to < plan.holds.len(),
    ensures
        adds(plan.changes, plan.moved(pointer, to).changes),
        slides(
            plan.holds,
            plan.moved(pointer, to).changes.skip(plan.changes.len() as int),
            from as int,
            to,
        ),
{
    lane_is_held(plan, pointer);
    assert forall|lane: int| 0 <= lane < plan.holds.len() implies #[trigger] plan.holds[lane]
        < u16::MAX by {
        fingers_bounded(plan.pointers, lane);
    }
    slide_adds(plan, from as int, to);
}

proof fn adds_in_two(a: Seq<KeyChange>, b: Seq<KeyChange>, c: Seq<KeyChange>)
    requires
        adds(a, b),
        adds(b, c),
    ensures
        adds(a, c),
{
    assert(c.take(a.len() as int) =~= c.take(b.len() as int).take(a.len() as int));
}

proof fn lifted_adds(plan: PlanView, p: int)
    ensures
        adds(plan.changes, plan.lifted(p).changes),
{
    assert(plan.lifted(p).changes.take(plan.changes.len() as int) =~= plan.changes);
}

proof fn touched_adds(plan: PlanView, down: Seq<bool>, contact: Contact)
    requires
        sound(plan, down),
    ensures
        adds(plan.changes, plan.touched(contact).changes),
{
    let p = contact.pointer_id as int;
    plan::lane_is_there(contact.x, plan.holds.len());
    let to = plan::lane_at(contact.x, plan.holds.len()) as int;
    if !contact.is_touching() {
        lifted_adds(plan, p);
    } else {
        match plan.pointers[p] {
            None => {
                assert(plan.moved(p, to).changes.take(plan.changes.len() as int) =~= plan.changes);
            },
            Some(from) => {
                slide_crosses_every_lane(plan, p, from, to);
            },
        }
    }
}

proof fn rest_adds(
    plan: PlanView,
    down: Seq<bool>,
    contacts: Seq<Contact>,
    acting: u8,
    from: nat,
    count: nat,
)
    requires
        sound(plan, down),
        from <= count <= contacts.len(),
    ensures
        adds(
            plan.rest_of(contacts, acting, from).changes,
            plan.rest_of(contacts, acting, count).changes,
        ),
    decreases count,
{
    let early = plan.rest_of(contacts, acting, from).changes;
    if from < count {
        let shorter = (count - 1) as nat;
        rest_adds(plan, down, contacts, acting, from, shorter);
        rest_sound(plan, down, contacts, acting, shorter);
        let before = plan.rest_of(contacts, acting, shorter);
        if contacts[count - 1].pointer_id != acting {
            touched_adds(before, down, contacts[count - 1]);
            adds_in_two(early, before.changes, before.touched(contacts[count - 1]).changes);
        }
    } else {
        assert(early.take(early.len() as int) =~= early);
    }
}

proof fn absent_adds(plan: PlanView, contacts: Seq<Contact>, count: nat)
    ensures
        adds(plan.changes, plan.absent_lifted(contacts, count).changes),
    decreases count,
{
    if count > 0 {
        let shorter = (count - 1) as nat;
        absent_adds(plan, contacts, shorter);
        let before = plan.absent_lifted(contacts, shorter);
        if !plan::names(contacts, count - 1) {
            lifted_adds(before, count - 1);
            adds_in_two(plan.changes, before.changes, before.lifted(count - 1).changes);
        }
    } else {
        assert(plan.changes.take(plan.changes.len() as int) =~= plan.changes);
    }
}

/// No two contacts name the same pointer.
pub open spec fn distinct(contacts: Seq<Contact>) -> bool {
    forall|i: int, j: int|
        0 <= i < j < contacts.len() ==> (#[trigger] contacts[i]).pointer_id != (
        #[trigger] contacts[j]).pointer_id
}

/// That a pointer is where it was, or where a contact puts it.
spec fn there_or_placed(
    before: Seq<Option<usize>>,
    now: Seq<Option<usize>>,
    contacts: Seq<Contact>,
    lanes: nat,
    q: int,
) -> bool {
    now[q] == before[q] || exists|j: int|
        0 <= j < contacts.len() && (#[trigger] contacts[j]).pointer_id == q && now[q] == place_of(
            contacts[j],
            lanes,
        )
}

proof fn rest_places(
    plan: PlanView,
    down: Seq<bool>,
    contacts: Seq<Contact>,
    acting: u8,
    count: nat,
    q: int,
)
    requires
        sound(plan, down),
        count <= contacts.len(),
        0 <= q < POINTER_ID_COUNT,
    ensures
        there_or_placed(
            plan.pointers,
            plan.rest_of(contacts, acting, count).pointers,
            contacts,
            plan.holds.len(),
            q,
        ),
        (forall|j: int| 0 <= j < count ==> (#[trigger] contacts[j]).pointer_id != q)
            ==> plan.rest_of(contacts, acting, count).pointers[q] == plan.pointers[q],
    decreases count,
{
    if count > 0 {
        let shorter = (count - 1) as nat;
        rest_places(plan, down, contacts, acting, shorter, q);
        rest_sound(plan, down, contacts, acting, shorter);
        let before = plan.rest_of(contacts, acting, shorter);
        if contacts[count - 1].pointer_id != acting {
            touched_sound(before, down, contacts[count - 1]);
        }
    }
}

proof fn first_is_touched(
    plan: PlanView,
    contacts: Seq<Contact>,
    acting: u8,
    from: nat,
    i: int,
)
    requires
        from <= i < contacts.len(),
        contacts[i].pointer_id == acting,
        forall|j: int| from <= j < i ==> (#[trigger] contacts[j]).pointer_id != acting,
    ensures
        plan.first_of(contacts, acting, from) == plan.touched(contacts[i]),
    decreases contacts.len() - from,
{
    if from < i {
        assert(contacts[from as int].pointer_id != acting);
        first_is_touched(plan, contacts, acting, from + 1, i);
    }
}

/// The plan at the moment when a contact has its turn.
proof fn moment_of(
    pointers: Seq<Option<usize>>,
    holds: Seq<u16>,
    contacts: Seq<Contact>,
    acting: u8,
    i: int,
) -> (plan: PlanView)
    requires
        (PlanView { pointers, holds, changes: seq![] }).wf(),
        0 < holds.len() <= u32::MAX,
        counted(pointers, holds),
        distinct(contacts),
        0 <= i < contacts.len(),
    ensures
        sound(plan, held(holds)),
        plan.holds.len() == holds.len(),
        plan.pointers[contacts[i].pointer_id as int] == pointers[contacts[i].pointer_id as int],
        forall|q: int|
            0 <= q < POINTER_ID_COUNT ==> #[trigger] there_or_placed(
                pointers,
                plan.pointers,
                contacts,
                holds.len(),
                q,
            ),
        adds(
            plan.touched(contacts[i]).changes,
            (PlanView { pointers, holds, changes: seq![] }).snapshot(contacts, acting).changes,
        ),
{
    let down = held(holds);
    let start = PlanView { pointers, holds, changes: seq![] };
    start_sound(pointers, holds);
    first_sound(start, down, contacts, acting, 0);
    let first = start.first_of(contacts, acting, 0);
    let rest = first.rest_of(contacts, acting, contacts.len());
    let end = rest.absent_lifted(contacts, POINTER_ID_COUNT as nat);
    absent_adds(rest, contacts, POINTER_ID_COUNT as nat);
    if contacts[i].pointer_id == acting {
        assert forall|j: int| 0 <= j < i implies (#[trigger] contacts[j]).pointer_id != acting by {
            assert(contacts[j].pointer_id != contacts[i].pointer_id);
        }
        first_is_touched(start, contacts, acting, 0, i);
        rest_adds(first, down, contacts, acting, 0, contacts.len());
        adds_in_two(first.changes, rest.changes, end.changes);
        assert forall|q: int| 0 <= q < POINTER_ID_COUNT implies #[trigger] there_or_placed(
            pointers,
            start.pointers,
            contacts,
            holds.len(),
            q,
        ) by {}
        start
    } else {
        let plan = first.rest_of(contacts, acting, i as nat);
        rest_sound(first, down, contacts, acting, i as nat);
        let next = (i + 1) as nat;
        assert(first.rest_of(contacts, acting, next) == plan.touched(contacts[i]));
        rest_adds(first, down, contacts, acting, next, contacts.len());
        adds_in_two(plan.touched(contacts[i]).changes, rest.changes, end.changes);
        assert forall|q: int| 0 <= q < POINTER_ID_COUNT implies #[trigger] there_or_placed(
            pointers,
            plan.pointers,
            contacts,
            holds.len(),
            q,
        ) by {
            rest_places(first, down, contacts, acting, i as nat, q);
            first_places(start, down, contacts, acting, q);
            if q == acting {
                rest_sound(first, down, contacts, acting, i as nat);
            }
        }
        let p = contacts[i].pointer_id as int;
        rest_places(first, down, contacts, acting, i as nat, p);
        assert forall|j: int| 0 <= j < i implies (#[trigger] contacts[j]).pointer_id != p by {
            assert(contacts[j].pointer_id != contacts[i].pointer_id);
        }
        plan
    }
}

proof fn first_places(
    plan: PlanView,
    down: Seq<bool>,
    contacts: Seq<Contact>,
    acting: u8,
    q: int,
)
    requires
        sound(plan, down),
        0 <= q < POINTER_ID_COUNT,
    ensures
        there_or_placed(
            plan.pointers,
            plan.first_of(contacts, acting, 0).pointers,
            contacts,
            plan.holds.len(),
            q,
        ),
{
    first_places_from(plan, down, contacts, acting, 0, q);
}

proof fn first_places_from(
    plan: PlanView,
    down: Seq<bool>,
    contacts: Seq<Contact>,
    acting: u8,
    from: nat,
    q: int,
)
    requires
        sound(plan, down),
        0 <= q < POINTER_ID_COUNT,
    ensures
        there_or_placed(
            plan.pointers,
            plan.first_of(contacts, acting, from).pointers,
            contacts,
            plan.holds.len(),
            q,
        ),
    decreases contacts.len() - from,
{
    if from < contacts.len() {
        if contacts[from as int].pointer_id == acting {
            touched_sound(plan, down, contacts[from as int]);
        } else {
            first_places_from(plan, down, contacts, acting, from + 1, q);
        }
    }
}

/// What the net changes hold of the changes from one place to another.
proof fn net_part(
    changes: Seq<KeyChange>,
    before: Seq<u16>,
    after: Seq<u16>,
    start: int,
    end: int,
    from: int,
    to: int,
)
    requires
        0 <= start <= end <= changes.len(),
        in_slide_order(changes.subrange(start, end), from, to),
    ensures
        ({
            let early = plan::net_changes(changes, before, after, start as nat);
            let late = plan::net_changes(changes, before, after, end as nat);
            let part = late.skip(early.len() as int);
            &&& adds(early, late)
            &&& in_slide_order(part, from, to)
            &&& forall|change: KeyChange| #[trigger]
                part.contains(change) <==> changes.subrange(start, end).contains(change) && (
                before[change.lane as int] == 0 || after[change.lane as int] == 0)
        }),
    decreases end - start,
{
    let early = plan::net_changes(changes, before, after, start as nat);
    let late = plan::net_changes(changes, before, after, end as nat);
    let part = late.skip(early.len() as int);
    let raw = changes.subrange(start, end);
    if start < end {
        let shorter = changes.subrange(start, end - 1);
        let last = changes[end - 1];
        assert(raw =~= shorter.push(last));
        assert(in_slide_order(shorter, from, to)) by {
            assert forall|i: int| 0 <= i < shorter.len() implies on_the_way(
                from,
                to,
                (#[trigger] shorter[i]).lane as int,
            ) by {
                assert(shorter[i] == raw[i]);
            }
            assert forall|i: int, j: int| 0 <= i < j < shorter.len() implies turn(
                from,
                #[trigger] shorter[i],
            ) < turn(from, #[trigger] shorter[j]) by {
                assert(shorter[i] == raw[i] && shorter[j] == raw[j]);
            }
        }
        net_part(changes, before, after, start, end - 1, from, to);
        let front = plan::net_changes(changes, before, after, (end - 1) as nat);
        let done = front.skip(early.len() as int);
        assert(raw.last() == last);
        assert forall|change: KeyChange| #[trigger]
            raw.contains(change) <==> shorter.contains(change) || change == last by {
            joined_members(shorter, seq![last], change);
            assert(seq![last][0] == last);
            assert(raw =~= shorter + seq![last]);
        }
        if before[last.lane as int] == 0 || after[last.lane as int] == 0 {
            assert(late == front.push(last));
            assert(part =~= done.push(last));
            assert(late.take(early.len() as int) =~= front.take(early.len() as int));
            assert forall|change: KeyChange| #[trigger]
                part.contains(change) <==> done.contains(change) || change == last by {
                joined_members(done, seq![last], change);
                assert(seq![last][0] == last);
                assert(part =~= done + seq![last]);
            }
            assert forall|i: int| 0 <= i < part.len() implies on_the_way(
                from,
                to,
                (#[trigger] part[i]).lane as int,
            ) by {
                if i < done.len() {
                    assert(part[i] == done[i]);
                } else {
                    assert(part[i] == raw[raw.len() - 1]);
                }
            }
            assert forall|i: int, j: int| 0 <= i < j < part.len() implies turn(
                from,
                #[trigger] part[i],
            ) < turn(from, #[trigger] part[j]) by {
                assert(part[i] == done[i]);
                if j < done.len() {
                    assert(part[j] == done[j]);
                } else {
                    assert(done.contains(done[i]));
                    let k = choose|k: int| 0 <= k < shorter.len() && shorter[k] == done[i];
                    assert(raw[k] == done[i] && raw[raw.len() - 1] == part[j]);
                }
            }
        } else {
            assert(late == front);
        }
    } else {
        assert(part =~= seq![]);
        assert(raw =~= seq![]);
        assert(late.take(early.len() as int) =~= early);
    }
}

/// No finger but `p` is on the lane, before or after.
pub open spec fn alone_on(
    before: Seq<Option<usize>>,
    after: Seq<Option<usize>>,
    p: int,
    lane: int,
) -> bool {
    forall|q: int|
        0 <= q < before.len() && q != p ==> !is_on(#[trigger] before[q], lane) && !is_on(
            after[q],
            lane,
        )
}

/// The changes are those of a slide of the finger `p`: in order, with a press of every lane
/// that it reaches and a release of every lane that it leaves, where no other finger is.
pub open spec fn crosses(
    part: Seq<KeyChange>,
    from: int,
    to: int,
    before: Seq<Option<usize>>,
    after: Seq<Option<usize>>,
    p: int,
) -> bool {
    &&& in_slide_order(part, from, to)
    &&& forall|lane: int|
        on_the_way(from, to, lane) && lane != from && #[trigger] alone_on(before, after, p, lane)
            ==> part.contains(press(lane))
    &&& forall|lane: int|
        on_the_way(from, to, lane) && lane != to && #[trigger] alone_on(before, after, p, lane)
            ==> part.contains(release(lane))
}

proof fn nobody_else(
    pointers: Seq<Option<usize>>,
    p: int,
    lane: int,
)
    requires
        0 <= p < pointers.len(),
        forall|q: int| 0 <= q < pointers.len() && q != p ==> !is_on(#[trigger] pointers[q], lane),
    ensures
        fingers_on(pointers, lane) == if is_on(pointers[p], lane) {
            1nat
        } else {
            0nat
        },
    decreases pointers.len(),
{
    let front = pointers.drop_last();
    if p < front.len() {
        assert(!is_on(pointers[pointers.len() - 1], lane));
        assert forall|q: int| 0 <= q < front.len() && q != p implies !is_on(
            #[trigger] front[q],
            lane,
        ) by {
            assert(front[q] == pointers[q]);
        }
        nobody_else(front, p, lane);
    } else {
        assert forall|q: int| 0 <= q < front.len() implies !is_on(#[trigger] front[q], lane) by {
            assert(front[q] == pointers[q]);
        }
        nobody_at_all(front, lane);
    }
}

proof fn nobody_at_all(pointers: Seq<Option<usize>>, lane: int)
    requires
        forall|q: int| 0 <= q < pointers.len() ==> !is_on(#[trigger] pointers[q], lane),
    ensures
        fingers_on(pointers, lane) == 0,
    decreases pointers.len(),
{
    if pointers.len() > 0 {
        let front = pointers.drop_last();
        assert forall|q: int| 0 <= q < front.len() implies !is_on(#[trigger] front[q], lane) by {
            assert(front[q] == pointers[q]);
        }
        assert(!is_on(pointers[pointers.len() - 1], lane));
        nobody_at_all(front, lane);
    }
}

proof fn net_adds(
    changes: Seq<KeyChange>,
    before: Seq<u16>,
    after: Seq<u16>,
    at: nat,
    count: nat,
)
    requires
        at <= count <= changes.len(),
    ensures
        adds(
            plan::net_changes(changes, before, after, at),
            plan::net_changes(changes, before, after, count),
        ),
    decreases count,
{
    let early = plan::net_changes(changes, before, after, at);
    let late = plan::net_changes(changes, before, after, count);
    if at < count {
        let shorter = (count - 1) as nat;
        net_adds(changes, before, after, at, shorter);
        let front = plan::net_changes(changes, before, after, shorter);
        assert(late.take(early.len() as int) =~= front.take(early.len() as int));
    } else {
        assert(late.take(early.len() as int) =~= early);
    }
}

/// A lane that only the finger `p` can be on, at the moment of its slide.
proof fn holds_at_the_moment(
    pointers: Seq<Option<usize>>,
    after: Seq<Option<usize>>,
    contacts: Seq<Contact>,
    plan: PlanView,
    p: int,
    lane: int,
)
    requires
        plan.wf(),
        pointers.len() == POINTER_ID_COUNT,
        after.len() == POINTER_ID_COUNT,
        counted(plan.pointers, plan.holds),
        0 <= p < POINTER_ID_COUNT,
        0 <= lane < plan.holds.len(),
        plan.pointers[p] == pointers[p],
        forall|q: int|
            0 <= q < POINTER_ID_COUNT ==> #[trigger] there_or_placed(
                pointers,
                plan.pointers,
                contacts,
                plan.holds.len(),
                q,
            ),
        forall|i: int|
            0 <= i < contacts.len() ==> after[(#[trigger] contacts[i]).pointer_id as int]
                == place_of(contacts[i], plan.holds.len()),
        alone_on(pointers, after, p, lane),
    ensures
        plan.holds[lane] == if is_on(pointers[p], lane) {
            1int
        } else {
            0int
        },
{
    assert forall|q: int| 0 <= q < POINTER_ID_COUNT && q != p implies !is_on(
        #[trigger] plan.pointers[q],
        lane,
    ) by {
        assert(there_or_placed(pointers, plan.pointers, contacts, plan.holds.len(), q));
        assert(!is_on(pointers[q], lane));
    }
    nobody_else(plan.pointers, p, lane);
    assert(plan.holds[lane] == fingers_on(plan.pointers, lane));
}

/// Whatever lanes other fingers hold, the planned changes hold the whole slide of a finger
/// that goes from one lane to another: one after the other, every lane on its way that no
/// other finger is on before or after is pressed, and released once the next one is down.
pub proof fn every_slide_is_planned(
    pointers: Seq<Option<usize>>,
    holds: Seq<u16>,
    contacts: Seq<Contact>,
    acting: u8,
    i: int,
    from: usize,
)
    requires
        (PlanView { pointers, holds, changes: seq![] }).wf(),
        0 < holds.len() <= u32::MAX,
        counted(pointers, holds),
        distinct(contacts),
        0 <= i < contacts.len(),
        contacts[i].is_touching(),
        pointers[contacts[i].pointer_id as int] == Some(from),
    ensures
        ({
            let plan = plan::planned(pointers, holds, contacts, acting);
            let to = plan::lane_at(contacts[i].x, holds.len()) as int;
            exists|s: int, e: int|
                0 <= s <= e <= plan.changes.len() && crosses(
                    #[trigger] plan.changes.subrange(s, e),
                    from as int,
                    to,
                    pointers,
                    plan.pointers,
                    contacts[i].pointer_id as int,
                )
        }),
{
    let p = contacts[i].pointer_id as int;
    let lanes = holds.len();
    let to = plan::lane_at(contacts[i].x, lanes) as int;
    plan::lane_is_there(contacts[i].x, lanes);
    let start = PlanView { pointers, holds, changes: seq![] };
    let end = start.snapshot(contacts, acting);
    let all = end.changes;
    let plan = plan::planned(pointers, holds, contacts, acting);
    plan_leads_to_the_fingers(pointers, holds, contacts, acting);
    snapshot_places_pointers(pointers, holds, contacts, acting);
    let moment = moment_of(pointers, holds, contacts, acting, i);
    slide_crosses_every_lane(moment, p, from, to);
    let done = moment.touched(contacts[i]).changes;
    let a = moment.changes.len() as int;
    let z = done.len() as int;
    let raw = all.subrange(a, z);
    assert(raw =~= done.skip(a)) by {
        assert(all.take(z) == done);
    }
    assert(slides(moment.holds, raw, from as int, to));
    net_part(all, holds, end.holds, a, z, from as int, to);
    net_adds(all, holds, end.holds, z as nat, all.len());
    let early = plan::net_changes(all, holds, end.holds, a as nat);
    let late = plan::net_changes(all, holds, end.holds, z as nat);
    let s = early.len() as int;
    let e = late.len() as int;
    let part = plan.changes.subrange(s, e);
    assert(part =~= late.skip(s)) by {
        assert(plan.changes.take(e) == late);
    }
    assert forall|lane: int|
        on_the_way(from as int, to, lane) && lane != from && #[trigger] alone_on(
            pointers,
            plan.pointers,
            p,
            lane,
        ) implies part.contains(press(lane)) by {
        holds_at_the_moment(pointers, plan.pointers, contacts, moment, p, lane);
        nobody_else(pointers, p, lane);
        assert(holds[lane] == fingers_on(pointers, lane));
        assert(raw.contains(press(lane)));
    }
    assert forall|lane: int|
        on_the_way(from as int, to, lane) && lane != to && #[trigger] alone_on(
            pointers,
            plan.pointers,
            p,
            lane,
        ) implies part.contains(release(lane)) by {
        holds_at_the_moment(pointers, plan.pointers, contacts, moment, p, lane);
        assert(raw.contains(release(lane)));
        assert forall|q: int| 0 <= q < plan.pointers.len() && q != p implies !is_on(
            #[trigger] plan.pointers[q],
            lane,
        ) by {
            assert(!is_on(pointers[q], lane));
        }
        nobody_else(plan.pointers, p, lane);
        assert(plan.holds[lane] == fingers_on(plan.pointers, lane));
        assert(plan.pointers[p] == Some(to as usize));
    }
    assert(crosses(part, from as int, to, pointers, plan.pointers, p));
}

/// A lane strictly between two that a finger goes from and to is pressed and released again,
/// where no finger holds it before or after the frame, whatever other fingers hold.
pub proof fn free_lanes_between_are_pressed(
    pointers: Seq<Option<usize>>,
    holds: Seq<u16>,
    contacts: Seq<Contact>,
    acting: u8,
    i: int,
    from: usize,
    lane: int,
)
    requires
        (PlanView { pointers, holds, changes: seq![] }).wf(),
        0 < holds.len() <= u32::MAX,
        counted(pointers, holds),
        distinct(contacts),
        0 <= i < contacts.len(),
        contacts[i].is_touching(),
        pointers[contacts[i].pointer_id as int] == Some(from),
        from < lane < plan::lane_at(contacts[i].x, holds.len()) || plan::lane_at(
            contacts[i].x,
            holds.len(),
        ) < lane < from,
        holds[lane] == 0,
        plan::planned(pointers, holds, contacts, acting).holds[lane] == 0,
    ensures
        plan::planned(pointers, holds, contacts, acting).changes.contains(press(lane)),
        plan::planned(pointers, holds, contacts, acting).changes.contains(release(lane)),
{
    let p = contacts[i].pointer_id as int;
    let to = plan::lane_at(contacts[i].x, holds.len()) as int;
    plan::lane_is_there(contacts[i].x, holds.len());
    let plan = plan::planned(pointers, holds, contacts, acting);
    plan_leads_to_the_fingers(pointers, holds, contacts, acting);
    every_slide_is_planned(pointers, holds, contacts, acting, i, from);
    let (s, e) = choose|s: int, e: int|
        0 <= s <= e <= plan.changes.len() && crosses(
            #[trigger] plan.changes.subrange(s, e),
            from as int,
            to,
            pointers,
            plan.pointers,
            p,
        );
    let part = plan.changes.subrange(s, e);
    assert forall|q: int| 0 <= q < pointers.len() && q != p implies !is_on(
        #[trigger] pointers[q],
        lane,
    ) && !is_on(plan.pointers[q], lane) by {
        if is_on(pointers[q], lane) {
            finger_counts(pointers, q, lane);
            assert(holds[lane] == fingers_on(pointers, lane));
        }
        if is_on(plan.pointers[q], lane) {
            finger_counts(plan.pointers, q, lane);
            assert(plan.holds[lane] == fingers_on(plan.pointers, lane));
        }
    }
    assert(alone_on(pointers, plan.pointers, p, lane));
    let down = choose|k: int| 0 <= k < part.len() && part[k] == press(lane);
    let up = choose|k: int| 0 <= k < part.len() && part[k] == release(lane);
    assert(part.contains(press(lane)) && part.contains(release(lane)));
    assert(plan.changes[s + down] == press(lane));
    assert(plan.changes[s + up] == release(lane));
}

/// The surface is cut into lanes of equal width: a position is on the lane whose strip holds
/// it, and past an edge on the lane at that edge.
pub proof fn lanes_are_equal_strips(x: i16, lanes: nat)
    requires
        0 < lanes <= u32::MAX,
    ensures
        0 <= x < 10_000 ==> 10_000 * plan::lane_at(x, lanes) <= x * lanes < 10_000 * (
        plan::lane_at(x, lanes) + 1),
        x < 0 ==> plan::lane_at(x, lanes) == 0,
        x >= 10_000 ==> plan::lane_at(x, lanes) == lanes - 1,
{
    plan::lane_is_there(x, lanes);
    if 0 <= x < 10_000 {
        let product = x * lanes;
        assert(0 <= product) by (nonlinear_arith)
            requires
                0 <= x,
                product == x * lanes,
        ;
    }
}

/// A finger that goes from one place to another meets the lanes on its way; one that comes
/// or leaves meets the lane that it comes to or leaves.
pub open spec fn meets(before: Option<usize>, after: Option<usize>, lane: int) -> bool {
    match (before, after) {
        (Some(from), Some(to)) => on_the_way(from as int, to as int, lane),
        (Some(from), None) => lane == from,
        (None, Some(to)) => lane == to,
        (None, None) => false,
    }
}

pub open spec fn someone_meets(
    before: Seq<Option<usize>>,
    after: Seq<Option<usize>>,
    lane: int,
) -> bool {
    exists|q: int| 0 <= q < before.len() && meets(#[trigger] before[q], after[q], lane)
}

/// Every change is about a lane that some finger meets.
pub open spec fn all_met(
    changes: Seq<KeyChange>,
    before: Seq<Option<usize>>,
    after: Seq<Option<usize>>,
) -> bool {
    forall|i: int|
        0 <= i < changes.len() ==> someone_meets(
            before,
            after,
            (#[trigger] changes[i]).lane as int,
        )
}

proof fn met_with(
    changes: Seq<KeyChange>,
    more: Seq<KeyChange>,
    before: Seq<Option<usize>>,
    after: Seq<Option<usize>>,
    p: int,
)
    requires
        all_met(changes, before, after),
        adds(changes, more),
        0 <= p < before.len(),
        forall|i: int|
            changes.len() <= i < more.len() ==> meets(
                before[p],
                after[p],
                (#[trigger] more[i]).lane as int,
            ),
    ensures
        all_met(more, before, after),
{
    assert forall|i: int| 0 <= i < more.len() implies someone_meets(
        before,
        after,
        (#[trigger] more[i]).lane as int,
    ) by {
        if i < changes.len() {
            assert(more.take(changes.len() as int)[i] == changes[i]);
        } else {
            assert(meets(before[p], after[p], more[i].lane as int));
        }
    }
}

proof fn touched_meets(
    plan: PlanView,
    down: Seq<bool>,
    contact: Contact,
    before: Seq<Option<usize>>,
    after: Seq<Option<usize>>,
)
    requires
        sound(plan, down),
        before.len() == POINTER_ID_COUNT,
        all_met(plan.changes, before, after),
        plan.pointers[contact.pointer_id as int] == before[contact.pointer_id as int],
        after[contact.pointer_id as int] == place_of(contact, plan.holds.len()),
    ensures
        all_met(plan.touched(contact).changes, before, after),
{
    let p = contact.pointer_id as int;
    plan::lane_is_there(contact.x, plan.holds.len());
    let to = plan::lane_at(contact.x, plan.holds.len()) as int;
    touched_adds(plan, down, contact);
    let n = plan.changes.len() as int;
    let more = plan.touched(contact).changes;
    if contact.is_touching() && plan.pointers[p] is Some {
        let from = plan.pointers[p]->0;
        slide_crosses_every_lane(plan, p, from, to);
        let added = more.skip(n);
        assert forall|i: int| n <= i < more.len() implies meets(
            before[p],
            after[p],
            (#[trigger] more[i]).lane as int,
        ) by {
            assert(added[i - n] == more[i]);
        }
    }
    met_with(plan.changes, more, before, after, p);
}

proof fn rest_meets(
    plan: PlanView,
    down: Seq<bool>,
    contacts: Seq<Contact>,
    acting: u8,
    count: nat,
    before: Seq<Option<usize>>,
    after: Seq<Option<usize>>,
)
    requires
        sound(plan, down),
        count <= contacts.len(),
        distinct(contacts),
        before.len() == POINTER_ID_COUNT,
        all_met(plan.changes, before, after),
        forall|q: int|
            0 <= q < POINTER_ID_COUNT && q != acting ==> #[trigger] plan.pointers[q] == before[q],
        forall|i: int|
            0 <= i < contacts.len() ==> after[(#[trigger] contacts[i]).pointer_id as int]
                == place_of(contacts[i], plan.holds.len()),
    ensures
        all_met(plan.rest_of(contacts, acting, count).changes, before, after),
    decreases count,
{
    if count > 0 {
        let shorter = (count - 1) as nat;
        rest_meets(plan, down, contacts, acting, shorter, before, after);
        rest_sound(plan, down, contacts, acting, shorter);
        let contact = contacts[count - 1];
        if contact.pointer_id != acting {
            let p = contact.pointer_id as int;
            assert forall|j: int| 0 <= j < shorter implies (#[trigger] contacts[j]).pointer_id != p by {
                assert(contacts[j].pointer_id != contacts[count - 1].pointer_id);
            }
            rest_places(plan, down, contacts, acting, shorter, p);
            assert(plan.pointers[p] == before[p]);
            touched_meets(
                plan.rest_of(contacts, acting, shorter),
                down,
                contact,
                before,
                after,
            );
        }
    }
}

proof fn absent_meets(
    plan: PlanView,
    down: Seq<bool>,
    contacts: Seq<Contact>,
    count: nat,
    before: Seq<Option<usize>>,
    after: Seq<Option<usize>>,
)
    requires
        sound(plan, down),
        count <= POINTER_ID_COUNT,
        before.len() == POINTER_ID_COUNT,
        all_met(plan.changes, before, after),
        forall|q: int|
            0 <= q < POINTER_ID_COUNT && !#[trigger] plan::names(contacts, q) ==> plan.pointers[q]
                == before[q] && after[q] is None,
    ensures
        all_met(plan.absent_lifted(contacts, count).changes, before, after),
    decreases count,
{
    if count > 0 {
        let shorter = (count - 1) as nat;
        absent_meets(plan, down, contacts, shorter, before, after);
        absent_sound(plan, down, contacts, shorter);
        let was = plan.absent_lifted(contacts, shorter);
        if !plan::names(contacts, count - 1) {
            lifted_adds(was, count - 1);
            assert(was.pointers[count - 1] == before[count - 1]);
            met_with(was.changes, was.lifted(count - 1).changes, before, after, count - 1);
        }
    }
}

/// No key is touched that no finger meets: every planned change is about a lane that a finger
/// holds, comes to or crosses.
pub proof fn only_met_lanes_change(
    pointers: Seq<Option<usize>>,
    holds: Seq<u16>,
    contacts: Seq<Contact>,
    acting: u8,
)
    requires
        (PlanView { pointers, holds, changes: seq![] }).wf(),
        0 < holds.len() <= u32::MAX,
        counted(pointers, holds),
        distinct(contacts),
    ensures
        ({
            let plan = plan::planned(pointers, holds, contacts, acting);
            all_met(plan.changes, pointers, plan.pointers)
        }),
{
    let down = held(holds);
    let start = PlanView { pointers, holds, changes: seq![] };
    let after = plan::planned(pointers, holds, contacts, acting).pointers;
    snapshot_places_pointers(pointers, holds, contacts, acting);
    start_sound(pointers, holds);
    first_sound(start, down, contacts, acting, 0);
    let first = start.first_of(contacts, acting, 0);
    if plan::names(contacts, acting as int) {
        let i = choose|i: int| 0 <= i < contacts.len() && #[trigger] contacts[i].pointer_id == acting;
        assert forall|j: int| 0 <= j < i implies (#[trigger] contacts[j]).pointer_id != acting by {
            assert(contacts[j].pointer_id != contacts[i].pointer_id);
        }
        first_is_touched(start, contacts, acting, 0, i);
        touched_meets(start, down, contacts[i], pointers, after);
    } else {
        assert forall|i: int| 0 <= i < contacts.len() implies (#[trigger] contacts[i]).pointer_id
            != acting by {
            if contacts[i].pointer_id == acting {
                assert(plan::names(contacts, acting as int));
            }
        }
    }
    rest_meets(first, down, contacts, acting, contacts.len(), pointers, after);
    rest_sound(first, down, contacts, acting, contacts.len());
    let rest = first.rest_of(contacts, acting, contacts.len());
    assert forall|q: int|
        0 <= q < POINTER_ID_COUNT && !#[trigger] plan::names(contacts, q) implies rest.pointers[q]
        == pointers[q] && after[q] is None by {
        assert forall|j: int| 0 <= j < contacts.len() implies (#[trigger] contacts[j]).pointer_id
            != q by {}
        rest_places(first, down, contacts, acting, contacts.len(), q);
        if q == acting {
            assert(first == start);
        }
    }
    absent_meets(rest, down, contacts, POINTER_ID_COUNT as nat, pointers, after);
    let end = start.snapshot(contacts, acting);
    let net = plan::net_changes(end.changes, holds, end.holds, end.changes.len());
    assert forall|i: int| 0 <= i < net.len() implies someone_meets(
        pointers,
        after,
        (#[trigger] net[i]).lane as int,
    ) by {
        let k = net_origin(end.changes, holds, end.holds, end.changes.len(), i);
        assert(someone_meets(pointers, after, end.changes[k].lane as int));
    }
}

proof fn net_origin(
    changes: Seq<KeyChange>,
    before: Seq<u16>,
    after: Seq<u16>,
    count: nat,
    i: int,
) -> (k: int)
    requires
        0 <= i < plan::net_changes(changes, before, after, count).len(),
        count <= changes.len(),
    ensures
        0 <= k < changes.len(),
        changes[k] == plan::net_changes(changes, before, after, count)[i],
    decreases count,
{
    let shorter = (count - 1) as nat;
    let front = plan::net_changes(changes, before, after, shorter);
    if i < front.len() {
        net_origin(changes, before, after, shorter, i)
    } else {
        count - 1
    }
}

/// The finger that a frame is about comes before all others: where it comes down on a lane that
/// nobody holds, the key of that lane is the first that changes; and so it is where it lifts
/// from a lane that is free then and that it held alone.
pub proof fn acting_finger_goes_first(
    pointers: Seq<Option<usize>>,
    holds: Seq<u16>,
    contacts: Seq<Contact>,
    acting: u8,
    i: int,
)
    requires
        (PlanView { pointers, holds, changes: seq![] }).wf(),
        0 < holds.len() <= u32::MAX,
        counted(pointers, holds),
        0 <= i < contacts.len(),
        contacts[i].pointer_id == acting,
        forall|j: int| 0 <= j < i ==> (#[trigger] contacts[j]).pointer_id != acting,
    ensures
        ({
            let planned = plan::planned(pointers, holds, contacts, acting);
            let to = plan::lane_at(contacts[i].x, holds.len());
            let down = KeyChange { lane: to as usize, down: true };
            &&& pointers[acting as int] is None && contacts[i].is_touching() && holds[to as int]
                == 0 ==> planned.changes.len() > 0 && planned.changes[0] == down
            &&& pointers[acting as int] is Some && !contacts[i].is_touching()
                && holds[pointers[acting as int]->0 as int] == 1
                && planned.holds[pointers[acting as int]->0 as int] == 0 ==> planned.changes.len() > 0 && planned.changes[0] == (KeyChange {
                lane: pointers[acting as int]->0,
                down: false,
            })
        }),
{
    let held_keys = held(holds);
    let start = PlanView { pointers, holds, changes: seq![] };
    plan::lane_is_there(contacts[i].x, holds.len());
    start_sound(pointers, holds);
    first_sound(start, held_keys, contacts, acting, 0);
    first_is_touched(start, contacts, acting, 0, i);
    let first = start.first_of(contacts, acting, 0);
    let rest = first.rest_of(contacts, acting, contacts.len());
    let end = start.snapshot(contacts, acting);
    rest_adds(first, held_keys, contacts, acting, 0, contacts.len());
    absent_adds(rest, contacts, POINTER_ID_COUNT as nat);
    adds_in_two(first.changes, rest.changes, end.changes);
    let all = end.changes;
    if first.changes.len() == 1 {
        let change = first.changes[0];
        assert(all.take(1)[0] == change);
        assert(all[0] == change);
        if holds[change.lane as int] == 0 || end.holds[change.lane as int] == 0 {
            reveal_with_fuel(plan::net_changes, 2);
            net_adds(all, holds, end.holds, 1, all.len());
            let net = plan::net_changes(all, holds, end.holds, all.len());
            let head = plan::net_changes(all, holds, end.holds, 1);
            assert(head =~= seq![change]);
            assert(net.take(1)[0] == change);
        }
    }
}

} // verus!
