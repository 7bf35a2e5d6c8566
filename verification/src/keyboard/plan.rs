//! How the fingers of a frame hold, slide over and leave the lanes.
use crate::protocol::frame::{Contact, Contacts, TouchFrame};
use vstd::prelude::*;

verus! {

pub const POINTER_ID_COUNT: usize = 256;

/// The width of the surface in the units of a contact's position.
pub const SURFACE: i16 = 10_000;

/// A key that goes down or up.
#[derive(Clone, Copy, Debug, PartialEq, Eq, Structural)]
pub struct KeyChange {
    pub lane: usize,
    pub down: bool,
}

/// The lane under a position: the surface is cut into equal lanes, and what lies beyond
/// an edge belongs to the lane at the edge.
pub open spec fn lane_at(x: i16, lanes: nat) -> nat {
    if x < 0 {
        0
    } else if x >= SURFACE {
        (lanes - 1) as nat
    } else {
        (x * lanes / SURFACE as int) as nat
    }
}

/// The fingers on the lanes, how many fingers hold each lane, and the changes so far.
#[verifier::ext_equal]
pub struct PlanView {
    /// The lane of each pointer that holds one.
    pub pointers: Seq<Option<usize>>,
    pub holds: Seq<u16>,
    pub changes: Seq<KeyChange>,
}

impl PlanView {
    /// Every pointer is on a lane that exists.
    pub open spec fn wf(self) -> bool {
        &&& self.pointers.len() == POINTER_ID_COUNT
        &&& forall|p: int|
            0 <= p < POINTER_ID_COUNT ==> (#[trigger] self.pointers[p] matches Some(lane) ==> lane
                < self.holds.len())
        &&& forall|i: int|
            0 <= i < self.changes.len() ==> (#[trigger] self.changes[i]).lane < self.holds.len()
    }

    /// One more finger on a lane: the first presses its key.
    pub open spec fn acquired(self, lane: int) -> PlanView {
        PlanView {
            holds: self.holds.update(
                lane,
                if self.holds[lane] == u16::MAX {
                    u16::MAX
                } else {
                    (self.holds[lane] + 1) as u16
                },
            ),
            changes: if self.holds[lane] == 0 {
                self.changes.push(KeyChange { lane: lane as usize, down: true })
            } else {
                self.changes
            },
            ..self
        }
    }

    /// One finger less on a lane: the last releases its key.
    pub open spec fn released(self, lane: int) -> PlanView {
        if self.holds[lane] == 0 {
            self
        } else {
            PlanView {
                holds: self.holds.update(lane, (self.holds[lane] - 1) as u16),
                changes: if self.holds[lane] == 1 {
                    self.changes.push(KeyChange { lane: lane as usize, down: false })
                } else {
                    self.changes
                },
                ..self
            }
        }
    }

    /// A finger that slides over every lane between: it takes the next before it leaves
    /// the last.
    pub open spec fn slid(self, from: int, to: int) -> PlanView
        decreases
            if from < to {
                to - from
            } else {
                from - to
            },
    {
        if from == to {
            self
        } else {
            let next = if from < to {
                from + 1
            } else {
                from - 1
            };
            self.acquired(next).released(from).slid(next, to)
        }
    }

    pub open spec fn placed(self, pointer: int, lane: Option<usize>) -> PlanView {
        PlanView { pointers: self.pointers.update(pointer, lane), ..self }
    }

    pub open spec fn moved(self, pointer: int, to: int) -> PlanView {
        match self.pointers[pointer] {
            None => self.acquired(to).placed(pointer, Some(to as usize)),
            Some(from) => self.slid(from as int, to).placed(pointer, Some(to as usize)),
        }
    }

    pub open spec fn lifted(self, pointer: int) -> PlanView {
        match self.pointers[pointer] {
            None => self,
            Some(lane) => self.placed(pointer, None).released(lane as int),
        }
    }

    /// A contact that touches is on its lane, even past the edge of the surface; one that
    /// does not touch is on none.
    pub open spec fn touched(self, contact: Contact) -> PlanView {
        if contact.is_touching() {
            self.moved(
                contact.pointer_id as int,
                lane_at(contact.x, self.holds.len()) as int,
            )
        } else {
            self.lifted(contact.pointer_id as int)
        }
    }

    /// The first contact of a pointer, from `from` on.
    pub open spec fn first_of(self, contacts: Seq<Contact>, pointer: u8, from: nat) -> PlanView
        decreases contacts.len() - from,
    {
        if from >= contacts.len() {
            self
        } else if contacts[from as int].pointer_id == pointer {
            self.touched(contacts[from as int])
        } else {
            self.first_of(contacts, pointer, from + 1)
        }
    }

    /// The first `count` contacts, in order, without those of a pointer.
    pub open spec fn rest_of(self, contacts: Seq<Contact>, pointer: u8, count: nat) -> PlanView
        decreases count,
    {
        if count == 0 {
            self
        } else {
            let before = self.rest_of(contacts, pointer, (count - 1) as nat);
            if contacts[count - 1].pointer_id != pointer {
                before.touched(contacts[count - 1])
            } else {
                before
            }
        }
    }

    /// The first `count` pointers lifted, in order, where no contact names them.
    pub open spec fn absent_lifted(self, contacts: Seq<Contact>, count: nat) -> PlanView
        decreases count,
    {
        if count == 0 {
            self
        } else {
            let before = self.absent_lifted(contacts, (count - 1) as nat);
            if names(contacts, count - 1) {
                before
            } else {
                before.lifted(count - 1)
            }
        }
    }

    /// What a complete snapshot does: the acting pointer first, then the others, then
    /// every pointer that the snapshot omits.
    pub open spec fn snapshot(self, contacts: Seq<Contact>, acting: u8) -> PlanView {
        self.first_of(contacts, acting, 0).rest_of(contacts, acting, contacts.len()).absent_lifted(
            contacts,
            POINTER_ID_COUNT as nat,
        )
    }
}

/// Whether a contact names the pointer.
pub open spec fn names(contacts: Seq<Contact>, pointer: int) -> bool {
    exists|i: int| 0 <= i < contacts.len() && #[trigger] contacts[i].pointer_id == pointer
}

/// The first `count` changes without those of lanes that are held both before and after:
/// their key stays down.
pub open spec fn net_changes(
    changes: Seq<KeyChange>,
    before: Seq<u16>,
    after: Seq<u16>,
    count: nat,
) -> Seq<KeyChange>
    decreases count,
{
    if count == 0 {
        seq![]
    } else {
        let front = net_changes(changes, before, after, (count - 1) as nat);
        let last = changes[count - 1];
        if before[last.lane as int] == 0 || after[last.lane as int] == 0 {
            front.push(last)
        } else {
            front
        }
    }
}

/// The fingers and the holds that a frame leads to, and the changes that lead there.
pub open spec fn planned(
    pointers: Seq<Option<usize>>,
    holds: Seq<u16>,
    contacts: Seq<Contact>,
    acting: u8,
) -> PlanView {
    let end = PlanView { pointers, holds, changes: seq![] }.snapshot(contacts, acting);
    PlanView {
        changes: net_changes(end.changes, holds, end.holds, end.changes.len()),
        ..end
    }
}

/// The fingers on the lanes.
pub struct KeyboardState {
    pub pointer_lanes: [Option<usize>; 256],
    pub lane_holds: Vec<u16>,
}

impl KeyboardState {
    /// The state as a plan with changes.
    pub open spec fn plan(&self, changes: Seq<KeyChange>) -> PlanView {
        PlanView { pointers: self.pointer_lanes@, holds: self.lane_holds@, changes }
    }

    pub open spec fn wf(&self) -> bool {
        self.plan(seq![]).wf()
    }

    pub fn new(lanes: usize) -> (state: KeyboardState)
        ensures
            state.wf(),
            state.pointer_lanes@ == Seq::new(POINTER_ID_COUNT as nat, |p: int| None::<usize>),
            state.lane_holds@ == Seq::new(lanes as nat, |l: int| 0u16),
    {
        let pointer_lanes: [Option<usize>; 256] = [None; 256];
        let lane_holds: Vec<u16> = vec![0u16; lanes];
        assert(pointer_lanes@ =~= Seq::new(POINTER_ID_COUNT as nat, |p: int| None::<usize>));
        assert(lane_holds@ =~= Seq::new(lanes as nat, |l: int| 0u16));
        KeyboardState { pointer_lanes, lane_holds }
    }

    /// The same fingers on the same lanes.
    pub fn duplicate(&self) -> (state: KeyboardState)
        ensures
            state.pointer_lanes@ == self.pointer_lanes@,
            state.lane_holds@ == self.lane_holds@,
    {
        let mut lane_holds: Vec<u16> = Vec::new();
        let mut i: usize = 0;
        while i < self.lane_holds.len()
            invariant
                i <= self.lane_holds@.len(),
                lane_holds@ == self.lane_holds@.subrange(0, i as int),
            decreases self.lane_holds@.len() - i,
        {
            lane_holds.push(self.lane_holds[i]);
            i = i + 1;
            assert(self.lane_holds@.subrange(0, i as int) =~= self.lane_holds@.subrange(
                0,
                i - 1,
            ).push(self.lane_holds@[i - 1]));
        }
        assert(lane_holds@ =~= self.lane_holds@);
        KeyboardState { pointer_lanes: self.pointer_lanes, lane_holds }
    }
}

/// The lane under a position.
pub fn lane_for(x: i16, lane_count: usize) -> (lane: usize)
    requires
        0 < lane_count <= u32::MAX,
    ensures
        lane == lane_at(x, lane_count as nat),
        lane < lane_count,
{
    proof {
        lane_is_there(x, lane_count as nat);
    }
    if x < 0 {
        0
    } else if x >= SURFACE {
        lane_count - 1
    } else {
        let product: u64 = x as u64 * lane_count as u64;
        assert(product == x * lane_count) by (nonlinear_arith)
            requires
                product == x as u64 * lane_count as u64,
                x >= 0,
        ;
        (product / 10_000) as usize
    }
}

/// Every position has a lane.
pub proof fn lane_is_there(x: i16, lanes: nat)
    requires
        0 < lanes <= u32::MAX,
    ensures
        lane_at(x, lanes) < lanes,
        0 <= x ==> x * lanes <= 0x7fff * u32::MAX,
{
    if 0 <= x {
        assert(x * lanes <= 0x7fff * u32::MAX) by (nonlinear_arith)
            requires
                0 <= x <= 0x7fff,
                lanes <= u32::MAX,
        ;
        if x < SURFACE {
            assert(x * lanes < SURFACE * lanes) by (nonlinear_arith)
                requires
                    0 <= x < SURFACE,
                    lanes > 0,
            ;
            assert(x * lanes / (SURFACE as int) < lanes) by (nonlinear_arith)
                requires
                    0 <= x * lanes < SURFACE * lanes,
                    SURFACE == 10_000,
            ;
            assert(0 <= x * lanes) by (nonlinear_arith)
                requires
                    0 <= x,
            ;
        }
    }
}

fn acquire_lane(lane: usize, state: &mut KeyboardState, changes: &mut Vec<KeyChange>)
    requires
        old(state).plan(old(changes)@).wf(),
        lane < old(state).lane_holds@.len(),
    ensures
        final(state).plan(final(changes)@).wf(),
        final(state).plan(final(changes)@) == old(state).plan(old(changes)@).acquired(lane as int),
        final(state).pointer_lanes == old(state).pointer_lanes,
{
    if state.lane_holds[lane] == 0 {
        changes.push(KeyChange { lane, down: true });
    }
    state.lane_holds[lane] = state.lane_holds[lane].saturating_add(1);
    assert(state.plan(changes@) =~= old(state).plan(old(changes)@).acquired(lane as int));
}

fn release_lane(lane: usize, state: &mut KeyboardState, changes: &mut Vec<KeyChange>)
    requires
        old(state).plan(old(changes)@).wf(),
        lane < old(state).lane_holds@.len(),
    ensures
        final(state).plan(final(changes)@).wf(),
        final(state).plan(final(changes)@) == old(state).plan(old(changes)@).released(lane as int),
        final(state).pointer_lanes == old(state).pointer_lanes,
{
    if state.lane_holds[lane] == 0 {
        return ;
    }
    state.lane_holds[lane] = state.lane_holds[lane] - 1;
    if state.lane_holds[lane] == 0 {
        changes.push(KeyChange { lane, down: false });
    }
    assert(state.plan(changes@) =~= old(state).plan(old(changes)@).released(lane as int));
}

fn move_pointer(
    pointer_id: u8,
    destination: usize,
    state: &mut KeyboardState,
    changes: &mut Vec<KeyChange>,
)
    requires
        old(state).plan(old(changes)@).wf(),
        destination < old(state).lane_holds@.len(),
    ensures
        final(state).plan(final(changes)@).wf(),
        final(state).plan(final(changes)@) == old(state).plan(old(changes)@).moved(
            pointer_id as int,
            destination as int,
        ),
{
    let ghost start = state.plan(changes@);
    let pointer_index: usize = pointer_id as usize;
    match state.pointer_lanes[pointer_index] {
        None => {
            acquire_lane(destination, state, changes);
        },
        Some(origin) => {
            let mut current: usize = origin;
            while current != destination
                invariant
                    state.plan(changes@).wf(),
                    current < state.lane_holds@.len(),
                    destination < state.lane_holds@.len(),
                    state.pointer_lanes@ == start.pointers,
                    state.plan(changes@).slid(current as int, destination as int) == start.slid(
                        origin as int,
                        destination as int,
                    ),
                decreases
                    if current < destination {
                        destination - current
                    } else {
                        current - destination
                    },
            {
                let next: usize = if destination > current {
                    current + 1
                } else {
                    current - 1
                };
                acquire_lane(next, state, changes);
                release_lane(current, state, changes);
                current = next;
            }
        },
    }
    let ghost before = state.plan(changes@);
    state.pointer_lanes[pointer_index] = Some(destination);
    assert(state.plan(changes@) =~= before.placed(pointer_id as int, Some(destination)));
}

fn release_pointer(pointer_id: u8, state: &mut KeyboardState, changes: &mut Vec<KeyChange>)
    requires
        old(state).plan(old(changes)@).wf(),
    ensures
        final(state).plan(final(changes)@).wf(),
        final(state).plan(final(changes)@) == old(state).plan(old(changes)@).lifted(
            pointer_id as int,
        ),
{
    let pointer_index: usize = pointer_id as usize;
    if let Some(lane) = state.pointer_lanes[pointer_index] {
        let ghost before = state.plan(changes@);
        state.pointer_lanes[pointer_index] = None;
        assert(state.plan(changes@) =~= before.placed(pointer_id as int, None));
        release_lane(lane, state, changes);
    }
}

fn apply_contact(contact: &Contact, state: &mut KeyboardState, changes: &mut Vec<KeyChange>)
    requires
        old(state).plan(old(changes)@).wf(),
        0 < old(state).lane_holds@.len() <= u32::MAX,
    ensures
        final(state).plan(final(changes)@).wf(),
        final(state).lane_holds@.len() == old(state).lane_holds@.len(),
        final(state).plan(final(changes)@) == old(state).plan(old(changes)@).touched(*contact),
{
    proof {
        let plan = state.plan(changes@);
        lane_is_there(contact.x, plan.holds.len());
        sizes_stay(plan, *contact);
    }
    if contact.touching() {
        let lane: usize = lane_for(contact.x, state.lane_holds.len());
        move_pointer(contact.pointer_id, lane, state, changes);
    } else {
        release_pointer(contact.pointer_id, state, changes);
    }
}

proof fn slide_keeps_sizes(plan: PlanView, from: int, to: int)
    requires
        0 <= from < plan.holds.len(),
        0 <= to < plan.holds.len(),
    ensures
        plan.slid(from, to).holds.len() == plan.holds.len(),
        plan.slid(from, to).pointers == plan.pointers,
    decreases
            if from < to {
                to - from
            } else {
                from - to
            },
{
    if from != to {
        let next = if from < to {
            from + 1
        } else {
            from - 1
        };
        slide_keeps_sizes(plan.acquired(next).released(from), next, to);
    }
}

proof fn sizes_stay(plan: PlanView, contact: Contact)
    requires
        plan.wf(),
        0 < plan.holds.len() <= u32::MAX,
    ensures
        plan.touched(contact).holds.len() == plan.holds.len(),
        plan.touched(contact).pointers.len() == plan.pointers.len(),
{
    lane_is_there(contact.x, plan.holds.len());
    let to = lane_at(contact.x, plan.holds.len()) as int;
    if contact.is_touching() {
        if let Some(from) = plan.pointers[contact.pointer_id as int] {
            slide_keeps_sizes(plan, from as int, to);
        }
    }
}

/// Plans one frame against the fingers on the lanes: the state that it leads to, and the
/// keys that go down and up on the way, in order.
pub fn plan_frame(state: &KeyboardState, frame: &TouchFrame) -> (plan: (
    KeyboardState,
    Vec<KeyChange>,
))
    requires
        state.wf(),
        0 < state.lane_holds@.len() <= u32::MAX,
    ensures
        plan.0.wf(),
        plan.0.lane_holds@.len() == state.lane_holds@.len(),
        plan.0.plan(plan.1@) == planned(
            state.pointer_lanes@,
            state.lane_holds@,
            frame.contacts@,
            frame.action_pointer_id,
        ),
{
    let mut next: KeyboardState = state.duplicate();
    let mut changes: Vec<KeyChange> = Vec::new();
    let acting: u8 = frame.action_pointer_id;
    let contacts: &Contacts = &frame.contacts;
    let count: usize = contacts.len();
    let ghost lanes = state.lane_holds@.len();
    let ghost start = state.plan(seq![]);
    assert(next.plan(changes@) =~= start);
    let mut i: usize = 0;
    let mut found: bool = false;
    while i < count && !found
        invariant
            i <= count == contacts@.len(),
            next.plan(changes@).wf(),
            next.lane_holds@.len() == lanes,
            0 < lanes <= u32::MAX,
            !found ==> next.plan(changes@).first_of(contacts@, acting, i as nat)
                == start.first_of(contacts@, acting, 0),
            found ==> next.plan(changes@) == start.first_of(contacts@, acting, 0),
        decreases count - i, !found as int,
    {
        let contact: Contact = contacts.at(i);
        if contact.pointer_id == acting {
            apply_contact(&contact, &mut next, &mut changes);
            found = true;
        } else {
            i = i + 1;
        }
    }
    let ghost first = start.first_of(contacts@, acting, 0);
    assert(next.plan(changes@) == first);
    i = 0;
    while i < count
        invariant
            i <= count == contacts@.len(),
            next.plan(changes@).wf(),
            next.lane_holds@.len() == lanes,
            0 < lanes <= u32::MAX,
            next.plan(changes@) == first.rest_of(contacts@, acting, i as nat),
        decreases count - i,
    {
        let contact: Contact = contacts.at(i);
        if contact.pointer_id != acting {
            apply_contact(&contact, &mut next, &mut changes);
        }
        i = i + 1;
    }
    let ghost rest = first.rest_of(contacts@, acting, contacts@.len());
    let mut pointer: usize = 0;
    while pointer < POINTER_ID_COUNT
        invariant
            pointer <= POINTER_ID_COUNT,
            next.plan(changes@).wf(),
            next.lane_holds@.len() == lanes,
            next.plan(changes@) == rest.absent_lifted(contacts@, pointer as nat),
        decreases POINTER_ID_COUNT - pointer,
    {
        if !has_pointer(contacts, pointer as u8) {
            release_pointer(pointer as u8, &mut next, &mut changes);
        }
        pointer = pointer + 1;
    }
    let ghost end = rest.absent_lifted(contacts@, POINTER_ID_COUNT as nat);
    assert(end == start.snapshot(contacts@, acting));
    assert forall|i: int| 0 <= i < changes@.len() implies (#[trigger] changes@[i]).lane < lanes by {
        assert(next.plan(changes@).changes[i].lane < next.lane_holds@.len());
    }
    let net: Vec<KeyChange> = keep_net(&changes, &state.lane_holds, &next.lane_holds);
    (next, net)
}

fn has_pointer(contacts: &Contacts, pointer: u8) -> (has: bool)
    ensures
        has == names(contacts@, pointer as int),
{
    let mut i: usize = 0;
    while i < contacts.len()
        invariant
            i <= contacts@.len(),
            forall|j: int| 0 <= j < i ==> (#[trigger] contacts@[j]).pointer_id != pointer,
        decreases contacts@.len() - i,
    {
        if contacts.at(i).pointer_id == pointer {
            return true;
        }
        i = i + 1;
    }
    false
}

fn keep_net(changes: &Vec<KeyChange>, before: &Vec<u16>, after: &Vec<u16>) -> (net: Vec<KeyChange>)
    requires
        before@.len() == after@.len(),
        forall|i: int| 0 <= i < changes@.len() ==> (#[trigger] changes@[i]).lane < before@.len(),
    ensures
        net@ == net_changes(changes@, before@, after@, changes@.len()),
        forall|i: int| 0 <= i < net@.len() ==> (#[trigger] net@[i]).lane < before@.len(),
{
    let mut net: Vec<KeyChange> = Vec::new();
    let mut i: usize = 0;
    while i < changes.len()
        invariant
            i <= changes@.len(),
            before@.len() == after@.len(),
            forall|j: int|
                0 <= j < changes@.len() ==> (#[trigger] changes@[j]).lane < before@.len(),
            net@ == net_changes(changes@, before@, after@, i as nat),
            forall|j: int| 0 <= j < net@.len() ==> (#[trigger] net@[j]).lane < before@.len(),
        decreases changes@.len() - i,
    {
        let change: KeyChange = changes[i];
        if before[change.lane] == 0 || after[change.lane] == 0 {
            net.push(change);
        }
        i = i + 1;
    }
    net
}

} // verus!
