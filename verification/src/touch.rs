//! Contacts injected as touches: which go down, move, go up or are cancelled.
use crate::protocol::frame::{
    Contact, FrameView, TouchFrame, ACTION_CANCEL, ACTION_HEARTBEAT, ACTION_UP,
};
use crate::protocol::laws;
use vstd::prelude::*;

verus! {

pub const POINTER_FLAG_INRANGE: u32 = 0x0000_0002;

pub const POINTER_FLAG_INCONTACT: u32 = 0x0000_0004;

pub const POINTER_FLAG_CANCELED: u32 = 0x0000_8000;

pub const POINTER_FLAG_DOWN: u32 = 0x0001_0000;

pub const POINTER_FLAG_UPDATE: u32 = 0x0002_0000;

pub const POINTER_FLAG_UP: u32 = 0x0004_0000;

pub const POINTER_ID_COUNT: usize = 256;

/// Down, in range and in contact.
pub const FLAGS_DOWN: u32 = 0x0001_0006;

/// Moved, in range and in contact.
pub const FLAGS_UPDATE: u32 = 0x0002_0006;

/// Up, because cancelled.
pub const FLAGS_CANCEL: u32 = 0x0004_8000;

/// A contact on the screen, in pixels.
#[derive(Clone, Copy, Debug, PartialEq, Eq, Structural)]
pub struct ActiveContact {
    pub x: i32,
    pub y: i32,
    pub pressure: u32,
    pub radius: i32,
}

/// One touch to inject.
#[derive(Clone, Copy, Debug, PartialEq, Eq, Structural)]
pub struct TouchInfo {
    pub pointer_id: u8,
    pub contact: ActiveContact,
    pub flags: u32,
}

/// The area of a window that touches go to, in pixels of the screen.
#[derive(Clone, Copy, Debug, PartialEq, Eq, Structural)]
pub struct TouchTarget {
    pub left: i32,
    pub top: i32,
    pub width: i32,
    pub height: i32,
}

/// A rectangle by its edges.
#[derive(Clone, Copy, Debug, PartialEq, Eq, Structural)]
pub struct Edges {
    pub left: i32,
    pub top: i32,
    pub right: i32,
    pub bottom: i32,
}

pub open spec fn at_least_one(n: int) -> int {
    if n < 1 {
        1
    } else {
        n
    }
}

impl TouchTarget {
    /// The target of a window whose client area starts at `left` and `top` of the screen.
    pub fn from_client(left: i32, top: i32, client: Edges) -> (target: TouchTarget)
        requires
            i32::MIN <= client.right - client.left <= i32::MAX,
            i32::MIN <= client.bottom - client.top <= i32::MAX,
        ensures
            target.left == left,
            target.top == top,
            target.width == at_least_one(client.right - client.left),
            target.height == at_least_one(client.bottom - client.top),
    {
        let width: i32 = client.right - client.left;
        let height: i32 = client.bottom - client.top;
        TouchTarget {
            left,
            top,
            width: if width < 1 {
                1
            } else {
                width
            },
            height: if height < 1 {
                1
            } else {
                height
            },
        }
    }
}

impl ActiveContact {
    /// The square around the contact.
    pub fn area(&self) -> (area: Edges)
        requires
            i32::MIN <= self.x - self.radius,
            i32::MIN <= self.y - self.radius,
            self.x - self.radius <= i32::MAX,
            self.y - self.radius <= i32::MAX,
            i32::MIN <= self.x + self.radius <= i32::MAX,
            i32::MIN <= self.y + self.radius <= i32::MAX,
        ensures
            area == (Edges {
                left: (self.x - self.radius) as i32,
                top: (self.y - self.radius) as i32,
                right: (self.x + self.radius) as i32,
                bottom: (self.y + self.radius) as i32,
            }),
    {
        Edges {
            left: self.x - self.radius,
            top: self.y - self.radius,
            right: self.x + self.radius,
            bottom: self.y + self.radius,
        }
    }
}

/// The flags of a contact that was on the screen or not, and touches or not.
pub open spec fn flags_of(was_active: bool, touching: bool) -> Option<u32> {
    if touching {
        Some(
            if was_active {
                FLAGS_UPDATE
            } else {
                FLAGS_DOWN
            },
        )
    } else if was_active {
        Some(POINTER_FLAG_UP)
    } else {
        None
    }
}

pub fn transition_flags(was_active: bool, touching: bool) -> (flags: Option<u32>)
    ensures
        flags == flags_of(was_active, touching),
{
    if touching {
        Some(
            if was_active {
                FLAGS_UPDATE
            } else {
                FLAGS_DOWN
            },
        )
    } else if was_active {
        Some(POINTER_FLAG_UP)
    } else {
        None
    }
}

/// The place where each pointer is or will be; `places` goes with `contacts`, and a
/// later contact of a pointer overrides an earlier one.
pub open spec fn placed(
    contacts: Seq<Contact>,
    places: Seq<ActiveContact>,
    count: nat,
) -> Seq<Option<ActiveContact>>
    decreases count,
{
    if count == 0 {
        Seq::new(POINTER_ID_COUNT as nat, |p: int| None)
    } else {
        placed(contacts, places, (count - 1) as nat).update(
            contacts[count - 1].pointer_id as int,
            Some(places[count - 1]),
        )
    }
}

/// The pointers that stay on the screen after a snapshot.
pub open spec fn remaining(
    contacts: Seq<Contact>,
    places: Seq<Option<ActiveContact>>,
    count: nat,
) -> Seq<Option<ActiveContact>>
    decreases count,
{
    if count == 0 {
        Seq::new(POINTER_ID_COUNT as nat, |p: int| None)
    } else {
        let before = remaining(contacts, places, (count - 1) as nat);
        let pointer = contacts[count - 1].pointer_id as int;
        if contacts[count - 1].is_touching() {
            before.update(pointer, places[pointer])
        } else {
            before
        }
    }
}

/// The first `count` pointers on the screen as touches with the same flags.
pub open spec fn all_active(active: Seq<Option<ActiveContact>>, flags: u32, count: nat) -> Seq<
    TouchInfo,
>
    decreases count,
{
    if count == 0 {
        seq![]
    } else {
        let front = all_active(active, flags, (count - 1) as nat);
        match active[count - 1] {
            Some(contact) => front.push(
                TouchInfo { pointer_id: (count - 1) as u8, contact, flags },
            ),
            None => front,
        }
    }
}

/// The first `count` pointers that are and will be on the screen, at their new places.
pub open spec fn moved(
    active: Seq<Option<ActiveContact>>,
    proposed: Seq<Option<ActiveContact>>,
    count: nat,
) -> Seq<TouchInfo>
    decreases count,
{
    if count == 0 {
        seq![]
    } else {
        let front = moved(active, proposed, (count - 1) as nat);
        match proposed[count - 1] {
            Some(contact) => if active[count - 1] is Some {
                front.push(
                    TouchInfo { pointer_id: (count - 1) as u8, contact, flags: FLAGS_UPDATE },
                )
            } else {
                front
            },
            None => front,
        }
    }
}

/// The first `count` pointers on the screen that the snapshot omits: they go up.
pub open spec fn gone(
    active: Seq<Option<ActiveContact>>,
    proposed: Seq<Option<ActiveContact>>,
    count: nat,
) -> Seq<TouchInfo>
    decreases count,
{
    if count == 0 {
        seq![]
    } else {
        let front = gone(active, proposed, (count - 1) as nat);
        match active[count - 1] {
            Some(contact) => if proposed[count - 1] is None {
                front.push(
                    TouchInfo { pointer_id: (count - 1) as u8, contact, flags: POINTER_FLAG_UP },
                )
            } else {
                front
            },
            None => front,
        }
    }
}

/// The first `count` contacts of the snapshot, each with its transition. One that is up
/// and was not on the screen is already satisfied.
pub open spec fn transitions(
    active: Seq<Option<ActiveContact>>,
    proposed: Seq<Option<ActiveContact>>,
    contacts: Seq<Contact>,
    count: nat,
) -> Seq<TouchInfo>
    decreases count,
{
    if count == 0 {
        seq![]
    } else {
        let front = transitions(active, proposed, contacts, (count - 1) as nat);
        let contact = contacts[count - 1];
        let pointer = contact.pointer_id as int;
        match flags_of(active[pointer] is Some, contact.is_touching()) {
            Some(flags) => front.push(
                TouchInfo {
                    pointer_id: contact.pointer_id,
                    contact: proposed[pointer]->0,
                    flags,
                },
            ),
            None => front,
        }
    }
}

/// A frame after which nothing is on the screen.
pub open spec fn cancels(frame: FrameView) -> bool {
    frame.starts_session() || frame.action == ACTION_CANCEL || !frame.is_locked()
}

/// Whether the pointer that goes up has moved since: then it moves first.
pub open spec fn moves_before_up(
    active: Seq<Option<ActiveContact>>,
    proposed: Seq<Option<ActiveContact>>,
    frame: FrameView,
) -> bool {
    let pointer = frame.action_pointer_id as int;
    frame.action == ACTION_UP && match (active[pointer], proposed[pointer]) {
        (Some(previous), Some(next)) => previous.x != next.x || previous.y != next.y,
        _ => false,
    }
}

/// What a frame asks for.
#[derive(Clone, Copy, Debug, PartialEq, Eq, Structural)]
pub enum TouchStep {
    /// To cancel everything on the screen.
    Cancel,
    /// To repeat everything on the screen where it is.
    Repeat,
    /// To place the contacts of the snapshot.
    Place,
}

/// One injection on the way to what a frame asks for.
#[derive(Clone, Copy, Debug, PartialEq, Eq, Structural)]
pub enum TouchStage {
    /// Everything on the screen is cancelled.
    Cancel,
    /// Everything on the screen is repeated where it is.
    Repeat,
    /// The pointers move to their new places, before one of them goes up.
    MoveFirst,
    /// The contacts of the snapshot are placed.
    Place,
}

/// How a frame goes on after an injection.
#[derive(Clone, Copy, Debug, PartialEq, Eq, Structural)]
pub enum TouchVerdict {
    Go(TouchStage),
    /// The screen shows what the frame asks for.
    Finished,
    /// The injection failed, and the frame is given up.
    Failed,
}

impl TouchStage {
    /// Whether the places of the contacts matter.
    pub open spec fn places_contacts(self) -> bool {
        self is MoveFirst || self is Place
    }
}

/// What a frame asks for.
pub open spec fn asked(frame: FrameView) -> TouchStep {
    if cancels(frame) {
        TouchStep::Cancel
    } else if frame.action == ACTION_HEARTBEAT && frame.contacts.len() == 0 {
        TouchStep::Repeat
    } else {
        TouchStep::Place
    }
}

/// The injection that a frame starts with.
pub open spec fn first_stage(
    active: Seq<Option<ActiveContact>>,
    frame: FrameView,
    places: Seq<ActiveContact>,
) -> TouchStage {
    match asked(frame) {
        TouchStep::Cancel => TouchStage::Cancel,
        TouchStep::Repeat => TouchStage::Repeat,
        TouchStep::Place => if moves_before_up(
            active,
            placed(frame.contacts, places, places.len()),
            frame,
        ) {
            TouchStage::MoveFirst
        } else {
            TouchStage::Place
        },
    }
}

/// What is injected, from what is on the screen.
pub open spec fn injection(
    active: Seq<Option<ActiveContact>>,
    frame: FrameView,
    places: Seq<ActiveContact>,
    stage: TouchStage,
) -> Seq<TouchInfo> {
    let proposed = placed(frame.contacts, places, places.len());
    match stage {
        TouchStage::Cancel => all_active(active, FLAGS_CANCEL, POINTER_ID_COUNT as nat),
        TouchStage::Repeat => all_active(active, FLAGS_UPDATE, POINTER_ID_COUNT as nat),
        TouchStage::MoveFirst => moved(active, proposed, POINTER_ID_COUNT as nat),
        TouchStage::Place => gone(active, proposed, POINTER_ID_COUNT as nat) + transitions(
            active,
            proposed,
            frame.contacts,
            frame.contacts.len(),
        ),
    }
}

/// What is on the screen after an injection; one that failed changes nothing.
pub open spec fn shown_after(
    active: Seq<Option<ActiveContact>>,
    frame: FrameView,
    places: Seq<ActiveContact>,
    stage: TouchStage,
    injected: bool,
) -> Seq<Option<ActiveContact>> {
    let proposed = placed(frame.contacts, places, places.len());
    if !injected {
        active
    } else {
        match stage {
            TouchStage::Cancel => Seq::new(POINTER_ID_COUNT as nat, |p: int| None),
            TouchStage::Repeat => active,
            TouchStage::MoveFirst => proposed,
            TouchStage::Place => remaining(frame.contacts, proposed, frame.contacts.len()),
        }
    }
}

/// How a frame goes on: after the move comes the placement, and a failure ends it.
pub open spec fn touch_verdict(stage: TouchStage, injected: bool) -> TouchVerdict {
    if !injected {
        TouchVerdict::Failed
    } else if stage is MoveFirst {
        TouchVerdict::Go(TouchStage::Place)
    } else {
        TouchVerdict::Finished
    }
}

/// The contacts on the screen.
pub struct TouchInjector {
    active: [Option<ActiveContact>; 256],
}

impl View for TouchInjector {
    type V = Seq<Option<ActiveContact>>;

    closed spec fn view(&self) -> Seq<Option<ActiveContact>> {
        self.active@
    }
}

impl TouchInjector {
    pub fn new() -> (injector: TouchInjector)
        ensures
            injector@ == Seq::new(POINTER_ID_COUNT as nat, |p: int| None::<ActiveContact>),
    {
        let injector = TouchInjector { active: [None; 256] };
        assert(injector@ =~= Seq::new(POINTER_ID_COUNT as nat, |p: int| None::<ActiveContact>));
        injector
    }

    pub fn has_active_input(&self) -> (active: bool)
        ensures
            self@.len() == POINTER_ID_COUNT,
            active == (exists|p: int| 0 <= p < POINTER_ID_COUNT && #[trigger] self@[p] is Some),
    {
        let mut p: usize = 0;
        while p < POINTER_ID_COUNT
            invariant
                p <= POINTER_ID_COUNT,
                forall|q: int| 0 <= q < p ==> #[trigger] self.active@[q] is None,
            decreases POINTER_ID_COUNT - p,
        {
            if self.active[p].is_some() {
                assert(self@[p as int] is Some);
                return true;
            }
            p = p + 1;
        }
        false
    }

    /// What a frame asks for.
    pub fn step(&self, frame: &TouchFrame) -> (step: TouchStep)
        ensures
            step == asked(frame@),
    {
        if frame.session_start() || frame.action == ACTION_CANCEL || !frame.locked() {
            TouchStep::Cancel
        } else if frame.action == ACTION_HEARTBEAT && frame.contacts.is_empty() {
            TouchStep::Repeat
        } else {
            TouchStep::Place
        }
    }

    /// Everything on the screen, cancelled.
    pub fn cancellation(&self) -> (touches: Vec<TouchInfo>)
        ensures
            touches@ == all_active(self@, FLAGS_CANCEL, POINTER_ID_COUNT as nat),
    {
        self.listed(FLAGS_CANCEL)
    }

    /// Everything on the screen, where it is.
    pub fn repetition(&self) -> (touches: Vec<TouchInfo>)
        ensures
            touches@ == all_active(self@, FLAGS_UPDATE, POINTER_ID_COUNT as nat),
    {
        self.listed(FLAGS_UPDATE)
    }

    fn listed(&self, flags: u32) -> (touches: Vec<TouchInfo>)
        ensures
            touches@ == all_active(self@, flags, POINTER_ID_COUNT as nat),
    {
        let mut touches: Vec<TouchInfo> = Vec::new();
        let mut p: usize = 0;
        while p < POINTER_ID_COUNT
            invariant
                p <= POINTER_ID_COUNT,
                touches@ == all_active(self@, flags, p as nat),
            decreases POINTER_ID_COUNT - p,
        {
            if let Some(contact) = self.active[p] {
                touches.push(TouchInfo { pointer_id: p as u8, contact, flags });
            }
            p = p + 1;
        }
        touches
    }

    /// Nothing is on the screen any more.
    pub fn cancelled(&mut self)
        ensures
            final(self)@ == Seq::new(POINTER_ID_COUNT as nat, |p: int| None::<ActiveContact>),
    {
        self.active = [None; 256];
        assert(self@ =~= Seq::new(POINTER_ID_COUNT as nat, |p: int| None::<ActiveContact>));
    }

    /// Where a snapshot puts each pointer, given the places of its contacts.
    fn proposed(frame: &TouchFrame, places: &Vec<ActiveContact>) -> (proposed: [Option<
        ActiveContact,
    >; 256])
        requires
            places@.len() == frame.contacts@.len(),
        ensures
            proposed@ == placed(frame.contacts@, places@, places@.len()),
    {
        let mut proposed: [Option<ActiveContact>; 256] = [None; 256];
        assert(proposed@ =~= Seq::new(POINTER_ID_COUNT as nat, |p: int| None::<ActiveContact>));
        let mut i: usize = 0;
        while i < places.len()
            invariant
                i <= places@.len() == frame.contacts@.len(),
                proposed@ == placed(frame.contacts@, places@, i as nat),
            decreases places@.len() - i,
        {
            let pointer: usize = frame.contacts.at(i).pointer_id as usize;
            proposed[pointer] = Some(places[i]);
            i = i + 1;
        }
        proposed
    }

    /// The touches that move the pointers before one goes up, where it has moved.
    pub fn move_first(&self, frame: &TouchFrame, places: &Vec<ActiveContact>) -> (touches: Option<
        Vec<TouchInfo>,
    >)
        requires
            places@.len() == frame.contacts@.len(),
        ensures
            ({
                let proposed = placed(frame.contacts@, places@, places@.len());
                match touches {
                    Some(touches) => moves_before_up(self@, proposed, frame@) && touches@ == moved(
                        self@,
                        proposed,
                        POINTER_ID_COUNT as nat,
                    ),
                    None => !moves_before_up(self@, proposed, frame@),
                }
            }),
    {
        let proposed: [Option<ActiveContact>; 256] = TouchInjector::proposed(frame, places);
        let pointer: usize = frame.action_pointer_id as usize;
        let moves: bool = frame.action == ACTION_UP && match (
            self.active[pointer],
            proposed[pointer],
        ) {
            (Some(previous), Some(next)) => previous.x != next.x || previous.y != next.y,
            _ => false,
        };
        if !moves {
            return None;
        }
        Some(self.moves(&proposed))
    }

    /// The pointers that are and will be on the screen, at their new places.
    fn moves(&self, proposed: &[Option<ActiveContact>; 256]) -> (touches: Vec<TouchInfo>)
        ensures
            touches@ == moved(self@, proposed@, POINTER_ID_COUNT as nat),
    {
        let mut touches: Vec<TouchInfo> = Vec::new();
        let mut p: usize = 0;
        while p < POINTER_ID_COUNT
            invariant
                p <= POINTER_ID_COUNT,
                touches@ == moved(self@, proposed@, p as nat),
            decreases POINTER_ID_COUNT - p,
        {
            if let Some(contact) = proposed[p] {
                if self.active[p].is_some() {
                    touches.push(TouchInfo { pointer_id: p as u8, contact, flags: FLAGS_UPDATE });
                }
            }
            p = p + 1;
        }
        touches
    }

    /// The pointers have moved to where the snapshot puts them.
    pub fn moved_first(&mut self, frame: &TouchFrame, places: &Vec<ActiveContact>)
        requires
            places@.len() == frame.contacts@.len(),
        ensures
            final(self)@ == placed(frame.contacts@, places@, places@.len()),
    {
        self.active = TouchInjector::proposed(frame, places);
    }

    /// The touches that lead from what is on the screen to the snapshot: first what it
    /// omits, then its contacts in their order.
    pub fn placement(&self, frame: &TouchFrame, places: &Vec<ActiveContact>) -> (touches: Vec<
        TouchInfo,
    >)
        requires
            places@.len() == frame.contacts@.len(),
        ensures
            ({
                let proposed = placed(frame.contacts@, places@, places@.len());
                touches@ == gone(self@, proposed, POINTER_ID_COUNT as nat) + transitions(
                    self@,
                    proposed,
                    frame.contacts@,
                    frame.contacts@.len(),
                )
            }),
    {
        let proposed: [Option<ActiveContact>; 256] = TouchInjector::proposed(frame, places);
        let mut touches: Vec<TouchInfo> = Vec::new();
        let mut p: usize = 0;
        while p < POINTER_ID_COUNT
            invariant
                p <= POINTER_ID_COUNT,
                touches@ == gone(self@, proposed@, p as nat),
            decreases POINTER_ID_COUNT - p,
        {
            if let Some(contact) = self.active[p] {
                if proposed[p].is_none() {
                    touches.push(TouchInfo { pointer_id: p as u8, contact, flags: POINTER_FLAG_UP });
                }
            }
            p = p + 1;
        }
        let ghost first = touches@;
        let mut i: usize = 0;
        assert(touches@ =~= first + transitions(self@, proposed@, frame.contacts@, 0));
        while i < frame.contacts.len()
            invariant
                i <= frame.contacts@.len(),
                places@.len() == frame.contacts@.len(),
                proposed@ == placed(frame.contacts@, places@, places@.len()),
                touches@ == first + transitions(self@, proposed@, frame.contacts@, i as nat),
            decreases frame.contacts@.len() - i,
        {
            let contact: Contact = frame.contacts.at(i);
            let pointer: usize = contact.pointer_id as usize;
            proof {
                named_pointers_are_placed(frame.contacts@, places@, places@.len(), i as int);
            }
            let ghost before = touches@;
            if let Some(flags) = transition_flags(
                self.active[pointer].is_some(),
                contact.touching(),
            ) {
                if let Some(place) = proposed[pointer] {
                    touches.push(TouchInfo { pointer_id: contact.pointer_id, contact: place, flags });
                }
            }
            i = i + 1;
            assert(touches@ =~= first + transitions(
                self@,
                proposed@,
                frame.contacts@,
                i as nat,
            ));
        }
        touches
    }

    /// The snapshot is on the screen: of its pointers, those that touch stay.
    pub fn commit(&mut self, frame: &TouchFrame, places: &Vec<ActiveContact>)
        requires
            places@.len() == frame.contacts@.len(),
        ensures
            final(self)@ == remaining(
                frame.contacts@,
                placed(frame.contacts@, places@, places@.len()),
                frame.contacts@.len(),
            ),
    {
        let proposed: [Option<ActiveContact>; 256] = TouchInjector::proposed(frame, places);
        let mut active: [Option<ActiveContact>; 256] = [None; 256];
        assert(active@ =~= Seq::new(POINTER_ID_COUNT as nat, |p: int| None::<ActiveContact>));
        let mut i: usize = 0;
        while i < frame.contacts.len()
            invariant
                i <= frame.contacts@.len(),
                active@ == remaining(frame.contacts@, proposed@, i as nat),
            decreases frame.contacts@.len() - i,
        {
            let contact: Contact = frame.contacts.at(i);
            if contact.touching() {
                let pointer: usize = contact.pointer_id as usize;
                active[pointer] = proposed[pointer];
            }
            i = i + 1;
        }
        self.active = active;
    }

    /// The injection that a frame starts with.
    pub fn first(&self, frame: &TouchFrame, places: &Vec<ActiveContact>) -> (stage: TouchStage)
        requires
            asked(frame@) == TouchStep::Place ==> places@.len() == frame.contacts@.len(),
        ensures
            stage == first_stage(self@, frame@, places@),
    {
        match self.step(frame) {
            TouchStep::Cancel => TouchStage::Cancel,
            TouchStep::Repeat => TouchStage::Repeat,
            TouchStep::Place => match self.move_first(frame, places) {
                Some(_) => TouchStage::MoveFirst,
                None => TouchStage::Place,
            },
        }
    }

    /// What is to be injected.
    pub fn touches(
        &self,
        frame: &TouchFrame,
        places: &Vec<ActiveContact>,
        stage: TouchStage,
    ) -> (touches: Vec<TouchInfo>)
        requires
            stage.places_contacts() ==> places@.len() == frame.contacts@.len(),
        ensures
            touches@ == injection(self@, frame@, places@, stage),
    {
        match stage {
            TouchStage::Cancel => self.cancellation(),
            TouchStage::Repeat => self.repetition(),
            TouchStage::MoveFirst => self.moves(&TouchInjector::proposed(frame, places)),
            TouchStage::Place => self.placement(frame, places),
        }
    }

    /// Takes note of what came of an injection.
    pub fn next(
        &mut self,
        frame: &TouchFrame,
        places: &Vec<ActiveContact>,
        stage: TouchStage,
        injected: bool,
    ) -> (verdict: TouchVerdict)
        requires
            stage.places_contacts() ==> places@.len() == frame.contacts@.len(),
        ensures
            final(self)@ == shown_after(old(self)@, frame@, places@, stage, injected),
            verdict == touch_verdict(stage, injected),
    {
        if !injected {
            return TouchVerdict::Failed;
        }
        match stage {
            TouchStage::Cancel => {
                self.cancelled();
                TouchVerdict::Finished
            },
            TouchStage::Repeat => TouchVerdict::Finished,
            TouchStage::MoveFirst => {
                self.moved_first(frame, places);
                TouchVerdict::Go(TouchStage::Place)
            },
            TouchStage::Place => {
                self.commit(frame, places);
                TouchVerdict::Finished
            },
        }
    }
}

proof fn named_pointers_are_placed(
    contacts: Seq<Contact>,
    places: Seq<ActiveContact>,
    count: nat,
    i: int,
)
    requires
        0 <= i < count <= contacts.len(),
    ensures
        placed(contacts, places, count)[contacts[i].pointer_id as int] is Some,
        placed(contacts, places, count).len() == POINTER_ID_COUNT,
    decreases count,
{
    placed_size(contacts, places, count);
    placed_size(contacts, places, (count - 1) as nat);
    if i < count - 1 {
        named_pointers_are_placed(contacts, places, (count - 1) as nat, i);
    }
}

proof fn placed_size(contacts: Seq<Contact>, places: Seq<ActiveContact>, count: nat)
    requires
        count <= contacts.len(),
    ensures
        placed(contacts, places, count).len() == POINTER_ID_COUNT,
    decreases count,
{
    if count > 0 {
        placed_size(contacts, places, (count - 1) as nat);
    }
}

/// After a snapshot is committed, the pointers on the screen are exactly those that a
/// contact of it touches with.
pub proof fn screen_shows_the_snapshot(
    contacts: Seq<Contact>,
    places: Seq<ActiveContact>,
    count: nat,
    p: int,
)
    requires
        count <= contacts.len(),
        places.len() == contacts.len(),
        0 <= p < POINTER_ID_COUNT,
    ensures
        remaining(contacts, placed(contacts, places, contacts.len()), count).len()
            == POINTER_ID_COUNT,
        remaining(contacts, placed(contacts, places, contacts.len()), count)[p] is Some == exists|
            i: int,
        |
            0 <= i < count && (#[trigger] contacts[i]).pointer_id == p
                && contacts[i].is_touching(),
    decreases count,
{
    let proposed = placed(contacts, places, contacts.len());
    if count > 0 {
        screen_shows_the_snapshot(contacts, places, (count - 1) as nat, p);
        let last = contacts[count - 1];
        named_pointers_are_placed(contacts, places, contacts.len(), count - 1);
        if last.pointer_id == p && last.is_touching() {
            assert(contacts[count - 1].pointer_id == p);
        } else {
            let before = remaining(contacts, proposed, (count - 1) as nat);
            assert(remaining(contacts, proposed, count)[p] == before[p]);
        }
    }
}

/// Whether or not the pointers moved first, a snapshot whose injections all succeed ends
/// with the same screen, and ends after at most two of them.
pub proof fn snapshot_ends_on_the_screen(
    active: Seq<Option<ActiveContact>>,
    frame: FrameView,
    places: Seq<ActiveContact>,
)
    requires
        asked(frame) == TouchStep::Place,
        places.len() == frame.contacts.len(),
    ensures
        ({
            let first = first_stage(active, frame, places);
            let end = remaining(
                frame.contacts,
                placed(frame.contacts, places, places.len()),
                frame.contacts.len(),
            );
            let after = shown_after(active, frame, places, first, true);
            match touch_verdict(first, true) {
                TouchVerdict::Go(next) => next == TouchStage::Place && shown_after(
                    after,
                    frame,
                    places,
                    next,
                    true,
                ) == end && touch_verdict(next, true) == TouchVerdict::Finished,
                TouchVerdict::Finished => after == end,
                TouchVerdict::Failed => false,
            }
        }),
{
}

/// A pointer that has moved when it goes up is moved to its last place first, as one that
/// is still down.
pub proof fn last_move_comes_before_the_up(
    active: Seq<Option<ActiveContact>>,
    frame: FrameView,
    places: Seq<ActiveContact>,
)
    requires
        asked(frame) == TouchStep::Place,
        moves_before_up(active, placed(frame.contacts, places, places.len()), frame),
        places.len() == frame.contacts.len(),
    ensures
        first_stage(active, frame, places) == TouchStage::MoveFirst,
        ({
            let touches = injection(active, frame, places, TouchStage::MoveFirst);
            let place = placed(frame.contacts, places, places.len())[frame.action_pointer_id as int];
            exists|i: int|
                0 <= i < touches.len() && #[trigger] touches[i] == (TouchInfo {
                    pointer_id: frame.action_pointer_id,
                    contact: place->0,
                    flags: FLAGS_UPDATE,
                })
        }),
{
    let proposed = placed(frame.contacts, places, places.len());
    moved_pointer_is_listed(
        active,
        proposed,
        POINTER_ID_COUNT as nat,
        frame.action_pointer_id as int,
    );
    let touches = injection(active, frame, places, TouchStage::MoveFirst);
    let touch = TouchInfo {
        pointer_id: frame.action_pointer_id,
        contact: proposed[frame.action_pointer_id as int]->0,
        flags: FLAGS_UPDATE,
    };
    let i = choose|i: int| 0 <= i < touches.len() && #[trigger] touches[i] == touch;
    assert(touches[i] == touch);
}

proof fn moved_pointer_is_listed(
    active: Seq<Option<ActiveContact>>,
    proposed: Seq<Option<ActiveContact>>,
    count: nat,
    p: int,
)
    requires
        0 <= p < count <= POINTER_ID_COUNT,
        active[p] is Some,
        proposed[p] is Some,
    ensures
        exists|i: int|
            0 <= i < moved(active, proposed, count).len() && #[trigger] moved(
                active,
                proposed,
                count,
            )[i] == (TouchInfo {
                pointer_id: p as u8,
                contact: proposed[p]->0,
                flags: FLAGS_UPDATE,
            }),
    decreases count,
{
    let front = moved(active, proposed, (count - 1) as nat);
    let all = moved(active, proposed, count);
    let touch = TouchInfo { pointer_id: p as u8, contact: proposed[p]->0, flags: FLAGS_UPDATE };
    if p == count - 1 {
        assert(all[front.len() as int] == touch);
    } else {
        moved_pointer_is_listed(active, proposed, (count - 1) as nat, p);
        let i = choose|i: int| 0 <= i < front.len() && #[trigger] front[i] == touch;
        assert(all[i] == touch);
    }
}

/// Cancelling is about exactly the pointers on the screen.
pub proof fn cancellation_covers_the_screen(
    active: Seq<Option<ActiveContact>>,
    flags: u32,
    count: nat,
    p: int,
)
    requires
        count <= POINTER_ID_COUNT,
        0 <= p < count,
    ensures
        active[p] is Some == exists|i: int|
            0 <= i < all_active(active, flags, count).len() && (#[trigger] all_active(
                active,
                flags,
                count,
            )[i]).pointer_id == p,
    decreases count,
{
    let all = all_active(active, flags, count);
    let front = all_active(active, flags, (count - 1) as nat);
    pointers_below(active, flags, (count - 1) as nat);
    if p == count - 1 {
        if active[p] is Some {
            assert(all[front.len() as int].pointer_id == p);
        } else {
            assert(all == front);
        }
    } else {
        cancellation_covers_the_screen(active, flags, (count - 1) as nat, p);
        if active[p] is Some {
            let i = choose|i: int| 0 <= i < front.len() && (#[trigger] front[i]).pointer_id == p;
            assert(all[i] == front[i]);
        } else {
            assert forall|i: int| 0 <= i < all.len() implies (#[trigger] all[i]).pointer_id != p by {
                if i < front.len() {
                    assert(all[i] == front[i]);
                }
            }
        }
    }
}

proof fn pointers_below(active: Seq<Option<ActiveContact>>, flags: u32, count: nat)
    requires
        count <= POINTER_ID_COUNT,
    ensures
        forall|i: int|
            0 <= i < all_active(active, flags, count).len() ==> (#[trigger] all_active(
                active,
                flags,
                count,
            )[i]).pointer_id < count,
    decreases count,
{
    if count > 0 {
        pointers_below(active, flags, (count - 1) as nat);
        let front = all_active(active, flags, (count - 1) as nat);
        let all = all_active(active, flags, count);
        assert forall|i: int| 0 <= i < all.len() implies (#[trigger] all[i]).pointer_id < count by {
            if i < front.len() {
                assert(all[i] == front[i]);
            }
        }
    }
}

/// The list holds this touch, and no other of its pointer.
pub open spec fn once(list: Seq<TouchInfo>, touch: TouchInfo) -> bool {
    exists|i: int|
        0 <= i < list.len() && #[trigger] list[i] == touch && forall|j: int|
            0 <= j < list.len() && j != i ==> (#[trigger] list[j]).pointer_id != touch.pointer_id
}

/// The list holds no touch of the pointer.
pub open spec fn never(list: Seq<TouchInfo>, pointer: int) -> bool {
    forall|i: int| 0 <= i < list.len() ==> (#[trigger] list[i]).pointer_id != pointer
}

proof fn once_joined(front: Seq<TouchInfo>, back: Seq<TouchInfo>, touch: TouchInfo)
    requires
        once(front, touch) && never(back, touch.pointer_id as int) || never(
            front,
            touch.pointer_id as int,
        ) && once(back, touch),
    ensures
        once(front + back, touch),
{
    let all = front + back;
    let n = front.len() as int;
    let first = once(front, touch) && never(back, touch.pointer_id as int);
    let at = if first {
        choose|i: int|
            0 <= i < front.len() && #[trigger] front[i] == touch && forall|j: int|
                0 <= j < front.len() && j != i ==> (#[trigger] front[j]).pointer_id
                    != touch.pointer_id
    } else {
        n + choose|i: int|
            0 <= i < back.len() && #[trigger] back[i] == touch && forall|j: int|
                0 <= j < back.len() && j != i ==> (#[trigger] back[j]).pointer_id
                    != touch.pointer_id
    };
    assert(all[at] == touch);
    assert forall|j: int| 0 <= j < all.len() && j != at implies (#[trigger] all[j]).pointer_id
        != touch.pointer_id by {
        if j < n {
            assert(all[j] == front[j]);
        } else {
            assert(all[j] == back[j - n]);
        }
    }
}

proof fn never_joined(front: Seq<TouchInfo>, back: Seq<TouchInfo>, pointer: int)
    requires
        never(front, pointer),
        never(back, pointer),
    ensures
        never(front + back, pointer),
{
    let all = front + back;
    assert forall|i: int| 0 <= i < all.len() implies (#[trigger] all[i]).pointer_id != pointer by {
        if i < front.len() {
            assert(all[i] == front[i]);
        } else {
            assert(all[i] == back[i - front.len()]);
        }
    }
}

proof fn single(touch: TouchInfo, pointer: int)
    ensures
        once(seq![touch], touch),
        pointer != touch.pointer_id ==> never(seq![touch], pointer),
{
    assert(seq![touch][0] == touch);
}

/// What a list of touches says of one pointer: this, or nothing.
pub open spec fn says(list: Seq<TouchInfo>, pointer: int, touch: Option<TouchInfo>) -> bool {
    match touch {
        Some(touch) => touch.pointer_id == pointer && once(list, touch),
        None => never(list, pointer),
    }
}

/// A list of which each step adds the touch of one pointer, or none.
proof fn says_pushed(
    front: Seq<TouchInfo>,
    all: Seq<TouchInfo>,
    last: int,
    added: Option<TouchInfo>,
    pointer: int,
    touch: Option<TouchInfo>,
)
    requires
        added matches Some(added) ==> added.pointer_id == last,
        all == match added {
            Some(added) => front.push(added),
            None => front,
        },
        pointer == last ==> never(front, pointer) && touch == added,
        pointer != last ==> says(front, pointer, touch),
    ensures
        says(all, pointer, touch),
{
    if let Some(added) = added {
        single(added, pointer);
        assert(all =~= front + seq![added]);
        match touch {
            Some(touch) => {
                if pointer != last {
                    single(added, touch.pointer_id as int);
                }
                once_joined(front, seq![added], touch);
            },
            None => {
                never_joined(front, seq![added], pointer);
            },
        }
    }
}

pub open spec fn touch_of(
    pointer: int,
    contact: Option<ActiveContact>,
    flags: u32,
) -> Option<TouchInfo> {
    match contact {
        Some(contact) => Some(TouchInfo { pointer_id: pointer as u8, contact, flags }),
        None => None,
    }
}

/// Cancelling and repeating tell of every pointer on the screen once, at its place, and of
/// no other.
pub proof fn everything_is_told_once(
    active: Seq<Option<ActiveContact>>,
    flags: u32,
    count: nat,
    pointer: int,
)
    requires
        count <= POINTER_ID_COUNT,
        0 <= pointer < POINTER_ID_COUNT,
    ensures
        says(
            all_active(active, flags, count),
            pointer,
            touch_of(
                pointer,
                if pointer < count {
                    active[pointer]
                } else {
                    None
                },
                flags,
            ),
        ),
    decreases count,
{
    if count > 0 {
        everything_is_told_once(active, flags, (count - 1) as nat, pointer);
        says_pushed(
            all_active(active, flags, (count - 1) as nat),
            all_active(active, flags, count),
            count - 1,
            touch_of(count - 1, active[count - 1], flags),
            pointer,
            touch_of(
                pointer,
                if pointer < count {
                    active[pointer]
                } else {
                    None
                },
                flags,
            ),
        );
    }
}

proof fn moves_told(
    active: Seq<Option<ActiveContact>>,
    proposed: Seq<Option<ActiveContact>>,
    count: nat,
    pointer: int,
)
    requires
        count <= POINTER_ID_COUNT,
        0 <= pointer < POINTER_ID_COUNT,
    ensures
        says(
            moved(active, proposed, count),
            pointer,
            touch_of(
                pointer,
                if pointer < count && active[pointer] is Some {
                    proposed[pointer]
                } else {
                    None
                },
                0x0002_0006,
            ),
        ),
    decreases count,
{
    if count > 0 {
        moves_told(active, proposed, (count - 1) as nat, pointer);
        says_pushed(
            moved(active, proposed, (count - 1) as nat),
            moved(active, proposed, count),
            count - 1,
            touch_of(
                count - 1,
                if active[count - 1] is Some {
                    proposed[count - 1]
                } else {
                    None
                },
                0x0002_0006,
            ),
            pointer,
            touch_of(
                pointer,
                if pointer < count && active[pointer] is Some {
                    proposed[pointer]
                } else {
                    None
                },
                0x0002_0006,
            ),
        );
    }
}

proof fn gone_told(
    active: Seq<Option<ActiveContact>>,
    proposed: Seq<Option<ActiveContact>>,
    count: nat,
    pointer: int,
)
    requires
        count <= POINTER_ID_COUNT,
        0 <= pointer < POINTER_ID_COUNT,
    ensures
        says(
            gone(active, proposed, count),
            pointer,
            touch_of(
                pointer,
                if pointer < count && proposed[pointer] is None {
                    active[pointer]
                } else {
                    None
                },
                0x0004_0000,
            ),
        ),
    decreases count,
{
    if count > 0 {
        gone_told(active, proposed, (count - 1) as nat, pointer);
        says_pushed(
            gone(active, proposed, (count - 1) as nat),
            gone(active, proposed, count),
            count - 1,
            touch_of(
                count - 1,
                if proposed[count - 1] is None {
                    active[count - 1]
                } else {
                    None
                },
                0x0004_0000,
            ),
            pointer,
            touch_of(
                pointer,
                if pointer < count && proposed[pointer] is None {
                    active[pointer]
                } else {
                    None
                },
                0x0004_0000,
            ),
        );
    }
}

/// A contact of the pointer stands at `i` of the snapshot.
pub open spec fn is_contact(contacts: Seq<Contact>, i: int, pointer: int) -> bool {
    0 <= i < contacts.len() && contacts[i].pointer_id == pointer
}

pub open spec fn has_contact(contacts: Seq<Contact>, pointer: int) -> bool {
    exists|i: int| #[trigger] is_contact(contacts, i, pointer)
}

proof fn placed_by_contact(
    contacts: Seq<Contact>,
    places: Seq<ActiveContact>,
    count: nat,
    i: int,
    pointer: int,
)
    requires
        count <= contacts.len(),
        laws::one_each(contacts),
        0 <= pointer < POINTER_ID_COUNT,
    ensures
        is_contact(contacts, i, pointer) && i < count ==> placed(contacts, places, count)[pointer]
            == Some(places[i]),
        (forall|j: int| #[trigger] is_contact(contacts, j, pointer) ==> j >= count) ==> placed(
            contacts,
            places,
            count,
        )[pointer] is None,
    decreases count,
{
    placed_size(contacts, places, count);
    if count > 0 {
        placed_size(contacts, places, (count - 1) as nat);
        placed_by_contact(contacts, places, (count - 1) as nat, i, pointer);
        if contacts[count - 1].pointer_id == pointer {
            assert(is_contact(contacts, count - 1, pointer));
            if is_contact(contacts, i, pointer) && i < count - 1 {
                assert(contacts[i].pointer_id != contacts[count - 1].pointer_id);
            }
        }
    }
}

/// The touch that a snapshot asks for its contact: at the place of the contact, and down,
/// moved or up by whether it touches and was on the screen. One that is up already needs none.
pub open spec fn asked_touch(
    active: Seq<Option<ActiveContact>>,
    contact: Contact,
    place: ActiveContact,
) -> Option<TouchInfo> {
    let pointer = contact.pointer_id;
    let was = active[pointer as int] is Some;
    if contact.is_touching() {
        Some(
            TouchInfo {
                pointer_id: pointer,
                contact: place,
                flags: if was {
                    0x0002_0006
                } else {
                    0x0001_0006
                },
            },
        )
    } else if was {
        Some(TouchInfo { pointer_id: pointer, contact: place, flags: 0x0004_0000 })
    } else {
        None
    }
}

proof fn transitions_told(
    active: Seq<Option<ActiveContact>>,
    contacts: Seq<Contact>,
    places: Seq<ActiveContact>,
    count: nat,
    pointer: int,
)
    requires
        count <= contacts.len(),
        places.len() == contacts.len(),
        laws::one_each(contacts),
        0 <= pointer < POINTER_ID_COUNT,
    ensures
        ({
            let list = transitions(
                active,
                placed(contacts, places, places.len()),
                contacts,
                count,
            );
            &&& forall|i: int| #[trigger]
                is_contact(contacts, i, pointer) && i < count ==> says(
                    list,
                    pointer,
                    asked_touch(active, contacts[i], places[i]),
                )
            &&& (forall|i: int| #[trigger] is_contact(contacts, i, pointer) ==> i >= count)
                ==> never(list, pointer)
        }),
    decreases count,
{
    let proposed = placed(contacts, places, places.len());
    let list = transitions(active, proposed, contacts, count);
    if count > 0 {
        let shorter = (count - 1) as nat;
        transitions_told(active, contacts, places, shorter, pointer);
        let front = transitions(active, proposed, contacts, shorter);
        let last = contacts[count - 1];
        let added = asked_touch(active, last, places[count - 1]);
        assert(is_contact(contacts, count - 1, last.pointer_id as int));
        placed_by_contact(contacts, places, places.len(), count - 1, last.pointer_id as int);
        assert(list == match added {
            Some(added) => front.push(added),
            None => front,
        });
        assert forall|i: int| #[trigger] is_contact(contacts, i, pointer) && i < count implies says(
            list,
            pointer,
            asked_touch(active, contacts[i], places[i]),
        ) by {
            if i == count - 1 {
                assert forall|j: int| #[trigger] is_contact(contacts, j, pointer) implies j
                    >= shorter by {
                    if j < count - 1 {
                        assert(contacts[j].pointer_id != contacts[count - 1].pointer_id);
                    }
                }
            } else {
                assert(contacts[i].pointer_id != contacts[count - 1].pointer_id);
            }
            says_pushed(
                front,
                list,
                last.pointer_id as int,
                added,
                pointer,
                asked_touch(active, contacts[i], places[i]),
            );
        }
        if forall|i: int| #[trigger] is_contact(contacts, i, pointer) ==> i >= count {
            assert(!is_contact(contacts, count - 1, pointer));
            assert(never(front, pointer)) by {
                assert forall|i: int| #[trigger] is_contact(contacts, i, pointer) implies i
                    >= shorter by {}
            }
            says_pushed(front, list, last.pointer_id as int, added, pointer, None);
        }
    }
}

/// Placing a snapshot tells of every contact exactly once, at the place that the snapshot
/// gives it: down, moved or up. Whoever is on the screen and not in the snapshot goes up where
/// it is, and of nobody else is there a touch.
pub proof fn placement_follows_the_snapshot(
    active: Seq<Option<ActiveContact>>,
    frame: FrameView,
    places: Seq<ActiveContact>,
    pointer: int,
)
    requires
        places.len() == frame.contacts.len(),
        laws::one_each(frame.contacts),
        0 <= pointer < POINTER_ID_COUNT,
    ensures
        forall|i: int| #[trigger]
            is_contact(frame.contacts, i, pointer) ==> says(
                injection(active, frame, places, TouchStage::Place),
                pointer,
                asked_touch(active, frame.contacts[i], places[i]),
            ),
        !has_contact(frame.contacts, pointer) ==> says(
            injection(active, frame, places, TouchStage::Place),
            pointer,
            touch_of(pointer, active[pointer], 0x0004_0000),
        ),
{
    let contacts = frame.contacts;
    let proposed = placed(contacts, places, places.len());
    let ups = gone(active, proposed, POINTER_ID_COUNT as nat);
    let rest = transitions(active, proposed, contacts, contacts.len());
    gone_told(active, proposed, POINTER_ID_COUNT as nat, pointer);
    transitions_told(active, contacts, places, contacts.len(), pointer);
    assert forall|i: int| #[trigger] is_contact(contacts, i, pointer) implies says(
        ups + rest,
        pointer,
        asked_touch(active, contacts[i], places[i]),
    ) by {
        placed_by_contact(contacts, places, places.len(), i, pointer);
        match asked_touch(active, contacts[i], places[i]) {
            Some(touch) => {
                once_joined(ups, rest, touch);
            },
            None => {
                never_joined(ups, rest, pointer);
            },
        }
    }
    if !has_contact(contacts, pointer) {
        placed_by_contact(contacts, places, places.len(), 0, pointer);
        match touch_of(pointer, active[pointer], 0x0004_0000) {
            Some(touch) => {
                once_joined(ups, rest, touch);
            },
            None => {
                never_joined(ups, rest, pointer);
            },
        }
    }
}

/// The move before an up takes every pointer that is on the screen and in the snapshot to
/// the place of its contact, and touches no other.
pub proof fn first_move_follows_the_snapshot(
    active: Seq<Option<ActiveContact>>,
    frame: FrameView,
    places: Seq<ActiveContact>,
    pointer: int,
)
    requires
        places.len() == frame.contacts.len(),
        laws::one_each(frame.contacts),
        0 <= pointer < POINTER_ID_COUNT,
    ensures
        forall|i: int| #[trigger]
            is_contact(frame.contacts, i, pointer) ==> says(
                injection(active, frame, places, TouchStage::MoveFirst),
                pointer,
                if active[pointer] is Some {
                    touch_of(pointer, Some(places[i]), 0x0002_0006)
                } else {
                    None
                },
            ),
        !has_contact(frame.contacts, pointer) ==> never(
            injection(active, frame, places, TouchStage::MoveFirst),
            pointer,
        ),
{
    let contacts = frame.contacts;
    let proposed = placed(contacts, places, places.len());
    moves_told(active, proposed, POINTER_ID_COUNT as nat, pointer);
    assert forall|i: int| #[trigger] is_contact(contacts, i, pointer) implies says(
        injection(active, frame, places, TouchStage::MoveFirst),
        pointer,
        if active[pointer] is Some {
            touch_of(pointer, Some(places[i]), 0x0002_0006)
        } else {
            None
        },
    ) by {
        placed_by_contact(contacts, places, places.len(), i, pointer);
    }
    placed_by_contact(contacts, places, places.len(), 0, pointer);
}

/// Cancelling a frame lifts every pointer on the screen where it is, as cancelled, and a
/// heartbeat repeats it there as moved.
pub proof fn screen_is_cancelled_or_repeated(
    active: Seq<Option<ActiveContact>>,
    frame: FrameView,
    places: Seq<ActiveContact>,
    pointer: int,
)
    requires
        0 <= pointer < POINTER_ID_COUNT,
    ensures
        says(
            injection(active, frame, places, TouchStage::Cancel),
            pointer,
            touch_of(pointer, active[pointer], 0x0004_8000),
        ),
        says(
            injection(active, frame, places, TouchStage::Repeat),
            pointer,
            touch_of(pointer, active[pointer], 0x0002_0006),
        ),
{
    everything_is_told_once(active, FLAGS_CANCEL, POINTER_ID_COUNT as nat, pointer);
    everything_is_told_once(active, FLAGS_UPDATE, POINTER_ID_COUNT as nat, pointer);
}

proof fn remaining_by_contact(
    contacts: Seq<Contact>,
    proposed: Seq<Option<ActiveContact>>,
    count: nat,
    i: int,
    pointer: int,
)
    requires
        count <= contacts.len(),
        laws::one_each(contacts),
        0 <= pointer < POINTER_ID_COUNT,
    ensures
        remaining(contacts, proposed, count).len() == POINTER_ID_COUNT,
        is_contact(contacts, i, pointer) && i < count ==> remaining(contacts, proposed, count)[pointer]
            == if contacts[i].is_touching() {
            proposed[pointer]
        } else {
            None
        },
        (forall|j: int| #[trigger] is_contact(contacts, j, pointer) ==> j >= count) ==> remaining(
            contacts,
            proposed,
            count,
        )[pointer] is None,
    decreases count,
{
    if count > 0 {
        remaining_by_contact(contacts, proposed, (count - 1) as nat, i, pointer);
        if contacts[count - 1].pointer_id == pointer {
            assert(is_contact(contacts, count - 1, pointer));
            if is_contact(contacts, i, pointer) && i < count - 1 {
                assert(contacts[i].pointer_id != contacts[count - 1].pointer_id);
            } else if is_contact(contacts, i, pointer) {
                assert forall|j: int| #[trigger] is_contact(contacts, j, pointer) implies j >= count
                    - 1 by {
                    if j < count - 1 {
                        assert(contacts[j].pointer_id != contacts[count - 1].pointer_id);
                    }
                }
            }
        }
    }
}

/// Once a snapshot is placed, each pointer that touches in it is remembered at the place of
/// its contact, and no other is on the screen.
pub proof fn screen_is_as_placed(
    active: Seq<Option<ActiveContact>>,
    frame: FrameView,
    places: Seq<ActiveContact>,
    pointer: int,
)
    requires
        places.len() == frame.contacts.len(),
        laws::one_each(frame.contacts),
        0 <= pointer < POINTER_ID_COUNT,
    ensures
        ({
            let shown = shown_after(active, frame, places, TouchStage::Place, true);
            &&& forall|i: int| #[trigger]
                is_contact(frame.contacts, i, pointer) ==> shown[pointer]
                    == if frame.contacts[i].is_touching() {
                    Some(places[i])
                } else {
                    None
                }
            &&& !has_contact(frame.contacts, pointer) ==> shown[pointer] is None
        }),
        shown_after(active, frame, places, TouchStage::Cancel, true)[pointer] is None,
        shown_after(active, frame, places, TouchStage::Repeat, true) == active,
        forall|stage: TouchStage| #[trigger]
            shown_after(active, frame, places, stage, false) == active,
{
    let contacts = frame.contacts;
    let proposed = placed(contacts, places, places.len());
    assert forall|i: int| #[trigger] is_contact(contacts, i, pointer) implies shown_after(
        active,
        frame,
        places,
        TouchStage::Place,
        true,
    )[pointer] == (if contacts[i].is_touching() {
        Some(places[i])
    } else {
        None
    }) by {
        placed_by_contact(contacts, places, places.len(), i, pointer);
        remaining_by_contact(contacts, proposed, contacts.len(), i, pointer);
    }
    remaining_by_contact(contacts, proposed, contacts.len(), 0, pointer);
}

/// What a frame asks for, by its action and its bits: a start of a session, a cancel or an
/// unlocked surface clears the screen, a heartbeat without contacts repeats it, and anything
/// else places its contacts, after a move where the pointer that goes up has moved.
pub proof fn frames_ask_for(
    active: Seq<Option<ActiveContact>>,
    frame: FrameView,
    places: Seq<ActiveContact>,
)
    requires
        places.len() == frame.contacts.len(),
        laws::one_each(frame.contacts),
    ensures
        first_stage(active, frame, places) == TouchStage::Cancel <==> laws::bit(frame.flags, 1)
            || frame.action == 4 || !laws::bit(frame.flags, 0),
        first_stage(active, frame, places) == TouchStage::Repeat ==> frame.action == 0
            && frame.contacts.len() == 0,
        frame.action == 0 && frame.contacts.len() == 0 ==> first_stage(active, frame, places)
            == TouchStage::Repeat || first_stage(active, frame, places) == TouchStage::Cancel,
        first_stage(active, frame, places) == TouchStage::MoveFirst ==> frame.action == 3,
        forall|i: int| #[trigger]
            is_contact(frame.contacts, i, frame.action_pointer_id as int) && frame.action == 3
                && first_stage(active, frame, places) != TouchStage::Cancel ==> (first_stage(
                active,
                frame,
                places,
            ) == TouchStage::MoveFirst <==> (active[frame.action_pointer_id as int] matches Some(
                was,
            ) && (was.x != places[i].x || was.y != places[i].y))),
        !has_contact(frame.contacts, frame.action_pointer_id as int) ==> first_stage(
            active,
            frame,
            places,
        ) != TouchStage::MoveFirst,
{
    laws::frame_flags_mean(frame);
    let pointer = frame.action_pointer_id as int;
    assert forall|i: int| #[trigger] is_contact(frame.contacts, i, pointer) implies placed(
        frame.contacts,
        places,
        places.len(),
    )[pointer] == Some(places[i]) by {
        placed_by_contact(frame.contacts, places, places.len(), i, pointer);
    }
    placed_by_contact(frame.contacts, places, places.len(), 0, pointer);
}

} // verus!
