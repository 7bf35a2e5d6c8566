//! The touch probe: what a window saw of the touches that were injected.
use crate::text;
use vstd::prelude::*;
use vstd::string::*;

verus! {

pub const LANE_COUNT: i32 = 6;

pub const HEADER_HEIGHT: i32 = 96;

/// How many of the last messages are shown.
pub const RECENT: usize = 4;

#[derive(Clone, Copy, Debug, PartialEq, Eq, Structural)]
pub enum PointerMessage {
    Down,
    Update,
    Up,
}

#[derive(Clone, Copy, Debug, PartialEq, Eq, Structural)]
pub struct Point {
    pub x: i32,
    pub y: i32,
}

/// A pointer that is down.
#[derive(Clone, Copy, Debug, PartialEq, Eq, Structural)]
pub struct ActivePointer {
    pub id: u32,
    pub point: Point,
}

#[verifier::ext_equal]
pub struct ProbeView {
    pub active: Map<u32, Point>,
    pub down_count: u64,
    pub update_count: u64,
    pub up_count: u64,
    /// The last messages, newest first.
    pub recent: Seq<Seq<char>>,
}

/// `s` with spaces before it up to `width`.
pub open spec fn padded_left(s: Seq<char>, width: nat) -> Seq<char> {
    if s.len() >= width {
        s
    } else {
        Seq::new((width - s.len()) as nat, |i: int| ' ') + s
    }
}

impl PointerMessage {
    pub open spec fn label(self) -> Seq<char> {
        match self {
            PointerMessage::Down => "DOWN  "@,
            PointerMessage::Update => "UPDATE"@,
            PointerMessage::Up => "UP    "@,
        }
    }
}

/// A message as one line.
pub open spec fn message_line(message: PointerMessage, id: u32, point: Point) -> Seq<char> {
    message.label() + " id="@ + padded_left(text::decimal(id as nat), 2) + "  x="@ + padded_left(
        text::signed_decimal(point.x as int),
        4,
    ) + " y="@ + padded_left(text::signed_decimal(point.y as int), 4)
}

impl ProbeView {
    pub open spec fn empty() -> ProbeView {
        ProbeView {
            active: Map::empty(),
            down_count: 0,
            update_count: 0,
            up_count: 0,
            recent: seq![],
        }
    }

    /// The messages with one more, as far as they are shown.
    pub open spec fn shown(self, line: Seq<char>) -> Seq<Seq<char>> {
        let all = seq![line] + self.recent;
        if all.len() > RECENT {
            all.take(RECENT as int)
        } else {
            all
        }
    }

    pub open spec fn received(self, message: PointerMessage, id: u32, point: Point) -> ProbeView {
        let recent = self.shown(message_line(message, id, point));
        match message {
            PointerMessage::Down => ProbeView {
                down_count: (self.down_count + 1) as u64,
                active: self.active.insert(id, point),
                recent,
                ..self
            },
            PointerMessage::Update => ProbeView {
                update_count: (self.update_count + 1) as u64,
                active: self.active.insert(id, point),
                recent,
                ..self
            },
            PointerMessage::Up => ProbeView {
                up_count: (self.up_count + 1) as u64,
                active: self.active.remove(id),
                recent,
                ..self
            },
        }
    }
}

/// What the probe has seen.
pub struct ProbeState {
    /// In the order of their numbers.
    active: Vec<ActivePointer>,
    down_count: u64,
    update_count: u64,
    up_count: u64,
    recent: Vec<String>,
}

pub open spec fn holds_pointer(active: Seq<ActivePointer>, id: u32) -> bool {
    exists|i: int| 0 <= i < active.len() && (#[trigger] active[i]).id == id
}

pub open spec fn position(active: Seq<ActivePointer>, id: u32) -> int {
    choose|i: int| 0 <= i < active.len() && (#[trigger] active[i]).id == id
}

pub open spec fn pointers(active: Seq<ActivePointer>) -> Map<u32, Point> {
    Map::new(|id: u32| holds_pointer(active, id), |id: u32| active[position(active, id)].point)
}

pub open spec fn ascending(active: Seq<ActivePointer>) -> bool {
    forall|i: int, j: int|
        0 <= i < j < active.len() ==> (#[trigger] active[i]).id < (#[trigger] active[j]).id
}

impl View for ProbeState {
    type V = ProbeView;

    closed spec fn view(&self) -> ProbeView {
        ProbeView {
            active: pointers(self.active@),
            down_count: self.down_count,
            update_count: self.update_count,
            up_count: self.up_count,
            recent: text::texts(self.recent@),
        }
    }
}

fn push_spaces(out: &mut String, count: usize)
    ensures
        final(out)@ == old(out)@ + Seq::new(count as nat, |i: int| ' '),
{
    let mut i: usize = 0;
    assert(out@ =~= old(out)@ + Seq::new(0, |i: int| ' '));
    while i < count
        invariant
            i <= count,
            out@ == old(out)@ + Seq::new(i as nat, |i: int| ' '),
        decreases count - i,
    {
        proof {
            reveal_strlit(" ");
        }
        out.append(" ");
        i = i + 1;
        assert(out@ =~= old(out)@ + Seq::new(i as nat, |i: int| ' '));
    }
}

fn push_right_aligned(out: &mut String, n: i64, width: usize)
    ensures
        final(out)@ == old(out)@ + padded_left(text::signed_decimal(n as int), width as nat),
{
    let mut digits: String = String::new();
    text::push_signed(&mut digits, n);
    assert(digits@ =~= text::signed_decimal(n as int));
    let length: usize = text::chars_of(digits.as_str()).len();
    if length < width {
        push_spaces(out, width - length);
    }
    out.append(digits.as_str());
    assert(out@ =~= old(out)@ + padded_left(text::signed_decimal(n as int), width as nat));
}

fn line_of(message: PointerMessage, id: u32, point: Point) -> (line: String)
    ensures
        line@ == message_line(message, id, point),
{
    let mut line: String = match message {
        PointerMessage::Down => "DOWN  ".to_owned(),
        PointerMessage::Update => "UPDATE".to_owned(),
        PointerMessage::Up => "UP    ".to_owned(),
    };
    line.append(" id=");
    push_right_aligned(&mut line, id as i64, 2);
    line.append("  x=");
    push_right_aligned(&mut line, point.x as i64, 4);
    line.append(" y=");
    push_right_aligned(&mut line, point.y as i64, 4);
    line
}

impl ProbeState {
    pub closed spec fn wf(&self) -> bool {
        ascending(self.active@) && self.recent@.len() <= RECENT
    }

    /// That no count is at its end.
    pub open spec fn has_room(&self) -> bool {
        self@.down_count < u64::MAX && self@.update_count < u64::MAX && self@.up_count < u64::MAX
    }

    pub fn new() -> (state: ProbeState)
        ensures
            state.wf(),
            state@ == ProbeView::empty(),
    {
        let state = ProbeState {
            active: Vec::new(),
            down_count: 0,
            update_count: 0,
            up_count: 0,
            recent: Vec::new(),
        };
        assert(state@ =~= ProbeView::empty());
        state
    }

    /// Where a pointer stands, or would stand.
    fn place(&self, id: u32) -> (place: usize)
        requires
            self.wf(),
        ensures
            place <= self.active@.len(),
            forall|i: int| 0 <= i < place ==> (#[trigger] self.active@[i]).id < id,
            forall|i: int| place <= i < self.active@.len() ==> (#[trigger] self.active@[i]).id >= id,
    {
        let mut place: usize = 0;
        while place < self.active.len() && self.active[place].id < id
            invariant
                place <= self.active@.len(),
                forall|i: int| 0 <= i < place ==> (#[trigger] self.active@[i]).id < id,
            decreases self.active@.len() - place,
        {
            place = place + 1;
        }
        place
    }

    fn set_pointer(&mut self, id: u32, point: Point)
        requires
            old(self).wf(),
        ensures
            final(self).wf(),
            final(self)@ == (ProbeView { active: old(self)@.active.insert(id, point), ..old(self)@ }),
    {
        let place: usize = self.place(id);
        let pointer = ActivePointer { id, point };
        let ghost before = self.active@;
        if place < self.active.len() && self.active[place].id == id {
            self.active.set(place, pointer);
            proof {
                assert(self.active@ =~= before.update(place as int, pointer));
                pointer_at(self.active@, place as int);
                assert forall|other: u32| holds_pointer(self.active@, other)
                    == holds_pointer(before, other) by {
                    if holds_pointer(before, other) {
                        assert(self.active@[position(before, other)].id == other);
                    }
                    if holds_pointer(self.active@, other) {
                        assert(before[position(self.active@, other)].id == other);
                    }
                }
                assert forall|other: u32| #[trigger]
                    pointers(self.active@).dom().contains(other) && other != id implies pointers(
                    self.active@,
                )[other] == pointers(before)[other] by {
                    let i = position(self.active@, other);
                    pointer_at(self.active@, i);
                    pointer_at(before, i);
                }
            }
        } else {
            self.active.insert(place, pointer);
            proof {
                let after = self.active@;
                assert(after =~= before.insert(place as int, pointer));
                assert forall|i: int, j: int| 0 <= i < j < after.len() implies (
                #[trigger] after[i]).id < (#[trigger] after[j]).id by {
                    let k = if i < place {
                        i
                    } else {
                        i - 1
                    };
                    let l = if j < place {
                        j
                    } else {
                        j - 1
                    };
                    if i != place && j != place {
                        assert(before[k].id < before[l].id);
                    }
                    if j == place {
                        assert(before[i].id < id);
                    }
                    if i == place {
                        assert(before[l].id >= id);
                    }
                }
                assert(after[place as int] == pointer);
                pointer_at(after, place as int);
                assert forall|other: u32| other != id implies #[trigger] holds_pointer(after, other)
                    == holds_pointer(before, other) by {
                    if holds_pointer(before, other) {
                        let i = position(before, other);
                        let j = if i < place {
                            i
                        } else {
                            i + 1
                        };
                        assert(after[j].id == other);
                    }
                    if holds_pointer(after, other) {
                        let i = position(after, other);
                        let j = if i < place {
                            i
                        } else {
                            i - 1
                        };
                        assert(before[j].id == other);
                    }
                }
                assert forall|other: u32| #[trigger]
                    pointers(after).dom().contains(other) && other != id implies pointers(
                    after,
                )[other] == pointers(before)[other] by {
                    let i = position(after, other);
                    let j = if i < place {
                        i
                    } else {
                        i - 1
                    };
                    pointer_at(after, i);
                    pointer_at(before, j);
                }
            }
        }
        assert(pointers(self.active@) =~= pointers(before).insert(id, point));
    }

    fn drop_pointer(&mut self, id: u32)
        requires
            old(self).wf(),
        ensures
            final(self).wf(),
            final(self)@ == (ProbeView { active: old(self)@.active.remove(id), ..old(self)@ }),
    {
        let place: usize = self.place(id);
        let ghost before = self.active@;
        if place < self.active.len() && self.active[place].id == id {
            let _gone: ActivePointer = self.active.remove(place);
            proof {
                let after = self.active@;
                assert(after =~= before.remove(place as int));
                assert forall|i: int, j: int| 0 <= i < j < after.len() implies (
                #[trigger] after[i]).id < (#[trigger] after[j]).id by {
                    let k = if i < place {
                        i
                    } else {
                        i + 1
                    };
                    let l = if j < place {
                        j
                    } else {
                        j + 1
                    };
                    assert(before[k].id < before[l].id);
                }
                assert forall|other: u32| #[trigger] holds_pointer(after, other) == (holds_pointer(
                    before,
                    other,
                ) && other != id) by {
                    if holds_pointer(before, other) && other != id {
                        let i = position(before, other);
                        let j = if i < place {
                            i
                        } else {
                            i - 1
                        };
                        assert(after[j].id == other);
                    }
                    if holds_pointer(after, other) {
                        let i = position(after, other);
                        let j = if i < place {
                            i
                        } else {
                            i + 1
                        };
                        assert(before[j].id == other);
                        assert(before[place as int].id == id);
                        if j < place {
                            assert(before[j].id < before[place as int].id);
                        } else {
                            assert(before[place as int].id < before[j].id);
                        }
                    }
                }
                assert forall|other: u32| #[trigger]
                    pointers(after).dom().contains(other) implies pointers(after)[other]
                    == pointers(before)[other] by {
                    let i = position(after, other);
                    let j = if i < place {
                        i
                    } else {
                        i + 1
                    };
                    pointer_at(after, i);
                    pointer_at(before, j);
                }
            }
        } else {
            proof {
                if holds_pointer(before, id) {
                    let i = position(before, id);
                    assert(before[i].id == id);
                    assert(before[place as int].id >= id);
                    if place < i {
                        assert(before[place as int].id < before[i].id);
                    }
                }
            }
        }
        assert(pointers(self.active@) =~= pointers(before).remove(id));
    }

    fn show(&mut self, line: String)
        requires
            old(self).wf(),
        ensures
            final(self).wf(),
            final(self)@ == (ProbeView { recent: old(self)@.shown(line@), ..old(self)@ }),
    {
        let ghost before = text::texts(self.recent@);
        self.recent.insert(0, line);
        assert(text::texts(self.recent@) =~= seq![line@] + before);
        if self.recent.len() > RECENT {
            self.recent.truncate(RECENT);
            assert(text::texts(self.recent@) =~= (seq![line@] + before).take(RECENT as int));
        }
    }

    /// Takes note of a message.
    pub fn receive_pointer(&mut self, message: PointerMessage, id: u32, point: Point)
        requires
            old(self).wf(),
            old(self).has_room(),
        ensures
            final(self).wf(),
            final(self)@ == old(self)@.received(message, id, point),
    {
        match message {
            PointerMessage::Down => {
                self.down_count = self.down_count + 1;
                self.set_pointer(id, point);
            },
            PointerMessage::Update => {
                self.update_count = self.update_count + 1;
                self.set_pointer(id, point);
            },
            PointerMessage::Up => {
                self.up_count = self.up_count + 1;
                self.drop_pointer(id);
            },
        }
        self.show(line_of(message, id, point));
        assert(self@ =~= old(self)@.received(message, id, point));
    }

    /// The pointers that are down, in the order of their numbers.
    pub fn active(&self) -> (active: &Vec<ActivePointer>)
        requires
            self.wf(),
        ensures
            ascending(active@),
            pointers(active@) == self@.active,
    {
        &self.active
    }

    pub fn recent(&self) -> (recent: &Vec<String>)
        ensures
            text::texts(recent@) == self@.recent,
    {
        &self.recent
    }

    /// The line of counts.
    pub fn summary(&self) -> (line: String)
        requires
            self.wf(),
        ensures
            line@ == "WM_POINTER  active "@ + text::decimal(self@.active.dom().len()) + "   down "@
                + text::decimal(self@.down_count as nat) + "   update "@ + text::decimal(
                self@.update_count as nat,
            ) + "   up "@ + text::decimal(self@.up_count as nat),
    {
        let mut line: String = "WM_POINTER  active ".to_owned();
        text::push_decimal(&mut line, self.active.len() as u128);
        line.append("   down ");
        text::push_decimal(&mut line, self.down_count as u128);
        line.append("   update ");
        text::push_decimal(&mut line, self.update_count as u128);
        line.append("   up ");
        text::push_decimal(&mut line, self.up_count as u128);
        proof {
            pointer_count(self.active@);
        }
        line
    }
}

proof fn pointer_at(active: Seq<ActivePointer>, i: int)
    requires
        ascending(active),
        0 <= i < active.len(),
    ensures
        holds_pointer(active, active[i].id),
        position(active, active[i].id) == i,
        pointers(active)[active[i].id] == active[i].point,
{
    let id = active[i].id;
    let j = position(active, id);
    assert(active[j].id == id);
    if j < i {
        assert(active[j].id < active[i].id);
    }
    if i < j {
        assert(active[i].id < active[j].id);
    }
}

proof fn pointer_count(active: Seq<ActivePointer>)
    requires
        ascending(active),
    ensures
        pointers(active).dom().finite(),
        pointers(active).dom().len() == active.len(),
    decreases active.len(),
{
    if active.len() == 0 {
        assert(pointers(active).dom() =~= Set::<u32>::empty());
    } else {
        let front = active.drop_last();
        let last = active.last().id;
        assert forall|i: int, j: int| 0 <= i < j < front.len() implies (#[trigger] front[i]).id < (
        #[trigger] front[j]).id by {
            assert(active[i].id < active[j].id);
        }
        pointer_count(front);
        assert forall|id: u32| #[trigger] holds_pointer(active, id) == (holds_pointer(front, id)
            || id == last) by {
            if holds_pointer(active, id) {
                let i = position(active, id);
                if i < front.len() {
                    assert(front[i].id == id);
                }
            }
            if holds_pointer(front, id) {
                assert(active[position(front, id)].id == id);
            }
            assert(active[active.len() - 1].id == last);
        }
        assert(!holds_pointer(front, last)) by {
            if holds_pointer(front, last) {
                let i = position(front, last);
                assert(active[i].id < active[active.len() - 1].id);
            }
        }
        assert(pointers(active).dom() =~= pointers(front).dom().insert(last));
    }
}

/// A colour as the window system takes it.
pub fn rgb(red: u32, green: u32, blue: u32) -> (colour: u32)
    requires
        red < 256,
        green < 256,
        blue < 256,
    ensures
        colour == red + green * 0x100 + blue * 0x1_0000,
{
    red + green * 0x100 + blue * 0x1_0000
}

/// The left and the right edge of a lane in a window of some width; the last lane takes
/// what is left over.
pub fn lane_edges(client_right: i32, lane: i32) -> (edges: (i32, i32))
    requires
        0 <= lane < LANE_COUNT,
    ensures
        ({
            let width = if client_right < LANE_COUNT {
                1
            } else {
                client_right as int / 6
            };
            &&& edges.0 == lane * width
            &&& edges.1 == if lane == LANE_COUNT - 1 {
                client_right as int
            } else {
                (lane + 1) * width
            }
        }),
{
    let width: i32 = if client_right < LANE_COUNT {
        1
    } else {
        client_right / LANE_COUNT
    };
    assert(lane * width <= 6 * width && (lane + 1) * width <= 6 * width && 0 <= lane * width
        && (lane + 1) * width == lane * width + width) by (nonlinear_arith)
        requires
            0 <= lane < 6,
            0 < width,
    ;
    let left: i32 = lane * width;
    let right: i32 = if lane == LANE_COUNT - 1 {
        client_right
    } else {
        left + width
    };
    (left, right)
}

/// A pointer is where its last message put it, until it goes up; a message moves no other
/// pointer. Every message is counted once, under its own kind.
pub proof fn pointers_follow_their_messages(
    view: ProbeView,
    message: PointerMessage,
    id: u32,
    point: Point,
    other: u32,
)
    requires
        view.down_count < u64::MAX,
        view.update_count < u64::MAX,
        view.up_count < u64::MAX,
    ensures
        ({
            let now = view.received(message, id, point);
            let one = |kind: PointerMessage|
                if message == kind {
                    1int
                } else {
                    0
                };
            &&& now.active.dom().contains(id) == (message != PointerMessage::Up)
            &&& message != PointerMessage::Up ==> now.active[id] == point
            &&& other != id ==> now.active.dom().contains(other) == view.active.dom().contains(other)
            &&& other != id && view.active.dom().contains(other) ==> now.active[other]
                == view.active[other]
            &&& now.down_count == view.down_count + one(PointerMessage::Down)
            &&& now.update_count == view.update_count + one(PointerMessage::Update)
            &&& now.up_count == view.up_count + one(PointerMessage::Up)
        }),
{
}

/// The last four messages are shown, the newest first.
pub proof fn last_messages_are_shown(
    view: ProbeView,
    message: PointerMessage,
    id: u32,
    point: Point,
    i: int,
)
    requires
        view.recent.len() <= 4,
    ensures
        ({
            let now = view.received(message, id, point).recent;
            &&& now.len() == if view.recent.len() < 4 {
                view.recent.len() + 1
            } else {
                4
            }
            &&& now[0] == message_line(message, id, point)
            &&& 0 < i < now.len() ==> now[i] == view.recent[i - 1]
        }),
{
}

/// What stands right-aligned keeps its text, behind blanks that fill the width and no more.
pub proof fn alignment_adds_only_blanks(s: Seq<char>, width: nat, i: int)
    ensures
        padded_left(s, width).len() == if s.len() < width {
            width
        } else {
            s.len()
        },
        padded_left(s, width).skip(padded_left(s, width).len() - s.len()) == s,
        0 <= i < width - s.len() ==> padded_left(s, width)[i] == ' ',
{
    let all = padded_left(s, width);
    assert(all.skip(all.len() - s.len()) =~= s);
}

/// The labels of messages are of one width, so that the lines stand in columns.
pub proof fn labels_are_of_one_width(message: PointerMessage)
    ensures
        message.label().len() == 6,
        message.label()[0] == if message == PointerMessage::Down {
            'D'
        } else {
            'U'
        },
        (message.label()[2] == 'D') == (message == PointerMessage::Update),
{
    reveal_strlit("DOWN  ");
    reveal_strlit("UPDATE");
    reveal_strlit("UP    ");
}

} // verus!
