//! The keys that are down, and the frame on its way to the operating system.
use crate::keyboard::keys;
use crate::keyboard::keys::{validate_lane_keys, KeyError};
use crate::keyboard::laws;
use crate::keyboard::plan;
use crate::keyboard::plan::{plan_frame, KeyChange, KeyboardState, PlanView, POINTER_ID_COUNT};
use crate::protocol;
use crate::protocol::frame::{FrameView, TouchFrame, ACTION_CANCEL, ACTION_HEARTBEAT};
use crate::protocol::Contact;
use crate::text;
use crate::text::push_decimal;
use vstd::prelude::*;
use vstd::string::*;

verus! {

/// Why a frame or a submission is refused.
#[derive(Clone, Copy, Debug, PartialEq, Eq, Structural)]
pub enum SinkError {
    /// The frame of this sequence is not wholly applied yet.
    StillPending(u64),
    /// More events were accepted than there were.
    TooMany { accepted: usize, requested: usize },
    /// Only some of the events were accepted.
    Incomplete { accepted: usize, requested: usize },
}

impl SinkError {
    /// The text for a reader.
    pub open spec fn wording(self) -> Seq<char> {
        match self {
            SinkError::StillPending(sequence) => "sequence "@ + text::decimal(sequence as nat)
                + " is still partially applied"@,
            SinkError::TooMany { accepted, requested } => "input submission accepted "@
                + text::decimal(accepted as nat) + " of "@ + text::decimal(requested as nat)
                + " requested events"@,
            SinkError::Incomplete { accepted, requested } => "input submission accepted "@
                + text::decimal(accepted as nat) + " of "@ + text::decimal(requested as nat)
                + " requested events"@,
        }
    }

    pub fn message(&self) -> (message: String)
        ensures
            message@ == self.wording(),
    {
        match *self {
            SinkError::StillPending(sequence) => {
                let mut message: String = "sequence ".to_owned();
                push_decimal(&mut message, sequence as u128);
                message.append(" is still partially applied");
                message
            },
            SinkError::TooMany { accepted, requested } => counted_message(accepted, requested),
            SinkError::Incomplete { accepted, requested } => counted_message(accepted, requested),
        }
    }
}

fn counted_message(accepted: usize, requested: usize) -> (message: String)
    ensures
        message@ == "input submission accepted "@ + text::decimal(accepted as nat) + " of "@
            + text::decimal(requested as nat) + " requested events"@,
{
    let mut message: String = "input submission accepted ".to_owned();
    push_decimal(&mut message, accepted as u128);
    message.append(" of ");
    push_decimal(&mut message, requested as u128);
    message.append(" requested events");
    message
}

/// What is to be done with the operating system's input queue.
#[derive(Clone, Copy, Debug, PartialEq, Eq, Structural)]
pub enum Step {
    /// Nothing: the frame is applied.
    Done,
    /// Events that are half written are to be discarded, then all keys released.
    Release,
    /// The remaining changes are to be submitted.
    Submit,
}

/// The changes on their way.
#[verifier::ext_equal]
pub enum PendingView {
    Idle,
    /// A frame: where it leads, and how many of its changes are applied.
    Frame {
        sequence: u64,
        pointers: Seq<Option<usize>>,
        holds: Seq<u16>,
        changes: Seq<KeyChange>,
        applied: nat,
    },
    Release { changes: Seq<KeyChange> },
}

/// What a sink holds.
#[verifier::ext_equal]
pub struct SinkView {
    pub pointers: Seq<Option<usize>>,
    pub holds: Seq<u16>,
    /// The keys that are down.
    pub pressed: Seq<bool>,
    pub pending: PendingView,
}

/// A frame after which no key is held: it starts a session, cancels, or finds the
/// surface unlocked.
pub open spec fn releases(frame: FrameView) -> bool {
    frame.starts_session() || frame.action == ACTION_CANCEL || !frame.is_locked()
}

/// The releases of the first `count` keys that are down, in the order of the lanes.
pub open spec fn release_changes(pressed: Seq<bool>, count: nat) -> Seq<KeyChange>
    decreases count,
{
    if count == 0 {
        seq![]
    } else {
        let front = release_changes(pressed, (count - 1) as nat);
        if pressed[count - 1] {
            front.push(KeyChange { lane: (count - 1) as usize, down: false })
        } else {
            front
        }
    }
}

impl SinkView {
    pub open spec fn fresh(lanes: nat) -> SinkView {
        SinkView {
            pointers: Seq::new(POINTER_ID_COUNT as nat, |p: int| None::<usize>),
            holds: Seq::new(lanes, |lane: int| 0u16),
            pressed: Seq::new(lanes, |lane: int| false),
            pending: PendingView::Idle,
        }
    }

    /// No finger on any lane.
    pub open spec fn cleared(self) -> SinkView {
        SinkView {
            pointers: Seq::new(POINTER_ID_COUNT as nat, |p: int| None::<usize>),
            holds: Seq::new(self.holds.len(), |lane: int| 0u16),
            pending: PendingView::Idle,
            ..self
        }
    }

    /// The frame planned, none of its changes applied yet.
    pub open spec fn frame_planned(self, frame: FrameView) -> SinkView {
        let plan = plan::planned(
            self.pointers,
            self.holds,
            frame.contacts,
            frame.action_pointer_id,
        );
        SinkView {
            pending: PendingView::Frame {
                sequence: frame.sequence,
                pointers: plan.pointers,
                holds: plan.holds,
                changes: plan.changes,
                applied: 0,
            },
            ..self
        }
    }

    /// A pending frame with nothing left to apply becomes the state.
    pub open spec fn committed(self) -> SinkView {
        match self.pending {
            PendingView::Frame { sequence, pointers, holds, changes, applied } => SinkView {
                pointers,
                holds,
                pending: PendingView::Idle,
                ..self
            },
            _ => self,
        }
    }

    pub open spec fn remaining(self) -> Seq<KeyChange> {
        match self.pending {
            PendingView::Idle => seq![],
            PendingView::Frame { sequence, pointers, holds, changes, applied } => changes.subrange(
                applied as int,
                changes.len() as int,
            ),
            PendingView::Release { changes } => changes,
        }
    }

    /// The state after a frame is offered, and what is to be done.
    pub open spec fn accepted(self, frame: FrameView) -> (SinkView, Result<Step, SinkError>) {
        if releases(frame) {
            (self, Ok(Step::Release))
        } else if frame.action == ACTION_HEARTBEAT && frame.contacts.len() == 0 {
            (self, Ok(Step::Done))
        } else if self.pending is Frame && self.pending->sequence != frame.sequence {
            (self, Err(SinkError::StillPending(self.pending->sequence)))
        } else {
            let planned = if self.pending is Frame {
                self
            } else {
                self.frame_planned(frame)
            };
            if planned.remaining().len() == 0 {
                (planned.committed(), Ok(Step::Done))
            } else {
                (planned, Ok(Step::Submit))
            }
        }
    }

    /// The state after all keys are to be released, and what is to be done.
    pub open spec fn releasing(self) -> (SinkView, Step) {
        let changes = release_changes(self.pressed, self.pressed.len());
        if changes.len() == 0 {
            (self.cleared(), Step::Done)
        } else {
            (SinkView { pending: PendingView::Release { changes }, ..self }, Step::Submit)
        }
    }

    /// The state after the operating system took some of the remaining changes.
    pub open spec fn submitted(self, accepted: nat) -> SinkView {
        let taken = self.remaining().subrange(0, accepted as int);
        let pressed = laws::replayed(self.pressed, taken);
        if accepted > self.remaining().len() {
            self
        } else {
            match self.pending {
                PendingView::Idle => self,
                PendingView::Frame { sequence, pointers, holds, changes, applied } => {
                    if accepted == self.remaining().len() {
                        self.further(accepted).committed()
                    } else {
                        self.further(accepted)
                    }
                },
                PendingView::Release { changes } => {
                    let further = SinkView { pressed, pending: PendingView::Idle, ..self };
                    if accepted == changes.len() {
                        further.cleared()
                    } else {
                        further
                    }
                },
            }
        }
    }

    /// A pending frame with some more of its changes applied.
    pub open spec fn further(self, accepted: nat) -> SinkView {
        match self.pending {
            PendingView::Frame { sequence, pointers, holds, changes, applied } => SinkView {
                pressed: laws::replayed(
                    self.pressed,
                    self.remaining().subrange(0, accepted as int),
                ),
                pending: PendingView::Frame {
                    sequence,
                    pointers,
                    holds,
                    changes,
                    applied: applied + accepted,
                },
                ..self
            },
            _ => self,
        }
    }

    proof fn partly_submitted(self, accepted: nat)
        requires
            self.wf(),
            self.pending is Frame,
            accepted <= self.remaining().len(),
        ensures
            forall|i: int|
                0 <= i < self.remaining().len() ==> (#[trigger] self.remaining()[i]).lane
                    < self.pressed.len(),
            self.pending matches PendingView::Frame {
                sequence,
                pointers,
                holds,
                changes,
                applied,
            } ==> applied + accepted <= changes.len(),
            self.further(accepted).remaining().len() == self.remaining().len() - accepted,
            laws::replayed(
                self.pressed,
                self.remaining().subrange(0, accepted as int),
            ).len() == self.pressed.len() ==> self.further(accepted).wf(),
            self.in_step() ==> self.further(accepted).in_step(),
    {
        let all = self.pending->Frame_changes;
        let applied = self.pending->applied as int;
        let remaining = self.remaining();
        assert forall|i: int| 0 <= i < remaining.len() implies (#[trigger] remaining[i]).lane
            < self.pressed.len() by {
            assert(remaining[i] == all[i + applied]);
        }
        let taken = remaining.subrange(0, accepted as int);
        let done = all.subrange(0, applied);
        assert(all.subrange(0, applied + accepted) =~= done + taken);
        replay_in_two(laws::held(self.holds), done, taken);
    }

    /// The fingers, the lanes and the changes on their way fit together.
    pub open spec fn wf(self) -> bool {
        &&& 0 < self.holds.len() <= u32::MAX
        &&& self.pressed.len() == self.holds.len()
        &&& (PlanView { pointers: self.pointers, holds: self.holds, changes: seq![] }).wf()
        &&& laws::counted(self.pointers, self.holds)
        &&& match self.pending {
            PendingView::Idle => true,
            PendingView::Frame { sequence, pointers, holds, changes, applied } => {
                &&& (PlanView { pointers, holds, changes }).wf()
                &&& holds.len() == self.holds.len()
                &&& laws::counted(pointers, holds)
                &&& applied <= changes.len()
                &&& laws::effective(laws::held(self.holds), changes)
                &&& laws::replayed(laws::held(self.holds), changes) == laws::held(holds)
            },
            PendingView::Release { changes } => forall|i: int|
                0 <= i < changes.len() ==> (#[trigger] changes[i]).lane < self.holds.len()
                    && !changes[i].down,
        }
    }

    /// The keys that are down are those that the fingers held, and then the changes of
    /// the pending frame that are applied.
    pub open spec fn in_step(self) -> bool {
        match self.pending {
            PendingView::Frame { sequence, pointers, holds, changes, applied } => self.pressed
                == laws::replayed(laws::held(self.holds), changes.subrange(0, applied as int)),
            _ => self.pressed == laws::held(self.holds),
        }
    }
}

enum Pending {
    Idle,
    Frame { sequence: u64, next: KeyboardState, changes: Vec<KeyChange>, applied: usize },
    Release { changes: Vec<KeyChange> },
}

/// The bridge from frames to lane keys, without the operating system.
pub struct KeyboardSink {
    state: KeyboardState,
    pressed: Vec<bool>,
    pending: Pending,
}

impl View for KeyboardSink {
    type V = SinkView;

    closed spec fn view(&self) -> SinkView {
        SinkView {
            pointers: self.state.pointer_lanes@,
            holds: self.state.lane_holds@,
            pressed: self.pressed@,
            pending: match self.pending {
                Pending::Idle => PendingView::Idle,
                Pending::Frame { sequence, next, changes, applied } => PendingView::Frame {
                    sequence,
                    pointers: next.pointer_lanes@,
                    holds: next.lane_holds@,
                    changes: changes@,
                    applied: applied as nat,
                },
                Pending::Release { changes } => PendingView::Release { changes: changes@ },
            },
        }
    }
}

impl KeyboardSink {
    /// A sink with one lane for each key.
    pub fn new(keys: &Vec<String>) -> (result: Result<KeyboardSink, KeyError>)
        requires
            keys@.len() <= u32::MAX,
        ensures
            match result {
                Ok(sink) => keys@.len() > 0 && keys::first_repeated(keys@, 0) is None && sink@.wf()
                    && sink@ == SinkView::fresh(keys@.len()),
                Err(KeyError::NoKeys) => keys@.len() == 0,
                Err(KeyError::Duplicate(key)) => keys::first_repeated(keys@, 0) matches Some(i)
                    && key@ == keys@[i]@,
                Err(_) => false,
            },
    {
        if keys.len() == 0 {
            return Err(KeyError::NoKeys);
        }
        match validate_lane_keys(keys) {
            Err(error) => Err(error),
            Ok(()) => Ok(KeyboardSink::with_lanes(keys.len())),
        }
    }

    /// A sink with some lanes, none of them held.
    pub fn with_lanes(lanes: usize) -> (sink: KeyboardSink)
        requires
            0 < lanes <= u32::MAX,
        ensures
            sink@.wf(),
            sink@ == SinkView::fresh(lanes as nat),
    {
        let state: KeyboardState = KeyboardState::new(lanes);
        let pressed: Vec<bool> = vec![false; lanes];
        let sink = KeyboardSink { state, pressed, pending: Pending::Idle };
        proof {
            assert(pressed@ =~= Seq::new(lanes as nat, |lane: int| false));
            assert(sink@ =~= SinkView::fresh(lanes as nat));
            no_fingers_counted(sink@.pointers, sink@.holds);
        }
        sink
    }

    pub fn lane_count(&self) -> (count: u8)
        ensures
            count == if self@.pressed.len() > 255 {
                255int
            } else {
                self@.pressed.len() as int
            },
    {
        if self.pressed.len() > 255 {
            255
        } else {
            self.pressed.len() as u8
        }
    }

    /// Whether a key is down, or an event is half written.
    pub fn has_active_input(&self, submission_pending: bool) -> (active: bool)
        ensures
            active == (laws::some_down(self@.pressed) || submission_pending),
    {
        let mut lane: usize = 0;
        while lane < self.pressed.len()
            invariant
                lane <= self.pressed@.len(),
                forall|i: int| 0 <= i < lane ==> !#[trigger] self.pressed@[i],
            decreases self.pressed@.len() - lane,
        {
            if self.pressed[lane] {
                assert(self@.pressed[lane as int]);
                return true;
            }
            lane = lane + 1;
        }
        assert(!laws::some_down(self@.pressed));
        submission_pending
    }

    /// Whether the key of a lane is down.
    pub fn is_pressed(&self, lane: usize) -> (down: bool)
        requires
            lane < self@.pressed.len(),
        ensures
            down == self@.pressed[lane as int],
    {
        self.pressed[lane]
    }

    /// The lane that a pointer is on.
    pub fn pointer_lane(&self, pointer: u8) -> (lane: Option<usize>)
        ensures
            self@.pointers.len() == POINTER_ID_COUNT,
            lane == self@.pointers[pointer as int],
    {
        self.state.pointer_lanes[pointer as usize]
    }

    /// How many pointers are on a lane.
    pub fn lane_hold(&self, lane: usize) -> (holds: u16)
        requires
            lane < self@.holds.len(),
        ensures
            holds == self@.holds[lane as int],
    {
        self.state.lane_holds[lane]
    }

    /// Whether a frame is not wholly applied yet.
    pub fn frame_pending(&self) -> (pending: bool)
        ensures
            pending == self@.pending is Frame,
    {
        match &self.pending {
            Pending::Frame { .. } => true,
            _ => false,
        }
    }

    /// Offers a frame. A frame that is not wholly applied yet is taken up where it was
    /// left; until then no other is.
    pub fn accept(&mut self, frame: &TouchFrame) -> (result: Result<Step, SinkError>)
        requires
            old(self)@.wf(),
        ensures
            final(self)@.wf(),
            (final(self)@, result) == old(self)@.accepted(frame@),
            old(self)@.in_step() ==> final(self)@.in_step(),
    {
        if frame.session_start() || frame.action == ACTION_CANCEL || !frame.locked() {
            return Ok(Step::Release);
        }
        if frame.action == ACTION_HEARTBEAT && frame.contacts.is_empty() {
            return Ok(Step::Done);
        }
        let mut planned: bool = false;
        if let Pending::Frame { sequence, .. } = &self.pending {
            if *sequence != frame.sequence {
                return Err(SinkError::StillPending(*sequence));
            }
            planned = true;
        }
        if !planned {
            let (next, changes) = plan_frame(&self.state, frame);
            proof {
                laws::plan_leads_to_the_fingers(
                    self.state.pointer_lanes@,
                    self.state.lane_holds@,
                    frame.contacts@,
                    frame.action_pointer_id,
                );
            }
            self.pending = Pending::Frame { sequence: frame.sequence, next, changes, applied: 0 };
            assert(self@ =~= old(self)@.frame_planned(frame@));
            proof {
                let changes = self@.pending->Frame_changes;
                assert(changes.subrange(0, 0) =~= Seq::<KeyChange>::empty());
            }
        }
        let ghost ready = self@;
        let left: usize = self.remaining_count();
        if left == 0 {
            self.commit();
            assert(self@ =~= ready.committed());
            Ok(Step::Done)
        } else {
            Ok(Step::Submit)
        }
    }

    fn remaining_count(&self) -> (count: usize)
        requires
            self@.wf(),
        ensures
            count == self@.remaining().len(),
    {
        match &self.pending {
            Pending::Idle => 0,
            Pending::Frame { changes, applied, .. } => changes.len() - *applied,
            Pending::Release { changes } => changes.len(),
        }
    }

    /// The changes that are left to submit.
    pub fn remaining(&self) -> (changes: Vec<KeyChange>)
        requires
            self@.wf(),
        ensures
            changes@ == self@.remaining(),
    {
        match &self.pending {
            Pending::Idle => {
                let none: Vec<KeyChange> = Vec::new();
                assert(none@ =~= self@.remaining());
                none
            },
            Pending::Frame { changes, applied, .. } => copy_changes(changes, *applied),
            Pending::Release { changes } => {
                let all: Vec<KeyChange> = copy_changes(changes, 0);
                assert(all@ =~= changes@);
                all
            },
        }
    }

    fn commit(&mut self)
        requires
            old(self)@.wf(),
            old(self)@.remaining().len() == 0,
        ensures
            final(self)@.wf(),
            final(self)@ == old(self)@.committed(),
            old(self)@.in_step() ==> final(self)@.in_step(),
    {
        let mut pending: Pending = Pending::Idle;
        std::mem::swap(&mut self.pending, &mut pending);
        match pending {
            Pending::Frame { sequence, next, changes, applied } => {
                assert(changes@.subrange(0, applied as int) =~= changes@);
                self.state = next;
            },
            other => {
                self.pending = other;
            },
        }
    }

    /// Releases every key that is down, whatever is pending.
    pub fn release_all(&mut self) -> (step: Step)
        requires
            old(self)@.wf(),
        ensures
            final(self)@.wf(),
            (final(self)@, step) == old(self)@.releasing(),
    {
        let mut changes: Vec<KeyChange> = Vec::new();
        let mut lane: usize = 0;
        while lane < self.pressed.len()
            invariant
                lane <= self.pressed@.len(),
                changes@ == release_changes(self.pressed@, lane as nat),
                forall|i: int|
                    0 <= i < changes@.len() ==> (#[trigger] changes@[i]).lane < lane
                        && !changes@[i].down,
            decreases self.pressed@.len() - lane,
        {
            if self.pressed[lane] {
                changes.push(KeyChange { lane, down: false });
            }
            lane = lane + 1;
        }
        if changes.len() == 0 {
            self.clear();
            Step::Done
        } else {
            self.pending = Pending::Release { changes };
            assert(self@ =~= old(self)@.releasing().0);
            Step::Submit
        }
    }

    fn clear(&mut self)
        requires
            old(self)@.wf(),
        ensures
            final(self)@.wf(),
            final(self)@ == old(self)@.cleared(),
    {
        let lanes: usize = self.state.lane_holds.len();
        self.state = KeyboardState::new(lanes);
        self.pending = Pending::Idle;
        assert(self@ =~= old(self)@.cleared());
        proof {
            no_fingers_counted(self@.pointers, self@.holds);
        }
    }

    /// Presses and releases keys as the first of some changes say.
    fn press(&mut self, changes: &Vec<KeyChange>, count: usize)
        requires
            count <= changes@.len(),
            forall|i: int|
                0 <= i < changes@.len() ==> (#[trigger] changes@[i]).lane < old(
                    self,
                )@.pressed.len(),
        ensures
            final(self)@.pressed.len() == old(self)@.pressed.len(),
            final(self)@ == (SinkView {
                pressed: laws::replayed(
                    old(self)@.pressed,
                    changes@.subrange(0, count as int),
                ),
                ..old(self)@
            }),
    {
        let mut index: usize = 0;
        while index < count
            invariant
                index <= count <= changes@.len(),
                self.state == old(self).state,
                self.pending == old(self).pending,
                self.pressed@.len() == old(self).pressed@.len(),
                self.pressed@ == laws::replayed(
                    old(self).pressed@,
                    changes@.subrange(0, index as int),
                ),
                forall|i: int|
                    0 <= i < changes@.len() ==> (#[trigger] changes@[i]).lane < old(
                        self,
                    ).pressed@.len(),
            decreases count - index,
        {
            let change: KeyChange = changes[index];
            self.pressed[change.lane] = change.down;
            index = index + 1;
            assert(changes@.subrange(0, index as int).drop_last() =~= changes@.subrange(
                0,
                index - 1,
            ));
        }
    }

    /// Counts further changes of the pending frame as applied.
    fn advance(&mut self, accepted: usize)
        requires
            old(self)@.pending matches PendingView::Frame {
                sequence,
                pointers,
                holds,
                changes,
                applied,
            } ==> applied + accepted <= changes.len(),
        ensures
            final(self)@ == (SinkView {
                pending: match old(self)@.pending {
                    PendingView::Frame { sequence, pointers, holds, changes, applied } => {
                        PendingView::Frame {
                            sequence,
                            pointers,
                            holds,
                            changes,
                            applied: applied + accepted as nat,
                        }
                    },
                    other => other,
                },
                ..old(self)@
            }),
    {
        if let Pending::Frame { sequence, next, changes, applied } = &mut self.pending {
            let _limit: usize = changes.len();
            *applied = *applied + accepted;
        }
    }

    /// Takes note of how many of the remaining changes the operating system took.
    pub fn submitted(&mut self, accepted: usize) -> (result: Result<(), SinkError>)
        requires
            old(self)@.wf(),
        ensures
            final(self)@.wf(),
            final(self)@ == old(self)@.submitted(accepted as nat),
            match result {
                Ok(()) => accepted == old(self)@.remaining().len(),
                Err(SinkError::TooMany { accepted: a, requested }) => a == accepted && requested
                    == old(self)@.remaining().len() && accepted > requested,
                Err(SinkError::Incomplete { accepted: a, requested }) => a == accepted && requested
                    == old(self)@.remaining().len() && accepted < requested,
                Err(_) => false,
            },
            old(self)@.in_step() && !(old(self)@.pending is Release) ==> final(self)@.in_step(),
    {
        let requested: usize = self.remaining_count();
        if accepted > requested {
            return Err(SinkError::TooMany { accepted, requested });
        }
        let kind: u8 = match &self.pending {
            Pending::Idle => 0,
            Pending::Frame { .. } => 1,
            Pending::Release { .. } => 2,
        };
        if kind == 1 {
            self.submit_frame(accepted);
        } else if kind == 2 {
            self.submit_release(accepted);
        }
        if accepted != requested {
            Err(SinkError::Incomplete { accepted, requested })
        } else {
            Ok(())
        }
    }

    fn submit_frame(&mut self, accepted: usize)
        requires
            old(self)@.wf(),
            old(self)@.pending is Frame,
            accepted <= old(self)@.remaining().len(),
        ensures
            final(self)@.wf(),
            final(self)@ == old(self)@.submitted(accepted as nat),
            old(self)@.in_step() ==> final(self)@.in_step(),
    {
        let ghost before = self@;
        let remaining: Vec<KeyChange> = self.remaining();
        proof {
            before.partly_submitted(accepted as nat);
        }
        self.press(&remaining, accepted);
        self.advance(accepted);
        assert(self@ =~= before.further(accepted as nat));
        if self.remaining_count() == 0 {
            self.commit();
        }
    }

    fn submit_release(&mut self, accepted: usize)
        requires
            old(self)@.wf(),
            old(self)@.pending is Release,
            accepted <= old(self)@.remaining().len(),
        ensures
            final(self)@.wf(),
            final(self)@ == old(self)@.submitted(accepted as nat),
    {
        let remaining: Vec<KeyChange> = self.remaining();
        self.press(&remaining, accepted);
        if accepted == remaining.len() {
            self.clear();
        } else {
            self.pending = Pending::Idle;
        }
        assert(self@ =~= old(self)@.submitted(accepted as nat));
    }
}

fn copy_changes(changes: &Vec<KeyChange>, from: usize) -> (part: Vec<KeyChange>)
    requires
        from <= changes@.len(),
    ensures
        part@ == changes@.subrange(from as int, changes@.len() as int),
{
    let mut part: Vec<KeyChange> = Vec::new();
    let mut i: usize = from;
    while i < changes.len()
        invariant
            from <= i <= changes@.len(),
            part@ == changes@.subrange(from as int, i as int),
        decreases changes@.len() - i,
    {
        part.push(changes[i]);
        i = i + 1;
        assert(changes@.subrange(from as int, i as int) =~= changes@.subrange(
            from as int,
            i - 1,
        ).push(changes@[i - 1]));
    }
    part
}

proof fn no_fingers_counted(pointers: Seq<Option<usize>>, holds: Seq<u16>)
    requires
        forall|p: int| 0 <= p < pointers.len() ==> #[trigger] pointers[p] is None,
        forall|lane: int| 0 <= lane < holds.len() ==> #[trigger] holds[lane] == 0,
    ensures
        laws::counted(pointers, holds),
{
    assert forall|lane: int| 0 <= lane < holds.len() implies #[trigger] holds[lane]
        == laws::fingers_on(pointers, lane) by {
        no_fingers_on(pointers, lane);
    }
}

proof fn no_fingers_on(pointers: Seq<Option<usize>>, lane: int)
    requires
        forall|p: int| 0 <= p < pointers.len() ==> #[trigger] pointers[p] is None,
    ensures
        laws::fingers_on(pointers, lane) == 0,
    decreases pointers.len(),
{
    if pointers.len() > 0 {
        assert(pointers.last() is None);
        no_fingers_on(pointers.drop_last(), lane);
    }
}

/// Changes submitted in two parts do what they do at once.
pub proof fn replay_in_two(down: Seq<bool>, first: Seq<KeyChange>, second: Seq<KeyChange>)
    ensures
        laws::replayed(down, first + second) == laws::replayed(laws::replayed(down, first), second),
    decreases second.len(),
{
    if second.len() == 0 {
        assert(first + second =~= first);
    } else {
        assert((first + second).drop_last() =~= first + second.drop_last());
        replay_in_two(down, first, second.drop_last());
    }
}

/// When no frame is pending and the keys have kept in step, the keys that are down are
/// exactly those of the lanes that fingers hold.
pub proof fn idle_keys_are_the_held_ones(sink: SinkView, lane: int)
    requires
        sink.wf(),
        sink.in_step(),
        sink.pending is Idle,
        0 <= lane < sink.holds.len(),
    ensures
        sink.pressed[lane] == (laws::fingers_on(sink.pointers, lane) > 0),
{
    assert(sink.holds[lane] == laws::fingers_on(sink.pointers, lane));
}

/// Releasing is about exactly the keys that are down, each once, and after all of it no
/// key is down and no finger is on a lane.
pub proof fn release_leaves_nothing_down(sink: SinkView)
    requires
        sink.wf(),
    ensures
        ({
            let (started, step) = sink.releasing();
            let ended = started.submitted(started.remaining().len());
            &&& step == Step::Submit ==> ended.pending is Idle && ended.in_step()
                && !laws::some_down(ended.pressed) && ended.holds == Seq::new(
                sink.holds.len(),
                |lane: int| 0u16,
            )
            &&& step == Step::Done ==> started.in_step() && !laws::some_down(started.pressed)
        }),
{
    let lanes = sink.pressed.len();
    let changes = release_changes(sink.pressed, lanes);
    releases_replayed(sink.pressed, lanes);
    let after = laws::replayed(sink.pressed, changes);
    assert(changes.subrange(0, changes.len() as int) =~= changes);
    let (started, step) = sink.releasing();
    if step == Step::Submit {
        let ended = started.submitted(changes.len());
        assert(ended.pressed =~= laws::held(ended.holds));
    } else {
        assert(after == sink.pressed);
        assert(started.pressed =~= laws::held(started.holds));
    }
}

proof fn releases_replayed(pressed: Seq<bool>, count: nat)
    requires
        count <= pressed.len() <= u32::MAX,
    ensures
        ({
            let after = laws::replayed(pressed, release_changes(pressed, count));
            &&& after.len() == pressed.len()
            &&& forall|lane: int|
                0 <= lane < pressed.len() ==> #[trigger] after[lane] == (pressed[lane] && lane
                    >= count)
        }),
    decreases count,
{
    if count > 0 {
        releases_replayed(pressed, (count - 1) as nat);
        let front = release_changes(pressed, (count - 1) as nat);
        let change = KeyChange { lane: (count - 1) as usize, down: false };
        assert(front.push(change).drop_last() =~= front);
    }
}

/// What a frame asks of the keys, by its action and its bits: a start of a session, a cancel or
/// an unlocked surface releases them all, a heartbeat without contacts leaves them alone.
pub proof fn frames_release_or_keep(sink: SinkView, frame: FrameView)
    ensures
        ({
            let (after, step) = sink.accepted(frame);
            let releasing = protocol::laws::bit(frame.flags, 1) || frame.action == 4
                || !protocol::laws::bit(frame.flags, 0);
            &&& step == Ok::<Step, SinkError>(Step::Release) <==> releasing
            &&& releasing ==> after == sink
            &&& !releasing && frame.action == 0 && frame.contacts.len() == 0 ==> after == sink
                && step == Ok::<Step, SinkError>(Step::Done)
            &&& !releasing && !(frame.action == 0 && frame.contacts.len() == 0) && sink.pending
                is Frame && sink.pending->sequence != frame.sequence ==> after == sink && step
                == Err::<Step, SinkError>(SinkError::StillPending(sink.pending->sequence))
        }),
{
    protocol::laws::frame_flags_mean(frame);
}

/// Whether a contact of the snapshot touches the lane.
pub open spec fn touched(contacts: Seq<Contact>, lane: int, lanes: nat) -> bool {
    exists|i: int|
        0 <= i < contacts.len() && (#[trigger] contacts[i]).is_touching() && plan::lane_at(
            contacts[i].x,
            lanes,
        ) == lane
}

/// Once the system has taken all changes of a snapshot, the keys that are down are exactly
/// those of the lanes that its contacts touch.
pub proof fn keys_follow_the_snapshot(sink: SinkView, frame: FrameView, lane: int)
    requires
        sink.wf(),
        sink.in_step(),
        sink.pending is Idle,
        protocol::laws::one_each(frame.contacts),
        protocol::laws::bit(frame.flags, 0),
        !protocol::laws::bit(frame.flags, 1),
        frame.action != 4,
        frame.action != 0 || frame.contacts.len() > 0,
        0 <= lane < sink.holds.len(),
    ensures
        ({
            let (after, step) = sink.accepted(frame);
            let ended = if step == Ok::<Step, SinkError>(Step::Done) {
                after
            } else {
                after.submitted(after.remaining().len())
            };
            &&& step == Ok::<Step, SinkError>(Step::Done) || step == Ok::<Step, SinkError>(
                Step::Submit,
            )
            &&& ended.pending is Idle
            &&& ended.pressed[lane] == touched(frame.contacts, lane, sink.holds.len())
        }),
{
    protocol::laws::frame_flags_mean(frame);
    let contacts = frame.contacts;
    let acting = frame.action_pointer_id;
    let planned = sink.frame_planned(frame);
    let plan = plan::planned(sink.pointers, sink.holds, contacts, acting);
    laws::plan_leads_to_the_fingers(sink.pointers, sink.holds, contacts, acting);
    laws::snapshot_places_pointers(sink.pointers, sink.holds, contacts, acting);
    let (after, step) = sink.accepted(frame);
    assert(planned.remaining() =~= plan.changes);
    let changes = plan.changes;
    assert(changes.subrange(0, changes.len() as int) =~= changes);
    let ended = if step == Ok::<Step, SinkError>(Step::Done) {
        after
    } else {
        after.submitted(after.remaining().len())
    };
    assert(ended.pressed == laws::held(plan.holds));
    assert(plan.holds[lane] == laws::fingers_on(plan.pointers, lane));
    let lanes = sink.holds.len();
    if touched(contacts, lane, lanes) {
        let i = choose|i: int|
            0 <= i < contacts.len() && (#[trigger] contacts[i]).is_touching() && plan::lane_at(
                contacts[i].x,
                lanes,
            ) == lane;
        assert(plan.pointers[contacts[i].pointer_id as int] == laws::place_of(contacts[i], lanes));
        laws::finger_is_counted(plan.pointers, contacts[i].pointer_id as int, lane);
    } else {
        assert forall|q: int| 0 <= q < plan.pointers.len() implies !laws::is_on(
            #[trigger] plan.pointers[q],
            lane,
        ) by {
            if plan::names(contacts, q) {
                let i = choose|i: int|
                    0 <= i < contacts.len() && #[trigger] contacts[i].pointer_id == q;
                plan::lane_is_there(contacts[i].x, lanes);
                assert(plan.pointers[contacts[i].pointer_id as int] == laws::place_of(
                    contacts[i],
                    lanes,
                ));
            } else {
                assert(plan.pointers[q] is None);
            }
        }
        laws::lane_without_fingers(plan.pointers, lane);
    }
}

/// Changes that the system takes in parts come to the same as taken at once, and none is
/// taken twice or left out.
pub proof fn parts_add_up(sink: SinkView, first: nat, second: nat)
    requires
        sink.wf(),
        sink.pending is Frame,
        first < sink.remaining().len(),
        first + second <= sink.remaining().len(),
    ensures
        sink.submitted(first).remaining() == sink.remaining().skip(first as int),
        sink.submitted(first).submitted(second) == sink.submitted(first + second),
{
    let all = sink.remaining();
    let part = sink.submitted(first);
    let applied = sink.pending->applied as int;
    let changes = sink.pending->Frame_changes;
    assert(part.remaining() =~= all.skip(first as int));
    let one = all.subrange(0, first as int);
    let two = part.remaining().subrange(0, second as int);
    assert(all.subrange(0, (first + second) as int) =~= one + two);
    replay_in_two(sink.pressed, one, two);
}

/// A snapshot whose changes are on their way is finished before another is begun: offered again
/// it goes on where it was, and one with another number is refused with the number that is
/// pending.
pub proof fn one_snapshot_at_a_time(sink: SinkView, frame: FrameView)
    requires
        sink.pending is Frame,
        frame.is_locked(),
        !frame.starts_session(),
        frame.action == 1 || frame.action == 2 || frame.action == 3,
    ensures
        frame.sequence != sink.pending->sequence ==> sink.accepted(frame) == (
            sink,
            Err::<Step, SinkError>(SinkError::StillPending(sink.pending->sequence)),
        ),
        frame.sequence == sink.pending->sequence && sink.remaining().len() > 0 ==> sink.accepted(
            frame,
        ) == (sink, Ok::<Step, SinkError>(Step::Submit)),
{
}

/// A key is released exactly where it is down, and in the order of the lanes.
pub proof fn pressed_keys_are_released(pressed: Seq<bool>, count: nat, lane: int)
    requires
        count <= pressed.len() <= usize::MAX,
        0 <= lane < count,
    ensures
        release_changes(pressed, count).contains(KeyChange { lane: lane as usize, down: false })
            == pressed[lane],
        !release_changes(pressed, count).contains(KeyChange { lane: lane as usize, down: true }),
        forall|i: int|
            0 <= i < release_changes(pressed, count).len() ==> (#[trigger] release_changes(
                pressed,
                count,
            )[i]).lane < count,
        forall|i: int, j: int|
            0 <= i < j < release_changes(pressed, count).len() ==> (#[trigger] release_changes(
                pressed,
                count,
            )[i]).lane < (#[trigger] release_changes(pressed, count)[j]).lane,
    decreases count,
{
    let front = release_changes(pressed, (count - 1) as nat);
    let all = release_changes(pressed, count);
    let wanted = KeyChange { lane: lane as usize, down: false };
    let other = KeyChange { lane: lane as usize, down: true };
    if count > 1 {
        pressed_keys_are_released(
            pressed,
            (count - 1) as nat,
            if lane < count - 1 {
                lane
            } else {
                0
            },
        );
    } else {
        assert(front.len() == 0);
    }
    assert forall|i: int| 0 <= i < all.len() implies (#[trigger] all[i]).lane < count by {
        if i < front.len() {
            assert(all[i] == front[i]);
        }
    }
    assert forall|i: int, j: int| 0 <= i < j < all.len() implies (#[trigger] all[i]).lane < (
    #[trigger] all[j]).lane by {
        assert(all[i] == front[i]);
        if j < front.len() {
            assert(all[j] == front[j]);
        }
    }
    if lane < count - 1 && front.contains(wanted) {
        let k = choose|k: int| 0 <= k < front.len() && front[k] == wanted;
        assert(all[k] == wanted);
    }
    if lane == count - 1 && pressed[lane] {
        assert(all.last() == wanted);
    }
    if all.contains(wanted) {
        let k = choose|k: int| 0 <= k < all.len() && all[k] == wanted;
        if k < front.len() {
            assert(front[k] == wanted);
        }
    }
    if all.contains(other) {
        let k = choose|k: int| 0 <= k < all.len() && all[k] == other;
        assert(k < front.len());
        assert(front[k] == other);
    }
}

} // verus!
