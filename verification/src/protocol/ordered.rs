//! Frames put back in order, and acknowledged only once they are committed.
use crate::protocol::frame::TouchFrame;
use vstd::prelude::*;

verus! {

pub const MAX_REORDERED_FRAMES: usize = 256;

/// What is known of the session, and the frames that wait, by sequence.
#[verifier::ext_equal]
pub struct OrderedView {
    pub session_id: Option<u64>,
    pub next_sequence: u64,
    pub requires_session_start: bool,
    pub waiting: Map<u64, TouchFrame>,
}

impl OrderedView {
    /// Frames wait only within the window that starts at the next sequence.
    pub open spec fn wf(self) -> bool {
        forall|sequence: u64| #[trigger]
            self.waiting.dom().contains(sequence) ==> {
                &&& self.next_sequence <= sequence
                &&& sequence - self.next_sequence < MAX_REORDERED_FRAMES
                &&& self.waiting[sequence].sequence == sequence
            }
    }

    pub open spec fn empty() -> OrderedView {
        OrderedView {
            session_id: None,
            next_sequence: 0,
            requires_session_start: false,
            waiting: Map::empty(),
        }
    }

    /// A session that begins with `frame`, with no frame yet.
    pub open spec fn begun(frame: TouchFrame) -> OrderedView {
        OrderedView {
            session_id: Some(frame.session_id),
            next_sequence: frame.sequence,
            requires_session_start: false,
            waiting: Map::empty(),
        }
    }

    /// No session, and none but one that starts anew will be followed.
    pub open spec fn abandoned() -> OrderedView {
        OrderedView {
            session_id: None,
            next_sequence: 0,
            requires_session_start: true,
            waiting: Map::empty(),
        }
    }

    /// Whether a frame begins a session here: it may be the first of any session where
    /// none is followed, but a session that is followed, or that must start anew, gives
    /// way only to a session start.
    pub open spec fn begins(self, frame: TouchFrame) -> bool {
        if self.requires_session_start && !frame@.starts_session() {
            false
        } else {
            self.session_id is None || (self.session_id != Some(frame.session_id)
                && frame@.starts_session())
        }
    }

    /// Whether a frame belongs to the session that is followed and waits in its window.
    pub open spec fn admits(self, frame: TouchFrame) -> bool {
        &&& self.session_id == Some(frame.session_id)
        &&& self.next_sequence <= frame.sequence
        &&& frame.sequence - self.next_sequence < MAX_REORDERED_FRAMES
        &&& !self.waiting.dom().contains(frame.sequence)
    }

    pub open spec fn admitted(self, frame: TouchFrame) -> OrderedView {
        if self.admits(frame) {
            OrderedView { waiting: self.waiting.insert(frame.sequence, frame), ..self }
        } else {
            self
        }
    }

    pub open spec fn pushed(self, frame: TouchFrame) -> OrderedView {
        if self.requires_session_start && !frame@.starts_session() {
            self
        } else if self.begins(frame) {
            OrderedView::begun(frame).admitted(frame)
        } else {
            self.admitted(frame)
        }
    }

    pub open spec fn ready(self) -> Option<TouchFrame> {
        if self.waiting.dom().contains(self.next_sequence) {
            Some(self.waiting[self.next_sequence])
        } else {
            None
        }
    }

    pub open spec fn committed(self) -> OrderedView {
        if self.ready() is Some {
            OrderedView {
                next_sequence: if self.next_sequence == u64::MAX {
                    0
                } else {
                    (self.next_sequence + 1) as u64
                },
                waiting: self.waiting.remove(self.next_sequence),
                ..self
            }
        } else {
            self
        }
    }

    /// The last sequence of which all before it, too, were committed.
    pub open spec fn acknowledged(self) -> Option<u64> {
        if self.next_sequence == 0 {
            None
        } else {
            Some((self.next_sequence - 1) as u64)
        }
    }
}

pub struct OrderedFrames {
    session_id: Option<u64>,
    next_sequence: u64,
    buffered: Vec<Option<TouchFrame>>,
    requires_session_start: bool,
}

spec fn slot(sequence: u64) -> int {
    (sequence % MAX_REORDERED_FRAMES as u64) as int
}

impl View for OrderedFrames {
    type V = OrderedView;

    closed spec fn view(&self) -> OrderedView {
        OrderedView {
            session_id: self.session_id,
            next_sequence: self.next_sequence,
            requires_session_start: self.requires_session_start,
            waiting: Map::new(
                |sequence: u64|
                    self.buffered@[slot(sequence)] matches Some(frame) && frame.sequence
                        == sequence,
                |sequence: u64| self.buffered@[slot(sequence)]->0,
            ),
        }
    }
}

impl OrderedFrames {
    /// Every frame stands in its slot, within the window.
    pub closed spec fn wf(&self) -> bool {
        &&& self.buffered@.len() == MAX_REORDERED_FRAMES
        &&& forall|i: int|
            0 <= i < MAX_REORDERED_FRAMES ==> (#[trigger] self.buffered@[i] matches Some(frame) ==> {
                &&& slot(frame.sequence) == i
                &&& self.next_sequence <= frame.sequence
                &&& frame.sequence - self.next_sequence < MAX_REORDERED_FRAMES
            })
    }

    /// The slots agree with the window that the view shows.
    pub proof fn view_is_wf(&self)
        requires
            self.wf(),
        ensures
            self@.wf(),
    {
    }

    pub fn new() -> (frames: OrderedFrames)
        ensures
            frames.wf(),
            frames@ == OrderedView::empty(),
    {
        let mut buffered: Vec<Option<TouchFrame>> = Vec::new();
        let mut i: usize = 0;
        while i < MAX_REORDERED_FRAMES
            invariant
                i <= MAX_REORDERED_FRAMES,
                buffered@.len() == i,
                forall|j: int| 0 <= j < i ==> #[trigger] buffered@[j] is None,
            decreases MAX_REORDERED_FRAMES - i,
        {
            buffered.push(None);
            i = i + 1;
        }
        let frames = OrderedFrames {
            session_id: None,
            next_sequence: 0,
            buffered,
            requires_session_start: false,
        };
        assert(frames@.waiting =~= Map::empty());
        frames
    }

    fn clear(&mut self)
        requires
            old(self).buffered@.len() == MAX_REORDERED_FRAMES,
        ensures
            final(self).session_id == old(self).session_id,
            final(self).next_sequence == old(self).next_sequence,
            final(self).requires_session_start == old(self).requires_session_start,
            final(self).buffered@.len() == MAX_REORDERED_FRAMES,
            forall|j: int|
                0 <= j < MAX_REORDERED_FRAMES ==> #[trigger] final(self).buffered@[j] is None,
    {
        let mut i: usize = 0;
        while i < MAX_REORDERED_FRAMES
            invariant
                i <= MAX_REORDERED_FRAMES,
                self.session_id == old(self).session_id,
                self.next_sequence == old(self).next_sequence,
                self.requires_session_start == old(self).requires_session_start,
                self.buffered@.len() == MAX_REORDERED_FRAMES,
                forall|j: int| 0 <= j < i ==> #[trigger] self.buffered@[j] is None,
            decreases MAX_REORDERED_FRAMES - i,
        {
            self.buffered[i] = None;
            i = i + 1;
        }
    }

    pub fn begin_session(&mut self, frame: &TouchFrame)
        requires
            old(self).wf(),
        ensures
            final(self).wf(),
            final(self)@ == OrderedView::begun(*frame),
    {
        self.clear();
        self.session_id = Some(frame.session_id);
        self.next_sequence = frame.sequence;
        self.requires_session_start = false;
        assert(self@.waiting =~= Map::empty());
    }

    /// Gives up all input of the session after its heartbeat has gone. Until a session
    /// starts anew, delayed frames of the dead one are neither handed out nor
    /// acknowledged.
    pub fn require_fresh_session(&mut self)
        requires
            old(self).wf(),
        ensures
            final(self).wf(),
            final(self)@ == OrderedView::abandoned(),
    {
        self.clear();
        self.session_id = None;
        self.next_sequence = 0;
        self.requires_session_start = true;
        assert(self@.waiting =~= Map::empty());
    }

    pub fn session_id(&self) -> (session_id: Option<u64>)
        ensures
            session_id == self@.session_id,
    {
        self.session_id
    }

    pub fn acknowledged_sequence(&self) -> (sequence: Option<u64>)
        ensures
            sequence == self@.acknowledged(),
    {
        self.next_sequence.checked_sub(1)
    }

    pub fn expected_sequence(&self) -> (sequence: u64)
        ensures
            sequence == self@.next_sequence,
    {
        self.next_sequence
    }

    pub fn contains_sequence(&self, sequence: u64) -> (contained: bool)
        requires
            self.wf(),
        ensures
            contained == self@.waiting.dom().contains(sequence),
    {
        match &self.buffered[(sequence % MAX_REORDERED_FRAMES as u64) as usize] {
            Some(frame) => frame.sequence == sequence,
            None => false,
        }
    }

    pub fn push(&mut self, frame: TouchFrame)
        requires
            old(self).wf(),
        ensures
            final(self).wf(),
            final(self)@ == old(self)@.pushed(frame),
    {
        let starts: bool = frame.session_start();
        if self.requires_session_start && !starts {
            return ;
        }
        match self.session_id {
            None => self.begin_session(&frame),
            Some(session_id) => if session_id != frame.session_id {
                if starts {
                    self.begin_session(&frame);
                } else {
                    return ;
                }
            },
        }
        let ghost before = *self;
        if frame.sequence < self.next_sequence {
            return ;
        }
        if frame.sequence - self.next_sequence >= MAX_REORDERED_FRAMES as u64 {
            return ;
        }
        let index: usize = (frame.sequence % MAX_REORDERED_FRAMES as u64) as usize;
        if self.buffered[index].is_none() {
            self.buffered[index] = Some(frame);
            assert(self@.waiting =~= before@.waiting.insert(frame.sequence, frame)) by {
                assert forall|sequence: u64| #[trigger]
                    self@.waiting.dom().contains(sequence) == before@.waiting.insert(
                        frame.sequence,
                        frame,
                    ).dom().contains(sequence) by {
                    if slot(sequence) == index && sequence != frame.sequence {
                        assert(self.buffered@[slot(sequence)] == Some(frame));
                    }
                }
            }
        } else {
            assert(before@.waiting.dom().contains(frame.sequence)) by {
                let other = before.buffered@[index as int]->0;
                assert(slot(other.sequence) == index);
                same_slot_same_sequence(before.next_sequence, other.sequence, frame.sequence);
            }
        }
    }

    pub fn next_ready(&self) -> (frame: Option<&TouchFrame>)
        requires
            self.wf(),
        ensures
            match frame {
                Some(frame) => self@.ready() == Some(*frame),
                None => self@.ready() is None,
            },
    {
        match &self.buffered[(self.next_sequence % MAX_REORDERED_FRAMES as u64) as usize] {
            Some(frame) => if frame.sequence == self.next_sequence {
                Some(frame)
            } else {
                None
            },
            None => None,
        }
    }

    /// Commits the ready frame, once the sink has taken exactly this frame: what the
    /// cumulative acknowledgement then covers.
    pub fn commit_ready(&mut self) -> (committed: bool)
        requires
            old(self).wf(),
        ensures
            final(self).wf(),
            committed == old(self)@.ready() is Some,
            final(self)@ == old(self)@.committed(),
    {
        let index: usize = (self.next_sequence % MAX_REORDERED_FRAMES as u64) as usize;
        if self.buffered[index].is_none() {
            return false;
        }
        let ghost before = *self;
        proof {
            let frame = before.buffered@[index as int]->0;
            assert(slot(frame.sequence) == index);
            same_slot_same_sequence(before.next_sequence, frame.sequence, before.next_sequence);
        }
        self.buffered[index] = None;
        self.next_sequence = self.next_sequence.wrapping_add(1);
        proof {
            assert forall|i: int| 0 <= i < MAX_REORDERED_FRAMES implies (
            #[trigger] self.buffered@[i] matches Some(frame) ==> {
                &&& slot(frame.sequence) == i
                &&& self.next_sequence <= frame.sequence
                &&& frame.sequence - self.next_sequence < MAX_REORDERED_FRAMES
            }) by {
                if i != index {
                    assert(self.buffered@[i] == before.buffered@[i]);
                }
            }
            assert(self@.waiting =~= before@.waiting.remove(before.next_sequence)) by {
                assert forall|sequence: u64| #[trigger]
                    self@.waiting.dom().contains(sequence) == before@.waiting.remove(
                        before.next_sequence,
                    ).dom().contains(sequence) by {
                    if slot(sequence) == index && before@.waiting.dom().contains(sequence) {
                        same_slot_same_sequence(
                            before.next_sequence,
                            sequence,
                            before.next_sequence,
                        );
                    }
                }
            }
        }
        true
    }
}

impl Default for OrderedFrames {
    fn default() -> (frames: OrderedFrames)
        ensures
            frames.wf(),
            frames@ == OrderedView::empty(),
    {
        OrderedFrames::new()
    }
}

proof fn same_slot_same_sequence(next: u64, a: u64, b: u64)
    requires
        next <= a,
        next <= b,
        a - next < MAX_REORDERED_FRAMES,
        b - next < MAX_REORDERED_FRAMES,
        slot(a) == slot(b),
    ensures
        a == b,
{
    assert(a == 256 * (a / 256) + a % 256);
    assert(b == 256 * (b / 256) + b % 256);
    assert(a / 256 == b / 256);
}

/// A frame that is already committed, already waiting, too far ahead or of a session
/// that is not followed changes nothing.
pub proof fn unwanted_frames_change_nothing(state: OrderedView, frame: TouchFrame)
    requires
        !state.begins(frame),
        !state.admits(frame),
    ensures
        state.pushed(frame) == state,
{
}

/// Pushing a frame twice does no more than pushing it once.
pub proof fn push_is_idempotent(state: OrderedView, frame: TouchFrame)
    ensures
        state.pushed(frame).pushed(frame) == state.pushed(frame),
{
}

/// Two frames of the session that is followed may arrive in either order.
pub proof fn arrival_order_is_irrelevant(state: OrderedView, a: TouchFrame, b: TouchFrame)
    requires
        state.session_id == Some(a.session_id),
        state.session_id == Some(b.session_id),
        a.sequence != b.sequence,
        !state.requires_session_start,
    ensures
        state.pushed(a).pushed(b) == state.pushed(b).pushed(a),
{
    assert(state.pushed(a).pushed(b).waiting =~= state.pushed(b).pushed(a).waiting);
}

/// After a session was given up, nothing but a session start is followed.
pub proof fn abandoned_session_stays_silent(frame: TouchFrame)
    requires
        !frame@.starts_session(),
    ensures
        OrderedView::abandoned().pushed(frame) == OrderedView::abandoned(),
        OrderedView::abandoned().ready() is None,
        OrderedView::abandoned().acknowledged() is None,
{
}

/// A session start is followed at once, whatever was followed before, unless it is of
/// the session that is followed already.
pub proof fn session_start_switches(state: OrderedView, frame: TouchFrame)
    requires
        frame@.starts_session(),
        state.session_id != Some(frame.session_id),
    ensures
        state.pushed(frame).session_id == Some(frame.session_id),
        state.pushed(frame).ready() == Some(frame),
{
}

/// A push never acknowledges a frame of the session that it keeps following.
pub proof fn push_acknowledges_nothing(state: OrderedView, frame: TouchFrame)
    requires
        !state.begins(frame),
    ensures
        state.pushed(frame).acknowledged() == state.acknowledged(),
{
}

/// A commit acknowledges exactly the ready frame, and takes no other.
pub proof fn commit_acknowledges_ready(state: OrderedView)
    requires
        state.wf(),
        state.ready() is Some,
        state.next_sequence < u64::MAX,
    ensures
        state.ready()->0.sequence == state.next_sequence,
        state.committed().acknowledged() == Some(state.next_sequence),
        forall|sequence: u64|
            sequence != state.next_sequence ==> (#[trigger] state.committed().waiting.dom().contains(
                sequence,
            ) == state.waiting.dom().contains(sequence)),
{
}

/// Without a ready frame nothing is committed.
pub proof fn gap_holds_back(state: OrderedView)
    requires
        state.ready() is None,
    ensures
        state.committed() == state,
{
}

/// A frame of the session that is followed waits for its turn if its number is the next one
/// or one of the 255 behind it; the first one of a number stays. Any other changes nothing.
pub proof fn frames_wait_within_the_window(state: OrderedView, frame: TouchFrame)
    requires
        state.session_id == Some(frame.session_id),
        !state.requires_session_start,
    ensures
        ({
            let after = state.pushed(frame);
            let near = state.next_sequence <= frame.sequence < state.next_sequence + 256;
            &&& after.session_id == state.session_id
            &&& after.next_sequence == state.next_sequence
            &&& after.requires_session_start == state.requires_session_start
            &&& near ==> after.waiting.dom().contains(frame.sequence)
            &&& near && !state.waiting.dom().contains(frame.sequence)
                ==> after.waiting[frame.sequence] == frame
            &&& !near ==> after == state
            &&& forall|other: u64|
                other != frame.sequence || state.waiting.dom().contains(other) ==> {
                    &&& #[trigger] after.waiting.dom().contains(other)
                        == state.waiting.dom().contains(other)
                    &&& after.waiting[other] == state.waiting[other]
                }
        }),
{
}

/// Where no session is followed, the first frame of any begins one and is ready at once;
/// after a session was given up, only one that starts a session does. A frame of another
/// session than the one that is followed changes nothing unless it starts one.
pub proof fn sessions_begin(state: OrderedView, frame: TouchFrame)
    requires
        state.session_id != Some(frame.session_id),
    ensures
        ({
            let after = state.pushed(frame);
            let starts = frame.flags / 2 % 2 == 1;
            let begins = starts || (state.session_id is None && !state.requires_session_start);
            &&& begins ==> {
                &&& after.session_id == Some(frame.session_id)
                &&& after.next_sequence == frame.sequence
                &&& !after.requires_session_start
                &&& after.ready() == Some(frame)
                &&& forall|other: u64|
                    other != frame.sequence ==> !#[trigger] after.waiting.dom().contains(other)
            }
            &&& !begins ==> after == state
        }),
{
    let flags = frame.flags;
    assert((flags & 2 != 0) == (flags / 2 % 2 == 1)) by (bit_vector);
}

/// The state after some commits.
pub open spec fn committed_times(state: OrderedView, times: nat) -> OrderedView
    decreases times,
{
    if times == 0 {
        state
    } else {
        committed_times(state, (times - 1) as nat).committed()
    }
}

/// Frames that wait without a gap are handed out one after the other in the order of their
/// numbers, and acknowledged up to the last one handed out.
pub proof fn waiting_frames_come_out_in_order(state: OrderedView, count: nat)
    requires
        state.wf(),
        state.next_sequence + count < u64::MAX,
        forall|k: int|
            0 <= k < count ==> #[trigger] state.waiting.dom().contains(
                (state.next_sequence + k) as u64,
            ),
    ensures
        ({
            let after = committed_times(state, count);
            &&& after.next_sequence == state.next_sequence + count
            &&& count > 0 ==> after.acknowledged() == Some(
                (state.next_sequence + count - 1) as u64,
            )
            &&& after.session_id == state.session_id
            &&& forall|sequence: u64|
                sequence >= state.next_sequence + count ==> {
                    &&& #[trigger] after.waiting.dom().contains(sequence)
                        == state.waiting.dom().contains(sequence)
                    &&& after.waiting[sequence] == state.waiting[sequence]
                }
        }),
        forall|k: int|
            0 <= k < count ==> #[trigger] committed_times(state, k as nat).ready() == Some(
                state.waiting[(state.next_sequence + k) as u64],
            ),
    decreases count,
{
    if count > 0 {
        let shorter = (count - 1) as nat;
        waiting_frames_come_out_in_order(state, shorter);
        let before = committed_times(state, shorter);
        let next = (state.next_sequence + shorter) as u64;
        assert(state.waiting.dom().contains((state.next_sequence + shorter) as u64));
        assert(before.waiting.dom().contains(next));
        assert(before.ready() == Some(state.waiting[next]));
    }
}

} // verus!
