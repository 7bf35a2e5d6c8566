//! Serving a phone: when to give it up, and what to answer.
use crate::protocol::discovery;
use crate::protocol::discovery::{encode_control, CONTROL_ACK, CONTROL_HELLO};
use crate::protocol::frame::TouchFrame;
use crate::protocol::ordered::{OrderedFrames, OrderedView};
use crate::text;
use vstd::prelude::*;
use vstd::string::*;

verus! {

/// How many frames past the acknowledged one a phone may send.
pub const RECEIVE_WINDOW: u32 = 128;

/// Held input without committed progress is released after this long.
pub const ACTIVE_INPUT_SILENCE_MILLIS: u64 = 32;

/// A phone without held input is given up after this long.
pub const IDLE_PEER_SILENCE_MILLIS: u64 = 2_000;

pub fn idle_peer_timed_out(has_active_input: bool, peer_silence_millis: u64) -> (timed_out: bool)
    ensures
        timed_out == (!has_active_input && peer_silence_millis >= IDLE_PEER_SILENCE_MILLIS),
{
    !has_active_input && peer_silence_millis >= IDLE_PEER_SILENCE_MILLIS
}

/// What to do before the next read.
#[derive(Clone, Copy, Debug, PartialEq, Eq, Structural)]
pub enum Watch {
    /// The phone has been silent for too long.
    IdleTimeout,
    /// Held input has made no progress for too long: it is released.
    ActiveTimeout,
    /// To read; greetings are looked at only while no input is held.
    Read { allow_discovery: bool },
}

pub open spec fn watched(has_active_input: bool, peer_silence: u64, commit_silence: u64) -> Watch {
    if has_active_input {
        if commit_silence >= ACTIVE_INPUT_SILENCE_MILLIS {
            Watch::ActiveTimeout
        } else {
            Watch::Read { allow_discovery: false }
        }
    } else if peer_silence >= IDLE_PEER_SILENCE_MILLIS {
        Watch::IdleTimeout
    } else {
        Watch::Read { allow_discovery: true }
    }
}

/// Judges the silence before every read. The times are in milliseconds, since the last
/// valid datagram and since the last committed frame.
pub fn watch(has_active_input: bool, peer_silence: u64, commit_silence: u64) -> (watch: Watch)
    ensures
        watch == watched(has_active_input, peer_silence, commit_silence),
{
    if idle_peer_timed_out(has_active_input, peer_silence) {
        return Watch::IdleTimeout;
    }
    if has_active_input && commit_silence >= ACTIVE_INPUT_SILENCE_MILLIS {
        return Watch::ActiveTimeout;
    }
    Watch::Read { allow_discovery: !has_active_input }
}

/// What is said when the silence was too long.
pub fn watch_message(idle: bool) -> (message: String)
    ensures
        message@ == if idle {
            "phone sent no valid peer activity for "@ + text::decimal(
                IDLE_PEER_SILENCE_MILLIS as nat,
            ) + " ms; returning to discovery"@
        } else {
            "phone input made no committed progress for "@ + text::decimal(
                ACTIVE_INPUT_SILENCE_MILLIS as nat,
            ) + " ms; released held input and require a fresh session"@
        },
{
    if idle {
        let mut message: String = text::numbered(
            "phone sent no valid peer activity for ",
            IDLE_PEER_SILENCE_MILLIS,
        );
        message.append(" ms; returning to discovery");
        message
    } else {
        let mut message: String = text::numbered(
            "phone input made no committed progress for ",
            ACTIVE_INPUT_SILENCE_MILLIS,
        );
        message.append(" ms; released held input and require a fresh session");
        message
    }
}

/// What is said to a phone of another version.
pub fn version_message(version: u8) -> (message: String)
    ensures
        message@ == "phone is sending protocol v"@ + text::decimal(version as nat)
            + "; install the matching protocol-v4 alpha APK"@,
{
    let mut message: String = text::numbered("phone is sending protocol v", version as u64);
    message.append("; install the matching protocol-v4 alpha APK");
    message
}

/// How a frame relates to those before it.
#[derive(Clone, Copy, Debug, PartialEq, Eq, Structural)]
pub struct Arrival {
    /// The frame was seen before.
    pub replay: bool,
    /// The sequence that was expected in place of it, where some are missing.
    pub gap: Option<u64>,
}

pub open spec fn arrival_of(ordered: OrderedView, frame: TouchFrame) -> Arrival {
    let same = ordered.session_id == Some(frame.session_id);
    let replay = same && (frame.sequence < ordered.next_sequence
        || ordered.waiting.dom().contains(frame.sequence));
    Arrival {
        replay,
        gap: if same && !replay && frame.sequence > ordered.next_sequence {
            Some(ordered.next_sequence)
        } else {
            None
        },
    }
}

/// Classifies a frame before it is put in order.
pub fn classify(ordered: &OrderedFrames, frame: &TouchFrame) -> (arrival: Arrival)
    requires
        ordered.wf(),
    ensures
        arrival == arrival_of(ordered@, *frame),
{
    let same: bool = match ordered.session_id() {
        Some(session_id) => session_id == frame.session_id,
        None => false,
    };
    let expected: u64 = ordered.expected_sequence();
    let replay: bool = same && (frame.sequence < expected || ordered.contains_sequence(
        frame.sequence,
    ));
    let gap: Option<u64> = if same && !replay && frame.sequence > expected {
        Some(expected)
    } else {
        None
    };
    Arrival { replay, gap }
}

/// A control record that answers a frame.
#[derive(Clone, Copy, Debug, PartialEq, Eq, Structural)]
pub struct Reply {
    pub kind: u8,
    pub session_id: u64,
    pub acknowledged: Option<u64>,
}

impl Reply {
    /// The record as it is sent.
    pub fn encode(&self, lane_count: u8, host_send_nanos: u64) -> (record: [u8; 40])
        ensures
            record@ == discovery::sealed(
                discovery::control_fields(
                    self.kind,
                    lane_count,
                    self.session_id,
                    self.acknowledged,
                    RECEIVE_WINDOW,
                    host_send_nanos,
                ),
            ),
    {
        encode_control(
            self.kind,
            lane_count,
            self.session_id,
            self.acknowledged,
            RECEIVE_WINDOW,
            host_send_nanos,
        )
    }

    /// The line that says that a session is served.
    pub fn ready_line(&self) -> (line: String)
        ensures
            line@ == "Lossless stream ready (session "@ + text::hex(self.session_id as nat, 16)
                + ", acknowledged="@ + match self.acknowledged {
                Some(sequence) => "Some("@ + text::decimal(sequence as nat) + ")"@,
                None => "None"@,
            } + ")"@,
    {
        let mut line: String = "Lossless stream ready (session ".to_owned();
        text::push_hex(&mut line, self.session_id, 16);
        line.append(", acknowledged=");
        let mut acknowledged: String = String::new();
        match self.acknowledged {
            Some(sequence) => {
                acknowledged.append("Some(");
                text::push_decimal(&mut acknowledged, sequence as u128);
                acknowledged.append(")");
                assert(acknowledged@ =~= "Some("@ + text::decimal(sequence as nat) + ")"@);
            },
            None => {
                acknowledged.append("None");
                assert(acknowledged@ =~= "None"@);
            },
        }
        line.append(acknowledged.as_str());
        line.append(")");
        line
    }
}

/// Which sessions were greeted, and what was last acknowledged.
#[derive(Clone, Copy, Debug, PartialEq, Eq, Structural)]
pub struct ControlState {
    pub hello_session: Option<u64>,
    pub last_ack: Option<u64>,
}

impl ControlState {
    /// The answer to a frame of session `incoming`: a greeting where the session was not
    /// greeted, else an acknowledgement. A frame of a session that is not followed gets
    /// none.
    pub open spec fn answer(self, ordered: OrderedView, incoming: u64) -> Option<Reply> {
        if ordered.session_id == Some(incoming) {
            Some(
                Reply {
                    kind: if self.hello_session == Some(incoming) {
                        CONTROL_ACK
                    } else {
                        CONTROL_HELLO
                    },
                    session_id: incoming,
                    acknowledged: ordered.acknowledged(),
                },
            )
        } else {
            None
        }
    }

    pub open spec fn answered(self, ordered: OrderedView, incoming: u64) -> ControlState {
        if ordered.session_id == Some(incoming) {
            ControlState { hello_session: Some(incoming), last_ack: ordered.acknowledged() }
        } else {
            self
        }
    }

    pub fn new() -> (state: ControlState)
        ensures
            state == (ControlState { hello_session: None, last_ack: None }),
    {
        ControlState { hello_session: None, last_ack: None }
    }

    /// Answers a frame of session `incoming`, once what is ready was committed. Frames
    /// seen before are answered too: the answer may be what was lost.
    pub fn reply(&mut self, ordered: &OrderedFrames, incoming: u64) -> (reply: Option<Reply>)
        ensures
            reply == old(self).answer(ordered@, incoming),
            *final(self) == old(self).answered(ordered@, incoming),
    {
        let session_id: u64 = match ordered.session_id() {
            Some(session_id) => session_id,
            None => {
                return None;
            },
        };
        if session_id != incoming {
            return None;
        }
        let acknowledged: Option<u64> = ordered.acknowledged_sequence();
        let greeted: bool = match self.hello_session {
            Some(greeted) => greeted == session_id,
            None => false,
        };
        let kind: u8 = if greeted {
            CONTROL_ACK
        } else {
            CONTROL_HELLO
        };
        self.hello_session = Some(session_id);
        self.last_ack = acknowledged;
        Some(Reply { kind, session_id, acknowledged })
    }
}

/// A session is greeted once: whatever is answered to it next is an acknowledgement,
/// whether the frame was seen before or not.
pub proof fn session_is_greeted_once(
    state: ControlState,
    before: OrderedView,
    after: OrderedView,
    incoming: u64,
)
    requires
        before.session_id == Some(incoming),
        after.session_id == Some(incoming),
    ensures
        state.answered(before, incoming).answer(after, incoming) == Some(
            Reply {
                kind: CONTROL_ACK,
                session_id: incoming,
                acknowledged: after.acknowledged(),
            },
        ),
{
}

/// Input is never held in silence: while it is held, greetings are ignored, and after the
/// limit it is released whatever else the phone sends.
pub proof fn held_input_is_released(peer_silence: u64, commit_silence: u64)
    ensures
        watched(true, peer_silence, commit_silence) == if commit_silence
            >= ACTIVE_INPUT_SILENCE_MILLIS {
            Watch::ActiveTimeout
        } else {
            Watch::Read { allow_discovery: false }
        },
{
}

/// The number of lanes that a control record can state.
pub fn stated_lanes(lanes: usize) -> (count: u8)
    ensures
        count == if lanes > u8::MAX {
            u8::MAX
        } else {
            lanes as u8
        },
{
    if lanes > u8::MAX as usize {
        u8::MAX
    } else {
        lanes as u8
    }
}

/// Held input is released after 32 milliseconds without a committed frame, whatever else the
/// phone sends; a phone without held input is given up after two seconds of silence; until
/// then it is read, and greetings are looked at exactly while no input is held.
pub proof fn silence_has_its_limits(held: bool, peer_silence: u64, commit_silence: u64)
    ensures
        ({
            let watch = watched(held, peer_silence, commit_silence);
            &&& watch == Watch::ActiveTimeout <==> held && commit_silence >= 32
            &&& watch == Watch::IdleTimeout <==> !held && peer_silence >= 2000
            &&& watch == (Watch::Read { allow_discovery: true }) <==> !held && peer_silence < 2000
            &&& watch == (Watch::Read { allow_discovery: false }) <==> held && commit_silence < 32
        }),
{
}

/// A frame is a replay exactly if it was committed or waits already, and then it changes
/// nothing; it leaves a gap exactly if it is ahead of the one that is expected; and one that
/// is neither is the very one that is ready next.
pub proof fn arrivals_are_told_apart(ordered: OrderedView, frame: TouchFrame)
    requires
        ordered.session_id == Some(frame.session_id),
        !ordered.requires_session_start,
    ensures
        ({
            let arrival = arrival_of(ordered, frame);
            let after = ordered.pushed(frame);
            &&& arrival.replay ==> after == ordered && arrival.gap is None
            &&& !arrival.replay ==> frame.sequence >= ordered.next_sequence
            &&& arrival.gap matches Some(expected) ==> expected == ordered.next_sequence
                && frame.sequence > expected && after.ready() == ordered.ready()
            &&& !arrival.replay && arrival.gap is None ==> frame.sequence == ordered.next_sequence
                && after.ready() == Some(frame)
            &&& !arrival.replay && frame.sequence < ordered.next_sequence + 256 ==> after != ordered
        }),
{
    if !arrival_of(ordered, frame).replay && frame.sequence < ordered.next_sequence + 256 {
        assert(ordered.pushed(frame).waiting.dom().contains(frame.sequence));
    }
}

/// A frame of a session that is not followed, or of none, is neither a replay nor ahead.
pub proof fn strangers_are_no_replays(ordered: OrderedView, frame: TouchFrame)
    requires
        ordered.session_id != Some(frame.session_id),
    ensures
        !arrival_of(ordered, frame).replay,
        arrival_of(ordered, frame).gap is None,
{
}

/// Every frame of the session that is followed is answered, and no other: with a greeting the
/// first time and an acknowledgement from then on, and always with the number before the one
/// that is expected, or none before the first.
pub proof fn answers_acknowledge_what_was_committed(
    state: ControlState,
    ordered: OrderedView,
    incoming: u64,
)
    ensures
        state.answer(ordered, incoming) is Some <==> ordered.session_id == Some(incoming),
        state.answer(ordered, incoming) matches Some(reply) ==> {
            &&& reply.session_id == incoming
            &&& reply.kind == (if state.hello_session == Some(incoming) {
                2int
            } else {
                1int
            })
            &&& ordered.next_sequence == 0 ==> reply.acknowledged is None
            &&& ordered.next_sequence > 0 ==> reply.acknowledged is Some
                && reply.acknowledged->0 + 1 == ordered.next_sequence
            &&& state.answered(ordered, incoming).last_ack == reply.acknowledged
            &&& state.answered(ordered, incoming).hello_session == Some(incoming)
        },
{
}

} // verus!
