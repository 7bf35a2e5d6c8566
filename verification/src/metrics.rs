//! What the host records about its run: the queue of events and the events themselves.
use crate::diagnostics::event::{
    Event, ACCEPT, ACK, BEGIN, DUPLICATE, GAP, RECEIVE, SINK_FAILURE,
};
use crate::diagnostics::model;
use crate::protocol::frame::{TouchFrame, ACTION_HEARTBEAT};
use crate::protocol::laws as frames;
use vstd::prelude::*;

verus! {

pub const QUEUE_CAPACITY: usize = 16_384;

/// How many events were published and not yet taken. The indices count modulo the
/// range of `usize`.
pub open spec fn unread(read: usize, write: usize) -> int {
    if write >= read {
        write - read
    } else {
        write - read + usize::MAX + 1
    }
}

/// The slot for the next event, where one is free.
pub fn push_slot(read: usize, write: usize) -> (slot: Option<usize>)
    ensures
        slot == if unread(read, write) == QUEUE_CAPACITY {
            None
        } else {
            Some((write % QUEUE_CAPACITY) as usize)
        },
{
    if write.wrapping_sub(read) == QUEUE_CAPACITY {
        None
    } else {
        Some(write % QUEUE_CAPACITY)
    }
}

/// The slot of the oldest event, where there is one.
pub fn pop_slot(read: usize, write: usize) -> (slot: Option<usize>)
    ensures
        slot == if unread(read, write) == 0 {
            None
        } else {
            Some((read % QUEUE_CAPACITY) as usize)
        },
{
    if read == write {
        None
    } else {
        Some(read % QUEUE_CAPACITY)
    }
}

/// The index after `index`, which starts again at the end of `usize`.
pub open spec fn index_after(index: usize) -> usize {
    if index == usize::MAX {
        0
    } else {
        (index + 1) as usize
    }
}

pub fn next_index(index: usize) -> (next: usize)
    ensures
        next == index_after(index),
{
    index.wrapping_add(1)
}

/// The ring between the input thread and the analysis. It never grows: an event that
/// finds it full is refused.
pub struct Queue {
    slots: Vec<Event>,
    read: usize,
    write: usize,
}

impl View for Queue {
    type V = Seq<Event>;

    /// The events that were published and not yet taken, oldest first.
    closed spec fn view(&self) -> Seq<Event> {
        Seq::new(
            unread(self.read, self.write) as nat,
            |i: int| self.slots@[(self.read + i) % QUEUE_CAPACITY as int],
        )
    }
}

impl Queue {
    pub closed spec fn wf(&self) -> bool {
        self.slots@.len() == QUEUE_CAPACITY && unread(self.read, self.write) <= QUEUE_CAPACITY
    }

    /// How many events were taken so far, counted from where the indices start, as far as
    /// `usize` tells.
    pub closed spec fn read_index(&self) -> usize {
        self.read
    }

    /// How many events were published so far, counted from where the indices start, as far
    /// as `usize` tells.
    pub closed spec fn write_index(&self) -> usize {
        self.write
    }

    pub fn new() -> (queue: Queue)
        ensures
            queue.wf(),
            queue@ == Seq::<Event>::empty(),
            queue.read_index() == 0,
            queue.write_index() == 0,
    {
        Queue::starting_at(0)
    }

    /// An empty queue whose indices start at `index`.
    pub fn starting_at(index: usize) -> (queue: Queue)
        ensures
            queue.wf(),
            queue@ == Seq::<Event>::empty(),
            queue.read_index() == index,
            queue.write_index() == index,
    {
        let mut slots: Vec<Event> = Vec::new();
        let mut i: usize = 0;
        while i < QUEUE_CAPACITY
            invariant
                i <= QUEUE_CAPACITY,
                slots@.len() == i,
            decreases QUEUE_CAPACITY - i,
        {
            slots.push(Event([0; 12]));
            i = i + 1;
        }
        let queue = Queue { slots, read: index, write: index };
        assert(queue@ =~= Seq::<Event>::empty());
        queue
    }

    pub fn push(&mut self, event: Event) -> (taken: bool)
        requires
            old(self).wf(),
        ensures
            final(self).wf(),
            taken == (old(self)@.len() < QUEUE_CAPACITY),
            final(self)@ == if taken {
                old(self)@.push(event)
            } else {
                old(self)@
            },
            final(self).read_index() == old(self).read_index(),
            final(self).write_index() == if taken {
                index_after(old(self).write_index())
            } else {
                old(self).write_index()
            },
    {
        match push_slot(self.read, self.write) {
            None => false,
            Some(slot) => {
                self.slots.set(slot, event);
                self.write = next_index(self.write);
                proof {
                    let count = old(self)@.len() as int;
                    wraps_evenly(old(self).read, old(self).write);
                    assert(slot == (old(self).read + count) % QUEUE_CAPACITY as int);
                    assert forall|i: int| 0 <= i < count implies #[trigger] self@[i]
                        == old(self)@[i] by {
                        slots_differ(old(self).read as int, i, count);
                    }
                    assert(self@ =~= old(self)@.push(event));
                }
                true
            },
        }
    }

    pub fn pop(&mut self) -> (event: Option<Event>)
        requires
            old(self).wf(),
        ensures
            final(self).wf(),
            match event {
                Some(event) => old(self)@.len() > 0 && event == old(self)@[0] && final(self)@
                    == old(self)@.skip(1),
                None => old(self)@.len() == 0 && final(self)@ == old(self)@,
            },
            final(self).write_index() == old(self).write_index(),
            final(self).read_index() == if event is Some {
                index_after(old(self).read_index())
            } else {
                old(self).read_index()
            },
    {
        match pop_slot(self.read, self.write) {
            None => None,
            Some(slot) => {
                let event: Event = self.slots[slot];
                self.read = next_index(self.read);
                proof {
                    assert forall|i: int| 0 <= i < self@.len() implies #[trigger] self@[i]
                        == old(self)@[i + 1] by {
                        if self.read == 0 {
                            wraps_evenly(old(self).read, 0);
                            assert((i + usize::MAX + 1) % QUEUE_CAPACITY as int == i
                                % QUEUE_CAPACITY as int) by (nonlinear_arith)
                                requires
                                    (usize::MAX + 1) % 16384 == 0,
                                    QUEUE_CAPACITY == 16384,
                            ;
                        }
                    }
                    assert(self@ =~= old(self)@.skip(1));
                }
                Some(event)
            },
        }
    }
}

/// The range of `usize` is a whole number of rounds of the ring.
proof fn wraps_evenly(read: usize, write: usize)
    ensures
        (usize::MAX + 1) % 16384 == 0,
        write % QUEUE_CAPACITY == (read + unread(read, write)) % QUEUE_CAPACITY as int,
{
    assert(usize::MAX == 0xffff_ffff || usize::MAX == 0xffff_ffff_ffff_ffff);
    if write < read {
        assert((write + usize::MAX + 1) % QUEUE_CAPACITY as int == write % QUEUE_CAPACITY)
            by (nonlinear_arith)
            requires
                (usize::MAX + 1) % 16384 == 0,
                QUEUE_CAPACITY == 16384,
        ;
    }
}

proof fn slots_differ(read: int, i: int, count: int)
    requires
        0 <= read,
        0 <= i < count < QUEUE_CAPACITY,
    ensures
        (read + i) % QUEUE_CAPACITY as int != (read + count) % QUEUE_CAPACITY as int,
{
    assert((read + i) % 16384 != (read + count) % 16384) by (nonlinear_arith)
        requires
            0 <= read,
            0 <= i < count < 16384,
    ;
}

/// A time in nanoseconds since the start, as far as `u64` goes.
pub fn clock_nanos(elapsed: u128) -> (nanos: u64)
    ensures
        nanos == model::capped(elapsed as int),
{
    if elapsed > u64::MAX as u128 {
        u64::MAX
    } else {
        elapsed as u64
    }
}

/// What is known of a run besides its events.
pub struct HostMetrics {
    pub protocol_version: u8,
    /// Whether events are still taken.
    pub recording: bool,
    /// Whether the analysis is complete.
    pub completed: bool,
    pub transport: String,
    pub environment: String,
    /// Invalid frames, bytes discarded, bytes discarded at the end of a connection.
    pub parser_counters: [u64; 3],
    /// How many events found the queue full.
    pub dropped: u64,
    /// The times of the first and the last of them.
    pub drop_span: Option<[u64; 2]>,
}

#[verifier::ext_equal]
pub struct MetricsView {
    pub protocol_version: u8,
    pub recording: bool,
    pub completed: bool,
    pub transport: Seq<char>,
    pub environment: Seq<char>,
    pub parser_counters: [u64; 3],
    pub dropped: u64,
    pub drop_span: Option<[u64; 2]>,
}

impl View for HostMetrics {
    type V = MetricsView;

    open spec fn view(&self) -> MetricsView {
        MetricsView {
            protocol_version: self.protocol_version,
            recording: self.recording,
            completed: self.completed,
            transport: self.transport@,
            environment: self.environment@,
            parser_counters: self.parser_counters,
            dropped: self.dropped,
            drop_span: self.drop_span,
        }
    }
}

/// The flags of a frame in its event: gameplay, historical, heartbeat, session start.
pub open spec fn receive_flags(frame: TouchFrame) -> u64 {
    (if frame.action == ACTION_HEARTBEAT {
        4u64
    } else if frame@.starts_session() {
        8u64
    } else {
        1u64
    }) | (if frame@.is_historical() {
        2u64
    } else {
        0u64
    })
}

pub open spec fn sink_kind(error: Option<i32>) -> u64 {
    if error is Some {
        SINK_FAILURE
    } else {
        ACCEPT
    }
}

/// An error code in 64 bits, with its sign extended.
pub open spec fn error_word(error: Option<i32>) -> u64 {
    match error {
        Some(code) => if code < 0 {
            (u64::MAX + 1 + code) as u64
        } else {
            code as u64
        },
        None => 0,
    }
}

pub open spec fn sequence_word(sequence: Option<u64>) -> u64 {
    match sequence {
        Some(sequence) => sequence,
        None => u64::MAX,
    }
}

pub open spec fn flag_word(flag: bool) -> u64 {
    if flag {
        1
    } else {
        0
    }
}

impl HostMetrics {
    pub fn new(enabled: bool, protocol_version: u8) -> (metrics: HostMetrics)
        ensures
            metrics@ == (MetricsView {
                protocol_version,
                recording: enabled,
                completed: false,
                transport: seq![],
                environment: seq![],
                parser_counters: [0, 0, 0],
                dropped: 0,
                drop_span: None,
            }),
    {
        let metrics = HostMetrics {
            protocol_version,
            recording: enabled,
            completed: false,
            transport: String::new(),
            environment: String::new(),
            parser_counters: [0, 0, 0],
            dropped: 0,
            drop_span: None,
        };
        assert(metrics@.transport =~= seq![]);
        assert(metrics@.environment =~= seq![]);
        metrics
    }

    /// Whether there is or will be anything to report.
    pub fn enabled(&self) -> (enabled: bool)
        ensures
            enabled == (self.recording || self.completed),
    {
        self.recording || self.completed
    }

    pub fn configure(&mut self, transport: &str, environment: String)
        ensures
            final(self)@ == if old(self).recording || old(self).completed {
                MetricsView { transport: transport@, environment: environment@, ..old(self)@ }
            } else {
                old(self)@
            },
    {
        if self.enabled() {
            self.transport = transport.to_owned();
            self.environment = environment;
        }
    }

    /// Notes whether the queue took an event.
    pub fn record(&mut self, event: &Event, taken: bool)
        requires
            old(self).recording && !taken ==> old(self).dropped < u64::MAX,
        ensures
            final(self)@ == if !old(self).recording || taken {
                old(self)@
            } else {
                MetricsView {
                    dropped: (old(self).dropped + 1) as u64,
                    drop_span: match old(self).drop_span {
                        Some(span) => Some([span[0], event.0[1]]),
                        None => Some([event.0[1], event.0[1]]),
                    },
                    ..old(self)@
                }
            },
    {
        if self.recording && !taken {
            self.dropped = self.dropped + 1;
            self.drop_span = match self.drop_span {
                Some(span) => Some([span[0], event.0[1]]),
                None => Some([event.0[1], event.0[1]]),
            };
        }
    }

    /// An event with two fields of its own.
    pub fn note(
        &self,
        kind: u64,
        now: u64,
        session: u64,
        sequence: u64,
        a: u64,
        b: u64,
    ) -> (event: Option<Event>)
        ensures
            event == if self.recording {
                Some(Event([kind, now, session, sequence, a, b, 0, 0, 0, 0, 0, 0]))
            } else {
                None
            },
    {
        if self.recording {
            Some(Event([kind, now, session, sequence, a, b, 0, 0, 0, 0, 0, 0]))
        } else {
            None
        }
    }

    pub fn begin_connection(&self, now: u64) -> (event: Option<Event>)
        ensures
            event == if self.recording {
                Some(Event([BEGIN, now, 0, 0, 0, 0, 0, 0, 0, 0, 0, 0]))
            } else {
                None
            },
    {
        self.note(BEGIN, now, 0, 0, 0, 0)
    }

    pub fn receive_event(&self, frame: &TouchFrame, arrival: u64, duplicate: bool) -> (event:
        Option<Event>)
        ensures
            event == if self.recording {
                Some(
                    Event(
                        [
                            if duplicate {
                                DUPLICATE
                            } else {
                                RECEIVE
                            },
                            arrival,
                            frame.session_id,
                            frame.sequence,
                            frame.phone_event_nanos,
                            frame.phone_callback_nanos,
                            frame.phone_send_nanos,
                            frame.echo_host_send_nanos,
                            frame.phone_control_receive_nanos,
                            receive_flags(*frame),
                            frame.action as u64,
                            frame.contacts@.len() as u64,
                        ],
                    ),
                )
            } else {
                None
            },
    {
        if !self.recording {
            return None;
        }
        let kind: u64 = if frame.action == ACTION_HEARTBEAT {
            4
        } else if frame.session_start() {
            8
        } else {
            1
        };
        let historical: u64 = if frame.historical() {
            2
        } else {
            0
        };
        Some(
            Event(
                [
                    if duplicate {
                        DUPLICATE
                    } else {
                        RECEIVE
                    },
                    arrival,
                    frame.session_id,
                    frame.sequence,
                    frame.phone_event_nanos,
                    frame.phone_callback_nanos,
                    frame.phone_send_nanos,
                    frame.echo_host_send_nanos,
                    frame.phone_control_receive_nanos,
                    kind | historical,
                    frame.action as u64,
                    frame.contacts.len() as u64,
                ],
            ),
        )
    }

    pub fn observe_gap(&self, now: u64, session: u64, expected: u64, received: u64) -> (event:
        Option<Event>)
        ensures
            event == if self.recording {
                Some(
                    Event(
                        [
                            GAP,
                            now,
                            session,
                            received,
                            expected,
                            model::since(received, expected),
                            0,
                            0,
                            0,
                            0,
                            0,
                            0,
                        ],
                    ),
                )
            } else {
                None
            },
    {
        let missing: u64 = if received < expected {
            0
        } else {
            received - expected
        };
        self.note(GAP, now, session, received, expected, missing)
    }

    /// The outcome of handing a frame to the sink.
    pub fn observe_sink(
        &self,
        frame: &TouchFrame,
        ready: u64,
        end: u64,
        retries: u64,
        error: Option<i32>,
    ) -> (event: Option<Event>)
        ensures
            event == if self.recording {
                Some(
                    Event(
                        [
                            sink_kind(error),
                            end,
                            frame.session_id,
                            frame.sequence,
                            ready,
                            retries,
                            error_word(error),
                            0,
                            0,
                            0,
                            0,
                            0,
                        ],
                    ),
                )
            } else {
                None
            },
    {
        if !self.recording {
            return None;
        }
        let kind: u64 = if error.is_some() {
            SINK_FAILURE
        } else {
            ACCEPT
        };
        let code: u64 = match error {
            Some(code) => if code < 0 {
                u64::MAX - (-(code as i64) - 1) as u64
            } else {
                code as u64
            },
            None => 0,
        };
        Some(
            Event(
                [kind, end, frame.session_id, frame.sequence, ready, retries, code, 0, 0, 0, 0, 0],
            ),
        )
    }

    /// The sending of a control record, with the clock at its start and its end and the time
    /// that it took; `u64::MAX` stands for no sequence.
    pub fn observe_ack(
        &self,
        session: u64,
        sequence: Option<u64>,
        start: u64,
        end: u64,
        took: u64,
        progressed: bool,
        failed: bool,
    ) -> (event: Option<Event>)
        ensures
            event == if self.recording {
                Some(
                    Event(
                        [
                            ACK,
                            end,
                            session,
                            sequence_word(sequence),
                            took,
                            flag_word(progressed),
                            flag_word(failed),
                            start,
                            0,
                            0,
                            0,
                            0,
                        ],
                    ),
                )
            } else {
                None
            },
    {
        if !self.recording {
            return None;
        }
        let acknowledged: u64 = match sequence {
            Some(sequence) => sequence,
            None => u64::MAX,
        };
        let progress: u64 = if progressed {
            1
        } else {
            0
        };
        let failure: u64 = if failed {
            1
        } else {
            0
        };
        Some(
            Event(
                [ACK, end, session, acknowledged, took, progress, failure, start, 0, 0, 0, 0],
            ),
        )
    }

    pub fn observe_ack_write(&self, now: u64, took: u64) -> (event: Option<Event>)
        ensures
            event == if self.recording {
                Some(Event([ACK, now, 0, u64::MAX, took, 0, 0, 0, 0, 0, 0, 0]))
            } else {
                None
            },
    {
        self.note(ACK, now, 0, u64::MAX, took, 0)
    }

    pub fn set_parser_counters(&mut self, invalid: u64, discarded: u64, connection_discarded: u64)
        ensures
            final(self)@ == (MetricsView {
                parser_counters: [invalid, discarded, connection_discarded],
                ..old(self)@
            }),
    {
        self.parser_counters = [invalid, discarded, connection_discarded];
    }

    /// No more events are taken; what was recorded is complete.
    pub fn finish(&mut self)
        ensures
            final(self)@ == if old(self).recording {
                MetricsView { recording: false, completed: true, ..old(self)@ }
            } else {
                old(self)@
            },
    {
        if self.recording {
            self.recording = false;
            self.completed = true;
        }
    }
}

/// An event tells of its frame by single bits: whether it is play, history, a heartbeat or
/// the start of a session. A heartbeat is a frame of action zero; the other two are the
/// second and the third bit of the flags that the frame carries. Only what is neither a
/// heartbeat nor a start counts as play.
pub proof fn flags_tell_of_the_frame(frame: TouchFrame)
    ensures
        ({
            let told = receive_flags(frame);
            let heartbeat = frame.action == 0;
            let start = frame.flags / 2 % 2 == 1;
            &&& told < 16
            &&& (told % 2 == 1) == (!heartbeat && !start)
            &&& (told / 2 % 2 == 1) == (frame.flags / 4 % 2 == 1)
            &&& (told / 4 % 2 == 1) == heartbeat
            &&& (told / 8 % 2 == 1) == (!heartbeat && start)
        }),
{
    frames::frame_flags_mean(frame@);
    assert(4u64 | 2 == 6 && 4u64 | 0 == 4 && 8u64 | 2 == 10 && 8u64 | 0 == 8 && 1u64 | 2 == 3 && 1u64
        | 0 == 1) by (bit_vector);
}

/// The code of a failure can be read back: as a number in two's complement of 64 bits it is
/// the code, and the kind of the event tells a failure from a success.
pub proof fn code_of_a_failure_is_kept(error: Option<i32>)
    ensures
        ({
            let word = error_word(error);
            let read = if word < 0x8000_0000_0000_0000 {
                word as int
            } else {
                word - 0x1_0000_0000_0000_0000
            };
            match error {
                Some(code) => read == code && sink_kind(error) == 8,
                None => read == 0 && sink_kind(error) == 2,
            }
        }),
{
}

/// Slots are handed out in a circle of 16384, each in its turn, and none that still holds
/// an event that was not read.
pub proof fn slots_are_used_in_turn(read: usize, write: usize, other: usize)
    requires
        unread(read, write) < 16384,
        unread(read, other) < unread(read, write),
    ensures
        write % QUEUE_CAPACITY != other % QUEUE_CAPACITY,
{
    wraps_evenly(read, write);
    wraps_evenly(read, other);
    slots_differ(read as int, unread(read, other), unread(read, write));
}

} // verus!
