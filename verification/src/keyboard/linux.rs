//! Key changes as evdev events, and what a short write of them leaves behind.
use crate::keyboard::keys;
use crate::keyboard::keys::{linux_keycode, KeyError};
use crate::keyboard::plan::KeyChange;
use crate::text;
use crate::text::push_decimal;
use vstd::prelude::*;
use vstd::string::*;

verus! {

pub const EV_SYN: u16 = 0x00;

pub const EV_KEY: u16 = 0x01;

pub const SYN_REPORT: u16 = 0;

/// The device is named as what it is: virtual.
pub const BUS_VIRTUAL: u16 = 0x06;

/// An event of the input subsystem, without its time.
#[derive(Clone, Copy, Debug, PartialEq, Eq, Structural)]
pub struct InputEvent {
    pub kind: u16,
    pub code: u16,
    pub value: i32,
}

pub open spec fn key_event_of(code: u16, down: bool) -> InputEvent {
    InputEvent {
        kind: EV_KEY,
        code,
        value: if down {
            1i32
        } else {
            0i32
        },
    }
}

/// The event that makes the ones before it take effect.
pub open spec fn sync_event_of() -> InputEvent {
    InputEvent { kind: EV_SYN, code: SYN_REPORT, value: 0 }
}

pub fn key_event(code: u16, down: bool) -> (event: InputEvent)
    ensures
        event == key_event_of(code, down),
{
    InputEvent {
        kind: EV_KEY,
        code,
        value: if down {
            1
        } else {
            0
        },
    }
}

pub fn sync_event() -> (event: InputEvent)
    ensures
        event == sync_event_of(),
{
    InputEvent { kind: EV_SYN, code: SYN_REPORT, value: 0 }
}

/// The request number of an ioctl: direction, size, type and number.
pub fn ioc(direction: u32, kind: u8, number: u8, size: u32) -> (request: u32)
    requires
        direction < 4,
        size < 0x4000,
    ensures
        request == direction * 0x4000_0000 + size * 0x1_0000 + kind * 0x100 + number,
{
    direction * 0x4000_0000 + size * 0x1_0000 + kind as u32 * 0x100 + number as u32
}

/// A change and the sync after it, for each change.
pub open spec fn change_events(keycodes: Seq<u16>, changes: Seq<KeyChange>) -> Seq<InputEvent> {
    Seq::new(
        2 * changes.len(),
        |i: int|
            if i % 2 == 0 {
                key_event_of(keycodes[changes[i / 2].lane as int], changes[i / 2].down)
            } else {
                sync_event_of()
            },
    )
}

/// What was written without the sync that makes it take effect.
#[derive(Clone, Copy, Debug, PartialEq, Eq, Structural)]
pub enum PendingWrite {
    /// A change: it does not count until a later write completes it.
    Change(KeyChange),
    /// The event that takes a change back.
    CleanupSync,
}

/// Why changes are not, or not wholly, written.
#[derive(Clone, Copy, Debug, PartialEq, Eq, Structural)]
pub enum SubmitError {
    CancellationPending,
    RetryMismatch,
    WriteZero,
    InvalidCount { reported: usize, requested: usize },
    /// A cancellation whose sync is still owed.
    SyncOwed,
    /// The write itself failed.
    WriteFailed,
    /// A write that is no whole number of events.
    BadLength { written: usize, requested: usize },
}

impl SubmitError {
    /// The text for a reader.
    pub open spec fn wording(self) -> Seq<char> {
        match self {
            SubmitError::CancellationPending => "uinput cancellation sync is still pending"@,
            SubmitError::RetryMismatch => {
                "uinput retry does not match the unsynchronized transition"@
            },
            SubmitError::WriteZero => "uinput accepted no events"@,
            SubmitError::InvalidCount { reported, requested } => "uinput reported "@
                + text::decimal(reported as nat) + " of "@ + text::decimal(requested as nat)
                + " events"@,
            SubmitError::SyncOwed => {
                "uinput cancellation accepted the key event but not its SYN_REPORT"@
            },
            SubmitError::WriteFailed => "uinput write failed"@,
            SubmitError::BadLength { written, requested } => "invalid uinput event write length: "@
                + text::decimal(written as nat) + "/"@ + text::decimal(requested as nat)
                + " bytes"@,
        }
    }

    pub fn message(&self) -> (message: String)
        ensures
            message@ == self.wording(),
    {
        match *self {
            SubmitError::CancellationPending => {
                "uinput cancellation sync is still pending".to_owned()
            },
            SubmitError::RetryMismatch => {
                "uinput retry does not match the unsynchronized transition".to_owned()
            },
            SubmitError::WriteZero => "uinput accepted no events".to_owned(),
            SubmitError::InvalidCount { reported, requested } => {
                let mut message: String = "uinput reported ".to_owned();
                push_decimal(&mut message, reported as u128);
                message.append(" of ");
                push_decimal(&mut message, requested as u128);
                message.append(" events");
                message
            },
            SubmitError::SyncOwed => {
                "uinput cancellation accepted the key event but not its SYN_REPORT".to_owned()
            },
            SubmitError::WriteFailed => "uinput write failed".to_owned(),
            SubmitError::BadLength { written, requested } => {
                let mut message: String = "invalid uinput event write length: ".to_owned();
                push_decimal(&mut message, written as u128);
                message.append("/");
                push_decimal(&mut message, requested as u128);
                message.append(" bytes");
                message
            },
        }
    }
}

/// How many events a write of some bytes holds.
pub fn whole_events(written: usize, requested: usize, event_size: usize) -> (result: Result<
    usize,
    SubmitError,
>)
    requires
        event_size > 0,
    ensures
        match result {
            Ok(count) => written <= requested && written % event_size == 0 && count == written
                / event_size,
            Err(error) => (written > requested || written % event_size != 0) && error
                == (SubmitError::BadLength { written, requested }),
        },
{
    if written > requested || written % event_size != 0 {
        Err(SubmitError::BadLength { written, requested })
    } else {
        Ok(written / event_size)
    }
}

/// What a submission has to write first.
#[derive(Clone, Copy, Debug, PartialEq, Eq, Structural)]
pub enum FirstWrite {
    /// Nothing: there are no changes.
    Nothing,
    /// The sync that completes the change of the last write.
    Sync,
    /// The changes.
    Changes,
}

/// The key codes of the lanes, and what the last write left behind.
#[verifier::ext_equal]
pub struct KeySinkView {
    pub keycodes: Seq<u16>,
    pub pending: Option<PendingWrite>,
}

impl KeySinkView {
    /// What a submission starts with, or why it cannot start: an unfinished change is
    /// finished first, and only by the submission that starts with it.
    pub open spec fn first_write(self, changes: Seq<KeyChange>) -> Result<FirstWrite, SubmitError> {
        match self.pending {
            Some(PendingWrite::CleanupSync) => Err(SubmitError::CancellationPending),
            Some(PendingWrite::Change(change)) => if changes.len() > 0 && changes[0] == change {
                Ok(FirstWrite::Sync)
            } else {
                Err(SubmitError::RetryMismatch)
            },
            None => if changes.len() == 0 {
                Ok(FirstWrite::Nothing)
            } else {
                Ok(FirstWrite::Changes)
            },
        }
    }

    /// The state after a write of the changes took `written` events: a change without its
    /// sync is remembered.
    pub open spec fn after_changes(self, changes: Seq<KeyChange>, written: nat) -> KeySinkView {
        if written % 2 != 0 {
            KeySinkView {
                pending: Some(PendingWrite::Change(changes[written as int / 2])),
                ..self
            }
        } else {
            self
        }
    }

    /// The events that take back what the last write left behind.
    pub open spec fn cleanup(self) -> Seq<InputEvent> {
        match self.pending {
            None => seq![],
            Some(PendingWrite::Change(change)) => if change.down {
                seq![key_event_of(self.keycodes[change.lane as int], false), sync_event_of()]
            } else {
                seq![sync_event_of()]
            },
            Some(PendingWrite::CleanupSync) => seq![sync_event_of()],
        }
    }

    pub open spec fn wf(self) -> bool {
        self.pending matches Some(PendingWrite::Change(change)) ==> change.lane
            < self.keycodes.len()
    }
}

/// The writer of key changes, without the device.
pub struct KeySink {
    keycodes: Vec<u16>,
    pending: Option<PendingWrite>,
}

impl View for KeySink {
    type V = KeySinkView;

    closed spec fn view(&self) -> KeySinkView {
        KeySinkView { keycodes: self.keycodes@, pending: self.pending }
    }
}

/// Whether a key of a lane is a letter or a digit.
pub open spec fn names_key(name: Seq<char>) -> bool {
    name.len() == 1 && text::is_alphanumeric(name[0])
}

/// The first key that is none stands at `i`.
pub open spec fn first_bad_key(keys: Seq<String>, i: int) -> bool {
    &&& 0 <= i < keys.len()
    &&& !names_key(keys[i]@)
    &&& forall|j: int| 0 <= j < i ==> names_key((#[trigger] keys[j])@)
}

impl KeySink {
    /// A writer for lane keys, or what is wrong with the first bad one.
    pub fn new(keys: &Vec<String>) -> (result: Result<KeySink, KeyError>)
        ensures
            match result {
                Ok(sink) => sink@.wf() && sink@.pending is None && sink@.keycodes.len()
                    == keys@.len() && forall|i: int|
                    0 <= i < keys@.len() ==> {
                        let name = (#[trigger] keys@[i])@;
                        names_key(name) && sink@.keycodes[i] == keys::evdev_code(
                            text::upper(name[0]),
                        )
                    },
                Err(KeyError::Empty) => exists|i: int| #[trigger]
                    first_bad_key(keys@, i) && keys@[i]@.len() == 0,
                Err(KeyError::NotAlphanumeric(named)) => exists|i: int| #[trigger]
                    first_bad_key(keys@, i) && keys@[i]@.len() > 0 && keys@[i]@ == named@,
                Err(_) => false,
            },
    {
        let mut keycodes: Vec<u16> = Vec::new();
        let mut i: usize = 0;
        while i < keys.len()
            invariant
                i <= keys@.len(),
                keycodes@.len() == i,
                forall|j: int|
                    0 <= j < i ==> {
                        let name = (#[trigger] keys@[j])@;
                        names_key(name) && keycodes@[j] == keys::evdev_code(text::upper(name[0]))
                    },
            decreases keys@.len() - i,
        {
            match linux_keycode(keys[i].as_str()) {
                Ok(code) => keycodes.push(code),
                Err(error) => {
                    assert(first_bad_key(keys@, i as int));
                    return Err(error);
                },
            }
            i = i + 1;
        }
        Ok(KeySink { keycodes, pending: None })
    }

    /// A writer for key codes.
    pub fn with_keycodes(keycodes: Vec<u16>) -> (sink: KeySink)
        ensures
            sink@.wf(),
            sink@ == (KeySinkView { keycodes: keycodes@, pending: None }),
    {
        KeySink { keycodes, pending: None }
    }

    pub fn lane_count(&self) -> (count: usize)
        ensures
            count == self@.keycodes.len(),
    {
        self.keycodes.len()
    }

    pub fn keycode(&self, lane: usize) -> (code: u16)
        requires
            lane < self@.keycodes.len(),
        ensures
            code == self@.keycodes[lane as int],
    {
        self.keycodes[lane]
    }

    /// Whether an event was written without its sync.
    pub fn has_pending_submission(&self) -> (pending: bool)
        ensures
            pending == self@.pending is Some,
    {
        self.pending.is_some()
    }

    /// What a submission of some changes starts with.
    pub fn begin_submit(&self, changes: &Vec<KeyChange>) -> (result: Result<FirstWrite, SubmitError>)
        ensures
            result == self@.first_write(changes@),
    {
        match self.pending {
            Some(PendingWrite::CleanupSync) => Err(SubmitError::CancellationPending),
            Some(PendingWrite::Change(change)) => if changes.len() > 0 && changes[0] == change {
                Ok(FirstWrite::Sync)
            } else {
                Err(SubmitError::RetryMismatch)
            },
            None => if changes.len() == 0 {
                Ok(FirstWrite::Nothing)
            } else {
                Ok(FirstWrite::Changes)
            },
        }
    }

    /// Takes note of the write of a sync: it completes the unfinished change, or fails.
    pub fn sync_written(&mut self, outcome: Option<usize>) -> (result: Result<(), SubmitError>)
        requires
            old(self)@.wf(),
        ensures
            final(self)@.wf(),
            match outcome {
                Some(1) => result is Ok && final(self)@ == (KeySinkView {
                    pending: None,
                    ..old(self)@
                }),
                Some(0) => result == Err::<(), SubmitError>(SubmitError::WriteZero) && final(self)@
                    == old(self)@,
                Some(count) => result == Err::<(), SubmitError>(
                    SubmitError::InvalidCount { reported: count, requested: 1 },
                ) && final(self)@ == old(self)@,
                None => result == Err::<(), SubmitError>(SubmitError::WriteFailed) && final(self)@
                    == old(self)@,
            },
    {
        match outcome {
            Some(1) => {
                self.pending = None;
                Ok(())
            },
            Some(0) => Err(SubmitError::WriteZero),
            Some(count) => Err(SubmitError::InvalidCount { reported: count, requested: 1 }),
            None => Err(SubmitError::WriteFailed),
        }
    }

    /// The events of the changes from `from` on.
    pub fn encode_changes(&self, changes: &Vec<KeyChange>, from: usize) -> (events: Vec<InputEvent>)
        requires
            from <= changes@.len(),
            forall|i: int|
                0 <= i < changes@.len() ==> (#[trigger] changes@[i]).lane < self@.keycodes.len(),
        ensures
            events@ == change_events(
                self@.keycodes,
                changes@.subrange(from as int, changes@.len() as int),
            ),
    {
        let ghost rest = changes@.subrange(from as int, changes@.len() as int);
        let mut events: Vec<InputEvent> = Vec::new();
        let mut i: usize = from;
        while i < changes.len()
            invariant
                from <= i <= changes@.len(),
                rest == changes@.subrange(from as int, changes@.len() as int),
                forall|j: int|
                    0 <= j < changes@.len() ==> (#[trigger] changes@[j]).lane
                        < self@.keycodes.len(),
                events@.len() == 2 * (i - from),
                events@ == change_events(self@.keycodes, rest).subrange(0, events@.len() as int),
            decreases changes@.len() - i,
        {
            let change: KeyChange = changes[i];
            assert(rest[i - from] == change);
            events.push(key_event(self.keycodes[change.lane], change.down));
            events.push(sync_event());
            i = i + 1;
            assert(events@ =~= change_events(self@.keycodes, rest).subrange(
                0,
                events@.len() as int,
            ));
        }
        assert(events@ =~= change_events(self@.keycodes, rest));
        events
    }

    /// Takes note of the write of the changes from `accepted` on, and returns how many
    /// changes have taken effect in all. Once a change has, a failed write is no error:
    /// the rest is left for the next submission.
    pub fn changes_written(
        &mut self,
        changes: &Vec<KeyChange>,
        accepted: usize,
        outcome: Option<usize>,
    ) -> (result: Result<usize, SubmitError>)
        requires
            old(self)@.wf(),
            old(self)@.pending is None,
            accepted <= 1,
            accepted < changes@.len(),
            changes@.len() <= 0x7fff_ffff,
            forall|i: int|
                0 <= i < changes@.len() ==> (#[trigger] changes@[i]).lane < old(
                    self,
                )@.keycodes.len(),
        ensures
            final(self)@.wf(),
            ({
                let rest = changes@.subrange(accepted as int, changes@.len() as int);
                let requested = 2 * rest.len();
                match outcome {
                    None => final(self)@ == old(self)@ && result == if accepted == 0 {
                        Err::<usize, SubmitError>(SubmitError::WriteFailed)
                    } else {
                        Ok(accepted)
                    },
                    Some(written) => if written == 0 {
                        final(self)@ == old(self)@ && result == if accepted == 0 {
                            Err::<usize, SubmitError>(SubmitError::WriteZero)
                        } else {
                            Ok(accepted)
                        }
                    } else if written > requested {
                        final(self)@ == old(self)@ && result == Err::<usize, SubmitError>(
                            SubmitError::InvalidCount {
                                reported: written,
                                requested: requested as usize,
                            },
                        )
                    } else {
                        final(self)@ == old(self)@.after_changes(rest, written as nat) && result
                            == Ok::<usize, SubmitError>((accepted + written / 2) as usize)
                    },
                }
            }),
    {
        let left: usize = changes.len() - accepted;
        let requested: usize = 2 * left;
        let ghost rest = changes@.subrange(accepted as int, changes@.len() as int);
        let written: usize = match outcome {
            None => {
                return if accepted == 0 {
                    Err(SubmitError::WriteFailed)
                } else {
                    Ok(accepted)
                };
            },
            Some(written) => written,
        };
        if written == 0 {
            return if accepted == 0 {
                Err(SubmitError::WriteZero)
            } else {
                Ok(accepted)
            };
        }
        if written > requested {
            return Err(SubmitError::InvalidCount { reported: written, requested });
        }
        let complete: usize = written / 2;
        if written % 2 != 0 {
            assert(rest[complete as int] == changes@[accepted + complete]);
            self.pending = Some(PendingWrite::Change(changes[accepted + complete]));
        }
        Ok(accepted + complete)
    }

    /// The events that take back what the last write left behind.
    pub fn cleanup_events(&self) -> (events: Vec<InputEvent>)
        requires
            self@.wf(),
        ensures
            events@ == self@.cleanup(),
    {
        let mut events: Vec<InputEvent> = Vec::new();
        match self.pending {
            None => {},
            Some(PendingWrite::Change(change)) => {
                if change.down {
                    events.push(key_event(self.keycodes[change.lane], false));
                }
                events.push(sync_event());
            },
            Some(PendingWrite::CleanupSync) => {
                events.push(sync_event());
            },
        }
        assert(events@ =~= self@.cleanup());
        events
    }

    /// Takes note of the write of the cleanup. Its key event without its sync leaves the
    /// sync owed.
    pub fn cleanup_written(&mut self, outcome: Option<usize>) -> (result: Result<(), SubmitError>)
        requires
            old(self)@.wf(),
        ensures
            final(self)@.wf(),
            ({
                let requested = old(self)@.cleanup().len();
                match outcome {
                    None => final(self)@ == old(self)@ && result == if requested == 0 {
                        Ok::<(), SubmitError>(())
                    } else {
                        Err(SubmitError::WriteFailed)
                    },
                    Some(written) => if requested == 0 {
                        result is Ok && final(self)@ == old(self)@
                    } else if written == 0 {
                        result == Err::<(), SubmitError>(SubmitError::WriteZero) && final(self)@
                            == old(self)@
                    } else if written > requested {
                        result == Err::<(), SubmitError>(
                            SubmitError::InvalidCount {
                                reported: written,
                                requested: requested as usize,
                            },
                        ) && final(self)@ == old(self)@
                    } else if written == requested {
                        result is Ok && final(self)@ == (KeySinkView {
                            pending: None,
                            ..old(self)@
                        })
                    } else {
                        result == Err::<(), SubmitError>(SubmitError::SyncOwed) && final(self)@ == (
                        KeySinkView { pending: Some(PendingWrite::CleanupSync), ..old(self)@ })
                    },
                }
            }),
    {
        let requested: usize = match self.pending {
            None => 0,
            Some(PendingWrite::Change(change)) => if change.down {
                2
            } else {
                1
            },
            Some(PendingWrite::CleanupSync) => 1,
        };
        if requested == 0 {
            return Ok(());
        }
        match outcome {
            None => Err(SubmitError::WriteFailed),
            Some(written) => {
                if written == 0 {
                    Err(SubmitError::WriteZero)
                } else if written > requested {
                    Err(SubmitError::InvalidCount { reported: written, requested })
                } else if written == requested {
                    self.pending = None;
                    Ok(())
                } else {
                    self.pending = Some(PendingWrite::CleanupSync);
                    Err(SubmitError::SyncOwed)
                }
            },
        }
    }
}

/// A write that stopped between a change and its sync leaves that change uncounted: the
/// next submission starts with it and completes it by its sync alone.
pub proof fn unfinished_change_is_finished_first(
    sink: KeySinkView,
    changes: Seq<KeyChange>,
    written: nat,
)
    requires
        sink.pending is None,
        written % 2 == 1,
        written < 2 * changes.len(),
    ensures
        ({
            let left = changes.subrange(written as int / 2, changes.len() as int);
            let after = sink.after_changes(changes, written);
            after.first_write(left) == Ok::<FirstWrite, SubmitError>(FirstWrite::Sync)
        }),
{
    let left = changes.subrange(written as int / 2, changes.len() as int);
    assert(left[0] == changes[written as int / 2]);
}

/// A write of whole changes leaves nothing behind.
pub proof fn whole_changes_leave_nothing(sink: KeySinkView, changes: Seq<KeyChange>, written: nat)
    requires
        sink.pending is None,
        written % 2 == 0,
    ensures
        sink.after_changes(changes, written).pending is None,
{
}

/// Cancelling an unfinished key-down releases that key before anything else is written.
pub proof fn cancellation_releases_the_key(sink: KeySinkView, change: KeyChange)
    requires
        sink.pending == Some(PendingWrite::Change(change)),
        change.down,
    ensures
        sink.cleanup()[0] == key_event_of(sink.keycodes[change.lane as int], false),
        sink.cleanup()[1] == sync_event_of(),
{
}

/// Every change is written as an event of its lane's key, down as one and up as zero, with a
/// report behind it that makes it take effect on its own.
pub proof fn every_change_is_reported_alone(
    keycodes: Seq<u16>,
    changes: Seq<KeyChange>,
    i: int,
)
    requires
        0 <= i < changes.len(),
    ensures
        ({
            let events = change_events(keycodes, changes);
            let key = events[2 * i];
            let report = events[2 * i + 1];
            &&& events.len() == 2 * changes.len()
            &&& key.kind == 1 && key.code == keycodes[changes[i].lane as int] && key.value == (
            if changes[i].down {
                1int
            } else {
                0int
            })
            &&& report.kind == 0 && report.code == 0 && report.value == 0
        }),
{
}

/// A write that ends between a change and its report leaves that change to be finished, and
/// no other.
pub proof fn broken_write_leaves_its_change(
    sink: KeySinkView,
    changes: Seq<KeyChange>,
    i: int,
)
    requires
        sink.pending is None,
        0 <= i < changes.len(),
    ensures
        sink.after_changes(changes, (2 * i + 1) as nat).pending == Some(
            PendingWrite::Change(changes[i]),
        ),
        sink.after_changes(changes, (2 * i) as nat) == sink,
        sink.after_changes(changes, (2 * i + 1) as nat).keycodes == sink.keycodes,
{
}

} // verus!
