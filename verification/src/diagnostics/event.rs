//! The numeric events that describe one host run.
use crate::text;
use crate::text::{parse_number, split_at_each, NumberError};
use vstd::prelude::*;
use vstd::string::*;

verus! {

pub const RECEIVE: u64 = 1;

pub const ACCEPT: u64 = 2;

pub const GAP: u64 = 3;

pub const REJECT: u64 = 4;

pub const BOUNDARY: u64 = 5;

pub const ACK: u64 = 6;

pub const SINK_FAILURE: u64 = 8;

pub const INGRESS: u64 = 9;

pub const BEGIN: u64 = 10;

pub const CANCEL: u64 = 11;

pub const STALL: u64 = 12;

pub const DUPLICATE: u64 = 13;

/// Kind, local nanoseconds, session, sequence, then eight fields that depend on
/// the kind. No coordinates, credentials, addresses or key values.
#[derive(Clone, Copy, Debug)]
pub struct Event(pub [u64; 12]);

impl Event {
    /// Whether the two events are about the same frame of the same session.
    pub open spec fn same_frame(self, other: Event) -> bool {
        self.0[2] == other.0[2] && self.0[3] == other.0[3]
    }

    pub open spec fn gameplay(self) -> bool {
        self.0[9] & 1 != 0
    }

    pub open spec fn historical(self) -> bool {
        self.0[9] & 2 != 0
    }

    pub open spec fn heartbeat(self) -> bool {
        self.0[9] & 4 != 0
    }

    pub fn is_gameplay(&self) -> (yes: bool)
        ensures
            yes == self.gameplay(),
    {
        self.0[9] & 1 != 0
    }

    pub fn is_historical(&self) -> (yes: bool)
        ensures
            yes == self.historical(),
    {
        self.0[9] & 2 != 0
    }

    pub fn is_heartbeat(&self) -> (yes: bool)
        ensures
            yes == self.heartbeat(),
    {
        self.0[9] & 4 != 0
    }

    pub fn is_same_frame(&self, other: &Event) -> (yes: bool)
        ensures
            yes == self.same_frame(*other),
    {
        self.0[2] == other.0[2] && self.0[3] == other.0[3]
    }
}

/// Why a line does not spell an event.
#[derive(Clone, Copy, Debug, PartialEq, Eq, Structural)]
pub enum LineError {
    /// A column is no number.
    Number(NumberError),
    /// There are more or fewer columns than an event has fields.
    Columns,
}

impl LineError {
    pub open spec fn wording(self) -> Seq<char> {
        match self {
            LineError::Number(error) => error.wording(),
            LineError::Columns => "expected 12 numeric columns"@,
        }
    }

    pub fn message(self) -> (message: &'static str)
        ensures
            message@ == self.wording(),
    {
        match self {
            LineError::Number(error) => error.message(),
            LineError::Columns => "expected 12 numeric columns",
        }
    }
}

/// The number in a column.
pub open spec fn column(line: Seq<char>, at: int) -> Result<nat, NumberError> {
    text::number_of(text::split(line, ',')[at], 10, u64::MAX as nat)
}

impl Event {
    /// Reads an event from a line of numbers with commas between them. The first column
    /// that is no number counts before the number of columns.
    pub fn from_line(line: &str) -> (result: Result<Event, LineError>)
        ensures
            match result {
                Ok(event) => text::split(line@, ',').len() == 12 && forall|i: int|
                    0 <= i < 12 ==> column(line@, i) == Ok::<nat, NumberError>(
                        #[trigger] event.0@[i] as nat,
                    ),
                Err(LineError::Number(error)) => exists|at: int|
                    0 <= at < text::split(line@, ',').len() && #[trigger] column(line@, at) == Err::<
                        nat,
                        NumberError,
                    >(error) && forall|i: int| 0 <= i < at ==> #[trigger] column(line@, i) is Ok,
                Err(LineError::Columns) => text::split(line@, ',').len() != 12 && forall|i: int|
                    0 <= i < text::split(line@, ',').len() ==> #[trigger] column(line@, i) is Ok,
            },
    {
        let pieces: Vec<String> = split_at_each(line, ',');
        let mut fields: [u64; 12] = [0; 12];
        let mut i: usize = 0;
        while i < pieces.len()
            invariant
                i <= pieces@.len(),
                text::texts(pieces@) == text::split(line@, ','),
                forall|j: int| 0 <= j < i ==> #[trigger] column(line@, j) is Ok,
                forall|j: int|
                    0 <= j < i && j < 12 ==> column(line@, j) == Ok::<nat, NumberError>(
                        #[trigger] fields@[j] as nat,
                    ),
            decreases pieces@.len() - i,
        {
            assert(text::texts(pieces@)[i as int] == pieces@[i as int]@);
            match parse_number(pieces[i].as_str(), 10, u64::MAX) {
                Ok(value) => {
                    assert(column(line@, i as int) == Ok::<nat, NumberError>(value as nat));
                    if i < 12 {
                        fields[i] = value;
                    }
                },
                Err(error) => {
                    assert(column(line@, i as int) == Err::<nat, NumberError>(error));
                    return Err(LineError::Number(error));
                },
            }
            i = i + 1;
        }
        assert(text::texts(pieces@).len() == pieces@.len());
        if pieces.len() == 12 {
            Ok(Event(fields))
        } else {
            Err(LineError::Columns)
        }
    }
}

impl Default for Event {
    fn default() -> (event: Event)
        ensures
            forall|i: int| 0 <= i < 12 ==> event.0[i] == 0,
    {
        Event([0u64; 12])
    }
}

} // verus!
