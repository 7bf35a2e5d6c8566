//! The settings window: what may be started, and what becomes of the host it started.
use crate::host::options;
use crate::host::options::{Budget, Mode, OptionsView, Platform, MAX_LANES};
use crate::text;
use vstd::prelude::*;
use vstd::string::*;

verus! {

/// How long a host may take to stop before the window says so.
pub const STOP_PATIENCE_NANOS: u64 = 5_000_000_000;

/// One ASCII letter or digit, with or without spaces around it.
pub open spec fn is_lane(piece: Seq<char>) -> bool {
    let lane = text::trimmed(piece);
    lane.len() == 1 && text::is_alphanumeric(lane[0])
}

/// A comma list of at most sixteen lanes, and no empty one.
pub open spec fn lane_list_of(value: Seq<char>) -> bool {
    let pieces = text::split(value, ',');
    pieces.len() <= MAX_LANES && forall|i: int|
        0 <= i < pieces.len() ==> is_lane(#[trigger] pieces[i])
}

pub fn valid_lane_list(value: &str) -> (valid: bool)
    ensures
        valid == lane_list_of(value@),
{
    let pieces: Vec<String> = text::split_at_each(value, ',');
    let ghost all = text::split(value@, ',');
    assert(all.len() == pieces@.len());
    if pieces.len() > MAX_LANES {
        return false;
    }
    let mut i: usize = 0;
    while i < pieces.len()
        invariant
            i <= pieces@.len(),
            all == text::texts(pieces@),
            all == text::split(value@, ','),
            forall|j: int| 0 <= j < i ==> is_lane(#[trigger] all[j]),
        decreases pieces@.len() - i,
    {
        let lane: Vec<char> = text::chars_of(text::trim(pieces[i].as_str()).as_str());
        assert(all[i as int] == pieces@[i as int]@);
        assert(is_lane(all[i as int]) == (lane@.len() == 1 && text::is_alphanumeric(lane@[0])));
        if lane.len() != 1 || !text::is_alphanumeric_char(lane[0]) {
            return false;
        }
        i = i + 1;
    }
    true
}

/// What is wrong with the settings.
#[derive(Clone, Copy, Debug, PartialEq, Eq, Structural)]
pub enum SettingsError {
    Port,
    Budget,
    Lanes,
}

impl SettingsError {
    pub open spec fn wording(self) -> (Seq<char>, Seq<char>) {
        match self {
            SettingsError::Port => (
                "USB port must be a number from 1 to 65535."@,
                "Check settings"@,
            ),
            SettingsError::Budget => (
                "Warning budget must be a positive number, for example 8.333."@,
                "Check settings"@,
            ),
            SettingsError::Lanes => (
                "Enter one letter or number per lane, separated by commas.\n\nExample: s,d,f,j,k,l"@,
                "Check keyboard lanes"@,
            ),
        }
    }

    /// What the window says, and the title under which it says so.
    pub fn message(self) -> (message: (&'static str, &'static str))
        ensures
            (message.0@, message.1@) == self.wording(),
    {
        match self {
            SettingsError::Port => (
                "USB port must be a number from 1 to 65535.",
                "Check settings",
            ),
            SettingsError::Budget => (
                "Warning budget must be a positive number, for example 8.333.",
                "Check settings",
            ),
            SettingsError::Lanes => (
                "Enter one letter or number per lane, separated by commas.\n\nExample: s,d,f,j,k,l",
                "Check keyboard lanes",
            ),
        }
    }
}

/// The settings as they stand in the window. `budget` is the warning budget as a number,
/// where it is one above zero.
pub struct Settings {
    pub touch: bool,
    pub lanes: String,
    pub port: String,
    pub budget: Option<String>,
    pub metrics: bool,
}

impl Settings {
    pub open spec fn fault(self) -> Option<SettingsError> {
        match text::number_of(self.port@, 10, 65535) {
            Ok(port) => if port == 0 {
                Some(SettingsError::Port)
            } else if self.budget is None {
                Some(SettingsError::Budget)
            } else if !self.touch && !lane_list_of(self.lanes@) {
                Some(SettingsError::Lanes)
            } else {
                None
            },
            Err(_) => Some(SettingsError::Port),
        }
    }

    /// The command line of the host.
    pub open spec fn command_line(self) -> Seq<Seq<char>> {
        let port = text::number_of(self.port@, 10, 65535)->Ok_0;
        let base = seq![
            "--mode"@,
            if self.touch {
                "touch"@
            } else {
                "keys"@
            },
            "--udp-port"@,
            text::decimal(port),
            "--warn-ms"@,
            self.budget->0@,
        ];
        let lanes = if self.touch {
            Seq::<Seq<char>>::empty()
        } else {
            seq!["--lanes"@, self.lanes@]
        };
        let metrics = if self.metrics {
            seq!["--metrics"@]
        } else {
            Seq::<Seq<char>>::empty()
        };
        base + lanes + metrics
    }

    /// The command line of the host, where the settings can be used.
    pub fn arguments(&self) -> (arguments: Result<Vec<String>, SettingsError>)
        ensures
            match arguments {
                Ok(arguments) => self.fault() is None && text::texts(arguments@)
                    == self.command_line(),
                Err(error) => self.fault() == Some(error),
            },
    {
        let port: u64 = match text::parse_number(self.port.as_str(), 10, 65535) {
            Ok(port) => port,
            Err(_) => {
                return Err(SettingsError::Port);
            },
        };
        if port == 0 {
            return Err(SettingsError::Port);
        }
        let budget: String = match &self.budget {
            Some(budget) => budget.clone(),
            None => {
                return Err(SettingsError::Budget);
            },
        };
        if !self.touch && !valid_lane_list(self.lanes.as_str()) {
            return Err(SettingsError::Lanes);
        }
        let mut arguments: Vec<String> = Vec::new();
        arguments.push("--mode".to_owned());
        arguments.push(
            if self.touch {
                "touch".to_owned()
            } else {
                "keys".to_owned()
            },
        );
        arguments.push("--udp-port".to_owned());
        let mut number: String = String::new();
        text::push_decimal(&mut number, port as u128);
        assert(number@ =~= text::decimal(port as nat));
        arguments.push(number);
        arguments.push("--warn-ms".to_owned());
        arguments.push(budget);
        if !self.touch {
            arguments.push("--lanes".to_owned());
            arguments.push(self.lanes.clone());
        }
        if self.metrics {
            arguments.push("--metrics".to_owned());
        }
        assert(text::texts(arguments@) =~= self.command_line());
        Ok(arguments)
    }
}

/// What a look at the host shows.
#[derive(Clone, Copy, Debug, PartialEq, Eq, Structural)]
pub enum ChildState {
    Exited,
    Running,
    Unknown,
}

/// What the window does after a look.
#[derive(Clone, Copy, Debug, PartialEq, Eq, Structural)]
pub enum PollStep {
    /// To close, as was asked.
    Close,
    /// To say that the host stopped, and to allow another start.
    Stopped,
    /// To say that stopping takes its time.
    StillStopping,
    /// To say that the host cannot be looked at.
    Report,
    Nothing,
}

/// Judges a look at the host. `stopping_nanos` is how long ago it was asked to stop, where
/// it was.
pub fn poll_child(state: ChildState, closing: bool, stopping_nanos: Option<u64>) -> (step: PollStep)
    ensures
        step == match state {
            ChildState::Exited => if closing {
                PollStep::Close
            } else {
                PollStep::Stopped
            },
            ChildState::Running => match stopping_nanos {
                Some(nanos) => if nanos > STOP_PATIENCE_NANOS {
                    PollStep::StillStopping
                } else {
                    PollStep::Nothing
                },
                None => PollStep::Nothing,
            },
            ChildState::Unknown => PollStep::Report,
        },
{
    match state {
        ChildState::Exited => if closing {
            PollStep::Close
        } else {
            PollStep::Stopped
        },
        ChildState::Running => match stopping_nanos {
            Some(nanos) => if nanos > STOP_PATIENCE_NANOS {
                PollStep::StillStopping
            } else {
                PollStep::Nothing
            },
            None => PollStep::Nothing,
        },
        ChildState::Unknown => PollStep::Report,
    }
}

/// Whether the window can close at once: not while a host runs, which is asked to stop
/// first.
pub fn may_close(host_running: bool) -> (may: bool)
    ensures
        may == !host_running,
{
    !host_running
}

/// A host that is started with settings reads them as they stand in the window: the mode, the
/// port, the budget, whether it reports, and the lanes, one key for each piece of the list.
pub proof fn started_host_reads_the_settings(settings: Settings, budgets: Seq<Budget>)
    requires
        settings.fault() is None,
        budgets.len() == settings.command_line().len(),
        budgets[5] is Accepted,
    ensures
        ({
            let line = settings.command_line();
            let fresh = options::default_options(Platform::Windows);
            let port = text::number_of(settings.port@, 10, 65535)->Ok_0;
            let pieces = text::split(settings.lanes@, ',');
            exists|read: OptionsView| #[trigger]
                options::settled(read) == options::parsed(line, budgets, Platform::Windows, 0, fresh)
                    && {
                    &&& read.mode == (if settings.touch {
                        Mode::Touch
                    } else {
                        Mode::Keys
                    })
                    &&& read.udp_port == port
                    &&& read.warning_budget == Some(5usize)
                    &&& read.metrics == settings.metrics
                    &&& settings.touch ==> read.lane_keys == fresh.lane_keys
                    &&& !settings.touch ==> read.lane_keys.len() == pieces.len() && forall|i: int|
                        0 <= i < pieces.len() ==> #[trigger] read.lane_keys[i] == text::trimmed(
                            pieces[i],
                        )
                    &&& read.transport is None && !read.pair && !read.legacy_v4
                        && !read.local_only_tether
                }
        }),
{
    let line = settings.command_line();
    let fresh = options::default_options(Platform::Windows);
    let port = text::number_of(settings.port@, 10, 65535)->Ok_0;
    let pieces = text::split(settings.lanes@, ',');
    text::number_in_range(settings.port@, 10, 65535);
    let w = Platform::Windows;
    options::options_set_what_they_name(line, budgets, w, 0, fresh, port);
    options::options_are_read_from_left_to_right(line, budgets, w, 0, fresh);
    let o1 = OptionsView {
        mode: if settings.touch {
            Mode::Touch
        } else {
            Mode::Keys
        },
        ..fresh
    };
    options::options_set_what_they_name(line, budgets, w, 2, o1, port);
    options::options_are_read_from_left_to_right(line, budgets, w, 2, o1);
    let o2 = OptionsView { udp_port: port as u16, ..o1 };
    options::budget_option_is_noted(line, budgets, w, 4, o2);
    options::options_are_read_from_left_to_right(line, budgets, w, 4, o2);
    let o3 = OptionsView { warning_budget: Some(5usize), ..o2 };
    let at = if settings.touch {
        6int
    } else {
        8int
    };
    let o4 = if settings.touch {
        o3
    } else {
        OptionsView { lane_keys: options::lanes_of(pieces), ..o3 }
    };
    if !settings.touch {
        assert forall|i: int| 0 <= i < pieces.len() implies text::trimmed(
            #[trigger] pieces[i],
        ).len() > 0 by {
            assert(is_lane(pieces[i]));
        }
        text::pieces_make_the_text(settings.lanes@, ',');
        options::lanes_are_the_pieces(pieces);
        options::lanes_option_is_noted(line, budgets, w, 6, o3);
        options::options_are_read_from_left_to_right(line, budgets, w, 6, o3);
    }
    let o5 = if settings.metrics {
        OptionsView { metrics: true, ..o4 }
    } else {
        o4
    };
    if settings.metrics {
        options::options_set_what_they_name(line, budgets, w, at, o4, port);
        options::options_are_read_from_left_to_right(line, budgets, w, at, o4);
        options::options_are_read_from_left_to_right(line, budgets, w, at + 1, o5);
    } else {
        options::options_are_read_from_left_to_right(line, budgets, w, at, o5);
    }
    assert(options::settled(o5) == options::parsed(line, budgets, w, 0, fresh));
}

/// A list of lanes can be used exactly if it has one to sixteen pieces between its commas, each
/// a single letter or digit but for spaces around it.
pub proof fn lane_lists_are_short(value: Seq<char>)
    ensures
        lane_list_of(value) <==> {
            let pieces = text::split(value, ',');
            &&& 1 <= pieces.len() <= 16
            &&& forall|i: int|
                0 <= i < pieces.len() ==> text::trimmed(#[trigger] pieces[i]).len() == 1
                    && text::is_alphanumeric(text::trimmed(pieces[i])[0])
        },
{
    let pieces = text::split(value, ',');
    text::pieces_make_the_text(value, ',');
    if lane_list_of(value) {
        assert forall|i: int| 0 <= i < pieces.len() implies text::trimmed(
            #[trigger] pieces[i],
        ).len() == 1 && text::is_alphanumeric(text::trimmed(pieces[i])[0]) by {
            assert(is_lane(pieces[i]));
        }
    }
}

} // verus!
