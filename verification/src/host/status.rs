//! What the host says of itself: its phase, its pairing, its records.
use crate::network::Endpoint;
use crate::protocol::frame::TouchFrame;
use crate::text;
use vstd::prelude::*;
use vstd::string::*;

verus! {

#[derive(Clone, Copy, Debug, PartialEq, Eq, Structural)]
pub enum HostPhase {
    Waiting,
    Connected,
    Recovering,
    Stopping,
    Pairing,
}

impl HostPhase {
    pub open spec fn wording(self) -> Seq<char> {
        match self {
            HostPhase::Waiting => "HPT_STATUS WAITING"@,
            HostPhase::Connected => "HPT_STATUS CONNECTED"@,
            HostPhase::Recovering => "HPT_STATUS RECOVERING"@,
            HostPhase::Stopping => "HPT_STATUS STOPPING"@,
            HostPhase::Pairing => "HPT_STATUS PAIRING"@,
        }
    }

    pub fn token(self) -> (token: &'static str)
        ensures
            token@ == self.wording(),
    {
        match self {
            HostPhase::Waiting => "HPT_STATUS WAITING",
            HostPhase::Connected => "HPT_STATUS CONNECTED",
            HostPhase::Recovering => "HPT_STATUS RECOVERING",
            HostPhase::Stopping => "HPT_STATUS STOPPING",
            HostPhase::Pairing => "HPT_STATUS PAIRING",
        }
    }
}

/// The phase that was last said.
pub struct StatusReporter {
    pub phase: HostPhase,
}

impl StatusReporter {
    /// A host starts by waiting, and says so.
    pub fn start() -> (reporter: StatusReporter)
        ensures
            reporter.phase == HostPhase::Waiting,
    {
        StatusReporter { phase: HostPhase::Waiting }
    }

    /// Whether the phase is to be said: only where it is another one.
    pub fn publish(&mut self, phase: HostPhase) -> (say: bool)
        ensures
            say == (phase != old(self).phase),
            final(self).phase == phase,
    {
        let say: bool = phase != self.phase;
        self.phase = phase;
        say
    }
}

/// What happens while pairing.
#[derive(Clone, Debug)]
pub enum PairEvent {
    Waiting,
    Pattern(Vec<u8>),
    RemoteConfirmed,
    Quality(String),
    Complete,
}

/// The first `count` digits, separated by commas.
pub open spec fn digit_list(digits: Seq<u8>, count: nat) -> Seq<char>
    decreases count,
{
    if count == 0 {
        seq![]
    } else if count == 1 {
        digit_list(digits, 0) + text::decimal(digits[0] as nat)
    } else {
        digit_list(digits, (count - 1) as nat) + ","@ + text::decimal(digits[count - 1] as nat)
    }
}

impl PairEvent {
    pub open spec fn wording(self) -> Seq<char> {
        match self {
            PairEvent::Waiting => "HPT_PAIR WAITING"@,
            PairEvent::Pattern(pattern) => "HPT_PAIR PATTERN "@ + digit_list(
                pattern@,
                pattern@.len(),
            ),
            PairEvent::RemoteConfirmed => "HPT_PAIR CONFIRMED"@,
            PairEvent::Quality(summary) => "HPT_QUALITY "@ + summary@,
            PairEvent::Complete => "HPT_PAIR COMPLETE"@,
        }
    }

    /// The line that tells of the event.
    pub fn line(&self) -> (line: String)
        ensures
            line@ == self.wording(),
    {
        match self {
            PairEvent::Waiting => "HPT_PAIR WAITING".to_owned(),
            PairEvent::Pattern(pattern) => {
                let mut digits: String = String::new();
                let mut i: usize = 0;
                assert(digits@ =~= digit_list(pattern@, 0));
                while i < pattern.len()
                    invariant
                        i <= pattern@.len(),
                        digits@ == digit_list(pattern@, i as nat),
                    decreases pattern@.len() - i,
                {
                    if i > 0 {
                        digits.append(",");
                    }
                    text::push_decimal(&mut digits, pattern[i] as u128);
                    i = i + 1;
                }
                let mut line: String = "HPT_PAIR PATTERN ".to_owned();
                line.append(digits.as_str());
                line
            },
            PairEvent::RemoteConfirmed => "HPT_PAIR CONFIRMED".to_owned(),
            PairEvent::Quality(summary) => {
                let mut line: String = "HPT_QUALITY ".to_owned();
                line.append(summary.as_str());
                line
            },
            PairEvent::Complete => "HPT_PAIR COMPLETE".to_owned(),
        }
    }
}

/// What a line of input asks for while pairing.
#[derive(Clone, Copy, Debug, PartialEq, Eq, Structural)]
pub enum PairCommand {
    Approve,
    Cancel,
}

/// Whether two texts are the same but for the case of ASCII letters.
fn same_but_for_case(a: &str, b: &str) -> (same: bool)
    ensures
        same == (text::uppered(a@) == text::uppered(b@)),
{
    text::same_chars(&text::upper_chars(a), &text::upper_chars(b))
}

pub open spec fn says(line: Seq<char>, word: Seq<char>) -> bool {
    text::uppered(text::trimmed(line)) == text::uppered(word)
}

pub fn pair_command(line: &str) -> (command: Option<PairCommand>)
    ensures
        command == if says(line@, "approve"@) {
            Some(PairCommand::Approve)
        } else if says(line@, "q"@) || says(line@, "cancel"@) {
            Some(PairCommand::Cancel)
        } else {
            None
        },
{
    let word: String = text::trim(line);
    if same_but_for_case(word.as_str(), "approve") {
        Some(PairCommand::Approve)
    } else if same_but_for_case(word.as_str(), "q") || same_but_for_case(word.as_str(), "cancel") {
        Some(PairCommand::Cancel)
    } else {
        None
    }
}

/// Whether a line of input asks the host to stop.
pub fn is_exit_command(line: &str) -> (exit: bool)
    ensures
        exit == says(line@, "q"@),
{
    same_but_for_case(text::trim(line).as_str(), "q")
}

pub open spec fn truth(flag: bool) -> Seq<char> {
    if flag {
        "true"@
    } else {
        "false"@
    }
}

/// A frame as one line of the record.
pub open spec fn record_of(frame: TouchFrame) -> Seq<char> {
    "session="@ + text::hex(frame.session_id as nat, 16) + " seq="@ + text::decimal(
        frame.sequence as nat,
    ) + " action="@ + text::decimal(frame.action as nat) + " contacts="@ + text::decimal(
        frame.contacts@.len(),
    ) + " locked="@ + truth(frame@.is_locked()) + " event_ns="@ + text::decimal(
        frame.phone_event_nanos as nat,
    ) + " callback_ns="@ + text::decimal(frame.phone_callback_nanos as nat) + " send_ns="@
        + text::decimal(frame.phone_send_nanos as nat)
}

pub fn record_line(frame: &TouchFrame) -> (line: String)
    ensures
        line@ == record_of(*frame),
{
    let mut line: String = "session=".to_owned();
    text::push_hex(&mut line, frame.session_id, 16);
    line.append(" seq=");
    text::push_decimal(&mut line, frame.sequence as u128);
    line.append(" action=");
    text::push_decimal(&mut line, frame.action as u128);
    line.append(" contacts=");
    text::push_decimal(&mut line, frame.contacts.len() as u128);
    line.append(" locked=");
    line.append(
        if frame.locked() {
            "true"
        } else {
            "false"
        },
    );
    line.append(" event_ns=");
    text::push_decimal(&mut line, frame.phone_event_nanos as u128);
    line.append(" callback_ns=");
    text::push_decimal(&mut line, frame.phone_callback_nanos as u128);
    line.append(" send_ns=");
    text::push_decimal(&mut line, frame.phone_send_nanos as u128);
    line
}

/// An IPv4 endpoint as text.
pub open spec fn endpoint_text(peer: Endpoint) -> Seq<char> {
    text::decimal((peer.address / 0x100_0000) as nat) + "."@ + text::decimal(
        (peer.address / 0x1_0000 % 0x100) as nat,
    ) + "."@ + text::decimal((peer.address / 0x100 % 0x100) as nat) + "."@ + text::decimal(
        (peer.address % 0x100) as nat,
    ) + ":"@ + text::decimal(peer.port as nat)
}

pub fn push_endpoint(out: &mut String, peer: Endpoint)
    ensures
        final(out)@ == old(out)@ + endpoint_text(peer),
{
    text::push_decimal(out, (peer.address / 0x100_0000) as u128);
    out.append(".");
    text::push_decimal(out, (peer.address / 0x1_0000 % 0x100) as u128);
    out.append(".");
    text::push_decimal(out, (peer.address / 0x100 % 0x100) as u128);
    out.append(".");
    text::push_decimal(out, (peer.address % 0x100) as u128);
    out.append(":");
    text::push_decimal(out, peer.port as u128);
    assert(out@ =~= old(out)@ + endpoint_text(peer));
}

/// The line that says that a connection was authenticated.
pub fn authenticated_line(peer: Endpoint, connection_id: u64) -> (line: String)
    ensures
        line@ == "Authenticated v5 link ready from "@ + endpoint_text(peer) + " (connection "@
            + text::hex(connection_id as nat, 16) + ")"@,
{
    let mut line: String = "Authenticated v5 link ready from ".to_owned();
    push_endpoint(&mut line, peer);
    line.append(" (connection ");
    text::push_hex(&mut line, connection_id, 16);
    line.append(")");
    line
}

/// The name of the report of a run that ended at `timestamp`.
pub fn metrics_file_name(timestamp: u64) -> (name: String)
    ensures
        name@ == "holodori-metrics-"@ + text::decimal(timestamp as nat) + ".txt"@,
{
    let mut name: String = text::numbered("holodori-metrics-", timestamp);
    name.append(".txt");
    name
}

pub open spec fn linux_log_parts(state_home: Option<Seq<char>>, home: Option<Seq<char>>) -> Seq<
    Seq<char>,
> {
    if state_home matches Some(state) && state.len() > 0 {
        seq![state_home->0, "holodori"@, "logs"@]
    } else {
        seq![
            match home {
                Some(home) => home,
                None => "."@,
            },
            ".local"@,
            "state"@,
            "holodori"@,
            "logs"@,
        ]
    }
}

pub open spec fn optional(text: Option<&String>) -> Option<Seq<char>> {
    match text {
        Some(text) => Some(text@),
        None => None,
    }
}

/// The directories that lead to the reports: below the state directory where one is
/// named, else below the home directory.
pub fn linux_log_directory(state_home: Option<&String>, home: Option<&String>) -> (parts: Vec<
    String,
>)
    ensures
        text::texts(parts@) == linux_log_parts(optional(state_home), optional(home)),
{
    let mut parts: Vec<String> = Vec::new();
    if let Some(state) = state_home {
        if text::chars_of(state.as_str()).len() > 0 {
            parts.push(state.clone());
            parts.push("holodori".to_owned());
            parts.push("logs".to_owned());
            assert(text::texts(parts@) =~= linux_log_parts(optional(state_home), optional(home)));
            return parts;
        }
    }
    match home {
        Some(home) => parts.push(home.clone()),
        None => parts.push(".".to_owned()),
    }
    parts.push(".local".to_owned());
    parts.push("state".to_owned());
    parts.push("holodori".to_owned());
    parts.push("logs".to_owned());
    assert(text::texts(parts@) =~= linux_log_parts(optional(state_home), optional(home)));
    parts
}

pub open spec fn windows_log_parts(base: Seq<char>, family: Option<Seq<char>>) -> Seq<Seq<char>> {
    match family {
        Some(family) => seq![base, "Packages"@, family, "LocalState"@, "Logs"@],
        None => seq![base, "Doritrack"@, "Logs"@],
    }
}

/// The directories that lead to the reports on Windows: in the storage of the package
/// where the host runs from one. `absolute` says whether the base is an absolute path.
pub fn windows_log_directory(
    base: Option<&String>,
    absolute: bool,
    package_family: Option<&String>,
) -> (parts: Result<Vec<String>, &'static str>)
    ensures
        match parts {
            Ok(parts) => base is Some && base->0@.len() > 0 && absolute && text::texts(parts@)
                == windows_log_parts(base->0@, optional(package_family)),
            Err(message) => !(base is Some && base->0@.len() > 0 && absolute) && message@
                == "LOCALAPPDATA is unavailable or not absolute; use --metrics-file PATH"@,
        },
{
    if let Some(base) = base {
        if absolute && text::chars_of(base.as_str()).len() > 0 {
            let mut parts: Vec<String> = Vec::new();
            parts.push(base.clone());
            match package_family {
                Some(family) => {
                    parts.push("Packages".to_owned());
                    parts.push(family.clone());
                    parts.push("LocalState".to_owned());
                    parts.push("Logs".to_owned());
                },
                None => {
                    parts.push("Doritrack".to_owned());
                    parts.push("Logs".to_owned());
                },
            }
            assert(text::texts(parts@) =~= windows_log_parts(base@, optional(package_family)));
            return Ok(parts);
        }
    }
    Err("LOCALAPPDATA is unavailable or not absolute; use --metrics-file PATH")
}

/// The digits of a pattern stand in their order, with a comma between each two.
pub proof fn patterns_are_listed(digits: Seq<u8>, count: nat)
    requires
        count <= digits.len(),
    ensures
        digit_list(digits, count) == text::join(
            Seq::new(count, |i: int| text::decimal(digits[i] as nat)),
            ","@,
        ),
    decreases count,
{
    let all = Seq::new(count, |i: int| text::decimal(digits[i] as nat));
    if count > 0 {
        patterns_are_listed(digits, (count - 1) as nat);
        let front = Seq::new((count - 1) as nat, |i: int| text::decimal(digits[i] as nat));
        assert(all.drop_last() =~= front);
        if count == 1 {
            assert(digit_list(digits, 0) + text::decimal(digits[0] as nat) =~= text::decimal(
                digits[0] as nat,
            ));
        }
    }
}

/// A word is understood in whatever case, and with whatever spaces around it; another one is
/// not.
pub proof fn words_are_understood(line: Seq<char>, word: Seq<char>)
    ensures
        text::trimmed(line) == word ==> says(line, word),
        text::trimmed(line) == text::uppered(word) ==> says(line, word),
        text::trimmed(line).len() != word.len() ==> !says(line, word),
{
    assert(text::uppered(text::uppered(word)) =~= text::uppered(word));
    assert(text::uppered(word).len() == word.len());
    assert(text::uppered(text::trimmed(line)).len() == text::trimmed(line).len());
}

/// An endpoint is written as its four bytes with dots between them, and its port.
pub proof fn endpoints_are_dotted(first: u8, second: u8, third: u8, fourth: u8, port: u16)
    ensures
        endpoint_text(
            Endpoint {
                address: (first * 0x100_0000 + second * 0x1_0000 + third * 0x100 + fourth) as u32,
                port,
            },
        ) == text::decimal(first as nat) + "."@ + text::decimal(second as nat) + "."@
            + text::decimal(third as nat) + "."@ + text::decimal(fourth as nat) + ":"@
            + text::decimal(port as nat),
{
    let address = first * 0x100_0000 + second * 0x1_0000 + third * 0x100 + fourth;
    assert(address / 0x100_0000 == first);
    assert(address / 0x1_0000 == first * 256 + second);
    assert(address / 0x100 == first * 0x1_0000 + second * 256 + third);
}

/// Reports are kept below the state directory where one is named, else below that of the home
/// directory, and always in `holodori/logs`.
pub proof fn reports_have_their_place(state: Seq<char>, home: Option<Seq<char>>)
    ensures
        ({
            let base = match home {
                Some(home) => home,
                None => "."@,
            };
            let named = linux_log_parts(Some(state), home);
            let unnamed = linux_log_parts(None, home);
            &&& state.len() > 0 ==> named == seq![state] + seq!["holodori"@, "logs"@]
            &&& state.len() == 0 ==> named == unnamed
            &&& unnamed == seq![base, ".local"@, "state"@] + seq!["holodori"@, "logs"@]
        }),
{
    let tail = seq!["holodori"@, "logs"@];
    let base = match home {
        Some(home) => home,
        None => "."@,
    };
    assert(seq![state] + tail =~= seq![state, "holodori"@, "logs"@]);
    assert(seq![base, ".local"@, "state"@] + tail =~= seq![
        base,
        ".local"@,
        "state"@,
        "holodori"@,
        "logs"@,
    ]);
}

} // verus!
