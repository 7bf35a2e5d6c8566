//! The command line of the host.
use crate::network::DEFAULT_UDP_PORT;
use crate::text;
use crate::v5::wire::TransportKind;
use vstd::prelude::*;
use vstd::string::*;

verus! {

pub const MAX_LANES: usize = 16;

#[derive(Clone, Copy, Debug, PartialEq, Eq, Structural)]
pub enum Platform {
    Windows,
    Linux,
    Other,
}

/// Where the touches go.
#[derive(Clone, Copy, Debug, PartialEq, Eq, Structural)]
pub enum Mode {
    Touch,
    Keys,
    Record,
}

/// What a text is worth as the warning budget in milliseconds.
#[derive(Clone, Debug)]
pub enum Budget {
    /// A finite number above zero.
    Accepted,
    /// Another number.
    NotPositive,
    /// No number, with the reason.
    Malformed(String),
}

pub struct Options {
    pub mode: Mode,
    pub lane_keys: Vec<String>,
    pub spawn_probe: bool,
    pub target_title: String,
    pub udp_port: u16,
    pub metrics: bool,
    pub metrics_file: Option<String>,
    /// The argument that gives the warning budget.
    pub warning_budget: Option<usize>,
    pub local_only_tether: bool,
    pub pair: bool,
    pub legacy_v4: bool,
    pub transport: Option<TransportKind>,
}

#[verifier::ext_equal]
pub struct OptionsView {
    pub mode: Mode,
    pub lane_keys: Seq<Seq<char>>,
    pub spawn_probe: bool,
    pub target_title: Seq<char>,
    pub udp_port: u16,
    pub metrics: bool,
    pub metrics_file: Option<Seq<char>>,
    pub warning_budget: Option<usize>,
    pub local_only_tether: bool,
    pub pair: bool,
    pub legacy_v4: bool,
    pub transport: Option<TransportKind>,
}

impl View for Options {
    type V = OptionsView;

    open spec fn view(&self) -> OptionsView {
        OptionsView {
            mode: self.mode,
            lane_keys: text::texts(self.lane_keys@),
            spawn_probe: self.spawn_probe,
            target_title: self.target_title@,
            udp_port: self.udp_port,
            metrics: self.metrics,
            metrics_file: match self.metrics_file {
                Some(file) => Some(file@),
                None => None,
            },
            warning_budget: self.warning_budget,
            local_only_tether: self.local_only_tether,
            pair: self.pair,
            legacy_v4: self.legacy_v4,
            transport: self.transport,
        }
    }
}

/// What the command line asks for.
pub enum Invocation {
    Help,
    Run(Options),
}

/// Without arguments: touches go to the probe window on Windows, to keys elsewhere.
pub open spec fn default_options(platform: Platform) -> OptionsView {
    OptionsView {
        mode: if platform == Platform::Windows {
            Mode::Touch
        } else {
            Mode::Keys
        },
        lane_keys: seq!["s"@, "d"@, "f"@, "j"@, "k"@, "l"@],
        spawn_probe: true,
        target_title: "Holodori Touch Probe"@,
        udp_port: DEFAULT_UDP_PORT,
        metrics: false,
        metrics_file: None,
        warning_budget: None,
        local_only_tether: false,
        pair: false,
        legacy_v4: false,
        transport: None,
    }
}

/// The lanes of a comma list: its pieces without spaces, empty ones left out.
pub open spec fn lanes_of(pieces: Seq<Seq<char>>) -> Seq<Seq<char>>
    decreases pieces.len(),
{
    if pieces.len() == 0 {
        seq![]
    } else {
        let front = lanes_of(pieces.drop_last());
        let lane = text::trimmed(pieces.last());
        if lane.len() == 0 {
            front
        } else {
            front.push(lane)
        }
    }
}

/// What one option does: it changes the options and uses up itself, and its value
/// where it takes one.
#[verifier::ext_equal]
pub enum Effect {
    Alone(OptionsView),
    WithValue(OptionsView),
    Help,
    Fault(Seq<char>),
}

pub open spec fn mode_effect(value: Option<Seq<char>>, platform: Platform, o: OptionsView) -> Effect {
    match value {
        Some(value) => if value == "touch"@ {
            if platform == Platform::Windows {
                Effect::WithValue(OptionsView { mode: Mode::Touch, ..o })
            } else {
                Effect::Fault("--mode touch is Windows-only"@)
            }
        } else if value == "keys"@ {
            Effect::WithValue(OptionsView { mode: Mode::Keys, ..o })
        } else if value == "record"@ {
            Effect::WithValue(OptionsView { mode: Mode::Record, ..o })
        } else {
            Effect::Fault("unknown mode "@ + text::debug_text(value))
        },
        None => Effect::Fault("--mode needs touch, keys, or record"@),
    }
}

pub open spec fn lanes_effect(value: Option<Seq<char>>, o: OptionsView) -> Effect {
    match value {
        Some(value) => {
            let lanes = lanes_of(text::split(value, ','));
            if 1 <= lanes.len() <= MAX_LANES {
                Effect::WithValue(OptionsView { lane_keys: lanes, ..o })
            } else {
                Effect::Fault("--lanes requires 1 to 16 keys"@)
            }
        },
        None => Effect::Fault("--lanes needs a comma list"@),
    }
}

pub open spec fn port_effect(value: Option<Seq<char>>, o: OptionsView) -> Effect {
    match value {
        Some(value) => match text::number_of(value, 10, 65535) {
            Ok(port) => if port == 0 {
                Effect::Fault("--udp-port must be between 1 and 65535"@)
            } else {
                Effect::WithValue(OptionsView { udp_port: port as u16, ..o })
            },
            Err(error) => Effect::Fault(error.wording()),
        },
        None => Effect::Fault("--udp-port needs a value"@),
    }
}

pub open spec fn transport_effect(value: Option<Seq<char>>, o: OptionsView) -> Effect {
    match value {
        Some(value) => if value == "usb"@ {
            Effect::WithValue(OptionsView { transport: Some(TransportKind::Usb), ..o })
        } else if value == "wifi"@ {
            Effect::WithValue(OptionsView { transport: Some(TransportKind::Wifi), ..o })
        } else {
            Effect::Fault("unknown transport "@ + text::debug_text(value))
        },
        None => Effect::Fault("--transport needs usb or wifi"@),
    }
}

pub open spec fn budget_effect(
    value: Option<Seq<char>>,
    worth: Budget,
    at: int,
    o: OptionsView,
) -> Effect {
    match value {
        Some(_) => match worth {
            Budget::Accepted => Effect::WithValue(
                OptionsView { warning_budget: Some((at + 1) as usize), ..o },
            ),
            Budget::NotPositive => Effect::Fault("--warn-ms must be positive"@),
            Budget::Malformed(reason) => Effect::Fault(reason@),
        },
        None => Effect::Fault("--warn-ms needs milliseconds"@),
    }
}

/// What the argument at `at` does.
pub open spec fn effect(
    arguments: Seq<Seq<char>>,
    budgets: Seq<Budget>,
    platform: Platform,
    at: int,
    o: OptionsView,
) -> Effect {
    let argument = arguments[at];
    let value = if at + 1 < arguments.len() {
        Some(arguments[at + 1])
    } else {
        None
    };
    if argument == "--mode"@ {
        mode_effect(value, platform, o)
    } else if argument == "--lanes"@ {
        lanes_effect(value, o)
    } else if argument == "--target-title"@ {
        match value {
            Some(title) => Effect::WithValue(
                OptionsView { target_title: title, spawn_probe: false, ..o },
            ),
            None => Effect::Fault("--target-title needs a value"@),
        }
    } else if argument == "--no-probe"@ {
        Effect::Alone(OptionsView { spawn_probe: false, ..o })
    } else if argument == "--udp-port"@ {
        port_effect(value, o)
    } else if argument == "--metrics"@ {
        Effect::Alone(OptionsView { metrics: true, ..o })
    } else if argument == "--pair"@ {
        Effect::Alone(OptionsView { pair: true, ..o })
    } else if argument == "--legacy-v4"@ {
        Effect::Alone(OptionsView { legacy_v4: true, ..o })
    } else if argument == "--transport"@ {
        transport_effect(value, o)
    } else if argument == "--metrics-file"@ {
        match value {
            Some(path) => Effect::WithValue(
                OptionsView { metrics: true, metrics_file: Some(path), ..o },
            ),
            None => Effect::Fault("--metrics-file needs a path"@),
        }
    } else if argument == "--local-only-tether"@ {
        if platform == Platform::Other {
            Effect::Fault("--local-only-tether is supported only on Windows and Linux"@)
        } else {
            Effect::Alone(OptionsView { local_only_tether: true, ..o })
        }
    } else if argument == "--warn-ms"@ {
        budget_effect(value, budgets[at + 1], at, o)
    } else if argument == "--help"@ || argument == "-h"@ {
        Effect::Help
    } else {
        Effect::Fault("unknown option "@ + text::debug_text(argument) + "; use --help"@)
    }
}

/// What the options amount to, once all arguments are read.
pub open spec fn settled(o: OptionsView) -> Effect {
    let usb = Some(TransportKind::Usb);
    if o.pair && o.legacy_v4 {
        Effect::Fault("--pair cannot be combined with --legacy-v4"@)
    } else if o.legacy_v4 && o.transport is Some && o.transport != usb {
        Effect::Fault("protocol v4 is available only over explicit USB transport"@)
    } else if !o.legacy_v4 && o.transport is None {
        Effect::Fault("protocol v5 requires --transport usb or --transport wifi"@)
    } else if o.local_only_tether && !o.legacy_v4 && o.transport != usb {
        Effect::Fault("--local-only-tether requires --transport usb"@)
    } else if o.legacy_v4 {
        Effect::Alone(OptionsView { transport: usb, ..o })
    } else {
        Effect::Alone(o)
    }
}

/// What the arguments from `at` on amount to. Help and faults count from the left.
pub open spec fn parsed(
    arguments: Seq<Seq<char>>,
    budgets: Seq<Budget>,
    platform: Platform,
    at: int,
    o: OptionsView,
) -> Effect
    decreases arguments.len() - at,
{
    if at >= arguments.len() {
        settled(o)
    } else {
        match effect(arguments, budgets, platform, at, o) {
            Effect::Alone(next) => parsed(arguments, budgets, platform, at + 1, next),
            Effect::WithValue(next) => parsed(arguments, budgets, platform, at + 2, next),
            other => other,
        }
    }
}

/// Why the command line is refused.
#[derive(Clone, Debug)]
pub struct OptionsError {
    pub message: String,
}

fn refuse(message: &str) -> (error: OptionsError)
    ensures
        error.message@ == message@,
{
    OptionsError { message: message.to_owned() }
}

/// What one option used up.
enum Step {
    Alone,
    WithValue,
    Help,
}

spec fn stepped(result: Result<Step, OptionsError>, after: OptionsView, expected: Effect) -> bool {
    match result {
        Ok(Step::Alone) => expected == Effect::Alone(after),
        Ok(Step::WithValue) => expected == Effect::WithValue(after),
        Ok(Step::Help) => expected is Help,
        Err(error) => expected == Effect::Fault(error.message@),
    }
}

spec fn value_text(value: Option<&String>) -> Option<Seq<char>> {
    match value {
        Some(value) => Some(value@),
        None => None,
    }
}

fn apply_mode(options: &mut Options, value: Option<&String>, platform: Platform) -> (result: Result<
    Step,
    OptionsError,
>)
    ensures
        stepped(
            result,
            final(options)@,
            mode_effect(value_text(value), platform, old(options)@),
        ),
{
    let Some(value) = value else {
        return Err(refuse("--mode needs touch, keys, or record"));
    };
    if text::same_text(value.as_str(), "touch") {
        match platform {
            Platform::Windows => {
                options.mode = Mode::Touch;
                Ok(Step::WithValue)
            },
            _ => Err(refuse("--mode touch is Windows-only")),
        }
    } else if text::same_text(value.as_str(), "keys") {
        options.mode = Mode::Keys;
        Ok(Step::WithValue)
    } else if text::same_text(value.as_str(), "record") {
        options.mode = Mode::Record;
        Ok(Step::WithValue)
    } else {
        let mut message: String = "unknown mode ".to_owned();
        message.append(text::quoted(value.as_str()).as_str());
        Err(OptionsError { message })
    }
}

/// The lanes of a comma list.
pub fn lane_list(value: &str) -> (lanes: Vec<String>)
    ensures
        text::texts(lanes@) == lanes_of(text::split(value@, ',')),
{
    let pieces: Vec<String> = text::split_at_each(value, ',');
    let mut lanes: Vec<String> = Vec::new();
    let mut i: usize = 0;
    let ghost all = text::texts(pieces@);
    assert(all.take(0) =~= seq![]);
    assert(text::texts(lanes@) =~= lanes_of(all.take(0)));
    while i < pieces.len()
        invariant
            i <= pieces@.len(),
            all == text::texts(pieces@),
            text::texts(lanes@) == lanes_of(all.take(i as int)),
        decreases pieces@.len() - i,
    {
        let lane: String = text::trim(pieces[i].as_str());
        let ghost before = text::texts(lanes@);
        proof {
            assert(all.take(i + 1).drop_last() =~= all.take(i as int));
            assert(all.take(i + 1).last() == pieces@[i as int]@);
        }
        if text::chars_of(lane.as_str()).len() > 0 {
            lanes.push(lane);
            assert(text::texts(lanes@) =~= before.push(lane@));
        }
        i = i + 1;
    }
    assert(all.take(i as int) =~= all);
    lanes
}

fn apply_lanes(options: &mut Options, value: Option<&String>) -> (result: Result<
    Step,
    OptionsError,
>)
    ensures
        stepped(result, final(options)@, lanes_effect(value_text(value), old(options)@)),
{
    let Some(value) = value else {
        return Err(refuse("--lanes needs a comma list"));
    };
    let lanes: Vec<String> = lane_list(value.as_str());
    if lanes.len() == 0 || lanes.len() > MAX_LANES {
        return Err(refuse("--lanes requires 1 to 16 keys"));
    }
    options.lane_keys = lanes;
    Ok(Step::WithValue)
}

fn apply_port(options: &mut Options, value: Option<&String>) -> (result: Result<
    Step,
    OptionsError,
>)
    ensures
        stepped(result, final(options)@, port_effect(value_text(value), old(options)@)),
{
    let Some(value) = value else {
        return Err(refuse("--udp-port needs a value"));
    };
    match text::parse_number(value.as_str(), 10, 65535) {
        Ok(port) => {
            if port == 0 {
                return Err(refuse("--udp-port must be between 1 and 65535"));
            }
            options.udp_port = port as u16;
            Ok(Step::WithValue)
        },
        Err(error) => Err(refuse(error.message())),
    }
}

fn apply_transport(options: &mut Options, value: Option<&String>) -> (result: Result<
    Step,
    OptionsError,
>)
    ensures
        stepped(result, final(options)@, transport_effect(value_text(value), old(options)@)),
{
    let Some(value) = value else {
        return Err(refuse("--transport needs usb or wifi"));
    };
    match TransportKind::parse(value.as_str()) {
        Some(kind) => {
            options.transport = Some(kind);
            Ok(Step::WithValue)
        },
        None => {
            let mut message: String = "unknown transport ".to_owned();
            message.append(text::quoted(value.as_str()).as_str());
            Err(OptionsError { message })
        },
    }
}

fn apply_budget(options: &mut Options, value: Option<(&Budget, usize)>) -> (result: Result<
    Step,
    OptionsError,
>)
    requires
        value matches Some((worth, at)) ==> at >= 1,
    ensures
        match value {
            Some((worth, at)) => stepped(
                result,
                final(options)@,
                budget_effect(Some(Seq::empty()), *worth, at - 1, old(options)@),
            ),
            None => result matches Err(error) && error.message@ == "--warn-ms needs milliseconds"@,
        },
{
    let Some((worth, at)) = value else {
        return Err(refuse("--warn-ms needs milliseconds"));
    };
    match worth {
        Budget::Accepted => {
            options.warning_budget = Some(at);
            Ok(Step::WithValue)
        },
        Budget::NotPositive => Err(refuse("--warn-ms must be positive")),
        Budget::Malformed(reason) => Err(refuse(reason.as_str())),
    }
}

fn apply(
    options: &mut Options,
    arguments: &Vec<String>,
    budgets: &Vec<Budget>,
    platform: Platform,
    at: usize,
) -> (result: Result<Step, OptionsError>)
    requires
        at < arguments@.len(),
        budgets@.len() == arguments@.len(),
    ensures
        stepped(
            result,
            final(options)@,
            effect(text::texts(arguments@), budgets@, platform, at as int, old(options)@),
        ),
        result matches Ok(Step::WithValue) ==> at + 1 < arguments@.len(),
{
    let argument: &str = arguments[at].as_str();
    let value: Option<&String> = if at < arguments.len() - 1 {
        Some(&arguments[at + 1])
    } else {
        None
    };
    assert(text::texts(arguments@)[at as int] == argument@);
    if text::same_text(argument, "--mode") {
        apply_mode(options, value, platform)
    } else if text::same_text(argument, "--lanes") {
        apply_lanes(options, value)
    } else if text::same_text(argument, "--target-title") {
        match value {
            Some(title) => {
                options.target_title = title.clone();
                options.spawn_probe = false;
                Ok(Step::WithValue)
            },
            None => Err(refuse("--target-title needs a value")),
        }
    } else if text::same_text(argument, "--no-probe") {
        options.spawn_probe = false;
        Ok(Step::Alone)
    } else if text::same_text(argument, "--udp-port") {
        apply_port(options, value)
    } else if text::same_text(argument, "--metrics") {
        options.metrics = true;
        Ok(Step::Alone)
    } else if text::same_text(argument, "--pair") {
        options.pair = true;
        Ok(Step::Alone)
    } else if text::same_text(argument, "--legacy-v4") {
        options.legacy_v4 = true;
        Ok(Step::Alone)
    } else if text::same_text(argument, "--transport") {
        apply_transport(options, value)
    } else if text::same_text(argument, "--metrics-file") {
        match value {
            Some(path) => {
                options.metrics = true;
                options.metrics_file = Some(path.clone());
                Ok(Step::WithValue)
            },
            None => Err(refuse("--metrics-file needs a path")),
        }
    } else if text::same_text(argument, "--local-only-tether") {
        match platform {
            Platform::Other => Err(
                refuse("--local-only-tether is supported only on Windows and Linux"),
            ),
            _ => {
                options.local_only_tether = true;
                Ok(Step::Alone)
            },
        }
    } else if text::same_text(argument, "--warn-ms") {
        if at < arguments.len() - 1 {
            apply_budget(options, Some((&budgets[at + 1], at + 1)))
        } else {
            apply_budget(options, None)
        }
    } else if text::same_text(argument, "--help") || text::same_text(argument, "-h") {
        Ok(Step::Help)
    } else {
        let mut message: String = "unknown option ".to_owned();
        message.append(text::quoted(argument).as_str());
        message.append("; use --help");
        Err(OptionsError { message })
    }
}

fn settle(options: Options) -> (result: Result<Options, OptionsError>)
    ensures
        match result {
            Ok(done) => settled(options@) == Effect::Alone(done@),
            Err(error) => settled(options@) == Effect::Fault(error.message@),
        },
{
    let mut options: Options = options;
    if options.pair && options.legacy_v4 {
        return Err(refuse("--pair cannot be combined with --legacy-v4"));
    }
    if options.legacy_v4 {
        if let Some(transport) = options.transport {
            if transport != TransportKind::Usb {
                return Err(refuse("protocol v4 is available only over explicit USB transport"));
            }
        }
        options.transport = Some(TransportKind::Usb);
    } else if options.transport.is_none() {
        return Err(refuse("protocol v5 requires --transport usb or --transport wifi"));
    }
    if options.local_only_tether {
        if let Some(transport) = options.transport {
            if transport != TransportKind::Usb {
                return Err(refuse("--local-only-tether requires --transport usb"));
            }
        }
    }
    Ok(options)
}

fn defaults(platform: Platform) -> (options: Options)
    ensures
        options@ == default_options(platform),
{
    let mut lane_keys: Vec<String> = Vec::new();
    lane_keys.push("s".to_owned());
    lane_keys.push("d".to_owned());
    lane_keys.push("f".to_owned());
    lane_keys.push("j".to_owned());
    lane_keys.push("k".to_owned());
    lane_keys.push("l".to_owned());
    let mode: Mode = match platform {
        Platform::Windows => Mode::Touch,
        _ => Mode::Keys,
    };
    let options = Options {
        mode,
        lane_keys,
        spawn_probe: true,
        target_title: "Holodori Touch Probe".to_owned(),
        udp_port: DEFAULT_UDP_PORT,
        metrics: false,
        metrics_file: None,
        warning_budget: None,
        local_only_tether: false,
        pair: false,
        legacy_v4: false,
        transport: None,
    };
    assert(options@.lane_keys =~= default_options(platform).lane_keys);
    options
}

/// Reads the command line. `budgets` says of each argument what it is worth as a
/// number of milliseconds.
pub fn parse_options(arguments: &Vec<String>, budgets: &Vec<Budget>, platform: Platform) -> (result:
    Result<Invocation, OptionsError>)
    requires
        budgets@.len() == arguments@.len(),
    ensures
        ({
            let outcome = parsed(
                text::texts(arguments@),
                budgets@,
                platform,
                0,
                default_options(platform),
            );
            match result {
                Ok(Invocation::Run(options)) => outcome == Effect::Alone(options@),
                Ok(Invocation::Help) => outcome is Help,
                Err(error) => outcome == Effect::Fault(error.message@),
            }
        }),
{
    let mut options: Options = defaults(platform);
    let mut at: usize = 0;
    while at < arguments.len()
        invariant
            at <= arguments@.len(),
            budgets@.len() == arguments@.len(),
            parsed(
                text::texts(arguments@),
                budgets@,
                platform,
                0,
                default_options(platform),
            ) == parsed(text::texts(arguments@), budgets@, platform, at as int, options@),
        decreases arguments@.len() - at,
    {
        match apply(&mut options, arguments, budgets, platform, at) {
            Ok(Step::Alone) => {
                at = at + 1;
            },
            Ok(Step::WithValue) => {
                at = at + 2;
            },
            Ok(Step::Help) => {
                return Ok(Invocation::Help);
            },
            Err(error) => {
                return Err(error);
            },
        }
    }
    match settle(options) {
        Ok(options) => Ok(Invocation::Run(options)),
        Err(error) => Err(error),
    }
}

/// Options that are accepted fit together: a transport is chosen, version 4 and the
/// local-only policy go over USB, pairing is for version 5, the port is one that can be
/// listened on, and there are 1 to 16 lanes.
pub proof fn accepted_options_fit_together(
    arguments: Seq<Seq<char>>,
    budgets: Seq<Budget>,
    platform: Platform,
)
    ensures
        parsed(arguments, budgets, platform, 0, default_options(platform)) matches Effect::Alone(o)
            ==> {
            &&& o.transport is Some
            &&& o.legacy_v4 ==> o.transport == Some(TransportKind::Usb) && !o.pair
            &&& o.local_only_tether ==> o.transport == Some(TransportKind::Usb)
            &&& 1 <= o.udp_port
            &&& 1 <= o.lane_keys.len() <= MAX_LANES
        },
        !(parsed(arguments, budgets, platform, 0, default_options(platform)) is WithValue),
{
    options_stay_usable(arguments, budgets, platform, 0, default_options(platform));
}

proof fn options_stay_usable(
    arguments: Seq<Seq<char>>,
    budgets: Seq<Budget>,
    platform: Platform,
    at: int,
    o: OptionsView,
)
    requires
        1 <= o.udp_port,
        1 <= o.lane_keys.len() <= MAX_LANES,
    ensures
        parsed(arguments, budgets, platform, at, o) matches Effect::Alone(o) ==> {
            &&& o.transport is Some
            &&& o.legacy_v4 ==> o.transport == Some(TransportKind::Usb) && !o.pair
            &&& o.local_only_tether ==> o.transport == Some(TransportKind::Usb)
            &&& 1 <= o.udp_port
            &&& 1 <= o.lane_keys.len() <= MAX_LANES
        },
        !(parsed(arguments, budgets, platform, at, o) is WithValue),
    decreases arguments.len() - at,
{
    if at < arguments.len() {
        if at + 1 < arguments.len() {
            text::number_in_range(arguments[at + 1], 10, 65535);
        }
        match effect(arguments, budgets, platform, at, o) {
            Effect::Alone(next) => options_stay_usable(
                arguments,
                budgets,
                platform,
                at + 1,
                next,
            ),
            Effect::WithValue(next) => options_stay_usable(
                arguments,
                budgets,
                platform,
                at + 2,
                next,
            ),
            _ => {},
        }
    }
}

/// No option is spelled like another.
proof fn option_names_differ()
    ensures
        "--mode"@ != "--lanes"@,
        "--mode"@ != "--target-title"@,
        "--mode"@ != "--no-probe"@,
        "--mode"@ != "--udp-port"@,
        "--mode"@ != "--metrics"@,
        "--mode"@ != "--pair"@,
        "--mode"@ != "--legacy-v4"@,
        "--mode"@ != "--transport"@,
        "--mode"@ != "--metrics-file"@,
        "--mode"@ != "--local-only-tether"@,
        "--mode"@ != "--warn-ms"@,
        "--mode"@ != "--help"@,
        "--mode"@ != "-h"@,
        "--lanes"@ != "--target-title"@,
        "--lanes"@ != "--no-probe"@,
        "--lanes"@ != "--udp-port"@,
        "--lanes"@ != "--metrics"@,
        "--lanes"@ != "--pair"@,
        "--lanes"@ != "--legacy-v4"@,
        "--lanes"@ != "--transport"@,
        "--lanes"@ != "--metrics-file"@,
        "--lanes"@ != "--local-only-tether"@,
        "--lanes"@ != "--warn-ms"@,
        "--lanes"@ != "--help"@,
        "--lanes"@ != "-h"@,
        "--target-title"@ != "--no-probe"@,
        "--target-title"@ != "--udp-port"@,
        "--target-title"@ != "--metrics"@,
        "--target-title"@ != "--pair"@,
        "--target-title"@ != "--legacy-v4"@,
        "--target-title"@ != "--transport"@,
        "--target-title"@ != "--metrics-file"@,
        "--target-title"@ != "--local-only-tether"@,
        "--target-title"@ != "--warn-ms"@,
        "--target-title"@ != "--help"@,
        "--target-title"@ != "-h"@,
        "--no-probe"@ != "--udp-port"@,
        "--no-probe"@ != "--metrics"@,
        "--no-probe"@ != "--pair"@,
        "--no-probe"@ != "--legacy-v4"@,
        "--no-probe"@ != "--transport"@,
        "--no-probe"@ != "--metrics-file"@,
        "--no-probe"@ != "--local-only-tether"@,
        "--no-probe"@ != "--warn-ms"@,
        "--no-probe"@ != "--help"@,
        "--no-probe"@ != "-h"@,
        "--udp-port"@ != "--metrics"@,
        "--udp-port"@ != "--pair"@,
        "--udp-port"@ != "--legacy-v4"@,
        "--udp-port"@ != "--transport"@,
        "--udp-port"@ != "--metrics-file"@,
        "--udp-port"@ != "--local-only-tether"@,
        "--udp-port"@ != "--warn-ms"@,
        "--udp-port"@ != "--help"@,
        "--udp-port"@ != "-h"@,
        "--metrics"@ != "--pair"@,
        "--metrics"@ != "--legacy-v4"@,
        "--metrics"@ != "--transport"@,
        "--metrics"@ != "--metrics-file"@,
        "--metrics"@ != "--local-only-tether"@,
        "--metrics"@ != "--warn-ms"@,
        "--metrics"@ != "--help"@,
        "--metrics"@ != "-h"@,
        "--pair"@ != "--legacy-v4"@,
        "--pair"@ != "--transport"@,
        "--pair"@ != "--metrics-file"@,
        "--pair"@ != "--local-only-tether"@,
        "--pair"@ != "--warn-ms"@,
        "--pair"@ != "--help"@,
        "--pair"@ != "-h"@,
        "--legacy-v4"@ != "--transport"@,
        "--legacy-v4"@ != "--metrics-file"@,
        "--legacy-v4"@ != "--local-only-tether"@,
        "--legacy-v4"@ != "--warn-ms"@,
        "--legacy-v4"@ != "--help"@,
        "--legacy-v4"@ != "-h"@,
        "--transport"@ != "--metrics-file"@,
        "--transport"@ != "--local-only-tether"@,
        "--transport"@ != "--warn-ms"@,
        "--transport"@ != "--help"@,
        "--transport"@ != "-h"@,
        "--metrics-file"@ != "--local-only-tether"@,
        "--metrics-file"@ != "--warn-ms"@,
        "--metrics-file"@ != "--help"@,
        "--metrics-file"@ != "-h"@,
        "--local-only-tether"@ != "--warn-ms"@,
        "--local-only-tether"@ != "--help"@,
        "--local-only-tether"@ != "-h"@,
        "--warn-ms"@ != "--help"@,
        "--warn-ms"@ != "-h"@,
        "--help"@ != "-h"@,
        "touch"@ != "keys"@,
        "touch"@ != "record"@,
        "touch"@ != "usb"@,
        "touch"@ != "wifi"@,
        "keys"@ != "record"@,
        "keys"@ != "usb"@,
        "keys"@ != "wifi"@,
        "record"@ != "usb"@,
        "record"@ != "wifi"@,
        "usb"@ != "wifi"@,
{
    reveal_strlit("--mode");
    reveal_strlit("--lanes");
    reveal_strlit("--target-title");
    reveal_strlit("--no-probe");
    reveal_strlit("--udp-port");
    reveal_strlit("--metrics");
    reveal_strlit("--pair");
    reveal_strlit("--legacy-v4");
    reveal_strlit("--transport");
    reveal_strlit("--metrics-file");
    reveal_strlit("--local-only-tether");
    reveal_strlit("--warn-ms");
    reveal_strlit("--help");
    reveal_strlit("-h");
    reveal_strlit("touch");
    reveal_strlit("keys");
    reveal_strlit("record");
    reveal_strlit("usb");
    reveal_strlit("wifi");
    assert("--mode"@.len() == 6);
    assert("--mode"@[2] == 'm');
    assert("--lanes"@.len() == 7);
    assert("--lanes"@[2] == 'l');
    assert("--target-title"@.len() == 14);
    assert("--target-title"@[2] == 't');
    assert("--no-probe"@.len() == 10);
    assert("--no-probe"@[2] == 'n');
    assert("--udp-port"@.len() == 10);
    assert("--udp-port"@[2] == 'u');
    assert("--metrics"@.len() == 9);
    assert("--metrics"@[2] == 'm');
    assert("--pair"@.len() == 6);
    assert("--pair"@[2] == 'p');
    assert("--legacy-v4"@.len() == 11);
    assert("--legacy-v4"@[2] == 'l');
    assert("--transport"@.len() == 11);
    assert("--transport"@[2] == 't');
    assert("--metrics-file"@.len() == 14);
    assert("--metrics-file"@[2] == 'm');
    assert("--local-only-tether"@.len() == 19);
    assert("--local-only-tether"@[2] == 'l');
    assert("--warn-ms"@.len() == 9);
    assert("--warn-ms"@[2] == 'w');
    assert("--help"@.len() == 6);
    assert("--help"@[2] == 'h');
    assert("-h"@.len() == 2);
    assert("touch"@.len() == 5);
    assert("touch"@[0] == 't');
    assert("keys"@.len() == 4);
    assert("keys"@[0] == 'k');
    assert("record"@.len() == 6);
    assert("record"@[0] == 'r');
    assert("usb"@.len() == 3);
    assert("usb"@[0] == 'u');
    assert("wifi"@.len() == 4);
    assert("wifi"@[0] == 'w');
}

/// What an option and its value do to the options: each sets what it is named after, and
/// leaves everything else as it was.
pub proof fn options_set_what_they_name(
    arguments: Seq<Seq<char>>,
    budgets: Seq<Budget>,
    platform: Platform,
    at: int,
    o: OptionsView,
    port: nat,
)
    requires
        0 <= at < arguments.len(),
    ensures
        ({
            let name = arguments[at];
            let found = effect(arguments, budgets, platform, at, o);
            &&& name == "--metrics"@ ==> found == Effect::Alone(OptionsView { metrics: true, ..o })
            &&& name == "--pair"@ ==> found == Effect::Alone(OptionsView { pair: true, ..o })
            &&& name == "--legacy-v4"@ ==> found == Effect::Alone(
                OptionsView { legacy_v4: true, ..o },
            )
            &&& name == "--no-probe"@ ==> found == Effect::Alone(
                OptionsView { spawn_probe: false, ..o },
            )
            &&& name == "--local-only-tether"@ && platform != Platform::Other ==> found
                == Effect::Alone(OptionsView { local_only_tether: true, ..o })
            &&& name == "--help"@ || name == "-h"@ ==> found is Help
            &&& at + 1 < arguments.len() ==> {
                let value = arguments[at + 1];
                &&& name == "--udp-port"@ && value == text::decimal(port) && 1 <= port <= 65535
                    ==> found == Effect::WithValue(OptionsView { udp_port: port as u16, ..o })
                &&& name == "--udp-port"@ && value == text::decimal(port) && !(1 <= port <= 65535)
                    ==> found is Fault
                &&& name == "--transport"@ && value == "usb"@ ==> found == Effect::WithValue(
                    OptionsView { transport: Some(TransportKind::Usb), ..o },
                )
                &&& name == "--transport"@ && value == "wifi"@ ==> found == Effect::WithValue(
                    OptionsView { transport: Some(TransportKind::Wifi), ..o },
                )
                &&& name == "--mode"@ && value == "keys"@ ==> found == Effect::WithValue(
                    OptionsView { mode: Mode::Keys, ..o },
                )
                &&& name == "--mode"@ && value == "record"@ ==> found == Effect::WithValue(
                    OptionsView { mode: Mode::Record, ..o },
                )
                &&& name == "--mode"@ && value == "touch"@ ==> if platform == Platform::Windows {
                    found == Effect::WithValue(OptionsView { mode: Mode::Touch, ..o })
                } else {
                    found is Fault
                }
                &&& name == "--target-title"@ ==> found == Effect::WithValue(
                    OptionsView { target_title: value, spawn_probe: false, ..o },
                )
                &&& name == "--metrics-file"@ ==> found == Effect::WithValue(
                    OptionsView { metrics: true, metrics_file: Some(value), ..o },
                )
            }
        }),
{
    option_names_differ();
    text::decimal_is_read_back(port, 65535);
}

/// A list of lanes gives one key for each of its pieces, in order and without spaces around
/// it, where none is empty.
pub proof fn lanes_are_the_pieces(pieces: Seq<Seq<char>>)
    requires
        forall|i: int| 0 <= i < pieces.len() ==> text::trimmed(#[trigger] pieces[i]).len() > 0,
    ensures
        lanes_of(pieces).len() == pieces.len(),
        forall|i: int|
            0 <= i < pieces.len() ==> #[trigger] lanes_of(pieces)[i] == text::trimmed(pieces[i]),
    decreases pieces.len(),
{
    if pieces.len() > 0 {
        let front = pieces.drop_last();
        assert forall|i: int| 0 <= i < front.len() implies text::trimmed(#[trigger] front[i]).len()
            > 0 by {
            assert(front[i] == pieces[i]);
        }
        lanes_are_the_pieces(front);
        assert(text::trimmed(pieces[pieces.len() - 1]).len() > 0);
        assert forall|i: int| 0 <= i < pieces.len() implies #[trigger] lanes_of(pieces)[i]
            == text::trimmed(pieces[i]) by {
            if i < front.len() {
                assert(lanes_of(front)[i] == text::trimmed(front[i]));
            }
        }
    }
}

/// Whatever order they come in, a command line of options that each are understood comes to
/// the defaults with each of them applied: what one sets, the next one finds.
pub proof fn options_are_read_from_left_to_right(
    arguments: Seq<Seq<char>>,
    budgets: Seq<Budget>,
    platform: Platform,
    at: int,
    o: OptionsView,
)
    requires
        0 <= at,
    ensures
        at < arguments.len() ==> match effect(arguments, budgets, platform, at, o) {
            Effect::Alone(next) => parsed(arguments, budgets, platform, at, o) == parsed(
                arguments,
                budgets,
                platform,
                at + 1,
                next,
            ),
            Effect::WithValue(next) => parsed(arguments, budgets, platform, at, o) == parsed(
                arguments,
                budgets,
                platform,
                at + 2,
                next,
            ),
            Effect::Help => parsed(arguments, budgets, platform, at, o) is Help,
            Effect::Fault(message) => parsed(arguments, budgets, platform, at, o) == Effect::Fault(
                message,
            ),
        },
        at >= arguments.len() ==> parsed(arguments, budgets, platform, at, o) == settled(o),
{
}

/// A budget that is a number above zero is noted by where it stands, and one that is not is
/// refused.
pub proof fn budget_option_is_noted(
    arguments: Seq<Seq<char>>,
    budgets: Seq<Budget>,
    platform: Platform,
    at: int,
    o: OptionsView,
)
    requires
        0 <= at,
        at + 1 < arguments.len(),
        arguments[at] == "--warn-ms"@,
    ensures
        ({
            let found = effect(arguments, budgets, platform, at, o);
            match budgets[at + 1] {
                Budget::Accepted => found == Effect::WithValue(
                    OptionsView { warning_budget: Some((at + 1) as usize), ..o },
                ),
                _ => found is Fault,
            }
        }),
{
    option_names_differ();
}

/// A list of one to sixteen lanes sets the keys, and any other is refused.
pub proof fn lanes_option_is_noted(
    arguments: Seq<Seq<char>>,
    budgets: Seq<Budget>,
    platform: Platform,
    at: int,
    o: OptionsView,
)
    requires
        0 <= at,
        at + 1 < arguments.len(),
        arguments[at] == "--lanes"@,
    ensures
        ({
            let found = effect(arguments, budgets, platform, at, o);
            let keys = lanes_of(text::split(arguments[at + 1], ','));
            if 1 <= keys.len() <= 16 {
                found == Effect::WithValue(OptionsView { lane_keys: keys, ..o })
            } else {
                found is Fault
            }
        }),
{
    option_names_differ();
}

/// Without arguments: six lanes on the home row, the port 42825, no metrics, and no transport.
pub proof fn defaults_are(platform: Platform)
    ensures
        ({
            let o = default_options(platform);
            &&& o.lane_keys == seq!["s"@, "d"@, "f"@, "j"@, "k"@, "l"@]
            &&& o.udp_port == 42825
            &&& o.mode == (if platform == Platform::Windows {
                Mode::Touch
            } else {
                Mode::Keys
            })
            &&& !o.metrics && !o.pair && !o.legacy_v4 && !o.local_only_tether && o.spawn_probe
            &&& o.transport is None && o.metrics_file is None && o.warning_budget is None
        }),
{
}

/// An option that takes a value is refused without one, and where its value is none of those
/// that it knows; so is whatever is no option.
pub proof fn unknown_options_are_refused(
    arguments: Seq<Seq<char>>,
    budgets: Seq<Budget>,
    platform: Platform,
    at: int,
    o: OptionsView,
)
    requires
        0 <= at < arguments.len(),
    ensures
        ({
            let name = arguments[at];
            let last = at + 1 == arguments.len();
            let value = arguments[at + 1];
            let found = effect(arguments, budgets, platform, at, o);
            let takes_a_value = name == "--mode"@ || name == "--lanes"@ || name
                == "--target-title"@ || name == "--udp-port"@ || name == "--transport"@ || name
                == "--metrics-file"@ || name == "--warn-ms"@;
            let stands_alone = name == "--no-probe"@ || name == "--metrics"@ || name == "--pair"@
                || name == "--legacy-v4"@ || name == "--local-only-tether"@ || name == "--help"@
                || name == "-h"@;
            &&& takes_a_value && last ==> found is Fault
            &&& !takes_a_value && !stands_alone ==> found is Fault
            &&& name == "--mode"@ && !last && value != "touch"@ && value != "keys"@ && value
                != "record"@ ==> found is Fault
            &&& name == "--transport"@ && !last && value != "usb"@ && value != "wifi"@
                ==> found is Fault
            &&& name == "--local-only-tether"@ && platform == Platform::Other ==> found is Fault
            &&& found is WithValue ==> takes_a_value && !last
            &&& found is Alone ==> stands_alone
        }),
{
    option_names_differ();
}

/// Options are refused together exactly where they contradict each other: pairing or a network
/// other than USB with the older protocol, the newer one without a network, and a tether that
/// is to stay local without USB. Whatever is accepted is kept as it was read; the older
/// protocol runs over USB.
pub proof fn contradictions_are_refused(o: OptionsView)
    ensures
        ({
            let over_usb = o.transport == Some(TransportKind::Usb);
            let contradiction = if o.legacy_v4 {
                o.pair || o.transport == Some(TransportKind::Wifi)
            } else {
                o.transport is None || o.local_only_tether && !over_usb
            };
            &&& contradiction ==> settled(o) is Fault
            &&& !contradiction && !o.legacy_v4 ==> settled(o) == Effect::Alone(o)
            &&& !contradiction && o.legacy_v4 ==> settled(o) == Effect::Alone(
                OptionsView { transport: Some(TransportKind::Usb), ..o },
            )
        }),
{
    match o.transport {
        Some(TransportKind::Usb) => {},
        Some(TransportKind::Wifi) => {},
        None => {},
    }
}

/// A piece that is empty or blank is no lane.
pub proof fn blank_pieces_are_left_out(pieces: Seq<Seq<char>>, blank: Seq<char>)
    requires
        text::trimmed(blank).len() == 0,
    ensures
        lanes_of(pieces.push(blank)) == lanes_of(pieces),
{
    assert(pieces.push(blank).drop_last() =~= pieces);
}

} // verus!
