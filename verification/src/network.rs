//! The datagrams of a phone: discovery, the pinned peer, redundant sends.
use crate::bytes;
use crate::bytes::{has_prefix, read_u32, read_u64};
use crate::protocol::discovery;
use crate::protocol::discovery::{
    decode_discovery, discovery_port_acceptable, DiscoveryMessage, DISCOVERY_HELLO,
};
use crate::protocol::frame::FRAME_MAGIC;
use crate::protocol::laws;
use crate::text;
use vstd::prelude::*;
use vstd::string::*;

verus! {

pub const DEFAULT_UDP_PORT: u16 = 42_825;

pub const DISCOVERY_READ_MILLIS: u64 = 250;

pub const FRAME_READ_MILLIS: u64 = 4;

pub const DATAGRAM_WRITE_MILLIS: u64 = 2;

pub const MAX_DATAGRAM_SIZE: usize = 2_048;

/// How often a datagram is sent.
pub const REDUNDANT_SENDS: usize = 2;

/// An IPv4 address and a port.
#[derive(Clone, Copy, Debug, PartialEq, Eq, Structural)]
pub struct Endpoint {
    pub address: u32,
    pub port: u16,
}

/// The greeting of a phone that looks for a host on `listening_port`.
pub open spec fn hello_of(bytes: Seq<u8>, listening_port: u16) -> Option<DiscoveryMessage> {
    match discovery::discovery_of(bytes) {
        Some(message) => if message.kind == DISCOVERY_HELLO && (message.port == 0 || message.port
            == listening_port) {
            Some(message)
        } else {
            None
        },
        None => None,
    }
}

pub fn read_hello(bytes: &[u8], listening_port: u16) -> (hello: Option<DiscoveryMessage>)
    ensures
        hello == hello_of(bytes@, listening_port),
{
    match decode_discovery(bytes) {
        Some(message) => if message.kind == DISCOVERY_HELLO && discovery_port_acceptable(
            message.port,
            listening_port,
        ) {
            Some(message)
        } else {
            None
        },
        None => None,
    }
}

/// What is known of the sender of a greeting.
#[derive(Clone, Copy, Debug, PartialEq, Eq, Structural)]
pub enum Sender {
    /// It was not looked up yet.
    Unknown,
    /// No tether leads to it.
    Elsewhere,
    /// The lookup failed, or the route policy refuses the tether.
    Refused,
    /// A tether leads to it; the greeting came in by that tether, or by another interface.
    OnTether { ingress_accepted: bool },
}

/// What to do with a datagram while no phone is followed.
#[derive(Clone, Copy, Debug, PartialEq, Eq)]
pub enum GreetingStep {
    /// To read the next one.
    Skip,
    /// To look its sender up.
    LookUp,
    /// To give up, with the error of the lookup.
    Fail,
    /// To acknowledge the greeting and follow its sender.
    Acknowledge(DiscoveryMessage),
}

/// What to do with a datagram while no phone is followed.
pub open spec fn greeting_step_of(bytes: Seq<u8>, listening_port: u16, sender: Sender) -> GreetingStep {
    match hello_of(bytes, listening_port) {
        None => GreetingStep::Skip,
        Some(hello) => match sender {
            Sender::Unknown => GreetingStep::LookUp,
            Sender::Elsewhere => GreetingStep::Skip,
            Sender::Refused => GreetingStep::Fail,
            Sender::OnTether { ingress_accepted } => if ingress_accepted {
                GreetingStep::Acknowledge(hello)
            } else {
                GreetingStep::Skip
            },
        },
    }
}

/// Says what to do with a datagram while no phone is followed.
pub fn greeting_step(bytes: &[u8], listening_port: u16, sender: Sender) -> (step: GreetingStep)
    ensures
        step == greeting_step_of(bytes@, listening_port, sender),
{
    match read_hello(bytes, listening_port) {
        None => GreetingStep::Skip,
        Some(hello) => match sender {
            Sender::Unknown => GreetingStep::LookUp,
            Sender::Elsewhere => GreetingStep::Skip,
            Sender::Refused => GreetingStep::Fail,
            Sender::OnTether { ingress_accepted } => if ingress_accepted {
                GreetingStep::Acknowledge(hello)
            } else {
                GreetingStep::Skip
            },
        },
    }
}

/// No phone begins a session before its tether was looked up and accepted: a greeting is
/// acknowledged only where it came in by a tether that leads to its sender.
pub proof fn only_tethers_are_acknowledged(
    bytes: Seq<u8>,
    listening_port: u16,
    sender: Sender,
    hello: DiscoveryMessage,
)
    requires
        greeting_step_of(bytes, listening_port, sender) == GreetingStep::Acknowledge(hello),
    ensures
        hello_of(bytes, listening_port) == Some(hello),
        sender == (Sender::OnTether { ingress_accepted: true }),
{
}

/// The session that a frame names, where it is long enough to name one.
pub open spec fn session_of(bytes: Seq<u8>) -> Option<u64> {
    if bytes.len() >= 16 {
        Some(bytes::field(bytes, 8, 8) as u64)
    } else {
        None
    }
}

pub fn frame_session(bytes: &[u8]) -> (session: Option<u64>)
    ensures
        session == session_of(bytes@),
{
    if bytes.len() >= 16 {
        Some(read_u64(bytes, 8))
    } else {
        None
    }
}

pub open spec fn timeout_wording(port: u16) -> Seq<char> {
    "no USB-tethered phone discovered on UDP port "@ + text::decimal(port as nat)
}

/// What is said when no phone was found in time.
pub fn discovery_timeout(port: u16) -> (message: String)
    ensures
        message@ == timeout_wording(port),
{
    text::numbered("no USB-tethered phone discovered on UDP port ", port as u64)
}

/// What to do with a datagram.
#[derive(Clone, Copy, Debug, PartialEq, Eq)]
pub enum ReadStep {
    /// To read the next one.
    Skip,
    /// To hand it on as a frame.
    Deliver,
    /// To acknowledge the greeting and follow its sender.
    Acknowledge(DiscoveryMessage),
}

/// The phone that the host follows.
pub struct UdpConnection {
    pub peer: Endpoint,
    pub discovery_nonce: u64,
    pub discovery_session_id: u64,
    /// Whether another session was adopted since the last look.
    pub session_changed: bool,
}

impl UdpConnection {
    /// A greeting is followed where it announces another session, or repeats the one that
    /// was accepted.
    pub open spec fn compatible(self, hello: DiscoveryMessage) -> bool {
        hello.session_id != self.discovery_session_id || hello.nonce == self.discovery_nonce
    }

    /// What to do with a datagram from `sender`. Frames count only from the pinned
    /// endpoint and in the accepted session; greetings only from its address.
    pub open spec fn step(
        self,
        bytes: Seq<u8>,
        sender: Endpoint,
        ingress_accepted: bool,
        allow_discovery: bool,
        listening_port: u16,
    ) -> ReadStep {
        if !ingress_accepted {
            ReadStep::Skip
        } else if sender == self.peer && bytes.len() >= 4 && bytes.subrange(0, 4) == FRAME_MAGIC@ {
            if session_of(bytes) == Some(self.discovery_session_id) {
                ReadStep::Deliver
            } else {
                ReadStep::Skip
            }
        } else if allow_discovery && sender.address == self.peer.address {
            match hello_of(bytes, listening_port) {
                Some(hello) => if self.compatible(hello) {
                    ReadStep::Acknowledge(hello)
                } else {
                    ReadStep::Skip
                },
                None => ReadStep::Skip,
            }
        } else {
            ReadStep::Skip
        }
    }

    /// The connection after a greeting was acknowledged.
    pub open spec fn adopted(self, hello: DiscoveryMessage, sender: Endpoint) -> UdpConnection {
        UdpConnection {
            peer: sender,
            discovery_nonce: hello.nonce,
            discovery_session_id: hello.session_id,
            session_changed: self.session_changed || hello.session_id
                != self.discovery_session_id,
        }
    }

    /// The connection that a first greeting opens.
    pub fn open(hello: &DiscoveryMessage, sender: Endpoint) -> (connection: UdpConnection)
        ensures
            connection == (UdpConnection {
                peer: sender,
                discovery_nonce: hello.nonce,
                discovery_session_id: hello.session_id,
                session_changed: false,
            }),
    {
        UdpConnection {
            peer: sender,
            discovery_nonce: hello.nonce,
            discovery_session_id: hello.session_id,
            session_changed: false,
        }
    }

    pub fn peer(&self) -> (peer: Endpoint)
        ensures
            peer == self.peer,
    {
        self.peer
    }

    pub fn discovery_session_id(&self) -> (session_id: u64)
        ensures
            session_id == self.discovery_session_id,
    {
        self.discovery_session_id
    }

    pub fn take_session_changed(&mut self) -> (changed: bool)
        ensures
            changed == old(self).session_changed,
            *final(self) == (UdpConnection { session_changed: false, ..*old(self) }),
    {
        let changed: bool = self.session_changed;
        self.session_changed = false;
        changed
    }

    fn discovery_compatible(&self, hello: &DiscoveryMessage) -> (compatible: bool)
        ensures
            compatible == self.compatible(*hello),
    {
        hello.session_id != self.discovery_session_id || hello.nonce == self.discovery_nonce
    }

    /// Judges a datagram.
    pub fn read(
        &self,
        bytes: &[u8],
        sender: Endpoint,
        ingress_accepted: bool,
        allow_discovery: bool,
        listening_port: u16,
    ) -> (step: ReadStep)
        ensures
            step == self.step(
                bytes@,
                sender,
                ingress_accepted,
                allow_discovery,
                listening_port,
            ),
    {
        if !ingress_accepted {
            return ReadStep::Skip;
        }
        if sender == self.peer && has_prefix(bytes, &FRAME_MAGIC) {
            if let Some(session) = frame_session(bytes) {
                if session == self.discovery_session_id {
                    return ReadStep::Deliver;
                }
            }
            return ReadStep::Skip;
        }
        if allow_discovery && sender.address == self.peer.address {
            if let Some(hello) = read_hello(bytes, listening_port) {
                if self.discovery_compatible(&hello) {
                    return ReadStep::Acknowledge(hello);
                }
            }
        }
        ReadStep::Skip
    }

    /// Follows the sender of a greeting that was acknowledged.
    pub fn adopt_discovery(&mut self, hello: &DiscoveryMessage, sender: Endpoint)
        ensures
            *final(self) == old(self).adopted(*hello, sender),
    {
        if hello.session_id != self.discovery_session_id {
            self.discovery_session_id = hello.session_id;
            self.session_changed = true;
        }
        self.discovery_nonce = hello.nonce;
        self.peer = sender;
    }
}

/// What one attempt to send came to: so many bytes, or an error.
#[derive(Clone, Copy, Debug, PartialEq, Eq, Structural)]
pub enum Attempt {
    Sent(usize),
    Failed,
}

/// What the attempts together came to.
#[derive(Clone, Copy, Debug, PartialEq, Eq, Structural)]
pub enum SendResult {
    /// At least one datagram went out whole.
    Delivered,
    /// None did; the first attempt sent too little.
    Short(usize),
    /// None did; the first attempt failed.
    Failed,
    /// There was no attempt.
    Nothing,
}

pub open spec fn send_result(attempts: Seq<Attempt>, length: usize) -> SendResult {
    if exists|i: int| 0 <= i < attempts.len() && #[trigger] attempts[i] == Attempt::Sent(length) {
        SendResult::Delivered
    } else if attempts.len() == 0 {
        SendResult::Nothing
    } else {
        match attempts[0] {
            Attempt::Sent(sent) => SendResult::Short(sent),
            Attempt::Failed => SendResult::Failed,
        }
    }
}

/// One whole datagram is enough; otherwise the first attempt says why.
pub fn send_redundant(attempts: &Vec<Attempt>, length: usize) -> (result: SendResult)
    ensures
        result == send_result(attempts@, length),
{
    let mut i: usize = 0;
    while i < attempts.len()
        invariant
            i <= attempts@.len(),
            forall|j: int| 0 <= j < i ==> #[trigger] attempts@[j] != Attempt::Sent(length),
        decreases attempts@.len() - i,
    {
        if let Attempt::Sent(sent) = attempts[i] {
            if sent == length {
                assert(attempts@[i as int] == Attempt::Sent(length));
                return SendResult::Delivered;
            }
        }
        i = i + 1;
    }
    if attempts.len() == 0 {
        SendResult::Nothing
    } else {
        match attempts[0] {
            Attempt::Sent(sent) => SendResult::Short(sent),
            Attempt::Failed => SendResult::Failed,
        }
    }
}

/// What is said of a datagram that went out short.
pub fn short_write(sent: usize, length: usize) -> (message: String)
    ensures
        message@ == "short UDP datagram write: "@ + text::decimal(sent as nat) + "/"@
            + text::decimal(length as nat),
{
    let mut message: String = "short UDP datagram write: ".to_owned();
    text::push_decimal(&mut message, sent as u128);
    message.append("/");
    text::push_decimal(&mut message, length as u128);
    message
}

/// The protocol level of the record that names the interface.
pub const PKTINFO_LEVEL: u32 = 0;

/// Whose control records they are.
#[derive(Clone, Copy, Debug, PartialEq, Eq, Structural)]
pub enum ControlLayout {
    Windows,
    Linux,
}

impl ControlLayout {
    /// The type of the record that names the interface.
    pub open spec fn kind(self) -> u32 {
        match self {
            ControlLayout::Windows => 19,
            ControlLayout::Linux => 8,
        }
    }

    /// How many bytes of data the record has.
    pub open spec fn size(self) -> int {
        match self {
            ControlLayout::Windows => 8,
            ControlLayout::Linux => 12,
        }
    }

    /// Where in its data the interface stands.
    pub open spec fn index_at(self) -> int {
        match self {
            ControlLayout::Windows => 4,
            ControlLayout::Linux => 0,
        }
    }

    /// The largest number of an interface.
    pub open spec fn largest(self) -> u32 {
        match self {
            ControlLayout::Windows => 0xffff_ffff,
            ControlLayout::Linux => 0x7fff_ffff,
        }
    }
}

/// How many bytes of control records are looked at.
pub const CONTROL_LIMIT: usize = 128;

/// `length` rounded up to a multiple of `word`.
pub open spec fn aligned(length: int, word: int) -> int {
    (length + word - 1) / word * word
}

/// The interface that the control records from `offset` on name. A record is its length
/// in one word, its level and its type, then its data at the next word boundary. On Windows
/// a record that runs past the end ends the search; on Linux one that names the interface
/// counts as long as the number itself is there.
pub open spec fn ingress_from(
    layout: ControlLayout,
    control: Seq<u8>,
    word: int,
    offset: int,
) -> Option<u32>
    decreases control.len() - offset,
{
    let header = aligned(word + 8, word);
    let length = bytes::field(control, offset, word) as int;
    let at = offset + header + layout.index_at();
    if word <= 0 || offset + word + 8 > control.len() || length < header {
        None
    } else if layout == ControlLayout::Windows && offset + length > control.len() {
        None
    } else if bytes::field(control, offset + word, 4) == PKTINFO_LEVEL && bytes::field(
        control,
        offset + word + 4,
        4,
    ) == layout.kind() && length >= header + layout.size() {
        let index = bytes::field(control, at, 4) as u32;
        if at + 4 <= control.len() && 0 < index <= layout.largest() {
            Some(index)
        } else {
            None
        }
    } else if aligned(length, word) <= 0 || offset + aligned(length, word) > control.len() {
        None
    } else {
        ingress_from(layout, control, word, offset + aligned(length, word))
    }
}

/// The interface that a datagram came in by, from its control records with words of
/// `word` bytes.
pub fn ingress_interface(layout: ControlLayout, control: &[u8], word: usize) -> (interface: Option<
    u32,
>)
    requires
        word == 4 || word == 8,
        control@.len() <= CONTROL_LIMIT,
    ensures
        interface == ingress_from(layout, control@, word as int, 0),
{
    let (kind, size, index_at, largest): (u32, usize, usize, u32) = match layout {
        ControlLayout::Windows => (19, 8, 4, 0xffff_ffff),
        ControlLayout::Linux => (8, 12, 0, 0x7fff_ffff),
    };
    let header: usize = if word == 4 {
        12
    } else {
        16
    };
    assert(header == aligned(word + 8, word as int)) by (nonlinear_arith)
        requires
            word == 4 && header == 12 || word == 8 && header == 16,
    ;
    let mut offset: usize = 0;
    while offset + word + 8 <= control.len()
        invariant
            word == 4 || word == 8,
            header == word + 8,
            header == aligned(word + 8, word as int),
            control@.len() <= CONTROL_LIMIT,
            offset <= 2 * CONTROL_LIMIT,
            kind == layout.kind(),
            size == layout.size(),
            index_at == layout.index_at(),
            largest == layout.largest(),
            ingress_from(layout, control@, word as int, 0) == ingress_from(
                layout,
                control@,
                word as int,
                offset as int,
            ),
        decreases 2 * CONTROL_LIMIT - offset,
    {
        let length: u64 = if word == 4 {
            read_u32(control, offset) as u64
        } else {
            read_u64(control, offset)
        };
        let overlong: bool = length > (control.len() - offset) as u64;
        if length < header as u64 || (layout == ControlLayout::Windows && overlong) {
            return None;
        }
        if read_u32(control, offset + word) == PKTINFO_LEVEL && read_u32(
            control,
            offset + word + 4,
        ) == kind && length >= header as u64 + size as u64 {
            let at: usize = offset + header + index_at;
            if at + 4 > control.len() {
                return None;
            }
            let index: u32 = read_u32(control, at);
            return if 0 < index && index <= largest {
                Some(index)
            } else {
                None
            };
        }
        if overlong {
            assert(aligned(length as int, word as int) >= length) by {
                if word == 4 {
                    assert(aligned(length as int, 4) == (length + 3) / 4 * 4);
                } else {
                    assert(aligned(length as int, 8) == (length + 7) / 8 * 8);
                }
            }
            return None;
        }
        let length: usize = length as usize;
        let step: usize = if word == 4 {
            (length + 3) / 4 * 4
        } else {
            (length + 7) / 8 * 8
        };
        assert(step == aligned(length as int, word as int)) by {
            if word == 4 {
                assert(aligned(length as int, 4) == (length + 3) / 4 * 4);
            } else {
                assert(aligned(length as int, 8) == (length + 7) / 8 * 8);
            }
        }
        offset = offset + step;
    }
    None
}

/// Whatever is not skipped came in by the accepted interface from the address of the
/// phone, and frames come from its very endpoint and session.
pub proof fn only_the_phone_is_heard(
    connection: UdpConnection,
    bytes: Seq<u8>,
    sender: Endpoint,
    ingress_accepted: bool,
    allow_discovery: bool,
    listening_port: u16,
)
    ensures
        connection.step(bytes, sender, ingress_accepted, allow_discovery, listening_port)
            != ReadStep::Skip ==> ingress_accepted && sender.address == connection.peer.address,
        connection.step(bytes, sender, ingress_accepted, allow_discovery, listening_port)
            == ReadStep::Deliver ==> sender == connection.peer && session_of(bytes) == Some(
            connection.discovery_session_id,
        ),
{
}

/// A greeting that was followed can be repeated: it is acknowledged again and changes
/// nothing but the sender.
pub proof fn repeated_greeting_changes_nothing(
    connection: UdpConnection,
    hello: DiscoveryMessage,
    sender: Endpoint,
)
    ensures
        connection.adopted(hello, sender).compatible(hello),
        connection.adopted(hello, sender).adopted(hello, sender) == connection.adopted(
            hello,
            sender,
        ),
{
}

/// The phone may change its port within a session without the session counting as new.
pub proof fn migration_keeps_the_session(
    connection: UdpConnection,
    hello: DiscoveryMessage,
    sender: Endpoint,
)
    requires
        hello.session_id == connection.discovery_session_id,
    ensures
        connection.adopted(hello, sender).session_changed == connection.session_changed,
        connection.adopted(hello, sender).peer == sender,
{
}

/// The greeting in a datagram is the message that its bytes hold, if that is a hello for any
/// port or for this one; nothing else is a greeting.
pub proof fn greeting_is_a_hello_for_this_port(
    bytes: Seq<u8>,
    listening_port: u16,
    hello: DiscoveryMessage,
)
    ensures
        hello_of(bytes, listening_port) == Some(hello) <==> laws::holds_discovery(bytes, hello)
            && hello.kind == 1 && (hello.port == 0 || hello.port == listening_port),
{
    laws::discovery_is_what_the_datagram_holds(bytes, hello);
}

/// While no phone is followed, a greeting first has its sender looked up; it is acknowledged
/// if it came in by the tether that leads to its sender, and skipped where none does or it
/// came in by another way; a refused tether is an error. What is no greeting is skipped.
pub proof fn greetings_are_answered_by_their_sender(
    bytes: Seq<u8>,
    listening_port: u16,
    hello: DiscoveryMessage,
)
    requires
        laws::holds_discovery(bytes, hello),
        hello.kind == 1,
        hello.port == 0 || hello.port == listening_port,
    ensures
        greeting_step_of(bytes, listening_port, Sender::Unknown) == GreetingStep::LookUp,
        greeting_step_of(bytes, listening_port, Sender::Elsewhere) == GreetingStep::Skip,
        greeting_step_of(bytes, listening_port, Sender::Refused) == GreetingStep::Fail,
        greeting_step_of(bytes, listening_port, Sender::OnTether { ingress_accepted: false })
            == GreetingStep::Skip,
        greeting_step_of(bytes, listening_port, Sender::OnTether { ingress_accepted: true })
            == GreetingStep::Acknowledge(hello),
{
    greeting_is_a_hello_for_this_port(bytes, listening_port, hello);
}

/// The bytes start with the mark of a frame.
pub open spec fn marked_as_frame(bytes: Seq<u8>) -> bool {
    bytes.len() >= 4 && bytes[0] == 0x48 && bytes[1] == 0x50 && bytes[2] == 0x54 && bytes[3] == 0x34
}

/// A datagram of the phone is handed on exactly if it came in by the accepted interface from
/// the very endpoint, is marked as a frame and names the accepted session.
pub proof fn frames_of_the_phone_are_delivered(
    connection: UdpConnection,
    bytes: Seq<u8>,
    sender: Endpoint,
    ingress_accepted: bool,
    allow_discovery: bool,
    listening_port: u16,
)
    ensures
        connection.step(bytes, sender, ingress_accepted, allow_discovery, listening_port)
            == ReadStep::Deliver <==> ingress_accepted && sender.address == connection.peer.address
            && sender.port == connection.peer.port && marked_as_frame(bytes) && bytes.len() >= 16
            && bytes::number64(bytes, 8) == connection.discovery_session_id,
{
    let mark = bytes.subrange(0, 4);
    if bytes.len() >= 4 {
        if mark == FRAME_MAGIC@ {
            assert(mark[0] == 0x48 && mark[1] == 0x50 && mark[2] == 0x54 && mark[3] == 0x34);
        }
        if marked_as_frame(bytes) {
            assert(mark =~= FRAME_MAGIC@);
        }
    }
    if bytes.len() >= 16 {
        bytes::fields_are_little_endian(bytes, 8);
    }
}

/// While a phone is followed, a greeting is acknowledged exactly if greetings are looked for,
/// it came in by the accepted interface from the address of the phone, and it announces
/// another session or repeats the accepted one with its nonce.
pub proof fn greetings_of_the_phone_are_followed(
    connection: UdpConnection,
    bytes: Seq<u8>,
    sender: Endpoint,
    ingress_accepted: bool,
    allow_discovery: bool,
    listening_port: u16,
    hello: DiscoveryMessage,
)
    ensures
        connection.step(bytes, sender, ingress_accepted, allow_discovery, listening_port)
            == ReadStep::Acknowledge(hello) <==> {
            &&& ingress_accepted
            &&& allow_discovery
            &&& sender.address == connection.peer.address
            &&& laws::holds_discovery(bytes, hello)
            &&& hello.kind == 1
            &&& hello.port == 0 || hello.port == listening_port
            &&& hello.session_id != connection.discovery_session_id || hello.nonce
                == connection.discovery_nonce
        },
{
    greeting_is_a_hello_for_this_port(bytes, listening_port, hello);
    let mark = bytes.subrange(0, 4);
    if laws::holds_discovery(bytes, hello) && mark == FRAME_MAGIC@ {
        assert(mark[3] == FRAME_MAGIC[3]);
    }
}

/// Once a greeting was followed, the frames of its session from its sender are those that are
/// handed on, and the session counts as changed exactly if it is another one.
pub proof fn followed_greeting_pins_the_phone(
    connection: UdpConnection,
    hello: DiscoveryMessage,
    sender: Endpoint,
)
    ensures
        ({
            let after = connection.adopted(hello, sender);
            &&& after.peer == sender
            &&& after.discovery_session_id == hello.session_id
            &&& after.discovery_nonce == hello.nonce
            &&& after.session_changed <==> connection.session_changed || hello.session_id
                != connection.discovery_session_id
        }),
{
}

/// One whole datagram is enough, whichever it is; without one, the first attempt tells what
/// went wrong.
pub proof fn one_whole_datagram_is_enough(attempts: Seq<Attempt>, length: usize, i: int)
    requires
        0 <= i < attempts.len(),
    ensures
        attempts[i] == Attempt::Sent(length) ==> send_result(attempts, length)
            == SendResult::Delivered,
        send_result(attempts, length) == SendResult::Delivered ==> exists|k: int|
            0 <= k < attempts.len() && #[trigger] attempts[k] == Attempt::Sent(length),
        send_result(attempts, length) == SendResult::Failed ==> attempts[0] == Attempt::Failed,
        send_result(attempts, length) matches SendResult::Short(sent) ==> attempts[0]
            == Attempt::Sent(sent) && sent != length,
        send_result(attempts, length) != SendResult::Nothing,
{
}

/// A control record of Linux with the interface as its first number, after a header of a word,
/// a level of zero and the type 8, names the interface, wherever it stands behind others.
pub proof fn linux_record_names_the_interface(control: Seq<u8>, offset: int)
    requires
        0 <= offset,
        offset + 20 <= control.len(),
        bytes::number64(control, offset) >= 28,
        bytes::number32(control, offset + 8) == 0,
        bytes::number32(control, offset + 12) == 8,
    ensures
        ({
            let index = bytes::number32(control, offset + 16);
            ingress_from(ControlLayout::Linux, control, 8, offset) == if 0 < index < 0x8000_0000 {
                Some(index as u32)
            } else {
                None
            }
        }),
{
    bytes::fields_are_little_endian(control, offset);
    bytes::fields_are_little_endian(control, offset + 8);
    bytes::fields_are_little_endian(control, offset + 12);
    bytes::fields_are_little_endian(control, offset + 16);
    assert(aligned(16, 8) == 16);
}

/// A control record of Windows with the interface as its second number, of the type 19, names
/// the interface if it lies within the records.
pub proof fn windows_record_names_the_interface(control: Seq<u8>, offset: int)
    requires
        0 <= offset,
        24 <= bytes::number64(control, offset) <= control.len() - offset,
        offset + 24 <= control.len(),
        bytes::number32(control, offset + 8) == 0,
        bytes::number32(control, offset + 12) == 19,
    ensures
        ({
            let index = bytes::number32(control, offset + 20);
            ingress_from(ControlLayout::Windows, control, 8, offset) == if index > 0 {
                Some(index as u32)
            } else {
                None
            }
        }),
{
    bytes::fields_are_little_endian(control, offset);
    bytes::fields_are_little_endian(control, offset + 8);
    bytes::fields_are_little_endian(control, offset + 12);
    bytes::fields_are_little_endian(control, offset + 20);
    assert(aligned(16, 8) == 16);
}

/// A record of another type or level is passed over: what is named is what the records behind
/// it name, from the next multiple of a word on.
pub proof fn other_records_are_passed_over(
    layout: ControlLayout,
    control: Seq<u8>,
    offset: int,
    next: int,
)
    requires
        0 <= offset,
        offset + 16 <= control.len(),
        16 <= bytes::number64(control, offset) <= next - offset,
        next - offset < bytes::number64(control, offset) + 8,
        (next - offset) % 8 == 0,
        next <= control.len(),
        bytes::number32(control, offset + 8) != 0 || bytes::number32(control, offset + 12) != (
        match layout {
            ControlLayout::Windows => 19int,
            ControlLayout::Linux => 8int,
        }),
    ensures
        ingress_from(layout, control, 8, offset) == ingress_from(layout, control, 8, next),
{
    bytes::fields_are_little_endian(control, offset);
    bytes::fields_are_little_endian(control, offset + 8);
    bytes::fields_are_little_endian(control, offset + 12);
    assert(aligned(16, 8) == 16);
    let length = bytes::number64(control, offset);
    assert(aligned(length, 8) == next - offset);
}

} // verus!
