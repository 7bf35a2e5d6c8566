//! Identities: of adapters, of interfaces, of the process that owns a policy.
use crate::bytes::same_bytes;
use crate::text;
use vstd::prelude::*;
use vstd::string::*;

verus! {

/// A network adapter of Windows.
#[derive(Clone, Debug)]
pub struct AdapterIdentity {
    pub adapter_name: String,
    pub luid: u64,
    pub network_guid: [u8; 16],
    pub physical_address: Vec<u8>,
    pub interface_index: u32,
    pub description: String,
    pub friendly_name: String,
}

impl AdapterIdentity {
    /// Whether both are the same device: name, LUID, GUID and hardware address agree. The
    /// index may change when a device is plugged in again.
    pub open spec fn same_instance(self, other: AdapterIdentity) -> bool {
        self.adapter_name@ == other.adapter_name@ && self.luid == other.luid
            && self.network_guid@ == other.network_guid@ && self.physical_address@
            == other.physical_address@
    }
}

pub fn same_adapter_instance(expected: &AdapterIdentity, actual: &AdapterIdentity) -> (same: bool)
    ensures
        same == expected.same_instance(*actual),
{
    text::same_text(expected.adapter_name.as_str(), actual.adapter_name.as_str()) && expected.luid
        == actual.luid && same_bytes(&expected.network_guid, &actual.network_guid) && same_bytes(
        expected.physical_address.as_slice(),
        actual.physical_address.as_slice(),
    )
}

/// Whether a row of a system table is about the adapter.
pub fn interface_identity_matches(
    interface_index: u32,
    interface_luid: u64,
    adapter: &AdapterIdentity,
) -> (matches: bool)
    ensures
        matches == (interface_index == adapter.interface_index && interface_luid == adapter.luid),
{
    interface_index == adapter.interface_index && interface_luid == adapter.luid
}

/// Why an adapter cannot be looked up: more than one fits.
#[derive(Clone, Copy, Debug, PartialEq, Eq, Structural)]
pub struct Ambiguous;

/// The one adapter that is the same device as `expected`.
pub fn find_adapter(expected: &AdapterIdentity, adapters: &Vec<AdapterIdentity>) -> (found: Result<
    Option<usize>,
    Ambiguous,
>)
    ensures
        match found {
            Ok(Some(at)) => at < adapters@.len() && forall|i: int|
                0 <= i < adapters@.len() ==> (expected.same_instance(#[trigger] adapters@[i]) <==> i
                    == at),
            Ok(None) => forall|i: int|
                0 <= i < adapters@.len() ==> !expected.same_instance(#[trigger] adapters@[i]),
            Err(_) => exists|i: int, j: int|
                0 <= i < j < adapters@.len() && expected.same_instance(#[trigger] adapters@[i])
                    && expected.same_instance(#[trigger] adapters@[j]),
        },
{
    let mut matched: Option<usize> = None;
    let mut i: usize = 0;
    while i < adapters.len()
        invariant
            i <= adapters@.len(),
            match matched {
                Some(at) => at < i && forall|j: int|
                    0 <= j < i ==> (expected.same_instance(#[trigger] adapters@[j]) <==> j == at),
                None => forall|j: int|
                    0 <= j < i ==> !expected.same_instance(#[trigger] adapters@[j]),
            },
        decreases adapters@.len() - i,
    {
        if same_adapter_instance(expected, &adapters[i]) {
            if let Some(at) = matched {
                assert(expected.same_instance(adapters@[at as int]) && expected.same_instance(
                    adapters@[i as int],
                ));
                return Err(Ambiguous);
            }
            matched = Some(i);
        }
        i = i + 1;
    }
    Ok(matched)
}

/// The interface that was accepted when a phone was found.
#[derive(Clone, Debug)]
pub struct TetherBinding {
    pub interface_index: u32,
    pub adapter: AdapterIdentity,
    /// Whether the binding is checked against the running system.
    pub validate_runtime: bool,
}

impl TetherBinding {
    pub fn interface_index(&self) -> (index: u32)
        ensures
            index == self.interface_index,
    {
        self.interface_index
    }

    pub fn matches_current(&self, current: &TetherBinding) -> (matches: bool)
        ensures
            matches == (self.interface_index == current.interface_index
                && self.adapter.same_instance(current.adapter)),
    {
        self.interface_index == current.interface_index && same_adapter_instance(
            &self.adapter,
            &current.adapter,
        )
    }

    /// Whether a datagram that came in by an interface counts: only by the accepted one.
    pub fn accepts_ingress_interface(&self, interface_index: Option<u32>) -> (accepts: bool)
        ensures
            accepts == (!self.validate_runtime || interface_index == Some(self.interface_index)),
    {
        accepts_ingress(self.validate_runtime, self.interface_index, interface_index)
    }
}

fn accepts_ingress(validate: bool, accepted: u32, interface_index: Option<u32>) -> (accepts: bool)
    ensures
        accepts == (!validate || interface_index == Some(accepted)),
{
    if !validate {
        return true;
    }
    match interface_index {
        Some(index) => index == accepted,
        None => false,
    }
}

/// A USB network interface of Linux. Names and paths are bytes.
#[derive(Clone, Debug)]
pub struct InterfaceIdentity {
    pub index: u32,
    pub name: Vec<u8>,
    pub device_path: Vec<u8>,
    pub driver: Vec<u8>,
    pub hardware_address: String,
}

impl InterfaceIdentity {
    pub open spec fn same(self, other: InterfaceIdentity) -> bool {
        self.index == other.index && self.name@ == other.name@ && self.device_path@
            == other.device_path@ && self.driver@ == other.driver@ && self.hardware_address@
            == other.hardware_address@
    }

    /// Whether both are the same interface in every respect.
    pub fn is_same(&self, other: &InterfaceIdentity) -> (same: bool)
        ensures
            same == self.same(*other),
    {
        self.index == other.index && same_bytes(self.name.as_slice(), other.name.as_slice())
            && same_bytes(self.device_path.as_slice(), other.device_path.as_slice()) && same_bytes(
            self.driver.as_slice(),
            other.driver.as_slice(),
        ) && text::same_text(self.hardware_address.as_str(), other.hardware_address.as_str())
    }

    /// Whether a datagram that came in by an interface counts: only by this one.
    pub fn accepts_ingress_interface(&self, validate: bool, interface_index: Option<u32>) -> (accepts:
        bool)
        ensures
            accepts == (!validate || interface_index == Some(self.index)),
    {
        accepts_ingress(validate, self.index, interface_index)
    }
}

/// `rndis_host`.
pub const TETHER_DRIVER: [u8; 10] = [114, 110, 100, 105, 115, 95, 104, 111, 115, 116];

/// Whether an interface with this driver can be a tether: only RNDIS, since generic USB
/// Ethernet adapters share the other drivers.
pub fn is_tether_capable_driver(driver: &[u8]) -> (capable: bool)
    ensures
        capable == (driver@ == TETHER_DRIVER@),
{
    same_bytes(driver, &TETHER_DRIVER)
}

/// The drivers that phones are bound to on Linux.
pub open spec fn tether_driver(name: Seq<char>) -> bool {
    name == "rndis_host"@ || name == "cdc_ncm"@ || name == "cdc_ether"@ || name == "cdc_mbim"@
        || name == "cdc_subset"@ || name == "ipheth"@
}

pub fn is_tether_driver(name: &str) -> (known: bool)
    ensures
        known == tether_driver(name@),
{
    text::same_text(name, "rndis_host") || text::same_text(name, "cdc_ncm") || text::same_text(
        name,
        "cdc_ether",
    ) || text::same_text(name, "cdc_mbim") || text::same_text(name, "cdc_subset")
        || text::same_text(name, "ipheth")
}

/// How long the name of an interface can be, with its terminator.
pub const INTERFACE_NAME_SIZE: usize = 16;

pub open spec fn letter_or_digit(byte: u8) -> bool {
    48 <= byte <= 57 || 65 <= byte <= 90 || 97 <= byte <= 122
}

/// A letter, a digit, `_`, `-` or `.`.
pub open spec fn name_byte(byte: u8) -> bool {
    letter_or_digit(byte) || byte == 95 || byte == 45 || byte == 46
}

/// A name that cannot be taken for an option or a path.
pub open spec fn safe_name(name: Seq<u8>) -> bool {
    0 < name.len() < INTERFACE_NAME_SIZE && letter_or_digit(name[0]) && forall|i: int|
        0 <= i < name.len() ==> name_byte(#[trigger] name[i])
}

pub fn valid_command_interface_name(name: &[u8]) -> (valid: bool)
    ensures
        valid == safe_name(name@),
{
    if name.len() == 0 || name.len() >= INTERFACE_NAME_SIZE {
        return false;
    }
    let first: u8 = name[0];
    if !((first >= 48 && first <= 57) || (first >= 65 && first <= 90) || (first >= 97 && first
        <= 122)) {
        return false;
    }
    let mut i: usize = 0;
    while i < name.len()
        invariant
            i <= name@.len(),
            forall|j: int| 0 <= j < i ==> name_byte(#[trigger] name@[j]),
        decreases name@.len() - i,
    {
        let byte: u8 = name[i];
        if !((byte >= 48 && byte <= 57) || (byte >= 65 && byte <= 90) || (byte >= 97 && byte <= 122)
            || byte == 95 || byte == 45 || byte == 46) {
            assert(!name_byte(name@[i as int]));
            return false;
        }
        i = i + 1;
    }
    true
}

/// Whether a label says that the adapter is the tether of a phone.
pub open spec fn tether_label(label: Seq<char>) -> bool {
    let phone = text::has_part(label, "android"@) || text::has_part(label, "tether"@)
        || text::has_part(label, "internet sharing"@);
    let remote = text::has_part(label, "remote ndis"@);
    ||| remote
    ||| text::has_part(label, "rndis"@) && phone
    ||| text::has_part(label, "usb tether"@)
    ||| text::has_part(label, "usb-tether"@)
    ||| text::has_part(label, "ncm"@) && phone
}

/// Whether the text, in lower case, says that the adapter is the tether of a phone.
pub fn is_tether_adapter(label: &str) -> (tether: bool)
    ensures
        tether == tether_label(label@),
{
    label_is_tether(&text::chars_of(label))
}

/// Whether an adapter says, in its description or its friendly name, that it is the
/// tether of a phone.
pub fn adapter_is_tether(description: &str, friendly_name: &str) -> (tether: bool)
    ensures
        tether == tether_label(text::lowered(description@ + " "@ + friendly_name@)),
{
    let mut label: String = description.to_owned();
    label.append(" ");
    label.append(friendly_name);
    label_is_tether(&text::lower_chars(label.as_str()))
}

fn label_is_tether(label: &Vec<char>) -> (tether: bool)
    ensures
        tether == tether_label(label@),
{
    let phone: bool = text::contains(label, "android") || text::contains(label, "tether")
        || text::contains(label, "internet sharing");
    let remote: bool = text::contains(label, "remote ndis");
    ((text::contains(label, "rndis") || remote) && (remote || phone)) || text::contains(
        label,
        "usb tether",
    ) || text::contains(label, "usb-tether") || (text::contains(label, "ncm") && phone)
}

/// The process that a policy belongs to.
#[derive(Clone, Debug)]
pub struct ProcessOwner {
    pub pid: u32,
    pub creation_time: u64,
    pub image_name: String,
}

impl ProcessOwner {
    /// Whether a live process is the owner: it was created at the same time, and its image,
    /// where both are known, has the same name but for case.
    pub open spec fn is(self, creation_time: u64, image: Option<Seq<char>>) -> bool {
        creation_time == self.creation_time && (self.image_name@.len() == 0 || match image {
            Some(image) => text::uppered(image) == text::uppered(self.image_name@),
            None => true,
        })
    }

    pub fn is_process(&self, creation_time: u64, image: Option<&String>) -> (same: bool)
        ensures
            same == self.is(
                creation_time,
                match image {
                    Some(image) => Some(image@),
                    None => None,
                },
            ),
    {
        if creation_time != self.creation_time {
            return false;
        }
        if text::chars_of(self.image_name.as_str()).len() == 0 {
            return true;
        }
        match image {
            Some(image) => text::same_chars(
                &text::upper_chars(image.as_str()),
                &text::upper_chars(self.image_name.as_str()),
            ),
            None => true,
        }
    }
}

/// What the system says when a process cannot be opened.
#[derive(Clone, Copy, Debug, PartialEq, Eq, Structural)]
pub enum Presence {
    Absent,
    Running,
    Unknown,
}

pub const ERROR_ACCESS_DENIED: u32 = 5;

pub const ERROR_INVALID_PARAMETER: u32 = 87;

pub const ERROR_NOT_FOUND: u32 = 1168;

/// What the error tells of the process: one that may not be opened exists.
pub fn presence_by_error(code: u32) -> (presence: Presence)
    ensures
        presence == if code == ERROR_INVALID_PARAMETER || code == ERROR_NOT_FOUND {
            Presence::Absent
        } else if code == ERROR_ACCESS_DENIED {
            Presence::Running
        } else {
            Presence::Unknown
        },
{
    if code == ERROR_INVALID_PARAMETER || code == ERROR_NOT_FOUND {
        Presence::Absent
    } else if code == ERROR_ACCESS_DENIED {
        Presence::Running
    } else {
        Presence::Unknown
    }
}

pub open spec fn index_of(content: Seq<char>) -> Option<u32> {
    match text::number_of(text::trimmed(content), 10, u32::MAX as nat) {
        Ok(index) => Some(index as u32),
        Err(_) => None,
    }
}

/// The interface index in a file of the system.
pub fn read_index(content: &str) -> (index: Option<u32>)
    ensures
        index == index_of(content@),
{
    match text::parse_number(text::trim(content).as_str(), 10, u32::MAX as u64) {
        Ok(index) => Some(index as u32),
        Err(_) => None,
    }
}

pub open spec fn flags_of(content: Seq<char>) -> Result<nat, text::NumberError> {
    text::number_of(
        text::without_prefix(text::trimmed(content), "0x"@),
        16,
        u32::MAX as nat,
    )
}

/// Whether the flags in a file of the system say that the interface is up.
pub fn flags_say_up(content: &str) -> (up: Result<bool, text::NumberError>)
    ensures
        match up {
            Ok(up) => flags_of(content@) matches Ok(flags) && up == (flags % 2 == 1),
            Err(error) => flags_of(content@) == Err::<nat, text::NumberError>(error),
        },
{
    let digits: String = text::trim_prefix(text::trim(content).as_str(), "0x");
    match text::parse_number(digits.as_str(), 16, u32::MAX as u64) {
        Ok(flags) => Ok(flags % 2 == 1),
        Err(error) => Err(error),
    }
}

/// Whether the carrier in a file of the system is there.
pub fn carrier_says_up(content: &str) -> (up: bool)
    ensures
        up == (text::trimmed(content@) == "1"@),
{
    text::same_text(text::trim(content).as_str(), "1")
}

/// A device is known by its name, its LUID, its GUID and its hardware address: with another
/// index or other labels it is the same, with another one of these it is not.
pub proof fn adapters_are_known_by_four_marks(adapter: AdapterIdentity, other: AdapterIdentity)
    ensures
        adapter.same_instance(
            AdapterIdentity {
                interface_index: other.interface_index,
                description: other.description,
                friendly_name: other.friendly_name,
                ..adapter
            },
        ),
        adapter.luid != other.luid ==> !adapter.same_instance(other),
        adapter.adapter_name@ != other.adapter_name@ ==> !adapter.same_instance(other),
        adapter.network_guid@ != other.network_guid@ ==> !adapter.same_instance(other),
        adapter.physical_address@ != other.physical_address@ ==> !adapter.same_instance(other),
        adapter.same_instance(other) == other.same_instance(adapter),
{
}

/// An interface of Linux is the same only where all five marks agree.
pub proof fn interfaces_are_known_by_five_marks(one: InterfaceIdentity, other: InterfaceIdentity)
    ensures
        one.same(one),
        one.same(other) == other.same(one),
        one.index != other.index ==> !one.same(other),
        one.name@ != other.name@ ==> !one.same(other),
        one.device_path@ != other.device_path@ ==> !one.same(other),
        one.driver@ != other.driver@ ==> !one.same(other),
        one.hardware_address@ != other.hardware_address@ ==> !one.same(other),
{
}

/// A safe name is neither empty nor longer than fifteen bytes, does not begin with a dash or a
/// dot, and holds no slash, no blank, no control byte and nothing beyond ASCII; and letters,
/// digits, `_`, `-` and `.` are all that it may hold.
pub proof fn safe_names_are_plain(name: Seq<u8>)
    ensures
        safe_name(name) ==> 1 <= name.len() <= 15 && name[0] != 0x2d && name[0] != 0x2e && name[0]
            != 0x5f,
        safe_name(name) ==> forall|i: int|
            0 <= i < name.len() ==> 0x2d <= #[trigger] name[i] <= 0x7a && name[i] != 0x2f && !(0x3a
                <= name[i] <= 0x40) && !(0x5b <= name[i] <= 0x5e) && name[i] != 0x60,
        1 <= name.len() <= 15 && name[0] != 0x2d && name[0] != 0x2e && name[0] != 0x5f && (forall|
            i: int,
        |
            0 <= i < name.len() ==> 0x2d <= #[trigger] name[i] <= 0x7a && name[i] != 0x2f && !(0x3a
                <= name[i] <= 0x40) && !(0x5b <= name[i] <= 0x5e) && name[i] != 0x60)
            ==> safe_name(name),
{
    if 1 <= name.len() <= 15 && name[0] != 0x2d && name[0] != 0x2e && name[0] != 0x5f && (forall|
        i: int,
    |
        0 <= i < name.len() ==> 0x2d <= #[trigger] name[i] <= 0x7a && name[i] != 0x2f && !(0x3a
            <= name[i] <= 0x40) && !(0x5b <= name[i] <= 0x5e) && name[i] != 0x60) {
        assert forall|i: int| 0 <= i < name.len() implies name_byte(#[trigger] name[i]) by {}
        assert(0x2d <= name[0] <= 0x7a);
    }
}

proof fn part_is_within(before: Seq<char>, part: Seq<char>, after: Seq<char>)
    ensures
        text::has_part(before + part + after, part),
{
    let whole = before + part + after;
    assert(whole.subrange(before.len() as int, (before.len() + part.len()) as int) =~= part);
    assert(text::part_at(whole, part, before.len() as int));
}

/// Whatever stands around them, `remote ndis` and `usb tether` make a label that of a tether.
pub proof fn plain_words_make_a_tether(before: Seq<char>, after: Seq<char>)
    ensures
        tether_label(before + "remote ndis"@ + after),
        tether_label(before + "usb tether"@ + after),
        tether_label(before + "usb-tether"@ + after),
{
    part_is_within(before, "remote ndis"@, after);
    part_is_within(before, "usb tether"@, after);
    part_is_within(before, "usb-tether"@, after);
}

/// `rndis` and `ncm` are also said of other adapters: they make a label that of a tether only
/// beside a word for a phone.
pub proof fn drivers_need_a_phone(label: Seq<char>)
    requires
        !text::has_part(label, "remote ndis"@),
        !text::has_part(label, "usb tether"@),
        !text::has_part(label, "usb-tether"@),
    ensures
        tether_label(label) ==> text::has_part(label, "rndis"@) || text::has_part(label, "ncm"@),
        tether_label(label) ==> text::has_part(label, "android"@) || text::has_part(
            label,
            "tether"@,
        ) || text::has_part(label, "internet sharing"@),
        (text::has_part(label, "rndis"@) || text::has_part(label, "ncm"@)) && text::has_part(
            label,
            "android"@,
        ) ==> tether_label(label),
        (text::has_part(label, "rndis"@) || text::has_part(label, "ncm"@)) && text::has_part(
            label,
            "tether"@,
        ) ==> tether_label(label),
        (text::has_part(label, "rndis"@) || text::has_part(label, "ncm"@)) && text::has_part(
            label,
            "internet sharing"@,
        ) ==> tether_label(label),
{
}

/// A process that was created at another time is not the owner, whatever it is called. One of
/// that time is, unless both names are known and differ in more than case.
pub proof fn owners_are_known_by_their_start(owner: ProcessOwner, time: u64, image: Seq<char>)
    ensures
        time != owner.creation_time ==> !owner.is(time, Some(image)) && !owner.is(time, None),
        owner.is(owner.creation_time, None),
        owner.is(owner.creation_time, Some(owner.image_name@)),
        owner.is(owner.creation_time, Some(text::uppered(owner.image_name@))),
        owner.image_name@.len() > 0 && image.len() != owner.image_name@.len() ==> !owner.is(
            owner.creation_time,
            Some(image),
        ),
{
    let name = owner.image_name@;
    assert(text::uppered(text::uppered(name)) =~= text::uppered(name));
    assert(text::uppered(image).len() == image.len());
    assert(text::uppered(name).len() == name.len());
}

/// An index is read back from the line that the system wrote, where it fits.
pub proof fn index_is_read_back(index: nat)
    ensures
        index_of(text::decimal(index).push('\n')) == if index < 0x1_0000_0000 {
            Some(index as u32)
        } else {
            None
        },
{
    let written = text::decimal(index);
    let line = written.push('\n');
    text::decimal_is_read_back(index, u32::MAX as nat);
    assert(text::is_digit(written[0]) && text::is_digit(written[written.len() - 1]));
    assert(line[0] == written[0]);
    assert(line.drop_last() =~= written);
    reveal_with_fuel(text::trimmed_end, 2);
    assert(text::trimmed(line) == written);
}

} // verus!
