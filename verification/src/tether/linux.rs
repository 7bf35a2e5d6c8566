//! What Linux shows of its network interfaces, and what that says of a tether.
use crate::bytes::same_bytes;
use crate::tether::address;
use crate::tether::address::{binding_prefix, Address};
use crate::tether::identity;
use crate::tether::identity::{is_tether_capable_driver, InterfaceIdentity};
use vstd::prelude::*;

verus! {

/// How much output of the route tool is read.
pub const MAX_IP_OUTPUT: usize = 65_536;

/// One address of an interface.
#[derive(Clone, Debug)]
pub struct InterfaceEntry {
    pub name: Vec<u8>,
    pub index: u32,
    pub up: bool,
    pub loopback: bool,
    pub address: Option<Address>,
    pub netmask: Option<Address>,
}

impl InterfaceEntry {
    /// Whether the kernel would send to `peer` from this address as over a tether.
    pub open spec fn leads_to(self, local: Address, peer: Address) -> bool {
        &&& self.up
        &&& self.index != 0
        &&& self.address == Some(local)
        &&& self.netmask matches Some(netmask)
        &&& address::tether_mask(local, peer, netmask)
    }

    fn may_lead_to(&self, local: Address, peer: Address) -> (leads: bool)
        ensures
            leads == self.leads_to(local, peer),
    {
        if !self.up || self.index == 0 {
            return false;
        }
        match (self.address, self.netmask) {
            (Some(here), Some(netmask)) => here == local && binding_prefix(local, peer, netmask),
            _ => false,
        }
    }
}

/// The interface that leads to a peer from the address that the kernel chose, where only one
/// does: with that address on more than one, nothing says which was chosen.
pub fn unambiguous_interface(entries: &Vec<InterfaceEntry>, local: Address, peer: Address) -> (found:
    Option<usize>)
    ensures
        match found {
            Some(at) => at < entries@.len() && entries@[at as int].leads_to(local, peer) && forall|
                i: int,
            |
                0 <= i < entries@.len() && (#[trigger] entries@[i]).leads_to(local, peer)
                    ==> entries@[i].index == entries@[at as int].index && at <= i,
            None => (forall|i: int|
                0 <= i < entries@.len() ==> !(#[trigger] entries@[i]).leads_to(local, peer)) || (
            exists|i: int, j: int|
                0 <= i < j < entries@.len() && (#[trigger] entries@[i]).leads_to(local, peer) && (
                #[trigger] entries@[j]).leads_to(local, peer) && entries@[i].index
                    != entries@[j].index),
        },
{
    let mut found: Option<usize> = None;
    let mut i: usize = 0;
    while i < entries.len()
        invariant
            i <= entries@.len(),
            match found {
                Some(at) => {
                    &&& at < i
                    &&& entries@[at as int].leads_to(local, peer)
                    &&& forall|j: int|
                        0 <= j < i && (#[trigger] entries@[j]).leads_to(local, peer)
                            ==> entries@[j].index == entries@[at as int].index && at <= j
                },
                None => forall|j: int|
                    0 <= j < i ==> !(#[trigger] entries@[j]).leads_to(local, peer),
            },
        decreases entries@.len() - i,
    {
        if entries[i].may_lead_to(local, peer) {
            match found {
                None => {
                    found = Some(i);
                },
                Some(at) => {
                    if entries[at].index != entries[i].index {
                        assert(entries@[at as int].leads_to(local, peer)
                            && entries@[i as int].leads_to(local, peer));
                        return None;
                    }
                },
            }
        }
        i = i + 1;
    }
    found
}

/// An address to listen on, and its interface.
#[derive(Clone, Copy, Debug, PartialEq, Eq, Structural)]
pub struct Listener {
    pub address: u32,
    pub index: u32,
}

pub open spec fn is_device(devices: Seq<InterfaceIdentity>, name: Seq<u8>, index: u32) -> bool {
    exists|i: int|
        0 <= i < devices.len() && (#[trigger] devices[i]).index == index && devices[i].name@ == name
}

impl InterfaceEntry {
    /// The listener for a phone that is still to come: on an address of a tether device.
    pub open spec fn listener(self, devices: Seq<InterfaceIdentity>) -> Option<Listener> {
        match (self.address, self.netmask) {
            (Some(Address::V4(address)), Some(Address::V4(netmask))) => if self.up && !self.loopback
                && self.index != 0 && is_device(devices, self.name@, self.index)
                && address::tether_mask(
                Address::V4(address),
                Address::V4(address),
                Address::V4(netmask),
            ) {
                Some(Listener { address, index: self.index })
            } else {
                None
            },
            _ => None,
        }
    }

    fn as_listener(&self, devices: &Vec<InterfaceIdentity>) -> (listener: Option<Listener>)
        ensures
            listener == self.listener(devices@),
    {
        match (self.address, self.netmask) {
            (Some(Address::V4(address)), Some(Address::V4(netmask))) => {
                if self.up && !self.loopback && self.index != 0 && has_device(
                    devices,
                    self.name.as_slice(),
                    self.index,
                ) && binding_prefix(
                    Address::V4(address),
                    Address::V4(address),
                    Address::V4(netmask),
                ) {
                    Some(Listener { address, index: self.index })
                } else {
                    None
                }
            },
            _ => None,
        }
    }
}

fn has_device(devices: &Vec<InterfaceIdentity>, name: &[u8], index: u32) -> (has: bool)
    ensures
        has == is_device(devices@, name@, index),
{
    let mut i: usize = 0;
    while i < devices.len()
        invariant
            i <= devices@.len(),
            forall|j: int|
                0 <= j < i ==> !((#[trigger] devices@[j]).index == index && devices@[j].name@
                    == name@),
        decreases devices@.len() - i,
    {
        if devices[i].index == index && same_bytes(devices[i].name.as_slice(), name) {
            assert(devices@[i as int].index == index);
            return true;
        }
        i = i + 1;
    }
    false
}

/// The listeners of the first `count` entries, each once.
pub open spec fn listeners_of(
    entries: Seq<InterfaceEntry>,
    devices: Seq<InterfaceIdentity>,
    count: nat,
) -> Seq<Listener>
    decreases count,
{
    if count == 0 {
        seq![]
    } else {
        let front = listeners_of(entries, devices, (count - 1) as nat);
        match entries[count - 1].listener(devices) {
            Some(listener) => if front.contains(listener) {
                front
            } else {
                front.push(listener)
            },
            None => front,
        }
    }
}

/// Where to listen for a phone that is still to come.
pub fn tether_listeners(entries: &Vec<InterfaceEntry>, devices: &Vec<InterfaceIdentity>) -> (listeners:
    Vec<Listener>)
    ensures
        listeners@ == listeners_of(entries@, devices@, entries@.len()),
{
    let mut listeners: Vec<Listener> = Vec::new();
    let mut i: usize = 0;
    while i < entries.len()
        invariant
            i <= entries@.len(),
            listeners@ == listeners_of(entries@, devices@, i as nat),
        decreases entries@.len() - i,
    {
        if let Some(listener) = entries[i].as_listener(devices) {
            if !has_listener(&listeners, listener) {
                listeners.push(listener);
            }
        }
        i = i + 1;
    }
    listeners
}

fn has_listener(listeners: &Vec<Listener>, listener: Listener) -> (has: bool)
    ensures
        has == listeners@.contains(listener),
{
    let mut i: usize = 0;
    while i < listeners.len()
        invariant
            i <= listeners@.len(),
            forall|j: int| 0 <= j < i ==> listeners@[j] != listener,
        decreases listeners@.len() - i,
    {
        if listeners[i] == listener {
            assert(listeners@[i as int] == listener);
            return true;
        }
        i = i + 1;
    }
    false
}

/// `usb`.
pub const USB_SUBSYSTEM: [u8; 3] = [117, 115, 98];

/// Whether what the system records of an interface makes it a tether: its index is the one
/// that was asked for, its device is on the USB bus, and its driver is that of RNDIS.
pub fn is_tether_device(
    recorded_index: Option<u32>,
    index: u32,
    subsystem: Option<&[u8]>,
    driver: Option<&[u8]>,
) -> (tether: bool)
    ensures
        tether == (recorded_index == Some(index) && (subsystem matches Some(subsystem) && subsystem@
            == USB_SUBSYSTEM@) && (driver matches Some(driver) && driver@
            == identity::TETHER_DRIVER@)),
{
    let recorded: bool = match recorded_index {
        Some(recorded) => recorded == index,
        None => false,
    };
    let usb: bool = match subsystem {
        Some(subsystem) => same_bytes(subsystem, &USB_SUBSYSTEM),
        None => false,
    };
    let rndis: bool = match driver {
        Some(driver) => is_tether_capable_driver(driver),
        None => false,
    };
    recorded && usb && rndis
}

/// A space, tab, line feed, form feed or carriage return.
pub open spec fn blank(byte: u8) -> bool {
    byte == 32 || byte == 9 || byte == 10 || byte == 12 || byte == 13
}

pub open spec fn has_text(bytes: Seq<u8>) -> bool {
    exists|i: int| 0 <= i < bytes.len() && !blank(#[trigger] bytes[i])
}

fn says_something(bytes: &[u8]) -> (says: bool)
    ensures
        says == has_text(bytes@),
{
    let mut i: usize = 0;
    while i < bytes.len()
        invariant
            i <= bytes@.len(),
            forall|j: int| 0 <= j < i ==> blank(#[trigger] bytes@[j]),
        decreases bytes@.len() - i,
    {
        let byte: u8 = bytes[i];
        if !(byte == 32 || byte == 9 || byte == 10 || byte == 12 || byte == 13) {
            assert(!blank(bytes@[i as int]));
            return true;
        }
        i = i + 1;
    }
    false
}

/// What the route tool said.
#[derive(Clone, Copy, Debug, PartialEq, Eq, Structural)]
pub enum Inspection {
    /// More than is ever expected.
    TooLarge,
    /// It failed.
    Failed,
    /// It warned: nothing it said is believed.
    Warned,
    /// Whether there is a default route.
    Present(bool),
}

/// Judges what the route tool said of the default routes of an interface.
pub fn inspect_routes(stdout: &[u8], stderr: &[u8], success: bool) -> (inspection: Inspection)
    ensures
        inspection == if stdout@.len() > MAX_IP_OUTPUT || stderr@.len() > MAX_IP_OUTPUT {
            Inspection::TooLarge
        } else if !success {
            Inspection::Failed
        } else if has_text(stderr@) {
            Inspection::Warned
        } else {
            Inspection::Present(has_text(stdout@))
        },
{
    if stdout.len() > MAX_IP_OUTPUT || stderr.len() > MAX_IP_OUTPUT {
        Inspection::TooLarge
    } else if !success {
        Inspection::Failed
    } else if says_something(stderr) {
        Inspection::Warned
    } else {
        Inspection::Present(says_something(stdout))
    }
}

/// Whether only the superuser can change a file, and it can be run.
pub fn trusted_file(is_file: bool, owner: u32, mode: u32) -> (trusted: bool)
    ensures
        trusted == (is_file && owner == 0 && mode & 0o022 == 0 && mode & 0o111 != 0),
{
    is_file && owner == 0 && mode & 0o022 == 0 && mode & 0o111 != 0
}

/// Whether only the superuser can change a directory.
pub fn trusted_directory(is_directory: bool, owner: u32, mode: u32) -> (trusted: bool)
    ensures
        trusted == (is_directory && owner == 0 && mode & 0o022 == 0),
{
    is_directory && owner == 0 && mode & 0o022 == 0
}

/// There is a listener for every address of IPv4 that is up on a tether device and within a
/// local block, for no other, and only one for each.
pub proof fn tethers_are_listened_on(
    entries: Seq<InterfaceEntry>,
    devices: Seq<InterfaceIdentity>,
    count: nat,
    listener: Listener,
)
    requires
        count <= entries.len(),
    ensures
        listeners_of(entries, devices, count).contains(listener) == exists|i: int|
            0 <= i < count && (#[trigger] entries[i]).listener(devices) == Some(listener),
        forall|i: int, j: int|
            0 <= i < j < listeners_of(entries, devices, count).len() ==> #[trigger] listeners_of(
                entries,
                devices,
                count,
            )[i] != #[trigger] listeners_of(entries, devices, count)[j],
    decreases count,
{
    if count > 0 {
        tethers_are_listened_on(entries, devices, (count - 1) as nat, listener);
        let front = listeners_of(entries, devices, (count - 1) as nat);
        let all = listeners_of(entries, devices, count);
        let last = entries[count - 1].listener(devices);
        if front.contains(listener) {
            let i = choose|i: int| 0 <= i < front.len() && front[i] == listener;
            assert(all[i] == listener);
        }
        if last == Some(listener) && !front.contains(listener) {
            assert(all.last() == listener);
        }
        if all.contains(listener) {
            let i = choose|i: int| 0 <= i < all.len() && all[i] == listener;
            if i < front.len() {
                assert(front[i] == listener);
            } else {
                assert(last == Some(listener));
            }
        }
        assert forall|i: int, j: int| 0 <= i < j < all.len() implies #[trigger] all[i]
            != #[trigger] all[j] by {
            assert(all[i] == front[i]);
            if j < front.len() {
                assert(all[j] == front[j]);
            }
        }
    }
}

/// What an entry needs for a listener: to be up, to be no loopback, an index, a device of that
/// name and index, and an address of IPv4 with a mask under which it is a tether.
pub proof fn listeners_are_on_tethers(entry: InterfaceEntry, devices: Seq<InterfaceIdentity>)
    ensures
        match entry.listener(devices) {
            Some(listener) => {
                &&& entry.up && !entry.loopback && entry.index > 0
                &&& listener.index == entry.index
                &&& entry.address == Some(Address::V4(listener.address))
                &&& exists|i: int|
                    0 <= i < devices.len() && (#[trigger] devices[i]).index == entry.index
                        && devices[i].name@ == entry.name@
                &&& Address::V4(listener.address).local_block() is Some
            },
            None => {
                ||| !entry.up
                ||| entry.loopback
                ||| entry.index == 0
                ||| !is_device(devices, entry.name@, entry.index)
                ||| !(entry.address matches Some(Address::V4(_)))
                ||| !(entry.netmask matches Some(Address::V4(_)))
                ||| !address::tether_mask(entry.address->0, entry.address->0, entry.netmask->0)
            },
        },
{
    if let Some(listener) = entry.listener(devices) {
        let i = choose|i: int|
            0 <= i < devices.len() && (#[trigger] devices[i]).index == entry.index
                && devices[i].name@ == entry.name@;
        assert(devices[i].index == entry.index);
    }
}

} // verus!
