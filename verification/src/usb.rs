//! The accessory mode of a phone over USB: which devices, which endpoints, what a
//! transfer achieved.
use crate::text;
use crate::text::{push_decimal, push_signed};
use vstd::prelude::*;
use vstd::string::*;

verus! {

pub const AOA_VENDOR_ID: u16 = 0x18d1;

pub const AOA_PRODUCT_ID: u16 = 0x2d00;

pub const AOA_DEBUG_PRODUCT_ID: u16 = 0x2d01;

pub const AOA_GET_PROTOCOL: u8 = 51;

pub const AOA_SEND_IDENT: u8 = 52;

pub const AOA_START: u8 = 53;

pub const IDENTITIES: usize = 6;

pub const ERROR_TIMEOUT: i32 = -7;

pub const ENDPOINT_IN: u8 = 0x80;

pub const TRANSFER_TYPE_MASK: u8 = 0x03;

pub const TRANSFER_TYPE_BULK: u8 = 2;

/// What failed, and the code of the failure.
#[derive(Clone, Copy, Debug, PartialEq, Eq)]
pub struct UsbFault {
    pub operation: &'static str,
    pub code: i32,
}

/// A fault with the name that its code has, or a text that says more.
#[derive(Debug, PartialEq, Eq)]
pub struct UsbError {
    pub operation: &'static str,
    pub code: i32,
    pub name: String,
}

impl UsbFault {
    pub fn named(self, name: String) -> (error: UsbError)
        ensures
            error.operation == self.operation,
            error.code == self.code,
            error.name == name,
    {
        UsbError { operation: self.operation, code: self.code, name }
    }

    /// Negative codes are failures.
    pub fn check(operation: &'static str, code: i32) -> (result: Result<i32, UsbFault>)
        ensures
            result == if code < 0 {
                Err::<i32, UsbFault>(UsbFault { operation, code })
            } else {
                Ok(code)
            },
    {
        if code < 0 {
            Err(UsbFault { operation, code })
        } else {
            Ok(code)
        }
    }
}

impl UsbError {
    /// The text for a reader.
    pub open spec fn wording(&self) -> Seq<char> {
        "could not "@ + self.operation@ + ": "@ + self.name@ + " ("@ + text::signed_decimal(
            self.code as int,
        ) + ")"@
    }

    pub fn message(&self) -> (message: String)
        ensures
            message@ == self.wording(),
    {
        let mut message: String = "could not ".to_owned();
        message.append(self.operation);
        message.append(": ");
        message.append(self.name.as_str());
        message.append(" (");
        push_signed(&mut message, self.code as i64);
        message.append(")");
        message
    }
}

/// The vendors of phones.
pub open spec fn phone_vendor(vendor: u16) -> bool {
    vendor == 0x0409 || vendor == 0x0421 || vendor == 0x04e8 || vendor == 0x0502 || vendor
        == 0x054c || vendor == 0x05c6 || vendor == 0x0b05 || vendor == 0x0bb4 || vendor == 0x0fce
        || vendor == 0x1004 || vendor == 0x12d1 || vendor == 0x17ef || vendor == 0x18d1 || vendor
        == 0x19d2 || vendor == 0x1bbb || vendor == 0x22b8 || vendor == 0x22d9 || vendor == 0x2717
        || vendor == 0x2a70 || vendor == 0x2d95
}

/// A phone that is in accessory mode.
pub open spec fn accessory(vendor: u16, product: u16) -> bool {
    vendor == AOA_VENDOR_ID && (product == AOA_PRODUCT_ID || product == AOA_DEBUG_PRODUCT_ID)
}

pub fn is_accessory(vendor: u16, product: u16) -> (yes: bool)
    ensures
        yes == accessory(vendor, product),
{
    vendor == AOA_VENDOR_ID && (product == AOA_PRODUCT_ID || product == AOA_DEBUG_PRODUCT_ID)
}

/// Whether a device may be asked to enter accessory mode: it is a phone of a known vendor
/// or of the one that was named, and not in that mode yet.
pub fn may_negotiate(vendor: u16, product: u16, extra_vendor: Option<u16>) -> (yes: bool)
    ensures
        yes == ((phone_vendor(vendor) || extra_vendor == Some(vendor)) && !accessory(
            vendor,
            product,
        )),
{
    let known: bool = vendor == 0x0409 || vendor == 0x0421 || vendor == 0x04e8 || vendor == 0x0502
        || vendor == 0x054c || vendor == 0x05c6 || vendor == 0x0b05 || vendor == 0x0bb4 || vendor
        == 0x0fce || vendor == 0x1004 || vendor == 0x12d1 || vendor == 0x17ef || vendor == 0x18d1
        || vendor == 0x19d2 || vendor == 0x1bbb || vendor == 0x22b8 || vendor == 0x22d9 || vendor
        == 0x2717 || vendor == 0x2a70 || vendor == 0x2d95;
    let named: bool = match extra_vendor {
        Some(extra) => extra == vendor,
        None => false,
    };
    (known || named) && !is_accessory(vendor, product)
}

/// What the host says of itself, string by string.
pub open spec fn identity_text(index: int) -> Seq<char> {
    if index == 0 {
        "Holodori"@
    } else if index == 1 {
        "Phone Trackpad"@
    } else if index == 2 {
        "Lossless multi-touch rhythm controller"@
    } else if index == 3 {
        "4.0"@
    } else if index == 4 {
        "https://github.com/vn-nthh/holodori-phone-trackpad"@
    } else {
        "holodori-lossless-touch"@
    }
}

pub fn identity(index: usize) -> (text: Option<&'static str>)
    ensures
        match text {
            Some(text) => index < IDENTITIES && text@ == identity_text(index as int),
            None => index >= IDENTITIES,
        },
{
    match index {
        0 => Some("Holodori"),
        1 => Some("Phone Trackpad"),
        2 => Some("Lossless multi-touch rhythm controller"),
        3 => Some("4.0"),
        4 => Some("https://github.com/vn-nthh/holodori-phone-trackpad"),
        5 => Some("holodori-lossless-touch"),
        _ => None,
    }
}

/// Whether a device answered the question for the protocol with a version from one on.
pub fn speaks_accessory(count: i32, version: [u8; 2]) -> (yes: bool)
    ensures
        yes == (count == 2 && version[0] + 256 * version[1] >= 1),
{
    count == 2 && version[0] as u16 + 256 * version[1] as u16 >= 1
}

#[derive(Clone, Copy, Debug, PartialEq, Eq)]
pub struct Endpoint {
    pub attributes: u8,
    pub address: u8,
}

/// One setting of an interface.
#[derive(Debug, PartialEq, Eq)]
pub struct Alternate {
    pub interface_number: u8,
    pub endpoints: Vec<Endpoint>,
}

/// The interface to claim, and its two bulk endpoints.
#[derive(Clone, Copy, Debug, PartialEq, Eq)]
pub struct BulkPair {
    pub interface_number: u8,
    pub endpoint_in: u8,
    pub endpoint_out: u8,
}

pub open spec fn is_bulk(endpoint: Endpoint) -> bool {
    endpoint.attributes & TRANSFER_TYPE_MASK == TRANSFER_TYPE_BULK
}

pub open spec fn is_in(endpoint: Endpoint) -> bool {
    endpoint.address & ENDPOINT_IN != 0
}

/// The address of the last bulk endpoint of one direction among the first `count`, or
/// zero.
pub open spec fn last_bulk(endpoints: Seq<Endpoint>, inward: bool, count: nat) -> u8
    decreases count,
{
    if count == 0 {
        0
    } else if is_bulk(endpoints[count - 1]) && is_in(endpoints[count - 1]) == inward {
        endpoints[count - 1].address
    } else {
        last_bulk(endpoints, inward, (count - 1) as nat)
    }
}

/// The pair of endpoints that a setting offers.
pub open spec fn pair_of(alternate: Alternate) -> Option<BulkPair> {
    let endpoints = alternate.endpoints@;
    let endpoint_in = last_bulk(endpoints, true, endpoints.len());
    let endpoint_out = last_bulk(endpoints, false, endpoints.len());
    if endpoint_in != 0 && endpoint_out != 0 {
        Some(BulkPair { interface_number: alternate.interface_number, endpoint_in, endpoint_out })
    } else {
        None
    }
}

/// The first pair, from the setting `from` on.
pub open spec fn first_pair(alternates: Seq<Alternate>, from: nat) -> Option<BulkPair>
    decreases alternates.len() - from,
{
    if from >= alternates.len() {
        None
    } else if pair_of(alternates[from as int]) is Some {
        pair_of(alternates[from as int])
    } else {
        first_pair(alternates, from + 1)
    }
}

fn bulk_pair(alternate: &Alternate) -> (pair: Option<BulkPair>)
    ensures
        pair == pair_of(*alternate),
{
    let mut endpoint_in: u8 = 0;
    let mut endpoint_out: u8 = 0;
    let mut i: usize = 0;
    while i < alternate.endpoints.len()
        invariant
            i <= alternate.endpoints@.len(),
            endpoint_in == last_bulk(alternate.endpoints@, true, i as nat),
            endpoint_out == last_bulk(alternate.endpoints@, false, i as nat),
        decreases alternate.endpoints@.len() - i,
    {
        let endpoint: Endpoint = alternate.endpoints[i];
        if endpoint.attributes & TRANSFER_TYPE_MASK == TRANSFER_TYPE_BULK {
            if endpoint.address & ENDPOINT_IN != 0 {
                endpoint_in = endpoint.address;
            } else {
                endpoint_out = endpoint.address;
            }
        }
        i = i + 1;
    }
    if endpoint_in != 0 && endpoint_out != 0 {
        Some(BulkPair { interface_number: alternate.interface_number, endpoint_in, endpoint_out })
    } else {
        None
    }
}

/// The first setting, in the order of the descriptors, with a bulk endpoint in each
/// direction.
pub fn find_bulk_pair(alternates: &Vec<Alternate>) -> (result: Result<BulkPair, UsbFault>)
    ensures
        match result {
            Ok(pair) => first_pair(alternates@, 0) == Some(pair),
            Err(fault) => first_pair(alternates@, 0) is None && fault.code == -5
                && fault.operation@ == "find AOA bulk endpoints"@,
        },
{
    let mut i: usize = 0;
    while i < alternates.len()
        invariant
            i <= alternates@.len(),
            first_pair(alternates@, 0) == first_pair(alternates@, i as nat),
        decreases alternates@.len() - i,
    {
        if let Some(pair) = bulk_pair(&alternates[i]) {
            return Ok(pair);
        }
        i = i + 1;
    }
    Err(UsbFault { operation: "find AOA bulk endpoints", code: -5 })
}

/// The configuration to activate: zero would be none.
pub fn configuration_to_activate(value: u8) -> (configuration: u8)
    ensures
        configuration == if value == 0 {
            1
        } else {
            value
        },
{
    if value == 0 {
        1
    } else {
        value
    }
}

/// The bytes that a transfer moved.
pub open spec fn moved(transferred: i32) -> nat {
    if transferred < 0 {
        0
    } else {
        transferred as nat
    }
}

/// What a read achieved. A timeout after some bytes is no failure: the bytes belong to
/// the stream, and dropping them would make a hole in it.
pub fn completed_read(result: i32, transferred: i32) -> (outcome: Result<usize, UsbFault>)
    ensures
        match outcome {
            Ok(count) => (result >= 0 || result == ERROR_TIMEOUT) && count == moved(transferred),
            Err(fault) => result < 0 && result != ERROR_TIMEOUT && fault.code == result
                && fault.operation@ == "read the AOA touch stream"@,
        },
{
    let progress: usize = if transferred < 0 {
        0
    } else {
        transferred as usize
    };
    if result == ERROR_TIMEOUT {
        return Ok(progress);
    }
    match UsbFault::check("read the AOA touch stream", result) {
        Ok(_) => Ok(progress),
        Err(fault) => Err(fault),
    }
}

/// What to do after a transfer of a message that is being written.
#[derive(Clone, Copy, Debug, PartialEq, Eq)]
pub enum WriteStep {
    /// Everything is written.
    Complete,
    /// To go on from this offset.
    Continue(usize),
    /// The transfer failed.
    Failed(UsbFault),
    /// Nothing more was taken.
    Short(usize),
}

/// Judges one transfer of a message: a timeout that moved bytes is progress.
pub fn write_progress(offset: usize, length: usize, result: i32, transferred: i32) -> (step:
    WriteStep)
    requires
        offset < length,
    ensures
        ({
            let reached = if offset + moved(transferred) > length {
                length as int
            } else {
                offset + moved(transferred)
            };
            let failed = result < 0 && !(result == ERROR_TIMEOUT && transferred > 0);
            match step {
                WriteStep::Failed(fault) => failed && fault.code == result && fault.operation@
                    == "write an AOA acknowledgement"@,
                WriteStep::Short(at) => !failed && transferred <= 0 && at == offset,
                WriteStep::Complete => !failed && transferred > 0 && reached == length,
                WriteStep::Continue(at) => !failed && transferred > 0 && reached < length && at
                    == reached,
            }
        }),
{
    let progress: usize = if transferred < 0 {
        0
    } else {
        transferred as usize
    };
    let reached: usize = if progress >= length - offset {
        length
    } else {
        offset + progress
    };
    if !(result == ERROR_TIMEOUT && progress > 0) {
        match UsbFault::check("write an AOA acknowledgement", result) {
            Ok(_) => {},
            Err(fault) => {
                return WriteStep::Failed(fault);
            },
        }
        if progress == 0 {
            return WriteStep::Short(offset);
        }
    }
    if reached == length {
        WriteStep::Complete
    } else {
        WriteStep::Continue(reached)
    }
}

/// The error of a write that was not completed.
pub fn short_write(offset: usize, length: usize) -> (error: UsbError)
    ensures
        error.code == -1,
        error.operation@ == "write a complete AOA acknowledgement"@,
        error.name@ == "short write "@ + text::decimal(offset as nat) + "/"@ + text::decimal(
            length as nat,
        ),
{
    let mut name: String = "short write ".to_owned();
    push_decimal(&mut name, offset as u128);
    name.append("/");
    push_decimal(&mut name, length as u128);
    UsbError { operation: "write a complete AOA acknowledgement", code: -1, name }
}

/// What to do while no accessory has been found yet.
#[derive(Clone, Copy, Debug, PartialEq, Eq)]
pub enum SearchStep {
    /// To look again after this many milliseconds.
    Wait(u64),
    /// To give up.
    TimedOut,
}

/// Judges a search that found nothing: once a phone was asked to change its mode, it is
/// looked for more often.
pub fn search_step(negotiation_requested: bool, deadline_passed: bool) -> (step: SearchStep)
    ensures
        step == if deadline_passed {
            SearchStep::TimedOut
        } else if negotiation_requested {
            SearchStep::Wait(100)
        } else {
            SearchStep::Wait(250)
        },
{
    if deadline_passed {
        SearchStep::TimedOut
    } else if negotiation_requested {
        SearchStep::Wait(100)
    } else {
        SearchStep::Wait(250)
    }
}

/// That the endpoint at a position moves data in bulk in one direction, and none that is
/// listed after it does. The two lowest bits of the attributes are two for a bulk
/// endpoint, and the highest bit of the address is set for one that the host reads.
pub open spec fn stands_last(endpoints: Seq<Endpoint>, at: int, inward: bool) -> bool {
    &&& 0 <= at < endpoints.len()
    &&& endpoints[at].attributes % 4 == 2
    &&& (endpoints[at].address >= 128) == inward
    &&& forall|later: int|
        at < later < endpoints.len() && #[trigger] endpoints[later].attributes % 4 == 2
            ==> (endpoints[later].address >= 128) != inward
}

/// That a setting offers a pair: of each direction the bulk endpoint that is listed last,
/// under an address of its own.
pub open spec fn offers(alternate: Alternate, pair: BulkPair) -> bool {
    let endpoints = alternate.endpoints@;
    &&& pair.interface_number == alternate.interface_number
    &&& exists|at: int|
        #[trigger] stands_last(endpoints, at, true) && endpoints[at].address == pair.endpoint_in
    &&& exists|at: int|
        #[trigger] stands_last(endpoints, at, false) && endpoints[at].address == pair.endpoint_out
    &&& pair.endpoint_out != 0
}

proof fn kinds_of_endpoints(endpoint: Endpoint)
    ensures
        is_bulk(endpoint) == (endpoint.attributes % 4 == 2),
        is_in(endpoint) == (endpoint.address >= 128),
{
    let attributes = endpoint.attributes;
    let address = endpoint.address;
    assert((attributes & 0x03) == attributes % 4) by (bit_vector);
    assert((address & 0x80 != 0) == (address >= 128)) by (bit_vector);
}

/// An endpoint that stands last is the one that is found.
proof fn last_is_found(endpoints: Seq<Endpoint>, inward: bool, count: nat, at: int)
    requires
        stands_last(endpoints, at, inward),
        at < count <= endpoints.len(),
    ensures
        last_bulk(endpoints, inward, count) == endpoints[at].address,
    decreases count,
{
    kinds_of_endpoints(endpoints[count - 1]);
    if at < count - 1 {
        last_is_found(endpoints, inward, (count - 1) as nat, at);
    }
}

/// What is found stands last, up to where the search went.
proof fn found_is_last(endpoints: Seq<Endpoint>, inward: bool, count: nat) -> (at: int)
    requires
        count <= endpoints.len(),
        last_bulk(endpoints, inward, count) != 0,
    ensures
        stands_last(endpoints.take(count as int), at, inward),
        endpoints[at].address == last_bulk(endpoints, inward, count),
    decreases count,
{
    let seen = endpoints.take(count as int);
    kinds_of_endpoints(endpoints[count - 1]);
    if is_bulk(endpoints[count - 1]) && is_in(endpoints[count - 1]) == inward {
        count - 1
    } else {
        let at = found_is_last(endpoints, inward, (count - 1) as nat);
        let shorter = endpoints.take(count - 1);
        assert forall|later: int|
            at < later < seen.len() && #[trigger] seen[later].attributes % 4 == 2 implies (
        seen[later].address >= 128) != inward by {
            if later < count - 1 {
                assert(shorter[later] == seen[later]);
            }
        }
        at
    }
}

proof fn pair_is_what_is_offered(alternate: Alternate, pair: BulkPair)
    ensures
        (pair_of(alternate) == Some(pair)) == offers(alternate, pair),
{
    let endpoints = alternate.endpoints@;
    let count = endpoints.len();
    assert(endpoints.take(count as int) =~= endpoints);
    if pair_of(alternate) == Some(pair) {
        let inward = found_is_last(endpoints, true, count);
        let outward = found_is_last(endpoints, false, count);
        assert(stands_last(endpoints, inward, true));
        assert(stands_last(endpoints, outward, false));
    }
    if offers(alternate, pair) {
        let inward = choose|at: int|
            #[trigger] stands_last(endpoints, at, true) && endpoints[at].address
                == pair.endpoint_in;
        let outward = choose|at: int|
            #[trigger] stands_last(endpoints, at, false) && endpoints[at].address
                == pair.endpoint_out;
        last_is_found(endpoints, true, count, inward);
        last_is_found(endpoints, false, count, outward);
    }
}

/// The pair that is found is offered by a setting before which none offers any.
pub proof fn first_offer_is_taken(alternates: Seq<Alternate>, chosen: int, pair: BulkPair)
    requires
        0 <= chosen < alternates.len(),
        offers(alternates[chosen], pair),
        forall|earlier: int, other: BulkPair|
            0 <= earlier < chosen ==> !#[trigger] offers(alternates[earlier], other),
    ensures
        first_pair(alternates, 0) == Some(pair),
{
    offer_is_reached(alternates, 0, chosen, pair);
}

proof fn offer_is_reached(alternates: Seq<Alternate>, from: nat, chosen: int, pair: BulkPair)
    requires
        from <= chosen < alternates.len(),
        offers(alternates[chosen], pair),
        forall|earlier: int, other: BulkPair|
            0 <= earlier < chosen ==> !#[trigger] offers(alternates[earlier], other),
    ensures
        first_pair(alternates, from) == Some(pair),
    decreases chosen - from,
{
    if from == chosen {
        pair_is_what_is_offered(alternates[chosen], pair);
    } else {
        let here = alternates[from as int];
        if pair_of(here) is Some {
            pair_is_what_is_offered(here, pair_of(here)->0);
            assert(!offers(alternates[from as int], pair_of(here)->0));
        }
        offer_is_reached(alternates, from + 1, chosen, pair);
    }
}

/// Where no setting offers a pair, none is found.
pub proof fn without_an_offer_none_is_found(alternates: Seq<Alternate>, from: nat)
    requires
        forall|at: int, pair: BulkPair|
            from <= at < alternates.len() ==> !#[trigger] offers(alternates[at], pair),
    ensures
        first_pair(alternates, from) is None,
    decreases alternates.len() - from,
{
    if from < alternates.len() {
        let here = alternates[from as int];
        if pair_of(here) is Some {
            pair_is_what_is_offered(here, pair_of(here)->0);
            assert(!offers(alternates[from as int], pair_of(here)->0));
        }
        without_an_offer_none_is_found(alternates, from + 1);
    }
}

/// A phone that is in accessory mode already, with or without debugging, is not asked to enter
/// it, whoever its vendor is; every other device of the maker of that mode may be.
pub proof fn accessories_are_known(vendor: u16, product: u16)
    ensures
        accessory(vendor, product) == (vendor == 0x18d1 && (product == 0x2d00 || product == 0x2d01)),
        accessory(vendor, product) ==> phone_vendor(vendor),
{
}

} // verus!
