//! Routes in the kernel of Linux: the bytes of its requests and replies. Numbers are in
//! the byte order of the host, which is little-endian.
use crate::bytes;
use crate::bytes::{copy_range, push_bytes, push_u16, push_u32, read_u16, read_u32, same_bytes};
use crate::tether::address;
use crate::tether::address::Address;
use vstd::prelude::*;

verus! {

/// The size of a message header.
pub const NLMSG_HDRLEN: usize = 16;

/// The size of an attribute header.
pub const RTA_HDRLEN: usize = 4;

/// The size of the fixed part of a route.
pub const RTM_HDRLEN: usize = 12;

pub const RTA_DST: u16 = 1;

pub const RTA_OIF: u16 = 4;

pub const RTA_GATEWAY: u16 = 5;

pub const RTA_PRIORITY: u16 = 6;

pub const RTA_PREFSRC: u16 = 7;

pub const RTA_TABLE: u16 = 15;

pub const RT_TABLE_MAIN: u32 = 254;

pub const NLMSG_ERROR: u16 = 2;

pub const NLMSG_DONE: u16 = 3;

pub const NLM_F_MULTI: u16 = 2;

/// `length` rounded up to a multiple of four.
pub open spec fn aligned(length: int) -> int {
    (length + 3) / 4 * 4
}

pub fn nlmsg_align(length: usize) -> (size: usize)
    requires
        length + 3 <= usize::MAX,
    ensures
        size == aligned(length as int),
{
    (length + 3) / 4 * 4
}

/// The aligned size of something that is `length` long, where as much is left.
fn size_within(length: usize, left: usize) -> (size: Option<usize>)
    requires
        length <= left,
    ensures
        match size {
            Some(size) => size == aligned(length as int) && size <= left,
            None => aligned(length as int) > left,
        },
{
    let over: usize = length % 4;
    let padding: usize = if over == 0 {
        0
    } else {
        4 - over
    };
    if padding > left - length {
        None
    } else {
        Some(length + padding)
    }
}

pub fn rta_align(length: usize) -> (size: usize)
    requires
        length + 3 <= usize::MAX,
    ensures
        size == aligned(length as int),
{
    (length + 3) / 4 * 4
}

/// The length of an attribute with its header.
pub fn rta_length(payload_length: usize) -> (length: usize)
    requires
        payload_length + 4 <= usize::MAX,
    ensures
        length == payload_length + RTA_HDRLEN,
{
    RTA_HDRLEN + payload_length
}

/// An attribute of a route.
#[derive(Clone, Debug)]
pub struct Attribute {
    pub kind: u16,
    pub value: Vec<u8>,
}

#[verifier::ext_equal]
pub struct AttributeView {
    pub kind: u16,
    pub value: Seq<u8>,
}

impl View for Attribute {
    type V = AttributeView;

    open spec fn view(&self) -> AttributeView {
        AttributeView { kind: self.kind, value: self.value@ }
    }
}

pub open spec fn attribute_views(attributes: Seq<Attribute>) -> Seq<AttributeView> {
    Seq::new(attributes.len(), |i: int| attributes[i]@)
}

pub open spec fn zeros(count: nat) -> Seq<u8> {
    Seq::new(count, |i: int| 0u8)
}

/// An attribute as bytes: its length, its kind, its value, and zeros up to a multiple of
/// four.
pub open spec fn attribute_bytes(attribute: AttributeView) -> Seq<u8> {
    let length = attribute.value.len() + 4;
    bytes::le_bytes(length, 2) + bytes::le_bytes(attribute.kind as nat, 2) + attribute.value
        + zeros((aligned(length as int) - length) as nat)
}

pub fn push_attribute(buffer: &mut Vec<u8>, kind: u16, value: &[u8])
    requires
        value@.len() + 4 <= u16::MAX,
    ensures
        final(buffer)@ == old(buffer)@ + attribute_bytes(AttributeView { kind, value: value@ }),
{
    let length: usize = rta_length(value.len());
    push_u16(buffer, length as u16);
    push_u16(buffer, kind);
    push_bytes(buffer, value);
    let padding: usize = rta_align(length) - length;
    let ghost filled = buffer@;
    let mut i: usize = 0;
    assert(buffer@ =~= filled + zeros(0));
    while i < padding
        invariant
            i <= padding,
            buffer@ == filled + zeros(i as nat),
        decreases padding - i,
    {
        buffer.push(0);
        i = i + 1;
        assert(buffer@ =~= filled + zeros(i as nat));
    }
    assert(buffer@ =~= old(buffer)@ + attribute_bytes(AttributeView { kind, value: value@ }));
}

/// A route with what is needed to create it again.
#[derive(Clone, Debug)]
pub struct CapturedRoute {
    pub family: u8,
    pub dst_len: u8,
    pub src_len: u8,
    pub tos: u8,
    pub table: u8,
    pub protocol: u8,
    pub scope: u8,
    pub rtm_type: u8,
    pub flags: u32,
    /// In the order of their kinds, each at most once.
    pub attributes: Vec<Attribute>,
}

#[verifier::ext_equal]
pub struct RouteView {
    pub family: u8,
    pub dst_len: u8,
    pub src_len: u8,
    pub tos: u8,
    pub table: u8,
    pub protocol: u8,
    pub scope: u8,
    pub rtm_type: u8,
    pub flags: u32,
    pub attributes: Seq<AttributeView>,
}

impl View for CapturedRoute {
    type V = RouteView;

    open spec fn view(&self) -> RouteView {
        RouteView {
            family: self.family,
            dst_len: self.dst_len,
            src_len: self.src_len,
            tos: self.tos,
            table: self.table,
            protocol: self.protocol,
            scope: self.scope,
            rtm_type: self.rtm_type,
            flags: self.flags,
            attributes: attribute_views(self.attributes@),
        }
    }
}

/// The kinds that are kept.
pub open spec fn captured(kind: u16) -> bool {
    kind == RTA_DST || kind == RTA_OIF || kind == RTA_GATEWAY || kind == RTA_PREFSRC || kind
        == RTA_PRIORITY || kind == RTA_TABLE
}

pub fn is_captured(kind: u16) -> (yes: bool)
    ensures
        yes == captured(kind),
{
    kind == RTA_DST || kind == RTA_OIF || kind == RTA_GATEWAY || kind == RTA_PREFSRC || kind
        == RTA_PRIORITY || kind == RTA_TABLE
}

/// Kept attributes, in the order of their kinds, each at most once, none too long for its
/// length field.
pub open spec fn in_order(attributes: Seq<AttributeView>) -> bool {
    &&& forall|i: int, j: int|
        0 <= i < j < attributes.len() ==> (#[trigger] attributes[i]).kind < (
        #[trigger] attributes[j]).kind
    &&& forall|i: int|
        0 <= i < attributes.len() ==> captured((#[trigger] attributes[i]).kind)
            && attributes[i].value.len() + 4 <= u16::MAX
}

/// How many of the leading attributes have a smaller kind.
pub open spec fn place_of(attributes: Seq<AttributeView>, kind: u16, from: nat) -> nat
    decreases attributes.len() - from,
{
    if from < attributes.len() && attributes[from as int].kind < kind {
        place_of(attributes, kind, from + 1)
    } else {
        from
    }
}

/// The attributes with one more; a later one of a kind replaces an earlier one.
pub open spec fn inserted(attributes: Seq<AttributeView>, attribute: AttributeView) -> Seq<
    AttributeView,
> {
    let place = place_of(attributes, attribute.kind, 0) as int;
    if place < attributes.len() && attributes[place].kind == attribute.kind {
        attributes.update(place, attribute)
    } else {
        attributes.insert(place, attribute)
    }
}

/// The first `count` attributes as bytes.
pub open spec fn attributes_bytes(attributes: Seq<AttributeView>, count: nat) -> Seq<u8>
    decreases count,
{
    if count == 0 {
        seq![]
    } else {
        attributes_bytes(attributes, (count - 1) as nat) + attribute_bytes(attributes[count - 1])
    }
}

pub open spec fn route_header(route: RouteView) -> Seq<u8> {
    seq![
        route.family,
        route.dst_len,
        route.src_len,
        route.tos,
        route.table,
        route.protocol,
        route.scope,
        route.rtm_type,
    ] + bytes::le_bytes(route.flags as nat, 4)
}

/// A route as bytes.
pub open spec fn route_bytes(route: RouteView) -> Seq<u8> {
    route_header(route) + attributes_bytes(route.attributes, route.attributes.len())
}

pub fn encode_route(route: &CapturedRoute) -> (payload: Vec<u8>)
    requires
        in_order(route@.attributes),
    ensures
        payload@ == route_bytes(route@),
{
    let mut payload: Vec<u8> = Vec::new();
    payload.push(route.family);
    payload.push(route.dst_len);
    payload.push(route.src_len);
    payload.push(route.tos);
    payload.push(route.table);
    payload.push(route.protocol);
    payload.push(route.scope);
    payload.push(route.rtm_type);
    push_u32(&mut payload, route.flags);
    assert(payload@ =~= route_header(route@));
    let mut i: usize = 0;
    assert(payload@ =~= route_header(route@) + attributes_bytes(route@.attributes, 0));
    while i < route.attributes.len()
        invariant
            i <= route.attributes@.len(),
            in_order(route@.attributes),
            payload@ == route_header(route@) + attributes_bytes(route@.attributes, i as nat),
        decreases route.attributes@.len() - i,
    {
        let attribute: &Attribute = &route.attributes[i];
        assert(route@.attributes[i as int] == attribute@);
        push_attribute(&mut payload, attribute.kind, attribute.value.as_slice());
        i = i + 1;
        assert(payload@ =~= route_header(route@) + attributes_bytes(route@.attributes, i as nat));
    }
    payload
}

/// The attributes in the bytes from `offset` on, added to those found before. Reading ends
/// at the first attribute that does not fit.
pub open spec fn attributes_from(
    payload: Seq<u8>,
    offset: int,
    found: Seq<AttributeView>,
) -> Seq<AttributeView>
    decreases payload.len() - offset,
{
    let length = bytes::field(payload, offset, 2) as int;
    let kind = bytes::field(payload, offset + 2, 2) as u16;
    if offset + RTA_HDRLEN > payload.len() || length < RTA_HDRLEN || offset + length
        > payload.len() {
        found
    } else {
        let next = if captured(kind) {
            inserted(
                found,
                AttributeView { kind, value: payload.subrange(offset + 4, offset + length) },
            )
        } else {
            found
        };
        if offset + aligned(length) > payload.len() {
            next
        } else {
            attributes_from(payload, offset + aligned(length), next)
        }
    }
}

/// The route in a payload.
pub open spec fn route_of(payload: Seq<u8>) -> Option<RouteView> {
    if payload.len() < RTM_HDRLEN {
        None
    } else {
        Some(
            RouteView {
                family: payload[0],
                dst_len: payload[1],
                src_len: payload[2],
                tos: payload[3],
                table: payload[4],
                protocol: payload[5],
                scope: payload[6],
                rtm_type: payload[7],
                flags: bytes::field(payload, 8, 4) as u32,
                attributes: attributes_from(payload, RTM_HDRLEN as int, seq![]),
            },
        )
    }
}

fn insert_attribute(attributes: &mut Vec<Attribute>, attribute: Attribute)
    ensures
        attribute_views(final(attributes)@) == inserted(
            attribute_views(old(attributes)@),
            attribute@,
        ),
{
    let ghost before = attribute_views(attributes@);
    let mut place: usize = 0;
    while place < attributes.len() && attributes[place].kind < attribute.kind
        invariant
            place <= attributes@.len(),
            before == attribute_views(attributes@),
            place_of(before, attribute.kind, 0) == place_of(
                before,
                attribute.kind,
                place as nat,
            ),
        decreases attributes@.len() - place,
    {
        assert(before[place as int] == attributes@[place as int]@);
        place = place + 1;
    }
    if place < attributes.len() {
        assert(before[place as int] == attributes@[place as int]@);
        if attributes[place].kind == attribute.kind {
            attributes.set(place, attribute);
            assert(attribute_views(attributes@) =~= before.update(place as int, attribute@));
            return;
        }
    }
    attributes.insert(place, attribute);
    assert(attribute_views(attributes@) =~= before.insert(place as int, attribute@));
}

pub fn parse_route(payload: &[u8]) -> (route: Option<CapturedRoute>)
    ensures
        match route {
            Some(route) => route_of(payload@) == Some(route@),
            None => route_of(payload@) is None,
        },
{
    if payload.len() < RTM_HDRLEN {
        return None;
    }
    let mut attributes: Vec<Attribute> = Vec::new();
    assert(attribute_views(attributes@) =~= seq![]);
    let mut offset: usize = RTM_HDRLEN;
    let mut going: bool = true;
    while going && payload.len() - offset >= RTA_HDRLEN
        invariant
            offset <= payload@.len(),
            attributes_from(payload@, RTM_HDRLEN as int, seq![]) == if going {
                attributes_from(payload@, offset as int, attribute_views(attributes@))
            } else {
                attribute_views(attributes@)
            },
        decreases
                (payload@.len() - offset) + if going {
                    1int
                } else {
                    0int
                },
    {
        let length: usize = read_u16(payload, offset) as usize;
        let kind: u16 = read_u16(payload, offset + 2);
        if length < RTA_HDRLEN || length > payload.len() - offset {
            going = false;
        } else {
            if is_captured(kind) {
                let value: Vec<u8> = copy_range(payload, offset + RTA_HDRLEN, offset + length);
                insert_attribute(&mut attributes, Attribute { kind, value });
            }
            match size_within(length, payload.len() - offset) {
                Some(step) => {
                    offset = offset + step;
                },
                None => {
                    going = false;
                },
            }
        }
    }
    Some(
        CapturedRoute {
            family: payload[0],
            dst_len: payload[1],
            src_len: payload[2],
            tos: payload[3],
            table: payload[4],
            protocol: payload[5],
            scope: payload[6],
            rtm_type: payload[7],
            flags: read_u32(payload, 8),
            attributes,
        },
    )
}

/// The value of an attribute that holds one number.
pub open spec fn number_at(attributes: Seq<AttributeView>, kind: u16) -> Option<u32> {
    let place = place_of(attributes, kind, 0) as int;
    if place < attributes.len() && attributes[place].kind == kind && attributes[place].value.len()
        == 4 {
        Some(bytes::le(attributes[place].value) as u32)
    } else {
        None
    }
}

impl RouteView {
    /// The table that the route is in: by its attribute, else by its one-byte field.
    pub open spec fn effective_table(self) -> u32 {
        match number_at(self.attributes, RTA_TABLE) {
            Some(table) => table,
            None => self.table as u32,
        }
    }

    /// Whether the policy may touch the route: a default route of the main table that
    /// leaves by the interface.
    pub open spec fn governed(self, interface_index: u32) -> bool {
        self.dst_len == 0 && number_at(self.attributes, RTA_OIF) == Some(interface_index)
            && self.effective_table() == RT_TABLE_MAIN
    }
}

impl CapturedRoute {
    fn number(&self, kind: u16) -> (value: Option<u32>)
        ensures
            value == number_at(self@.attributes, kind),
    {
        let mut place: usize = 0;
        while place < self.attributes.len() && self.attributes[place].kind < kind
            invariant
                place <= self.attributes@.len(),
                place_of(self@.attributes, kind, 0) == place_of(
                    self@.attributes,
                    kind,
                    place as nat,
                ),
            decreases self.attributes@.len() - place,
        {
            assert(self@.attributes[place as int] == self.attributes@[place as int]@);
            place = place + 1;
        }
        if place < self.attributes.len() {
            assert(self@.attributes[place as int] == self.attributes@[place as int]@);
            let attribute: &Attribute = &self.attributes[place];
            if attribute.kind == kind && attribute.value.len() == 4 {
                assert(attribute.value@.subrange(0, 4) =~= attribute.value@);
                return Some(read_u32(attribute.value.as_slice(), 0));
            }
        }
        None
    }

    /// The interface that the route leaves by.
    pub fn oif(&self) -> (index: Option<u32>)
        ensures
            index == number_at(self@.attributes, RTA_OIF),
    {
        self.number(RTA_OIF)
    }

    pub fn effective_table(&self) -> (table: u32)
        ensures
            table == self@.effective_table(),
    {
        match self.number(RTA_TABLE) {
            Some(table) => table,
            None => self.table as u32,
        }
    }

    pub fn is_default_route(&self) -> (yes: bool)
        ensures
            yes == (self@.dst_len == 0),
    {
        self.dst_len == 0
    }

    /// Whether the policy may touch the route.
    pub fn is_governed(&self, interface_index: u32) -> (yes: bool)
        ensures
            yes == self@.governed(interface_index),
    {
        if !self.is_default_route() || self.effective_table() != RT_TABLE_MAIN {
            return false;
        }
        match self.oif() {
            Some(index) => index == interface_index,
            None => false,
        }
    }

    /// Whether both are the same route.
    pub fn is_same(&self, other: &CapturedRoute) -> (same: bool)
        ensures
            same == (self@ == other@),
    {
        if self.attributes.len() != other.attributes.len() {
            assert(self@.attributes.len() != other@.attributes.len());
            return false;
        }
        let mut i: usize = 0;
        while i < self.attributes.len()
            invariant
                i <= self.attributes@.len() == other.attributes@.len(),
                forall|j: int|
                    0 <= j < i ==> self@.attributes[j] == #[trigger] other@.attributes[j],
            decreases self.attributes@.len() - i,
        {
            let here: &Attribute = &self.attributes[i];
            let there: &Attribute = &other.attributes[i];
            assert(self@.attributes[i as int] == here@);
            assert(other@.attributes[i as int] == there@);
            if here.kind != there.kind || !same_bytes(
                here.value.as_slice(),
                there.value.as_slice(),
            ) {
                return false;
            }
            i = i + 1;
        }
        assert(self@.attributes =~= other@.attributes);
        self.family == other.family && self.dst_len == other.dst_len && self.src_len
            == other.src_len && self.tos == other.tos && self.table == other.table && self.protocol
            == other.protocol && self.scope == other.scope && self.rtm_type == other.rtm_type
            && self.flags == other.flags
    }
}

/// Whether `routes` holds a route.
pub open spec fn holds_route(routes: Seq<CapturedRoute>, route: RouteView) -> bool {
    exists|i: int| 0 <= i < routes.len() && (#[trigger] routes[i])@ == route
}

fn has_route(routes: &Vec<CapturedRoute>, route: &CapturedRoute) -> (has: bool)
    ensures
        has == holds_route(routes@, route@),
{
    let mut i: usize = 0;
    while i < routes.len()
        invariant
            i <= routes@.len(),
            forall|j: int| 0 <= j < i ==> (#[trigger] routes@[j])@ != route@,
        decreases routes@.len() - i,
    {
        if routes[i].is_same(route) {
            assert(routes@[i as int]@ == route@);
            return true;
        }
        i = i + 1;
    }
    false
}

/// The positions below `count` of the routes that the other list lacks.
pub open spec fn positions_absent(
    routes: Seq<CapturedRoute>,
    others: Seq<CapturedRoute>,
    count: nat,
) -> Seq<usize>
    decreases count,
{
    if count == 0 {
        seq![]
    } else if holds_route(others, routes[count - 1]@) {
        positions_absent(routes, others, (count - 1) as nat)
    } else {
        positions_absent(routes, others, (count - 1) as nat).push((count - 1) as usize)
    }
}

/// The routes that the other list lacks: of the current routes against the captured ones,
/// those to delete on restoring; of the captured ones against those left, those to create.
pub fn absent_routes(routes: &Vec<CapturedRoute>, others: &Vec<CapturedRoute>) -> (positions: Vec<
    usize,
>)
    ensures
        positions@ == positions_absent(routes@, others@, routes@.len()),
{
    let mut positions: Vec<usize> = Vec::new();
    let mut i: usize = 0;
    while i < routes.len()
        invariant
            i <= routes@.len(),
            positions@ == positions_absent(routes@, others@, i as nat),
        decreases routes@.len() - i,
    {
        if !has_route(others, &routes[i]) {
            positions.push(i);
        }
        i = i + 1;
    }
    positions
}

/// A message as bytes: header and payload, then zeros up to a multiple of four. The header
/// states the length without the zeros.
pub open spec fn message_bytes(
    message_type: u16,
    flags: u16,
    sequence: u32,
    pid: u32,
    payload: Seq<u8>,
) -> Seq<u8> {
    let length = payload.len() + NLMSG_HDRLEN;
    bytes::le_bytes(length as nat, 4) + bytes::le_bytes(message_type as nat, 2) + bytes::le_bytes(
        flags as nat,
        2,
    ) + bytes::le_bytes(sequence as nat, 4) + bytes::le_bytes(pid as nat, 4) + payload + zeros(
        (aligned(length as int) - length) as nat,
    )
}

pub fn encode_message(message_type: u16, flags: u16, sequence: u32, pid: u32, payload: &[u8]) -> (message:
    Vec<u8>)
    requires
        payload@.len() + NLMSG_HDRLEN + 3 <= u32::MAX,
    ensures
        message@ == message_bytes(message_type, flags, sequence, pid, payload@),
{
    let length: usize = NLMSG_HDRLEN + payload.len();
    let mut message: Vec<u8> = Vec::new();
    push_u32(&mut message, length as u32);
    push_u16(&mut message, message_type);
    push_u16(&mut message, flags);
    push_u32(&mut message, sequence);
    push_u32(&mut message, pid);
    push_bytes(&mut message, payload);
    let padding: usize = nlmsg_align(length) - length;
    let ghost filled = message@;
    let mut i: usize = 0;
    assert(message@ =~= filled + zeros(0));
    while i < padding
        invariant
            i <= padding,
            message@ == filled + zeros(i as nat),
        decreases padding - i,
    {
        message.push(0);
        i = i + 1;
        assert(message@ =~= filled + zeros(i as nat));
    }
    assert(message@ =~= message_bytes(message_type, flags, sequence, pid, payload@));
    message
}

pub const FAMILY_INET: u8 = 2;

pub const FAMILY_INET6: u8 = 10;

/// The request for all routes of a family: a route header that names only the family.
pub open spec fn dump_request(family: u8) -> Seq<u8> {
    seq![family] + zeros((RTM_HDRLEN - 1) as nat)
}

/// The request for the route to a peer: a route header with the family and the length of
/// the address, and the address as the destination.
pub open spec fn peer_request(peer: Address) -> Seq<u8> {
    let (family, length, value) = match peer {
        Address::V4(_) => (FAMILY_INET, 32u8, peer.octets().take(4)),
        Address::V6(_) => (FAMILY_INET6, 128u8, peer.octets()),
    };
    seq![family, length] + zeros((RTM_HDRLEN - 2) as nat) + attribute_bytes(
        AttributeView { kind: RTA_DST, value },
    )
}

fn route_header_of(family: u8, dst_len: u8) -> (header: Vec<u8>)
    ensures
        header@ == seq![family, dst_len] + zeros((RTM_HDRLEN - 2) as nat),
{
    let mut header: Vec<u8> = vec![0u8; RTM_HDRLEN];
    header.set(0, family);
    header.set(1, dst_len);
    assert(header@ =~= seq![family, dst_len] + zeros((RTM_HDRLEN - 2) as nat));
    header
}

pub fn dump_query(family: u8) -> (payload: Vec<u8>)
    ensures
        payload@ == dump_request(family),
{
    let payload: Vec<u8> = route_header_of(family, 0);
    assert(payload@ =~= dump_request(family));
    payload
}

pub fn peer_query(peer: Address) -> (payload: Vec<u8>)
    ensures
        payload@ == peer_request(peer),
{
    let octets: [u8; 16] = peer.padded_octets();
    match peer {
        Address::V4(_) => {
            let mut payload: Vec<u8> = route_header_of(FAMILY_INET, 32);
            let value: Vec<u8> = copy_range(&octets, 0, 4);
            assert(value@ =~= octets@.take(4));
            push_attribute(&mut payload, RTA_DST, value.as_slice());
            payload
        },
        Address::V6(_) => {
            let mut payload: Vec<u8> = route_header_of(FAMILY_INET6, 128);
            push_attribute(&mut payload, RTA_DST, &octets);
            payload
        },
    }
}

/// The interface that a reply to such a request names, or why it names none.
pub fn reply_interface(bodies: &Vec<Vec<u8>>) -> (interface: Result<u32, &'static str>)
    ensures
        ({
            let route = if bodies@.len() > 0 {
                route_of(bodies@[0]@)
            } else {
                None
            };
            match (interface, route) {
                (Ok(index), Some(route)) => number_at(route.attributes, RTA_OIF) == Some(index),
                (Err(message), Some(route)) => number_at(route.attributes, RTA_OIF) is None
                    && message@
                    == "the kernel route reply for the discovered phone carried no output interface"@,
                (Err(message), None) => message@
                    == "the kernel returned no route for the discovered phone"@,
                (Ok(_), None) => false,
            }
        }),
{
    if bodies.len() == 0 {
        return Err("the kernel returned no route for the discovered phone");
    }
    match parse_route(bodies[0].as_slice()) {
        Some(route) => match route.oif() {
            Some(index) => Ok(index),
            None => Err(
                "the kernel route reply for the discovered phone carried no output interface",
            ),
        },
        None => Err("the kernel returned no route for the discovered phone"),
    }
}

/// The default routes that the policy governs among the routes of a dump, in order.
pub open spec fn governed_routes(bodies: Seq<Vec<u8>>, interface_index: u32, count: nat) -> Seq<
    RouteView,
>
    decreases count,
{
    if count == 0 {
        seq![]
    } else {
        let front = governed_routes(bodies, interface_index, (count - 1) as nat);
        match route_of(bodies[count - 1]@) {
            Some(route) => if route.governed(interface_index) {
                front.push(route)
            } else {
                front
            },
            None => front,
        }
    }
}

pub open spec fn route_views(routes: Seq<CapturedRoute>) -> Seq<RouteView> {
    Seq::new(routes.len(), |i: int| routes[i]@)
}

/// The default routes of an interface in the replies to a dump.
pub fn default_routes(bodies: &Vec<Vec<u8>>, interface_index: u32) -> (routes: Vec<CapturedRoute>)
    ensures
        route_views(routes@) == governed_routes(bodies@, interface_index, bodies@.len()),
{
    let mut routes: Vec<CapturedRoute> = Vec::new();
    let mut i: usize = 0;
    assert(route_views(routes@) =~= seq![]);
    while i < bodies.len()
        invariant
            i <= bodies@.len(),
            route_views(routes@) == governed_routes(bodies@, interface_index, i as nat),
        decreases bodies@.len() - i,
    {
        if let Some(route) = parse_route(bodies[i].as_slice()) {
            if route.is_governed(interface_index) {
                let ghost before = route_views(routes@);
                let ghost view = route@;
                routes.push(route);
                assert(route_views(routes@) =~= before.push(view));
            }
        }
        i = i + 1;
    }
    routes
}

/// What a buffer of replies comes to.
#[verifier::ext_equal]
pub enum RepliesView {
    /// More replies follow.
    More(Seq<Seq<u8>>),
    /// All replies are there.
    Complete(Seq<Seq<u8>>),
    /// The kernel refused the request, with this error number.
    Refused(int),
    /// The refusal does not hold its number.
    Truncated,
}

/// The number that a refusal states: the two's complement of four bytes.
pub open spec fn error_number(body: Seq<u8>) -> int {
    let word = bytes::field(body, 0, 4);
    if word >= 0x8000_0000 {
        word - 0x1_0000_0000
    } else {
        word as int
    }
}

/// The replies to the request `sequence` of the socket `pid` in the bytes from `offset` on,
/// after those found before. Messages of others are skipped; reading ends at one that does
/// not fit.
pub open spec fn replies_from(
    buffer: Seq<u8>,
    offset: int,
    sequence: u32,
    pid: u32,
    found: Seq<Seq<u8>>,
) -> RepliesView
    decreases buffer.len() - offset,
{
    let length = bytes::field(buffer, offset, 4) as int;
    let kind = bytes::field(buffer, offset + 4, 2);
    let flags = bytes::field(buffer, offset + 6, 2) as u16;
    let number = bytes::field(buffer, offset + 8, 4);
    let owner = bytes::field(buffer, offset + 12, 4);
    let body = buffer.subrange(offset + 16, offset + length);
    if offset + NLMSG_HDRLEN > buffer.len() || length < NLMSG_HDRLEN || offset + length
        > buffer.len() {
        RepliesView::More(found)
    } else if number != sequence || (owner != pid && owner != 0) {
        if offset + aligned(length) > buffer.len() {
            RepliesView::More(found)
        } else {
            replies_from(buffer, offset + aligned(length), sequence, pid, found)
        }
    } else if kind == NLMSG_DONE {
        RepliesView::Complete(found)
    } else if kind == NLMSG_ERROR {
        if body.len() < 4 {
            RepliesView::Truncated
        } else if error_number(body) == 0 {
            RepliesView::Complete(found)
        } else {
            RepliesView::Refused(-error_number(body))
        }
    } else if flags & NLM_F_MULTI == 0 {
        RepliesView::Complete(found.push(body))
    } else if offset + aligned(length) > buffer.len() {
        RepliesView::More(found.push(body))
    } else {
        replies_from(buffer, offset + aligned(length), sequence, pid, found.push(body))
    }
}

/// What a buffer of replies comes to, executable. The bodies are in the list that was
/// handed in.
#[derive(Clone, Copy, Debug, PartialEq, Eq, Structural)]
pub enum Replies {
    More,
    Complete,
    Refused(i64),
    Truncated,
}

pub open spec fn bodies_of(bodies: Seq<Vec<u8>>) -> Seq<Seq<u8>> {
    Seq::new(bodies.len(), |i: int| bodies[i]@)
}

fn read_error_number(body: &[u8]) -> (number: i64)
    requires
        body@.len() >= 4,
    ensures
        number == error_number(body@),
{
    let word: u32 = read_u32(body, 0);
    if word >= 0x8000_0000 {
        word as i64 - 0x1_0000_0000
    } else {
        word as i64
    }
}

/// Reads the replies in a buffer and adds their bodies to `bodies`.
pub fn read_replies(buffer: &[u8], sequence: u32, pid: u32, bodies: &mut Vec<Vec<u8>>) -> (replies:
    Replies)
    ensures
        match replies {
            Replies::More => replies_from(buffer@, 0, sequence, pid, bodies_of(old(bodies)@))
                == RepliesView::More(bodies_of(final(bodies)@)),
            Replies::Complete => replies_from(buffer@, 0, sequence, pid, bodies_of(old(bodies)@))
                == RepliesView::Complete(bodies_of(final(bodies)@)),
            Replies::Refused(number) => replies_from(
                buffer@,
                0,
                sequence,
                pid,
                bodies_of(old(bodies)@),
            ) == RepliesView::Refused(number as int),
            Replies::Truncated => replies_from(buffer@, 0, sequence, pid, bodies_of(old(bodies)@))
                == RepliesView::Truncated,
        },
{
    let mut offset: usize = 0;
    while buffer.len() - offset >= NLMSG_HDRLEN
        invariant
            offset <= buffer@.len(),
            replies_from(buffer@, 0, sequence, pid, bodies_of(old(bodies)@)) == replies_from(
                buffer@,
                offset as int,
                sequence,
                pid,
                bodies_of(bodies@),
            ),
        decreases buffer@.len() - offset,
    {
        let stated: u32 = read_u32(buffer, offset);
        let kind: u16 = read_u16(buffer, offset + 4);
        let flags: u16 = read_u16(buffer, offset + 6);
        let number: u32 = read_u32(buffer, offset + 8);
        let owner: u32 = read_u32(buffer, offset + 12);
        if (stated as u64) < NLMSG_HDRLEN as u64 || stated as u64 > (buffer.len() - offset) as u64 {
            return Replies::More;
        }
        let length: usize = stated as usize;
        let size: Option<usize> = size_within(length, buffer.len() - offset);
        if number != sequence || (owner != pid && owner != 0) {
            match size {
                Some(size) => {
                    offset = offset + size;
                    continue ;
                },
                None => {
                    return Replies::More;
                },
            }
        }
        if kind == NLMSG_DONE {
            return Replies::Complete;
        }
        let body: Vec<u8> = copy_range(buffer, offset + NLMSG_HDRLEN, offset + length);
        if kind == NLMSG_ERROR {
            if body.len() < 4 {
                return Replies::Truncated;
            }
            let code: i64 = read_error_number(body.as_slice());
            return if code == 0 {
                Replies::Complete
            } else {
                Replies::Refused(-code)
            };
        }
        let ghost before = bodies_of(bodies@);
        bodies.push(body);
        assert(bodies_of(bodies@) =~= before.push(body@));
        if flags & NLM_F_MULTI == 0 {
            return Replies::Complete;
        }
        match size {
            Some(size) => {
                offset = offset + size;
            },
            None => {
                return Replies::More;
            },
        }
    }
    Replies::More
}

/// How the outcome of a change of routes counts.
#[derive(Clone, Copy, Debug, PartialEq, Eq, Structural)]
pub enum ChangeOutcome {
    Done,
    Denied,
    Failed,
}

pub const EPERM: i64 = 1;

pub const ENOENT: i64 = 2;

pub const ESRCH: i64 = 3;

pub const EACCES: i64 = 13;

pub const EEXIST: i64 = 17;

/// A route that is already gone counts as deleted.
pub fn deletion_outcome(errno: i64) -> (outcome: ChangeOutcome)
    ensures
        outcome == if errno == 0 || errno == ESRCH || errno == ENOENT {
            ChangeOutcome::Done
        } else if errno == EPERM || errno == EACCES {
            ChangeOutcome::Denied
        } else {
            ChangeOutcome::Failed
        },
{
    if errno == 0 || errno == ESRCH || errno == ENOENT {
        ChangeOutcome::Done
    } else if errno == EPERM || errno == EACCES {
        ChangeOutcome::Denied
    } else {
        ChangeOutcome::Failed
    }
}

/// A route that is already there counts as created.
pub fn creation_outcome(errno: i64) -> (outcome: ChangeOutcome)
    ensures
        outcome == if errno == 0 || errno == EEXIST {
            ChangeOutcome::Done
        } else if errno == EPERM || errno == EACCES {
            ChangeOutcome::Denied
        } else {
            ChangeOutcome::Failed
        },
{
    if errno == 0 || errno == EEXIST {
        ChangeOutcome::Done
    } else if errno == EPERM || errno == EACCES {
        ChangeOutcome::Denied
    } else {
        ChangeOutcome::Failed
    }
}

/// The size of an attribute as bytes is a multiple of four.
proof fn attribute_width(attribute: AttributeView)
    ensures
        attribute_bytes(attribute).len() == aligned((attribute.value.len() + 4) as int),
{
    bytes::le_bytes_width(attribute.value.len() + 4, 2);
    bytes::le_bytes_width(attribute.kind as nat, 2);
}

/// The attributes from position `from` on as bytes.
spec fn bytes_after(attributes: Seq<AttributeView>, from: nat) -> Seq<u8>
    decreases attributes.len() - from,
{
    if from >= attributes.len() {
        seq![]
    } else {
        attribute_bytes(attributes[from as int]) + bytes_after(attributes, from + 1)
    }
}

proof fn bytes_meet(attributes: Seq<AttributeView>, from: nat)
    requires
        from <= attributes.len(),
    ensures
        attributes_bytes(attributes, from) + bytes_after(attributes, from) == attributes_bytes(
            attributes,
            attributes.len(),
        ),
    decreases attributes.len() - from,
{
    if from < attributes.len() {
        bytes_meet(attributes, from + 1);
        assert(attributes_bytes(attributes, from) + (attribute_bytes(attributes[from as int])
            + bytes_after(attributes, from + 1)) =~= attributes_bytes(attributes, from + 1)
            + bytes_after(attributes, from + 1));
    } else {
        assert(bytes_after(attributes, from) =~= seq![]);
        assert(attributes_bytes(attributes, from) + Seq::<u8>::empty() =~= attributes_bytes(
            attributes,
            from,
        ));
    }
}

proof fn place_at_end(attributes: Seq<AttributeView>, kind: u16, from: nat)
    requires
        from <= attributes.len(),
        forall|i: int| 0 <= i < attributes.len() ==> (#[trigger] attributes[i]).kind < kind,
    ensures
        place_of(attributes, kind, from) == attributes.len(),
    decreases attributes.len() - from,
{
    if from < attributes.len() {
        place_at_end(attributes, kind, from + 1);
    }
}

/// What stands where an attribute was written.
proof fn attribute_is_there(before: Seq<u8>, attribute: AttributeView, rest: Seq<u8>)
    requires
        attribute.value.len() + 4 <= u16::MAX,
    ensures
        ({
            let payload = before + attribute_bytes(attribute) + rest;
            let offset = before.len() as int;
            let size = attribute.value.len() + 4;
            &&& bytes::field(payload, offset, 2) == size
            &&& bytes::field(payload, offset + 2, 2) == attribute.kind
            &&& payload.subrange(offset + 4, offset + size) == attribute.value
            &&& payload.len() == offset + aligned(size as int) + rest.len()
        }),
{
    let size = attribute.value.len() + 4;
    let length = bytes::le_bytes(size, 2);
    let kind = bytes::le_bytes(attribute.kind as nat, 2);
    let padding = zeros((aligned(size as int) - size) as nat);
    let payload = before + attribute_bytes(attribute) + rest;
    bytes::byte_ranges();
    bytes::le_bytes_width(size, 2);
    bytes::le_bytes_width(attribute.kind as nat, 2);
    attribute_width(attribute);
    assert(payload =~= before + length + (kind + attribute.value + padding + rest));
    bytes::field_of_concat(before, size, 2, kind + attribute.value + padding + rest);
    assert(payload =~= (before + length) + kind + (attribute.value + padding + rest));
    bytes::field_of_concat(
        before + length,
        attribute.kind as nat,
        2,
        attribute.value + padding + rest,
    );
    assert(payload.subrange(before.len() as int + 4, before.len() as int + size)
        =~= attribute.value);
}

proof fn attributes_are_read_back(head: Seq<u8>, attributes: Seq<AttributeView>, from: nat)
    requires
        in_order(attributes),
        from <= attributes.len(),
    ensures
        attributes_from(
            head + attributes_bytes(attributes, attributes.len()),
            (head + attributes_bytes(attributes, from)).len() as int,
            attributes.take(from as int),
        ) == attributes,
    decreases attributes.len() - from,
{
    let payload = head + attributes_bytes(attributes, attributes.len());
    let before = head + attributes_bytes(attributes, from);
    bytes_meet(attributes, from);
    if from < attributes.len() {
        let attribute = attributes[from as int];
        let rest = bytes_after(attributes, from + 1);
        attribute_is_there(before, attribute, rest);
        assert(payload =~= before + attribute_bytes(attribute) + rest);
        let found = attributes.take(from as int);
        assert forall|i: int| 0 <= i < found.len() implies (#[trigger] found[i]).kind
            < attribute.kind by {
            assert(attributes[i].kind < attributes[from as int].kind);
        }
        place_at_end(found, attribute.kind, 0);
        assert(inserted(found, attribute) =~= attributes.take((from + 1) as int));
        attribute_width(attribute);
        let after = head + attributes_bytes(attributes, from + 1);
        assert(after =~= before + attribute_bytes(attribute));
        attributes_are_read_back(head, attributes, from + 1);
    } else {
        assert(payload =~= before);
        assert(attributes.take(from as int) =~= attributes);
    }
}

/// A captured route is read back as it was written, whatever the lengths of its attributes.
pub proof fn route_round_trip(route: RouteView)
    requires
        in_order(route.attributes),
    ensures
        route_of(route_bytes(route)) == Some(route),
{
    let payload = route_bytes(route);
    let head = route_header(route);
    let plain = seq![
        route.family,
        route.dst_len,
        route.src_len,
        route.tos,
        route.table,
        route.protocol,
        route.scope,
        route.rtm_type,
    ];
    let tail = attributes_bytes(route.attributes, route.attributes.len());
    bytes::byte_ranges();
    bytes::le_bytes_width(route.flags as nat, 4);
    assert(payload =~= plain + bytes::le_bytes(route.flags as nat, 4) + tail);
    bytes::field_of_concat(plain, route.flags as nat, 4, tail);
    assert(head.len() == RTM_HDRLEN);
    assert(head + attributes_bytes(route.attributes, 0) =~= head);
    assert(route.attributes.take(0) =~= seq![]);
    attributes_are_read_back(head, route.attributes, 0);
    assert(payload[0] == plain[0] && payload[1] == plain[1] && payload[2] == plain[2] && payload[3]
        == plain[3] && payload[4] == plain[4] && payload[5] == plain[5] && payload[6] == plain[6]
        && payload[7] == plain[7]);
}

/// The policy never touches a route of another interface, of another table, or to a network.
pub proof fn other_routes_are_left_alone(route: RouteView, interface_index: u32)
    requires
        route.dst_len != 0 || number_at(route.attributes, RTA_OIF) != Some(interface_index)
            || route.effective_table() != RT_TABLE_MAIN,
    ensures
        !route.governed(interface_index),
{
}

/// Sizes are rounded up to the next multiple of four, and no further.
pub proof fn sizes_are_rounded_up(length: int)
    ensures
        aligned(length) % 4 == 0,
        length <= aligned(length) < length + 4,
{
}

/// A route is read from any payload of at least twelve bytes: eight bytes one by one, then
/// its flags.
pub proof fn route_header_is_what_stands_there(payload: Seq<u8>)
    ensures
        match route_of(payload) {
            Some(route) => payload.len() >= 12 && route.family == payload[0] && route.dst_len
                == payload[1] && route.src_len == payload[2] && route.tos == payload[3]
                && route.table == payload[4] && route.protocol == payload[5] && route.scope
                == payload[6] && route.rtm_type == payload[7] && route.flags == bytes::number32(
                payload,
                8,
            ),
            None => payload.len() < 12,
        },
{
    if payload.len() >= 12 {
        bytes::fields_are_little_endian(payload, 8);
    }
}

/// An attribute begins with its length, which counts its four bytes of header, and its kind.
/// Where it fits it is taken, if it is a destination, an interface, a gateway, a priority, a
/// source or a table, and reading goes on at the next multiple of four. Where it does not fit,
/// reading ends.
pub proof fn attributes_are_read_one_by_one(payload: Seq<u8>, at: int, found: Seq<AttributeView>)
    requires
        0 <= at <= payload.len(),
    ensures
        ({
            let length = bytes::number16(payload, at);
            let kind = bytes::number16(payload, at + 2);
            let fits = at + 4 <= payload.len() && 4 <= length && at + length <= payload.len();
            let kept = kind == 1 || kind == 4 || kind == 5 || kind == 6 || kind == 7 || kind == 15;
            let size = if length % 4 == 0 {
                length
            } else {
                length + 4 - length % 4
            };
            let now = inserted(
                found,
                AttributeView {
                    kind: kind as u16,
                    value: payload.subrange(at + 4, at + length),
                },
            );
            &&& !fits ==> attributes_from(payload, at, found) == found
            &&& fits && at + size > payload.len() ==> attributes_from(payload, at, found) == if kept {
                now
            } else {
                found
            }
            &&& fits && at + size <= payload.len() ==> attributes_from(payload, at, found)
                == attributes_from(
                payload,
                at + size,
                if kept {
                    now
                } else {
                    found
                },
            )
        }),
{
    bytes::fields_are_little_endian(payload, at);
    bytes::fields_are_little_endian(payload, at + 2);
    sizes_are_rounded_up(bytes::number16(payload, at));
}

/// Of every kind the attribute that was read last is kept; the others stay as they were, and
/// all stay in the order of their kinds.
pub proof fn last_attribute_is_kept(
    attributes: Seq<AttributeView>,
    attribute: AttributeView,
    other: AttributeView,
)
    requires
        in_order(attributes),
        captured(attribute.kind),
        attribute.value.len() + 4 <= u16::MAX,
    ensures
        in_order(inserted(attributes, attribute)),
        inserted(attributes, attribute).contains(attribute),
        other.kind == attribute.kind && other != attribute ==> !inserted(
            attributes,
            attribute,
        ).contains(other),
        other.kind != attribute.kind ==> inserted(attributes, attribute).contains(other)
            == attributes.contains(other),
{
    let kind = attribute.kind;
    let place = place_of(attributes, kind, 0) as int;
    let now = inserted(attributes, attribute);
    place_divides(attributes, kind, 0);
    assert(now[place] == attribute);
    if place < attributes.len() && attributes[place].kind == kind {
        assert forall|i: int, j: int| 0 <= i < j < now.len() implies (#[trigger] now[i]).kind < (
        #[trigger] now[j]).kind by {
            assert(attributes[i].kind < attributes[j].kind);
        }
        assert forall|i: int| 0 <= i < now.len() implies captured((#[trigger] now[i]).kind)
            && now[i].value.len() + 4 <= u16::MAX by {
            assert(captured(attributes[i].kind));
        }
    } else {
        assert forall|i: int, j: int| 0 <= i < j < now.len() implies (#[trigger] now[i]).kind < (
        #[trigger] now[j]).kind by {
            if i < place && j > place {
                assert(attributes[i].kind < kind < attributes[j - 1].kind);
            } else if i < place && j < place {
                assert(attributes[i].kind < attributes[j].kind);
            } else if i > place {
                assert(attributes[i - 1].kind < attributes[j - 1].kind);
            } else if i == place {
                assert(kind < attributes[j - 1].kind);
            }
        }
        assert forall|i: int| 0 <= i < now.len() implies captured((#[trigger] now[i]).kind)
            && now[i].value.len() + 4 <= u16::MAX by {
            if i < place {
                assert(captured(attributes[i].kind));
            } else if i > place {
                assert(captured(attributes[i - 1].kind));
            }
        }
    }
    if now.contains(other) {
        let i = choose|i: int| 0 <= i < now.len() && now[i] == other;
        if other.kind == kind {
            if i < place {
                assert(now[i].kind < now[place].kind);
            } else if i > place {
                assert(now[place].kind < now[i].kind);
            }
        } else if now.len() == attributes.len() || i < place {
            assert(attributes[i] == other);
        } else {
            assert(attributes[i - 1] == other);
        }
    }
    if other.kind != kind && attributes.contains(other) {
        let i = choose|i: int| 0 <= i < attributes.len() && attributes[i] == other;
        if now.len() == attributes.len() || i < place {
            assert(now[i] == other);
        } else {
            assert(now[i + 1] == other);
        }
    }
}

/// The place of a kind divides the smaller kinds from the others.
proof fn place_divides(attributes: Seq<AttributeView>, kind: u16, from: nat)
    requires
        forall|i: int, j: int|
            0 <= i < j < attributes.len() ==> (#[trigger] attributes[i]).kind < (
            #[trigger] attributes[j]).kind,
        from <= attributes.len(),
        forall|i: int| 0 <= i < from ==> (#[trigger] attributes[i]).kind < kind,
    ensures
        from <= place_of(attributes, kind, from) <= attributes.len(),
        forall|i: int|
            0 <= i < place_of(attributes, kind, from) ==> (#[trigger] attributes[i]).kind < kind,
        forall|i: int|
            place_of(attributes, kind, from) <= i < attributes.len() ==> (
            #[trigger] attributes[i]).kind >= kind,
        forall|i: int|
            place_of(attributes, kind, from) < i < attributes.len() ==> (
            #[trigger] attributes[i]).kind > kind,
    decreases attributes.len() - from,
{
    if from < attributes.len() && attributes[from as int].kind < kind {
        place_divides(attributes, kind, from + 1);
    } else if from < attributes.len() {
        assert forall|i: int| from < i < attributes.len() implies (#[trigger] attributes[i]).kind
            > kind by {
            assert(attributes[from as int].kind < attributes[i].kind);
        }
    }
}

/// A number is found exactly where an attribute of that kind holds it in four bytes.
pub proof fn numbers_are_found(attributes: Seq<AttributeView>, kind: u16, at: int)
    requires
        in_order(attributes),
    ensures
        0 <= at < attributes.len() && attributes[at].kind == kind ==> number_at(attributes, kind)
            == if attributes[at].value.len() == 4 {
            Some(bytes::number32(attributes[at].value, 0) as u32)
        } else {
            None
        },
        (forall|i: int| 0 <= i < attributes.len() ==> (#[trigger] attributes[i]).kind != kind)
            ==> number_at(attributes, kind) is None,
{
    place_divides(attributes, kind, 0);
    let place = place_of(attributes, kind, 0) as int;
    if 0 <= at < attributes.len() && attributes[at].kind == kind {
        assert(at == place);
        let value = attributes[at].value;
        if value.len() == 4 {
            bytes::fields_are_little_endian(value, 0);
            assert(value.subrange(0, 4) =~= value);
        }
    }
}

/// The policy governs a route exactly where it leads everywhere, leaves by the interface, and
/// is in table 254: by its attribute, or by its byte where it has none.
pub proof fn governed_routes_are(route: RouteView, interface_index: u32)
    ensures
        route.governed(interface_index) == (route.dst_len == 0 && number_at(route.attributes, 4)
            == Some(interface_index) && match number_at(route.attributes, 15) {
            Some(table) => table == 254,
            None => route.table == 254,
        }),
{
}

/// Of the routes in a dump the governed ones are taken, and only those.
pub proof fn governed_routes_are_taken(
    bodies: Seq<Vec<u8>>,
    interface_index: u32,
    count: nat,
    route: RouteView,
)
    requires
        count <= bodies.len(),
    ensures
        governed_routes(bodies, interface_index, count).contains(route) <==> route.governed(
            interface_index,
        ) && exists|i: int| 0 <= i < count && route_of((#[trigger] bodies[i])@) == Some(route),
    decreases count,
{
    if count > 0 {
        governed_routes_are_taken(bodies, interface_index, (count - 1) as nat, route);
        let front = governed_routes(bodies, interface_index, (count - 1) as nat);
        let all = governed_routes(bodies, interface_index, count);
        if front.contains(route) {
            let i = choose|i: int| 0 <= i < front.len() && front[i] == route;
            assert(all[i] == route);
        }
        if route_of(bodies[count - 1]@) == Some(route) && route.governed(interface_index) {
            assert(all.last() == route);
        }
        if all.contains(route) {
            let i = choose|i: int| 0 <= i < all.len() && all[i] == route;
            if i < front.len() {
                assert(front[i] == route);
            }
        }
    }
}

/// Every route that the other list lacks is found, nothing else, and in order.
pub proof fn absent_routes_are_found(
    routes: Seq<CapturedRoute>,
    others: Seq<CapturedRoute>,
    count: nat,
    at: int,
)
    requires
        count <= routes.len() <= usize::MAX,
        0 <= at < count,
    ensures
        positions_absent(routes, others, count).contains(at as usize) == (forall|i: int|
            0 <= i < others.len() ==> (#[trigger] others[i])@ != routes[at]@),
        forall|i: int|
            0 <= i < positions_absent(routes, others, count).len() ==> #[trigger] positions_absent(
                routes,
                others,
                count,
            )[i] < count,
        forall|i: int, j: int|
            0 <= i < j < positions_absent(routes, others, count).len()
                ==> #[trigger] positions_absent(routes, others, count)[i]
                < #[trigger] positions_absent(routes, others, count)[j],
    decreases count,
{
    let front = positions_absent(routes, others, (count - 1) as nat);
    let all = positions_absent(routes, others, count);
    if count > 1 {
        absent_routes_are_found(
            routes,
            others,
            (count - 1) as nat,
            if at < count - 1 {
                at
            } else {
                0
            },
        );
    } else {
        assert(front.len() == 0);
    }
    assert forall|i: int| 0 <= i < all.len() implies #[trigger] all[i] < count by {
        if i < front.len() {
            assert(all[i] == front[i]);
        }
    }
    assert forall|i: int, j: int| 0 <= i < j < all.len() implies #[trigger] all[i]
        < #[trigger] all[j] by {
        assert(all[i] == front[i]);
        if j < front.len() {
            assert(all[j] == front[j]);
        }
    }
    if at < count - 1 && front.contains(at as usize) {
        let k = choose|k: int| 0 <= k < front.len() && front[k] == at as usize;
        assert(all[k] == at as usize);
    }
    if all.contains(at as usize) {
        let k = choose|k: int| 0 <= k < all.len() && all[k] == at as usize;
        if k < front.len() {
            assert(front[k] == at as usize);
        }
    }
    if at == count - 1 && !holds_route(others, routes[at]@) {
        assert(all.last() == at as usize);
    }
    if holds_route(others, routes[at]@) {
        let i = choose|i: int| 0 <= i < others.len() && (#[trigger] others[i])@ == routes[at]@;
        assert(others[i]@ == routes[at]@);
    }
}

/// A message: its length without the padding, its type, its flags, its sequence number, its
/// owner, and from the sixteenth byte on what it carries.
pub proof fn message_holds_what_is_sent(
    message_type: u16,
    flags: u16,
    sequence: u32,
    pid: u32,
    payload: Seq<u8>,
)
    requires
        payload.len() + 16 <= u32::MAX,
    ensures
        ({
            let message = message_bytes(message_type, flags, sequence, pid, payload);
            &&& message.len() % 4 == 0
            &&& payload.len() + 16 <= message.len() < payload.len() + 20
            &&& bytes::number32(message, 0) == payload.len() + 16
            &&& bytes::number16(message, 4) == message_type
            &&& bytes::number16(message, 6) == flags
            &&& bytes::number32(message, 8) == sequence
            &&& bytes::number32(message, 12) == pid
            &&& message.subrange(16, (16 + payload.len()) as int) == payload
        }),
{
    let length = (payload.len() + 16) as nat;
    let message = message_bytes(message_type, flags, sequence, pid, payload);
    let a = bytes::le_bytes(length, 4);
    let b = bytes::le_bytes(message_type as nat, 2);
    let c = bytes::le_bytes(flags as nat, 2);
    let d = bytes::le_bytes(sequence as nat, 4);
    let e = bytes::le_bytes(pid as nat, 4);
    let tail = payload + zeros((aligned(length as int) - length) as nat);
    bytes::byte_ranges();
    bytes::le_bytes_width(length, 4);
    bytes::le_bytes_width(message_type as nat, 2);
    bytes::le_bytes_width(flags as nat, 2);
    bytes::le_bytes_width(sequence as nat, 4);
    bytes::le_bytes_width(pid as nat, 4);
    sizes_are_rounded_up(length as int);
    assert(message =~= Seq::<u8>::empty() + a + (b + c + d + e + tail));
    bytes::field_of_concat(Seq::empty(), length, 4, b + c + d + e + tail);
    assert(message =~= a + b + (c + d + e + tail));
    bytes::field_of_concat(a, message_type as nat, 2, c + d + e + tail);
    assert(message =~= (a + b) + c + (d + e + tail));
    bytes::field_of_concat(a + b, flags as nat, 2, d + e + tail);
    assert(message =~= (a + b + c) + d + (e + tail));
    bytes::field_of_concat(a + b + c, sequence as nat, 4, e + tail);
    assert(message =~= (a + b + c + d) + e + tail);
    bytes::field_of_concat(a + b + c + d, pid as nat, 4, tail);
    bytes::fields_are_little_endian(message, 0);
    bytes::fields_are_little_endian(message, 4);
    bytes::fields_are_little_endian(message, 6);
    bytes::fields_are_little_endian(message, 8);
    bytes::fields_are_little_endian(message, 12);
    assert(message.subrange(16, (16 + payload.len()) as int) =~= payload);
}

/// How the messages in a buffer are taken, one by one. A message that does not fit ends the
/// reading. One of another request or of another socket is passed over, and so is nothing
/// else. The end of a dump (3) and a refusal with the number zero (2) complete the replies;
/// a refusal with another number is told with its sign turned. Anything else is a reply, and
/// the last one unless its second flag says that more follow.
pub proof fn replies_are_read_one_by_one(
    buffer: Seq<u8>,
    at: int,
    sequence: u32,
    pid: u32,
    found: Seq<Seq<u8>>,
)
    requires
        0 <= at <= buffer.len(),
    ensures
        ({
            let length = bytes::number32(buffer, at);
            let kind = bytes::number16(buffer, at + 4);
            let more = bytes::number16(buffer, at + 6) / 2 % 2 == 1;
            let ours = bytes::number32(buffer, at + 8) == sequence && (bytes::number32(
                buffer,
                at + 12,
            ) == pid || bytes::number32(buffer, at + 12) == 0);
            let fits = at + 16 <= buffer.len() && 16 <= length && at + length <= buffer.len();
            let next = at + aligned(length);
            let body = buffer.subrange(at + 16, at + length);
            let word = bytes::number32(buffer, at + 16);
            let replies = replies_from(buffer, at, sequence, pid, found);
            &&& !fits ==> replies == RepliesView::More(found)
            &&& fits && !ours ==> replies == if next <= buffer.len() {
                replies_from(buffer, next, sequence, pid, found)
            } else {
                RepliesView::More(found)
            }
            &&& fits && ours && kind == 3 ==> replies == RepliesView::Complete(found)
            &&& fits && ours && kind == 2 ==> replies == if length < 20 {
                RepliesView::Truncated
            } else if word == 0 {
                RepliesView::Complete(found)
            } else if word < 0x8000_0000 {
                RepliesView::Refused(-word)
            } else {
                RepliesView::Refused(0x1_0000_0000 - word)
            }
            &&& fits && ours && kind != 2 && kind != 3 && !more ==> replies
                == RepliesView::Complete(found.push(body))
            &&& fits && ours && kind != 2 && kind != 3 && more ==> replies == if next
                <= buffer.len() {
                replies_from(buffer, next, sequence, pid, found.push(body))
            } else {
                RepliesView::More(found.push(body))
            }
        }),
{
    let length = bytes::number32(buffer, at);
    if at + 16 <= buffer.len() {
        bytes::fields_are_little_endian(buffer, at);
        bytes::fields_are_little_endian(buffer, at + 4);
        bytes::fields_are_little_endian(buffer, at + 6);
        bytes::fields_are_little_endian(buffer, at + 8);
        bytes::fields_are_little_endian(buffer, at + 12);
        let flags = bytes::number16(buffer, at + 6) as u16;
        assert((flags & 2 == 0) == (flags / 2 % 2 == 0)) by (bit_vector);
        if 20 <= length && at + length <= buffer.len() {
            let body = buffer.subrange(at + 16, at + length);
            bytes::fields_are_little_endian(body, 0);
            bytes::fields_are_little_endian(buffer, at + 16);
            assert(bytes::number32(body, 0) == bytes::number32(buffer, at + 16));
        }
    }
}

/// The request for the route to a peer names its family, the length of its address, and the
/// address as the destination; the request for all routes names only the family.
pub proof fn requests_name_their_subject(first: u8, second: u8, third: u8, fourth: u8, family: u8)
    ensures
        peer_request(
            Address::V4(
                (first * 0x100_0000 + second * 0x1_0000 + third * 0x100 + fourth) as u32,
            ),
        ) == seq![
            2u8, 32, 0, 0, 0, 0, 0, 0, 0, 0, 0, 0, 8, 0, 1, 0, first, second, third, fourth,
        ],
        dump_request(family) == seq![family, 0, 0, 0, 0, 0, 0, 0, 0, 0, 0, 0],
{
    let number = first * 0x100_0000 + second * 0x1_0000 + third * 0x100 + fourth;
    address::bytes_of_an_address_are(first, second, third, fourth);
    let octets = Address::V4(number as u32).octets().take(4);
    reveal_with_fuel(bytes::le_bytes, 3);
    assert(bytes::le_bytes(8, 2) =~= seq![8u8, 0]);
    assert(bytes::le_bytes(1, 2) =~= seq![1u8, 0]);
    assert(octets.len() + 4 == 8);
    assert(peer_request(Address::V4(number as u32)) =~= seq![
        2u8, 32, 0, 0, 0, 0, 0, 0, 0, 0, 0, 0, 8, 0, 1, 0, first, second, third, fourth,
    ]);
    assert(dump_request(family) =~= seq![family, 0, 0, 0, 0, 0, 0, 0, 0, 0, 0, 0]);
}

} // verus!
