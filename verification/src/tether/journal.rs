//! The journal of the route policy: snapshots that outlive the host.
use crate::bytes;
use crate::bytes::{copy_range, has_prefix, push_bytes, push_u32, read_u32};
use crate::crc;
use crate::crc::crc32;
use crate::text;
use vstd::prelude::*;
use vstd::string::*;

verus! {

/// `HPTP`.
pub const POLICY_MAGIC: [u8; 4] = [0x48, 0x50, 0x54, 0x50];

pub const POLICY_VERSION: u32 = 1;

/// Why a snapshot is refused.
#[derive(Clone, Copy, Debug, PartialEq, Eq, Structural)]
pub enum PolicyError {
    Invalid,
    UnsupportedVersion(u32),
    Truncated,
    Checksum,
    TooLarge,
}

impl PolicyError {
    pub open spec fn wording(self, source: Seq<char>) -> Seq<char> {
        match self {
            PolicyError::Invalid => "invalid tether policy snapshot "@ + source,
            PolicyError::UnsupportedVersion(version) =>
                "unsupported tether policy snapshot version "@ + text::decimal(version as nat),
            PolicyError::Truncated => "truncated tether policy snapshot "@ + source,
            PolicyError::Checksum => "tether policy snapshot checksum failed for "@ + source,
            PolicyError::TooLarge => "policy snapshot is too large"@,
        }
    }

    /// What is said of a snapshot from `source`.
    pub fn message(self, source: &str) -> (message: String)
        ensures
            message@ == self.wording(source@),
    {
        match self {
            PolicyError::Invalid => {
                let mut message: String = "invalid tether policy snapshot ".to_owned();
                message.append(source);
                message
            },
            PolicyError::UnsupportedVersion(version) => text::numbered(
                "unsupported tether policy snapshot version ",
                version as u64,
            ),
            PolicyError::Truncated => {
                let mut message: String = "truncated tether policy snapshot ".to_owned();
                message.append(source);
                message
            },
            PolicyError::Checksum => {
                let mut message: String = "tether policy snapshot checksum failed for ".to_owned();
                message.append(source);
                message
            },
            PolicyError::TooLarge => "policy snapshot is too large".to_owned(),
        }
    }
}

/// What precedes the checksum: magic, version, length, payload.
pub open spec fn snapshot_fields(payload: Seq<u8>) -> Seq<u8> {
    POLICY_MAGIC@ + bytes::le_bytes(POLICY_VERSION as nat, 4) + bytes::le_bytes(payload.len(), 4)
        + payload
}

pub open spec fn snapshot_bytes(payload: Seq<u8>) -> Seq<u8> {
    snapshot_fields(payload) + bytes::le_bytes(
        crc::checksum(snapshot_fields(payload)) as nat,
        4,
    )
}

/// The payload of a snapshot.
pub open spec fn payload_of(encoded: Seq<u8>) -> Result<Seq<u8>, PolicyError> {
    let end = encoded.len() - 4;
    if encoded.len() < 16 || encoded.subrange(0, 4) != POLICY_MAGIC@ {
        Err(PolicyError::Invalid)
    } else if bytes::field(encoded, 4, 4) != POLICY_VERSION {
        Err(PolicyError::UnsupportedVersion(bytes::field(encoded, 4, 4) as u32))
    } else if encoded.len() != bytes::field(encoded, 8, 4) + 16 {
        Err(PolicyError::Truncated)
    } else if bytes::field(encoded, end, 4) != crc::checksum(encoded.subrange(0, end)) {
        Err(PolicyError::Checksum)
    } else {
        Ok(encoded.subrange(12, end))
    }
}

/// Frames a payload.
pub fn encode_policy(payload: &[u8]) -> (encoded: Result<Vec<u8>, PolicyError>)
    ensures
        match encoded {
            Ok(encoded) => payload@.len() <= u32::MAX && encoded@ == snapshot_bytes(payload@),
            Err(error) => payload@.len() > u32::MAX && error == PolicyError::TooLarge,
        },
{
    if payload.len() as u64 > u32::MAX as u64 {
        return Err(PolicyError::TooLarge);
    }
    let mut encoded: Vec<u8> = Vec::new();
    push_bytes(&mut encoded, &POLICY_MAGIC);
    push_u32(&mut encoded, POLICY_VERSION);
    push_u32(&mut encoded, payload.len() as u32);
    push_bytes(&mut encoded, payload);
    assert(encoded@ =~= snapshot_fields(payload@));
    let sum: u32 = crc32(encoded.as_slice());
    push_u32(&mut encoded, sum);
    Ok(encoded)
}

/// Reads the payload of a snapshot.
pub fn decode_policy(encoded: &[u8]) -> (payload: Result<Vec<u8>, PolicyError>)
    ensures
        match payload {
            Ok(payload) => payload_of(encoded@) == Ok::<Seq<u8>, PolicyError>(payload@),
            Err(error) => payload_of(encoded@) == Err::<Seq<u8>, PolicyError>(error),
        },
{
    if encoded.len() < 16 || !has_prefix(encoded, &POLICY_MAGIC) {
        return Err(PolicyError::Invalid);
    }
    let version: u32 = read_u32(encoded, 4);
    if version != POLICY_VERSION {
        return Err(PolicyError::UnsupportedVersion(version));
    }
    let length: u32 = read_u32(encoded, 8);
    if encoded.len() as u64 != length as u64 + 16 {
        return Err(PolicyError::Truncated);
    }
    let end: usize = encoded.len() - 4;
    if read_u32(encoded, end) != crc32(&encoded[0..end]) {
        return Err(PolicyError::Checksum);
    }
    Ok(copy_range(encoded, 12, end))
}

/// What was written is read back.
pub proof fn snapshot_round_trip(payload: Seq<u8>)
    requires
        payload.len() <= u32::MAX,
    ensures
        payload_of(snapshot_bytes(payload)) == Ok::<Seq<u8>, PolicyError>(payload),
{
    bytes::byte_ranges();
    let fields = snapshot_fields(payload);
    let encoded = snapshot_bytes(payload);
    let version = bytes::le_bytes(POLICY_VERSION as nat, 4);
    let length = bytes::le_bytes(payload.len(), 4);
    let sum = bytes::le_bytes(crc::checksum(fields) as nat, 4);
    bytes::le_bytes_width(POLICY_VERSION as nat, 4);
    bytes::le_bytes_width(payload.len(), 4);
    bytes::le_bytes_width(crc::checksum(fields) as nat, 4);
    assert(encoded.subrange(0, 4) =~= POLICY_MAGIC@);
    assert(encoded =~= POLICY_MAGIC@ + version + (length + payload + sum));
    bytes::field_of_concat(POLICY_MAGIC@, POLICY_VERSION as nat, 4, length + payload + sum);
    assert(encoded =~= (POLICY_MAGIC@ + version) + length + (payload + sum));
    bytes::field_of_concat(POLICY_MAGIC@ + version, payload.len(), 4, payload + sum);
    assert(encoded =~= fields + sum + Seq::<u8>::empty());
    bytes::field_of_concat(fields, crc::checksum(fields) as nat, 4, Seq::<u8>::empty());
    assert(encoded.subrange(0, encoded.len() - 4) =~= fields);
    assert(encoded.subrange(12, encoded.len() - 4) =~= payload);
}

/// A snapshot with one byte changed is never read.
pub proof fn one_changed_byte_is_rejected(encoded: Seq<u8>, at: int, other: u8)
    requires
        payload_of(encoded) is Ok,
        0 <= at < encoded.len(),
        other != encoded[at],
    ensures
        payload_of(encoded.update(at, other)) is Err,
{
    let changed = encoded.update(at, other);
    let end = encoded.len() - 4;
    let before = encoded.subrange(0, end);
    let after = changed.subrange(0, end);
    let stored = encoded.subrange(end, end + 4);
    let restored = changed.subrange(end, end + 4);
    bytes::byte_ranges();
    bytes::field_bounds(encoded, end, 4);
    bytes::field_bounds(changed, end, 4);
    if at < end {
        assert(after =~= before.update(at, other));
        crc::one_byte_changes_checksum(before, at, other);
        assert(restored =~= stored);
    } else {
        assert(after =~= before);
        assert(restored[at - end] != stored[at - end]);
        bytes::le_encodes_decoding(stored);
        bytes::le_encodes_decoding(restored);
    }
}

pub open spec fn value_name(pid: u32, creation_time: u64, interface_index: u32, family: u16) -> Seq<
    char,
> {
    "tether-route-policy-v1-"@ + text::decimal(pid as nat) + "-"@ + text::decimal(
        creation_time as nat,
    ) + "-"@ + text::decimal(interface_index as nat) + "-"@ + text::decimal(family as nat)
        + ".bin"@
}

/// The name under which a snapshot is kept.
pub fn policy_value_name(pid: u32, creation_time: u64, interface_index: u32, family: u16) -> (name:
    String)
    ensures
        name@ == value_name(pid, creation_time, interface_index, family),
{
    let mut name: String = text::numbered("tether-route-policy-v1-", pid as u64);
    name.append("-");
    text::push_decimal(&mut name, creation_time as u128);
    name.append("-");
    text::push_decimal(&mut name, interface_index as u128);
    name.append("-");
    text::push_decimal(&mut name, family as u128);
    name.append(".bin");
    name
}

/// Whether a name is that of a snapshot.
pub fn is_policy_value(name: &str) -> (is: bool)
    ensures
        is == (text::part_at(name@, "tether-route-policy-v1-"@, 0) && text::part_at(
            name@,
            ".bin"@,
            name@.len() - ".bin"@.len(),
        )),
{
    text::starts_with(name, "tether-route-policy-v1-") && text::ends_with(name, ".bin")
}

/// Every name that is given to a snapshot is recognized.
pub proof fn names_are_recognized(pid: u32, creation_time: u64, interface_index: u32, family: u16)
    ensures
        text::part_at(
            value_name(pid, creation_time, interface_index, family),
            "tether-route-policy-v1-"@,
            0,
        ),
        text::part_at(
            value_name(pid, creation_time, interface_index, family),
            ".bin"@,
            value_name(pid, creation_time, interface_index, family).len() - ".bin"@.len(),
        ),
{
    let name = value_name(pid, creation_time, interface_index, family);
    let prefix = "tether-route-policy-v1-"@;
    let suffix = ".bin"@;
    assert(name.subrange(0, prefix.len() as int) =~= prefix);
    assert(name.subrange(name.len() - suffix.len(), name.len() as int) =~= suffix);
}

/// Where a snapshot is kept, for messages.
pub fn registry_value_source(name: &str) -> (source: String)
    ensures
        source@ == "HKLM\\SOFTWARE\\Holodori\\PhoneTrackpad\\RoutePolicy\\"@ + name@,
{
    let mut source: String = "HKLM\\SOFTWARE\\Holodori\\PhoneTrackpad\\RoutePolicy\\".to_owned();
    source.append(name);
    source
}

/// A snapshot is read exactly where it begins with `HPTP` and version one, states the length
/// of what it carries behind sixteen bytes of frame, and ends with the checksum of all before;
/// what it carries stands from the twelfth byte on.
pub proof fn payload_is_what_the_snapshot_holds(encoded: Seq<u8>, payload: Seq<u8>)
    ensures
        payload_of(encoded) == Ok::<Seq<u8>, PolicyError>(payload) <==> {
            &&& encoded.len() == payload.len() + 16
            &&& encoded[0] == 0x48 && encoded[1] == 0x50 && encoded[2] == 0x54 && encoded[3] == 0x50
            &&& bytes::number32(encoded, 4) == 1
            &&& bytes::number32(encoded, 8) == payload.len()
            &&& bytes::number32(encoded, encoded.len() - 4) == crc::checksum(
                encoded.take(encoded.len() - 4),
            )
            &&& forall|i: int| 0 <= i < payload.len() ==> encoded[12 + i] == #[trigger] payload[i]
        },
{
    if encoded.len() >= 16 {
        let end = encoded.len() - 4;
        let mark = encoded.subrange(0, 4);
        bytes::fields_are_little_endian(encoded, 4);
        bytes::fields_are_little_endian(encoded, 8);
        bytes::fields_are_little_endian(encoded, end);
        assert(encoded.subrange(0, end) =~= encoded.take(end));
        assert(mark == POLICY_MAGIC@ <==> mark[0] == 0x48 && mark[1] == 0x50 && mark[2] == 0x54
            && mark[3] == 0x50) by {
            if mark[0] == 0x48 && mark[1] == 0x50 && mark[2] == 0x54 && mark[3] == 0x50 {
                assert(mark =~= POLICY_MAGIC@);
            }
        }
        let read = encoded.subrange(12, end);
        if encoded.len() == payload.len() + 16 && forall|i: int|
            0 <= i < payload.len() ==> encoded[12 + i] == #[trigger] payload[i] {
            assert(read =~= payload);
        }
        if read == payload {
            assert forall|i: int| 0 <= i < payload.len() implies encoded[12 + i]
                == #[trigger] payload[i] by {
                assert(read[i] == encoded[12 + i]);
            }
        }
    }
}

proof fn numbers_end_at_the_dash(a: nat, b: nat, after: Seq<char>, behind: Seq<char>)
    requires
        text::decimal(a) + seq!['-'] + after == text::decimal(b) + seq!['-'] + behind,
    ensures
        a == b,
        after == behind,
{
    let here = text::decimal(a);
    let there = text::decimal(b);
    text::decimal_is_read_back(a, a + b);
    text::decimal_is_read_back(b, a + b);
    parts_end_at_the_dash(here, there, after, behind);
}

proof fn parts_end_at_the_dash(
    here: Seq<char>,
    there: Seq<char>,
    after: Seq<char>,
    behind: Seq<char>,
)
    requires
        here + seq!['-'] + after == there + seq!['-'] + behind,
        forall|i: int| 0 <= i < here.len() ==> text::is_digit(#[trigger] here[i]),
        forall|i: int| 0 <= i < there.len() ==> text::is_digit(#[trigger] there[i]),
    ensures
        here == there,
        after == behind,
{
    let whole = here + seq!['-'] + after;
    assert(whole == there + seq!['-'] + behind);
    let n = here.len() as int;
    let m = there.len() as int;
    assert(whole[n] == '-');
    assert(whole[m] == '-');
    if n < m {
        assert(whole[n] == there[n]);
        assert(text::is_digit(there[n]));
    }
    if m < n {
        assert(whole[m] == here[m]);
        assert(text::is_digit(here[m]));
    }
    assert(here =~= whole.take(n));
    assert(there =~= whole.take(m));
    assert(after =~= whole.skip(n + 1));
    assert(behind =~= whole.skip(m + 1));
}

/// The numbers of a name behind its front.
spec fn numbered_part(numbers: Seq<nat>) -> Seq<char> {
    text::decimal(numbers[0]) + seq!['-'] + (text::decimal(numbers[1]) + seq!['-'] + (text::decimal(
        numbers[2],
    ) + seq!['-'] + (text::decimal(numbers[3]) + ".bin"@)))
}

proof fn name_is_front_and_numbers(pid: u32, creation_time: u64, interface_index: u32, family: u16)
    ensures
        value_name(pid, creation_time, interface_index, family) == "tether-route-policy-v1-"@
            + numbered_part(
            seq![pid as nat, creation_time as nat, interface_index as nat, family as nat],
        ),
{
    reveal_strlit("-");
    let dash = seq!['-'];
    assert("-"@ =~= dash);
    let front = "tether-route-policy-v1-"@;
    let end = ".bin"@;
    let a = text::decimal(pid as nat);
    let b = text::decimal(creation_time as nat);
    let c = text::decimal(interface_index as nat);
    let d = text::decimal(family as nat);
    assert(front + a + dash + b + dash + c + dash + d + end =~= front + (a + dash + (b + dash + (c
        + dash + (d + end)))));
}

/// Snapshots of different processes, interfaces or families have different names.
pub proof fn names_tell_snapshots_apart(
    pid: u32,
    creation_time: u64,
    interface_index: u32,
    family: u16,
    other_pid: u32,
    other_time: u64,
    other_index: u32,
    other_family: u16,
)
    requires
        value_name(pid, creation_time, interface_index, family) == value_name(
            other_pid,
            other_time,
            other_index,
            other_family,
        ),
    ensures
        pid == other_pid,
        creation_time == other_time,
        interface_index == other_index,
        family == other_family,
{
    let front = "tether-route-policy-v1-"@;
    let name = value_name(pid, creation_time, interface_index, family);
    let mine = numbered_part(
        seq![pid as nat, creation_time as nat, interface_index as nat, family as nat],
    );
    let theirs = numbered_part(
        seq![other_pid as nat, other_time as nat, other_index as nat, other_family as nat],
    );
    name_is_front_and_numbers(pid, creation_time, interface_index, family);
    name_is_front_and_numbers(other_pid, other_time, other_index, other_family);
    assert(mine =~= name.skip(front.len() as int));
    assert(theirs =~= name.skip(front.len() as int));
    numbers_are_told_apart(
        seq![pid as nat, creation_time as nat, interface_index as nat, family as nat],
        seq![other_pid as nat, other_time as nat, other_index as nat, other_family as nat],
    );
}

proof fn numbers_are_told_apart(mine: Seq<nat>, theirs: Seq<nat>)
    requires
        numbered_part(mine) == numbered_part(theirs),
    ensures
        mine[0] == theirs[0],
        mine[1] == theirs[1],
        mine[2] == theirs[2],
        mine[3] == theirs[3],
{
    let end = ".bin"@;
    let my_last = text::decimal(mine[3]) + end;
    let their_last = text::decimal(theirs[3]) + end;
    let my_third = text::decimal(mine[2]) + seq!['-'] + my_last;
    let their_third = text::decimal(theirs[2]) + seq!['-'] + their_last;
    let my_second = text::decimal(mine[1]) + seq!['-'] + my_third;
    let their_second = text::decimal(theirs[1]) + seq!['-'] + their_third;
    numbers_end_at_the_dash(mine[0], theirs[0], my_second, their_second);
    numbers_end_at_the_dash(mine[1], theirs[1], my_third, their_third);
    numbers_end_at_the_dash(mine[2], theirs[2], my_last, their_last);
    let length = my_last.len() - end.len();
    assert(text::decimal(mine[3]) =~= my_last.take(length));
    assert(text::decimal(theirs[3]) =~= my_last.take(length));
    text::decimal_is_read_back(mine[3], mine[3] + theirs[3]);
    text::decimal_is_read_back(theirs[3], mine[3] + theirs[3]);
}

} // verus!
