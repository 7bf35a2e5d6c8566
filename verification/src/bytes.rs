//! Little-endian fields in byte strings.
use vstd::prelude::*;

verus! {

/// The number that `s` spells in little-endian order.
pub open spec fn le(s: Seq<u8>) -> nat
    decreases s.len(),
{
    if s.len() == 0 {
        0
    } else {
        s[0] as nat + 256 * le(s.subrange(1, s.len() as int))
    }
}

/// The `width` low bytes of `n`, least significant first.
pub open spec fn le_bytes(n: nat, width: nat) -> Seq<u8>
    decreases width,
{
    if width == 0 {
        seq![]
    } else {
        seq![(n % 256) as u8] + le_bytes(n / 256, (width - 1) as nat)
    }
}

/// 256 to the power `width`: how many numbers `width` bytes can hold.
pub open spec fn byte_range(width: nat) -> nat
    decreases width,
{
    if width == 0 {
        1
    } else {
        256 * byte_range((width - 1) as nat)
    }
}

/// The number in the `width` bytes of `bytes` that start at `at`.
pub open spec fn field(bytes: Seq<u8>, at: int, width: int) -> nat {
    le(bytes.subrange(at, at + width))
}

/// The two's complement reading of a 16-bit number.
pub open spec fn signed16(value: nat) -> int {
    if value < 0x8000 {
        value as int
    } else {
        value - 0x1_0000
    }
}

/// A little-endian encoding has exactly the width that was asked for.
pub proof fn le_bytes_width(n: nat, width: nat)
    ensures
        le_bytes(n, width).len() == width,
    decreases width,
{
    if width > 0 {
        le_bytes_width(n / 256, (width - 1) as nat);
    }
}

/// Decoding the encoding of a number that fits gives the number back.
pub proof fn le_decodes_encoding(n: nat, width: nat)
    requires
        n < byte_range(width),
    ensures
        le(le_bytes(n, width)) == n,
    decreases width,
{
    if width > 0 {
        let rest = le_bytes(n / 256, (width - 1) as nat);
        let all = le_bytes(n, width);
        le_decodes_encoding(n / 256, (width - 1) as nat);
        le_bytes_width(n, width);
        assert(all.subrange(1, all.len() as int) =~= rest);
    }
}

/// Encoding the number that a byte string spells gives the byte string back.
pub proof fn le_encodes_decoding(s: Seq<u8>)
    ensures
        le_bytes(le(s), s.len()) == s,
        le(s) < byte_range(s.len()),
    decreases s.len(),
{
    if s.len() > 0 {
        let rest = s.subrange(1, s.len() as int);
        le_encodes_decoding(rest);
        assert(le_bytes(le(s), s.len()) =~= s);
    }
}

/// A field that was written is read back, wherever in a message it stands.
pub proof fn field_of_concat(before: Seq<u8>, n: nat, width: nat, after: Seq<u8>)
    requires
        n < byte_range(width),
    ensures
        field(before + le_bytes(n, width) + after, before.len() as int, width as int) == n,
{
    le_bytes_width(n, width);
    let all = before + le_bytes(n, width) + after;
    assert(all.subrange(before.len() as int, (before.len() + width) as int) =~= le_bytes(n, width));
    le_decodes_encoding(n, width);
}

/// The ranges of the widths that the wire formats use.
pub proof fn byte_ranges()
    ensures
        byte_range(1) == 0x100,
        byte_range(2) == 0x1_0000,
        byte_range(4) == 0x1_0000_0000,
        byte_range(8) == 0x1_0000_0000_0000_0000,
{
    reveal_with_fuel(byte_range, 9);
}

/// The two bytes at `at` as a number: the first counts ones, the second counts 256s.
pub open spec fn number16(bytes: Seq<u8>, at: int) -> int {
    bytes[at] + 0x100 * bytes[at + 1]
}

/// The four bytes at `at` as a number.
pub open spec fn number32(bytes: Seq<u8>, at: int) -> int {
    number16(bytes, at) + 0x1_0000 * number16(bytes, at + 2)
}

/// The eight bytes at `at` as a number.
pub open spec fn number64(bytes: Seq<u8>, at: int) -> int {
    number32(bytes, at) + 0x1_0000_0000 * number32(bytes, at + 4)
}

/// A field is the number that its bytes spell with the least significant one first.
pub proof fn fields_are_little_endian(bytes: Seq<u8>, at: int)
    requires
        0 <= at,
    ensures
        at + 2 <= bytes.len() ==> field(bytes, at, 2) == number16(bytes, at),
        at + 4 <= bytes.len() ==> field(bytes, at, 4) == number32(bytes, at),
        at + 8 <= bytes.len() ==> field(bytes, at, 8) == number64(bytes, at),
{
    reveal_with_fuel(le, 9);
}

/// A number below 0x8000 reads as itself, one from there on as 0x10000 less.
pub proof fn signed_reading(value: nat)
    requires
        value < 0x1_0000,
    ensures
        -0x8000 <= signed16(value) < 0x8000,
        signed16(value) == value || signed16(value) == value - 0x1_0000,
{
}

/// A field of one of the usual widths fits the integer type of that width.
pub proof fn field_bounds(bytes: Seq<u8>, at: int, width: nat)
    requires
        0 <= at,
        at + width <= bytes.len(),
    ensures
        field(bytes, at, width as int) < byte_range(width),
        le_bytes(field(bytes, at, width as int), width) == bytes.subrange(at, at + width),
{
    le_encodes_decoding(bytes.subrange(at, at + width));
}

pub fn read_u16(bytes: &[u8], offset: usize) -> (value: u16)
    requires
        offset + 2 <= bytes@.len(),
    ensures
        value == field(bytes@, offset as int, 2),
{
    proof {
        reveal_with_fuel(le, 3);
    }
    bytes[offset] as u16 + 256 * bytes[offset + 1] as u16
}

pub fn read_i16(bytes: &[u8], offset: usize) -> (value: i16)
    requires
        offset + 2 <= bytes@.len(),
    ensures
        value == signed16(field(bytes@, offset as int, 2)),
{
    let raw: u16 = read_u16(bytes, offset);
    if raw < 0x8000 {
        raw as i16
    } else {
        (raw as i32 - 0x1_0000) as i16
    }
}

pub fn read_u32(bytes: &[u8], offset: usize) -> (value: u32)
    requires
        offset + 4 <= bytes@.len(),
    ensures
        value == field(bytes@, offset as int, 4),
{
    proof {
        reveal_with_fuel(le, 5);
    }
    bytes[offset] as u32 + 256 * (bytes[offset + 1] as u32 + 256 * (bytes[offset + 2] as u32 + 256 * (
    bytes[offset + 3] as u32)))
}

pub fn read_u64(bytes: &[u8], offset: usize) -> (value: u64)
    requires
        offset + 8 <= bytes@.len(),
    ensures
        value == field(bytes@, offset as int, 8),
{
    proof {
        reveal_with_fuel(le, 9);
    }
    bytes[offset] as u64 + 256 * (bytes[offset + 1] as u64 + 256 * (bytes[offset + 2] as u64 + 256 * (
    bytes[offset + 3] as u64 + 256 * (bytes[offset + 4] as u64 + 256 * (bytes[offset + 5] as u64
        + 256 * (bytes[offset + 6] as u64 + 256 * (bytes[offset + 7] as u64)))))))
}

pub fn push_u16(out: &mut Vec<u8>, value: u16)
    ensures
        final(out)@ == old(out)@ + le_bytes(value as nat, 2),
{
    proof {
        reveal_with_fuel(le_bytes, 3);
    }
    out.push((value % 256) as u8);
    out.push((value / 256) as u8);
}

pub fn push_u32(out: &mut Vec<u8>, value: u32)
    ensures
        final(out)@ == old(out)@ + le_bytes(value as nat, 4),
{
    proof {
        reveal_with_fuel(le_bytes, 5);
    }
    out.push((value % 256) as u8);
    out.push((value / 256 % 256) as u8);
    out.push((value / 256 / 256 % 256) as u8);
    out.push((value / 256 / 256 / 256 % 256) as u8);
}

pub fn push_u64(out: &mut Vec<u8>, value: u64)
    ensures
        final(out)@ == old(out)@ + le_bytes(value as nat, 8),
{
    proof {
        reveal_with_fuel(le_bytes, 9);
    }
    let mut rest: u64 = value;
    out.push((rest % 256) as u8);
    rest = rest / 256;
    out.push((rest % 256) as u8);
    rest = rest / 256;
    out.push((rest % 256) as u8);
    rest = rest / 256;
    out.push((rest % 256) as u8);
    rest = rest / 256;
    out.push((rest % 256) as u8);
    rest = rest / 256;
    out.push((rest % 256) as u8);
    rest = rest / 256;
    out.push((rest % 256) as u8);
    rest = rest / 256;
    out.push((rest % 256) as u8);
}

pub fn push_bytes(out: &mut Vec<u8>, part: &[u8])
    ensures
        final(out)@ == old(out)@ + part@,
{
    let mut i: usize = 0;
    while i < part.len()
        invariant
            i <= part@.len(),
            out@ == old(out)@ + part@.subrange(0, i as int),
        decreases part@.len() - i,
    {
        out.push(part[i]);
        i = i + 1;
        assert(part@.subrange(0, i as int) =~= part@.subrange(0, i - 1).push(part@[i - 1]));
    }
    assert(part@.subrange(0, i as int) =~= part@);
}

/// The part of `bytes` from `from` up to `to`, copied.
pub fn copy_range(bytes: &[u8], from: usize, to: usize) -> (part: Vec<u8>)
    requires
        from <= to <= bytes@.len(),
    ensures
        part@ == bytes@.subrange(from as int, to as int),
{
    let mut part: Vec<u8> = Vec::new();
    push_bytes(&mut part, &bytes[from..to]);
    assert(part@ =~= bytes@.subrange(from as int, to as int));
    part
}

/// Whether `bytes` holds exactly the bytes of `part`.
pub fn same_bytes(bytes: &[u8], part: &[u8]) -> (same: bool)
    ensures
        same == (bytes@ == part@),
{
    if bytes.len() != part.len() {
        return false;
    }
    let mut i: usize = 0;
    while i < bytes.len()
        invariant
            i <= bytes@.len(),
            bytes@.len() == part@.len(),
            forall|j: int| 0 <= j < i ==> bytes@[j] == part@[j],
        decreases bytes@.len() - i,
    {
        if bytes[i] != part[i] {
            return false;
        }
        i = i + 1;
    }
    assert(bytes@ =~= part@);
    true
}

/// Whether `bytes` starts with `prefix`.
pub fn has_prefix(bytes: &[u8], prefix: &[u8]) -> (has: bool)
    ensures
        has == (prefix@.len() <= bytes@.len() && bytes@.subrange(0, prefix@.len() as int)
            == prefix@),
{
    prefix.len() <= bytes.len() && same_bytes(&bytes[0..prefix.len()], prefix)
}

pub fn to_array<const N: usize>(bytes: &[u8]) -> (array: [u8; N])
    requires
        bytes@.len() == N,
    ensures
        array@ == bytes@,
{
    let mut array: [u8; N] = [0u8; N];
    let mut i: usize = 0;
    while i < N
        invariant
            i <= N,
            bytes@.len() == N,
            array@.len() == N,
            forall|j: int| 0 <= j < i ==> array@[j] == bytes@[j],
        decreases N - i,
    {
        array[i] = bytes[i];
        i = i + 1;
    }
    assert(array@ =~= bytes@);
    array
}

/// Writes `part` over the bytes of `out` that start at `at`.
pub fn write_at(out: &mut [u8], at: usize, part: &[u8])
    requires
        at + part@.len() <= old(out)@.len(),
    ensures
        final(out)@ == old(out)@.subrange(0, at as int) + part@ + old(out)@.subrange(
            at + part@.len(),
            old(out)@.len() as int,
        ),
{
    let size: usize = out.len();
    let mut i: usize = 0;
    while i < part.len()
        invariant
            i <= part@.len(),
            at + part@.len() <= size,
            size == old(out)@.len(),
            out@.len() == size,
            forall|j: int|
                0 <= j < out@.len() ==> #[trigger] out@[j] == if at <= j < at + i {
                    part@[j - at]
                } else {
                    old(out)@[j]
                },
        decreases part@.len() - i,
    {
        out[at + i] = part[i];
        i = i + 1;
    }
    assert(out@ =~= old(out)@.subrange(0, at as int) + part@ + old(out)@.subrange(
        at + part@.len(),
        old(out)@.len() as int,
    ));
}

} // verus!
