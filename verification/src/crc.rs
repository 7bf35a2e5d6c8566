//! The reflected CRC-32 with polynomial `0xedb88320`.
use vstd::prelude::*;

verus! {

/// One bit of the division.
pub open spec fn crc_shift(value: u32) -> u32 {
    if value & 1 != 0 {
        (value >> 1) ^ 0xedb8_8320
    } else {
        value >> 1
    }
}

pub open spec fn crc_shifts(value: u32, bits: nat) -> u32
    decreases bits,
{
    if bits == 0 {
        value
    } else {
        crc_shift(crc_shifts(value, (bits - 1) as nat))
    }
}

/// The register after `bytes`, from `value` on.
pub open spec fn crc_register(value: u32, bytes: Seq<u8>) -> u32
    decreases bytes.len(),
{
    if bytes.len() == 0 {
        value
    } else {
        crc_shifts(crc_register(value, bytes.drop_last()) ^ (bytes.last() as u32), 8)
    }
}

/// The checksum of `bytes`.
pub open spec fn checksum(bytes: Seq<u8>) -> u32 {
    !crc_register(0xffff_ffff, bytes)
}

pub fn crc32(bytes: &[u8]) -> (sum: u32)
    ensures
        sum == checksum(bytes@),
{
    let mut value: u32 = 0xffff_ffff;
    let mut i: usize = 0;
    while i < bytes.len()
        invariant
            i <= bytes@.len(),
            value == crc_register(0xffff_ffff, bytes@.subrange(0, i as int)),
        decreases bytes@.len() - i,
    {
        let ghost before = value;
        value = value ^ (bytes[i] as u32);
        let ghost mixed = value;
        let mut bit: u32 = 0;
        while bit < 8
            invariant
                bit <= 8,
                value == crc_shifts(mixed, bit as nat),
            decreases 8 - bit,
        {
            value = if value & 1 != 0 {
                (value >> 1) ^ 0xedb8_8320
            } else {
                value >> 1
            };
            bit = bit + 1;
        }
        i = i + 1;
        assert(bytes@.subrange(0, i as int).drop_last() =~= bytes@.subrange(0, i - 1));
    }
    assert(bytes@.subrange(0, i as int) =~= bytes@);
    !value
}

proof fn crc_shift_injective(a: u32, b: u32)
    ensures
        crc_shift(a) == crc_shift(b) ==> a == b,
{
    assert((if a & 1 != 0 {
        (a >> 1) ^ 0xedb8_8320u32
    } else {
        a >> 1
    }) == (if b & 1 != 0 {
        (b >> 1) ^ 0xedb8_8320u32
    } else {
        b >> 1
    }) ==> a == b) by (bit_vector);
}

proof fn crc_shifts_injective(a: u32, b: u32, bits: nat)
    ensures
        crc_shifts(a, bits) == crc_shifts(b, bits) ==> a == b,
    decreases bits,
{
    if bits > 0 {
        crc_shift_injective(crc_shifts(a, (bits - 1) as nat), crc_shifts(b, (bits - 1) as nat));
        crc_shifts_injective(a, b, (bits - 1) as nat);
    }
}

proof fn crc_register_concat(value: u32, front: Seq<u8>, back: Seq<u8>)
    ensures
        crc_register(value, front + back) == crc_register(crc_register(value, front), back),
    decreases back.len(),
{
    if back.len() == 0 {
        assert(front + back =~= front);
    } else {
        assert((front + back).drop_last() =~= front + back.drop_last());
        crc_register_concat(value, front, back.drop_last());
    }
}

proof fn crc_register_injective(a: u32, b: u32, bytes: Seq<u8>)
    ensures
        crc_register(a, bytes) == crc_register(b, bytes) ==> a == b,
    decreases bytes.len(),
{
    if bytes.len() > 0 {
        let last = bytes.last() as u32;
        let c = crc_register(a, bytes.drop_last());
        let d = crc_register(b, bytes.drop_last());
        crc_register_injective(a, b, bytes.drop_last());
        crc_shifts_injective(c ^ last, d ^ last, 8);
        assert(c ^ last == d ^ last ==> c == d) by (bit_vector);
    }
}

/// A change of one byte always changes the checksum.
pub proof fn one_byte_changes_checksum(bytes: Seq<u8>, at: int, other: u8)
    requires
        0 <= at < bytes.len(),
        other != bytes[at],
    ensures
        checksum(bytes.update(at, other)) != checksum(bytes),
{
    let front = bytes.subrange(0, at);
    let back = bytes.subrange(at + 1, bytes.len() as int);
    let this = bytes[at];
    let changed = bytes.update(at, other);
    let register = crc_register(0xffff_ffff, front);
    assert(bytes =~= (front + seq![this]) + back);
    assert(changed =~= (front + seq![other]) + back);
    crc_register_concat(0xffff_ffff, front + seq![this], back);
    crc_register_concat(0xffff_ffff, front + seq![other], back);
    assert((front + seq![this]).drop_last() =~= front);
    assert((front + seq![other]).drop_last() =~= front);
    let a = crc_register(0xffff_ffff, front + seq![this]);
    let b = crc_register(0xffff_ffff, front + seq![other]);
    let x = this as u32;
    let y = other as u32;
    assert(register ^ x == register ^ y ==> x == y) by (bit_vector);
    crc_shifts_injective(register ^ x, register ^ y, 8);
    crc_register_injective(a, b, back);
    let left = crc_register(0xffff_ffff, bytes);
    let right = crc_register(0xffff_ffff, changed);
    assert(!left == !right ==> left == right) by (bit_vector);
}

} // verus!
