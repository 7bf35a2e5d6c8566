//! Addresses and prefixes of tethers.
use crate::bytes;
use vstd::arithmetic::power2::*;
use vstd::bits::*;
use vstd::prelude::*;

verus! {

/// An address as the number that its bytes spell in network order.
#[derive(Clone, Copy, Debug, PartialEq, Eq, Structural)]
pub enum Address {
    V4(u32),
    V6(u128),
}

pub const V6_BIT_121: u128 = 0x200_0000_0000_0000_0000_0000_0000_0000;

pub const V6_BIT_118: u128 = 0x40_0000_0000_0000_0000_0000_0000_0000;

/// `n` in `width` bytes, most significant first, with zeros behind them up to sixteen.
pub open spec fn padded(n: nat, width: nat) -> Seq<u8> {
    bytes::le_bytes(n, width).reverse() + Seq::new((16 - width) as nat, |i: int| 0u8)
}

fn padded_bytes(n: u128, width: usize) -> (octets: [u8; 16])
    requires
        width <= 16,
    ensures
        octets@ == padded(n as nat, width as nat),
{
    let mut octets: [u8; 16] = [0; 16];
    let mut rest: u128 = n;
    let mut done: usize = 0;
    let ghost all = bytes::le_bytes(n as nat, width as nat);
    proof {
        bytes::le_bytes_width(n as nat, width as nat);
        assert(all.skip(0) =~= all);
    }
    while done < width
        invariant
            done <= width <= 16,
            all == bytes::le_bytes(n as nat, width as nat),
            all.len() == width,
            all.skip(done as int) == bytes::le_bytes(rest as nat, (width - done) as nat),
            forall|i: int| 0 <= i < done ==> #[trigger] octets@[width - 1 - i] == all[i],
            forall|i: int| width <= i < 16 ==> #[trigger] octets@[i] == 0,
        decreases width - done,
    {
        let ghost before = octets@;
        let byte: u8 = (rest % 256) as u8;
        assert(byte == all[done as int]) by {
            assert(all.skip(done as int)[0] == all[done as int]);
        }
        octets[width - 1 - done] = byte;
        assert(all.skip(done + 1) =~= all.skip(done as int).skip(1));
        assert(bytes::le_bytes(rest as nat, (width - done) as nat).skip(1) =~= bytes::le_bytes(
            rest as nat / 256,
            (width - done - 1) as nat,
        ));
        rest = rest / 256;
        done = done + 1;
        assert forall|i: int| 0 <= i < done implies #[trigger] octets@[width - 1 - i]
            == all[i] by {
            if i < done - 1 {
                assert(before[width - 1 - i] == all[i]);
            }
        }
    }
    assert(octets@ =~= padded(n as nat, width as nat)) by {
        assert forall|i: int| 0 <= i < width implies octets@[i] == all.reverse()[i] by {
            assert(octets@[width - 1 - (width - 1 - i)] == all[width - 1 - i]);
        }
    }
    octets
}

impl Address {
    /// The bytes of the address in network order, with zeros behind the four of IPv4.
    pub open spec fn octets(self) -> Seq<u8> {
        match self {
            Address::V4(address) => padded(address as nat, 4),
            Address::V6(address) => padded(address as nat, 16),
        }
    }

    pub fn padded_octets(&self) -> (octets: [u8; 16])
        ensures
            octets@ == self.octets(),
    {
        match *self {
            Address::V4(address) => padded_bytes(address as u128, 4),
            Address::V6(address) => padded_bytes(address, 16),
        }
    }

    pub open spec fn unspecified(self) -> bool {
        match self {
            Address::V4(address) => address == 0,
            Address::V6(address) => address == 0,
        }
    }

    pub open spec fn loopback(self) -> bool {
        match self {
            Address::V4(address) => address / 0x100_0000 == 127,
            Address::V6(address) => address == 1,
        }
    }

    /// Whether the first ten bits are those of `fe80::/10`.
    pub open spec fn link_local_v6(self) -> bool {
        match self {
            Address::V4(_) => false,
            Address::V6(address) => address / V6_BIT_118 == 0x3fa,
        }
    }

    /// How long the prefix of the local block is that holds the address: `10/8`,
    /// `172.16/12`, `192.168/16`, `169.254/16`, `fc00::/7`, `fe80::/10`.
    pub open spec fn local_block(self) -> Option<u8> {
        match self {
            Address::V4(address) => if address / 0x100_0000 == 10 {
                Some(8)
            } else if address / 0x10_0000 == 172 * 16 + 1 {
                Some(12)
            } else if address / 0x1_0000 == 192 * 256 + 168 || address / 0x1_0000 == 169 * 256
                + 254 {
                Some(16)
            } else {
                None
            },
            Address::V6(address) => if address / V6_BIT_121 == 0x7e {
                Some(7)
            } else if address / V6_BIT_118 == 0x3fa {
                Some(10)
            } else {
                None
            },
        }
    }

    pub fn is_unspecified(&self) -> (yes: bool)
        ensures
            yes == self.unspecified(),
    {
        match *self {
            Address::V4(address) => address == 0,
            Address::V6(address) => address == 0,
        }
    }

    pub fn is_loopback(&self) -> (yes: bool)
        ensures
            yes == self.loopback(),
    {
        match *self {
            Address::V4(address) => address / 0x100_0000 == 127,
            Address::V6(address) => address == 1,
        }
    }

    pub fn is_unicast_link_local(&self) -> (yes: bool)
        ensures
            yes == self.link_local_v6(),
    {
        match *self {
            Address::V4(_) => false,
            Address::V6(address) => address / V6_BIT_118 == 0x3fa,
        }
    }

    fn block(&self) -> (length: Option<u8>)
        ensures
            length == self.local_block(),
    {
        match *self {
            Address::V4(address) => if address / 0x100_0000 == 10 {
                Some(8)
            } else if address / 0x10_0000 == 172 * 16 + 1 {
                Some(12)
            } else if address / 0x1_0000 == 192 * 256 + 168 || address / 0x1_0000 == 169 * 256
                + 254 {
                Some(16)
            } else {
                None
            },
            Address::V6(address) => if address / V6_BIT_121 == 0x7e {
                Some(7)
            } else if address / V6_BIT_118 == 0x3fa {
                Some(10)
            } else {
                None
            },
        }
    }
}

/// Whether two addresses of one family agree in their first `prefix_length` bits, at
/// least one.
pub open spec fn agree(candidate: Address, local: Address, prefix_length: u8) -> bool {
    match (candidate, local) {
        (Address::V4(candidate), Address::V4(local)) => 1 <= prefix_length <= 32 && candidate >> (
        (32 - prefix_length) as u32) == local >> ((32 - prefix_length) as u32),
        (Address::V6(candidate), Address::V6(local)) => 1 <= prefix_length <= 128 && candidate >> (
        (128 - prefix_length) as u128) == local >> ((128 - prefix_length) as u128),
        _ => false,
    }
}

pub fn same_prefix(candidate: Address, local: Address, prefix_length: u8) -> (same: bool)
    ensures
        same == agree(candidate, local, prefix_length),
{
    match (candidate, local) {
        (Address::V4(candidate), Address::V4(local)) => {
            if prefix_length < 1 || prefix_length > 32 {
                return false;
            }
            let rest: u32 = 32 - prefix_length as u32;
            candidate >> rest == local >> rest
        },
        (Address::V6(candidate), Address::V6(local)) => {
            if prefix_length < 1 || prefix_length > 128 {
                return false;
            }
            let rest: u128 = 128 - prefix_length as u128;
            candidate >> rest == local >> rest
        },
        _ => false,
    }
}

/// The longest prefix that a tether can have: one that leaves room for two hosts.
pub open spec fn longest_prefix(address: Address) -> u8 {
    match address {
        Address::V4(_) => 30,
        Address::V6(_) => 127,
    }
}

/// Whether a prefix is one that a tether can have: within a local block.
pub open spec fn tether_prefix(address: Address, prefix_length: u8) -> bool {
    address.local_block() matches Some(block) && block <= prefix_length <= longest_prefix(address)
}

pub fn valid_tether_prefix(address: Address, prefix_length: u8) -> (valid: bool)
    ensures
        valid == tether_prefix(address, prefix_length),
{
    let longest: u8 = match address {
        Address::V4(_) => 30,
        Address::V6(_) => 127,
    };
    match address.block() {
        Some(block) => block <= prefix_length && prefix_length <= longest,
        None => false,
    }
}

/// An address of an adapter that counts as a prefix of a tether.
pub open spec fn usable(address: Address, prefix_length: u8) -> bool {
    !address.unspecified() && !address.loopback() && tether_prefix(address, prefix_length)
}

pub fn usable_prefix(address: Address, prefix_length: u8) -> (yes: bool)
    ensures
        yes == usable(address, prefix_length),
{
    !address.is_unspecified() && !address.is_loopback() && valid_tether_prefix(
        address,
        prefix_length,
    )
}

/// The mask whose first `length` bits are set.
pub open spec fn mask32(length: int) -> u32 {
    if length == 0 {
        0
    } else {
        u32::MAX << ((32 - length) as u32)
    }
}

pub open spec fn mask128(length: int) -> u128 {
    if length == 0 {
        0
    } else {
        u128::MAX << ((128 - length) as u128)
    }
}

/// Whether a mask is that of a prefix that a tether can have, and the peer is within it.
pub open spec fn tether_mask(local: Address, peer: Address, netmask: Address) -> bool {
    match (local, peer, netmask) {
        (Address::V4(here), Address::V4(there), Address::V4(mask)) => (exists|length: u8|
            tether_prefix(local, length) && mask == #[trigger] mask32(length as int)) && there
            & mask == here & mask,
        (Address::V6(here), Address::V6(there), Address::V6(mask)) => (exists|length: u8|
            tether_prefix(local, length) && mask == #[trigger] mask128(length as int)) && there
            & mask == here & mask,
        _ => false,
    }
}

/// Whether the interface with the address `local` and a mask reaches `peer` as a tether
/// does.
pub fn binding_prefix(local: Address, peer: Address, netmask: Address) -> (valid: bool)
    ensures
        valid == tether_mask(local, peer, netmask),
{
    let block: u8 = match local.block() {
        Some(block) => block,
        None => {
            return false;
        },
    };
    match (local, peer, netmask) {
        (Address::V4(here), Address::V4(there), Address::V4(mask)) => {
            let mut length: u8 = block;
            while length <= 30
                invariant
                    local == Address::V4(here),
                    peer == Address::V4(there),
                    netmask == Address::V4(mask),
                    local.local_block() == Some(block),
                    1 <= block <= length <= 31,
                    forall|l: u8| block <= l < length ==> mask != #[trigger] mask32(l as int),
                decreases 31 - length,
            {
                if mask == u32::MAX << (32 - length as u32) {
                    assert(tether_prefix(local, length) && mask == mask32(length as int));
                    return there & mask == here & mask;
                }
                length = length + 1;
            }
            false
        },
        (Address::V6(here), Address::V6(there), Address::V6(mask)) => {
            let mut length: u8 = block;
            while length <= 127
                invariant
                    local == Address::V6(here),
                    peer == Address::V6(there),
                    netmask == Address::V6(mask),
                    local.local_block() == Some(block),
                    1 <= block <= length <= 128,
                    forall|l: u8| block <= l < length ==> mask != #[trigger] mask128(l as int),
                decreases 128 - length,
            {
                if mask == u128::MAX << (128 - length as u128) {
                    assert(tether_prefix(local, length) && mask == mask128(length as int));
                    return there & mask == here & mask;
                }
                length = length + 1;
            }
            false
        },
        _ => false,
    }
}

/// A prefix that an interface is on.
#[derive(Clone, Copy, Debug, PartialEq, Eq, Structural)]
pub struct TetherPrefix {
    pub interface_index: u32,
    pub address: Address,
    pub prefix_length: u8,
}

impl TetherPrefix {
    pub open spec fn holds(self, peer: Address) -> bool {
        agree(peer, self.address, self.prefix_length)
    }
}

/// The prefixes of the tethers that are up.
#[derive(Clone, Debug)]
pub struct TetherSnapshot {
    pub prefixes: Vec<TetherPrefix>,
}

impl TetherSnapshot {
    /// The interface that leads to a peer: the one whose prefix holds it, where no other
    /// interface has such a prefix.
    pub fn classify_peer(&self, peer: Address) -> (interface: Option<u32>)
        ensures
            match interface {
                Some(index) => (exists|i: int|
                    0 <= i < self.prefixes@.len() && (#[trigger] self.prefixes@[i]).holds(peer)) && forall|i: int|
                    0 <= i < self.prefixes@.len() && (#[trigger] self.prefixes@[i]).holds(peer)
                        ==> self.prefixes@[i].interface_index == index,
                None => (forall|i: int|
                    0 <= i < self.prefixes@.len() ==> !(#[trigger] self.prefixes@[i]).holds(peer)) || (exists|
                    i: int,
                    j: int,
                |
                    0 <= i < j < self.prefixes@.len() && (#[trigger] self.prefixes@[i]).holds(peer) && (
                    #[trigger] self.prefixes@[j]).holds(peer) && self.prefixes@[i].interface_index
                        != self.prefixes@[j].interface_index),
            },
    {
        let mut matched: Option<u32> = None;
        let ghost mut first: int = 0;
        let mut i: usize = 0;
        while i < self.prefixes.len()
            invariant
                i <= self.prefixes@.len(),
                match matched {
                    Some(index) => {
                        &&& 0 <= first < i
                        &&& self.prefixes@[first].holds(peer)
                        &&& self.prefixes@[first].interface_index == index
                        &&& forall|j: int|
                            0 <= j < i && (#[trigger] self.prefixes@[j]).holds(peer)
                                ==> self.prefixes@[j].interface_index == index
                    },
                    None => forall|j: int|
                        0 <= j < i ==> !(#[trigger] self.prefixes@[j]).holds(peer),
                },
            decreases self.prefixes@.len() - i,
        {
            let prefix: TetherPrefix = self.prefixes[i];
            if same_prefix(peer, prefix.address, prefix.prefix_length) {
                match matched {
                    None => {
                        matched = Some(prefix.interface_index);
                        proof {
                            first = i as int;
                        }
                    },
                    Some(index) => {
                        if index != prefix.interface_index {
                            assert(self.prefixes@[first].holds(peer) && self.prefixes@[i as int].holds(peer));
                            return None;
                        }
                    },
                }
            }
            i = i + 1;
        }
        matched
    }
}

/// No public address, and none of a loopback or of no interface, is on a tether.
pub proof fn tethers_are_local(address: Address, prefix_length: u8)
    requires
        tether_prefix(address, prefix_length),
    ensures
        !address.unspecified(),
        !address.loopback(),
        address.local_block() is Some,
{
}

/// Masks and prefix lengths are two ways to say the same: two addresses agree under the
/// mask of a prefix exactly where they agree in its bits.
pub proof fn mask_selects_the_prefix(a: u32, b: u32, length: u8)
    requires
        1 <= length <= 32,
    ensures
        (a & mask32(length as int) == b & mask32(length as int)) == agree(
            Address::V4(a),
            Address::V4(b),
            length,
        ),
{
    let rest = (32 - length) as u32;
    assert((a & (u32::MAX << rest) == b & (u32::MAX << rest)) == (a >> rest == b >> rest))
        by (bit_vector)
        requires
            rest < 32,
    ;
}

/// The same for the addresses of IPv6.
pub proof fn mask_selects_the_prefix_v6(a: u128, b: u128, length: u8)
    requires
        1 <= length <= 128,
    ensures
        (a & mask128(length as int) == b & mask128(length as int)) == agree(
            Address::V6(a),
            Address::V6(b),
            length,
        ),
{
    let rest = (128 - length) as u128;
    masked_is_shifted(a, rest);
    masked_is_shifted(b, rest);
}

proof fn masked_is_shifted(a: u128, rest: u128)
    requires
        rest < 128,
    ensures
        a & (u128::MAX << rest) == (a >> rest) << rest,
        (a & (u128::MAX << rest)) >> rest == a >> rest,
{
    assert(a & (u128::MAX << rest) == (a >> rest) << rest) by (bit_vector)
        requires
            rest < 128,
    ;
    assert((a & (u128::MAX << rest)) >> rest == a >> rest) by (bit_vector)
        requires
            rest < 128,
    ;
}

/// In dotted form a tether of IPv4 is within `10.x.x.x`, `172.16.x.x` to `172.31.x.x`,
/// `192.168.x.x` or `169.254.x.x`; its prefix is no wider than that block and leaves at least
/// two bits for hosts.
pub proof fn tethers_of_ipv4_are(first: u8, second: u8, low: u16, prefix_length: u8)
    ensures
        tether_prefix(
            Address::V4((first * 0x100_0000 + second * 0x1_0000 + low) as u32),
            prefix_length,
        ) == (prefix_length <= 30 && if first == 10 {
            prefix_length >= 8
        } else if first == 172 {
            16 <= second < 32 && prefix_length >= 12
        } else if first == 192 {
            second == 168 && prefix_length >= 16
        } else if first == 169 {
            second == 254 && prefix_length >= 16
        } else {
            false
        }),
{
    let address = first * 0x100_0000 + second * 0x1_0000 + low;
    assert(address / 0x100_0000 == first);
    assert(address / 0x1_0000 == first * 256 + second);
    assert(address / 0x10_0000 == first * 16 + second / 16);
}

/// A tether of IPv6 begins with `fc` or `fd`, or with anything from `fe80` to `febf`; its
/// prefix is no wider than that block and leaves at least one bit for hosts.
pub proof fn tethers_of_ipv6_are(first: u16, rest: u128, prefix_length: u8)
    requires
        rest < 0x1_0000_0000_0000_0000_0000_0000_0000,
    ensures
        tether_prefix(
            Address::V6((first * 0x1_0000_0000_0000_0000_0000_0000_0000 + rest) as u128),
            prefix_length,
        ) == (prefix_length <= 127 && if 0xfc00 <= first <= 0xfdff {
            prefix_length >= 7
        } else if 0xfe80 <= first <= 0xfebf {
            prefix_length >= 10
        } else {
            false
        }),
{
    let address = first * 0x1_0000_0000_0000_0000_0000_0000_0000 + rest;
    assert(address / V6_BIT_121 as int == first / 512);
    assert(address / V6_BIT_118 as int == first / 64);
}

/// The bytes of an address are its digits in base 256, the highest first: `127` is the first
/// byte of every address of the IPv4 host itself.
pub proof fn bytes_of_an_address_are(first: u8, second: u8, third: u8, fourth: u8)
    ensures
        ({
            let address = Address::V4(
                (first * 0x100_0000 + second * 0x1_0000 + third * 0x100 + fourth) as u32,
            );
            &&& address.octets().len() == 16
            &&& address.octets().take(4) == seq![first, second, third, fourth]
            &&& forall|i: int| 4 <= i < 16 ==> #[trigger] address.octets()[i] == 0
            &&& address.loopback() == (first == 127)
            &&& address.unspecified() == (first == 0 && second == 0 && third == 0 && fourth == 0)
        }),
{
    let number = (first * 0x100_0000 + second * 0x1_0000 + third * 0x100 + fourth) as nat;
    reveal_with_fuel(bytes::le_bytes, 5);
    bytes::le_bytes_width(number, 4);
    let digits = bytes::le_bytes(number, 4);
    assert(number / 256 == first * 0x1_0000 + second * 0x100 + third);
    assert(number / 256 / 256 == first * 0x100 + second);
    assert(number / 256 / 256 / 256 == first);
    assert(digits =~= seq![fourth, third, second, first]);
    assert(padded(number, 4).take(4) =~= seq![first, second, third, fourth]);
    assert(number / 0x100_0000 == first);
}

/// Two addresses share a prefix exactly where the numbers that they are fall into the same of
/// the equal blocks which the bits behind the prefix span.
pub proof fn prefixes_are_blocks(a: u32, b: u32, length: u8)
    ensures
        agree(Address::V4(a), Address::V4(b), length) == (1 <= length <= 32 && a / pow2(
            (32 - length) as nat,
        ) as u32 == b / pow2((32 - length) as nat) as u32),
{
    if 1 <= length <= 32 {
        let rest = (32 - length) as u32;
        lemma_u32_pow2_no_overflow(rest as nat);
        lemma_u32_shr_is_div(a, rest);
        lemma_u32_shr_is_div(b, rest);
        lemma_pow2_pos(rest as nat);
    }
}

/// The same for the addresses of IPv6.
pub proof fn prefixes_are_blocks_v6(a: u128, b: u128, length: u8)
    ensures
        agree(Address::V6(a), Address::V6(b), length) == (1 <= length <= 128 && a as nat / pow2(
            (128 - length) as nat,
        ) == b as nat / pow2((128 - length) as nat)),
{
    if 1 <= length <= 128 {
        let rest = (128 - length) as u128;
        lemma_u128_shr_is_div(a, rest);
        lemma_u128_shr_is_div(b, rest);
    }
}

} // verus!
