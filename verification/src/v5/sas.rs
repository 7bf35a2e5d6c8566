//! The pairing code that both sides show, and the hashes behind it.
use crate::bytes;
use crate::bytes::{push_bytes, read_u32, read_u64};
use crate::v5::crypto;
use crate::v5::crypto::{blake2s_digest, system_random};
use crate::v5::wire::{TransportKind, WireError};
use vstd::prelude::*;

verus! {

/// `holodori-phone-trackpad-v5` and a zero byte.
pub open spec fn prologue_prefix() -> Seq<u8> {
    seq![
        104u8, 111, 108, 111, 100, 111, 114, 105, 45, 112, 104, 111, 110, 101, 45, 116, 114, 97,
        99, 107, 112, 97, 100, 45, 118, 53, 0,
    ]
}

/// `holodori-v5-connection`.
pub open spec fn connection_domain() -> Seq<u8> {
    seq![
        104u8, 111, 108, 111, 100, 111, 114, 105, 45, 118, 53, 45, 99, 111, 110, 110, 101, 99,
        116, 105, 111, 110,
    ]
}

/// `holodori-v5-sas-commit`.
pub open spec fn commit_domain() -> Seq<u8> {
    seq![
        104u8, 111, 108, 111, 100, 111, 114, 105, 45, 118, 53, 45, 115, 97, 115, 45, 99, 111,
        109, 109, 105, 116,
    ]
}

/// `holodori-v5-sas`.
pub open spec fn sas_domain() -> Seq<u8> {
    seq![104u8, 111, 108, 111, 100, 111, 114, 105, 45, 118, 53, 45, 115, 97, 115]
}

/// `holodori-v5-sas-retry`.
pub open spec fn retry_domain() -> Seq<u8> {
    seq![
        104u8, 111, 108, 111, 100, 111, 114, 105, 45, 118, 53, 45, 115, 97, 115, 45, 114, 101,
        116, 114, 121,
    ]
}

/// The number of pairing codes: six to the power eight.
pub const SAS_SPACE: u32 = 1_679_616;

/// The greatest multiple of [`SAS_SPACE`] that 32 bits can count up to.
pub const SAS_LIMIT: u32 = 4_294_778_112;

pub fn prologue(transport: TransportKind, exchange_id: [u8; 16]) -> (prologue: Vec<u8>)
    ensures
        prologue@ == prologue_prefix() + seq![transport.byte()] + exchange_id@,
{
    let prefix: [u8; 27] = [
        104u8, 111, 108, 111, 100, 111, 114, 105, 45, 112, 104, 111, 110, 101, 45, 116, 114, 97,
        99, 107, 112, 97, 100, 45, 118, 53, 0,
    ];
    let mut prologue: Vec<u8> = Vec::with_capacity(44);
    push_bytes(&mut prologue, &prefix);
    prologue.push(transport.to_byte());
    push_bytes(&mut prologue, &exchange_id);
    assert(prologue@ =~= prologue_prefix() + seq![transport.byte()] + exchange_id@);
    prologue
}

/// The number of the connection that a handshake with this hash leads to.
pub open spec fn connection_number(handshake_hash: Seq<u8>) -> nat {
    bytes::field(crypto::blake2s(connection_domain() + handshake_hash), 0, 8)
}

pub fn connection_id(handshake_hash: &[u8]) -> (id: u64)
    ensures
        crypto::blake2s(connection_domain() + handshake_hash@).len() == 32,
        id == connection_number(handshake_hash@),
{
    let domain: [u8; 22] = [
        104u8, 111, 108, 111, 100, 111, 114, 105, 45, 118, 53, 45, 99, 111, 110, 110, 101, 99,
        116, 105, 111, 110,
    ];
    let mut data: Vec<u8> = Vec::new();
    push_bytes(&mut data, &domain);
    push_bytes(&mut data, handshake_hash);
    assert(data@ =~= connection_domain() + handshake_hash@);
    let digest: [u8; 32] = blake2s_digest(data.as_slice());
    read_u64(&digest, 0)
}

pub fn sas_commit(role: u8, handshake_hash: &[u8], random: &[u8; 32]) -> (commitment: [u8; 32])
    ensures
        commitment@ == crypto::blake2s(
            commit_domain() + seq![role] + handshake_hash@ + random@,
        ),
{
    let domain: [u8; 22] = [
        104u8, 111, 108, 111, 100, 111, 114, 105, 45, 118, 53, 45, 115, 97, 115, 45, 99, 111,
        109, 109, 105, 116,
    ];
    let mut data: Vec<u8> = Vec::new();
    push_bytes(&mut data, &domain);
    data.push(role);
    push_bytes(&mut data, handshake_hash);
    push_bytes(&mut data, random);
    assert(data@ =~= commit_domain() + seq![role] + handshake_hash@ + random@);
    blake2s_digest(data.as_slice())
}

pub fn sas_digest(
    handshake_hash: &[u8],
    phone_random: &[u8; 32],
    host_random: &[u8; 32],
) -> (digest: [u8; 32])
    ensures
        digest@ == crypto::blake2s(
            sas_domain() + handshake_hash@ + phone_random@ + host_random@,
        ),
{
    let domain: [u8; 15] = [104u8, 111, 108, 111, 100, 111, 114, 105, 45, 118, 53, 45, 115, 97, 115];
    let mut data: Vec<u8> = Vec::new();
    push_bytes(&mut data, &domain);
    push_bytes(&mut data, handshake_hash);
    push_bytes(&mut data, phone_random);
    push_bytes(&mut data, host_random);
    assert(data@ =~= sas_domain() + handshake_hash@ + phone_random@ + host_random@);
    blake2s_digest(data.as_slice())
}

/// The first of the eight words of a digest, from `from` on, that lies below the limit.
pub open spec fn usable_word(digest: Seq<u8>, from: nat) -> Option<nat>
    decreases 8 - from,
{
    if from >= 8 {
        None
    } else if bytes::field(digest, 4 * from as int, 4) < SAS_LIMIT {
        Some(bytes::field(digest, 4 * from as int, 4))
    } else {
        usable_word(digest, from + 1)
    }
}

pub open spec fn rehashed(digest: Seq<u8>, times: nat) -> Seq<u8>
    decreases times,
{
    if times == 0 {
        digest
    } else {
        crypto::blake2s(retry_domain() + rehashed(digest, (times - 1) as nat))
    }
}

/// That the digest, hashed again `times` times, is the first with a usable word.
pub open spec fn settles_at(digest: Seq<u8>, times: nat) -> bool {
    &&& usable_word(rehashed(digest, times), 0) is Some
    &&& forall|earlier: nat|
        earlier < times ==> usable_word(#[trigger] rehashed(digest, earlier), 0) is None
}

/// The eight digits in base six of a number below [`SAS_SPACE`], the highest first, each
/// counted from one.
pub open spec fn code_of(number: nat) -> Seq<u8> {
    seq![
        (number / 279936 % 6 + 1) as u8,
        (number / 46656 % 6 + 1) as u8,
        (number / 7776 % 6 + 1) as u8,
        (number / 1296 % 6 + 1) as u8,
        (number / 216 % 6 + 1) as u8,
        (number / 36 % 6 + 1) as u8,
        (number / 6 % 6 + 1) as u8,
        (number % 6 + 1) as u8,
    ]
}

/// The pairing code of a digest that settles.
pub open spec fn pattern_of(digest: Seq<u8>, times: nat) -> Seq<u8> {
    code_of(usable_word(rehashed(digest, times), 0)->0 % SAS_SPACE as nat)
}

fn find_word(digest: &[u8; 32]) -> (word: Option<u32>)
    ensures
        match word {
            Some(word) => usable_word(digest@, 0) == Some(word as nat),
            None => usable_word(digest@, 0) is None,
        },
{
    let mut i: usize = 0;
    while i < 8
        invariant
            i <= 8,
            usable_word(digest@, 0) == usable_word(digest@, i as nat),
        decreases 8 - i,
    {
        let value: u32 = read_u32(digest, 4 * i);
        if value < SAS_LIMIT {
            return Some(value);
        }
        i = i + 1;
    }
    None
}

fn code(number: u32) -> (pattern: [u8; 8])
    ensures
        pattern@ == code_of(number as nat),
{
    let pattern: [u8; 8] = [
        (number / 279936 % 6) as u8 + 1,
        (number / 46656 % 6) as u8 + 1,
        (number / 7776 % 6) as u8 + 1,
        (number / 1296 % 6) as u8 + 1,
        (number / 216 % 6) as u8 + 1,
        (number / 36 % 6) as u8 + 1,
        (number / 6 % 6) as u8 + 1,
        (number % 6) as u8 + 1,
    ];
    assert(pattern@ =~= code_of(number as nat));
    pattern
}

fn rehash(digest: &[u8; 32]) -> (next: [u8; 32])
    ensures
        next@ == crypto::blake2s(retry_domain() + digest@),
{
    let domain: [u8; 21] = [
        104u8, 111, 108, 111, 100, 111, 114, 105, 45, 118, 53, 45, 115, 97, 115, 45, 114, 101,
        116, 114, 121,
    ];
    let mut data: Vec<u8> = Vec::new();
    push_bytes(&mut data, &domain);
    push_bytes(&mut data, digest);
    assert(data@ =~= retry_domain() + digest@);
    blake2s_digest(data.as_slice())
}

/// The pairing code of a digest. A word at or above the limit would favour some codes, so
/// it is passed over; a digest without another is hashed again.
pub fn sas_pattern(digest: [u8; 32]) -> (pattern: [u8; 8])
    requires
        exists|times: nat| settles_at(digest@, times),
    ensures
        forall|times: nat| #[trigger]
            settles_at(digest@, times) ==> pattern@ == pattern_of(digest@, times),
{
    let ghost last = choose|times: nat| settles_at(digest@, times);
    let ghost mut times: nat = 0;
    let mut current: [u8; 32] = digest;
    loop
        invariant
            settles_at(digest@, last),
            times <= last,
            current@ == rehashed(digest@, times),
        decreases last - times,
    {
        if let Some(word) = find_word(&current) {
            proof {
                assert(times == last);
                assert forall|other: nat| #[trigger] settles_at(digest@, other) implies other
                    == last by {
                    settling_is_unique(digest@, other, last);
                }
            }
            return code(word % SAS_SPACE);
        }
        current = rehash(&current);
        proof {
            times = times + 1;
        }
    }
}

/// How often a digest is hashed again before it is given up.
pub const SAS_ATTEMPTS: u32 = 1024;

/// The pairing code of a digest, or nothing where the digest, hashed again
/// [`SAS_ATTEMPTS`] times, still has no usable word.
pub fn try_sas_pattern(digest: [u8; 32]) -> (pattern: Option<[u8; 8]>)
    ensures
        match pattern {
            Some(pattern) => exists|times: nat|
                times <= SAS_ATTEMPTS && #[trigger] settles_at(digest@, times) && pattern@
                    == pattern_of(digest@, times),
            None => forall|times: nat|
                times <= SAS_ATTEMPTS ==> !#[trigger] settles_at(digest@, times),
        },
{
    let mut current: [u8; 32] = digest;
    let mut tried: u32 = 0;
    while tried <= SAS_ATTEMPTS
        invariant
            tried <= SAS_ATTEMPTS + 1,
            tried <= SAS_ATTEMPTS ==> current@ == rehashed(digest@, tried as nat),
            forall|earlier: nat|
                earlier < tried ==> usable_word(#[trigger] rehashed(digest@, earlier), 0) is None,
        decreases SAS_ATTEMPTS + 1 - tried,
    {
        if find_word(&current).is_some() {
            assert(settles_at(digest@, tried as nat));
            return Some(sas_pattern(digest));
        }
        current = rehash(&current);
        tried = tried + 1;
    }
    assert forall|times: nat| times <= SAS_ATTEMPTS implies !#[trigger] settles_at(
        digest@,
        times,
    ) by {
        assert(usable_word(rehashed(digest@, times), 0) is None);
    }
    None
}

/// What comes of asking the system for random bytes, by its answer.
pub fn random_outcome(answer: Result<(), getrandom::Error>) -> (result: Result<(), WireError>)
    ensures
        result == match answer {
            Ok(()) => Ok::<(), WireError>(()),
            Err(_) => Err(WireError::RandomUnavailable),
        },
{
    match answer {
        Ok(()) => Ok(()),
        Err(_) => Err(WireError::RandomUnavailable),
    }
}

/// Fills a buffer with random bytes. An empty buffer needs none; otherwise the system may
/// have none to give.
pub fn fill_random(bytes: &mut [u8]) -> (result: Result<(), WireError>)
    ensures
        final(bytes)@.len() == old(bytes)@.len(),
        old(bytes)@.len() == 0 ==> result is Ok,
        result matches Err(error) ==> error == WireError::RandomUnavailable,
{
    random_outcome(system_random(bytes))
}

proof fn settling_is_unique(digest: Seq<u8>, a: nat, b: nat)
    requires
        settles_at(digest, a),
        settles_at(digest, b),
    ensures
        a == b,
{
    if a < b {
        assert(usable_word(rehashed(digest, a), 0) is None);
    } else if b < a {
        assert(usable_word(rehashed(digest, b), 0) is None);
    }
}

/// A code has eight digits from one to six.
pub proof fn code_digits_are_one_to_six(number: nat, i: int)
    requires
        0 <= i < 8,
    ensures
        code_of(number).len() == 8,
        1 <= code_of(number)[i] <= 6,
{
}

/// The number that a code stands for.
pub open spec fn number_of(code: Seq<u8>) -> int {
    (code[0] - 1) * 279936 + (code[1] - 1) * 46656 + (code[2] - 1) * 7776 + (code[3] - 1) * 1296 + (
    code[4] - 1) * 216 + (code[5] - 1) * 36 + (code[6] - 1) * 6 + (code[7] - 1)
}

/// Different numbers have different codes: the number is read back from its code.
pub proof fn code_is_one_to_one(number: nat)
    requires
        number < SAS_SPACE,
    ensures
        number_of(code_of(number)) == number,
{
    let n = number as int;
    assert(n / 6 / 6 == n / 36);
    assert(n / 36 / 6 == n / 216);
    assert(n / 216 / 6 == n / 1296);
    assert(n / 1296 / 6 == n / 7776);
    assert(n / 7776 / 6 == n / 46656);
    assert(n / 46656 / 6 == n / 279936);
}

/// Each code stands for equally many words, so no code is likelier than another: the
/// words below the limit are whole rounds of all codes.
pub proof fn limit_is_whole_rounds()
    ensures
        SAS_LIMIT % SAS_SPACE == 0,
        SAS_LIMIT + SAS_SPACE > 0x1_0000_0000,
        SAS_LIMIT <= 0x1_0000_0000,
{
}

/// The word of a digest that counts is the first of its eight below 4294778112, and there is
/// none exactly where all eight are above.
pub proof fn first_low_word_counts(digest: Seq<u8>, at: int)
    requires
        digest.len() == 32,
    ensures
        0 <= at < 8 && bytes::number32(digest, 4 * at) < 4_294_778_112 && (forall|i: int|
            0 <= i < at ==> #[trigger] bytes::number32(digest, 4 * i) >= 4_294_778_112)
            ==> usable_word(digest, 0) == Some(bytes::number32(digest, 4 * at) as nat),
        (usable_word(digest, 0) is None) == (forall|i: int|
            0 <= i < 8 ==> #[trigger] bytes::number32(digest, 4 * i) >= 4_294_778_112),
{
    reveal_with_fuel(usable_word, 9);
    assert forall|i: int| 0 <= i < 8 implies #[trigger] bytes::number32(digest, 4 * i)
        == bytes::field(digest, 4 * i, 4) by {
        bytes::fields_are_little_endian(digest, 4 * i);
    }
    assert(bytes::number32(digest, 4 * 0int) == bytes::field(digest, 0, 4));
    assert(bytes::number32(digest, 4 * 1int) == bytes::field(digest, 4, 4));
    assert(bytes::number32(digest, 4 * 2int) == bytes::field(digest, 8, 4));
    assert(bytes::number32(digest, 4 * 3int) == bytes::field(digest, 12, 4));
    assert(bytes::number32(digest, 4 * 4int) == bytes::field(digest, 16, 4));
    assert(bytes::number32(digest, 4 * 5int) == bytes::field(digest, 20, 4));
    assert(bytes::number32(digest, 4 * 6int) == bytes::field(digest, 24, 4));
    assert(bytes::number32(digest, 4 * 7int) == bytes::field(digest, 28, 4));
}

/// That bytes spell a text of ASCII characters.
pub open spec fn spells(bytes: Seq<u8>, text: Seq<char>) -> bool {
    bytes.len() == text.len() && forall|i: int|
        0 <= i < text.len() ==> bytes[i] as int == #[trigger] text[i] as int
}

/// What is hashed begins with the name of what it is hashed for; the prologue of a handshake
/// begins with the name of the protocol and a zero byte.
pub proof fn hashes_are_kept_apart_by_name()
    ensures
        prologue_prefix().last() == 0,
        spells(prologue_prefix().drop_last(), "holodori-phone-trackpad-v5"@),
        spells(connection_domain(), "holodori-v5-connection"@),
        spells(commit_domain(), "holodori-v5-sas-commit"@),
        spells(sas_domain(), "holodori-v5-sas"@),
        spells(retry_domain(), "holodori-v5-sas-retry"@),
{
    reveal_strlit("holodori-phone-trackpad-v5");
    reveal_strlit("holodori-v5-connection");
    reveal_strlit("holodori-v5-sas-commit");
    reveal_strlit("holodori-v5-sas");
    reveal_strlit("holodori-v5-sas-retry");
}

} // verus!
