//! What the outside crates compute: the hash, the cipher, random bytes, wiped memory.
use blake2::{Blake2s256, Digest};
use chacha20poly1305::aead::{AeadInPlace, KeyInit};
use chacha20poly1305::{ChaCha20Poly1305, Key, Nonce, Tag};
use vstd::prelude::*;
use zeroize::Zeroize;

verus! {

/// The opaque error of the cipher crate.
#[verifier::external_type_specification]
#[verifier::external_body]
pub struct ExAeadError(chacha20poly1305::aead::Error);

/// The opaque error of the random crate.
#[verifier::external_type_specification]
#[verifier::external_body]
pub struct ExRandomError(getrandom::Error);

/// The BLAKE2s-256 digest of `data`.
pub uninterp spec fn blake2s(data: Seq<u8>) -> Seq<u8>;

/// What ChaCha20-Poly1305 makes of a plaintext: the ciphertext and its tag.
pub uninterp spec fn aead_sealed(
    key: Seq<u8>,
    nonce: Seq<u8>,
    associated: Seq<u8>,
    plaintext: Seq<u8>,
) -> (Seq<u8>, Seq<u8>);

/// What ChaCha20-Poly1305 makes of a ciphertext and a tag: the plaintext, where the tag
/// is right.
pub uninterp spec fn aead_opened(
    key: Seq<u8>,
    nonce: Seq<u8>,
    associated: Seq<u8>,
    ciphertext: Seq<u8>,
    tag: Seq<u8>,
) -> Option<Seq<u8>>;

/// `blake2::Digest::digest` of `Blake2s256`: the digest is the same function of the data
/// in every call.
#[verifier::external_body]
pub(crate) fn blake2s_digest(data: &[u8]) -> (digest: [u8; 32])
    ensures
        digest@ == blake2s(data@),
{
    Blake2s256::digest(data).into()
}

/// `chacha20poly1305::aead::AeadInPlace::encrypt_in_place_detached` of
/// `ChaCha20Poly1305`, on a copy of the payload. It fails only for buffers far above the
/// bound that is asked for here. The ciphertext is as long as the payload, ciphertext and
/// tag are the same function of the four inputs in every call, and the crate's own
/// decryption of them gives the payload back.
#[verifier::external_body]
pub(crate) fn encrypt(
    key: &[u8; 32],
    nonce: &[u8; 12],
    associated: &[u8],
    payload: &[u8],
) -> (result: Result<(Vec<u8>, [u8; 16]), chacha20poly1305::aead::Error>)
    requires
        payload@.len() <= 0xffff,
        associated@.len() <= 0xffff,
    ensures
        result is Ok,
        result matches Ok((ciphertext, tag)) ==> {
            &&& (ciphertext@, tag@) == aead_sealed(key@, nonce@, associated@, payload@)
            &&& ciphertext@.len() == payload@.len()
            &&& aead_opened(key@, nonce@, associated@, ciphertext@, tag@) == Some(payload@)
        },
{
    let mut buffer = payload.to_vec();
    let cipher = ChaCha20Poly1305::new(Key::from_slice(key));
    let tag = cipher.encrypt_in_place_detached(Nonce::from_slice(nonce), associated, &mut buffer)?;
    Ok((buffer, tag.into()))
}

/// `chacha20poly1305::aead::AeadInPlace::decrypt_in_place_detached` of
/// `ChaCha20Poly1305`, on a copy of the ciphertext. Whether the tag is right, and the
/// plaintext where it is, are the same function of the five inputs in every call. The
/// plaintext is as long as the ciphertext, and encrypting it again gives the ciphertext
/// and the tag.
#[verifier::external_body]
pub(crate) fn decrypt(
    key: &[u8; 32],
    nonce: &[u8; 12],
    associated: &[u8],
    ciphertext: &[u8],
    tag: &[u8; 16],
) -> (result: Result<Vec<u8>, chacha20poly1305::aead::Error>)
    requires
        ciphertext@.len() <= 0xffff,
        associated@.len() <= 0xffff,
    ensures
        match result {
            Ok(plaintext) => {
                &&& aead_opened(key@, nonce@, associated@, ciphertext@, tag@) == Some(plaintext@)
                &&& plaintext@.len() == ciphertext@.len()
                &&& aead_sealed(key@, nonce@, associated@, plaintext@) == (ciphertext@, tag@)
            },
            Err(_) => aead_opened(key@, nonce@, associated@, ciphertext@, tag@) is None,
        },
{
    let mut buffer = ciphertext.to_vec();
    let cipher = ChaCha20Poly1305::new(Key::from_slice(key));
    let tag = Tag::from_slice(tag);
    cipher.decrypt_in_place_detached(Nonce::from_slice(nonce), associated, &mut buffer, tag)?;
    Ok(buffer)
}

/// `getrandom::fill`: the buffer keeps its length, and an empty one is filled without
/// asking the system. Otherwise the system decides whether it is filled, and with what.
#[verifier::external_body]
pub(crate) fn system_random(bytes: &mut [u8]) -> (result: Result<(), getrandom::Error>)
    ensures
        final(bytes)@.len() == old(bytes)@.len(),
        old(bytes)@.len() == 0 ==> result is Ok,
{
    getrandom::fill(bytes)
}

/// `zeroize::Zeroize::zeroize` of an array: every byte is zero afterwards.
#[verifier::external_body]
pub(crate) fn wipe(bytes: &mut [u8; 32])
    ensures
        final(bytes)@ == Seq::new(32, |i: int| 0u8),
    opens_invariants none
    no_unwind
{
    bytes.zeroize();
}

} // verus!
