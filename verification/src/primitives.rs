//! The cryptographic primitives and the system random source, each behind
//! one trusted function whose contract states what the outside code does.
use chacha20poly1305::aead::{Aead, KeyInit};
use chacha20poly1305::{XChaCha20Poly1305, XNonce};
use sha2::{Digest, Sha256};
use vstd::prelude::*;

verus! {

/// The ciphertext, tag appended, that XChaCha20-Poly1305 makes of
/// `plaintext` under `key` and `nonce` (no associated data).
pub uninterp spec fn aead_seal(key: Seq<u8>, nonce: Seq<u8>, plaintext: Seq<u8>) -> Seq<u8>;

/// What XChaCha20-Poly1305 decryption of `ciphertext` under `key` and
/// `nonce` gives: the plaintext, or nothing when the tag does not verify.
pub uninterp spec fn aead_open(key: Seq<u8>, nonce: Seq<u8>, ciphertext: Seq<u8>) -> Option<Seq<u8>>;

/// The SHA-256 digest of `data`.
pub uninterp spec fn sha256(data: Seq<u8>) -> Seq<u8>;

/// Bytes in a Poly1305 tag.
pub const TAG_SIZE: usize = 16;

/// The longest plaintext the cipher seals or opens: the stream starts at
/// block 1 of a 32-bit block counter, so `u32::MAX - 1` blocks of 64 bytes
/// remain for the message.
pub const MAX_SEALED_PLAINTEXT: u64 = 274877906816;

/// The cipher takes a message of `len` bytes: short enough for the
/// keystream that is left after the block used for the Poly1305 key.
pub open spec fn aead_len_ok(len: int) -> bool {
    len <= MAX_SEALED_PLAINTEXT
}

/// `Aead::encrypt` of `XChaCha20Poly1305`, with a cipher made by
/// `KeyInit::new` from `key`. Claimed, for a plaintext short enough for the
/// keystream (a longer one makes the call fail or panic): it succeeds, and
/// returns `aead_seal` of its arguments, 16 bytes longer than the plaintext.
#[verifier::external_body]
pub(crate) fn aead_encrypt(key: &[u8; 32], nonce: &[u8; 24], plaintext: &[u8]) -> (r: Option<Vec<u8>>)
    requires
        aead_len_ok(plaintext@.len() as int),
        plaintext@.len() + TAG_SIZE <= usize::MAX,
    ensures
        r is Some,
        r matches Some(c) ==> c@ == aead_seal(key@, nonce@, plaintext@),
        r matches Some(c) ==> c@.len() == plaintext@.len() + TAG_SIZE,
{
    XChaCha20Poly1305::new(key.into()).encrypt(XNonce::from_slice(nonce), plaintext).ok()
}

/// `Aead::decrypt` of `XChaCha20Poly1305`, with a cipher made by
/// `KeyInit::new` from `key`, on a ciphertext whose plaintext part is short
/// enough for the keystream (an authentic longer one makes the call panic).
/// Claimed: the result is `aead_open` of its arguments, a plaintext is 16
/// bytes shorter than the ciphertext, and a ciphertext that `aead_encrypt`
/// made under the same key and nonce opens to its plaintext. Nothing is
/// claimed about forged ciphertexts beyond `aead_open`.
#[verifier::external_body]
pub(crate) fn aead_decrypt(key: &[u8; 32], nonce: &[u8; 24], ciphertext: &[u8]) -> (r: Option<Vec<u8>>)
    requires
        aead_len_ok(ciphertext@.len() - TAG_SIZE),
    ensures
        r matches Some(p) ==> aead_open(key@, nonce@, ciphertext@) == Some(p@),
        r is None <==> aead_open(key@, nonce@, ciphertext@) is None,
        r matches Some(p) ==> ciphertext@.len() == p@.len() + TAG_SIZE,
        r matches Some(p) ==> forall|pt: Seq<u8>|
            aead_len_ok(pt.len() as int) && #[trigger] aead_seal(key@, nonce@, pt) == ciphertext@
                ==> p@ == pt,
        r is None ==> forall|pt: Seq<u8>|
            aead_len_ok(pt.len() as int) ==> #[trigger] aead_seal(key@, nonce@, pt) != ciphertext@,
{
    XChaCha20Poly1305::new(key.into()).decrypt(XNonce::from_slice(nonce), ciphertext).ok()
}

/// `Sha256::digest` of the `sha2` crate. Claimed: the result is `sha256` of
/// the input.
#[verifier::external_body]
pub(crate) fn sha256_digest(data: &[u8]) -> (r: [u8; 32])
    ensures
        r@ == sha256(data@),
{
    Sha256::digest(data).into()
}

/// `getrandom::fill` on a fresh buffer of `len` bytes. Claimed: when it
/// succeeds the buffer has `len` bytes; nothing is claimed of their values,
/// which come from the operating system's random source.
#[verifier::external_body]
pub(crate) fn random_bytes(len: usize) -> (r: Option<Vec<u8>>)
    ensures
        r matches Some(v) ==> v@.len() == len,
{
    let mut buf = vec![0u8; len];
    match getrandom::fill(&mut buf) {
        Ok(()) => Some(buf),
        Err(_) => None,
    }
}

} // verus!
