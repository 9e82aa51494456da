//! Ed25519 signatures, SHA-256, AES-256-GCM, base64 and hex, as used by the trust layer.
use vstd::prelude::*;

use aes_gcm::aead::generic_array::GenericArray;
use aes_gcm::aead::Aead;
use aes_gcm::{Aes256Gcm, KeyInit};
use base64::engine::general_purpose::STANDARD;
use base64::Engine;
use ed25519_dalek::{Signature, Signer, SigningKey, Verifier, VerifyingKey};
use sha2::{Digest, Sha256};

verus! {

// ------------------------------------------------------------------
// Ed25519
// ------------------------------------------------------------------

/// The Ed25519 public key derived from a 32-byte secret key.
pub uninterp spec fn ed25519_public_key(secret: Seq<u8>) -> Seq<u8>;

/// Whether 32 bytes are the compressed form of a valid Ed25519 point.
pub uninterp spec fn ed25519_key_valid(public: Seq<u8>) -> bool;

/// The (deterministic) Ed25519 signature of `msg` under a 32-byte secret key.
pub uninterp spec fn ed25519_signature(secret: Seq<u8>, msg: Seq<u8>) -> Seq<u8>;

/// Whether `sig` is a valid Ed25519 signature of `msg` under `public`.
pub uninterp spec fn ed25519_verifies(public: Seq<u8>, msg: Seq<u8>, sig: Seq<u8>) -> bool;

/// Calls `SigningKey::from_bytes` and `verifying_key().to_bytes()` of ed25519-dalek.
/// Claims: the result is the 32-byte public key of the secret key, and it is a
/// valid point (it is the compression of the point that the secret key derives).
#[verifier::external_body]
pub(crate) fn ed25519_derive_public(secret: &[u8]) -> (r: Vec<u8>)
    requires
        secret@.len() == 32,
    ensures
        r@ == ed25519_public_key(secret@),
        r@.len() == 32,
        ed25519_key_valid(r@),
{
    SigningKey::from_bytes(secret.try_into().unwrap()).verifying_key().to_bytes().to_vec()
}

/// Calls `VerifyingKey::from_bytes` of ed25519-dalek and reports whether it succeeded.
#[verifier::external_body]
pub(crate) fn ed25519_check_public(public: &[u8]) -> (r: bool)
    requires
        public@.len() == 32,
    ensures
        r == ed25519_key_valid(public@),
{
    VerifyingKey::from_bytes(public.try_into().unwrap()).is_ok()
}

/// Calls `Signer::sign` of an ed25519-dalek `SigningKey`.
/// Claims: the 64-byte result is the signature of `msg` under the secret key,
/// and it verifies under the derived public key (Ed25519 correctness).
#[verifier::external_body]
pub(crate) fn ed25519_sign(secret: &[u8], msg: &[u8]) -> (r: Vec<u8>)
    requires
        secret@.len() == 32,
    ensures
        r@ == ed25519_signature(secret@, msg@),
        r@.len() == 64,
        ed25519_verifies(ed25519_public_key(secret@), msg@, r@),
{
    SigningKey::from_bytes(secret.try_into().unwrap()).sign(msg).to_bytes().to_vec()
}

/// Calls `Verifier::verify` of an ed25519-dalek `VerifyingKey` built from `public`;
/// a public key that `VerifyingKey::from_bytes` rejects verifies nothing.
#[verifier::external_body]
pub(crate) fn ed25519_verify(public: &[u8], msg: &[u8], sig: &[u8]) -> (r: bool)
    requires
        public@.len() == 32,
        sig@.len() == 64,
    ensures
        r == (ed25519_key_valid(public@) && ed25519_verifies(public@, msg@, sig@)),
{
    match VerifyingKey::from_bytes(public.try_into().unwrap()) {
        Ok(vk) => vk.verify(msg, &Signature::from_bytes(sig.try_into().unwrap())).is_ok(),
        Err(_) => false,
    }
}

// ------------------------------------------------------------------
// SHA-256
// ------------------------------------------------------------------

/// The SHA-256 digest of `data`.
pub uninterp spec fn sha256_digest(data: Seq<u8>) -> Seq<u8>;

/// Calls `Digest::digest` of sha2's `Sha256`; the digest has 32 bytes.
#[verifier::external_body]
pub(crate) fn sha256(data: &[u8]) -> (r: Vec<u8>)
    ensures
        r@ == sha256_digest(data@),
        r@.len() == 32,
{
    Sha256::digest(data).to_vec()
}

// ------------------------------------------------------------------
// AES-256-GCM
// ------------------------------------------------------------------

/// The largest plaintext that AES-GCM accepts, in bytes.
pub open spec fn aes_gcm_max_plaintext() -> nat {
    0x10_0000_0000
}

/// The AES-256-GCM ciphertext (with its tag) of `plaintext`.
pub uninterp spec fn aes256gcm_seal(key: Seq<u8>, nonce: Seq<u8>, plaintext: Seq<u8>) -> Seq<u8>;

/// The AES-256-GCM decryption of `ciphertext`, or `None` when authentication fails.
pub uninterp spec fn aes256gcm_open(key: Seq<u8>, nonce: Seq<u8>, ciphertext: Seq<u8>) -> Option<Seq<u8>>;

/// Calls `Aead::encrypt` of aes-gcm's `Aes256Gcm`. The source rejects exactly
/// the plaintexts longer than 2^36 bytes; otherwise the result is the sealed text,
/// which opens with the same key and nonce to the plaintext (AEAD correctness).
#[verifier::external_body]
pub(crate) fn aes256gcm_encrypt(key: &[u8], nonce: &[u8], plaintext: &[u8]) -> (r: Option<Vec<u8>>)
    requires
        key@.len() == 32,
        nonce@.len() == 12,
    ensures
        r is Some <==> plaintext@.len() <= aes_gcm_max_plaintext(),
        r matches Some(c) ==> c@ == aes256gcm_seal(key@, nonce@, plaintext@),
        r matches Some(c) ==> aes256gcm_open(key@, nonce@, c@) == Some(plaintext@),
{
    let cipher = Aes256Gcm::new(GenericArray::from_slice(key));
    cipher.encrypt(GenericArray::from_slice(nonce), plaintext).ok()
}

/// Calls `Aead::decrypt` of aes-gcm's `Aes256Gcm`: the opened plaintext, or
/// `None` when authentication fails.
#[verifier::external_body]
pub(crate) fn aes256gcm_decrypt(key: &[u8], nonce: &[u8], ciphertext: &[u8]) -> (r: Option<Vec<u8>>)
    requires
        key@.len() == 32,
        nonce@.len() == 12,
    ensures
        r matches Some(p) ==> aes256gcm_open(key@, nonce@, ciphertext@) == Some(p@),
        r is None ==> aes256gcm_open(key@, nonce@, ciphertext@) is None,
{
    let cipher = Aes256Gcm::new(GenericArray::from_slice(key));
    cipher.decrypt(GenericArray::from_slice(nonce), ciphertext).ok()
}

// ------------------------------------------------------------------
// Base64 (standard alphabet, padded)
// ------------------------------------------------------------------

/// The standard base64 encoding of `bytes`.
pub uninterp spec fn base64_encoding(bytes: Seq<u8>) -> Seq<char>;

/// The standard base64 decoding of `text`, or `None` when it is not valid base64.
pub uninterp spec fn base64_decoding(text: Seq<char>) -> Option<Seq<u8>>;

/// Calls `Engine::encode` of base64's `STANDARD` engine (which panics only when
/// the encoded length overflows `usize`). Claims, besides naming the result,
/// that decoding the encoding gives back the bytes, and that the padded encoding
/// has four characters for each started group of three bytes.
#[verifier::external_body]
pub(crate) fn base64_encode(bytes: &[u8]) -> (r: String)
    requires
        bytes@.len() <= usize::MAX / 4 * 3,
    ensures
        r@ == base64_encoding(bytes@),
        base64_decoding(r@) == Some(bytes@),
        r@.len() == 4 * ((bytes@.len() + 2) / 3),
{
    STANDARD.encode(bytes)
}

/// Calls `Engine::decode` of base64's `STANDARD` engine. Claims, besides naming
/// the result, that only the empty text decodes to no bytes at all.
#[verifier::external_body]
pub(crate) fn base64_decode(text: &str) -> (r: Option<Vec<u8>>)
    ensures
        r matches Some(b) ==> base64_decoding(text@) == Some(b@),
        r is None ==> base64_decoding(text@) is None,
        r matches Some(b) ==> (b@.len() > 0 ==> text@.len() > 0),
{
    STANDARD.decode(text).ok()
}

// ------------------------------------------------------------------
// Hex (lower case)
// ------------------------------------------------------------------

/// The lower-case hex digit of a value below 16.
pub open spec fn hex_digit(v: int) -> char {
    if v < 10 {
        (('0' as int) + v) as char
    } else {
        (('a' as int) + v - 10) as char
    }
}

/// The lower-case hex encoding of `bytes`: two digits per byte, high nibble first.
pub open spec fn hex_lower(bytes: Seq<u8>) -> Seq<char>
    decreases bytes.len(),
{
    if bytes.len() == 0 {
        seq![]
    } else {
        seq![hex_digit(bytes[0] as int / 16), hex_digit(bytes[0] as int % 16)] + hex_lower(
            bytes.drop_first(),
        )
    }
}

/// Whether `c` is a lower-case hex digit.
pub open spec fn is_lower_hex_char(c: char) -> bool {
    ('0' <= c <= '9') || ('a' <= c <= 'f')
}

/// Whether `text` is an even number of lower-case hex digits.
pub open spec fn is_lower_hex_text(text: Seq<char>) -> bool {
    &&& text.len() % 2 == 0
    &&& forall|i: int| 0 <= i < text.len() ==> is_lower_hex_char(#[trigger] text[i])
}

/// Calls `hex::encode`, which writes each byte as two lower-case hex digits.
#[verifier::external_body]
pub(crate) fn hex_encode(bytes: &[u8]) -> (r: String)
    ensures
        r@ == hex_lower(bytes@),
{
    hex::encode(bytes)
}

/// Calls `hex::decode`. Stated for lower-case text only: an even number of
/// lower-case hex digits decodes to the bytes whose encoding it is.
#[verifier::external_body]
pub(crate) fn hex_decode(text: &str) -> (r: Option<Vec<u8>>)
    ensures
        is_lower_hex_text(text@) ==> r is Some,
        r matches Some(b) ==> (is_lower_hex_text(text@) ==> hex_lower(b@) == text@),
        (text@.len() % 2 == 1) ==> r is None,
{
    hex::decode(text).ok()
}

} // verus!
