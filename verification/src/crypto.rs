//! The cryptographic primitives, as the outside crates provide them.
use vstd::prelude::*;

use chacha20poly1305::aead::{Aead, KeyInit, Payload};
use ed25519_dalek::Signer;

verus! {

/// The 32-byte BLAKE3 digest of `input`.
pub uninterp spec fn blake3_digest(input: Seq<u8>) -> Seq<u8>;

/// `blake3::hash`: the digest is a function of the input, named `blake3_digest`.
#[verifier::external_body]
pub(crate) fn blake3_hash(input: &[u8]) -> (digest: [u8; 32])
    ensures
        digest@ == blake3_digest(input@),
{
    *blake3::hash(input).as_bytes()
}

/// The 32-byte keyed BLAKE3 digest of `input` under `key`.
pub uninterp spec fn blake3_mac(key: Seq<u8>, input: Seq<u8>) -> Seq<u8>;

/// `blake3::keyed_hash`: the digest is a function of key and input, named `blake3_mac`.
#[verifier::external_body]
pub(crate) fn blake3_keyed_hash(key: &[u8; 32], input: &[u8]) -> (digest: [u8; 32])
    ensures
        digest@ == blake3_mac(key@, input@),
{
    *blake3::keyed_hash(key, input).as_bytes()
}

/// The first 32 bytes that HKDF with SHA-256 expands from a salt, keying material and an info.
pub uninterp spec fn hkdf_sha256(salt: Seq<u8>, material: Seq<u8>, info: Seq<u8>) -> Seq<u8>;

/// `hkdf::Hkdf::<Sha256>::new` and `expand`: 32 bytes, a function of the three arguments, named
/// `hkdf_sha256`. Expansion fails for more than 255 blocks of 32 bytes only, so never here.
#[verifier::external_body]
pub(crate) fn hkdf_expand(salt: &[u8], material: &[u8], info: &[u8]) -> (key: Option<[u8; 32]>)
    ensures
        key is Some,
        key->0@ == hkdf_sha256(salt@, material@, info@),
{
    let mut key = [0u8; 32];
    let expanded = hkdf::Hkdf::<sha2::Sha256>::new(Some(salt), material).expand(info, &mut key);
    expanded.ok().map(|_| key)
}

/// The longest plaintext that XChaCha20-Poly1305 encrypts: its keystream has 0xffff_fffe blocks of
/// 64 bytes for the plaintext.
pub const AEAD_PLAINTEXT_MAXIMUM: u64 = 274_877_906_816;

/// The number of plaintext bytes from which on the keystream of XChaCha20-Poly1305 is too short.
pub open spec fn aead_limit() -> nat {
    64 * 0xffff_fffe + 1
}

/// The ciphertext and tag that XChaCha20-Poly1305 gives for a key, a nonce, associated data and a
/// plaintext.
pub uninterp spec fn aead_sealed(
    key: Seq<u8>,
    nonce: Seq<u8>,
    associated_data: Seq<u8>,
    plaintext: Seq<u8>,
) -> Seq<u8>;

/// The plaintext that XChaCha20-Poly1305 gives for a key, a nonce, associated data and a
/// ciphertext with its tag, where the tag is right.
pub uninterp spec fn aead_opened(
    key: Seq<u8>,
    nonce: Seq<u8>,
    associated_data: Seq<u8>,
    ciphertext: Seq<u8>,
) -> Option<Seq<u8>>;

/// `XChaCha20Poly1305::encrypt`: succeeds on every plaintext for which the keystream is long
/// enough; longer ones are left out. The ciphertext is a function of the arguments, named
/// `aead_sealed`, sixteen bytes longer than the plaintext, and decryption with the same key, nonce
/// and associated data gives the plaintext back.
#[verifier::external_body]
pub(crate) fn aead_seal(key: &[u8; 32], nonce: &[u8; 24], associated_data: &[u8], plaintext: &[u8]) -> (ciphertext:
    Option<Vec<u8>>)
    requires
        plaintext@.len() <= 64 * 0xffff_fffe,
    ensures
        ciphertext is Some,
        ciphertext is Some ==> ciphertext->0@ == aead_sealed(
            key@,
            nonce@,
            associated_data@,
            plaintext@,
        ),
        ciphertext is Some ==> ciphertext->0@.len() == plaintext@.len() + 16,
        ciphertext is Some ==> aead_opened(key@, nonce@, associated_data@, ciphertext->0@) == Some(
            plaintext@,
        ),
{
    let payload = Payload { msg: plaintext, aad: associated_data };
    let cipher = chacha20poly1305::XChaCha20Poly1305::new(chacha20poly1305::Key::from_slice(key));
    cipher.encrypt(chacha20poly1305::XNonce::from_slice(nonce), payload).ok()
}

/// `XChaCha20Poly1305::decrypt`: the plaintext, sixteen bytes shorter than the ciphertext, is a
/// function of the arguments, named `aead_opened`. Ciphertexts for which the keystream is too
/// short are left out.
#[verifier::external_body]
pub(crate) fn aead_open(key: &[u8; 32], nonce: &[u8; 24], associated_data: &[u8], ciphertext: &[u8]) -> (plaintext:
    Option<Vec<u8>>)
    requires
        ciphertext@.len() <= 64 * 0xffff_fffe + 16,
    ensures
        plaintext is Some == aead_opened(key@, nonce@, associated_data@, ciphertext@) is Some,
        plaintext is Some ==> Some(plaintext->0@) == aead_opened(
            key@,
            nonce@,
            associated_data@,
            ciphertext@,
        ),
        plaintext is Some ==> plaintext->0@.len() + 16 == ciphertext@.len(),
{
    let payload = Payload { msg: ciphertext, aad: associated_data };
    let cipher = chacha20poly1305::XChaCha20Poly1305::new(chacha20poly1305::Key::from_slice(key));
    cipher.decrypt(chacha20poly1305::XNonce::from_slice(nonce), payload).ok()
}

/// The Ed25519 public key of a secret key.
pub uninterp spec fn ed25519_public(secret: Seq<u8>) -> Seq<u8>;

/// Whether 32 bytes are the encoding of a curve point.
pub uninterp spec fn ed25519_valid_key(key: Seq<u8>) -> bool;

/// The Ed25519 signature of a message with a secret key.
pub uninterp spec fn ed25519_signed(secret: Seq<u8>, message: Seq<u8>) -> Seq<u8>;

/// Whether a signature of a message passes strict verification under a public key.
pub uninterp spec fn ed25519_verified(key: Seq<u8>, message: Seq<u8>, signature: Seq<u8>) -> bool;

/// The encoding of the neutral element of the curve.
pub open spec fn ed25519_neutral() -> Seq<u8> {
    seq![1u8] + Seq::new(31, |i: int| 0u8)
}

/// `SigningKey::from_bytes` and `verifying_key`: the public key of a secret key, named
/// `ed25519_public`. It encodes a curve point.
#[verifier::external_body]
pub(crate) fn ed25519_public_key(secret: &[u8; 32]) -> (key: [u8; 32])
    ensures
        key@ == ed25519_public(secret@),
        ed25519_valid_key(key@),
{
    ed25519_dalek::SigningKey::from_bytes(secret).verifying_key().to_bytes()
}

/// `VerifyingKey::from_bytes`: succeeds where the bytes encode a curve point, which is named
/// `ed25519_valid_key`.
#[verifier::external_body]
pub(crate) fn ed25519_key_is_valid(key: &[u8; 32]) -> (valid: bool)
    ensures
        valid == ed25519_valid_key(key@),
{
    ed25519_dalek::VerifyingKey::from_bytes(key).is_ok()
}

/// `SigningKey::sign`: the signature is a function of secret key and message, named
/// `ed25519_signed`. It passes strict verification under the public key, unless its first half
/// is the encoding of the neutral element, which strict verification refuses.
#[verifier::external_body]
pub(crate) fn ed25519_sign(secret: &[u8; 32], message: &[u8]) -> (signature: [u8; 64])
    ensures
        signature@ == ed25519_signed(secret@, message@),
        signature@.take(32) != ed25519_neutral() ==> ed25519_verified(
            ed25519_public(secret@),
            message@,
            signature@,
        ),
{
    ed25519_dalek::SigningKey::from_bytes(secret).sign(message).to_bytes()
}

/// `VerifyingKey::verify_strict`, false where the key does not encode a curve point: a function of
/// the arguments, named `ed25519_verified`.
#[verifier::external_body]
pub(crate) fn ed25519_verify(key: &[u8; 32], message: &[u8], signature: &[u8; 64]) -> (verified:
    bool)
    ensures
        verified == ed25519_verified(key@, message@, signature@),
{
    let signature = ed25519_dalek::Signature::from_bytes(signature);
    let key = ed25519_dalek::VerifyingKey::from_bytes(key);
    key.and_then(|key| key.verify_strict(message, &signature)).is_ok()
}

/// `getrandom::fill`: as many random bytes as asked for, of which nothing more is promised, or
/// nothing where the system's source of randomness fails.
#[verifier::external_body]
pub(crate) fn random_bytes(count: usize) -> (bytes: Option<Vec<u8>>)
    ensures
        bytes is Some ==> bytes->0@.len() == count,
{
    let mut bytes = vec![0u8; count];
    getrandom::fill(&mut bytes).ok().map(|_| bytes)
}

} // verus!
