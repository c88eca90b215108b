//! The cryptographic and system primitives the protocol is built from:
//! randomness, the clock, XChaCha20-Poly1305, X25519 and HMAC-SHA256.
use chacha20poly1305::aead::{Aead, AeadCore, KeyInit};
use hmac::Mac;
use vstd::prelude::*;

verus! {

// ---------------------------------------------------------------------------
// Randomness and time

/// Calls `rand::random` for 32 bytes. Nothing is claimed of the result.
#[verifier::external_body]
pub(crate) fn random_bytes32() -> (r: [u8; 32]) {
    rand::random()
}

/// Calls `XChaCha20Poly1305::generate_nonce` with the operating system's
/// generator. Nothing is claimed of the result.
#[verifier::external_body]
pub(crate) fn random_nonce() -> (r: [u8; 24]) {
    let nonce = chacha20poly1305::XChaCha20Poly1305::generate_nonce(
        &mut chacha20poly1305::aead::OsRng,
    );
    nonce.into()
}

/// Calls `SystemTime::now().duration_since(UNIX_EPOCH)` and gives whole
/// seconds, or `None` when the clock reads a time before the epoch.
/// Nothing is claimed of the value.
#[verifier::external_body]
pub(crate) fn unix_time_secs() -> (r: Option<u64>) {
    std::time::SystemTime::now().duration_since(std::time::UNIX_EPOCH).ok().map(|d| d.as_secs())
}

// ---------------------------------------------------------------------------
// XChaCha20-Poly1305

/// The ciphertext (with its 16-byte tag appended) of `pt` under a 32-byte
/// key and a 24-byte nonce.
pub uninterp spec fn xchacha_seal(key: Seq<u8>, nonce: Seq<u8>, pt: Seq<u8>) -> Seq<u8>;

/// The plaintext of `ct` under a key and a nonce, or `None` when the tag
/// does not authenticate it.
pub uninterp spec fn xchacha_open(key: Seq<u8>, nonce: Seq<u8>, ct: Seq<u8>) -> Option<Seq<u8>>;

/// The longest plaintext the cipher accepts is one byte short of this
/// (its 32-bit block counter must not overflow).
pub open spec fn xchacha_limit() -> nat {
    64 * 0xffff_ffff
}

/// Calls `Aead::encrypt` of `XChaCha20Poly1305`. The contract claims: it
/// fails exactly when the plaintext reaches the cipher's length limit;
/// otherwise the ciphertext is the plaintext's length plus the 16-byte tag,
/// and decrypting it with the same key and nonce gives the plaintext back.
#[verifier::external_body]
pub(crate) fn xchacha_encrypt(key: &[u8; 32], nonce: &[u8; 24], pt: &[u8]) -> (r: Option<Vec<u8>>)
    ensures
        r is Some <==> pt@.len() < xchacha_limit(),
        r matches Some(c) ==> {
            &&& c@ == xchacha_seal(key@, nonce@, pt@)
            &&& c@.len() == pt@.len() + 16
            &&& xchacha_open(key@, nonce@, c@) == Some(pt@)
        },
{
    let cipher = chacha20poly1305::XChaCha20Poly1305::new(key.into());
    cipher.encrypt(chacha20poly1305::XNonce::from_slice(nonce), pt).ok()
}

/// Calls `Aead::decrypt` of `XChaCha20Poly1305`. The contract claims that
/// the result is `xchacha_open` of the arguments and, when there is one, is
/// 16 bytes shorter than the ciphertext.
#[verifier::external_body]
pub(crate) fn xchacha_decrypt(key: &[u8; 32], nonce: &[u8; 24], ct: &[u8]) -> (r: Option<Vec<u8>>)
    ensures
        match r {
            Some(p) => xchacha_open(key@, nonce@, ct@) == Some(p@) && ct@.len() == p@.len() + 16,
            None => xchacha_open(key@, nonce@, ct@) is None,
        },
{
    let cipher = chacha20poly1305::XChaCha20Poly1305::new(key.into());
    cipher.decrypt(chacha20poly1305::XNonce::from_slice(nonce), ct).ok()
}

// ---------------------------------------------------------------------------
// X25519

/// The X25519 public key of a 32-byte secret.
pub uninterp spec fn x25519_public(secret: Seq<u8>) -> Seq<u8>;

/// The X25519 shared secret of a secret and another party's public key.
pub uninterp spec fn x25519_shared(secret: Seq<u8>, public: Seq<u8>) -> Seq<u8>;

/// Calls `PublicKey::from(&StaticSecret)`.
#[verifier::external_body]
pub(crate) fn x25519_public_key(secret: &[u8; 32]) -> (r: [u8; 32])
    ensures
        r@ == x25519_public(secret@),
{
    x25519_dalek::PublicKey::from(&x25519_dalek::StaticSecret::from(*secret)).to_bytes()
}

/// Calls `StaticSecret::diffie_hellman`. Besides naming the result, the
/// contract states the agreement that Diffie-Hellman exists for: when
/// `public` is the public key of some secret, the result is what that secret
/// gets with the public key of `secret`.
#[verifier::external_body]
pub(crate) fn x25519_diffie_hellman(secret: &[u8; 32], public: &[u8; 32]) -> (r: [u8; 32])
    ensures
        r@ == x25519_shared(secret@, public@),
        forall|other: Seq<u8>|
            other.len() == 32 && #[trigger] x25519_public(other) == public@ ==> r@ == x25519_shared(
                other,
                x25519_public(secret@),
            ),
{
    x25519_dalek::StaticSecret::from(*secret).diffie_hellman(
        &x25519_dalek::PublicKey::from(*public),
    ).to_bytes()
}

/// Calls `StaticSecret::random_from_rng` with the operating system's
/// generator and gives the secret's bytes. Nothing is claimed of them.
#[verifier::external_body]
pub(crate) fn x25519_random_secret() -> (r: [u8; 32]) {
    x25519_dalek::StaticSecret::random_from_rng(rand::rngs::OsRng).to_bytes()
}

// ---------------------------------------------------------------------------
// HMAC-SHA256

/// HMAC-SHA256 of `data` under `key` (32 bytes).
pub uninterp spec fn hmac_sha256_spec(key: Seq<u8>, data: Seq<u8>) -> Seq<u8>;

/// Calls `Hmac::<Sha256>::new_from_slice`, `update` and `finalize`. HMAC
/// accepts keys of any length, so the construction does not fail.
#[verifier::external_body]
pub(crate) fn hmac_sha256(key: &[u8], data: &[u8]) -> (r: [u8; 32])
    ensures
        r@ == hmac_sha256_spec(key@, data@),
{
    let mut mac = <hmac::Hmac<sha2::Sha256> as Mac>::new_from_slice(key).expect("HMAC takes any key length");
    mac.update(data);
    mac.finalize().into_bytes().into()
}

} // verus!
