//! Ed25519 identities: key generation, signing and verification.
use crate::crypto::primitives::random_bytes32;
use crate::error::{ChainsError, ChainsResult};
use ed25519_dalek::{Signer, Verifier};
use vstd::prelude::*;

verus! {

/// The Ed25519 public key (compressed point) of a 32-byte secret seed.
pub uninterp spec fn ed25519_public(secret: Seq<u8>) -> Seq<u8>;

/// The Ed25519 signature (64 bytes) of `msg` under a 32-byte secret seed.
pub uninterp spec fn ed25519_signature(secret: Seq<u8>, msg: Seq<u8>) -> Seq<u8>;

/// Whether 32 bytes decompress to a point, so that they form a public key.
pub uninterp spec fn ed25519_key_decodes(public: Seq<u8>) -> bool;

/// Whether a 64-byte signature verifies for `msg` under a public key.
pub uninterp spec fn ed25519_accepts(public: Seq<u8>, msg: Seq<u8>, sig: Seq<u8>) -> bool;

/// Calls `SigningKey::verifying_key` on the key of seed `secret`. The
/// contract claims that the result is the public key of the seed and that
/// it decompresses (it is the compression of a curve point).
#[verifier::external_body]
fn ed25519_public_key(secret: &[u8; 32]) -> (r: [u8; 32])
    ensures
        r@ == ed25519_public(secret@),
        ed25519_key_decodes(r@),
{
    ed25519_dalek::SigningKey::from_bytes(secret).verifying_key().to_bytes()
}

/// Calls `Signer::sign` with the key of seed `secret`. The contract claims
/// that the (deterministic) signature is named `ed25519_signature` and that
/// it verifies under the seed's public key for the same message.
#[verifier::external_body]
fn ed25519_sign(secret: &[u8; 32], msg: &[u8]) -> (r: [u8; 64])
    ensures
        r@ == ed25519_signature(secret@, msg@),
        ed25519_accepts(ed25519_public(secret@), msg@, r@),
{
    ed25519_dalek::SigningKey::from_bytes(secret).sign(msg).to_bytes()
}

/// Calls `VerifyingKey::from_bytes` and reports whether it succeeded.
#[verifier::external_body]
pub(crate) fn ed25519_decodes(public: &[u8; 32]) -> (r: bool)
    ensures
        r == ed25519_key_decodes(public@),
{
    ed25519_dalek::VerifyingKey::from_bytes(public).is_ok()
}

/// Calls `Verifier::verify` on a decodable public key and reports whether
/// the signature was accepted.
#[verifier::external_body]
pub(crate) fn ed25519_verify(public: &[u8; 32], msg: &[u8], sig: &[u8; 64]) -> (r: bool)
    requires
        ed25519_key_decodes(public@),
    ensures
        r == ed25519_accepts(public@, msg@, sig@),
{
    match ed25519_dalek::VerifyingKey::from_bytes(public) {
        Ok(key) => key.verify(msg, &ed25519_dalek::Signature::from_bytes(sig)).is_ok(),
        Err(_) => false,
    }
}

/// An Ed25519 signing key: a 32-byte secret seed together with its public key.
pub struct SigningKey {
    secret: [u8; 32],
    public: [u8; 32],
}

/// An Ed25519 public key.
pub struct VerifyingKey {
    bytes: [u8; 32],
}

impl SigningKey {
    #[verifier::type_invariant]
    spec fn well_formed(&self) -> bool {
        &&& self.public@ == ed25519_public(self.secret@)
        &&& ed25519_key_decodes(self.public@)
    }

    /// The secret seed.
    pub closed spec fn secret_bytes(&self) -> Seq<u8> {
        self.secret@
    }

    /// The public key of this signing key.
    pub open spec fn public_bytes(&self) -> Seq<u8> {
        ed25519_public(self.secret_bytes())
    }

    /// The signing key with this secret seed.
    pub fn from_bytes(secret: &[u8; 32]) -> (r: SigningKey)
        ensures
            r.secret_bytes() == secret@,
    {
        let public = ed25519_public_key(secret);
        SigningKey { secret: *secret, public }
    }

    /// The secret seed.
    pub fn to_bytes(&self) -> (r: [u8; 32])
        ensures
            r@ == self.secret_bytes(),
    {
        self.secret
    }

    /// The public key of this signing key.
    pub fn verifying_key(&self) -> (r: VerifyingKey)
        ensures
            r@ == self.public_bytes(),
            ed25519_key_decodes(r@),
    {
        proof {
            use_type_invariant(self);
        }
        VerifyingKey { bytes: self.public }
    }

    /// Signs `msg`.
    pub fn sign(&self, msg: &[u8]) -> (r: [u8; 64])
        ensures
            r@ == ed25519_signature(self.secret_bytes(), msg@),
            ed25519_accepts(self.public_bytes(), msg@, r@),
            ed25519_key_decodes(self.public_bytes()),
    {
        proof {
            use_type_invariant(self);
        }
        ed25519_sign(&self.secret, msg)
    }
}

impl View for VerifyingKey {
    type V = Seq<u8>;

    closed spec fn view(&self) -> Seq<u8> {
        self.bytes@
    }
}

impl VerifyingKey {
    /// The 32 bytes of the compressed point.
    pub fn to_bytes(&self) -> (r: [u8; 32])
        ensures
            r@ == self@,
    {
        self.bytes
    }
}

/// Generates a random Ed25519 signing key.
pub fn generate_signing_key() -> SigningKey {
    let secret = random_bytes32();
    SigningKey::from_bytes(&secret)
}

/// What `verify` answers for a public key, a message and a signature.
pub open spec fn verify_spec(public: Seq<u8>, data: Seq<u8>, sig: Seq<u8>) -> ChainsResult<()> {
    if !ed25519_key_decodes(public) {
        Err(ChainsError::InvalidAuthorKey)
    } else if !ed25519_accepts(public, data, sig) {
        Err(ChainsError::SignatureInvalid)
    } else {
        Ok(())
    }
}

/// Signs `data` with `secret`.
pub fn sign(secret: &SigningKey, data: &[u8]) -> (r: [u8; 64])
    ensures
        r@ == ed25519_signature(secret.secret_bytes(), data@),
        ed25519_accepts(secret.public_bytes(), data@, r@),
{
    secret.sign(data)
}

/// Checks a signature of `data` under the public key `public`.
pub fn verify(public: &[u8; 32], data: &[u8], sig: &[u8; 64]) -> (r: ChainsResult<()>)
    ensures
        r == verify_spec(public@, data@, sig@),
{
    if !ed25519_decodes(public) {
        return Err(ChainsError::InvalidAuthorKey);
    }
    if ed25519_verify(public, data, sig) {
        Ok(())
    } else {
        Err(ChainsError::SignatureInvalid)
    }
}

} // verus!
