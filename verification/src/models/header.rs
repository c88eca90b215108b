//! Block headers: the lightweight, signed metadata of a block.
use crate::bytes::{
    append_bytes, id_eq, le_u32, le_u64, lemma_le_u32_round_trip, lemma_le_u64_round_trip, push_le,
};
use crate::codec::{
    bincode_header_content, header_content_encoding, header_fields_view, header_shape, HeaderFields,
};
use crate::bytes::to_vec;
use crate::crypto::hashing::{blake3, blake3_hash};
use crate::crypto::keys::{
    ed25519_accepts, ed25519_decodes, ed25519_key_decodes, ed25519_signature, ed25519_verify,
    SigningKey,
};
use crate::error::{ChainsError, ChainsResult};
use vstd::prelude::*;

verus! {

/// The lightweight metadata of a block.
///
/// Headers are designed to be gossiped quickly across the network to verify
/// the integrity and order of a stream without requiring the full payload.
#[derive(Debug, PartialEq, Eq)]
pub struct Header {
    /// BLAKE3 hash of the serialized header (excluding this field).
    pub block_id: [u8; 32],
    /// Ed25519 Public Key identifying the chain/topic.
    pub chain_id: [u8; 32],
    /// Ed25519 Public Key of the block author.
    pub author_id: [u8; 32],
    /// Monotonically increasing sequence number.
    pub sequence: u64,
    /// Unix timestamp of block creation.
    pub timestamp: u64,
    /// block_id of the preceding block in the chain.
    pub prev_hash: [u8; 32],
    /// BLAKE3 hash of the (potentially encrypted) body ciphertext.
    pub body_hash: [u8; 32],
    /// Time-to-live in seconds (0 = persistent).
    pub ttl: u32,
    /// Ed25519 signature of the header data.
    pub signature: Vec<u8>,
}

/// A header as a mathematical value.
pub struct HeaderView {
    pub block_id: Seq<u8>,
    pub chain_id: Seq<u8>,
    pub author_id: Seq<u8>,
    pub sequence: u64,
    pub timestamp: u64,
    pub prev_hash: Seq<u8>,
    pub body_hash: Seq<u8>,
    pub ttl: u32,
    pub signature: Seq<u8>,
}

impl View for Header {
    type V = HeaderView;

    open spec fn view(&self) -> HeaderView {
        HeaderView {
            block_id: self.block_id@,
            chain_id: self.chain_id@,
            author_id: self.author_id@,
            sequence: self.sequence,
            timestamp: self.timestamp,
            prev_hash: self.prev_hash@,
            body_hash: self.body_hash@,
            ttl: self.ttl,
            signature: self.signature@,
        }
    }
}

/// The bytes a header's signature covers: every field but the block id and
/// the signature, in declaration order, integers little-endian.
pub open spec fn signing_data_spec(h: HeaderView) -> Seq<u8> {
    h.chain_id + h.author_id + le_u64(h.sequence) + le_u64(h.timestamp) + h.prev_hash + h.body_hash
        + le_u32(h.ttl)
}

/// The signature covers every field but the block id and the signature
/// itself: two headers with fields of the right sizes whose signed bytes are
/// equal agree on every one of those fields, so a signature valid for one
/// header is valid for no header that differs from it in a signed field.
pub proof fn lemma_signing_data_covers_every_field(a: HeaderView, b: HeaderView)
    requires
        header_shape(a),
        header_shape(b),
        signing_data_spec(a) == signing_data_spec(b),
    ensures
        a.chain_id == b.chain_id,
        a.author_id == b.author_id,
        a.sequence == b.sequence,
        a.timestamp == b.timestamp,
        a.prev_hash == b.prev_hash,
        a.body_hash == b.body_hash,
        a.ttl == b.ttl,
{
    lemma_le_u64_round_trip(a.sequence);
    lemma_le_u64_round_trip(b.sequence);
    lemma_le_u64_round_trip(a.timestamp);
    lemma_le_u64_round_trip(b.timestamp);
    lemma_le_u32_round_trip(a.ttl);
    lemma_le_u32_round_trip(b.ttl);
    let sa = signing_data_spec(a);
    let sb = signing_data_spec(b);
    assert(sa.subrange(0, 32) =~= a.chain_id);
    assert(sb.subrange(0, 32) =~= b.chain_id);
    assert(sa.subrange(32, 64) =~= a.author_id);
    assert(sb.subrange(32, 64) =~= b.author_id);
    assert(sa.subrange(64, 72) =~= le_u64(a.sequence));
    assert(sb.subrange(64, 72) =~= le_u64(b.sequence));
    assert(sa.subrange(72, 80) =~= le_u64(a.timestamp));
    assert(sb.subrange(72, 80) =~= le_u64(b.timestamp));
    assert(sa.subrange(80, 112) =~= a.prev_hash);
    assert(sb.subrange(80, 112) =~= b.prev_hash);
    assert(sa.subrange(112, 144) =~= a.body_hash);
    assert(sb.subrange(112, 144) =~= b.body_hash);
    assert(sa.subrange(144, 148) =~= le_u32(a.ttl));
    assert(sb.subrange(144, 148) =~= le_u32(b.ttl));
}

/// The bytes a header's block id is the hash of: the bincode encoding of
/// every field but the block id.
pub open spec fn content_bytes(h: HeaderView) -> Seq<u8> {
    header_content_encoding(
        h.chain_id,
        h.author_id,
        h.sequence,
        h.timestamp,
        h.prev_hash,
        h.body_hash,
        h.ttl,
        h.signature,
    )
}

/// The block id a header must carry.
pub open spec fn block_id_spec(h: HeaderView) -> Seq<u8> {
    blake3(content_bytes(h))
}

/// What `Header::verify` answers: the block id is checked first, then the
/// author key, the signature length, and the signature itself.
pub open spec fn header_verify_spec(h: HeaderView) -> ChainsResult<()> {
    if h.block_id != block_id_spec(h) {
        Err(ChainsError::BlockIdMismatch)
    } else if !ed25519_key_decodes(h.author_id) {
        Err(ChainsError::InvalidAuthorKey)
    } else if h.signature.len() != 64 {
        Err(ChainsError::InvalidSignatureLength)
    } else if !ed25519_accepts(h.author_id, signing_data_spec(h), h.signature) {
        Err(ChainsError::SignatureInvalid)
    } else {
        Ok(())
    }
}

/// A header passes verification exactly when its block id is the BLAKE3
/// hash of its content, and its signature, 64 bytes long, is accepted under
/// its author's key for its signed bytes, whatever its place in the chain.
pub proof fn lemma_verified_header_is_signed(h: HeaderView)
    ensures
        header_verify_spec(h) is Ok <==> (h.block_id == blake3(content_bytes(h)) && ed25519_key_decodes(h.author_id)
            && h.signature.len() == 64 && ed25519_accepts(h.author_id, signing_data_spec(h), h.signature)),
        header_verify_spec(h) is Ok ==> ed25519_accepts(
            h.author_id,
            h.chain_id + h.author_id + le_u64(h.sequence) + le_u64(h.timestamp) + h.prev_hash + h.body_hash + le_u32(
                h.ttl,
            ),
            h.signature,
        ),
{
}

/// A signature as a fixed-size array.
fn to_signature(s: &[u8]) -> (r: [u8; 64])
    requires
        s@.len() == 64,
    ensures
        r@ == s@,
{
    let mut a: [u8; 64] = [0u8; 64];
    let mut i: usize = 0;
    while i < 64
        invariant
            i <= 64,
            s@.len() == 64,
            forall|j: int| 0 <= j < i ==> a@[j] == s@[j],
        decreases 64 - i,
    {
        a[i] = s[i];
        i = i + 1;
    }
    assert(a@ =~= s@);
    a
}

impl Clone for Header {
    fn clone(&self) -> (r: Self)
        ensures
            r@ == self@,
    {
        let mut signature: Vec<u8> = Vec::new();
        append_bytes(&mut signature, self.signature.as_slice());
        assert(Seq::<u8>::empty() + self.signature@ =~= self.signature@);
        Header {
            block_id: self.block_id,
            chain_id: self.chain_id,
            author_id: self.author_id,
            sequence: self.sequence,
            timestamp: self.timestamp,
            prev_hash: self.prev_hash,
            body_hash: self.body_hash,
            ttl: self.ttl,
            signature,
        }
    }
}

impl Header {
    /// The header's fields, in declaration order.
    pub(crate) fn to_fields(&self) -> (r: HeaderFields)
        ensures
            header_fields_view(r) == self@,
    {
        (
            self.block_id,
            self.chain_id,
            self.author_id,
            self.sequence,
            self.timestamp,
            self.prev_hash,
            self.body_hash,
            self.ttl,
            to_vec(self.signature.as_slice()),
        )
    }

    /// The header with these fields.
    pub(crate) fn from_fields(f: &HeaderFields) -> (r: Header)
        ensures
            r@ == header_fields_view(*f),
    {
        Header {
            block_id: f.0,
            chain_id: f.1,
            author_id: f.2,
            sequence: f.3,
            timestamp: f.4,
            prev_hash: f.5,
            body_hash: f.6,
            ttl: f.7,
            signature: to_vec(f.8.as_slice()),
        }
    }

    /// Creates and signs a new Header.
    ///
    /// The signature covers every field; the block id is the hash of every
    /// field but itself. A header whose `author_id` is the signing key's
    /// public key verifies.
    pub fn new(
        chain_id: [u8; 32],
        author_id: [u8; 32],
        sequence: u64,
        timestamp: u64,
        prev_hash: [u8; 32],
        body_hash: [u8; 32],
        ttl: u32,
        signing_key: &SigningKey,
    ) -> (r: Header)
        ensures
            r.chain_id@ == chain_id@,
            r.author_id@ == author_id@,
            r.sequence == sequence,
            r.timestamp == timestamp,
            r.prev_hash@ == prev_hash@,
            r.body_hash@ == body_hash@,
            r.ttl == ttl,
            r.signature@ == ed25519_signature(signing_key.secret_bytes(), signing_data_spec(r@)),
            r.signature@.len() == 64,
            r.block_id@ == block_id_spec(r@),
            author_id@ == signing_key.public_bytes() ==> header_verify_spec(r@) is Ok,
    {
        let mut header = Header {
            block_id: [0; 32],
            chain_id,
            author_id,
            sequence,
            timestamp,
            prev_hash,
            body_hash,
            ttl,
            signature: Vec::new(),
        };
        let signing_data = header.signing_data();
        let sig = signing_key.sign(signing_data.as_slice());
        let mut signature: Vec<u8> = Vec::new();
        append_bytes(&mut signature, sig.as_slice());
        assert(Seq::<u8>::empty() + sig@ =~= sig@);
        header.signature = signature;
        let content = header.serialized_without_id();
        header.block_id = blake3_hash(content.as_slice());
        proof {
            assert(signing_data_spec(header@) == signing_data@);
        }
        header
    }

    /// Data used for signing: every field but the block id and the signature.
    fn signing_data(&self) -> (r: Vec<u8>)
        ensures
            r@ == signing_data_spec(self@),
    {
        let mut v: Vec<u8> = Vec::new();
        append_bytes(&mut v, self.chain_id.as_slice());
        append_bytes(&mut v, self.author_id.as_slice());
        push_le(&mut v, self.sequence, 8);
        push_le(&mut v, self.timestamp, 8);
        append_bytes(&mut v, self.prev_hash.as_slice());
        append_bytes(&mut v, self.body_hash.as_slice());
        push_le(&mut v, self.ttl as u64, 4);
        assert(v@ =~= signing_data_spec(self@));
        v
    }

    /// Serializes the header excluding the block_id for hashing.
    fn serialized_without_id(&self) -> (r: Vec<u8>)
        ensures
            r@ == content_bytes(self@),
    {
        bincode_header_content(
            &self.chain_id,
            &self.author_id,
            self.sequence,
            self.timestamp,
            &self.prev_hash,
            &self.body_hash,
            self.ttl,
            &self.signature,
        )
    }

    /// Verifies the cryptographic signature and block_id integrity.
    pub fn verify(&self) -> (r: ChainsResult<()>)
        ensures
            r == header_verify_spec(self@),
            r is Ok <==> (self@.block_id == blake3(content_bytes(self@)) && ed25519_key_decodes(self@.author_id)
                && self@.signature.len() == 64 && ed25519_accepts(
                self@.author_id,
                signing_data_spec(self@),
                self@.signature,
            )),
    {
        let content = self.serialized_without_id();
        let computed_id = blake3_hash(content.as_slice());
        if !id_eq(&self.block_id, &computed_id) {
            return Err(ChainsError::BlockIdMismatch);
        }
        if !ed25519_decodes(&self.author_id) {
            return Err(ChainsError::InvalidAuthorKey);
        }
        if self.signature.len() != 64 {
            return Err(ChainsError::InvalidSignatureLength);
        }
        let sig = to_signature(self.signature.as_slice());
        let data = self.signing_data();
        if ed25519_verify(&self.author_id, data.as_slice(), &sig) {
            Ok(())
        } else {
            Err(ChainsError::SignatureInvalid)
        }
    }
}

} // verus!
