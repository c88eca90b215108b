//! Chains: append-only, hash-linked sequences of signed blocks.
use crate::bytes::{id_eq, is_zero_id, zero_id};
use crate::crypto::hashing::blake3;
use crate::crypto::keys::SigningKey;
use crate::crypto::primitives::{unix_time_secs, xchacha_limit};
use crate::error::{ChainsError, ChainsResult};
use crate::models::body::{algo_none, algo_xchacha, body_decrypt_spec, Body, BodyView};
use crate::models::body_map::BodyMap;
use crate::models::header::{
    block_id_spec, header_verify_spec, signing_data_spec, Header, HeaderView,
};
use crate::crypto::keys::ed25519_signature;
use vstd::prelude::*;

verus! {

/// A high-level representation of an append-only cryptographic stream.
#[derive(Debug)]
pub struct Chain {
    /// The unique identifier of the chain (Public Key).
    pub id: [u8; 32],
    /// Ordered list of headers in the chain.
    pub headers: Vec<Header>,
    /// Map of block_id to the actual block Body.
    pub bodies: BodyMap,
}

/// The headers of a chain as mathematical values.
pub open spec fn header_views(hs: Seq<Header>) -> Seq<HeaderView> {
    hs.map_values(|h: Header| h@)
}

/// What is wrong with the header at position `i`, if anything, checked in
/// the order `Chain::validate` checks: sequence number, chain id, link to
/// the predecessor, presence and hash of the body, then the header itself.
pub open spec fn header_fault(
    id: Seq<u8>,
    hs: Seq<HeaderView>,
    bodies: Map<Seq<u8>, BodyView>,
    i: int,
) -> Option<ChainsError> {
    let h = hs[i];
    if h.sequence != i + 1 {
        Some(
            ChainsError::SequenceMismatch {
                index: i as u64,
                expected: (i + 1) as u64,
                found: h.sequence,
            },
        )
    } else if h.chain_id != id {
        Some(ChainsError::ChainIdMismatch { sequence: h.sequence })
    } else if i == 0 && h.prev_hash != zero_id() {
        Some(ChainsError::GenesisPrevHash)
    } else if i > 0 && h.prev_hash != hs[i - 1].block_id {
        Some(ChainsError::BrokenLink { sequence: h.sequence })
    } else if !bodies.contains_key(h.block_id) {
        Some(ChainsError::BodyMissing { sequence: h.sequence })
    } else if h.body_hash != blake3(bodies[h.block_id].ciphertext) {
        Some(ChainsError::BodyHashMismatch { sequence: h.sequence })
    } else {
        match header_verify_spec(h) {
            Err(e) => Some(e),
            Ok(_) => None,
        }
    }
}

/// The outcome of validating the first `n` headers: the first fault found.
pub open spec fn validate_prefix(
    id: Seq<u8>,
    hs: Seq<HeaderView>,
    bodies: Map<Seq<u8>, BodyView>,
    n: nat,
) -> ChainsResult<()>
    decreases n,
{
    if n == 0 {
        Ok(())
    } else {
        match validate_prefix(id, hs, bodies, (n - 1) as nat) {
            Err(e) => Err(e),
            Ok(_) => match header_fault(id, hs, bodies, n - 1) {
                Some(e) => Err(e),
                None => Ok(()),
            },
        }
    }
}

/// Whether every header passes every check.
pub open spec fn all_sound(
    id: Seq<u8>,
    hs: Seq<HeaderView>,
    bodies: Map<Seq<u8>, BodyView>,
    n: nat,
) -> bool {
    forall|i: int| 0 <= i < n ==> #[trigger] header_fault(id, hs, bodies, i) is None
}

proof fn lemma_prefix_ok(
    id: Seq<u8>,
    hs: Seq<HeaderView>,
    bodies: Map<Seq<u8>, BodyView>,
    n: nat,
)
    ensures
        validate_prefix(id, hs, bodies, n) is Ok <==> all_sound(id, hs, bodies, n),
    decreases n,
{
    if n > 0 {
        lemma_prefix_ok(id, hs, bodies, (n - 1) as nat);
    }
}

proof fn lemma_first_fault(
    id: Seq<u8>,
    hs: Seq<HeaderView>,
    bodies: Map<Seq<u8>, BodyView>,
    i: nat,
    n: nat,
)
    requires
        i < n,
        validate_prefix(id, hs, bodies, i) is Ok,
        header_fault(id, hs, bodies, i as int) is Some,
    ensures
        validate_prefix(id, hs, bodies, n) == Err::<(), ChainsError>(
            header_fault(id, hs, bodies, i as int).unwrap(),
        ),
    decreases n,
{
    if n > i + 1 {
        lemma_first_fault(id, hs, bodies, i, (n - 1) as nat);
    }
}

/// The errors chain validation reports.
pub open spec fn chain_error(e: ChainsError) -> bool {
    ||| e is SequenceMismatch
    ||| e is ChainIdMismatch
    ||| e is GenesisPrevHash
    ||| e is BrokenLink
    ||| e is BodyHashMismatch
    ||| e is BodyMissing
    ||| e is BlockIdMismatch
    ||| e is InvalidAuthorKey
    ||| e is InvalidSignatureLength
    ||| e is SignatureInvalid
}


/// Validation reports only the errors of `chain_error`.
pub proof fn lemma_validate_prefix_errors(
    id: Seq<u8>,
    hs: Seq<HeaderView>,
    bodies: Map<Seq<u8>, BodyView>,
    n: nat,
)
    ensures
        validate_prefix(id, hs, bodies, n) matches Err(e) ==> chain_error(e),
    decreases n,
{
    if n > 0 {
        lemma_validate_prefix_errors(id, hs, bodies, (n - 1) as nat);
    }
}

/// A valid chain stops validating when any one of these is changed: the
/// chain's id; the sequence number of one header; the link of one header to
/// its predecessor; or the body of one header taken away. (A body whose
/// bytes are replaced is caught only as far as BLAKE3 has no collision,
/// which nothing here states.)
pub proof fn lemma_tampering_is_detected(
    id: Seq<u8>,
    hs: Seq<HeaderView>,
    bodies: Map<Seq<u8>, BodyView>,
    i: int,
    other_id: Seq<u8>,
    seq: u64,
    prev: Seq<u8>,
)
    requires
        validate_prefix(id, hs, bodies, hs.len()) is Ok,
        0 <= i < hs.len(),
    ensures
        other_id != id ==> validate_prefix(other_id, hs, bodies, hs.len()) is Err,
        seq != hs[i].sequence ==> validate_prefix(
            id,
            hs.update(i, (HeaderView { sequence: seq, ..hs[i] })),
            bodies,
            hs.len(),
        ) is Err,
        prev != hs[i].prev_hash ==> validate_prefix(
            id,
            hs.update(i, (HeaderView { prev_hash: prev, ..hs[i] })),
            bodies,
            hs.len(),
        ) is Err,
        validate_prefix(id, hs, bodies.remove(hs[i].block_id), hs.len()) is Err,
{
    let n = hs.len();
    lemma_prefix_ok(id, hs, bodies, n);
    assert(header_fault(id, hs, bodies, i) is None);
    assert(header_fault(id, hs, bodies, 0) is None);
    if i > 0 {
        assert(header_fault(id, hs, bodies, i - 1) is None);
    }
    lemma_prefix_ok(other_id, hs, bodies, n);
    if other_id != id {
        assert(header_fault(other_id, hs, bodies, 0) is Some);
    }
    let hs1 = hs.update(i, (HeaderView { sequence: seq, ..hs[i] }));
    lemma_prefix_ok(id, hs1, bodies, n);
    if seq != hs[i].sequence {
        assert(header_fault(id, hs1, bodies, i) is Some);
    }
    let hs2 = hs.update(i, (HeaderView { prev_hash: prev, ..hs[i] }));
    lemma_prefix_ok(id, hs2, bodies, n);
    if prev != hs[i].prev_hash {
        if i > 0 {
            assert(hs2[i - 1] == hs[i - 1]);
        }
        assert(header_fault(id, hs2, bodies, i) is Some);
    }
    let b2 = bodies.remove(hs[i].block_id);
    lemma_prefix_ok(id, hs, b2, n);
    assert(header_fault(id, hs, b2, i) is Some);
}

/// A chain that does not validate fails with one of `chain_error`.
pub proof fn lemma_validate_errors(c: Chain)
    ensures
        c.validate_spec() matches Err(e) ==> chain_error(e),
{
    lemma_validate_prefix_errors(c.id@, c.header_seq(), c.bodies.view(), c.headers@.len());
}

/// What `append` makes of `old`: `c` holds the old headers and one more,
/// numbered one past the last, linked to the last block (or to the all-zero
/// hash), authored and signed by the signing key, and committing to a new
/// body that holds `data`, encrypted with XChaCha20-Poly1305 under the given
/// key if there is one. A valid chain stays valid unless the new block id
/// equals an earlier one.
pub open spec fn appended(
    old: Chain,
    c: Chain,
    data: Seq<u8>,
    ttl: u32,
    signing_key: SigningKey,
    encryption_key: Option<&[u8; 32]>,
) -> bool {
    {
        let n = old.headers@.len();
        let h = c.header_seq()[n as int];
        let b = c.bodies.view()[h.block_id];
        &&& c.id@ == old.id@
        &&& c.headers@.len() == n + 1
        &&& c.header_seq().take(n as int) == old.header_seq()
        &&& c.bodies.view() == old.bodies.view().insert(h.block_id, b)
        &&& h.chain_id == old.id@
        &&& h.author_id == signing_key.public_bytes()
        &&& h.sequence == n + 1
        &&& h.prev_hash == (if n == 0 {
            zero_id()
        } else {
            old.header_seq()[n - 1].block_id
        })
        &&& h.ttl == ttl
        &&& h.body_hash == blake3(b.ciphertext)
        &&& h.signature == ed25519_signature(signing_key.secret_bytes(), signing_data_spec(h))
        &&& h.block_id == block_id_spec(h)
        &&& header_verify_spec(h) is Ok
        &&& b.block_id == h.block_id
        &&& match encryption_key {
            None => b.encryption_algo == algo_none() && b.ciphertext == data,
            Some(k) => body_decrypt_spec(b, k@) == Ok::<Seq<u8>, ChainsError>(data)
                && b.encryption_algo == algo_xchacha() && b.ciphertext.len() == data.len() + 16,
        }
        &&& (old.validate_spec() is Ok && (forall|i: int|
            0 <= i < n ==> (#[trigger] old.header_seq()[i]).block_id != h.block_id))
            ==> c.validate_spec() is Ok
    }
}

impl Chain {
    /// The chain's headers as mathematical values.
    pub open spec fn header_seq(&self) -> Seq<HeaderView> {
        header_views(self.headers@)
    }

    /// What `validate` answers.
    pub open spec fn validate_spec(&self) -> ChainsResult<()> {
        validate_prefix(self.id@, self.header_seq(), self.bodies.view(), self.headers@.len())
    }

    /// Initializes a new empty chain with a given ID.
    pub fn new(id: [u8; 32]) -> (r: Chain)
        ensures
            r.id@ == id@,
            r.headers@.len() == 0,
            r.bodies.view() == Map::<Seq<u8>, BodyView>::empty(),
    {
        Chain { id, headers: Vec::new(), bodies: BodyMap::new() }
    }

    /// Exhaustively validates the cryptographic integrity of the entire chain.
    pub fn validate(&self) -> (r: ChainsResult<()>)
        ensures
            r == self.validate_spec(),
    {
        let ghost hs = self.header_seq();
        let ghost bodies = self.bodies.view();
        let mut i: usize = 0;
        while i < self.headers.len()
            invariant
                i <= self.headers@.len(),
                hs == self.header_seq(),
                bodies == self.bodies.view(),
                validate_prefix(self.id@, hs, bodies, i as nat) == Ok::<(), ChainsError>(()),
            decreases self.headers@.len() - i,
        {
            let header = &self.headers[i];
            assert(hs[i as int] == header@);
            proof {
                if header_fault(self.id@, hs, bodies, i as int) is Some {
                    lemma_first_fault(self.id@, hs, bodies, i as nat, self.headers@.len());
                }
            }
            let expected_seq = (i + 1) as u64;
            if header.sequence != expected_seq {
                return Err(
                    ChainsError::SequenceMismatch {
                        index: i as u64,
                        expected: expected_seq,
                        found: header.sequence,
                    },
                );
            }
            if !id_eq(&header.chain_id, &self.id) {
                return Err(ChainsError::ChainIdMismatch { sequence: header.sequence });
            }
            if i == 0 {
                if !is_zero_id(&header.prev_hash) {
                    return Err(ChainsError::GenesisPrevHash);
                }
            } else {
                assert(hs[i - 1] == self.headers@[i - 1]@);
                if !id_eq(&header.prev_hash, &self.headers[i - 1].block_id) {
                    return Err(ChainsError::BrokenLink { sequence: header.sequence });
                }
            }
            match self.bodies.get(&header.block_id) {
                Some(body) => {
                    let expected = body.body_hash();
                    if !id_eq(&header.body_hash, &expected) {
                        return Err(ChainsError::BodyHashMismatch { sequence: header.sequence });
                    }
                },
                None => {
                    return Err(ChainsError::BodyMissing { sequence: header.sequence });
                },
            }
            match header.verify() {
                Err(e) => {
                    return Err(e);
                },
                Ok(_) => {},
            }
            i = i + 1;
        }
        Ok(())
    }

    /// Appends a new block to the chain, signed with `signing_key` and, when
    /// a key is given, encrypted with XChaCha20-Poly1305, stamped with the
    /// clock: `append_at` with the current time.
    pub fn append(
        &self,
        data: Vec<u8>,
        ttl: u32,
        signing_key: &SigningKey,
        encryption_key: Option<&[u8; 32]>,
    ) -> (r: ChainsResult<Chain>)
        requires
            self.headers@.len() < u64::MAX,
        ensures
            r is Err ==> r == Err::<Chain, ChainsError>(ChainsError::ClockBeforeEpoch) || (
            encryption_key is Some && data@.len() >= xchacha_limit() && r == Err::<
                Chain,
                ChainsError,
            >(ChainsError::EncryptionFailed)),
            (encryption_key is None || data@.len() < xchacha_limit()) ==> (r is Ok || r == Err::<
                Chain,
                ChainsError,
            >(ChainsError::ClockBeforeEpoch)),
            r matches Ok(c) ==> appended(*self, c, data@, ttl, *signing_key, encryption_key),
    {
        let timestamp = match unix_time_secs() {
            Some(t) => t,
            None => {
                return Err(ChainsError::ClockBeforeEpoch);
            },
        };
        self.append_at(data, ttl, signing_key, encryption_key, timestamp)
    }

    /// Appends a new block stamped with `timestamp`, as `append` does.
    pub fn append_at(
        &self,
        data: Vec<u8>,
        ttl: u32,
        signing_key: &SigningKey,
        encryption_key: Option<&[u8; 32]>,
        timestamp: u64,
    ) -> (r: ChainsResult<Chain>)
        requires
            self.headers@.len() < u64::MAX,
        ensures
            r is Err <==> (encryption_key is Some && data@.len() >= xchacha_limit()),
            r is Err ==> r == Err::<Chain, ChainsError>(ChainsError::EncryptionFailed),
            r matches Ok(c) ==> appended(*self, c, data@, ttl, *signing_key, encryption_key)
                && c.header_seq()[self.headers@.len() as int].timestamp == timestamp,
    {
        let mut new_chain = self.clone();
        let n = new_chain.headers.len();
        let sequence = (n as u64) + 1;
        let prev_hash: [u8; 32] = if n == 0 {
            [0u8; 32]
        } else {
            new_chain.headers[n - 1].block_id
        };
        assert(prev_hash@ =~= (if n == 0 {
            zero_id()
        } else {
            self.header_seq()[n - 1].block_id
        }));
        let mut body = match encryption_key {
            Some(key) => match Body::new_encrypted([0; 32], data.as_slice(), key) {
                Ok(b) => b,
                Err(e) => {
                    return Err(e);
                },
            },
            None => Body::new([0; 32], data),
        };
        let author_id = signing_key.verifying_key().to_bytes();
        let header = Header::new(
            new_chain.id,
            author_id,
            sequence,
            timestamp,
            prev_hash,
            body.body_hash(),
            ttl,
            signing_key,
        );
        body.block_id = header.block_id;
        let ghost hv = header@;
        let ghost bv = body@;
        let ghost old_bodies = new_chain.bodies.view();
        new_chain.headers.push(header);
        new_chain.bodies.insert(body.block_id, body);
        proof {
            let c = new_chain;
            assert(c.header_seq().take(n as int) =~= self.header_seq());
            assert(c.header_seq()[n as int] == hv);
            assert(c.bodies.view()[hv.block_id] == bv);
            if self.validate_spec() is Ok && (forall|i: int|
                0 <= i < n ==> (#[trigger] self.header_seq()[i]).block_id != hv.block_id) {
                lemma_prefix_ok(self.id@, self.header_seq(), self.bodies.view(), n as nat);
                assert forall|i: int| 0 <= i < n + 1 implies #[trigger] header_fault(
                    c.id@,
                    c.header_seq(),
                    c.bodies.view(),
                    i,
                ) is None by {
                    if i < n {
                        assert(c.header_seq()[i] == self.header_seq()[i]);
                        assert(header_fault(self.id@, self.header_seq(), self.bodies.view(), i) is None);
                        assert(self.header_seq()[i].block_id != hv.block_id);
                        if i > 0 {
                            assert(c.header_seq()[i - 1] == self.header_seq()[i - 1]);
                        }
                    }
                }
                lemma_prefix_ok(c.id@, c.header_seq(), c.bodies.view(), (n + 1) as nat);
            }
        }
        Ok(new_chain)
    }

    /// The body of the block with this id.
    pub fn get_body(&self, block_id: &[u8; 32]) -> (r: Option<&Body>)
        ensures
            match r {
                Some(b) => self.bodies.view().contains_key(block_id@) && b@
                    == self.bodies.view()[block_id@],
                None => !self.bodies.view().contains_key(block_id@),
            },
    {
        self.bodies.get(block_id)
    }

    /// The header with this sequence number (the first is number 1).
    pub fn get_header(&self, sequence: u64) -> (r: Option<&Header>)
        ensures
            match r {
                Some(h) => 1 <= sequence <= self.headers@.len() && h@ == self.header_seq()[sequence - 1],
                None => sequence == 0 || sequence > self.headers@.len(),
            },
    {
        if sequence == 0 || sequence > self.headers.len() as u64 {
            None
        } else {
            Some(&self.headers[(sequence - 1) as usize])
        }
    }
}

impl Clone for Chain {
    fn clone(&self) -> (r: Self)
        ensures
            r.id@ == self.id@,
            r.header_seq() == self.header_seq(),
            r.bodies.view() == self.bodies.view(),
    {
        let mut headers: Vec<Header> = Vec::new();
        let mut i: usize = 0;
        while i < self.headers.len()
            invariant
                i <= self.headers@.len(),
                headers@.len() == i,
                forall|j: int| 0 <= j < i ==> #[trigger] headers@[j]@ == self.headers@[j]@,
            decreases self.headers@.len() - i,
        {
            headers.push(self.headers[i].clone());
            i = i + 1;
        }
        let r = Chain { id: self.id, headers, bodies: self.bodies.clone() };
        assert(r.header_seq() =~= self.header_seq());
        r
    }
}

} // verus!
