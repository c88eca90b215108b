//! The work behind the `append` and `show` commands, on local storage.
use crate::crypto::keys::SigningKey;
use crate::crypto::primitives::unix_time_secs;
use crate::error::{ChainsError, ChainsResult};
use crate::crypto::primitives::xchacha_limit;
use crate::models::body::{algo_none, algo_xchacha, body_decrypt_spec, body_hash_spec, Body, BodyView};
use crate::models::header::header_verify_spec;
use crate::models::header::Header;
use crate::bytes::zero_id;
use crate::models::header::HeaderView;
use crate::storage::{body_at, found_headers, header_at, latest_at, registered, storage_error, with_block, Storage};
use vstd::prelude::*;
use vstd::string::StringSliceAdditionalSpecFns;

verus! {

/// Handles local storage operations for the CLI.
pub struct CommandHandlers;

/// What `show` displays for one block's payload.
#[derive(Debug)]
pub enum BlockData {
    /// The body is not stored.
    Missing,
    /// The body is encrypted and no key was given.
    Encrypted,
    /// The payload: the plaintext body, or the decrypted one.
    Plain(Vec<u8>),
    /// Decryption with the given key failed.
    DecryptionError(ChainsError),
}

/// One block as `show` lists it.
#[derive(Debug)]
pub struct BlockSummary {
    pub sequence: u64,
    pub block_id: [u8; 32],
    pub data: BlockData,
}

/// Whether `d` is what `show` displays for a block whose body is `body`
/// (if stored), read with `key` (if given).
pub open spec fn block_data_matches(body: Option<BodyView>, key: Option<Seq<u8>>, d: BlockData) -> bool {
    match body {
        None => d is Missing,
        Some(b) => if b.encryption_algo != algo_none() {
            match key {
                None => d is Encrypted,
                Some(k) => match d {
                    BlockData::Plain(p) => body_decrypt_spec(b, k) == Ok::<Seq<u8>, ChainsError>(p@),
                    BlockData::DecryptionError(e) => body_decrypt_spec(b, k) == Err::<Seq<u8>, ChainsError>(e),
                    _ => false,
                },
            }
        } else {
            d matches BlockData::Plain(p) && p@ == b.ciphertext
        },
    }
}

/// An optional key as an optional byte string.
pub open spec fn key_view(key: Option<&[u8; 32]>) -> Option<Seq<u8>> {
    match key {
        Some(k) => Some(k@),
        None => None,
    }
}

/// An optional body as an optional value.
pub open spec fn body_view(body: Option<&Body>) -> Option<BodyView> {
    match body {
        Some(b) => Some(b@),
        None => None,
    }
}

impl CommandHandlers {
    /// What `show` displays for a block's body: nothing stored, encrypted
    /// without a key, the plaintext, or the outcome of decrypting with the key.
    pub fn block_data(body: Option<&Body>, key: Option<&[u8; 32]>) -> (r: BlockData)
        ensures
            block_data_matches(body_view(body), key_view(key), r),
    {
        match body {
            None => BlockData::Missing,
            Some(b) => {
                if !b.is_plaintext() {
                    match key {
                        None => BlockData::Encrypted,
                        Some(k) => match b.decrypt(k) {
                            Ok(p) => BlockData::Plain(p),
                            Err(e) => BlockData::DecryptionError(e),
                        },
                    }
                } else {
                    BlockData::Plain(crate::bytes::to_vec(b.ciphertext.as_slice()))
                }
            },
        }
    }

    /// The block that `append` writes: a header at `sequence` linked to
    /// `prev_hash`, authored and signed by `signing_key`, and a body holding
    /// `data`, encrypted when a key is given, that carries the header's
    /// block id. The header verifies and its body hash is the body's.
    pub fn new_block(
        chain_id: [u8; 32],
        sequence: u64,
        prev_hash: [u8; 32],
        timestamp: u64,
        data: &[u8],
        ttl: u32,
        encryption_key: Option<&[u8; 32]>,
        signing_key: &SigningKey,
    ) -> (r: ChainsResult<(Header, Body)>)
        ensures
            r is Err <==> (encryption_key is Some && data@.len() >= xchacha_limit()),
            r is Err ==> r == Err::<(Header, Body), ChainsError>(ChainsError::EncryptionFailed),
            r matches Ok((h, b)) ==> {
                &&& h.chain_id@ == chain_id@
                &&& h.author_id@ == signing_key.public_bytes()
                &&& h.sequence == sequence
                &&& h.timestamp == timestamp
                &&& h.prev_hash@ == prev_hash@
                &&& h.ttl == ttl
                &&& h.body_hash@ == body_hash_spec(b@)
                &&& header_verify_spec(h@) is Ok
                &&& b.block_id@ == h.block_id@
                &&& match encryption_key {
                    None => b.encryption_algo@ == algo_none() && b.ciphertext@ == data@,
                    Some(k) => b.encryption_algo@ == algo_xchacha() && body_decrypt_spec(b@, k@)
                        == Ok::<Seq<u8>, ChainsError>(data@),
                }
            },
    {
        let mut body = match encryption_key {
            Some(key) => Body::new_encrypted([0; 32], data, key)?,
            None => Body::new([0; 32], crate::bytes::to_vec(data)),
        };
        let header = Header::new(
            chain_id,
            signing_key.verifying_key().to_bytes(),
            sequence,
            timestamp,
            prev_hash,
            body.body_hash(),
            ttl,
            signing_key,
        );
        body.block_id = header.block_id;
        Ok((header, body))
    }

    /// Appends a block to a stored chain: numbered one past the chain's
    /// latest sequence, linked to the stored header before it (or to the
    /// zero hash when it is the first), made by `new_block` with the current
    /// time, and stored with its body before the latest sequence is moved
    /// to it. Returns the new block's sequence number. Every error but a
    /// failed write to the store leaves the store as it was.
    pub fn append_local(
        storage: &mut Storage,
        signing_key: &SigningKey,
        chain_id: [u8; 32],
        data: &str,
        ttl: u32,
        encryption_key: Option<&[u8; 32]>,
    ) -> (r: ChainsResult<u64>)
        ensures
            r matches Err(e) ==> storage_error(e) || e == ChainsError::ChainNotFound || e
                == ChainsError::PrevHeaderMissing || e == ChainsError::ClockBeforeEpoch || e
                == ChainsError::EncryptionFailed || e == ChainsError::SequenceExhausted,
            encryption_key is None || data.spec_bytes().len() < xchacha_limit() ==> r != Err::<u64, ChainsError>(ChainsError::EncryptionFailed),
            r matches Err(e) ==> (e != ChainsError::Database ==> final(storage).entries() == old(storage).entries()),
            r == Err::<u64, ChainsError>(ChainsError::ChainNotFound) ==> !registered(old(storage).entries(), chain_id@),
            r == Err::<u64, ChainsError>(ChainsError::SequenceExhausted) ==> latest_at(old(storage).entries(), chain_id@)
                == Ok::<u64, ChainsError>(u64::MAX),
            r == Err::<u64, ChainsError>(ChainsError::PrevHeaderMissing) ==> exists|l: u64|
                l >= 1 && latest_at(old(storage).entries(), chain_id@) == Ok::<u64, ChainsError>(l) && #[trigger] header_at(
                    old(storage).entries(),
                    chain_id@,
                    l,
                ) == Ok::<Option<HeaderView>, ChainsError>(None),
            r matches Ok(seq) ==> {
                let m0 = old(storage).entries();
                &&& seq >= 1
                &&& registered(m0, chain_id@)
                &&& latest_at(m0, chain_id@) == Ok::<u64, ChainsError>((seq - 1) as u64)
                &&& exists|h: HeaderView, b: BodyView| #[trigger] appended_block(
                    m0,
                    final(storage).entries(),
                    chain_id@,
                    seq,
                    h,
                    b,
                    data.spec_bytes(),
                    ttl,
                    key_view(encryption_key),
                    signing_key.public_bytes(),
                )
            },
    {
        if !storage.chain_exists(&chain_id)? {
            return Err(ChainsError::ChainNotFound);
        }
        let ghost m0 = storage.entries();
        let latest_seq = storage.get_latest_sequence(&chain_id)?;
        if latest_seq == u64::MAX {
            return Err(ChainsError::SequenceExhausted);
        }
        let sequence = latest_seq + 1;
        let prev_hash: [u8; 32] = if sequence == 1 {
            let z: [u8; 32] = [0u8; 32];
            assert(z@ =~= zero_id());
            z
        } else {
            match storage.get_header(&chain_id, sequence - 1)? {
                Some(h) => h.block_id,
                None => {
                    assert(header_at(m0, chain_id@, latest_seq) == Ok::<Option<HeaderView>, ChainsError>(None));
                    return Err(ChainsError::PrevHeaderMissing);
                },
            }
        };
        let timestamp = match unix_time_secs() {
            Some(t) => t,
            None => {
                return Err(ChainsError::ClockBeforeEpoch);
            },
        };
        let (header, body) = Self::new_block(
            chain_id,
            sequence,
            prev_hash,
            timestamp,
            data.as_bytes(),
            ttl,
            encryption_key,
            signing_key,
        )?;
        storage.store_header(&chain_id, sequence, &header)?;
        storage.store_body(&body.block_id, &body)?;
        storage.update_latest_sequence(&chain_id, sequence)?;
        assert(appended_block(
            m0,
            storage.entries(),
            chain_id@,
            sequence,
            header@,
            body@,
            data.spec_bytes(),
            ttl,
            key_view(encryption_key),
            signing_key.public_bytes(),
        ));
        assert(m0 == old(storage).entries());
        assert(registered(m0, chain_id@));
        assert(latest_at(m0, chain_id@) == Ok::<u64, ChainsError>((sequence - 1) as u64));
        assert(exists|h: HeaderView, b: BodyView| #[trigger] appended_block(
            m0,
            storage.entries(),
            chain_id@,
            sequence,
            h,
            b,
            data.spec_bytes(),
            ttl,
            key_view(encryption_key),
            signing_key.public_bytes(),
        ));
        Ok(sequence)
    }

    /// Lists the stored blocks of a registered chain, as `show_chain` does;
    /// a chain that is not registered is `ChainNotFound`.
    pub fn show_registered_chain(
        storage: &Storage,
        chain_id: [u8; 32],
        encryption_key: Option<&[u8; 32]>,
    ) -> (r: ChainsResult<Vec<BlockSummary>>)
        ensures
            r matches Err(e) ==> storage_error(e) || e == ChainsError::ChainNotFound,
            r == Err::<Vec<BlockSummary>, ChainsError>(ChainsError::ChainNotFound) <==> (!registered(
                storage.entries(),
                chain_id@,
            ) && r != Err::<Vec<BlockSummary>, ChainsError>(ChainsError::Database)),
            r is Ok ==> registered(storage.entries(), chain_id@),
            r matches Ok(blocks) ==> latest_at(storage.entries(), chain_id@) matches Ok(l) && shows(
                storage.entries(),
                key_view(encryption_key),
                found_headers(storage.entries(), chain_id@, l as nat),
                blocks@,
            ),
    {
        if !storage.chain_exists(&chain_id)? {
            return Err(ChainsError::ChainNotFound);
        }
        Self::show_chain(storage, chain_id, encryption_key)
    }

    /// Lists the stored blocks of a chain, from sequence 1 to the latest:
    /// one summary for each stored header, in sequence order, with what
    /// `block_data` gives for its stored body.
    pub fn show_chain(storage: &Storage, chain_id: [u8; 32], encryption_key: Option<&[u8; 32]>) -> (r: ChainsResult<Vec<BlockSummary>>)
        ensures
            r matches Err(e) ==> storage_error(e),
            r matches Ok(blocks) ==> latest_at(storage.entries(), chain_id@) matches Ok(l) && shows(
                storage.entries(),
                key_view(encryption_key),
                found_headers(storage.entries(), chain_id@, l as nat),
                blocks@,
            ),
    {
        let latest = storage.get_latest_sequence(&chain_id)?;
        let ghost m = storage.entries();
        let mut out: Vec<BlockSummary> = Vec::new();
        let mut done: u64 = 0;
        while done < latest
            invariant
                done <= latest,
                m == storage.entries(),
                shows(m, key_view(encryption_key), found_headers(m, chain_id@, done as nat), out@),
            decreases latest - done,
        {
            let seq = done + 1;
            let ghost before = out@;
            match storage.get_header(&chain_id, seq)? {
                Some(header) => {
                    let body = storage.get_body(&header.block_id)?;
                    let data = match &body {
                        Some(b) => Self::block_data(Some(b), encryption_key),
                        None => Self::block_data(None, encryption_key),
                    };
                    let ghost shown = match &body {
                        Some(b) => Some(b@),
                        None => None,
                    };
                    assert(body_at(m, header.block_id@) == Ok::<Option<BodyView>, ChainsError>(shown));
                    assert(block_data_matches(shown, key_view(encryption_key), data));
                    out.push(BlockSummary { sequence: header.sequence, block_id: header.block_id, data });
                    proof {
                        let fh = found_headers(m, chain_id@, seq as nat);
                        assert(fh == found_headers(m, chain_id@, done as nat).push(header@));
                        assert forall|i: int| 0 <= i < out@.len() implies #[trigger] shown_block(
                            m,
                            key_view(encryption_key),
                            fh[i],
                            out@[i],
                        ) by {
                            if i < before.len() {
                                assert(out@[i] == before[i]);
                                assert(fh[i] == found_headers(m, chain_id@, done as nat)[i]);
                            }
                        }
                    }
                },
                None => {
                    assert(found_headers(m, chain_id@, seq as nat) == found_headers(m, chain_id@, done as nat));
                },
            }
            done = seq;
        }
        Ok(out)
    }
}

/// Whether a stored block appended at `seq` to a chain gives `after`: the
/// header `h`, authored by `author`, numbered `seq`, linked to the header
/// before it (or to the zero hash), verifying and committing to the body
/// `b`, which holds `data` (encrypted under `key` if one is given); both are
/// stored and `seq` becomes the chain's latest.
pub open spec fn appended_block(
    before: Map<Seq<u8>, Seq<u8>>,
    after: Map<Seq<u8>, Seq<u8>>,
    chain_id: Seq<u8>,
    seq: u64,
    h: HeaderView,
    b: BodyView,
    data: Seq<u8>,
    ttl: u32,
    key: Option<Seq<u8>>,
    author: Seq<u8>,
) -> bool {
    &&& after == with_block(before, h, b)
    &&& h.chain_id == chain_id
    &&& h.sequence == seq
    &&& h.prev_hash == (if seq == 1 {
        zero_id()
    } else {
        match header_at(before, chain_id, (seq - 1) as u64) {
            Ok(Some(p)) => p.block_id,
            _ => Seq::empty(),
        }
    })
    &&& h.author_id == author
    &&& h.ttl == ttl
    &&& header_verify_spec(h) is Ok
    &&& h.body_hash == body_hash_spec(b)
    &&& b.block_id == h.block_id
    &&& match key {
        None => b.encryption_algo == algo_none() && b.ciphertext == data,
        Some(k) => b.encryption_algo == algo_xchacha() && body_decrypt_spec(b, k) == Ok::<Seq<u8>, ChainsError>(data),
    }
}

/// Whether a summary shows a stored header: its sequence, its block id, and
/// what `block_data` gives for its stored body.
pub open spec fn shown_block(m: Map<Seq<u8>, Seq<u8>>, key: Option<Seq<u8>>, h: HeaderView, s: BlockSummary) -> bool {
    &&& s.sequence == h.sequence
    &&& s.block_id@ == h.block_id
    &&& body_at(m, h.block_id) matches Ok(o) && block_data_matches(o, key, s.data)
}

/// Whether `blocks` show the headers `hs`, one each, in order.
pub open spec fn shows(m: Map<Seq<u8>, Seq<u8>>, key: Option<Seq<u8>>, hs: Seq<HeaderView>, blocks: Seq<BlockSummary>) -> bool {
    &&& blocks.len() == hs.len()
    &&& forall|i: int| 0 <= i < blocks.len() ==> #[trigger] shown_block(m, key, hs[i], blocks[i])
}

} // verus!
