//! What a node does with sync requests, sync responses and gossiped blocks.
//!
//! Each handler takes the node's storage and one incoming message and
//! returns the requests to send back; the transport is the caller's.
use crate::bytes::id_eq;
use crate::error::{ChainsError, ChainsResult};
use crate::models::body::{body_hash_spec, Body};
use crate::models::chain::header_views;
use crate::models::header::{header_verify_spec, Header};
use crate::error::description;
use crate::network::protocol::{SyncRequest, SyncResponse};
use crate::bytes::le_u64;
use crate::codec::{body_encoding, header_encoding};
use crate::models::body::BodyView;
use crate::models::header::HeaderView;
use crate::storage::keys::{body_key_spec, chain_key, chain_key_spec, header_key_spec, latest_key_spec};
use crate::storage::{body_at, header_at, latest_at, registered, storage_error, stored, with_block, Storage};
use vstd::prelude::*;

verus! {

/// The GossipSub topic name of a chain: `chain:` and the chain id in hex.
pub fn topic_name(chain_id: &[u8; 32]) -> (r: Vec<u8>)
    ensures
        r@ == chain_key_spec(chain_id@),
{
    chain_key(chain_id)
}

/// Whether `chain_id` is among `ids`.
fn contains_id(ids: &Vec<[u8; 32]>, chain_id: &[u8; 32]) -> (r: bool)
    ensures
        r == ids@.contains(*chain_id),
{
    let mut i: usize = 0;
    while i < ids.len()
        invariant
            i <= ids@.len(),
            forall|j: int| 0 <= j < i ==> ids@[j] != *chain_id,
        decreases ids@.len() - i,
    {
        if id_eq(&ids[i], chain_id) {
            assert(ids@[i as int] =~= *chain_id);
            return true;
        }
        i = i + 1;
    }
    false
}

/// Records a subscription to a chain, once: the list keeps the chains in
/// the order they were first subscribed to, and never holds one twice.
pub fn add_subscription(subscriptions: &mut Vec<[u8; 32]>, chain_id: &[u8; 32])
    ensures
        final(subscriptions)@ == (if old(subscriptions)@.contains(*chain_id) {
            old(subscriptions)@
        } else {
            old(subscriptions)@.push(*chain_id)
        }),
        old(subscriptions)@.no_duplicates() ==> final(subscriptions)@.no_duplicates(),
{
    if !contains_id(subscriptions, chain_id) {
        subscriptions.push(*chain_id);
    }
}

/// The requests a node sends to a peer that has just connected: the latest
/// sequence of each chain it is subscribed to, in subscription order.
pub fn connect_requests(subscriptions: &Vec<[u8; 32]>) -> (r: Vec<SyncRequest>)
    ensures
        r@.len() == subscriptions@.len(),
        forall|i: int|
            0 <= i < r@.len() ==> (#[trigger] r@[i] matches SyncRequest::GetLatestSequence { chain_id }
                && chain_id == subscriptions@[i]),
{
    let mut out: Vec<SyncRequest> = Vec::new();
    let mut i: usize = 0;
    while i < subscriptions.len()
        invariant
            i <= subscriptions@.len(),
            out@.len() == i,
            forall|j: int|
                0 <= j < i ==> (#[trigger] out@[j] matches SyncRequest::GetLatestSequence { chain_id }
                    && chain_id == subscriptions@[j]),
        decreases subscriptions@.len() - i,
    {
        out.push(SyncRequest::GetLatestSequence { chain_id: subscriptions[i] });
        i = i + 1;
    }
    out
}

/// The request a node sends when a peer reports `remote` as its latest
/// sequence on a chain where the node has `local`: the missing headers,
/// from the one after `local` to `remote`, or nothing when not behind.
pub fn catch_up_request(chain_id: [u8; 32], local: u64, remote: u64) -> (r: Option<SyncRequest>)
    ensures
        r is Some <==> remote > local,
        r matches Some(req) ==> req matches SyncRequest::GetHeaders { chain_id: c, start_seq, end_seq }
            && c@ == chain_id@ && start_seq == local + 1 && end_seq == remote && start_seq
            <= end_seq,
{
    if remote > local {
        Some(SyncRequest::GetHeaders { chain_id, start_seq: local + 1, end_seq: remote })
    } else {
        None
    }
}

/// The consecutive headers stored for a chain from `start` on, up to
/// `end`, stopping before the first sequence number with no header (or one
/// that does not decode).
pub open spec fn header_run(m: Map<Seq<u8>, Seq<u8>>, chain_id: Seq<u8>, start: u64, end: u64) -> Seq<HeaderView>
    decreases end - start,
{
    if start > end {
        Seq::empty()
    } else {
        match header_at(m, chain_id, start) {
            Ok(Some(h)) => if start == end {
                seq![h]
            } else {
                seq![h] + header_run(m, chain_id, (start + 1) as u64, end)
            },
            _ => Seq::empty(),
        }
    }
}

/// A stored body read as a value.
pub open spec fn opt_body_view(o: Option<Body>) -> Option<BodyView> {
    match o {
        Some(b) => Some(b@),
        None => None,
    }
}

/// Whether `msg` reports a failed read: the store failed, or what it holds
/// reads as the error `read` gives.
pub open spec fn read_failure<T>(msg: String, read: ChainsResult<T>) -> bool {
    msg@ == description(ChainsError::Database) || (read matches Err(e) && msg@ == description(e))
}

/// The answer to a sync request from the node's storage: its latest
/// sequence, the consecutive stored headers from the start of the range
/// (stopping at the first one missing or unreadable, or where the store
/// fails to read), or a body. A request for the latest sequence or a body
/// whose read fails is answered with the error.
pub fn answer_sync_request(storage: &Storage, request: &SyncRequest) -> (r: SyncResponse)
    ensures
        *request matches SyncRequest::GetLatestSequence { chain_id } ==> ((r matches SyncResponse::LatestSequence {
            chain_id: c,
            sequence,
        } && c@ == chain_id@ && latest_at(storage.entries(), chain_id@) == Ok::<u64, ChainsError>(sequence)) || (
        r matches SyncResponse::Error(msg) && read_failure(msg, latest_at(storage.entries(), chain_id@)))),
        *request matches SyncRequest::GetHeaders { chain_id, start_seq, end_seq } ==> (r matches SyncResponse::Headers(
            hs,
        ) && header_views(hs@).is_prefix_of(header_run(storage.entries(), chain_id@, start_seq, end_seq))),
        *request matches SyncRequest::GetBody { block_id } ==> ((r matches SyncResponse::Body(o) && body_at(
            storage.entries(),
            block_id@,
        ) == Ok::<Option<BodyView>, ChainsError>(opt_body_view(o))) || (r matches SyncResponse::Error(msg)
            && read_failure(msg, body_at(storage.entries(), block_id@)))),
{
    match request {
        SyncRequest::GetLatestSequence { chain_id } => match storage.get_latest_sequence(chain_id) {
            Ok(sequence) => SyncResponse::LatestSequence { chain_id: *chain_id, sequence },
            Err(e) => SyncResponse::Error(e.describe()),
        },
        SyncRequest::GetHeaders { chain_id, start_seq, end_seq } => {
            let ghost m = storage.entries();
            let mut headers: Vec<Header> = Vec::new();
            if *start_seq <= *end_seq {
                let mut seq: u64 = *start_seq;
                loop
                    invariant_except_break
                        *start_seq <= seq <= *end_seq,
                        m == storage.entries(),
                        header_run(m, chain_id@, *start_seq, *end_seq) == header_views(headers@) + header_run(
                            m,
                            chain_id@,
                            seq,
                            *end_seq,
                        ),
                    ensures
                        header_views(headers@).is_prefix_of(header_run(m, chain_id@, *start_seq, *end_seq)),
                    decreases *end_seq - seq,
                {
                    let ghost before = headers@;
                    match storage.get_header(chain_id, seq) {
                        Ok(Some(header)) => {
                            headers.push(header);
                            assert(header_views(headers@) =~= header_views(before) + seq![header@]);
                        },
                        _ => {
                            let ghost rest = header_run(m, chain_id@, seq, *end_seq);
                            assert(header_views(headers@).is_prefix_of(header_views(headers@) + rest));
                            break;
                        },
                    }
                    if seq == *end_seq {
                        assert(header_views(headers@) =~= header_views(before) + seq![headers@.last()@]);
                        assert(header_views(headers@).is_prefix_of(header_views(headers@)));
                        break;
                    }
                    assert(header_views(before) + (seq![headers@.last()@] + header_run(m, chain_id@, (seq + 1) as u64, *end_seq))
                        =~= header_views(headers@) + header_run(m, chain_id@, (seq + 1) as u64, *end_seq));
                    seq = seq + 1;
                }
            } else {
                assert(header_views(headers@) =~= Seq::<HeaderView>::empty());
                assert(header_views(headers@).is_prefix_of(header_run(m, chain_id@, *start_seq, *end_seq)));
            }
            SyncResponse::Headers(headers)
        },
        SyncRequest::GetBody { block_id } => match storage.get_body(block_id) {
            Ok(body) => SyncResponse::Body(body),
            Err(e) => SyncResponse::Error(e.describe()),
        },
    }
}

/// The store after applying synced headers in order, and the block ids of
/// the bodies then requested: a header newer than its chain's latest that
/// verifies is stored and made the latest, and its body requested; others
/// are skipped. `None` when a chain's latest sequence does not decode.
pub open spec fn sync_headers_spec(m: Map<Seq<u8>, Seq<u8>>, hs: Seq<HeaderView>) -> Option<
    (Map<Seq<u8>, Seq<u8>>, Seq<Seq<u8>>),
>
    decreases hs.len(),
{
    if hs.len() == 0 {
        Some((m, Seq::empty()))
    } else {
        match sync_headers_spec(m, hs.drop_last()) {
            None => None,
            Some((m1, ids)) => {
                let h = hs.last();
                match latest_at(m1, h.chain_id) {
                    Err(_) => None,
                    Ok(l) => if h.sequence > l && header_verify_spec(h) is Ok {
                        Some(
                            (
                                m1.insert(header_key_spec(h.chain_id, h.sequence), header_encoding(h)).insert(
                                    latest_key_spec(h.chain_id),
                                    le_u64(h.sequence),
                                ),
                                ids.push(h.block_id),
                            ),
                        )
                    } else {
                        Some((m1, ids))
                    },
                }
            },
        }
    }
}

/// The block ids that a list of requests asks bodies for.
pub open spec fn body_requests(reqs: Seq<SyncRequest>, ids: Seq<Seq<u8>>) -> bool {
    &&& reqs.len() == ids.len()
    &&& forall|i: int|
        0 <= i < reqs.len() ==> (#[trigger] reqs[i] matches SyncRequest::GetBody { block_id } && block_id@
            == ids[i])
}

/// What `catch_up_request` gives, as a list of requests.
pub open spec fn catch_up_list(reqs: Seq<SyncRequest>, chain_id: Seq<u8>, local: u64, remote: u64) -> bool {
    if remote > local {
        reqs.len() == 1 && (reqs[0] matches SyncRequest::GetHeaders { chain_id: c, start_seq, end_seq } && c@
            == chain_id && start_seq == local + 1 && end_seq == remote)
    } else {
        reqs.len() == 0
    }
}

/// The local latest sequence a sync decision starts from: the stored one,
/// or 0 when it cannot be read.
pub open spec fn local_latest(m: Map<Seq<u8>, Seq<u8>>, chain_id: Seq<u8>) -> u64 {
    match latest_at(m, chain_id) {
        Ok(l) => l,
        Err(_) => 0,
    }
}

/// Handles a sync response and returns the requests to send back, with
/// the outcome: a peer ahead of us gets asked for the missing headers; each
/// synced header that is new and verifies is stored, made the latest, and
/// its body requested; a received body is stored. When the store fails
/// part-way, the requests already decided are returned with the error.
pub fn apply_sync_response(storage: &mut Storage, response: &SyncResponse) -> (r: (Vec<SyncRequest>, ChainsResult<()>))
    ensures
        r.1 matches Err(e) ==> storage_error(e),
        forall|i: int|
            0 <= i < r.0@.len() ==> (#[trigger] r.0@[i] matches SyncRequest::GetBody { .. }) || (
            *response is LatestSequence),
        match *response {
            SyncResponse::LatestSequence { chain_id, sequence } => {
                &&& r.1 is Ok
                &&& final(storage).entries() == old(storage).entries()
                &&& catch_up_list(r.0@, chain_id@, local_latest(old(storage).entries(), chain_id@), sequence)
                    || catch_up_list(r.0@, chain_id@, 0, sequence)
            },
            SyncResponse::Headers(hs) => r.1 is Ok ==> exists|ids: Seq<Seq<u8>>|
                sync_headers_spec(old(storage).entries(), header_views(hs@)) == Some((final(storage).entries(), ids))
                    && #[trigger] body_requests(r.0@, ids),
            SyncResponse::Body(Some(b)) => r.0@.len() == 0 && (r.1 is Ok ==> final(storage).entries()
                == old(storage).entries().insert(body_key_spec(b.block_id@), body_encoding(b@))),
            _ => r.0@.len() == 0 && r.1 is Ok && final(storage).entries() == old(storage).entries(),
        },
{
    let mut requests: Vec<SyncRequest> = Vec::new();
    match response {
        SyncResponse::LatestSequence { chain_id, sequence } => {
            let local = match storage.get_latest_sequence(chain_id) {
                Ok(s) => s,
                Err(_) => 0,
            };
            match catch_up_request(*chain_id, local, *sequence) {
                Some(req) => requests.push(req),
                None => {},
            }
            (requests, Ok(()))
        },
        SyncResponse::Headers(headers) => {
            let ghost m0 = storage.entries();
            let ghost mut ids: Seq<Seq<u8>> = Seq::empty();
            let mut i: usize = 0;
            while i < headers.len()
                invariant
                    i <= headers@.len(),
                    *response matches SyncResponse::Headers(hs) && hs@ == headers@,
                    sync_headers_spec(m0, header_views(headers@).take(i as int)) == Some((storage.entries(), ids)),
                    body_requests(requests@, ids),
                decreases headers@.len() - i,
            {
                let header = &headers[i];
                proof {
                    assert(header_views(headers@).take(i + 1).drop_last() =~= header_views(headers@).take(i as int));
                    assert(header_views(headers@).take(i + 1).last() == header@);
                }
                let local_latest = match storage.get_latest_sequence(&header.chain_id) {
                    Ok(l) => l,
                    Err(e) => {
                        return (requests, Err(e));
                    },
                };
                if header.sequence > local_latest {
                    match header.verify() {
                        Ok(_) => {
                            match storage.store_header(&header.chain_id, header.sequence, header) {
                                Ok(_) => {},
                                Err(e) => {
                                    return (requests, Err(e));
                                },
                            }
                            match storage.update_latest_sequence(&header.chain_id, header.sequence) {
                                Ok(_) => {},
                                Err(e) => {
                                    return (requests, Err(e));
                                },
                            }
                            requests.push(SyncRequest::GetBody { block_id: header.block_id });
                            proof {
                                ids = ids.push(header.block_id@);
                            }
                        },
                        Err(_) => {},
                    }
                }
                i = i + 1;
            }
            assert(header_views(headers@).take(headers@.len() as int) =~= header_views(headers@));
            (requests, Ok(()))
        },
        SyncResponse::Body(body) => {
            match body {
                Some(b) => {
                    match storage.store_body(&b.block_id, b) {
                        Ok(_) => (requests, Ok(())),
                        Err(e) => (requests, Err(e)),
                    }
                },
                None => (requests, Ok(())),
            }
        },
        SyncResponse::Error(_) => (requests, Ok(())),
    }
}

/// What became of a gossiped block.
#[derive(Debug, Clone, Copy, PartialEq, Eq, Structural)]
pub enum GossipOutcome {
    /// The header does not verify; nothing was stored.
    InvalidHeader(ChainsError),
    /// The body does not hash to the header's body hash; nothing was stored.
    BodyHashMismatch,
    /// The block is not newer than what is held; nothing was stored.
    Stale,
    /// The block was stored and made the chain's latest; `new_chain` says
    /// whether the chain was unknown until now.
    Stored { new_chain: bool },
}

/// The verdict on a gossiped block before storage is consulted: the header
/// must verify and the body must match it.
pub open spec fn gossip_precheck_spec(header: crate::models::header::HeaderView, body: crate::models::body::BodyView) -> Option<GossipOutcome> {
    match header_verify_spec(header) {
        Err(e) => Some(GossipOutcome::InvalidHeader(e)),
        Ok(_) => if header.body_hash != body_hash_spec(body) {
            Some(GossipOutcome::BodyHashMismatch)
        } else {
            None
        },
    }
}

/// The store with a chain registered: unchanged if it already was, else
/// with the chain's marker and a latest sequence of 0, as `create_chain`
/// writes them.
pub open spec fn with_chain(m: Map<Seq<u8>, Seq<u8>>, chain_id: Seq<u8>) -> Map<Seq<u8>, Seq<u8>> {
    if registered(m, chain_id) {
        m
    } else {
        m.insert(chain_key_spec(chain_id), Seq::<u8>::empty()).insert(latest_key_spec(chain_id), le_u64(0))
    }
}

/// Handles a gossiped block: an invalid header or a body that does not
/// match is dropped; otherwise the chain is registered if new, and the
/// block is stored and made the latest exactly when it is newer than the
/// latest held.
pub fn accept_gossip_block(storage: &mut Storage, header: &Header, body: &Body) -> (r: ChainsResult<GossipOutcome>)
    ensures
        r matches Err(e) ==> storage_error(e),
        gossip_precheck_spec(header@, body@) matches Some(o) ==> r == Ok::<GossipOutcome, ChainsError>(o)
            && final(storage).entries() == old(storage).entries(),
        gossip_precheck_spec(header@, body@) is None ==> (r is Err || r == Ok::<GossipOutcome, ChainsError>(GossipOutcome::Stale) || r matches Ok(GossipOutcome::Stored { .. })),
        gossip_precheck_spec(header@, body@) is None && r is Ok ==> ({
            let m1 = with_chain(old(storage).entries(), header.chain_id@);
            &&& latest_at(m1, header.chain_id@) is Ok
            &&& match r {
                Ok(GossipOutcome::Stale) => header.sequence <= latest_at(m1, header.chain_id@)->Ok_0
                    && final(storage).entries() == m1,
                Ok(GossipOutcome::Stored { new_chain }) => new_chain == !registered(
                    old(storage).entries(),
                    header.chain_id@,
                ) && header.sequence > latest_at(m1, header.chain_id@)->Ok_0 && final(storage).entries()
                    == with_block(m1, header@, body@),
                _ => false,
            }
        }),
{
    match header.verify() {
        Err(e) => {
            return Ok(GossipOutcome::InvalidHeader(e));
        },
        Ok(_) => {},
    }
    let expected = body.body_hash();
    if !id_eq(&header.body_hash, &expected) {
        return Ok(GossipOutcome::BodyHashMismatch);
    }
    let ghost m0 = storage.entries();
    let mut new_chain = false;
    if !storage.chain_exists(&header.chain_id)? {
        storage.create_chain(&header.chain_id)?;
        new_chain = true;
    }
    assert(storage.entries() == with_chain(m0, header.chain_id@));
    let latest = storage.get_latest_sequence(&header.chain_id)?;
    if header.sequence <= latest {
        return Ok(GossipOutcome::Stale);
    }
    storage.store_header(&header.chain_id, header.sequence, header)?;
    storage.store_body(&body.block_id, body)?;
    storage.update_latest_sequence(&header.chain_id, header.sequence)?;
    Ok(GossipOutcome::Stored { new_chain })
}

} // verus!
