//! TTL garbage collection and state snapshots.
//!
//! A block whose time-to-live has run out loses its body; its header is
//! kept, to prove the integrity of later headers, unless it lies at least
//! one snapshot interval behind the chain's tip. Every time the tip reaches
//! a multiple of the interval, a snapshot of all headers up to it is taken.
use crate::bytes::lemma_pow256_8;
use crate::codec::{
    body_encoding, decode_headers, headers_shape, lemma_headers_encoding_unique,
    bincode_body, bincode_headers, bincode_headers_decode, header_fields_view, header_list_view,
    header_shape, headers_encoding, HeaderFields,
};
use crate::models::chain::header_views;
use crate::models::header::HeaderView;
use crate::crypto::primitives::unix_time_secs;
use crate::error::{ChainsError, ChainsResult};
use crate::models::header::Header;
use crate::bytes::le_u64;
use crate::storage::keys::{lemma_key_tags, body_key_spec, header_key_spec, latest_key_spec, snapshot_key, snapshot_key_spec};
use crate::storage::{body_at, db_err, found_headers, stored, header_at, latest_at, sled_get, sled_insert, storage_error, stored_view, Storage};
use vstd::prelude::*;

verus! {

/// Number of blocks between state snapshots.
pub const SNAPSHOT_INTERVAL: u64 = 10_000;

/// What one garbage collection did.
#[derive(Debug)]
pub struct GcStats {
    pub bodies_pruned: u64,
    pub headers_pruned: u64,
    pub snapshots_created: u64,
    pub bytes_freed: u64,
}

/// A block with this TTL and timestamp has expired at time `now`: it has a
/// TTL (0 means persistent) and its lifetime ended before `now`.
pub open spec fn expired_spec(ttl: u32, timestamp: u64, now: u64) -> bool {
    ttl > 0 && timestamp + ttl < now
}

/// An expired block's header is pruned when it lies at least one snapshot
/// interval behind the tip `latest`.
pub open spec fn header_prunable_spec(latest: u64, sequence: u64) -> bool {
    latest - sequence >= SNAPSHOT_INTERVAL
}

/// A snapshot is taken when the tip is a positive multiple of the interval.
pub open spec fn snapshot_due_spec(latest: u64) -> bool {
    latest > 0 && latest % SNAPSHOT_INTERVAL == 0
}

/// A block expires exactly when it has a TTL and more than that many
/// seconds, counted in full, have passed since its timestamp.
pub proof fn lemma_expiry_counts_whole_ttl(ttl: u32, timestamp: u64, now: u64)
    ensures
        expired_spec(ttl, timestamp, now) <==> ((ttl as int) >= 1 && (now as int) - (timestamp as int) > (ttl as int)),
{
}

/// A longer TTL never expires sooner: if a block with TTL `t1` has not
/// expired at `now`, no block with the same timestamp and a TTL `t2 >= t1`
/// has; and a block expired at `now` is still expired later.
pub proof fn lemma_expiry_monotone(t1: u32, t2: u32, timestamp: u64, now: u64, later: u64)
    requires
        0 < t1 <= t2,
        now <= later,
    ensures
        !expired_spec(t1, timestamp, now) ==> !expired_spec(t2, timestamp, now),
        expired_spec(t1, timestamp, now) ==> expired_spec(t1, timestamp, later),
{
}

/// Whether a block with this TTL and timestamp has expired at `now`.
pub fn is_expired(ttl: u32, timestamp: u64, now: u64) -> (r: bool)
    ensures
        r == expired_spec(ttl, timestamp, now),
        r <==> ((ttl as int) > 0 && (timestamp as int) + (ttl as int) < (now as int)),
        ttl == 0 ==> !r,
{
    ttl > 0 && timestamp < now && now - timestamp > ttl as u64
}

/// Whether the header of an expired block at `sequence` is pruned.
pub fn header_prunable(latest: u64, sequence: u64) -> (r: bool)
    requires
        sequence <= latest,
    ensures
        r == header_prunable_spec(latest, sequence),
{
    latest - sequence >= SNAPSHOT_INTERVAL
}

/// Whether a snapshot is due at tip `latest`.
pub fn snapshot_due(latest: u64) -> (r: bool)
    ensures
        r == snapshot_due_spec(latest),
{
    latest > 0 && latest % SNAPSHOT_INTERVAL == 0
}

/// A chain's snapshot up to `n`, as `get_snapshot` reads it: nothing
/// stored is no snapshot; bytes that begin with the encoding of a list of
/// headers give those headers, and other bytes are an encoding error.
pub open spec fn snapshot_at(m: Map<Seq<u8>, Seq<u8>>, chain_id: Seq<u8>, n: u64) -> ChainsResult<Option<Seq<HeaderView>>> {
    match stored(m, snapshot_key_spec(chain_id, n)) {
        None => Ok(None),
        Some(v) => match decode_headers(v) {
            Some(hs) => Ok(Some(hs)),
            None => Err(ChainsError::Encoding),
        },
    }
}

/// A snapshot read as a value.
pub open spec fn snapshot_result(r: ChainsResult<Option<Vec<Header>>>) -> ChainsResult<Option<Seq<HeaderView>>> {
    match r {
        Ok(Some(hs)) => Ok(Some(header_views(hs@))),
        Ok(None) => Ok(None),
        Err(e) => Err(e),
    }
}

/// The expired blocks of a chain at time `now` among sequences 1 to `n`,
/// as (sequence, block id) pairs in sequence order.
pub open spec fn expired_blocks(m: Map<Seq<u8>, Seq<u8>>, chain_id: Seq<u8>, now: u64, n: nat) -> Seq<(u64, Seq<u8>)>
    decreases n,
{
    if n == 0 {
        Seq::empty()
    } else {
        let rest = expired_blocks(m, chain_id, now, (n - 1) as nat);
        match header_at(m, chain_id, n as u64) {
            Ok(Some(h)) => if expired_spec(h.ttl, h.timestamp, now) {
                rest.push((n as u64, h.block_id))
            } else {
                rest
            },
            _ => rest,
        }
    }
}

/// The store after pruning the expired blocks `e` of a chain whose tip is
/// `latest`: each loses its body, and its header too when prunable.
pub open spec fn pruned_expired(m: Map<Seq<u8>, Seq<u8>>, chain_id: Seq<u8>, latest: u64, e: Seq<(u64, Seq<u8>)>) -> Map<
    Seq<u8>,
    Seq<u8>,
>
    decreases e.len(),
{
    if e.len() == 0 {
        m
    } else {
        let m1 = pruned_expired(m, chain_id, latest, e.drop_last()).remove(body_key_spec(e.last().1));
        if header_prunable_spec(latest, e.last().0) {
            m1.remove(header_key_spec(chain_id, e.last().0))
        } else {
            m1
        }
    }
}

/// How many of the expired blocks `e` lose their header.
pub open spec fn prunable_count(latest: u64, e: Seq<(u64, Seq<u8>)>) -> nat
    decreases e.len(),
{
    if e.len() == 0 {
        0
    } else {
        prunable_count(latest, e.drop_last()) + if header_prunable_spec(latest, e.last().0) {
            1nat
        } else {
            0nat
        }
    }
}

/// The encoded sizes of the bodies that pruning the expired blocks `e`
/// removes, added up: each body as it is stored when its turn comes (a
/// body already removed for an earlier block counts nothing).
pub open spec fn freed_bytes(m: Map<Seq<u8>, Seq<u8>>, chain_id: Seq<u8>, latest: u64, e: Seq<(u64, Seq<u8>)>) -> nat
    decreases e.len(),
{
    if e.len() == 0 {
        0
    } else {
        let before = pruned_expired(m, chain_id, latest, e.drop_last());
        freed_bytes(m, chain_id, latest, e.drop_last()) + match body_at(before, e.last().1) {
            Ok(Some(b)) => body_encoding(b).len(),
            _ => 0nat,
        }
    }
}

/// `x`, or the largest `u64` when `x` does not fit.
pub open spec fn saturate(x: nat) -> u64 {
    if x > u64::MAX {
        u64::MAX
    } else {
        x as u64
    }
}

/// The store after a snapshot up to `n`: the headers found at sequences 1
/// to `n` stored as one snapshot, and `n` made the latest sequence.
pub open spec fn with_snapshot(m: Map<Seq<u8>, Seq<u8>>, chain_id: Seq<u8>, n: u64) -> Map<Seq<u8>, Seq<u8>> {
    m.insert(snapshot_key_spec(chain_id, n), headers_encoding(found_headers(m, chain_id, n as nat))).insert(
        latest_key_spec(chain_id),
        le_u64(n),
    )
}

/// What a garbage collection at time `now` does to a chain: with `latest`
/// its tip and `e` its expired blocks, the expired bodies and prunable
/// headers are removed and, when due, a snapshot is taken; the statistics
/// count what was pruned and the bytes of the removed bodies.
pub open spec fn gc_outcome(
    before: Map<Seq<u8>, Seq<u8>>,
    after: Map<Seq<u8>, Seq<u8>>,
    chain_id: Seq<u8>,
    now: u64,
    st: GcStats,
) -> bool {
    latest_at(before, chain_id) matches Ok(latest) && {
        let e = expired_blocks(before, chain_id, now, latest as nat);
        let pruned = pruned_expired(before, chain_id, latest, e);
        &&& st.bodies_pruned == e.len()
        &&& st.headers_pruned == prunable_count(latest, e)
        &&& st.snapshots_created == (if snapshot_due_spec(latest) { 1u64 } else { 0u64 })
        &&& after == (if snapshot_due_spec(latest) { with_snapshot(pruned, chain_id, latest) } else { pruned })
        &&& st.bytes_freed == saturate(freed_bytes(before, chain_id, latest, e))
    }
}

/// The store after deleting the headers found at sequences 1 to `n`, one
/// after another, with their bodies, and how many were found.
pub open spec fn pruned_before(m: Map<Seq<u8>, Seq<u8>>, chain_id: Seq<u8>, n: nat) -> (Map<Seq<u8>, Seq<u8>>, nat)
    decreases n,
{
    if n == 0 {
        (m, 0)
    } else {
        let (m1, k) = pruned_before(m, chain_id, (n - 1) as nat);
        match header_at(m1, chain_id, n as u64) {
            Ok(Some(h)) => (m1.remove(header_key_spec(chain_id, n as u64)).remove(body_key_spec(h.block_id)), k + 1),
            _ => (m1, k),
        }
    }
}

impl Storage {
    /// Prunes the bodies of the chain's expired blocks (and the headers of
    /// those far enough behind the tip) and takes a snapshot when one is due,
    /// at the current time: `collect_garbage_at` with the clock's reading.
    pub fn collect_garbage(&mut self, chain_id: &[u8; 32]) -> (r: ChainsResult<GcStats>)
        ensures
            r matches Err(e) ==> storage_error(e) || e == ChainsError::ClockBeforeEpoch,
            r matches Ok(st) ==> exists|now: u64| #[trigger]
                gc_outcome(old(self).entries(), final(self).entries(), chain_id@, now, st),
    {
        let now = match unix_time_secs() {
            Some(t) => t,
            None => {
                return Err(ChainsError::ClockBeforeEpoch);
            },
        };
        let r = self.collect_garbage_at(chain_id, now);
        match r {
            Ok(st) => {
                assert(gc_outcome(old(self).entries(), self.entries(), chain_id@, now, st));
                Ok(st)
            },
            Err(e) => Err(e),
        }
    }

    /// Prunes the chain's blocks that have expired at time `now`: each loses
    /// its body, and its header too when it lies at least one snapshot
    /// interval behind the tip; then, when the tip is a multiple of the
    /// interval, takes a snapshot up to it. `bytes_freed` adds up, saturating,
    /// the encoded sizes of the bodies found before they were removed.
    pub fn collect_garbage_at(&mut self, chain_id: &[u8; 32], now: u64) -> (r: ChainsResult<GcStats>)
        ensures
            r matches Err(e) ==> storage_error(e),
            r matches Ok(st) ==> gc_outcome(old(self).entries(), final(self).entries(), chain_id@, now, st),
    {
        let mut stats = GcStats { bodies_pruned: 0, headers_pruned: 0, snapshots_created: 0, bytes_freed: 0 };
        let ghost m0 = self.entries();
        let latest = self.get_latest_sequence(chain_id)?;
        if latest == 0 {
            return Ok(stats);
        }
        let mut expired: Vec<(u64, [u8; 32])> = Vec::new();
        let mut done: u64 = 0;
        while done < latest
            invariant
                done <= latest,
                m0 == self.entries(),
                expired@.len() <= done,
                forall|j: int| 0 <= j < expired@.len() ==> 1 <= (#[trigger] expired@[j]).0 <= done,
                expired@.map_values(|p: (u64, [u8; 32])| (p.0, p.1@)) == expired_blocks(m0, chain_id@, now, done as nat),
            decreases latest - done,
        {
            let seq = done + 1;
            let ghost before = expired@;
            match self.get_header(chain_id, seq)? {
                Some(header) => {
                    if is_expired(header.ttl, header.timestamp, now) {
                        expired.push((seq, header.block_id));
                        assert(expired@.map_values(|p: (u64, [u8; 32])| (p.0, p.1@)) =~= before.map_values(
                            |p: (u64, [u8; 32])| (p.0, p.1@),
                        ).push((seq, header.block_id@)));
                    }
                },
                None => {},
            }
            done = seq;
        }
        let ghost e = expired@.map_values(|p: (u64, [u8; 32])| (p.0, p.1@));
        let mut i: usize = 0;
        while i < expired.len()
            invariant
                i <= expired@.len(),
                expired@.len() <= latest,
                e == expired@.map_values(|p: (u64, [u8; 32])| (p.0, p.1@)),
                e == expired_blocks(m0, chain_id@, now, latest as nat),
                forall|j: int| 0 <= j < expired@.len() ==> 1 <= (#[trigger] expired@[j]).0 <= latest,
                self.entries() == pruned_expired(m0, chain_id@, latest, e.take(i as int)),
                stats.bodies_pruned == i,
                stats.headers_pruned == prunable_count(latest, e.take(i as int)),
                stats.headers_pruned <= stats.bodies_pruned,
                stats.snapshots_created == 0,
                stats.bytes_freed == saturate(freed_bytes(m0, chain_id@, latest, e.take(i as int))),
            decreases expired@.len() - i,
        {
            let (seq, block_id) = expired[i];
            proof {
                assert(e.take(i + 1).drop_last() =~= e.take(i as int));
                assert(e.take(i + 1).last() == (seq, block_id@));
            }
            let ghost prev = freed_bytes(m0, chain_id@, latest, e.take(i as int));
            match self.get_body(&block_id)? {
                Some(body) => {
                    let size = bincode_body(&body.to_fields()).len() as u64;
                    stats.bytes_freed = stats.bytes_freed.saturating_add(size);
                    assert(stats.bytes_freed == saturate(prev + body_encoding(body@).len()));
                },
                None => {},
            }
            self.delete_body(&block_id)?;
            stats.bodies_pruned = stats.bodies_pruned + 1;
            if header_prunable(latest, seq) {
                self.delete_header(chain_id, seq)?;
                stats.headers_pruned = stats.headers_pruned + 1;
            }
            i = i + 1;
        }
        assert(e.take(expired@.len() as int) =~= e);
        if snapshot_due(latest) {
            self.create_state_snapshot(chain_id, latest)?;
            stats.snapshots_created = 1;
        }
        Ok(stats)
    }

    /// Stores the headers of sequence 1 to `up_to_seq` found for the chain
    /// as one snapshot, and makes `up_to_seq` the latest sequence.
    pub fn create_state_snapshot(&mut self, chain_id: &[u8; 32], up_to_seq: u64) -> (r: ChainsResult<()>)
        ensures
            r matches Err(e) ==> storage_error(e),
            r is Ok ==> final(self).entries() == with_snapshot(old(self).entries(), chain_id@, up_to_seq),
            r is Ok ==> snapshot_at(final(self).entries(), chain_id@, up_to_seq) == Ok::<
                Option<Seq<HeaderView>>,
                ChainsError,
            >(Some(found_headers(old(self).entries(), chain_id@, up_to_seq as nat))),
    {
        let ghost m0 = self.entries();
        let mut headers: Vec<HeaderFields> = Vec::new();
        let mut done: u64 = 0;
        while done < up_to_seq
            invariant
                done <= up_to_seq,
                m0 == self.entries(),
                header_list_view(headers@) == found_headers(m0, chain_id@, done as nat),
            decreases up_to_seq - done,
        {
            let seq = done + 1;
            let ghost before = headers@;
            match self.get_header(chain_id, seq)? {
                Some(header) => {
                    headers.push(header.to_fields());
                    assert(header_list_view(headers@) =~= header_list_view(before).push(header@));
                },
                None => {},
            }
            done = seq;
        }
        let key = snapshot_key(chain_id, up_to_seq);
        let data = bincode_headers(&headers);
        proof {
            lemma_pow256_8();
            assert(data@.len() == data.len());
            let hs = header_list_view(headers@);
            assert(headers_shape(hs)) by {
                assert forall|j: int| 0 <= j < hs.len() implies header_shape(#[trigger] hs[j]) by {
                    assert(hs[j] == header_fields_view(headers@[j]));
                }
            }
            assert(headers_encoding(hs).is_prefix_of(data@));
            let c = choose|x: Seq<HeaderView>| headers_shape(x) && #[trigger] headers_encoding(x).is_prefix_of(data@);
            lemma_headers_encoding_unique(c, hs, data@);
            lemma_key_tags();
        }
        db_err(sled_insert(&mut self.db, key.as_slice(), data.as_slice()))?;
        self.update_latest_sequence(chain_id, up_to_seq)
    }

    /// The headers of the snapshot taken at `seq`, if there is one.
    pub fn get_snapshot(&self, chain_id: &[u8; 32], seq: u64) -> (r: ChainsResult<Option<Vec<Header>>>)
        ensures
            r matches Err(e) ==> storage_error(e),
            r == Err::<Option<Vec<Header>>, ChainsError>(ChainsError::Database) || snapshot_result(r)
                == snapshot_at(self.entries(), chain_id@, seq),
    {
        let key = snapshot_key(chain_id, seq);
        let value = db_err(sled_get(&self.db, key.as_slice()))?;
        let r = match &value {
            Some(v) => match bincode_headers_decode(v.as_slice()) {
                Ok(fields) => {
                    let mut headers: Vec<Header> = Vec::new();
                    let mut i: usize = 0;
                    while i < fields.len()
                        invariant
                            i <= fields@.len(),
                            headers@.len() == i,
                            forall|j: int| 0 <= j < i ==> (#[trigger] headers@[j])@ == header_fields_view(fields@[j]),
                        decreases fields@.len() - i,
                    {
                        headers.push(Header::from_fields(&fields[i]));
                        i = i + 1;
                    }
                    assert(header_views(headers@) =~= header_list_view(fields@));
                    proof {
                        lemma_pow256_8();
                        assert(v@.len() == v.len());
                        assert(headers_shape(header_views(headers@))) by {
                            assert forall|j: int| 0 <= j < header_views(headers@).len() implies header_shape(
                                #[trigger] header_views(headers@)[j],
                            ) by {
                                assert(header_views(headers@)[j] == headers@[j]@);
                            }
                        }
                        let c = choose|x: Seq<HeaderView>| headers_shape(x) && #[trigger] headers_encoding(x).is_prefix_of(v@);
                        lemma_headers_encoding_unique(c, header_views(headers@), v@);
                    }
                    Ok(Some(headers))
                },
                Err(_) => Err(ChainsError::Encoding),
            },
            None => Ok(None),
        };
        r
    }

    /// Deletes the headers (and their bodies) of sequence 1 up to, but not
    /// including, `snapshot_seq`, one after another, and returns how many
    /// headers were found.
    pub fn prune_headers_before_snapshot(&mut self, chain_id: &[u8; 32], snapshot_seq: u64) -> (r: ChainsResult<u64>)
        ensures
            r matches Err(e) ==> storage_error(e),
            r matches Ok(n) ==> snapshot_seq >= 1 && (final(self).entries(), n as nat) == pruned_before(
                old(self).entries(),
                chain_id@,
                (snapshot_seq - 1) as nat,
            ) || snapshot_seq == 0 && n == 0 && final(self).entries() == old(self).entries(),
    {
        let ghost m0 = self.entries();
        let mut pruned: u64 = 0;
        let mut seq: u64 = 1;
        while seq < snapshot_seq
            invariant
                1 <= seq,
                pruned < seq,
                seq <= snapshot_seq || seq == 1,
                (self.entries(), pruned as nat) == pruned_before(m0, chain_id@, (seq - 1) as nat),
            decreases snapshot_seq - seq,
        {
            match self.get_header(chain_id, seq)? {
                Some(header) => {
                    self.delete_header(chain_id, seq)?;
                    self.delete_body(&header.block_id)?;
                    pruned = pruned + 1;
                },
                None => {},
            }
            seq = seq + 1;
        }
        Ok(pruned)
    }
}

} // verus!
