//! Persistent storage of chains, headers, bodies and session keys, kept in
//! a `sled` tree under the keys of [`keys`].
//!
//! The contracts speak of the tree's entries, `Storage::entries`: each
//! write states how the entries change, and each read states what it gives
//! for the entries it finds (a read can also fail in the store, which is a
//! `Database` error). What the tree holds when it is opened is whatever is
//! on disk, and is not stated.
pub mod gc;
pub mod keys;

use crate::bytes::{le_u64, le_value, lemma_le_u64_round_trip, lemma_pow256_8, pow256, to_id};
use crate::codec::{
    bincode_body, bincode_body_decode, bincode_header, bincode_header_decode, bincode_u64,
    bincode_u64_decode, bincode_ratchet, bincode_ratchet_decode, body_encoding, body_shape,
    decode_body, decode_header, header_encoding, header_shape, lemma_body_encoding_unique,
    lemma_header_encoding_unique, lemma_ratchet_encoding_unique, ratchet_encoding, ratchet_fields_agree,
    RatchetFields,
};
use crate::models::body::BodyView;
use crate::models::header::HeaderView;
use crate::crypto::ratchet::RatchetState;
use crate::error::{ChainsError, ChainsResult};
use crate::models::body::Body;
use crate::models::body_map::BodyMap;
use crate::models::chain::{chain_error, Chain};
use crate::models::header::Header;
use keys::{
    be_value, body_key, body_key_spec, chain_id_from_key, chain_id_from_key_spec, chain_key,
    chain_key_spec, chain_tag, epoch_key, epoch_key_spec, epoch_prefix, epoch_prefix_spec,
    header_key, header_key_spec, header_prefix, header_prefix_spec, latest_key, latest_key_spec,
    lemma_header_keys_distinct, lemma_header_keys_sort_by_sequence, lemma_key_tags, lemma_sorts_before_strict, ratchet_key, ratchet_key_spec, sorts_before, tag_chain,
};
use crate::codec::{hex_decode_spec, hex_lower, lemma_hex_lower_decodes};
use vstd::prelude::*;

verus! {

/// A `sled` database handle.
#[verifier::external_type_specification]
#[verifier::external_body]
pub struct ExDb(sled::Db);

/// The error type of `sled`.
#[verifier::external_type_specification]
#[verifier::external_body]
pub struct ExSledError(sled::Error);

/// The key-value pairs a `sled` tree holds, keys and values as bytes.
pub uninterp spec fn sled_entries(db: sled::Db) -> Map<Seq<u8>, Seq<u8>>;

/// Calls `sled::open`. Nothing is claimed: what the opened tree holds is
/// whatever is on disk.
#[verifier::external_body]
fn sled_open(path: &str) -> (r: Result<sled::Db, sled::Error>) {
    sled::open(path)
}

/// Calls `Tree::insert` and drops the previous value. On success the tree
/// maps `key` to `value` and is otherwise unchanged.
#[verifier::external_body]
fn sled_insert(db: &mut sled::Db, key: &[u8], value: &[u8]) -> (r: Result<(), sled::Error>)
    ensures
        r is Ok ==> sled_entries(*final(db)) == sled_entries(*old(db)).insert(key@, value@),
{
    match db.insert(key, value) {
        Ok(_) => Ok(()),
        Err(e) => Err(e),
    }
}

/// Calls `Tree::get` and copies the value out: on success, the value the
/// tree maps `key` to, if any.
#[verifier::external_body]
fn sled_get(db: &sled::Db, key: &[u8]) -> (r: Result<Option<Vec<u8>>, sled::Error>)
    ensures
        r matches Ok(v) ==> stored_view(v) == stored(sled_entries(*db), key@),
{
    match db.get(key) {
        Ok(Some(v)) => Ok(Some(v.to_vec())),
        Ok(None) => Ok(None),
        Err(e) => Err(e),
    }
}

/// Calls `Tree::remove` and drops the removed value. On success the tree
/// no longer maps `key` and is otherwise unchanged.
#[verifier::external_body]
fn sled_remove(db: &mut sled::Db, key: &[u8]) -> (r: Result<(), sled::Error>)
    ensures
        r is Ok ==> sled_entries(*final(db)) == sled_entries(*old(db)).remove(key@),
{
    match db.remove(key) {
        Ok(_) => Ok(()),
        Err(e) => Err(e),
    }
}

/// Calls `Tree::contains_key`: on success, whether the tree maps `key`.
#[verifier::external_body]
fn sled_contains_key(db: &sled::Db, key: &[u8]) -> (r: Result<bool, sled::Error>)
    ensures
        r matches Ok(b) ==> b == sled_entries(*db).contains_key(key@),
{
    db.contains_key(key)
}

/// Calls `Tree::scan_prefix` and collects the pairs it yields, or the first
/// error. On success they are exactly the entries whose keys begin with
/// `prefix`, in ascending byte order of their keys, as the tree keeps them.
#[verifier::external_body]
fn sled_scan_prefix(db: &sled::Db, prefix: &[u8]) -> (r: Result<Vec<(Vec<u8>, Vec<u8>)>, sled::Error>)
    ensures
        r matches Ok(v) ==> {
            &&& forall|i: int|
                0 <= i < v@.len() ==> prefix@.is_prefix_of((#[trigger] v@[i]).0@) && sled_entries(
                    *db,
                ).contains_key(v@[i].0@) && sled_entries(*db)[v@[i].0@] == v@[i].1@
            &&& forall|k: Seq<u8>|
                #[trigger] sled_entries(*db).contains_key(k) && prefix@.is_prefix_of(k) ==> exists|i: int|
                    0 <= i < v@.len() && (#[trigger] v@[i]).0@ == k
            &&& forall|i: int, j: int|
                0 <= i < j < v@.len() ==> sorts_before((#[trigger] v@[i]).0@, (#[trigger] v@[j]).0@)
        },
{
    db.scan_prefix(prefix).map(|kv| kv.map(|(k, v)| (k.to_vec(), v.to_vec()))).collect()
}

/// Persistent storage manager using Sled.
///
/// Responsible for reading and writing Chains, Headers, and Bodies to disk.
pub struct Storage {
    db: sled::Db,
}

impl Storage {
    /// The key-value pairs the store holds.
    pub closed spec fn entries(&self) -> Map<Seq<u8>, Seq<u8>> {
        sled_entries(self.db)
    }
}

/// The value stored under `k`, if any.
pub open spec fn stored(m: Map<Seq<u8>, Seq<u8>>, k: Seq<u8>) -> Option<Seq<u8>> {
    if m.contains_key(k) {
        Some(m[k])
    } else {
        None
    }
}

fn db_err<T>(r: Result<T, sled::Error>) -> (out: ChainsResult<T>)
    ensures
        match r {
            Ok(v) => out == Ok::<T, ChainsError>(v),
            Err(_) => out == Err::<T, ChainsError>(ChainsError::Database),
        },
{
    match r {
        Ok(v) => Ok(v),
        Err(_) => Err(ChainsError::Database),
    }
}

/// The errors a storage operation can report.
pub open spec fn storage_error(e: ChainsError) -> bool {
    e == ChainsError::Database || e == ChainsError::Encoding
}

/// The bytes stored under a key, if any.
pub open spec fn stored_view(value: Option<Vec<u8>>) -> Option<Seq<u8>> {
    match value {
        Some(v) => Some(v@),
        None => None,
    }
}

/// How a stored latest sequence reads: nothing stored is 0, and otherwise
/// the first eight bytes, little-endian; fewer bytes are an encoding error.
pub open spec fn latest_reading(value: Option<Seq<u8>>) -> ChainsResult<u64> {
    match value {
        None => Ok(0),
        Some(v) => if v.len() >= 8 {
            Ok(le_value(v.take(8)) as u64)
        } else {
            Err(ChainsError::Encoding)
        },
    }
}

/// How a stored header reads: nothing stored is no header; bytes that begin
/// with the encoding of a header give that header, and other bytes are an
/// encoding error.
pub open spec fn read_header(value: Option<Seq<u8>>) -> ChainsResult<Option<HeaderView>> {
    match value {
        None => Ok(None),
        Some(v) => match decode_header(v) {
            Some(h) => Ok(Some(h)),
            None => Err(ChainsError::Encoding),
        },
    }
}

/// How a stored body reads, as `read_header` does for headers.
pub open spec fn read_body(value: Option<Seq<u8>>) -> ChainsResult<Option<BodyView>> {
    match value {
        None => Ok(None),
        Some(v) => match decode_body(v) {
            Some(b) => Ok(Some(b)),
            None => Err(ChainsError::Encoding),
        },
    }
}

/// A header read as a value.
pub open spec fn header_result(r: ChainsResult<Option<Header>>) -> ChainsResult<Option<HeaderView>> {
    match r {
        Ok(Some(h)) => Ok(Some(h@)),
        Ok(None) => Ok(None),
        Err(e) => Err(e),
    }
}

/// A body read as a value.
pub open spec fn body_result(r: ChainsResult<Option<Body>>) -> ChainsResult<Option<BodyView>> {
    match r {
        Ok(Some(b)) => Ok(Some(b@)),
        Ok(None) => Ok(None),
        Err(e) => Err(e),
    }
}

/// The header stored for sequence `seq` of a chain, as `get_header` reads it.
pub open spec fn header_at(m: Map<Seq<u8>, Seq<u8>>, chain_id: Seq<u8>, seq: u64) -> ChainsResult<Option<HeaderView>> {
    read_header(stored(m, header_key_spec(chain_id, seq)))
}

/// The body stored for a block, as `get_body` reads it.
pub open spec fn body_at(m: Map<Seq<u8>, Seq<u8>>, block_id: Seq<u8>) -> ChainsResult<Option<BodyView>> {
    read_body(stored(m, body_key_spec(block_id)))
}

/// A chain's latest sequence, as `get_latest_sequence` reads it.
pub open spec fn latest_at(m: Map<Seq<u8>, Seq<u8>>, chain_id: Seq<u8>) -> ChainsResult<u64> {
    latest_reading(stored(m, latest_key_spec(chain_id)))
}

/// Whether a chain is registered.
pub open spec fn registered(m: Map<Seq<u8>, Seq<u8>>, chain_id: Seq<u8>) -> bool {
    m.contains_key(chain_key_spec(chain_id))
}

/// The store after a block is stored: its header under its chain and
/// sequence, its body under the body's block id, and its sequence as the
/// chain's latest.
pub open spec fn with_block(m: Map<Seq<u8>, Seq<u8>>, h: HeaderView, b: BodyView) -> Map<Seq<u8>, Seq<u8>> {
    m.insert(header_key_spec(h.chain_id, h.sequence), header_encoding(h)).insert(
        body_key_spec(b.block_id),
        body_encoding(b),
    ).insert(latest_key_spec(h.chain_id), le_u64(h.sequence))
}

/// The headers stored for a chain at sequences 1 to `n`, in order, skipping
/// sequences with none.
pub open spec fn found_headers(m: Map<Seq<u8>, Seq<u8>>, chain_id: Seq<u8>, n: nat) -> Seq<HeaderView>
    decreases n,
{
    if n == 0 {
        Seq::empty()
    } else {
        let rest = found_headers(m, chain_id, (n - 1) as nat);
        match header_at(m, chain_id, n as u64) {
            Ok(Some(h)) => rest.push(h),
            _ => rest,
        }
    }
}

/// Whether `id` is read out of some key under the `chain:` tag.
pub open spec fn listed_chain(m: Map<Seq<u8>, Seq<u8>>, id: Seq<u8>) -> bool {
    exists|k: Seq<u8>|
        m.contains_key(k) && tag_chain().is_prefix_of(k) && #[trigger] chain_id_from_key_spec(k) == Ok::<
            Option<Seq<u8>>,
            ChainsError,
        >(Some(id))
}

/// Whether every chain id read out of a key under the `chain:` tag is among
/// `ids`.
pub open spec fn lists_every_chain(m: Map<Seq<u8>, Seq<u8>>, ids: Seq<[u8; 32]>) -> bool {
    forall|k: Seq<u8>|
        #[trigger] m.contains_key(k) && tag_chain().is_prefix_of(k) ==> (
        chain_id_from_key_spec(k) matches Ok(Some(id)) ==> exists|i: int|
            0 <= i < ids.len() && (#[trigger] ids[i])@ == id)
}

/// Whether `hs` are the headers stored under the keys `keys`, which are
/// exactly the keys beginning with `p`, in ascending order.
pub open spec fn headers_under_prefix(
    m: Map<Seq<u8>, Seq<u8>>,
    p: Seq<u8>,
    keys: Seq<Seq<u8>>,
    hs: Seq<HeaderView>,
) -> bool {
    &&& keys.len() == hs.len()
    &&& forall|i: int|
        0 <= i < keys.len() ==> #[trigger] m.contains_key(keys[i]) && p.is_prefix_of(keys[i])
            && decode_header(m[keys[i]]) == Some(hs[i])
    &&& forall|i: int, j: int| 0 <= i < j < keys.len() ==> sorts_before(#[trigger] keys[i], #[trigger] keys[j])
    &&& forall|k: Seq<u8>| #[trigger] m.contains_key(k) && p.is_prefix_of(k) ==> keys.contains(k)
}

/// Whether `c` is the chain that the store holds for `chain_id`: its
/// headers are those stored under the chain's header prefix, in ascending
/// key order, and its bodies are exactly the stored bodies of those
/// headers.
pub open spec fn assembled(m: Map<Seq<u8>, Seq<u8>>, chain_id: Seq<u8>, c: Chain) -> bool {
    let hs = c.header_seq();
    &&& c.id@ == chain_id
    &&& exists|keys: Seq<Seq<u8>>| #[trigger] headers_under_prefix(m, header_prefix_spec(chain_id), keys, hs)
    &&& forall|k: Seq<u8>|
        #[trigger] c.bodies.view().contains_key(k) ==> body_at(m, k) == Ok::<Option<BodyView>, ChainsError>(
            Some(c.bodies.view()[k]),
        ) && exists|i: int| 0 <= i < hs.len() && (#[trigger] hs[i]).block_id == k
    &&& forall|i: int|
        0 <= i < hs.len() && body_at(m, (#[trigger] hs[i]).block_id) is Ok && body_at(m, hs[i].block_id)->Ok_0 is Some
            ==> c.bodies.view().contains_key(hs[i].block_id)
}

#[verifier::spinoff_prover]
proof fn lemma_sorted_keys_index(m: Map<Seq<u8>, Seq<u8>>, p: Seq<u8>, k1: Seq<Seq<u8>>, h1: Seq<HeaderView>, k2: Seq<Seq<u8>>, h2: Seq<HeaderView>, i: int)
    requires
        headers_under_prefix(m, p, k1, h1),
        headers_under_prefix(m, p, k2, h2),
        0 <= i < k1.len(),
    ensures
        forall|j: int| 0 <= j <= i ==> j < k2.len() && #[trigger] k1[j] == k2[j],
    decreases i,
{
    if i > 0 {
        lemma_sorted_keys_index(m, p, k1, h1, k2, h2, i - 1);
    }
    assert(m.contains_key(k1[i]));
    assert(p.is_prefix_of(k1[i]));
    assert(k2.contains(k1[i]));
    let a = choose|a: int| 0 <= a < k2.len() && k2[a] == k1[i];
    if a < i {
        assert(k1[a] == k2[a]);
        assert(sorts_before(k1[a], k1[i]));
        lemma_sorts_before_strict(k1[i], k1[i]);
    } else if a > i {
        assert(m.contains_key(k2[i]) && p.is_prefix_of(k2[i]));
        assert(k1.contains(k2[i]));
        let b = choose|b: int| 0 <= b < k1.len() && k1[b] == k2[i];
        if b < i {
            assert(k1[b] == k2[b]);
            assert(sorts_before(k2[b], k2[i]));
            lemma_sorts_before_strict(k2[i], k2[i]);
        } else if b > i {
            assert(sorts_before(k1[i], k1[b]));
            assert(sorts_before(k2[i], k2[a]));
            lemma_sorts_before_strict(k1[i], k2[i]);
        }
    }
}

/// The headers read under a prefix do not depend on how they were found:
/// two readings of the same store are the same.
pub proof fn lemma_headers_under_prefix_unique(
    m: Map<Seq<u8>, Seq<u8>>,
    p: Seq<u8>,
    k1: Seq<Seq<u8>>,
    h1: Seq<HeaderView>,
    k2: Seq<Seq<u8>>,
    h2: Seq<HeaderView>,
)
    requires
        headers_under_prefix(m, p, k1, h1),
        headers_under_prefix(m, p, k2, h2),
    ensures
        k1 == k2,
        h1 == h2,
{
    if k1.len() > 0 {
        lemma_sorted_keys_index(m, p, k1, h1, k2, h2, k1.len() - 1);
    }
    if k2.len() > 0 {
        lemma_sorted_keys_index(m, p, k2, h2, k1, h1, k2.len() - 1);
    }
    assert(k1.len() == k2.len()) by {
        if k1.len() > 0 {
            assert(k1[k1.len() - 1] == k2[k1.len() - 1]);
        }
        if k2.len() > 0 {
            assert(k2[k2.len() - 1] == k1[k2.len() - 1]);
        }
    }
    assert forall|i: int| 0 <= i < k1.len() implies k1[i] == k2[i] && h1[i] == h2[i] by {
        assert(k1[i] == k2[i]);
        assert(m.contains_key(k1[i]));
        assert(m.contains_key(k2[i]));
    }
    assert(k1 =~= k2);
    assert(h1 =~= h2);
}

/// Whatever way the chain is assembled from one store, it validates the
/// same: so when the stored chain validates, `get_chain` fails only on a
/// storage error.
pub proof fn lemma_assembled_validates_alike(m: Map<Seq<u8>, Seq<u8>>, chain_id: Seq<u8>, c1: Chain, c2: Chain)
    requires
        assembled(m, chain_id, c1),
        assembled(m, chain_id, c2),
    ensures
        c1.validate_spec() == c2.validate_spec(),
{
    let p = header_prefix_spec(chain_id);
    let k1 = choose|keys: Seq<Seq<u8>>| #[trigger] headers_under_prefix(m, p, keys, c1.header_seq());
    let k2 = choose|keys: Seq<Seq<u8>>| #[trigger] headers_under_prefix(m, p, keys, c2.header_seq());
    lemma_headers_under_prefix_unique(m, p, k1, c1.header_seq(), k2, c2.header_seq());
    let hs = c1.header_seq();
    assert forall|k: Seq<u8>| #[trigger] c1.bodies.view().contains_key(k) implies c2.bodies.view().contains_key(k) by {
        let i = choose|i: int| 0 <= i < hs.len() && (#[trigger] hs[i]).block_id == k;
        assert(c2.header_seq()[i] == hs[i]);
    }
    assert forall|k: Seq<u8>| #[trigger] c2.bodies.view().contains_key(k) implies c1.bodies.view().contains_key(k) by {
        let i = choose|i: int| 0 <= i < c2.header_seq().len() && (#[trigger] c2.header_seq()[i]).block_id == k;
        assert(hs[i] == c2.header_seq()[i]);
    }
    assert(c1.bodies.view() =~= c2.bodies.view());
    assert(c1.headers@.len() == c2.headers@.len()) by {
        assert(c1.header_seq().len() == c1.headers@.len());
        assert(c2.header_seq().len() == c2.headers@.len());
    }
}

/// Whether the keys under a chain's header prefix are exactly the header
/// keys of sequences 1 to `hs.len()`, the one of sequence `s` holding the
/// header `hs[s - 1]`: how a chain of `hs.len()` blocks stands in the store.
pub open spec fn holds_header_run(m: Map<Seq<u8>, Seq<u8>>, chain_id: Seq<u8>, hs: Seq<HeaderView>) -> bool {
    &&& hs.len() <= u64::MAX
    &&& forall|k: Seq<u8>|
        #[trigger] m.contains_key(k) && header_prefix_spec(chain_id).is_prefix_of(k) ==> exists|s: u64|
            1 <= s <= hs.len() && k == #[trigger] header_key_spec(chain_id, s)
    &&& forall|s: u64|
        1 <= s <= hs.len() ==> #[trigger] m.contains_key(header_key_spec(chain_id, s)) && decode_header(
            m[header_key_spec(chain_id, s)],
        ) == Some(hs[s - 1])
}

/// The sequence number of a header key of the chain that `keys[i]` is.
spec fn key_sequence(chain_id: Seq<u8>, keys: Seq<Seq<u8>>, n: nat, i: int) -> u64 {
    choose|s: u64| 1 <= s <= n && keys[i] == #[trigger] header_key_spec(chain_id, s)
}

proof fn lemma_header_run_index(
    m: Map<Seq<u8>, Seq<u8>>,
    chain_id: Seq<u8>,
    keys: Seq<Seq<u8>>,
    found: Seq<HeaderView>,
    hs: Seq<HeaderView>,
    i: int,
)
    requires
        holds_header_run(m, chain_id, hs),
        headers_under_prefix(m, header_prefix_spec(chain_id), keys, found),
        0 <= i < hs.len(),
    ensures
        forall|k: int| 0 <= k <= i ==> k < keys.len() && #[trigger] keys[k] == header_key_spec(chain_id, (k + 1) as u64),
    decreases i,
{
    let p = header_prefix_spec(chain_id);
    if i > 0 {
        lemma_header_run_index(m, chain_id, keys, found, hs, i - 1);
    }
    let key = header_key_spec(chain_id, (i + 1) as u64);
    assert(p.is_prefix_of(key)) by {
        assert(key.take(p.len() as int) =~= p);
    }
    assert(m.contains_key(key));
    assert(keys.contains(key));
    let j = choose|j: int| 0 <= j < keys.len() && keys[j] == key;
    if j < i {
        assert(keys[j] == header_key_spec(chain_id, (j + 1) as u64));
        lemma_header_keys_distinct(chain_id, (j + 1) as u64, (i + 1) as u64);
    } else if j > i {
        assert(m.contains_key(keys[i]));
        assert(p.is_prefix_of(keys[i]));
        let s = key_sequence(chain_id, keys, hs.len(), i);
        assert(sorts_before(keys[i], keys[j]));
        lemma_header_keys_sort_by_sequence(chain_id, s, (i + 1) as u64);
        let k = s - 1;
        assert(keys[k] == header_key_spec(chain_id, (k + 1) as u64));
        assert(sorts_before(keys[k], keys[i]) || k == i);
        lemma_header_keys_sort_by_sequence(chain_id, s, s);
    }
}

/// A chain that stands in the store as the headers of sequences 1 to n is
/// read from its header prefix as exactly those n headers, in sequence
/// order.
pub proof fn lemma_header_run_reads_in_order(
    m: Map<Seq<u8>, Seq<u8>>,
    chain_id: Seq<u8>,
    keys: Seq<Seq<u8>>,
    found: Seq<HeaderView>,
    hs: Seq<HeaderView>,
)
    requires
        holds_header_run(m, chain_id, hs),
        headers_under_prefix(m, header_prefix_spec(chain_id), keys, found),
    ensures
        found == hs,
{
    let p = header_prefix_spec(chain_id);
    let n = hs.len();
    if n > 0 {
        lemma_header_run_index(m, chain_id, keys, found, hs, n - 1);
        assert(keys[n - 1] == header_key_spec(chain_id, n as u64));
    }
    if keys.len() > n {
        assert(m.contains_key(keys[n as int]));
        assert(p.is_prefix_of(keys[n as int]));
        let s = key_sequence(chain_id, keys, n, n as int);
        let k = s - 1;
        assert(keys[k] == header_key_spec(chain_id, (k + 1) as u64));
        assert(sorts_before(keys[k], keys[n as int]));
        lemma_header_keys_sort_by_sequence(chain_id, s, s);
    }
    assert(found.len() == n);
    assert forall|i: int| 0 <= i < n implies found[i] == hs[i] by {
        assert(keys[i] == header_key_spec(chain_id, (i + 1) as u64));
        assert(m.contains_key(header_key_spec(chain_id, (i + 1) as u64)));
        assert(found[i] == hs[i]);
    }
    assert(found =~= hs);
}

/// The encoding of a header that fits in memory reads back as that header.
pub proof fn lemma_header_encoding_reads_back(h: HeaderView)
    requires
        header_shape(h),
        header_encoding(h).len() < pow256(8),
    ensures
        decode_header(header_encoding(h)) == Some(h),
{
    let v = header_encoding(h);
    assert(header_encoding(h).is_prefix_of(v));
    let c = choose|x: HeaderView| header_shape(x) && #[trigger] header_encoding(x).is_prefix_of(v);
    lemma_header_encoding_unique(c, h, v);
}

/// The encoding of a body that fits in memory reads back as that body.
pub proof fn lemma_body_encoding_reads_back(b: BodyView)
    requires
        body_shape(b),
        body_encoding(b).len() < pow256(8),
    ensures
        decode_body(body_encoding(b)) == Some(b),
{
    let v = body_encoding(b);
    assert(body_encoding(b).is_prefix_of(v));
    let c = choose|x: BodyView| body_shape(x) && #[trigger] body_encoding(x).is_prefix_of(v);
    lemma_body_encoding_unique(c, b, v);
}

/// How a stored epoch key reads: nothing stored is no key, 32 bytes are the
/// key, and any other length is an encoding error.
pub open spec fn epoch_key_reading(value: Option<Seq<u8>>) -> ChainsResult<Option<Seq<u8>>> {
    match value {
        None => Ok(None),
        Some(v) => if v.len() == 32 {
            Ok(Some(v))
        } else {
            Err(ChainsError::Encoding)
        },
    }
}

/// The entries of the store whose keys begin with `p`, as (key, value)
/// pairs: `es` holds each of them once, in ascending key order.
pub open spec fn entries_under_prefix(m: Map<Seq<u8>, Seq<u8>>, p: Seq<u8>, es: Seq<(Seq<u8>, Seq<u8>)>) -> bool {
    &&& forall|i: int|
        0 <= i < es.len() ==> #[trigger] m.contains_key(es[i].0) && p.is_prefix_of(es[i].0) && m[es[i].0] == es[i].1
    &&& forall|i: int, j: int| 0 <= i < j < es.len() ==> sorts_before((#[trigger] es[i]).0, (#[trigger] es[j]).0)
    &&& forall|k: Seq<u8>|
        #[trigger] m.contains_key(k) && p.is_prefix_of(k) ==> exists|i: int| 0 <= i < es.len() && (#[trigger] es[i]).0 == k
}

/// Scanned entries as byte strings.
pub open spec fn entries_view(v: Seq<(Vec<u8>, Vec<u8>)>) -> Seq<(Seq<u8>, Seq<u8>)> {
    v.map_values(|e: (Vec<u8>, Vec<u8>)| (e.0@, e.1@))
}

/// What an entry under an epoch prefix of length `plen` reads as: the
/// epoch written in the 16 hex digits after the prefix, and the 32-byte
/// key stored there; nothing for any other entry.
pub open spec fn epoch_entry(plen: nat, key: Seq<u8>, value: Seq<u8>) -> Option<(u64, Seq<u8>)> {
    if key.len() == plen + 16 && value.len() == 32 {
        match hex_decode_spec(key.skip(plen as int)) {
            Some(b) => if b.len() == 8 {
                Some((be_value(b) as u64, value))
            } else {
                None
            },
            None => None,
        }
    } else {
        None
    }
}

/// The (epoch, key) pairs that entries under an epoch prefix of length
/// `plen` read as, in their order.
pub open spec fn epoch_listing(plen: nat, es: Seq<(Seq<u8>, Seq<u8>)>) -> Seq<(u64, Seq<u8>)>
    decreases es.len(),
{
    if es.len() == 0 {
        Seq::empty()
    } else {
        let rest = epoch_listing(plen, es.drop_last());
        match epoch_entry(plen, es.last().0, es.last().1) {
            Some(x) => rest.push(x),
            None => rest,
        }
    }
}

/// The chain ids that entries under the `chain:` tag read as, in their
/// order; entries that hold no id are skipped.
pub open spec fn chain_listing(es: Seq<(Seq<u8>, Seq<u8>)>) -> Seq<Seq<u8>>
    decreases es.len(),
{
    if es.len() == 0 {
        Seq::empty()
    } else {
        let rest = chain_listing(es.drop_last());
        match chain_id_from_key_spec(es.last().0) {
            Ok(Some(id)) => rest.push(id),
            _ => rest,
        }
    }
}

/// Chain ids as byte strings.
pub open spec fn ids_view(v: Seq<[u8; 32]>) -> Seq<Seq<u8>> {
    v.map_values(|id: [u8; 32]| id@)
}

/// Whether every key under the `chain:` tag is the registry key of a
/// 32-byte chain id, as `create_chain` writes them.
pub open spec fn canonical_registry(m: Map<Seq<u8>, Seq<u8>>) -> bool {
    forall|k: Seq<u8>|
        #[trigger] m.contains_key(k) && tag_chain().is_prefix_of(k) ==> exists|id: Seq<u8>|
            id.len() == 32 && k == #[trigger] chain_key_spec(id)
}

/// The id read out of a chain's registry key is that chain's id.
proof fn lemma_registry_key_reads_back(id: Seq<u8>)
    ensures
        chain_id_from_key_spec(chain_key_spec(id)) matches Ok(Some(x)) ==> x == id,
{
    assert(chain_key_spec(id).skip(6) =~= hex_lower(id));
    lemma_hex_lower_decodes(id);
}

proof fn lemma_chain_listing_source(es: Seq<(Seq<u8>, Seq<u8>)>, t: int)
    requires
        0 <= t < chain_listing(es).len(),
    ensures
        exists|j: int|
            0 <= j < es.len() && chain_id_from_key_spec((#[trigger] es[j]).0) == Ok::<Option<Seq<u8>>, ChainsError>(
                Some(chain_listing(es)[t]),
            ),
    decreases es.len(),
{
    let rest = chain_listing(es.drop_last());
    if t < rest.len() {
        lemma_chain_listing_source(es.drop_last(), t);
        let j = choose|j: int|
            0 <= j < es.drop_last().len() && chain_id_from_key_spec((#[trigger] es.drop_last()[j]).0) == Ok::<
                Option<Seq<u8>>,
                ChainsError,
            >(Some(rest[t]));
        assert(es[j] == es.drop_last()[j]);
    } else {
        assert(es[es.len() - 1] == es.last());
    }
}

proof fn lemma_chain_listing_distinct_run(m: Map<Seq<u8>, Seq<u8>>, es: Seq<(Seq<u8>, Seq<u8>)>)
    requires
        canonical_registry(m),
        forall|i: int| 0 <= i < es.len() ==> #[trigger] m.contains_key(es[i].0) && tag_chain().is_prefix_of(es[i].0),
        forall|i: int, j: int| 0 <= i < j < es.len() ==> sorts_before((#[trigger] es[i]).0, (#[trigger] es[j]).0),
    ensures
        forall|i: int, j: int|
            0 <= i < j < chain_listing(es).len() ==> #[trigger] chain_listing(es)[i] != #[trigger] chain_listing(es)[j],
    decreases es.len(),
{
    if es.len() > 0 {
        let init = es.drop_last();
        assert forall|i: int| 0 <= i < init.len() implies #[trigger] m.contains_key(init[i].0) && tag_chain().is_prefix_of(
            init[i].0,
        ) by {
            assert(init[i] == es[i]);
        }
        assert forall|i: int, j: int| 0 <= i < j < init.len() implies sorts_before(
            (#[trigger] init[i]).0,
            (#[trigger] init[j]).0,
        ) by {
            assert(init[i] == es[i] && init[j] == es[j]);
        }
        lemma_chain_listing_distinct_run(m, init);
        let rest = chain_listing(init);
        let n = es.len() - 1;
        if let Ok(Some(id)) = chain_id_from_key_spec(es.last().0) {
            assert forall|t: int| 0 <= t < rest.len() implies rest[t] != id by {
                lemma_chain_listing_source(init, t);
                let j = choose|j: int|
                    0 <= j < init.len() && chain_id_from_key_spec((#[trigger] init[j]).0) == Ok::<
                        Option<Seq<u8>>,
                        ChainsError,
                    >(Some(rest[t]));
                assert(init[j] == es[j]);
                assert(m.contains_key(es[j].0) && tag_chain().is_prefix_of(es[j].0));
                assert(m.contains_key(es[n].0) && tag_chain().is_prefix_of(es[n].0));
                let a = choose|a: Seq<u8>| a.len() == 32 && es[j].0 == #[trigger] chain_key_spec(a);
                let b = choose|b: Seq<u8>| b.len() == 32 && es[n].0 == #[trigger] chain_key_spec(b);
                lemma_registry_key_reads_back(a);
                lemma_registry_key_reads_back(b);
                if rest[t] == id {
                    assert(es[j].0 == es[n].0);
                    assert(sorts_before(es[j].0, es[n].0));
                    lemma_sorts_before_strict(es[n].0, es[n].0);
                }
            }
            assert(chain_listing(es) == rest.push(id));
        }
    }
}

/// When every registry key is one that `create_chain` writes, `list_chains`
/// names each registered chain once: the listing has no repeats.
pub proof fn lemma_chain_listing_distinct(m: Map<Seq<u8>, Seq<u8>>, es: Seq<(Seq<u8>, Seq<u8>)>)
    requires
        canonical_registry(m),
        entries_under_prefix(m, tag_chain(), es),
    ensures
        forall|i: int, j: int|
            0 <= i < j < chain_listing(es).len() ==> #[trigger] chain_listing(es)[i] != #[trigger] chain_listing(es)[j],
{
    lemma_chain_listing_distinct_run(m, es);
}

/// Epoch key pairs as values.
pub open spec fn epoch_pairs_view(v: Seq<(u64, [u8; 32])>) -> Seq<(u64, Seq<u8>)> {
    v.map_values(|x: (u64, [u8; 32])| (x.0, x.1@))
}

/// How a stored ratchet session reads, as `header_reading` does for
/// headers.
pub open spec fn ratchet_reading(value: Option<Seq<u8>>, r: ChainsResult<Option<RatchetState>>) -> bool {
    match value {
        None => r == Ok::<Option<RatchetState>, ChainsError>(None),
        Some(v) => match r {
            Ok(Some(s)) => ratchet_encoding(s.to_fields_spec()).is_prefix_of(v),
            Ok(None) => false,
            Err(e) => e == ChainsError::Encoding && forall|f: RatchetFields|
                !(#[trigger] ratchet_encoding(f)).is_prefix_of(v),
        },
    }
}

/// Whether two sessions hold the same keys, counters and skipped keys.
pub open spec fn same_session(a: RatchetState, b: RatchetState) -> bool {
    ratchet_fields_agree(a.to_fields_spec(), b.to_fields_spec())
}

/// Reads a stored latest sequence.
pub fn latest_from_stored(value: &Option<Vec<u8>>) -> (r: ChainsResult<u64>)
    ensures
        r == latest_reading(stored_view(*value)),
{
    match value {
        Some(v) => match bincode_u64_decode(v.as_slice()) {
            Ok(seq) => Ok(seq),
            Err(_) => Err(ChainsError::Encoding),
        },
        None => Ok(0),
    }
}

/// Reads a stored header.
pub fn header_from_stored(value: &Option<Vec<u8>>) -> (r: ChainsResult<Option<Header>>)
    ensures
        header_result(r) == read_header(stored_view(*value)),
{
    match value {
        Some(v) => {
            proof {
                lemma_pow256_8();
                assert(v@.len() == v.len());
            }
            match bincode_header_decode(v.as_slice()) {
                Ok(f) => {
                    let h = Header::from_fields(&f);
                    proof {
                        assert(header_shape(h@));
                        let c = choose|x: HeaderView| header_shape(x) && #[trigger] header_encoding(x).is_prefix_of(v@);
                        lemma_header_encoding_unique(c, h@, v@);
                    }
                    Ok(Some(h))
                },
                Err(_) => Err(ChainsError::Encoding),
            }
        },
        None => Ok(None),
    }
}

/// Reads a stored body.
pub fn body_from_stored(value: &Option<Vec<u8>>) -> (r: ChainsResult<Option<Body>>)
    ensures
        body_result(r) == read_body(stored_view(*value)),
{
    match value {
        Some(v) => {
            proof {
                lemma_pow256_8();
                assert(v@.len() == v.len());
            }
            match bincode_body_decode(v.as_slice()) {
                Ok(f) => {
                    let b = Body::from_fields(f);
                    proof {
                        assert(body_shape(b@));
                        let c = choose|x: BodyView| body_shape(x) && #[trigger] body_encoding(x).is_prefix_of(v@);
                        lemma_body_encoding_unique(c, b@, v@);
                    }
                    Ok(Some(b))
                },
                Err(_) => Err(ChainsError::Encoding),
            }
        },
        None => Ok(None),
    }
}

/// Whether `r` is what `epoch_key_reading` gives for `value`.
pub open spec fn epoch_key_reads(value: Option<Seq<u8>>, r: ChainsResult<Option<[u8; 32]>>) -> bool {
    match r {
        Ok(Some(k)) => epoch_key_reading(value) == Ok::<Option<Seq<u8>>, ChainsError>(Some(k@)),
        Ok(None) => epoch_key_reading(value) == Ok::<Option<Seq<u8>>, ChainsError>(None),
        Err(e) => epoch_key_reading(value) == Err::<Option<Seq<u8>>, ChainsError>(e),
    }
}

/// Reads a stored epoch key.
pub fn epoch_key_from_stored(value: &Option<Vec<u8>>) -> (r: ChainsResult<Option<[u8; 32]>>)
    ensures
        epoch_key_reads(stored_view(*value), r),
{
    match value {
        Some(v) => {
            if v.len() == 32 {
                Ok(Some(to_id(v.as_slice())))
            } else {
                Err(ChainsError::Encoding)
            }
        },
        None => Ok(None),
    }
}

impl Storage {
    /// Opens a new storage instance at the specified path.
    pub fn new(path: &str) -> (r: ChainsResult<Storage>)
        ensures
            r is Err ==> r == Err::<Storage, ChainsError>(ChainsError::Database),
    {
        let db = db_err(sled_open(path))?;
        Ok(Storage { db })
    }

    /// Stores a Header for a specific chain, under its sequence number.
    /// Afterwards `get_header` reads it back.
    pub fn store_header(&mut self, chain_id: &[u8; 32], sequence: u64, header: &Header) -> (r: ChainsResult<()>)
        ensures
            r is Err ==> r == Err::<(), ChainsError>(ChainsError::Database),
            r is Ok ==> final(self).entries() == old(self).entries().insert(
                header_key_spec(chain_id@, sequence),
                header_encoding(header@),
            ),
            r is Ok ==> header_at(final(self).entries(), chain_id@, sequence) == Ok::<
                Option<HeaderView>,
                ChainsError,
            >(Some(header@)),
    {
        let key = header_key(chain_id, sequence);
        let value = bincode_header(&header.to_fields());
        proof {
            lemma_pow256_8();
            assert(value@.len() == value.len());
            lemma_header_encoding_reads_back(header@);
        }
        db_err(sled_insert(&mut self.db, key.as_slice(), value.as_slice()))
    }

    /// Retrieves a Header by its sequence number: what is stored under the
    /// header's key, read by `header_from_stored`.
    pub fn get_header(&self, chain_id: &[u8; 32], sequence: u64) -> (r: ChainsResult<Option<Header>>)
        ensures
            r matches Err(e) ==> storage_error(e),
            r == Err::<Option<Header>, ChainsError>(ChainsError::Database) || header_result(r)
                == header_at(self.entries(), chain_id@, sequence),
    {
        let key = header_key(chain_id, sequence);
        let value = db_err(sled_get(&self.db, key.as_slice()))?;
        header_from_stored(&value)
    }

    /// Removes a chain's header with this sequence number.
    pub fn delete_header(&mut self, chain_id: &[u8; 32], sequence: u64) -> (r: ChainsResult<()>)
        ensures
            r is Err ==> r == Err::<(), ChainsError>(ChainsError::Database),
            r is Ok ==> final(self).entries() == old(self).entries().remove(header_key_spec(chain_id@, sequence)),
    {
        let key = header_key(chain_id, sequence);
        db_err(sled_remove(&mut self.db, key.as_slice()))
    }

    /// Stores a block Body under `block_id`. Afterwards `get_body` reads it
    /// back.
    pub fn store_body(&mut self, block_id: &[u8; 32], body: &Body) -> (r: ChainsResult<()>)
        ensures
            r is Err ==> r == Err::<(), ChainsError>(ChainsError::Database),
            r is Ok ==> final(self).entries() == old(self).entries().insert(
                body_key_spec(block_id@),
                body_encoding(body@),
            ),
            r is Ok ==> body_at(final(self).entries(), block_id@) == Ok::<Option<BodyView>, ChainsError>(
                Some(body@),
            ),
    {
        let key = body_key(block_id);
        let value = bincode_body(&body.to_fields());
        proof {
            lemma_pow256_8();
            assert(value@.len() == value.len());
            lemma_body_encoding_reads_back(body@);
        }
        db_err(sled_insert(&mut self.db, key.as_slice(), value.as_slice()))
    }

    /// Retrieves a block Body: what is stored under the body's key, read by
    /// `body_from_stored`.
    pub fn get_body(&self, block_id: &[u8; 32]) -> (r: ChainsResult<Option<Body>>)
        ensures
            r matches Err(e) ==> storage_error(e),
            r == Err::<Option<Body>, ChainsError>(ChainsError::Database) || body_result(r) == body_at(
                self.entries(),
                block_id@,
            ),
    {
        let key = body_key(block_id);
        let value = db_err(sled_get(&self.db, key.as_slice()))?;
        body_from_stored(&value)
    }

    /// Removes a block Body.
    pub fn delete_body(&mut self, block_id: &[u8; 32]) -> (r: ChainsResult<()>)
        ensures
            r is Err ==> r == Err::<(), ChainsError>(ChainsError::Database),
            r is Ok ==> final(self).entries() == old(self).entries().remove(body_key_spec(block_id@)),
    {
        let key = body_key(block_id);
        db_err(sled_remove(&mut self.db, key.as_slice()))
    }

    /// Updates the latest known sequence number for a chain. Afterwards
    /// `get_latest_sequence` reads it back.
    pub fn update_latest_sequence(&mut self, chain_id: &[u8; 32], sequence: u64) -> (r: ChainsResult<()>)
        ensures
            r is Err ==> r == Err::<(), ChainsError>(ChainsError::Database),
            r is Ok ==> final(self).entries() == old(self).entries().insert(
                latest_key_spec(chain_id@),
                le_u64(sequence),
            ),
            r is Ok ==> latest_at(final(self).entries(), chain_id@) == Ok::<u64, ChainsError>(sequence),
    {
        let key = latest_key(chain_id);
        let value = bincode_u64(sequence);
        proof {
            lemma_le_u64_round_trip(sequence);
            assert(value@.take(8) =~= value@);
        }
        db_err(sled_insert(&mut self.db, key.as_slice(), value.as_slice()))
    }

    /// Retrieves the latest known sequence number for a chain (0 if none):
    /// what is stored under the chain's latest key, read by
    /// `latest_from_stored`.
    pub fn get_latest_sequence(&self, chain_id: &[u8; 32]) -> (r: ChainsResult<u64>)
        ensures
            r matches Err(e) ==> storage_error(e),
            r == Err::<u64, ChainsError>(ChainsError::Database) || r == latest_at(self.entries(), chain_id@),
    {
        let key = latest_key(chain_id);
        let value = db_err(sled_get(&self.db, key.as_slice()))?;
        latest_from_stored(&value)
    }

    /// Checks if a chain exists in the local database.
    pub fn chain_exists(&self, chain_id: &[u8; 32]) -> (r: ChainsResult<bool>)
        ensures
            r is Err ==> r == Err::<bool, ChainsError>(ChainsError::Database),
            r matches Ok(b) ==> b == registered(self.entries(), chain_id@),
    {
        let key = chain_key(chain_id);
        db_err(sled_contains_key(&self.db, key.as_slice()))
    }

    /// Marks a chain as existing in the local database, at sequence 0.
    pub fn create_chain(&mut self, chain_id: &[u8; 32]) -> (r: ChainsResult<()>)
        ensures
            r is Err ==> r == Err::<(), ChainsError>(ChainsError::Database),
            r is Ok ==> final(self).entries() == old(self).entries().insert(
                chain_key_spec(chain_id@),
                Seq::<u8>::empty(),
            ).insert(latest_key_spec(chain_id@), le_u64(0)),
            r is Ok ==> registered(final(self).entries(), chain_id@) && latest_at(
                final(self).entries(),
                chain_id@,
            ) == Ok::<u64, ChainsError>(0),
            r is Ok ==> (canonical_registry(old(self).entries()) ==> canonical_registry(final(self).entries())),
    {
        let key = chain_key(chain_id);
        let empty: Vec<u8> = Vec::new();
        let ghost m0 = self.entries();
        db_err(sled_insert(&mut self.db, key.as_slice(), empty.as_slice()))?;
        proof {
            lemma_key_tags();
        }
        let r = self.update_latest_sequence(chain_id, 0);
        proof {
            if r is Ok && canonical_registry(m0) {
                let m = self.entries();
                assert forall|k: Seq<u8>| #[trigger] m.contains_key(k) && tag_chain().is_prefix_of(k) implies exists|id: Seq<u8>|
                    id.len() == 32 && k == #[trigger] chain_key_spec(id) by {
                    if k == chain_key_spec(chain_id@) {
                    } else if k == latest_key_spec(chain_id@) {
                        assert(k[0] == tag_chain()[0]);
                    } else {
                        assert(m0.contains_key(k));
                    }
                }
            }
        }
        r
    }

    /// Lists all chain IDs found in the local database: each is read by
    /// `chain_id_from_key` out of a key under the `chain:` tag, in key order;
    /// keys that hold no id are skipped. Every chain registered under such a
    /// key is listed, and when every such key is one that `create_chain`
    /// writes, each chain is listed once.
    pub fn list_chains(&self) -> (r: ChainsResult<Vec<[u8; 32]>>)
        ensures
            r matches Err(e) ==> storage_error(e),
            r matches Ok(ids) ==> forall|i: int|
                0 <= i < ids@.len() ==> listed_chain(self.entries(), (#[trigger] ids@[i])@),
            r matches Ok(ids) ==> lists_every_chain(self.entries(), ids@),
            r matches Ok(ids) ==> exists|es: Seq<(Seq<u8>, Seq<u8>)>|
                #[trigger] entries_under_prefix(self.entries(), tag_chain(), es) && ids_view(ids@) == chain_listing(es),
            r matches Ok(ids) ==> (canonical_registry(self.entries()) ==> forall|i: int, j: int|
                0 <= i < j < ids@.len() ==> #[trigger] ids@[i] != #[trigger] ids@[j]),
    {
        let prefix = chain_tag();
        let entries = db_err(sled_scan_prefix(&self.db, prefix.as_slice()))?;
        let ghost m = self.entries();
        let mut chains: Vec<[u8; 32]> = Vec::new();
        let ghost es = entries_view(entries@);
        let mut i: usize = 0;
        while i < entries.len()
            invariant
                i <= entries@.len(),
                es == entries_view(entries@),
                ids_view(chains@) == chain_listing(es.take(i as int)),
                prefix@ == tag_chain(),
                m == self.entries(),
                forall|j: int|
                    0 <= j < entries@.len() ==> prefix@.is_prefix_of((#[trigger] entries@[j]).0@)
                        && m.contains_key(entries@[j].0@),
                forall|j: int| 0 <= j < chains@.len() ==> listed_chain(m, (#[trigger] chains@[j])@),
                forall|j: int|
                    0 <= j < i ==> (chain_id_from_key_spec((#[trigger] entries@[j]).0@) matches Ok(Some(id))
                        ==> exists|t: int| 0 <= t < chains@.len() && (#[trigger] chains@[t])@ == id),
            decreases entries@.len() - i,
        {
            let ghost key = entries@[i as int].0@;
            let ghost before = chains@;
            assert(es.take(i + 1).drop_last() =~= es.take(i as int));
            assert(es.take(i + 1).last().0 == key);
            match chain_id_from_key(entries[i].0.as_slice())? {
                Some(id) => {
                    assert(m.contains_key(key) && tag_chain().is_prefix_of(key) && chain_id_from_key_spec(key)
                        == Ok::<Option<Seq<u8>>, ChainsError>(Some(id@)));
                    assert(listed_chain(m, id@));
                    chains.push(id);
                    assert(chains@[chains@.len() - 1]@ == id@);
                    assert(ids_view(chains@) =~= ids_view(before).push(id@));
                },
                None => {},
            }
            proof {
                assert forall|j: int|
                    0 <= j < i + 1 implies (chain_id_from_key_spec((#[trigger] entries@[j]).0@) matches Ok(Some(id))
                    ==> exists|t: int| 0 <= t < chains@.len() && (#[trigger] chains@[t])@ == id) by {
                    match chain_id_from_key_spec(entries@[j].0@) {
                        Ok(Some(id)) => {
                            if j < i {
                                let t = choose|t: int| 0 <= t < before.len() && (#[trigger] before[t])@ == id;
                                assert(chains@[t] == before[t]);
                            } else {
                                assert(chains@[chains@.len() - 1]@ == id);
                            }
                        },
                        _ => {},
                    }
                }
            }
            i = i + 1;
        }
        proof {
            assert forall|k: Seq<u8>|
                #[trigger] m.contains_key(k) && tag_chain().is_prefix_of(k) implies (
                chain_id_from_key_spec(k) matches Ok(Some(id)) ==> exists|t: int|
                    0 <= t < chains@.len() && (#[trigger] chains@[t])@ == id) by {
                assert(prefix@.is_prefix_of(k));
                let j = choose|j: int| 0 <= j < entries@.len() && (#[trigger] entries@[j]).0@ == k;
                assert(entries@[j].0@ == k);
                assert(chain_id_from_key_spec(entries@[j].0@) == chain_id_from_key_spec(k));
            }
            assert(lists_every_chain(m, chains@));
            assert(es.take(entries@.len() as int) =~= es);
            assert forall|j: int| 0 <= j < es.len() implies #[trigger] m.contains_key(es[j].0) && tag_chain().is_prefix_of(
                es[j].0,
            ) && m[es[j].0] == es[j].1 by {
                assert(es[j] == (entries@[j].0@, entries@[j].1@));
            }
            assert forall|j: int, t: int| 0 <= j < t < es.len() implies sorts_before(
                (#[trigger] es[j]).0,
                (#[trigger] es[t]).0,
            ) by {
                assert(es[j].0 == entries@[j].0@ && es[t].0 == entries@[t].0@);
            }
            assert forall|k: Seq<u8>| #[trigger] m.contains_key(k) && tag_chain().is_prefix_of(k) implies exists|j: int|
                0 <= j < es.len() && (#[trigger] es[j]).0 == k by {
                let j = choose|j: int| 0 <= j < entries@.len() && (#[trigger] entries@[j]).0@ == k;
                assert(es[j].0 == k);
            }
            assert(entries_under_prefix(m, tag_chain(), es));
            if canonical_registry(m) {
                lemma_chain_listing_distinct(m, es);
                assert forall|a: int, b: int| 0 <= a < b < chains@.len() implies #[trigger] chains@[a] != #[trigger] chains@[b] by {
                    assert(ids_view(chains@)[a] == chains@[a]@);
                    assert(ids_view(chains@)[b] == chains@[b]@);
                }
            }
        }
        Ok(chains)
    }

    /// Reconstructs a full Chain from disk: `None` when the chain is not
    /// registered; otherwise its headers, read from the entries under the
    /// chain's header prefix in ascending key order (which is sequence order),
    /// and the stored bodies of those headers. A chain that does not
    /// validate is an error, so a chain returned always validates, and an
    /// error other than a storage error is exactly what validating the stored
    /// chain gives. A chain that stands in the store as the headers of
    /// sequences 1 to n comes back as exactly those n headers, in sequence
    /// order.
    pub fn get_chain(&self, chain_id: &[u8; 32]) -> (r: ChainsResult<Option<Chain>>)
        ensures
            r matches Err(e) ==> storage_error(e) || chain_error(e),
            r matches Ok(o) ==> (o is None <==> !registered(self.entries(), chain_id@)),
            r matches Ok(Some(c)) ==> {
                &&& assembled(self.entries(), chain_id@, c)
                &&& c.validate_spec() is Ok
                &&& forall|hs: Seq<HeaderView>|
                    #[trigger] holds_header_run(self.entries(), chain_id@, hs) ==> c.header_seq() == hs
            },
            r matches Err(e) ==> (!storage_error(e) ==> registered(self.entries(), chain_id@) && exists|c: Chain|
                #[trigger] assembled(self.entries(), chain_id@, c) && c.validate_spec() == Err::<(), ChainsError>(e)),
            r matches Err(e) ==> (!storage_error(e) ==> forall|c: Chain|
                #[trigger] assembled(self.entries(), chain_id@, c) ==> c.validate_spec() == Err::<(), ChainsError>(e)),
    {
        if !self.chain_exists(chain_id)? {
            return Ok(None);
        }
        let prefix = header_prefix(chain_id);
        let entries = db_err(sled_scan_prefix(&self.db, prefix.as_slice()))?;
        let ghost m = self.entries();
        let mut headers: Vec<Header> = Vec::new();
        let mut bodies = BodyMap::new();
        let mut i: usize = 0;
        while i < entries.len()
            invariant
                i <= entries@.len(),
                m == self.entries(),
                headers@.len() == i,
                forall|j: int|
                    0 <= j < i ==> decode_header((#[trigger] entries@[j]).1@) == Some(headers@[j]@),
                forall|k: Seq<u8>|
                    #[trigger] bodies.view().contains_key(k) ==> body_at(m, k) == Ok::<
                        Option<BodyView>,
                        ChainsError,
                    >(Some(bodies.view()[k])) && exists|j: int| 0 <= j < i && (#[trigger] headers@[j])@.block_id == k,
                forall|j: int|
                    0 <= j < i && body_at(m, (#[trigger] headers@[j])@.block_id) is Ok && body_at(
                        m,
                        headers@[j]@.block_id,
                    )->Ok_0 is Some ==> bodies.view().contains_key(headers@[j]@.block_id),
            decreases entries@.len() - i,
        {
            let ghost old_headers = headers@;
            let ghost old_bodies = bodies.view();
            let value = Some(crate::bytes::to_vec(entries[i].1.as_slice()));
            let header = match header_from_stored(&value) {
                Ok(Some(h)) => h,
                _ => {
                    return Err(ChainsError::Encoding);
                },
            };
            match self.get_body(&header.block_id)? {
                Some(body) => {
                    bodies.insert(header.block_id, body);
                },
                None => {},
            }
            headers.push(header);
            proof {
                assert(headers@[i as int] == header);
                assert forall|k: Seq<u8>| #[trigger] bodies.view().contains_key(k) implies exists|j: int|
                    0 <= j < i + 1 && (#[trigger] headers@[j])@.block_id == k by {
                    if old_bodies.contains_key(k) {
                        let j = choose|j: int| 0 <= j < i && (#[trigger] old_headers[j])@.block_id == k;
                        assert(headers@[j] == old_headers[j]);
                    } else {
                        assert(headers@[i as int]@.block_id == k);
                    }
                }
                assert forall|j: int|
                    0 <= j < i + 1 && body_at(m, (#[trigger] headers@[j])@.block_id) is Ok && body_at(
                        m,
                        headers@[j]@.block_id,
                    )->Ok_0 is Some implies bodies.view().contains_key(headers@[j]@.block_id) by {
                    if j < i {
                        assert(headers@[j] == old_headers[j]);
                    }
                }
            }
            i = i + 1;
        }
        let chain = Chain { id: *chain_id, headers, bodies };
        proof {
            let keys = entries@.map_values(|e: (Vec<u8>, Vec<u8>)| e.0@);
            assert forall|j: int| 0 <= j < keys.len() implies #[trigger] m.contains_key(keys[j])
                && header_prefix_spec(chain_id@).is_prefix_of(keys[j]) && decode_header(m[keys[j]])
                == Some(chain.header_seq()[j]) by {
                assert(keys[j] == entries@[j].0@);
            }
            assert forall|j: int, t: int| 0 <= j < t < keys.len() implies sorts_before(
                #[trigger] keys[j],
                #[trigger] keys[t],
            ) by {
                assert(keys[j] == entries@[j].0@ && keys[t] == entries@[t].0@);
            }
            assert forall|k: Seq<u8>| #[trigger] m.contains_key(k) && header_prefix_spec(chain_id@).is_prefix_of(k)
                implies keys.contains(k) by {
                let j = choose|j: int| 0 <= j < entries@.len() && (#[trigger] entries@[j]).0@ == k;
                assert(keys[j] == k);
            }
            assert(headers_under_prefix(m, header_prefix_spec(chain_id@), keys, chain.header_seq()));
            assert forall|k: Seq<u8>| #[trigger] chain.bodies.view().contains_key(k) implies exists|j: int|
                0 <= j < chain.header_seq().len() && (#[trigger] chain.header_seq()[j]).block_id == k by {
                let j = choose|j: int| 0 <= j < chain.headers@.len() && (#[trigger] chain.headers@[j])@.block_id == k;
                assert(chain.header_seq()[j] == chain.headers@[j]@);
            }
            assert forall|j: int|
                0 <= j < chain.header_seq().len() && body_at(m, (#[trigger] chain.header_seq()[j]).block_id) is Ok
                    && body_at(m, chain.header_seq()[j].block_id)->Ok_0 is Some implies chain.bodies.view().contains_key(
                chain.header_seq()[j].block_id,
            ) by {
                assert(chain.header_seq()[j] == chain.headers@[j]@);
            }
            assert(assembled(m, chain_id@, chain));
            assert forall|hs: Seq<HeaderView>| #[trigger] holds_header_run(m, chain_id@, hs) implies chain.header_seq()
                == hs by {
                lemma_header_run_reads_in_order(m, chain_id@, keys, chain.header_seq(), hs);
            }
        }
        match chain.validate() {
            Ok(_) => {},
            Err(e) => {
                proof {
                    crate::models::chain::lemma_validate_errors(chain);
                    assert forall|c: Chain| #[trigger] assembled(m, chain_id@, c) implies c.validate_spec() == Err::<
                        (),
                        ChainsError,
                    >(e) by {
                        lemma_assembled_validates_alike(m, chain_id@, chain, c);
                    }
                }
                return Err(e);
            },
        }
        Ok(Some(chain))
    }

    /// Stores a whole chain: its marker, every header under its sequence
    /// number, every body under its own block id, and the latest sequence
    /// (that of the last header). Afterwards the chain is registered, each
    /// header reads back at its sequence number unless a later header has
    /// the same number, each body whose block id is its key in the chain
    /// reads back, and the latest sequence reads as the last header's.
    pub fn store_chain(&mut self, chain: &Chain) -> (r: ChainsResult<()>)
        ensures
            r is Err ==> r == Err::<(), ChainsError>(ChainsError::Database),
            r is Ok ==> registered(final(self).entries(), chain.id@),
            r is Ok ==> forall|i: int|
                0 <= i < chain.headers@.len() && (forall|j: int|
                    i < j < chain.headers@.len() ==> (#[trigger] chain.headers@[j]).sequence
                        != chain.headers@[i].sequence) ==> header_at(
                    final(self).entries(),
                    chain.id@,
                    (#[trigger] chain.headers@[i]).sequence,
                ) == Ok::<Option<HeaderView>, ChainsError>(Some(chain.headers@[i]@)),
            r is Ok && (forall|k: Seq<u8>| #[trigger] chain.bodies.view().contains_key(k)
                ==> chain.bodies.view()[k].block_id == k) ==> forall|k: Seq<u8>|
                #[trigger] chain.bodies.view().contains_key(k) ==> body_at(final(self).entries(), k)
                    == Ok::<Option<BodyView>, ChainsError>(Some(chain.bodies.view()[k])),
            r is Ok && chain.headers@.len() > 0 ==> latest_at(final(self).entries(), chain.id@) == Ok::<
                u64,
                ChainsError,
            >(chain.headers@.last().sequence),
    {
        let key = chain_key(&chain.id);
        let empty: Vec<u8> = Vec::new();
        db_err(sled_insert(&mut self.db, key.as_slice(), empty.as_slice()))?;
        proof {
            lemma_key_tags();
        }
        let n = chain.headers.len();
        let mut i: usize = 0;
        while i < n
            invariant
                n == chain.headers@.len(),
                i <= n,
                registered(self.entries(), chain.id@),
                forall|t: int|
                    0 <= t < i && (forall|j: int|
                        t < j < i ==> (#[trigger] chain.headers@[j]).sequence != chain.headers@[t].sequence)
                        ==> header_at(self.entries(), chain.id@, (#[trigger] chain.headers@[t]).sequence)
                        == Ok::<Option<HeaderView>, ChainsError>(Some(chain.headers@[t]@)),
            decreases n - i,
        {
            let header = &chain.headers[i];
            let ghost before = self.entries();
            self.store_header(&chain.id, header.sequence, header)?;
            proof {
                lemma_key_tags();
                assert forall|t: int|
                    0 <= t < i + 1 && (forall|j: int|
                        t < j < i + 1 ==> (#[trigger] chain.headers@[j]).sequence != chain.headers@[t].sequence)
                        implies header_at(self.entries(), chain.id@, (#[trigger] chain.headers@[t]).sequence)
                        == Ok::<Option<HeaderView>, ChainsError>(Some(chain.headers@[t]@)) by {
                    if t < i {
                        assert(chain.headers@[i as int].sequence != chain.headers@[t].sequence);
                        lemma_header_keys_distinct(chain.id@, chain.headers@[t].sequence, header.sequence);
                    }
                }
            }
            i = i + 1;
        }
        let ghost after_headers = self.entries();
        let ids = chain.bodies.keys();
        let mut j: usize = 0;
        while j < ids.len()
            invariant
                j <= ids@.len(),
                n == chain.headers@.len(),
                registered(self.entries(), chain.id@),
                forall|k: Seq<u8>|
                    #[trigger] stored(self.entries(), k) != stored(after_headers, k) ==> k[0] == 98,
                forall|q: int| 0 <= q < ids@.len() ==> chain.bodies.view().contains_key(#[trigger] ids@[q]@),
                (forall|k: Seq<u8>| #[trigger] chain.bodies.view().contains_key(k)
                    ==> chain.bodies.view()[k].block_id == k) ==> forall|q: int|
                    0 <= q < j ==> body_at(self.entries(), (#[trigger] ids@[q])@) == Ok::<
                        Option<BodyView>,
                        ChainsError,
                    >(Some(chain.bodies.view()[ids@[q]@])),
            decreases ids@.len() - j,
        {
            match chain.bodies.get(&ids[j]) {
                Some(body) => {
                    let ghost before = self.entries();
                    self.store_body(&body.block_id, body)?;
                    proof {
                        lemma_key_tags();
                        assert forall|k: Seq<u8>|
                            #[trigger] stored(self.entries(), k) != stored(after_headers, k) implies k[0] == 98 by {
                            if k != body_key_spec(body.block_id@) {
                                assert(stored(self.entries(), k) == stored(before, k));
                            }
                        }
                        if forall|k: Seq<u8>| #[trigger] chain.bodies.view().contains_key(k)
                            ==> chain.bodies.view()[k].block_id == k {
                            assert forall|q: int| 0 <= q < j + 1 implies body_at(self.entries(), (#[trigger] ids@[q])@)
                                == Ok::<Option<BodyView>, ChainsError>(Some(chain.bodies.view()[ids@[q]@])) by {
                                if q < j {
                                    assert(chain.bodies.view()[ids@[q]@].block_id == ids@[q]@);
                                    if ids@[q]@ != body.block_id@ {
                                        assert(body_key_spec(ids@[q]@) != body_key_spec(body.block_id@)) by {
                                            crate::storage::keys::lemma_body_keys_distinct(ids@[q]@, body.block_id@);
                                        }
                                    }
                                }
                            }
                        }
                    }
                },
                None => {},
            }
            j = j + 1;
        }
        proof {
            lemma_key_tags();
            assert forall|t: int|
                0 <= t < n && (forall|q: int|
                    t < q < n ==> (#[trigger] chain.headers@[q]).sequence != chain.headers@[t].sequence)
                    implies header_at(self.entries(), chain.id@, (#[trigger] chain.headers@[t]).sequence)
                    == Ok::<Option<HeaderView>, ChainsError>(Some(chain.headers@[t]@)) by {
                let k = header_key_spec(chain.id@, chain.headers@[t].sequence);
                assert(k[0] == 104);
                assert(stored(self.entries(), k) == stored(after_headers, k));
            }
            if forall|k: Seq<u8>| #[trigger] chain.bodies.view().contains_key(k)
                ==> chain.bodies.view()[k].block_id == k {
                assert forall|k: Seq<u8>| #[trigger] chain.bodies.view().contains_key(k) implies body_at(
                    self.entries(),
                    k,
                ) == Ok::<Option<BodyView>, ChainsError>(Some(chain.bodies.view()[k])) by {
                    let q = choose|q: int| 0 <= q < ids@.len() && ids@[q]@ == k;
                    assert(ids@[q]@ == k);
                }
            }
            assert(registered(self.entries(), chain.id@));
        }
        if n > 0 {
            let ghost before = self.entries();
            self.update_latest_sequence(&chain.id, chain.headers[n - 1].sequence)?;
            proof {
                lemma_key_tags();
                assert(chain_key_spec(chain.id@) != latest_key_spec(chain.id@));
                assert forall|t: int|
                    0 <= t < n && (forall|q: int|
                        t < q < n ==> (#[trigger] chain.headers@[q]).sequence != chain.headers@[t].sequence)
                        implies header_at(self.entries(), chain.id@, (#[trigger] chain.headers@[t]).sequence)
                        == Ok::<Option<HeaderView>, ChainsError>(Some(chain.headers@[t]@)) by {
                    let k = header_key_spec(chain.id@, chain.headers@[t].sequence);
                    assert(k != latest_key_spec(chain.id@));
                    assert(stored(self.entries(), k) == stored(before, k));
                }
                assert forall|k: Seq<u8>| #[trigger] chain.bodies.view().contains_key(k) implies body_at(
                    self.entries(),
                    k,
                ) == body_at(before, k) by {
                    assert(body_key_spec(k) != latest_key_spec(chain.id@));
                }
            }
        }
        Ok(())
    }

    /// Stores a Double Ratchet session under its id.
    pub fn store_ratchet_session(&mut self, session_id: &[u8; 32], state: &RatchetState) -> (r: ChainsResult<()>)
        ensures
            r is Err ==> r == Err::<(), ChainsError>(ChainsError::Database),
            r is Ok ==> final(self).entries() == old(self).entries().insert(
                ratchet_key_spec(session_id@),
                ratchet_encoding(state.to_fields_spec()),
            ),
            r is Ok ==> forall|g: ChainsResult<Option<RatchetState>>|
                #[trigger] ratchet_reading(stored(final(self).entries(), ratchet_key_spec(session_id@)), g)
                    ==> (g matches Ok(Some(s)) && same_session(s, *state)),
    {
        let key = ratchet_key(session_id);
        let value = bincode_ratchet(&state.to_fields());
        let r = db_err(sled_insert(&mut self.db, key.as_slice(), value.as_slice()));
        proof {
            if r is Ok {
                let v = ratchet_encoding(state.to_fields_spec());
                lemma_pow256_8();
                assert(value@.len() == value.len());
                assert(stored(self.entries(), ratchet_key_spec(session_id@)) == Some(v));
                assert(v.is_prefix_of(v));
                assert forall|g: ChainsResult<Option<RatchetState>>| #[trigger] ratchet_reading(Some(v), g) implies (
                g matches Ok(Some(s)) && same_session(s, *state)) by {
                    if let Ok(Some(s)) = g {
                        lemma_ratchet_encoding_unique(s.to_fields_spec(), state.to_fields_spec(), v);
                    }
                }
            }
        }
        r
    }

    /// Retrieves a Double Ratchet session by its id: what is stored under the
    /// session's key, read by bincode.
    pub fn get_ratchet_session(&self, session_id: &[u8; 32]) -> (r: ChainsResult<Option<RatchetState>>)
        ensures
            r matches Err(e) ==> storage_error(e),
            r == Err::<Option<RatchetState>, ChainsError>(ChainsError::Database) || ratchet_reading(
                stored(self.entries(), ratchet_key_spec(session_id@)),
                r,
            ),
    {
        let key = ratchet_key(session_id);
        let value = db_err(sled_get(&self.db, key.as_slice()))?;
        match &value {
            Some(v) => match bincode_ratchet_decode(v.as_slice()) {
                Ok(f) => Ok(Some(RatchetState::from_fields(f))),
                Err(_) => Err(ChainsError::Encoding),
            },
            None => Ok(None),
        }
    }

    /// Stores the key of one epoch of a chain.
    pub fn store_epoch_key(&mut self, chain_id: &[u8; 32], epoch: u64, key: &[u8; 32]) -> (r: ChainsResult<()>)
        ensures
            r is Err ==> r == Err::<(), ChainsError>(ChainsError::Database),
            r is Ok ==> final(self).entries() == old(self).entries().insert(epoch_key_spec(chain_id@, epoch), key@),
    {
        let k = epoch_key(chain_id, epoch);
        db_err(sled_insert(&mut self.db, k.as_slice(), key.as_slice()))
    }

    /// Retrieves the key of one epoch of a chain: what is stored under the
    /// epoch's key, read by `epoch_key_from_stored`.
    pub fn get_epoch_key(&self, chain_id: &[u8; 32], epoch: u64) -> (r: ChainsResult<Option<[u8; 32]>>)
        ensures
            r matches Err(e) ==> storage_error(e),
            r == Err::<Option<[u8; 32]>, ChainsError>(ChainsError::Database) || epoch_key_reads(
                stored(self.entries(), epoch_key_spec(chain_id@, epoch)),
                r,
            ),
    {
        let k = epoch_key(chain_id, epoch);
        let value = db_err(sled_get(&self.db, k.as_slice()))?;
        epoch_key_from_stored(&value)
    }

    /// Lists the epoch keys stored for a chain, as (epoch, key) pairs in key
    /// order: each comes from an entry under the chain's epoch prefix whose
    /// key ends in 16 hex digits, read as the epoch, and whose value is the
    /// 32-byte key; other entries are skipped.
    pub fn list_epoch_keys(&self, chain_id: &[u8; 32]) -> (r: ChainsResult<Vec<(u64, [u8; 32])>>)
        ensures
            r matches Err(e) ==> e == ChainsError::Database,
            r matches Ok(pairs) ==> exists|es: Seq<(Seq<u8>, Seq<u8>)>|
                #[trigger] entries_under_prefix(self.entries(), epoch_prefix_spec(chain_id@), es)
                    && epoch_pairs_view(pairs@) == epoch_listing(epoch_prefix_spec(chain_id@).len(), es),
    {
        let prefix = epoch_prefix(chain_id);
        let entries = db_err(sled_scan_prefix(&self.db, prefix.as_slice()))?;
        let ghost es = entries_view(entries@);
        let plen = prefix.len();
        let mut out: Vec<(u64, [u8; 32])> = Vec::new();
        let mut i: usize = 0;
        while i < entries.len()
            invariant
                i <= entries@.len(),
                es == entries_view(entries@),
                plen == prefix@.len(),
                epoch_pairs_view(out@) == epoch_listing(plen as nat, es.take(i as int)),
            decreases entries@.len() - i,
        {
            let key = &entries[i].0;
            let value = &entries[i].1;
            let ghost before = out@;
            assert(es.take(i + 1).drop_last() =~= es.take(i as int));
            assert(es.take(i + 1).last() == (key@, value@));
            if key.len() > plen && key.len() - plen == 16 && value.len() == 32 {
                let (_, digits) = key.as_slice().split_at(plen);
                assert(digits@ =~= key@.skip(plen as int));
                match keys::parse_hex_u64(digits) {
                    Some(epoch) => {
                        let k = to_id(value.as_slice());
                        out.push((epoch, k));
                        assert(epoch_pairs_view(out@) =~= epoch_pairs_view(before).push((epoch, k@)));
                    },
                    None => {},
                }
            }
            i = i + 1;
        }
        proof {
            assert(es.take(entries@.len() as int) =~= es);
            assert forall|j: int| 0 <= j < es.len() implies #[trigger] self.entries().contains_key(es[j].0)
                && epoch_prefix_spec(chain_id@).is_prefix_of(es[j].0) && self.entries()[es[j].0] == es[j].1 by {
                assert(es[j] == (entries@[j].0@, entries@[j].1@));
            }
            assert forall|j: int, t: int| 0 <= j < t < es.len() implies sorts_before(
                (#[trigger] es[j]).0,
                (#[trigger] es[t]).0,
            ) by {
                assert(es[j].0 == entries@[j].0@ && es[t].0 == entries@[t].0@);
            }
            assert forall|k: Seq<u8>| #[trigger] self.entries().contains_key(k) && epoch_prefix_spec(chain_id@).is_prefix_of(k)
                implies exists|j: int| 0 <= j < es.len() && (#[trigger] es[j]).0 == k by {
                let j = choose|j: int| 0 <= j < entries@.len() && (#[trigger] entries@[j]).0@ == k;
                assert(es[j].0 == k);
            }
            assert(entries_under_prefix(self.entries(), epoch_prefix_spec(chain_id@), es));
        }
        Ok(out)
    }
}

} // verus!
