//! Text and binary encodings used by the library: lowercase hexadecimal
//! (through the `hex` crate) and the fixed-width little-endian layout that
//! `bincode` gives to tuples of byte arrays, integers and byte vectors.
use crate::bytes::{
    le_bytes, le_u32, le_u64, le_value, lemma_le_bytes_len, lemma_le_round_trip,
    lemma_le_u32_round_trip, lemma_le_u64_round_trip, pow256,
};
use crate::models::body::BodyView;
use crate::models::header::HeaderView;
use vstd::utf8::{encode_utf8, encode_utf8_decode_utf8};
use vstd::prelude::*;

verus! {

// ---------------------------------------------------------------------------
// Hexadecimal

/// The ASCII code of the lowercase hex digit for `n < 16`.
pub open spec fn hex_digit(n: nat) -> u8 {
    if n < 10 {
        (48 + n) as u8
    } else {
        (87 + n) as u8
    }
}

/// Lowercase hexadecimal text of `data`, as ASCII bytes (two per input byte).
pub open spec fn hex_lower(data: Seq<u8>) -> Seq<u8>
    decreases data.len(),
{
    if data.len() == 0 {
        Seq::empty()
    } else {
        seq![hex_digit(data[0] as nat / 16), hex_digit(data[0] as nat % 16)] + hex_lower(
            data.drop_first(),
        )
    }
}

/// Whether `c` is an ASCII hex digit of either case.
pub open spec fn is_hex_char(c: u8) -> bool {
    (48 <= c <= 57) || (65 <= c <= 70) || (97 <= c <= 102)
}

/// The value of an ASCII hex digit.
pub open spec fn hex_char_value(c: u8) -> nat {
    if 48 <= c <= 57 {
        (c - 48) as nat
    } else if 65 <= c <= 70 {
        (c - 55) as nat
    } else {
        (c - 87) as nat
    }
}

/// What `hex::decode` gives for the bytes `s`: `None` for odd length or a
/// non-hex character, else one byte per pair of digits, high digit first.
pub open spec fn hex_decode_spec(s: Seq<u8>) -> Option<Seq<u8>> {
    if s.len() % 2 != 0 {
        None
    } else if forall|i: int| 0 <= i < s.len() ==> is_hex_char(#[trigger] s[i]) {
        Some(
            Seq::new(
                s.len() / 2,
                |i: int| (hex_char_value(s[2 * i]) * 16 + hex_char_value(s[2 * i + 1])) as u8,
            ),
        )
    } else {
        None
    }
}

pub proof fn lemma_hex_lower_len(data: Seq<u8>)
    ensures
        hex_lower(data).len() == 2 * data.len(),
    decreases data.len(),
{
    if data.len() > 0 {
        lemma_hex_lower_len(data.drop_first());
    }
}

proof fn lemma_hex_lower_index(data: Seq<u8>, i: int)
    requires
        0 <= i < data.len(),
    ensures
        hex_lower(data)[2 * i] == hex_digit(data[i] as nat / 16),
        hex_lower(data)[2 * i + 1] == hex_digit(data[i] as nat % 16),
    decreases data.len(),
{
    lemma_hex_lower_len(data);
    if i > 0 {
        lemma_hex_lower_index(data.drop_first(), i - 1);
        lemma_hex_lower_len(data.drop_first());
        assert(data.drop_first()[i - 1] == data[i]);
    }
}

/// Lowercase hex text decodes back to the bytes it was written from.
pub proof fn lemma_hex_lower_decodes(data: Seq<u8>)
    ensures
        hex_decode_spec(hex_lower(data)) == Some(data),
{
    let h = hex_lower(data);
    lemma_hex_lower_len(data);
    assert forall|j: int| 0 <= j < h.len() implies is_hex_char(#[trigger] h[j]) by {
        let i = j / 2;
        lemma_hex_lower_index(data, i);
        assert(j == 2 * i || j == 2 * i + 1);
    }
    let d = Seq::new(h.len() / 2, |i: int| (hex_char_value(h[2 * i]) * 16 + hex_char_value(h[2 * i + 1])) as u8);
    assert forall|i: int| 0 <= i < data.len() implies d[i] == data[i] by {
        lemma_hex_lower_index(data, i);
        let x = data[i] as nat;
        assert(x == (x / 16) * 16 + x % 16);
    }
    assert(d =~= data);
}

/// Calls `hex::encode`; the contract claims that it writes each byte as two
/// lowercase hex digits, high nibble first, and returns that text's bytes.
#[verifier::external_body]
pub(crate) fn hex_encode(data: &[u8]) -> (r: Vec<u8>)
    ensures
        r@ == hex_lower(data@),
{
    hex::encode(data).into_bytes()
}

/// Calls `hex::decode`; the contract claims that it fails exactly on odd
/// length or a non-hex character and otherwise decodes digit pairs.
#[verifier::external_body]
pub(crate) fn hex_decode(s: &[u8]) -> (r: Option<Vec<u8>>)
    ensures
        match r {
            Some(v) => hex_decode_spec(s@) == Some(v@),
            None => hex_decode_spec(s@) is None,
        },
{
    hex::decode(s).ok()
}

// ---------------------------------------------------------------------------
// The bincode layout of header tuples

/// Bincode encoding of a byte vector: its length as eight little-endian
/// bytes, then the bytes.
pub open spec fn bincode_bytes(v: Seq<u8>) -> Seq<u8> {
    le_bytes(v.len(), 8) + v
}

/// Bincode encoding of the tuple
/// `(chain_id, author_id, sequence, timestamp, prev_hash, body_hash, ttl, signature)`:
/// arrays byte by byte, integers little-endian at their width, the vector
/// with a length prefix.
pub open spec fn header_content_encoding(
    chain_id: Seq<u8>,
    author_id: Seq<u8>,
    sequence: u64,
    timestamp: u64,
    prev_hash: Seq<u8>,
    body_hash: Seq<u8>,
    ttl: u32,
    signature: Seq<u8>,
) -> Seq<u8> {
    chain_id + author_id + le_u64(sequence) + le_u64(timestamp) + prev_hash + body_hash + le_u32(
        ttl,
    ) + bincode_bytes(signature)
}

/// Calls `bincode::serialize` on the header content tuple. The contract
/// claims the layout above, which is that of bincode's default (fixed-width,
/// little-endian) options; serializing into a vector with no size limit
/// does not fail for these types.
#[verifier::external_body]
pub(crate) fn bincode_header_content(
    chain_id: &[u8; 32],
    author_id: &[u8; 32],
    sequence: u64,
    timestamp: u64,
    prev_hash: &[u8; 32],
    body_hash: &[u8; 32],
    ttl: u32,
    signature: &Vec<u8>,
) -> (r: Vec<u8>)
    ensures
        r@ == header_content_encoding(
            chain_id@,
            author_id@,
            sequence,
            timestamp,
            prev_hash@,
            body_hash@,
            ttl,
            signature@,
        ),
{
    bincode::serialize(
        &(*chain_id, *author_id, sequence, timestamp, *prev_hash, *body_hash, ttl, signature),
    ).unwrap()
}

// ---------------------------------------------------------------------------
// Stored records

/// The error type of `bincode`.
#[verifier::external_type_specification]
#[verifier::external_body]
pub struct ExBincodeErrorKind(bincode::ErrorKind);

/// A header's fields, in declaration order, as bincode sees them.
pub type HeaderFields = ([u8; 32], [u8; 32], [u8; 32], u64, u64, [u8; 32], [u8; 32], u32, Vec<u8>);

/// A body's fields, in declaration order, as bincode sees them.
pub type BodyFields = ([u8; 32], String, [u8; 24], Vec<u8>);

pub open spec fn header_fields_view(f: HeaderFields) -> HeaderView {
    HeaderView {
        block_id: f.0@,
        chain_id: f.1@,
        author_id: f.2@,
        sequence: f.3,
        timestamp: f.4,
        prev_hash: f.5@,
        body_hash: f.6@,
        ttl: f.7,
        signature: f.8@,
    }
}

pub open spec fn body_fields_view(f: BodyFields) -> BodyView {
    BodyView { block_id: f.0@, encryption_algo: f.1@, nonce: f.2@, ciphertext: f.3@ }
}

/// Whether a header value has the byte lengths its fixed-size fields have.
pub open spec fn header_shape(h: HeaderView) -> bool {
    &&& h.block_id.len() == 32
    &&& h.chain_id.len() == 32
    &&& h.author_id.len() == 32
    &&& h.prev_hash.len() == 32
    &&& h.body_hash.len() == 32
}

/// Whether a body value has the byte lengths its fixed-size fields have.
pub open spec fn body_shape(b: BodyView) -> bool {
    &&& b.block_id.len() == 32
    &&& b.nonce.len() == 24
}

/// Bincode encoding of a header: the block id, then the content tuple.
pub open spec fn header_encoding(h: HeaderView) -> Seq<u8> {
    h.block_id + header_content_encoding(
        h.chain_id,
        h.author_id,
        h.sequence,
        h.timestamp,
        h.prev_hash,
        h.body_hash,
        h.ttl,
        h.signature,
    )
}

/// Bincode encoding of a body: the block id, the algorithm name as a
/// length-prefixed UTF-8 string, the nonce, the length-prefixed ciphertext.
pub open spec fn body_encoding(b: BodyView) -> Seq<u8> {
    b.block_id + bincode_bytes(encode_utf8(b.encryption_algo)) + b.nonce + bincode_bytes(
        b.ciphertext,
    )
}

/// The header encodings one after the other.
pub open spec fn headers_concat(s: Seq<HeaderView>) -> Seq<u8>
    decreases s.len(),
{
    if s.len() == 0 {
        Seq::empty()
    } else {
        header_encoding(s[0]) + headers_concat(s.drop_first())
    }
}

/// Bincode encoding of a list of headers: the count, then each header.
pub open spec fn headers_encoding(s: Seq<HeaderView>) -> Seq<u8> {
    le_bytes(s.len(), 8) + headers_concat(s)
}

/// The header that bincode reads from the front of `v`, if any: the one
/// whose encoding `v` begins with (there is at most one).
pub open spec fn decode_header(v: Seq<u8>) -> Option<HeaderView> {
    if exists|h: HeaderView| header_shape(h) && #[trigger] header_encoding(h).is_prefix_of(v) {
        Some(choose|h: HeaderView| header_shape(h) && #[trigger] header_encoding(h).is_prefix_of(v))
    } else {
        None
    }
}

/// The body that bincode reads from the front of `v`, if any.
pub open spec fn decode_body(v: Seq<u8>) -> Option<BodyView> {
    if exists|b: BodyView| body_shape(b) && #[trigger] body_encoding(b).is_prefix_of(v) {
        Some(choose|b: BodyView| body_shape(b) && #[trigger] body_encoding(b).is_prefix_of(v))
    } else {
        None
    }
}

/// Two eight-byte little-endian numbers below `2^64` with the same bytes
/// are equal.
proof fn lemma_le8_injective(x: nat, y: nat)
    requires
        x < pow256(8),
        y < pow256(8),
        le_bytes(x, 8) == le_bytes(y, 8),
    ensures
        x == y,
{
    lemma_le_round_trip(x, 8);
    lemma_le_round_trip(y, 8);
}

/// At most one header encoding begins a byte string that fits in memory.
pub proof fn lemma_header_encoding_unique(a: HeaderView, b: HeaderView, v: Seq<u8>)
    requires
        header_shape(a),
        header_shape(b),
        header_encoding(a).is_prefix_of(v),
        header_encoding(b).is_prefix_of(v),
        v.len() < pow256(8),
    ensures
        a == b,
{
    let ea = header_encoding(a);
    let eb = header_encoding(b);
    lemma_le_u64_round_trip(a.sequence);
    lemma_le_u64_round_trip(b.sequence);
    lemma_le_u64_round_trip(a.timestamp);
    lemma_le_u64_round_trip(b.timestamp);
    lemma_le_u32_round_trip(a.ttl);
    lemma_le_u32_round_trip(b.ttl);
    lemma_le_bytes_len(a.signature.len(), 8);
    lemma_le_bytes_len(b.signature.len(), 8);
    assert(ea.subrange(0, 188) =~= v.subrange(0, 188));
    assert(eb.subrange(0, 188) =~= v.subrange(0, 188));
    assert(ea.subrange(0, 32) =~= a.block_id);
    assert(eb.subrange(0, 32) =~= b.block_id);
    assert(ea.subrange(0, 188).subrange(0, 32) =~= ea.subrange(0, 32));
    assert(eb.subrange(0, 188).subrange(0, 32) =~= eb.subrange(0, 32));
    assert(ea.subrange(32, 64) =~= a.chain_id);
    assert(eb.subrange(32, 64) =~= b.chain_id);
    assert(ea.subrange(0, 188).subrange(32, 64) =~= ea.subrange(32, 64));
    assert(eb.subrange(0, 188).subrange(32, 64) =~= eb.subrange(32, 64));
    assert(ea.subrange(64, 96) =~= a.author_id);
    assert(eb.subrange(64, 96) =~= b.author_id);
    assert(ea.subrange(0, 188).subrange(64, 96) =~= ea.subrange(64, 96));
    assert(eb.subrange(0, 188).subrange(64, 96) =~= eb.subrange(64, 96));
    assert(ea.subrange(96, 104) =~= le_u64(a.sequence));
    assert(eb.subrange(96, 104) =~= le_u64(b.sequence));
    assert(ea.subrange(0, 188).subrange(96, 104) =~= ea.subrange(96, 104));
    assert(eb.subrange(0, 188).subrange(96, 104) =~= eb.subrange(96, 104));
    assert(ea.subrange(104, 112) =~= le_u64(a.timestamp));
    assert(eb.subrange(104, 112) =~= le_u64(b.timestamp));
    assert(ea.subrange(0, 188).subrange(104, 112) =~= ea.subrange(104, 112));
    assert(eb.subrange(0, 188).subrange(104, 112) =~= eb.subrange(104, 112));
    assert(ea.subrange(112, 144) =~= a.prev_hash);
    assert(eb.subrange(112, 144) =~= b.prev_hash);
    assert(ea.subrange(0, 188).subrange(112, 144) =~= ea.subrange(112, 144));
    assert(eb.subrange(0, 188).subrange(112, 144) =~= eb.subrange(112, 144));
    assert(ea.subrange(144, 176) =~= a.body_hash);
    assert(eb.subrange(144, 176) =~= b.body_hash);
    assert(ea.subrange(0, 188).subrange(144, 176) =~= ea.subrange(144, 176));
    assert(eb.subrange(0, 188).subrange(144, 176) =~= eb.subrange(144, 176));
    assert(ea.subrange(176, 180) =~= le_u32(a.ttl));
    assert(eb.subrange(176, 180) =~= le_u32(b.ttl));
    assert(ea.subrange(0, 188).subrange(176, 180) =~= ea.subrange(176, 180));
    assert(eb.subrange(0, 188).subrange(176, 180) =~= eb.subrange(176, 180));
    assert(ea.subrange(180, 188) =~= le_bytes(a.signature.len(), 8));
    assert(eb.subrange(180, 188) =~= le_bytes(b.signature.len(), 8));
    assert(ea.subrange(0, 188).subrange(180, 188) =~= ea.subrange(180, 188));
    assert(eb.subrange(0, 188).subrange(180, 188) =~= eb.subrange(180, 188));
    lemma_le8_injective(a.signature.len(), b.signature.len());
    let n = a.signature.len() as int;
    assert(ea.subrange(188, 188 + n) =~= a.signature);
    assert(eb.subrange(188, 188 + n) =~= b.signature);
    assert(ea.subrange(188, 188 + n) =~= v.subrange(188, 188 + n));
    assert(eb.subrange(188, 188 + n) =~= v.subrange(188, 188 + n));
}

/// Whether every header of a list has the right field sizes.
pub open spec fn headers_shape(s: Seq<HeaderView>) -> bool {
    forall|i: int| 0 <= i < s.len() ==> header_shape(#[trigger] s[i])
}

/// The list of headers that bincode reads from the front of `v`, if any.
pub open spec fn decode_headers(v: Seq<u8>) -> Option<Seq<HeaderView>> {
    if exists|s: Seq<HeaderView>| headers_shape(s) && #[trigger] headers_encoding(s).is_prefix_of(v) {
        Some(choose|s: Seq<HeaderView>| headers_shape(s) && #[trigger] headers_encoding(s).is_prefix_of(v))
    } else {
        None
    }
}

proof fn lemma_headers_concat_len(s: Seq<HeaderView>)
    ensures
        headers_concat(s).len() >= s.len(),
    decreases s.len(),
{
    if s.len() > 0 {
        lemma_headers_concat_len(s.drop_first());
    }
}

proof fn lemma_headers_concat_unique(a: Seq<HeaderView>, b: Seq<HeaderView>, w: Seq<u8>)
    requires
        headers_shape(a),
        headers_shape(b),
        a.len() == b.len(),
        headers_concat(a).is_prefix_of(w),
        headers_concat(b).is_prefix_of(w),
        w.len() < pow256(8),
    ensures
        a == b,
    decreases a.len(),
{
    if a.len() == 0 {
        assert(a =~= b);
    } else {
        let ea = header_encoding(a[0]);
        let eb = header_encoding(b[0]);
        assert(ea.is_prefix_of(w)) by {
            assert(headers_concat(a) == ea + headers_concat(a.drop_first()));
            assert forall|i: int| 0 <= i < ea.len() implies ea[i] == w[i] by {
                assert(headers_concat(a)[i] == ea[i]);
            }
        }
        assert(eb.is_prefix_of(w)) by {
            assert(headers_concat(b) == eb + headers_concat(b.drop_first()));
            assert forall|i: int| 0 <= i < eb.len() implies eb[i] == w[i] by {
                assert(headers_concat(b)[i] == eb[i]);
            }
        }
        assert(header_shape(a[0]) && header_shape(b[0]));
        lemma_header_encoding_unique(a[0], b[0], w);
        let rest = w.skip(ea.len() as int);
        assert(headers_shape(a.drop_first())) by {
            assert forall|i: int| 0 <= i < a.drop_first().len() implies header_shape(#[trigger] a.drop_first()[i]) by {
                assert(a.drop_first()[i] == a[i + 1]);
            }
        }
        assert(headers_shape(b.drop_first())) by {
            assert forall|i: int| 0 <= i < b.drop_first().len() implies header_shape(#[trigger] b.drop_first()[i]) by {
                assert(b.drop_first()[i] == b[i + 1]);
            }
        }
        assert(headers_concat(a.drop_first()).is_prefix_of(rest)) by {
            assert(headers_concat(a) == ea + headers_concat(a.drop_first()));
            assert forall|i: int| 0 <= i < headers_concat(a.drop_first()).len() implies headers_concat(
                a.drop_first(),
            )[i] == rest[i] by {
                assert(headers_concat(a)[ea.len() + i] == headers_concat(a.drop_first())[i]);
            }
        }
        assert(headers_concat(b.drop_first()).is_prefix_of(rest)) by {
            assert(headers_concat(b) == eb + headers_concat(b.drop_first()));
            assert forall|i: int| 0 <= i < headers_concat(b.drop_first()).len() implies headers_concat(
                b.drop_first(),
            )[i] == rest[i] by {
                assert(headers_concat(b)[eb.len() + i] == headers_concat(b.drop_first())[i]);
            }
        }
        lemma_headers_concat_unique(a.drop_first(), b.drop_first(), rest);
        assert(a =~= b) by {
            assert forall|i: int| 0 <= i < a.len() implies a[i] == b[i] by {
                if i > 0 {
                    assert(a[i] == a.drop_first()[i - 1]);
                    assert(b[i] == b.drop_first()[i - 1]);
                }
            }
        }
    }
}

/// At most one encoding of a list of headers begins a byte string that
/// fits in memory.
pub proof fn lemma_headers_encoding_unique(a: Seq<HeaderView>, b: Seq<HeaderView>, v: Seq<u8>)
    requires
        headers_shape(a),
        headers_shape(b),
        headers_encoding(a).is_prefix_of(v),
        headers_encoding(b).is_prefix_of(v),
        v.len() < pow256(8),
    ensures
        a == b,
{
    lemma_le_bytes_len(a.len(), 8);
    lemma_le_bytes_len(b.len(), 8);
    lemma_headers_concat_len(a);
    lemma_headers_concat_len(b);
    let ea = headers_encoding(a);
    let eb = headers_encoding(b);
    assert(ea.subrange(0, 8) =~= le_bytes(a.len(), 8));
    assert(eb.subrange(0, 8) =~= le_bytes(b.len(), 8));
    assert(ea.subrange(0, 8) =~= v.subrange(0, 8));
    assert(eb.subrange(0, 8) =~= v.subrange(0, 8));
    lemma_le8_injective(a.len(), b.len());
    let w = v.skip(8);
    assert(headers_concat(a).is_prefix_of(w)) by {
        assert forall|i: int| 0 <= i < headers_concat(a).len() implies headers_concat(a)[i] == w[i] by {
            assert(ea[8 + i] == headers_concat(a)[i]);
        }
    }
    assert(headers_concat(b).is_prefix_of(w)) by {
        assert forall|i: int| 0 <= i < headers_concat(b).len() implies headers_concat(b)[i] == w[i] by {
            assert(eb[8 + i] == headers_concat(b)[i]);
        }
    }
    lemma_headers_concat_unique(a, b, w);
}

/// At most one body encoding begins a byte string that fits in memory.
pub proof fn lemma_body_encoding_unique(a: BodyView, b: BodyView, v: Seq<u8>)
    requires
        body_shape(a),
        body_shape(b),
        body_encoding(a).is_prefix_of(v),
        body_encoding(b).is_prefix_of(v),
        v.len() < pow256(8),
    ensures
        a == b,
{
    let ea = body_encoding(a);
    let eb = body_encoding(b);
    let ua = encode_utf8(a.encryption_algo);
    let ub = encode_utf8(b.encryption_algo);
    lemma_le_bytes_len(ua.len(), 8);
    lemma_le_bytes_len(ub.len(), 8);
    lemma_le_bytes_len(a.ciphertext.len(), 8);
    lemma_le_bytes_len(b.ciphertext.len(), 8);
    assert(ea.subrange(0, 32) =~= a.block_id);
    assert(eb.subrange(0, 32) =~= b.block_id);
    assert(ea.subrange(0, 32) =~= v.subrange(0, 32));
    assert(eb.subrange(0, 32) =~= v.subrange(0, 32));
    assert(ea.subrange(32, 40) =~= le_bytes(ua.len(), 8));
    assert(eb.subrange(32, 40) =~= le_bytes(ub.len(), 8));
    assert(ea.subrange(32, 40) =~= v.subrange(32, 40));
    assert(eb.subrange(32, 40) =~= v.subrange(32, 40));
    lemma_le8_injective(ua.len(), ub.len());
    let k = 40 + ua.len() as int;
    assert(ea.subrange(40, k) =~= ua);
    assert(eb.subrange(40, k) =~= ub);
    assert(ea.subrange(40, k) =~= v.subrange(40, k));
    assert(eb.subrange(40, k) =~= v.subrange(40, k));
    encode_utf8_decode_utf8(a.encryption_algo);
    encode_utf8_decode_utf8(b.encryption_algo);
    assert(ea.subrange(k, k + 24) =~= a.nonce);
    assert(eb.subrange(k, k + 24) =~= b.nonce);
    assert(ea.subrange(k, k + 24) =~= v.subrange(k, k + 24));
    assert(eb.subrange(k, k + 24) =~= v.subrange(k, k + 24));
    assert(ea.subrange(k + 24, k + 32) =~= le_bytes(a.ciphertext.len(), 8));
    assert(eb.subrange(k + 24, k + 32) =~= le_bytes(b.ciphertext.len(), 8));
    assert(ea.subrange(k + 24, k + 32) =~= v.subrange(k + 24, k + 32));
    assert(eb.subrange(k + 24, k + 32) =~= v.subrange(k + 24, k + 32));
    lemma_le8_injective(a.ciphertext.len(), b.ciphertext.len());
    let n = a.ciphertext.len() as int;
    assert(ea.subrange(k + 32, k + 32 + n) =~= a.ciphertext);
    assert(eb.subrange(k + 32, k + 32 + n) =~= b.ciphertext);
    assert(ea.subrange(k + 32, k + 32 + n) =~= v.subrange(k + 32, k + 32 + n));
    assert(eb.subrange(k + 32, k + 32 + n) =~= v.subrange(k + 32, k + 32 + n));
}

pub open spec fn header_list_view(v: Seq<HeaderFields>) -> Seq<HeaderView> {
    v.map_values(|f: HeaderFields| header_fields_view(f))
}

/// Calls `bincode::serialize` on a header's fields.
#[verifier::external_body]
pub(crate) fn bincode_header(f: &HeaderFields) -> (r: Vec<u8>)
    ensures
        r@ == header_encoding(header_fields_view(*f)),
{
    bincode::serialize(f).unwrap()
}

/// Calls `bincode::deserialize` for a header's fields. The contract claims
/// that it succeeds exactly when the bytes begin with the encoding of some
/// header (trailing bytes are allowed), and then gives a header whose
/// encoding they begin with.
#[verifier::external_body]
pub(crate) fn bincode_header_decode(bytes: &[u8]) -> (r: Result<HeaderFields, Box<bincode::ErrorKind>>)
    ensures
        r matches Ok(f) ==> header_encoding(header_fields_view(f)).is_prefix_of(bytes@),
        r is Err ==> forall|h: HeaderView|
            header_shape(h) ==> !(#[trigger] header_encoding(h)).is_prefix_of(bytes@),
{
    bincode::deserialize(bytes)
}

/// Calls `bincode::serialize` on a body's fields.
#[verifier::external_body]
pub(crate) fn bincode_body(f: &BodyFields) -> (r: Vec<u8>)
    ensures
        r@ == body_encoding(body_fields_view(*f)),
{
    bincode::serialize(f).unwrap()
}

/// Calls `bincode::deserialize` for a body's fields. The contract claims
/// that it succeeds exactly when the bytes begin with the encoding of some
/// body, and then gives a body whose encoding they begin with.
#[verifier::external_body]
pub(crate) fn bincode_body_decode(bytes: &[u8]) -> (r: Result<BodyFields, Box<bincode::ErrorKind>>)
    ensures
        r matches Ok(f) ==> body_encoding(body_fields_view(f)).is_prefix_of(bytes@),
        r is Err ==> forall|b: BodyView|
            body_shape(b) ==> !(#[trigger] body_encoding(b)).is_prefix_of(bytes@),
{
    bincode::deserialize(bytes)
}

/// Calls `bincode::serialize` on a `u64`: eight little-endian bytes.
#[verifier::external_body]
pub(crate) fn bincode_u64(x: u64) -> (r: Vec<u8>)
    ensures
        r@ == le_u64(x),
{
    bincode::serialize(&x).unwrap()
}

/// Calls `bincode::deserialize` for a `u64`: it needs eight bytes and reads
/// them little-endian.
#[verifier::external_body]
pub(crate) fn bincode_u64_decode(bytes: &[u8]) -> (r: Result<u64, Box<bincode::ErrorKind>>)
    ensures
        r is Ok <==> bytes@.len() >= 8,
        r matches Ok(x) ==> x as nat == le_value(bytes@.take(8)),
{
    bincode::deserialize(bytes)
}

/// Calls `bincode::serialize` on a list of header field tuples.
#[verifier::external_body]
pub(crate) fn bincode_headers(v: &Vec<HeaderFields>) -> (r: Vec<u8>)
    ensures
        r@ == headers_encoding(header_list_view(v@)),
{
    bincode::serialize(v).unwrap()
}

/// Calls `bincode::deserialize` for a list of header field tuples. The
/// contract claims that it succeeds exactly when the bytes begin with the
/// encoding of some list of headers, and then gives a list whose encoding
/// they begin with.
#[verifier::external_body]
pub(crate) fn bincode_headers_decode(bytes: &[u8]) -> (r: Result<Vec<HeaderFields>, Box<bincode::ErrorKind>>)
    ensures
        r matches Ok(v) ==> headers_encoding(header_list_view(v@)).is_prefix_of(bytes@),
        r is Err ==> forall|s: Seq<HeaderView>|
            (forall|i: int| 0 <= i < s.len() ==> header_shape(#[trigger] s[i])) ==> !(#[trigger] headers_encoding(
                s,
            )).is_prefix_of(bytes@),
{
    bincode::deserialize(bytes)
}

/// A ratchet session's fields, in declaration order, as bincode sees them.
pub type RatchetFields = (
    [u8; 32],
    Option<[u8; 32]>,
    Option<[u8; 32]>,
    [u8; 32],
    [u8; 32],
    Option<[u8; 32]>,
    Option<[u8; 32]>,
    u32,
    u32,
    Vec<(u32, [u8; 32])>,
);

/// Bincode encoding of an optional key: a 0 byte, or a 1 byte then the key.
pub open spec fn option_key_encoding(o: Option<[u8; 32]>) -> Seq<u8> {
    match o {
        None => seq![0u8],
        Some(k) => seq![1u8] + k@,
    }
}

/// The encodings of (message number, key) pairs one after the other.
pub open spec fn skipped_concat(s: Seq<(u32, [u8; 32])>) -> Seq<u8>
    decreases s.len(),
{
    if s.len() == 0 {
        Seq::empty()
    } else {
        le_u32(s[0].0) + s[0].1@ + skipped_concat(s.drop_first())
    }
}

/// Bincode encoding of a ratchet session's fields.
pub open spec fn ratchet_encoding(f: RatchetFields) -> Seq<u8> {
    f.0@ + (option_key_encoding(f.1) + (option_key_encoding(f.2) + (f.3@ + (f.4@ + (option_key_encoding(f.5)
        + (option_key_encoding(f.6) + (le_u32(f.7) + (le_u32(f.8) + (le_bytes(f.9@.len(), 8)
        + skipped_concat(f.9@))))))))))
}

proof fn lemma_prefix_split(x: Seq<u8>, y: Seq<u8>, w: Seq<u8>)
    requires
        (x + y).is_prefix_of(w),
    ensures
        x.is_prefix_of(w),
        y.is_prefix_of(w.skip(x.len() as int)),
{
    assert forall|i: int| 0 <= i < x.len() implies x[i] == w[i] by {
        assert((x + y)[i] == x[i]);
    }
    assert forall|i: int| 0 <= i < y.len() implies y[i] == w.skip(x.len() as int)[i] by {
        assert((x + y)[x.len() + i] == y[i]);
    }
}

proof fn lemma_same_length_prefixes(x: Seq<u8>, y: Seq<u8>, w: Seq<u8>)
    requires
        x.len() == y.len(),
        x.is_prefix_of(w),
        y.is_prefix_of(w),
    ensures
        x == y,
{
    assert(x =~= y);
}

proof fn lemma_option_key_unique(x: Option<[u8; 32]>, y: Option<[u8; 32]>, w: Seq<u8>)
    requires
        option_key_encoding(x).is_prefix_of(w),
        option_key_encoding(y).is_prefix_of(w),
    ensures
        x == y,
{
    match x {
        Some(kx) => match y {
            Some(ky) => {
                lemma_prefix_split(seq![1u8], kx@, w);
                lemma_prefix_split(seq![1u8], ky@, w);
                lemma_same_length_prefixes(kx@, ky@, w.skip(1));
                assert(kx =~= ky);
            },
            None => {
                assert(option_key_encoding(x)[0] == w[0]);
                assert(option_key_encoding(y)[0] == w[0]);
            },
        },
        None => match y {
            Some(_) => {
                assert(option_key_encoding(x)[0] == w[0]);
                assert(option_key_encoding(y)[0] == w[0]);
            },
            None => {},
        },
    }
}

proof fn lemma_skipped_concat_len(s: Seq<(u32, [u8; 32])>)
    ensures
        skipped_concat(s).len() == 36 * s.len(),
    decreases s.len(),
{
    if s.len() > 0 {
        lemma_skipped_concat_len(s.drop_first());
        lemma_le_u32_round_trip(s[0].0);
    }
}

proof fn lemma_skipped_concat_unique(a: Seq<(u32, [u8; 32])>, b: Seq<(u32, [u8; 32])>, w: Seq<u8>)
    requires
        a.len() == b.len(),
        skipped_concat(a).is_prefix_of(w),
        skipped_concat(b).is_prefix_of(w),
    ensures
        a == b,
    decreases a.len(),
{
    if a.len() == 0 {
        assert(a =~= b);
    } else {
        lemma_le_u32_round_trip(a[0].0);
        lemma_le_u32_round_trip(b[0].0);
        let pa = le_u32(a[0].0) + a[0].1@;
        let pb = le_u32(b[0].0) + b[0].1@;
        assert(skipped_concat(a) =~= pa + skipped_concat(a.drop_first()));
        assert(skipped_concat(b) =~= pb + skipped_concat(b.drop_first()));
        lemma_prefix_split(pa, skipped_concat(a.drop_first()), w);
        lemma_prefix_split(pb, skipped_concat(b.drop_first()), w);
        lemma_same_length_prefixes(pa, pb, w);
        assert(pa.subrange(0, 4) =~= le_u32(a[0].0));
        assert(pb.subrange(0, 4) =~= le_u32(b[0].0));
        assert(pa.subrange(4, 36) =~= a[0].1@);
        assert(pb.subrange(4, 36) =~= b[0].1@);
        assert(a[0].1 =~= b[0].1);
        lemma_skipped_concat_unique(a.drop_first(), b.drop_first(), w.skip(36));
        assert forall|i: int| 0 <= i < a.len() implies a[i] == b[i] by {
            if i > 0 {
                assert(a[i] == a.drop_first()[i - 1]);
                assert(b[i] == b.drop_first()[i - 1]);
            }
        }
        assert(a =~= b);
    }
}

/// Whether two sessions' fields agree, the skipped keys compared by their
/// contents.
pub open spec fn ratchet_fields_agree(a: RatchetFields, b: RatchetFields) -> bool {
    &&& a.0 == b.0
    &&& a.1 == b.1
    &&& a.2 == b.2
    &&& a.3 == b.3
    &&& a.4 == b.4
    &&& a.5 == b.5
    &&& a.6 == b.6
    &&& a.7 == b.7
    &&& a.8 == b.8
    &&& a.9@ == b.9@
}

proof fn lemma_fixed_step(x: Seq<u8>, rx: Seq<u8>, y: Seq<u8>, ry: Seq<u8>, w: Seq<u8>)
    requires
        x.len() == y.len(),
        (x + rx).is_prefix_of(w),
        (y + ry).is_prefix_of(w),
    ensures
        x == y,
        rx.is_prefix_of(w.skip(x.len() as int)),
        ry.is_prefix_of(w.skip(x.len() as int)),
{
    lemma_prefix_split(x, rx, w);
    lemma_prefix_split(y, ry, w);
    lemma_same_length_prefixes(x, y, w);
}

proof fn lemma_option_step(x: Option<[u8; 32]>, rx: Seq<u8>, y: Option<[u8; 32]>, ry: Seq<u8>, w: Seq<u8>)
    requires
        (option_key_encoding(x) + rx).is_prefix_of(w),
        (option_key_encoding(y) + ry).is_prefix_of(w),
    ensures
        x == y,
        rx.is_prefix_of(w.skip(option_key_encoding(x).len() as int)),
        ry.is_prefix_of(w.skip(option_key_encoding(x).len() as int)),
{
    lemma_prefix_split(option_key_encoding(x), rx, w);
    lemma_prefix_split(option_key_encoding(y), ry, w);
    lemma_option_key_unique(x, y, w);
}

/// The part of a session's encoding after its two counters.
spec fn skipped_part(f: RatchetFields) -> Seq<u8> {
    le_bytes(f.9@.len(), 8) + skipped_concat(f.9@)
}

/// The part of a session's encoding after its keys.
spec fn counters_part(f: RatchetFields) -> Seq<u8> {
    le_u32(f.7) + (le_u32(f.8) + skipped_part(f))
}

proof fn lemma_counters_part_unique(a: RatchetFields, b: RatchetFields, w: Seq<u8>)
    requires
        counters_part(a).is_prefix_of(w),
        counters_part(b).is_prefix_of(w),
        w.len() < pow256(8),
    ensures
        a.7 == b.7,
        a.8 == b.8,
        a.9@ == b.9@,
{
    lemma_le_u32_round_trip(a.7);
    lemma_le_u32_round_trip(b.7);
    lemma_le_u32_round_trip(a.8);
    lemma_le_u32_round_trip(b.8);
    lemma_fixed_step(le_u32(a.7), le_u32(a.8) + skipped_part(a), le_u32(b.7), le_u32(b.8) + skipped_part(b), w);
    let w1 = w.skip(4);
    lemma_fixed_step(le_u32(a.8), skipped_part(a), le_u32(b.8), skipped_part(b), w1);
    let w2 = w1.skip(4);
    lemma_le_bytes_len(a.9@.len(), 8);
    lemma_le_bytes_len(b.9@.len(), 8);
    lemma_fixed_step(
        le_bytes(a.9@.len(), 8),
        skipped_concat(a.9@),
        le_bytes(b.9@.len(), 8),
        skipped_concat(b.9@),
        w2,
    );
    lemma_skipped_concat_len(a.9@);
    lemma_skipped_concat_len(b.9@);
    assert(a.9@.len() < pow256(8));
    assert(b.9@.len() < pow256(8));
    lemma_le8_injective(a.9@.len(), b.9@.len());
    lemma_skipped_concat_unique(a.9@, b.9@, w2.skip(8));
}

/// At most one encoding of a ratchet session begins a byte string that fits
/// in memory.
pub proof fn lemma_ratchet_encoding_unique(a: RatchetFields, b: RatchetFields, v: Seq<u8>)
    requires
        ratchet_encoding(a).is_prefix_of(v),
        ratchet_encoding(b).is_prefix_of(v),
        v.len() < pow256(8),
    ensures
        ratchet_fields_agree(a, b),
{
    let ta = counters_part(a);
    let tb = counters_part(b);
    let r6a = option_key_encoding(a.6) + ta;
    let r6b = option_key_encoding(b.6) + tb;
    let r5a = option_key_encoding(a.5) + r6a;
    let r5b = option_key_encoding(b.5) + r6b;
    let r4a = a.4@ + r5a;
    let r4b = b.4@ + r5b;
    let r3a = a.3@ + r4a;
    let r3b = b.3@ + r4b;
    let r2a = option_key_encoding(a.2) + r3a;
    let r2b = option_key_encoding(b.2) + r3b;
    let r1a = option_key_encoding(a.1) + r2a;
    let r1b = option_key_encoding(b.1) + r2b;
    assert(ratchet_encoding(a) == a.0@ + r1a);
    assert(ratchet_encoding(b) == b.0@ + r1b);
    lemma_fixed_step(a.0@, r1a, b.0@, r1b, v);
    assert(a.0 =~= b.0);
    let w1 = v.skip(32);
    lemma_option_step(a.1, r2a, b.1, r2b, w1);
    let w2 = w1.skip(option_key_encoding(a.1).len() as int);
    lemma_option_step(a.2, r3a, b.2, r3b, w2);
    let w3 = w2.skip(option_key_encoding(a.2).len() as int);
    lemma_fixed_step(a.3@, r4a, b.3@, r4b, w3);
    assert(a.3 =~= b.3);
    let w4 = w3.skip(32);
    lemma_fixed_step(a.4@, r5a, b.4@, r5b, w4);
    assert(a.4 =~= b.4);
    let w5 = w4.skip(32);
    lemma_option_step(a.5, r6a, b.5, r6b, w5);
    let w6 = w5.skip(option_key_encoding(a.5).len() as int);
    lemma_option_step(a.6, ta, b.6, tb, w6);
    let w7 = w6.skip(option_key_encoding(a.6).len() as int);
    lemma_counters_part_unique(a, b, w7);
}

/// Calls `bincode::serialize` on a ratchet session's fields.
#[verifier::external_body]
pub(crate) fn bincode_ratchet(f: &RatchetFields) -> (r: Vec<u8>)
    ensures
        r@ == ratchet_encoding(*f),
{
    bincode::serialize(f).unwrap()
}

/// Calls `bincode::deserialize` for a ratchet session's fields. The
/// contract claims that it succeeds exactly when the bytes begin with the
/// encoding of some session, and then gives a session whose encoding they
/// begin with.
#[verifier::external_body]
pub(crate) fn bincode_ratchet_decode(bytes: &[u8]) -> (r: Result<RatchetFields, Box<bincode::ErrorKind>>)
    ensures
        r matches Ok(f) ==> ratchet_encoding(f).is_prefix_of(bytes@),
        r is Err ==> forall|f: RatchetFields| !(#[trigger] ratchet_encoding(f)).is_prefix_of(bytes@),
{
    bincode::deserialize(bytes)
}

} // verus!
