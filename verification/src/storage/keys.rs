//! The database keys under which chains, headers, bodies and keys are kept.
//!
//! Every key is ASCII: a tag such as `header:`, the lowercase hex of a
//! 32-byte id, and for per-sequence records a `:` and the number. Header and
//! epoch numbers are written as 16 zero-padded hex digits so that a prefix
//! scan returns them in numeric order.
use crate::bytes::append_bytes;
use crate::codec::{hex_decode, hex_decode_spec, hex_digit, hex_encode, hex_lower, lemma_hex_lower_len};
use crate::error::{ChainsError, ChainsResult};
use crate::bytes::to_id;
use vstd::prelude::*;
use vstd::utf8::valid_utf8;

verus! {

pub open spec fn tag_chain() -> Seq<u8> {
    seq![99u8, 104, 97, 105, 110, 58]
}

pub open spec fn tag_header() -> Seq<u8> {
    seq![104u8, 101, 97, 100, 101, 114, 58]
}

pub open spec fn tag_body() -> Seq<u8> {
    seq![98u8, 111, 100, 121, 58]
}

pub open spec fn tag_latest() -> Seq<u8> {
    seq![108u8, 97, 116, 101, 115, 116, 58]
}

pub open spec fn tag_snapshot() -> Seq<u8> {
    seq![115u8, 110, 97, 112, 115, 104, 111, 116, 58]
}

pub open spec fn tag_epoch() -> Seq<u8> {
    seq![101u8, 112, 111, 99, 104, 58]
}

pub open spec fn tag_ratchet() -> Seq<u8> {
    seq![114u8, 97, 116, 99, 104, 101, 116, 58]
}

/// The separator between an id and a number.
pub open spec fn colon() -> Seq<u8> {
    seq![58u8]
}

/// The last `n` hex digits of `x`, most significant first, zero-padded.
pub open spec fn hex_fixed(x: nat, n: nat) -> Seq<u8>
    decreases n,
{
    if n == 0 {
        Seq::empty()
    } else {
        hex_fixed(x / 16, (n - 1) as nat).push(hex_digit(x % 16))
    }
}

/// The decimal digits of `x`, most significant first, without padding.
pub open spec fn decimal(x: nat) -> Seq<u8>
    decreases x,
{
    if x < 10 {
        seq![(48 + x) as u8]
    } else {
        decimal(x / 10).push((48 + x % 10) as u8)
    }
}

pub open spec fn chain_key_spec(id: Seq<u8>) -> Seq<u8> {
    tag_chain() + hex_lower(id)
}

pub open spec fn header_prefix_spec(id: Seq<u8>) -> Seq<u8> {
    tag_header() + hex_lower(id) + colon()
}

pub open spec fn header_key_spec(id: Seq<u8>, sequence: u64) -> Seq<u8> {
    header_prefix_spec(id) + hex_fixed(sequence as nat, 16)
}

pub open spec fn body_key_spec(block_id: Seq<u8>) -> Seq<u8> {
    tag_body() + hex_lower(block_id)
}

pub open spec fn latest_key_spec(id: Seq<u8>) -> Seq<u8> {
    tag_latest() + hex_lower(id)
}

pub open spec fn snapshot_key_spec(id: Seq<u8>, sequence: u64) -> Seq<u8> {
    tag_snapshot() + hex_lower(id) + colon() + decimal(sequence as nat)
}

pub open spec fn epoch_prefix_spec(id: Seq<u8>) -> Seq<u8> {
    tag_epoch() + hex_lower(id) + colon()
}

pub open spec fn epoch_key_spec(id: Seq<u8>, epoch: u64) -> Seq<u8> {
    epoch_prefix_spec(id) + hex_fixed(epoch as nat, 16)
}

pub open spec fn ratchet_key_spec(id: Seq<u8>) -> Seq<u8> {
    tag_ratchet() + hex_lower(id)
}

/// Keys of different kinds never coincide: each kind begins with its own
/// tag, and the tags differ in their first letter.
pub proof fn lemma_key_tags()
    ensures
        forall|id: Seq<u8>| #![trigger chain_key_spec(id)] chain_key_spec(id).len() > 0 && chain_key_spec(id)[0] == 99,
        forall|id: Seq<u8>, n: u64| #![trigger header_key_spec(id, n)] header_key_spec(id, n).len() > 0 && header_key_spec(id, n)[0] == 104,
        forall|id: Seq<u8>| #![trigger header_prefix_spec(id)] header_prefix_spec(id).len() > 0 && header_prefix_spec(id)[0] == 104,
        forall|id: Seq<u8>| #![trigger body_key_spec(id)] body_key_spec(id).len() > 0 && body_key_spec(id)[0] == 98,
        forall|id: Seq<u8>| #![trigger latest_key_spec(id)] latest_key_spec(id).len() > 0 && latest_key_spec(id)[0] == 108,
        forall|id: Seq<u8>, n: u64| #![trigger snapshot_key_spec(id, n)] snapshot_key_spec(id, n).len() > 0 && snapshot_key_spec(id, n)[0] == 115,
        forall|id: Seq<u8>, n: u64| #![trigger epoch_key_spec(id, n)] epoch_key_spec(id, n).len() > 0 && epoch_key_spec(id, n)[0] == 101,
        forall|id: Seq<u8>| #![trigger ratchet_key_spec(id)] ratchet_key_spec(id).len() > 0 && ratchet_key_spec(id)[0] == 114,
{
}

/// The header keys of a chain for two sequence numbers are the same key
/// only when the numbers are equal.
pub proof fn lemma_header_keys_distinct(chain_id: Seq<u8>, a: u64, b: u64)
    ensures
        header_key_spec(chain_id, a) == header_key_spec(chain_id, b) <==> a == b,
{
    lemma_header_keys_sort_by_sequence(chain_id, a, b);
    lemma_header_keys_sort_by_sequence(chain_id, b, a);
    if a != b && header_key_spec(chain_id, a) == header_key_spec(chain_id, b) {
        lemma_header_keys_sort_by_sequence(chain_id, a, a);
    }
}

proof fn lemma_hex_digit_injective(x: nat, y: nat)
    requires
        x < 16,
        y < 16,
        hex_digit(x) == hex_digit(y),
    ensures
        x == y,
{
}

/// Hex text determines the bytes it was written from.
pub proof fn lemma_hex_lower_injective(a: Seq<u8>, b: Seq<u8>)
    requires
        hex_lower(a) == hex_lower(b),
    ensures
        a == b,
    decreases a.len(),
{
    lemma_hex_lower_len(a);
    lemma_hex_lower_len(b);
    if a.len() > 0 {
        let ha = hex_lower(a);
        let hb = hex_lower(b);
        assert(ha[0] == hex_digit(a[0] as nat / 16));
        assert(hb[0] == hex_digit(b[0] as nat / 16));
        assert(ha[1] == hex_digit(a[0] as nat % 16));
        assert(hb[1] == hex_digit(b[0] as nat % 16));
        lemma_hex_digit_injective(a[0] as nat / 16, b[0] as nat / 16);
        lemma_hex_digit_injective(a[0] as nat % 16, b[0] as nat % 16);
        assert(a[0] == b[0]) by (nonlinear_arith)
            requires
                a[0] as nat / 16 == b[0] as nat / 16,
                a[0] as nat % 16 == b[0] as nat % 16,
        ;
        assert(ha.skip(2) =~= hex_lower(a.drop_first()));
        assert(hb.skip(2) =~= hex_lower(b.drop_first()));
        lemma_hex_lower_injective(a.drop_first(), b.drop_first());
        assert forall|i: int| 0 <= i < a.len() implies a[i] == b[i] by {
            if i > 0 {
                assert(a[i] == a.drop_first()[i - 1]);
                assert(b[i] == b.drop_first()[i - 1]);
            }
        }
        assert(a =~= b);
    }
}

/// The body keys of two different block ids differ.
pub proof fn lemma_body_keys_distinct(a: Seq<u8>, b: Seq<u8>)
    requires
        a != b,
    ensures
        body_key_spec(a) != body_key_spec(b),
{
    if body_key_spec(a) == body_key_spec(b) {
        assert(body_key_spec(a).skip(5) =~= hex_lower(a));
        assert(body_key_spec(b).skip(5) =~= hex_lower(b));
        lemma_hex_lower_injective(a, b);
    }
}

/// `a` sorts before `b` in the byte-wise order in which `sled` keeps its
/// keys: at the first position where they differ `a` has the smaller byte,
/// or `a` is a proper prefix of `b`.
pub open spec fn sorts_before(a: Seq<u8>, b: Seq<u8>) -> bool {
    ||| exists|k: int|
        #![trigger a[k], b[k]]
        0 <= k < a.len() && k < b.len() && a.take(k) == b.take(k) && a[k] < b[k]
    ||| a.len() < b.len() && a.is_prefix_of(b)
}

/// Sixteen to the power `n`.
pub open spec fn pow16(n: nat) -> nat
    decreases n,
{
    if n == 0 {
        1
    } else {
        16 * pow16((n - 1) as nat)
    }
}

proof fn lemma_hex_fixed_len(x: nat, n: nat)
    ensures
        hex_fixed(x, n).len() == n,
    decreases n,
{
    if n > 0 {
        lemma_hex_fixed_len(x / 16, (n - 1) as nat);
    }
}

/// Below `16^n`, a larger number has `n` hex digits that differ first at a
/// larger digit.
proof fn lemma_hex_fixed_first_difference(x: nat, y: nat, n: nat) -> (k: int)
    requires
        x < y,
        y < pow16(n),
    ensures
        0 <= k < n,
        hex_fixed(x, n).take(k) == hex_fixed(y, n).take(k),
        hex_fixed(x, n)[k] < hex_fixed(y, n)[k],
    decreases n,
{
    lemma_hex_fixed_len(x, n);
    lemma_hex_fixed_len(y, n);
    if n == 0 {
        assert(false);
        0
    } else {
        let m = (n - 1) as nat;
        let hx = hex_fixed(x / 16, m);
        let hy = hex_fixed(y / 16, m);
        lemma_hex_fixed_len(x / 16, m);
        lemma_hex_fixed_len(y / 16, m);
        assert(x / 16 <= y / 16) by (nonlinear_arith)
            requires
                x < y,
        ;
        assert(y / 16 < pow16(m)) by (nonlinear_arith)
            requires
                y < 16 * pow16(m),
        ;
        if x / 16 < y / 16 {
            let k = lemma_hex_fixed_first_difference(x / 16, y / 16, m);
            assert(hex_fixed(x, n).take(k) =~= hx.take(k));
            assert(hex_fixed(y, n).take(k) =~= hy.take(k));
            k
        } else {
            assert(x % 16 < y % 16) by (nonlinear_arith)
                requires
                    x < y,
                    x / 16 == y / 16,
            ;
            assert(hex_fixed(x, n).take(m as int) =~= hx);
            assert(hex_fixed(y, n).take(m as int) =~= hy);
            m as int
        }
    }
}

/// Two keys sharing a prefix sort as their suffixes do, when the suffixes
/// differ first at some position.
proof fn lemma_sorts_before_after_prefix(p: Seq<u8>, a: Seq<u8>, b: Seq<u8>, k: int)
    requires
        0 <= k < a.len(),
        k < b.len(),
        a.take(k) == b.take(k),
        a[k] < b[k],
    ensures
        sorts_before(p + a, p + b),
{
    let i = p.len() + k;
    assert((p + a).take(i) =~= p + a.take(k));
    assert((p + b).take(i) =~= p + b.take(k));
    assert((p + a)[i] == a[k]);
    assert((p + b)[i] == b[k]);
}

/// Of two sequences of one length, at most one sorts before the other.
proof fn lemma_sorts_before_asymmetric(a: Seq<u8>, b: Seq<u8>)
    requires
        a.len() == b.len(),
    ensures
        !(sorts_before(a, b) && sorts_before(b, a)),
{
    if sorts_before(a, b) && sorts_before(b, a) {
        let k1 = choose|k: int|
            #![trigger a[k], b[k]]
            0 <= k < a.len() && k < b.len() && a.take(k) == b.take(k) && a[k] < b[k];
        let k2 = choose|k: int|
            #![trigger b[k], a[k]]
            0 <= k < b.len() && k < a.len() && b.take(k) == a.take(k) && b[k] < a[k];
        if k1 < k2 {
            assert(a.take(k2)[k1] == b.take(k2)[k1]);
        } else if k2 < k1 {
            assert(a.take(k1)[k2] == b.take(k1)[k2]);
        }
    }
}

/// `sorts_before` is a strict order: no key sorts before itself, and of
/// two keys at most one sorts before the other.
pub proof fn lemma_sorts_before_strict(a: Seq<u8>, b: Seq<u8>)
    ensures
        !sorts_before(a, a),
        !(sorts_before(a, b) && sorts_before(b, a)),
{
    if sorts_before(a, b) && sorts_before(b, a) {
        if a.len() == b.len() {
            lemma_sorts_before_asymmetric(a, b);
        } else if a.len() < b.len() && a.is_prefix_of(b) {
            if !(b.len() < a.len() && b.is_prefix_of(a)) {
                let k = choose|k: int|
                    #![trigger b[k], a[k]]
                    0 <= k < b.len() && k < a.len() && b.take(k) == a.take(k) && b[k] < a[k];
                assert(a[k] == b[k]);
            }
        } else if b.len() < a.len() && b.is_prefix_of(a) {
            let k = choose|k: int|
                #![trigger a[k], b[k]]
                0 <= k < a.len() && k < b.len() && a.take(k) == b.take(k) && a[k] < b[k];
            assert(b[k] == a[k]);
        } else {
            let k1 = choose|k: int|
                #![trigger a[k], b[k]]
                0 <= k < a.len() && k < b.len() && a.take(k) == b.take(k) && a[k] < b[k];
            let k2 = choose|k: int|
                #![trigger b[k], a[k]]
                0 <= k < b.len() && k < a.len() && b.take(k) == a.take(k) && b[k] < a[k];
            if k1 < k2 {
                assert(a.take(k2)[k1] == b.take(k2)[k1]);
            } else if k2 < k1 {
                assert(a.take(k1)[k2] == b.take(k1)[k2]);
            }
        }
    }
}

/// Keys made of one prefix and a number in 16 zero-padded hex digits sort
/// exactly as the numbers do.
pub proof fn lemma_numbered_keys_sort_by_number(p: Seq<u8>, a: u64, b: u64)
    ensures
        sorts_before(p + hex_fixed(a as nat, 16), p + hex_fixed(b as nat, 16)) <==> a < b,
{
    assert(pow16(16) == 0x1_0000_0000_0000_0000) by {
        reveal_with_fuel(pow16, 17);
    }
    lemma_hex_fixed_len(a as nat, 16);
    lemma_hex_fixed_len(b as nat, 16);
    let ka = p + hex_fixed(a as nat, 16);
    let kb = p + hex_fixed(b as nat, 16);
    if a < b {
        let k = lemma_hex_fixed_first_difference(a as nat, b as nat, 16);
        lemma_sorts_before_after_prefix(p, hex_fixed(a as nat, 16), hex_fixed(b as nat, 16), k);
    } else if b < a {
        let k = lemma_hex_fixed_first_difference(b as nat, a as nat, 16);
        lemma_sorts_before_after_prefix(p, hex_fixed(b as nat, 16), hex_fixed(a as nat, 16), k);
        lemma_sorts_before_asymmetric(ka, kb);
    } else {
        lemma_sorts_before_asymmetric(ka, kb);
    }
}

/// The header keys of a chain sort as their sequence numbers do, so a scan
/// of the chain's prefix meets its headers in sequence order.
pub proof fn lemma_header_keys_sort_by_sequence(chain_id: Seq<u8>, a: u64, b: u64)
    ensures
        sorts_before(header_key_spec(chain_id, a), header_key_spec(chain_id, b)) <==> a < b,
{
    lemma_numbered_keys_sort_by_number(header_prefix_spec(chain_id), a, b);
}

/// The epoch-key keys of a chain sort as their epoch numbers do.
pub proof fn lemma_epoch_keys_sort_by_epoch(chain_id: Seq<u8>, a: u64, b: u64)
    ensures
        sorts_before(epoch_key_spec(chain_id, a), epoch_key_spec(chain_id, b)) <==> a < b,
{
    lemma_numbered_keys_sort_by_number(epoch_prefix_spec(chain_id), a, b);
}

/// Calls `std::str::from_utf8` and reports whether the bytes are UTF-8.
#[verifier::external_body]
fn utf8_valid(bytes: &[u8]) -> (r: bool)
    ensures
        r == valid_utf8(bytes@),
{
    std::str::from_utf8(bytes).is_ok()
}

fn tag(which: u8) -> (r: Vec<u8>)
    requires
        which < 7,
    ensures
        r@ == (if which == 0 {
            tag_chain()
        } else if which == 1 {
            tag_header()
        } else if which == 2 {
            tag_body()
        } else if which == 3 {
            tag_latest()
        } else if which == 4 {
            tag_snapshot()
        } else if which == 5 {
            tag_epoch()
        } else {
            tag_ratchet()
        }),
{
    let v: Vec<u8> = if which == 0 {
        vec![99u8, 104, 97, 105, 110, 58]
    } else if which == 1 {
        vec![104u8, 101, 97, 100, 101, 114, 58]
    } else if which == 2 {
        vec![98u8, 111, 100, 121, 58]
    } else if which == 3 {
        vec![108u8, 97, 116, 101, 115, 116, 58]
    } else if which == 4 {
        vec![115u8, 110, 97, 112, 115, 104, 111, 116, 58]
    } else if which == 5 {
        vec![101u8, 112, 111, 99, 104, 58]
    } else {
        vec![114u8, 97, 116, 99, 104, 101, 116, 58]
    };
    assert(which == 0 ==> v@ =~= tag_chain());
    assert(which == 1 ==> v@ =~= tag_header());
    assert(which == 2 ==> v@ =~= tag_body());
    assert(which == 3 ==> v@ =~= tag_latest());
    assert(which == 4 ==> v@ =~= tag_snapshot());
    assert(which == 5 ==> v@ =~= tag_epoch());
    assert(which == 6 ==> v@ =~= tag_ratchet());
    v
}

fn hex_digit_exec(n: u64) -> (r: u8)
    requires
        n < 16,
    ensures
        r == hex_digit(n as nat),
{
    if n < 10 {
        (48 + n) as u8
    } else {
        (87 + n) as u8
    }
}

/// Appends the 16 zero-padded lowercase hex digits of `x`.
fn push_hex_u64(v: &mut Vec<u8>, x: u64)
    ensures
        final(v)@ == old(v)@ + hex_fixed(x as nat, 16),
{
    let mut digits: [u8; 16] = [0u8; 16];
    let mut y: u64 = x;
    let mut k: usize = 16;
    assert(digits@.subrange(16, 16) =~= Seq::<u8>::empty());
    while k > 0
        invariant
            k <= 16,
            hex_fixed(x as nat, 16) == hex_fixed(y as nat, k as nat) + digits@.subrange(k as int, 16),
        decreases k,
    {
        let ghost before = digits@;
        let d = hex_digit_exec(y % 16);
        digits[k - 1] = d;
        assert(hex_fixed(y as nat, k as nat) == hex_fixed((y / 16) as nat, (k - 1) as nat).push(d));
        assert(digits@.subrange(k - 1, 16) =~= seq![d] + before.subrange(k as int, 16));
        assert(hex_fixed((y / 16) as nat, (k - 1) as nat).push(d) + before.subrange(k as int, 16)
            =~= hex_fixed((y / 16) as nat, (k - 1) as nat) + digits@.subrange(k - 1, 16));
        y = y / 16;
        k = k - 1;
    }
    assert(hex_fixed(y as nat, 0) + digits@.subrange(0, 16) =~= digits@);
    append_bytes(v, digits.as_slice());
}

/// Appends the decimal digits of `x`.
fn push_decimal(v: &mut Vec<u8>, x: u64)
    ensures
        final(v)@ == old(v)@ + decimal(x as nat),
    decreases x,
{
    if x < 10 {
        v.push((48 + x) as u8);
        assert(v@ =~= old(v)@ + decimal(x as nat));
    } else {
        push_decimal(v, x / 10);
        v.push((48 + x % 10) as u8);
        assert(v@ =~= old(v)@ + decimal(x as nat));
    }
}

fn id_key(which: u8, id: &[u8; 32]) -> (r: Vec<u8>)
    requires
        which < 7,
    ensures
        r@ == tag_of(which) + hex_lower(id@),
{
    let mut k = tag(which);
    let h = hex_encode(id.as_slice());
    append_bytes(&mut k, h.as_slice());
    k
}

spec fn tag_of(which: u8) -> Seq<u8> {
    if which == 0 {
        tag_chain()
    } else if which == 1 {
        tag_header()
    } else if which == 2 {
        tag_body()
    } else if which == 3 {
        tag_latest()
    } else if which == 4 {
        tag_snapshot()
    } else if which == 5 {
        tag_epoch()
    } else {
        tag_ratchet()
    }
}

/// The key marking that a chain exists.
pub fn chain_key(chain_id: &[u8; 32]) -> (r: Vec<u8>)
    ensures
        r@ == chain_key_spec(chain_id@),
{
    id_key(0, chain_id)
}

/// The prefix shared by the header keys of a chain.
pub fn header_prefix(chain_id: &[u8; 32]) -> (r: Vec<u8>)
    ensures
        r@ == header_prefix_spec(chain_id@),
{
    let mut k = id_key(1, chain_id);
    k.push(58u8);
    assert(k@ =~= header_prefix_spec(chain_id@));
    k
}

/// The key of a chain's header with this sequence number.
pub fn header_key(chain_id: &[u8; 32], sequence: u64) -> (r: Vec<u8>)
    ensures
        r@ == header_key_spec(chain_id@, sequence),
{
    let mut k = header_prefix(chain_id);
    push_hex_u64(&mut k, sequence);
    k
}

/// The key of a block's body.
pub fn body_key(block_id: &[u8; 32]) -> (r: Vec<u8>)
    ensures
        r@ == body_key_spec(block_id@),
{
    id_key(2, block_id)
}

/// The key of a chain's latest sequence number.
pub fn latest_key(chain_id: &[u8; 32]) -> (r: Vec<u8>)
    ensures
        r@ == latest_key_spec(chain_id@),
{
    id_key(3, chain_id)
}

/// The key of a chain's snapshot up to this sequence number.
pub fn snapshot_key(chain_id: &[u8; 32], sequence: u64) -> (r: Vec<u8>)
    ensures
        r@ == snapshot_key_spec(chain_id@, sequence),
{
    let mut k = id_key(4, chain_id);
    k.push(58u8);
    push_decimal(&mut k, sequence);
    assert(k@ =~= snapshot_key_spec(chain_id@, sequence));
    k
}

/// The prefix shared by the epoch-key keys of a chain.
pub fn epoch_prefix(chain_id: &[u8; 32]) -> (r: Vec<u8>)
    ensures
        r@ == epoch_prefix_spec(chain_id@),
{
    let mut k = id_key(5, chain_id);
    k.push(58u8);
    assert(k@ =~= epoch_prefix_spec(chain_id@));
    k
}

/// The key of a chain's key for this epoch.
pub fn epoch_key(chain_id: &[u8; 32], epoch: u64) -> (r: Vec<u8>)
    ensures
        r@ == epoch_key_spec(chain_id@, epoch),
{
    let mut k = epoch_prefix(chain_id);
    push_hex_u64(&mut k, epoch);
    k
}

/// The key of a ratchet session.
pub fn ratchet_key(session_id: &[u8; 32]) -> (r: Vec<u8>)
    ensures
        r@ == ratchet_key_spec(session_id@),
{
    id_key(6, session_id)
}

/// The tag `chain:` as a key prefix.
pub fn chain_tag() -> (r: Vec<u8>)
    ensures
        r@ == tag_chain(),
{
    tag(0)
}

/// What `chain_id_from_key` gives for a key found under the `chain:` tag.
pub open spec fn chain_id_from_key_spec(key: Seq<u8>) -> ChainsResult<Option<Seq<u8>>> {
    if !valid_utf8(key) {
        Err(ChainsError::Encoding)
    } else if !tag_chain().is_prefix_of(key) {
        Ok(None)
    } else {
        match hex_decode_spec(key.skip(6)) {
            Some(id) => if id.len() == 32 {
                Ok(Some(id))
            } else {
                Ok(None)
            },
            None => Ok(None),
        }
    }
}

/// Reads the chain id out of a `chain:` key: an error for bytes that are
/// not UTF-8, nothing for a key without the tag, with text that is not hex
/// or that does not decode to 32 bytes.
pub fn chain_id_from_key(key: &[u8]) -> (r: ChainsResult<Option<[u8; 32]>>)
    ensures
        match r {
            Ok(Some(id)) => chain_id_from_key_spec(key@) == Ok::<Option<Seq<u8>>, ChainsError>(
                Some(id@),
            ),
            Ok(None) => chain_id_from_key_spec(key@) == Ok::<Option<Seq<u8>>, ChainsError>(None),
            Err(e) => chain_id_from_key_spec(key@) == Err::<Option<Seq<u8>>, ChainsError>(e),
        },
{
    if !utf8_valid(key) {
        return Err(ChainsError::Encoding);
    }
    if key.len() < 6 {
        return Ok(None);
    }
    let t = chain_tag();
    let mut i: usize = 0;
    while i < 6
        invariant
            i <= 6,
            key@.len() >= 6,
            valid_utf8(key@),
            t@ == tag_chain(),
            forall|j: int| 0 <= j < i ==> key@[j] == t@[j],
        decreases 6 - i,
    {
        if key[i] != t[i] {
            proof {
                if tag_chain().is_prefix_of(key@) {
                    assert(tag_chain() == key@.subrange(0, 6));
                    assert(tag_chain()[i as int] == key@.subrange(0, 6)[i as int]);
                    assert(false);
                }
            }
            return Ok(None);
        }
        i = i + 1;
    }
    assert(tag_chain() =~= key@.subrange(0, 6));
    let (_, rest) = key.split_at(6);
    assert(rest@ =~= key@.skip(6));
    match hex_decode(rest) {
        Some(bytes) => {
            if bytes.len() == 32 {
                Ok(Some(to_id(bytes.as_slice())))
            } else {
                Ok(None)
            }
        },
        None => Ok(None),
    }
}

/// The number a big-endian byte string stands for.
pub open spec fn be_value(s: Seq<u8>) -> nat
    decreases s.len(),
{
    if s.len() == 0 {
        0
    } else {
        be_value(s.drop_last()) * 256 + s.last() as nat
    }
}

/// Reads a number written as 16 hex digits (either case).
pub fn parse_hex_u64(digits: &[u8]) -> (r: Option<u64>)
    ensures
        match r {
            Some(x) => hex_decode_spec(digits@) matches Some(b) && b.len() == 8 && x as nat == be_value(b),
            None => !(hex_decode_spec(digits@) matches Some(b) && b.len() == 8),
        },
{
    match hex_decode(digits) {
        Some(b) => {
            if b.len() != 8 {
                return None;
            }
            let mut acc: u64 = 0;
            let mut i: usize = 0;
            while i < 8
                invariant
                    i <= 8,
                    b@.len() == 8,
                    acc as nat == be_value(b@.take(i as int)),
                    acc < crate::bytes::pow256(i as nat),
                decreases 8 - i,
            {
                assert(b@.take(i + 1).drop_last() =~= b@.take(i as int));
                assert(crate::bytes::pow256((i + 1) as nat) == 256 * crate::bytes::pow256(i as nat));
                proof {
                    crate::bytes::lemma_pow256_8();
                    crate::bytes::lemma_pow256_le((i + 1) as nat, 8);
                }
                assert(acc * 256 + b@[i as int] < 256 * crate::bytes::pow256(i as nat)) by (nonlinear_arith)
                    requires
                        acc < crate::bytes::pow256(i as nat),
                        b@[i as int] < 256,
                ;
                acc = acc * 256 + b[i] as u64;
                i = i + 1;
            }
            assert(b@.take(8) =~= b@);
            Some(acc)
        },
        None => None,
    }
}

} // verus!
