//! Byte-level helpers shared by the wire and storage formats:
//! little-endian integers, byte-string equality and concatenation.
use vstd::prelude::*;

verus! {

/// `256^n`.
pub open spec fn pow256(n: nat) -> nat
    decreases n,
{
    if n == 0 {
        1
    } else {
        256 * pow256((n - 1) as nat)
    }
}

/// Little-endian encoding of `x` on `n` bytes (the low `n` bytes of `x`).
pub open spec fn le_bytes(x: nat, n: nat) -> Seq<u8>
    decreases n,
{
    if n == 0 {
        Seq::empty()
    } else {
        seq![(x % 256) as u8] + le_bytes(x / 256, (n - 1) as nat)
    }
}

/// The number that a little-endian byte string stands for.
pub open spec fn le_value(s: Seq<u8>) -> nat
    decreases s.len(),
{
    if s.len() == 0 {
        0
    } else {
        s[0] as nat + 256 * le_value(s.drop_first())
    }
}

/// Eight little-endian bytes of a `u64`.
pub open spec fn le_u64(x: u64) -> Seq<u8> {
    le_bytes(x as nat, 8)
}

/// Four little-endian bytes of a `u32`.
pub open spec fn le_u32(x: u32) -> Seq<u8> {
    le_bytes(x as nat, 4)
}

pub proof fn lemma_le_bytes_len(x: nat, n: nat)
    ensures
        le_bytes(x, n).len() == n,
    decreases n,
{
    if n > 0 {
        lemma_le_bytes_len(x / 256, (n - 1) as nat);
    }
}

pub proof fn lemma_pow256_positive(n: nat)
    ensures
        pow256(n) >= 1,
    decreases n,
{
    if n > 0 {
        lemma_pow256_positive((n - 1) as nat);
    }
}

proof fn lemma_div_bound(x: nat, p: nat)
    requires
        x < 256 * p,
    ensures
        x / 256 < p,
{
    assert(x / 256 < p) by (nonlinear_arith)
        requires
            x < 256 * p,
    ;
}

/// Decoding a little-endian encoding gives the number back.
pub proof fn lemma_le_round_trip(x: nat, n: nat)
    requires
        x < pow256(n),
    ensures
        le_value(le_bytes(x, n)) == x,
    decreases n,
{
    if n == 0 {
    } else {
        let rest = le_bytes(x / 256, (n - 1) as nat);
        lemma_div_bound(x, pow256((n - 1) as nat));
        lemma_le_round_trip(x / 256, (n - 1) as nat);
        let s = le_bytes(x, n);
        assert(s.drop_first() =~= rest);
        assert(s[0] as nat == x % 256);
        assert(x == x % 256 + 256 * (x / 256)) by (nonlinear_arith);
    }
}

pub proof fn lemma_pow256_8()
    ensures
        pow256(8) == 0x1_0000_0000_0000_0000,
        pow256(4) == 0x1_0000_0000,
{
    reveal_with_fuel(pow256, 9);
}

pub proof fn lemma_le_u64_round_trip(x: u64)
    ensures
        le_value(le_u64(x)) == x,
        le_u64(x).len() == 8,
{
    lemma_pow256_8();
    lemma_le_round_trip(x as nat, 8);
    lemma_le_bytes_len(x as nat, 8);
}

pub proof fn lemma_le_u32_round_trip(x: u32)
    ensures
        le_value(le_u32(x)) == x,
        le_u32(x).len() == 4,
{
    lemma_pow256_8();
    lemma_le_round_trip(x as nat, 4);
    lemma_le_bytes_len(x as nat, 4);
}

/// Appends the `n` little-endian bytes of `x`.
pub fn push_le(v: &mut Vec<u8>, x: u64, n: usize)
    requires
        n <= 8,
    ensures
        final(v)@ == old(v)@ + le_bytes(x as nat, n as nat),
{
    let mut y: u64 = x;
    let mut i: usize = 0;
    while i < n
        invariant
            i <= n,
            old(v)@ + le_bytes(x as nat, n as nat) == v@ + le_bytes(y as nat, (n - i) as nat),
        decreases n - i,
    {
        let ghost before = v@;
        let ghost y0 = y;
        let ghost rest = le_bytes((y / 256) as nat, (n - i - 1) as nat);
        assert(le_bytes(y as nat, (n - i) as nat) == seq![(y % 256) as u8] + rest);
        v.push((y % 256) as u8);
        y = y / 256;
        i = i + 1;
        assert(before + (seq![(y0 % 256) as u8] + rest) =~= v@ + rest);
    }
    assert(le_bytes(y as nat, 0) =~= Seq::<u8>::empty());
    assert(v@ + Seq::<u8>::empty() =~= v@);
}

/// Reads a `u64` from eight little-endian bytes.
pub fn le_to_u64(s: &[u8]) -> (r: u64)
    requires
        s@.len() == 8,
    ensures
        r as nat == le_value(s@),
{
    let mut acc: u64 = 0;
    let mut i: usize = 8;
    proof {
        lemma_pow256_8();
        assert(s@.subrange(8, 8) =~= Seq::<u8>::empty());
    }
    while i > 0
        invariant
            i <= 8,
            s@.len() == 8,
            acc as nat == le_value(s@.subrange(i as int, 8)),
            acc < pow256((8 - i) as nat),
            pow256(8) == 0x1_0000_0000_0000_0000,
        decreases i,
    {
        i = i - 1;
        let ghost tail = s@.subrange(i as int, 8);
        assert(tail.drop_first() =~= s@.subrange(i + 1, 8));
        assert(pow256((8 - i) as nat) == 256 * pow256((8 - i - 1) as nat));
        proof {
            lemma_pow256_le((8 - i) as nat, 8);
        }
        assert(acc * 256 + s[i as int] < 256 * pow256((8 - i - 1) as nat)) by (nonlinear_arith)
            requires
                acc < pow256((8 - i - 1) as nat),
                s[i as int] < 256,
        ;
        acc = acc * 256 + s[i] as u64;
    }
    assert(s@.subrange(0, 8) =~= s@);
    acc
}

pub proof fn lemma_pow256_le(a: nat, b: nat)
    requires
        a <= b,
    ensures
        pow256(a) <= pow256(b),
    decreases b,
{
    if a < b {
        lemma_pow256_le(a, (b - 1) as nat);
        lemma_pow256_positive((b - 1) as nat);
    }
}

/// Appends `s` to `v`.
pub fn append_bytes(v: &mut Vec<u8>, s: &[u8])
    ensures
        final(v)@ == old(v)@ + s@,
{
    let mut i: usize = 0;
    while i < s.len()
        invariant
            i <= s@.len(),
            v@ == old(v)@ + s@.subrange(0, i as int),
        decreases s@.len() - i,
    {
        v.push(s[i]);
        i = i + 1;
        assert(v@ =~= old(v)@ + s@.subrange(0, i as int));
    }
    assert(s@.subrange(0, s@.len() as int) =~= s@);
}

/// Copies a slice into a fresh vector.
pub fn to_vec(s: &[u8]) -> (r: Vec<u8>)
    ensures
        r@ == s@,
{
    let mut v: Vec<u8> = Vec::new();
    append_bytes(&mut v, s);
    assert(Seq::<u8>::empty() + s@ =~= s@);
    v
}

/// Whether two byte strings are equal.
pub fn bytes_eq(a: &[u8], b: &[u8]) -> (r: bool)
    ensures
        r == (a@ == b@),
{
    if a.len() != b.len() {
        return false;
    }
    let mut i: usize = 0;
    while i < a.len()
        invariant
            i <= a@.len(),
            a@.len() == b@.len(),
            forall|j: int| 0 <= j < i ==> a@[j] == b@[j],
        decreases a@.len() - i,
    {
        if a[i] != b[i] {
            return false;
        }
        i = i + 1;
    }
    assert(a@ =~= b@);
    true
}

/// Whether two 32-byte identifiers are equal.
pub fn id_eq(a: &[u8; 32], b: &[u8; 32]) -> (r: bool)
    ensures
        r == (a@ == b@),
{
    bytes_eq(a.as_slice(), b.as_slice())
}

/// The identifier whose bytes are `s`.
pub fn to_id(s: &[u8]) -> (r: [u8; 32])
    requires
        s@.len() == 32,
    ensures
        r@ == s@,
{
    let mut a: [u8; 32] = [0u8; 32];
    let mut i: usize = 0;
    while i < 32
        invariant
            i <= 32,
            s@.len() == 32,
            forall|j: int| 0 <= j < i ==> a@[j] == s@[j],
        decreases 32 - i,
    {
        a[i] = s[i];
        i = i + 1;
    }
    assert(a@ =~= s@);
    a
}

/// The all-zero identifier.
pub open spec fn zero_id() -> Seq<u8> {
    Seq::new(32, |i: int| 0u8)
}

pub fn is_zero_id(a: &[u8; 32]) -> (r: bool)
    ensures
        r == (a@ == zero_id()),
{
    let z: [u8; 32] = [0u8; 32];
    assert(z@ =~= zero_id());
    id_eq(a, &z)
}

} // verus!
