//! BLAKE3 hashing.
use vstd::prelude::*;

verus! {

/// The BLAKE3 digest of `data` (32 bytes), as computed by the `blake3` crate.
pub uninterp spec fn blake3(data: Seq<u8>) -> Seq<u8>;

/// Computes the 32-byte BLAKE3 hash of the input data.
///
/// Calls `blake3::hash`; the contract claims only that the result is the
/// digest named `blake3` of the input, a function of the input alone.
#[verifier::external_body]
pub fn blake3_hash(data: &[u8]) -> (r: [u8; 32])
    ensures
        r@ == blake3(data@),
{
    blake3::hash(data).into()
}

} // verus!
