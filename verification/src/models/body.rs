//! Block bodies: the heavyweight, optionally encrypted payload of a block.
use crate::bytes::to_vec;
use crate::codec::{body_fields_view, BodyFields};
use crate::crypto::hashing::{blake3, blake3_hash};
use crate::crypto::primitives::{
    random_nonce, xchacha_decrypt, xchacha_encrypt, xchacha_limit, xchacha_open, xchacha_seal,
};
use crate::error::{ChainsError, ChainsResult};
use vstd::prelude::*;

verus! {

/// The heavyweight payload of a block.
///
/// Bodies contain the actual data (e.g., chat messages, video frames) and
/// can be encrypted using XChaCha20-Poly1305.
#[derive(Debug, PartialEq, Eq)]
pub struct Body {
    /// Links the body to its corresponding Header.
    pub block_id: [u8; 32],
    /// Encryption algorithm used (e.g., "none" or "XChaCha20-Poly1305").
    pub encryption_algo: String,
    /// 24-byte nonce used for XChaCha20.
    pub nonce: [u8; 24],
    /// The actual data, potentially encrypted.
    pub ciphertext: Vec<u8>,
}

/// A body as a mathematical value.
pub struct BodyView {
    pub block_id: Seq<u8>,
    pub encryption_algo: Seq<char>,
    pub nonce: Seq<u8>,
    pub ciphertext: Seq<u8>,
}

impl View for Body {
    type V = BodyView;

    open spec fn view(&self) -> BodyView {
        BodyView {
            block_id: self.block_id@,
            encryption_algo: self.encryption_algo@,
            nonce: self.nonce@,
            ciphertext: self.ciphertext@,
        }
    }
}

/// The algorithm name of a plaintext body.
pub open spec fn algo_none() -> Seq<char> {
    seq!['n', 'o', 'n', 'e']
}

/// The algorithm name of a body encrypted with XChaCha20-Poly1305.
pub open spec fn algo_xchacha() -> Seq<char> {
    seq![
        'X',
        'C',
        'h',
        'a',
        'C',
        'h',
        'a',
        '2',
        '0',
        '-',
        'P',
        'o',
        'l',
        'y',
        '1',
        '3',
        '0',
        '5',
    ]
}

/// What `Body::decrypt` gives for a body and a key.
pub open spec fn body_decrypt_spec(b: BodyView, key: Seq<u8>) -> Result<Seq<u8>, ChainsError> {
    if b.encryption_algo == algo_none() {
        Ok(b.ciphertext)
    } else if b.encryption_algo != algo_xchacha() {
        Err(ChainsError::UnsupportedAlgorithm)
    } else {
        match xchacha_open(key, b.nonce, b.ciphertext) {
            Some(p) => Ok(p),
            None => Err(ChainsError::DecryptionFailed),
        }
    }
}

/// The hash a header must carry for this body.
pub open spec fn body_hash_spec(b: BodyView) -> Seq<u8> {
    blake3(b.ciphertext)
}

fn algo_none_string() -> (r: String)
    ensures
        r@ == algo_none(),
{
    let s = "none";
    proof {
        reveal_strlit("none");
    }
    s.to_owned()
}

fn algo_xchacha_string() -> (r: String)
    ensures
        r@ == algo_xchacha(),
{
    let s = "XChaCha20-Poly1305";
    proof {
        reveal_strlit("XChaCha20-Poly1305");
    }
    s.to_owned()
}

impl Clone for Body {
    fn clone(&self) -> (r: Self)
        ensures
            r@ == self@,
    {
        Body {
            block_id: self.block_id,
            encryption_algo: self.encryption_algo.clone(),
            nonce: self.nonce,
            ciphertext: to_vec(self.ciphertext.as_slice()),
        }
    }
}

impl Body {
    /// The body's fields, in declaration order.
    pub(crate) fn to_fields(&self) -> (r: BodyFields)
        ensures
            body_fields_view(r) == self@,
    {
        (self.block_id, self.encryption_algo.clone(), self.nonce, to_vec(self.ciphertext.as_slice()))
    }

    /// The body with these fields.
    pub(crate) fn from_fields(f: BodyFields) -> (r: Body)
        ensures
            r@ == body_fields_view(f),
    {
        let (block_id, encryption_algo, nonce, ciphertext) = f;
        Body { block_id, encryption_algo, nonce, ciphertext }
    }

    /// Whether the body is stored in the clear.
    pub(crate) fn is_plaintext(&self) -> (r: bool)
        ensures
            r == (self@.encryption_algo == algo_none()),
    {
        self.encryption_algo == algo_none_string()
    }

    /// Creates a new unencrypted Body.
    pub fn new(block_id: [u8; 32], data: Vec<u8>) -> (r: Body)
        ensures
            r.block_id@ == block_id@,
            r.encryption_algo@ == algo_none(),
            r.nonce@ == Seq::new(24, |i: int| 0u8),
            r.ciphertext@ == data@,
    {
        let b = Body { block_id, encryption_algo: algo_none_string(), nonce: [0; 24], ciphertext: data };
        assert(b.nonce@ =~= Seq::new(24, |i: int| 0u8));
        b
    }

    /// Creates a new Body encrypted with XChaCha20-Poly1305 under a fresh
    /// random nonce. Decrypting it with the same key gives `data` back.
    pub fn new_encrypted(block_id: [u8; 32], data: &[u8], key: &[u8; 32]) -> (r: ChainsResult<Body>)
        ensures
            r is Ok <==> data@.len() < xchacha_limit(),
            r is Err ==> r == Err::<Body, ChainsError>(ChainsError::EncryptionFailed),
            r matches Ok(b) ==> {
                &&& b.block_id@ == block_id@
                &&& b.encryption_algo@ == algo_xchacha()
                &&& b.ciphertext@ == xchacha_seal(key@, b.nonce@, data@)
                &&& b.ciphertext@.len() == data@.len() + 16
                &&& body_decrypt_spec(b@, key@) == Ok::<Seq<u8>, ChainsError>(data@)
            },
    {
        let nonce = random_nonce();
        match xchacha_encrypt(key, &nonce, data) {
            Some(ciphertext) => {
                let b = Body { block_id, encryption_algo: algo_xchacha_string(), nonce, ciphertext };
                assert(algo_xchacha() != algo_none()) by {
                    assert(algo_xchacha().len() != algo_none().len());
                }
                Ok(b)
            },
            None => Err(ChainsError::EncryptionFailed),
        }
    }

    /// Decrypts the body using the provided 32-byte key.
    pub fn decrypt(&self, key: &[u8; 32]) -> (r: ChainsResult<Vec<u8>>)
        ensures
            match r {
                Ok(v) => body_decrypt_spec(self@, key@) == Ok::<Seq<u8>, ChainsError>(v@),
                Err(e) => body_decrypt_spec(self@, key@) == Err::<Seq<u8>, ChainsError>(e),
            },
    {
        if self.encryption_algo == algo_none_string() {
            return Ok(to_vec(self.ciphertext.as_slice()));
        }
        if self.encryption_algo != algo_xchacha_string() {
            return Err(ChainsError::UnsupportedAlgorithm);
        }
        match xchacha_decrypt(key, &self.nonce, self.ciphertext.as_slice()) {
            Some(p) => Ok(p),
            None => Err(ChainsError::DecryptionFailed),
        }
    }

    /// Returns the BLAKE3 hash of the ciphertext.
    pub fn body_hash(&self) -> (r: [u8; 32])
        ensures
            r@ == body_hash_spec(self@),
    {
        blake3_hash(self.ciphertext.as_slice())
    }
}

} // verus!
