//! X3DH key agreement and the Double Ratchet for one-to-one messaging.
//!
//! Every message is encrypted under a one-time message key derived (by
//! HMAC-SHA256) from a chain key, which then steps forward. When a message
//! arrives under a new remote ratchet key, both chains are replaced by keys
//! derived from a fresh Diffie-Hellman exchange.
use crate::bytes::{append_bytes, id_eq};
use crate::crypto::hashing::{blake3, blake3_hash};
use crate::crypto::primitives::{
    hmac_sha256, hmac_sha256_spec, random_nonce, x25519_diffie_hellman, x25519_public,
    x25519_public_key, x25519_random_secret, x25519_shared, xchacha_decrypt, xchacha_encrypt,
    xchacha_limit, xchacha_open, xchacha_seal,
};
use crate::codec::RatchetFields;
use crate::error::{ChainsError, ChainsResult};
use vstd::prelude::*;

verus! {

/// HMAC key of the first sending chain when no remote ratchet key is known.
pub open spec fn label_derive() -> Seq<u8> {
    seq![99u8, 104, 97, 105, 110, 115, 45, 114, 97, 116, 99, 104, 101, 116, 45, 100, 101, 114, 105, 118, 101]
}

/// HMAC data that turns a chain key into a message key.
pub open spec fn label_message() -> Seq<u8> {
    seq![99u8, 104, 97, 105, 110, 115, 45, 114, 97, 116, 99, 104, 101, 116, 45, 109, 115, 103]
}

/// HMAC data that steps a chain key forward.
pub open spec fn label_next_chain() -> Seq<u8> {
    seq![99u8, 104, 97, 105, 110, 115, 45, 114, 97, 116, 99, 104, 101, 116, 45, 110, 101, 120, 116]
}

fn derive_label() -> (r: Vec<u8>)
    ensures
        r@ == label_derive(),
{
    let v: Vec<u8> = vec![99u8, 104, 97, 105, 110, 115, 45, 114, 97, 116, 99, 104, 101, 116, 45, 100, 101, 114, 105, 118, 101];
    assert(v@ =~= label_derive());
    v
}

fn message_label() -> (r: Vec<u8>)
    ensures
        r@ == label_message(),
{
    let v: Vec<u8> = vec![99u8, 104, 97, 105, 110, 115, 45, 114, 97, 116, 99, 104, 101, 116, 45, 109, 115, 103];
    assert(v@ =~= label_message());
    v
}

fn next_chain_label() -> (r: Vec<u8>)
    ensures
        r@ == label_next_chain(),
{
    let v: Vec<u8> = vec![99u8, 104, 97, 105, 110, 115, 45, 114, 97, 116, 99, 104, 101, 116, 45, 110, 101, 120, 116];
    assert(v@ =~= label_next_chain());
    v
}

/// The two keys that the HKDF-style derivation gives: with
/// `prk = HMAC(salt, input_key)`, first `HMAC(prk, [1])`, then
/// `HMAC(prk, first ++ [2])`.
pub open spec fn hkdf_spec(input_key: Seq<u8>, salt: Seq<u8>) -> (Seq<u8>, Seq<u8>) {
    let prk = hmac_sha256_spec(salt, input_key);
    let t1 = hmac_sha256_spec(prk, seq![1u8]);
    let t2 = hmac_sha256_spec(prk, t1 + seq![2u8]);
    (t1, t2)
}

/// The one-time key of the message sent or read with chain key `ck`.
pub open spec fn message_key_spec(ck: Seq<u8>) -> Seq<u8> {
    hmac_sha256_spec(ck, label_message())
}

/// The chain key that follows `ck`.
pub open spec fn next_chain_spec(ck: Seq<u8>) -> Seq<u8> {
    hmac_sha256_spec(ck, label_next_chain())
}

/// What reading a message sealed under `nonce` gives with chain key `ck`.
pub open spec fn open_with_chain(ck: Seq<u8>, nonce: Seq<u8>, ct: Seq<u8>) -> Result<
    Seq<u8>,
    ChainsError,
> {
    match xchacha_open(message_key_spec(ck), nonce, ct) {
        Some(p) => Ok(p),
        None => Err(ChainsError::DecryptionFailed),
    }
}

fn hkdf_derive(input_key: &[u8; 32], salt: &[u8]) -> (r: ([u8; 32], [u8; 32]))
    ensures
        (r.0@, r.1@) == hkdf_spec(input_key@, salt@),
{
    let prk = hmac_sha256(salt, input_key.as_slice());
    let one: Vec<u8> = vec![1u8];
    let t1 = hmac_sha256(prk.as_slice(), one.as_slice());
    let mut t2_input: Vec<u8> = Vec::new();
    append_bytes(&mut t2_input, t1.as_slice());
    t2_input.push(2u8);
    assert(one@ =~= seq![1u8]);
    assert(t2_input@ =~= t1@ + seq![2u8]);
    let t2 = hmac_sha256(prk.as_slice(), t2_input.as_slice());
    (t1, t2)
}

/// The secret the X3DH initiator derives.
pub open spec fn x3dh_initiator_spec(
    our_identity: Seq<u8>,
    our_ephemeral: Seq<u8>,
    their_identity: Seq<u8>,
    their_signed_prekey: Seq<u8>,
) -> Seq<u8> {
    blake3(
        x25519_shared(our_identity, their_signed_prekey) + x25519_shared(our_ephemeral, their_identity)
            + x25519_shared(our_ephemeral, their_signed_prekey),
    )
}

/// The secret the X3DH responder derives.
pub open spec fn x3dh_responder_spec(
    our_identity: Seq<u8>,
    our_signed_prekey: Seq<u8>,
    their_identity: Seq<u8>,
    their_ephemeral: Seq<u8>,
) -> Seq<u8> {
    blake3(
        x25519_shared(our_signed_prekey, their_identity) + x25519_shared(our_identity, their_ephemeral)
            + x25519_shared(our_signed_prekey, their_ephemeral),
    )
}

/// The X3DH secrets are BLAKE3 over three Diffie-Hellman values, in this
/// order: for the initiator, its identity with the responder's signed
/// prekey, then its ephemeral key with the responder's identity and with the
/// signed prekey; for the responder, the mirror of each. (That the two
/// sides agree is stated by `x3dh_receive`, from the Diffie-Hellman calls.)
pub proof fn lemma_x3dh_secrets(
    initiator_identity: Seq<u8>,
    initiator_ephemeral: Seq<u8>,
    responder_identity: Seq<u8>,
    responder_prekey: Seq<u8>,
)
    requires
        initiator_identity.len() == 32,
        initiator_ephemeral.len() == 32,
        responder_identity.len() == 32,
        responder_prekey.len() == 32,
    ensures
        x3dh_initiator_spec(
            initiator_identity,
            initiator_ephemeral,
            x25519_public(responder_identity),
            x25519_public(responder_prekey),
        ) == blake3(
            x25519_shared(initiator_identity, x25519_public(responder_prekey)) + x25519_shared(
                initiator_ephemeral,
                x25519_public(responder_identity),
            ) + x25519_shared(initiator_ephemeral, x25519_public(responder_prekey)),
        ),
        x3dh_responder_spec(
            responder_identity,
            responder_prekey,
            x25519_public(initiator_identity),
            x25519_public(initiator_ephemeral),
        ) == blake3(
            x25519_shared(responder_prekey, x25519_public(initiator_identity)) + x25519_shared(
                responder_identity,
                x25519_public(initiator_ephemeral),
            ) + x25519_shared(responder_prekey, x25519_public(initiator_ephemeral)),
        ),
{
}

fn hash_three(a: &[u8; 32], b: &[u8; 32], c: &[u8; 32]) -> (r: [u8; 32])
    ensures
        r@ == blake3(a@ + b@ + c@),
{
    let mut input: Vec<u8> = Vec::new();
    append_bytes(&mut input, a.as_slice());
    append_bytes(&mut input, b.as_slice());
    append_bytes(&mut input, c.as_slice());
    assert(input@ =~= a@ + b@ + c@);
    blake3_hash(input.as_slice())
}

/// X3DH as the initiator: three Diffie-Hellman values (identity with
/// signed prekey, ephemeral with identity, ephemeral with signed prekey),
/// hashed together with BLAKE3. Secrets and public keys are X25519 bytes.
pub fn x3dh_shared_secret(
    our_identity: &[u8; 32],
    our_ephemeral: &[u8; 32],
    their_identity: &[u8; 32],
    their_signed_prekey: &[u8; 32],
) -> (r: [u8; 32])
    ensures
        r@ == x3dh_initiator_spec(our_identity@, our_ephemeral@, their_identity@, their_signed_prekey@),
        r@ == blake3(
            x25519_shared(our_identity@, their_signed_prekey@) + x25519_shared(our_ephemeral@, their_identity@)
                + x25519_shared(our_ephemeral@, their_signed_prekey@),
        ),
{
    let dh1 = x25519_diffie_hellman(our_identity, their_signed_prekey);
    let dh2 = x25519_diffie_hellman(our_ephemeral, their_identity);
    let dh3 = x25519_diffie_hellman(our_ephemeral, their_signed_prekey);
    hash_three(&dh1, &dh2, &dh3)
}

/// X3DH as the responder, pairing each Diffie-Hellman value with the
/// initiator's: the responder derives the secret that the initiator, holding
/// the secrets behind `their_identity` and `their_ephemeral`, derives from
/// the responder's two public keys.
pub fn x3dh_receive(
    our_identity: &[u8; 32],
    our_signed_prekey: &[u8; 32],
    their_identity: &[u8; 32],
    their_ephemeral: &[u8; 32],
) -> (r: [u8; 32])
    ensures
        r@ == x3dh_responder_spec(our_identity@, our_signed_prekey@, their_identity@, their_ephemeral@),
        r@ == blake3(
            x25519_shared(our_signed_prekey@, their_identity@) + x25519_shared(our_identity@, their_ephemeral@)
                + x25519_shared(our_signed_prekey@, their_ephemeral@),
        ),
        forall|identity: Seq<u8>, ephemeral: Seq<u8>|
            identity.len() == 32 && ephemeral.len() == 32 && #[trigger] x25519_public(identity)
                == their_identity@ && #[trigger] x25519_public(ephemeral) == their_ephemeral@
                ==> r@ == x3dh_initiator_spec(
                identity,
                ephemeral,
                x25519_public(our_identity@),
                x25519_public(our_signed_prekey@),
            ),
{
    let dh1 = x25519_diffie_hellman(our_signed_prekey, their_identity);
    let dh2 = x25519_diffie_hellman(our_identity, their_ephemeral);
    let dh3 = x25519_diffie_hellman(our_signed_prekey, their_ephemeral);
    hash_three(&dh1, &dh2, &dh3)
}

/// An encrypted ratchet message.
#[derive(Clone, Debug)]
pub struct CipherMessage {
    pub dh_public_key: [u8; 32],
    pub message_number: u32,
    pub previous_message_number: u32,
    pub nonce: [u8; 24],
    pub ciphertext: Vec<u8>,
}

/// One party's side of a Double Ratchet session.
#[derive(Clone)]
pub struct RatchetState {
    pub root_key: [u8; 32],
    pub send_chain_key: Option<[u8; 32]>,
    pub recv_chain_key: Option<[u8; 32]>,
    pub dh_private: [u8; 32],
    pub dh_public: [u8; 32],
    pub dh_remote: Option<[u8; 32]>,
    pub dh_remote_prev: Option<[u8; 32]>,
    pub message_count_send: u32,
    pub message_count_recv: u32,
    pub skipped_message_keys: Vec<(u32, [u8; 32])>,
}

/// An optional key as an optional byte string.
pub open spec fn opt_bytes(o: Option<[u8; 32]>) -> Option<Seq<u8>> {
    match o {
        Some(x) => Some(x@),
        None => None,
    }
}

/// The root and sending chain keys `encrypt_message` works with: the
/// current sending chain if there is one, else a fresh one derived from the
/// root key and either the Diffie-Hellman value with the remote ratchet key
/// or the fixed derivation label.
pub open spec fn send_keys_spec(s: RatchetState) -> (Seq<u8>, Seq<u8>) {
    match s.send_chain_key {
        Some(ck) => (s.root_key@, ck@),
        None => match s.dh_remote {
            Some(remote) => hkdf_spec(s.root_key@, x25519_shared(s.dh_private@, remote@)),
            None => hkdf_spec(s.root_key@, label_derive()),
        },
    }
}

/// Whether a message under remote ratchet key `pk` starts a new ratchet step.
pub open spec fn needs_dh_ratchet(s: RatchetState, pk: Seq<u8>) -> bool {
    opt_bytes(s.dh_remote) != Some(pk)
}

/// The root and receiving chain keys after a Diffie-Hellman ratchet step
/// for remote key `pk`.
pub open spec fn ratchet_keys_spec(s: RatchetState, pk: Seq<u8>) -> (Seq<u8>, Seq<u8>) {
    hkdf_spec(s.root_key@, x25519_shared(s.dh_private@, pk))
}

/// The receiving chain key `decrypt_message` reads with, if any.
pub open spec fn recv_chain_spec(s: RatchetState, pk: Seq<u8>) -> Option<Seq<u8>> {
    if needs_dh_ratchet(s, pk) {
        Some(ratchet_keys_spec(s, pk).1)
    } else {
        opt_bytes(s.recv_chain_key)
    }
}

/// The skipped-key list after dropping the entry for message `n`: the first
/// such entry is replaced by the last entry, which is then removed.
pub open spec fn skipped_after(s: Seq<(u32, [u8; 32])>, n: u32) -> Seq<(u32, [u8; 32])> {
    if exists|i: int| 0 <= i < s.len() && (#[trigger] s[i]).0 == n {
        let i = choose|i: int|
            0 <= i < s.len() && (#[trigger] s[i]).0 == n && forall|j: int|
                0 <= j < i ==> (#[trigger] s[j]).0 != n;
        s.update(i, s.last()).drop_last()
    } else {
        s
    }
}

/// What `encrypt_message` does to session `s`, leaving `t`, for `plaintext`
/// with result `r`: it takes the root and sending chain keys of
/// `send_keys_spec`, seals the plaintext under the chain's message key,
/// labels the message with its own ratchet key and counters, and steps the
/// sending chain; nothing else changes.
pub open spec fn encrypted(s: RatchetState, t: RatchetState, plaintext: Seq<u8>, r: ChainsResult<CipherMessage>) -> bool {
    let (root, ck) = send_keys_spec(s);
    &&& t.root_key@ == root
    &&& opt_bytes(t.send_chain_key) == Some(next_chain_spec(ck))
    &&& match r {
        Ok(msg) => {
            &&& msg.dh_public_key@ == s.dh_public@
            &&& msg.message_number == s.message_count_send
            &&& msg.previous_message_number == s.message_count_recv
            &&& msg.ciphertext@ == xchacha_seal(message_key_spec(ck), msg.nonce@, plaintext)
            &&& msg.ciphertext@.len() == plaintext.len() + 16
            &&& xchacha_open(message_key_spec(ck), msg.nonce@, msg.ciphertext@) == Some(plaintext)
            &&& t.message_count_send == s.message_count_send + 1
        },
        Err(e) => {
            &&& e == ChainsError::EncryptionFailed
            &&& t.message_count_send == s.message_count_send
        },
    }
    &&& (r is Ok <==> plaintext.len() < xchacha_limit())
    &&& opt_bytes(t.recv_chain_key) == opt_bytes(s.recv_chain_key)
    &&& t.dh_private == s.dh_private
    &&& t.dh_public == s.dh_public
    &&& t.dh_remote == s.dh_remote
    &&& t.dh_remote_prev == s.dh_remote_prev
    &&& t.message_count_recv == s.message_count_recv
    &&& t.skipped_message_keys@ == s.skipped_message_keys@
}

/// What `decrypt_message` does to session `s`, leaving `t`, for message
/// `msg` with result `r`: it drops a skipped key kept for the message's
/// number, steps the Diffie-Hellman ratchet when the message carries a new
/// remote key, and opens the message with the next message key of the
/// receiving chain, which it steps.
pub open spec fn decrypted(s: RatchetState, t: RatchetState, msg: CipherMessage, r: ChainsResult<Vec<u8>>) -> bool {
    &&& t.skipped_message_keys@ == skipped_after(s.skipped_message_keys@, msg.message_number)
    &&& t.message_count_send == s.message_count_send
    &&& t.message_count_recv == s.message_count_recv
    &&& needs_dh_ratchet(s, msg.dh_public_key@) ==> {
        &&& opt_bytes(t.dh_remote) == Some(msg.dh_public_key@)
        &&& opt_bytes(t.dh_remote_prev) == opt_bytes(s.dh_remote)
        &&& t.root_key@ == ratchet_keys_spec(s, msg.dh_public_key@).0
        &&& t.dh_public@ == x25519_public(t.dh_private@)
        &&& t.send_chain_key is None
        &&& forall|secret: Seq<u8>|
            secret.len() == 32 && #[trigger] x25519_public(secret) == msg.dh_public_key@
                ==> ratchet_keys_spec(s, msg.dh_public_key@) == hkdf_spec(
                s.root_key@,
                x25519_shared(secret, x25519_public(s.dh_private@)),
            )
    }
    &&& !needs_dh_ratchet(s, msg.dh_public_key@) ==> {
        &&& t.dh_remote == s.dh_remote
        &&& t.dh_remote_prev == s.dh_remote_prev
        &&& t.root_key == s.root_key
        &&& t.dh_private == s.dh_private
        &&& t.dh_public == s.dh_public
        &&& t.send_chain_key == s.send_chain_key
    }
    &&& match recv_chain_spec(s, msg.dh_public_key@) {
        None => r == Err::<Vec<u8>, ChainsError>(ChainsError::NoReceivingChainKey) && t.recv_chain_key is None,
        Some(ck) => opt_bytes(t.recv_chain_key) == Some(next_chain_spec(ck)) && match r {
            Ok(p) => open_with_chain(ck, msg.nonce@, msg.ciphertext@) == Ok::<Seq<u8>, ChainsError>(p@),
            Err(e) => open_with_chain(ck, msg.nonce@, msg.ciphertext@) == Err::<Seq<u8>, ChainsError>(e),
        },
    }
}

/// Whether the next message that `s` sends reaches `r`. Either `s` has a
/// sending chain that `r` holds as its receiving chain, knowing `s`'s
/// ratchet key; or `s` will start a chain from the root key they share and
/// the Diffie-Hellman value with `r`'s ratchet key, and `r`, not knowing
/// `s`'s ratchet key yet, will step its ratchet to that same chain. Each
/// party's public ratchet key is the one of its secret.
pub open spec fn in_step(s: RatchetState, r: RatchetState) -> bool {
    &&& s.dh_public@ == x25519_public(s.dh_private@)
    &&& r.dh_public@ == x25519_public(r.dh_private@)
    &&& match s.send_chain_key {
        None => {
            &&& opt_bytes(s.dh_remote) == Some(r.dh_public@)
            &&& s.root_key@ == r.root_key@
            &&& needs_dh_ratchet(r, s.dh_public@)
        },
        Some(ck) => {
            &&& opt_bytes(r.dh_remote) == Some(s.dh_public@)
            &&& opt_bytes(r.recv_chain_key) == Some(ck@)
        },
    }
}

/// One turn of a conversation. When `s` and `r` are in step, the message
/// that `s` encrypts is decrypted by `r` to the plaintext, and afterwards
/// they are still in step for `s`'s next message. If `s` started a new
/// chain for this message, `r` is then in step to answer, unless the fresh
/// ratchet key that `r` drew is the one `s` still holds for it; if `s` went
/// on with its chain, `r` is in step to answer if it was before. So a
/// conversation that starts in step delivers every message, whoever speaks.
pub proof fn lemma_conversation_turn(
    s: RatchetState,
    s2: RatchetState,
    r: RatchetState,
    r2: RatchetState,
    plaintext: Seq<u8>,
    msg: CipherMessage,
    received: ChainsResult<Vec<u8>>,
)
    requires
        in_step(s, r),
        encrypted(s, s2, plaintext, Ok(msg)),
        decrypted(r, r2, msg, received),
    ensures
        received matches Ok(p) && p@ == plaintext,
        in_step(s2, r2),
        s.send_chain_key is None && opt_bytes(s2.dh_remote) != Some(r2.dh_public@) ==> in_step(r2, s2),
        s.send_chain_key is Some && in_step(r, s) ==> in_step(r2, s2),
{
    let pk = msg.dh_public_key@;
    let ck = send_keys_spec(s).1;
    if s.send_chain_key is None {
        assert(needs_dh_ratchet(r, pk));
        assert(s.dh_private@.len() == 32);
        assert(x25519_public(s.dh_private@) == pk);
        assert(ratchet_keys_spec(r, pk) == send_keys_spec(s));
        assert(recv_chain_spec(r, pk) == Some(ck));
    } else {
        assert(!needs_dh_ratchet(r, pk));
        assert(recv_chain_spec(r, pk) == Some(ck));
    }
    lemma_same_chain_delivers(ck, ck, msg.nonce@, msg.ciphertext@, plaintext);
}

/// A message sealed under the sender's chain key is read back by a
/// receiver holding the same chain key.
pub proof fn lemma_same_chain_delivers(
    sender_chain: Seq<u8>,
    receiver_chain: Seq<u8>,
    nonce: Seq<u8>,
    ct: Seq<u8>,
    pt: Seq<u8>,
)
    requires
        sender_chain == receiver_chain,
        xchacha_open(message_key_spec(sender_chain), nonce, ct) == Some(pt),
    ensures
        open_with_chain(receiver_chain, nonce, ct) == Ok::<Seq<u8>, ChainsError>(pt),
{
}

/// A session that has no sending chain and knows the addressee's ratchet
/// key starts a chain from the Diffie-Hellman value of its own secret and
/// that key; this is the chain that `decrypt_message`, stepping the
/// addressee's ratchet for the sender's public key, agrees on. A message
/// sealed there is read back with it.
pub proof fn lemma_ratchet_step_delivers(
    sender: RatchetState,
    receiver: RatchetState,
    nonce: Seq<u8>,
    ct: Seq<u8>,
    pt: Seq<u8>,
)
    requires
        sender.send_chain_key is None,
        opt_bytes(sender.dh_remote) == Some(x25519_public(receiver.dh_private@)),
        sender.root_key@ == receiver.root_key@,
        xchacha_open(message_key_spec(send_keys_spec(sender).1), nonce, ct) == Some(pt),
    ensures
        hkdf_spec(
            receiver.root_key@,
            x25519_shared(sender.dh_private@, x25519_public(receiver.dh_private@)),
        ).1 == send_keys_spec(sender).1,
        open_with_chain(
            hkdf_spec(
                receiver.root_key@,
                x25519_shared(sender.dh_private@, x25519_public(receiver.dh_private@)),
            ).1,
            nonce,
            ct,
        ) == Ok::<Seq<u8>, ChainsError>(pt),
{
}

/// Copies a list of skipped message keys.
fn copy_skipped(s: &Vec<(u32, [u8; 32])>) -> (r: Vec<(u32, [u8; 32])>)
    ensures
        r@ == s@,
{
    let mut r: Vec<(u32, [u8; 32])> = Vec::new();
    let mut i: usize = 0;
    while i < s.len()
        invariant
            i <= s@.len(),
            r@ == s@.take(i as int),
        decreases s@.len() - i,
    {
        r.push(s[i]);
        i = i + 1;
        assert(r@ =~= s@.take(i as int));
    }
    assert(s@.take(s@.len() as int) =~= s@);
    r
}

impl RatchetState {
    /// The session's fields, in declaration order.
    pub(crate) fn to_fields(&self) -> (r: RatchetFields)
        ensures
            r == (
                self.root_key,
                self.send_chain_key,
                self.recv_chain_key,
                self.dh_private,
                self.dh_public,
                self.dh_remote,
                self.dh_remote_prev,
                self.message_count_send,
                self.message_count_recv,
                r.9,
            ),
            r.9@ == self.skipped_message_keys@,
    {
        (
            self.root_key,
            self.send_chain_key,
            self.recv_chain_key,
            self.dh_private,
            self.dh_public,
            self.dh_remote,
            self.dh_remote_prev,
            self.message_count_send,
            self.message_count_recv,
            copy_skipped(&self.skipped_message_keys),
        )
    }

    /// The session with these fields.
    pub(crate) fn from_fields(f: RatchetFields) -> (r: RatchetState)
        ensures
            r.to_fields_spec() == f,
    {
        let (
            root_key,
            send_chain_key,
            recv_chain_key,
            dh_private,
            dh_public,
            dh_remote,
            dh_remote_prev,
            message_count_send,
            message_count_recv,
            skipped_message_keys,
        ) = f;
        RatchetState {
            root_key,
            send_chain_key,
            recv_chain_key,
            dh_private,
            dh_public,
            dh_remote,
            dh_remote_prev,
            message_count_send,
            message_count_recv,
            skipped_message_keys,
        }
    }

    /// The session's fields as a tuple.
    pub open spec fn to_fields_spec(&self) -> RatchetFields {
        (
            self.root_key,
            self.send_chain_key,
            self.recv_chain_key,
            self.dh_private,
            self.dh_public,
            self.dh_remote,
            self.dh_remote_prev,
            self.message_count_send,
            self.message_count_recv,
            self.skipped_message_keys,
        )
    }

    /// A session for the party that will send first, knowing no remote key.
    pub fn new_sender(root_key: [u8; 32], dh_private: [u8; 32], dh_public: [u8; 32]) -> (r: Self)
        ensures
            r.root_key@ == root_key@,
            r.send_chain_key is None,
            r.recv_chain_key is None,
            r.dh_private@ == dh_private@,
            r.dh_public@ == dh_public@,
            r.dh_remote is None,
            r.dh_remote_prev is None,
            r.message_count_send == 0,
            r.message_count_recv == 0,
            r.skipped_message_keys@.len() == 0,
    {
        RatchetState {
            root_key,
            send_chain_key: None,
            recv_chain_key: None,
            dh_private,
            dh_public,
            dh_remote: None,
            dh_remote_prev: None,
            message_count_send: 0,
            message_count_recv: 0,
            skipped_message_keys: Vec::new(),
        }
    }

    /// A session for the party that knows the other's ratchet key.
    pub fn new_receiver(
        root_key: [u8; 32],
        dh_private: [u8; 32],
        dh_public: [u8; 32],
        dh_remote: [u8; 32],
    ) -> (r: Self)
        ensures
            r.root_key@ == root_key@,
            r.send_chain_key is None,
            r.recv_chain_key is None,
            r.dh_private@ == dh_private@,
            r.dh_public@ == dh_public@,
            opt_bytes(r.dh_remote) == Some(dh_remote@),
            r.dh_remote_prev is None,
            r.message_count_send == 0,
            r.message_count_recv == 0,
            r.skipped_message_keys@.len() == 0,
    {
        RatchetState {
            root_key,
            send_chain_key: None,
            recv_chain_key: None,
            dh_private,
            dh_public,
            dh_remote: Some(dh_remote),
            dh_remote_prev: None,
            message_count_send: 0,
            message_count_recv: 0,
            skipped_message_keys: Vec::new(),
        }
    }

    /// Encrypts `plaintext` under the next message key of the sending chain
    /// (deriving the chain first if there is none) and steps the chain.
    pub fn encrypt_message(&mut self, plaintext: &[u8]) -> (r: ChainsResult<CipherMessage>)
        requires
            old(self).message_count_send < u32::MAX,
        ensures
            encrypted(*old(self), *final(self), plaintext@, r),
    {
        let dh_public_bytes = self.dh_public;
        let chain_key: [u8; 32] = match self.send_chain_key {
            Some(k) => k,
            None => match self.dh_remote {
                Some(remote_bytes) => {
                    let shared = x25519_diffie_hellman(&self.dh_private, &remote_bytes);
                    let (new_root, new_chain) = hkdf_derive(&self.root_key, shared.as_slice());
                    self.root_key = new_root;
                    self.send_chain_key = Some(new_chain);
                    new_chain
                },
                None => {
                    let label = derive_label();
                    let (new_root, new_chain) = hkdf_derive(&self.root_key, label.as_slice());
                    self.root_key = new_root;
                    self.send_chain_key = Some(new_chain);
                    new_chain
                },
            },
        };
        let msg_label = message_label();
        let next_label = next_chain_label();
        let msg_key = hmac_sha256(chain_key.as_slice(), msg_label.as_slice());
        let next_chain_key = hmac_sha256(chain_key.as_slice(), next_label.as_slice());
        self.send_chain_key = Some(next_chain_key);
        let nonce = random_nonce();
        let ciphertext = match xchacha_encrypt(&msg_key, &nonce, plaintext) {
            Some(c) => c,
            None => {
                return Err(ChainsError::EncryptionFailed);
            },
        };
        let msg = CipherMessage {
            dh_public_key: dh_public_bytes,
            message_number: self.message_count_send,
            previous_message_number: self.message_count_recv,
            nonce,
            ciphertext,
        };
        self.message_count_send = self.message_count_send + 1;
        Ok(msg)
    }

    /// Decrypts a message: drops any skipped key kept for its number, steps
    /// the Diffie-Hellman ratchet when the message carries a new remote key
    /// (which replaces both chains and draws a fresh own key pair), then
    /// reads it with the next message key of the receiving chain.
    ///
    /// After a ratchet step the receiving chain is the one the sender
    /// derived: from the same root key and the Diffie-Hellman value of the
    /// sender's secret with this session's public key, as `encrypt_message`
    /// derives a new sending chain.
    pub fn decrypt_message(&mut self, msg: &CipherMessage) -> (r: ChainsResult<Vec<u8>>)
        ensures
            decrypted(*old(self), *final(self), *msg, r),
    {
        match self.try_skipped_message_keys(msg) {
            Ok(_) => {},
            Err(e) => {
                return Err(e);
            },
        }
        let needs_ratchet = match self.dh_remote {
            Some(remote) => !id_eq(&remote, &msg.dh_public_key),
            None => true,
        };
        if needs_ratchet {
            let prev = self.dh_remote;
            self.dh_remote = Some(msg.dh_public_key);
            self.dh_remote_prev = prev;
            match prev {
                Some(p) => {
                    if id_eq(&p, &msg.dh_public_key) {
                        self.dh_remote_prev = None;
                    }
                },
                None => {},
            }
            let shared = x25519_diffie_hellman(&self.dh_private, &msg.dh_public_key);
            let (new_root, new_recv_chain) = hkdf_derive(&self.root_key, shared.as_slice());
            self.root_key = new_root;
            self.recv_chain_key = Some(new_recv_chain);
            let new_sk = x25519_random_secret();
            let new_pk = x25519_public_key(&new_sk);
            self.dh_private = new_sk;
            self.dh_public = new_pk;
            self.send_chain_key = None;
        }
        let chain_key = match self.recv_chain_key {
            Some(k) => k,
            None => {
                return Err(ChainsError::NoReceivingChainKey);
            },
        };
        let msg_label = message_label();
        let next_label = next_chain_label();
        let msg_key = hmac_sha256(chain_key.as_slice(), msg_label.as_slice());
        let next_chain_key = hmac_sha256(chain_key.as_slice(), next_label.as_slice());
        self.recv_chain_key = Some(next_chain_key);
        match xchacha_decrypt(&msg_key, &msg.nonce, msg.ciphertext.as_slice()) {
            Some(p) => Ok(p),
            None => Err(ChainsError::DecryptionFailed),
        }
    }

    /// Drops the skipped message key kept for this message's number, if any.
    fn try_skipped_message_keys(&mut self, msg: &CipherMessage) -> (r: ChainsResult<()>)
        ensures
            r is Ok,
            final(self).skipped_message_keys@ == skipped_after(
                old(self).skipped_message_keys@,
                msg.message_number,
            ),
            final(self).root_key == old(self).root_key,
            final(self).send_chain_key == old(self).send_chain_key,
            final(self).recv_chain_key == old(self).recv_chain_key,
            final(self).dh_private == old(self).dh_private,
            final(self).dh_public == old(self).dh_public,
            final(self).dh_remote == old(self).dh_remote,
            final(self).dh_remote_prev == old(self).dh_remote_prev,
            final(self).message_count_send == old(self).message_count_send,
            final(self).message_count_recv == old(self).message_count_recv,
    {
        let ghost s = self.skipped_message_keys@;
        let mut i: usize = 0;
        while i < self.skipped_message_keys.len() && self.skipped_message_keys[i].0
            != msg.message_number
            invariant
                i <= self.skipped_message_keys@.len(),
                self.skipped_message_keys@ == s,
                forall|j: int| 0 <= j < i ==> (#[trigger] s[j]).0 != msg.message_number,
            decreases self.skipped_message_keys@.len() - i,
        {
            i = i + 1;
        }
        if i < self.skipped_message_keys.len() {
            let _ = self.skipped_message_keys.swap_remove(i);
            proof {
                let w = choose|k: int|
                    0 <= k < s.len() && (#[trigger] s[k]).0 == msg.message_number && forall|j: int|
                        0 <= j < k ==> (#[trigger] s[j]).0 != msg.message_number;
                assert(0 <= i < s.len() && s[i as int].0 == msg.message_number && forall|j: int|
                    0 <= j < i ==> (#[trigger] s[j]).0 != msg.message_number);
                if w < i {
                    assert(s[w].0 != msg.message_number);
                } else if w > i {
                    assert(s[i as int].0 != msg.message_number);
                }
            }
        }
        Ok(())
    }
}

/// Draws a fresh X25519 key pair: the secret, then its public key.
pub fn generate_dh_keypair() -> (r: ([u8; 32], [u8; 32]))
    ensures
        r.1@ == x25519_public(r.0@),
{
    let secret = x25519_random_secret();
    let public = x25519_public_key(&secret);
    (secret, public)
}

/// Draws a signed prekey pair (an X25519 key pair).
pub fn generate_signed_prekey() -> (r: ([u8; 32], [u8; 32]))
    ensures
        r.1@ == x25519_public(r.0@),
{
    generate_dh_keypair()
}

} // verus!
