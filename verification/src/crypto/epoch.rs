//! Rotational epoch keys for one-to-many streams.
//!
//! The broadcaster encrypts the stream under the key of the current epoch
//! and hands that key to each subscriber wrapped under the subscriber's own
//! key. Rotating starts a new epoch with a fresh key, which locks out anyone
//! who only holds the old one.
use crate::bytes::{append_bytes, id_eq, zero_id, le_to_u64, le_u64, le_value, lemma_le_u64_round_trip, push_le, to_id};
use crate::crypto::primitives::{
    random_bytes32, random_nonce, unix_time_secs, xchacha_decrypt, xchacha_encrypt, xchacha_open,
};
use crate::error::{ChainsError, ChainsResult};
use vstd::prelude::*;

verus! {

/// The key of one epoch.
#[derive(Clone, Copy, Debug)]
pub struct EpochKey {
    pub epoch: u64,
    pub key: [u8; 32],
    pub created_at: u64,
}

/// Holds the keys of all epochs so far and the list of banned users.
#[derive(Debug)]
pub struct EpochManager {
    current_epoch: u64,
    keys: Vec<EpochKey>,
    banned: Vec<[u8; 32]>,
}

/// What `decrypt_epoch_key` gives for a wrapped key: the first eight bytes
/// are the epoch (little-endian), the next 24 the nonce, the rest the
/// ciphertext of the epoch key.
pub open spec fn unwrap_epoch_key_spec(my_key: Seq<u8>, data: Seq<u8>) -> Result<
    (Seq<u8>, u64),
    ChainsError,
> {
    if data.len() < 32 {
        Err(ChainsError::InvalidEpochKeyData)
    } else {
        match xchacha_open(my_key, data.subrange(8, 32), data.skip(32)) {
            Some(p) => Ok((p, le_value(data.take(8)) as u64)),
            None => Err(ChainsError::DecryptionFailed),
        }
    }
}

/// Whether a wrapped key, if it decrypts, decrypts to exactly 32 bytes.
pub open spec fn unwraps_to_key_size(my_key: Seq<u8>, data: Seq<u8>) -> bool {
    unwrap_epoch_key_spec(my_key, data) matches Ok((p, _)) ==> p.len() == 32
}

fn generate_epoch_key() -> (r: [u8; 32]) {
    random_bytes32()
}

/// Seconds since the Unix epoch, or 0 when the clock reads an earlier time.
fn current_time() -> (r: u64) {
    match unix_time_secs() {
        Some(t) => t,
        None => 0,
    }
}

impl EpochManager {
    #[verifier::type_invariant]
    spec fn well_formed(&self) -> bool {
        &&& self.keys@.len() >= 1
        &&& self.current_epoch == self.keys@.len()
        &&& forall|i: int| 0 <= i < self.keys@.len() ==> (#[trigger] self.keys@[i]).epoch == i + 1
        &&& forall|i: int, j: int|
            0 <= i < j < self.banned@.len() ==> (#[trigger] self.banned@[i])@ != (#[trigger] self.banned@[j])@
    }

    /// The current epoch number.
    pub closed spec fn epoch_spec(&self) -> u64 {
        self.current_epoch
    }

    /// The keys of all epochs so far, the current one last.
    pub closed spec fn keys_spec(&self) -> Seq<EpochKey> {
        self.keys@
    }

    /// The banned users, in the order they were banned.
    pub closed spec fn banned_spec(&self) -> Seq<Seq<u8>> {
        self.banned@.map_values(|b: [u8; 32]| b@)
    }

    /// The manager's invariant, as callers can rely on it.
    pub open spec fn invariant_holds(&self) -> bool {
        &&& self.keys_spec().len() >= 1
        &&& self.epoch_spec() == self.keys_spec().len()
        &&& forall|i: int|
            0 <= i < self.keys_spec().len() ==> (#[trigger] self.keys_spec()[i]).epoch == i + 1
        &&& self.banned_spec().no_duplicates()
    }

    /// A well-formed manager to stand in while another one is rebuilt: at
    /// epoch 1 with the all-zero key, created at time 0, and nobody banned.
    fn placeholder() -> (r: EpochManager)
        ensures
            r.epoch_spec() == 1,
            r.keys_spec().len() == 1,
            r.keys_spec()[0].epoch == 1,
            r.keys_spec()[0].key@ == zero_id(),
            r.keys_spec()[0].created_at == 0,
            r.banned_spec().len() == 0,
    {
        let mut keys: Vec<EpochKey> = Vec::new();
        let zero: [u8; 32] = [0u8; 32];
        assert(zero@ =~= zero_id());
        keys.push(EpochKey { epoch: 1, key: zero, created_at: 0 });
        EpochManager { current_epoch: 1, keys, banned: Vec::new() }
    }

    /// Establishes, for any manager, that its invariant holds: every
    /// manager keeps one key per epoch from 1 to the current one, and a
    /// banned list without repeats. It does nothing at run time.
    pub fn show_invariant(&self)
        ensures
            self.invariant_holds(),
    {
        proof {
            use_type_invariant(self);
            let b = self.banned_spec();
            assert forall|i: int, j: int| 0 <= i < b.len() && 0 <= j < b.len() && i != j implies b[i]
                != b[j] by {
                if i < j {
                    assert(self.banned@[i]@ != self.banned@[j]@);
                } else {
                    assert(self.banned@[j]@ != self.banned@[i]@);
                }
            }
        }
    }

    /// A manager at epoch 1 with a fresh random key and nobody banned.
    pub fn new() -> (r: EpochManager)
        ensures
            r.epoch_spec() == 1,
            r.keys_spec().len() == 1,
            r.keys_spec()[0].epoch == 1,
            r.banned_spec().len() == 0,
            r.invariant_holds(),
    {
        let key = generate_epoch_key();
        let mut keys: Vec<EpochKey> = Vec::new();
        keys.push(EpochKey { epoch: 1, key, created_at: current_time() });
        let r = EpochManager { current_epoch: 1, keys, banned: Vec::new() };
        assert(r.banned_spec() =~= Seq::<Seq<u8>>::empty());
        r.show_invariant();
        r
    }

    /// The key of the current epoch.
    pub fn current_key(&self) -> (r: &[u8; 32])
        ensures
            r@ == self.keys_spec().last().key@,
    {
        proof {
            use_type_invariant(self);
        }
        &self.keys[self.keys.len() - 1].key
    }

    /// The current epoch number.
    pub fn current_epoch(&self) -> (r: u64)
        ensures
            r == self.epoch_spec(),
    {
        self.current_epoch
    }

    /// Starts the next epoch with a fresh random key and returns that key,
    /// which becomes the current key.
    pub fn rotate(&mut self) -> (r: [u8; 32])
        requires
            old(self).epoch_spec() < u64::MAX,
        ensures
            final(self).epoch_spec() == old(self).epoch_spec() + 1,
            final(self).keys_spec().len() == old(self).keys_spec().len() + 1,
            final(self).keys_spec().drop_last() == old(self).keys_spec(),
            final(self).keys_spec().last().epoch == final(self).epoch_spec(),
            final(self).keys_spec().last().key@ == r@,
            final(self).banned_spec() == old(self).banned_spec(),
            final(self).invariant_holds(),
    {
        proof {
            use_type_invariant(&*self);
        }
        let epoch = self.current_epoch + 1;
        let key = generate_epoch_key();
        let created_at = current_time();
        let mut taken = EpochManager::placeholder();
        std::mem::swap(self, &mut taken);
        let EpochManager { current_epoch: _, keys, banned } = taken;
        let mut keys = keys;
        keys.push(EpochKey { epoch, key, created_at });
        let ghost k = keys@;
        assert(k.drop_last() =~= old(self).keys@);
        *self = EpochManager { current_epoch: epoch, keys, banned };
        self.show_invariant();
        key
    }

    /// Whether `user_id` is on the ban list.
    pub fn is_banned(&self, user_id: &[u8; 32]) -> (r: bool)
        ensures
            r == self.banned_spec().contains(user_id@),
    {
        let mut i: usize = 0;
        while i < self.banned.len()
            invariant
                i <= self.banned@.len(),
                forall|j: int| 0 <= j < i ==> (#[trigger] self.banned@[j])@ != user_id@,
            decreases self.banned@.len() - i,
        {
            if id_eq(&self.banned[i], user_id) {
                assert(self.banned_spec()[i as int] == user_id@);
                return true;
            }
            i = i + 1;
        }
        proof {
            if self.banned_spec().contains(user_id@) {
                let j = choose|j: int| 0 <= j < self.banned_spec().len() && self.banned_spec()[j] == user_id@;
                assert(self.banned@[j]@ == user_id@);
            }
        }
        false
    }

    /// Adds `user_id` to the ban list unless it is already there.
    pub fn ban_user(&mut self, user_id: &[u8; 32])
        ensures
            final(self).banned_spec() == (if old(self).banned_spec().contains(user_id@) {
                old(self).banned_spec()
            } else {
                old(self).banned_spec().push(user_id@)
            }),
            final(self).banned_spec().contains(user_id@),
            final(self).epoch_spec() == old(self).epoch_spec(),
            final(self).keys_spec() == old(self).keys_spec(),
            final(self).invariant_holds(),
    {
        proof {
            use_type_invariant(&*self);
        }
        if !self.is_banned(user_id) {
            let mut banned: Vec<[u8; 32]> = Vec::new();
            std::mem::swap(&mut banned, &mut self.banned);
            banned.push(*user_id);
            let ghost b = banned@;
            proof {
                assert forall|i: int, j: int| 0 <= i < j < b.len() implies (#[trigger] b[i])@
                    != (#[trigger] b[j])@ by {
                    if j == b.len() - 1 {
                        assert(old(self).banned_spec()[i] == b[i]@);
                    } else {
                        assert(old(self).banned@[i]@ != old(self).banned@[j]@);
                    }
                }
            }
            self.banned = banned;
            assert(self.banned_spec() =~= old(self).banned_spec().push(user_id@));
            assert(self.banned_spec()[self.banned_spec().len() - 1] == user_id@);
        }
        self.show_invariant();
    }

    /// Wraps the key of `epoch` for a subscriber: the epoch number
    /// (eight little-endian bytes), a fresh random nonce, then the epoch key
    /// encrypted under `subscriber_key`. The subscriber's
    /// `decrypt_epoch_key` gives back the key and the epoch.
    pub fn encrypt_for_subscriber(&self, subscriber_key: &[u8; 32], epoch: u64) -> (r: ChainsResult<
        Vec<u8>,
    >)
        ensures
            r is Err <==> !(1 <= epoch <= self.keys_spec().len()),
            r is Err ==> r == Err::<Vec<u8>, ChainsError>(ChainsError::EpochNotFound { epoch }),
            r matches Ok(w) ==> {
                &&& w@.len() == 80
                &&& w@.take(8) == le_u64(epoch)
                &&& unwrap_epoch_key_spec(subscriber_key@, w@) == Ok::<
                    (Seq<u8>, u64),
                    ChainsError,
                >((self.keys_spec()[epoch - 1].key@, epoch))
            },
    {
        proof {
            use_type_invariant(self);
        }
        let mut idx: usize = 0;
        while idx < self.keys.len() && self.keys[idx].epoch != epoch
            invariant
                idx <= self.keys@.len(),
                forall|j: int| 0 <= j < idx ==> (#[trigger] self.keys@[j]).epoch != epoch,
            decreases self.keys@.len() - idx,
        {
            idx = idx + 1;
        }
        if idx == self.keys.len() {
            proof {
                if 1 <= epoch <= self.keys@.len() {
                    assert(self.keys@[epoch - 1].epoch == epoch);
                }
            }
            return Err(ChainsError::EpochNotFound { epoch });
        }
        let ek = self.keys[idx].key;
        let nonce = random_nonce();
        let ciphertext = match xchacha_encrypt(subscriber_key, &nonce, ek.as_slice()) {
            Some(c) => c,
            None => {
                return Err(ChainsError::EncryptionFailed);
            },
        };
        let mut out: Vec<u8> = Vec::new();
        push_le(&mut out, epoch, 8);
        append_bytes(&mut out, nonce.as_slice());
        append_bytes(&mut out, ciphertext.as_slice());
        proof {
            lemma_le_u64_round_trip(epoch);
            let w = out@;
            assert(w.take(8) =~= le_u64(epoch));
            assert(w.subrange(8, 32) =~= nonce@);
            assert(w.skip(32) =~= ciphertext@);
        }
        Ok(out)
    }

    /// Reads a key wrapped by `encrypt_for_subscriber` and returns it with
    /// its epoch.
    pub fn decrypt_epoch_key(my_key: &[u8; 32], data: &[u8]) -> (r: ChainsResult<([u8; 32], u64)>)
        requires
            unwraps_to_key_size(my_key@, data@),
        ensures
            match r {
                Ok((k, e)) => unwrap_epoch_key_spec(my_key@, data@) == Ok::<
                    (Seq<u8>, u64),
                    ChainsError,
                >((k@, e)),
                Err(err) => unwrap_epoch_key_spec(my_key@, data@) == Err::<(Seq<u8>, u64), ChainsError>(
                    err,
                ),
            },
    {
        if data.len() < 32 {
            return Err(ChainsError::InvalidEpochKeyData);
        }
        let (epoch_bytes, rest) = data.split_at(8);
        let epoch = le_to_u64(epoch_bytes);
        let (nonce_bytes, ciphertext) = rest.split_at(24);
        let mut nonce: [u8; 24] = [0u8; 24];
        let mut i: usize = 0;
        while i < 24
            invariant
                i <= 24,
                nonce_bytes@.len() == 24,
                forall|j: int| 0 <= j < i ==> nonce@[j] == nonce_bytes@[j],
            decreases 24 - i,
        {
            nonce[i] = nonce_bytes[i];
            i = i + 1;
        }
        assert(nonce@ =~= data@.subrange(8, 32));
        assert(ciphertext@ =~= data@.skip(32));
        assert(epoch_bytes@ =~= data@.take(8));
        match xchacha_decrypt(my_key, &nonce, ciphertext) {
            Some(plaintext) => {
                let epoch_key = to_id(plaintext.as_slice());
                Ok((epoch_key, epoch))
            },
            None => Err(ChainsError::DecryptionFailed),
        }
    }

    /// Like `decrypt_epoch_key`, for any input: `None` when the wrapped data
    /// decrypts to something other than a 32-byte key.
    pub fn try_decrypt_epoch_key(my_key: &[u8; 32], data: &[u8]) -> (r: Option<
        ChainsResult<([u8; 32], u64)>,
    >)
        ensures
            r is None <==> !unwraps_to_key_size(my_key@, data@),
            r matches Some(res) ==> match res {
                Ok((k, e)) => unwrap_epoch_key_spec(my_key@, data@) == Ok::<
                    (Seq<u8>, u64),
                    ChainsError,
                >((k@, e)),
                Err(err) => unwrap_epoch_key_spec(my_key@, data@) == Err::<(Seq<u8>, u64), ChainsError>(
                    err,
                ),
            },
    {
        if data.len() >= 32 {
            let (_, rest) = data.split_at(8);
            let (nonce_bytes, ciphertext) = rest.split_at(24);
            let mut nonce: [u8; 24] = [0u8; 24];
            let mut i: usize = 0;
            while i < 24
                invariant
                    i <= 24,
                    nonce_bytes@.len() == 24,
                    forall|j: int| 0 <= j < i ==> nonce@[j] == nonce_bytes@[j],
                decreases 24 - i,
            {
                nonce[i] = nonce_bytes[i];
                i = i + 1;
            }
            assert(nonce@ =~= data@.subrange(8, 32));
            assert(ciphertext@ =~= data@.skip(32));
            match xchacha_decrypt(my_key, &nonce, ciphertext) {
                Some(p) => {
                    if p.len() != 32 {
                        return None;
                    }
                },
                None => {},
            }
        }
        Some(Self::decrypt_epoch_key(my_key, data))
    }

    /// Number of epoch keys held.
    pub fn key_count(&self) -> (r: usize)
        ensures
            r == self.keys_spec().len(),
    {
        self.keys.len()
    }
}

} // verus!
