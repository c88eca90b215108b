//! Hashing, identities and the two encryption schemes of the protocol.
pub mod epoch;
pub mod hashing;
pub mod keys;
pub mod primitives;
pub mod ratchet;

pub use hashing::blake3_hash;
pub use keys::{generate_signing_key, sign, verify};
