//! The error type of the library.
use vstd::prelude::*;

verus! {

/// Why an operation of the library failed.
#[derive(Debug, Clone, Copy, PartialEq, Eq, Structural)]
pub enum ChainsError {
    /// The header at `index` (0-based) carries `found` where `expected` was due.
    SequenceMismatch { index: u64, expected: u64, found: u64 },
    /// The header with this sequence number belongs to another chain.
    ChainIdMismatch { sequence: u64 },
    /// The first header does not point at the all-zero hash.
    GenesisPrevHash,
    /// The header with this sequence number does not point at its predecessor.
    BrokenLink { sequence: u64 },
    /// The body of this block does not hash to the header's `body_hash`.
    BodyHashMismatch { sequence: u64 },
    /// The body of this block is not held.
    BodyMissing { sequence: u64 },
    /// A header's `block_id` is not the hash of its content.
    BlockIdMismatch,
    /// A header's author key is not a valid Ed25519 point.
    InvalidAuthorKey,
    /// A header's signature is not 64 bytes long.
    InvalidSignatureLength,
    /// A header's signature does not verify.
    SignatureInvalid,
    /// The cipher refused to encrypt (the message is too long).
    EncryptionFailed,
    /// Authenticated decryption failed (wrong key or tampered data).
    DecryptionFailed,
    /// A body names an encryption algorithm this library does not know.
    UnsupportedAlgorithm,
    /// No epoch key is held for this epoch.
    EpochNotFound { epoch: u64 },
    /// A wrapped epoch key is too short to hold an epoch, a nonce and a tag.
    InvalidEpochKeyData,
    /// The system clock reads a time before the Unix epoch.
    ClockBeforeEpoch,
    /// A ratchet message arrived while no receiving chain is established.
    NoReceivingChainKey,
    /// The database reported an error.
    Database,
    /// Stored bytes could not be decoded.
    Encoding,
    /// A string is not valid hexadecimal.
    InvalidHex,
    /// An identifier is not 32 bytes long.
    InvalidIdLength,
    /// A key is not 32 bytes long.
    InvalidKeyLength,
    /// The chain is not known locally.
    ChainNotFound,
    /// The header preceding the one to append is not stored.
    PrevHeaderMissing,
    /// The chain's latest sequence number is the largest there is.
    SequenceExhausted,
}

/// The short description of each error.
pub open spec fn description(e: ChainsError) -> Seq<char> {
    match e {
        ChainsError::SequenceMismatch { .. } => "sequence number out of order"@,
        ChainsError::ChainIdMismatch { .. } => "header belongs to another chain"@,
        ChainsError::GenesisPrevHash => "genesis must have zero prev_hash"@,
        ChainsError::BrokenLink { .. } => "hash chain broken"@,
        ChainsError::BodyHashMismatch { .. } => "body hash mismatch"@,
        ChainsError::BodyMissing { .. } => "body missing"@,
        ChainsError::BlockIdMismatch => "block id mismatch"@,
        ChainsError::InvalidAuthorKey => "invalid author key"@,
        ChainsError::InvalidSignatureLength => "invalid signature length"@,
        ChainsError::SignatureInvalid => "signature verification failed"@,
        ChainsError::EncryptionFailed => "encryption failed"@,
        ChainsError::DecryptionFailed => "decryption failed"@,
        ChainsError::UnsupportedAlgorithm => "unsupported algorithm"@,
        ChainsError::EpochNotFound { .. } => "epoch not found"@,
        ChainsError::InvalidEpochKeyData => "invalid epoch key data"@,
        ChainsError::ClockBeforeEpoch => "clock reads a time before the Unix epoch"@,
        ChainsError::NoReceivingChainKey => "no receiving chain key available"@,
        ChainsError::Database => "database error"@,
        ChainsError::Encoding => "stored data could not be decoded"@,
        ChainsError::InvalidHex => "invalid hex"@,
        ChainsError::InvalidIdLength => "invalid id length"@,
        ChainsError::InvalidKeyLength => "key must be 32 bytes"@,
        ChainsError::ChainNotFound => "chain not found"@,
        ChainsError::PrevHeaderMissing => "previous header missing"@,
        ChainsError::SequenceExhausted => "sequence numbers exhausted"@,
    }
}

impl ChainsError {
    /// A short description, for messages sent to peers.
    pub fn describe(&self) -> (r: String)
        ensures
            r@ == description(*self),
    {
        let text: &str = match self {
            ChainsError::SequenceMismatch { .. } => "sequence number out of order",
            ChainsError::ChainIdMismatch { .. } => "header belongs to another chain",
            ChainsError::GenesisPrevHash => "genesis must have zero prev_hash",
            ChainsError::BrokenLink { .. } => "hash chain broken",
            ChainsError::BodyHashMismatch { .. } => "body hash mismatch",
            ChainsError::BodyMissing { .. } => "body missing",
            ChainsError::BlockIdMismatch => "block id mismatch",
            ChainsError::InvalidAuthorKey => "invalid author key",
            ChainsError::InvalidSignatureLength => "invalid signature length",
            ChainsError::SignatureInvalid => "signature verification failed",
            ChainsError::EncryptionFailed => "encryption failed",
            ChainsError::DecryptionFailed => "decryption failed",
            ChainsError::UnsupportedAlgorithm => "unsupported algorithm",
            ChainsError::EpochNotFound { .. } => "epoch not found",
            ChainsError::InvalidEpochKeyData => "invalid epoch key data",
            ChainsError::ClockBeforeEpoch => "clock reads a time before the Unix epoch",
            ChainsError::NoReceivingChainKey => "no receiving chain key available",
            ChainsError::Database => "database error",
            ChainsError::Encoding => "stored data could not be decoded",
            ChainsError::InvalidHex => "invalid hex",
            ChainsError::InvalidIdLength => "invalid id length",
            ChainsError::InvalidKeyLength => "key must be 32 bytes",
            ChainsError::ChainNotFound => "chain not found",
            ChainsError::PrevHeaderMissing => "previous header missing",
            ChainsError::SequenceExhausted => "sequence numbers exhausted",
        };
        text.to_owned()
    }
}

/// The result type of the library.
pub type ChainsResult<T> = Result<T, ChainsError>;

} // verus!
