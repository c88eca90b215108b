//! Chains: an append-only, signed and optionally encrypted event log.
pub mod bytes;
pub mod codec;
pub mod crypto;
pub mod error;
pub mod models;
pub mod storage;
pub mod network;
pub mod cli;

pub use models::{Body, Chain, ChainsResult, Header};
