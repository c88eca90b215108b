//! Command-line parsing helpers and the handlers behind the commands.
pub mod args;
pub mod daemon;
pub mod handlers;

use crate::bytes::to_id;
use crate::codec::{hex_decode, hex_decode_spec};
use crate::error::{ChainsError, ChainsResult};
use vstd::prelude::*;
use vstd::string::StringSliceAdditionalSpecFns;

verus! {

/// What `parse_id` gives for the bytes of its argument.
pub open spec fn parse_id_spec(s: Seq<u8>) -> ChainsResult<Seq<u8>> {
    match hex_decode_spec(s) {
        None => Err(ChainsError::InvalidHex),
        Some(b) => if b.len() == 32 {
            Ok(b)
        } else {
            Err(ChainsError::InvalidIdLength)
        },
    }
}

/// What `parse_key_opt` gives for the bytes of a given key: 64 characters
/// are read as hex, anything else as raw bytes; either way 32 bytes must
/// come out.
pub open spec fn parse_key_spec(k: Seq<u8>) -> ChainsResult<Seq<u8>> {
    if k.len() == 64 {
        match hex_decode_spec(k) {
            None => Err(ChainsError::InvalidHex),
            Some(b) => if b.len() == 32 {
                Ok(b)
            } else {
                Err(ChainsError::InvalidKeyLength)
            },
        }
    } else if k.len() == 32 {
        Ok(k)
    } else {
        Err(ChainsError::InvalidKeyLength)
    }
}

/// Reads a 32-byte id written in hex.
pub fn parse_id(s: &str) -> (r: ChainsResult<[u8; 32]>)
    ensures
        match r {
            Ok(id) => parse_id_spec(s.spec_bytes()) == Ok::<Seq<u8>, ChainsError>(id@),
            Err(e) => parse_id_spec(s.spec_bytes()) == Err::<Seq<u8>, ChainsError>(e),
        },
{
    let bytes = match hex_decode(s.as_bytes()) {
        Some(b) => b,
        None => {
            return Err(ChainsError::InvalidHex);
        },
    };
    if bytes.len() != 32 {
        return Err(ChainsError::InvalidIdLength);
    }
    Ok(to_id(bytes.as_slice()))
}

/// Reads an optional 32-byte key: 64 hex characters, or 32 raw bytes.
pub fn parse_key_opt(key: Option<&str>) -> (r: ChainsResult<Option<[u8; 32]>>)
    ensures
        match key {
            None => r == Ok::<Option<[u8; 32]>, ChainsError>(None),
            Some(k) => match r {
                Ok(Some(a)) => parse_key_spec(k.spec_bytes()) == Ok::<Seq<u8>, ChainsError>(a@),
                Ok(None) => false,
                Err(e) => parse_key_spec(k.spec_bytes()) == Err::<Seq<u8>, ChainsError>(e),
            },
        },
{
    match key {
        Some(k) => {
            let raw = k.as_bytes();
            let bytes: Vec<u8> = if raw.len() == 64 {
                match hex_decode(raw) {
                    Some(b) => b,
                    None => {
                        return Err(ChainsError::InvalidHex);
                    },
                }
            } else {
                crate::bytes::to_vec(raw)
            };
            if bytes.len() != 32 {
                return Err(ChainsError::InvalidKeyLength);
            }
            Ok(Some(to_id(bytes.as_slice())))
        },
        None => Ok(None),
    }
}

} // verus!
