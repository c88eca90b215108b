//! Chain construction and encryption, end to end.

use chains::crypto::keys::generate_signing_key;
use chains::models::{Chain, ChainsResult};

#[test]
fn test_chain_append_and_validate() -> ChainsResult<()> {
    let chain_id: [u8; 32] = [1; 32];
    let signing_key = generate_signing_key();
    let chain = Chain::new(chain_id);

    let chain = chain.append(b"Hello Chains".to_vec(), 0, &signing_key, None)?;
    assert_eq!(chain.headers.len(), 1);
    assert_eq!(chain.headers[0].sequence, 1);

    let chain = chain.append(b"Second block".to_vec(), 0, &signing_key, None)?;
    assert_eq!(chain.headers.len(), 2);
    assert_eq!(chain.headers[1].sequence, 2);
    assert_eq!(chain.headers[1].prev_hash, chain.headers[0].block_id);

    chain.validate()?;

    Ok(())
}

#[test]
fn test_chain_encryption() -> ChainsResult<()> {
    let chain_id: [u8; 32] = [2; 32];
    let signing_key = generate_signing_key();
    let encryption_key: [u8; 32] = [42; 32];
    let chain = Chain::new(chain_id);

    let plaintext = b"Top secret data";
    let chain = chain.append(plaintext.to_vec(), 0, &signing_key, Some(&encryption_key))?;

    let body = chain.get_body(&chain.headers[0].block_id).unwrap();
    assert_eq!(body.encryption_algo, "XChaCha20-Poly1305");
    assert_ne!(body.ciphertext, plaintext);

    let decrypted = body.decrypt(&encryption_key)?;
    assert_eq!(decrypted, plaintext);

    Ok(())
}
