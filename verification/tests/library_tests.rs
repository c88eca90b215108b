//! Tests of the library's own rules: key layout, parsing, the daemon prompt,
//! the sync and gossip decisions, block creation and the local commands.

use chains::cli::daemon::{daemon_action, daemon_command, DaemonAction, DaemonCommand, DaemonVerb};
use chains::cli::handlers::{BlockData, CommandHandlers};
use chains::cli::{parse_id, parse_key_opt};
use chains::crypto::blake3_hash;
use chains::crypto::epoch::EpochManager;
use chains::crypto::keys::{generate_signing_key, SigningKey};
use chains::crypto::ratchet::{generate_dh_keypair, RatchetState};
use chains::error::ChainsError;
use chains::models::{Body, Header};
use chains::network::sync::{
    accept_gossip_block, add_subscription, answer_sync_request, apply_sync_response,
    catch_up_request, connect_requests, topic_name, GossipOutcome,
};
use chains::network::{SyncRequest, SyncResponse};
use chains::storage::gc::{header_prunable, is_expired, snapshot_due, SNAPSHOT_INTERVAL};
use chains::storage::keys::{
    body_key, chain_key, epoch_key, header_key, latest_key, parse_hex_u64, snapshot_key,
};
use chains::storage::{
    body_from_stored, epoch_key_from_stored, header_from_stored, latest_from_stored, Storage,
};
use tempfile::TempDir;

fn temp_storage() -> (Storage, TempDir) {
    let dir = TempDir::new().unwrap();
    let storage = Storage::new(dir.path().join("db").to_str().unwrap()).unwrap();
    (storage, dir)
}

fn words(line: &str) -> Vec<String> {
    line.split_whitespace().map(|w| w.to_string()).collect()
}

fn hex_of(bytes: &[u8]) -> String {
    bytes.iter().map(|b| format!("{:02x}", b)).collect()
}

fn signed_header(key: &SigningKey, sequence: u64, body: &Body) -> Header {
    Header::new(
        [7u8; 32],
        key.verifying_key().to_bytes(),
        sequence,
        1_700_000_000,
        [0u8; 32],
        body.body_hash(),
        0,
        key,
    )
}

// ---- key layout -----------------------------------------------------------

#[test]
fn header_key_is_tag_hex_id_and_padded_sequence() {
    let id = [0xabu8; 32];
    let key = header_key(&id, 0x1f);
    let expected = format!("header:{}:000000000000001f", "ab".repeat(32));
    assert_eq!(key, expected.into_bytes());
}

#[test]
fn header_keys_sort_by_sequence() {
    let id = [3u8; 32];
    assert!(header_key(&id, 2) < header_key(&id, 16));
    assert!(header_key(&id, 15) < header_key(&id, 16));
    assert!(header_key(&id, 255) < header_key(&id, 4096));
    assert!(header_key(&id, 0) < header_key(&id, u64::MAX));
    assert!(!(header_key(&id, 9) < header_key(&id, 9)));
}

#[test]
fn epoch_keys_sort_by_epoch() {
    let id = [4u8; 32];
    assert!(epoch_key(&id, 9) < epoch_key(&id, 10));
    assert!(epoch_key(&id, 1) < epoch_key(&id, 0x100));
}

#[test]
fn other_keys_have_their_tags() {
    let id = [0u8; 32];
    let zeros = "00".repeat(32);
    assert_eq!(chain_key(&id), format!("chain:{}", zeros).into_bytes());
    assert_eq!(body_key(&id), format!("body:{}", zeros).into_bytes());
    assert_eq!(latest_key(&id), format!("latest:{}", zeros).into_bytes());
    assert_eq!(snapshot_key(&id, 20000), format!("snapshot:{}:20000", zeros).into_bytes());
    assert_eq!(snapshot_key(&id, 0), format!("snapshot:{}:0", zeros).into_bytes());
    assert_eq!(epoch_key(&id, 2), format!("epoch:{}:0000000000000002", zeros).into_bytes());
}

#[test]
fn parse_hex_u64_reads_sixteen_digits() {
    assert_eq!(parse_hex_u64(b"000000000000001f"), Some(31));
    assert_eq!(parse_hex_u64(b"FFFFFFFFFFFFFFFF"), Some(u64::MAX));
    assert_eq!(parse_hex_u64(b"1f"), None);
    assert_eq!(parse_hex_u64(b"00000000000000zz"), None);
}

#[test]
fn topic_name_is_chain_tag_and_hex_id() {
    let id = [0x10u8; 32];
    assert_eq!(topic_name(&id), format!("chain:{}", "10".repeat(32)).into_bytes());
}

// ---- hashing --------------------------------------------------------------

#[test]
fn blake3_known_vectors() {
    assert_eq!(
        hex_of(&blake3_hash(b"")),
        "af1349b9f5f9a1a6a0404dea36dcc9499bcb25c9adc112b7cc9a93cae41f3262"
    );
    assert_eq!(
        hex_of(&blake3_hash(b"abc")),
        "6437b3ac38465133ffb63b75273a8db548c558465d79db03fd359c6cd5bd9d85"
    );
}

// ---- parsing ids and keys -------------------------------------------------

#[test]
fn parse_id_accepts_64_hex_chars() {
    let text = "0f".repeat(32);
    assert_eq!(parse_id(&text), Ok([0x0fu8; 32]));
    assert_eq!(parse_id(&"AB".repeat(32)), Ok([0xabu8; 32]));
}

#[test]
fn parse_id_rejects_bad_hex_and_bad_length() {
    assert_eq!(parse_id("xyz"), Err(ChainsError::InvalidHex));
    assert_eq!(parse_id("abc"), Err(ChainsError::InvalidHex));
    assert_eq!(parse_id("abcd"), Err(ChainsError::InvalidIdLength));
    assert_eq!(parse_id(""), Err(ChainsError::InvalidIdLength));
}

#[test]
fn parse_key_opt_reads_hex_raw_or_nothing() {
    assert_eq!(parse_key_opt(None), Ok(None));
    assert_eq!(parse_key_opt(Some(&"01".repeat(32))), Ok(Some([1u8; 32])));
    let raw = "k".repeat(32);
    assert_eq!(parse_key_opt(Some(&raw)), Ok(Some([b'k'; 32])));
}

#[test]
fn parse_key_opt_rejects_bad_keys() {
    assert_eq!(parse_key_opt(Some("short")), Err(ChainsError::InvalidKeyLength));
    assert_eq!(parse_key_opt(Some(&"g".repeat(64))), Err(ChainsError::InvalidHex));
    assert_eq!(parse_key_opt(Some(&"a".repeat(63))), Err(ChainsError::InvalidKeyLength));
}

// ---- daemon prompt --------------------------------------------------------

#[test]
fn daemon_blank_line_does_nothing() {
    assert!(matches!(daemon_command(&words("   ")), DaemonCommand::Nothing));
}

#[test]
fn daemon_reads_simple_commands() {
    assert!(matches!(daemon_command(&words("help")), DaemonCommand::Help));
    assert!(matches!(daemon_command(&words("create")), DaemonCommand::Create));
    assert!(matches!(daemon_command(&words("list extra")), DaemonCommand::List));
    assert!(matches!(daemon_command(&words("peers")), DaemonCommand::Peers));
    assert!(matches!(daemon_command(&words("exit")), DaemonCommand::Exit));
    assert!(matches!(daemon_command(&words("quit")), DaemonCommand::Exit));
}

#[test]
fn daemon_append_joins_the_data_words() {
    match daemon_command(&words("append abcd hello   big  world")) {
        DaemonCommand::Append { chain_id, data } => {
            assert_eq!(chain_id, "abcd");
            assert_eq!(data, "hello big world");
        }
        other => panic!("unexpected {:?}", other),
    }
    match daemon_command(&words("append abcd one")) {
        DaemonCommand::Append { data, .. } => assert_eq!(data, "one"),
        other => panic!("unexpected {:?}", other),
    }
}

#[test]
fn daemon_commands_with_arguments() {
    match daemon_command(&words("set-key 00ff")) {
        DaemonCommand::SetKey(k) => assert_eq!(k, "00ff"),
        other => panic!("unexpected {:?}", other),
    }
    match daemon_command(&words("subscribe cafe")) {
        DaemonCommand::Subscribe(id) => assert_eq!(id, "cafe"),
        other => panic!("unexpected {:?}", other),
    }
    match daemon_command(&words("show beef")) {
        DaemonCommand::Show(id) => assert_eq!(id, "beef"),
        other => panic!("unexpected {:?}", other),
    }
    match daemon_command(&words("verify f00d")) {
        DaemonCommand::Verify(id) => assert_eq!(id, "f00d"),
        other => panic!("unexpected {:?}", other),
    }
    match daemon_command(&words("gc 0a0b")) {
        DaemonCommand::Gc(id) => assert_eq!(id, "0a0b"),
        other => panic!("unexpected {:?}", other),
    }
    match daemon_command(&words("epoch-rotate 0c")) {
        DaemonCommand::EpochRotate(id) => assert_eq!(id, "0c"),
        other => panic!("unexpected {:?}", other),
    }
}

#[test]
fn daemon_missing_arguments_give_usage() {
    assert!(matches!(daemon_command(&words("set-key")), DaemonCommand::Usage(DaemonVerb::SetKey)));
    assert!(matches!(daemon_command(&words("append abcd")), DaemonCommand::Usage(DaemonVerb::Append)));
    assert!(matches!(daemon_command(&words("subscribe")), DaemonCommand::Usage(DaemonVerb::Subscribe)));
    assert!(matches!(daemon_command(&words("show")), DaemonCommand::Usage(DaemonVerb::Show)));
    assert!(matches!(daemon_command(&words("verify")), DaemonCommand::Usage(DaemonVerb::Verify)));
    assert!(matches!(daemon_command(&words("gc")), DaemonCommand::Usage(DaemonVerb::Gc)));
    assert!(matches!(
        daemon_command(&words("epoch-rotate")),
        DaemonCommand::Usage(DaemonVerb::EpochRotate)
    ));
}

#[test]
fn daemon_unknown_command_is_reported() {
    match daemon_command(&words("frobnicate now")) {
        DaemonCommand::Unknown(w) => assert_eq!(w, "frobnicate"),
        other => panic!("unexpected {:?}", other),
    }
}

#[test]
fn daemon_only_exit_stops_the_loop() {
    assert_eq!(daemon_action(&DaemonCommand::Exit), DaemonAction::Exit);
    assert_eq!(daemon_action(&DaemonCommand::Help), DaemonAction::Continue);
    assert_eq!(daemon_action(&DaemonCommand::Unknown("x".to_string())), DaemonAction::Continue);
}

#[test]
fn stored_chain_reads_back_valid() {
    let (mut s, _d) = temp_storage();
    let key = generate_signing_key();
    let chain = chains::models::Chain::new([3u8; 32]);
    let chain = chain.append(b"a".to_vec(), 0, &key, None).unwrap();
    let chain = chain.append(b"b".to_vec(), 0, &key, None).unwrap();
    s.store_chain(&chain).unwrap();
    let back = s.get_chain(&[3u8; 32]).unwrap().unwrap();
    assert_eq!(back.validate(), Ok(()));
    assert_eq!(back.headers.len(), 2);
    assert_eq!(back.headers[1], chain.headers[1]);
    assert_eq!(s.get_latest_sequence(&[3u8; 32]), Ok(2));
}

// ---- reading stored values ------------------------------------------------

#[test]
fn stored_values_read_back() {
    assert_eq!(latest_from_stored(&None), Ok(0));
    assert_eq!(latest_from_stored(&Some(vec![5, 1, 0, 0, 0, 0, 0, 0])), Ok(261));
    assert_eq!(latest_from_stored(&Some(vec![5, 1])), Err(ChainsError::Encoding));
    assert_eq!(epoch_key_from_stored(&None), Ok(None));
    assert_eq!(epoch_key_from_stored(&Some(vec![2u8; 32])), Ok(Some([2u8; 32])));
    assert_eq!(epoch_key_from_stored(&Some(vec![2u8; 31])), Err(ChainsError::Encoding));
    assert_eq!(header_from_stored(&None), Ok(None));
    assert_eq!(header_from_stored(&Some(vec![1, 2, 3])), Err(ChainsError::Encoding));
    assert_eq!(body_from_stored(&Some(vec![1, 2, 3])), Err(ChainsError::Encoding));
}

#[test]
fn stored_header_reads_back_through_storage() {
    let (mut s, _d) = temp_storage();
    let key = generate_signing_key();
    let body = Body::new([0u8; 32], b"x".to_vec());
    let header = signed_header(&key, 3, &body);
    s.store_header(&[7u8; 32], 3, &header).unwrap();
    assert_eq!(s.get_header(&[7u8; 32], 3), Ok(Some(header)));
    s.store_epoch_key(&[7u8; 32], 4, &[1u8; 32]).unwrap();
    assert_eq!(s.get_epoch_key(&[7u8; 32], 4), Ok(Some([1u8; 32])));
    assert_eq!(s.get_epoch_key(&[7u8; 32], 5), Ok(None));
}

// ---- garbage collection rules ---------------------------------------------

#[test]
fn expiry_rule() {
    assert!(!is_expired(0, 0, u64::MAX));
    assert!(is_expired(10, 100, 111));
    assert!(!is_expired(10, 100, 110));
    assert!(!is_expired(10, 100, 50));
    assert!(!is_expired(1, u64::MAX, u64::MAX));
}

#[test]
fn header_pruning_and_snapshot_rules() {
    assert!(header_prunable(SNAPSHOT_INTERVAL + 1, 1));
    assert!(!header_prunable(SNAPSHOT_INTERVAL, 1));
    assert!(snapshot_due(SNAPSHOT_INTERVAL));
    assert!(snapshot_due(3 * SNAPSHOT_INTERVAL));
    assert!(!snapshot_due(0));
    assert!(!snapshot_due(SNAPSHOT_INTERVAL + 1));
}

// ---- sync decisions -------------------------------------------------------

#[test]
fn catch_up_asks_for_the_missing_headers() {
    let id = [9u8; 32];
    match catch_up_request(id, 3, 7) {
        Some(SyncRequest::GetHeaders { chain_id, start_seq, end_seq }) => {
            assert_eq!(chain_id, id);
            assert_eq!(start_seq, 4);
            assert_eq!(end_seq, 7);
        }
        other => panic!("unexpected {:?}", other),
    }
    assert!(catch_up_request(id, 7, 7).is_none());
    assert!(catch_up_request(id, 8, 7).is_none());
}

#[test]
fn subscriptions_are_kept_once_in_order() {
    let mut subs: Vec<[u8; 32]> = Vec::new();
    add_subscription(&mut subs, &[1u8; 32]);
    add_subscription(&mut subs, &[2u8; 32]);
    add_subscription(&mut subs, &[1u8; 32]);
    assert_eq!(subs, vec![[1u8; 32], [2u8; 32]]);
    let reqs = connect_requests(&subs);
    assert_eq!(reqs.len(), 2);
    assert!(matches!(reqs[0], SyncRequest::GetLatestSequence { chain_id } if chain_id == [1u8; 32]));
    assert!(matches!(reqs[1], SyncRequest::GetLatestSequence { chain_id } if chain_id == [2u8; 32]));
    assert!(connect_requests(&Vec::new()).is_empty());
}

#[test]
fn sync_between_two_stores_copies_headers_and_bodies() {
    let (mut a, _da) = temp_storage();
    let (mut b, _db) = temp_storage();
    let key = generate_signing_key();
    let id = [5u8; 32];
    a.create_chain(&id).unwrap();
    CommandHandlers::append_local(&mut a, &key, id, "first", 0, None).unwrap();
    CommandHandlers::append_local(&mut a, &key, id, "second", 0, None).unwrap();

    let latest = answer_sync_request(&a, &SyncRequest::GetLatestSequence { chain_id: id });
    let requests = { let (reqs, res) = apply_sync_response(&mut b, &latest); res.unwrap(); reqs };
    assert_eq!(requests.len(), 1);
    let headers = answer_sync_request(&a, &requests[0]);
    match &headers {
        SyncResponse::Headers(hs) => assert_eq!(hs.len(), 2),
        other => panic!("unexpected {:?}", other),
    }
    let body_requests = { let (reqs, res) = apply_sync_response(&mut b, &headers); res.unwrap(); reqs };
    assert_eq!(body_requests.len(), 2);
    for req in &body_requests {
        let body = answer_sync_request(&a, req);
        let (reqs, res) = apply_sync_response(&mut b, &body);
        res.unwrap();
        assert!(reqs.is_empty());
    }
    assert_eq!(b.get_latest_sequence(&id).unwrap(), 2);
    let h2 = b.get_header(&id, 2).unwrap().unwrap();
    let body2 = b.get_body(&h2.block_id).unwrap().unwrap();
    assert_eq!(body2.ciphertext, b"second".to_vec());
}

#[test]
fn sync_headers_request_stops_at_the_first_gap() {
    let (mut a, _da) = temp_storage();
    let key = generate_signing_key();
    let id = [6u8; 32];
    a.create_chain(&id).unwrap();
    CommandHandlers::append_local(&mut a, &key, id, "x", 0, None).unwrap();
    let resp = answer_sync_request(&a, &SyncRequest::GetHeaders { chain_id: id, start_seq: 1, end_seq: 5 });
    match resp {
        SyncResponse::Headers(hs) => assert_eq!(hs.len(), 1),
        other => panic!("unexpected {:?}", other),
    }
    let none = answer_sync_request(&a, &SyncRequest::GetHeaders { chain_id: id, start_seq: 5, end_seq: 2 });
    match none {
        SyncResponse::Headers(hs) => assert!(hs.is_empty()),
        other => panic!("unexpected {:?}", other),
    }
}

#[test]
fn gossip_block_outcomes() {
    let (mut s, _d) = temp_storage();
    let key = generate_signing_key();
    let mut body = Body::new([0u8; 32], b"payload".to_vec());
    let header = signed_header(&key, 1, &body);
    body.block_id = header.block_id;

    let mut bad = header.clone();
    bad.ttl = 99;
    assert_eq!(
        accept_gossip_block(&mut s, &bad, &body),
        Ok(GossipOutcome::InvalidHeader(ChainsError::BlockIdMismatch))
    );
    let other_body = Body::new(header.block_id, b"other".to_vec());
    assert_eq!(accept_gossip_block(&mut s, &header, &other_body), Ok(GossipOutcome::BodyHashMismatch));
    assert_eq!(accept_gossip_block(&mut s, &header, &body), Ok(GossipOutcome::Stored { new_chain: true }));
    assert_eq!(accept_gossip_block(&mut s, &header, &body), Ok(GossipOutcome::Stale));
    assert_eq!(s.get_latest_sequence(&[7u8; 32]).unwrap(), 1);
}

// ---- header verification errors ------------------------------------------

#[test]
fn header_signature_length_and_author_key_errors() {
    let key = generate_signing_key();
    let body = Body::new([0u8; 32], b"b".to_vec());
    let header = signed_header(&key, 1, &body);
    assert_eq!(header.verify(), Ok(()));

    // A header signed by one key but naming another author fails the signature check.
    let other = generate_signing_key();
    let forged = Header::new(
        [7u8; 32],
        other.verifying_key().to_bytes(),
        1,
        1_700_000_000,
        [0u8; 32],
        body.body_hash(),
        0,
        &key,
    );
    assert_eq!(forged.verify(), Err(ChainsError::SignatureInvalid));

    // An author id that is no curve point is refused before the signature.
    let mut found = false;
    for i in 0..=255u8 {
        let h = Header::new([7u8; 32], [i; 32], 1, 0, [0u8; 32], body.body_hash(), 0, &key);
        if h.verify() == Err(ChainsError::InvalidAuthorKey) {
            found = true;
            break;
        }
    }
    assert!(found);
}

// ---- making and appending blocks ------------------------------------------

#[test]
fn new_block_builds_a_verifying_linked_block() {
    let key = generate_signing_key();
    let (h, b) = CommandHandlers::new_block([1u8; 32], 4, [2u8; 32], 77, b"data", 5, None, &key).unwrap();
    assert_eq!(h.verify(), Ok(()));
    assert_eq!(h.sequence, 4);
    assert_eq!(h.prev_hash, [2u8; 32]);
    assert_eq!(h.timestamp, 77);
    assert_eq!(h.ttl, 5);
    assert_eq!(h.author_id, key.verifying_key().to_bytes());
    assert_eq!(b.block_id, h.block_id);
    assert_eq!(h.body_hash, b.body_hash());
    assert_eq!(b.ciphertext, b"data".to_vec());
}

#[test]
fn new_block_encrypts_under_the_given_key() {
    let key = generate_signing_key();
    let enc = [9u8; 32];
    let (h, b) = CommandHandlers::new_block([1u8; 32], 1, [0u8; 32], 0, b"secret", 0, Some(&enc), &key).unwrap();
    assert_eq!(h.verify(), Ok(()));
    assert_eq!(b.encryption_algo, "XChaCha20-Poly1305");
    assert_ne!(b.ciphertext, b"secret".to_vec());
    assert_eq!(b.decrypt(&enc), Ok(b"secret".to_vec()));
    assert_eq!(b.decrypt(&[8u8; 32]), Err(ChainsError::DecryptionFailed));
}

#[test]
fn append_local_numbers_and_links_blocks() {
    let (mut s, _d) = temp_storage();
    let key = generate_signing_key();
    let id = [2u8; 32];
    assert_eq!(
        CommandHandlers::append_local(&mut s, &key, id, "x", 0, None),
        Err(ChainsError::ChainNotFound)
    );
    s.create_chain(&id).unwrap();
    assert_eq!(CommandHandlers::append_local(&mut s, &key, id, "one", 0, None), Ok(1));
    assert_eq!(CommandHandlers::append_local(&mut s, &key, id, "two", 30, None), Ok(2));
    let h1 = s.get_header(&id, 1).unwrap().unwrap();
    let h2 = s.get_header(&id, 2).unwrap().unwrap();
    assert_eq!(h1.prev_hash, [0u8; 32]);
    assert_eq!(h2.prev_hash, h1.block_id);
    assert_eq!(h2.ttl, 30);
    let chain = s.get_chain(&id).unwrap().unwrap();
    assert_eq!(chain.validate(), Ok(()));
}

#[test]
fn append_local_needs_the_previous_header() {
    let (mut s, _d) = temp_storage();
    let key = generate_signing_key();
    let id = [2u8; 32];
    s.create_chain(&id).unwrap();
    s.update_latest_sequence(&id, 3).unwrap();
    assert_eq!(
        CommandHandlers::append_local(&mut s, &key, id, "x", 0, None),
        Err(ChainsError::PrevHeaderMissing)
    );
    s.update_latest_sequence(&id, u64::MAX).unwrap();
    assert_eq!(
        CommandHandlers::append_local(&mut s, &key, id, "x", 0, None),
        Err(ChainsError::SequenceExhausted)
    );
}

#[test]
fn show_chain_lists_blocks_with_their_data() {
    let (mut s, _d) = temp_storage();
    let key = generate_signing_key();
    let enc = [4u8; 32];
    let id = [8u8; 32];
    s.create_chain(&id).unwrap();
    CommandHandlers::append_local(&mut s, &key, id, "plain", 0, None).unwrap();
    CommandHandlers::append_local(&mut s, &key, id, "hidden", 0, Some(&enc)).unwrap();

    let without_key = CommandHandlers::show_chain(&s, id, None).unwrap();
    assert_eq!(without_key.len(), 2);
    assert_eq!(without_key[0].sequence, 1);
    assert!(matches!(&without_key[0].data, BlockData::Plain(p) if p == b"plain"));
    assert!(matches!(without_key[1].data, BlockData::Encrypted));

    let with_key = CommandHandlers::show_chain(&s, id, Some(&enc)).unwrap();
    assert!(matches!(&with_key[1].data, BlockData::Plain(p) if p == b"hidden"));

    let wrong_key = CommandHandlers::show_chain(&s, id, Some(&[5u8; 32])).unwrap();
    assert!(matches!(wrong_key[1].data, BlockData::DecryptionError(ChainsError::DecryptionFailed)));

    let h = s.get_header(&id, 1).unwrap().unwrap();
    s.delete_body(&h.block_id).unwrap();
    let missing = CommandHandlers::show_chain(&s, id, None).unwrap();
    assert!(matches!(missing[0].data, BlockData::Missing));
}

#[test]
fn block_data_of_an_unknown_algorithm() {
    let mut body = Body::new([0u8; 32], b"x".to_vec());
    body.encryption_algo = "rot13".to_string();
    assert!(matches!(
        CommandHandlers::block_data(Some(&body), Some(&[0u8; 32])),
        BlockData::DecryptionError(ChainsError::UnsupportedAlgorithm)
    ));
    assert!(matches!(CommandHandlers::block_data(None, None), BlockData::Missing));
}

// ---- epochs ---------------------------------------------------------------

#[test]
fn epoch_manager_starts_at_epoch_one() {
    let m = EpochManager::new();
    assert_eq!(m.current_epoch(), 1);
    assert_eq!(m.key_count(), 1);
}

#[test]
fn epoch_banning_is_idempotent() {
    let mut m = EpochManager::new();
    let user = [3u8; 32];
    assert!(!m.is_banned(&user));
    m.ban_user(&user);
    m.ban_user(&user);
    assert!(m.is_banned(&user));
    assert!(!m.is_banned(&[4u8; 32]));
}

#[test]
fn epoch_wrapped_key_layout_and_errors() {
    let mut m = EpochManager::new();
    m.rotate();
    let sub = [6u8; 32];
    let wrapped = m.encrypt_for_subscriber(&sub, 2).unwrap();
    assert_eq!(wrapped.len(), 80);
    assert_eq!(&wrapped[..8], &2u64.to_le_bytes());
    assert_eq!(m.encrypt_for_subscriber(&sub, 0), Err(ChainsError::EpochNotFound { epoch: 0 }));
    assert_eq!(m.encrypt_for_subscriber(&sub, 3), Err(ChainsError::EpochNotFound { epoch: 3 }));
    assert_eq!(
        EpochManager::try_decrypt_epoch_key(&sub, &wrapped),
        Some(Ok((*m.current_key(), 2)))
    );
    assert_eq!(
        EpochManager::try_decrypt_epoch_key(&[0u8; 32], &wrapped),
        Some(Err(ChainsError::DecryptionFailed))
    );
    assert_eq!(
        EpochManager::try_decrypt_epoch_key(&sub, &wrapped[..20]),
        Some(Err(ChainsError::InvalidEpochKeyData))
    );
}

#[test]
fn errors_describe_themselves() {
    assert_eq!(ChainsError::Database.describe(), "database error");
    assert_eq!(ChainsError::InvalidKeyLength.describe(), "key must be 32 bytes");
    assert_eq!(
        ChainsError::SequenceMismatch { index: 0, expected: 1, found: 2 }.describe(),
        "sequence number out of order"
    );
}

#[test]
fn gc_at_a_given_time_prunes_exactly_the_expired_bodies() {
    let (mut s, _d) = temp_storage();
    let key = generate_signing_key();
    let id = [9u8; 32];
    s.create_chain(&id).unwrap();
    let chain = chains::models::Chain::new(id);
    let chain = chain.append_at(b"old".to_vec(), 10, &key, None, 100).unwrap();
    let chain = chain.append_at(b"keep".to_vec(), 0, &key, None, 100).unwrap();
    let chain = chain.append_at(b"young".to_vec(), 1000, &key, None, 100).unwrap();
    s.store_chain(&chain).unwrap();

    let stats = s.collect_garbage_at(&id, 200).unwrap();
    assert_eq!(stats.bodies_pruned, 1);
    assert_eq!(stats.headers_pruned, 0);
    assert_eq!(stats.snapshots_created, 0);
    assert!(stats.bytes_freed > 0);
    assert_eq!(s.get_body(&chain.headers[0].block_id), Ok(None));
    assert!(s.get_body(&chain.headers[1].block_id).unwrap().is_some());
    assert!(s.get_body(&chain.headers[2].block_id).unwrap().is_some());
    assert!(s.get_header(&id, 1).unwrap().is_some());
}

#[test]
fn gc_of_an_empty_chain_changes_nothing() {
    let (mut s, _d) = temp_storage();
    let id = [9u8; 32];
    s.create_chain(&id).unwrap();
    let stats = s.collect_garbage_at(&id, 5).unwrap();
    assert_eq!((stats.bodies_pruned, stats.headers_pruned, stats.snapshots_created, stats.bytes_freed), (0, 0, 0, 0));
}

#[test]
fn append_at_stamps_the_given_time() {
    let key = generate_signing_key();
    let chain = chains::models::Chain::new([1u8; 32]);
    let chain = chain.append_at(b"x".to_vec(), 0, &key, Some(&[5u8; 32]), 4242).unwrap();
    assert_eq!(chain.headers[0].timestamp, 4242);
    let body = chain.get_body(&chain.headers[0].block_id).unwrap();
    assert_eq!(body.encryption_algo, "XChaCha20-Poly1305");
    assert_eq!(body.ciphertext.len(), 1 + 16);
    assert_eq!(chain.headers[0].signature.len(), 64);
}

#[test]
fn unregistered_chain_reads_as_none_and_snapshot_reads_back() {
    let (mut s, _d) = temp_storage();
    let key = generate_signing_key();
    assert_eq!(s.get_chain(&[4u8; 32]).map(|c| c.is_none()), Ok(true));
    let id = [4u8; 32];
    s.create_chain(&id).unwrap();
    CommandHandlers::append_local(&mut s, &key, id, "a", 0, None).unwrap();
    CommandHandlers::append_local(&mut s, &key, id, "b", 0, None).unwrap();
    s.create_state_snapshot(&id, 2).unwrap();
    let snap = s.get_snapshot(&id, 2).unwrap().unwrap();
    assert_eq!(snap.len(), 2);
    assert_eq!(snap[1], s.get_header(&id, 2).unwrap().unwrap());
    assert_eq!(s.get_snapshot(&id, 3), Ok(None));
    assert_eq!(s.prune_headers_before_snapshot(&id, 2), Ok(1));
    assert_eq!(s.get_header(&id, 1), Ok(None));
}

#[test]
fn stored_session_resumes_the_conversation() {
    let (mut storage, _dir) = temp_storage();
    let root = [21u8; 32];
    let (bob_sk, bob_pk) = generate_dh_keypair();
    let (alice_sk, alice_pk) = generate_dh_keypair();
    let mut alice = RatchetState::new_receiver(root, alice_sk, alice_pk, bob_pk);
    let mut bob = RatchetState::new_sender(root, bob_sk, bob_pk);

    let first = alice.encrypt_message(b"before the restart").unwrap();
    assert_eq!(bob.decrypt_message(&first).unwrap(), b"before the restart".to_vec());

    let session_id = [22u8; 32];
    storage.store_ratchet_session(&session_id, &bob).unwrap();
    let mut resumed = storage.get_ratchet_session(&session_id).unwrap().unwrap();
    assert_eq!(resumed.root_key, bob.root_key);
    assert_eq!(resumed.send_chain_key, bob.send_chain_key);
    assert_eq!(resumed.recv_chain_key, bob.recv_chain_key);
    assert_eq!(resumed.dh_private, bob.dh_private);
    assert_eq!(resumed.dh_public, bob.dh_public);
    assert_eq!(resumed.dh_remote, bob.dh_remote);
    assert_eq!(resumed.dh_remote_prev, bob.dh_remote_prev);
    assert_eq!(resumed.message_count_send, bob.message_count_send);
    assert_eq!(resumed.message_count_recv, bob.message_count_recv);
    assert_eq!(resumed.skipped_message_keys, bob.skipped_message_keys);

    let second = alice.encrypt_message(b"after the restart").unwrap();
    assert_eq!(resumed.decrypt_message(&second).unwrap(), b"after the restart".to_vec());
    let reply = resumed.encrypt_message(b"reply").unwrap();
    assert_eq!(alice.decrypt_message(&reply).unwrap(), b"reply".to_vec());
}

#[test]
fn show_registered_chain_refuses_an_unknown_chain() {
    let (mut s, _d) = temp_storage();
    let key = generate_signing_key();
    let id = [31u8; 32];
    assert!(matches!(
        CommandHandlers::show_registered_chain(&s, id, None),
        Err(ChainsError::ChainNotFound)
    ));
    s.create_chain(&id).unwrap();
    CommandHandlers::append_local(&mut s, &key, id, "x", 0, None).unwrap();
    let blocks = CommandHandlers::show_registered_chain(&s, id, None).unwrap();
    assert_eq!(blocks.len(), 1);
    assert_eq!(blocks[0].sequence, 1);
}

#[test]
fn append_to_an_unknown_chain_leaves_the_store_alone() {
    let (mut s, _d) = temp_storage();
    let key = generate_signing_key();
    let id = [32u8; 32];
    assert_eq!(
        CommandHandlers::append_local(&mut s, &key, id, "x", 0, None),
        Err(ChainsError::ChainNotFound)
    );
    assert_eq!(s.list_chains(), Ok(vec![]));
    assert_eq!(s.get_latest_sequence(&id), Ok(0));
    assert_eq!(s.get_header(&id, 1), Ok(None));
}

#[test]
fn chains_are_listed_once_in_key_order() {
    let (mut s, _d) = temp_storage();
    s.create_chain(&[2u8; 32]).unwrap();
    s.create_chain(&[1u8; 32]).unwrap();
    s.create_chain(&[2u8; 32]).unwrap();
    assert_eq!(s.list_chains(), Ok(vec![[1u8; 32], [2u8; 32]]));
}

#[test]
fn epoch_keys_are_listed_in_epoch_order() {
    let (mut s, _d) = temp_storage();
    let id = [33u8; 32];
    s.store_epoch_key(&id, 300, &[3u8; 32]).unwrap();
    s.store_epoch_key(&id, 2, &[2u8; 32]).unwrap();
    s.store_epoch_key(&[34u8; 32], 1, &[9u8; 32]).unwrap();
    assert_eq!(s.list_epoch_keys(&id), Ok(vec![(2, [2u8; 32]), (300, [3u8; 32])]));
}

#[test]
fn gc_counts_the_bytes_of_removed_bodies_once() {
    let (mut s, _d) = temp_storage();
    let key = generate_signing_key();
    let id = [35u8; 32];
    s.create_chain(&id).unwrap();
    CommandHandlers::append_local(&mut s, &key, id, "short", 5, None).unwrap();
    CommandHandlers::append_local(&mut s, &key, id, "longer text", 5, None).unwrap();
    let first = s.collect_garbage_at(&id, u64::MAX).unwrap();
    assert_eq!(first.bodies_pruned, 2);
    assert!(first.bytes_freed > 16);
    let again = s.collect_garbage_at(&id, u64::MAX).unwrap();
    assert_eq!(again.bodies_pruned, 2);
    assert_eq!(again.bytes_freed, 0);
}

#[test]
fn headers_answer_is_the_stored_run() {
    let (mut s, _d) = temp_storage();
    let key = generate_signing_key();
    let id = [36u8; 32];
    s.create_chain(&id).unwrap();
    for text in ["a", "b", "c"] {
        CommandHandlers::append_local(&mut s, &key, id, text, 0, None).unwrap();
    }
    match answer_sync_request(&s, &SyncRequest::GetHeaders { chain_id: id, start_seq: 2, end_seq: 9 }) {
        SyncResponse::Headers(hs) => {
            assert_eq!(hs.len(), 2);
            assert_eq!(hs[0].sequence, 2);
            assert_eq!(hs[1].sequence, 3);
        },
        _ => panic!("expected headers"),
    }
}
