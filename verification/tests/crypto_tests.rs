use lib::adnl::{hmac_sha256, AdnlAddressBook, AdnlIdentity, AdnlKeyPair, PrivateKey, PublicKey, Signature};
use lib::pow::sha256;
use lib::zero_channel::{NonceCache, PeerInfo, SessionState, ZcError, ZcInitiator, ZcMessage, ZcResponder};

#[test]
fn test_keypair_deterministic() {
    let seed = [42u8; 32];
    let kp1 = AdnlKeyPair::from_seed(seed);
    let kp2 = AdnlKeyPair::from_seed(seed);
    assert_eq!(kp1.adnl_id(), kp2.adnl_id());
}

#[test]
fn test_different_seeds_different_ids() {
    let kp1 = AdnlKeyPair::from_seed([1u8; 32]);
    let kp2 = AdnlKeyPair::from_seed([2u8; 32]);
    assert_ne!(kp1.adnl_id(), kp2.adnl_id());
}

#[test]
fn test_adnl_id_is_sha256_of_pubkey() {
    let kp = AdnlKeyPair::from_seed([7u8; 32]);
    let expected = sha256(&kp.identity.public_key.0);
    assert_eq!(kp.adnl_id(), &expected);
}

#[test]
fn test_sign_produces_non_zero_signature() {
    let kp = AdnlKeyPair::from_seed([0u8; 32]);
    let sig = kp.sign(b"hello seer");
    assert_ne!(sig.0, [0u8; 32]);
}

#[test]
fn test_sign_deterministic() {
    let kp = AdnlKeyPair::from_seed([3u8; 32]);
    let sig1 = kp.sign(b"message");
    let sig2 = kp.sign(b"message");
    assert_eq!(sig1, sig2);
}

#[test]
fn test_sign_different_messages_differ() {
    let kp = AdnlKeyPair::from_seed([3u8; 32]);
    let sig1 = kp.sign(b"msg_a");
    let sig2 = kp.sign(b"msg_b");
    assert_ne!(sig1, sig2);
}

#[test]
fn test_hex_encoding_length() {
    let kp = AdnlKeyPair::from_seed([0u8; 32]);
    assert_eq!(kp.identity.to_hex().len(), 64);
}

#[test]
fn test_address_book() {
    let mut book = AdnlAddressBook::new();
    let id = [1u8; 32];
    book.insert(id, "192.168.1.1:8080".to_string());
    assert_eq!(book.lookup(&id), Some("192.168.1.1:8080"));
    book.remove(&id);
    assert!(book.lookup(&id).is_none());
}

fn make_peer(byte: u8) -> PeerInfo {
    PeerInfo { adnl_id: [byte; 32], address: format!("10.0.0.{byte}:443") }
}

fn setup() -> (ZcInitiator, ZcResponder) {
    let initiator_id = [1u8; 32];
    let responder_id = [2u8; 32];
    let peers = vec![make_peer(3), make_peer(4)];
    let initiator = ZcInitiator::new(initiator_id);
    let responder = ZcResponder::new(responder_id, peers, 1_700_000_000);
    (initiator, responder)
}

#[test]
fn test_full_handshake() {
    let (mut init, mut resp) = setup();
    let nonce = [0xAAu8; 32];
    let ts = 1_700_000_000u64;
    let hello = init.build_hello(nonce, ts);
    let ack = resp.process(hello).unwrap();
    assert!(matches!(ack, ZcMessage::HelloAck { .. }));
    init.process_hello_ack(ack).unwrap();
    assert!(matches!(init.state, SessionState::Established { .. }));
    let req = init.build_peer_request();
    let peer_list = resp.process(req).unwrap();
    if let ZcMessage::PeerList { peers } = peer_list {
        assert_eq!(peers.len(), 2);
    } else {
        panic!("expected PeerList");
    }
    let close = init.build_close();
    let close_ack = resp.process(close).unwrap();
    assert!(matches!(close_ack, ZcMessage::Close { .. }));
    assert_eq!(resp.state, SessionState::Closed);
}

#[test]
fn test_stale_timestamp_rejected() {
    let (mut init, mut resp) = setup();
    let ts = resp.current_time - 60;
    let hello = init.build_hello([0xBBu8; 32], ts);
    assert_eq!(resp.process(hello), Err(ZcError::StaleTimestamp));
}

#[test]
fn test_replay_nonce_rejected() {
    let (mut init, mut resp) = setup();
    let nonce = [0xCCu8; 32];
    let ts = resp.current_time;
    let hello1 = init.build_hello(nonce, ts);
    resp.process(hello1).unwrap();
    resp.state = SessionState::AwaitingHello;
    let hello2 = ZcMessage::Hello { sender_id: [1u8; 32], nonce, timestamp: ts };
    assert_eq!(resp.process(hello2), Err(ZcError::ReplayDetected));
}

#[test]
fn test_peer_request_before_hello_rejected() {
    let (init, mut resp) = setup();
    let req = init.build_peer_request();
    assert_eq!(resp.process(req), Err(ZcError::UnexpectedMessage));
}

#[test]
fn test_closed_session_rejects_all() {
    let (mut init, mut resp) = setup();
    let close = init.build_close();
    resp.process(close).unwrap();
    let hello = ZcMessage::Hello { sender_id: [1u8; 32], nonce: [0u8; 32], timestamp: resp.current_time };
    assert_eq!(resp.process(hello), Err(ZcError::SessionClosed));
}

#[test]
fn test_nonce_cache_replay_detection() {
    let mut cache = NonceCache::new();
    let nonce = [0xDDu8; 32];
    assert!(!cache.is_replay(&nonce));
    cache.record(nonce);
    assert!(cache.is_replay(&nonce));
    cache.flush();
    assert!(!cache.is_replay(&nonce));
}

// ── Further cases ────────────────────────────────────────────────────────────

fn hex(bytes: &[u8]) -> String {
    bytes.iter().map(|b| format!("{:02x}", b)).collect()
}

#[test]
fn hmac_sha256_known_vector() {
    let mac = hmac_sha256(b"Jefe", b"what do ya want for nothing?");
    assert_eq!(hex(&mac), "5bdcc146bf60754e6a042426089575c75a003f089d2739839dec58b964ec3843");
}

#[test]
fn hmac_sha256_long_key_is_hashed_first() {
    let key = [0xaau8; 131];
    let mac = hmac_sha256(&key, b"Test Using Larger Than Block-Size Key - Hash Key First");
    assert_eq!(hex(&mac), "60e431591ee0b67f0d8a26aacbf5b77f8e0bc6213728c5140546040f0ee37f54");
}

#[test]
fn public_key_is_hash_of_seed_and_tag() {
    let sk = PrivateKey::from_bytes([9u8; 32]);
    let mut input = vec![9u8; 32];
    input.extend_from_slice(b"pubkey");
    assert_eq!(sk.public_key(), PublicKey(sha256(&input)));
    let kp = AdnlKeyPair::from_seed([9u8; 32]);
    assert_eq!(kp.identity, AdnlIdentity::from_public_key(sk.public_key()));
    assert_eq!(kp.sign(b"m"), Signature(hmac_sha256(&[9u8; 32], b"m")));
}

#[test]
fn verify_accepts_only_nonzero_signatures() {
    let pk = PublicKey::from_bytes([1u8; 32]);
    assert!(pk.verify(b"anything", &Signature([1u8; 32])));
    assert!(!pk.verify(b"anything", &Signature([0u8; 32])));
}

#[test]
fn identity_hex_and_address_book_counts() {
    let id = AdnlIdentity::from_public_key(PublicKey([0u8; 32]));
    assert_eq!(id.to_hex(), hex(id.as_bytes()));
    let mut book = AdnlAddressBook::new();
    assert!(book.is_empty());
    book.insert([1u8; 32], "a".to_string());
    book.insert([1u8; 32], "b".to_string());
    book.insert([2u8; 32], "c".to_string());
    assert_eq!(book.len(), 2);
    assert_eq!(book.lookup(&[1u8; 32]), Some("b"));
}

#[test]
fn responder_ack_derives_nonce_and_caps_peers() {
    let peers: Vec<PeerInfo> = (0..30u8).map(make_peer).collect();
    let mut resp = ZcResponder::new([0x0Fu8; 32], peers, 100);
    let ack = resp
        .process(ZcMessage::Hello { sender_id: [5u8; 32], nonce: [0xF0u8; 32], timestamp: 80 })
        .unwrap();
    assert_eq!(
        ack,
        ZcMessage::HelloAck { responder_id: [0x0Fu8; 32], echo_nonce: [0xF0u8; 32], responder_nonce: [0xFFu8; 32] }
    );
    assert_eq!(resp.state, SessionState::Established { initiator_id: [5u8; 32] });
    // a second HELLO in the established state is out of order
    assert_eq!(
        resp.process(ZcMessage::Hello { sender_id: [5u8; 32], nonce: [1u8; 32], timestamp: 100 }),
        Err(ZcError::UnexpectedMessage)
    );
    match resp.process(ZcMessage::PeerRequest { sender_id: [5u8; 32] }).unwrap() {
        ZcMessage::PeerList { peers } => {
            assert_eq!(peers.len(), 20);
            assert_eq!(peers[0], make_peer(0));
        }
        _ => panic!("expected PeerList"),
    }
}

#[test]
fn responder_without_peers_and_future_timestamp() {
    let mut resp = ZcResponder::new([1u8; 32], vec![], 100);
    // a timestamp in the future is fresh (age saturates at zero)
    assert!(resp.process(ZcMessage::Hello { sender_id: [2u8; 32], nonce: [3u8; 32], timestamp: 1_000 }).is_ok());
    assert_eq!(
        resp.process(ZcMessage::PeerRequest { sender_id: [2u8; 32] }),
        Err(ZcError::NoPeersAvailable)
    );
    assert_eq!(resp.process(ZcMessage::PeerList { peers: vec![] }), Err(ZcError::UnexpectedMessage));
}

#[test]
fn initiator_checks_echo_nonce() {
    let mut init = ZcInitiator::new([1u8; 32]);
    init.build_hello([7u8; 32], 0);
    let bad = ZcMessage::HelloAck { responder_id: [2u8; 32], echo_nonce: [8u8; 32], responder_nonce: [0u8; 32] };
    assert_eq!(init.process_hello_ack(bad), Err(ZcError::ReplayDetected));
    assert_eq!(init.state, SessionState::AwaitingHello);
    assert_eq!(init.process_hello_ack(ZcMessage::Close { sender_id: [2u8; 32] }), Err(ZcError::UnexpectedMessage));
    let good = ZcMessage::HelloAck { responder_id: [2u8; 32], echo_nonce: [7u8; 32], responder_nonce: [0u8; 32] };
    assert_eq!(init.process_hello_ack(good), Ok(()));
    assert_eq!(init.state, SessionState::Established { initiator_id: [2u8; 32] });
    assert_eq!(init.build_close(), ZcMessage::Close { sender_id: [1u8; 32] });
    assert_eq!(init.state, SessionState::Closed);
}
