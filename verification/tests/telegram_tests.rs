use lib::bot_node::{BotNode, NodeState, MAX_INBOUND_QUEUE, MAX_MEMPOOL_SIZE};
use lib::factory::{FactoryBot, FactoryError};
use lib::master_channel::{
    MasterChannelError, MasterChannelSubscriber, MasterMsgKind, MASTER_CHANNEL_BUFFER,
    MASTER_MSG_MAX_AGE_SECS,
};
use lib::pow::sha256;
use lib::transport::{hex_encode, TgMessage, TgMessageKind};

// ── bot node ─────────────────────────────────────────────────────────────────

fn make_node() -> BotNode {
    BotNode::new([0x01u8; 32], "test_node".to_string(), 1_700_000_000)
}

#[test]
fn test_node_starts_syncing() {
    let node = make_node();
    assert_eq!(node.state, NodeState::Syncing);
}

#[test]
fn test_activate() {
    let mut node = make_node();
    node.activate();
    assert_eq!(node.state, NodeState::Active);
}

#[test]
fn test_receive_and_process_ping() {
    let mut node = make_node();
    let ping = TgMessage::new(TgMessageKind::Ping, &[0x01u8; 32], [0x02u8; 32], 0);
    node.receive(ping);
    node.process_inbound();
    let pong = node.pop_outbound().expect("should have a PONG response");
    assert_eq!(pong.kind, TgMessageKind::Pong);
}

#[test]
fn test_tx_added_to_mempool() {
    let mut node = make_node();
    let mut payload = vec![0u8; 40];
    payload[..32].copy_from_slice(&[0xAAu8; 32]);
    payload[32..40].copy_from_slice(&5_000u64.to_le_bytes());
    let msg = TgMessage::new(TgMessageKind::Tx, &payload, [0x02u8; 32], 0);
    node.receive(msg);
    node.process_inbound();
    assert_eq!(node.mempool_size(), 1);
}

#[test]
fn test_duplicate_tx_not_added_twice() {
    let mut node = make_node();
    let mut payload = vec![0u8; 40];
    payload[..32].copy_from_slice(&[0xBBu8; 32]);
    let msg1 = TgMessage::new(TgMessageKind::Tx, &payload, [0x02u8; 32], 0);
    let msg2 = TgMessage::new(TgMessageKind::Tx, &payload, [0x02u8; 32], 1);
    node.receive(msg1);
    node.receive(msg2);
    node.process_inbound();
    assert_eq!(node.mempool_size(), 1);
}

#[test]
fn test_block_updates_tip() {
    let mut node = make_node();
    let mut payload = vec![0u8; 40];
    payload[..8].copy_from_slice(&42u64.to_le_bytes());
    payload[8..40].copy_from_slice(&[0xCCu8; 32]);
    let msg = TgMessage::new(TgMessageKind::Block, &payload, [0x02u8; 32], 0);
    node.receive(msg);
    node.process_inbound();
    assert_eq!(node.tip_height, 42);
}

#[test]
fn test_inbound_queue_backpressure() {
    let mut node = make_node();
    let msg = TgMessage::new(TgMessageKind::Ping, &[0u8; 32], [0x02u8; 32], 0);
    for _ in 0..MAX_INBOUND_QUEUE {
        node.receive(msg.clone());
    }
    let accepted = node.receive(msg.clone());
    assert!(!accepted);
}

fn tx_payload(hash_byte: u8, fee: u64) -> Vec<u8> {
    let mut payload = vec![hash_byte; 32];
    payload.extend_from_slice(&fee.to_le_bytes());
    payload
}

#[test]
fn mempool_orders_by_fee_and_records_entry() {
    let mut node = make_node();
    for (b, fee) in [(1u8, 30u64), (2, 90), (3, 60)] {
        node.receive(TgMessage::new(TgMessageKind::Tx, &tx_payload(b, fee), [9u8; 32], 0));
    }
    assert_eq!(node.process_inbound(), 3);
    let fees: Vec<u64> = node.mempool_by_fee().iter().map(|e| e.fee).collect();
    assert_eq!(fees, vec![90, 60, 30]);
    let top = node.mempool_by_fee()[0].clone();
    assert_eq!(top.tx_hash, [2u8; 32]);
    assert_eq!(top.tx_bytes, tx_payload(2, 90));
    assert_eq!(top.received_at, 1_700_000_000);
}

#[test]
fn short_and_malformed_tx_are_dropped() {
    let mut node = make_node();
    node.receive(TgMessage::new(TgMessageKind::Tx, &[1u8; 31], [9u8; 32], 0));
    let mut bad = TgMessage::new(TgMessageKind::Tx, &[1u8; 40], [9u8; 32], 1);
    bad.payload_hex = "zz".to_string();
    node.receive(bad);
    // 32..39 bytes: accepted with fee 0
    node.receive(TgMessage::new(TgMessageKind::Tx, &[7u8; 35], [9u8; 32], 2));
    node.process_inbound();
    assert_eq!(node.mempool_size(), 1);
    assert_eq!(node.mempool_by_fee()[0].fee, 0);
}

#[test]
fn lower_block_keeps_tip_and_higher_block_evicts_tenth() {
    let mut node = make_node();
    for b in 0..20u8 {
        node.receive(TgMessage::new(TgMessageKind::Tx, &tx_payload(b, b as u64), [9u8; 32], 0));
    }
    node.process_inbound();
    assert_eq!(node.mempool_size(), 20);
    let block = |h: u64| {
        let mut p = h.to_le_bytes().to_vec();
        p.extend_from_slice(&[0xEEu8; 32]);
        TgMessage::new(TgMessageKind::Block, &p, [9u8; 32], 0)
    };
    node.receive(block(10));
    node.process_inbound();
    assert_eq!(node.tip_height, 10);
    assert_eq!(node.tip_hash, [0xEEu8; 32]);
    assert_eq!(node.mempool_size(), 18);
    node.receive(block(5));
    node.process_inbound();
    assert_eq!(node.tip_height, 10);
    assert_eq!(node.mempool_size(), 18);
}

#[test]
fn pong_carries_node_identity_and_sequence() {
    let mut node = make_node();
    let ping = TgMessage::new(TgMessageKind::Ping, &[0u8; 32], [0x02u8; 32], 5);
    node.receive(ping.clone());
    node.receive(ping);
    node.receive(TgMessage::new(TgMessageKind::Pong, &[0u8; 1], [0x02u8; 32], 6));
    node.process_inbound();
    let p0 = node.pop_outbound().unwrap();
    let p1 = node.pop_outbound().unwrap();
    assert!(node.pop_outbound().is_none());
    assert_eq!(p0.seq, 0);
    assert_eq!(p1.seq, 1);
    assert_eq!(p0.sender_id, hex_encode(&[0x01u8; 32]));
    assert_eq!(p0.payload_bytes().unwrap(), vec![0x01u8; 32]);
}

#[test]
fn broadcast_queues_message_and_pause() {
    let mut node = make_node();
    node.broadcast(TgMessageKind::Inv, &[1, 2, 3]);
    let m = node.pop_outbound().unwrap();
    assert_eq!(m.kind, TgMessageKind::Inv);
    assert_eq!(m.payload_hex, "010203");
    assert_eq!(m.seq, 0);
    node.pause();
    assert_eq!(node.state, NodeState::Paused);
    assert!(MAX_MEMPOOL_SIZE > MAX_INBOUND_QUEUE);
}

// ── factory ──────────────────────────────────────────────────────────────────

fn make_factory() -> FactoryBot {
    FactoryBot::new([0xFFu8; 32], vec![0xABu8; 128], 1_700_000_000)
}

#[test]
fn test_register_node() {
    let mut factory = make_factory();
    let node_id = factory.register_node([0x01u8; 32], "10.0.0.1:443".to_string()).unwrap();
    assert_eq!(factory.node_count(), 1);
    assert!(factory.get_node(&node_id).is_some());
}

#[test]
fn test_register_duplicate_fails() {
    let mut factory = make_factory();
    factory.register_node([0x01u8; 32], "10.0.0.1:443".to_string()).unwrap();
    let err = factory.register_node([0x01u8; 32], "10.0.0.1:443".to_string()).unwrap_err();
    assert_eq!(err, FactoryError::AlreadyRegistered);
}

#[test]
fn test_ship_genesis() {
    let mut factory = make_factory();
    let node_id = factory.register_node([0x02u8; 32], "10.0.0.2:443".to_string()).unwrap();
    factory.ship_genesis(&node_id).unwrap();
    assert!(factory.get_node(&node_id).unwrap().genesis_shipped);
}

#[test]
fn test_ship_genesis_twice_fails() {
    let mut factory = make_factory();
    let node_id = factory.register_node([0x03u8; 32], "10.0.0.3:443".to_string()).unwrap();
    factory.ship_genesis(&node_id).unwrap();
    let err = factory.ship_genesis(&node_id).unwrap_err();
    assert_eq!(err, FactoryError::GenesisAlreadyShipped);
}

#[test]
fn test_ship_genesis_unknown_node_fails() {
    let mut factory = make_factory();
    let err = factory.ship_genesis(&[0xAAu8; 32]).unwrap_err();
    assert_eq!(err, FactoryError::NodeNotFound);
}

#[test]
fn register_derives_identity_from_seed() {
    let mut factory = make_factory();
    let seed = [0x05u8; 32];
    let id = factory.register_node(seed, "host:1".to_string()).unwrap();
    let mut input = seed.to_vec();
    input.extend_from_slice(b"pubkey");
    let pk = sha256(&input);
    assert_eq!(id, sha256(&pk));
    let rec = factory.get_node(&id).unwrap();
    assert_eq!(rec.public_key, pk);
    assert_eq!(rec.address, "host:1");
    assert_eq!(rec.registered_at, 1_700_000_000);
    assert!(!rec.genesis_shipped);
    // the confirmation carries the identity followed by the address
    let msg = factory.pop_outbound().unwrap();
    let mut expected = id.to_vec();
    expected.extend_from_slice(b"host:1");
    assert_eq!(msg.kind, TgMessageKind::Pong);
    assert_eq!(msg.payload_bytes().unwrap(), expected);
    assert_eq!(msg.sender_id, hex_encode(&[0xFFu8; 32]));
    assert_eq!(msg.seq, 0);
}

#[test]
fn genesis_message_follows_confirmation() {
    let mut factory = make_factory();
    let id = factory.register_node([0x06u8; 32], "h".to_string()).unwrap();
    factory.ship_genesis(&id).unwrap();
    let _ = factory.pop_outbound().unwrap();
    let g = factory.pop_outbound().unwrap();
    assert_eq!(g.kind, TgMessageKind::Block);
    assert_eq!(g.seq, 1);
    assert_eq!(g.payload_bytes().unwrap(), vec![0xABu8; 128]);
    assert!(factory.pop_outbound().is_none());
}

// ── master channel ───────────────────────────────────────────────────────────

fn master_id_str() -> String {
    hex_encode(&[0xFFu8; 32])
}

fn make_subscriber() -> MasterChannelSubscriber {
    MasterChannelSubscriber::new(master_id_str(), 1_700_000_000)
}

fn make_block_msg(height: u64) -> TgMessage {
    let mut payload = vec![0u8; 40];
    payload[..8].copy_from_slice(&height.to_le_bytes());
    payload[8..40].copy_from_slice(&[0xCCu8; 32]);
    TgMessage::new(TgMessageKind::Block, &payload, [0xFFu8; 32], height)
}

#[test]
fn test_ingest_valid_message() {
    let mut sub = make_subscriber();
    let msg = make_block_msg(10);
    sub.ingest(msg, sub.current_time).unwrap();
    assert_eq!(sub.buffered_count(), 1);
    assert_eq!(sub.latest_height, 10);
}

#[test]
fn test_ingest_wrong_sender_rejected() {
    let mut sub = make_subscriber();
    let msg = TgMessage::new(TgMessageKind::Block, &[0u8; 40], [0x01u8; 32], 0);
    let err = sub.ingest(msg, sub.current_time).unwrap_err();
    assert_eq!(err, MasterChannelError::UnauthorisedSender);
    assert_eq!(sub.total_rejected, 1);
}

#[test]
fn test_ingest_stale_message_rejected() {
    let mut sub = make_subscriber();
    let msg = make_block_msg(5);
    let stale_ts = sub.current_time - MASTER_MSG_MAX_AGE_SECS - 1;
    let err = sub.ingest(msg, stale_ts).unwrap_err();
    assert_eq!(err, MasterChannelError::StaleMessage);
}

#[test]
fn test_latest_height_updates() {
    let mut sub = make_subscriber();
    sub.ingest(make_block_msg(1), sub.current_time).unwrap();
    sub.ingest(make_block_msg(5), sub.current_time).unwrap();
    sub.ingest(make_block_msg(3), sub.current_time).unwrap();
    assert_eq!(sub.latest_height, 5);
}

#[test]
fn test_drain_events() {
    let mut sub = make_subscriber();
    sub.ingest(make_block_msg(1), sub.current_time).unwrap();
    sub.ingest(make_block_msg(2), sub.current_time).unwrap();
    let events = sub.drain_events();
    assert_eq!(events.len(), 2);
    assert_eq!(sub.buffered_count(), 0);
}

#[test]
fn test_is_synced_after_block() {
    let mut sub = make_subscriber();
    assert!(!sub.is_synced());
    sub.ingest(make_block_msg(1), sub.current_time).unwrap();
    assert!(sub.is_synced());
}

#[test]
fn test_buffer_overflow_drops_oldest() {
    let mut sub = make_subscriber();
    for i in 0..=MASTER_CHANNEL_BUFFER {
        sub.ingest(make_block_msg(i as u64), sub.current_time).unwrap();
    }
    assert_eq!(sub.buffered_count(), MASTER_CHANNEL_BUFFER);
}

#[test]
fn overflow_drops_the_oldest_event() {
    let mut sub = make_subscriber();
    for i in 0..=MASTER_CHANNEL_BUFFER {
        sub.ingest(make_block_msg(i as u64), sub.current_time).unwrap();
    }
    let first = sub.next_event().unwrap();
    assert_eq!(first.ref_height, 1);
    assert_eq!(first.kind, MasterMsgKind::NewBlock);
    assert_eq!(sub.total_received, MASTER_CHANNEL_BUFFER as u64 + 1);
}

#[test]
fn events_decode_kind_height_and_hash() {
    let mut sub = make_subscriber();
    let now = sub.current_time;
    sub.ingest(make_block_msg(9), now - MASTER_MSG_MAX_AGE_SECS).unwrap();
    assert_eq!(sub.latest_hash, [0xCCu8; 32]);
    let patch = TgMessage::new(TgMessageKind::Patch, &7u64.to_le_bytes(), [0xFFu8; 32], 1);
    sub.ingest(patch, now).unwrap();
    let ping = TgMessage::new(TgMessageKind::Ping, &[1u8; 3], [0xFFu8; 32], 2);
    sub.ingest(ping, now + 1_000).unwrap();
    let inv = TgMessage::new(TgMessageKind::Inv, &[0u8; 0], [0xFFu8; 32], 3);
    sub.ingest(inv, now).unwrap();
    let events = sub.drain_events();
    let kinds: Vec<MasterMsgKind> = events.iter().map(|e| e.kind).collect();
    assert_eq!(
        kinds,
        vec![MasterMsgKind::NewBlock, MasterMsgKind::PatchAnnouncement, MasterMsgKind::Raw, MasterMsgKind::Checkpoint]
    );
    let heights: Vec<u64> = events.iter().map(|e| e.ref_height).collect();
    assert_eq!(heights, vec![9, 7, 0, 0]);
    assert!(events.iter().all(|e| e.received_at == now));
    assert_eq!(sub.latest_height, 9);
    assert_eq!(sub.total_rejected, 0);
}

#[test]
fn error_messages() {
    assert_eq!(MasterChannelError::UnauthorisedSender.message(), "unauthorised master channel sender");
    assert_eq!(MasterChannelError::StaleMessage.message(), "master channel message is stale");
    assert_eq!(MasterChannelError::DecodeFailed.message(), "failed to decode master channel message");
}

#[test]
fn mempool_never_exceeds_its_bound() {
    let mut node = make_node();
    let mut n: u32 = 0;
    for _round in 0..5 {
        for _ in 0..MAX_INBOUND_QUEUE {
            let mut payload = vec![0u8; 32];
            payload[..4].copy_from_slice(&n.to_le_bytes());
            n += 1;
            assert!(node.receive(TgMessage::new(TgMessageKind::Tx, &payload, [9u8; 32], 0)));
        }
        node.process_inbound();
    }
    assert_eq!(node.mempool_size(), MAX_MEMPOOL_SIZE);
}

#[test]
fn sync_expires_without_fresh_heights() {
    let mut sub = make_subscriber();
    sub.ingest(make_block_msg(4), sub.current_time).unwrap();
    assert!(sub.is_synced());
    sub.current_time += MASTER_MSG_MAX_AGE_SECS;
    assert!(sub.is_synced());
    sub.current_time += 700;
    assert!(!sub.is_synced());
    // a lower height does not refresh the sync time
    sub.ingest(make_block_msg(2), sub.current_time).unwrap();
    assert!(!sub.is_synced());
    sub.ingest(make_block_msg(9), sub.current_time).unwrap();
    assert!(sub.is_synced());
}
