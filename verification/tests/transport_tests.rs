use lib::transport::{
    decode_inv, encode_inv, encode_ping, encode_pong, hex_decode, hex_encode, TgMessage,
    TgMessageKind, TransportError,
};

#[test]
fn test_round_trip_tx_message() {
    let payload = b"fake_transaction_bytes_here";
    let sender = [0x01u8; 32];
    let msg = TgMessage::new(TgMessageKind::Tx, payload, sender, 42);
    let wire = msg.to_wire();
    assert!(wire.starts_with("SEER/TX/42/"));
    let parsed = TgMessage::from_wire(&wire).unwrap();
    assert_eq!(parsed.kind, TgMessageKind::Tx);
    assert_eq!(parsed.seq, 42);
    assert_eq!(parsed.payload_bytes().unwrap(), payload);
}

#[test]
fn test_round_trip_block_message() {
    let payload = vec![0xBBu8; 64];
    let sender = [0x02u8; 32];
    let msg = TgMessage::new(TgMessageKind::Block, &payload, sender, 1);
    let wire = msg.to_wire();
    let parsed = TgMessage::from_wire(&wire).unwrap();
    assert_eq!(parsed.kind, TgMessageKind::Block);
    assert_eq!(parsed.payload_bytes().unwrap(), payload);
}

#[test]
fn test_malformed_wire_rejected() {
    assert_eq!(TgMessage::from_wire("garbage"), Err(TransportError::MalformedMessage));
    assert_eq!(TgMessage::from_wire("NOTSR/TX/0/aabb/cc"), Err(TransportError::UnknownProtocol));
    assert_eq!(TgMessage::from_wire("SEER/UNKNOWN/0/aabb/cc"), Err(TransportError::UnknownMessageKind));
}

#[test]
fn test_inv_encode_decode() {
    let hashes = vec![[0x01u8; 32], [0x02u8; 32], [0x03u8; 32]];
    let sender = [0x05u8; 32];
    let msg = encode_inv(&hashes, sender, 7);
    let decoded = decode_inv(&msg).unwrap();
    assert_eq!(decoded, hashes);
}

#[test]
fn test_ping_pong() {
    let sender = [0x0Au8; 32];
    let ping = encode_ping(sender, 1);
    assert_eq!(ping.kind, TgMessageKind::Ping);
    let pong = encode_pong(sender, 1);
    assert_eq!(pong.kind, TgMessageKind::Pong);
}

#[test]
fn test_hex_encode_decode_roundtrip() {
    let bytes = vec![0x00u8, 0xAB, 0xFF, 0x12];
    let hex = hex_encode(&bytes);
    assert_eq!(hex, "00abff12");
    assert_eq!(hex_decode(&hex).unwrap(), bytes);
}

#[test]
fn test_hex_decode_odd_length_fails() {
    assert!(hex_decode("abc").is_err());
}

#[test]
fn test_all_message_kinds_roundtrip() {
    let kinds = [
        TgMessageKind::Tx,
        TgMessageKind::Block,
        TgMessageKind::Patch,
        TgMessageKind::Inv,
        TgMessageKind::Ping,
        TgMessageKind::Pong,
    ];
    for kind in &kinds {
        let parsed = TgMessageKind::from_prefix(kind.prefix()).unwrap();
        assert_eq!(&parsed, kind);
    }
}

// ── Further cases ────────────────────────────────────────────────────────────

#[test]
fn wire_text_exact() {
    let msg = TgMessage::new(TgMessageKind::Ping, &[0xAB], [0x01u8; 32], 7);
    assert_eq!(msg.to_wire(), format!("SEER/PING/7/{}/ab", "01".repeat(32)));
}

#[test]
fn hex_encode_changes_input() {
    // each byte becomes two lowercase digits
    assert_eq!(hex_encode(&[]), "");
    assert_eq!(hex_encode(&[0x0F, 0xA0]), "0fa0");
}

#[test]
fn hex_decode_accepts_only_digit_pairs() {
    assert_eq!(hex_decode("").unwrap(), Vec::<u8>::new());
    assert_eq!(hex_decode("AbCd").unwrap(), vec![0xAB, 0xCD]);
    assert!(hex_decode("zz").is_err());
    // only hex digits are accepted
    assert!(hex_decode("+f").is_err());
    assert!(hex_decode("f+").is_err());
    assert!(hex_decode("0x").is_err());
}

#[test]
fn from_wire_field_checks() {
    let sender = "01".repeat(32);
    assert_eq!(
        TgMessage::from_wire(&format!("SEER/TX/notanumber/{sender}/00")),
        Err(TransportError::MalformedMessage)
    );
    assert_eq!(TgMessage::from_wire("SEER/TX/1/short/00"), Err(TransportError::MalformedMessage));
    let m = TgMessage::from_wire(&format!("SEER/TX/+12/{sender}/zz/extra")).unwrap();
    assert_eq!(m.seq, 12);
    assert_eq!(m.payload_hex, "zz/extra");
    assert_eq!(m.payload_bytes(), Err(TransportError::InvalidHex));
    assert_eq!(
        TgMessage::from_wire(&format!("SEER/TX/18446744073709551616/{sender}/00")),
        Err(TransportError::MalformedMessage)
    );
}

#[test]
fn every_kind_prefix_round_trips() {
    let kinds = [
        TgMessageKind::GetBlock,
        TgMessageKind::Status,
        TgMessageKind::Register,
        TgMessageKind::Peer,
    ];
    for kind in &kinds {
        assert_eq!(TgMessageKind::from_prefix(kind.prefix()).as_ref(), Some(kind));
    }
    assert_eq!(TgMessageKind::GetBlock.prefix(), "GETBLOCK");
    assert!(TgMessageKind::from_prefix("tx").is_none());
}

#[test]
fn decode_inv_rejects_partial_hash() {
    let msg = TgMessage::new(TgMessageKind::Inv, &[1u8; 33], [0u8; 32], 0);
    assert_eq!(decode_inv(&msg), Err(TransportError::MalformedMessage));
    let empty = encode_inv(&[], [0u8; 32], 0);
    assert_eq!(decode_inv(&empty).unwrap(), Vec::<[u8; 32]>::new());
}

#[test]
fn ping_carries_sender_as_payload() {
    let ping = encode_ping([0x0Au8; 32], 3);
    assert_eq!(ping.payload_bytes().unwrap(), vec![0x0Au8; 32]);
    assert_eq!(ping.sender_id, hex_encode(&[0x0Au8; 32]));
    assert_eq!(ping.seq, 3);
}
