use lib::pow::{
    mine, retarget, sha256, sha256d, verify_block, BlockHeader, Difficulty, RETARGET_INTERVAL,
    TARGET_BLOCK_TIME_SECS,
};

fn dummy_header(difficulty_bits: u32) -> BlockHeader {
    BlockHeader {
        height: 1,
        prev_hash: [0u8; 32],
        tx_root: [0u8; 32],
        timestamp: 1_700_000_000,
        difficulty: Difficulty::from_bits(difficulty_bits),
        nonce: 0,
    }
}

#[test]
fn test_sha256_known_vector() {
    let hash = sha256(b"");
    assert_eq!(hash[0], 0xe3);
    assert_eq!(hash[1], 0xb0);
}

#[test]
fn test_sha256_abc() {
    let hash = sha256(b"abc");
    assert_eq!(hash[0], 0xba);
    assert_eq!(hash[1], 0x78);
}

#[test]
fn test_difficulty_target_leading_zeros() {
    let d = Difficulty::from_bits(8);
    let target = d.to_target();
    assert_eq!(target[0], 0x00);
    assert_eq!(target[1], 0xFF);
}

#[test]
fn test_mine_low_difficulty() {
    let mut header = dummy_header(1);
    let result = mine(&mut header, 1_000);
    assert!(result.is_some(), "should find a nonce within 1000 attempts at difficulty 1");
    let r = result.unwrap();
    assert!(header.difficulty.is_met_by(&r.hash));
}

#[test]
fn test_verify_block_after_mine() {
    let mut header = dummy_header(4);
    mine(&mut header, 100_000).expect("should mine at difficulty 4");
    assert!(verify_block(&header));
}

#[test]
fn test_retarget_too_fast() {
    let current = Difficulty::from_bits(16);
    let expected = TARGET_BLOCK_TIME_SECS * RETARGET_INTERVAL;
    let new = retarget(current, expected / 2);
    assert!(new >= current);
}

#[test]
fn test_retarget_too_slow() {
    let current = Difficulty::from_bits(16);
    let expected = TARGET_BLOCK_TIME_SECS * RETARGET_INTERVAL;
    let new = retarget(current, expected * 2);
    assert!(new <= current);
}

#[test]
fn test_retarget_on_target() {
    let current = Difficulty::from_bits(16);
    let expected = TARGET_BLOCK_TIME_SECS * RETARGET_INTERVAL;
    let new = retarget(current, expected);
    assert_eq!(new, current);
}

// ── Further cases ────────────────────────────────────────────────────────────

fn hex(bytes: &[u8]) -> String {
    bytes.iter().map(|b| format!("{:02x}", b)).collect()
}

#[test]
fn sha256_full_digest_of_abc() {
    assert_eq!(
        hex(&sha256(b"abc")),
        "ba7816bf8f01cfea414140de5dae2223b00361a396177a9cb410ff61f20015ad"
    );
}

#[test]
fn sha256_two_block_message() {
    // 56 bytes: the padding spills into a second block.
    let msg = b"abcdbcdecdefdefgefghfghighijhijkijkljklmklmnlmnomnopnopq";
    assert_eq!(
        hex(&sha256(msg)),
        "248d6a61d20638b8e5c026930c3e6039a33ce45964ff2167f6ecedd419db06c1"
    );
}

#[test]
fn sha256d_is_sha256_twice() {
    let once = sha256(b"seer");
    assert_eq!(sha256d(b"seer"), sha256(&once));
}

#[test]
fn difficulty_target_partial_byte() {
    let t = Difficulty::from_bits(12).to_target();
    assert_eq!(t[0], 0x00);
    assert_eq!(t[1], 0x0F);
    assert_eq!(t[2], 0xFF);
    assert_eq!(t[31], 0xFF);
}

#[test]
fn difficulty_target_is_a_strict_bound() {
    // a hash must be strictly below the target
    assert!(Difficulty::from_bits(0).is_met_by(&[0xFEu8; 32]));
    assert!(!Difficulty::from_bits(0).is_met_by(&[0xFFu8; 32]));
    let mut h = [0xFFu8; 32];
    h[0] = 0x7F;
    assert!(!Difficulty::from_bits(1).is_met_by(&h));
    h[1] = 0xFE;
    assert!(Difficulty::from_bits(1).is_met_by(&h));
}

#[test]
fn mine_finds_first_passing_nonce() {
    let mut header = dummy_header(4);
    let r = mine(&mut header, 100_000).unwrap();
    assert_eq!(header.nonce, r.nonce);
    assert_eq!(r.attempts, r.nonce + 1);
    // every earlier nonce fails the target
    for n in 0..r.nonce {
        let mut h = dummy_header(4);
        h.nonce = n;
        assert!(!verify_block(&h));
    }
}

#[test]
fn mine_gives_up_after_budget() {
    let mut header = dummy_header(64);
    assert!(mine(&mut header, 3).is_none());
}

#[test]
fn retarget_is_clamped_to_factor_four() {
    let current = Difficulty::from_bits(16);
    let expected = TARGET_BLOCK_TIME_SECS * RETARGET_INTERVAL;
    let fast = retarget(current, 1);
    let slow = retarget(current, expected * 100);
    assert!(fast.bits() >= 16);
    assert!(slow.bits() <= 16);
    assert_eq!(retarget(current, expected * 4), retarget(current, expected * 100));
}

#[test]
fn retarget_moves_by_floor_log2_of_ratio() {
    let current = Difficulty::from_bits(16);
    let expected = TARGET_BLOCK_TIME_SECS * RETARGET_INTERVAL;
    assert_eq!(retarget(current, expected / 4).bits(), 18);
    assert_eq!(retarget(current, expected / 3).bits(), 17);
    assert_eq!(retarget(current, expected / 2).bits(), 17);
    assert_eq!(retarget(current, expected - 1).bits(), 16);
    assert_eq!(retarget(current, expected).bits(), 16);
    assert_eq!(retarget(current, expected * 2).bits(), 15);
    assert_eq!(retarget(current, expected * 3).bits(), 15);
    assert_eq!(retarget(current, expected * 4).bits(), 14);
    assert_eq!(retarget(current, 1).bits(), 18);
    assert_eq!(retarget(Difficulty::from_bits(1), expected * 4).bits(), 1);
}

#[test]
fn slower_epochs_never_get_higher_difficulty() {
    let current = Difficulty::from_bits(16);
    let mut previous = retarget(current, 0).bits();
    let mut secs: u64 = 0;
    while secs <= 100_000 {
        let bits = retarget(current, secs).bits();
        assert!(bits <= previous);
        previous = bits;
        secs += 97;
    }
}
