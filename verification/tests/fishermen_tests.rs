use lib::fishermen::{
    FishermanError, FishermanRecord, FishermanRegistry, FraudKind, FraudProof, Hash32, MIN_STAKE,
};

fn id(byte: u8) -> Hash32 {
    [byte; 32]
}

fn valid_proof(reporter: Hash32, accused: Hash32) -> FraudProof {
    FraudProof::new(
        id(0xAA),
        reporter,
        accused,
        FraudKind::StateRootMismatch { block_hash: id(1), claimed_root: id(2), actual_root: id(3) },
        vec![0xDE, 0xAD, 0xBE, 0xEF],
    )
}

#[test]
fn test_register_and_stake() {
    let mut reg = FishermanRegistry::new();
    reg.register(id(1), MIN_STAKE).unwrap();
    assert_eq!(reg.count(), 1);
    reg.add_stake(&id(1), 500).unwrap();
    assert_eq!(reg.get(&id(1)).unwrap().stake, MIN_STAKE + 500);
}

#[test]
fn test_register_below_min_stake() {
    let mut reg = FishermanRegistry::new();
    assert_eq!(reg.register(id(1), 100), Err(FishermanError::InsufficientStake));
}

#[test]
fn test_duplicate_registration() {
    let mut reg = FishermanRegistry::new();
    reg.register(id(1), MIN_STAKE).unwrap();
    assert_eq!(reg.register(id(1), MIN_STAKE), Err(FishermanError::AlreadyRegistered));
}

#[test]
fn test_valid_proof_rewards_reporter() {
    let mut reg = FishermanRegistry::new();
    reg.register(id(1), MIN_STAKE).unwrap();
    let proof = valid_proof(id(1), id(2));
    let reward = reg.submit_proof(proof).unwrap();
    assert!(reward > 0);
    assert_eq!(reg.get(&id(1)).unwrap().successful_reports, 1);
}

#[test]
fn test_duplicate_proof_rejected() {
    let mut reg = FishermanRegistry::new();
    reg.register(id(1), MIN_STAKE).unwrap();
    let proof = valid_proof(id(1), id(2));
    reg.submit_proof(proof.clone()).unwrap();
    assert_eq!(reg.submit_proof(proof), Err(FishermanError::DuplicateProof));
}

#[test]
fn test_self_report_rejected() {
    let mut reg = FishermanRegistry::new();
    reg.register(id(1), MIN_STAKE).unwrap();
    let proof = valid_proof(id(1), id(1));
    let result = reg.submit_proof(proof);
    assert_eq!(result, Err(FishermanError::SelfReport));
}

#[test]
fn test_slash_deactivates_below_min() {
    let mut record = FishermanRecord::new(id(1), MIN_STAKE);
    record.slash(95);
    assert!(!record.active);
}

#[test]
fn test_active_count() {
    let mut reg = FishermanRegistry::new();
    reg.register(id(1), MIN_STAKE).unwrap();
    reg.register(id(2), MIN_STAKE).unwrap();
    assert_eq!(reg.active_count(), 2);
}

// ── Further cases ────────────────────────────────────────────────────────────

#[test]
fn reward_is_thirty_percent_of_min_stake() {
    let mut reg = FishermanRegistry::new();
    reg.register(id(1), MIN_STAKE).unwrap();
    assert_eq!(reg.submit_proof(valid_proof(id(1), id(2))).unwrap(), 300);
    assert_eq!(reg.get(&id(1)).unwrap().rewards_earned, 300);
}

#[test]
fn invalid_evidence_slashes_reporter() {
    let mut reg = FishermanRegistry::new();
    reg.register(id(1), 2_000).unwrap();
    let bogus = FraudProof::new(
        id(0x10),
        id(1),
        id(2),
        FraudKind::EquivocatingBlock { block_a: id(5), block_b: id(5), height: 9 },
        vec![1],
    );
    assert_eq!(reg.submit_proof(bogus), Err(FishermanError::NoFraudEvidence));
    let rec = reg.get(&id(1)).unwrap();
    assert_eq!(rec.stake, 1_800);
    assert_eq!(rec.failed_reports, 1);
    assert!(rec.active);
}

#[test]
fn unsigned_proof_and_unknown_reporter() {
    let mut reg = FishermanRegistry::new();
    let unsigned = FraudProof::new(
        id(0x11),
        id(1),
        id(2),
        FraudKind::InvalidTransaction { block_hash: id(4), tx_index: 0, tx_bytes: vec![1, 2] },
        vec![],
    );
    assert_eq!(unsigned.validate(), Err(FishermanError::InvalidSignature));
    assert_eq!(reg.submit_proof(valid_proof(id(1), id(2))), Err(FishermanError::NotRegistered));
    assert_eq!(reg.add_stake(&id(9), 5), Err(FishermanError::NotRegistered));
}

#[test]
fn deactivated_reporter_is_refused() {
    let mut reg = FishermanRegistry::new();
    reg.register(id(1), MIN_STAKE).unwrap();
    let bogus = FraudProof::new(
        id(0x12),
        id(1),
        id(2),
        FraudKind::StateRootMismatch { block_hash: id(1), claimed_root: id(7), actual_root: id(7) },
        vec![1],
    );
    assert_eq!(reg.submit_proof(bogus), Err(FishermanError::NoFraudEvidence));
    assert!(!reg.get(&id(1)).unwrap().active);
    assert_eq!(reg.active_count(), 0);
    assert_eq!(reg.submit_proof(valid_proof(id(1), id(2))), Err(FishermanError::Deactivated));
}

#[test]
fn record_arithmetic_saturates() {
    let mut r = FishermanRecord::new(id(3), u64::MAX - 1);
    r.add_stake(10);
    assert_eq!(r.stake, u64::MAX);
    r.credit_reward(u64::MAX);
    r.credit_reward(1);
    assert_eq!(r.rewards_earned, u64::MAX);
    assert_eq!(r.successful_reports, 2);
}

#[test]
fn registration_grows_both_counts() {
    let mut reg = FishermanRegistry::new();
    reg.register(id(1), MIN_STAKE).unwrap();
    let (c, a) = (reg.count(), reg.active_count());
    reg.register(id(2), MIN_STAKE + 1).unwrap();
    assert_eq!(reg.count(), c + 1);
    assert_eq!(reg.active_count(), a + 1);
    assert!(reg.register(id(2), MIN_STAKE).is_err());
    assert_eq!(reg.count(), c + 1);
}
