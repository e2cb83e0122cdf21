use lib::block::{merkle_root, Block, BlockHeader};
use lib::ledger::{Ledger, LedgerError};
use lib::transaction::{Transaction, TxError};

fn make_coinbase(recipient: [u8; 32], amount: u64, height: u64) -> Transaction {
    Transaction::coinbase(recipient, amount, height)
}

fn genesis_block(miner: [u8; 32], reward: u64) -> Block {
    let coinbase = make_coinbase(miner, reward, 0);
    Block::new(0, [0u8; 32], [0u8; 32], 1_700_000_000, 0, 0, miner, vec![coinbase])
}

fn block_at_1(prev_hash: [u8; 32], miner: [u8; 32], reward: u64) -> Block {
    let coinbase = make_coinbase(miner, reward, 1);
    let txs = vec![coinbase];
    let tx_root = merkle_root(&txs.iter().map(|tx| *tx.hash()).collect::<Vec<_>>());
    for nonce in 0u64..10_000_000 {
        let header = BlockHeader {
            height: 1,
            prev_hash,
            tx_root,
            state_root: [0u8; 32],
            timestamp: 1_700_000_001,
            difficulty: 1,
            nonce,
            miner,
        };
        if header.meets_difficulty() {
            return Block { header, transactions: txs };
        }
    }
    panic!("could not mine block at difficulty 1");
}

#[test]
fn test_apply_genesis_credits_miner() {
    let miner = [0xAAu8; 32];
    let mut ledger = Ledger::new();
    ledger.apply_genesis(genesis_block(miner, 1_000_000)).unwrap();
    assert_eq!(ledger.balance(&miner), 1_000_000);
    assert_eq!(ledger.circulating_supply, 1_000_000);
}

#[test]
fn test_apply_genesis_twice_fails() {
    let miner = [0xAAu8; 32];
    let mut ledger = Ledger::new();
    ledger.apply_genesis(genesis_block(miner, 1_000_000)).unwrap();
    let err = ledger.apply_genesis(genesis_block(miner, 1_000_000)).unwrap_err();
    assert_eq!(err, LedgerError::GenesisAlreadyApplied);
}

#[test]
fn test_apply_block_without_genesis_fails() {
    let mut ledger = Ledger::new();
    let miner = [0xAAu8; 32];
    let b = block_at_1([0u8; 32], miner, 500_000);
    assert_eq!(ledger.apply_block(b), Err(LedgerError::NoGenesis));
}

#[test]
fn test_apply_block_extends_tip() {
    let miner = [0xAAu8; 32];
    let mut ledger = Ledger::new();
    let genesis = genesis_block(miner, 1_000_000);
    let genesis_hash = ledger.apply_genesis(genesis).unwrap();
    let b1 = block_at_1(genesis_hash, miner, 500_000);
    ledger.apply_block(b1).unwrap();
    assert_eq!(ledger.tip_height, 1);
    assert_eq!(ledger.balance(&miner), 1_500_000);
}

#[test]
fn test_apply_block_wrong_prev_hash_fails() {
    let miner = [0xAAu8; 32];
    let mut ledger = Ledger::new();
    ledger.apply_genesis(genesis_block(miner, 1_000_000)).unwrap();
    let wrong_prev = [0xFFu8; 32];
    let b1 = block_at_1(wrong_prev, miner, 500_000);
    assert!(matches!(ledger.apply_block(b1), Err(LedgerError::BlockInvalid(_))));
}

#[test]
fn test_circulating_supply_tracks_burns() {
    let miner = [0xAAu8; 32];
    let mut ledger = Ledger::new();
    ledger.apply_genesis(genesis_block(miner, 1_000_000)).unwrap();
    assert_eq!(ledger.circulating_supply, 1_000_000);
    assert_eq!(ledger.total_burned, 0);
}

#[test]
fn test_account_nonce_increments() {
    let miner = [0xAAu8; 32];
    let mut ledger = Ledger::new();
    ledger.apply_genesis(genesis_block(miner, 1_000_000)).unwrap();
    assert_eq!(ledger.nonce(&miner), 0);
}

#[test]
fn test_block_hash_index() {
    let miner = [0xAAu8; 32];
    let mut ledger = Ledger::new();
    let genesis = genesis_block(miner, 1_000_000);
    let genesis_hash = ledger.apply_genesis(genesis).unwrap();
    assert_eq!(ledger.block_hash_at(0), Some(genesis_hash));
    assert_eq!(ledger.block_hash_at(999), None);
}

// ── Further cases ────────────────────────────────────────────────────────────

#[test]
fn transfer_moves_coins_and_burns() {
    let miner = [0xAAu8; 32];
    let bob = [0xBBu8; 32];
    let mut ledger = Ledger::new();
    let g = ledger.apply_genesis(genesis_block(miner, 1_000_000)).unwrap();
    let pay = Transaction::transfer(miner, bob, 100, 10, 4, 0);
    let b1 = Block::new(1, g, [0u8; 32], 1_700_000_100, 0, 0, miner, vec![make_coinbase(miner, 500_000, 1), pay]);
    let h1 = ledger.apply_block(b1).unwrap();
    assert_eq!(ledger.balance(&bob), 100);
    assert_eq!(ledger.balance(&miner), 1_000_000 + 500_000 - 110);
    assert_eq!(ledger.nonce(&miner), 1);
    assert_eq!(ledger.total_burned, 4);
    assert_eq!(ledger.circulating_supply, 1_500_000 - 4);
    assert_eq!(ledger.tip_hash, Some(h1));
    assert_eq!(ledger.block_hash_at(1), Some(h1));
    assert_eq!(ledger.active_account_count(), 2);
}

#[test]
fn rejected_transfer_leaves_ledger_unchanged() {
    let miner = [0xAAu8; 32];
    let bob = [0xBBu8; 32];
    let mut ledger = Ledger::new();
    let g = ledger.apply_genesis(genesis_block(miner, 1_000)).unwrap();
    let pay = Transaction::transfer(bob, miner, 100, 10, 0, 0);
    let b1 = Block::new(1, g, [0u8; 32], 1_700_000_100, 0, 0, miner, vec![make_coinbase(miner, 500, 1), pay.clone()]);
    let err = ledger.apply_block(b1).unwrap_err();
    assert_eq!(
        err,
        LedgerError::TxInvalid {
            tx_hash: *pay.hash(),
            reason: TxError::InsufficientBalance { needed: 110, available: 0 }
        }
    );
    assert_eq!(ledger.balance(&miner), 1_000);
    assert_eq!(ledger.tip_height, 0);
    assert_eq!(ledger.block_hash_at(1), None);
}

#[test]
fn genesis_must_be_at_height_zero() {
    let miner = [0xAAu8; 32];
    let mut ledger = Ledger::new();
    let b = Block::new(3, [0u8; 32], [0u8; 32], 0, 0, 0, miner, vec![make_coinbase(miner, 1, 3)]);
    assert_eq!(ledger.apply_genesis(b), Err(LedgerError::InvalidGenesisBlock));
    assert!(!ledger.has_genesis());
}
