use lib::block::{merkle_root, validate_block, validate_block_linkage, Block, BlockError, BlockHeader};
use lib::pow::sha256d;
use lib::transaction::Transaction;

fn make_coinbase(height: u64) -> Transaction {
    Transaction::coinbase([0xAAu8; 32], 5_000_000_000, height)
}

fn make_block_with_difficulty(difficulty: u32) -> Block {
    let coinbase = make_coinbase(1);
    let txs = vec![coinbase];
    let tx_hashes: Vec<[u8; 32]> = txs.iter().map(|tx| *tx.hash()).collect();
    let tx_root = merkle_root(&tx_hashes);
    let state_root = [0u8; 32];
    let miner = [0xBBu8; 32];
    for nonce in 0u64..10_000_000 {
        let header = BlockHeader {
            height: 1,
            prev_hash: [0u8; 32],
            tx_root,
            state_root,
            timestamp: 1_700_000_000,
            difficulty,
            nonce,
            miner,
        };
        if header.meets_difficulty() {
            return Block { header, transactions: txs };
        }
    }
    panic!("could not mine block at difficulty {difficulty} within 10M nonces");
}

#[test]
fn test_merkle_root_empty() {
    assert_eq!(merkle_root(&[]), [0u8; 32]);
}

#[test]
fn test_merkle_root_single() {
    let hash = [1u8; 32];
    assert_eq!(merkle_root(&[hash]), hash);
}

#[test]
fn test_merkle_root_two_elements() {
    let h1 = [1u8; 32];
    let h2 = [2u8; 32];
    let mut combined = [0u8; 64];
    combined[..32].copy_from_slice(&h1);
    combined[32..].copy_from_slice(&h2);
    let expected = sha256d(&combined);
    assert_eq!(merkle_root(&[h1, h2]), expected);
}

#[test]
fn test_block_hash_deterministic() {
    let block = make_block_with_difficulty(1);
    assert_eq!(block.hash(), block.hash());
}

#[test]
fn test_validate_block_ok() {
    let block = make_block_with_difficulty(1);
    assert!(validate_block(&block).is_ok(), "valid block should pass");
}

#[test]
fn test_validate_block_missing_coinbase() {
    let mut block = make_block_with_difficulty(1);
    block.transactions.clear();
    block.header.tx_root = merkle_root(&[]);
    assert_eq!(validate_block(&block), Err(BlockError::MissingCoinbase));
}

#[test]
fn test_validate_block_merkle_mismatch() {
    let mut block = make_block_with_difficulty(1);
    block.header.tx_root = [0xFFu8; 32];
    assert_eq!(validate_block(&block), Err(BlockError::MerkleRootMismatch));
}

#[test]
fn test_block_linkage_ok() {
    let parent_hash = [0u8; 32];
    let block = make_block_with_difficulty(1);
    assert!(validate_block_linkage(&block, &parent_hash, 0).is_ok());
}

#[test]
fn test_block_linkage_wrong_prev_hash() {
    let block = make_block_with_difficulty(1);
    let wrong_parent = [0xFFu8; 32];
    assert_eq!(
        validate_block_linkage(&block, &wrong_parent, 0),
        Err(BlockError::PrevHashMismatch)
    );
}

#[test]
fn test_block_linkage_wrong_height() {
    let block = make_block_with_difficulty(1);
    assert_eq!(
        validate_block_linkage(&block, &[0u8; 32], 5),
        Err(BlockError::InvalidHeight { expected: 6, got: 1 })
    );
}

#[test]
fn test_block_total_fees() {
    let block = make_block_with_difficulty(1);
    assert_eq!(block.total_fees(), 0);
}

#[test]
fn test_genesis_detection() {
    let coinbase = make_coinbase(0);
    let block = Block::new(0, [0u8; 32], [0u8; 32], 0, 0, 0, [0u8; 32], vec![coinbase]);
    assert!(block.is_genesis());
}

// ── Further cases ────────────────────────────────────────────────────────────

#[test]
fn merkle_root_odd_layer_duplicates_last() {
    let a = [1u8; 32];
    let b = [2u8; 32];
    let c = [3u8; 32];
    assert_eq!(merkle_root(&[a, b, c]), merkle_root(&[a, b, c, c]));
    let mut ab = Vec::new();
    ab.extend_from_slice(&a);
    ab.extend_from_slice(&b);
    let mut cc = Vec::new();
    cc.extend_from_slice(&c);
    cc.extend_from_slice(&c);
    let mut top = Vec::new();
    top.extend_from_slice(&sha256d(&ab));
    top.extend_from_slice(&sha256d(&cc));
    assert_eq!(merkle_root(&[a, b, c]), sha256d(&top));
}

#[test]
fn validate_block_insufficient_work() {
    let mut block = make_block_with_difficulty(1);
    block.header.difficulty = 255;
    assert_eq!(validate_block(&block), Err(BlockError::InsufficientWork));
}

#[test]
fn validate_block_coinbase_not_first_and_duplicate() {
    let transfer = Transaction::transfer([1u8; 32], [2u8; 32], 10, 2, 1, 0);
    let mut block = Block::new(1, [0u8; 32], [0u8; 32], 0, 0, 0, [0u8; 32], vec![transfer.clone(), make_coinbase(1)]);
    assert_eq!(validate_block(&block), Err(BlockError::CoinbaseNotFirst));
    block = Block::new(1, [0u8; 32], [0u8; 32], 0, 0, 0, [0u8; 32], vec![make_coinbase(1), make_coinbase(2)]);
    assert_eq!(validate_block(&block), Err(BlockError::DuplicateCoinbase));
}

#[test]
fn block_fee_and_burn_totals() {
    let t1 = Transaction::transfer([1u8; 32], [2u8; 32], 10, 7, 3, 0);
    let t2 = Transaction::transfer([1u8; 32], [2u8; 32], 10, 5, 5, 1);
    let block = Block::new(1, [0u8; 32], [0u8; 32], 0, 0, 0, [0u8; 32], vec![make_coinbase(1), t1, t2]);
    assert_eq!(block.total_fees(), 12);
    assert_eq!(block.total_burned(), 8);
    // the coinbase is not counted
    assert_eq!(block.tx_count(), 2);
    assert!(block.coinbase().is_some());
    assert!(!block.is_genesis());
    assert!(validate_block(&block).is_ok());
}
