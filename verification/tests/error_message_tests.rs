use lib::block::BlockError;
use lib::cell::CellError;
use lib::db::DbError;
use lib::fishermen::FishermanError;
use lib::ledger::LedgerError;
use lib::transaction::TxError;
use lib::transport::TransportError;
use lib::vertical_patch::PatchError;
use lib::zero_channel::ZcError;

#[test]
fn block_error_messages() {
    assert_eq!(BlockError::InsufficientWork.message(), "block hash does not meet difficulty");
    assert_eq!(BlockError::TooManyTransactions(4097).message(), "too many transactions: 4097");
    assert_eq!(
        BlockError::InvalidHeight { expected: 6, got: 1 }.message(),
        "invalid height: expected 6, got 1"
    );
    assert_eq!(BlockError::PrevHashMismatch.message(), "prev_hash does not match parent block");
}

#[test]
fn cell_error_messages() {
    assert_eq!(CellError::DataTooLarge(129).message(), "cell data too large: 129 bytes (max 128)");
    assert_eq!(CellError::TooManyRefs(0).message(), "too many refs: 0 (max 4)");
    let mut h = [0u8; 32];
    h[0] = 0xAB;
    h[1] = 0x0C;
    assert_eq!(CellError::RefNotFound(h).message(), "referenced cell not found: ab0c...");
    assert_eq!(CellError::CircularReference.message(), "circular reference detected");
}

#[test]
fn ledger_error_messages_nest() {
    assert_eq!(
        LedgerError::BlockInvalid(BlockError::MerkleRootMismatch).message(),
        "block invalid: Merkle root mismatch"
    );
    let mut h = [0u8; 32];
    h[0] = 0x01;
    h[1] = 0xFF;
    assert_eq!(
        LedgerError::TxInvalid { tx_hash: h, reason: TxError::NonceReused(3) }.message(),
        "tx 01ff.. invalid: nonce already used: 3"
    );
    assert_eq!(
        LedgerError::NotExtendingTip { expected_prev: [0u8; 32], got_prev: [1u8; 32] }.message(),
        "block does not extend chain tip"
    );
    assert_eq!(LedgerError::NoGenesis.message(), "no genesis block applied");
}

#[test]
fn tx_error_messages() {
    assert_eq!(
        TxError::InsufficientBalance { needed: 110, available: 0 }.message(),
        "insufficient balance: needed 110, available 0"
    );
    assert_eq!(TxError::BurnExceedsFee.message(), "burned amount exceeds the fee");
}

#[test]
fn db_error_messages() {
    assert_eq!(DbError::UnknownColumnFamily("x".to_string()).message(), "unknown column family: x");
    assert_eq!(DbError::Io("disk full".to_string()).message(), "I/O error: disk full");
    assert_eq!(DbError::ReadOnly.message(), "database is read-only");
    assert_eq!(DbError::NotFound.message(), "key not found");
}

#[test]
fn simple_error_messages() {
    assert_eq!(FishermanError::SelfReport.message(), "reporter and accused are the same node");
    assert_eq!(FishermanError::DuplicateProof.message(), "proof ID already submitted");
    assert_eq!(PatchError::NoCorrection.message(), "corrected root is identical to stored root");
    assert_eq!(ZcError::ReplayDetected.message(), "nonce replay detected");
    assert_eq!(TransportError::InvalidHex.message(), "invalid hex encoding");
    assert_eq!(TransportError::EmptyPayload.message(), "empty payload");
}
