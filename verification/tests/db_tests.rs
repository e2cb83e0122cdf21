use lib::db::meta_keys;
use lib::db::{DbError, MemDb, WriteBatch, CF_BLOCKS, CF_CELLS, CF_META};

#[test]
fn test_put_and_get() {
    let mut db = MemDb::open();
    db.put(CF_CELLS, b"key1".to_vec(), b"value1".to_vec()).unwrap();
    let v = db.get(CF_CELLS, b"key1").unwrap();
    assert_eq!(v, b"value1");
}

#[test]
fn test_not_found() {
    let db = MemDb::open();
    assert_eq!(db.get(CF_CELLS, b"missing"), Err(DbError::NotFound));
}

#[test]
fn test_delete() {
    let mut db = MemDb::open();
    db.put(CF_CELLS, b"k".to_vec(), b"v".to_vec()).unwrap();
    db.delete(CF_CELLS, b"k").unwrap();
    assert_eq!(db.get(CF_CELLS, b"k"), Err(DbError::NotFound));
}

#[test]
fn test_write_batch_atomic() {
    let mut db = MemDb::open();
    let mut batch = WriteBatch::new();
    batch.put(CF_CELLS, b"a".to_vec(), b"1".to_vec());
    batch.put(CF_BLOCKS, b"b".to_vec(), b"2".to_vec());
    db.write_batch(batch).unwrap();
    assert_eq!(db.get(CF_CELLS, b"a").unwrap(), b"1");
    assert_eq!(db.get(CF_BLOCKS, b"b").unwrap(), b"2");
}

#[test]
fn test_write_batch_rollback_on_bad_cf() {
    let mut db = MemDb::open();
    let mut batch = WriteBatch::new();
    batch.put(CF_CELLS, b"good".to_vec(), b"ok".to_vec());
    batch.put("nonexistent_cf", b"bad".to_vec(), b"fail".to_vec());
    let result = db.write_batch(batch);
    assert!(result.is_err());
    assert_eq!(db.get(CF_CELLS, b"good"), Err(DbError::NotFound));
}

#[test]
fn test_read_only_rejects_writes() {
    let mut db = MemDb::open_read_only();
    let result = db.put(CF_CELLS, b"k".to_vec(), b"v".to_vec());
    assert_eq!(result, Err(DbError::ReadOnly));
}

#[test]
fn test_cell_convenience_helpers() {
    let mut db = MemDb::open();
    let hash = [0xABu8; 32];
    let data = vec![1, 2, 3, 4];
    db.put_cell(&hash, &data).unwrap();
    assert_eq!(db.get_cell(&hash).unwrap(), data);
}

#[test]
fn test_meta_helpers() {
    let mut db = MemDb::open();
    db.put_meta(&meta_keys::BLOCK_HEIGHT, b"42").unwrap();
    assert_eq!(db.get_meta(&meta_keys::BLOCK_HEIGHT).unwrap(), b"42");
}

// ── Further cases ────────────────────────────────────────────────────────────

#[test]
fn unknown_column_family_is_named() {
    let mut db = MemDb::open();
    assert_eq!(db.get("nope", b"k"), Err(DbError::UnknownColumnFamily("nope".to_string())));
    assert_eq!(
        db.put("nope", b"k".to_vec(), b"v".to_vec()),
        Err(DbError::UnknownColumnFamily("nope".to_string()))
    );
    assert_eq!(db.delete("nope", b"k"), Err(DbError::UnknownColumnFamily("nope".to_string())));
    assert!(!db.key_exists("nope", b"k"));
    assert_eq!(db.count("nope"), 0);
}

#[test]
fn overwrite_and_count() {
    let mut db = MemDb::open();
    db.put(CF_META, b"x".to_vec(), b"1".to_vec()).unwrap();
    db.put(CF_META, b"x".to_vec(), b"2".to_vec()).unwrap();
    db.put(CF_META, b"y".to_vec(), b"3".to_vec()).unwrap();
    assert_eq!(db.get(CF_META, b"x").unwrap(), b"2");
    assert_eq!(db.count(CF_META), 2);
    assert!(db.key_exists(CF_META, b"y"));
    // deleting a missing key is fine
    db.delete(CF_META, b"zzz").unwrap();
    assert_eq!(db.count(CF_META), 2);
}

#[test]
fn batch_applies_in_order_with_deletes() {
    let mut db = MemDb::open();
    db.put(CF_BLOCKS, b"old".to_vec(), b"o".to_vec()).unwrap();
    let mut batch = WriteBatch::new();
    assert!(batch.is_empty());
    batch.put(CF_BLOCKS, b"k".to_vec(), b"1".to_vec());
    batch.put(CF_BLOCKS, b"k".to_vec(), b"2".to_vec());
    batch.delete(CF_BLOCKS, b"old".to_vec());
    assert_eq!(batch.len(), 3);
    db.write_batch(batch).unwrap();
    assert_eq!(db.get(CF_BLOCKS, b"k").unwrap(), b"2");
    assert!(!db.key_exists(CF_BLOCKS, b"old"));
}

#[test]
fn read_only_rejects_every_write() {
    let mut db = MemDb::open_read_only();
    assert_eq!(db.delete(CF_CELLS, b"k"), Err(DbError::ReadOnly));
    let mut batch = WriteBatch::new();
    batch.put(CF_CELLS, b"a".to_vec(), b"1".to_vec());
    assert_eq!(db.write_batch(batch), Err(DbError::ReadOnly));
    assert_eq!(db.put_block(&[1u8; 32], b"blk"), Err(DbError::ReadOnly));
    assert_eq!(db.get(CF_CELLS, b"a"), Err(DbError::NotFound));
}

#[test]
fn block_helpers_and_meta_keys() {
    let mut db = MemDb::open();
    db.put_block(&[7u8; 32], b"block").unwrap();
    assert_eq!(db.get_block(&[7u8; 32]).unwrap(), b"block");
    assert_eq!(db.get_cell(&[7u8; 32]), Err(DbError::NotFound));
    assert_eq!(&meta_keys::CHAIN_TIP, b"chain_tip");
    assert_eq!(&meta_keys::GENESIS_HASH, b"genesis_hash");
    assert_eq!(&meta_keys::BLOCK_HEIGHT, b"block_height");
}
