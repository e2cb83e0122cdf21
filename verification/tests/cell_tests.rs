use lib::cell::{compute_cell_hash, BagOfCells, Cell, CellError, MAX_CELL_DATA_BYTES, MAX_CELL_REFS};

#[test]
fn test_leaf_cell_creation() {
    let cell = Cell::leaf(b"hello".to_vec()).unwrap();
    assert!(cell.is_leaf());
    assert_eq!(cell.ref_count(), 0);
    assert_ne!(*cell.hash(), [0u8; 32]);
}

#[test]
fn test_cell_data_too_large() {
    let big = vec![0u8; MAX_CELL_DATA_BYTES + 1];
    assert!(matches!(Cell::leaf(big), Err(CellError::DataTooLarge(_))));
}

#[test]
fn test_cell_too_many_refs() {
    let refs = vec![[0u8; 32]; MAX_CELL_REFS + 1];
    assert!(matches!(Cell::new(vec![], refs), Err(CellError::TooManyRefs(_))));
}

#[test]
fn test_cell_hash_deterministic() {
    let c1 = Cell::leaf(b"data".to_vec()).unwrap();
    let c2 = Cell::leaf(b"data".to_vec()).unwrap();
    assert_eq!(c1.hash(), c2.hash());
}

#[test]
fn test_cell_different_data_different_hash() {
    let c1 = Cell::leaf(b"a".to_vec()).unwrap();
    let c2 = Cell::leaf(b"b".to_vec()).unwrap();
    assert_ne!(c1.hash(), c2.hash());
}

#[test]
fn test_bag_insert_leaf() {
    let mut bag = BagOfCells::new();
    let leaf = Cell::leaf(b"leaf".to_vec()).unwrap();
    let hash = bag.insert(leaf).unwrap();
    assert_eq!(bag.len(), 1);
    assert!(bag.get(&hash).is_some());
}

#[test]
fn test_bag_insert_parent_before_child_fails() {
    let mut bag = BagOfCells::new();
    let fake_child_hash = [0xFFu8; 32];
    let parent = Cell::new(b"parent".to_vec(), vec![fake_child_hash]).unwrap();
    assert!(matches!(bag.insert(parent), Err(CellError::RefNotFound(_))));
}

#[test]
fn test_bag_tree_structure() {
    let mut bag = BagOfCells::new();
    let leaf1 = Cell::leaf(b"leaf1".to_vec()).unwrap();
    let leaf2 = Cell::leaf(b"leaf2".to_vec()).unwrap();
    let h1 = bag.insert(leaf1).unwrap();
    let h2 = bag.insert(leaf2).unwrap();
    let root = Cell::new(b"root".to_vec(), vec![h1, h2]).unwrap();
    let root_hash = bag.insert_root(root).unwrap();
    assert_eq!(bag.len(), 3);
    assert_eq!(bag.root, Some(root_hash));
}

#[test]
fn test_merkle_proof_found() {
    let mut bag = BagOfCells::new();
    let leaf = Cell::leaf(b"target".to_vec()).unwrap();
    let leaf_hash = bag.insert(leaf).unwrap();
    let root = Cell::new(b"root".to_vec(), vec![leaf_hash]).unwrap();
    bag.insert_root(root).unwrap();
    let proof = bag.merkle_proof(&leaf_hash).expect("proof should exist");
    assert_eq!(proof.last(), Some(&leaf_hash));
    assert!(bag.verify_proof(&proof));
}

#[test]
fn test_merkle_proof_not_found() {
    let mut bag = BagOfCells::new();
    let leaf = Cell::leaf(b"leaf".to_vec()).unwrap();
    bag.insert_root(leaf).unwrap();
    assert!(bag.merkle_proof(&[0xABu8; 32]).is_none());
}

#[test]
fn test_cell_hash_ref_order_independent() {
    let h1 = [1u8; 32];
    let h2 = [2u8; 32];
    let hash_ab = compute_cell_hash(b"data", &[h1, h2]);
    let hash_ba = compute_cell_hash(b"data", &[h2, h1]);
    assert_eq!(hash_ab, hash_ba);
}

// ── Further cases ────────────────────────────────────────────────────────────

#[test]
fn cell_limits_are_inclusive() {
    assert!(Cell::leaf(vec![7u8; MAX_CELL_DATA_BYTES]).is_ok());
    assert!(Cell::new(vec![], vec![[0u8; 32]; MAX_CELL_REFS]).is_ok());
    assert_eq!(Cell::leaf(vec![0u8; 200]).unwrap_err(), CellError::DataTooLarge(200));
    assert_eq!(Cell::new(vec![], vec![[0u8; 32]; 9]).unwrap_err(), CellError::TooManyRefs(9));
}

#[test]
fn cell_hash_matches_compute_cell_hash() {
    let h = [3u8; 32];
    let c = Cell::new(b"xy".to_vec(), vec![h]).unwrap();
    assert_eq!(*c.hash(), compute_cell_hash(b"xy", &[h]));
    assert_ne!(*c.hash(), compute_cell_hash(b"xy", &[]));
}

#[test]
fn merkle_proof_of_root_and_deep_leaf() {
    let mut bag = BagOfCells::new();
    assert!(bag.is_empty());
    let leaf = bag.insert(Cell::leaf(b"deep".to_vec()).unwrap()).unwrap();
    let mid = bag.insert(Cell::new(b"mid".to_vec(), vec![leaf]).unwrap()).unwrap();
    let root = bag.insert_root(Cell::new(b"top".to_vec(), vec![mid]).unwrap()).unwrap();
    assert_eq!(bag.merkle_proof(&root).unwrap(), vec![root]);
    assert_eq!(bag.merkle_proof(&leaf).unwrap(), vec![root, mid, leaf]);
    assert!(bag.verify_proof(&[root, mid, leaf]));
    // a path that skips a link does not verify
    assert!(!bag.verify_proof(&[root, leaf]));
    assert!(!bag.verify_proof(&[]));
    assert_eq!(bag.root_cell().unwrap().hash(), &root);
}

#[test]
fn merkle_proof_without_root_is_none() {
    let mut bag = BagOfCells::new();
    let leaf = bag.insert(Cell::leaf(b"x".to_vec()).unwrap()).unwrap();
    assert!(bag.merkle_proof(&leaf).is_none());
    assert!(bag.root_cell().is_none());
}
