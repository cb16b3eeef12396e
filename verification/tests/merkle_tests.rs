//! Merkle store assembly: leaf counts, index ranges, conflicts, and the
//! root digests cross-checked against the engine's own trees.

use miden_playground::errors::ParseError;
use miden_playground::field::Word;
use miden_playground::merkle::{
    build_sparse_tree, parse_merkle_store, MerkleData, MerkleStore,
};

/// The canonical hex form of a word whose first element is `n`.
fn leaf_hex(n: u64) -> String {
    format!("{:016x}{}", n, "0".repeat(48))
}

fn leaf_word(n: u64) -> Word {
    Word { elements: [n, 0, 0, 0] }
}

/// The same leaf as the engine represents it.
fn engine_word(n: u64) -> miden_core::Word {
    miden_core::Word::new([
        miden_core::Felt::new(n),
        miden_core::Felt::new(0),
        miden_core::Felt::new(0),
        miden_core::Felt::new(0),
    ])
}

fn store_has(store: &MerkleStore, digest: miden_core::Word) -> bool {
    let expected: [u64; 4] = digest.into();
    store.nodes.iter().any(|n| n.digest.elements == expected)
}

#[test]
fn test_merkle_tree_three_leaves_rejected() {
    // Three leaves cannot form a balanced binary tree.
    let items = vec![MerkleData::MerkleTree(vec![leaf_hex(1), leaf_hex(2), leaf_hex(3)])];
    match parse_merkle_store(&items) {
        Err(e) => assert_eq!(e, ParseError::InvalidLeafCount),
        Ok(_) => panic!("a leaf count of three must be rejected"),
    }
}

#[test]
fn test_merkle_tree_four_leaves_root_reachable() {
    let items = vec![MerkleData::MerkleTree(vec![
        leaf_hex(1),
        leaf_hex(2),
        leaf_hex(3),
        leaf_hex(4),
    ])];
    let store = parse_merkle_store(&items).unwrap();
    // Three internal nodes: two mid-level, one root.
    assert_eq!(store.nodes.len(), 3);
    let engine_tree = miden_core::crypto::merkle::MerkleTree::new(vec![
        engine_word(1),
        engine_word(2),
        engine_word(3),
        engine_word(4),
    ])
    .unwrap();
    assert!(store_has(&store, engine_tree.root()));
}

#[test]
fn test_merkle_tree_eight_leaves_root_reachable() {
    let leaves: Vec<String> = (1..=8).map(leaf_hex).collect();
    let items = vec![MerkleData::MerkleTree(leaves)];
    let store = parse_merkle_store(&items).unwrap();
    assert_eq!(store.nodes.len(), 7);
    let engine_leaves: Vec<miden_core::Word> = (1..=8).map(engine_word).collect();
    let engine_tree = miden_core::crypto::merkle::MerkleTree::new(engine_leaves).unwrap();
    assert!(store_has(&store, engine_tree.root()));
}

#[test]
fn test_merkle_tree_bad_leaf() {
    let items = vec![MerkleData::MerkleTree(vec!["nonsense".to_string()])];
    match parse_merkle_store(&items) {
        Err(e) => assert_eq!(e, ParseError::InvalidHexLength),
        Ok(_) => panic!("malformed leaves must be rejected"),
    }
}

#[test]
fn test_sparse_tree_root_matches_engine() {
    let items = vec![MerkleData::SparseMerkleTree(vec![
        (0, leaf_hex(5)),
        (3, leaf_hex(6)),
        (250, leaf_hex(7)),
    ])];
    let store = parse_merkle_store(&items).unwrap();
    let engine_smt = miden_core::crypto::merkle::SimpleSmt::<64>::with_leaves(vec![
        (0, engine_word(5)),
        (3, engine_word(6)),
        (250, engine_word(7)),
    ])
    .unwrap();
    assert!(store_has(&store, engine_smt.root()));
}

#[test]
fn test_sparse_tree_index_out_of_range() {
    // At a depth of three only indexes below eight fit.
    let entries = vec![(8u64, leaf_word(1))];
    let mut store = MerkleStore::new();
    match build_sparse_tree(&entries, 3, &mut store) {
        Err(e) => assert_eq!(e, ParseError::IndexOutOfRange),
        Ok(_) => panic!("an index beyond the depth must be rejected"),
    }
    let fits = vec![(7u64, leaf_word(1))];
    assert!(build_sparse_tree(&fits, 3, &mut store).is_ok());
}

#[test]
fn test_sparse_tree_conflicting_duplicate() {
    let entries = vec![(1u64, leaf_word(1)), (1u64, leaf_word(2))];
    let mut store = MerkleStore::new();
    match build_sparse_tree(&entries, 8, &mut store) {
        Err(e) => assert_eq!(e, ParseError::MerkleStoreConflict),
        Ok(_) => panic!("conflicting duplicate leaves must be rejected"),
    }
    // An exact duplicate is set-like and collapses to one entry.
    let harmless = vec![(1u64, leaf_word(1)), (1u64, leaf_word(1))];
    let mut store = MerkleStore::new();
    assert!(build_sparse_tree(&harmless, 8, &mut store).is_ok());
}

#[test]
fn test_merged_store_keeps_both_trees() {
    // Nodes of every supplied tree land in one flat store.
    let items = vec![
        MerkleData::MerkleTree(vec![leaf_hex(1), leaf_hex(2)]),
        MerkleData::MerkleTree(vec![leaf_hex(3), leaf_hex(4)]),
    ];
    let store = parse_merkle_store(&items).unwrap();
    assert_eq!(store.nodes.len(), 2);
    let first =
        miden_core::crypto::merkle::MerkleTree::new(vec![engine_word(1), engine_word(2)]).unwrap();
    let second =
        miden_core::crypto::merkle::MerkleTree::new(vec![engine_word(3), engine_word(4)]).unwrap();
    assert!(store_has(&store, first.root()));
    assert!(store_has(&store, second.root()));
    // Re-supplying the same tree is idempotent.
    let again = vec![
        MerkleData::MerkleTree(vec![leaf_hex(1), leaf_hex(2)]),
        MerkleData::MerkleTree(vec![leaf_hex(1), leaf_hex(2)]),
    ];
    let store = parse_merkle_store(&again).unwrap();
    assert_eq!(store.nodes.len(), 1);
}
