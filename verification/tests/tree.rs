use sha2::Digest;

use merkle_tree::shape::next_power_of_2;
use merkle_tree::tree::MerkleError;
use merkle_tree::tree::MerkleTree;

fn bytes(s: &str) -> Vec<u8> {
    s.as_bytes().to_vec()
}

fn sha(data: &[u8]) -> Vec<u8> {
    let mut hasher = sha2::Sha256::new();
    hasher.update(data);
    hasher.finalize().to_vec()
}

fn leaf(value: &[u8]) -> Vec<u8> {
    let mut image = vec![0u8];
    image.extend_from_slice(value);
    sha(&image)
}

fn internal(left: &[u8], right: &[u8]) -> Vec<u8> {
    let mut image = vec![1u8];
    image.extend_from_slice(left);
    image.extend_from_slice(right);
    sha(&image)
}

#[test]
fn next_power_of_2_values() {
    assert_eq!(next_power_of_2(1), 1);
    assert_eq!(next_power_of_2(2), 2);
    assert_eq!(next_power_of_2(3), 4);
    assert_eq!(next_power_of_2(4), 4);
    assert_eq!(next_power_of_2(5), 8);
    assert_eq!(next_power_of_2(64), 64);
    assert_eq!(next_power_of_2(100), 128);
}

#[test]
fn build_rejects_empty() {
    let values: Vec<Vec<u8>> = Vec::new();
    let r = MerkleTree::build_with_hasher(&values);
    assert_eq!(r.err(), Some(MerkleError::DegenerateInput));
}

#[test]
fn build_rejects_single() {
    let values = vec![bytes("x")];
    let r = MerkleTree::build_with_hasher(&values);
    assert_eq!(r.err(), Some(MerkleError::DegenerateInput));
}

#[test]
fn verify_rejects_out_of_range() {
    let values = vec![bytes("a"), bytes("b")];
    let tree = MerkleTree::build_with_hasher(&values).unwrap();
    assert_eq!(tree.verify(2, b"a").err(), Some(MerkleError::PositionOutOfRange));
    assert_eq!(tree.verify(100, b"a").err(), Some(MerkleError::PositionOutOfRange));
}

#[test]
fn scenario_two_equal_leaves() {
    let values = vec![bytes("Hello World"), bytes("Hello World")];
    let tree = MerkleTree::build_with_hasher(&values).unwrap();
    assert_eq!(tree.root_hash().len(), 32);
    assert_eq!(tree.verify(0, b"Hello World"), Ok(true));
}

#[test]
fn scenario_two_distinct_leaves() {
    let values = vec![bytes("Hello World"), bytes("Bye, bye")];
    let tree = MerkleTree::build_with_hasher(&values).unwrap();
    assert_eq!(tree.verify(0, b"Hello World"), Ok(true));
    assert_eq!(tree.verify(1, b"Bye, bye"), Ok(true));
    assert_eq!(tree.verify(0, b"Bye, bye"), Ok(false));
}

#[test]
fn scenario_odd_leaf_count() {
    let values = vec![bytes("a"), bytes("b"), bytes("c")];
    let first = MerkleTree::build_with_hasher(&values).unwrap();
    let second = MerkleTree::build_with_hasher(&values).unwrap();
    assert_eq!(first.root_hash(), second.root_hash());
    // The unmatched third leaf is combined with a copy of itself.
    let expected = internal(
        &internal(&leaf(b"a"), &leaf(b"b")),
        &internal(&leaf(b"c"), &leaf(b"c")),
    );
    assert_eq!(first.root_hash(), &expected);
}

#[test]
fn root_matches_hand_computation_two_leaves() {
    let values = vec![bytes("left leaf"), bytes("right leaf")];
    let tree = MerkleTree::build_with_hasher(&values).unwrap();
    let expected = internal(&leaf(b"left leaf"), &leaf(b"right leaf"));
    assert_eq!(tree.root_hash(), &expected);
}

#[test]
fn root_matches_hand_computation_five_leaves() {
    // Five leaves exercise both padding rules: the unmatched fifth leaf is
    // combined with itself, and the resulting three-digest level is padded by
    // duplicating its last digest by value.
    let values = vec![bytes("v0"), bytes("v1"), bytes("v2"), bytes("v3"), bytes("v4")];
    let tree = MerkleTree::build_with_hasher(&values).unwrap();
    let p01 = internal(&leaf(b"v0"), &leaf(b"v1"));
    let p23 = internal(&leaf(b"v2"), &leaf(b"v3"));
    let p44 = internal(&leaf(b"v4"), &leaf(b"v4"));
    let q0 = internal(&p01, &p23);
    let q1 = internal(&p44, &p44);
    let expected = internal(&q0, &q1);
    assert_eq!(tree.root_hash(), &expected);
}

#[test]
fn determinism_same_values_same_root() {
    let values = vec![bytes("alpha"), bytes("beta"), bytes("gamma"), bytes("delta")];
    let first = MerkleTree::build_with_hasher(&values).unwrap();
    let second = MerkleTree::build_with_hasher(&values).unwrap();
    assert_eq!(first.root_hash(), second.root_hash());
}

#[test]
fn permuted_leaves_change_root() {
    let values = vec![bytes("Hello World"), bytes("Bye, bye")];
    let permuted = vec![bytes("Bye, bye"), bytes("Hello World")];
    let tree = MerkleTree::build_with_hasher(&values).unwrap();
    let swapped = MerkleTree::build_with_hasher(&permuted).unwrap();
    assert_ne!(tree.root_hash(), swapped.root_hash());
}

#[test]
fn verify_all_positions_after_build() {
    let values = vec![bytes("one"), bytes("two"), bytes("three"), bytes("four")];
    let tree = MerkleTree::build_with_hasher(&values).unwrap();
    for (i, value) in values.iter().enumerate() {
        assert_eq!(tree.verify(i, value), Ok(true));
    }
}

#[test]
fn tampered_value_fails_at_every_position() {
    let values = vec![bytes("one"), bytes("two"), bytes("three")];
    let tree = MerkleTree::build_with_hasher(&values).unwrap();
    for i in 0..values.len() {
        assert_eq!(tree.verify(i, b"tampered"), Ok(false));
    }
}
