use sha2::Digest;

use merkle_tree::hashing::hash_internal_node;
use merkle_tree::hashing::hash_leaf;

fn sha256_direct(data: &[u8]) -> Vec<u8> {
    let mut hasher = sha2::Sha256::new();
    hasher.update(data);
    hasher.finalize().to_vec()
}

#[test]
fn hash_leaf_matches_direct_sha256() {
    let mut image = vec![0u8];
    image.extend_from_slice(b"Hello World");
    assert_eq!(hash_leaf(b"Hello World"), sha256_direct(&image));
}

#[test]
fn hash_leaf_of_empty_value() {
    assert_eq!(hash_leaf(b""), sha256_direct(&[0u8]));
    assert_eq!(hash_leaf(b"").len(), 32);
}

#[test]
fn hash_internal_node_matches_direct_sha256() {
    let left = hash_leaf(b"left");
    let right = hash_leaf(b"right");
    let mut image = vec![1u8];
    image.extend_from_slice(&left);
    image.extend_from_slice(&right);
    assert_eq!(hash_internal_node(&left, Some(&right)), sha256_direct(&image));
}

#[test]
fn hash_internal_node_pairs_lone_child_with_itself() {
    let child = hash_leaf(b"lone");
    let mut image = vec![1u8];
    image.extend_from_slice(&child);
    image.extend_from_slice(&child);
    assert_eq!(hash_internal_node(&child, None), sha256_direct(&image));
}

#[test]
fn leaf_digest_differs_from_internal_digest() {
    // Domain separation: hashing bytes as a leaf and hashing the same bytes
    // twice as an internal node never agree, because the tags differ.
    let payload = b"some payload".to_vec();
    let as_leaf = hash_leaf(&payload);
    let as_internal = hash_internal_node(&payload, None);
    assert_ne!(as_leaf, as_internal);
}
