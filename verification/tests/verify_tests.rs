use receipt_merkle::hash::Hash256;
use receipt_merkle::merkle::{verify, MerkleProof};

fn h(fill: u8) -> Hash256 {
    Hash256::from_vec(vec![fill; 32]).unwrap()
}

fn keccak(data: &[u8]) -> Vec<u8> {
    <sha3::Keccak256 as sha3::Digest>::digest(data).to_vec()
}

/// The sorted-pair combination rule, recomputed independently of the library.
fn combine_sorted(a: &[u8], b: &[u8]) -> Vec<u8> {
    let mut buf = Vec::with_capacity(64);
    if a < b {
        buf.extend_from_slice(a);
        buf.extend_from_slice(b);
    } else {
        buf.extend_from_slice(b);
        buf.extend_from_slice(a);
    }
    keccak(&buf)
}

#[test]
fn empty_proof_same_leaf_is_valid() {
    let leaf = h(0x07);
    let root = h(0x07);
    let proof = MerkleProof::new(Vec::new());
    let r = verify(&leaf, &proof, &root);
    assert!(r.valid);
    assert_eq!(r.trace.len(), 0);
}

#[test]
fn empty_proof_different_root_is_invalid() {
    let leaf = h(0x07);
    let root = h(0x08);
    let proof = MerkleProof::new(Vec::new());
    let r = verify(&leaf, &proof, &root);
    assert!(!r.valid);
}

#[test]
fn scenario_keccak_test_leaf_as_root() {
    let leaf_bytes = keccak(b"test");
    let leaf = Hash256::from_vec(leaf_bytes.clone()).unwrap();
    let root = Hash256::from_vec(leaf_bytes).unwrap();
    let proof = MerkleProof::new(Vec::new());
    let r = verify(&leaf, &proof, &root);
    assert!(r.valid);
}

#[test]
fn scenario_single_smaller_leaf_concatenates_first() {
    let leaf = vec![0xAA; 32];
    let sibling = vec![0xBB; 32];
    let mut concat = leaf.clone();
    concat.extend_from_slice(&sibling);
    let combined = keccak(&concat);
    let proof = MerkleProof::new(vec![Hash256::from_vec(sibling).unwrap()]);
    let r = verify(
        &Hash256::from_vec(leaf).unwrap(),
        &proof,
        &Hash256::from_vec(combined.clone()).unwrap(),
    );
    assert!(r.valid);
    assert_eq!(r.trace[0].to_vec(), combined);
}

#[test]
fn single_larger_leaf_concatenates_second() {
    let leaf = vec![0xBB; 32];
    let sibling = vec![0xAA; 32];
    // The smaller value goes first, so here the sibling leads.
    let mut concat = sibling.clone();
    concat.extend_from_slice(&leaf);
    let combined = keccak(&concat);
    let proof = MerkleProof::new(vec![Hash256::from_vec(sibling).unwrap()]);
    let r = verify(
        &Hash256::from_vec(leaf).unwrap(),
        &proof,
        &Hash256::from_vec(combined).unwrap(),
    );
    assert!(r.valid);
}

#[test]
fn honest_four_leaf_tree_proofs_verify() {
    let leaves: Vec<Vec<u8>> = vec![
        keccak(b"receipt zero"),
        keccak(b"receipt one"),
        keccak(b"receipt two"),
        keccak(b"receipt three"),
    ];
    let p01 = combine_sorted(&leaves[0], &leaves[1]);
    let p23 = combine_sorted(&leaves[2], &leaves[3]);
    let root_bytes = combine_sorted(&p01, &p23);
    let root = Hash256::from_vec(root_bytes).unwrap();

    // The proof for leaf 0 is its sibling leaf 1 and then the subtree hash
    // over leaves 2 and 3.
    let proof0 = MerkleProof::new(vec![
        Hash256::from_vec(leaves[1].clone()).unwrap(),
        Hash256::from_vec(p23.clone()).unwrap(),
    ]);
    let r0 = verify(&Hash256::from_vec(leaves[0].clone()).unwrap(), &proof0, &root);
    assert!(r0.valid);
    assert_eq!(r0.trace.len(), 2);
    assert_eq!(r0.trace[0].to_vec(), p01);
    assert_eq!(r0.trace[1].to_vec(), root.to_vec());

    // The proof for leaf 3 goes through the other subtree.
    let proof3 = MerkleProof::new(vec![
        Hash256::from_vec(leaves[2].clone()).unwrap(),
        Hash256::from_vec(p01.clone()).unwrap(),
    ]);
    let r3 = verify(&Hash256::from_vec(leaves[3].clone()).unwrap(), &proof3, &root);
    assert!(r3.valid);
}

#[test]
fn flipping_one_byte_rejects() {
    let leaf = vec![0xAA; 32];
    let sibling = vec![0xBB; 32];
    let mut concat = leaf.clone();
    concat.extend_from_slice(&sibling);
    let combined = keccak(&concat);

    // Flip one byte of the leaf.
    let mut bad_leaf = leaf.clone();
    bad_leaf[5] ^= 0x01;
    let r = verify(
        &Hash256::from_vec(bad_leaf).unwrap(),
        &MerkleProof::new(vec![Hash256::from_vec(sibling.clone()).unwrap()]),
        &Hash256::from_vec(combined.clone()).unwrap(),
    );
    assert!(!r.valid);

    // Flip one byte of the sibling.
    let mut bad_sibling = sibling.clone();
    bad_sibling[31] ^= 0x80;
    let r = verify(
        &Hash256::from_vec(leaf.clone()).unwrap(),
        &MerkleProof::new(vec![Hash256::from_vec(bad_sibling).unwrap()]),
        &Hash256::from_vec(combined.clone()).unwrap(),
    );
    assert!(!r.valid);

    // Flip one byte of the root.
    let mut bad_root = combined.clone();
    bad_root[0] ^= 0x10;
    let r = verify(
        &Hash256::from_vec(leaf).unwrap(),
        &MerkleProof::new(vec![Hash256::from_vec(sibling).unwrap()]),
        &Hash256::from_vec(bad_root).unwrap(),
    );
    assert!(!r.valid);
}

#[test]
fn reversed_proof_order_rejects() {
    let leaf = keccak(b"the leaf");
    let s1 = keccak(b"first sibling");
    let s2 = keccak(b"second sibling");
    assert_ne!(s1, s2);
    let step1 = combine_sorted(&leaf, &s1);
    let root_bytes = combine_sorted(&step1, &s2);
    let root = Hash256::from_vec(root_bytes).unwrap();
    let leaf = Hash256::from_vec(leaf).unwrap();

    let in_order = MerkleProof::new(vec![
        Hash256::from_vec(s1.clone()).unwrap(),
        Hash256::from_vec(s2.clone()).unwrap(),
    ]);
    assert!(verify(&leaf, &in_order, &root).valid);

    let reversed = MerkleProof::new(vec![
        Hash256::from_vec(s2).unwrap(),
        Hash256::from_vec(s1).unwrap(),
    ]);
    assert!(!verify(&leaf, &reversed, &root).valid);
}

#[test]
fn trace_has_one_entry_per_sibling() {
    let leaf = h(0x01);
    let proof = MerkleProof::new(vec![h(0x02), h(0x03), h(0x04)]);
    let root = h(0x05);
    let r = verify(&leaf, &proof, &root);
    assert_eq!(r.trace.len(), 3);
}
