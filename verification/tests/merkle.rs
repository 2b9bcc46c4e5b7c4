//! The Merkle list: root hashes, proofs, and their validation.

type ContentHash = exonum_core::crypto::Hash;
use exonum_core::storage::proof_list_index::{ListProof, ListProofError, ProofListIndex};
use sha2::Digest;

fn sha(data: &[u8]) -> Vec<u8> {
    sha2::Sha256::digest(data).to_vec()
}

#[test]
fn empty_list_root_is_hash_of_nothing() {
    let index: ProofListIndex<Vec<u8>> = ProofListIndex::new();
    assert_eq!(index.root_hash().as_bytes(), &sha(&[]));
}

#[test]
fn empty_list_rejects_any_proof() {
    let index: ProofListIndex<Vec<u8>> = ProofListIndex::new();
    let root = index.root_hash();
    let proof: ListProof<Vec<u8>> = ListProof::Leaf(vec![1, 2, 3]);
    assert_eq!(proof.validate(&root, 0), Err(ListProofError::UnmatchedRootHash));
}

#[test]
fn single_leaf_proof_validates_to_entry_zero() {
    let mut index: ProofListIndex<Vec<u8>> = ProofListIndex::new();
    index.append(b"v".to_vec());
    // a one-element tree's root is the leaf's own hash
    assert_eq!(index.root_hash().as_bytes(), &sha(b"v"));
    let proof = index.construct_proof(0);
    assert!(matches!(proof, ListProof::Leaf(_)));
    let entries = proof.validate(&index.root_hash(), 1).unwrap();
    assert_eq!(entries, vec![(0u64, b"v".to_vec())]);
}

#[test]
fn two_leaf_root_and_right_proof() {
    let mut index: ProofListIndex<Vec<u8>> = ProofListIndex::new();
    index.append(b"v0".to_vec());
    index.append(b"v1".to_vec());
    // root = hash(hash(v0) || hash(v1))
    let mut cat = sha(b"v0");
    cat.extend(sha(b"v1"));
    assert_eq!(index.root_hash().as_bytes(), &sha(&cat));
    // the proof for index 1 carries v0's hash and the value v1
    let proof = index.construct_proof(1);
    match &proof {
        ListProof::Right(left_hash, right) => {
            assert_eq!(left_hash.as_bytes(), &sha(b"v0"));
            assert!(matches!(**right, ListProof::Leaf(_)));
        }
        other => panic!("unexpected proof shape: {:?}", shape_of(other)),
    }
    let entries = proof.validate(&index.root_hash(), 2).unwrap();
    assert_eq!(entries, vec![(1u64, b"v1".to_vec())]);
}

fn shape_of<V>(p: &ListProof<V>) -> &'static str {
    match p {
        ListProof::Full(..) => "full",
        ListProof::Left(..) => "left",
        ListProof::Right(..) => "right",
        ListProof::Leaf(..) => "leaf",
    }
}

#[test]
fn every_index_of_a_five_element_list_proves() {
    let mut index: ProofListIndex<Vec<u8>> = ProofListIndex::new();
    let values: Vec<Vec<u8>> = (0u8..5).map(|i| vec![i, i + 1]).collect();
    for v in &values {
        index.append(v.clone());
    }
    let root = index.root_hash();
    for i in 0..5usize {
        let proof = index.construct_proof(i);
        let entries = proof.validate(&root, 5).unwrap();
        assert_eq!(entries, vec![(i as u64, values[i].clone())]);
    }
}

#[test]
fn proof_against_wrong_root_is_rejected() {
    let mut index: ProofListIndex<Vec<u8>> = ProofListIndex::new();
    index.append(b"a".to_vec());
    index.append(b"b".to_vec());
    let proof = index.construct_proof(0);
    let wrong = ContentHash::from_bytes(vec![0u8; 32]);
    assert_eq!(proof.validate(&wrong, 2), Err(ListProofError::UnmatchedRootHash));
}

#[test]
fn leaf_above_leaf_level_is_rejected() {
    // a bare leaf pretending to prove a two-element list sits one
    // level too high
    let root = {
        let mut index: ProofListIndex<Vec<u8>> = ProofListIndex::new();
        index.append(b"a".to_vec());
        index.append(b"b".to_vec());
        index.root_hash()
    };
    let proof: ListProof<Vec<u8>> = ListProof::Leaf(b"a".to_vec());
    assert_eq!(proof.validate(&root, 2), Err(ListProofError::UnexpectedLeaf));
}

#[test]
fn branch_at_leaf_level_is_rejected() {
    let root = {
        let mut index: ProofListIndex<Vec<u8>> = ProofListIndex::new();
        index.append(b"a".to_vec());
        index.root_hash()
    };
    let proof: ListProof<Vec<u8>> = ListProof::Full(
        Box::new(ListProof::Leaf(b"a".to_vec())),
        Box::new(ListProof::Leaf(b"b".to_vec())),
    );
    assert_eq!(proof.validate(&root, 1), Err(ListProofError::UnexpectedBranch));
}

#[test]
fn odd_boundary_hashes_left_child_alone() {
    // three leaves: the right subtree of the root has a lone child
    let mut index: ProofListIndex<Vec<u8>> = ProofListIndex::new();
    index.append(b"a".to_vec());
    index.append(b"b".to_vec());
    index.append(b"c".to_vec());
    let h_ab = sha(&[sha(b"a"), sha(b"b")].concat());
    // the lone right subtree is rehashed once at each level it is
    // promoted through
    let h_c = sha(&sha(b"c"));
    let expected = sha(&[h_ab, h_c].concat());
    assert_eq!(index.root_hash().as_bytes(), &expected);
}
