use berkle::{BerkleError, FieldHash, KeyWithCounter, LeafGetFound, LeafGetNotFound, LeafNode, Params};
use bls12_381::{Bls12, Scalar};
use either::Either;
use kzg::wrapper_types::G1Affine as Wrapped;
use kzg::KZGVerifier;

type Leaf<'p> = LeafNode<'p, 16, 4, 2>;

fn params(n: usize) -> Params {
    Params::setup(0x5eed, n)
}

fn digest(tag: u8) -> [u8; 32] {
    *blake3::hash(&[tag]).as_bytes()
}

fn scalar(h: &FieldHash) -> Scalar {
    Scalar::from_bytes(&h.bytes).unwrap()
}

fn point(bytes: &[u8; 96]) -> Wrapped<Bls12> {
    Wrapped::from_inner(bls12_381::G1Affine::from_uncompressed(bytes).unwrap())
}

fn opens(n: usize, leaf: &Leaf, idx: usize, commitment: &[u8; 96], witness: &[u8; 96]) -> bool {
    let verifier_params = kzg::setup::<Bls12>(Scalar::from(0x5eed_u64), n);
    let verifier = KZGVerifier::new(&verifier_params);
    let x = scalar(&leaf.keys[idx].field_hash_with_idx(idx));
    let y = scalar(&leaf.hashes[idx]);
    verifier.verify_eval((x, y), &point(commitment), &point(witness))
}

#[test]
fn new_leaf_is_empty_and_uncommitted() {
    let p = params(8);
    let leaf: Leaf = LeafNode::new(&p);
    assert!(leaf.keys.is_empty());
    assert!(leaf.values.is_empty());
    assert!(leaf.hashes.is_empty());
    assert!(leaf.witnesses.is_empty());
    assert!(leaf.hash.is_none());
    assert_eq!(leaf.hash(), Err(BerkleError::NotCommitted));
}

#[test]
fn insert_keeps_keys_sorted() {
    let p = params(8);
    let mut leaf: Leaf = LeafNode::new(&p);
    leaf.insert_no_proof(&[3, 0, 0, 0], &[30, 0], digest(3));
    leaf.insert_no_proof(&[1, 0, 0, 0], &[10, 0], digest(1));
    leaf.insert_no_proof(&[2, 0, 0, 0], &[20, 0], digest(2));
    leaf.insert_no_proof(&[0, 9, 9, 9], &[5, 0], digest(0));
    let keys: Vec<[u8; 4]> = leaf.keys.iter().map(|k| k.0).collect();
    assert_eq!(keys, vec![[0, 9, 9, 9], [1, 0, 0, 0], [2, 0, 0, 0], [3, 0, 0, 0]]);
    let values: Vec<[u8; 2]> = leaf.values.clone();
    assert_eq!(values, vec![[5, 0], [10, 0], [20, 0], [30, 0]]);
    assert_eq!(leaf.hashes[1], FieldHash::from_digest(digest(1)));
    assert_eq!(leaf.witnesses, vec![None, None, None, None]);
}

#[test]
fn duplicate_keys_get_consecutive_counters_in_insertion_order() {
    let p = params(8);
    let mut leaf: Leaf = LeafNode::new(&p);
    leaf.insert_no_proof(&[7, 7, 7, 7], &[1, 0], digest(1));
    leaf.insert_no_proof(&[9, 0, 0, 0], &[9, 0], digest(9));
    leaf.insert_no_proof(&[7, 7, 7, 7], &[2, 0], digest(2));
    leaf.insert_no_proof(&[1, 0, 0, 0], &[0, 0], digest(0));
    leaf.insert_no_proof(&[7, 7, 7, 7], &[3, 0], digest(3));
    let keys: Vec<([u8; 4], u8)> = leaf.keys.iter().map(|k| (k.0, k.1)).collect();
    assert_eq!(
        keys,
        vec![([1, 0, 0, 0], 0), ([7, 7, 7, 7], 0), ([7, 7, 7, 7], 1), ([7, 7, 7, 7], 2), ([9, 0, 0, 0], 0)]
    );
    let values: Vec<u8> = leaf.values.iter().map(|v| v[0]).collect();
    assert_eq!(values, vec![0, 1, 2, 3, 9]);
}

#[test]
fn insert_commits_and_opens_the_new_entry() {
    let p = params(8);
    let mut leaf: Leaf = LeafNode::new(&p);
    let first = leaf.insert(&[5, 0, 0, 0], &[50, 0], digest(5)).unwrap();
    assert_eq!(first.idx, 0);
    let second = leaf.insert(&[2, 0, 0, 0], &[20, 0], digest(2)).unwrap();
    assert_eq!(second.idx, 0);
    let third = leaf.insert(&[8, 0, 0, 0], &[80, 0], digest(8)).unwrap();
    assert_eq!(third.idx, 2);
    assert_eq!(leaf.hash(), Ok(FieldHash::from_digest(*blake3::hash(&third.commitment).as_bytes())));
    assert_ne!(second.commitment, third.commitment);
    assert_eq!(leaf.witnesses, vec![None, None, Some(third.witness)]);
    assert!(opens(8, &leaf, 2, &third.commitment, &third.witness));
    assert!(!opens(8, &leaf, 1, &third.commitment, &third.witness));
}

#[test]
fn single_entry_commitment_opens() {
    let p = params(2);
    let mut leaf: Leaf = LeafNode::new(&p);
    let proof = leaf.insert(&[1, 2, 3, 4], &[1, 1], digest(42)).unwrap();
    assert_eq!(proof.idx, 0);
    assert!(opens(2, &leaf, 0, &proof.commitment, &proof.witness));
}

#[test]
fn leaf_hash_is_field_hash_of_commitment_digest() {
    let p = params(4);
    let mut leaf: Leaf = LeafNode::new(&p);
    let proof = leaf.insert(&[1, 0, 0, 0], &[1, 0], digest(1)).unwrap();
    let expected = FieldHash::from_digest(*blake3::hash(&proof.commitment).as_bytes());
    assert_eq!(leaf.hash(), Ok(expected));
    assert!(expected.bytes[31] < 64);
}

#[test]
fn get_finds_each_inserted_key() {
    let p = params(8);
    let mut leaf: Leaf = LeafNode::new(&p);
    let mut commitment = [0u8; 96];
    for (i, k) in [4u8, 1, 3].iter().enumerate() {
        commitment = leaf.insert(&[*k, 0, 0, 0], &[*k, i as u8], digest(*k)).unwrap().commitment;
    }
    for k in [1u8, 3, 4] {
        match leaf.get(&[k, 0, 0, 0]) {
            Ok(Either::Left(LeafGetFound(value, proof))) => {
                assert_eq!(value[0], k);
                assert_eq!(leaf.keys[proof.idx].0, [k, 0, 0, 0]);
                assert_eq!(proof.commitment, commitment);
                assert_eq!(leaf.witnesses[proof.idx], Some(proof.witness));
                assert!(opens(8, &leaf, proof.idx, &commitment, &proof.witness));
            },
            other => panic!("expected the key to be found, got {:?}", other.is_ok()),
        }
    }
    assert!(leaf.witnesses.iter().all(|w| w.is_some()));
}

#[test]
fn get_gives_back_the_value_written() {
    let p = params(8);
    let mut leaf: Leaf = LeafNode::new(&p);
    leaf.insert(&[6, 6, 0, 0], &[1, 2], digest(1)).unwrap();
    leaf.insert(&[2, 2, 0, 0], &[3, 4], digest(2)).unwrap();
    match leaf.get(&[6, 6, 0, 0]) {
        Ok(Either::Left(LeafGetFound(value, proof))) => {
            assert_eq!(value, [1, 2]);
            assert_eq!(proof.idx, 1);
        },
        _ => panic!("expected the key to be found"),
    }
}

#[test]
fn get_below_all_keys_is_left_edge() {
    let p = params(8);
    let mut leaf: Leaf = LeafNode::new(&p);
    leaf.insert(&[5, 0, 0, 0], &[5, 0], digest(5)).unwrap();
    leaf.insert(&[7, 0, 0, 0], &[7, 0], digest(7)).unwrap();
    match leaf.get(&[1, 0, 0, 0]) {
        Ok(Either::Right(LeafGetNotFound::Left { right, right_key })) => {
            assert_eq!(right.idx, 0);
            assert_eq!(right_key, [5, 0, 0, 0]);
            assert!(opens(8, &leaf, 0, &right.commitment, &right.witness));
        },
        _ => panic!("expected a left edge"),
    }
}

#[test]
fn get_above_all_keys_is_right_edge() {
    let p = params(8);
    let mut leaf: Leaf = LeafNode::new(&p);
    leaf.insert(&[5, 0, 0, 0], &[5, 0], digest(5)).unwrap();
    leaf.insert(&[7, 0, 0, 0], &[7, 0], digest(7)).unwrap();
    match leaf.get(&[9, 0, 0, 0]) {
        Ok(Either::Right(LeafGetNotFound::Right { left, left_key })) => {
            assert_eq!(left.idx, 1);
            assert_eq!(left_key, [7, 0, 0, 0]);
            assert!(opens(8, &leaf, 1, &left.commitment, &left.witness));
        },
        _ => panic!("expected a right edge"),
    }
}

#[test]
fn get_between_keys_is_mid() {
    let p = params(8);
    let mut leaf: Leaf = LeafNode::new(&p);
    leaf.insert(&[5, 0, 0, 0], &[5, 0], digest(5)).unwrap();
    leaf.insert(&[7, 0, 0, 0], &[7, 0], digest(7)).unwrap();
    leaf.insert(&[9, 0, 0, 0], &[9, 0], digest(9)).unwrap();
    match leaf.get(&[8, 0, 0, 0]) {
        Ok(Either::Right(LeafGetNotFound::Mid { idx, commitment, left_witness, left_key, right_witness, right_key })) => {
            assert_eq!(idx, 1);
            assert_eq!(left_key, [7, 0, 0, 0]);
            assert_eq!(right_key, [9, 0, 0, 0]);
            assert!(opens(8, &leaf, 1, &commitment, &left_witness));
            assert!(opens(8, &leaf, 2, &commitment, &right_witness));
        },
        _ => panic!("expected a gap between two entries"),
    }
}

#[test]
fn insert_without_proof_keeps_leaf_uncommitted() {
    let p = params(8);
    let mut leaf: Leaf = LeafNode::new(&p);
    leaf.insert_no_proof(&[5, 0, 0, 0], &[5, 0], digest(5));
    leaf.insert_no_proof(&[6, 0, 0, 0], &[6, 0], digest(6));
    assert_eq!(leaf.hash(), Err(BerkleError::NotCommitted));
    assert_eq!(leaf.witnesses, vec![None, None]);
}

#[test]
fn get_after_insert_returns_the_insert_proof() {
    let p = params(8);
    let mut leaf: Leaf = LeafNode::new(&p);
    leaf.insert(&[5, 0, 0, 0], &[5, 0], digest(5)).unwrap();
    let proof = leaf.insert(&[3, 0, 0, 0], &[3, 1], digest(3)).unwrap();
    match leaf.get(&[3, 0, 0, 0]) {
        Ok(Either::Left(LeafGetFound(value, q))) => {
            assert_eq!(value, [3, 1]);
            assert_eq!(q, proof);
        },
        _ => panic!("expected the key to be found"),
    }
}

#[test]
fn lookup_caches_only_the_reported_witnesses() {
    let p = params(8);
    let mut leaf: Leaf = LeafNode::new(&p);
    for k in [1u8, 3, 5, 7] {
        leaf.insert_no_proof(&[k, 0, 0, 0], &[k, 0], digest(k));
    }
    leaf.reinterpolate().unwrap();
    match leaf.get(&[4, 0, 0, 0]) {
        Ok(Either::Right(LeafGetNotFound::Mid { idx, left_witness, right_witness, .. })) => {
            assert_eq!(idx, 1);
            assert_eq!(leaf.witnesses, vec![None, Some(left_witness), Some(right_witness), None]);
        },
        _ => panic!("expected a gap"),
    }
}

#[test]
fn get_after_uncommitted_insert_is_point_not_on_polynomial() {
    let p = params(8);
    let mut leaf: Leaf = LeafNode::new(&p);
    leaf.insert(&[5, 0, 0, 0], &[5, 0], digest(5)).unwrap();
    leaf.insert_no_proof(&[1, 0, 0, 0], &[1, 0], digest(1));
    assert!(matches!(leaf.get(&[1, 0, 0, 0]), Err(BerkleError::PointNotOnPolynomial)));
}

#[test]
fn cached_witness_is_returned_again() {
    let p = params(8);
    let mut leaf: Leaf = LeafNode::new(&p);
    leaf.insert(&[5, 0, 0, 0], &[5, 0], digest(5)).unwrap();
    leaf.insert(&[6, 0, 0, 0], &[6, 0], digest(6)).unwrap();
    let first = match leaf.get(&[5, 0, 0, 0]) {
        Ok(Either::Left(LeafGetFound(_, proof))) => proof,
        _ => panic!("expected the key to be found"),
    };
    let second = match leaf.get(&[5, 0, 0, 0]) {
        Ok(Either::Left(LeafGetFound(_, proof))) => proof,
        _ => panic!("expected the key to be found"),
    };
    assert_eq!(first, second);
}

#[test]
fn reinterpolate_drops_cached_witnesses() {
    let p = params(8);
    let mut leaf: Leaf = LeafNode::new(&p);
    leaf.insert_no_proof(&[5, 0, 0, 0], &[5, 0], digest(5));
    leaf.insert_no_proof(&[6, 0, 0, 0], &[6, 0], digest(6));
    let (c, w) = leaf.reinterpolate_and_create_witness(1).unwrap();
    assert_eq!(leaf.witnesses, vec![None, Some(w)]);
    assert!(opens(8, &leaf, 1, &c, &w));
    let c2 = leaf.reinterpolate().unwrap();
    assert_eq!(c, c2);
    assert_eq!(leaf.witnesses, vec![None, None]);
    assert_eq!(leaf.hash(), Ok(FieldHash::from_digest(*blake3::hash(&c2).as_bytes())));
}
