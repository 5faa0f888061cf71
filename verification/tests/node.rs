use berkle::{
    BerkleError, FieldHash, GetResult, InternalNode, LeafNode, Node, NodeConvertError, NonMembershipProof, Params,
};
use std::convert::TryFrom;

type N<'p> = Node<'p, 16, 4, 2>;
type Leaf<'p> = LeafNode<'p, 16, 4, 2>;
type Internal<'p> = InternalNode<'p, 16, 4, 2>;

fn params(n: usize) -> Params {
    Params::setup(77, n)
}

fn digest(tag: u8) -> [u8; 32] {
    *blake3::hash(&[tag, tag]).as_bytes()
}

#[test]
fn leaf_round_trips_through_node() {
    let p = params(4);
    let mut leaf: Leaf = LeafNode::new(&p);
    leaf.insert_no_proof(&[1, 0, 0, 0], &[1, 0], digest(1));
    let node: N = Node::from(leaf);
    let back = LeafNode::try_from(node).ok().unwrap();
    assert_eq!(back.keys[0].0, [1, 0, 0, 0]);
}

#[test]
fn leaf_node_is_not_internal() {
    let p = params(4);
    let leaf: Leaf = LeafNode::new(&p);
    let node: N = Node::from(leaf);
    assert!(matches!(InternalNode::try_from(node), Err(NodeConvertError::NotInternalNode)));
}

#[test]
fn internal_node_round_trips_and_is_not_leaf() {
    let p = params(4);
    let mut left: Leaf = LeafNode::new(&p);
    left.insert_no_proof(&[1, 0, 0, 0], &[1, 0], digest(1));
    let right: Leaf = LeafNode::new(&p);
    let internal: Internal = InternalNode::new(&p, [5, 0, 0, 0], Node::from(left), Node::from(right));
    let node: N = Node::from(internal);
    let back = InternalNode::try_from(node).ok().unwrap();
    assert_eq!(back.children.len(), 2);
    let again: N = Node::from(back);
    assert!(matches!(LeafNode::try_from(again), Err(NodeConvertError::NotLeafNode)));
}

#[test]
fn new_internal_node_has_two_keys_two_children_no_commitment() {
    let p = params(4);
    let mut left: Leaf = LeafNode::new(&p);
    left.insert_no_proof(&[1, 0, 0, 0], &[1, 0], digest(1));
    let right: Leaf = LeafNode::new(&p);
    let internal: Internal = InternalNode::new(&p, [5, 0, 0, 0], Node::from(left), Node::from(right));
    assert_eq!(internal.keys.len(), 2);
    assert_eq!(internal.keys[0].0, [5, 0, 0, 0]);
    assert_eq!(internal.keys[0].1, 0);
    assert!(matches!(internal.children[0], Node::Leaf(_)));
    assert!(internal.witnesses.is_empty());
    assert!(internal.hash.is_none());
    assert_eq!(internal.hash(), Err(BerkleError::NotCommitted));
}

#[test]
fn node_insert_gives_membership_proof_with_empty_path() {
    let p = params(8);
    let mut node: N = Node::from(LeafNode::new(&p));
    let first = node.insert(&[3, 0, 0, 0], &[3, 0], digest(3)).unwrap();
    assert!(first.commitments.is_empty() && first.path.is_empty());
    let second = node.insert(&[1, 0, 0, 0], &[1, 0], digest(1)).unwrap();
    assert_eq!(second.leaf.idx, 0);
    match &node {
        Node::Leaf(leaf) => {
            assert_eq!(leaf.hash(), Ok(FieldHash::from_digest(*blake3::hash(&second.leaf.commitment).as_bytes())))
        },
        Node::Internal(_) => panic!("expected a leaf"),
    }
}

#[test]
fn node_get_maps_leaf_answers() {
    let p = params(8);
    let mut node: N = Node::from(LeafNode::new(&p));
    node.insert(&[3, 0, 0, 0], &[3, 3], digest(3)).unwrap();
    node.insert(&[6, 0, 0, 0], &[6, 6], digest(6)).unwrap();
    match node.get(&[6, 0, 0, 0]) {
        Ok(GetResult::Found(value, proof)) => {
            assert_eq!(value, [6, 6]);
            assert_eq!(proof.leaf.idx, 1);
            assert!(proof.path.is_empty() && proof.commitments.is_empty());
        },
        _ => panic!("expected the key to be found"),
    }
    match node.get(&[1, 0, 0, 0]) {
        Ok(GetResult::NotFound(NonMembershipProof::Edge { is_left, path, leaf_proof, key })) => {
            assert!(is_left);
            assert!(path.is_empty());
            assert_eq!(leaf_proof.idx, 0);
            assert_eq!(key, [3, 0, 0, 0]);
        },
        _ => panic!("expected a left edge"),
    }
    match node.get(&[7, 0, 0, 0]) {
        Ok(GetResult::NotFound(NonMembershipProof::Edge { is_left, leaf_proof, key, .. })) => {
            assert!(!is_left);
            assert_eq!(leaf_proof.idx, 1);
            assert_eq!(key, [6, 0, 0, 0]);
        },
        _ => panic!("expected a right edge"),
    }
    match node.get(&[4, 0, 0, 0]) {
        Ok(GetResult::NotFound(NonMembershipProof::IntraNode { path_to_leaf, idx, left_key, right_key, .. })) => {
            assert!(path_to_leaf.is_empty());
            assert_eq!(idx, 0);
            assert_eq!(left_key, [3, 0, 0, 0]);
            assert_eq!(right_key, [6, 0, 0, 0]);
        },
        _ => panic!("expected a gap"),
    }
}

#[test]
fn internal_node_keys_bound_their_children() {
    let p = params(4);
    let mut left: Leaf = LeafNode::new(&p);
    left.insert_no_proof(&[1, 0, 0, 0], &[1, 0], digest(1));
    let mut right: Leaf = LeafNode::new(&p);
    right.insert_no_proof(&[9, 0, 0, 0], &[9, 0], digest(9));
    right.insert_no_proof(&[6, 0, 0, 0], &[6, 0], digest(6));
    let internal: Internal = InternalNode::new(&p, [5, 0, 0, 0], Node::from(left), Node::from(right));
    assert_eq!(internal.keys.len(), internal.children.len());
    assert_eq!(internal.keys[0].0, [5, 0, 0, 0]);
    assert_eq!(internal.keys[1].0, [9, 0, 0, 0]);
}

#[test]
fn internal_node_over_empty_right_repeats_the_split_key() {
    let p = params(4);
    let left: Leaf = LeafNode::new(&p);
    let right: Leaf = LeafNode::new(&p);
    let internal: Internal = InternalNode::new(&p, [5, 0, 0, 0], Node::from(left), Node::from(right));
    assert_eq!(internal.keys.len(), 2);
    assert_eq!(internal.keys[1].0, [5, 0, 0, 0]);
    assert_eq!(internal.keys[1].1, 0);
}
