use vstd::prelude::*;

verus! {

/// An opening of one entry of a node: its position, the node's commitment
/// and the witness for that position, both as uncompressed G1 encodings.
#[derive(Debug, Clone, Copy, PartialEq, Eq)]
pub struct KVProof {
    pub idx: usize,
    pub commitment: [u8; 96],
    pub witness: [u8; 96],
}

/// A proof that a key is in the tree: the openings along the path from the
/// root and the opening in the leaf.
#[derive(Debug, Clone, PartialEq, Eq)]
pub struct MembershipProof<const MAX_KEY_LEN: usize> {
    pub commitments: Vec<[u8; 96]>,
    pub path: Vec<KVProof>,
    pub leaf: KVProof,
}

/// A proof that a key is not in the tree.
#[derive(Debug, Clone, PartialEq, Eq)]
pub enum NonMembershipProof<const MAX_KEY_LEN: usize> {
    /// The key falls between two neighbouring entries of one leaf.
    IntraNode {
        path_to_leaf: Vec<KVProof>,
        leaf_commitment: [u8; 96],
        idx: usize,
        left_key: [u8; MAX_KEY_LEN],
        left_witness: [u8; 96],
        right_key: [u8; MAX_KEY_LEN],
        right_witness: [u8; 96],
    },
    /// The key falls before the first (`is_left`) or after the last entry of
    /// a leaf; `leaf_proof` opens that entry and `key` is its key.
    Edge {
        is_left: bool,
        path: Vec<KVProof>,
        leaf_proof: KVProof,
        key: [u8; MAX_KEY_LEN],
    },
}

/// The answer to a lookup, with its proof.
#[derive(Debug, Clone, PartialEq, Eq)]
pub enum GetResult<const MAX_KEY_LEN: usize, const MAX_VAL_LEN: usize> {
    Found([u8; MAX_VAL_LEN], MembershipProof<MAX_KEY_LEN>),
    NotFound(NonMembershipProof<MAX_KEY_LEN>),
}

} // verus!
