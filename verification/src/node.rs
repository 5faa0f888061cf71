use vstd::prelude::*;
use crate::commitment::{prover_capacity, prover_commitment, prover_params, Params, Prover};
use crate::digest::{blake3_digest, blake3_hash, spec_field_hash, FieldHash};
use crate::error::{BerkleError, NodeConvertError};
use crate::key::KeyWithCounter;
use crate::leaf::{LeafGetFound, LeafGetNotFound, LeafNode};
use crate::openings::{GetResult, KVProof, MembershipProof, NonMembershipProof};
use crate::key::{key_le, key_lt};
use crate::search::{counter_room, insert_index, max_key};

verus! {

/// A node of the tree: an internal node or a leaf.
pub enum Node<'params, const Q: usize, const MAX_KEY_LEN: usize, const MAX_VAL_LEN: usize> {
    Internal(InternalNode<'params, Q, MAX_KEY_LEN, MAX_VAL_LEN>),
    Leaf(LeafNode<'params, Q, MAX_KEY_LEN, MAX_VAL_LEN>),
}

/// An internal node: separator keys and children. The `i`th key is at least
/// every key in the `i`th child and below every key in the next one.
pub struct InternalNode<'params, const Q: usize, const MAX_KEY_LEN: usize, const MAX_VAL_LEN: usize> {
    pub hash: Option<FieldHash>,
    pub keys: Vec<KeyWithCounter<MAX_KEY_LEN>>,
    pub children: Vec<Node<'params, Q, MAX_KEY_LEN, MAX_VAL_LEN>>,
    /// Lazily computed witnesses: `None` until computed.
    pub witnesses: Vec<Option<[u8; 96]>>,
    pub prover: Prover<'params>,
}

impl<'params, const Q: usize, const MAX_KEY_LEN: usize, const MAX_VAL_LEN: usize> Node<
    'params,
    Q,
    MAX_KEY_LEN,
    MAX_VAL_LEN,
> {
    /// The keys of the node, whichever its kind.
    pub open spec fn node_keys(self) -> Seq<KeyWithCounter<MAX_KEY_LEN>> {
        match self {
            Node::Internal(n) => n.keys@,
            Node::Leaf(n) => n.keys@,
        }
    }
}

/// How a node answers a lookup from its leaf's answer `lr`: a found value
/// with its leaf opening and an empty path, or the leaf's non-membership
/// openings with an empty path.
pub open spec fn answers_as<const MAX_KEY_LEN: usize, const MAX_VAL_LEN: usize>(
    lr: Result<either::Either<LeafGetFound<MAX_VAL_LEN>, LeafGetNotFound<MAX_KEY_LEN>>, BerkleError>,
    r: Result<GetResult<MAX_KEY_LEN, MAX_VAL_LEN>, BerkleError>,
) -> bool {
    match lr {
        Err(a) => r == Err::<GetResult<MAX_KEY_LEN, MAX_VAL_LEN>, BerkleError>(a),
        Ok(either::Either::Left(LeafGetFound(v, leaf))) => r matches Ok(GetResult::Found(v2, p)) && {
            &&& v2 == v
            &&& p.commitments@.len() == 0
            &&& p.path@.len() == 0
            &&& p.leaf == leaf
        },
        Ok(either::Either::Right(LeafGetNotFound::Left { right, right_key })) => r matches Ok(
            GetResult::NotFound(NonMembershipProof::Edge { is_left, path, leaf_proof, key }),
        ) && {
            &&& is_left
            &&& path@.len() == 0
            &&& leaf_proof == right
            &&& key == right_key
        },
        Ok(either::Either::Right(LeafGetNotFound::Right { left, left_key })) => r matches Ok(
            GetResult::NotFound(NonMembershipProof::Edge { is_left, path, leaf_proof, key }),
        ) && {
            &&& !is_left
            &&& path@.len() == 0
            &&& leaf_proof == left
            &&& key == left_key
        },
        Ok(
            either::Either::Right(
                LeafGetNotFound::Mid { idx, commitment, left_witness, left_key, right_witness, right_key },
            ),
        ) => r matches Ok(
            GetResult::NotFound(
                NonMembershipProof::IntraNode {
                    path_to_leaf,
                    leaf_commitment,
                    idx: i,
                    left_key: lk,
                    left_witness: lw,
                    right_key: rk,
                    right_witness: rw,
                },
            ),
        ) && {
            &&& path_to_leaf@.len() == 0
            &&& leaf_commitment == commitment
            &&& i == idx
            &&& lk == left_key
            &&& lw == left_witness
            &&& rk == right_key
            &&& rw == right_witness
        },
    }
}

/// How a node answers an insert from its leaf's answer `lr`: the leaf
/// opening with an empty path, or the leaf's error.
pub open spec fn inserted_as<const MAX_KEY_LEN: usize>(
    lr: Result<KVProof, BerkleError>,
    r: Result<MembershipProof<MAX_KEY_LEN>, BerkleError>,
) -> bool {
    match lr {
        Err(a) => r == Err::<MembershipProof<MAX_KEY_LEN>, BerkleError>(a),
        Ok(leaf) => r matches Ok(p) && p.commitments@.len() == 0 && p.path@.len() == 0 && p.leaf == leaf,
    }
}

impl<'params, const Q: usize, const MAX_KEY_LEN: usize, const MAX_VAL_LEN: usize> Node<
    'params,
    Q,
    MAX_KEY_LEN,
    MAX_VAL_LEN,
> {
    /// Inserts an entry into a leaf node, commits to the new contents and
    /// proves the new entry's membership. Internal nodes do not take
    /// inserts yet.
    pub fn insert(
        &mut self,
        key: &[u8; MAX_KEY_LEN],
        value: &[u8; MAX_VAL_LEN],
        hash: [u8; 32],
    ) -> (r: Result<MembershipProof<MAX_KEY_LEN>, BerkleError>)
        requires
            *old(self) is Leaf,
            (*old(self))->Leaf_0.wf(),
            (*old(self))->Leaf_0.keys@.len() < usize::MAX,
            counter_room((*old(self))->Leaf_0.keys@, key@),
            (*old(self))->Leaf_0.keys@.len() <= prover_capacity((*old(self))->Leaf_0.prover),
            1 <= prover_capacity((*old(self))->Leaf_0.prover),
        ensures
            *final(self) is Leaf,
            (*final(self))->Leaf_0.wf(),
            exists|lr: Result<KVProof, BerkleError>|
                (*old(self))->Leaf_0.insert_outcome(&(*final(self))->Leaf_0, *key, *value, hash@, lr)
                    && #[trigger] inserted_as(lr, r),
    {
        match self {
            Node::Leaf(node) => {
                let lr = node.insert(key, value, hash);
                let r = match lr {
                    Ok(leaf) => Ok(MembershipProof { commitments: Vec::new(), path: Vec::new(), leaf }),
                    Err(e) => Err(e),
                };
                assert(inserted_as(lr, r));
                r
            },
            Node::Internal(_) => unreached(),
        }
    }

    /// Inserts an entry into a leaf node without committing.
    pub fn insert_no_proof(&mut self, key: &[u8; MAX_KEY_LEN], value: &[u8; MAX_VAL_LEN], hash: [u8; 32])
        requires
            *old(self) is Leaf,
            (*old(self))->Leaf_0.wf(),
            (*old(self))->Leaf_0.keys@.len() < usize::MAX,
            counter_room((*old(self))->Leaf_0.keys@, key@),
        ensures
            *final(self) is Leaf,
            (*final(self))->Leaf_0.wf(),
            (*final(self))->Leaf_0.entry_inserted(
                &(*old(self))->Leaf_0,
                *key,
                *value,
                hash@,
                insert_index((*old(self))->Leaf_0.keys@, key@),
            ),
    {
        match self {
            Node::Leaf(node) => node.insert_no_proof(key, value, hash),
            Node::Internal(_) => unreached(),
        }
    }

    /// Looks `key` up in a committed leaf node, with a membership or
    /// non-membership proof. Internal nodes do not take lookups yet.
    pub fn get(&mut self, key: &[u8; MAX_KEY_LEN]) -> (r: Result<GetResult<MAX_KEY_LEN, MAX_VAL_LEN>, BerkleError>)
        requires
            *old(self) is Leaf,
            (*old(self))->Leaf_0.wf(),
            (*old(self))->Leaf_0.keys@.len() > 0,
            prover_commitment((*old(self))->Leaf_0.prover) is Some,
        ensures
            *final(self) is Leaf,
            (*final(self))->Leaf_0.wf(),
            exists|lr: Result<either::Either<LeafGetFound<MAX_VAL_LEN>, LeafGetNotFound<MAX_KEY_LEN>>, BerkleError>|
                (*old(self))->Leaf_0.get_outcome(&(*final(self))->Leaf_0, *key, lr) && #[trigger] answers_as(lr, r),
    {
        match self {
            Node::Leaf(node) => {
                let lr = node.get(key);
                let r = match lr {
                    Ok(either::Either::Left(LeafGetFound(val, leaf))) => Ok(
                        GetResult::Found(val, MembershipProof { commitments: Vec::new(), path: Vec::new(), leaf }),
                    ),
                    Ok(either::Either::Right(res)) => Ok(
                        GetResult::NotFound(
                            match res {
                                LeafGetNotFound::Mid {
                                    idx,
                                    commitment,
                                    left_witness,
                                    left_key,
                                    right_witness,
                                    right_key,
                                } => NonMembershipProof::IntraNode {
                                    path_to_leaf: Vec::new(),
                                    leaf_commitment: commitment,
                                    idx,
                                    left_key,
                                    left_witness,
                                    right_key,
                                    right_witness,
                                },
                                LeafGetNotFound::Left { right, right_key } => NonMembershipProof::Edge {
                                    is_left: true,
                                    path: Vec::new(),
                                    leaf_proof: right,
                                    key: right_key,
                                },
                                LeafGetNotFound::Right { left, left_key } => NonMembershipProof::Edge {
                                    is_left: false,
                                    path: Vec::new(),
                                    leaf_proof: left,
                                    key: left_key,
                                },
                            },
                        ),
                    ),
                    Err(e) => Err(e),
                };
                assert(answers_as(lr, r));
                r
            },
            Node::Internal(_) => unreached(),
        }
    }
}

impl<'params, const Q: usize, const MAX_KEY_LEN: usize, const MAX_VAL_LEN: usize> InternalNode<
    'params,
    Q,
    MAX_KEY_LEN,
    MAX_VAL_LEN,
> {
    /// Key `i` is at least every key of child `i` and below every key of
    /// child `i + 1`, and there are as many keys as children.
    pub open spec fn separates_children(self) -> bool {
        &&& self.keys@.len() == self.children@.len()
        &&& forall|i: int, j: int|
            0 <= i < self.children@.len() && 0 <= j < self.children@[i].node_keys().len() ==> key_le(
                (#[trigger] self.children@[i].node_keys()[j]).0@,
                self.keys@[i].0@,
            )
        &&& forall|i: int, j: int|
            1 <= i < self.children@.len() && 0 <= j < self.children@[i].node_keys().len() ==> key_lt(
                self.keys@[i - 1].0@,
                (#[trigger] self.children@[i].node_keys()[j]).0@,
            )
    }

    /// A node over two children split at `key`, without a commitment. Its
    /// keys are `key`, bounding the left child, and the largest key of the
    /// right child, bounding it (`key` again where the right child has none).
    /// Where every key of the left child is at most `key` and every key of the
    /// right child above it, each key bounds its child from above and the
    /// next child from below.
    pub fn new(
        params: &'params Params,
        key: [u8; MAX_KEY_LEN],
        left: Node<'params, Q, MAX_KEY_LEN, MAX_VAL_LEN>,
        right: Node<'params, Q, MAX_KEY_LEN, MAX_VAL_LEN>,
    ) -> (r: Self)
        ensures
            r.hash is None,
            r.keys@.len() == 2,
            r.keys@[0] == KeyWithCounter(key, 0u8),
            forall|j: int|
                0 <= j < right.node_keys().len() ==> key_le(#[trigger] right.node_keys()[j].0@, r.keys@[1].0@),
            right.node_keys().len() > 0 ==> right.node_keys().contains(r.keys@[1]),
            right.node_keys().len() == 0 ==> r.keys@[1] == KeyWithCounter(key, 0u8),
            r.children@ == seq![left, right],
            r.witnesses@.len() == 0,
            prover_commitment(r.prover) is None,
            prover_params(r.prover) == *params,
            (forall|j: int| 0 <= j < left.node_keys().len() ==> key_le(#[trigger] left.node_keys()[j].0@, key@))
                && (forall|j: int| 0 <= j < right.node_keys().len() ==> key_lt(key@, #[trigger] right.node_keys()[j].0@))
                ==> r.separates_children(),
    {
        let upper = match &right {
            Node::Internal(node) => max_key(&node.keys, KeyWithCounter(key, 0)),
            Node::Leaf(node) => max_key(&node.keys, KeyWithCounter(key, 0)),
        };
        let r = InternalNode {
            hash: None,
            children: vec![left, right],
            keys: vec![KeyWithCounter(key, 0), upper],
            witnesses: Vec::new(),
            prover: Prover::new(params),
        };
        assert(r.children@ =~= seq![left, right]);
        assert(r.children@[0] == left && r.children@[1] == right);
        r
    }

    /// The field hash of the BLAKE3 digest of the node's commitment, or
    /// `NotCommitted` where it has none.
    pub fn hash(&self) -> (r: Result<FieldHash, BerkleError>)
        ensures
            r is Err <==> prover_commitment(self.prover) is None,
            r matches Err(e) ==> e == BerkleError::NotCommitted,
            r matches Ok(h) ==> h.wf() && h.bytes@ == spec_field_hash(
                blake3_digest(prover_commitment(self.prover)->Some_0),
            ),
    {
        match self.prover.commitment() {
            None => Err(BerkleError::NotCommitted),
            Some(c) => Ok(FieldHash::from_digest(blake3_hash(c.as_slice()))),
        }
    }
}

impl<'params, const Q: usize, const MAX_KEY_LEN: usize, const MAX_VAL_LEN: usize> From<
    InternalNode<'params, Q, MAX_KEY_LEN, MAX_VAL_LEN>,
> for Node<'params, Q, MAX_KEY_LEN, MAX_VAL_LEN> {
    fn from(node: InternalNode<'params, Q, MAX_KEY_LEN, MAX_VAL_LEN>) -> (r: Self) {
        Node::Internal(node)
    }
}

impl<'params, const Q: usize, const MAX_KEY_LEN: usize, const MAX_VAL_LEN: usize> vstd::std_specs::convert::FromSpecImpl<
    InternalNode<'params, Q, MAX_KEY_LEN, MAX_VAL_LEN>,
> for Node<'params, Q, MAX_KEY_LEN, MAX_VAL_LEN> {
    open spec fn obeys_from_spec() -> bool {
        true
    }

    open spec fn from_spec(node: InternalNode<'params, Q, MAX_KEY_LEN, MAX_VAL_LEN>) -> Self {
        Node::Internal(node)
    }
}

impl<'params, const Q: usize, const MAX_KEY_LEN: usize, const MAX_VAL_LEN: usize> From<
    LeafNode<'params, Q, MAX_KEY_LEN, MAX_VAL_LEN>,
> for Node<'params, Q, MAX_KEY_LEN, MAX_VAL_LEN> {
    fn from(node: LeafNode<'params, Q, MAX_KEY_LEN, MAX_VAL_LEN>) -> (r: Self) {
        Node::Leaf(node)
    }
}

impl<'params, const Q: usize, const MAX_KEY_LEN: usize, const MAX_VAL_LEN: usize> vstd::std_specs::convert::FromSpecImpl<
    LeafNode<'params, Q, MAX_KEY_LEN, MAX_VAL_LEN>,
> for Node<'params, Q, MAX_KEY_LEN, MAX_VAL_LEN> {
    open spec fn obeys_from_spec() -> bool {
        true
    }

    open spec fn from_spec(node: LeafNode<'params, Q, MAX_KEY_LEN, MAX_VAL_LEN>) -> Self {
        Node::Leaf(node)
    }
}

impl<'params, const Q: usize, const MAX_KEY_LEN: usize, const MAX_VAL_LEN: usize> TryFrom<
    Node<'params, Q, MAX_KEY_LEN, MAX_VAL_LEN>,
> for LeafNode<'params, Q, MAX_KEY_LEN, MAX_VAL_LEN> {
    type Error = NodeConvertError;

    fn try_from(node: Node<'params, Q, MAX_KEY_LEN, MAX_VAL_LEN>) -> (r: Result<Self, NodeConvertError>) {
        match node {
            Node::Leaf(node) => Ok(node),
            _ => Err(NodeConvertError::NotLeafNode),
        }
    }
}

impl<'params, const Q: usize, const MAX_KEY_LEN: usize, const MAX_VAL_LEN: usize> vstd::std_specs::convert::TryFromSpecImpl<
    Node<'params, Q, MAX_KEY_LEN, MAX_VAL_LEN>,
> for LeafNode<'params, Q, MAX_KEY_LEN, MAX_VAL_LEN> {
    open spec fn obeys_try_from_spec() -> bool {
        true
    }

    open spec fn try_from_spec(node: Node<'params, Q, MAX_KEY_LEN, MAX_VAL_LEN>) -> Result<Self, NodeConvertError> {
        match node {
            Node::Leaf(node) => Ok(node),
            _ => Err(NodeConvertError::NotLeafNode),
        }
    }
}

impl<'params, const Q: usize, const MAX_KEY_LEN: usize, const MAX_VAL_LEN: usize> TryFrom<
    Node<'params, Q, MAX_KEY_LEN, MAX_VAL_LEN>,
> for InternalNode<'params, Q, MAX_KEY_LEN, MAX_VAL_LEN> {
    type Error = NodeConvertError;

    fn try_from(node: Node<'params, Q, MAX_KEY_LEN, MAX_VAL_LEN>) -> (r: Result<Self, NodeConvertError>) {
        match node {
            Node::Internal(node) => Ok(node),
            _ => Err(NodeConvertError::NotInternalNode),
        }
    }
}

impl<'params, const Q: usize, const MAX_KEY_LEN: usize, const MAX_VAL_LEN: usize> vstd::std_specs::convert::TryFromSpecImpl<
    Node<'params, Q, MAX_KEY_LEN, MAX_VAL_LEN>,
> for InternalNode<'params, Q, MAX_KEY_LEN, MAX_VAL_LEN> {
    open spec fn obeys_try_from_spec() -> bool {
        true
    }

    open spec fn try_from_spec(node: Node<'params, Q, MAX_KEY_LEN, MAX_VAL_LEN>) -> Result<Self, NodeConvertError> {
        match node {
            Node::Internal(node) => Ok(node),
            _ => Err(NodeConvertError::NotInternalNode),
        }
    }
}

} // verus!
