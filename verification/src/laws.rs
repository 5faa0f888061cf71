use vstd::prelude::*;
use vstd::std_specs::cmp::{PartialEqSpec, PartialOrdSpec};
use vstd::std_specs::convert::{FromSpec, TryFromSpec};
use crate::error::{BerkleError, NodeConvertError};
use crate::key::{lemma_lex_order, ordering_of, KeyWithCounter};
use crate::leaf::{LeafGetFound, LeafGetNotFound, LeafNode};
use crate::node::{InternalNode, Node};
use crate::openings::KVProof;
use crate::search::{is_insert_position, key_present};
use crate::digest::{blake3_digest, key_hash_input, key_idx_hash_input, le_bytes, spec_field_hash};
use crate::leaf::leaf_point;

verus! {

/// Two keys are equal exactly when their key bytes are, whatever their
/// counters, and their order says `Equal` exactly then.
pub proof fn law_key_equality_ignores_counter<const K: usize>(key: [u8; K], c1: u8, c2: u8, other: KeyWithCounter<K>)
    ensures
        KeyWithCounter(key, c1).eq_spec(&KeyWithCounter(key, c2)),
        KeyWithCounter(key, c1).eq_spec(&other) <==> key@ == other.0@,
        KeyWithCounter(key, c1).partial_cmp_spec(&other) == Some(ordering_of(crate::key::lex_order(key@, other.0@))),
        KeyWithCounter(key, c1).eq_spec(&other) <==> KeyWithCounter(key, c1).partial_cmp_spec(&other) == Some(
            core::cmp::Ordering::Equal,
        ),
{
    lemma_lex_order(key@, key@, key@);
    lemma_lex_order(key@, other.0@, other.0@);
}

/// An entry put at its insert position is found under its key afterwards.
pub proof fn law_inserted_key_present<const K: usize>(
    keys: Seq<KeyWithCounter<K>>,
    key: [u8; K],
    idx: int,
    counter: u8,
)
    requires
        is_insert_position(keys, key@, idx),
    ensures
        key_present(keys.insert(idx, KeyWithCounter(key, counter)), key@),
{
    assert(keys.insert(idx, KeyWithCounter(key, counter))[idx] == KeyWithCounter(key, counter));
}

/// A lookup right after a committed insert finds the key with the commitment
/// that the insert made; where no entry had that key before, it gives back
/// the value written, at the position and with the witness of the insert.
pub proof fn law_get_after_insert<'params, const Q: usize, const K: usize, const V: usize>(
    before: LeafNode<'params, Q, K, V>,
    after: LeafNode<'params, Q, K, V>,
    key: [u8; K],
    value: [u8; V],
    digest: Seq<u8>,
    inserted: Result<KVProof, BerkleError>,
    looked_up: LeafNode<'params, Q, K, V>,
    answer: Result<either::Either<LeafGetFound<V>, LeafGetNotFound<K>>, BerkleError>,
)
    requires
        before.wf(),
        after.wf(),
        before.insert_outcome(&after, key, value, digest, inserted),
        inserted is Ok,
        after.get_outcome(&looked_up, key, answer),
    ensures
        answer matches Ok(either::Either::Left(LeafGetFound(v, p))) && after.keys@[p.idx as int].0@ == key@
            && p.commitment@ == inserted->Ok_0.commitment@,
        !key_present(before.keys@, key@) ==> (answer matches Ok(either::Either::Left(LeafGetFound(v, p))) && {
            &&& v == value
            &&& p.idx == inserted->Ok_0.idx
            &&& p.witness == inserted->Ok_0.witness
        }),
{
    let idx = crate::search::insert_index(before.keys@, key@);
    let c = crate::search::new_counter(before.keys@, key@, idx);
    crate::search::lemma_insert_position_exists(before.keys@, key);
    law_inserted_key_present(before.keys@, key, idx, c);
    if !key_present(before.keys@, key@) {
        let i: int = match answer {
            Ok(either::Either::Left(LeafGetFound(_, p))) => p.idx as int,
            _ => 0,
        };
        if i < idx {
            assert(after.keys@[i] == before.keys@[i]);
        } else if i > idx {
            assert(after.keys@[i] == before.keys@[i - 1]);
        }
        assert(i == idx);
        assert(after.witnesses@[idx] == Some(inserted->Ok_0.witness));
    }
}

/// Committing twice to the same entries over the same parameters gives the
/// same commitment.
pub proof fn law_same_entries_same_commitment<'params, const Q: usize, const K: usize, const V: usize>(
    a: LeafNode<'params, Q, K, V>,
    b: LeafNode<'params, Q, K, V>,
)
    requires
        a.keys@ == b.keys@,
        a.hashes@ == b.hashes@,
        crate::commitment::prover_params(a.prover) == crate::commitment::prover_params(b.prover),
    ensures
        a.entries_commitment() == b.entries_commitment(),
{
}

/// An insert without a proof keeps the leaf's commitment, so a leaf that
/// was never committed stays so.
pub proof fn law_insert_no_proof_keeps_commitment<'params, const Q: usize, const K: usize, const V: usize>(
    before: LeafNode<'params, Q, K, V>,
    after: LeafNode<'params, Q, K, V>,
    key: [u8; K],
    value: [u8; V],
    digest: Seq<u8>,
    idx: int,
)
    requires
        after.entry_inserted(&before, key, value, digest, idx),
    ensures
        crate::commitment::prover_commitment(after.prover) == crate::commitment::prover_commitment(before.prover),
{
}

/// A lookup that finds an entry whose witness is cached answers with the
/// cached witness, and keeps it cached.
pub proof fn law_get_reuses_cached_witness<'params, const Q: usize, const K: usize, const V: usize>(
    before: LeafNode<'params, Q, K, V>,
    after: LeafNode<'params, Q, K, V>,
    key: [u8; K],
    value: [u8; V],
    proof: KVProof,
    cached: [u8; 96],
)
    requires
        before.wf(),
        before.get_outcome(&after, key, Ok(either::Either::Left(LeafGetFound(value, proof)))),
        before.witnesses@[proof.idx as int] == Some(cached),
    ensures
        proof.witness == cached,
        after.witnesses@[proof.idx as int] == Some(cached),
{
}

/// Converting a leaf into a node and back gives the leaf; a leaf node is no
/// internal node.
pub proof fn law_leaf_conversion<'params, const Q: usize, const K: usize, const V: usize>(
    leaf: LeafNode<'params, Q, K, V>,
)
    ensures
        <LeafNode<'params, Q, K, V> as TryFromSpec<Node<'params, Q, K, V>>>::try_from_spec(
            <Node<'params, Q, K, V> as FromSpec<LeafNode<'params, Q, K, V>>>::from_spec(leaf),
        ) == Ok::<LeafNode<'params, Q, K, V>, NodeConvertError>(leaf),
        <InternalNode<'params, Q, K, V> as TryFromSpec<Node<'params, Q, K, V>>>::try_from_spec(
            <Node<'params, Q, K, V> as FromSpec<LeafNode<'params, Q, K, V>>>::from_spec(leaf),
        ) == Err::<InternalNode<'params, Q, K, V>, NodeConvertError>(NodeConvertError::NotInternalNode),
{
}

/// Converting an internal node into a node and back gives the internal node;
/// an internal node is no leaf.
pub proof fn law_internal_conversion<'params, const Q: usize, const K: usize, const V: usize>(
    internal: InternalNode<'params, Q, K, V>,
)
    ensures
        <InternalNode<'params, Q, K, V> as TryFromSpec<Node<'params, Q, K, V>>>::try_from_spec(
            <Node<'params, Q, K, V> as FromSpec<InternalNode<'params, Q, K, V>>>::from_spec(internal),
        ) == Ok::<InternalNode<'params, Q, K, V>, NodeConvertError>(internal),
        <LeafNode<'params, Q, K, V> as TryFromSpec<Node<'params, Q, K, V>>>::try_from_spec(
            <Node<'params, Q, K, V> as FromSpec<InternalNode<'params, Q, K, V>>>::from_spec(internal),
        ) == Err::<LeafNode<'params, Q, K, V>, NodeConvertError>(NodeConvertError::NotLeafNode),
{
}

/// A lookup in a committed leaf fails only for an entry it needs: where the
/// key is present, some entry under it can be neither taken from the cache
/// nor opened; where it is missing, one of the two entries around its place
/// cannot.
pub proof fn law_get_fails_only_for_needed_entries<'params, const Q: usize, const K: usize, const V: usize>(
    before: LeafNode<'params, Q, K, V>,
    after: LeafNode<'params, Q, K, V>,
    key: [u8; K],
    answer: Result<either::Either<LeafGetFound<V>, LeafGetNotFound<K>>, BerkleError>,
    g: int,
)
    requires
        crate::commitment::prover_commitment(before.prover) is Some,
        before.get_outcome(&after, key, answer),
        answer is Err,
    ensures
        key_present(before.keys@, key@) ==> exists|i: int|
            0 <= i < before.keys@.len() && (#[trigger] before.keys@[i]).0@ == key@ && !before.can_open(i),
        crate::search::is_gap(before.keys@, key@, g) ==> (0 < g && !before.can_open(g - 1)) || (g < before.keys@.len()
            && !before.can_open(g)),
{
}

/// `256` to the power `j`.
pub open spec fn pow256(j: nat) -> nat
    decreases j,
{
    if j == 0 {
        1
    } else {
        256 * pow256((j - 1) as nat)
    }
}

proof fn lemma_pow256_positive(j: nat)
    ensures
        pow256(j) > 0,
    decreases j,
{
    if j > 0 {
        lemma_pow256_positive((j - 1) as nat);
    }
}

/// Byte `j` of the little-endian encoding of `x` in `n` bytes is digit `j`
/// of `x` in base 256, and there are `n` bytes.
pub proof fn law_le_bytes_digits(x: nat, n: nat)
    ensures
        le_bytes(x, n).len() == n,
        forall|j: int| 0 <= j < n ==> (#[trigger] le_bytes(x, n)[j]) as int == (x / pow256(j as nat)) % 256,
    decreases n,
{
    if n > 0 {
        law_le_bytes_digits(x / 256, (n - 1) as nat);
        assert forall|j: int| 0 <= j < n implies (#[trigger] le_bytes(x, n)[j]) as int == (x / pow256(j as nat)) % 256 by {
            if j > 0 {
                let p = pow256((j - 1) as nat);
                lemma_pow256_positive((j - 1) as nat);
                assert(pow256(j as nat) == 256 * p);
                vstd::arithmetic::div_mod::lemma_div_denominator(x as int, 256, p as int);
                assert(le_bytes(x, n)[j] == le_bytes(x / 256, (n - 1) as nat)[j - 1]);
                assert((le_bytes(x / 256, (n - 1) as nat)[j - 1]) as int == ((x / 256) / pow256((j - 1) as nat)) % 256);
            } else {
                assert(pow256(0) == 1);
                assert(x / 1 == x);
            }
        }
    }
}

/// Keys of one length that agree before position `i` and differ there are
/// ordered by their bytes at `i`, read as unsigned numbers `0..=255`: the
/// smaller byte gives the smaller key, for equality and order of
/// `KeyWithCounter` alike.
pub proof fn law_byte_order<const K: usize>(a: [u8; K], b: [u8; K], i: int, ca: u8, cb: u8)
    requires
        0 <= i < K,
        forall|j: int| 0 <= j < i ==> a[j] == b[j],
        a[i] < b[i],
    ensures
        crate::key::lex_order(a@, b@) == -1,
        crate::key::key_lt(a@, b@),
        crate::key::lex_order(b@, a@) == 1,
        KeyWithCounter(a, ca).partial_cmp_spec(&KeyWithCounter(b, cb)) == Some(core::cmp::Ordering::Less),
        KeyWithCounter(b, cb).partial_cmp_spec(&KeyWithCounter(a, ca)) == Some(core::cmp::Ordering::Greater),
        !KeyWithCounter(a, ca).eq_spec(&KeyWithCounter(b, cb)),
{
    lemma_prefix_order(a@, b@, i, 0);
    lemma_prefix_order(b@, a@, i, 0);
}

/// Before the first differing position the comparison carries on.
proof fn lemma_prefix_order(a: Seq<u8>, b: Seq<u8>, i: int, k: int)
    requires
        a.len() == b.len(),
        0 <= k <= i < a.len(),
        forall|j: int| 0 <= j < i ==> a[j] == b[j],
        a[i] != b[i],
    ensures
        crate::key::lex_order_from(a, b, k) == (if a[i] < b[i] { -1int } else { 1int }),
    decreases i - k,
{
    if k < i {
        lemma_prefix_order(a, b, i, k + 1);
    }
}

/// What `KeyWithCounter::hash` digests is the key bytes and then the
/// counter; what `hash_with_idx` digests is that and then one byte per byte
/// of a `usize`, byte `j` being digit `j` of the index in base 256.
pub proof fn law_hash_inputs<const K: usize>(k: KeyWithCounter<K>, idx: usize)
    ensures
        key_hash_input(k).len() == K + 1,
        key_hash_input(k).subrange(0, K as int) == k.0@,
        key_hash_input(k)[K as int] == k.1,
        key_idx_hash_input(k, idx as nat).len() == K + 1 + usize::BITS / 8,
        key_idx_hash_input(k, idx as nat).subrange(0, K + 1) == key_hash_input(k),
        forall|j: int|
            0 <= j < usize::BITS / 8 ==> (#[trigger] key_idx_hash_input(k, idx as nat)[K + 1 + j]) as int == (idx as nat
                / pow256(j as nat)) % 256,
{
    let n = (usize::BITS / 8) as nat;
    law_le_bytes_digits(idx as nat, n);
    assert(key_hash_input(k).subrange(0, K as int) =~= k.0@);
    let input = key_idx_hash_input(k, idx as nat);
    assert(input.subrange(0, K + 1) =~= key_hash_input(k));
    assert forall|j: int| 0 <= j < usize::BITS / 8 implies (#[trigger] input[K + 1 + j]) as int == (idx as nat
        / pow256(j as nat)) % 256 by {
        assert(input[K + 1 + j] == le_bytes(idx as nat, n)[j]);
    }
}

/// The evaluation point of entry `i` is the field hash of the BLAKE3 digest
/// of the stored key's bytes, its own counter and the index `i` in
/// little-endian bytes.
pub proof fn law_entry_point<const K: usize>(keys: Seq<KeyWithCounter<K>>, i: int)
    requires
        0 <= i < keys.len(),
    ensures
        leaf_point(keys, i) == spec_field_hash(
            blake3_digest(keys[i].0@ + seq![keys[i].1] + le_bytes(i as nat, (usize::BITS / 8) as nat)),
        ),
{
    assert(keys[i].0@.push(keys[i].1) =~= keys[i].0@ + seq![keys[i].1]);
}

} // verus!
