use vstd::prelude::*;
use crate::commitment::{
    all_canonical, distinct_points, hash_bytes, interpolation_commitment, opening_witness,
    prover_capacity, prover_commitment, prover_opens, prover_params, Params, Prover,
};
use crate::digest::{blake3_digest, blake3_hash, spec_field_hash, spec_key_field_hash, FieldHash};
use crate::error::BerkleError;
use crate::key::KeyWithCounter;
use crate::openings::KVProof;
use crate::search::{
    counter_room, counters_consecutive, insert_index, is_gap, is_insert_position, key_present, keys_sorted,
    lemma_insert_keeps_order, new_counter, partition_point_le, search_key,
};

verus! {

/// Declares `either::Either` to Verus. Its two variants and their fields are
/// public, so Verus reads them as they are declared and contracts can say
/// which side a lookup answers with.
#[verifier::external_type_specification]
#[verifier::reject_recursive_types(L)]
#[verifier::reject_recursive_types(R)]
pub struct ExEither<L, R>(either::Either<L, R>);

/// A value found in a leaf, with the opening of its entry.
#[derive(Debug, Clone, PartialEq, Eq)]
pub struct LeafGetFound<const MAX_VAL_LEN: usize>(pub [u8; MAX_VAL_LEN], pub KVProof);

/// Why a key is not in a leaf: it comes before the first entry (`Left`),
/// after the last (`Right`), or between entries `idx` and `idx + 1` (`Mid`).
#[derive(Debug, Clone, PartialEq, Eq)]
pub enum LeafGetNotFound<const MAX_KEY_LEN: usize> {
    Left { right: KVProof, right_key: [u8; MAX_KEY_LEN] },
    Right { left: KVProof, left_key: [u8; MAX_KEY_LEN] },
    Mid {
        idx: usize,
        commitment: [u8; 96],
        left_witness: [u8; 96],
        left_key: [u8; MAX_KEY_LEN],
        right_witness: [u8; 96],
        right_key: [u8; MAX_KEY_LEN],
    },
}

/// A leaf: entries kept in parallel vectors, sorted by key bytes, and a
/// prover that commits to a polynomial through the points
/// `(field hash of key i at index i, hash i)`.
pub struct LeafNode<'params, const Q: usize, const MAX_KEY_LEN: usize, const MAX_VAL_LEN: usize> {
    pub hash: Option<FieldHash>,
    pub keys: Vec<KeyWithCounter<MAX_KEY_LEN>>,
    pub values: Vec<[u8; MAX_VAL_LEN]>,
    pub hashes: Vec<FieldHash>,
    /// Lazily computed witnesses, one slot per entry: `None` until computed.
    pub witnesses: Vec<Option<[u8; 96]>>,
    pub prover: Prover<'params>,
}

/// The evaluation point of entry `i` of `keys`.
pub open spec fn leaf_point<const K: usize>(keys: Seq<KeyWithCounter<K>>, i: int) -> Seq<u8> {
    spec_key_field_hash(keys[i], i as nat)
}

/// The evaluation points of all entries of `keys`, in order.
pub open spec fn leaf_points<const K: usize>(keys: Seq<KeyWithCounter<K>>) -> Seq<Seq<u8>> {
    Seq::new(keys.len(), |i: int| leaf_point(keys, i))
}

/// Whether the answer `r` of a lookup reports the witness of entry `j`.
pub open spec fn reported_index<const MAX_KEY_LEN: usize, const MAX_VAL_LEN: usize>(
    r: Result<either::Either<LeafGetFound<MAX_VAL_LEN>, LeafGetNotFound<MAX_KEY_LEN>>, BerkleError>,
    j: int,
) -> bool {
    match r {
        Ok(either::Either::Left(LeafGetFound(_, p))) => j == p.idx,
        Ok(either::Either::Right(LeafGetNotFound::Left { right, .. })) => j == right.idx,
        Ok(either::Either::Right(LeafGetNotFound::Right { left, .. })) => j == left.idx,
        Ok(either::Either::Right(LeafGetNotFound::Mid { idx, .. })) => j == idx || j == idx + 1,
        Err(_) => false,
    }
}

/// No two entries of `keys` have the same evaluation point.
pub open spec fn points_distinct<const K: usize>(keys: Seq<KeyWithCounter<K>>) -> bool {
    forall|i: int, j: int|
        0 <= i < j < keys.len() ==> #[trigger] leaf_point(keys, i) != #[trigger] leaf_point(keys, j)
}

/// Whether the field hashes in `xs` are pairwise distinct.
fn all_distinct(xs: &Vec<FieldHash>) -> (r: bool)
    ensures
        r == distinct_points(xs@),
{
    let n = xs.len();
    let mut i: usize = 0;
    while i < n
        invariant
            0 <= i <= n,
            n == xs@.len(),
            forall|a: int, b: int| 0 <= a < i && a < b < n ==> xs@[a].bytes@ != xs@[b].bytes@,
        decreases n - i,
    {
        let mut j: usize = i + 1;
        while j < n
            invariant
                0 <= i < n,
                i + 1 <= j <= n,
                n == xs@.len(),
                forall|a: int, b: int| 0 <= a < i && a < b < n ==> xs@[a].bytes@ != xs@[b].bytes@,
                forall|b: int| i < b < j ==> xs@[i as int].bytes@ != xs@[b].bytes@,
            decreases n - j,
        {
            if crate::key::compare_key_bytes(&xs[i].bytes, &xs[j].bytes) == 0 {
                proof {
                    crate::key::lemma_lex_order(xs@[i as int].bytes@, xs@[j as int].bytes@, xs@[j as int].bytes@);
                }
                return false;
            }
            proof {
                crate::key::lemma_lex_order(xs@[i as int].bytes@, xs@[j as int].bytes@, xs@[j as int].bytes@);
            }
            j = j + 1;
        }
        i = i + 1;
    }
    true
}

/// The counter of a new entry for `key` at its insert position `idx`.
fn next_counter<const K: usize>(keys: &Vec<KeyWithCounter<K>>, key: &[u8; K], idx: usize) -> (c: u8)
    requires
        is_insert_position(keys@, key@, idx as int),
        counter_room(keys@, key@),
    ensures
        c == new_counter(keys@, key@, idx as int),
{
    if idx != 0 && keys[idx - 1] == KeyWithCounter(*key, 0) {
        proof {
            crate::key::lemma_lex_order(keys@[idx - 1].0@, key@, key@);
        }
        keys[idx - 1].1 + 1
    } else {
        proof {
            if idx != 0 {
                crate::key::lemma_lex_order(keys@[idx - 1].0@, key@, key@);
            }
        }
        0
    }
}

/// Inserting a canonical field hash keeps every hash canonical.
proof fn lemma_insert_canonical(hashes: Seq<FieldHash>, h: FieldHash, idx: int)
    requires
        all_canonical(hashes),
        h.wf(),
        0 <= idx <= hashes.len(),
    ensures
        all_canonical(hashes.insert(idx, h)),
{
    let s = hashes.insert(idx, h);
    assert forall|i: int| 0 <= i < s.len() implies #[trigger] s[i].wf() by {
        if i < idx {
            assert(s[i] == hashes[i]);
        } else if i > idx {
            assert(s[i] == hashes[i - 1]);
        }
    }
}

impl<'params, const Q: usize, const MAX_KEY_LEN: usize, const MAX_VAL_LEN: usize> LeafNode<
    'params,
    Q,
    MAX_KEY_LEN,
    MAX_VAL_LEN,
> {
    /// The vectors run in parallel, the keys are sorted with consecutive
    /// counters per key, and every entry hash is canonical.
    pub open spec fn wf(&self) -> bool {
        &&& self.values@.len() == self.keys@.len()
        &&& self.hashes@.len() == self.keys@.len()
        &&& self.witnesses@.len() == self.keys@.len()
        &&& keys_sorted(self.keys@)
        &&& counters_consecutive(self.keys@)
        &&& all_canonical(self.hashes@)
    }

    /// The prover holds a commitment to a polynomial through the point of
    /// every entry.
    pub open spec fn synced(&self) -> bool {
        &&& prover_commitment(self.prover) is Some
        &&& forall|i: int|
            0 <= i < self.keys@.len() ==> prover_opens(
                self.prover,
                #[trigger] leaf_point(self.keys@, i),
                self.hashes@[i].bytes@,
            )
    }

    /// The commitment, over the prover's parameters, to the interpolation of
    /// the points of the leaf's entries.
    pub open spec fn entries_commitment(&self) -> Seq<u8> {
        interpolation_commitment(prover_params(self.prover), leaf_points(self.keys@), hash_bytes(self.hashes@))
    }

    /// Same entries and prover as `other`.
    pub open spec fn same_entries(&self, other: &Self) -> bool {
        &&& self.keys@ == other.keys@
        &&& self.values@ == other.values@
        &&& self.hashes@ == other.hashes@
        &&& self.prover == other.prover
        &&& self.hash == other.hash
    }

    /// The entries of `self` are those of `old` with a new entry for `key`,
    /// `value` and the digest `digest` put at `idx`.
    pub open spec fn entries_inserted(
        &self,
        old: &Self,
        key: [u8; MAX_KEY_LEN],
        value: [u8; MAX_VAL_LEN],
        digest: Seq<u8>,
        idx: int,
    ) -> bool {
        &&& self.keys@ == old.keys@.insert(idx, KeyWithCounter(key, new_counter(old.keys@, key@, idx)))
        &&& self.values@ == old.values@.insert(idx, value)
        &&& self.hashes@ == old.hashes@.insert(idx, self.hashes@[idx])
        &&& self.hashes@[idx].bytes@ == spec_field_hash(digest)
        &&& self.hash == old.hash
    }

    /// `self` is `old` with a new entry put at `idx`, with a fresh witness
    /// slot; the prover is kept.
    pub open spec fn entry_inserted(
        &self,
        old: &Self,
        key: [u8; MAX_KEY_LEN],
        value: [u8; MAX_VAL_LEN],
        digest: Seq<u8>,
        idx: int,
    ) -> bool {
        &&& self.entries_inserted(old, key, value, digest, idx)
        &&& self.witnesses@ == old.witnesses@.insert(idx, None)
        &&& self.prover == old.prover
    }

    /// An empty leaf over `params`. It does not commit: that takes a call of
    /// `reinterpolate` or `insert`.
    pub fn new(params: &'params Params) -> (r: Self)
        ensures
            r.wf(),
            r.keys@.len() == 0,
            r.hash is None,
            prover_commitment(r.prover) is None,
            prover_params(r.prover) == *params,
    {
        LeafNode {
            hash: None,
            values: Vec::with_capacity(Q),
            keys: Vec::with_capacity(Q),
            hashes: Vec::with_capacity(Q),
            witnesses: Vec::with_capacity(Q),
            prover: Prover::new(params),
        }
    }

    /// The field hash of the BLAKE3 digest of the leaf's commitment, or
    /// `NotCommitted` where it has none.
    pub fn hash(&self) -> (r: Result<FieldHash, BerkleError>)
        ensures
            r is Err <==> prover_commitment(self.prover) is None,
            r matches Err(e) ==> e == BerkleError::NotCommitted,
            r matches Ok(h) ==> h.wf() && h.bytes@ == spec_field_hash(
                blake3_digest(prover_commitment(self.prover)->Some_0),
            ),
    {
        match self.prover.commitment() {
            None => Err(BerkleError::NotCommitted),
            Some(c) => Ok(FieldHash::from_digest(blake3_hash(c.as_slice()))),
        }
    }

    /// Puts a new entry after every entry whose key bytes are at most `key`;
    /// under key bytes already present its counter is one more than that of
    /// the last such entry. Returns its position.
    fn insert_inner(
        &mut self,
        key: &[u8; MAX_KEY_LEN],
        value: &[u8; MAX_VAL_LEN],
        hash: [u8; 32],
    ) -> (idx: usize)
        requires
            old(self).wf(),
            old(self).keys@.len() < usize::MAX,
            counter_room(old(self).keys@, key@),
        ensures
            final(self).wf(),
            idx == insert_index(old(self).keys@, key@),
            is_insert_position(old(self).keys@, key@, idx as int),
            final(self).entry_inserted(old(self), *key, *value, hash@, idx as int),
    {
        let idx = partition_point_le(&self.keys, key);
        let counter = next_counter(&self.keys, key, idx);
        proof {
            lemma_insert_keeps_order(self.keys@, *key, idx as int);
        }
        self.keys.insert(idx, KeyWithCounter(*key, counter));
        self.values.insert(idx, *value);
        let h = FieldHash::from_digest(hash);
        proof {
            lemma_insert_canonical(self.hashes@, h, idx as int);
        }
        self.hashes.insert(idx, h);
        self.witnesses.insert(idx, None);
        idx
    }

    /// The witness for entry `idx`: the cached one where there is one, else
    /// one made by the prover and cached. Fails where the prover cannot open
    /// at the entry's point: `NoPolynomial` without a commitment, else
    /// `PointNotOnPolynomial`.
    fn get_witness(&mut self, idx: usize) -> (r: Result<[u8; 96], BerkleError>)
        requires
            old(self).wf(),
            idx < old(self).keys@.len(),
        ensures
            final(self).wf(),
            final(self).same_entries(old(self)),
            old(self).witnesses@[idx as int] matches Some(w) ==> r == Ok::<[u8; 96], BerkleError>(w)
                && final(self).witnesses@ == old(self).witnesses@,
            old(self).witnesses@[idx as int] is None ==> match r {
                Ok(w) => {
                    &&& prover_commitment(old(self).prover) is Some
                    &&& prover_opens(old(self).prover, leaf_point(old(self).keys@, idx as int), old(self).hashes@[idx as int].bytes@)
                    &&& w@ == opening_witness(old(self).prover, leaf_point(old(self).keys@, idx as int))
                    &&& final(self).witnesses@ == old(self).witnesses@.update(idx as int, Some(w))
                },
                Err(e) => {
                    &&& final(self).witnesses@ == old(self).witnesses@
                    &&& !(prover_commitment(old(self).prover) is Some && prover_opens(
                        old(self).prover,
                        leaf_point(old(self).keys@, idx as int),
                        old(self).hashes@[idx as int].bytes@,
                    ))
                    &&& (e == BerkleError::NoPolynomial <==> prover_commitment(old(self).prover) is None)
                    &&& (e == BerkleError::NoPolynomial || e == BerkleError::PointNotOnPolynomial)
                },
            },
    {
        match self.witnesses[idx] {
            Some(w) => Ok(w),
            None => {
                let x = self.keys[idx].field_hash_with_idx(idx);
                match self.prover.create_witness(&x, &self.hashes[idx]) {
                    Some(w) => {
                        self.witnesses.set(idx, Some(w));
                        Ok(w)
                    },
                    None => {
                        if self.prover.commitment().is_none() {
                            Err(BerkleError::NoPolynomial)
                        } else {
                            Err(BerkleError::PointNotOnPolynomial)
                        }
                    },
                }
            },
        }
    }

    /// The points of all entries: their x coordinates (field hashes of the
    /// keys at their positions) and y coordinates (the entry hashes).
    fn points(&self) -> (r: (Vec<FieldHash>, Vec<FieldHash>))
        requires
            self.wf(),
        ensures
            r.0@.len() == self.keys@.len(),
            forall|i: int| 0 <= i < r.0@.len() ==> #[trigger] r.0@[i].bytes@ == leaf_point(self.keys@, i),
            all_canonical(r.0@),
            r.1@ == self.hashes@,
    {
        let n = self.keys.len();
        let mut xs: Vec<FieldHash> = Vec::with_capacity(n);
        let mut ys: Vec<FieldHash> = Vec::with_capacity(n);
        let mut i: usize = 0;
        while i < n
            invariant
                0 <= i <= n,
                n == self.keys@.len(),
                self.wf(),
                xs@.len() == i,
                ys@.len() == i,
                forall|j: int| 0 <= j < i ==> #[trigger] xs@[j].bytes@ == leaf_point(self.keys@, j),
                all_canonical(xs@),
                forall|j: int| 0 <= j < i ==> #[trigger] ys@[j] == self.hashes@[j],
            decreases n - i,
        {
            let x = self.keys[i].field_hash_with_idx(i);
            let ghost prev = xs@;
            xs.push(x);
            ys.push(self.hashes[i]);
            proof {
                assert forall|j: int| 0 <= j < xs@.len() implies #[trigger] xs@[j].wf() by {
                    if j < i {
                        assert(xs@[j] == prev[j]);
                    }
                }
            }
            i = i + 1;
        }
        assert(ys@ =~= self.hashes@);
        (xs, ys)
    }

    /// Drops every cached witness.
    fn clear_witnesses(&mut self)
        requires
            old(self).wf(),
        ensures
            final(self).wf(),
            final(self).same_entries(old(self)),
            final(self).witnesses@ == Seq::new(old(self).keys@.len(), |i: int| None::<[u8; 96]>),
    {
        let n = self.witnesses.len();
        let mut k: usize = 0;
        while k < n
            invariant
                0 <= k <= n,
                n == self.witnesses@.len(),
                self.wf(),
                self.same_entries(old(self)),
                forall|j: int| 0 <= j < k ==> self.witnesses@[j] is None,
            decreases n - k,
        {
            self.witnesses.set(k, None);
            k = k + 1;
        }
        assert(self.witnesses@ =~= Seq::new(n as nat, |i: int| None::<[u8; 96]>));
    }

    /// Interpolates the points of all entries and commits to the polynomial;
    /// every cached witness is dropped. Returns the commitment and the points'
    /// coordinates. Fails with `DuplicatePoint`, changing nothing, where two
    /// entries share a point.
    fn reinterpolate_inner(&mut self) -> (r: Result<([u8; 96], Vec<FieldHash>, Vec<FieldHash>), BerkleError>)
        requires
            old(self).wf(),
            1 <= old(self).keys@.len() <= prover_capacity(old(self).prover) + 1,
            1 <= prover_capacity(old(self).prover),
        ensures
            final(self).wf(),
            r is Ok <==> points_distinct(old(self).keys@),
            r matches Err(e) ==> e == BerkleError::DuplicatePoint && *final(self) == *old(self),
            r matches Ok((c, xs, ys)) ==> {
                &&& final(self).keys@ == old(self).keys@
                &&& final(self).values@ == old(self).values@
                &&& final(self).hashes@ == old(self).hashes@
                &&& final(self).hash == old(self).hash
                &&& prover_params(final(self).prover) == prover_params(old(self).prover)
                &&& c@ == old(self).entries_commitment()
                &&& prover_commitment(final(self).prover) == Some(c@)
                &&& final(self).synced()
                &&& final(self).witnesses@ == Seq::new(old(self).keys@.len(), |i: int| None::<[u8; 96]>)
                &&& xs@.len() == old(self).keys@.len()
                &&& all_canonical(xs@)
                &&& forall|i: int| 0 <= i < xs@.len() ==> #[trigger] xs@[i].bytes@ == leaf_point(old(self).keys@, i)
                &&& ys@ == old(self).hashes@
            },
    {
        let (xs, ys) = self.points();
        if !all_distinct(&xs) {
            proof {
                let (a, b) = choose|a: int, b: int| 0 <= a < b < xs@.len() && xs@[a].bytes@ == xs@[b].bytes@;
                assert(leaf_point(self.keys@, a) == leaf_point(self.keys@, b));
            }
            return Err(BerkleError::DuplicatePoint);
        }
        proof {
            assert forall|a: int, b: int| 0 <= a < b < xs@.len() implies #[trigger] leaf_point(self.keys@, a) != #[trigger] leaf_point(self.keys@, b) by {
                assert(xs@[a].bytes@ != xs@[b].bytes@);
            }
        }
        proof {
            assert(hash_bytes(xs@) =~= leaf_points(self.keys@));
        }
        let c = self.prover.commit_interpolation(xs.as_slice(), ys.as_slice());
        self.clear_witnesses();
        proof {
            assert forall|j: int| 0 <= j < self.keys@.len() implies prover_opens(
                self.prover,
                #[trigger] leaf_point(self.keys@, j),
                self.hashes@[j].bytes@,
            ) by {
                assert(xs@[j].bytes@ == leaf_point(self.keys@, j));
            }
        }
        Ok((c, xs, ys))
    }

    /// Commits to the leaf's current entries and drops every cached witness;
    /// returns the commitment.
    pub fn reinterpolate(&mut self) -> (r: Result<[u8; 96], BerkleError>)
        requires
            old(self).wf(),
            1 <= old(self).keys@.len() <= prover_capacity(old(self).prover) + 1,
            1 <= prover_capacity(old(self).prover),
        ensures
            final(self).wf(),
            r is Ok <==> points_distinct(old(self).keys@),
            r matches Err(e) ==> e == BerkleError::DuplicatePoint && *final(self) == *old(self),
            r matches Ok(c) ==> {
                &&& final(self).keys@ == old(self).keys@
                &&& final(self).values@ == old(self).values@
                &&& final(self).hashes@ == old(self).hashes@
                &&& final(self).hash == old(self).hash
                &&& prover_params(final(self).prover) == prover_params(old(self).prover)
                &&& c@ == old(self).entries_commitment()
                &&& prover_commitment(final(self).prover) == Some(c@)
                &&& final(self).synced()
                &&& final(self).witnesses@ == Seq::new(old(self).keys@.len(), |i: int| None::<[u8; 96]>)
            },
    {
        match self.reinterpolate_inner() {
            Ok((c, _, _)) => Ok(c),
            Err(e) => Err(e),
        }
    }

    /// Commits to the leaf's current entries and makes the witness for entry
    /// `idx`, which becomes the only cached one.
    pub fn reinterpolate_and_create_witness(&mut self, idx: usize) -> (r: Result<([u8; 96], [u8; 96]), BerkleError>)
        requires
            old(self).wf(),
            idx < old(self).keys@.len(),
            old(self).keys@.len() <= prover_capacity(old(self).prover) + 1,
            1 <= prover_capacity(old(self).prover),
        ensures
            final(self).wf(),
            r is Ok <==> points_distinct(old(self).keys@),
            r matches Err(e) ==> e == BerkleError::DuplicatePoint && *final(self) == *old(self),
            r matches Ok((c, w)) ==> {
                &&& final(self).keys@ == old(self).keys@
                &&& final(self).values@ == old(self).values@
                &&& final(self).hashes@ == old(self).hashes@
                &&& final(self).hash == old(self).hash
                &&& prover_params(final(self).prover) == prover_params(old(self).prover)
                &&& c@ == old(self).entries_commitment()
                &&& prover_commitment(final(self).prover) == Some(c@)
                &&& final(self).synced()
                &&& w@ == opening_witness(final(self).prover, leaf_point(old(self).keys@, idx as int))
                &&& final(self).witnesses@ == Seq::new(old(self).keys@.len(), |i: int| None::<[u8; 96]>).update(idx as int, Some(w))
            },
    {
        match self.reinterpolate_inner() {
            Err(e) => Err(e),
            Ok((c, xs, ys)) => {
                let witness = self.prover.create_witness(&xs[idx], &ys[idx]).unwrap();
                self.witnesses.set(idx, Some(witness));
                Ok((c, witness))
            },
        }
    }

    /// What `insert` of `key`, `value` and `digest` into `self` may return,
    /// leaving the leaf `new`: the entry put at its insert position, and
    /// either a commitment to the new contents with the opening of the new
    /// entry, or `DuplicatePoint` where two entries share a point.
    pub open spec fn insert_outcome(
        &self,
        new: &Self,
        key: [u8; MAX_KEY_LEN],
        value: [u8; MAX_VAL_LEN],
        digest: Seq<u8>,
        r: Result<KVProof, BerkleError>,
    ) -> bool {
        let idx = insert_index(self.keys@, key@);
        &&& new.entries_inserted(self, key, value, digest, idx)
        &&& (r is Ok <==> points_distinct(new.keys@))
        &&& (r matches Err(e) ==> e == BerkleError::DuplicatePoint && new.entry_inserted(self, key, value, digest, idx))
        &&& (r matches Ok(p) ==> {
            &&& p.idx == idx
            &&& prover_params(new.prover) == prover_params(self.prover)
            &&& p.commitment@ == new.entries_commitment()
            &&& prover_commitment(new.prover) == Some(p.commitment@)
            &&& new.synced()
            &&& p.witness@ == opening_witness(new.prover, leaf_point(new.keys@, idx))
            &&& new.witnesses@ == Seq::new(new.keys@.len(), |i: int| None::<[u8; 96]>).update(idx, Some(p.witness))
        })
    }

    /// Inserts an entry, commits to the new contents and opens the new entry.
    /// Where two entries share an evaluation point the entry stays inserted,
    /// nothing is committed and `DuplicatePoint` is returned.
    pub fn insert(
        &mut self,
        key: &[u8; MAX_KEY_LEN],
        value: &[u8; MAX_VAL_LEN],
        hash: [u8; 32],
    ) -> (r: Result<KVProof, BerkleError>)
        requires
            old(self).wf(),
            old(self).keys@.len() < usize::MAX,
            counter_room(old(self).keys@, key@),
            old(self).keys@.len() <= prover_capacity(old(self).prover),
            1 <= prover_capacity(old(self).prover),
        ensures
            final(self).wf(),
            old(self).insert_outcome(final(self), *key, *value, hash@, r),
    {
        let idx = self.insert_inner(key, value, hash);
        match self.reinterpolate_and_create_witness(idx) {
            Ok((commitment, witness)) => Ok(KVProof { idx, commitment, witness }),
            Err(e) => Err(e),
        }
    }

    /// Entry `i` can be opened: its witness is cached, or the prover's
    /// polynomial passes through its point.
    pub open spec fn can_open(&self, i: int) -> bool {
        self.witnesses@[i] is Some || prover_opens(self.prover, leaf_point(self.keys@, i), self.hashes@[i].bytes@)
    }

    /// Entry `i`'s witness is reported as `w`: afterwards `w` is cached at
    /// `i`; it is the witness that was cached there, or, where none was, the
    /// prover's opening witness at the entry's point.
    pub open spec fn reports_witness(&self, new: &Self, i: int, w: [u8; 96]) -> bool {
        &&& new.witnesses@[i] == Some(w)
        &&& (self.witnesses@[i] matches Some(c) ==> w == c)
        &&& (self.witnesses@[i] is None ==> w@ == opening_witness(self.prover, leaf_point(self.keys@, i)))
    }

    /// What `get` may return for `key` on `self`, leaving the leaf `new`:
    /// entries and prover kept; witnesses made only for the entries the
    /// answer reports, each the prover's opening witness at the entry's point;
    /// and an answer that matches where `key` stands among the keys.
    pub open spec fn get_outcome(
        &self,
        new: &Self,
        key: [u8; MAX_KEY_LEN],
        r: Result<either::Either<LeafGetFound<MAX_VAL_LEN>, LeafGetNotFound<MAX_KEY_LEN>>, BerkleError>,
    ) -> bool {
        &&& new.same_entries(self)
        &&& new.witnesses@.len() == self.witnesses@.len()
        &&& forall|j: int|
            0 <= j < self.witnesses@.len() && #[trigger] new.witnesses@[j] != self.witnesses@[j] ==> {
                &&& self.witnesses@[j] is None
                &&& new.witnesses@[j] matches Some(w) && w@ == opening_witness(self.prover, leaf_point(self.keys@, j))
            }
        &&& r is Ok ==> forall|j: int|
            0 <= j < self.witnesses@.len() && !reported_index(r, j) ==> #[trigger] new.witnesses@[j] == self.witnesses@[j]
        &&& (r matches Err(e) ==> e == BerkleError::PointNotOnPolynomial)
        &&& (self.synced() ==> r is Ok)
        &&& (prover_commitment(self.prover) is Some && key_present(self.keys@, key@) && (forall|i: int|
            0 <= i < self.keys@.len() && (#[trigger] self.keys@[i]).0@ == key@ ==> self.can_open(i)) ==> r is Ok)
        &&& forall|g: int|
            prover_commitment(self.prover) is Some && #[trigger] is_gap(self.keys@, key@, g) && (0 < g ==> self.can_open(g - 1)) && (g
                < self.keys@.len() ==> self.can_open(g)) ==> r is Ok
        &&& (r matches Ok(res) ==> (res is Left <==> key_present(self.keys@, key@)))
        &&& (r matches Ok(either::Either::Left(LeafGetFound(v, p))) ==> {
            &&& p.idx < self.keys@.len()
            &&& self.keys@[p.idx as int].0@ == key@
            &&& v == self.values@[p.idx as int]
            &&& prover_commitment(self.prover) == Some(p.commitment@)
            &&& self.reports_witness(new, p.idx as int, p.witness)
        })
        &&& (r matches Ok(either::Either::Right(LeafGetNotFound::Left { right, right_key })) ==> {
            &&& is_gap(self.keys@, key@, 0)
            &&& right.idx == 0
            &&& right_key == self.keys@[0].0
            &&& prover_commitment(self.prover) == Some(right.commitment@)
            &&& self.reports_witness(new, 0, right.witness)
        })
        &&& (r matches Ok(either::Either::Right(LeafGetNotFound::Right { left, left_key })) ==> {
            &&& is_gap(self.keys@, key@, self.keys@.len() as int)
            &&& left.idx == self.keys@.len() - 1
            &&& left_key == self.keys@[left.idx as int].0
            &&& prover_commitment(self.prover) == Some(left.commitment@)
            &&& self.reports_witness(new, left.idx as int, left.witness)
        })
        &&& (r matches Ok(
            either::Either::Right(
                LeafGetNotFound::Mid { idx, commitment, left_witness, left_key, right_witness, right_key },
            ),
        ) ==> {
            &&& idx + 1 < self.keys@.len()
            &&& is_gap(self.keys@, key@, idx + 1)
            &&& left_key == self.keys@[idx as int].0
            &&& right_key == self.keys@[idx + 1].0
            &&& prover_commitment(self.prover) == Some(commitment@)
            &&& self.reports_witness(new, idx as int, left_witness)
            &&& self.reports_witness(new, idx + 1, right_witness)
        })
    }

    /// Looks `key` up in a committed leaf, with a proof: the value and the
    /// opening of an entry under `key`, or the openings of the entries around
    /// where `key` would stand. Witnesses are taken from the cache or made and
    /// cached. Fails with `PointNotOnPolynomial` where an entry asked for is
    /// not on the committed polynomial (never where the leaf is `synced`).
    /// The answer for a key found at `idx`.
    fn get_found(&mut self, key: &[u8; MAX_KEY_LEN], idx: usize, commitment: [u8; 96]) -> (r: Result<
        either::Either<LeafGetFound<MAX_VAL_LEN>, LeafGetNotFound<MAX_KEY_LEN>>,
        BerkleError,
    >)
        requires
            old(self).wf(),
            idx < old(self).keys@.len(),
            old(self).keys@[idx as int].0@ == key@,
            prover_commitment(old(self).prover) == Some(commitment@),
        ensures
            final(self).wf(),
            old(self).get_outcome(final(self), *key, r),
    {
        proof {
            assert(key_present(self.keys@, key@));
            crate::key::lemma_lex_order(key@, key@, key@);
            assert forall|g: int| !is_gap(self.keys@, key@, g) by {
                if is_gap(self.keys@, key@, g) {
                    if (idx as int) < g {
                        assert(crate::key::key_lt(self.keys@[idx as int].0@, key@));
                    } else {
                        assert(crate::key::key_lt(key@, self.keys@[idx as int].0@));
                    }
                }
            }
        }
        match self.get_witness(idx) {
            Ok(witness) => Ok(either::Either::Left(LeafGetFound(self.values[idx], KVProof { idx, witness, commitment }))),
            Err(e) => Err(e),
        }
    }

    /// The answer for a missing key below every key.
    fn get_left_edge(&mut self, key: &[u8; MAX_KEY_LEN], commitment: [u8; 96]) -> (r: Result<
        either::Either<LeafGetFound<MAX_VAL_LEN>, LeafGetNotFound<MAX_KEY_LEN>>,
        BerkleError,
    >)
        requires
            old(self).wf(),
            old(self).keys@.len() > 0,
            is_gap(old(self).keys@, key@, 0),
            !key_present(old(self).keys@, key@),
            prover_commitment(old(self).prover) == Some(commitment@),
        ensures
            final(self).wf(),
            old(self).get_outcome(final(self), *key, r),
    {
        proof {
            assert forall|g: int| is_gap(self.keys@, key@, g) implies g == 0 by {
                crate::search::lemma_gap_unique(self.keys@, *key, g, 0);
            }
        }
        match self.get_witness(0) {
            Ok(witness) => {
                let right = KVProof { idx: 0, commitment, witness };
                Ok(either::Either::Right(LeafGetNotFound::Left { right, right_key: self.keys[0].0 }))
            },
            Err(e) => Err(e),
        }
    }

    /// The answer for a missing key above every key.
    fn get_right_edge(&mut self, key: &[u8; MAX_KEY_LEN], commitment: [u8; 96]) -> (r: Result<
        either::Either<LeafGetFound<MAX_VAL_LEN>, LeafGetNotFound<MAX_KEY_LEN>>,
        BerkleError,
    >)
        requires
            old(self).wf(),
            old(self).keys@.len() > 0,
            is_gap(old(self).keys@, key@, old(self).keys@.len() as int),
            !key_present(old(self).keys@, key@),
            prover_commitment(old(self).prover) == Some(commitment@),
        ensures
            final(self).wf(),
            old(self).get_outcome(final(self), *key, r),
    {
        let n = self.keys.len();
        proof {
            assert forall|g: int| is_gap(self.keys@, key@, g) implies g == n by {
                crate::search::lemma_gap_unique(self.keys@, *key, g, n as int);
            }
        }
        match self.get_witness(n - 1) {
            Ok(witness) => {
                let left = KVProof { idx: n - 1, commitment, witness };
                Ok(either::Either::Right(LeafGetNotFound::Right { left, left_key: self.keys[n - 1].0 }))
            },
            Err(e) => Err(e),
        }
    }

    /// The answer for a missing key between entries `idx - 1` and `idx`.
    fn get_mid(&mut self, key: &[u8; MAX_KEY_LEN], idx: usize, commitment: [u8; 96]) -> (r: Result<
        either::Either<LeafGetFound<MAX_VAL_LEN>, LeafGetNotFound<MAX_KEY_LEN>>,
        BerkleError,
    >)
        requires
            old(self).wf(),
            0 < idx < old(self).keys@.len(),
            is_gap(old(self).keys@, key@, idx as int),
            !key_present(old(self).keys@, key@),
            prover_commitment(old(self).prover) == Some(commitment@),
        ensures
            final(self).wf(),
            old(self).get_outcome(final(self), *key, r),
    {
        proof {
            assert forall|g: int| is_gap(self.keys@, key@, g) implies g == idx by {
                crate::search::lemma_gap_unique(self.keys@, *key, g, idx as int);
            }
        }
        let left_witness = match self.get_witness(idx - 1) {
            Ok(w) => w,
            Err(e) => {
                return Err(e);
            },
        };
        let left_key = self.keys[idx - 1].0;
        let right_witness = match self.get_witness(idx) {
            Ok(w) => w,
            Err(e) => {
                return Err(e);
            },
        };
        Ok(
            either::Either::Right(
                LeafGetNotFound::Mid {
                    idx: idx - 1,
                    commitment,
                    left_witness,
                    left_key,
                    right_witness,
                    right_key: self.keys[idx].0,
                },
            ),
        )
    }

    pub fn get(&mut self, key: &[u8; MAX_KEY_LEN]) -> (r: Result<
        either::Either<LeafGetFound<MAX_VAL_LEN>, LeafGetNotFound<MAX_KEY_LEN>>,
        BerkleError,
    >)
        requires
            old(self).wf(),
            old(self).keys@.len() > 0,
            prover_commitment(old(self).prover) is Some,
        ensures
            final(self).wf(),
            old(self).get_outcome(final(self), *key, r),
    {
        let commitment = match self.prover.commitment() {
            Some(c) => c,
            None => vstd::pervasive::unreached(),
        };
        match search_key(&self.keys, key) {
            Ok(idx) => self.get_found(key, idx, commitment),
            Err(idx) => {
                if idx == 0 {
                    self.get_left_edge(key, commitment)
                } else if idx == self.keys.len() {
                    self.get_right_edge(key, commitment)
                } else {
                    self.get_mid(key, idx, commitment)
                }
            },
        }
    }

    /// Inserts an entry without committing to the new contents.
    pub fn insert_no_proof(&mut self, key: &[u8; MAX_KEY_LEN], value: &[u8; MAX_VAL_LEN], hash: [u8; 32])
        requires
            old(self).wf(),
            old(self).keys@.len() < usize::MAX,
            counter_room(old(self).keys@, key@),
        ensures
            final(self).wf(),
            final(self).entry_inserted(old(self), *key, *value, hash@, insert_index(old(self).keys@, key@)),
    {
        self.insert_inner(key, value, hash);
    }
}

} // verus!
