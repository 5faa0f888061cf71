use vstd::prelude::*;
use crate::key::{compare_key_bytes, key_le, key_lt, lemma_lex_order, KeyWithCounter};

verus! {

/// Keys in non-decreasing order of their bytes.
pub open spec fn keys_sorted<const K: usize>(keys: Seq<KeyWithCounter<K>>) -> bool {
    forall|i: int, j: int| 0 <= i < j < keys.len() ==> key_le(#[trigger] keys[i].0@, #[trigger] keys[j].0@)
}

/// Entries under the same key bytes carry the counters 0, 1, 2, ... in order.
pub open spec fn counters_consecutive<const K: usize>(keys: Seq<KeyWithCounter<K>>) -> bool {
    &&& forall|i: int|
        0 < i < keys.len() && keys[i - 1].0@ == (#[trigger] keys[i]).0@ ==> keys[i].1 == keys[i - 1].1 + 1
    &&& forall|i: int|
        0 <= i < keys.len() && (i == 0 || keys[i - 1].0@ != (#[trigger] keys[i]).0@) ==> keys[i].1 == 0
}

/// `idx` splits `keys` into the entries whose key bytes are at most `key`
/// and those whose key bytes are greater.
pub open spec fn is_insert_position<const K: usize>(keys: Seq<KeyWithCounter<K>>, key: Seq<u8>, idx: int) -> bool {
    &&& 0 <= idx <= keys.len()
    &&& forall|i: int| 0 <= i < idx ==> key_le(#[trigger] keys[i].0@, key)
    &&& forall|i: int| idx <= i < keys.len() ==> key_lt(key, #[trigger] keys[i].0@)
}

/// The position at which a new entry with key bytes `key` goes: after every
/// entry whose key bytes are at most `key`.
pub open spec fn insert_index<const K: usize>(keys: Seq<KeyWithCounter<K>>, key: Seq<u8>) -> int {
    choose|idx: int| is_insert_position(keys, key, idx)
}

/// The counter of a new entry with key bytes `key` put at `idx`: one more
/// than the entry before it where that has the same key bytes, else 0.
pub open spec fn new_counter<const K: usize>(keys: Seq<KeyWithCounter<K>>, key: Seq<u8>, idx: int) -> u8 {
    if idx > 0 && keys[idx - 1].0@ == key {
        (keys[idx - 1].1 + 1) as u8
    } else {
        0
    }
}

/// No entry with key bytes `key` has the largest counter yet.
pub open spec fn counter_room<const K: usize>(keys: Seq<KeyWithCounter<K>>, key: Seq<u8>) -> bool {
    forall|i: int| 0 <= i < keys.len() && (#[trigger] keys[i]).0@ == key ==> keys[i].1 < 255
}

/// Some entry has key bytes `key`.
pub open spec fn key_present<const K: usize>(keys: Seq<KeyWithCounter<K>>, key: Seq<u8>) -> bool {
    exists|i: int| 0 <= i < keys.len() && (#[trigger] keys[i]).0@ == key
}

/// `idx` is where `key`, which no entry has, would stand: every entry before
/// it is smaller and every entry from it on is greater.
pub open spec fn is_gap<const K: usize>(keys: Seq<KeyWithCounter<K>>, key: Seq<u8>, idx: int) -> bool {
    &&& 0 <= idx <= keys.len()
    &&& forall|i: int| 0 <= i < idx ==> key_lt(#[trigger] keys[i].0@, key)
    &&& forall|i: int| idx <= i < keys.len() ==> key_lt(key, #[trigger] keys[i].0@)
}

/// At most one position splits sorted keys around `key`.
pub proof fn lemma_insert_position_unique<const K: usize>(
    keys: Seq<KeyWithCounter<K>>,
    key: [u8; K],
    i: int,
    j: int,
)
    requires
        is_insert_position(keys, key@, i),
        is_insert_position(keys, key@, j),
    ensures
        i == j,
{
    if i < j {
        lemma_lex_order(keys[i].0@, key@, key@);
    } else if j < i {
        lemma_lex_order(keys[j].0@, key@, key@);
    }
}

/// Sorted keys have an insert position for every key.
pub proof fn lemma_insert_position_exists<const K: usize>(keys: Seq<KeyWithCounter<K>>, key: [u8; K])
    requires
        keys_sorted(keys),
    ensures
        is_insert_position(keys, key@, insert_index(keys, key@)),
    decreases keys.len(),
{
    if keys.len() == 0 {
        assert(is_insert_position(keys, key@, 0));
    } else {
        let n = keys.len() - 1;
        let init = keys.drop_last();
        assert(keys_sorted(init)) by {
            assert forall|i: int, j: int| 0 <= i < j < init.len() implies key_le(#[trigger] init[i].0@, #[trigger] init[j].0@) by {
                assert(init[i] == keys[i] && init[j] == keys[j]);
            }
        }
        lemma_insert_position_exists(init, key);
        let i = insert_index(init, key@);
        if key_le(keys[n].0@, key@) {
            assert forall|j: int| 0 <= j < keys.len() implies key_le(#[trigger] keys[j].0@, key@) by {
                if j < n {
                    lemma_lex_order(keys[j].0@, keys[n].0@, key@);
                }
            }
            assert(is_insert_position(keys, key@, keys.len() as int));
        } else {
            lemma_lex_order(keys[n].0@, key@, key@);
            assert forall|j: int| 0 <= j < i implies key_le(#[trigger] keys[j].0@, key@) by {
                assert(init[j] == keys[j]);
            }
            assert forall|j: int| i <= j < keys.len() implies key_lt(key@, #[trigger] keys[j].0@) by {
                if j < n {
                    assert(init[j] == keys[j]);
                }
            }
            assert(is_insert_position(keys, key@, i));
        }
    }
}

/// At most one position is where a missing key would stand.
pub proof fn lemma_gap_unique<const K: usize>(keys: Seq<KeyWithCounter<K>>, key: [u8; K], i: int, j: int)
    requires
        is_gap(keys, key@, i),
        is_gap(keys, key@, j),
    ensures
        i == j,
{
    if i < j {
        lemma_lex_order(keys[i].0@, key@, key@);
    } else if j < i {
        lemma_lex_order(keys[j].0@, key@, key@);
    }
}

/// An insert position is the one that `insert_index` names.
pub proof fn lemma_insert_index<const K: usize>(keys: Seq<KeyWithCounter<K>>, key: [u8; K], idx: int)
    requires
        is_insert_position(keys, key@, idx),
    ensures
        insert_index(keys, key@) == idx,
{
    let c = insert_index(keys, key@);
    assert(is_insert_position(keys, key@, c));
    lemma_insert_position_unique(keys, key, c, idx);
}

/// The first position whose key bytes are greater than `key`, by bisection
/// over sorted keys (`partition_point(|k| k.0 <= key)`).
pub fn partition_point_le<const K: usize>(keys: &Vec<KeyWithCounter<K>>, key: &[u8; K]) -> (idx: usize)
    requires
        keys_sorted(keys@),
    ensures
        is_insert_position(keys@, key@, idx as int),
        insert_index(keys@, key@) == idx,
{
    let mut lo: usize = 0;
    let mut hi: usize = keys.len();
    while lo < hi
        invariant
            0 <= lo <= hi <= keys@.len(),
            keys_sorted(keys@),
            forall|i: int| 0 <= i < lo ==> key_le(#[trigger] keys@[i].0@, key@),
            forall|i: int| hi <= i < keys@.len() ==> key_lt(key@, #[trigger] keys@[i].0@),
        decreases hi - lo,
    {
        let mid = lo + (hi - lo) / 2;
        let c = compare_key_bytes(&keys[mid].0, key);
        if c <= 0 {
            assert forall|i: int| 0 <= i < mid + 1 implies key_le(#[trigger] keys@[i].0@, key@) by {
                lemma_lex_order(keys@[i].0@, keys@[mid as int].0@, key@);
            }
            lo = mid + 1;
        } else {
            assert forall|i: int| mid <= i < keys@.len() implies key_lt(key@, #[trigger] keys@[i].0@) by {
                lemma_lex_order(key@, keys@[mid as int].0@, keys@[i].0@);
            }
            hi = mid;
        }
    }
    proof {
        lemma_insert_index(keys@, *key, lo as int);
    }
    lo
}

/// Bisection for `key` among sorted keys (`binary_search_by_key(key, |k| k.0)`):
/// `Ok` with the position of some entry under `key`, or `Err` with the
/// position where `key` would stand.
pub fn search_key<const K: usize>(keys: &Vec<KeyWithCounter<K>>, key: &[u8; K]) -> (r: Result<usize, usize>)
    requires
        keys_sorted(keys@),
    ensures
        r matches Ok(i) ==> 0 <= i < keys@.len() && keys@[i as int].0@ == key@,
        r matches Err(i) ==> is_gap(keys@, key@, i as int),
        r is Ok <==> key_present(keys@, key@),
{
    let mut lo: usize = 0;
    let mut hi: usize = keys.len();
    while lo < hi
        invariant
            0 <= lo <= hi <= keys@.len(),
            keys_sorted(keys@),
            forall|i: int| 0 <= i < lo ==> key_lt(#[trigger] keys@[i].0@, key@),
            forall|i: int| hi <= i < keys@.len() ==> key_lt(key@, #[trigger] keys@[i].0@),
        decreases hi - lo,
    {
        let mid = lo + (hi - lo) / 2;
        let c = compare_key_bytes(&keys[mid].0, key);
        if c == 0 {
            proof {
                lemma_lex_order(keys@[mid as int].0@, key@, key@);
            }
            return Ok(mid);
        } else if c < 0 {
            assert forall|i: int| 0 <= i < mid + 1 implies key_lt(#[trigger] keys@[i].0@, key@) by {
                lemma_lex_order(keys@[i].0@, keys@[mid as int].0@, key@);
            }
            lo = mid + 1;
        } else {
            assert forall|i: int| mid <= i < keys@.len() implies key_lt(key@, #[trigger] keys@[i].0@) by {
                lemma_lex_order(key@, keys@[mid as int].0@, keys@[i].0@);
            }
            hi = mid;
        }
    }
    proof {
        assert forall|i: int| 0 <= i < keys@.len() implies (#[trigger] keys@[i]).0@ != key@ by {
            lemma_lex_order(keys@[i].0@, key@, key@);
        }
    }
    Err(lo)
}

/// A key whose bytes are at least those of every key in `keys`, taken from
/// `keys`; `default` where `keys` is empty.
pub fn max_key<const K: usize>(keys: &Vec<KeyWithCounter<K>>, default: KeyWithCounter<K>) -> (r: KeyWithCounter<K>)
    ensures
        forall|i: int| 0 <= i < keys@.len() ==> key_le(#[trigger] keys@[i].0@, r.0@),
        keys@.len() == 0 ==> r == default,
        keys@.len() > 0 ==> keys@.contains(r),
{
    if keys.len() == 0 {
        return default;
    }
    let mut best = keys[0];
    let mut i: usize = 1;
    proof {
        lemma_lex_order(best.0@, best.0@, best.0@);
    }
    while i < keys.len()
        invariant
            1 <= i <= keys@.len(),
            keys@.contains(best),
            forall|j: int| 0 <= j < i ==> key_le(#[trigger] keys@[j].0@, best.0@),
        decreases keys@.len() - i,
    {
        let c = compare_key_bytes(&best.0, &keys[i].0);
        if c < 0 {
            let ghost old_best = best;
            assert forall|j: int| 0 <= j < i + 1 implies key_le(#[trigger] keys@[j].0@, keys@[i as int].0@) by {
                lemma_lex_order(keys@[j].0@, old_best.0@, keys@[i as int].0@);
                lemma_lex_order(keys@[j].0@, keys@[j].0@, keys@[j].0@);
            }
            best = keys[i];
            assert(keys@[i as int] == best);
        } else {
            proof {
                lemma_lex_order(best.0@, keys@[i as int].0@, keys@[i as int].0@);
            }
        }
        i = i + 1;
    }
    best
}

/// Putting a new entry at its insert position, with the counter that
/// `new_counter` gives it, keeps the keys sorted and the counters of every
/// run of equal key bytes consecutive from 0.
pub proof fn lemma_insert_keeps_order<const K: usize>(keys: Seq<KeyWithCounter<K>>, key: [u8; K], idx: int)
    requires
        keys_sorted(keys),
        counters_consecutive(keys),
        is_insert_position(keys, key@, idx),
        counter_room(keys, key@),
    ensures
        keys_sorted(keys.insert(idx, KeyWithCounter(key, new_counter(keys, key@, idx)))),
        counters_consecutive(keys.insert(idx, KeyWithCounter(key, new_counter(keys, key@, idx)))),
{
    let e = KeyWithCounter(key, new_counter(keys, key@, idx));
    let s = keys.insert(idx, e);
    assert forall|i: int, j: int| 0 <= i < j < s.len() implies key_le(#[trigger] s[i].0@, #[trigger] s[j].0@) by {
        if j < idx {
        } else if j == idx {
        } else if i == idx {
            assert(s[j] == keys[j - 1]);
            lemma_lex_order(key@, keys[j - 1].0@, keys[j - 1].0@);
        } else if i < idx {
            assert(s[j] == keys[j - 1]);
            lemma_lex_order(keys[i].0@, key@, keys[j - 1].0@);
        } else {
            assert(s[i] == keys[i - 1]);
            assert(s[j] == keys[j - 1]);
        }
    }
    if idx > 0 && idx < keys.len() {
        lemma_lex_order(keys[idx - 1].0@, key@, keys[idx].0@);
    }
    if idx < keys.len() {
        lemma_lex_order(key@, keys[idx].0@, keys[idx].0@);
    }
    assert forall|i: int|
        0 < i < s.len() && s[i - 1].0@ == (#[trigger] s[i]).0@ implies s[i].1 == s[i - 1].1 + 1 by {
        if i < idx {
        } else if i == idx {
            assert(s[i - 1] == keys[idx - 1]);
        } else if i == idx + 1 {
            assert(s[i] == keys[idx]);
        } else {
            assert(s[i] == keys[i - 1]);
            assert(s[i - 1] == keys[i - 2]);
        }
    }
    assert forall|i: int|
        0 <= i < s.len() && (i == 0 || s[i - 1].0@ != (#[trigger] s[i]).0@) implies s[i].1 == 0 by {
        if i < idx {
        } else if i == idx {
            if i > 0 {
                assert(s[i - 1] == keys[idx - 1]);
            }
        } else if i == idx + 1 {
            assert(s[i] == keys[idx]);
            if idx > 0 {
                assert(keys[idx - 1].0@ != keys[idx].0@);
            }
        } else {
            assert(s[i] == keys[i - 1]);
            assert(s[i - 1] == keys[i - 2]);
        }
    }
}

} // verus!
