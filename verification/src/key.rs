use vstd::prelude::*;
use core::cmp::Ordering;

verus! {

/// Lexicographic comparison of two byte strings of the same length from
/// position `i` on: `-1`, `0` or `1`.
pub open spec fn lex_order_from(a: Seq<u8>, b: Seq<u8>, i: int) -> int
    decreases a.len() - i,
{
    if i < 0 || i >= a.len() || i >= b.len() {
        0
    } else if a[i] < b[i] {
        -1
    } else if a[i] > b[i] {
        1
    } else {
        lex_order_from(a, b, i + 1)
    }
}

/// Lexicographic comparison of two byte strings of the same length, as Rust
/// orders byte arrays: `-1`, `0` or `1`.
pub open spec fn lex_order(a: Seq<u8>, b: Seq<u8>) -> int {
    lex_order_from(a, b, 0)
}

pub open spec fn key_le(a: Seq<u8>, b: Seq<u8>) -> bool {
    lex_order(a, b) <= 0
}

pub open spec fn key_lt(a: Seq<u8>, b: Seq<u8>) -> bool {
    lex_order(a, b) < 0
}

pub open spec fn key_eq(a: Seq<u8>, b: Seq<u8>) -> bool {
    lex_order(a, b) == 0
}

proof fn lemma_lex_order_from(a: Seq<u8>, b: Seq<u8>, c: Seq<u8>, i: int)
    requires
        a.len() == b.len(),
        b.len() == c.len(),
        0 <= i <= a.len(),
    ensures
        -1 <= lex_order_from(a, b, i) <= 1,
        lex_order_from(a, b, i) == -lex_order_from(b, a, i),
        lex_order_from(a, b, i) == 0 <==> (forall|j: int| i <= j < a.len() ==> a[j] == b[j]),
        lex_order_from(a, b, i) <= 0 && lex_order_from(b, c, i) <= 0 ==> lex_order_from(a, c, i) <= 0,
        lex_order_from(a, b, i) < 0 && lex_order_from(b, c, i) <= 0 ==> lex_order_from(a, c, i) < 0,
        lex_order_from(a, b, i) <= 0 && lex_order_from(b, c, i) < 0 ==> lex_order_from(a, c, i) < 0,
    decreases a.len() - i,
{
    if i < a.len() {
        lemma_lex_order_from(a, b, c, i + 1);
        if lex_order_from(a, b, i) == 0 {
            assert forall|j: int| i <= j < a.len() implies a[j] == b[j] by {
                if j > i {
                }
            }
        }
    }
}

/// `lex_order` is a total order on byte strings of one length, and equality
/// under it is equality of the strings.
pub proof fn lemma_lex_order(a: Seq<u8>, b: Seq<u8>, c: Seq<u8>)
    requires
        a.len() == b.len(),
        b.len() == c.len(),
    ensures
        -1 <= lex_order(a, b) <= 1,
        lex_order(a, b) == -lex_order(b, a),
        lex_order(a, b) == 0 <==> a == b,
        key_le(a, b) && key_le(b, c) ==> key_le(a, c),
        key_lt(a, b) && key_le(b, c) ==> key_lt(a, c),
        key_le(a, b) && key_lt(b, c) ==> key_lt(a, c),
{
    lemma_lex_order_from(a, b, c, 0);
    if lex_order(a, b) == 0 {
        assert(a =~= b);
    }
}

/// A key with a counter that tells apart entries stored under the same key
/// bytes. Equality and order look at the key bytes only.
#[derive(Debug, Clone, Copy)]
pub struct KeyWithCounter<const MAX_KEY_LEN: usize>(pub [u8; MAX_KEY_LEN], pub u8);

/// Compares two keys byte by byte, as Rust orders byte arrays.
pub fn compare_key_bytes<const N: usize>(a: &[u8; N], b: &[u8; N]) -> (r: i8)
    ensures
        r == lex_order(a@, b@),
{
    let mut i: usize = 0;
    while i < N
        invariant
            0 <= i <= N,
            a@.len() == N,
            b@.len() == N,
            lex_order(a@, b@) == lex_order_from(a@, b@, i as int),
        decreases N - i,
    {
        if a[i] < b[i] {
            return -1;
        } else if a[i] > b[i] {
            return 1;
        }
        i = i + 1;
    }
    0
}

impl<const MAX_KEY_LEN: usize> PartialEq for KeyWithCounter<MAX_KEY_LEN> {
    fn eq(&self, other: &KeyWithCounter<MAX_KEY_LEN>) -> (r: bool) {
        compare_key_bytes(&self.0, &other.0) == 0
    }
}

impl<const MAX_KEY_LEN: usize> vstd::std_specs::cmp::PartialEqSpecImpl for KeyWithCounter<MAX_KEY_LEN> {
    open spec fn obeys_eq_spec() -> bool {
        true
    }

    open spec fn eq_spec(&self, other: &KeyWithCounter<MAX_KEY_LEN>) -> bool {
        lex_order(self.0@, other.0@) == 0
    }
}

impl<const MAX_KEY_LEN: usize> Eq for KeyWithCounter<MAX_KEY_LEN> {
}

/// The `Ordering` that a comparison result in `-1..=1` stands for.
pub open spec fn ordering_of(c: int) -> Ordering {
    if c < 0 {
        Ordering::Less
    } else if c == 0 {
        Ordering::Equal
    } else {
        Ordering::Greater
    }
}

impl<const MAX_KEY_LEN: usize> PartialOrd for KeyWithCounter<MAX_KEY_LEN> {
    fn partial_cmp(&self, other: &Self) -> (r: Option<Ordering>) {
        let c = compare_key_bytes(&self.0, &other.0);
        if c < 0 {
            Some(Ordering::Less)
        } else if c == 0 {
            Some(Ordering::Equal)
        } else {
            Some(Ordering::Greater)
        }
    }
}

impl<const MAX_KEY_LEN: usize> vstd::std_specs::cmp::PartialOrdSpecImpl for KeyWithCounter<MAX_KEY_LEN> {
    open spec fn obeys_partial_cmp_spec() -> bool {
        true
    }

    open spec fn partial_cmp_spec(&self, other: &Self) -> Option<Ordering> {
        Some(ordering_of(lex_order(self.0@, other.0@)))
    }
}

impl<const MAX_KEY_LEN: usize> AsRef<[u8]> for KeyWithCounter<MAX_KEY_LEN> {
    fn as_ref(&self) -> (r: &[u8])
        ensures
            r@ == self.0@,
    {
        self.0.as_slice()
    }
}

} // verus!
