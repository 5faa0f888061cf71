use vstd::prelude::*;
use crate::key::KeyWithCounter;

verus! {

/// BLAKE3 digest of a byte string (32 bytes).
pub uninterp spec fn blake3_digest(input: Seq<u8>) -> Seq<u8>;

/// Calls `blake3::hash`, which returns the 32-byte BLAKE3 digest of its input.
#[verifier::external_body]
pub(crate) fn blake3_hash(input: &[u8]) -> (out: [u8; 32])
    ensures
        out@ == blake3_digest(input@),
{
    *blake3::hash(input).as_bytes()
}

/// The little-endian encoding of `x` in `n` bytes.
pub open spec fn le_bytes(x: nat, n: nat) -> Seq<u8>
    decreases n,
{
    if n == 0 {
        Seq::empty()
    } else {
        seq![(x % 256) as u8] + le_bytes(x / 256, (n - 1) as nat)
    }
}

/// The bytes of a digest with the two top bits of its last byte cleared, so
/// that read as a little-endian integer it stays below the order of the
/// BLS12-381 scalar field.
pub open spec fn spec_field_hash(digest: Seq<u8>) -> Seq<u8> {
    digest.update(31, digest[31] & 0x3f)
}

/// A 32-byte digest reduced to a canonical BLS12-381 scalar encoding.
#[derive(Debug, Clone, Copy, PartialEq, Eq)]
pub struct FieldHash {
    pub bytes: [u8; 32],
}

impl FieldHash {
    /// Canonical: the last (most significant) byte is below 64.
    pub open spec fn wf(self) -> bool {
        self.bytes@[31] < 64
    }

    /// Reduces a digest to a field hash by clearing its two top bits.
    pub fn from_digest(digest: [u8; 32]) -> (r: FieldHash)
        ensures
            r.wf(),
            r.bytes@ == spec_field_hash(digest@),
    {
        let mut bytes = digest;
        let last: u8 = digest[31];
        let top: u8 = last & 0x3f;
        assert(top < 64) by (bit_vector)
            requires
                top == last & 0x3f,
        ;
        bytes[31] = top;
        assert(bytes@ =~= spec_field_hash(digest@));
        FieldHash { bytes }
    }
}

/// The little-endian bytes of `x`, as many as a `usize` has.
pub fn usize_le_bytes(x: usize) -> (r: Vec<u8>)
    ensures
        r@ == le_bytes(x as nat, (usize::BITS / 8) as nat),
{
    let n: usize = (usize::BITS / 8) as usize;
    let mut out: Vec<u8> = Vec::new();
    let mut rest: usize = x;
    let mut i: usize = 0;
    while i < n
        invariant
            0 <= i <= n,
            n == usize::BITS / 8,
            out@ + le_bytes(rest as nat, (n - i) as nat) == le_bytes(x as nat, n as nat),
        decreases n - i,
    {
        let byte: u8 = (rest % 256) as u8;
        proof {
            let tail = le_bytes((rest / 256) as nat, (n - i - 1) as nat);
            assert(le_bytes(rest as nat, (n - i) as nat) == seq![byte] + tail);
            assert(out@ + (seq![byte] + tail) =~= out@.push(byte) + tail);
        }
        out.push(byte);
        rest = rest / 256;
        i = i + 1;
    }
    assert(le_bytes(rest as nat, 0) =~= Seq::<u8>::empty());
    assert(out@ + Seq::<u8>::empty() =~= out@);
    out
}

/// The bytes that `KeyWithCounter::hash` digests: the key bytes, then the counter.
pub open spec fn key_hash_input<const K: usize>(k: KeyWithCounter<K>) -> Seq<u8> {
    k.0@.push(k.1)
}

/// The bytes that `KeyWithCounter::hash_with_idx` digests: the key bytes, the
/// counter, then the little-endian bytes of the index.
pub open spec fn key_idx_hash_input<const K: usize>(k: KeyWithCounter<K>, idx: nat) -> Seq<u8> {
    key_hash_input(k) + le_bytes(idx, (usize::BITS / 8) as nat)
}

/// The field hash that `KeyWithCounter::field_hash_with_idx` gives for `k` at
/// position `idx`.
pub open spec fn spec_key_field_hash<const K: usize>(k: KeyWithCounter<K>, idx: nat) -> Seq<u8> {
    spec_field_hash(blake3_digest(key_idx_hash_input(k, idx)))
}

impl<const MAX_KEY_LEN: usize> KeyWithCounter<MAX_KEY_LEN> {
    fn hash_input(&self) -> (r: Vec<u8>)
        ensures
            r@ == key_hash_input(*self),
    {
        let mut input = vstd::slice::slice_to_vec(self.0.as_slice());
        input.push(self.1);
        input
    }

    /// The BLAKE3 digest of the key bytes followed by the counter.
    pub fn hash(&self) -> (r: [u8; 32])
        ensures
            r@ == blake3_digest(key_hash_input(*self)),
    {
        let input = self.hash_input();
        blake3_hash(input.as_slice())
    }

    /// The BLAKE3 digest of the key bytes, the counter and the little-endian
    /// bytes of `idx`.
    pub fn hash_with_idx(&self, idx: usize) -> (r: [u8; 32])
        ensures
            r@ == blake3_digest(key_idx_hash_input(*self, idx as nat)),
    {
        let mut input = self.hash_input();
        let mut idx_bytes = usize_le_bytes(idx);
        input.append(&mut idx_bytes);
        blake3_hash(input.as_slice())
    }

    /// `hash_with_idx` reduced to a field hash.
    pub fn field_hash_with_idx(&self, idx: usize) -> (r: FieldHash)
        ensures
            r.wf(),
            r.bytes@ == spec_key_field_hash(*self, idx as nat),
    {
        FieldHash::from_digest(self.hash_with_idx(idx))
    }
}

} // verus!
