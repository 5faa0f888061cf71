# berkle

Nodes of a B+-tree that commits to its contents with KZG polynomial
commitments over BLS12-381, verified with Verus.

- `src/key.rs`: keys with duplicate counters; byte-wise order.
- `src/digest.rs`: BLAKE3 digests of keys, field hashes.
- `src/search.rs`: bisection over sorted keys; why insertion keeps them sorted.
- `src/commitment.rs`: the KZG prover, behind trusted wrappers.
- `src/leaf.rs`: leaf nodes: insertion, commitment, lookups with proofs.
- `src/node.rs`: the node enum, internal nodes, conversions.
- `src/laws.rs`: properties that relate several operations.

Verus checks everything under `src/`; the tests under `tests/` run the
library against the `kzg`, `bls12_381` and `blake3` crates.
