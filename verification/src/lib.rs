//! Nodes of a B+-tree whose nodes commit to their contents with KZG
//! polynomial commitments over BLS12-381.
//!
//! A leaf keeps its entries sorted by key bytes in parallel vectors and
//! commits to the polynomial through the points
//! `(field hash of (key, counter, index), entry hash)`, so that every entry
//! can be opened, and a missing key can be shown missing by opening its
//! neighbours.

pub mod commitment;
pub mod digest;
pub mod error;
pub mod key;
pub mod laws;
pub mod leaf;
pub mod node;
pub mod openings;
pub mod search;

pub use commitment::{Params, Prover};
pub use digest::FieldHash;
pub use error::{BerkleError, NodeConvertError};
pub use key::KeyWithCounter;
pub use leaf::{LeafGetFound, LeafGetNotFound, LeafNode};
pub use node::{InternalNode, Node};
pub use openings::{GetResult, KVProof, MembershipProof, NonMembershipProof};
