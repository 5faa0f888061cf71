use vstd::prelude::*;

verus! {

/// Errors of node operations.
#[derive(Debug, Clone, Copy, PartialEq, Eq, Structural)]
pub enum BerkleError {
    /// The node has not committed to its contents yet.
    NotCommitted,
    /// The prover holds no polynomial to open.
    NoPolynomial,
    /// The point asked for does not lie on the committed polynomial.
    PointNotOnPolynomial,
    /// Two entries of a node hash to the same evaluation point, so no
    /// polynomial interpolates them.
    DuplicatePoint,
}

/// Errors of converting a `Node` into one of its two kinds.
#[derive(Debug, Clone, Copy, PartialEq, Eq, Structural)]
pub enum NodeConvertError {
    NotLeafNode,
    NotInternalNode,
}

} // verus!
