use vstd::prelude::*;
use bls12_381::{Bls12, Scalar};
use crate::digest::FieldHash;

verus! {

/// Public parameters of the KZG scheme over BLS12-381, as `kzg::setup` makes
/// them. The parameter type is bound by a trait of the `pairing` crate, which
/// Verus cannot declare, so it is held here out of Verus's sight.
#[verifier::external_body]
pub struct Params {
    inner: kzg::KZGParams<Bls12>,
}

/// A KZG prover over some parameters: it holds the polynomial it last
/// committed to and that commitment.
#[verifier::external_body]
pub struct Prover<'params> {
    inner: kzg::KZGProver<'params, Bls12>,
}

/// The number of powers of the secret that `p` was set up with
/// (`num_coeffs` of `kzg::setup`).
pub uninterp spec fn params_capacity(p: Params) -> nat;

/// The parameters that `p` works over.
pub uninterp spec fn prover_params(p: Prover) -> Params;

/// The number of powers of the secret in the parameters of `p`.
pub open spec fn prover_capacity(p: Prover) -> nat {
    params_capacity(prover_params(p))
}

/// The uncompressed encoding of the KZG commitment, over `params`, to the
/// Lagrange interpolation of the points `(xs[i], ys[i])`, each coordinate
/// read as a canonical little-endian scalar.
pub uninterp spec fn interpolation_commitment(params: Params, xs: Seq<Seq<u8>>, ys: Seq<Seq<u8>>) -> Seq<u8>;

/// The bytes of each field hash.
pub open spec fn hash_bytes(hs: Seq<FieldHash>) -> Seq<Seq<u8>> {
    hs.map_values(|h: FieldHash| h.bytes@)
}

/// The uncompressed encoding of the commitment that `p` holds, if any.
pub uninterp spec fn prover_commitment(p: Prover) -> Option<Seq<u8>>;

/// Whether the polynomial that `p` holds takes the value `y` at `x`, both
/// read as canonical little-endian scalars.
pub uninterp spec fn prover_opens(p: Prover, x: Seq<u8>, y: Seq<u8>) -> bool;

/// The uncompressed encoding of the witness that `p` makes for an opening
/// of its polynomial at `x`.
pub uninterp spec fn opening_witness(p: Prover, x: Seq<u8>) -> Seq<u8>;

/// Pairwise distinct field hashes.
pub open spec fn distinct_points(xs: Seq<FieldHash>) -> bool {
    forall|i: int, j: int| 0 <= i < j < xs.len() ==> xs[i].bytes@ != xs[j].bytes@
}

/// Every field hash canonical.
pub open spec fn all_canonical(xs: Seq<FieldHash>) -> bool {
    forall|i: int| 0 <= i < xs.len() ==> #[trigger] xs[i].wf()
}

impl Params {
    /// Calls `kzg::setup` with the secret `secret` and `num_coeffs` powers of
    /// it: parameters whose capacity is `num_coeffs`.
    #[verifier::external_body]
    pub fn setup(secret: u64, num_coeffs: usize) -> (r: Params)
        ensures
            params_capacity(r) == num_coeffs,
    {
        Params { inner: kzg::setup::<Bls12>(Scalar::from(secret), num_coeffs) }
    }
}

impl<'params> Prover<'params> {
    /// Calls `kzg::KZGProver::new`: a prover over `params` that holds no
    /// polynomial and no commitment.
    #[verifier::external_body]
    pub(crate) fn new(params: &'params Params) -> (r: Prover<'params>)
        ensures
            prover_params(r) == *params,
            prover_commitment(r) is None,
    {
        Prover { inner: kzg::KZGProver::new(&params.inner) }
    }

    /// Interpolates the points `(xs[i], ys[i])` with
    /// `kzg::polynomial::Polynomial::lagrange_interpolation` and commits to
    /// the result with `kzg::KZGProver::commit`; returns the commitment as
    /// `bls12_381::G1Affine::to_uncompressed` encodes it. The polynomial type
    /// is bound by a trait of the `pairing` crate that Verus cannot declare,
    /// so both calls stand in this one item. Claimed: the result is the
    /// commitment over the prover's parameters to the interpolation of the
    /// points, and the prover then holds it and a polynomial through every
    /// given point.
    /// Interpolation divides by the differences of the `xs` (distinct points
    /// needed) and recurses without end on no point; `commit` reads one power
    /// of the secret per coefficient above the constant one, of which the
    /// interpolation of one point has one and of `n > 1` points `n - 1`.
    #[verifier::external_body]
    pub(crate) fn commit_interpolation(&mut self, xs: &[FieldHash], ys: &[FieldHash]) -> (r: [u8; 96])
        requires
            xs@.len() == ys@.len(),
            1 <= xs@.len() <= prover_capacity(*old(self)) + 1,
            1 <= prover_capacity(*old(self)),
            all_canonical(xs@),
            all_canonical(ys@),
            distinct_points(xs@),
        ensures
            r@ == interpolation_commitment(prover_params(*old(self)), hash_bytes(xs@), hash_bytes(ys@)),
            prover_params(*final(self)) == prover_params(*old(self)),
            prover_commitment(*final(self)) == Some(r@),
            forall|i: int|
                0 <= i < xs@.len() ==> prover_opens(*final(self), #[trigger] xs@[i].bytes@, ys@[i].bytes@),
    {
        let xs: Vec<Scalar> = xs.iter().map(|h| Scalar::from_bytes(&h.bytes).unwrap()).collect();
        let ys: Vec<Scalar> = ys.iter().map(|h| Scalar::from_bytes(&h.bytes).unwrap()).collect();
        let polynomial = kzg::polynomial::Polynomial::lagrange_interpolation(&xs, &ys);
        self.inner.commit(polynomial).inner().to_uncompressed()
    }

    /// Calls `kzg::KZGProver::commitment` and encodes the commitment with
    /// `bls12_381::G1Affine::to_uncompressed`.
    #[verifier::external_body]
    pub(crate) fn commitment(&self) -> (r: Option<[u8; 96]>)
        ensures
            r matches Some(c) ==> prover_commitment(*self) == Some(c@),
            r is None <==> prover_commitment(*self) is None,
    {
        self.inner.commitment().map(|c| c.inner().to_uncompressed())
    }

    /// Calls `kzg::KZGProver::create_witness` at the scalars that `x` and `y`
    /// encode, and encodes the witness with `to_uncompressed`; `None` where the
    /// call fails. The prover has a polynomial exactly when it has a
    /// commitment; the call succeeds exactly when it has one and that
    /// polynomial takes the value `y` at `x`.
    #[verifier::external_body]
    pub(crate) fn create_witness(&self, x: &FieldHash, y: &FieldHash) -> (r: Option<[u8; 96]>)
        requires
            x.wf(),
            y.wf(),
        ensures
            r is None <==> !(prover_commitment(*self) is Some && prover_opens(*self, x.bytes@, y.bytes@)),
            r matches Some(w) ==> w@ == opening_witness(*self, x.bytes@),
    {
        let x = Scalar::from_bytes(&x.bytes).unwrap();
        let y = Scalar::from_bytes(&y.bytes).unwrap();
        self.inner.create_witness((x, y)).ok().map(|w| w.inner().to_uncompressed())
    }
}

} // verus!
