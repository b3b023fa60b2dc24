//! Elements of the second source group of BLS12-381, held by their
//! compressed encoding of 96 bytes. The arithmetic is that of
//! `ark_bls12_381`; what a group operation returns is named here and not
//! defined. Each trusted function decodes its operands with
//! `deserialize_compressed`, makes one call, and encodes the result with
//! `serialize_compressed`; its contract gives the result its name and claims
//! that the result is again the encoding of a point of the group.

use crate::error::Error;
use crate::scalar::{limbs_value, scalar_modulus, Scalar};
use ark_bls12_381::{Fr, G2Projective};
use ark_ff::{BigInt, PrimeField};
use ark_serialize::{CanonicalDeserialize, CanonicalSerialize};
use ark_std::UniformRand;
use vstd::prelude::*;

verus! {

/// Length of a compressed element of the second source group.
pub const G2_BYTES: usize = 96;

/// The compressed encoding of the point that `bytes` decode to with
/// subgroup validation, or `None` where they decode to no point.
pub uninterp spec fn g2_canonical(bytes: Seq<u8>) -> Option<Seq<u8>>;

/// The encoding of the point `point` multiplied by the scalar `k`.
pub uninterp spec fn g2_scale(point: Seq<u8>, k: nat) -> Seq<u8>;

/// The encoding of the sum of the points `a` and `b`.
pub uninterp spec fn g2_sum(a: Seq<u8>, b: Seq<u8>) -> Seq<u8>;

/// Bytes that are the encoding of a point of the group, in the form in which
/// the encoder writes that point.
pub open spec fn g2_wf(bytes: Seq<u8>) -> bool {
    bytes.len() == G2_BYTES && g2_canonical(bytes) == Some(bytes)
}

/// Decodes with `G2Projective::deserialize_compressed` and encodes the point
/// again with `serialize_compressed`. The result is `None` exactly where the
/// bytes decode to no point of the group; an encoding that was written by the
/// encoder decodes to the point it was written for.
#[verifier::external_body]
fn g2_decode(bytes: &[u8; 96]) -> (r: Option<[u8; 96]>)
    ensures
        match r {
            Some(c) => g2_canonical(bytes@) == Some(c@) && g2_wf(c@),
            None => g2_canonical(bytes@).is_none(),
        },
{
    match G2Projective::deserialize_compressed(&bytes[..]) {
        Ok(p) => {
            let mut out = [0u8; 96];
            p.serialize_compressed(&mut out[..]).unwrap();
            Some(out)
        },
        Err(_) => None,
    }
}

/// Multiplies a point by a scalar with `G2Projective`'s `Mul`.
#[verifier::external_body]
fn g2_scale_bytes(point: &[u8; 96], k: &[u64; 4]) -> (r: [u8; 96])
    requires
        g2_wf(point@),
        limbs_value(k@) < scalar_modulus(),
    ensures
        r@ == g2_scale(point@, limbs_value(k@)),
        g2_wf(r@),
{
    let p = G2Projective::deserialize_compressed(&point[..]).unwrap();
    let s = Fr::from_bigint(BigInt::new(*k)).unwrap();
    let mut out = [0u8; 96];
    (p * s).serialize_compressed(&mut out[..]).unwrap();
    out
}

/// Adds two points with `G2Projective`'s `Add`.
#[verifier::external_body]
fn g2_sum_bytes(a: &[u8; 96], b: &[u8; 96]) -> (r: [u8; 96])
    requires
        g2_wf(a@),
        g2_wf(b@),
    ensures
        r@ == g2_sum(a@, b@),
        g2_wf(r@),
{
    let p = G2Projective::deserialize_compressed(&a[..]).unwrap();
    let q = G2Projective::deserialize_compressed(&b[..]).unwrap();
    let mut out = [0u8; 96];
    (p + q).serialize_compressed(&mut out[..]).unwrap();
    out
}

/// Draws a point with `G2Projective::rand` from the thread-local generator
/// of `rand`. Nothing is known of the result but that it is a point of the
/// group.
#[verifier::external_body]
fn g2_random_bytes() -> (r: [u8; 96])
    ensures
        g2_wf(r@),
{
    let mut rng = rand::thread_rng();
    let mut out = [0u8; 96];
    G2Projective::rand(&mut rng).serialize_compressed(&mut out[..]).unwrap();
    out
}

/// An element of the second source group.
#[derive(Clone, Copy, Debug, PartialEq, Eq)]
pub struct G2 {
    bytes: [u8; 96],
}

impl View for G2 {
    type V = Seq<u8>;

    closed spec fn view(&self) -> Seq<u8> {
        self.bytes@
    }
}

impl G2 {
    /// The element holds the encoding of a point of the group.
    #[verifier::type_invariant]
    pub open spec fn wf(self) -> bool {
        g2_wf(self@)
    }

    /// Decodes a compressed point. Bytes that decode to no point of the
    /// group are refused.
    pub fn from_bytes(bytes: &[u8; 96]) -> (r: Result<G2, Error>)
        ensures
            match r {
                Ok(g) => g2_canonical(bytes@) == Some(g@) && g.wf(),
                Err(e) => e == Error::Deserialization && g2_canonical(bytes@).is_none(),
            },
    {
        match g2_decode(bytes) {
            Some(c) => Ok(G2 { bytes: c }),
            None => Err(Error::Deserialization),
        }
    }

    /// The compressed encoding of the element.
    pub fn to_bytes(&self) -> (r: [u8; 96])
        ensures
            r@ == self@,
    {
        self.bytes
    }

    /// The element multiplied by a scalar.
    pub fn scaled(&self, k: &Scalar) -> (r: G2)
        ensures
            r@ == g2_scale(self@, k@),
            r.wf(),
    {
        proof {
            use_type_invariant(self);
            use_type_invariant(k);
        }
        let limbs = k.to_limbs();
        G2 { bytes: g2_scale_bytes(&self.bytes, &limbs) }
    }

    /// The sum of two elements.
    pub fn plus(&self, other: &G2) -> (r: G2)
        ensures
            r@ == g2_sum(self@, other@),
            r.wf(),
    {
        proof {
            use_type_invariant(self);
            use_type_invariant(other);
        }
        G2 { bytes: g2_sum_bytes(&self.bytes, &other.bytes) }
    }

    /// Whether two elements are the same point.
    pub fn same(&self, other: &G2) -> (r: bool)
        ensures
            r == (self@ == other@),
    {
        crate::bytes::arrays_equal(&self.bytes, &other.bytes)
    }

    /// An element drawn from the process-wide randomness source.
    pub fn random() -> (r: G2)
        ensures
            r.wf(),
    {
        G2 { bytes: g2_random_bytes() }
    }
}

} // verus!
