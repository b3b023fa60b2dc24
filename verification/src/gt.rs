//! Elements of the target group of the BLS12-381 pairing, written additively
//! and held by their encoding of 576 bytes. The arithmetic is that of
//! `ark_ec`'s `PairingOutput`; what a group operation or the pairing returns
//! is named here and not defined. Each trusted function decodes its operands
//! with `deserialize_compressed`, makes one call, and encodes the result
//! with `serialize_compressed`; its contract gives the result its name and
//! claims that the result is again the encoding of an element of the group.

use crate::error::Error;
use crate::g1::{g1_wf, G1};
use crate::g2::{g2_wf, G2};
use crate::scalar::{limbs_value, scalar_modulus, Scalar};
use ark_bls12_381::{Bls12_381, Fr, G1Projective, G2Projective};
use ark_ec::pairing::{Pairing, PairingOutput};
use ark_ff::{BigInt, PrimeField};
use ark_serialize::{CanonicalDeserialize, CanonicalSerialize};
use ark_std::Zero;
use vstd::prelude::*;

verus! {

/// Length of an encoded element of the target group.
pub const GT_BYTES: usize = 576;

/// The encoding of the element that `bytes` decode to with subgroup
/// validation, or `None` where they decode to no element.
pub uninterp spec fn gt_canonical(bytes: Seq<u8>) -> Option<Seq<u8>>;

/// The encoding of the element `element` multiplied by the scalar `k`.
pub uninterp spec fn gt_scale(element: Seq<u8>, k: nat) -> Seq<u8>;

/// The encoding of the sum of the elements `a` and `b`.
pub uninterp spec fn gt_sum(a: Seq<u8>, b: Seq<u8>) -> Seq<u8>;

/// The encoding of the element `a` minus the element `b`.
pub uninterp spec fn gt_difference(a: Seq<u8>, b: Seq<u8>) -> Seq<u8>;

/// The encoding of the inverse of the element `a`.
pub uninterp spec fn gt_negation(a: Seq<u8>) -> Seq<u8>;

/// The encoding of the pairing of the point `p` of the first source group
/// with the point `q` of the second.
pub uninterp spec fn pairing_value(p: Seq<u8>, q: Seq<u8>) -> Seq<u8>;

/// Bytes that are the encoding of an element of the target group.
pub open spec fn gt_wf(bytes: Seq<u8>) -> bool {
    bytes.len() == GT_BYTES && gt_canonical(bytes) == Some(bytes)
}

/// The encoding of the neutral element: the one of the extension field, a
/// single 1 in the lowest byte of the first coefficient.
pub open spec fn gt_identity_encoding() -> Seq<u8> {
    Seq::new(GT_BYTES as nat, |i: int| if i == 0 { 1u8 } else { 0u8 })
}

/// Decodes with `PairingOutput::deserialize_compressed` and encodes the
/// element again with `serialize_compressed`. The result is `None` exactly
/// where the bytes decode to no element of the group; an encoding that was
/// written by the encoder decodes to the element it was written for.
#[verifier::external_body]
fn gt_decode(bytes: &[u8; 576]) -> (r: Option<[u8; 576]>)
    ensures
        match r {
            Some(c) => gt_canonical(bytes@) == Some(c@) && gt_wf(c@),
            None => gt_canonical(bytes@).is_none(),
        },
{
    match PairingOutput::<Bls12_381>::deserialize_compressed(&bytes[..]) {
        Ok(p) => {
            let mut out = [0u8; 576];
            p.serialize_compressed(&mut out[..]).unwrap();
            Some(out)
        },
        Err(_) => None,
    }
}

/// Multiplies an element by a scalar with `PairingOutput`'s `Mul`.
#[verifier::external_body]
fn gt_scale_bytes(element: &[u8; 576], k: &[u64; 4]) -> (r: [u8; 576])
    requires
        gt_wf(element@),
        limbs_value(k@) < scalar_modulus(),
    ensures
        r@ == gt_scale(element@, limbs_value(k@)),
        gt_wf(r@),
{
    let p = PairingOutput::<Bls12_381>::deserialize_compressed(&element[..]).unwrap();
    let s = Fr::from_bigint(BigInt::new(*k)).unwrap();
    let mut out = [0u8; 576];
    (p * s).serialize_compressed(&mut out[..]).unwrap();
    out
}

/// Adds two elements with `PairingOutput`'s `Add`.
#[verifier::external_body]
fn gt_sum_bytes(a: &[u8; 576], b: &[u8; 576]) -> (r: [u8; 576])
    requires
        gt_wf(a@),
        gt_wf(b@),
    ensures
        r@ == gt_sum(a@, b@),
        gt_wf(r@),
{
    let p = PairingOutput::<Bls12_381>::deserialize_compressed(&a[..]).unwrap();
    let q = PairingOutput::<Bls12_381>::deserialize_compressed(&b[..]).unwrap();
    let mut out = [0u8; 576];
    (p + q).serialize_compressed(&mut out[..]).unwrap();
    out
}

/// Subtracts an element from another with `PairingOutput`'s `Sub`.
#[verifier::external_body]
fn gt_difference_bytes(a: &[u8; 576], b: &[u8; 576]) -> (r: [u8; 576])
    requires
        gt_wf(a@),
        gt_wf(b@),
    ensures
        r@ == gt_difference(a@, b@),
        gt_wf(r@),
{
    let p = PairingOutput::<Bls12_381>::deserialize_compressed(&a[..]).unwrap();
    let q = PairingOutput::<Bls12_381>::deserialize_compressed(&b[..]).unwrap();
    let mut out = [0u8; 576];
    (p - q).serialize_compressed(&mut out[..]).unwrap();
    out
}

/// Inverts an element with `PairingOutput`'s `Neg`.
#[verifier::external_body]
fn gt_negation_bytes(a: &[u8; 576]) -> (r: [u8; 576])
    requires
        gt_wf(a@),
    ensures
        r@ == gt_negation(a@),
        gt_wf(r@),
{
    let p = PairingOutput::<Bls12_381>::deserialize_compressed(&a[..]).unwrap();
    let mut out = [0u8; 576];
    (-p).serialize_compressed(&mut out[..]).unwrap();
    out
}

/// Encodes `PairingOutput::zero()`, the neutral element.
#[verifier::external_body]
fn gt_identity_bytes() -> (r: [u8; 576])
    ensures
        r@ == gt_identity_encoding(),
        gt_wf(r@),
{
    let mut out = [0u8; 576];
    PairingOutput::<Bls12_381>::zero().serialize_compressed(&mut out[..]).unwrap();
    out
}

/// Computes the pairing of two points with `Bls12_381::pairing`.
#[verifier::external_body]
fn pairing_bytes(p: &[u8; 48], q: &[u8; 96]) -> (r: [u8; 576])
    requires
        g1_wf(p@),
        g2_wf(q@),
    ensures
        r@ == pairing_value(p@, q@),
        gt_wf(r@),
{
    let a = G1Projective::deserialize_compressed(&p[..]).unwrap();
    let b = G2Projective::deserialize_compressed(&q[..]).unwrap();
    let mut out = [0u8; 576];
    Bls12_381::pairing(a, b).serialize_compressed(&mut out[..]).unwrap();
    out
}

/// An element of the target group.
#[derive(Clone, Copy, Debug, PartialEq, Eq)]
pub struct GT {
    bytes: [u8; 576],
}

impl View for GT {
    type V = Seq<u8>;

    closed spec fn view(&self) -> Seq<u8> {
        self.bytes@
    }
}

impl GT {
    /// The element holds the encoding of an element of the group.
    #[verifier::type_invariant]
    pub open spec fn wf(self) -> bool {
        gt_wf(self@)
    }

    /// Decodes an element. Bytes that decode to no element of the group are
    /// refused.
    pub fn from_bytes(bytes: &[u8; 576]) -> (r: Result<GT, Error>)
        ensures
            match r {
                Ok(g) => gt_canonical(bytes@) == Some(g@) && g.wf(),
                Err(e) => e == Error::Deserialization && gt_canonical(bytes@).is_none(),
            },
    {
        match gt_decode(bytes) {
            Some(c) => Ok(GT { bytes: c }),
            None => Err(Error::Deserialization),
        }
    }

    /// The encoding of the element.
    pub fn to_bytes(&self) -> (r: [u8; 576])
        ensures
            r@ == self@,
    {
        self.bytes
    }

    /// The pairing of a point of the first source group with a point of the
    /// second.
    pub fn pairing(p: &G1, q: &G2) -> (r: GT)
        ensures
            r@ == pairing_value(p@, q@),
            r.wf(),
    {
        proof {
            use_type_invariant(p);
            use_type_invariant(q);
        }
        let a = p.to_bytes();
        let b = q.to_bytes();
        GT { bytes: pairing_bytes(&a, &b) }
    }

    /// The element multiplied by a scalar.
    pub fn scaled(&self, k: &Scalar) -> (r: GT)
        ensures
            r@ == gt_scale(self@, k@),
            r.wf(),
    {
        proof {
            use_type_invariant(self);
            use_type_invariant(k);
        }
        let limbs = k.to_limbs();
        GT { bytes: gt_scale_bytes(&self.bytes, &limbs) }
    }

    /// The sum of two elements.
    pub fn plus(&self, other: &GT) -> (r: GT)
        ensures
            r@ == gt_sum(self@, other@),
            r.wf(),
    {
        proof {
            use_type_invariant(self);
            use_type_invariant(other);
        }
        GT { bytes: gt_sum_bytes(&self.bytes, &other.bytes) }
    }

    /// The element minus another.
    pub fn minus(&self, other: &GT) -> (r: GT)
        ensures
            r@ == gt_difference(self@, other@),
            r.wf(),
    {
        proof {
            use_type_invariant(self);
            use_type_invariant(other);
        }
        GT { bytes: gt_difference_bytes(&self.bytes, &other.bytes) }
    }

    /// The inverse of the element.
    pub fn negated(&self) -> (r: GT)
        ensures
            r@ == gt_negation(self@),
            r.wf(),
    {
        proof {
            use_type_invariant(self);
        }
        GT { bytes: gt_negation_bytes(&self.bytes) }
    }

    /// Whether two elements are the same element of the group.
    pub fn same(&self, other: &GT) -> (r: bool)
        ensures
            r == (self@ == other@),
    {
        crate::bytes::arrays_equal(&self.bytes, &other.bytes)
    }

    /// The neutral element of the group.
    pub fn identity() -> (r: GT)
        ensures
            r@ == gt_identity_encoding(),
            r.wf(),
    {
        GT { bytes: gt_identity_bytes() }
    }
}

} // verus!
