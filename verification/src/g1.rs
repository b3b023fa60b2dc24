//! Elements of the first source group of BLS12-381, held by their compressed
//! encoding of 48 bytes. The arithmetic is that of `ark_bls12_381`; what a
//! group operation returns is named here and not defined. Each trusted
//! function decodes its operands with `deserialize_compressed`, makes one
//! call, and encodes the result with `serialize_compressed`; its contract
//! gives the result its name and claims that the result is again the
//! encoding of a point of the group.

use crate::error::Error;
use crate::scalar::{limbs_value, scalar_modulus, Scalar};
use ark_bls12_381::{Fr, G1Projective};
use ark_ec::Group;
use ark_ff::{BigInt, PrimeField};
use ark_serialize::{CanonicalDeserialize, CanonicalSerialize};
use ark_std::{UniformRand, Zero};
use vstd::prelude::*;

verus! {

/// Length of a compressed element of the first source group.
pub const G1_BYTES: usize = 48;

/// The compressed encoding of the point that `bytes` decode to with
/// subgroup validation, or `None` where they decode to no point.
pub uninterp spec fn g1_canonical(bytes: Seq<u8>) -> Option<Seq<u8>>;

/// The encoding of the point `point` multiplied by the scalar `k`.
pub uninterp spec fn g1_scale(point: Seq<u8>, k: nat) -> Seq<u8>;

/// The encoding of the sum of the points `a` and `b`.
pub uninterp spec fn g1_sum(a: Seq<u8>, b: Seq<u8>) -> Seq<u8>;

/// The encoding of the point `a` minus the point `b`.
pub uninterp spec fn g1_difference(a: Seq<u8>, b: Seq<u8>) -> Seq<u8>;

/// The encoding of the inverse of the point `a`.
pub uninterp spec fn g1_negation(a: Seq<u8>) -> Seq<u8>;

/// Bytes that are the encoding of a point of the group, in the form in which
/// the encoder writes that point.
pub open spec fn g1_wf(bytes: Seq<u8>) -> bool {
    bytes.len() == G1_BYTES && g1_canonical(bytes) == Some(bytes)
}

/// The encoding of the point at infinity: the compression and infinity flags
/// in the first byte, and zeros.
pub open spec fn g1_identity_encoding() -> Seq<u8> {
    Seq::new(G1_BYTES as nat, |i: int| if i == 0 { 0xc0u8 } else { 0u8 })
}

/// The encoding of the fixed generator of the group.
pub open spec fn g1_generator_encoding() -> Seq<u8> {
    seq![
        0x97u8, 0xf1, 0xd3, 0xa7, 0x31, 0x97, 0xd7, 0x94, 0x26, 0x95, 0x63, 0x8c,
        0x4f, 0xa9, 0xac, 0x0f, 0xc3, 0x68, 0x8c, 0x4f, 0x97, 0x74, 0xb9, 0x05,
        0xa1, 0x4e, 0x3a, 0x3f, 0x17, 0x1b, 0xac, 0x58, 0x6c, 0x55, 0xe8, 0x3f,
        0xf9, 0x7a, 0x1a, 0xef, 0xfb, 0x3a, 0xf0, 0x0a, 0xdb, 0x22, 0xc6, 0xbb,
    ]
}

/// Decodes with `G1Projective::deserialize_compressed` and encodes the point
/// again with `serialize_compressed`. The result is `None` exactly where the
/// bytes decode to no point of the group; an encoding that was written by the
/// encoder decodes to the point it was written for.
#[verifier::external_body]
fn g1_decode(bytes: &[u8; 48]) -> (r: Option<[u8; 48]>)
    ensures
        match r {
            Some(c) => g1_canonical(bytes@) == Some(c@) && g1_wf(c@),
            None => g1_canonical(bytes@).is_none(),
        },
{
    match G1Projective::deserialize_compressed(&bytes[..]) {
        Ok(p) => {
            let mut out = [0u8; 48];
            p.serialize_compressed(&mut out[..]).unwrap();
            Some(out)
        },
        Err(_) => None,
    }
}

/// Multiplies a point by a scalar with `G1Projective`'s `Mul`.
#[verifier::external_body]
fn g1_scale_bytes(point: &[u8; 48], k: &[u64; 4]) -> (r: [u8; 48])
    requires
        g1_wf(point@),
        limbs_value(k@) < scalar_modulus(),
    ensures
        r@ == g1_scale(point@, limbs_value(k@)),
        g1_wf(r@),
{
    let p = G1Projective::deserialize_compressed(&point[..]).unwrap();
    let s = Fr::from_bigint(BigInt::new(*k)).unwrap();
    let mut out = [0u8; 48];
    (p * s).serialize_compressed(&mut out[..]).unwrap();
    out
}

/// Adds two points with `G1Projective`'s `Add`.
#[verifier::external_body]
fn g1_sum_bytes(a: &[u8; 48], b: &[u8; 48]) -> (r: [u8; 48])
    requires
        g1_wf(a@),
        g1_wf(b@),
    ensures
        r@ == g1_sum(a@, b@),
        g1_wf(r@),
{
    let p = G1Projective::deserialize_compressed(&a[..]).unwrap();
    let q = G1Projective::deserialize_compressed(&b[..]).unwrap();
    let mut out = [0u8; 48];
    (p + q).serialize_compressed(&mut out[..]).unwrap();
    out
}

/// Subtracts a point from another with `G1Projective`'s `Sub`.
#[verifier::external_body]
fn g1_difference_bytes(a: &[u8; 48], b: &[u8; 48]) -> (r: [u8; 48])
    requires
        g1_wf(a@),
        g1_wf(b@),
    ensures
        r@ == g1_difference(a@, b@),
        g1_wf(r@),
{
    let p = G1Projective::deserialize_compressed(&a[..]).unwrap();
    let q = G1Projective::deserialize_compressed(&b[..]).unwrap();
    let mut out = [0u8; 48];
    (p - q).serialize_compressed(&mut out[..]).unwrap();
    out
}

/// Inverts a point with `G1Projective`'s `Neg`.
#[verifier::external_body]
fn g1_negation_bytes(a: &[u8; 48]) -> (r: [u8; 48])
    requires
        g1_wf(a@),
    ensures
        r@ == g1_negation(a@),
        g1_wf(r@),
{
    let p = G1Projective::deserialize_compressed(&a[..]).unwrap();
    let mut out = [0u8; 48];
    (-p).serialize_compressed(&mut out[..]).unwrap();
    out
}

/// Draws a point with `G1Projective::rand` from the thread-local generator
/// of `rand`. Nothing is known of the result but that it is a point of the
/// group.
#[verifier::external_body]
fn g1_random_bytes() -> (r: [u8; 48])
    ensures
        g1_wf(r@),
{
    let mut rng = rand::thread_rng();
    let mut out = [0u8; 48];
    G1Projective::rand(&mut rng).serialize_compressed(&mut out[..]).unwrap();
    out
}

/// Encodes `G1Projective::generator()`.
#[verifier::external_body]
fn g1_generator_bytes() -> (r: [u8; 48])
    ensures
        r@ == g1_generator_encoding(),
        g1_wf(r@),
{
    let mut out = [0u8; 48];
    G1Projective::generator().serialize_compressed(&mut out[..]).unwrap();
    out
}

/// Encodes `G1Projective::zero()`, the point at infinity.
#[verifier::external_body]
fn g1_identity_bytes() -> (r: [u8; 48])
    ensures
        r@ == g1_identity_encoding(),
        g1_wf(r@),
{
    let mut out = [0u8; 48];
    G1Projective::zero().serialize_compressed(&mut out[..]).unwrap();
    out
}

/// An element of the first source group.
#[derive(Clone, Copy, Debug, PartialEq, Eq)]
pub struct G1 {
    bytes: [u8; 48],
}

impl View for G1 {
    type V = Seq<u8>;

    closed spec fn view(&self) -> Seq<u8> {
        self.bytes@
    }
}

impl G1 {
    /// The element holds the encoding of a point of the group.
    #[verifier::type_invariant]
    pub open spec fn wf(self) -> bool {
        g1_wf(self@)
    }

    /// Decodes a compressed point. Bytes that decode to no point of the
    /// group are refused.
    pub fn from_bytes(bytes: &[u8; 48]) -> (r: Result<G1, Error>)
        ensures
            match r {
                Ok(g) => g1_canonical(bytes@) == Some(g@) && g.wf(),
                Err(e) => e == Error::Deserialization && g1_canonical(bytes@).is_none(),
            },
    {
        match g1_decode(bytes) {
            Some(c) => Ok(G1 { bytes: c }),
            None => Err(Error::Deserialization),
        }
    }

    /// The compressed encoding of the element.
    pub fn to_bytes(&self) -> (r: [u8; 48])
        ensures
            r@ == self@,
    {
        self.bytes
    }

    /// The element multiplied by a scalar.
    pub fn scaled(&self, k: &Scalar) -> (r: G1)
        ensures
            r@ == g1_scale(self@, k@),
            r.wf(),
    {
        proof {
            use_type_invariant(self);
            use_type_invariant(k);
        }
        let limbs = k.to_limbs();
        G1 { bytes: g1_scale_bytes(&self.bytes, &limbs) }
    }

    /// The sum of two elements.
    pub fn plus(&self, other: &G1) -> (r: G1)
        ensures
            r@ == g1_sum(self@, other@),
            r.wf(),
    {
        proof {
            use_type_invariant(self);
            use_type_invariant(other);
        }
        G1 { bytes: g1_sum_bytes(&self.bytes, &other.bytes) }
    }

    /// The element minus another.
    pub fn minus(&self, other: &G1) -> (r: G1)
        ensures
            r@ == g1_difference(self@, other@),
            r.wf(),
    {
        proof {
            use_type_invariant(self);
            use_type_invariant(other);
        }
        G1 { bytes: g1_difference_bytes(&self.bytes, &other.bytes) }
    }

    /// The inverse of the element.
    pub fn negated(&self) -> (r: G1)
        ensures
            r@ == g1_negation(self@),
            r.wf(),
    {
        proof {
            use_type_invariant(self);
        }
        G1 { bytes: g1_negation_bytes(&self.bytes) }
    }

    /// Whether two elements are the same point.
    pub fn same(&self, other: &G1) -> (r: bool)
        ensures
            r == (self@ == other@),
    {
        crate::bytes::arrays_equal(&self.bytes, &other.bytes)
    }

    /// An element drawn from the process-wide randomness source.
    pub fn random() -> (r: G1)
        ensures
            r.wf(),
    {
        G1 { bytes: g1_random_bytes() }
    }

    /// The fixed generator of the group.
    pub fn generator() -> (r: G1)
        ensures
            r@ == g1_generator_encoding(),
            r.wf(),
    {
        G1 { bytes: g1_generator_bytes() }
    }

    /// The neutral element of the group.
    pub fn identity() -> (r: G1)
        ensures
            r@ == g1_identity_encoding(),
            r.wf(),
    {
        G1 { bytes: g1_identity_bytes() }
    }
}

} // verus!
