//! Elements of the scalar field of BLS12-381, held as four 64-bit limbs in
//! canonical (fully reduced) form, least significant limb first. The
//! arithmetic is that of `ark_bls12_381::Fr`: each trusted function hands
//! the limbs over with `Fr::from_bigint`, makes one call, and takes the
//! limbs of the result back with `into_bigint`. Its contract states the
//! result as a number modulo the field order.

use ark_bls12_381::Fr;
use ark_ff::{BigInt, PrimeField};
use ark_serialize::{CanonicalDeserialize, CanonicalSerialize};
use ark_std::UniformRand;
use vstd::prelude::*;

verus! {

/// The order of the scalar field, a 255-bit prime.
pub open spec fn scalar_modulus() -> nat {
    0x73eda753299d7d483339d80809a1d80553bda402fffe5bfeffffffff00000001nat
}

/// The number that four limbs stand for, least significant limb first.
pub open spec fn limbs_value(limbs: Seq<u64>) -> nat
    recommends
        limbs.len() == 4,
{
    (limbs[0] as nat) + (limbs[1] as nat) * 0x1_0000_0000_0000_0000nat + (limbs[2] as nat)
        * 0x1_0000_0000_0000_0000_0000_0000_0000_0000nat + (limbs[3] as nat)
        * 0x1_0000_0000_0000_0000_0000_0000_0000_0000_0000_0000_0000_0000nat
}

/// The additive inverse of `a` modulo the field order.
pub open spec fn neg_mod(a: nat) -> nat {
    ((scalar_modulus() - (a % scalar_modulus())) % (scalar_modulus() as int)) as nat
}

/// The difference of `a` and `b` modulo the field order, for reduced numbers.
pub open spec fn sub_mod(a: nat, b: nat) -> nat {
    ((a + scalar_modulus() - b) % (scalar_modulus() as int)) as nat
}

/// The number that bytes stand for, least significant byte first.
pub open spec fn le_value(bytes: Seq<u8>) -> nat
    decreases bytes.len(),
{
    if bytes.len() == 0 {
        0
    } else {
        bytes[0] as nat + 256 * le_value(bytes.drop_first())
    }
}

/// Length of an encoded scalar.
pub const SCALAR_BYTES: usize = 32;

/// Multiplies two field elements with `Fr`'s `Mul`. The result is the
/// product of the two numbers reduced modulo the field order.
#[verifier::external_body]
fn field_product(a: &[u64; 4], b: &[u64; 4]) -> (r: [u64; 4])
    requires
        limbs_value(a@) < scalar_modulus(),
        limbs_value(b@) < scalar_modulus(),
    ensures
        limbs_value(r@) == (limbs_value(a@) * limbs_value(b@)) % scalar_modulus(),
{
    let x = Fr::from_bigint(BigInt::new(*a)).unwrap();
    let y = Fr::from_bigint(BigInt::new(*b)).unwrap();
    (x * y).into_bigint().0
}

/// Adds two field elements with `Fr`'s `Add`. The result is the sum of the
/// two numbers reduced modulo the field order.
#[verifier::external_body]
fn field_sum(a: &[u64; 4], b: &[u64; 4]) -> (r: [u64; 4])
    requires
        limbs_value(a@) < scalar_modulus(),
        limbs_value(b@) < scalar_modulus(),
    ensures
        limbs_value(r@) == (limbs_value(a@) + limbs_value(b@)) % scalar_modulus(),
{
    let x = Fr::from_bigint(BigInt::new(*a)).unwrap();
    let y = Fr::from_bigint(BigInt::new(*b)).unwrap();
    (x + y).into_bigint().0
}

/// Negates a field element with `Fr`'s `Neg`. The result is the additive
/// inverse of the number modulo the field order.
#[verifier::external_body]
fn field_negation(a: &[u64; 4]) -> (r: [u64; 4])
    requires
        limbs_value(a@) < scalar_modulus(),
    ensures
        limbs_value(r@) == neg_mod(limbs_value(a@)),
{
    let x = Fr::from_bigint(BigInt::new(*a)).unwrap();
    (-x).into_bigint().0
}

/// Subtracts a field element from another with `Fr`'s `Sub`. The result is
/// the difference of the two numbers reduced modulo the field order.
#[verifier::external_body]
fn field_difference(a: &[u64; 4], b: &[u64; 4]) -> (r: [u64; 4])
    requires
        limbs_value(a@) < scalar_modulus(),
        limbs_value(b@) < scalar_modulus(),
    ensures
        limbs_value(r@) == sub_mod(limbs_value(a@), limbs_value(b@)),
{
    let x = Fr::from_bigint(BigInt::new(*a)).unwrap();
    let y = Fr::from_bigint(BigInt::new(*b)).unwrap();
    (x - y).into_bigint().0
}

/// Encodes a field element with `Fr`'s `serialize_compressed`: the number in
/// 32 bytes, least significant byte first.
#[verifier::external_body]
fn field_encode(a: &[u64; 4]) -> (r: [u8; 32])
    requires
        limbs_value(a@) < scalar_modulus(),
    ensures
        le_value(r@) == limbs_value(a@),
{
    let x = Fr::from_bigint(BigInt::new(*a)).unwrap();
    let mut out = [0u8; 32];
    x.serialize_compressed(&mut out[..]).unwrap();
    out
}

/// Decodes a field element with `Fr`'s `deserialize_compressed`. The bytes
/// are read as a number, least significant byte first, and refused exactly
/// where that number is not below the field order.
#[verifier::external_body]
fn field_decode(bytes: &[u8; 32]) -> (r: Option<[u64; 4]>)
    ensures
        r.is_some() <==> le_value(bytes@) < scalar_modulus(),
        r.is_some() ==> limbs_value(r.unwrap()@) == le_value(bytes@),
{
    match Fr::deserialize_compressed(&bytes[..]) {
        Ok(x) => Some(x.into_bigint().0),
        Err(_) => None,
    }
}

/// Draws a field element with `Fr::rand` from the thread-local generator of
/// `rand`. Nothing is known of the result but that it is fully reduced.
#[verifier::external_body]
fn field_random() -> (r: [u64; 4])
    ensures
        limbs_value(r@) < scalar_modulus(),
{
    let mut rng = rand::thread_rng();
    Fr::rand(&mut rng).into_bigint().0
}

/// Limbs that stand for the same number are the same limbs.
pub proof fn lemma_limbs_determined(a: Seq<u64>, b: Seq<u64>)
    requires
        a.len() == 4,
        b.len() == 4,
        limbs_value(a) == limbs_value(b),
    ensures
        a[0] == b[0],
        a[1] == b[1],
        a[2] == b[2],
        a[3] == b[3],
{
    if a[3] != b[3] {
        if a[3] < b[3] {
            assert(limbs_value(a) < limbs_value(b));
        } else {
            assert(limbs_value(b) < limbs_value(a));
        }
    } else if a[2] != b[2] {
        if a[2] < b[2] {
            assert(limbs_value(a) < limbs_value(b));
        } else {
            assert(limbs_value(b) < limbs_value(a));
        }
    } else if a[1] != b[1] {
        if a[1] < b[1] {
            assert(limbs_value(a) < limbs_value(b));
        } else {
            assert(limbs_value(b) < limbs_value(a));
        }
    }
}

/// An element of the scalar field.
#[derive(Clone, Copy, Debug, PartialEq, Eq)]
pub struct Scalar {
    limbs: [u64; 4],
}

impl View for Scalar {
    type V = nat;

    closed spec fn view(&self) -> nat {
        limbs_value(self.limbs@)
    }
}

impl Scalar {
    /// A scalar is fully reduced.
    #[verifier::type_invariant]
    pub open spec fn wf(self) -> bool {
        self@ < scalar_modulus()
    }

    /// The field element that stands for `x`.
    pub fn from_u64(x: u64) -> (r: Scalar)
        ensures
            r@ == x,
            r.wf(),
    {
        Scalar { limbs: [x, 0, 0, 0] }
    }

    /// The field element with the given canonical limbs, if they are fully
    /// reduced.
    pub fn from_limbs(limbs: [u64; 4]) -> (r: Option<Scalar>)
        ensures
            r.is_some() <==> limbs_value(limbs@) < scalar_modulus(),
            r.is_some() ==> r.unwrap()@ == limbs_value(limbs@) && r.unwrap().wf(),
    {
        let below: bool = if limbs[3] != 0x73eda753299d7d48 {
            limbs[3] < 0x73eda753299d7d48
        } else if limbs[2] != 0x3339d80809a1d805 {
            limbs[2] < 0x3339d80809a1d805
        } else if limbs[1] != 0x53bda402fffe5bfe {
            limbs[1] < 0x53bda402fffe5bfe
        } else {
            limbs[0] < 0xffffffff00000001
        };
        if below {
            Some(Scalar { limbs })
        } else {
            None
        }
    }

    /// The field element with the given limbs, which are known to be fully
    /// reduced.
    pub(crate) fn from_reduced_limbs(limbs: [u64; 4]) -> (r: Scalar)
        requires
            limbs_value(limbs@) < scalar_modulus(),
        ensures
            r@ == limbs_value(limbs@),
            r.wf(),
    {
        Scalar { limbs }
    }

    /// The canonical limbs of the scalar, least significant first.
    pub fn to_limbs(&self) -> (r: [u64; 4])
        ensures
            limbs_value(r@) == self@,
    {
        self.limbs
    }

    /// Whether the scalar is zero, that is, has no multiplicative inverse.
    pub fn is_zero(&self) -> (r: bool)
        ensures
            r == (self@ == 0),
    {
        self.limbs[0] == 0 && self.limbs[1] == 0 && self.limbs[2] == 0 && self.limbs[3] == 0
    }

    /// Whether two scalars are the same field element.
    pub fn same(&self, other: &Scalar) -> (r: bool)
        ensures
            r == (self@ == other@),
    {
        proof {
            if self@ == other@ {
                lemma_limbs_determined(self.limbs@, other.limbs@);
            }
        }
        self.limbs[0] == other.limbs[0] && self.limbs[1] == other.limbs[1] && self.limbs[2]
            == other.limbs[2] && self.limbs[3] == other.limbs[3]
    }

    /// Whether `self` is below `other` as a number in canonical form.
    pub fn less_than(&self, other: &Scalar) -> (r: bool)
        ensures
            r == (self@ < other@),
    {
        if self.limbs[3] != other.limbs[3] {
            self.limbs[3] < other.limbs[3]
        } else if self.limbs[2] != other.limbs[2] {
            self.limbs[2] < other.limbs[2]
        } else if self.limbs[1] != other.limbs[1] {
            self.limbs[1] < other.limbs[1]
        } else {
            self.limbs[0] < other.limbs[0]
        }
    }

    /// The product of two scalars in the field.
    pub fn times(&self, other: &Scalar) -> (r: Scalar)
        ensures
            r@ == (self@ * other@) % scalar_modulus(),
            r.wf(),
    {
        proof {
            use_type_invariant(self);
            use_type_invariant(other);
        }
        let limbs = field_product(&self.limbs, &other.limbs);
        Scalar { limbs }
    }

    /// The sum of two scalars in the field.
    pub fn plus(&self, other: &Scalar) -> (r: Scalar)
        ensures
            r@ == (self@ + other@) % scalar_modulus(),
            r.wf(),
    {
        proof {
            use_type_invariant(self);
            use_type_invariant(other);
        }
        let limbs = field_sum(&self.limbs, &other.limbs);
        Scalar { limbs }
    }

    /// The scalar minus another in the field.
    pub fn minus(&self, other: &Scalar) -> (r: Scalar)
        ensures
            r@ == sub_mod(self@, other@),
            r.wf(),
    {
        proof {
            use_type_invariant(self);
            use_type_invariant(other);
        }
        let limbs = field_difference(&self.limbs, &other.limbs);
        Scalar { limbs }
    }

    /// The encoding of the scalar: its number in 32 bytes, least significant
    /// byte first.
    pub fn to_bytes(&self) -> (r: [u8; 32])
        ensures
            le_value(r@) == self@,
    {
        proof {
            use_type_invariant(self);
        }
        field_encode(&self.limbs)
    }

    /// Decodes a scalar. Bytes whose number is not below the field order are
    /// refused.
    pub fn from_bytes(bytes: &[u8; 32]) -> (r: Option<Scalar>)
        ensures
            r.is_some() <==> le_value(bytes@) < scalar_modulus(),
            r.is_some() ==> r.unwrap()@ == le_value(bytes@) && r.unwrap().wf(),
    {
        match field_decode(bytes) {
            Some(limbs) => Some(Scalar { limbs }),
            None => None,
        }
    }

    /// The additive inverse of the scalar in the field.
    pub fn negated(&self) -> (r: Scalar)
        ensures
            r@ == neg_mod(self@),
            r.wf(),
    {
        proof {
            use_type_invariant(self);
        }
        let limbs = field_negation(&self.limbs);
        Scalar { limbs }
    }

    /// A scalar drawn from the process-wide randomness source.
    pub fn random() -> (r: Scalar)
        ensures
            r.wf(),
    {
        let limbs = field_random();
        Scalar { limbs }
    }
}

} // verus!
