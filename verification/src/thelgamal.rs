//! Threshold ElGamal in the first source group, with the message in the
//! exponent of the group's generator: ciphertexts add, direct decryption
//! ends in a bounded discrete-logarithm search, and threshold decryption
//! takes a single round.

use crate::bytes::{append_array, chunk};
use crate::error::Error;
use crate::g1::{
    g1_canonical, g1_difference, g1_generator_encoding, g1_identity_encoding, g1_negation,
    g1_scale, g1_sum, g1_wf, G1,
};
use crate::scalar::{neg_mod, scalar_modulus, Scalar};
use crate::shamir::{
    all_distinct, deal, dealable, ids_distinct, ids_nonzero, is_sharing_of, lagrange_at_zero,
    lagrange_basis, numbered_from_one, share_values, ShareId,
};
use vstd::prelude::*;

verus! {

/// The base `g`.
pub type PublicParameters = G1;

/// The secret scalar `s`.
pub type SecretKey = Scalar;

/// A share of the secret key with its identifier.
pub type SecretKeyShare = (ShareId, Scalar);

/// The public key `h = g * s`.
pub type PublicKey = G1;

/// A partial decryption: the identifier, and the second component of the
/// ciphertext scaled by the key share.
pub type PartialDecryption = (ShareId, G1);

/// Length of an encoded ciphertext.
pub const CTXT_BYTES: usize = 96;

/// A ciphertext `(g * r, G * m + h * r)`, with `G` the generator of the
/// group.
#[derive(Clone, Copy, Debug, PartialEq, Eq)]
pub struct Ciphertext(pub G1, pub G1);

impl View for Ciphertext {
    type V = (Seq<u8>, Seq<u8>);

    open spec fn view(&self) -> (Seq<u8>, Seq<u8>) {
        (self.0@, self.1@)
    }
}

/// The encryption of `m` with the randomness `r`.
pub open spec fn encryption(pp: PublicParameters, pk: PublicKey, m: nat, r: nat) -> (
    Seq<u8>,
    Seq<u8>,
) {
    (g1_scale(pp@, r), g1_sum(g1_scale(g1_generator_encoding(), m), g1_scale(pk@, r)))
}

/// The component-wise sum of two ciphertexts.
pub open spec fn sum_of(a: Ciphertext, b: Ciphertext) -> (Seq<u8>, Seq<u8>) {
    (g1_sum(a.0@, b.0@), g1_sum(a.1@, b.1@))
}

/// The search for the exponent of `p` to the base `base`, from `start` up to
/// `bound`: the first `i` with `base * i == p` gives `i`, the first with
/// `base * i == -p` gives `-i`.
pub open spec fn dlog_from(base: Seq<u8>, p: Seq<u8>, start: nat, bound: nat) -> Option<nat>
    decreases bound - start,
{
    if start >= bound {
        None
    } else if g1_scale(base, start) == p {
        Some(start)
    } else if g1_scale(base, start) == g1_negation(p) {
        Some(neg_mod(start))
    } else {
        dlog_from(base, p, start + 1, bound)
    }
}

/// The bounded discrete logarithm of `p` to the base `base`.
pub open spec fn bounded_dlog(base: Seq<u8>, p: Seq<u8>, bound: nat) -> Option<nat> {
    dlog_from(base, p, 0, bound)
}

/// Whether `base * i` is `p` or its inverse.
pub open spec fn dlog_hit(base: Seq<u8>, p: Seq<u8>, i: nat) -> bool {
    g1_scale(base, i) == p || g1_scale(base, i) == g1_negation(p)
}

/// Whether `i` is the first exponent from `start` on, and below `bound`,
/// at which the search hits.
pub open spec fn first_hit(base: Seq<u8>, p: Seq<u8>, start: nat, bound: nat, i: nat) -> bool {
    start <= i < bound && dlog_hit(base, p, i) && forall|j: nat|
        start <= j < i ==> !dlog_hit(base, p, j)
}

/// What the search answers at the exponent `i` where it hits: `i` where
/// `base * i` is `p`, and the negative of `i` in the field otherwise.
pub open spec fn answer_at(base: Seq<u8>, p: Seq<u8>, i: nat) -> nat {
    if g1_scale(base, i) == p {
        i
    } else {
        neg_mod(i)
    }
}

/// The search fails exactly where no exponent from `start` up to `bound`
/// hits; otherwise it answers at the first exponent that hits.
pub proof fn lemma_search_answers_at_first_hit(base: Seq<u8>, p: Seq<u8>, start: nat, bound: nat)
    ensures
        match dlog_from(base, p, start, bound) {
            None => forall|i: nat| start <= i < bound ==> !dlog_hit(base, p, i),
            Some(x) => exists|i: nat| #[trigger]
                first_hit(base, p, start, bound, i) && x == answer_at(base, p, i),
        },
    decreases bound - start,
{
    if start < bound {
        if dlog_hit(base, p, start) {
            assert(first_hit(base, p, start, bound, start));
        } else {
            lemma_search_answers_at_first_hit(base, p, start + 1, bound);
            match dlog_from(base, p, start + 1, bound) {
                None => {
                    assert forall|i: nat| start <= i < bound implies !dlog_hit(base, p, i) by {
                        if i > start {
                            assert(start + 1 <= i);
                        }
                    }
                },
                Some(x) => {
                    let i = choose|i: nat| #[trigger]
                        first_hit(base, p, start + 1, bound, i) && x == answer_at(base, p, i);
                    assert forall|j: nat| start <= j < i implies !dlog_hit(base, p, j) by {
                        if j > start {
                            assert(start + 1 <= j);
                        }
                    }
                    assert(first_hit(base, p, start, bound, i));
                },
            }
        }
    }
}

/// The element whose discrete logarithm to the generator is the plaintext:
/// `c2 - c1 * s`.
pub open spec fn decryption_target(sk: SecretKey, ct: Ciphertext) -> Seq<u8> {
    g1_difference(ct.1@, g1_scale(ct.0@, sk@))
}

/// The identifiers of partial decryptions, in order.
pub open spec fn share_ids(shares: Seq<PartialDecryption>) -> Seq<ShareId> {
    Seq::new(shares.len(), |i: int| shares[i].0)
}

/// The sum of the first `n` elements of `shares`, each scaled by the weight
/// at its position, added up from the neutral element in order.
pub open spec fn weighted_sum(shares: Seq<PartialDecryption>, weights: Seq<nat>, n: nat) -> Seq<
    u8,
>
    decreases n,
{
    if n == 0 {
        g1_identity_encoding()
    } else {
        g1_sum(
            weighted_sum(shares, weights, (n - 1) as nat),
            g1_scale(shares[n - 1].1@, weights[n - 1]),
        )
    }
}

/// The element that the shares recombine to: each scaled by the Lagrange
/// coefficient at zero of its identifier, and summed.
pub open spec fn reconstruction(shares: Seq<PartialDecryption>) -> Seq<u8> {
    weighted_sum(shares, lagrange_basis(share_ids(shares)), shares.len())
}

/// Why a list of partial decryptions is refused, if it is: an empty list,
/// then a zero or repeated identifier.
pub open spec fn refusal(pdecs: Seq<PartialDecryption>) -> Option<Error> {
    if pdecs.len() == 0 {
        Some(Error::BelowThreshold)
    } else if !ids_nonzero(share_ids(pdecs)) || !ids_distinct(share_ids(pdecs)) {
        Some(Error::InvalidParameter)
    } else {
        None
    }
}

/// The element whose discrete logarithm threshold decryption recovers: the
/// second component of the ciphertext minus the reconstruction.
pub open spec fn final_target(ct: Ciphertext, pdecs: Seq<PartialDecryption>) -> Seq<u8> {
    g1_difference(ct.1@, reconstruction(pdecs))
}

/// The ciphertext that `bytes` decode to, if they have the exact length and
/// each half holds a group element.
pub open spec fn decoded_ctxt(bytes: Seq<u8>) -> Option<(Seq<u8>, Seq<u8>)> {
    if bytes.len() != CTXT_BYTES {
        None
    } else {
        match (g1_canonical(bytes.subrange(0, 48)), g1_canonical(bytes.subrange(48, 96))) {
            (Some(c1), Some(c2)) => Some((c1, c2)),
            _ => None,
        }
    }
}

/// Draws scalars until one is invertible, as `thbgn::rand_invertible` does.
pub fn rand_invertible() -> (r: Result<Scalar, Error>)
    ensures
        match r {
            Ok(s) => s@ != 0 && s.wf(),
            Err(e) => e == Error::RngFailure,
        },
{
    crate::thbgn::rand_invertible()
}

/// Draws the base of a deployment.
pub fn paramgen() -> (pp: PublicParameters)
    ensures
        pp.wf(),
{
    G1::random()
}

/// Draws an invertible secret scalar and derives the public key `g * s`.
pub fn keygen(pp: PublicParameters) -> (r: Result<(SecretKey, PublicKey), Error>)
    ensures
        match r {
            Ok((sk, pk)) => sk@ != 0 && pk@ == g1_scale(pp@, sk@),
            Err(e) => e == Error::RngFailure,
        },
{
    match rand_invertible() {
        Ok(s) => Ok((s, pp.scaled(&s))),
        Err(e) => Err(e),
    }
}

/// Encrypts `msg` with the given randomness.
pub fn encrypt_with(pp: PublicParameters, pk: PublicKey, msg: Scalar, r: Scalar) -> (ct:
    Ciphertext)
    ensures
        ct@ == encryption(pp, pk, msg@, r@),
{
    Ciphertext(pp.scaled(&r), G1::generator().scaled(&msg).plus(&pk.scaled(&r)))
}

/// Encrypts `msg` with a freshly drawn scalar.
pub fn encrypt(pp: PublicParameters, pk: PublicKey, msg: Scalar) -> (ct: Ciphertext)
    ensures
        exists|r: nat| r < scalar_modulus() && ct@ == #[trigger] encryption(pp, pk, msg@, r),
{
    let r = Scalar::random();
    proof {
        use_type_invariant(&r);
    }
    encrypt_with(pp, pk, msg, r)
}

/// Adds two ciphertexts component by component. The result is not
/// re-randomised.
pub fn add(pp: PublicParameters, ct1: Ciphertext, ct2: Ciphertext) -> (ct: Ciphertext)
    ensures
        ct@ == sum_of(ct1, ct2),
{
    Ciphertext(ct1.0.plus(&ct2.0), ct1.1.plus(&ct2.1))
}

/// Searches the exponents below `bound` in order for the discrete logarithm
/// of `p` or of its inverse to the base `base`.
pub fn find_dlog(base: G1, p: G1, bound: Scalar) -> (r: Result<Scalar, Error>)
    ensures
        match r {
            Ok(x) => bounded_dlog(base@, p@, bound@) == Some(x@) && x.wf(),
            Err(e) => e == Error::DLogNotFound && bounded_dlog(base@, p@, bound@).is_none(),
        },
{
    let one = Scalar::from_u64(1);
    let minus_p = p.negated();
    let mut i = Scalar::from_u64(0);
    proof {
        use_type_invariant(&bound);
    }
    while i.less_than(&bound)
        invariant
            i@ <= bound@,
            bound@ < scalar_modulus(),
            one@ == 1,
            minus_p@ == g1_negation(p@),
            bounded_dlog(base@, p@, bound@) == dlog_from(base@, p@, i@, bound@),
        decreases bound@ - i@,
    {
        let power = base.scaled(&i);
        if power.same(&p) {
            return Ok(i);
        }
        if power.same(&minus_p) {
            return Ok(i.negated());
        }
        i = i.plus(&one);
    }
    Err(Error::DLogNotFound)
}

/// Decrypts a ciphertext with the whole secret key.
pub fn decrypt(pp: PublicParameters, sk: SecretKey, ct: Ciphertext, bound: u64) -> (r: Result<
    Scalar,
    Error,
>)
    ensures
        match r {
            Ok(x) => bounded_dlog(
                g1_generator_encoding(),
                decryption_target(sk, ct),
                bound as nat,
            ) == Some(x@),
            Err(e) => e == Error::DLogNotFound && bounded_dlog(
                g1_generator_encoding(),
                decryption_target(sk, ct),
                bound as nat,
            ).is_none(),
        },
{
    let target = ct.1.minus(&ct.0.scaled(&sk));
    find_dlog(G1::generator(), target, Scalar::from_u64(bound))
}

/// Whether a threshold and a number of shares can be dealt: the dealer
/// accepts them and the identifiers fit their type.
pub open spec fn shareable(threshold: usize, total: usize) -> bool {
    dealable(threshold as int, total as int) && total <= 0xffff
}

/// Shares the secret key: `total` shares with the given threshold, the
/// values at 1 to `total` of one polynomial with `threshold` coefficients
/// whose constant term is the secret scalar.
pub fn share_sk(sk: SecretKey, threshold: usize, total: usize) -> (r: Result<
    Vec<SecretKeyShare>,
    Error,
>)
    ensures
        match r {
            Ok(shares) => shareable(threshold, total) && numbered_from_one(
                shares@,
                total as int,
            ) && is_sharing_of(share_values(shares@), sk@, threshold as nat),
            Err(e) => e == Error::InvalidParameter && !shareable(threshold, total),
        },
{
    if threshold > 0xffff || total > 0xffff {
        return Err(Error::InvalidParameter);
    }
    deal(&sk, threshold as ShareId, total as ShareId)
}

/// The partial decryption of a ciphertext under a key share.
pub fn partial_decrypt(pp: PublicParameters, sk: SecretKeyShare, ct: Ciphertext) -> (r:
    PartialDecryption)
    ensures
        r.0 == sk.0,
        r.1@ == g1_scale(ct.1@, sk.1@),
{
    let (id, s) = sk;
    (id, ct.1.scaled(&s))
}

/// Recombines elements of the group that were scaled by the shares of a
/// secret. Refused exactly where an identifier is zero.
pub fn reconstruct_secret_in_exp(shares: &[PartialDecryption]) -> (r: Result<G1, Error>)
    ensures
        match r {
            Ok(g) => ids_nonzero(share_ids(shares@)) && g@ == reconstruction(shares@) && g.wf(),
            Err(e) => e == Error::InvalidParameter && !ids_nonzero(share_ids(shares@)),
        },
{
    let n: usize = shares.len();
    let mut ids: Vec<ShareId> = Vec::new();
    let mut k: usize = 0;
    while k < n
        invariant
            k <= n,
            n == shares@.len(),
            ids@.len() == k,
            forall|j: int| 0 <= j < k ==> ids@[j] == shares@[j].0,
        decreases n - k,
    {
        ids.push(shares[k].0);
        k = k + 1;
    }
    assert(ids@ =~= share_ids(shares@));
    let basis = match lagrange_at_zero(&ids) {
        Ok(b) => b,
        Err(e) => {
            return Err(e);
        },
    };
    let mut acc = G1::identity();
    let mut i: usize = 0;
    while i < n
        invariant
            i <= n,
            n == shares@.len(),
            basis@.len() == n,
            ids@ == share_ids(shares@),
            forall|j: int| 0 <= j < n ==> (#[trigger] basis@[j])@ == lagrange_basis(ids@)[j],
            acc@ == weighted_sum(shares@, lagrange_basis(ids@), i as nat),
            acc.wf(),
        decreases n - i,
    {
        let term = shares[i].1.scaled(&basis[i]);
        acc = acc.plus(&term);
        i = i + 1;
    }
    Ok(acc)
}

/// Recombines the partial decryptions of `ct` and recovers the plaintext by
/// the bounded search. The list must not be empty, and the identifiers must
/// be distinct and not zero.
pub fn final_decrypt(
    pp: PublicParameters,
    ct: Ciphertext,
    pdecs: &[PartialDecryption],
    bound: u64,
) -> (r: Result<Scalar, Error>)
    ensures
        match r {
            Ok(x) => refusal(pdecs@).is_none() && bounded_dlog(
                g1_generator_encoding(),
                final_target(ct, pdecs@),
                bound as nat,
            ) == Some(x@),
            Err(e) => match refusal(pdecs@) {
                Some(why) => e == why,
                None => e == Error::DLogNotFound && bounded_dlog(
                    g1_generator_encoding(),
                    final_target(ct, pdecs@),
                    bound as nat,
                ).is_none(),
            },
        },
{
    let n: usize = pdecs.len();
    if n == 0 {
        return Err(Error::BelowThreshold);
    }
    let mut ids: Vec<ShareId> = Vec::new();
    let mut i: usize = 0;
    while i < n
        invariant
            i <= n,
            n == pdecs@.len(),
            ids@.len() == i,
            forall|j: int| 0 <= j < i ==> ids@[j] == pdecs@[j].0,
        decreases n - i,
    {
        ids.push(pdecs[i].0);
        i = i + 1;
    }
    assert(ids@ =~= share_ids(pdecs@));
    if !all_distinct(&ids) {
        return Err(Error::InvalidParameter);
    }
    let reconstructed = match reconstruct_secret_in_exp(pdecs) {
        Ok(g) => g,
        Err(e) => {
            return Err(e);
        },
    };
    find_dlog(G1::generator(), ct.1.minus(&reconstructed), Scalar::from_u64(bound))
}

/// The encoding of a ciphertext: its two components in order.
pub fn ctxt_to_bytes(ctxt: &Ciphertext) -> (bytes: Vec<u8>)
    ensures
        bytes@ == ctxt.0@ + ctxt.1@,
        bytes@.len() == CTXT_BYTES,
{
    let mut bytes: Vec<u8> = Vec::new();
    let c1 = ctxt.0.to_bytes();
    let c2 = ctxt.1.to_bytes();
    append_array(&mut bytes, &c1);
    append_array(&mut bytes, &c2);
    bytes
}

/// Decodes a ciphertext. Bytes of another length, or with a half that holds
/// no group element, are refused.
pub fn bytes_to_ctxt(bytes: &[u8]) -> (r: Result<Ciphertext, Error>)
    ensures
        match r {
            Ok(ct) => decoded_ctxt(bytes@) == Some(ct@),
            Err(e) => e == Error::Deserialization && decoded_ctxt(bytes@).is_none(),
        },
{
    if bytes.len() != CTXT_BYTES {
        return Err(Error::Deserialization);
    }
    let b1: [u8; 48] = chunk(bytes, 0);
    let b2: [u8; 48] = chunk(bytes, 48);
    let c1 = match G1::from_bytes(&b1) {
        Ok(g) => g,
        Err(e) => {
            return Err(e);
        },
    };
    let c2 = match G1::from_bytes(&b2) {
        Ok(g) => g,
        Err(e) => {
            return Err(e);
        },
    };
    Ok(Ciphertext(c1, c2))
}

/// Decoding the encoding of a ciphertext gives the ciphertext back.
pub proof fn lemma_ctxt_roundtrip(parts: (Seq<u8>, Seq<u8>))
    requires
        g1_wf(parts.0),
        g1_wf(parts.1),
    ensures
        decoded_ctxt(parts.0 + parts.1) == Some(parts),
{
    let bytes = parts.0 + parts.1;
    assert(bytes.subrange(0, 48) =~= parts.0);
    assert(bytes.subrange(48, 96) =~= parts.1);
}

} // verus!
