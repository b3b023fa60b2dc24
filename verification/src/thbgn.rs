//! The two-level homomorphic encryption scheme: level-1 ciphertexts of four
//! source-group elements that add component-wise, one multiplication that
//! lifts two of them into the target group by four pairings, direct
//! decryption by a bounded discrete-logarithm search, and threshold
//! decryption in two rounds over Shamir shares of the secret key.

use crate::error::Error;
use crate::g1::{g1_scale, g1_sum, G1};
use crate::g2::{g2_scale, g2_sum, G2};
use crate::gt::{
    gt_difference, gt_identity_encoding, gt_negation, gt_scale, gt_sum, pairing_value, GT,
};
use crate::scalar::{neg_mod, scalar_modulus, Scalar};
use crate::shamir::{
    all_distinct, deal, dealable, ids_distinct, ids_nonzero, is_sharing_of, lagrange_at_zero,
    lagrange_basis, share_values, ShareId,
};
use vstd::prelude::*;

verus! {

/// The two bases `(g1, g2)`, one in each source group.
pub type PublicParameters = (G1, G2);

/// The two secret scalars `(s1, s2)`.
pub type SecretKey = (Scalar, Scalar);

/// A share of the secret key: the identifier and the shares of `s1` and `s2`
/// under it.
pub type SecretKeyShare = (ShareId, Scalar, Scalar);

/// The public key `(h1, h2) = (g1 * s1, g2 * s2)`.
pub type PublicKey = (G1, G2);

/// A first-round partial decryption: the identifier, the first three
/// components of the ciphertext scaled by the key shares, and the fourth
/// component unchanged.
pub type PartialDecryption = (ShareId, GT, GT, GT, GT);

/// A second-round partial decryption: the identifier, the first component of
/// the intermediate value scaled by the share of `s2`, and the second
/// component unchanged.
pub type PartialDecryption2 = (ShareId, GT, GT);

/// What the first round recombines: `(s1 * c1, -(s1 * c2) - s2 * c3 + c4)`.
pub type IntermediateDec = (GT, GT);

/// An element of the target group with the identifier of the share that
/// scaled it.
pub type ShareInExp = (ShareId, GT);

/// How often an invertible scalar is drawn before the randomness source is
/// given up.
pub const SAMPLING_ATTEMPTS: usize = 64;

/// A level-1 ciphertext `(c1, c2, c3, c4)`, two elements of each source
/// group.
#[derive(Clone, Copy, Debug, PartialEq, Eq)]
pub struct Ciphertext1(pub (G1, G1, G2, G2));

/// A target-level ciphertext: the four pairings of a product.
#[derive(Clone, Copy, Debug, PartialEq, Eq)]
pub struct CiphertextT(pub (GT, GT, GT, GT));

impl View for Ciphertext1 {
    type V = (Seq<u8>, Seq<u8>, Seq<u8>, Seq<u8>);

    open spec fn view(&self) -> (Seq<u8>, Seq<u8>, Seq<u8>, Seq<u8>) {
        (self.0.0@, self.0.1@, self.0.2@, self.0.3@)
    }
}

impl View for CiphertextT {
    type V = (Seq<u8>, Seq<u8>, Seq<u8>, Seq<u8>);

    open spec fn view(&self) -> (Seq<u8>, Seq<u8>, Seq<u8>, Seq<u8>) {
        (self.0.0@, self.0.1@, self.0.2@, self.0.3@)
    }
}

/// The public key that belongs to a secret key.
pub open spec fn public_key_of(pp: PublicParameters, sk: SecretKey) -> (Seq<u8>, Seq<u8>) {
    (g1_scale(pp.0@, sk.0@), g2_scale(pp.1@, sk.1@))
}

/// The encryption of `m` with the randomness `rho` and `sigma`:
/// `(g1 * rho, g1 * m + h1 * rho, g2 * sigma, g2 * m + h2 * sigma)`.
pub open spec fn encryption(
    pp: PublicParameters,
    pk: PublicKey,
    m: nat,
    rho: nat,
    sigma: nat,
) -> (Seq<u8>, Seq<u8>, Seq<u8>, Seq<u8>) {
    (
        g1_scale(pp.0@, rho),
        g1_sum(g1_scale(pp.0@, m), g1_scale(pk.0@, rho)),
        g2_scale(pp.1@, sigma),
        g2_sum(g2_scale(pp.1@, m), g2_scale(pk.1@, sigma)),
    )
}

/// The component-wise sum of two level-1 ciphertexts.
pub open spec fn sum_of(a: Ciphertext1, b: Ciphertext1) -> (
    Seq<u8>,
    Seq<u8>,
    Seq<u8>,
    Seq<u8>,
) {
    (
        g1_sum(a.0.0@, b.0.0@),
        g1_sum(a.0.1@, b.0.1@),
        g2_sum(a.0.2@, b.0.2@),
        g2_sum(a.0.3@, b.0.3@),
    )
}

/// The product of two level-1 ciphertexts: the pairings of the first two
/// components of `a` with the last two of `b`.
pub open spec fn product_of(a: Ciphertext1, b: Ciphertext1) -> (
    Seq<u8>,
    Seq<u8>,
    Seq<u8>,
    Seq<u8>,
) {
    (
        pairing_value(a.0.0@, b.0.2@),
        pairing_value(a.0.0@, b.0.3@),
        pairing_value(a.0.1@, b.0.2@),
        pairing_value(a.0.1@, b.0.3@),
    )
}

/// The search for the exponent of `p` to the base `base`, from `start` up to
/// `bound`: the first `i` with `base * i == p` gives `i`, the first with
/// `base * i == -p` gives `-i`.
pub open spec fn dlog_from(base: Seq<u8>, p: Seq<u8>, start: nat, bound: nat) -> Option<nat>
    decreases bound - start,
{
    if start >= bound {
        None
    } else if gt_scale(base, start) == p {
        Some(start)
    } else if gt_scale(base, start) == gt_negation(p) {
        Some(neg_mod(start))
    } else {
        dlog_from(base, p, start + 1, bound)
    }
}

/// The bounded discrete logarithm of `p` to the base `base`.
pub open spec fn bounded_dlog(base: Seq<u8>, p: Seq<u8>, bound: nat) -> Option<nat> {
    dlog_from(base, p, 0, bound)
}

/// Whether `base * i` is `p` or its inverse.
pub open spec fn dlog_hit(base: Seq<u8>, p: Seq<u8>, i: nat) -> bool {
    gt_scale(base, i) == p || gt_scale(base, i) == gt_negation(p)
}

/// Whether `i` is the first exponent from `start` on, and below `bound`,
/// at which the search hits.
pub open spec fn first_hit(base: Seq<u8>, p: Seq<u8>, start: nat, bound: nat, i: nat) -> bool {
    start <= i < bound && dlog_hit(base, p, i) && forall|j: nat|
        start <= j < i ==> !dlog_hit(base, p, j)
}

/// What the search answers at the exponent `i` where it hits: `i` where
/// `base * i` is `p`, and the negative of `i` in the field otherwise.
pub open spec fn answer_at(base: Seq<u8>, p: Seq<u8>, i: nat) -> nat {
    if gt_scale(base, i) == p {
        i
    } else {
        neg_mod(i)
    }
}

/// The search fails exactly where no exponent from `start` up to `bound`
/// hits; otherwise it answers at the first exponent that hits.
pub proof fn lemma_search_answers_at_first_hit(base: Seq<u8>, p: Seq<u8>, start: nat, bound: nat)
    ensures
        match dlog_from(base, p, start, bound) {
            None => forall|i: nat| start <= i < bound ==> !dlog_hit(base, p, i),
            Some(x) => exists|i: nat| #[trigger]
                first_hit(base, p, start, bound, i) && x == answer_at(base, p, i),
        },
    decreases bound - start,
{
    if start < bound {
        if dlog_hit(base, p, start) {
            assert(first_hit(base, p, start, bound, start));
        } else {
            lemma_search_answers_at_first_hit(base, p, start + 1, bound);
            match dlog_from(base, p, start + 1, bound) {
                None => {
                    assert forall|i: nat| start <= i < bound implies !dlog_hit(base, p, i) by {
                        if i > start {
                            assert(start + 1 <= i);
                        }
                    }
                },
                Some(x) => {
                    let i = choose|i: nat| #[trigger]
                        first_hit(base, p, start + 1, bound, i) && x == answer_at(base, p, i);
                    assert forall|j: nat| start <= j < i implies !dlog_hit(base, p, j) by {
                        if j > start {
                            assert(start + 1 <= j);
                        }
                    }
                    assert(first_hit(base, p, start, bound, i));
                },
            }
        }
    }
}

/// The element whose discrete logarithm is the plaintext of a target-level
/// ciphertext: `c1 * (s1 * s2) - c2 * s1 - c3 * s2 + c4`.
pub open spec fn decryption_target(sk: SecretKey, ct: CiphertextT) -> Seq<u8> {
    gt_sum(
        gt_difference(
            gt_difference(
                gt_scale(ct.0.0@, (sk.0@ * sk.1@) % scalar_modulus()),
                gt_scale(ct.0.1@, sk.0@),
            ),
            gt_scale(ct.0.2@, sk.1@),
        ),
        ct.0.3@,
    )
}

/// The identifiers of a list of shares, in order.
pub open spec fn share_ids(shares: Seq<ShareInExp>) -> Seq<ShareId> {
    Seq::new(shares.len(), |i: int| shares[i].0)
}

/// The sum of the first `n` elements of `shares`, each scaled by the weight
/// at its position, added up from the neutral element in order.
pub open spec fn weighted_sum(shares: Seq<ShareInExp>, weights: Seq<nat>, n: nat) -> Seq<u8>
    decreases n,
{
    if n == 0 {
        gt_identity_encoding()
    } else {
        gt_sum(
            weighted_sum(shares, weights, (n - 1) as nat),
            gt_scale(shares[n - 1].1@, weights[n - 1]),
        )
    }
}

/// The element that the shares recombine to: each scaled by the Lagrange
/// coefficient at zero of its identifier, and summed.
pub open spec fn reconstruction(shares: Seq<ShareInExp>) -> Seq<u8> {
    weighted_sum(shares, lagrange_basis(share_ids(shares)), shares.len())
}

/// The identifiers of first-round partial decryptions, in order.
pub open spec fn round1_ids(pdecs: Seq<PartialDecryption>) -> Seq<ShareId> {
    Seq::new(pdecs.len(), |i: int| pdecs[i].0)
}

/// The first scaled component of each partial decryption, with its
/// identifier.
pub open spec fn round1_first(pdecs: Seq<PartialDecryption>) -> Seq<ShareInExp> {
    Seq::new(pdecs.len(), |i: int| (pdecs[i].0, pdecs[i].1))
}

/// The second scaled component of each partial decryption, with its
/// identifier.
pub open spec fn round1_second(pdecs: Seq<PartialDecryption>) -> Seq<ShareInExp> {
    Seq::new(pdecs.len(), |i: int| (pdecs[i].0, pdecs[i].2))
}

/// The third scaled component of each partial decryption, with its
/// identifier.
pub open spec fn round1_third(pdecs: Seq<PartialDecryption>) -> Seq<ShareInExp> {
    Seq::new(pdecs.len(), |i: int| (pdecs[i].0, pdecs[i].3))
}

/// Whether all partial decryptions carry the same unscaled component.
pub open spec fn round1_agrees(pdecs: Seq<PartialDecryption>) -> bool {
    forall|i: int| 0 <= i < pdecs.len() ==> (#[trigger] pdecs[i]).4@ == pdecs[0].4@
}

/// Why a list of first-round partial decryptions is refused, if it is: an
/// empty list, then disagreement on the unscaled component, then a zero or
/// repeated identifier.
pub open spec fn round1_refusal(pdecs: Seq<PartialDecryption>) -> Option<Error> {
    if pdecs.len() == 0 {
        Some(Error::BelowThreshold)
    } else if !round1_agrees(pdecs) {
        Some(Error::InconsistentShares)
    } else if !ids_nonzero(round1_ids(pdecs)) || !ids_distinct(round1_ids(pdecs)) {
        Some(Error::InvalidParameter)
    } else {
        None
    }
}

/// The intermediate value that first-round partial decryptions recombine
/// to: `(R1, -R2 - R3 + c4)`, with `R1`, `R2`, `R3` the reconstructions of
/// the three scaled components.
pub open spec fn intermediate_of(pdecs: Seq<PartialDecryption>) -> (Seq<u8>, Seq<u8>) {
    (
        reconstruction(round1_first(pdecs)),
        gt_sum(
            gt_difference(
                gt_negation(reconstruction(round1_second(pdecs))),
                reconstruction(round1_third(pdecs)),
            ),
            pdecs[0].4@,
        ),
    )
}

/// The identifiers of second-round partial decryptions, in order.
pub open spec fn round2_ids(pdecs: Seq<PartialDecryption2>) -> Seq<ShareId> {
    Seq::new(pdecs.len(), |i: int| pdecs[i].0)
}

/// The scaled component of each second-round partial decryption, with its
/// identifier.
pub open spec fn round2_scaled(pdecs: Seq<PartialDecryption2>) -> Seq<ShareInExp> {
    Seq::new(pdecs.len(), |i: int| (pdecs[i].0, pdecs[i].1))
}

/// Whether all second-round partial decryptions carry the same unscaled
/// component.
pub open spec fn round2_agrees(pdecs: Seq<PartialDecryption2>) -> bool {
    forall|i: int| 0 <= i < pdecs.len() ==> (#[trigger] pdecs[i]).2@ == pdecs[0].2@
}

/// Why a list of second-round partial decryptions is refused, if it is, in
/// the order of `round1_refusal`.
pub open spec fn round2_refusal(pdecs: Seq<PartialDecryption2>) -> Option<Error> {
    if pdecs.len() == 0 {
        Some(Error::BelowThreshold)
    } else if !round2_agrees(pdecs) {
        Some(Error::InconsistentShares)
    } else if !ids_nonzero(round2_ids(pdecs)) || !ids_distinct(round2_ids(pdecs)) {
        Some(Error::InvalidParameter)
    } else {
        None
    }
}

/// The element whose discrete logarithm the second round recovers: the
/// reconstruction of the scaled components plus the unscaled one.
pub open spec fn final_target(pdecs: Seq<PartialDecryption2>) -> Seq<u8> {
    gt_sum(reconstruction(round2_scaled(pdecs)), pdecs[0].2@)
}

/// The candidate if it has a multiplicative inverse, that is, if it is not
/// zero.
pub fn invertible(candidate: Scalar) -> (r: Option<Scalar>)
    ensures
        r == (if candidate@ != 0 {
            Some(candidate)
        } else {
            None
        }),
{
    if candidate.is_zero() {
        None
    } else {
        Some(candidate)
    }
}

/// Draws scalars until one is invertible. The randomness source is given up
/// after `SAMPLING_ATTEMPTS` draws of zero.
pub fn rand_invertible() -> (r: Result<Scalar, Error>)
    ensures
        match r {
            Ok(s) => s@ != 0 && s.wf(),
            Err(e) => e == Error::RngFailure,
        },
{
    let mut left: usize = SAMPLING_ATTEMPTS;
    while left > 0
        invariant
            left <= SAMPLING_ATTEMPTS,
        decreases left,
    {
        let candidate = Scalar::random();
        match invertible(candidate) {
            Some(s) => {
                return Ok(s);
            },
            None => {},
        }
        left = left - 1;
    }
    Err(Error::RngFailure)
}

/// Draws the two bases of a deployment.
pub fn paramgen() -> (pp: PublicParameters)
    ensures
        pp.0.wf(),
        pp.1.wf(),
{
    (G1::random(), G2::random())
}

/// The public key `(g1 * s1, g2 * s2)` of a secret key.
pub fn public_key(pp: PublicParameters, sk: SecretKey) -> (pk: PublicKey)
    ensures
        (pk.0@, pk.1@) == public_key_of(pp, sk),
        pk.0.wf(),
        pk.1.wf(),
{
    (pp.0.scaled(&sk.0), pp.1.scaled(&sk.1))
}

/// Draws a secret key of two invertible scalars and derives its public key.
pub fn keygen(pp: PublicParameters) -> (r: Result<(SecretKey, PublicKey), Error>)
    ensures
        match r {
            Ok((sk, pk)) => sk.0@ != 0 && sk.1@ != 0 && (pk.0@, pk.1@) == public_key_of(pp, sk),
            Err(e) => e == Error::RngFailure,
        },
{
    let s1 = match rand_invertible() {
        Ok(s) => s,
        Err(e) => {
            return Err(e);
        },
    };
    let s2 = match rand_invertible() {
        Ok(s) => s,
        Err(e) => {
            return Err(e);
        },
    };
    let sk: SecretKey = (s1, s2);
    let pk = public_key(pp, sk);
    Ok((sk, pk))
}

/// Encrypts `msg` with the given randomness.
pub fn encrypt_with(
    pp: PublicParameters,
    pk: PublicKey,
    msg: Scalar,
    rho: Scalar,
    sigma: Scalar,
) -> (ct: Ciphertext1)
    ensures
        ct@ == encryption(pp, pk, msg@, rho@, sigma@),
{
    let (g1, g2) = pp;
    let (h1, h2) = pk;
    Ciphertext1(
        (
            g1.scaled(&rho),
            g1.scaled(&msg).plus(&h1.scaled(&rho)),
            g2.scaled(&sigma),
            g2.scaled(&msg).plus(&h2.scaled(&sigma)),
        ),
    )
}

/// Encrypts `msg` with two fresh, independently drawn scalars.
pub fn encrypt(pp: PublicParameters, pk: PublicKey, msg: Scalar) -> (ct: Ciphertext1)
    ensures
        exists|rho: nat, sigma: nat|
            rho < scalar_modulus() && sigma < scalar_modulus() && ct@ == #[trigger] encryption(
                pp,
                pk,
                msg@,
                rho,
                sigma,
            ),
{
    let rho = Scalar::random();
    let sigma = Scalar::random();
    proof {
        use_type_invariant(&rho);
        use_type_invariant(&sigma);
    }
    encrypt_with(pp, pk, msg, rho, sigma)
}

/// Adds two level-1 ciphertexts component by component. The result is not
/// re-randomised.
pub fn add(pp: PublicParameters, ct1: Ciphertext1, ct2: Ciphertext1) -> (ct: Ciphertext1)
    ensures
        ct@ == sum_of(ct1, ct2),
{
    let (c1_1, c1_2, c1_3, c1_4) = ct1.0;
    let (c2_1, c2_2, c2_3, c2_4) = ct2.0;
    Ciphertext1((c1_1.plus(&c2_1), c1_2.plus(&c2_2), c1_3.plus(&c2_3), c1_4.plus(&c2_4)))
}

/// Multiplies two level-1 ciphertexts into a target-level ciphertext. The
/// result is not re-randomised.
pub fn mul(pp: PublicParameters, ct1: Ciphertext1, ct2: Ciphertext1) -> (ct: CiphertextT)
    ensures
        ct@ == product_of(ct1, ct2),
{
    let (c1_1, c1_2, _c1_3, _c1_4) = ct1.0;
    let (_c2_1, _c2_2, c2_3, c2_4) = ct2.0;
    CiphertextT(
        (
            GT::pairing(&c1_1, &c2_3),
            GT::pairing(&c1_1, &c2_4),
            GT::pairing(&c1_2, &c2_3),
            GT::pairing(&c1_2, &c2_4),
        ),
    )
}

/// Searches the exponents below `bound` in order for the discrete logarithm
/// of `p` or of its inverse to the base `base`.
pub fn find_dlog(base: GT, p: GT, bound: Scalar) -> (r: Result<Scalar, Error>)
    ensures
        match r {
            Ok(x) => bounded_dlog(base@, p@, bound@) == Some(x@) && x.wf(),
            Err(e) => e == Error::DLogNotFound && bounded_dlog(base@, p@, bound@).is_none(),
        },
{
    let one = Scalar::from_u64(1);
    let minus_p = p.negated();
    let mut i = Scalar::from_u64(0);
    proof {
        use_type_invariant(&bound);
    }
    while i.less_than(&bound)
        invariant
            i@ <= bound@,
            bound@ < scalar_modulus(),
            one@ == 1,
            minus_p@ == gt_negation(p@),
            bounded_dlog(base@, p@, bound@) == dlog_from(base@, p@, i@, bound@),
        decreases bound@ - i@,
    {
        let power = base.scaled(&i);
        if power.same(&p) {
            return Ok(i);
        }
        if power.same(&minus_p) {
            return Ok(i.negated());
        }
        i = i.plus(&one);
    }
    Err(Error::DLogNotFound)
}

/// Decrypts a target-level ciphertext with the whole secret key.
pub fn decrypt(pp: PublicParameters, sk: SecretKey, ct: CiphertextT, bound: u64) -> (r: Result<
    Scalar,
    Error,
>)
    ensures
        match r {
            Ok(x) => bounded_dlog(
                pairing_value(pp.0@, pp.1@),
                decryption_target(sk, ct),
                bound as nat,
            ) == Some(x@),
            Err(e) => e == Error::DLogNotFound && bounded_dlog(
                pairing_value(pp.0@, pp.1@),
                decryption_target(sk, ct),
                bound as nat,
            ).is_none(),
        },
{
    let (s1, s2) = sk;
    let (c1, c2, c3, c4) = ct.0;
    let (g1, g2) = pp;
    let g_t = GT::pairing(&g1, &g2);
    let target = c1.scaled(&s1.times(&s2)).minus(&c2.scaled(&s1)).minus(&c3.scaled(&s2)).plus(&c4);
    find_dlog(g_t, target, Scalar::from_u64(bound))
}

/// Pairs the shares of two sharings position by position.
pub fn zip_shares(first: &Vec<(ShareId, Scalar)>, second: &Vec<(ShareId, Scalar)>) -> (r: Vec<
    SecretKeyShare,
>)
    ensures
        r@.len() == (if first@.len() <= second@.len() {
            first@.len()
        } else {
            second@.len()
        }),
        forall|i: int|
            0 <= i < r@.len() ==> #[trigger] r@[i] == (first@[i].0, first@[i].1, second@[i].1),
{
    let n: usize = if first.len() <= second.len() {
        first.len()
    } else {
        second.len()
    };
    let mut out: Vec<SecretKeyShare> = Vec::new();
    let mut i: usize = 0;
    while i < n
        invariant
            i <= n,
            n <= first@.len(),
            n <= second@.len(),
            out@.len() == i,
            forall|k: int|
                0 <= k < i ==> #[trigger] out@[k] == (first@[k].0, first@[k].1, second@[k].1),
        decreases n - i,
    {
        out.push((first[i].0, first[i].1, second[i].1));
        i = i + 1;
    }
    out
}

/// Whether a threshold and a number of shares can be dealt: the dealer
/// accepts them and the identifiers fit their type.
pub open spec fn shareable(threshold: usize, total: usize) -> bool {
    dealable(threshold as int, total as int) && total <= 0xffff
}

/// The values of the shares of the first secret scalar, in order.
pub open spec fn first_shares(keys: Seq<SecretKeyShare>) -> Seq<nat> {
    Seq::new(keys.len(), |i: int| keys[i].1@)
}

/// The values of the shares of the second secret scalar, in order.
pub open spec fn second_shares(keys: Seq<SecretKeyShare>) -> Seq<nat> {
    Seq::new(keys.len(), |i: int| keys[i].2@)
}

/// The identifiers of key shares, in order.
pub open spec fn key_ids(keys: Seq<SecretKeyShare>) -> Seq<ShareId> {
    Seq::new(keys.len(), |i: int| keys[i].0)
}

/// Shares both scalars of the secret key independently, `total` shares of
/// each with the given threshold, and pairs them by identifier. The shares
/// of each scalar are the values at 1 to `total` of one polynomial with
/// `threshold` coefficients whose constant term is that scalar.
pub fn share_sk(sk: SecretKey, threshold: usize, total: usize) -> (r: Result<
    Vec<SecretKeyShare>,
    Error,
>)
    ensures
        match r {
            Ok(shares) => shareable(threshold, total) && shares@.len() == total && (forall|i: int|
                0 <= i < total ==> (#[trigger] shares@[i]).0 == i + 1) && is_sharing_of(
                first_shares(shares@),
                sk.0@,
                threshold as nat,
            ) && is_sharing_of(second_shares(shares@), sk.1@, threshold as nat),
            Err(e) => e == Error::InvalidParameter && !shareable(threshold, total),
        },
{
    if threshold > 0xffff || total > 0xffff {
        return Err(Error::InvalidParameter);
    }
    let t: ShareId = threshold as ShareId;
    let n: ShareId = total as ShareId;
    let shares1 = match deal(&sk.0, t, n) {
        Ok(s) => s,
        Err(e) => {
            return Err(e);
        },
    };
    let shares2 = match deal(&sk.1, t, n) {
        Ok(s) => s,
        Err(e) => {
            return Err(e);
        },
    };
    let shares = zip_shares(&shares1, &shares2);
    assert(first_shares(shares@) =~= share_values(shares1@));
    assert(second_shares(shares@) =~= share_values(shares2@));
    Ok(shares)
}

/// The first-round partial decryption of a target-level ciphertext under a
/// key share.
pub fn partial_decrypt(pp: PublicParameters, sk: SecretKeyShare, ct: CiphertextT) -> (r:
    PartialDecryption)
    ensures
        r.0 == sk.0,
        r.1@ == gt_scale(ct.0.0@, sk.1@),
        r.2@ == gt_scale(ct.0.1@, sk.1@),
        r.3@ == gt_scale(ct.0.2@, sk.2@),
        r.4 == ct.0.3,
{
    let (c1, c2, c3, c4) = ct.0;
    let (id, s1, s2) = sk;
    (id, c1.scaled(&s1), c2.scaled(&s1), c3.scaled(&s2), c4)
}

/// Recombines elements of the target group that were scaled by the shares
/// of a secret: the result is the element scaled by the secret itself where
/// the identifiers are distinct and enough. Refused exactly where an
/// identifier is zero.
pub fn reconstruct_secret_in_exp(shares: &[ShareInExp]) -> (r: Result<GT, Error>)
    ensures
        match r {
            Ok(g) => ids_nonzero(share_ids(shares@)) && g@ == reconstruction(shares@) && g.wf(),
            Err(e) => e == Error::InvalidParameter && !ids_nonzero(share_ids(shares@)),
        },
{
    let n: usize = shares.len();
    let mut ids: Vec<ShareId> = Vec::new();
    let mut k: usize = 0;
    while k < n
        invariant
            k <= n,
            n == shares@.len(),
            ids@.len() == k,
            forall|j: int| 0 <= j < k ==> ids@[j] == shares@[j].0,
        decreases n - k,
    {
        ids.push(shares[k].0);
        k = k + 1;
    }
    assert(ids@ =~= share_ids(shares@));
    let basis = match lagrange_at_zero(&ids) {
        Ok(b) => b,
        Err(e) => {
            return Err(e);
        },
    };
    let mut acc = GT::identity();
    let mut i: usize = 0;
    while i < n
        invariant
            i <= n,
            n == shares@.len(),
            basis@.len() == n,
            ids@ == share_ids(shares@),
            forall|j: int| 0 <= j < n ==> (#[trigger] basis@[j])@ == lagrange_basis(ids@)[j],
            acc@ == weighted_sum(shares@, lagrange_basis(ids@), i as nat),
            acc.wf(),
        decreases n - i,
    {
        let term = shares[i].1.scaled(&basis[i]);
        acc = acc.plus(&term);
        i = i + 1;
    }
    Ok(acc)
}

/// Recombines first-round partial decryptions into the intermediate value.
/// The list must not be empty, all entries must carry the same unscaled
/// component, and the identifiers must be distinct and not zero. `bound` is
/// not used in this round.
pub fn intermediate_dec(pp: PublicParameters, pdecs: &[PartialDecryption], bound: u64) -> (r:
    Result<IntermediateDec, Error>)
    ensures
        match r {
            Ok(d) => round1_refusal(pdecs@).is_none() && (d.0@, d.1@) == intermediate_of(pdecs@),
            Err(e) => round1_refusal(pdecs@) == Some(e),
        },
{
    let n: usize = pdecs.len();
    if n == 0 {
        return Err(Error::BelowThreshold);
    }
    let c4 = pdecs[0].4;
    let mut ids: Vec<ShareId> = Vec::new();
    let mut first: Vec<ShareInExp> = Vec::new();
    let mut second: Vec<ShareInExp> = Vec::new();
    let mut third: Vec<ShareInExp> = Vec::new();
    let mut i: usize = 0;
    while i < n
        invariant
            i <= n,
            n == pdecs@.len(),
            n > 0,
            c4 == pdecs@[0].4,
            ids@.len() == i,
            first@.len() == i,
            second@.len() == i,
            third@.len() == i,
            forall|j: int| 0 <= j < i ==> (#[trigger] pdecs@[j]).4@ == pdecs@[0].4@,
            forall|j: int| 0 <= j < i ==> ids@[j] == pdecs@[j].0,
            forall|j: int| 0 <= j < i ==> first@[j] == (pdecs@[j].0, pdecs@[j].1),
            forall|j: int| 0 <= j < i ==> second@[j] == (pdecs@[j].0, pdecs@[j].2),
            forall|j: int| 0 <= j < i ==> third@[j] == (pdecs@[j].0, pdecs@[j].3),
        decreases n - i,
    {
        let pdec = pdecs[i];
        if !pdec.4.same(&c4) {
            return Err(Error::InconsistentShares);
        }
        ids.push(pdec.0);
        first.push((pdec.0, pdec.1));
        second.push((pdec.0, pdec.2));
        third.push((pdec.0, pdec.3));
        i = i + 1;
    }
    assert(ids@ =~= round1_ids(pdecs@));
    assert(first@ =~= round1_first(pdecs@));
    assert(second@ =~= round1_second(pdecs@));
    assert(third@ =~= round1_third(pdecs@));
    assert(share_ids(first@) =~= ids@);
    assert(share_ids(second@) =~= ids@);
    assert(share_ids(third@) =~= ids@);
    if !all_distinct(&ids) {
        return Err(Error::InvalidParameter);
    }
    let s1c1 = match reconstruct_secret_in_exp(first.as_slice()) {
        Ok(g) => g,
        Err(e) => {
            return Err(e);
        },
    };
    let c1s2 = match reconstruct_secret_in_exp(second.as_slice()) {
        Ok(g) => g,
        Err(e) => {
            return Err(e);
        },
    };
    let c3s2 = match reconstruct_secret_in_exp(third.as_slice()) {
        Ok(g) => g,
        Err(e) => {
            return Err(e);
        },
    };
    Ok((s1c1, c1s2.negated().minus(&c3s2).plus(&c4)))
}

/// The second-round partial decryption of an intermediate value under a key
/// share.
pub fn partial_decrypt2(pp: PublicParameters, sk: SecretKeyShare, pdec: IntermediateDec) -> (r:
    PartialDecryption2)
    ensures
        r.0 == sk.0,
        r.1@ == gt_scale(pdec.0@, sk.2@),
        r.2 == pdec.1,
{
    let (id, _s1, s2) = sk;
    let (s1c1, c) = pdec;
    (id, s1c1.scaled(&s2), c)
}

/// Recombines second-round partial decryptions and recovers the plaintext
/// by the bounded search. The list is held to what `intermediate_dec` asks
/// of its list.
pub fn final_decrypt(pp: PublicParameters, pdecs: &[PartialDecryption2], bound: u64) -> (r:
    Result<Scalar, Error>)
    ensures
        match r {
            Ok(x) => round2_refusal(pdecs@).is_none() && bounded_dlog(
                pairing_value(pp.0@, pp.1@),
                final_target(pdecs@),
                bound as nat,
            ) == Some(x@),
            Err(e) => match round2_refusal(pdecs@) {
                Some(refusal) => e == refusal,
                None => e == Error::DLogNotFound && bounded_dlog(
                    pairing_value(pp.0@, pp.1@),
                    final_target(pdecs@),
                    bound as nat,
                ).is_none(),
            },
        },
{
    let n: usize = pdecs.len();
    if n == 0 {
        return Err(Error::BelowThreshold);
    }
    let c = pdecs[0].2;
    let mut ids: Vec<ShareId> = Vec::new();
    let mut scaled: Vec<ShareInExp> = Vec::new();
    let mut i: usize = 0;
    while i < n
        invariant
            i <= n,
            n == pdecs@.len(),
            n > 0,
            c == pdecs@[0].2,
            ids@.len() == i,
            scaled@.len() == i,
            forall|j: int| 0 <= j < i ==> (#[trigger] pdecs@[j]).2@ == pdecs@[0].2@,
            forall|j: int| 0 <= j < i ==> ids@[j] == pdecs@[j].0,
            forall|j: int| 0 <= j < i ==> scaled@[j] == (pdecs@[j].0, pdecs@[j].1),
        decreases n - i,
    {
        let pdec = pdecs[i];
        if !pdec.2.same(&c) {
            return Err(Error::InconsistentShares);
        }
        ids.push(pdec.0);
        scaled.push((pdec.0, pdec.1));
        i = i + 1;
    }
    assert(ids@ =~= round2_ids(pdecs@));
    assert(scaled@ =~= round2_scaled(pdecs@));
    assert(share_ids(scaled@) =~= ids@);
    if !all_distinct(&ids) {
        return Err(Error::InvalidParameter);
    }
    let s1s2c1 = match reconstruct_secret_in_exp(scaled.as_slice()) {
        Ok(g) => g,
        Err(e) => {
            return Err(e);
        },
    };
    let g_t = GT::pairing(&pp.0, &pp.1);
    find_dlog(g_t, s1s2c1.plus(&c), Scalar::from_u64(bound))
}

} // verus!
