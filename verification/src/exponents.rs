//! The scheme read in exponents. The three groups have the prime order of
//! the scalar field, so every element has an exponent to a fixed base,
//! known up to multiples of that order. A reading assigns to each encoding
//! such an exponent: scaling multiplies it, adding adds it, and the pairing
//! multiplies the exponents of its arguments. The library calls the group
//! arithmetic and does not define it, so what is proved here is proved of
//! every reading, and says nothing where there is none. The premises are
//! spelled out in each statement: that the readings respect the operations
//! (`reads_g1`, `reads_g2`, `reads_gt`, `reads_pairing`), where needed that
//! the pairing of the bases generates the target group (`generates`) and
//! that every element has one encoding (`faithful`), and for threshold
//! decryption that the key shares of the committee recombine to the secret
//! scalars (`recombine_to`), which is the promise of Shamir's scheme: the
//! dealer states its polynomial and the Lagrange coefficients their
//! congruence, and the interpolation between the two is left as a premise.
//!
//! Under these premises: sums of ciphertexts read as encryptions of sums;
//! the decryption target of a product of two encryptions is the pairing of
//! the bases scaled by the product of the plaintexts, so that the bounded
//! search answers with that product and with nothing else; and the two
//! rounds of threshold decryption arrive at the target of direct
//! decryption, whichever committee runs them.

use crate::committee::{is_partial, is_partial2};
use crate::g1::{g1_scale, g1_sum};
use crate::g2::{g2_scale, g2_sum};
use crate::gt::{
    gt_difference, gt_identity_encoding, gt_negation, gt_scale, gt_sum, gt_wf, pairing_value,
};
use crate::scalar::scalar_modulus;
use crate::shamir::{lagrange_basis, ShareId};
use crate::thbgn::{
    answer_at, bounded_dlog, decryption_target, dlog_hit, encryption, first_hit, first_shares,
    key_ids, second_shares,
    lemma_search_answers_at_first_hit, final_target, intermediate_of, product_of, public_key_of,
    reconstruction, round1_first, round1_second, round1_third, round2_scaled, share_ids, sum_of,
    weighted_sum, Ciphertext1, CiphertextT, IntermediateDec, PartialDecryption,
    PartialDecryption2, PublicKey, PublicParameters, SecretKey, SecretKeyShare, ShareInExp,
};
use vstd::arithmetic::div_mod::{
    lemma_fundamental_div_mod, lemma_fundamental_div_mod_converse, lemma_mod_multiples_basic,
    lemma_small_mod,
};
use vstd::prelude::*;

verus! {

/// The order of the groups.
pub open spec fn order() -> int {
    scalar_modulus() as int
}

/// Whether two exponents differ by a multiple of the group order.
pub open spec fn cong(a: int, b: int) -> bool {
    (a - b) % order() == 0
}

/// Whether `l1` reads the encodings of the first source group in exponents.
pub open spec fn reads_g1(l1: spec_fn(Seq<u8>) -> int) -> bool {
    &&& forall|p: Seq<u8>, k: nat| cong(#[trigger] l1(g1_scale(p, k)), l1(p) * k)
    &&& forall|a: Seq<u8>, b: Seq<u8>| cong(#[trigger] l1(g1_sum(a, b)), l1(a) + l1(b))
}

/// Whether `l2` reads the encodings of the second source group in exponents.
pub open spec fn reads_g2(l2: spec_fn(Seq<u8>) -> int) -> bool {
    &&& forall|p: Seq<u8>, k: nat| cong(#[trigger] l2(g2_scale(p, k)), l2(p) * k)
    &&& forall|a: Seq<u8>, b: Seq<u8>| cong(#[trigger] l2(g2_sum(a, b)), l2(a) + l2(b))
}

/// Whether `lt` reads the encodings of the target group in exponents.
pub open spec fn reads_gt(lt: spec_fn(Seq<u8>) -> int) -> bool {
    &&& forall|x: Seq<u8>, k: nat| cong(#[trigger] lt(gt_scale(x, k)), lt(x) * k)
    &&& forall|a: Seq<u8>, b: Seq<u8>| cong(#[trigger] lt(gt_sum(a, b)), lt(a) + lt(b))
    &&& forall|a: Seq<u8>, b: Seq<u8>| cong(#[trigger] lt(gt_difference(a, b)), lt(a) - lt(b))
    &&& forall|a: Seq<u8>| cong(#[trigger] lt(gt_negation(a)), -lt(a))
    &&& cong(lt(gt_identity_encoding()), 0)
}

/// Whether the three readings agree with the pairing: it multiplies the
/// exponents of its arguments.
pub open spec fn reads_pairing(
    l1: spec_fn(Seq<u8>) -> int,
    l2: spec_fn(Seq<u8>) -> int,
    lt: spec_fn(Seq<u8>) -> int,
) -> bool {
    forall|p: Seq<u8>, q: Seq<u8>| cong(#[trigger] lt(pairing_value(p, q)), l1(p) * l2(q))
}

/// Exponents that differ by a multiple of the order are congruent.
pub proof fn lemma_cong_by_multiple(a: int, b: int, k: int)
    requires
        a - b == k * order(),
    ensures
        cong(a, b),
{
    lemma_mod_multiples_basic(k, order());
}

/// Congruent exponents differ by a multiple of the order.
pub proof fn lemma_cong_multiple(a: int, b: int) -> (k: int)
    requires
        cong(a, b),
    ensures
        a - b == k * order(),
{
    lemma_fundamental_div_mod(a - b, order());
    let k = (a - b) / order();
    assert(order() * k == k * order()) by (nonlinear_arith);
    k
}

/// Congruence is transitive.
pub proof fn lemma_cong_trans(a: int, b: int, c: int)
    requires
        cong(a, b),
        cong(b, c),
    ensures
        cong(a, c),
{
    let k1 = lemma_cong_multiple(a, b);
    let k2 = lemma_cong_multiple(b, c);
    assert(a - c == (k1 + k2) * order()) by (nonlinear_arith)
        requires
            a - b == k1 * order(),
            b - c == k2 * order(),
    ;
    lemma_cong_by_multiple(a, c, k1 + k2);
}

/// Congruence is symmetric.
pub proof fn lemma_cong_sym(a: int, b: int)
    requires
        cong(a, b),
    ensures
        cong(b, a),
{
    let k = lemma_cong_multiple(a, b);
    assert(b - a == (-k) * order()) by (nonlinear_arith)
        requires
            a - b == k * order(),
    ;
    lemma_cong_by_multiple(b, a, -k);
}

/// A number is congruent to its remainder by the order.
pub proof fn lemma_cong_reduced(x: int)
    ensures
        cong(x % order(), x),
{
    lemma_fundamental_div_mod(x, order());
    let q = x / order();
    assert(x % order() - x == (-q) * order()) by (nonlinear_arith)
        requires
            x == order() * q + x % order(),
    ;
    lemma_cong_by_multiple(x % order(), x, -q);
}

/// What is congruent to a sum of congruent parts.
pub proof fn lemma_cong_added(r: int, x: int, xn: int, y: int, yn: int)
    requires
        cong(r, x + y),
        cong(x, xn),
        cong(y, yn),
    ensures
        cong(r, xn + yn),
{
    let k0 = lemma_cong_multiple(r, x + y);
    let k1 = lemma_cong_multiple(x, xn);
    let k2 = lemma_cong_multiple(y, yn);
    assert(r - (xn + yn) == (k0 + k1 + k2) * order()) by (nonlinear_arith)
        requires
            r - (x + y) == k0 * order(),
            x - xn == k1 * order(),
            y - yn == k2 * order(),
    ;
    lemma_cong_by_multiple(r, xn + yn, k0 + k1 + k2);
}

/// What is congruent to a difference of congruent parts.
pub proof fn lemma_cong_subtracted(r: int, x: int, xn: int, y: int, yn: int)
    requires
        cong(r, x - y),
        cong(x, xn),
        cong(y, yn),
    ensures
        cong(r, xn - yn),
{
    let k0 = lemma_cong_multiple(r, x - y);
    let k1 = lemma_cong_multiple(x, xn);
    let k2 = lemma_cong_multiple(y, yn);
    assert(r - (xn - yn) == (k0 + k1 - k2) * order()) by (nonlinear_arith)
        requires
            r - (x - y) == k0 * order(),
            x - xn == k1 * order(),
            y - yn == k2 * order(),
    ;
    lemma_cong_by_multiple(r, xn - yn, k0 + k1 - k2);
}

/// What is congruent to a product of congruent factors.
pub proof fn lemma_cong_scaled(r: int, x: int, xn: int, y: int, yn: int)
    requires
        cong(r, x * y),
        cong(x, xn),
        cong(y, yn),
    ensures
        cong(r, xn * yn),
{
    let k0 = lemma_cong_multiple(r, x * y);
    let k1 = lemma_cong_multiple(x, xn);
    let k2 = lemma_cong_multiple(y, yn);
    assert(r - xn * yn == (k0 + k1 * y + xn * k2) * order()) by (nonlinear_arith)
        requires
            r - x * y == k0 * order(),
            x - xn == k1 * order(),
            y - yn == k2 * order(),
    ;
    lemma_cong_by_multiple(r, xn * yn, k0 + k1 * y + xn * k2);
}

/// What is congruent to the negative of a congruent part.
pub proof fn lemma_cong_negated(r: int, x: int, xn: int)
    requires
        cong(r, -x),
        cong(x, xn),
    ensures
        cong(r, -xn),
{
    let k0 = lemma_cong_multiple(r, -x);
    let k1 = lemma_cong_multiple(x, xn);
    assert(r - (-xn) == (k0 - k1) * order()) by (nonlinear_arith)
        requires
            r - (-x) == k0 * order(),
            x - xn == k1 * order(),
    ;
    lemma_cong_by_multiple(r, -xn, k0 - k1);
}

/// Every number is congruent to itself.
pub proof fn lemma_cong_refl(a: int)
    ensures
        cong(a, a),
{
    assert(a - a == 0 * order());
    lemma_cong_by_multiple(a, a, 0);
}

/// The exponents of the four components of an encryption, for bases with
/// the exponents `g1` and `g2` and a key `(s1, s2)`.
pub open spec fn encryption_exponents(
    g1: int,
    g2: int,
    s1: int,
    s2: int,
    m: int,
    rho: int,
    sigma: int,
) -> (int, int, int, int) {
    (g1 * rho, g1 * m + (g1 * s1) * rho, g2 * sigma, g2 * m + (g2 * s2) * sigma)
}

/// The level-1 decryption equation in exponents: in each source group, the
/// second component of an encryption minus the first scaled by the secret
/// scalar is the plaintext times the exponent of the base.
pub proof fn lemma_level_1_equation(
    g1: int,
    g2: int,
    s1: int,
    s2: int,
    m: int,
    rho: int,
    sigma: int,
)
    ensures
        ({
            let e = encryption_exponents(g1, g2, s1, s2, m, rho, sigma);
            e.1 - e.0 * s1 == g1 * m && e.3 - e.2 * s2 == g2 * m
        }),
{
    assert((g1 * s1) * rho == (g1 * rho) * s1) by (nonlinear_arith);
    assert((g2 * s2) * sigma == (g2 * sigma) * s2) by (nonlinear_arith);
}

/// Whether the components of `ct` read as the exponents `e`.
pub open spec fn reads_as(
    l1: spec_fn(Seq<u8>) -> int,
    l2: spec_fn(Seq<u8>) -> int,
    ct: (Seq<u8>, Seq<u8>, Seq<u8>, Seq<u8>),
    e: (int, int, int, int),
) -> bool {
    cong(l1(ct.0), e.0) && cong(l1(ct.1), e.1) && cong(l2(ct.2), e.2) && cong(l2(ct.3), e.3)
}

/// An encryption reads as the exponents of its formula.
pub proof fn lemma_encryption_reads(
    l1: spec_fn(Seq<u8>) -> int,
    l2: spec_fn(Seq<u8>) -> int,
    pp: PublicParameters,
    sk: SecretKey,
    pk: PublicKey,
    m: nat,
    rho: nat,
    sigma: nat,
)
    requires
        reads_g1(l1),
        reads_g2(l2),
        (pk.0@, pk.1@) == public_key_of(pp, sk),
    ensures
        reads_as(
            l1,
            l2,
            encryption(pp, pk, m, rho, sigma),
            encryption_exponents(
                l1(pp.0@),
                l2(pp.1@),
                sk.0@ as int,
                sk.1@ as int,
                m as int,
                rho as int,
                sigma as int,
            ),
        ),
{
    let ct = encryption(pp, pk, m, rho, sigma);
    let g1 = l1(pp.0@);
    let g2 = l2(pp.1@);
    let h1 = l1(pk.0@);
    let h2 = l2(pk.1@);
    assert(cong(h1, g1 * sk.0@));
    assert(cong(h2, g2 * sk.1@));
    assert(cong(l1(ct.0), g1 * rho));
    assert(cong(l2(ct.2), g2 * sigma));
    let x1 = g1_scale(pp.0@, m);
    let y1 = g1_scale(pk.0@, rho);
    assert(cong(l1(x1), g1 * m));
    assert(cong(l1(y1), h1 * rho));
    lemma_cong_refl(rho as int);
    lemma_cong_scaled(l1(y1), h1, g1 * sk.0@, rho as int, rho as int);
    assert(cong(l1(ct.1), l1(x1) + l1(y1)));
    lemma_cong_added(l1(ct.1), l1(x1), g1 * m, l1(y1), (g1 * sk.0@) * rho);
    let x2 = g2_scale(pp.1@, m);
    let y2 = g2_scale(pk.1@, sigma);
    assert(cong(l2(x2), g2 * m));
    assert(cong(l2(y2), h2 * sigma));
    lemma_cong_refl(sigma as int);
    lemma_cong_scaled(l2(y2), h2, g2 * sk.1@, sigma as int, sigma as int);
    assert(cong(l2(ct.3), l2(x2) + l2(y2)));
    lemma_cong_added(l2(ct.3), l2(x2), g2 * m, l2(y2), (g2 * sk.1@) * sigma);
}

/// Additive homomorphism, read in exponents: the sum of an encryption of
/// `m1` and an encryption of `m2` reads as an encryption of `m1 + m2` with
/// the sums of the two randomnesses.
pub proof fn lemma_sum_reads_as_encryption_of_sum(
    l1: spec_fn(Seq<u8>) -> int,
    l2: spec_fn(Seq<u8>) -> int,
    pp: PublicParameters,
    sk: SecretKey,
    pk: PublicKey,
    ct1: Ciphertext1,
    ct2: Ciphertext1,
    m1: nat,
    rho1: nat,
    sigma1: nat,
    m2: nat,
    rho2: nat,
    sigma2: nat,
)
    requires
        reads_g1(l1),
        reads_g2(l2),
        (pk.0@, pk.1@) == public_key_of(pp, sk),
        ct1@ == encryption(pp, pk, m1, rho1, sigma1),
        ct2@ == encryption(pp, pk, m2, rho2, sigma2),
    ensures
        reads_as(
            l1,
            l2,
            sum_of(ct1, ct2),
            encryption_exponents(
                l1(pp.0@),
                l2(pp.1@),
                sk.0@ as int,
                sk.1@ as int,
                (m1 + m2) as int,
                (rho1 + rho2) as int,
                (sigma1 + sigma2) as int,
            ),
        ),
{
    let g1 = l1(pp.0@);
    let g2 = l2(pp.1@);
    let s1 = sk.0@ as int;
    let s2 = sk.1@ as int;
    lemma_encryption_reads(l1, l2, pp, sk, pk, m1, rho1, sigma1);
    lemma_encryption_reads(l1, l2, pp, sk, pk, m2, rho2, sigma2);
    let e1 = encryption_exponents(g1, g2, s1, s2, m1 as int, rho1 as int, sigma1 as int);
    let e2 = encryption_exponents(g1, g2, s1, s2, m2 as int, rho2 as int, sigma2 as int);
    let e = encryption_exponents(
        g1,
        g2,
        s1,
        s2,
        (m1 + m2) as int,
        (rho1 + rho2) as int,
        (sigma1 + sigma2) as int,
    );
    let sum = sum_of(ct1, ct2);
    assert(cong(l1(sum.0), l1(ct1@.0) + l1(ct2@.0)));
    lemma_cong_added(l1(sum.0), l1(ct1@.0), e1.0, l1(ct2@.0), e2.0);
    assert(e1.0 + e2.0 == e.0) by (nonlinear_arith)
        requires
            e1.0 == g1 * rho1,
            e2.0 == g1 * rho2,
            e.0 == g1 * (rho1 + rho2),
    ;
    assert(cong(l1(sum.1), l1(ct1@.1) + l1(ct2@.1)));
    lemma_cong_added(l1(sum.1), l1(ct1@.1), e1.1, l1(ct2@.1), e2.1);
    assert(e1.1 + e2.1 == e.1) by (nonlinear_arith)
        requires
            e1.1 == g1 * m1 + (g1 * s1) * rho1,
            e2.1 == g1 * m2 + (g1 * s1) * rho2,
            e.1 == g1 * (m1 + m2) + (g1 * s1) * (rho1 + rho2),
    ;
    assert(cong(l2(sum.2), l2(ct1@.2) + l2(ct2@.2)));
    lemma_cong_added(l2(sum.2), l2(ct1@.2), e1.2, l2(ct2@.2), e2.2);
    assert(e1.2 + e2.2 == e.2) by (nonlinear_arith)
        requires
            e1.2 == g2 * sigma1,
            e2.2 == g2 * sigma2,
            e.2 == g2 * (sigma1 + sigma2),
    ;
    assert(cong(l2(sum.3), l2(ct1@.3) + l2(ct2@.3)));
    lemma_cong_added(l2(sum.3), l2(ct1@.3), e1.3, l2(ct2@.3), e2.3);
    assert(e1.3 + e2.3 == e.3) by (nonlinear_arith)
        requires
            e1.3 == g2 * m1 + (g2 * s2) * sigma1,
            e2.3 == g2 * m2 + (g2 * s2) * sigma2,
            e.3 == g2 * (m1 + m2) + (g2 * s2) * (sigma1 + sigma2),
    ;
}

/// A product of two products, regrouped.
proof fn lemma_regroup(a: int, b: int, c: int, d: int)
    ensures
        (a * b) * (c * d) == (a * c) * (b * d),
{
    assert((a * b) * (c * d) == (a * c) * (b * d)) by (nonlinear_arith);
}

/// A product of three factors, regrouped.
proof fn lemma_assoc(a: int, b: int, c: int)
    ensures
        (a * b) * c == a * (b * c),
        (a * b) * c == (a * c) * b,
{
    assert((a * b) * c == a * (b * c)) by (nonlinear_arith);
    assert((a * b) * c == (a * c) * b) by (nonlinear_arith);
}

/// The decryption equation in exponents: for the four pairings of two
/// encryptions, `t1 * (s1 * s2) - t2 * s1 - t3 * s2 + t4` is the product of
/// the plaintexts times the exponents of the two bases.
pub proof fn lemma_decryption_equation(
    g1: int,
    g2: int,
    s1: int,
    s2: int,
    m1: int,
    rho: int,
    m2: int,
    sigma: int,
)
    ensures
        ({
            let a1 = g1 * rho;
            let a2 = g1 * m1 + (g1 * s1) * rho;
            let b3 = g2 * sigma;
            let b4 = g2 * m2 + (g2 * s2) * sigma;
            (a1 * b3) * (s1 * s2) - (a1 * b4) * s1 - (a2 * b3) * s2 + a2 * b4 == (g1 * g2) * (m1
                * m2)
        }),
{
    let u = g1 * g2;
    let rs = rho * sigma;
    let p = rho * m2;
    let q = m1 * sigma;
    let m = m1 * m2;
    // The four factors of the components, each as a multiple of `u`.
    let x1 = g1 * rho;
    let x2 = g1 * m1;
    let x3 = (g1 * s1) * rho;
    let y1 = g2 * sigma;
    let y2 = g2 * m2;
    let y3 = (g2 * s2) * sigma;
    lemma_assoc(g1, s1, rho);
    lemma_assoc(g2, s2, sigma);
    assert(x3 == x1 * s1);
    assert(y3 == y1 * s2);
    lemma_regroup(g1, rho, g2, sigma);
    assert(x1 * y1 == u * rs);
    lemma_regroup(g1, rho, g2, m2);
    assert(x1 * y2 == u * p);
    lemma_regroup(g1, m1, g2, sigma);
    assert(x2 * y1 == u * q);
    lemma_regroup(g1, m1, g2, m2);
    assert(x2 * y2 == u * m);
    // Products with the scaled factors.
    lemma_assoc(x1, y1, s2);
    assert(x1 * y3 == (u * rs) * s2);
    lemma_assoc(x1, s1, y1);
    assert(x3 * y1 == (u * rs) * s1);
    lemma_assoc(x1, s1, y2);
    assert(x3 * y2 == (u * p) * s1);
    lemma_assoc(x2, y1, s2);
    assert(x2 * y3 == (u * q) * s2);
    lemma_regroup(x1, s1, y1, s2);
    assert(x3 * y3 == (u * rs) * (s1 * s2));
    let k = (u * rs) * (s1 * s2);
    lemma_assoc(u * rs, s1, s2);
    lemma_assoc(u * rs, s2, s1);
    assert(((u * rs) * s2) * s1 == k);
    assert(((u * rs) * s1) * s2 == k);
    let a1 = x1;
    let a2 = x2 + x3;
    let b3 = y1;
    let b4 = y2 + y3;
    assert(a1 * b4 == u * p + (u * rs) * s2) by (nonlinear_arith)
        requires
            b4 == y2 + y3,
            a1 * y2 == u * p,
            a1 * y3 == (u * rs) * s2,
    ;
    assert(a2 * b3 == u * q + (u * rs) * s1) by (nonlinear_arith)
        requires
            a2 == x2 + x3,
            x2 * b3 == u * q,
            x3 * b3 == (u * rs) * s1,
    ;
    assert(a2 * b4 == u * m + (u * q) * s2 + (u * p) * s1 + k) by (nonlinear_arith)
        requires
            a2 == x2 + x3,
            b4 == y2 + y3,
            x2 * y2 == u * m,
            x2 * y3 == (u * q) * s2,
            x3 * y2 == (u * p) * s1,
            x3 * y3 == k,
    ;
    assert((a1 * b4) * s1 == (u * p) * s1 + k) by (nonlinear_arith)
        requires
            a1 * b4 == u * p + (u * rs) * s2,
            ((u * rs) * s2) * s1 == k,
    ;
    assert((a2 * b3) * s2 == (u * q) * s2 + k) by (nonlinear_arith)
        requires
            a2 * b3 == u * q + (u * rs) * s1,
            ((u * rs) * s1) * s2 == k,
    ;
}

/// Multiplication, read in exponents: the decryption target of the product
/// of an encryption of `m1` and an encryption of `m2` reads as the pairing
/// of the two bases scaled by `m1 * m2`.
pub proof fn lemma_product_reads_as_product(
    l1: spec_fn(Seq<u8>) -> int,
    l2: spec_fn(Seq<u8>) -> int,
    lt: spec_fn(Seq<u8>) -> int,
    pp: PublicParameters,
    sk: SecretKey,
    pk: PublicKey,
    ct1: Ciphertext1,
    ct2: Ciphertext1,
    ct: CiphertextT,
    m1: nat,
    rho1: nat,
    sigma1: nat,
    m2: nat,
    rho2: nat,
    sigma2: nat,
)
    requires
        reads_g1(l1),
        reads_g2(l2),
        reads_gt(lt),
        reads_pairing(l1, l2, lt),
        (pk.0@, pk.1@) == public_key_of(pp, sk),
        ct1@ == encryption(pp, pk, m1, rho1, sigma1),
        ct2@ == encryption(pp, pk, m2, rho2, sigma2),
        ct@ == product_of(ct1, ct2),
    ensures
        cong(lt(decryption_target(sk, ct)), lt(pairing_value(pp.0@, pp.1@)) * (m1 * m2)),
{
    let g1 = l1(pp.0@);
    let g2 = l2(pp.1@);
    let s1 = sk.0@ as int;
    let s2 = sk.1@ as int;
    lemma_encryption_reads(l1, l2, pp, sk, pk, m1, rho1, sigma1);
    lemma_encryption_reads(l1, l2, pp, sk, pk, m2, rho2, sigma2);
    let a1 = g1 * rho1;
    let a2 = g1 * m1 + (g1 * s1) * rho1;
    let b3 = g2 * sigma2;
    let b4 = g2 * m2 + (g2 * s2) * sigma2;
    let c1 = ct.0.0@;
    let c2 = ct.0.1@;
    let c3 = ct.0.2@;
    let c4 = ct.0.3@;
    assert(cong(lt(c1), l1(ct1@.0) * l2(ct2@.2)));
    lemma_cong_scaled(lt(c1), l1(ct1@.0), a1, l2(ct2@.2), b3);
    assert(cong(lt(c2), l1(ct1@.0) * l2(ct2@.3)));
    lemma_cong_scaled(lt(c2), l1(ct1@.0), a1, l2(ct2@.3), b4);
    assert(cong(lt(c3), l1(ct1@.1) * l2(ct2@.2)));
    lemma_cong_scaled(lt(c3), l1(ct1@.1), a2, l2(ct2@.2), b3);
    assert(cong(lt(c4), l1(ct1@.1) * l2(ct2@.3)));
    lemma_cong_scaled(lt(c4), l1(ct1@.1), a2, l2(ct2@.3), b4);
    lemma_target_reads(lt, sk, ct, a1 * b3, a1 * b4, a2 * b3, a2 * b4);
    lemma_decryption_equation(g1, g2, s1, s2, m1 as int, rho1 as int, m2 as int, sigma2 as int);
    let base = lt(pairing_value(pp.0@, pp.1@));
    assert(cong(base, g1 * g2));
    lemma_cong_refl((m1 * m2) as int);
    lemma_cong_refl(base * (m1 * m2));
    lemma_cong_scaled(base * (m1 * m2), base, g1 * g2, (m1 * m2) as int, (m1 * m2) as int);
    lemma_cong_sym(base * (m1 * m2), (g1 * g2) * (m1 * m2));
    lemma_cong_trans(
        lt(decryption_target(sk, ct)),
        (g1 * g2) * (m1 * m2),
        base * (m1 * m2),
    );
}

/// The target of direct decryption reads as
/// `t1 * (s1 * s2) - t2 * s1 - t3 * s2 + t4`, where the components of the
/// ciphertext read as `t1`, `t2`, `t3`, `t4`.
pub proof fn lemma_target_reads(
    lt: spec_fn(Seq<u8>) -> int,
    sk: SecretKey,
    ct: CiphertextT,
    t1: int,
    t2: int,
    t3: int,
    t4: int,
)
    requires
        reads_gt(lt),
        cong(lt(ct.0.0@), t1),
        cong(lt(ct.0.1@), t2),
        cong(lt(ct.0.2@), t3),
        cong(lt(ct.0.3@), t4),
    ensures
        cong(
            lt(decryption_target(sk, ct)),
            t1 * (sk.0@ * sk.1@) - t2 * sk.0@ - t3 * sk.1@ + t4,
        ),
{
    let s1 = sk.0@ as int;
    let s2 = sk.1@ as int;
    let s12 = ((sk.0@ * sk.1@) % scalar_modulus()) as nat;
    let u1 = gt_scale(ct.0.0@, s12);
    let u2 = gt_scale(ct.0.1@, sk.0@);
    let u3 = gt_scale(ct.0.2@, sk.1@);
    let d1 = gt_difference(u1, u2);
    let d2 = gt_difference(d1, u3);
    assert(decryption_target(sk, ct) == gt_sum(d2, ct.0.3@));
    assert(cong(lt(u1), lt(ct.0.0@) * s12));
    lemma_cong_reduced(s1 * s2);
    assert(s12 as int == (s1 * s2) % order());
    lemma_cong_scaled(lt(u1), lt(ct.0.0@), t1, s12 as int, s1 * s2);
    assert(cong(lt(u2), lt(ct.0.1@) * sk.0@));
    lemma_cong_refl(s1);
    lemma_cong_scaled(lt(u2), lt(ct.0.1@), t2, s1, s1);
    assert(cong(lt(u3), lt(ct.0.2@) * sk.1@));
    lemma_cong_refl(s2);
    lemma_cong_scaled(lt(u3), lt(ct.0.2@), t3, s2, s2);
    assert(cong(lt(d1), lt(u1) - lt(u2)));
    lemma_cong_subtracted(lt(d1), lt(u1), t1 * (s1 * s2), lt(u2), t2 * s1);
    assert(cong(lt(d2), lt(d1) - lt(u3)));
    lemma_cong_subtracted(lt(d2), lt(d1), t1 * (s1 * s2) - t2 * s1, lt(u3), t3 * s2);
    assert(cong(lt(gt_sum(d2, ct.0.3@)), lt(d2) + lt(ct.0.3@)));
    lemma_cong_added(
        lt(gt_sum(d2, ct.0.3@)),
        lt(d2),
        t1 * (s1 * s2) - t2 * s1 - t3 * s2,
        lt(ct.0.3@),
        t4,
    );
}

/// Whether the lists of a committee recombine to what the shares stand for:
/// those of the first round to the first three components of the ciphertext
/// scaled by the secret scalars, with the fourth component handed on, and
/// that of the second round to the first component of the intermediate value
/// scaled by the second secret scalar, with the second component handed on.
pub open spec fn recombines(
    lt: spec_fn(Seq<u8>) -> int,
    sk: SecretKey,
    ct: CiphertextT,
    pdecs: Seq<PartialDecryption>,
    pdecs2: Seq<PartialDecryption2>,
) -> bool {
    &&& pdecs.len() > 0
    &&& pdecs[0].4@ == ct.0.3@
    &&& cong(lt(reconstruction(round1_first(pdecs))), lt(ct.0.0@) * sk.0@)
    &&& cong(lt(reconstruction(round1_second(pdecs))), lt(ct.0.1@) * sk.0@)
    &&& cong(lt(reconstruction(round1_third(pdecs))), lt(ct.0.2@) * sk.1@)
    &&& pdecs2.len() > 0
    &&& pdecs2[0].2@ == intermediate_of(pdecs).1
    &&& cong(lt(reconstruction(round2_scaled(pdecs2))), lt(intermediate_of(pdecs).0) * sk.1@)
}

/// Threshold decryption, read in exponents: where the lists of a committee
/// recombine to what the shares stand for, the target of the second round
/// reads as the target of direct decryption.
pub proof fn lemma_rounds_read_as_direct(
    lt: spec_fn(Seq<u8>) -> int,
    sk: SecretKey,
    ct: CiphertextT,
    pdecs: Seq<PartialDecryption>,
    pdecs2: Seq<PartialDecryption2>,
)
    requires
        reads_gt(lt),
        recombines(lt, sk, ct, pdecs, pdecs2),
    ensures
        cong(lt(final_target(pdecs2)), lt(decryption_target(sk, ct))),
{
    let s1 = sk.0@ as int;
    let s2 = sk.1@ as int;
    let t1 = lt(ct.0.0@);
    let t2 = lt(ct.0.1@);
    let t3 = lt(ct.0.2@);
    let t4 = lt(ct.0.3@);
    let r1 = reconstruction(round1_first(pdecs));
    let r2 = reconstruction(round1_second(pdecs));
    let r3 = reconstruction(round1_third(pdecs));
    let r4 = reconstruction(round2_scaled(pdecs2));
    let n2 = gt_negation(r2);
    let d = gt_difference(n2, r3);
    let c = gt_sum(d, pdecs[0].4@);
    assert(intermediate_of(pdecs) == (r1, c));
    assert(cong(lt(n2), -lt(r2)));
    lemma_cong_negated(lt(n2), lt(r2), t2 * s1);
    assert(cong(lt(d), lt(n2) - lt(r3)));
    lemma_cong_subtracted(lt(d), lt(n2), -(t2 * s1), lt(r3), t3 * s2);
    assert(cong(lt(c), lt(d) + lt(pdecs[0].4@)));
    lemma_cong_refl(t4);
    lemma_cong_added(lt(c), lt(d), -(t2 * s1) - t3 * s2, t4, t4);
    lemma_cong_refl(s2);
    lemma_cong_scaled(lt(r4), lt(r1), t1 * s1, s2, s2);
    assert(final_target(pdecs2) == gt_sum(r4, c));
    assert(cong(lt(gt_sum(r4, c)), lt(r4) + lt(c)));
    lemma_cong_added(lt(gt_sum(r4, c)), lt(r4), (t1 * s1) * s2, lt(c), -(t2 * s1) - t3 * s2 + t4);
    lemma_cong_refl(t1);
    lemma_cong_refl(t2);
    lemma_cong_refl(t3);
    lemma_target_reads(lt, sk, ct, t1, t2, t3, t4);
    assert((t1 * s1) * s2 + (-(t2 * s1) - t3 * s2 + t4) == t1 * (s1 * s2) - t2 * s1 - t3 * s2
        + t4) by (nonlinear_arith);
    lemma_cong_sym(lt(decryption_target(sk, ct)), t1 * (s1 * s2) - t2 * s1 - t3 * s2 + t4);
    lemma_cong_trans(
        lt(final_target(pdecs2)),
        t1 * (s1 * s2) - t2 * s1 - t3 * s2 + t4,
        lt(decryption_target(sk, ct)),
    );
}

/// The sum of the first `n` values, each times the weight at its position.
pub open spec fn dot(values: Seq<nat>, weights: Seq<nat>, n: nat) -> int
    decreases n,
{
    if n == 0 {
        0
    } else {
        dot(values, weights, (n - 1) as nat) + values[n - 1] * weights[n - 1]
    }
}

/// Whether shares with the given identifiers recombine to the secret: the
/// shares, each times the Lagrange coefficient at zero of its identifier,
/// add up to the secret modulo the order. For a sharing as `share_sk` states
/// it, and coefficients as `lagrange_at_zero` fixes them, this is Lagrange's
/// interpolation in the field of prime order, for enough shares with
/// distinct identifiers. That step is not proved here: it is a premise.
pub open spec fn recombine_to(ids: Seq<ShareId>, shares: Seq<nat>, secret: nat) -> bool {
    shares.len() == ids.len() && cong(dot(shares, lagrange_basis(ids), ids.len()), secret as int)
}

/// Recombination in the exponent: where each element is `x` scaled by a
/// value, their weighted sum reads as `x` scaled by the weighted sum of the
/// values.
pub proof fn lemma_weighted_sum_reads(
    lt: spec_fn(Seq<u8>) -> int,
    shares: Seq<ShareInExp>,
    x: Seq<u8>,
    values: Seq<nat>,
    weights: Seq<nat>,
    n: nat,
)
    requires
        reads_gt(lt),
        n <= shares.len(),
        n <= values.len(),
        forall|i: int| 0 <= i < n ==> (#[trigger] shares[i]).1@ == gt_scale(x, values[i]),
    ensures
        cong(lt(weighted_sum(shares, weights, n)), lt(x) * dot(values, weights, n)),
    decreases n,
{
    if n == 0 {
        assert(lt(x) * dot(values, weights, 0) == 0) by (nonlinear_arith)
            requires
                dot(values, weights, 0) == 0,
        ;
    } else {
        let m = (n - 1) as nat;
        lemma_weighted_sum_reads(lt, shares, x, values, weights, m);
        let front = weighted_sum(shares, weights, m);
        let v = values[n - 1];
        let w = weights[n - 1];
        let scaled = gt_scale(x, v);
        assert(shares[n - 1].1@ == scaled);
        let term = gt_scale(scaled, w);
        assert(weighted_sum(shares, weights, n) == gt_sum(front, term));
        assert(cong(lt(scaled), lt(x) * v));
        assert(cong(lt(term), lt(scaled) * w));
        lemma_cong_refl(w as int);
        lemma_cong_scaled(lt(term), lt(scaled), lt(x) * v, w as int, w as int);
        assert(cong(lt(gt_sum(front, term)), lt(front) + lt(term)));
        lemma_cong_added(
            lt(gt_sum(front, term)),
            lt(front),
            lt(x) * dot(values, weights, m),
            lt(term),
            (lt(x) * v) * w,
        );
        let d = dot(values, weights, m);
        assert(lt(x) * d + (lt(x) * v) * w == lt(x) * (d + v * w)) by (nonlinear_arith);
    }
}

/// Whether a committee with the key shares `keys` ran the two rounds on
/// `ct`: `pdecs` are their first-round partial decryptions, `idec` is what
/// the first round recombines to, and `pdecs2` are their second-round
/// partial decryptions of it.
pub open spec fn ran_rounds(
    keys: Seq<SecretKeyShare>,
    ct: CiphertextT,
    pdecs: Seq<PartialDecryption>,
    idec: IntermediateDec,
    pdecs2: Seq<PartialDecryption2>,
) -> bool {
    &&& keys.len() > 0
    &&& pdecs.len() == keys.len()
    &&& pdecs2.len() == keys.len()
    &&& forall|i: int| 0 <= i < keys.len() ==> is_partial(#[trigger] pdecs[i], keys[i], ct)
    &&& (idec.0@, idec.1@) == intermediate_of(pdecs)
    &&& forall|i: int| 0 <= i < keys.len() ==> is_partial2(#[trigger] pdecs2[i], keys[i], idec)
}

/// Threshold correctness, read in exponents: where the key shares of a
/// committee recombine to the two secret scalars, the target that its two
/// rounds arrive at reads as the target of direct decryption with the whole
/// key.
pub proof fn lemma_threshold_reads_as_direct(
    lt: spec_fn(Seq<u8>) -> int,
    sk: SecretKey,
    ct: CiphertextT,
    keys: Seq<SecretKeyShare>,
    pdecs: Seq<PartialDecryption>,
    idec: IntermediateDec,
    pdecs2: Seq<PartialDecryption2>,
)
    requires
        reads_gt(lt),
        ran_rounds(keys, ct, pdecs, idec, pdecs2),
        recombine_to(key_ids(keys), first_shares(keys), sk.0@),
        recombine_to(key_ids(keys), second_shares(keys), sk.1@),
    ensures
        cong(lt(final_target(pdecs2)), lt(decryption_target(sk, ct))),
{
    let n = keys.len();
    let ids = key_ids(keys);
    let basis = lagrange_basis(ids);
    let v1 = first_shares(keys);
    let v2 = second_shares(keys);
    let s1 = sk.0@ as int;
    let s2 = sk.1@ as int;
    assert(share_ids(round1_first(pdecs)) =~= ids);
    assert(share_ids(round1_second(pdecs)) =~= ids);
    assert(share_ids(round1_third(pdecs)) =~= ids);
    assert(share_ids(round2_scaled(pdecs2)) =~= ids);
    lemma_weighted_sum_reads(lt, round1_first(pdecs), ct.0.0@, v1, basis, n);
    lemma_cong_refl(lt(ct.0.0@));
    lemma_cong_scaled(
        lt(reconstruction(round1_first(pdecs))),
        lt(ct.0.0@),
        lt(ct.0.0@),
        dot(v1, basis, n),
        s1,
    );
    lemma_weighted_sum_reads(lt, round1_second(pdecs), ct.0.1@, v1, basis, n);
    lemma_cong_refl(lt(ct.0.1@));
    lemma_cong_scaled(
        lt(reconstruction(round1_second(pdecs))),
        lt(ct.0.1@),
        lt(ct.0.1@),
        dot(v1, basis, n),
        s1,
    );
    lemma_weighted_sum_reads(lt, round1_third(pdecs), ct.0.2@, v2, basis, n);
    lemma_cong_refl(lt(ct.0.2@));
    lemma_cong_scaled(
        lt(reconstruction(round1_third(pdecs))),
        lt(ct.0.2@),
        lt(ct.0.2@),
        dot(v2, basis, n),
        s2,
    );
    lemma_weighted_sum_reads(lt, round2_scaled(pdecs2), idec.0@, v2, basis, n);
    lemma_cong_refl(lt(idec.0@));
    lemma_cong_scaled(
        lt(reconstruction(round2_scaled(pdecs2))),
        lt(idec.0@),
        lt(idec.0@),
        dot(v2, basis, n),
        s2,
    );
    assert(is_partial(pdecs[0], keys[0], ct));
    assert(is_partial2(pdecs2[0], keys[0], idec));
    lemma_rounds_read_as_direct(lt, sk, ct, pdecs, pdecs2);
}

/// Threshold correctness: where every element has one encoding and the key
/// shares of a committee recombine to the two secret scalars, the two
/// rounds arrive at the very target of direct decryption with the whole key,
/// and so the bounded search answers the same for both.
pub proof fn lemma_threshold_equals_direct(
    lt: spec_fn(Seq<u8>) -> int,
    sk: SecretKey,
    ct: CiphertextT,
    keys: Seq<SecretKeyShare>,
    pdecs: Seq<PartialDecryption>,
    idec: IntermediateDec,
    pdecs2: Seq<PartialDecryption2>,
    base: Seq<u8>,
    bound: nat,
)
    requires
        reads_gt(lt),
        faithful(lt),
        ran_rounds(keys, ct, pdecs, idec, pdecs2),
        recombine_to(key_ids(keys), first_shares(keys), sk.0@),
        recombine_to(key_ids(keys), second_shares(keys), sk.1@),
        gt_wf(final_target(pdecs2)),
        gt_wf(decryption_target(sk, ct)),
    ensures
        final_target(pdecs2) == decryption_target(sk, ct),
        bounded_dlog(base, final_target(pdecs2), bound) == bounded_dlog(
            base,
            decryption_target(sk, ct),
            bound,
        ),
{
    lemma_threshold_reads_as_direct(lt, sk, ct, keys, pdecs, idec, pdecs2);
}

/// Subset independence, read in exponents: two committees whose key shares
/// recombine to the two secret scalars arrive at targets that read the
/// same.
pub proof fn lemma_committees_arrive_at_one_target(
    lt: spec_fn(Seq<u8>) -> int,
    sk: SecretKey,
    ct: CiphertextT,
    keys_a: Seq<SecretKeyShare>,
    pdecs_a: Seq<PartialDecryption>,
    idec_a: IntermediateDec,
    pdecs2_a: Seq<PartialDecryption2>,
    keys_b: Seq<SecretKeyShare>,
    pdecs_b: Seq<PartialDecryption>,
    idec_b: IntermediateDec,
    pdecs2_b: Seq<PartialDecryption2>,
)
    requires
        reads_gt(lt),
        ran_rounds(keys_a, ct, pdecs_a, idec_a, pdecs2_a),
        recombine_to(key_ids(keys_a), first_shares(keys_a), sk.0@),
        recombine_to(key_ids(keys_a), second_shares(keys_a), sk.1@),
        ran_rounds(keys_b, ct, pdecs_b, idec_b, pdecs2_b),
        recombine_to(key_ids(keys_b), first_shares(keys_b), sk.0@),
        recombine_to(key_ids(keys_b), second_shares(keys_b), sk.1@),
    ensures
        cong(lt(final_target(pdecs2_a)), lt(final_target(pdecs2_b))),
{
    lemma_threshold_reads_as_direct(lt, sk, ct, keys_a, pdecs_a, idec_a, pdecs2_a);
    lemma_threshold_reads_as_direct(lt, sk, ct, keys_b, pdecs_b, idec_b, pdecs2_b);
    lemma_cong_sym(lt(final_target(pdecs2_b)), lt(decryption_target(sk, ct)));
    lemma_cong_trans(
        lt(final_target(pdecs2_a)),
        lt(decryption_target(sk, ct)),
        lt(final_target(pdecs2_b)),
    );
}

/// The product of an exponent and a factor.
pub open spec fn times(a: int, k: int) -> int {
    a * k
}

/// Whether the element with the encoding `base` generates the group: no
/// multiple of its exponent vanishes but the multiples by multiples of the
/// order.
pub open spec fn generates(lt: spec_fn(Seq<u8>) -> int, base: Seq<u8>) -> bool {
    forall|k: int| cong(#[trigger] times(lt(base), k), 0) ==> cong(k, 0)
}

/// A reduced number that is congruent to `b` is the remainder of `b`.
pub proof fn lemma_cong_remainder(a: int, b: int)
    requires
        cong(a, b),
        0 <= a < order(),
    ensures
        a == b % order(),
{
    lemma_cong_sym(a, b);
    let k = lemma_cong_multiple(b, a);
    lemma_fundamental_div_mod_converse(b, order(), k, a);
}

/// The search is sound, read in exponents: where the base generates the
/// group and the target reads as the base scaled by `e`, an answer of the
/// search is `e` in the field.
pub proof fn lemma_search_is_sound(
    lt: spec_fn(Seq<u8>) -> int,
    base: Seq<u8>,
    target: Seq<u8>,
    e: int,
    bound: nat,
    x: nat,
)
    requires
        reads_gt(lt),
        generates(lt, base),
        cong(lt(target), lt(base) * e),
        bound <= scalar_modulus(),
        bounded_dlog(base, target, bound) == Some(x),
    ensures
        x == e % order(),
{
    lemma_search_answers_at_first_hit(base, target, 0, bound);
    let i = choose|i: nat| #[trigger]
        first_hit(base, target, 0, bound, i) && x == answer_at(base, target, i);
    let b = lt(base);
    let t = lt(target);
    let power = gt_scale(base, i);
    assert(cong(lt(power), b * i));
    lemma_cong_sym(lt(power), b * i);
    if power == target {
        lemma_cong_trans(b * i, t, b * e);
        let k = lemma_cong_multiple(b * i, b * e);
        assert(times(b, i - e) - 0 == k * order()) by (nonlinear_arith)
            requires
                b * i - b * e == k * order(),
                times(b, i - e) == b * (i - e),
        ;
        lemma_cong_by_multiple(times(b, i - e), 0, k);
        assert(cong(i - e, 0));
        assert(cong(i as int, e)) by {
            let j = lemma_cong_multiple(i - e, 0);
            lemma_cong_by_multiple(i as int, e, j);
        }
        lemma_cong_remainder(i as int, e);
    } else {
        assert(power == gt_negation(target));
        assert(cong(lt(gt_negation(target)), -t));
        lemma_cong_negated(lt(gt_negation(target)), t, b * e);
        lemma_cong_trans(b * i, lt(power), -(b * e));
        let k = lemma_cong_multiple(b * i, -(b * e));
        assert(times(b, i + e) - 0 == k * order()) by (nonlinear_arith)
            requires
                b * i - (-(b * e)) == k * order(),
                times(b, i + e) == b * (i + e),
        ;
        lemma_cong_by_multiple(times(b, i + e), 0, k);
        assert(cong(i + e, 0));
        let j = lemma_cong_multiple(i + e, 0);
        lemma_small_mod(i, scalar_modulus());
        let r = order();
        assert(x == (r - i) % r);
        lemma_cong_reduced(r - i);
        assert(cong(r - i, e)) by {
            assert((r - i) - e == (1 - j) * r) by (nonlinear_arith)
                requires
                    i + e - 0 == j * r,
            ;
            lemma_cong_by_multiple(r - i, e, 1 - j);
        }
        lemma_cong_trans(x as int, r - i, e);
        lemma_cong_remainder(x as int, e);
    }
}

/// Whether encodings of elements of the target group that read the same are
/// the same bytes: every element has one encoding.
pub open spec fn faithful(lt: spec_fn(Seq<u8>) -> int) -> bool {
    forall|a: Seq<u8>, b: Seq<u8>|
        gt_wf(a) && gt_wf(b) && cong(#[trigger] lt(a), #[trigger] lt(b)) ==> a == b
}

/// Whether the exponent `e` is `i` or its negative in the field.
pub open spec fn is_plus_or_minus(e: int, i: nat) -> bool {
    cong(e, i as int) || cong(e, -(i as int))
}

/// Whether the encodings that the search compares at the exponent `i` are
/// encodings of elements of the target group.
pub open spec fn compared_are_elements(base: Seq<u8>, target: Seq<u8>, i: nat) -> bool {
    gt_wf(target) && gt_wf(gt_negation(target)) && gt_wf(gt_scale(base, i))
}

/// The search is complete, read in exponents: where the base generates the
/// group, every element has one encoding, and the target reads as the base
/// scaled by an exponent that is below the bound or the negative of such a
/// one, the search answers with that exponent in the field.
pub proof fn lemma_search_is_complete(
    lt: spec_fn(Seq<u8>) -> int,
    base: Seq<u8>,
    target: Seq<u8>,
    e: int,
    i: nat,
    bound: nat,
)
    requires
        reads_gt(lt),
        generates(lt, base),
        faithful(lt),
        compared_are_elements(base, target, i),
        cong(lt(target), lt(base) * e),
        i < bound <= scalar_modulus(),
        is_plus_or_minus(e, i),
    ensures
        bounded_dlog(base, target, bound) == Some((e % order()) as nat),
{
    let b = lt(base);
    let power = gt_scale(base, i);
    assert(cong(lt(power), b * i));
    lemma_cong_refl(b);
    if cong(e, i as int) {
        lemma_cong_scaled(lt(target), b, b, e, i as int);
        lemma_cong_sym(lt(target), b * i);
        lemma_cong_trans(lt(power), b * i, lt(target));
        assert(power == target);
    } else {
        let minus = gt_negation(target);
        assert(cong(lt(minus), -lt(target)));
        lemma_cong_scaled(lt(target), b, b, e, -(i as int));
        lemma_cong_negated(lt(minus), lt(target), b * (-(i as int)));
        assert(-(b * (-(i as int))) == b * i) by (nonlinear_arith);
        lemma_cong_sym(lt(minus), b * i);
        lemma_cong_trans(lt(power), b * i, lt(minus));
        assert(power == minus);
    }
    assert(dlog_hit(base, target, i));
    lemma_search_answers_at_first_hit(base, target, 0, bound);
    let x = bounded_dlog(base, target, bound).unwrap();
    lemma_search_is_sound(lt, base, target, e, bound, x);
}

/// Direct decryption is sound, read in exponents: where the pairing of the
/// bases generates the target group, an answer of the search on the
/// decryption target of the product of an encryption of `m1` and an
/// encryption of `m2` is `m1 * m2` in the field.
pub proof fn lemma_decryption_is_sound(
    l1: spec_fn(Seq<u8>) -> int,
    l2: spec_fn(Seq<u8>) -> int,
    lt: spec_fn(Seq<u8>) -> int,
    pp: PublicParameters,
    sk: SecretKey,
    pk: PublicKey,
    ct1: Ciphertext1,
    ct2: Ciphertext1,
    ct: CiphertextT,
    m1: nat,
    rho1: nat,
    sigma1: nat,
    m2: nat,
    rho2: nat,
    sigma2: nat,
    bound: nat,
    x: nat,
)
    requires
        reads_g1(l1),
        reads_g2(l2),
        reads_gt(lt),
        reads_pairing(l1, l2, lt),
        generates(lt, pairing_value(pp.0@, pp.1@)),
        (pk.0@, pk.1@) == public_key_of(pp, sk),
        ct1@ == encryption(pp, pk, m1, rho1, sigma1),
        ct2@ == encryption(pp, pk, m2, rho2, sigma2),
        ct@ == product_of(ct1, ct2),
        bound <= scalar_modulus(),
        bounded_dlog(pairing_value(pp.0@, pp.1@), decryption_target(sk, ct), bound) == Some(x),
    ensures
        x == (m1 * m2) % scalar_modulus(),
{
    lemma_product_reads_as_product(
        l1,
        l2,
        lt,
        pp,
        sk,
        pk,
        ct1,
        ct2,
        ct,
        m1,
        rho1,
        sigma1,
        m2,
        rho2,
        sigma2,
    );
    lemma_search_is_sound(
        lt,
        pairing_value(pp.0@, pp.1@),
        decryption_target(sk, ct),
        (m1 * m2) as int,
        bound,
        x,
    );
}

/// Direct decryption finds the product, read in exponents: where the
/// pairing of the bases generates the target group, every element has one
/// encoding, and the product of the plaintexts is below the bound or the
/// negative of such a number, the search on the decryption target of the
/// product of the two encryptions answers with the product of the
/// plaintexts in the field.
pub proof fn lemma_decryption_finds_product(
    l1: spec_fn(Seq<u8>) -> int,
    l2: spec_fn(Seq<u8>) -> int,
    lt: spec_fn(Seq<u8>) -> int,
    pp: PublicParameters,
    sk: SecretKey,
    pk: PublicKey,
    ct1: Ciphertext1,
    ct2: Ciphertext1,
    ct: CiphertextT,
    m1: nat,
    rho1: nat,
    sigma1: nat,
    m2: nat,
    rho2: nat,
    sigma2: nat,
    i: nat,
    bound: nat,
)
    requires
        reads_g1(l1),
        reads_g2(l2),
        reads_gt(lt),
        reads_pairing(l1, l2, lt),
        generates(lt, pairing_value(pp.0@, pp.1@)),
        faithful(lt),
        (pk.0@, pk.1@) == public_key_of(pp, sk),
        ct1@ == encryption(pp, pk, m1, rho1, sigma1),
        ct2@ == encryption(pp, pk, m2, rho2, sigma2),
        ct@ == product_of(ct1, ct2),
        compared_are_elements(pairing_value(pp.0@, pp.1@), decryption_target(sk, ct), i),
        i < bound <= scalar_modulus(),
        is_plus_or_minus((m1 * m2) as int, i),
    ensures
        bounded_dlog(pairing_value(pp.0@, pp.1@), decryption_target(sk, ct), bound) == Some(
            (m1 * m2) % scalar_modulus(),
        ),
{
    lemma_product_reads_as_product(
        l1,
        l2,
        lt,
        pp,
        sk,
        pk,
        ct1,
        ct2,
        ct,
        m1,
        rho1,
        sigma1,
        m2,
        rho2,
        sigma2,
    );
    lemma_search_is_complete(
        lt,
        pairing_value(pp.0@, pp.1@),
        decryption_target(sk, ct),
        (m1 * m2) as int,
        i,
        bound,
    );
}

/// Threshold decryption is sound, read in exponents: where the pairing of
/// the bases generates the target group and the key shares of the
/// committee recombine to the two secret scalars, an answer of the search on
/// the target of the second round, for the product of an encryption of `m1`
/// and an encryption of `m2`, is `m1 * m2` in the field.
pub proof fn lemma_threshold_decryption_is_sound(
    l1: spec_fn(Seq<u8>) -> int,
    l2: spec_fn(Seq<u8>) -> int,
    lt: spec_fn(Seq<u8>) -> int,
    pp: PublicParameters,
    sk: SecretKey,
    pk: PublicKey,
    ct1: Ciphertext1,
    ct2: Ciphertext1,
    ct: CiphertextT,
    m1: nat,
    rho1: nat,
    sigma1: nat,
    m2: nat,
    rho2: nat,
    sigma2: nat,
    keys: Seq<SecretKeyShare>,
    pdecs: Seq<PartialDecryption>,
    idec: IntermediateDec,
    pdecs2: Seq<PartialDecryption2>,
    bound: nat,
    x: nat,
)
    requires
        reads_g1(l1),
        reads_g2(l2),
        reads_gt(lt),
        reads_pairing(l1, l2, lt),
        generates(lt, pairing_value(pp.0@, pp.1@)),
        (pk.0@, pk.1@) == public_key_of(pp, sk),
        ct1@ == encryption(pp, pk, m1, rho1, sigma1),
        ct2@ == encryption(pp, pk, m2, rho2, sigma2),
        ct@ == product_of(ct1, ct2),
        ran_rounds(keys, ct, pdecs, idec, pdecs2),
        recombine_to(key_ids(keys), first_shares(keys), sk.0@),
        recombine_to(key_ids(keys), second_shares(keys), sk.1@),
        bound <= scalar_modulus(),
        bounded_dlog(pairing_value(pp.0@, pp.1@), final_target(pdecs2), bound) == Some(x),
    ensures
        x == (m1 * m2) % scalar_modulus(),
{
    lemma_product_reads_as_product(
        l1,
        l2,
        lt,
        pp,
        sk,
        pk,
        ct1,
        ct2,
        ct,
        m1,
        rho1,
        sigma1,
        m2,
        rho2,
        sigma2,
    );
    lemma_threshold_reads_as_direct(lt, sk, ct, keys, pdecs, idec, pdecs2);
    lemma_cong_trans(
        lt(final_target(pdecs2)),
        lt(decryption_target(sk, ct)),
        lt(pairing_value(pp.0@, pp.1@)) * (m1 * m2),
    );
    lemma_search_is_sound(
        lt,
        pairing_value(pp.0@, pp.1@),
        final_target(pdecs2),
        (m1 * m2) as int,
        bound,
        x,
    );
}

} // verus!
