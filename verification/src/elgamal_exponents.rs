//! The single-level scheme read in exponents, on the premises and with the
//! congruences of `exponents`: a reading of the first source group assigns
//! to each encoding an exponent, known up to multiples of the group order,
//! that scaling multiplies and adding adds. Under that premise an
//! encryption hides its plaintext in the exponent of the generator, sums of
//! ciphertexts encrypt sums, and direct decryption answers with the
//! plaintext and with nothing else. What the single round of threshold
//! decryption arrives at is read as well.

use crate::exponents::{
    cong, dot, lemma_cong_added, lemma_cong_by_multiple, lemma_cong_multiple,
    lemma_cong_negated, lemma_cong_reduced, lemma_cong_refl, lemma_cong_remainder,
    lemma_cong_scaled, lemma_cong_subtracted, lemma_cong_sym, lemma_cong_trans, order,
    reads_g1, times,
};
use crate::g1::{
    g1_difference, g1_generator_encoding, g1_identity_encoding, g1_negation, g1_scale, g1_sum,
};
use crate::helper::folded;
use crate::scalar::scalar_modulus;
use crate::shamir::lagrange_basis;
use crate::thelgamal::{
    answer_at, bounded_dlog, decryption_target, encryption, final_target, first_hit,
    lemma_search_answers_at_first_hit, share_ids, sum_of, weighted_sum, Ciphertext,
    PartialDecryption, PublicKey, PublicParameters, SecretKey,
};
use vstd::arithmetic::div_mod::lemma_small_mod;
use vstd::prelude::*;

verus! {

/// Whether `l1` reads the encodings of the first source group in exponents,
/// subtraction, inversion and the neutral element included.
pub open spec fn reads_g1_fully(l1: spec_fn(Seq<u8>) -> int) -> bool {
    &&& reads_g1(l1)
    &&& forall|a: Seq<u8>, b: Seq<u8>| cong(#[trigger] l1(g1_difference(a, b)), l1(a) - l1(b))
    &&& forall|a: Seq<u8>| cong(#[trigger] l1(g1_negation(a)), -l1(a))
    &&& cong(l1(g1_identity_encoding()), 0)
}

/// Whether the element with the encoding `base` generates the group: no
/// multiple of its exponent vanishes but the multiples by multiples of the
/// order.
pub open spec fn generates_g1(l1: spec_fn(Seq<u8>) -> int, base: Seq<u8>) -> bool {
    forall|k: int| cong(#[trigger] times(l1(base), k), 0) ==> cong(k, 0)
}

/// An encryption reads as the exponents of its formula: `g * r` and
/// `G * m + (g * s) * r`, with `G` the exponent of the generator.
pub proof fn lemma_encryption_reads(
    l1: spec_fn(Seq<u8>) -> int,
    pp: PublicParameters,
    sk: SecretKey,
    pk: PublicKey,
    m: nat,
    r: nat,
)
    requires
        reads_g1(l1),
        pk@ == g1_scale(pp@, sk@),
    ensures
        cong(l1(encryption(pp, pk, m, r).0), l1(pp@) * r),
        cong(
            l1(encryption(pp, pk, m, r).1),
            l1(g1_generator_encoding()) * m + (l1(pp@) * sk@) * r,
        ),
{
    let ct = encryption(pp, pk, m, r);
    let g = l1(pp@);
    let h = l1(pk@);
    let x = g1_scale(g1_generator_encoding(), m);
    let y = g1_scale(pk@, r);
    assert(cong(h, g * sk@));
    assert(cong(l1(x), l1(g1_generator_encoding()) * m));
    assert(cong(l1(y), h * r));
    lemma_cong_refl(r as int);
    lemma_cong_scaled(l1(y), h, g * sk@, r as int, r as int);
    assert(cong(l1(ct.1), l1(x) + l1(y)));
    lemma_cong_added(l1(ct.1), l1(x), l1(g1_generator_encoding()) * m, l1(y), (g * sk@) * r);
}

/// The decryption target of an encryption of `m` reads as the generator
/// scaled by `m`.
pub proof fn lemma_target_reads_as_plaintext(
    l1: spec_fn(Seq<u8>) -> int,
    pp: PublicParameters,
    sk: SecretKey,
    pk: PublicKey,
    ct: Ciphertext,
    m: nat,
    r: nat,
)
    requires
        reads_g1_fully(l1),
        pk@ == g1_scale(pp@, sk@),
        ct@ == encryption(pp, pk, m, r),
    ensures
        cong(l1(decryption_target(sk, ct)), l1(g1_generator_encoding()) * m),
{
    lemma_encryption_reads(l1, pp, sk, pk, m, r);
    let g = l1(pp@);
    let big = l1(g1_generator_encoding());
    let s = sk@ as int;
    let scaled = g1_scale(ct.0@, sk@);
    assert(cong(l1(scaled), l1(ct.0@) * sk@));
    lemma_cong_refl(s);
    lemma_cong_scaled(l1(scaled), l1(ct.0@), g * r, s, s);
    assert(cong(l1(decryption_target(sk, ct)), l1(ct.1@) - l1(scaled)));
    lemma_cong_subtracted(
        l1(decryption_target(sk, ct)),
        l1(ct.1@),
        big * m + (g * s) * r,
        l1(scaled),
        (g * r) * s,
    );
    assert(big * m + (g * s) * r - (g * r) * s == big * m) by (nonlinear_arith);
}

/// Additive homomorphism, read in exponents: the sum of an encryption of
/// `m1` and an encryption of `m2` reads as an encryption of `m1 + m2` with
/// the sum of the two randomnesses.
pub proof fn lemma_sum_reads_as_encryption_of_sum(
    l1: spec_fn(Seq<u8>) -> int,
    pp: PublicParameters,
    sk: SecretKey,
    pk: PublicKey,
    ct1: Ciphertext,
    ct2: Ciphertext,
    m1: nat,
    r1: nat,
    m2: nat,
    r2: nat,
)
    requires
        reads_g1(l1),
        pk@ == g1_scale(pp@, sk@),
        ct1@ == encryption(pp, pk, m1, r1),
        ct2@ == encryption(pp, pk, m2, r2),
    ensures
        cong(l1(sum_of(ct1, ct2).0), l1(pp@) * (r1 + r2)),
        cong(
            l1(sum_of(ct1, ct2).1),
            l1(g1_generator_encoding()) * (m1 + m2) + (l1(pp@) * sk@) * (r1 + r2),
        ),
{
    lemma_encryption_reads(l1, pp, sk, pk, m1, r1);
    lemma_encryption_reads(l1, pp, sk, pk, m2, r2);
    let g = l1(pp@);
    let big = l1(g1_generator_encoding());
    let s = sk@ as int;
    let sum = sum_of(ct1, ct2);
    assert(cong(l1(sum.0), l1(ct1.0@) + l1(ct2.0@)));
    lemma_cong_added(l1(sum.0), l1(ct1.0@), g * r1, l1(ct2.0@), g * r2);
    assert(g * r1 + g * r2 == g * (r1 + r2)) by (nonlinear_arith);
    assert(cong(l1(sum.1), l1(ct1.1@) + l1(ct2.1@)));
    lemma_cong_added(
        l1(sum.1),
        l1(ct1.1@),
        big * m1 + (g * s) * r1,
        l1(ct2.1@),
        big * m2 + (g * s) * r2,
    );
    assert((big * m1 + (g * s) * r1) + (big * m2 + (g * s) * r2) == big * (m1 + m2) + (g * s)
        * (r1 + r2)) by (nonlinear_arith);
}

/// The sum of the first `n` numbers.
pub open spec fn total(values: Seq<nat>, n: nat) -> int
    decreases n,
{
    if n == 0 {
        0
    } else {
        total(values, (n - 1) as nat) + values[n - 1]
    }
}

/// The aggregate, read in exponents: the fold of encryptions of the
/// plaintexts `ms` with the randomnesses `rs` reads as an encryption of the
/// sum of the plaintexts with the sum of the randomnesses.
pub proof fn lemma_fold_reads_as_encryption_of_total(
    l1: spec_fn(Seq<u8>) -> int,
    pp: PublicParameters,
    sk: SecretKey,
    pk: PublicKey,
    ctxts: Seq<Ciphertext>,
    ms: Seq<nat>,
    rs: Seq<nat>,
    n: nat,
)
    requires
        reads_g1_fully(l1),
        pk@ == g1_scale(pp@, sk@),
        n <= ctxts.len(),
        n <= ms.len(),
        n <= rs.len(),
        forall|i: int| 0 <= i < n ==> (#[trigger] ctxts[i])@ == encryption(pp, pk, ms[i], rs[i]),
    ensures
        cong(l1(folded(ctxts, n).0), l1(pp@) * total(rs, n)),
        cong(
            l1(folded(ctxts, n).1),
            l1(g1_generator_encoding()) * total(ms, n) + (l1(pp@) * sk@) * total(rs, n),
        ),
    decreases n,
{
    let g = l1(pp@);
    let big = l1(g1_generator_encoding());
    let s = sk@ as int;
    if n == 0 {
        assert(g * total(rs, 0) == 0) by (nonlinear_arith)
            requires
                total(rs, 0) == 0,
        ;
        assert(big * total(ms, 0) + (g * s) * total(rs, 0) == 0) by (nonlinear_arith)
            requires
                total(ms, 0) == 0,
                total(rs, 0) == 0,
        ;
    } else {
        let k = (n - 1) as nat;
        lemma_fold_reads_as_encryption_of_total(l1, pp, sk, pk, ctxts, ms, rs, k);
        let ct = ctxts[n - 1];
        assert(ct@ == encryption(pp, pk, ms[n - 1], rs[n - 1]));
        lemma_encryption_reads(l1, pp, sk, pk, ms[n - 1], rs[n - 1]);
        let front = folded(ctxts, k);
        let now = folded(ctxts, n);
        assert(now.0 == g1_sum(front.0, ct.0@));
        assert(now.1 == g1_sum(front.1, ct.1@));
        let tr = total(rs, k);
        let tm = total(ms, k);
        let r = rs[n - 1] as int;
        let m = ms[n - 1] as int;
        assert(cong(l1(now.0), l1(front.0) + l1(ct.0@)));
        lemma_cong_added(l1(now.0), l1(front.0), g * tr, l1(ct.0@), g * r);
        assert(g * tr + g * r == g * (tr + r)) by (nonlinear_arith);
        assert(cong(l1(now.1), l1(front.1) + l1(ct.1@)));
        lemma_cong_added(
            l1(now.1),
            l1(front.1),
            big * tm + (g * s) * tr,
            l1(ct.1@),
            big * m + (g * s) * r,
        );
        assert((big * tm + (g * s) * tr) + (big * m + (g * s) * r) == big * (tm + m) + (g * s) * (tr
            + r)) by (nonlinear_arith);
    }
}

/// The search is sound, read in exponents: where the base generates the
/// group and the target reads as the base scaled by `e`, an answer of the
/// search is `e` in the field.
pub proof fn lemma_search_is_sound(
    l1: spec_fn(Seq<u8>) -> int,
    base: Seq<u8>,
    target: Seq<u8>,
    e: int,
    bound: nat,
    x: nat,
)
    requires
        reads_g1_fully(l1),
        generates_g1(l1, base),
        cong(l1(target), l1(base) * e),
        bound <= scalar_modulus(),
        bounded_dlog(base, target, bound) == Some(x),
    ensures
        x == e % order(),
{
    lemma_search_answers_at_first_hit(base, target, 0, bound);
    let i = choose|i: nat| #[trigger]
        first_hit(base, target, 0, bound, i) && x == answer_at(base, target, i);
    let b = l1(base);
    let t = l1(target);
    let power = g1_scale(base, i);
    assert(cong(l1(power), b * i));
    lemma_cong_sym(l1(power), b * i);
    if power == target {
        lemma_cong_trans(b * i, t, b * e);
        let k = lemma_cong_multiple(b * i, b * e);
        assert(times(b, i - e) - 0 == k * order()) by (nonlinear_arith)
            requires
                b * i - b * e == k * order(),
                times(b, i - e) == b * (i - e),
        ;
        lemma_cong_by_multiple(times(b, i - e), 0, k);
        assert(cong(i - e, 0));
        assert(cong(i as int, e)) by {
            let j = lemma_cong_multiple(i - e, 0);
            lemma_cong_by_multiple(i as int, e, j);
        }
        lemma_cong_remainder(i as int, e);
    } else {
        assert(power == g1_negation(target));
        assert(cong(l1(g1_negation(target)), -t));
        lemma_cong_negated(l1(g1_negation(target)), t, b * e);
        lemma_cong_trans(b * i, l1(power), -(b * e));
        let k = lemma_cong_multiple(b * i, -(b * e));
        assert(times(b, i + e) - 0 == k * order()) by (nonlinear_arith)
            requires
                b * i - (-(b * e)) == k * order(),
                times(b, i + e) == b * (i + e),
        ;
        lemma_cong_by_multiple(times(b, i + e), 0, k);
        assert(cong(i + e, 0));
        let j = lemma_cong_multiple(i + e, 0);
        lemma_small_mod(i, scalar_modulus());
        let r = order();
        assert(x == (r - i) % r);
        lemma_cong_reduced(r - i);
        assert(cong(r - i, e)) by {
            assert((r - i) - e == (1 - j) * r) by (nonlinear_arith)
                requires
                    i + e - 0 == j * r,
            ;
            lemma_cong_by_multiple(r - i, e, 1 - j);
        }
        lemma_cong_trans(x as int, r - i, e);
        lemma_cong_remainder(x as int, e);
    }
}

/// Direct decryption is sound, read in exponents: where the generator
/// generates the group, an answer of the search on the decryption target of
/// an encryption of `m` is `m` in the field.
pub proof fn lemma_decryption_is_sound(
    l1: spec_fn(Seq<u8>) -> int,
    pp: PublicParameters,
    sk: SecretKey,
    pk: PublicKey,
    ct: Ciphertext,
    m: nat,
    r: nat,
    bound: nat,
    x: nat,
)
    requires
        reads_g1_fully(l1),
        generates_g1(l1, g1_generator_encoding()),
        pk@ == g1_scale(pp@, sk@),
        ct@ == encryption(pp, pk, m, r),
        bound <= scalar_modulus(),
        bounded_dlog(g1_generator_encoding(), decryption_target(sk, ct), bound) == Some(x),
    ensures
        x == m % scalar_modulus(),
{
    lemma_target_reads_as_plaintext(l1, pp, sk, pk, ct, m, r);
    lemma_search_is_sound(
        l1,
        g1_generator_encoding(),
        decryption_target(sk, ct),
        m as int,
        bound,
        x,
    );
}

/// Recombination in the exponent: where each element is `x` scaled by a
/// value, their weighted sum reads as `x` scaled by the weighted sum of the
/// values.
pub proof fn lemma_weighted_sum_reads(
    l1: spec_fn(Seq<u8>) -> int,
    shares: Seq<PartialDecryption>,
    x: Seq<u8>,
    values: Seq<nat>,
    weights: Seq<nat>,
    n: nat,
)
    requires
        reads_g1_fully(l1),
        n <= shares.len(),
        n <= values.len(),
        forall|i: int| 0 <= i < n ==> (#[trigger] shares[i]).1@ == g1_scale(x, values[i]),
    ensures
        cong(l1(weighted_sum(shares, weights, n)), l1(x) * dot(values, weights, n)),
    decreases n,
{
    if n == 0 {
        assert(l1(x) * dot(values, weights, 0) == 0) by (nonlinear_arith)
            requires
                dot(values, weights, 0) == 0,
        ;
    } else {
        let m = (n - 1) as nat;
        lemma_weighted_sum_reads(l1, shares, x, values, weights, m);
        let front = weighted_sum(shares, weights, m);
        let v = values[n - 1];
        let w = weights[n - 1];
        let scaled = g1_scale(x, v);
        assert(shares[n - 1].1@ == scaled);
        let term = g1_scale(scaled, w);
        assert(weighted_sum(shares, weights, n) == g1_sum(front, term));
        assert(cong(l1(scaled), l1(x) * v));
        assert(cong(l1(term), l1(scaled) * w));
        lemma_cong_refl(w as int);
        lemma_cong_scaled(l1(term), l1(scaled), l1(x) * v, w as int, w as int);
        assert(cong(l1(g1_sum(front, term)), l1(front) + l1(term)));
        lemma_cong_added(
            l1(g1_sum(front, term)),
            l1(front),
            l1(x) * dot(values, weights, m),
            l1(term),
            (l1(x) * v) * w,
        );
        let d = dot(values, weights, m);
        assert(l1(x) * d + (l1(x) * v) * w == l1(x) * (d + v * w)) by (nonlinear_arith);
    }
}

/// What the single round of threshold decryption arrives at, read in
/// exponents: where the partial decryptions are the second component of the
/// ciphertext scaled by key shares that recombine to the secret scalar `s`,
/// the target of the round reads as that component minus itself scaled by
/// `s`.
pub proof fn lemma_round_target_reads(
    l1: spec_fn(Seq<u8>) -> int,
    sk: SecretKey,
    ct: Ciphertext,
    pdecs: Seq<PartialDecryption>,
    shares: Seq<nat>,
)
    requires
        reads_g1_fully(l1),
        shares.len() == pdecs.len(),
        forall|i: int|
            0 <= i < pdecs.len() ==> (#[trigger] pdecs[i]).1@ == g1_scale(ct.1@, shares[i]),
        cong(dot(shares, lagrange_basis(share_ids(pdecs)), pdecs.len()), sk@ as int),
    ensures
        cong(l1(final_target(ct, pdecs)), l1(ct.1@) - l1(ct.1@) * sk@),
{
    let basis = lagrange_basis(share_ids(pdecs));
    let n = pdecs.len();
    let recombined = weighted_sum(pdecs, basis, n);
    lemma_weighted_sum_reads(l1, pdecs, ct.1@, shares, basis, n);
    lemma_cong_refl(l1(ct.1@));
    lemma_cong_scaled(l1(recombined), l1(ct.1@), l1(ct.1@), dot(shares, basis, n), sk@ as int);
    assert(cong(l1(final_target(ct, pdecs)), l1(ct.1@) - l1(recombined)));
    lemma_cong_subtracted(
        l1(final_target(ct, pdecs)),
        l1(ct.1@),
        l1(ct.1@),
        l1(recombined),
        l1(ct.1@) * sk@,
    );
}

} // verus!
