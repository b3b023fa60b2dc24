use aid_distribution_with_assessments::error::Error;
use aid_distribution_with_assessments::scalar::Scalar;
use aid_distribution_with_assessments::gt::GT;
use aid_distribution_with_assessments::thbgn::{
    add, decrypt, encrypt, encrypt_with, final_decrypt, find_dlog, intermediate_dec, invertible,
    keygen, mul, paramgen, partial_decrypt, partial_decrypt2, public_key, rand_invertible,
    reconstruct_secret_in_exp, share_sk, zip_shares, PartialDecryption, PartialDecryption2,
    ShareInExp,
};

const PTXT: u64 = 3;
const BOUND: u64 = 1 << 4;

#[test]
fn thbgn_test_enc_dec() {
    let pp = paramgen();

    let (sk, pk) = keygen(pp).unwrap();

    let msg = Scalar::from_u64(PTXT);
    assert!(PTXT * PTXT <= BOUND);
    let ct0 = encrypt(pp, pk, msg);
    let ct1 = encrypt(pp, pk, msg);
    let ct2 = mul(pp, ct0, ct1);
    let pt = decrypt(pp, sk, ct2, BOUND).unwrap();
    assert_eq!(msg.times(&msg), pt);
}

#[test]
fn thbgn_test_enc_distributeddec() {
    let pp = paramgen();

    let (sk, pk) = keygen(pp).unwrap();
    let sks = share_sk(sk, 3, 5).unwrap();

    let msg = Scalar::from_u64(PTXT);
    assert!(PTXT * PTXT <= BOUND);
    let ct0 = encrypt(pp, pk, msg);
    let ct1 = encrypt(pp, pk, msg);
    let ct2 = mul(pp, ct0, ct1);

    let pdecs = sks
        .iter()
        .map(|sk| partial_decrypt(pp, *sk, ct2))
        .collect::<Vec<_>>();
    let inter = intermediate_dec(pp, pdecs.as_slice(), BOUND).unwrap();

    let pdecs2 = sks
        .iter()
        .map(|sk| partial_decrypt2(pp, *sk, inter))
        .collect::<Vec<_>>();

    let pt = final_decrypt(pp, &pdecs2, 1 << 4).unwrap();
    assert_eq!(msg.times(&msg), pt);
}

#[test]
fn product_of_three_by_three_is_nine() {
    let pp = paramgen();
    let (sk, pk) = keygen(pp).unwrap();
    let three = Scalar::from_u64(3);
    let ct = mul(pp, encrypt(pp, pk, three), encrypt(pp, pk, three));
    assert_eq!(decrypt(pp, sk, ct, 16), Ok(Scalar::from_u64(9)));
}

#[test]
fn every_three_of_five_shares_decrypt_to_nine() {
    let pp = paramgen();
    let (sk, pk) = keygen(pp).unwrap();
    let sks = share_sk(sk, 3, 5).unwrap();
    let three = Scalar::from_u64(3);
    let ct = mul(pp, encrypt(pp, pk, three), encrypt(pp, pk, three));
    for a in 0..5 {
        for b in (a + 1)..5 {
            for c in (b + 1)..5 {
                let subset = [sks[a], sks[b], sks[c]];
                let pdecs: Vec<PartialDecryption> =
                    subset.iter().map(|s| partial_decrypt(pp, *s, ct)).collect();
                let inter = intermediate_dec(pp, &pdecs, 16).unwrap();
                let pdecs2: Vec<PartialDecryption2> =
                    subset.iter().map(|s| partial_decrypt2(pp, *s, inter)).collect();
                assert_eq!(final_decrypt(pp, &pdecs2, 16), Ok(Scalar::from_u64(9)));
            }
        }
    }
}

#[test]
fn sum_of_ciphertexts_decrypts_to_sum_of_plaintexts() {
    let pp = paramgen();
    let (sk, pk) = keygen(pp).unwrap();
    let one = encrypt(pp, pk, Scalar::from_u64(1));
    let sum = add(pp, encrypt(pp, pk, Scalar::from_u64(2)), encrypt(pp, pk, Scalar::from_u64(5)));
    let ct = mul(pp, sum, one);
    assert_eq!(decrypt(pp, sk, ct, 16), Ok(Scalar::from_u64(7)));
}

#[test]
fn negative_plaintext_is_found_as_field_negation() {
    let pp = paramgen();
    let (sk, pk) = keygen(pp).unwrap();
    let minus_two = Scalar::from_u64(2).negated();
    let ct = mul(pp, encrypt(pp, pk, minus_two), encrypt(pp, pk, Scalar::from_u64(3)));
    assert_eq!(decrypt(pp, sk, ct, 16), Ok(Scalar::from_u64(6).negated()));
}

#[test]
fn plaintext_outside_the_bound_is_not_found() {
    let pp = paramgen();
    let (sk, pk) = keygen(pp).unwrap();
    let five = Scalar::from_u64(5);
    let ct = mul(pp, encrypt(pp, pk, five), encrypt(pp, pk, five));
    assert_eq!(decrypt(pp, sk, ct, 16), Err(Error::DLogNotFound));
    assert_eq!(decrypt(pp, sk, ct, 26), Ok(Scalar::from_u64(25)));
}

#[test]
fn encryption_with_given_randomness_is_repeatable() {
    let pp = paramgen();
    let (_sk, pk) = keygen(pp).unwrap();
    let m = Scalar::from_u64(4);
    let rho = Scalar::from_u64(11);
    let sigma = Scalar::from_u64(13);
    let a = encrypt_with(pp, pk, m, rho, sigma);
    let b = encrypt_with(pp, pk, m, rho, sigma);
    assert_eq!(a, b);
    assert_eq!(a.0 .0, pp.0.scaled(&rho));
    assert_eq!(a.0 .1, pp.0.scaled(&m).plus(&pk.0.scaled(&rho)));
    assert_eq!(a.0 .2, pp.1.scaled(&sigma));
    assert_eq!(a.0 .3, pp.1.scaled(&m).plus(&pk.1.scaled(&sigma)));
    assert_ne!(a, encrypt(pp, pk, m));
}

#[test]
fn encryption_round_trips_through_a_product_with_one() {
    let pp = paramgen();
    let (sk, pk) = keygen(pp).unwrap();
    let one = encrypt(pp, pk, Scalar::from_u64(1));
    for m in [0u64, 1, 2, 15] {
        let ct = mul(pp, encrypt(pp, pk, Scalar::from_u64(m)), one);
        assert_eq!(decrypt(pp, sk, ct, 16), Ok(Scalar::from_u64(m)));
    }
    let minus = Scalar::from_u64(15).negated();
    let ct = mul(pp, one, encrypt(pp, pk, minus));
    assert_eq!(decrypt(pp, sk, ct, 16), Ok(minus));
}

#[test]
fn fewer_shares_than_the_threshold_do_not_decrypt() {
    let pp = paramgen();
    let (sk, pk) = keygen(pp).unwrap();
    let sks = share_sk(sk, 3, 5).unwrap();
    let three = Scalar::from_u64(3);
    let ct = mul(pp, encrypt(pp, pk, three), encrypt(pp, pk, three));
    let subset = [sks[0], sks[3]];
    let pdecs: Vec<PartialDecryption> =
        subset.iter().map(|s| partial_decrypt(pp, *s, ct)).collect();
    let inter = intermediate_dec(pp, &pdecs, 16).unwrap();
    let pdecs2: Vec<PartialDecryption2> =
        subset.iter().map(|s| partial_decrypt2(pp, *s, inter)).collect();
    assert_ne!(final_decrypt(pp, &pdecs2, 16), Ok(Scalar::from_u64(9)));
}

#[test]
fn threshold_and_direct_decryption_share_their_target() {
    let pp = paramgen();
    let (sk, pk) = keygen(pp).unwrap();
    let sks = share_sk(sk, 2, 4).unwrap();
    let ct = mul(pp, encrypt(pp, pk, Scalar::from_u64(2)), encrypt(pp, pk, Scalar::from_u64(3)));
    let subset = [sks[3], sks[1]];
    let pdecs: Vec<PartialDecryption> =
        subset.iter().map(|s| partial_decrypt(pp, *s, ct)).collect();
    let inter = intermediate_dec(pp, &pdecs, 16).unwrap();
    let (c1, c2, c3, c4) = ct.0;
    assert_eq!(inter.0, c1.scaled(&sk.0));
    assert_eq!(inter.1, c2.scaled(&sk.0).negated().minus(&c3.scaled(&sk.1)).plus(&c4));
    let pdecs2: Vec<PartialDecryption2> =
        subset.iter().map(|s| partial_decrypt2(pp, *s, inter)).collect();
    let scaled: Vec<ShareInExp> = pdecs2.iter().map(|p| (p.0, p.1)).collect();
    let target = reconstruct_secret_in_exp(&scaled).unwrap().plus(&inter.1);
    let direct =
        c1.scaled(&sk.0.times(&sk.1)).minus(&c2.scaled(&sk.0)).minus(&c3.scaled(&sk.1)).plus(&c4);
    assert_eq!(target, direct);
    assert_eq!(target, GT::pairing(&pp.0, &pp.1).scaled(&Scalar::from_u64(6)));
    assert_eq!(final_decrypt(pp, &pdecs2, 16), decrypt(pp, sk, ct, 16));
}

#[test]
fn partial_decryptions_are_what_the_formulas_say() {
    let pp = paramgen();
    let (sk, pk) = keygen(pp).unwrap();
    let ct = mul(pp, encrypt(pp, pk, Scalar::from_u64(2)), encrypt(pp, pk, Scalar::from_u64(3)));
    let share = (7u16, Scalar::from_u64(11), Scalar::from_u64(13));
    let pdec = partial_decrypt(pp, share, ct);
    assert_eq!(pdec.0, 7);
    assert_eq!(pdec.1, ct.0 .0.scaled(&share.1));
    assert_eq!(pdec.2, ct.0 .1.scaled(&share.1));
    assert_eq!(pdec.3, ct.0 .2.scaled(&share.2));
    assert_eq!(pdec.4, ct.0 .3);
    let inter = (ct.0 .0, ct.0 .1);
    let pdec2 = partial_decrypt2(pp, share, inter);
    assert_eq!(pdec2, (7, ct.0 .0.scaled(&share.2), ct.0 .1));
}

#[test]
fn product_is_the_four_pairings() {
    let pp = paramgen();
    let (_sk, pk) = keygen(pp).unwrap();
    let a = encrypt(pp, pk, Scalar::from_u64(2));
    let b = encrypt(pp, pk, Scalar::from_u64(3));
    let ct = mul(pp, a, b);
    assert_eq!(ct.0 .0, GT::pairing(&a.0 .0, &b.0 .2));
    assert_eq!(ct.0 .1, GT::pairing(&a.0 .0, &b.0 .3));
    assert_eq!(ct.0 .2, GT::pairing(&a.0 .1, &b.0 .2));
    assert_eq!(ct.0 .3, GT::pairing(&a.0 .1, &b.0 .3));
    let sum = add(pp, a, b);
    assert_eq!(sum.0 .0, a.0 .0.plus(&b.0 .0));
    assert_eq!(sum.0 .1, a.0 .1.plus(&b.0 .1));
    assert_eq!(sum.0 .2, a.0 .2.plus(&b.0 .2));
    assert_eq!(sum.0 .3, a.0 .3.plus(&b.0 .3));
}

#[test]
fn search_answers_at_the_first_hit() {
    let pp = paramgen();
    let base = GT::pairing(&pp.0, &pp.1);
    let five = base.scaled(&Scalar::from_u64(5));
    assert_eq!(find_dlog(base, five, Scalar::from_u64(6)), Ok(Scalar::from_u64(5)));
    assert_eq!(find_dlog(base, five, Scalar::from_u64(5)), Err(Error::DLogNotFound));
    assert_eq!(find_dlog(base, five.negated(), Scalar::from_u64(6)), Ok(Scalar::from_u64(5).negated()));
    assert_eq!(find_dlog(base, GT::identity(), Scalar::from_u64(1)), Ok(Scalar::from_u64(0)));
    assert_eq!(find_dlog(base, GT::identity(), Scalar::from_u64(0)), Err(Error::DLogNotFound));
    assert_eq!(find_dlog(GT::identity(), five, Scalar::from_u64(8)), Err(Error::DLogNotFound));
    assert_eq!(find_dlog(GT::identity(), GT::identity(), Scalar::from_u64(8)), Ok(Scalar::from_u64(0)));
}

#[test]
fn recombination_weighs_by_lagrange_coefficients() {
    let pp = paramgen();
    let base = GT::pairing(&pp.0, &pp.1);
    let shares: Vec<ShareInExp> = vec![
        (1, base.scaled(&Scalar::from_u64(10))),
        (2, base.scaled(&Scalar::from_u64(13))),
    ];
    // The line through (1, 10) and (2, 13) meets zero at 7.
    assert_eq!(reconstruct_secret_in_exp(&shares), Ok(base.scaled(&Scalar::from_u64(7))));
    assert_eq!(reconstruct_secret_in_exp(&[]), Ok(GT::identity()));
    assert_eq!(reconstruct_secret_in_exp(&[(0, base)]), Err(Error::InvalidParameter));
    assert_eq!(reconstruct_secret_in_exp(&[(9, base)]), Ok(base));
}

#[test]
fn rounds_refuse_bad_lists() {
    let pp = paramgen();
    let (sk, pk) = keygen(pp).unwrap();
    let sks = share_sk(sk, 2, 3).unwrap();
    let ct = mul(pp, encrypt(pp, pk, Scalar::from_u64(2)), encrypt(pp, pk, Scalar::from_u64(3)));
    let good: Vec<PartialDecryption> = sks.iter().map(|s| partial_decrypt(pp, *s, ct)).collect();
    assert_eq!(intermediate_dec(pp, &[], 16), Err(Error::BelowThreshold));
    let mut disagreeing = good.clone();
    disagreeing[2].4 = disagreeing[2].1;
    assert_eq!(intermediate_dec(pp, &disagreeing, 16), Err(Error::InconsistentShares));
    let mut zero_id = good.clone();
    zero_id[1].0 = 0;
    assert_eq!(intermediate_dec(pp, &zero_id, 16), Err(Error::InvalidParameter));
    let mut repeated = good.clone();
    repeated[1].0 = repeated[0].0;
    assert_eq!(intermediate_dec(pp, &repeated, 16), Err(Error::InvalidParameter));
    disagreeing[1].0 = 0;
    assert_eq!(intermediate_dec(pp, &disagreeing, 16), Err(Error::InconsistentShares));

    let inter = intermediate_dec(pp, &good, 16).unwrap();
    let good2: Vec<PartialDecryption2> =
        sks.iter().map(|s| partial_decrypt2(pp, *s, inter)).collect();
    assert_eq!(final_decrypt(pp, &[], 16), Err(Error::BelowThreshold));
    let mut disagreeing2 = good2.clone();
    disagreeing2[1].2 = disagreeing2[1].1;
    assert_eq!(final_decrypt(pp, &disagreeing2, 16), Err(Error::InconsistentShares));
    let mut zero_id2 = good2.clone();
    zero_id2[0].0 = 0;
    assert_eq!(final_decrypt(pp, &zero_id2, 16), Err(Error::InvalidParameter));
    let mut repeated2 = good2.clone();
    repeated2[2].0 = repeated2[0].0;
    assert_eq!(final_decrypt(pp, &repeated2, 16), Err(Error::InvalidParameter));
    assert_eq!(final_decrypt(pp, &good2, 6), Err(Error::DLogNotFound));
    assert_eq!(final_decrypt(pp, &good2, 7), Ok(Scalar::from_u64(6)));
}

#[test]
fn key_sharing_refuses_bad_thresholds() {
    let sk = (Scalar::from_u64(5), Scalar::from_u64(6));
    assert_eq!(share_sk(sk, 0, 3), Err(Error::InvalidParameter));
    assert_eq!(share_sk(sk, 4, 3), Err(Error::InvalidParameter));
    assert_eq!(share_sk(sk, 1, 1), Err(Error::InvalidParameter));
    assert_eq!(share_sk(sk, 2, 65536), Err(Error::InvalidParameter));
    assert_eq!(share_sk(sk, 65537, 65538), Err(Error::InvalidParameter));
    let shares = share_sk(sk, 3, 5).unwrap();
    assert_eq!(shares.iter().map(|s| s.0).collect::<Vec<_>>(), vec![1, 2, 3, 4, 5]);
    assert_ne!(shares[0].1, shares[0].2);
}

#[test]
fn shares_are_paired_position_by_position() {
    let a = vec![(1u16, Scalar::from_u64(10)), (2, Scalar::from_u64(20))];
    let b = vec![
        (1u16, Scalar::from_u64(11)),
        (2, Scalar::from_u64(21)),
        (3, Scalar::from_u64(31)),
    ];
    assert_eq!(
        zip_shares(&a, &b),
        vec![
            (1, Scalar::from_u64(10), Scalar::from_u64(11)),
            (2, Scalar::from_u64(20), Scalar::from_u64(21)),
        ]
    );
    assert_eq!(zip_shares(&b, &Vec::new()), Vec::new());
}

#[test]
fn keys_are_invertible_and_match() {
    let pp = paramgen();
    let (sk, pk) = keygen(pp).unwrap();
    assert!(!sk.0.is_zero());
    assert!(!sk.1.is_zero());
    assert_ne!(sk.0, sk.1);
    assert_eq!(pk, public_key(pp, sk));
    assert_eq!(pk.0, pp.0.scaled(&sk.0));
    assert_eq!(pk.1, pp.1.scaled(&sk.1));
    assert!(!rand_invertible().unwrap().is_zero());
    assert_eq!(invertible(Scalar::from_u64(0)), None);
    assert_eq!(invertible(Scalar::from_u64(4)), Some(Scalar::from_u64(4)));
    assert_ne!(paramgen(), pp);
}

#[test]
fn aggregate_of_claims_decrypts_by_threshold_to_their_number() {
    let pp = paramgen();
    let (sk, pk) = keygen(pp).unwrap();
    let sks = share_sk(sk, 2, 3).unwrap();
    let mut sum = encrypt(pp, pk, Scalar::from_u64(1));
    for _ in 1..20 {
        sum = add(pp, sum, encrypt(pp, pk, Scalar::from_u64(1)));
    }
    let ct = mul(pp, sum, encrypt(pp, pk, Scalar::from_u64(1)));
    let subset = [sks[0], sks[2]];
    let pdecs: Vec<PartialDecryption> =
        subset.iter().map(|s| partial_decrypt(pp, *s, ct)).collect();
    let inter = intermediate_dec(pp, &pdecs, 32).unwrap();
    let pdecs2: Vec<PartialDecryption2> =
        subset.iter().map(|s| partial_decrypt2(pp, *s, inter)).collect();
    assert_eq!(final_decrypt(pp, &pdecs2, 32), Ok(Scalar::from_u64(20)));
    assert_eq!(decrypt(pp, sk, ct, 32), Ok(Scalar::from_u64(20)));
}
