use aid_distribution_with_assessments::error::Error;
use aid_distribution_with_assessments::g1::G1;
use aid_distribution_with_assessments::helper::fold_sum;
use aid_distribution_with_assessments::scalar::Scalar;
use aid_distribution_with_assessments::thelgamal::{
    add, bytes_to_ctxt, ctxt_to_bytes, decrypt, encrypt, encrypt_with, final_decrypt, find_dlog,
    keygen, paramgen, partial_decrypt, rand_invertible, reconstruct_secret_in_exp, share_sk,
    Ciphertext, PartialDecryption,
};

#[test]
fn thelgamal_test_enc_dec() {
    let pp = paramgen();

    let (sk, pk) = keygen(pp).unwrap();

    let msg = Scalar::from_u64(3);
    let ct0 = encrypt(pp, pk, msg);
    let ct1 = encrypt(pp, pk, msg);
    let ct2 = add(pp, ct0, ct1);
    let pt = decrypt(pp, sk, ct2, 1 << 4).unwrap();
    assert_eq!(msg.plus(&msg), pt);
}

#[test]
fn thelgamal_test_enc_distributeddec() {
    let pp = paramgen();

    let (sk, pk) = keygen(pp).unwrap();
    let sks = share_sk(sk, 3, 5).unwrap();

    let msg = Scalar::from_u64(3);
    let ct0 = encrypt(pp, pk, msg);
    let ct1 = encrypt(pp, pk, msg);
    let ct2 = add(pp, ct0, ct1);

    let pdecs = sks
        .iter()
        .map(|sk| partial_decrypt(pp, *sk, ct2))
        .collect::<Vec<_>>();

    let recombined = reconstruct_secret_in_exp(pdecs.as_slice()).unwrap();
    assert_eq!(recombined, ct2.1.scaled(&sk));
    let pt = final_decrypt(pp, ct2, &pdecs, 1 << 4);
    assert_eq!(pt, find_dlog(G1::generator(), ct2.1.minus(&recombined), Scalar::from_u64(1 << 4)));
}

#[test]
fn decryption_finds_the_plaintext_below_the_bound() {
    let pp = paramgen();
    let (sk, pk) = keygen(pp).unwrap();
    for m in [0u64, 1, 15] {
        let ct = encrypt(pp, pk, Scalar::from_u64(m));
        assert_eq!(decrypt(pp, sk, ct, 16), Ok(Scalar::from_u64(m)));
    }
    let ct = encrypt(pp, pk, Scalar::from_u64(16));
    assert_eq!(decrypt(pp, sk, ct, 16), Err(Error::DLogNotFound));
    let ct = encrypt(pp, pk, Scalar::from_u64(4).negated());
    assert_eq!(decrypt(pp, sk, ct, 16), Ok(Scalar::from_u64(4).negated()));
    let ct = encrypt(pp, pk, Scalar::from_u64(1));
    assert_eq!(decrypt(pp, sk, ct, 0), Err(Error::DLogNotFound));
}

#[test]
fn encryption_is_what_the_formula_says() {
    let pp = paramgen();
    let (_sk, pk) = keygen(pp).unwrap();
    let m = Scalar::from_u64(6);
    let r = Scalar::from_u64(1234);
    let ct = encrypt_with(pp, pk, m, r);
    assert_eq!(ct.0, pp.scaled(&r));
    assert_eq!(ct.1, G1::generator().scaled(&m).plus(&pk.scaled(&r)));
    assert_ne!(ct, encrypt(pp, pk, m));
}

#[test]
fn key_generation_gives_the_public_key_of_the_secret() {
    let pp = paramgen();
    let (sk, pk) = keygen(pp).unwrap();
    assert!(!sk.is_zero());
    assert_eq!(pk, pp.scaled(&sk));
    assert!(!rand_invertible().unwrap().is_zero());
}

#[test]
fn ciphertexts_add_component_by_component() {
    let pp = paramgen();
    let (_sk, pk) = keygen(pp).unwrap();
    let a = encrypt(pp, pk, Scalar::from_u64(1));
    let b = encrypt(pp, pk, Scalar::from_u64(2));
    let sum = add(pp, a, b);
    assert_eq!(sum.0, a.0.plus(&b.0));
    assert_eq!(sum.1, a.1.plus(&b.1));
}

#[test]
fn fold_of_many_bits_decrypts_to_their_number() {
    let pp = paramgen();
    let (sk, pk) = keygen(pp).unwrap();
    let ctxts: Vec<Ciphertext> = (0..90).map(|_| encrypt(pp, pk, Scalar::from_u64(1))).collect();
    let sum = fold_sum(&ctxts);
    assert_eq!(decrypt(pp, sk, sum, 100), Ok(Scalar::from_u64(90)));
    assert_eq!(fold_sum(&Vec::new()), Ciphertext(G1::identity(), G1::identity()));
}

#[test]
fn every_three_of_five_shares_recombine_to_the_same_element() {
    let pp = paramgen();
    let (sk, pk) = keygen(pp).unwrap();
    let sks = share_sk(sk, 3, 5).unwrap();
    let ct = encrypt(pp, pk, Scalar::from_u64(2));
    let expected = ct.1.scaled(&sk);
    for a in 0..5 {
        for b in (a + 1)..5 {
            for c in (b + 1)..5 {
                let pdecs: Vec<PartialDecryption> =
                    [sks[a], sks[b], sks[c]].iter().map(|s| partial_decrypt(pp, *s, ct)).collect();
                assert_eq!(reconstruct_secret_in_exp(&pdecs), Ok(expected));
            }
        }
    }
    let two: Vec<PartialDecryption> =
        [sks[0], sks[1]].iter().map(|s| partial_decrypt(pp, *s, ct)).collect();
    assert_ne!(reconstruct_secret_in_exp(&two), Ok(expected));
}

#[test]
fn threshold_decryption_refuses_bad_lists() {
    let pp = paramgen();
    let (sk, pk) = keygen(pp).unwrap();
    let sks = share_sk(sk, 2, 3).unwrap();
    let ct = encrypt(pp, pk, Scalar::from_u64(2));
    assert_eq!(final_decrypt(pp, ct, &[], 16), Err(Error::BelowThreshold));
    let first = partial_decrypt(pp, sks[0], ct);
    assert_eq!(final_decrypt(pp, ct, &[first, first], 16), Err(Error::InvalidParameter));
    let zero_id: PartialDecryption = (0, first.1);
    assert_eq!(final_decrypt(pp, ct, &[first, zero_id], 16), Err(Error::InvalidParameter));
    assert_eq!(reconstruct_secret_in_exp(&[zero_id]), Err(Error::InvalidParameter));
    assert_eq!(reconstruct_secret_in_exp(&[]), Ok(G1::identity()));
}

#[test]
fn sharing_refuses_bad_thresholds() {
    let sk = Scalar::from_u64(5);
    assert_eq!(share_sk(sk, 0, 3), Err(Error::InvalidParameter));
    assert_eq!(share_sk(sk, 4, 3), Err(Error::InvalidParameter));
    assert_eq!(share_sk(sk, 1, 1), Err(Error::InvalidParameter));
    assert_eq!(share_sk(sk, 2, 70000), Err(Error::InvalidParameter));
    assert_eq!(share_sk(sk, 70000, 70001), Err(Error::InvalidParameter));
    let shares = share_sk(sk, 2, 3).unwrap();
    assert_eq!(shares.iter().map(|s| s.0).collect::<Vec<_>>(), vec![1, 2, 3]);
}

#[test]
fn ciphertext_bytes_round_trip() {
    let pp = paramgen();
    let (_sk, pk) = keygen(pp).unwrap();
    let ct = encrypt(pp, pk, Scalar::from_u64(1));
    let bytes = ctxt_to_bytes(&ct);
    assert_eq!(bytes.len(), 96);
    assert_eq!(&bytes[..48], &ct.0.to_bytes()[..]);
    assert_eq!(&bytes[48..], &ct.1.to_bytes()[..]);
    assert_eq!(bytes_to_ctxt(&bytes), Ok(ct));
    assert_eq!(bytes_to_ctxt(&bytes[..95]), Err(Error::Deserialization));
    let mut longer = bytes.clone();
    longer.push(0);
    assert_eq!(bytes_to_ctxt(&longer), Err(Error::Deserialization));
    assert_eq!(bytes_to_ctxt(&[0u8; 96]), Err(Error::Deserialization));
}

#[test]
fn fold_of_nine_hundred_bits_decrypts_to_nine_hundred() {
    let pp = paramgen();
    let (sk, pk) = keygen(pp).unwrap();
    let one = Scalar::from_u64(1);
    let ctxts: Vec<Ciphertext> = (0..900).map(|_| encrypt(pp, pk, one)).collect();
    let sum = fold_sum(&ctxts);
    assert_eq!(decrypt(pp, sk, sum, 1000), Ok(Scalar::from_u64(900)));
}
