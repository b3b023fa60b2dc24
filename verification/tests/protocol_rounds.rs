use aid_distribution_with_assessments::auditor::{auditor_hbc, auditor_mal};
use aid_distribution_with_assessments::committee::{
    partial_decrypt2_all, partial_decrypt_all, recipient_2, recipient_2_single,
};
use aid_distribution_with_assessments::envelope::{
    open, open_as_auditor, open_as_helper, period_ad, seal, seal_for_auditor, seal_for_helper,
    settle_opening, settle_sealing,
};
use aid_distribution_with_assessments::error::Error;
use aid_distribution_with_assessments::codec::ctxts_1_to_bytes;
use aid_distribution_with_assessments::helper::{
    decide_audited, evaluate_products, fold_sum, helper_thhe_1_audited, helper_thhe_1_hbc,
    helper_thhe_1_mal, helper_thhe_2_audited, helper_thhe_2_hbc, helper_thhe_2_mal,
    multiply_out,
};
use aid_distribution_with_assessments::period::{
    abandon, check_period, next_stage, PeriodClock, Stage,
};
use aid_distribution_with_assessments::recipient::{
    check_tagged_claim, recipient_1_thhe_1_hbc, recipient_1_thhe_1_mal, recipient_1_thhe_2_hbc,
    recipient_1_thhe_2_mal,
};
use aid_distribution_with_assessments::scalar::Scalar;
use aid_distribution_with_assessments::signature::{
    settle_signing, settle_verdict, sign, verify,
};
use aid_distribution_with_assessments::station::{
    distribution_station_1, distribution_station_2, distribution_station_single, settle,
};
use aid_distribution_with_assessments::tags::{SecretTag, TagSet};
use aid_distribution_with_assessments::thbgn;
use aid_distribution_with_assessments::thelgamal;
use tink_core::keyset::Handle;
use tink_core::TinkError;

fn encryption_keys() -> (Handle, Handle) {
    tink_hybrid::init();
    let sk =
        Handle::new(&tink_hybrid::ecies_hkdf_aes128_ctr_hmac_sha256_key_template()).unwrap();
    let pk = sk.public().unwrap();
    (sk, pk)
}

fn signature_keys() -> (Handle, Handle) {
    tink_signature::init();
    let sk = Handle::new(&tink_signature::ecdsa_p256_key_template()).unwrap();
    let vk = sk.public().unwrap();
    (sk, vk)
}

fn tags_of(recipient: u8) -> Vec<SecretTag> {
    (0..5u8)
        .map(|k| {
            let mut t = [0x5au8; 16];
            t[0] = recipient;
            t[1] = k;
            t
        })
        .collect()
}

fn valid_set(recipients: u8) -> TagSet {
    let mut set = TagSet::new();
    for r in 0..recipients {
        for t in tags_of(r) {
            set.insert(t);
        }
    }
    set
}

#[test]
fn period_identifier_is_written_big_endian() {
    assert_eq!(period_ad(0x0102), [1, 2]);
    assert_eq!(period_ad(0), [0, 0]);
    assert_eq!(period_ad(0xffff), [0xff, 0xff]);
    assert_eq!(period_ad(5), 5u16.to_be_bytes());
}

#[test]
fn envelope_is_bound_to_key_and_period() {
    let (sk, pk) = encryption_keys();
    let (other_sk, _) = encryption_keys();
    let sealed = seal_for_helper(&pk, b"claim", 7).unwrap();
    assert_ne!(sealed, b"claim".to_vec());
    assert_eq!(open_as_helper(&sk, &sealed, 7), Ok(b"claim".to_vec()));
    assert_eq!(open_as_helper(&sk, &sealed, 8), Err(Error::EnvelopeAuth));
    assert_eq!(open_as_helper(&other_sk, &sealed, 7), Err(Error::EnvelopeAuth));
    assert_eq!(open_as_auditor(&sk, &sealed), Err(Error::EnvelopeAuth));
    let mut changed = sealed.clone();
    let last = changed.len() - 1;
    changed[last] ^= 1;
    assert_eq!(open_as_helper(&sk, &changed, 7), Err(Error::EnvelopeAuth));
    let for_auditor = seal_for_auditor(&pk, b"tagged").unwrap();
    assert_eq!(open_as_auditor(&sk, &for_auditor), Ok(b"tagged".to_vec()));
    assert_eq!(seal_for_helper(&sk, b"claim", 7), Err(Error::InvalidParameter));
}

#[test]
fn signature_binds_the_signed_bytes() {
    let (sk, vk) = signature_keys();
    let (_, other_vk) = signature_keys();
    let signature = sign(&sk, b"published").unwrap();
    assert!(verify(&vk, &signature, b"published"));
    assert!(!verify(&vk, &signature, b"publishee"));
    assert!(!verify(&other_vk, &signature, b"published"));
    let mut changed = signature.clone();
    changed[10] ^= 1;
    assert!(!verify(&vk, &changed, b"published"));
    assert_eq!(sign(&vk, b"published"), Err(Error::InvalidParameter));
}

#[test]
fn stale_periods_are_refused() {
    assert_eq!(check_period(5, 4), Ok(()));
    assert_eq!(check_period(5, 5), Err(Error::StalePeriod));
    assert_eq!(check_period(4, 5), Err(Error::StalePeriod));
    assert_eq!(check_period(0, 0), Err(Error::StalePeriod));
    let mut clock = PeriodClock::new(0);
    assert_eq!(clock.check(5), Ok(()));
    assert_eq!(clock.advance(5), Ok(()));
    assert_eq!(clock.last_period(), 5);
    assert_eq!(clock.advance(5), Err(Error::StalePeriod));
    assert_eq!(clock.advance(3), Err(Error::StalePeriod));
    assert_eq!(clock.last_period(), 5);
    assert_eq!(clock.advance(6), Ok(()));
    assert_eq!(clock.last_period(), 6);
}

#[test]
fn stages_follow_each_other() {
    let mut stage = Stage::Idle;
    let mut seen = vec![stage];
    while let Some(next) = next_stage(stage, true, true) {
        stage = next;
        seen.push(stage);
    }
    assert_eq!(
        seen,
        vec![
            Stage::Idle,
            Stage::Collecting,
            Stage::AuditorReady,
            Stage::HelperProcessing,
            Stage::Committee1,
            Stage::Distribution1,
            Stage::Committee2,
            Stage::Distribution2,
            Stage::Published,
        ]
    );
    assert_eq!(next_stage(Stage::Collecting, false, true), Some(Stage::HelperProcessing));
    assert_eq!(next_stage(Stage::Committee1, false, false), Some(Stage::Distribution2));
    assert_eq!(next_stage(Stage::Published, false, false), None);
    assert_eq!(abandon(Stage::Committee2), Stage::Idle);
    assert_eq!(abandon(Stage::Published), Stage::Published);
}

#[test]
fn indicator_is_multiplied_with_each_data_field() {
    let pp = thbgn::paramgen();
    let (sk, pk) = thbgn::keygen(pp).unwrap();
    let payload = vec![
        thbgn::encrypt(pp, pk, Scalar::from_u64(1)),
        thbgn::encrypt(pp, pk, Scalar::from_u64(4)),
        thbgn::encrypt(pp, pk, Scalar::from_u64(6)),
    ];
    let row = multiply_out(pp, &payload).unwrap();
    assert_eq!(row.len(), 2);
    assert_eq!(row[0], thbgn::mul(pp, payload[0], payload[1]));
    assert_eq!(row[1], thbgn::mul(pp, payload[0], payload[2]));
    assert_eq!(thbgn::decrypt(pp, sk, row[1], 16), Ok(Scalar::from_u64(6)));
    assert_eq!(multiply_out(pp, &Vec::new()), Err(Error::InvalidParameter));
    assert_eq!(multiply_out(pp, &payload[..1].to_vec()), Ok(Vec::new()));
    assert_eq!(
        evaluate_products(pp, &vec![payload.clone(), Vec::new()]),
        Err(Error::InvalidParameter)
    );
    assert_eq!(evaluate_products(pp, &vec![payload.clone()]), Ok(vec![row]));
}

#[test]
fn claims_are_checked_before_encryption() {
    assert_eq!(check_tagged_claim(1, &tags_of(0)), Ok(()));
    assert_eq!(check_tagged_claim(2, &tags_of(0)), Err(Error::InvalidParameter));
    assert_eq!(check_tagged_claim(0, &tags_of(0)[..4].to_vec()), Err(Error::WrongTagCount));
    assert_eq!(check_tagged_claim(2, &Vec::new()), Err(Error::InvalidParameter));
    let pp = thbgn::paramgen();
    let (_sk, pk) = thbgn::keygen(pp).unwrap();
    let (_, pk_helper) = encryption_keys();
    let (_, pk_auditor) = encryption_keys();
    assert_eq!(
        recipient_1_thhe_2_hbc(2, Scalar::from_u64(1), pp, 1, pk, &pk_helper),
        Err(Error::InvalidParameter)
    );
    assert_eq!(
        recipient_1_thhe_2_mal(
            1,
            Scalar::from_u64(1),
            pp,
            1,
            &Vec::new(),
            pk,
            &pk_helper,
            &pk_auditor
        ),
        Err(Error::WrongTagCount)
    );
}

#[test]
fn honest_but_curious_period_of_the_two_level_scheme() {
    let pp = thbgn::paramgen();
    let (sk, pk) = thbgn::keygen(pp).unwrap();
    let shares = thbgn::share_sk(sk, 3, 5).unwrap();
    let (sk_enc, pk_enc) = encryption_keys();
    let (sk_sig, vk_sig) = signature_keys();
    let id = 1u16;

    let envelopes: Vec<Vec<u8>> = (0..3)
        .map(|_| recipient_1_thhe_2_hbc(1, Scalar::from_u64(7), pp, id, pk, &pk_enc).unwrap())
        .collect();

    let mut clock = PeriodClock::new(0);
    let (rows, signature) =
        helper_thhe_2_hbc(&mut clock, pp, &envelopes, id, &sk_enc, &sk_sig).unwrap();
    assert_eq!(clock.last_period(), 1);
    assert_eq!(rows.len(), 1);
    assert_eq!(rows[0].len(), 1);
    assert_eq!(thbgn::decrypt(pp, sk, rows[0][0], 16), Ok(Scalar::from_u64(7)));

    let committee = [shares[0], shares[2], shares[4]];
    let pdecs: Vec<_> = committee
        .iter()
        .map(|share| recipient_2(pp, &rows, &signature, *share, &vk_sig).unwrap())
        .collect();
    assert_eq!(pdecs[1], partial_decrypt_all(pp, shares[2], &rows));
    let idecs = distribution_station_1(pp, &pdecs, 3, 16).unwrap();
    let pdecs2: Vec<_> =
        committee.iter().map(|share| partial_decrypt2_all(pp, *share, &idecs)).collect();
    let outs = distribution_station_2(pp, &pdecs2, 3, 16).unwrap();
    assert_eq!(outs, vec![vec![Scalar::from_u64(7)]]);

    assert_eq!(
        helper_thhe_2_hbc(&mut clock, pp, &envelopes, id, &sk_enc, &sk_sig),
        Err(Error::StalePeriod)
    );
    assert_eq!(clock.last_period(), 1);
}

#[test]
fn malicious_period_of_the_two_level_scheme() {
    let pp = thbgn::paramgen();
    let (sk, pk) = thbgn::keygen(pp).unwrap();
    let shares = thbgn::share_sk(sk, 2, 3).unwrap();
    let (sk_enc_helper, pk_enc_helper) = encryption_keys();
    let (sk_enc_auditor, pk_enc_auditor) = encryption_keys();
    let (sk_sig_helper, vk_sig_helper) = signature_keys();
    let (sk_sig_auditor, vk_sig_auditor) = signature_keys();
    let valid = valid_set(2);
    let id = 5u16;

    let mut for_helper = Vec::new();
    let mut for_auditor = Vec::new();
    for r in 0..2u8 {
        let (h, a) = recipient_1_thhe_2_mal(
            1,
            Scalar::from_u64(3),
            pp,
            id,
            &tags_of(r),
            pk,
            &pk_enc_helper,
            &pk_enc_auditor,
        )
        .unwrap();
        assert_eq!(h.len(), 5);
        assert_eq!(a.len(), 5);
        for_helper.push(h);
        for_auditor.push(a);
    }

    let (forwarded, sig_auditor) =
        auditor_mal(&for_auditor, &valid, &sk_enc_auditor, &sk_sig_auditor).unwrap();
    let flat: Vec<Vec<u8>> = for_helper.iter().flatten().cloned().collect();
    assert_eq!(forwarded, flat);

    let mut clock = PeriodClock::new(4);
    let (rows, sig_helper) = helper_thhe_2_mal(
        &mut clock,
        pp,
        &for_helper,
        id,
        &sig_auditor,
        &sk_enc_helper,
        &sk_sig_helper,
        &vk_sig_auditor,
    )
    .unwrap();
    assert_eq!(clock.last_period(), 5);
    assert_eq!(rows.len(), 5);

    let committee = [shares[1], shares[2]];
    let pdecs: Vec<_> = committee
        .iter()
        .map(|share| recipient_2(pp, &rows, &sig_helper, *share, &vk_sig_helper).unwrap())
        .collect();
    let idecs = distribution_station_1(pp, &pdecs, 2, 16).unwrap();
    let pdecs2: Vec<_> =
        committee.iter().map(|share| partial_decrypt2_all(pp, *share, &idecs)).collect();
    let outs = distribution_station_2(pp, &pdecs2, 2, 16).unwrap();
    let zero = Scalar::from_u64(0);
    assert_eq!(
        outs,
        vec![vec![Scalar::from_u64(3)], vec![zero], vec![zero], vec![zero], vec![zero]]
    );

    // Stale period
    assert_eq!(
        helper_thhe_2_mal(
            &mut clock,
            pp,
            &for_helper,
            id,
            &sig_auditor,
            &sk_enc_helper,
            &sk_sig_helper,
            &vk_sig_auditor,
        ),
        Err(Error::StalePeriod)
    );

    // Signature tampering
    let mut flipped = sig_helper.clone();
    flipped[8] ^= 0x01;
    assert_eq!(
        recipient_2(pp, &rows, &flipped, shares[0], &vk_sig_helper),
        Err(Error::HelperSignatureInvalid)
    );
    let mut reordered = rows.clone();
    reordered.swap(0, 1);
    assert_eq!(
        recipient_2(pp, &reordered, &sig_helper, shares[0], &vk_sig_helper),
        Err(Error::HelperSignatureInvalid)
    );

    // A payload that the auditor did not sign
    let mut clock = PeriodClock::new(4);
    let mut swapped = for_helper.clone();
    swapped[0].swap(0, 1);
    assert_eq!(
        helper_thhe_2_mal(
            &mut clock,
            pp,
            &swapped,
            id,
            &sig_auditor,
            &sk_enc_helper,
            &sk_sig_helper,
            &vk_sig_auditor,
        ),
        Err(Error::AuditorSignatureInvalid)
    );
    assert_eq!(clock.last_period(), 4);

    // Envelopes of another period
    assert_eq!(
        helper_thhe_2_hbc(&mut clock, pp, &for_helper[0], 6, &sk_enc_helper, &sk_sig_helper),
        Err(Error::EnvelopeAuth)
    );
    assert_eq!(clock.last_period(), 4);
}

#[test]
fn auditor_aborts_on_a_bad_tag() {
    let pp = thbgn::paramgen();
    let (_sk, pk) = thbgn::keygen(pp).unwrap();
    let (_, pk_enc_helper) = encryption_keys();
    let (sk_enc_auditor, pk_enc_auditor) = encryption_keys();
    let (sk_sig_auditor, _) = signature_keys();
    let valid = valid_set(2);
    let mut bad = tags_of(1);
    bad[3] = [0xa7; 16];
    let mut for_auditor = Vec::new();
    for tags in [tags_of(0), bad] {
        let (_, a) = recipient_1_thhe_2_mal(
            1,
            Scalar::from_u64(3),
            pp,
            1,
            &tags,
            pk,
            &pk_enc_helper,
            &pk_enc_auditor,
        )
        .unwrap();
        for_auditor.push(a);
    }
    assert_eq!(
        auditor_mal(&for_auditor, &valid, &sk_enc_auditor, &sk_sig_auditor),
        Err(Error::InvalidSecretTag)
    );
    assert_eq!(
        auditor_hbc(&for_auditor, &valid, &sk_enc_auditor),
        Err(Error::InvalidSecretTag)
    );
}

#[test]
fn auditor_aborts_on_a_duplicate_tag() {
    let pp = thelgamal::paramgen();
    let (_sk, pk) = thelgamal::keygen(pp).unwrap();
    let (_, pk_enc_helper) = encryption_keys();
    let (sk_enc_auditor, pk_enc_auditor) = encryption_keys();
    let (sk_sig_auditor, _) = signature_keys();
    let valid = valid_set(2);
    let mut copied = tags_of(1);
    copied[0] = tags_of(0)[2];
    let mut for_auditor = Vec::new();
    for tags in [tags_of(0), copied] {
        let (_, a) =
            recipient_1_thhe_1_mal(1, pp, 1, &tags, pk, &pk_enc_helper, &pk_enc_auditor).unwrap();
        for_auditor.push(a);
    }
    assert_eq!(
        auditor_mal(&for_auditor, &valid, &sk_enc_auditor, &sk_sig_auditor),
        Err(Error::DuplicateSecretTag)
    );
}

#[test]
fn auditor_holds_recipients_to_the_number_of_tags() {
    let pp = thelgamal::paramgen();
    let (_sk, pk) = thelgamal::keygen(pp).unwrap();
    let (_, pk_enc_helper) = encryption_keys();
    let (sk_enc_auditor, pk_enc_auditor) = encryption_keys();
    let (sk_sig_auditor, _) = signature_keys();
    let valid = valid_set(1);
    let (_, mut a) =
        recipient_1_thhe_1_mal(1, pp, 1, &tags_of(0), pk, &pk_enc_helper, &pk_enc_auditor)
            .unwrap();
    a.pop();
    let for_auditor = vec![a];
    assert_eq!(
        auditor_mal(&for_auditor, &valid, &sk_enc_auditor, &sk_sig_auditor),
        Err(Error::WrongTagCount)
    );
    assert!(auditor_hbc(&for_auditor, &valid, &sk_enc_auditor).is_ok());
    let (wrong_key, _) = encryption_keys();
    assert_eq!(auditor_hbc(&for_auditor, &valid, &wrong_key), Err(Error::EnvelopeAuth));
}

#[test]
fn periods_of_the_single_level_scheme() {
    let pp = thelgamal::paramgen();
    let (sk, pk) = thelgamal::keygen(pp).unwrap();
    let shares = thelgamal::share_sk(sk, 2, 3).unwrap();
    let (sk_enc_helper, pk_enc_helper) = encryption_keys();
    let (sk_enc_auditor, pk_enc_auditor) = encryption_keys();
    let (sk_sig_helper, vk_sig_helper) = signature_keys();
    let (sk_sig_auditor, vk_sig_auditor) = signature_keys();
    let id = 2u16;

    let envelopes: Vec<Vec<u8>> = (0..4)
        .map(|_| recipient_1_thhe_1_hbc(1, pp, id, pk, &pk_enc_helper).unwrap())
        .collect();
    let mut clock = PeriodClock::new(1);
    let (sum, signature) =
        helper_thhe_1_hbc(&mut clock, &envelopes, id, &sk_enc_helper, &sk_sig_helper).unwrap();
    assert_eq!(clock.last_period(), 2);
    assert_eq!(thelgamal::decrypt(pp, sk, sum, 16), Ok(Scalar::from_u64(4)));
    assert_eq!(
        helper_thhe_1_hbc(&mut clock, &envelopes, id, &sk_enc_helper, &sk_sig_helper),
        Err(Error::StalePeriod)
    );

    let pdecs: Vec<_> = shares[..2]
        .iter()
        .map(|share| recipient_2_single(pp, sum, &signature, *share, &vk_sig_helper).unwrap())
        .collect();
    assert_eq!(pdecs[0], thelgamal::partial_decrypt(pp, shares[0], sum));
    let mut flipped = signature.clone();
    flipped[8] ^= 0x01;
    assert_eq!(
        recipient_2_single(pp, sum, &flipped, shares[0], &vk_sig_helper),
        Err(Error::HelperSignatureInvalid)
    );
    assert_eq!(
        distribution_station_single(pp, sum, &pdecs, 2, 16),
        thelgamal::final_decrypt(pp, sum, &pdecs, 16).map_err(settle)
    );
    assert_eq!(
        distribution_station_single(pp, sum, &pdecs, 3, 16),
        Err(Error::BelowThreshold)
    );
    assert_eq!(
        distribution_station_single(pp, sum, &pdecs, 1, 16),
        Err(Error::InvalidParameter)
    );

    let valid = valid_set(2);
    let mut for_helper = Vec::new();
    let mut for_auditor = Vec::new();
    for r in 0..2u8 {
        let (h, a) =
            recipient_1_thhe_1_mal(1, pp, 3, &tags_of(r), pk, &pk_enc_helper, &pk_enc_auditor)
                .unwrap();
        for_helper.push(h);
        for_auditor.push(a);
    }
    let (_, sig_auditor) =
        auditor_mal(&for_auditor, &valid, &sk_enc_auditor, &sk_sig_auditor).unwrap();
    let (sum, _) = helper_thhe_1_mal(
        &mut clock,
        &for_helper,
        3,
        &sig_auditor,
        &sk_enc_helper,
        &sk_sig_helper,
        &vk_sig_auditor,
    )
    .unwrap();
    assert_eq!(clock.last_period(), 3);
    assert_eq!(thelgamal::decrypt(pp, sk, sum, 16), Ok(Scalar::from_u64(2)));
    assert_eq!(
        helper_thhe_1_mal(
            &mut clock,
            &for_helper,
            4,
            &sig_auditor,
            &sk_enc_helper,
            &sk_sig_helper,
            &vk_sig_helper,
        ),
        Err(Error::AuditorSignatureInvalid)
    );
}

#[test]
fn station_refuses_bad_deliveries() {
    let pp = thbgn::paramgen();
    let (sk, pk) = thbgn::keygen(pp).unwrap();
    let shares = thbgn::share_sk(sk, 2, 3).unwrap();
    let ct = thbgn::mul(
        pp,
        thbgn::encrypt(pp, pk, Scalar::from_u64(2)),
        thbgn::encrypt(pp, pk, Scalar::from_u64(20)),
    );
    let rows = vec![vec![ct]];
    let pdecs: Vec<_> = shares.iter().map(|s| partial_decrypt_all(pp, *s, &rows)).collect();

    assert_eq!(distribution_station_1(pp, &pdecs[..1].to_vec(), 2, 16), Err(Error::BelowThreshold));
    assert_eq!(distribution_station_1(pp, &Vec::new(), 0, 16), Err(Error::BelowThreshold));
    assert_eq!(distribution_station_1(pp, &pdecs, 2, 16), Err(Error::InvalidParameter));
    let mut ragged = pdecs[..2].to_vec();
    ragged[1][0].clear();
    assert_eq!(distribution_station_1(pp, &ragged, 2, 16), Err(Error::InvalidParameter));
    let mut repeated = pdecs[..2].to_vec();
    repeated[1] = repeated[0].clone();
    assert_eq!(distribution_station_1(pp, &repeated, 2, 16), Err(Error::InvalidParameter));
    let mut disagreeing = pdecs[..2].to_vec();
    disagreeing[1][0][0].4 = disagreeing[1][0][0].1;
    assert_eq!(distribution_station_1(pp, &disagreeing, 2, 16), Err(Error::InconsistentShares));

    let two = pdecs[..2].to_vec();
    let idecs = distribution_station_1(pp, &two, 2, 16).unwrap();
    let pdecs2: Vec<_> =
        shares[..2].iter().map(|s| partial_decrypt2_all(pp, *s, &idecs)).collect();
    assert_eq!(distribution_station_2(pp, &pdecs2, 2, 16), Err(Error::InconsistentShares));
    assert_eq!(distribution_station_2(pp, &pdecs2, 2, 41), Ok(vec![vec![Scalar::from_u64(40)]]));
    assert_eq!(distribution_station_2(pp, &pdecs2, 3, 41), Err(Error::BelowThreshold));
    assert_eq!(settle(Error::DLogNotFound), Error::InconsistentShares);
    assert_eq!(settle(Error::BelowThreshold), Error::BelowThreshold);
    let empty_rows: Vec<Vec<Vec<thbgn::PartialDecryption>>> = vec![Vec::new(), Vec::new()];
    assert_eq!(distribution_station_1(pp, &empty_rows, 2, 16), Ok(Vec::new()));
}

#[test]
fn answers_of_the_outside_primitives_are_settled() {
    assert_eq!(settle_sealing(Ok(vec![1, 2, 3])), Ok(vec![1, 2, 3]));
    assert_eq!(settle_sealing(Ok(Vec::new())), Ok(Vec::new()));
    assert_eq!(settle_sealing(Err(TinkError::new("no key"))), Err(Error::InvalidParameter));
    assert_eq!(settle_opening(Ok(vec![4, 5])), Ok(vec![4, 5]));
    assert_eq!(settle_opening(Err(TinkError::new("tampered"))), Err(Error::EnvelopeAuth));
    assert_eq!(settle_signing(Ok(vec![6])), Ok(vec![6]));
    assert_eq!(settle_signing(Err(TinkError::new("no key"))), Err(Error::InvalidParameter));
    assert!(settle_verdict(Ok(())));
    assert!(!settle_verdict(Err(TinkError::new("mismatch"))));
}

#[test]
fn period_bound_envelopes_are_bound_to_the_period_bytes() {
    let (sk, pk) = encryption_keys();
    let for_helper = seal_for_helper(&pk, b"claim", 0x0102).unwrap();
    assert_eq!(open(&sk, &for_helper, &[1, 2]), Ok(b"claim".to_vec()));
    assert_eq!(open(&sk, &for_helper, &[2, 1]), Err(Error::EnvelopeAuth));
    assert_eq!(open(&sk, &for_helper, &[]), Err(Error::EnvelopeAuth));
    let by_hand = seal(&pk, b"claim", &[1, 2]).unwrap();
    assert_eq!(open_as_helper(&sk, &by_hand, 0x0102), Ok(b"claim".to_vec()));
    assert_eq!(open_as_helper(&sk, &by_hand, 0x0201), Err(Error::EnvelopeAuth));
    let for_auditor = seal_for_auditor(&pk, b"tagged").unwrap();
    assert_eq!(open(&sk, &for_auditor, &[]), Ok(b"tagged".to_vec()));
    assert_eq!(open(&sk, &for_auditor, &[0, 0]), Err(Error::EnvelopeAuth));
    let unbound = seal(&pk, b"tagged", &[]).unwrap();
    assert_eq!(open_as_auditor(&sk, &unbound), Ok(b"tagged".to_vec()));
}

#[test]
fn auditor_forwards_one_envelope_for_each_received() {
    let (sk_enc_auditor, pk_enc_auditor) = encryption_keys();
    let valid = valid_set(2);
    assert_eq!(auditor_hbc(&Vec::new(), &valid, &sk_enc_auditor), Ok(Vec::new()));
    assert_eq!(
        auditor_hbc(&vec![Vec::new(), Vec::new()], &valid, &sk_enc_auditor),
        Ok(Vec::new())
    );
    let mut received = Vec::new();
    let mut expected = Vec::new();
    for r in 0..2u8 {
        let mut own = Vec::new();
        for (k, tag) in tags_of(r).iter().enumerate().take(r as usize + 1) {
            let inner = vec![r, k as u8, 0x33];
            let mut tagged = tag.to_vec();
            tagged.extend_from_slice(&inner);
            own.push(seal_for_auditor(&pk_enc_auditor, &tagged).unwrap());
            expected.push(inner);
        }
        received.push(own);
    }
    assert_eq!(auditor_hbc(&received, &valid, &sk_enc_auditor), Ok(expected));
    received[1][0] = seal_for_auditor(&pk_enc_auditor, &[0u8; 15]).unwrap();
    assert_eq!(auditor_hbc(&received, &valid, &sk_enc_auditor), Err(Error::Deserialization));
    received[0][0] = vec![1, 2, 3];
    assert_eq!(auditor_hbc(&received, &valid, &sk_enc_auditor), Err(Error::EnvelopeAuth));
}

#[test]
fn verdict_on_the_auditor_decides_before_anything_is_opened() {
    assert_eq!(decide_audited(true), Ok(()));
    assert_eq!(decide_audited(false), Err(Error::AuditorSignatureInvalid));

    let pp = thbgn::paramgen();
    let (sk_enc, _) = encryption_keys();
    let (sk_sig, _) = signature_keys();
    let unopenable = vec![vec![vec![1u8, 2, 3]]];

    let mut clock = PeriodClock::new(4);
    assert_eq!(
        helper_thhe_2_audited(&mut clock, pp, &unopenable, 5, false, &sk_enc, &sk_sig),
        Err(Error::AuditorSignatureInvalid)
    );
    assert_eq!(
        helper_thhe_2_audited(&mut clock, pp, &unopenable, 5, true, &sk_enc, &sk_sig),
        Err(Error::EnvelopeAuth)
    );
    assert_eq!(
        helper_thhe_2_audited(&mut clock, pp, &unopenable, 4, false, &sk_enc, &sk_sig),
        Err(Error::StalePeriod)
    );
    assert_eq!(
        helper_thhe_2_audited(&mut clock, pp, &Vec::new(), 5, true, &sk_enc, &sk_sig),
        Err(Error::InvalidParameter)
    );
    assert_eq!(
        helper_thhe_1_audited(&mut clock, &unopenable, 5, false, &sk_enc, &sk_sig),
        Err(Error::AuditorSignatureInvalid)
    );
    assert_eq!(
        helper_thhe_1_audited(&mut clock, &unopenable, 5, true, &sk_enc, &sk_sig),
        Err(Error::EnvelopeAuth)
    );
    assert_eq!(
        helper_thhe_1_audited(&mut clock, &unopenable, 3, true, &sk_enc, &sk_sig),
        Err(Error::StalePeriod)
    );
    assert_eq!(clock.last_period(), 4);
    let (sum, _) =
        helper_thhe_1_audited(&mut clock, &Vec::new(), 5, true, &sk_enc, &sk_sig).unwrap();
    assert_eq!(sum, fold_sum(&Vec::new()));
    assert_eq!(clock.last_period(), 5);
}

#[test]
fn helper_publishes_the_products_of_what_the_envelopes_open_to() {
    let pp = thbgn::paramgen();
    let (_sk, pk) = thbgn::keygen(pp).unwrap();
    let (sk_enc, pk_enc) = encryption_keys();
    let (sk_sig, vk_sig) = signature_keys();
    let payloads: Vec<Vec<thbgn::Ciphertext1>> = (0..3u64)
        .map(|k| {
            vec![
                thbgn::encrypt(pp, pk, Scalar::from_u64(1)),
                thbgn::encrypt(pp, pk, Scalar::from_u64(k + 2)),
            ]
        })
        .collect();
    let sealed: Vec<Vec<u8>> = payloads
        .iter()
        .map(|payload| seal_for_helper(&pk_enc, &ctxts_1_to_bytes(payload), 9).unwrap())
        .collect();

    let mut clock = PeriodClock::new(0);
    let (rows, signature) =
        helper_thhe_2_hbc(&mut clock, pp, &sealed, 9, &sk_enc, &sk_sig).unwrap();
    assert_eq!(rows, vec![multiply_out(pp, &payloads[0]).unwrap()]);
    assert!(recipient_2(pp, &rows, &signature, (1, Scalar::from_u64(1), Scalar::from_u64(1)), &vk_sig).is_ok());

    let mut clock = PeriodClock::new(0);
    let nested = vec![sealed.clone(), sealed[..1].to_vec()];
    let (rows, _) =
        helper_thhe_2_audited(&mut clock, pp, &nested, 9, true, &sk_enc, &sk_sig).unwrap();
    assert_eq!(rows, evaluate_products(pp, &payloads).unwrap());
    assert_eq!(clock.last_period(), 9);
}

#[test]
fn helper_publishes_the_fold_of_what_the_envelopes_open_to() {
    let pp = thelgamal::paramgen();
    let (_sk, pk) = thelgamal::keygen(pp).unwrap();
    let (sk_enc, pk_enc) = encryption_keys();
    let (sk_sig, _) = signature_keys();
    let ctxts: Vec<thelgamal::Ciphertext> =
        (0..4u64).map(|k| thelgamal::encrypt(pp, pk, Scalar::from_u64(k))).collect();
    let sealed: Vec<Vec<u8>> = ctxts
        .iter()
        .map(|ct| seal_for_helper(&pk_enc, &thelgamal::ctxt_to_bytes(ct), 2).unwrap())
        .collect();
    let mut clock = PeriodClock::new(1);
    let (sum, _) = helper_thhe_1_hbc(&mut clock, &sealed, 2, &sk_enc, &sk_sig).unwrap();
    assert_eq!(sum, fold_sum(&ctxts));

    let mut clock = PeriodClock::new(1);
    let nested = vec![sealed[..1].to_vec(), Vec::new(), sealed[1..].to_vec()];
    let (sum, _) =
        helper_thhe_1_audited(&mut clock, &nested, 2, true, &sk_enc, &sk_sig).unwrap();
    assert_eq!(sum, fold_sum(&ctxts));
}

#[test]
fn auditor_signs_what_it_forwards() {
    let (sk_enc_auditor, pk_enc_auditor) = encryption_keys();
    let (sk_sig_auditor, vk_sig_auditor) = signature_keys();
    let valid = valid_set(2);
    let mut received = Vec::new();
    let mut expected = Vec::new();
    for r in 0..2u8 {
        let mut own = Vec::new();
        for (k, tag) in tags_of(r).iter().enumerate() {
            let inner = vec![r, k as u8, 0x44];
            let mut tagged = tag.to_vec();
            tagged.extend_from_slice(&inner);
            own.push(seal_for_auditor(&pk_enc_auditor, &tagged).unwrap());
            expected.push(inner);
        }
        received.push(own);
    }
    let (forwarded, signature) =
        auditor_mal(&received, &valid, &sk_enc_auditor, &sk_sig_auditor).unwrap();
    assert_eq!(forwarded, expected);
    assert!(verify(&vk_sig_auditor, &signature, &expected.concat()));
    assert_eq!(
        auditor_mal(&received, &valid, &sk_enc_auditor, &vk_sig_auditor),
        Err(Error::InvalidParameter)
    );
    assert_eq!(
        auditor_mal(&Vec::new(), &valid, &sk_enc_auditor, &sk_sig_auditor).map(|r| r.0),
        Ok(Vec::new())
    );
    received[1][4] = vec![9, 9];
    assert_eq!(
        auditor_mal(&received, &valid, &sk_enc_auditor, &sk_sig_auditor),
        Err(Error::EnvelopeAuth)
    );
}
