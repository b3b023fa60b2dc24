use aid_distribution_with_assessments::codec::{
    bytes_to_ctxt_1, bytes_to_ctxt_t, bytes_to_ctxts_1, ctxt_1_to_bytes, ctxt_t_to_bytes,
    ctxts_1_to_bytes, ctxts_t_to_bytes,
};
use aid_distribution_with_assessments::error::Error;
use aid_distribution_with_assessments::scalar::Scalar;
use aid_distribution_with_assessments::thbgn::{encrypt, keygen, mul, paramgen};

#[test]
fn level_1_ciphertext_is_its_components_in_order() {
    let pp = paramgen();
    let (_sk, pk) = keygen(pp).unwrap();
    let ct = encrypt(pp, pk, Scalar::from_u64(1));
    let bytes = ctxt_1_to_bytes(&ct);
    assert_eq!(bytes.len(), 288);
    assert_eq!(&bytes[0..48], &ct.0 .0.to_bytes()[..]);
    assert_eq!(&bytes[48..96], &ct.0 .1.to_bytes()[..]);
    assert_eq!(&bytes[96..192], &ct.0 .2.to_bytes()[..]);
    assert_eq!(&bytes[192..288], &ct.0 .3.to_bytes()[..]);
    assert_eq!(bytes_to_ctxt_1(&bytes), Ok(ct));
}

#[test]
fn target_level_ciphertext_is_its_components_in_order() {
    let pp = paramgen();
    let (_sk, pk) = keygen(pp).unwrap();
    let ct = mul(pp, encrypt(pp, pk, Scalar::from_u64(1)), encrypt(pp, pk, Scalar::from_u64(2)));
    let bytes = ctxt_t_to_bytes(&ct);
    assert_eq!(bytes.len(), 2304);
    assert_eq!(&bytes[0..576], &ct.0 .0.to_bytes()[..]);
    assert_eq!(&bytes[576..1152], &ct.0 .1.to_bytes()[..]);
    assert_eq!(&bytes[1152..1728], &ct.0 .2.to_bytes()[..]);
    assert_eq!(&bytes[1728..2304], &ct.0 .3.to_bytes()[..]);
    assert_eq!(bytes_to_ctxt_t(&bytes), Ok(ct));
    assert_eq!(bytes_to_ctxt_t(&bytes[1..]), Err(Error::Deserialization));
    assert_eq!(bytes_to_ctxt_t(&[0u8; 2304]), Err(Error::Deserialization));
}

#[test]
fn payload_round_trips() {
    let pp = paramgen();
    let (_sk, pk) = keygen(pp).unwrap();
    let cts = vec![encrypt(pp, pk, Scalar::from_u64(1)), encrypt(pp, pk, Scalar::from_u64(9))];
    let bytes = ctxts_1_to_bytes(&cts);
    assert_eq!(bytes.len(), 576);
    assert_eq!(&bytes[..288], &ctxt_1_to_bytes(&cts[0])[..]);
    assert_eq!(&bytes[288..], &ctxt_1_to_bytes(&cts[1])[..]);
    assert_eq!(bytes_to_ctxts_1(&bytes), Ok(cts));
}

#[test]
fn mismatched_lengths_are_refused() {
    let pp = paramgen();
    let (_sk, pk) = keygen(pp).unwrap();
    let ct = encrypt(pp, pk, Scalar::from_u64(1));
    let one = ctxt_1_to_bytes(&ct);
    assert_eq!(bytes_to_ctxts_1(&one), Err(Error::Deserialization));
    assert_eq!(bytes_to_ctxts_1(&Vec::new()), Err(Error::Deserialization));
    assert_eq!(bytes_to_ctxt_1(&one[..287]), Err(Error::Deserialization));
    let mut three = one.clone();
    three.extend_from_slice(&one);
    three.extend_from_slice(&one);
    assert_eq!(bytes_to_ctxts_1(&three), Err(Error::Deserialization));
}

#[test]
fn parts_that_hold_no_element_are_refused() {
    let pp = paramgen();
    let (_sk, pk) = keygen(pp).unwrap();
    let ct = encrypt(pp, pk, Scalar::from_u64(1));
    let good = ctxt_1_to_bytes(&ct);
    for at in [0usize, 48, 96, 192] {
        let mut bad = good.clone();
        bad[at] &= 0x7f;
        assert_eq!(bytes_to_ctxt_1(&bad), Err(Error::Deserialization));
        let mut payload = good.clone();
        payload.extend_from_slice(&bad);
        assert_eq!(bytes_to_ctxts_1(&payload), Err(Error::Deserialization));
    }
}

#[test]
fn array_of_ciphertexts_is_written_row_by_row() {
    let pp = paramgen();
    let (_sk, pk) = keygen(pp).unwrap();
    let a = mul(pp, encrypt(pp, pk, Scalar::from_u64(1)), encrypt(pp, pk, Scalar::from_u64(2)));
    let b = mul(pp, encrypt(pp, pk, Scalar::from_u64(0)), encrypt(pp, pk, Scalar::from_u64(0)));
    let rows = vec![vec![a, b], vec![], vec![b]];
    let mut expected = ctxt_t_to_bytes(&a);
    expected.extend_from_slice(&ctxt_t_to_bytes(&b));
    expected.extend_from_slice(&ctxt_t_to_bytes(&b));
    assert_eq!(ctxts_t_to_bytes(&rows), expected);
    assert_eq!(ctxts_t_to_bytes(&Vec::new()), Vec::<u8>::new());
}
