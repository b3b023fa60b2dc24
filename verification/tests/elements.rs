use aid_distribution_with_assessments::error::Error;
use aid_distribution_with_assessments::g1::G1;
use aid_distribution_with_assessments::g2::G2;
use aid_distribution_with_assessments::gt::GT;
use aid_distribution_with_assessments::scalar::Scalar;
use ark_bls12_381::{Bls12_381, Fr, G1Projective, G2Projective};
use ark_ec::pairing::{Pairing, PairingOutput};
use ark_ec::Group;
use ark_ff::PrimeField;
use ark_serialize::CanonicalSerialize;
use ark_std::Zero;

const MODULUS: [u64; 4] = [
    0xffffffff00000001,
    0x53bda402fffe5bfe,
    0x3339d80809a1d805,
    0x73eda753299d7d48,
];

fn encode<T: CanonicalSerialize>(value: &T) -> Vec<u8> {
    let mut out = Vec::new();
    value.serialize_compressed(&mut out).unwrap();
    out
}

#[test]
fn scalar_from_u64_has_that_value() {
    assert_eq!(Scalar::from_u64(0).to_limbs(), [0, 0, 0, 0]);
    assert_eq!(Scalar::from_u64(u64::MAX).to_limbs(), [u64::MAX, 0, 0, 0]);
    assert!(Scalar::from_u64(0).is_zero());
    assert!(!Scalar::from_u64(1).is_zero());
}

#[test]
fn scalar_limbs_must_be_below_the_modulus() {
    assert_eq!(Scalar::from_limbs(MODULUS), None);
    assert_eq!(Scalar::from_limbs([u64::MAX; 4]), None);
    let largest = [MODULUS[0] - 1, MODULUS[1], MODULUS[2], MODULUS[3]];
    assert_eq!(Scalar::from_limbs(largest).unwrap().to_limbs(), largest);
    assert_eq!(Scalar::from_limbs([7, 0, 0, 0]), Some(Scalar::from_u64(7)));
}

#[test]
fn scalar_modulus_is_that_of_the_curve() {
    assert_eq!(Fr::MODULUS.0, MODULUS);
}

#[test]
fn scalar_arithmetic_is_modular() {
    let three = Scalar::from_u64(3);
    let five = Scalar::from_u64(5);
    assert_eq!(three.times(&five), Scalar::from_u64(15));
    assert_eq!(three.plus(&five), Scalar::from_u64(8));
    let largest =
        Scalar::from_limbs([MODULUS[0] - 1, MODULUS[1], MODULUS[2], MODULUS[3]]).unwrap();
    assert_eq!(largest.plus(&Scalar::from_u64(2)), Scalar::from_u64(1));
    assert_eq!(largest.times(&largest), Scalar::from_u64(1));
    assert_eq!(Scalar::from_u64(1).negated(), largest);
    assert_eq!(Scalar::from_u64(0).negated(), Scalar::from_u64(0));
    assert_eq!(three.negated().plus(&three), Scalar::from_u64(0));
}

#[test]
fn scalar_order_is_that_of_the_numbers() {
    let small = Scalar::from_u64(u64::MAX);
    let large = Scalar::from_limbs([0, 1, 0, 0]).unwrap();
    assert!(small.less_than(&large));
    assert!(!large.less_than(&small));
    assert!(!small.less_than(&small));
    assert!(small.same(&small));
    assert!(!small.same(&large));
}

#[test]
fn random_scalars_differ() {
    assert_ne!(Scalar::random(), Scalar::random());
}

#[test]
fn generator_has_the_standard_encoding() {
    let g = G1::generator().to_bytes();
    assert_eq!(g[0], 0x97);
    assert_eq!(g[1], 0xf1);
    assert_eq!(g[47], 0xbb);
    assert_eq!(
        g,
        [
            0x97, 0xf1, 0xd3, 0xa7, 0x31, 0x97, 0xd7, 0x94, 0x26, 0x95, 0x63, 0x8c, 0x4f, 0xa9,
            0xac, 0x0f, 0xc3, 0x68, 0x8c, 0x4f, 0x97, 0x74, 0xb9, 0x05, 0xa1, 0x4e, 0x3a, 0x3f,
            0x17, 0x1b, 0xac, 0x58, 0x6c, 0x55, 0xe8, 0x3f, 0xf9, 0x7a, 0x1a, 0xef, 0xfb, 0x3a,
            0xf0, 0x0a, 0xdb, 0x22, 0xc6, 0xbb,
        ]
    );
    assert_eq!(g.to_vec(), encode(&G1Projective::generator()));
}

#[test]
fn identities_have_their_encodings() {
    let mut g1 = [0u8; 48];
    g1[0] = 0xc0;
    assert_eq!(G1::identity().to_bytes(), g1);
    assert_eq!(g1.to_vec(), encode(&G1Projective::zero()));
    let mut gt = [0u8; 576];
    gt[0] = 1;
    assert_eq!(GT::identity().to_bytes(), gt);
    assert_eq!(gt.to_vec(), encode(&PairingOutput::<Bls12_381>::zero()));
}

#[test]
fn g1_operations_agree_with_the_curve() {
    let g = G1Projective::generator();
    let k = Fr::from(12345u64);
    let ours = G1::generator();
    assert_eq!(ours.scaled(&Scalar::from_u64(12345)).to_bytes().to_vec(), encode(&(g * k)));
    let double = ours.plus(&ours);
    assert_eq!(double.to_bytes().to_vec(), encode(&(g + g)));
    assert_eq!(double.minus(&ours), ours);
    assert_eq!(ours.negated().to_bytes().to_vec(), encode(&(-g)));
    assert_eq!(ours.plus(&ours.negated()), G1::identity());
    assert_eq!(ours.plus(&G1::identity()), ours);
    assert!(ours.same(&ours));
    assert!(!ours.same(&double));
}

#[test]
fn g2_operations_agree_with_the_curve() {
    let g = G2Projective::generator();
    let ours = G2::from_bytes(&encode(&g).try_into().unwrap()).unwrap();
    let k = Fr::from(77u64);
    assert_eq!(ours.scaled(&Scalar::from_u64(77)).to_bytes().to_vec(), encode(&(g * k)));
    assert_eq!(ours.plus(&ours).to_bytes().to_vec(), encode(&(g + g)));
    assert_eq!(ours.plus(&ours), ours.scaled(&Scalar::from_u64(2)));
    assert!(ours.same(&ours));
    assert!(!ours.same(&ours.plus(&ours)));
}

#[test]
fn gt_operations_agree_with_the_pairing() {
    let p = G1Projective::generator();
    let q = G2Projective::generator();
    let e = Bls12_381::pairing(p, q);
    let ours_q = G2::from_bytes(&encode(&q).try_into().unwrap()).unwrap();
    let ours = GT::pairing(&G1::generator(), &ours_q);
    assert_eq!(ours.to_bytes().to_vec(), encode(&e));
    assert_eq!(ours.scaled(&Scalar::from_u64(9)).to_bytes().to_vec(), encode(&(e * Fr::from(9u64))));
    assert_eq!(ours.plus(&ours).to_bytes().to_vec(), encode(&(e + e)));
    assert_eq!(ours.plus(&ours).minus(&ours), ours);
    assert_eq!(ours.negated().to_bytes().to_vec(), encode(&(-e)));
    assert_eq!(ours.plus(&ours.negated()), GT::identity());
    assert!(ours.same(&ours));
    assert!(!ours.same(&GT::identity()));
}

#[test]
fn pairing_is_bilinear_on_a_sample() {
    let p = G1::random();
    let q = G2::random();
    let a = Scalar::from_u64(5);
    let b = Scalar::from_u64(7);
    let left = GT::pairing(&p.scaled(&a), &q.scaled(&b));
    let right = GT::pairing(&p, &q).scaled(&Scalar::from_u64(35));
    assert_eq!(left, right);
}

#[test]
fn elements_decode_from_their_own_encoding() {
    let p = G1::random();
    assert_eq!(G1::from_bytes(&p.to_bytes()), Ok(p));
    let q = G2::random();
    assert_eq!(G2::from_bytes(&q.to_bytes()), Ok(q));
    let t = GT::pairing(&p, &q);
    assert_eq!(GT::from_bytes(&t.to_bytes()), Ok(t));
    assert_ne!(G1::random(), p);
    assert_ne!(G2::random(), q);
}

#[test]
fn bytes_that_hold_no_element_are_refused() {
    assert_eq!(G1::from_bytes(&[0u8; 48]), Err(Error::Deserialization));
    let mut off_group = [0u8; 48];
    off_group[0] = 0x80;
    assert_eq!(G1::from_bytes(&off_group), Err(Error::Deserialization));
    assert_eq!(G2::from_bytes(&[0u8; 96]), Err(Error::Deserialization));
    assert_eq!(GT::from_bytes(&[0u8; 576]), Err(Error::Deserialization));
    assert_eq!(GT::from_bytes(&[0xffu8; 576]), Err(Error::Deserialization));
}

#[test]
fn decoding_gives_the_encoding_that_the_encoder_writes() {
    let mut loose = [0u8; 48];
    loose[0] = 0xc0;
    loose[47] = 1;
    assert_eq!(G1::from_bytes(&loose), Ok(G1::identity()));
    assert_eq!(G1::from_bytes(&[0xffu8; 48]), Ok(G1::identity()));
}
