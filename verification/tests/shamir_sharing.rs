use aid_distribution_with_assessments::error::Error;
use aid_distribution_with_assessments::scalar::Scalar;
use aid_distribution_with_assessments::shamir::{all_distinct, deal, lagrange_at_zero};
use aid_distribution_with_assessments::thbgn::share_sk;

#[test]
fn lagrange_coefficients_of_small_sets() {
    let two = lagrange_at_zero(&vec![1, 2]).unwrap();
    assert_eq!(two, vec![Scalar::from_u64(2), Scalar::from_u64(1).negated()]);
    let three = lagrange_at_zero(&vec![1, 2, 3]).unwrap();
    assert_eq!(
        three,
        vec![Scalar::from_u64(3), Scalar::from_u64(3).negated(), Scalar::from_u64(1)]
    );
    assert_eq!(lagrange_at_zero(&vec![7]).unwrap(), vec![Scalar::from_u64(1)]);
    assert_eq!(lagrange_at_zero(&vec![]).unwrap(), vec![]);
}

#[test]
fn lagrange_refuses_a_zero_identifier() {
    assert_eq!(lagrange_at_zero(&vec![1, 0, 2]), Err(Error::InvalidParameter));
    assert_eq!(lagrange_at_zero(&vec![0]), Err(Error::InvalidParameter));
}

#[test]
fn dealt_shares_are_numbered_from_one() {
    let shares = deal(&Scalar::from_u64(42), 3, 5).unwrap();
    assert_eq!(shares.len(), 5);
    for (i, share) in shares.iter().enumerate() {
        assert_eq!(share.0 as usize, i + 1);
    }
}

#[test]
fn dealt_shares_recombine_to_the_secret() {
    let secret = Scalar::from_u64(42);
    let shares = deal(&secret, 3, 5).unwrap();
    let picked = [shares[4], shares[1], shares[2]];
    let ids: Vec<u16> = picked.iter().map(|s| s.0).collect();
    let basis = lagrange_at_zero(&ids).unwrap();
    let mut sum = Scalar::from_u64(0);
    for (share, weight) in picked.iter().zip(basis.iter()) {
        sum = sum.plus(&share.1.times(weight));
    }
    assert_eq!(sum, secret);
}

#[test]
fn two_shares_of_three_needed_do_not_recombine() {
    let secret = Scalar::from_u64(42);
    let shares = deal(&secret, 3, 5).unwrap();
    let picked = [shares[0], shares[3]];
    let ids: Vec<u16> = picked.iter().map(|s| s.0).collect();
    let basis = lagrange_at_zero(&ids).unwrap();
    let mut sum = Scalar::from_u64(0);
    for (share, weight) in picked.iter().zip(basis.iter()) {
        sum = sum.plus(&share.1.times(weight));
    }
    assert_ne!(sum, secret);
}

#[test]
fn threshold_one_hands_out_the_secret() {
    let secret = Scalar::from_u64(9);
    let shares = deal(&secret, 1, 3).unwrap();
    assert_eq!(shares, vec![(1, secret), (2, secret), (3, secret)]);
}

#[test]
fn dealer_refuses_bad_thresholds() {
    let secret = Scalar::from_u64(1);
    assert_eq!(deal(&secret, 0, 5), Err(Error::InvalidParameter));
    assert_eq!(deal(&secret, 6, 5), Err(Error::InvalidParameter));
    assert_eq!(deal(&secret, 1, 1), Err(Error::InvalidParameter));
    assert_eq!(deal(&secret, 0, 0), Err(Error::InvalidParameter));
    assert!(deal(&secret, 2, 2).is_ok());
    assert!(deal(&secret, 5, 5).is_ok());
}

#[test]
fn distinct_identifiers_are_told_from_repeated_ones() {
    assert!(all_distinct(&vec![]));
    assert!(all_distinct(&vec![3]));
    assert!(all_distinct(&vec![3, 1, 2]));
    assert!(!all_distinct(&vec![3, 1, 3]));
    assert!(!all_distinct(&vec![1, 1]));
}

fn field(x: u16) -> Scalar {
    Scalar::from_u64(x as u64)
}

#[test]
fn lagrange_coefficients_meet_their_congruence() {
    for ids in [
        vec![1u16, 2, 3],
        vec![7, 3, 65535, 12, 400],
        vec![5],
        vec![1, 2, 2, 5],
        vec![9, 9],
        vec![4, 1, 4, 1, 4],
    ] {
        let basis = lagrange_at_zero(&ids).unwrap();
        let mut all = Scalar::from_u64(1);
        for x in ids.iter() {
            all = all.times(&field(*x));
        }
        for (i, coefficient) in basis.iter().enumerate() {
            let mut left = coefficient.times(&field(ids[i]));
            for x in ids.iter() {
                if *x != ids[i] {
                    left = left.times(&field(*x).minus(&field(ids[i])));
                }
            }
            assert_eq!(left, all);
        }
    }
}

#[test]
fn dealt_shares_are_values_of_one_polynomial() {
    let secret = Scalar::from_u64(1234);
    // Two coefficients: the values lie on a line through the secret at zero.
    let line = deal(&secret, 2, 5).unwrap();
    let step = line[1].1.minus(&line[0].1);
    for i in 1..5 {
        assert_eq!(line[i].1.minus(&line[i - 1].1), step);
    }
    assert_eq!(line[0].1.minus(&step), secret);
    // Three coefficients: the second differences are equal, and the parabola
    // passes through the secret at zero.
    let parabola = deal(&secret, 3, 6).unwrap();
    let first: Vec<Scalar> = (1..6).map(|i| parabola[i].1.minus(&parabola[i - 1].1)).collect();
    let second = first[1].minus(&first[0]);
    for i in 1..5 {
        assert_eq!(first[i].minus(&first[i - 1]), second);
    }
    let at_zero = parabola[0].1.minus(&first[0].minus(&second));
    assert_eq!(at_zero, secret);
}

#[test]
fn key_shares_are_sharings_of_their_own_scalars() {
    let sk = (Scalar::from_u64(21), Scalar::from_u64(34));
    let shares = share_sk(sk, 2, 4).unwrap();
    let step1 = shares[1].1.minus(&shares[0].1);
    let step2 = shares[1].2.minus(&shares[0].2);
    for i in 1..4 {
        assert_eq!(shares[i].1.minus(&shares[i - 1].1), step1);
        assert_eq!(shares[i].2.minus(&shares[i - 1].2), step2);
    }
    assert_eq!(shares[0].1.minus(&step1), sk.0);
    assert_eq!(shares[0].2.minus(&step2), sk.1);
}
