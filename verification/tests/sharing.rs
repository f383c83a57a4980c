use ark_bls12_381::Fr;
use ark_ff::{BigInteger, PrimeField, UniformRand};

use hswe_implementation::group::Scalar;
use hswe_implementation::sharing::{reconstruct_secret, split_secret, ScalarShare, SharingError};

fn to_fr(s: &Scalar) -> Fr {
    Fr::from_le_bytes_mod_order(&s.to_bytes())
}

#[test]
fn any_threshold_subset_reconstructs_the_secret() {
    let secret = Scalar::from_u64(987_654_321);
    let shares = split_secret(secret, 3, 5).expect("valid split");
    assert_eq!(shares.len(), 5);
    for (k, share) in shares.iter().enumerate() {
        assert_eq!(share.index(), k as u64 + 1);
    }
    assert_eq!(reconstruct_secret(&shares, 3), Ok(secret));
    let others = vec![shares[4], shares[1], shares[3]];
    assert_eq!(reconstruct_secret(&others, 3), Ok(secret));
}

#[test]
fn shares_lie_on_one_polynomial() {
    let secret = Scalar::from_u64(42);
    let shares = split_secret(secret, 2, 3).expect("valid split");
    // Degree one: f(1), f(2), f(3) are equally spaced.
    let f1 = to_fr(&shares[0].value());
    let f2 = to_fr(&shares[1].value());
    let f3 = to_fr(&shares[2].value());
    assert_eq!(f2 - f1, f3 - f2);
    assert_eq!(f1 - (f2 - f1), Fr::from(42u64));
}

#[test]
fn threshold_one_shares_are_the_secret() {
    let secret = Scalar::from_u64(7);
    let shares = split_secret(secret, 1, 2).expect("valid split");
    assert_eq!(shares[0].value(), secret);
    assert_eq!(shares[1].value(), secret);
    assert_eq!(reconstruct_secret(&shares[1..], 1), Ok(secret));
}

#[test]
fn sharing_errors_are_reported() {
    let secret = Scalar::from_u64(1);
    assert_eq!(split_secret(secret, 0, 3), Err(SharingError::ZeroThreshold));
    assert_eq!(split_secret(secret, 4, 3), Err(SharingError::ThresholdExceedsShareCount));
    assert_eq!(reconstruct_secret(&[], 0), Err(SharingError::ZeroThreshold));

    let shares = split_secret(secret, 2, 3).expect("valid split");
    assert_eq!(reconstruct_secret(&shares[..1], 2), Err(SharingError::InsufficientShares));
    let duplicated = vec![shares[0], shares[0]];
    assert_eq!(reconstruct_secret(&duplicated, 2), Err(SharingError::DuplicateShareIndex));
    assert_eq!(ScalarShare::new(0, secret), Err(SharingError::ZeroIndex));
}

#[test]
fn reconstruction_uses_lagrange_weights() {
    // Shares (1, 5) and (3, 11) lie on f(x) = 2 + 3x, so f(0) = 2.
    let a = ScalarShare::new(1, Scalar::from_u64(5)).unwrap();
    let b = ScalarShare::new(3, Scalar::from_u64(11)).unwrap();
    assert_eq!(reconstruct_secret(&[a, b], 2), Ok(Scalar::from_u64(2)));
}

#[test]
fn random_secrets_round_trip() {
    let mut rng = rand::rngs::OsRng;
    for _ in 0..3 {
        let value = Fr::rand(&mut rng);
        let bytes: Vec<u8> = value.into_bigint().to_bytes_le();
        let secret = Scalar::from_bytes(&bytes).expect("canonical");
        let shares = split_secret(secret, 3, 4).expect("valid split");
        assert_eq!(reconstruct_secret(&shares[1..], 3), Ok(secret));
    }
}

#[test]
fn scalar_encoding_is_canonical() {
    assert!(Scalar::from_bytes(&[0xffu8; 32]).is_none());
    assert!(Scalar::from_bytes(&[0u8; 31]).is_none());
    let zero = Scalar::from_bytes(&[0u8; 32]).expect("zero");
    assert!(zero.is_zero());
    assert_eq!(zero, Scalar::zero());
    assert!(!Scalar::from_u64(3).is_zero());
    let mut three = [0u8; 32];
    three[0] = 3;
    assert_eq!(Scalar::from_u64(3).to_bytes(), three);
}

#[test]
fn points_of_a_lower_degree_polynomial_reconstruct_its_constant_term() {
    // Three points of f(x) = 4 + 2x (two coefficients) with threshold three.
    let points: Vec<ScalarShare> = [(2u64, 8u64), (7, 18), (4, 12)]
        .iter()
        .map(|&(x, y)| ScalarShare::new(x, Scalar::from_u64(y)).unwrap())
        .collect();
    assert_eq!(reconstruct_secret(&points, 3), Ok(Scalar::from_u64(4)));
}

#[test]
fn shares_after_the_threshold_are_ignored() {
    let secret = Scalar::from_u64(31337);
    let shares = split_secret(secret, 2, 4).expect("valid split");
    let mut with_extra = vec![shares[3], shares[1]];
    // A repeated index and a share of another polynomial after the threshold.
    with_extra.push(shares[3]);
    with_extra.push(ScalarShare::new(9, Scalar::from_u64(1)).unwrap());
    assert_eq!(reconstruct_secret(&with_extra, 2), Ok(secret));
}
