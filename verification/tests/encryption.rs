use ark_bls12_381::{Bls12_381, Fq12, Fr, G1Affine, G2Affine};
use ark_ec::{pairing::Pairing, AffineRepr, CurveGroup, PrimeGroup};
use ark_ff::{Field, PrimeField};
use ark_serialize::{CanonicalDeserialize, CanonicalSerialize};

use hswe_implementation::{
    encryption::{encrypt, encrypt_with_randomness},
    error::HsweError,
    group::{G1Point, G2Point, GtElement, Scalar},
    keys::{hash_tag, HsweSecretKey},
    params::HsweParameters,
    tag::Tag,
};

fn test_tag() -> Tag {
    Tag::epoch("test-domain", 42).expect("test tag must be valid")
}

fn to_g1(p: &G1Point) -> G1Affine {
    G1Affine::deserialize_compressed(&p.to_bytes()[..]).expect("valid G1 point")
}

fn to_g2(p: &G2Point) -> G2Affine {
    G2Affine::deserialize_compressed(&p.to_bytes()[..]).expect("valid G2 point")
}

fn to_gt(p: &GtElement) -> Fq12 {
    Fq12::deserialize_compressed(&p.to_bytes()[..]).expect("valid target element")
}

fn from_gt(x: Fq12) -> GtElement {
    let mut bytes = Vec::new();
    x.serialize_compressed(&mut bytes).expect("serializes");
    GtElement::from_bytes(&bytes).expect("valid target element")
}

#[test]
fn encryption_binds_ciphertext_to_parameters_and_tag() {
    let parameters = HsweParameters::new(10, 100).expect("parameters must be valid");
    let secret_key = HsweSecretKey::generate(&parameters);
    let public_key = secret_key.public_key();
    let tag = test_tag();

    let ciphertext =
        encrypt(&parameters, &public_key, tag.clone(), 7).expect("encryption must succeed");

    assert_eq!(ciphertext.parameter_id(), parameters.parameter_id());
    assert_eq!(ciphertext.tag(), &tag);
}

#[test]
fn valid_signature_cancels_encryption_mask() {
    let parameters = HsweParameters::new(10, 100).expect("parameters must be valid");
    let secret_key = HsweSecretKey::generate(&parameters);
    let public_key = secret_key.public_key();
    let tag = test_tag();
    let message = 7;

    let ciphertext =
        encrypt(&parameters, &public_key, tag.clone(), message).expect("encryption must succeed");
    let signature = secret_key.sign(&tag);

    let pairing_mask = Bls12_381::pairing(to_g1(&signature.point()), to_g2(&ciphertext.u())).0;
    let recovered_target = to_gt(ciphertext.v())
        * pairing_mask.inverse().expect("pairing of non-zero points must be invertible");

    let g1 = <Bls12_381 as Pairing>::G1::generator();
    let g2 = <Bls12_381 as Pairing>::G2::generator();
    let message_generator = Bls12_381::pairing(g1, g2).0;

    assert_eq!(recovered_target, message_generator.pow([message]));
}

#[test]
fn encryption_rejects_messages_above_individual_limit() {
    let parameters = HsweParameters::new(10, 100).expect("parameters must be valid");
    let secret_key = HsweSecretKey::generate(&parameters);
    let public_key = secret_key.public_key();

    assert_eq!(
        encrypt(&parameters, &public_key, test_tag(), 11),
        Err(HsweError::MessageOutOfRange)
    );
}

#[test]
fn encryption_rejects_public_key_from_different_parameters() {
    let encryption_parameters = HsweParameters::new(10, 100).expect("parameters must be valid");
    let key_parameters = HsweParameters::new(11, 100).expect("parameters must be valid");
    let secret_key = HsweSecretKey::generate(&key_parameters);
    let public_key = secret_key.public_key();

    assert_eq!(
        encrypt(&encryption_parameters, &public_key, test_tag(), 7),
        Err(HsweError::IncompatibleParameters)
    );
}

#[test]
fn encryption_with_fixed_randomness_matches_the_formula() {
    let parameters = HsweParameters::new(10, 100).expect("parameters must be valid");
    let secret_key = HsweSecretKey::generate(&parameters);
    let public_key = secret_key.public_key();
    let tag = test_tag();
    let randomness = Scalar::from_u64(123_456_789);
    let r = Fr::from(123_456_789u64);

    let ciphertext = encrypt_with_randomness(&parameters, &public_key, tag.clone(), 9, &randomness)
        .expect("encryption must succeed");

    let g1 = G1Affine::generator();
    let g2 = G2Affine::generator();
    let expected_u = g2.mul_bigint(r.into_bigint()).into_affine();
    let mask_base = Bls12_381::pairing(to_g1(&hash_tag(&tag)), to_g2(&public_key.point())).0;
    let expected_v = Bls12_381::pairing(g1, g2).0.pow([9u64]) * mask_base.pow(r.into_bigint());

    assert_eq!(to_g2(&ciphertext.u()), expected_u);
    assert_eq!(*ciphertext.v(), from_gt(expected_v));
}

#[test]
fn message_at_the_individual_bound_is_accepted() {
    let parameters = HsweParameters::new(10, 100).expect("parameters must be valid");
    let secret_key = HsweSecretKey::generate(&parameters);
    let public_key = secret_key.public_key();
    assert!(encrypt(&parameters, &public_key, test_tag(), 10).is_ok());
}

#[test]
fn public_key_is_the_generator_multiple_of_the_secret() {
    let parameters = HsweParameters::new(10, 100).expect("parameters must be valid");
    let secret_key = HsweSecretKey::generate(&parameters);
    let public_key = secret_key.public_key();
    // e(H(tag)^s, g2) = e(H(tag), g2^s): the signature and public key share s.
    let tag = test_tag();
    let signature = secret_key.sign(&tag);
    let left = Bls12_381::pairing(to_g1(&signature.point()), G2Affine::generator());
    let right = Bls12_381::pairing(to_g1(&hash_tag(&tag)), to_g2(&public_key.point()));
    assert_eq!(left, right);
    assert!(!to_g2(&public_key.point()).is_zero());
}
