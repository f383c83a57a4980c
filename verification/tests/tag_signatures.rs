use ark_bls12_381::{g1, G1Projective};
use ark_ec::hashing::{curve_maps::wb::WBMap, map_to_curve_hasher::MapToCurveBasedHasher, HashToCurve};
use ark_ff::field_hashers::DefaultFieldHasher;
use ark_serialize::CanonicalSerialize;

use hswe_implementation::{keys::HsweSecretKey, params::HsweParameters, tag::Tag};

type G1Hasher =
    MapToCurveBasedHasher<G1Projective, DefaultFieldHasher<sha2::Sha256, 128>, WBMap<g1::Config>>;

#[test]
fn valid_tag_signature_verifies() {
    let parameters = HsweParameters::v0_1().expect("default parameters must be valid");
    let secret_key = HsweSecretKey::generate(&parameters);
    let public_key = secret_key.public_key();
    let tag = Tag::epoch("auction.example", 42).expect("tag must be valid");

    let signature = secret_key.sign(&tag);

    assert_eq!(secret_key.parameter_id(), parameters.parameter_id());
    assert_eq!(public_key.parameter_id(), parameters.parameter_id());
    assert_eq!(signature.parameter_id(), parameters.parameter_id());
    assert!(public_key.verify(&tag, &signature));
}

#[test]
fn signature_does_not_verify_for_a_different_tag() {
    let parameters = HsweParameters::v0_1().expect("default parameters must be valid");
    let secret_key = HsweSecretKey::generate(&parameters);
    let public_key = secret_key.public_key();

    let signed_tag = Tag::epoch("auction.example", 42).expect("tag must be valid");
    let other_tag = Tag::epoch("auction.example", 43).expect("tag must be valid");

    let signature = secret_key.sign(&signed_tag);

    assert!(!public_key.verify(&other_tag, &signature));
}

#[test]
fn signature_does_not_verify_under_a_different_public_key() {
    let parameters = HsweParameters::v0_1().expect("default parameters must be valid");
    let signer = HsweSecretKey::generate(&parameters);
    let other_signer = HsweSecretKey::generate(&parameters);
    let tag = Tag::epoch("auction.example", 42).expect("tag must be valid");

    let signature = signer.sign(&tag);

    assert!(signer.public_key().verify(&tag, &signature));
    assert!(!other_signer.public_key().verify(&tag, &signature));
}

#[test]
fn signature_is_rejected_when_parameter_ids_differ() {
    let signer_parameters = HsweParameters::new(10, 20).expect("custom parameters must be valid");
    let verifier_parameters = HsweParameters::new(11, 20).expect("custom parameters must be valid");

    let signer = HsweSecretKey::generate(&signer_parameters);
    let verifier = HsweSecretKey::generate(&verifier_parameters);
    let tag = Tag::epoch("auction.example", 42).expect("tag must be valid");

    let signature = signer.sign(&tag);

    assert_ne!(signer_parameters.parameter_id(), verifier_parameters.parameter_id());
    assert!(!verifier.public_key().verify(&tag, &signature));
}

#[test]
fn tag_hash_is_the_domain_separated_hash_to_g1() {
    let tag = Tag::epoch("auction.example", 42).expect("tag must be valid");
    let hasher = G1Hasher::new(b"HSWE-V01_BLS12381G1_XMD:SHA-256_SSWU_RO_").unwrap();
    let expected = hasher.hash(&tag.to_canonical_bytes()).unwrap();
    let mut bytes = Vec::new();
    expected.serialize_compressed(&mut bytes).unwrap();
    assert_eq!(hswe_implementation::keys::hash_tag(&tag).to_bytes().to_vec(), bytes);

    let other = Tag::epoch("auction.example", 43).expect("tag must be valid");
    assert_ne!(hswe_implementation::keys::hash_tag(&other), hswe_implementation::keys::hash_tag(&tag));
}
