use hswe_implementation::{
    error::HsweError,
    params::{HsweParameters, AGGREGATE_MESSAGE_MAX, INDIVIDUAL_MESSAGE_MAX},
};
use sha2::{Digest, Sha256};

#[test]
fn default_parameters_use_expected_bounds() {
    let parameters = HsweParameters::v0_1().expect("v0.1 parameters must be valid");

    assert_eq!(parameters.individual_message_max(), INDIVIDUAL_MESSAGE_MAX);
    assert_eq!(parameters.aggregate_message_max(), AGGREGATE_MESSAGE_MAX);
}

#[test]
fn identical_parameters_have_identical_identifiers() {
    let first = HsweParameters::v0_1().expect("parameters must be valid");
    let second = HsweParameters::v0_1().expect("parameters must be valid");

    assert_eq!(first.parameter_id(), second.parameter_id());
}

#[test]
fn changing_a_bound_changes_the_identifier() {
    let default_parameters = HsweParameters::v0_1().expect("parameters must be valid");
    let changed_parameters = HsweParameters::new(100, 200).expect("parameters must be valid");

    assert_ne!(default_parameters.parameter_id(), changed_parameters.parameter_id());
}

#[test]
fn individual_bound_cannot_exceed_aggregate_bound() {
    assert_eq!(HsweParameters::new(11, 10), Err(HsweError::UnsupportedParameters));
}

#[test]
fn identifier_is_sha256_of_the_documented_preimage() {
    let parameters = HsweParameters::new(10, 100).expect("parameters must be valid");

    let mut hasher = Sha256::new();
    hasher.update(b"HSWE");
    hasher.update([1u8]);
    hasher.update(b"BLS12-381");
    hasher.update(b"G1xG2->GT");
    hasher.update(b"HSWE-V01_BLS12381G1_XMD:SHA-256_SSWU_RO_");
    hasher.update(10u64.to_be_bytes());
    hasher.update(100u64.to_be_bytes());
    let expected: [u8; 32] = hasher.finalize().into();

    assert_eq!(parameters.parameter_id().as_bytes(), &expected);
}

#[test]
fn equal_bounds_are_accepted() {
    let parameters = HsweParameters::new(7, 7).expect("equal bounds are valid");
    assert_eq!(parameters.individual_message_max(), 7);
    assert_eq!(parameters.aggregate_message_max(), 7);
    assert!(parameters.parameter_id().same_as(&HsweParameters::new(7, 7).unwrap().parameter_id()));
    assert!(!parameters.parameter_id().same_as(&HsweParameters::new(6, 7).unwrap().parameter_id()));
}
