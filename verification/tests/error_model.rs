use hswe_implementation::error::HsweError;
use hswe_implementation::sharing::SharingError;

#[test]
fn errors_have_stable_human_readable_messages() {
    assert_eq!(
        HsweError::IncompatibleTags.to_string(),
        "ciphertexts or aggregates use different tags"
    );

    assert_eq!(
        HsweError::DiscreteLogOutOfRange.to_string(),
        "target-group value is outside the discrete-log lookup range"
    );
}

#[test]
fn every_error_has_a_message() {
    assert_eq!(HsweError::RandomnessFailure.to_string(), "cryptographic randomness could not be obtained");
    assert_eq!(HsweError::UnsupportedParameters.to_string(), "unsupported HSWE parameter configuration");
    assert_eq!(SharingError::DuplicateShareIndex.to_string(), "duplicate share index");
}
