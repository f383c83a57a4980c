//! The error type of the pairing-based HSWE API.

use vstd::prelude::*;

verus! {

/// Errors returned by the HSWE public APIs.
#[derive(Clone, Copy, Debug, PartialEq, Eq, Structural)]
pub enum HsweError {
    UnsupportedParameters,
    IncompatibleParameters,
    InvalidParameterId,
    InvalidTagEncoding,
    UnsupportedTagKind,
    InputTooLarge,
    MessageOutOfRange,
    InvalidPublicKey,
    InvalidSignature,
    InvalidCiphertext,
    InvalidAggregate,
    EmptyAggregate,
    IncompatibleTags,
    ItemCountOverflow,
    LookupTableMismatch,
    DiscreteLogOutOfRange,
    UnsupportedVersion,
    UnexpectedObjectType,
    MalformedSerialization,
    RandomnessFailure,
    ResourceLimitExceeded,
}

impl HsweError {
    /// The stable human-readable description of the error.
    pub open spec fn spec_message(&self) -> &'static str {
        match self {
            HsweError::UnsupportedParameters => "unsupported HSWE parameter configuration",
            HsweError::IncompatibleParameters => "incompatible HSWE parameters",
            HsweError::InvalidParameterId => "invalid parameter identifier",
            HsweError::InvalidTagEncoding => "invalid tag encoding",
            HsweError::UnsupportedTagKind => "unsupported tag kind",
            HsweError::InputTooLarge => "input exceeds the configured size limit",
            HsweError::MessageOutOfRange => "message is outside the configured range",
            HsweError::InvalidPublicKey => "invalid public key",
            HsweError::InvalidSignature => "invalid tag signature",
            HsweError::InvalidCiphertext => "invalid ciphertext",
            HsweError::InvalidAggregate => "invalid aggregate",
            HsweError::EmptyAggregate => "cannot aggregate an empty collection",
            HsweError::IncompatibleTags => "ciphertexts or aggregates use different tags",
            HsweError::ItemCountOverflow => "aggregate item count overflowed",
            HsweError::LookupTableMismatch => "lookup table does not match the supplied parameters",
            HsweError::DiscreteLogOutOfRange => "target-group value is outside the discrete-log lookup range",
            HsweError::UnsupportedVersion => "unsupported serialized object version",
            HsweError::UnexpectedObjectType => "unexpected serialized object type",
            HsweError::MalformedSerialization => "malformed serialized object",
            HsweError::RandomnessFailure => "cryptographic randomness could not be obtained",
            HsweError::ResourceLimitExceeded => "requested operation exceeds a configured resource limit",
        }
    }

    /// Returns the stable human-readable description of the error.
    pub fn to_string(&self) -> (s: String)
        ensures
            s@ == self.spec_message()@,
    {
        let text = match self {
            HsweError::UnsupportedParameters => "unsupported HSWE parameter configuration",
            HsweError::IncompatibleParameters => "incompatible HSWE parameters",
            HsweError::InvalidParameterId => "invalid parameter identifier",
            HsweError::InvalidTagEncoding => "invalid tag encoding",
            HsweError::UnsupportedTagKind => "unsupported tag kind",
            HsweError::InputTooLarge => "input exceeds the configured size limit",
            HsweError::MessageOutOfRange => "message is outside the configured range",
            HsweError::InvalidPublicKey => "invalid public key",
            HsweError::InvalidSignature => "invalid tag signature",
            HsweError::InvalidCiphertext => "invalid ciphertext",
            HsweError::InvalidAggregate => "invalid aggregate",
            HsweError::EmptyAggregate => "cannot aggregate an empty collection",
            HsweError::IncompatibleTags => "ciphertexts or aggregates use different tags",
            HsweError::ItemCountOverflow => "aggregate item count overflowed",
            HsweError::LookupTableMismatch => "lookup table does not match the supplied parameters",
            HsweError::DiscreteLogOutOfRange => "target-group value is outside the discrete-log lookup range",
            HsweError::UnsupportedVersion => "unsupported serialized object version",
            HsweError::UnexpectedObjectType => "unexpected serialized object type",
            HsweError::MalformedSerialization => "malformed serialized object",
            HsweError::RandomnessFailure => "cryptographic randomness could not be obtained",
            HsweError::ResourceLimitExceeded => "requested operation exceeds a configured resource limit",
        };
        text.to_owned()
    }
}

} // verus!
