//! Typed interface around the binary LWE-HSWE prototype algebra.
//!
//! This module is not production cryptography.

use vstd::prelude::*;

use super::prototype::{
    aggregate, aggregate_failure, aggregate_fits, aggregate_u, aggregate_v, decrypt_bit, enc_u,
    enc_v, encrypt_bit, extract_test_witness, phase_fits, spec_decode, spec_phase,
    spec_tag_id, spec_target, PrototypeError, ToyCiphertext,
};

verus! {

/// A public tag under which one or more bits are encrypted.
#[derive(Clone, Debug, PartialEq, Eq)]
pub struct Tag(Vec<u8>);

impl View for Tag {
    type V = Seq<u8>;

    closed spec fn view(&self) -> Seq<u8> {
        self.0@
    }
}

impl Tag {
    /// Creates a tag from arbitrary application-defined bytes.
    pub fn new(bytes: &[u8]) -> (r: Self)
        ensures
            r@ == bytes@,
    {
        Tag(vstd::slice::slice_to_vec(bytes))
    }

    /// Returns the canonical byte representation of this tag.
    pub fn as_bytes(&self) -> (r: &[u8])
        ensures
            r@ == self@,
    {
        self.0.as_slice()
    }
}

/// A test-only extraction result associated with one tag.
///
/// In a secure GPV implementation, this would contain a short preimage
/// sampled using a master trapdoor.
#[derive(Clone, Debug, PartialEq, Eq)]
pub struct PrototypeWitness {
    coordinates: Vec<i64>,
}

impl View for PrototypeWitness {
    type V = Seq<i64>;

    closed spec fn view(&self) -> Seq<i64> {
        self.coordinates@
    }
}

impl PrototypeWitness {
    /// Returns the prototype witness coordinates.
    pub fn as_slice(&self) -> (r: &[i64])
        ensures
            r@ == self@,
    {
        self.coordinates.as_slice()
    }
}

/// Encrypts one binary message under `tag`.
pub fn encrypt(bit: bool, tag: &Tag, nonce: u64) -> (r: ToyCiphertext)
    ensures
        r.tag_id == spec_tag_id(tag@),
        r.u@ == enc_u(nonce),
        r.v == enc_v(bit, tag@, nonce),
{
    encrypt_bit(bit, tag.as_bytes(), nonce)
}

/// Extracts the test-only witness associated with `tag`.
///
/// This is intentionally insecure: the witness is publicly derivable from the
/// tag because the prototype uses an identity matrix in place of GPV setup.
pub fn extract(tag: &Tag) -> (r: PrototypeWitness)
    ensures
        r@ == spec_target(tag@),
{
    let coordinates = extract_test_witness(tag.as_bytes());
    PrototypeWitness { coordinates }
}

/// Homomorphically XOR-aggregates ciphertexts encrypted under the same tag.
///
/// Returns `PrototypeError::MixedTags` if the ciphertexts belong to different
/// tags, and `PrototypeError::EmptyAggregation` for an empty input.
pub fn evaluate_xor(ciphertexts: &[ToyCiphertext]) -> (r: Result<ToyCiphertext, PrototypeError>)
    requires
        aggregate_fits(ciphertexts@),
    ensures
        match aggregate_failure(ciphertexts@) {
            Some(e) => r == Err::<ToyCiphertext, PrototypeError>(e),
            None => r matches Ok(a) && a.tag_id == ciphertexts@[0].tag_id && a.u@ == aggregate_u(
                ciphertexts@,
            ) && a.v == aggregate_v(ciphertexts@),
        },
{
    aggregate(ciphertexts)
}

/// Decrypts a ciphertext or aggregate using a witness extracted for `tag`.
///
/// Returns `PrototypeError::TagMismatch` if `tag` differs from the ciphertext
/// tag bound at the API level.
pub fn decrypt(ciphertext: &ToyCiphertext, tag: &Tag, witness: &PrototypeWitness) -> (r: Result<
    bool,
    PrototypeError,
>)
    requires
        ciphertext.tag_id == spec_tag_id(tag@) ==> phase_fits(ciphertext.u@, ciphertext.v, witness@),
    ensures
        ciphertext.tag_id != spec_tag_id(tag@) ==> r == Err::<bool, PrototypeError>(
            PrototypeError::TagMismatch,
        ),
        ciphertext.tag_id == spec_tag_id(tag@) ==> r == Ok::<bool, PrototypeError>(
            spec_decode(spec_phase(ciphertext.u@, ciphertext.v, witness@)),
        ),
{
    decrypt_bit(ciphertext, tag.as_bytes(), witness.as_slice())
}

} // verus!
