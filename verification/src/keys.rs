//! BLS tag-signing keys: secret scalars, public keys in G2, signatures in G1.

use vstd::prelude::*;
use vstd::utf8::encode_utf8;

use crate::ciphertext::TagSignature;
use crate::group::{
    g1_hash, g1_is_zero, g1_mul, g1_point_is_zero, g1_scale, g2_generator,
    g2_generator_bytes, g2_generator_scale, g2_is_zero, g2_mul_generator, g2_point_is_zero,
    group_order, hash_to_g1, pair, pairing, scalar_random, G1Point, G2Point, Scalar,
};
use crate::params::{HsweParameters, ParameterId, HSWE_TAG_DST};
use crate::tag::{tag_encoding, Tag};

verus! {

/// How many draws a fresh non-zero scalar may take before sampling gives up.
pub const SCALAR_SAMPLING_ATTEMPTS: u32 = 64;

/// The hash into G1 of a tag's canonical encoding.
pub open spec fn tag_hash(tag: (Seq<char>, u64)) -> Seq<u8> {
    hash_to_g1(encode_utf8(HSWE_TAG_DST@), tag_encoding(tag.0, tag.1))
}

/// Hashes a canonical tag into G1.
pub fn hash_tag(tag: &Tag) -> (r: G1Point)
    ensures
        r@ == tag_hash(tag@),
{
    let message = tag.to_canonical_bytes();
    g1_hash(HSWE_TAG_DST.as_bytes(), message.as_slice())
}

/// Draws random scalars until one is non-zero, at most
/// `SCALAR_SAMPLING_ATTEMPTS` times. Should every draw be zero (each draw is
/// zero with probability `1/r`), it falls back to the scalar one, so a
/// non-zero scalar is always returned.
pub fn sample_nonzero_scalar() -> (r: Scalar)
    ensures
        0 < r@ < group_order(),
{
    let mut attempt: u32 = 0;
    while attempt < SCALAR_SAMPLING_ATTEMPTS
        invariant
            attempt <= SCALAR_SAMPLING_ATTEMPTS,
        decreases SCALAR_SAMPLING_ATTEMPTS - attempt,
    {
        let candidate = scalar_random();
        if !candidate.is_zero() {
            return candidate;
        }
        attempt = attempt + 1;
    }
    let one = Scalar::from_u64(1);
    proof {
        use_type_invariant(&one);
        Scalar::lemma_canonical(one);
    }
    one
}

/// A secret BLS signing scalar bound to one HSWE parameter configuration.
///
/// This type intentionally does not implement `Clone`, `Copy`, or `Debug`.
pub struct HsweSecretKey {
    parameter_id: ParameterId,
    scalar: Scalar,
}

impl HsweSecretKey {
    pub closed spec fn spec_parameter_id(&self) -> ParameterId {
        self.parameter_id
    }

    /// The secret scalar `s`.
    pub closed spec fn spec_scalar(&self) -> Scalar {
        self.scalar
    }

    /// Samples a fresh non-zero BLS secret scalar using the operating-system
    /// RNG.
    pub fn generate(parameters: &HsweParameters) -> (r: Self)
        ensures
            r.spec_parameter_id() == parameters.spec_parameter_id(),
            0 < r.spec_scalar()@ < group_order(),
    {
        Self { parameter_id: parameters.parameter_id(), scalar: sample_nonzero_scalar() }
    }

    /// Returns the parameter configuration bound to this key.
    pub fn parameter_id(&self) -> (r: ParameterId)
        ensures
            r == self.spec_parameter_id(),
    {
        self.parameter_id
    }

    /// Derives the corresponding public verification key `s · g2`.
    pub fn public_key(&self) -> (r: HswePublicKey)
        ensures
            r.spec_parameter_id() == self.spec_parameter_id(),
            r.spec_point()@ == g2_generator_scale(self.spec_scalar()@),
    {
        let point = g2_mul_generator(&self.scalar);
        HswePublicKey { parameter_id: self.parameter_id, point }
    }

    /// Produces a BLS signature `s · H(tag)` over a canonical HSWE tag.
    pub fn sign(&self, tag: &Tag) -> (r: TagSignature)
        ensures
            r.spec_parameter_id() == self.spec_parameter_id(),
            r.spec_point()@ == g1_scale(tag_hash(tag@), self.spec_scalar()@),
    {
        let hashed = hash_tag(tag);
        let point = g1_mul(&hashed, &self.scalar);
        TagSignature::new(self.parameter_id, point)
    }
}

/// Whether `signature` is accepted for `tag` under `public_key`: same
/// configuration, neither point the identity, and
/// `e(signature, g2) = e(H(tag), public_key)`.
pub open spec fn signature_verifies(
    public_key: HswePublicKey,
    tag: (Seq<char>, u64),
    signature: TagSignature,
) -> bool {
    &&& public_key.spec_parameter_id()@ == signature.spec_parameter_id()@
    &&& !g2_is_zero(public_key.spec_point()@)
    &&& !g1_is_zero(signature.spec_point()@)
    &&& pairing(signature.spec_point()@, g2_generator_bytes()) == pairing(
        tag_hash(tag),
        public_key.spec_point()@,
    )
}

/// A public BLS verification key bound to one HSWE parameter configuration.
#[derive(Clone, Copy, Debug, PartialEq, Eq)]
pub struct HswePublicKey {
    parameter_id: ParameterId,
    point: G2Point,
}

impl HswePublicKey {
    pub closed spec fn spec_parameter_id(&self) -> ParameterId {
        self.parameter_id
    }

    pub closed spec fn spec_point(&self) -> G2Point {
        self.point
    }

    /// Returns the parameter configuration bound to this key.
    pub fn parameter_id(&self) -> (r: ParameterId)
        ensures
            r == self.spec_parameter_id(),
    {
        self.parameter_id
    }

    /// Returns the public point `s · g2`.
    pub fn point(&self) -> (r: G2Point)
        ensures
            r == self.spec_point(),
    {
        self.point
    }

    /// Verifies a signature over a canonical HSWE tag.
    pub fn verify(&self, tag: &Tag, signature: &TagSignature) -> (r: bool)
        ensures
            r == signature_verifies(*self, tag@, *signature),
    {
        if !self.parameter_id.same_as(&signature.parameter_id()) {
            return false;
        }

        if g2_point_is_zero(&self.point) || g1_point_is_zero(&signature.point()) {
            return false;
        }

        let g2 = g2_generator();
        let left = pair(&signature.point(), &g2);
        let right = pair(&hash_tag(tag), &self.point);
        left.same_as(&right)
    }
}

} // verus!
