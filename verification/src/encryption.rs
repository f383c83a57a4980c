//! Encryption of bounded messages under a tag and a public key.

use vstd::prelude::*;

use crate::ciphertext::Ciphertext;
use crate::error::HsweError;
use crate::group::{
    g1_generator, g2_generator, g2_generator_scale, g2_is_zero, g2_mul_generator,
    g2_point_is_zero, group_order, gt_mul, gt_pow, gt_power, gt_product, pair, pairing, Scalar,
};
use crate::keys::{hash_tag, sample_nonzero_scalar, tag_hash, HswePublicKey};
use crate::lookup::gt_generator;
use crate::params::HsweParameters;
use crate::tag::Tag;

verus! {

/// The error, if any, that encryption reports before it draws randomness.
pub open spec fn encrypt_failure(
    parameters: HsweParameters,
    public_key: HswePublicKey,
    message: u64,
) -> Option<HsweError> {
    if public_key.spec_parameter_id()@ != parameters.spec_parameter_id()@ {
        Some(HsweError::IncompatibleParameters)
    } else if g2_is_zero(public_key.spec_point()@) {
        Some(HsweError::InvalidPublicKey)
    } else if message > parameters.spec_individual_max() {
        Some(HsweError::MessageOutOfRange)
    } else {
        None
    }
}

/// `U = g2^r` for the randomness `r`.
pub open spec fn encryption_u(randomness: nat) -> Seq<u8> {
    g2_generator_scale(randomness)
}

/// `V = gT^message · e(H(tag), public_key)^r` for the randomness `r`.
pub open spec fn encryption_v(
    public_key_point: Seq<u8>,
    tag: (Seq<char>, u64),
    message: u64,
    randomness: nat,
) -> Seq<u8> {
    gt_product(
        gt_power(gt_generator(), message as nat),
        gt_power(pairing(tag_hash(tag), public_key_point), randomness),
    )
}

/// `c` is the encryption of `message` under `tag` and `public_key` with
/// randomness `r`, bound to `parameters`.
pub open spec fn is_encryption(
    c: Ciphertext,
    parameters: HsweParameters,
    public_key: HswePublicKey,
    tag: Tag,
    message: u64,
    randomness: nat,
) -> bool {
    &&& c.spec_parameter_id() == parameters.spec_parameter_id()
    &&& c.spec_tag() == tag
    &&& c.spec_u()@ == encryption_u(randomness)
    &&& c.spec_v()@ == encryption_v(public_key.spec_point()@, tag@, message, randomness)
}

/// Encrypts a bounded non-negative message with the given randomness `r`:
/// the ciphertext is `(U, V)` with `U = g2^r` and
/// `V = gT^message · e(H(tag), public_key)^r`.
pub fn encrypt_with_randomness(
    parameters: &HsweParameters,
    public_key: &HswePublicKey,
    tag: Tag,
    message: u64,
    randomness: &Scalar,
) -> (r: Result<Ciphertext, HsweError>)
    ensures
        match encrypt_failure(*parameters, *public_key, message) {
            Some(e) => r == Err::<Ciphertext, HsweError>(e),
            None => r matches Ok(c) && is_encryption(
                c,
                *parameters,
                *public_key,
                tag,
                message,
                randomness@,
            ),
        },
        public_key.spec_parameter_id()@ != parameters.spec_parameter_id()@ ==> r == Err::<
            Ciphertext,
            HsweError,
        >(HsweError::IncompatibleParameters),
        public_key.spec_parameter_id()@ == parameters.spec_parameter_id()@ && g2_is_zero(
            public_key.spec_point()@,
        ) ==> r == Err::<Ciphertext, HsweError>(HsweError::InvalidPublicKey),
        public_key.spec_parameter_id()@ == parameters.spec_parameter_id()@ && !g2_is_zero(
            public_key.spec_point()@,
        ) && message > parameters.spec_individual_max() ==> r == Err::<Ciphertext, HsweError>(
            HsweError::MessageOutOfRange,
        ),
        r matches Ok(c) ==> public_key.spec_parameter_id()@ == parameters.spec_parameter_id()@
            && !g2_is_zero(public_key.spec_point()@) && message <= parameters.spec_individual_max()
            && c.spec_parameter_id() == parameters.spec_parameter_id() && c.spec_tag() == tag,
        public_key.spec_parameter_id()@ == parameters.spec_parameter_id()@ && !g2_is_zero(
            public_key.spec_point()@,
        ) && message <= parameters.spec_individual_max() ==> r is Ok,
{
    if !public_key.parameter_id().same_as(&parameters.parameter_id()) {
        return Err(HsweError::IncompatibleParameters);
    }

    if g2_point_is_zero(&public_key.point()) {
        return Err(HsweError::InvalidPublicKey);
    }

    if message > parameters.individual_message_max() {
        return Err(HsweError::MessageOutOfRange);
    }

    let g2 = g2_generator();
    let message_generator = pair(&g1_generator(), &g2);
    let message_component = gt_pow(&message_generator, &Scalar::from_u64(message));

    let mask_base = pair(&hash_tag(&tag), &public_key.point());
    let mask = gt_pow(&mask_base, randomness);

    let u = g2_mul_generator(randomness);
    let v = gt_mul(&message_component, &mask);

    Ok(Ciphertext::new(parameters.parameter_id(), tag, u, v))
}

/// Encrypts a bounded non-negative message under `tag` and `public_key` with
/// fresh non-zero randomness from the operating-system RNG.
pub fn encrypt(parameters: &HsweParameters, public_key: &HswePublicKey, tag: Tag, message: u64) -> (r:
    Result<Ciphertext, HsweError>)
    ensures
        match encrypt_failure(*parameters, *public_key, message) {
            Some(e) => r == Err::<Ciphertext, HsweError>(e),
            None => r matches Ok(c) && exists|k: nat|
                0 < k < group_order() && #[trigger] is_encryption(
                    c,
                    *parameters,
                    *public_key,
                    tag,
                    message,
                    k,
                ),
        },
        public_key.spec_parameter_id()@ != parameters.spec_parameter_id()@ ==> r == Err::<
            Ciphertext,
            HsweError,
        >(HsweError::IncompatibleParameters),
        public_key.spec_parameter_id()@ == parameters.spec_parameter_id()@ && g2_is_zero(
            public_key.spec_point()@,
        ) ==> r == Err::<Ciphertext, HsweError>(HsweError::InvalidPublicKey),
        public_key.spec_parameter_id()@ == parameters.spec_parameter_id()@ && !g2_is_zero(
            public_key.spec_point()@,
        ) && message > parameters.spec_individual_max() ==> r == Err::<Ciphertext, HsweError>(
            HsweError::MessageOutOfRange,
        ),
        r matches Ok(c) ==> public_key.spec_parameter_id()@ == parameters.spec_parameter_id()@
            && !g2_is_zero(public_key.spec_point()@) && message <= parameters.spec_individual_max()
            && c.spec_parameter_id() == parameters.spec_parameter_id() && c.spec_tag() == tag,
        public_key.spec_parameter_id()@ == parameters.spec_parameter_id()@ && !g2_is_zero(
            public_key.spec_point()@,
        ) && message <= parameters.spec_individual_max() ==> r is Ok,
{
    if !public_key.parameter_id().same_as(&parameters.parameter_id()) {
        return Err(HsweError::IncompatibleParameters);
    }

    if g2_point_is_zero(&public_key.point()) {
        return Err(HsweError::InvalidPublicKey);
    }

    if message > parameters.individual_message_max() {
        return Err(HsweError::MessageOutOfRange);
    }

    let randomness = sample_nonzero_scalar();
    let result = encrypt_with_randomness(parameters, public_key, tag, message, &randomness);
    proof {
        if result is Ok {
            assert(is_encryption(result->Ok_0, *parameters, *public_key, tag, message, randomness@));
        }
    }
    result
}

} // verus!
