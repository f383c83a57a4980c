//! The privacy-preserving wrapper: per-ciphertext blinds that cancel only in
//! the aggregate.

use vstd::prelude::*;
use vstd::utf8::encode_utf8;

use crate::ciphertext::{Ciphertext, SameTagAggregate};
use crate::group::{
    g1_hash, g2_generator, g2_generator_bytes, group_order, gt_invert, gt_inverse, gt_mul, gt_pow, gt_power,
    gt_product, hash_to_g1, pair, pairing, GtElement, Scalar,
};
use crate::keys::sample_nonzero_scalar;

verus! {

/// Domain-separation tag of the privacy generator's hash into G1.
pub const PRIVACY_GENERATOR_DST: &'static str =
    "HSWE-V01_PRIVACY_GENERATOR_BLS12381G1_XMD:SHA-256_SSWU_RO_";

/// The message hashed into G1 to derive the privacy generator.
pub const PRIVACY_GENERATOR_MESSAGE: &'static str = "HSWE privacy blinding generator";

/// The privacy generator `h = e(H'(msg), g2)`.
pub open spec fn privacy_generator_value() -> Seq<u8> {
    pairing(
        hash_to_g1(encode_utf8(PRIVACY_GENERATOR_DST@), encode_utf8(PRIVACY_GENERATOR_MESSAGE@)),
        g2_generator_bytes(),
    )
}

/// Samples a fresh non-zero scalar for one user's ciphertext blind.
pub fn sample_blind() -> (r: Scalar)
    ensures
        0 < r@ < group_order(),
{
    sample_nonzero_scalar()
}

/// Returns a fixed, domain-separated target-group element used only for
/// privacy blinding.
pub fn privacy_generator() -> (r: GtElement)
    ensures
        r@ == privacy_generator_value(),
{
    let h_g1 = g1_hash(PRIVACY_GENERATOR_DST.as_bytes(), PRIVACY_GENERATOR_MESSAGE.as_bytes());
    pair(&h_g1, &g2_generator())
}

/// Blinds an individual ciphertext without changing its tag or U component:
/// `V` becomes `V · h^blind`.
pub fn blind_ciphertext(ciphertext: &Ciphertext, blind: Scalar) -> (r: Ciphertext)
    ensures
        r.spec_parameter_id() == ciphertext.spec_parameter_id(),
        r.spec_tag() == ciphertext.spec_tag(),
        r.spec_u() == ciphertext.spec_u(),
        r.spec_v()@ == gt_product(
            ciphertext.spec_v()@,
            gt_power(privacy_generator_value(), blind@),
        ),
{
    let h_to_blind = gt_pow(&privacy_generator(), &blind);
    let blinded_v = gt_mul(ciphertext.v(), &h_to_blind);

    Ciphertext::new(ciphertext.parameter_id(), ciphertext.tag().clone(), ciphertext.u(), blinded_v)
}

/// Removes the aggregate blind before standard same-tag decryption: `V`
/// becomes `V · (h^blind)⁻¹`. The power `h^blind` must be invertible.
pub fn remove_aggregate_blind(aggregate: &SameTagAggregate, aggregate_blind: Scalar) -> (r:
    SameTagAggregate)
    requires
        gt_inverse(gt_power(privacy_generator_value(), aggregate_blind@)) is Some,
    ensures
        r.spec_parameter_id() == aggregate.spec_parameter_id(),
        r.spec_tag() == aggregate.spec_tag(),
        r.spec_item_count() == aggregate.spec_item_count(),
        r.spec_u() == aggregate.spec_u(),
        r.spec_v()@ == gt_product(
            aggregate.spec_v()@,
            gt_inverse(gt_power(privacy_generator_value(), aggregate_blind@))->Some_0,
        ),
{
    let h_to_sum = gt_pow(&privacy_generator(), &aggregate_blind);
    let inverse = gt_invert(&h_to_sum).unwrap();

    SameTagAggregate::new(
        aggregate.parameter_id(),
        aggregate.tag().clone(),
        aggregate.item_count(),
        aggregate.u(),
        gt_mul(aggregate.v(), &inverse),
    )
}

/// Removes the aggregate blind when `h^blind` is invertible, and returns
/// `None` otherwise.
pub fn try_remove_aggregate_blind(aggregate: &SameTagAggregate, aggregate_blind: Scalar) -> (r:
    Option<SameTagAggregate>)
    ensures
        gt_inverse(gt_power(privacy_generator_value(), aggregate_blind@)) is None ==> r is None,
        gt_inverse(gt_power(privacy_generator_value(), aggregate_blind@)) is Some ==> (r matches Some(
            a,
        ) && a.spec_parameter_id() == aggregate.spec_parameter_id() && a.spec_tag()
            == aggregate.spec_tag() && a.spec_item_count() == aggregate.spec_item_count()
            && a.spec_u() == aggregate.spec_u() && a.spec_v()@ == gt_product(
            aggregate.spec_v()@,
            gt_inverse(gt_power(privacy_generator_value(), aggregate_blind@))->Some_0,
        )),
{
    let h_to_sum = gt_pow(&privacy_generator(), &aggregate_blind);
    match gt_invert(&h_to_sum) {
        Some(_) => Some(remove_aggregate_blind(aggregate, aggregate_blind)),
        None => None,
    }
}

} // verus!
