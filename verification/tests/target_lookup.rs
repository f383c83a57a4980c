use ark_bls12_381::{Bls12_381, Fq12};
use ark_ec::{pairing::Pairing, PrimeGroup};
use ark_ff::One;
use ark_serialize::CanonicalSerialize;

use hswe_implementation::{
    error::HsweError, group::GtElement, lookup::TargetLookupTable, params::HsweParameters,
};

fn from_gt(x: Fq12) -> GtElement {
    let mut bytes = Vec::new();
    x.serialize_compressed(&mut bytes).expect("serializes");
    GtElement::from_bytes(&bytes).expect("valid target element")
}

#[test]
fn lookup_recovers_every_value_in_its_configured_range() {
    let parameters = HsweParameters::new(4, 10).expect("parameters must be valid");
    let table = TargetLookupTable::new(parameters.parameter_id(), 10).expect("table must build");

    let g1 = <Bls12_381 as Pairing>::G1::generator();
    let g2 = <Bls12_381 as Pairing>::G2::generator();
    let generator = Bls12_381::pairing(g1, g2).0;
    let mut current = <Bls12_381 as Pairing>::TargetField::one();

    for message in 0..=10 {
        assert_eq!(table.lookup(&from_gt(current)), Ok(message));
        current *= generator;
    }
}

#[test]
fn lookup_rejects_a_value_outside_its_configured_range() {
    let parameters = HsweParameters::new(4, 10).expect("parameters must be valid");
    let table = TargetLookupTable::new(parameters.parameter_id(), 2).expect("table must build");

    let g1 = <Bls12_381 as Pairing>::G1::generator();
    let g2 = <Bls12_381 as Pairing>::G2::generator();
    let generator = Bls12_381::pairing(g1, g2).0;

    let out_of_range = generator * generator * generator;

    assert_eq!(table.lookup(&from_gt(out_of_range)), Err(HsweError::DiscreteLogOutOfRange));
}

#[test]
fn lookup_records_its_bound_parameter_identifier() {
    let parameters = HsweParameters::new(4, 10).expect("parameters must be valid");
    let table = TargetLookupTable::new(parameters.parameter_id(), 10).expect("table must build");

    assert_eq!(table.parameter_id(), parameters.parameter_id());
    assert_eq!(table.maximum_message(), 10);
}

#[test]
fn lookup_table_rejects_an_unrepresentable_bound() {
    let parameters = HsweParameters::new(4, 10).expect("parameters must be valid");
    assert_eq!(
        TargetLookupTable::new(parameters.parameter_id(), u64::MAX).err(),
        Some(HsweError::ResourceLimitExceeded)
    );
}

#[test]
fn single_entry_table_knows_only_one() {
    let parameters = HsweParameters::new(4, 10).expect("parameters must be valid");
    let table = TargetLookupTable::new(parameters.parameter_id(), 0).expect("table must build");
    assert_eq!(table.lookup(&from_gt(Fq12::one())), Ok(0));
    let g = Bls12_381::pairing(
        <Bls12_381 as Pairing>::G1::generator(),
        <Bls12_381 as Pairing>::G2::generator(),
    )
    .0;
    assert_eq!(table.lookup(&from_gt(g)), Err(HsweError::DiscreteLogOutOfRange));
}

#[test]
fn a_cloned_table_answers_like_the_original() {
    let parameters = HsweParameters::new(4, 10).expect("parameters must be valid");
    let table = TargetLookupTable::new(parameters.parameter_id(), 5).expect("table must build");
    let copy = table.clone();
    assert_eq!(copy.maximum_message(), 5);
    assert!(copy.parameter_id().same_as(&table.parameter_id()));

    let g1 = <Bls12_381 as Pairing>::G1::generator();
    let g2 = <Bls12_381 as Pairing>::G2::generator();
    let generator = Bls12_381::pairing(g1, g2).0;
    let three = generator * generator * generator;
    assert_eq!(copy.lookup(&from_gt(three)), Ok(3));
    assert_eq!(copy.lookup(&from_gt(three * three)), table.lookup(&from_gt(three * three)));
}
