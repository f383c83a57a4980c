use ark_bls12_381::{Fq12, G2Affine};
use ark_ec::{AffineRepr, CurveGroup};
use ark_serialize::CanonicalDeserialize;

use hswe_implementation::{
    aggregation::{aggregate_cross_tag, aggregate_same_tag},
    decryption::decrypt_cross_tag_aggregate,
    encryption::encrypt,
    error::HsweError,
    group::{G2Point, GtElement},
    keys::HsweSecretKey,
    lookup::TargetLookupTable,
    params::HsweParameters,
    tag::Tag,
};

fn test_tag(epoch: u64) -> Tag {
    Tag::epoch("aggregation-test", epoch).expect("tag must be valid")
}

fn to_g2(p: &G2Point) -> G2Affine {
    G2Affine::deserialize_compressed(&p.to_bytes()[..]).expect("valid G2 point")
}

fn to_gt(p: &GtElement) -> Fq12 {
    Fq12::deserialize_compressed(&p.to_bytes()[..]).expect("valid target element")
}

#[test]
fn same_tag_aggregation_sums_ciphertext_components() {
    let parameters = HsweParameters::new(10, 100).expect("parameters must be valid");
    let secret_key = HsweSecretKey::generate(&parameters);
    let public_key = secret_key.public_key();
    let tag = test_tag(42);

    let first = encrypt(&parameters, &public_key, tag.clone(), 3).expect("must encrypt");
    let second = encrypt(&parameters, &public_key, tag.clone(), 4).expect("must encrypt");

    let aggregate =
        aggregate_same_tag(&parameters, &[first.clone(), second.clone()]).expect("must aggregate");

    assert_eq!(aggregate.parameter_id(), parameters.parameter_id());
    assert_eq!(aggregate.tag(), &tag);
    assert_eq!(aggregate.item_count(), 2);

    let expected_u = (to_g2(&first.u()).into_group() + to_g2(&second.u()).into_group()).into_affine();
    let expected_v = to_gt(first.v()) * to_gt(second.v());

    assert_eq!(to_g2(&aggregate.u()), expected_u);
    assert_eq!(to_gt(aggregate.v()), expected_v);
}

#[test]
fn same_tag_aggregation_rejects_an_empty_input() {
    let parameters = HsweParameters::new(10, 100).expect("parameters must be valid");

    assert_eq!(aggregate_same_tag(&parameters, &[]), Err(HsweError::EmptyAggregate));
}

#[test]
fn same_tag_aggregation_rejects_mixed_tags() {
    let parameters = HsweParameters::new(10, 100).expect("parameters must be valid");
    let secret_key = HsweSecretKey::generate(&parameters);
    let public_key = secret_key.public_key();

    let first = encrypt(&parameters, &public_key, test_tag(42), 3).expect("must encrypt");
    let second = encrypt(&parameters, &public_key, test_tag(43), 4).expect("must encrypt");

    assert_eq!(aggregate_same_tag(&parameters, &[first, second]), Err(HsweError::IncompatibleTags));
}

#[test]
fn same_tag_aggregation_rejects_parameter_mismatch() {
    let parameters = HsweParameters::new(10, 100).expect("parameters must be valid");
    let other_parameters = HsweParameters::new(11, 100).expect("parameters must be valid");
    let secret_key = HsweSecretKey::generate(&other_parameters);
    let public_key = secret_key.public_key();

    let ciphertext =
        encrypt(&other_parameters, &public_key, test_tag(42), 3).expect("must encrypt");

    assert_eq!(
        aggregate_same_tag(&parameters, &[ciphertext]),
        Err(HsweError::IncompatibleParameters)
    );
}

#[test]
fn cross_tag_aggregate_decrypts_to_the_message_sum() {
    let parameters = HsweParameters::new(10, 100).expect("parameters must be valid");
    let secret_key = HsweSecretKey::generate(&parameters);
    let public_key = secret_key.public_key();

    let first_tag = test_tag(42);
    let second_tag = test_tag(43);
    let third_tag = test_tag(44);

    let ciphertexts = vec![
        encrypt(&parameters, &public_key, first_tag.clone(), 2).expect("must encrypt"),
        encrypt(&parameters, &public_key, second_tag.clone(), 3).expect("must encrypt"),
        encrypt(&parameters, &public_key, third_tag.clone(), 5).expect("must encrypt"),
    ];

    let aggregate = aggregate_cross_tag(&parameters, &ciphertexts).expect("must aggregate");

    let signatures = vec![
        secret_key.sign(&first_tag),
        secret_key.sign(&second_tag),
        secret_key.sign(&third_tag),
    ];

    let lookup_table =
        TargetLookupTable::new(parameters.parameter_id(), 10).expect("table must build");

    assert_eq!(
        decrypt_cross_tag_aggregate(&parameters, &public_key, &aggregate, &signatures, &lookup_table,),
        Ok(10),
    );
}

#[test]
fn cross_tag_aggregate_keeps_each_tag_and_u_in_order() {
    let parameters = HsweParameters::new(10, 100).expect("parameters must be valid");
    let secret_key = HsweSecretKey::generate(&parameters);
    let public_key = secret_key.public_key();
    let ciphertexts = vec![
        encrypt(&parameters, &public_key, test_tag(1), 1).expect("must encrypt"),
        encrypt(&parameters, &public_key, test_tag(2), 2).expect("must encrypt"),
    ];
    let aggregate = aggregate_cross_tag(&parameters, &ciphertexts).expect("must aggregate");
    assert_eq!(aggregate.item_count(), 2);
    assert_eq!(aggregate.tagged_u().len(), 2);
    for (entry, ciphertext) in aggregate.tagged_u().iter().zip(&ciphertexts) {
        assert_eq!(entry.tag(), ciphertext.tag());
        assert_eq!(entry.u(), ciphertext.u());
    }
    assert_eq!(to_gt(aggregate.v()), to_gt(ciphertexts[0].v()) * to_gt(ciphertexts[1].v()));
}

#[test]
fn cross_tag_aggregation_rejects_empty_and_foreign_inputs() {
    let parameters = HsweParameters::new(10, 100).expect("parameters must be valid");
    let other_parameters = HsweParameters::new(11, 100).expect("parameters must be valid");
    assert_eq!(aggregate_cross_tag(&parameters, &[]), Err(HsweError::EmptyAggregate));

    let secret_key = HsweSecretKey::generate(&other_parameters);
    let ciphertext = encrypt(&other_parameters, &secret_key.public_key(), test_tag(1), 1)
        .expect("must encrypt");
    assert_eq!(
        aggregate_cross_tag(&parameters, &[ciphertext]),
        Err(HsweError::IncompatibleParameters)
    );
}

#[test]
fn cross_tag_decryption_checks_signature_count_and_order() {
    let parameters = HsweParameters::new(10, 100).expect("parameters must be valid");
    let secret_key = HsweSecretKey::generate(&parameters);
    let public_key = secret_key.public_key();
    let ciphertexts = vec![
        encrypt(&parameters, &public_key, test_tag(1), 1).expect("must encrypt"),
        encrypt(&parameters, &public_key, test_tag(2), 2).expect("must encrypt"),
    ];
    let aggregate = aggregate_cross_tag(&parameters, &ciphertexts).expect("must aggregate");
    let table = TargetLookupTable::new(parameters.parameter_id(), 10).expect("table must build");

    let one = vec![secret_key.sign(&test_tag(1))];
    assert_eq!(
        decrypt_cross_tag_aggregate(&parameters, &public_key, &aggregate, &one, &table),
        Err(HsweError::InvalidSignature)
    );

    let swapped = vec![secret_key.sign(&test_tag(2)), secret_key.sign(&test_tag(1))];
    assert_eq!(
        decrypt_cross_tag_aggregate(&parameters, &public_key, &aggregate, &swapped, &table),
        Err(HsweError::InvalidSignature)
    );
}
