use ark_bls12_381::{Bls12_381, Fq12, G1Affine, G2Affine};
use ark_ec::{pairing::Pairing, AffineRepr, CurveGroup, PrimeGroup};
use ark_ff::One;
use ark_serialize::CanonicalSerialize;

use hswe_implementation::{
    ciphertext::{Ciphertext, CrossTagAggregate, SameTagAggregate, TagSignature, TaggedU},
    group::{G1Point, G2Point, GtElement},
    params::HsweParameters,
    tag::Tag,
};

fn encode<T: CanonicalSerialize>(x: &T) -> Vec<u8> {
    let mut bytes = Vec::new();
    x.serialize_compressed(&mut bytes).expect("serializes");
    bytes
}

#[test]
fn ciphertext_and_aggregate_containers_preserve_metadata() {
    let parameters = HsweParameters::v0_1().expect("parameters must be valid");
    let parameter_id = parameters.parameter_id();
    let tag = Tag::epoch("hswe.example", 42).expect("tag must be valid");

    let u_point: G2Affine = <Bls12_381 as Pairing>::G2::generator().into_affine();
    let u = G2Point::from_bytes(&encode(&u_point)).expect("valid point");
    let v_value = Bls12_381::pairing(
        <Bls12_381 as Pairing>::G1::generator(),
        <Bls12_381 as Pairing>::G2::generator(),
    )
    .0;
    let v = GtElement::from_bytes(&encode(&v_value)).expect("valid element");

    let ciphertext = Ciphertext::new(parameter_id, tag.clone(), u, v);
    assert_eq!(ciphertext.parameter_id(), parameter_id);
    assert_eq!(ciphertext.tag(), &tag);

    let same_tag = SameTagAggregate::new(parameter_id, tag.clone(), 3, u, v);
    assert_eq!(same_tag.item_count(), 3);
    assert_eq!(same_tag.tag(), &tag);

    let cross_tag = CrossTagAggregate::new(
        parameter_id,
        2,
        vec![
            TaggedU::new(tag.clone(), u),
            TaggedU::new(Tag::epoch("hswe.example", 43).unwrap(), u),
        ],
        v,
    );
    assert_eq!(cross_tag.item_count(), 2);
    assert_eq!(cross_tag.tagged_u().len(), 2);
}

#[test]
fn group_encodings_are_validated_and_round_trip() {
    let g1 = <Bls12_381 as Pairing>::G1::generator().into_affine();
    let g1_bytes = encode(&g1);
    let point = G1Point::from_bytes(&g1_bytes).expect("valid point");
    assert_eq!(point.to_bytes().to_vec(), g1_bytes);

    assert!(G1Point::from_bytes(&g1_bytes[..47]).is_none());
    let mut corrupted = g1_bytes.clone();
    corrupted[0] &= 0x7f;
    assert!(G1Point::from_bytes(&corrupted).is_none());
    assert!(G2Point::from_bytes(&[0u8; 96]).is_none());
    assert!(GtElement::from_bytes(&[0xffu8; 576]).is_none());

    let parameters = HsweParameters::v0_1().expect("parameters must be valid");
    let signature = TagSignature::new(parameters.parameter_id(), point);
    assert_eq!(signature.point(), point);
    assert_eq!(signature.parameter_id(), parameters.parameter_id());
}

#[test]
fn fixed_encodings_match_the_backend() {
    let one = encode(&Fq12::one());
    assert_eq!(one.len(), 576);
    assert_eq!(one[0], 1);
    assert!(one[1..].iter().all(|&b| b == 0));

    let identity = encode(&G2Affine::zero());
    assert_eq!(identity.len(), 96);
    assert_eq!(identity[0], 0xc0);
    assert!(identity[1..].iter().all(|&b| b == 0));

    assert_eq!(
        encode(&G1Affine::generator()),
        hex("97f1d3a73197d7942695638c4fa9ac0fc3688c4f9774b905a14e3a3f171bac586c55e83ff97a1aeffb3af00adb22c6bb")
    );
    assert_eq!(
        encode(&G2Affine::generator()),
        hex("93e02b6052719f607dacd3a088274f65596bd0d09920b61ab5da61bbdc7f5049334cf11213945d57e5ac7d055d042b7e024aa2b2f08f0a91260805272dc51051c6e47ad4fa403b02b4510b647ae3d1770bac0326a805bbefd48056c8c121bdb8")
    );
}

fn hex(s: &str) -> Vec<u8> {
    (0..s.len()).step_by(2).map(|i| u8::from_str_radix(&s[i..i + 2], 16).unwrap()).collect()
}
