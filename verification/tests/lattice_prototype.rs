use hswe_implementation::lattice::prototype::{
    aggregate, decrypt_bit, decryption_phase, encrypt_bit, extract_test_witness,
    is_within_noise_budget, tag_id, target_from_tag, PrototypeError, ToyCiphertext, DECODE_BOUND,
    DIMENSION, Q,
};

#[test]
fn encrypt_then_decrypts_zero() {
    let tag = b"epoch:42";
    let ciphertext = encrypt_bit(false, tag, 1);
    let witness = extract_test_witness(tag);

    assert!(
        !decrypt_bit(&ciphertext, tag, &witness).expect("ciphertext and witness use the same tag")
    );
}

#[test]
fn encrypt_then_decrypts_one() {
    let tag = b"epoch:42";
    let ciphertext = encrypt_bit(true, tag, 2);
    let witness = extract_test_witness(tag);

    assert!(
        decrypt_bit(&ciphertext, tag, &witness).expect("ciphertext and witness use the same tag")
    );
}

#[test]
fn aggregate_decrypts_to_xor_of_bits() {
    let tag = b"epoch:42";
    let ciphertexts = [
        encrypt_bit(true, tag, 11),
        encrypt_bit(false, tag, 12),
        encrypt_bit(true, tag, 13),
        encrypt_bit(true, tag, 14),
    ];

    let aggregate_ciphertext = aggregate(&ciphertexts).expect("ciphertexts use the same tag");
    let witness = extract_test_witness(tag);

    assert!(
        decrypt_bit(&aggregate_ciphertext, tag, &witness)
            .expect("aggregate and witness use the same tag")
    );
}

#[test]
fn even_number_of_ones_decrypts_to_zero() {
    let tag = b"epoch:42";
    let ciphertexts = [
        encrypt_bit(true, tag, 21),
        encrypt_bit(true, tag, 22),
        encrypt_bit(false, tag, 23),
        encrypt_bit(false, tag, 24),
    ];

    let aggregate_ciphertext = aggregate(&ciphertexts).expect("ciphertexts use the same tag");
    let witness = extract_test_witness(tag);

    assert!(
        !decrypt_bit(&aggregate_ciphertext, tag, &witness)
            .expect("aggregate and witness use the same tag")
    );
}

#[test]
fn distinct_tags_produce_distinct_prototype_witnesses() {
    let witness_a = extract_test_witness(b"epoch:42");
    let witness_b = extract_test_witness(b"epoch:43");

    assert_ne!(witness_a, witness_b);
}

#[test]
fn aggregation_rejects_mixed_tags() {
    let first = encrypt_bit(true, b"epoch:42", 1);
    let second = encrypt_bit(false, b"epoch:43", 2);

    assert_eq!(aggregate(&[first, second]), Err(PrototypeError::MixedTags));
}

#[test]
fn decryption_rejects_a_mismatched_tag() {
    let encryption_tag = b"epoch:42";
    let supplied_tag = b"epoch:43";

    let ciphertext = encrypt_bit(true, encryption_tag, 1);
    let wrong_witness = extract_test_witness(supplied_tag);

    assert_eq!(
        decrypt_bit(&ciphertext, supplied_tag, &wrong_witness),
        Err(PrototypeError::TagMismatch)
    );
}

#[test]
fn decoding_boundary_is_explicit() {
    assert!(is_within_noise_budget(DECODE_BOUND - 1));
    assert!(is_within_noise_budget(-(DECODE_BOUND - 1)));
    assert!(!is_within_noise_budget(DECODE_BOUND));
    assert!(!is_within_noise_budget(-DECODE_BOUND));
}

#[test]
fn excessive_error_can_flip_a_zero_bit() {
    let tag = b"epoch:42";
    let witness = extract_test_witness(tag);
    let valid = encrypt_bit(false, tag, 500);

    let tampered = ToyCiphertext {
        tag_id: valid.tag_id,
        u: valid.u.clone(),
        v: (valid.v + (Q / 2)).rem_euclid(Q),
    };

    assert!(!decrypt_bit(&valid, tag, &witness).expect("valid tag binding"));
    assert!(decrypt_bit(&tampered, tag, &witness).expect("valid tag binding"));

    let phase = decryption_phase(&valid, &witness);
    assert!(phase.abs() < DECODE_BOUND);
}

#[test]
fn tag_id_is_fnv1a_64() {
    // Published FNV-1a 64-bit test vectors.
    assert_eq!(tag_id(b""), 0xcbf2_9ce4_8422_2325);
    assert_eq!(tag_id(b"a"), 0xaf63_dc4c_8601_ec8c);
    assert_eq!(tag_id(b"foobar"), 0x8594_4171_f739_67e8);
}

#[test]
fn target_is_a_ternary_vector_of_the_dimension() {
    let target = target_from_tag(b"epoch:42");
    assert_eq!(target.len(), DIMENSION);
    assert!(target.iter().all(|&c| (-1..=1).contains(&c)));
    assert_eq!(target, extract_test_witness(b"epoch:42"));
}

#[test]
fn encryption_components_are_reduced() {
    let ciphertext = encrypt_bit(true, b"epoch:7", 99);
    assert_eq!(ciphertext.tag_id, tag_id(b"epoch:7"));
    assert_eq!(ciphertext.u.len(), DIMENSION);
    assert!(ciphertext.u.iter().all(|&c| (0..Q).contains(&c)));
    assert!((0..Q).contains(&ciphertext.v));
}

#[test]
fn aggregate_of_one_ciphertext_is_itself() {
    let ciphertext = encrypt_bit(true, b"epoch:7", 5);
    assert_eq!(aggregate(&[ciphertext.clone()]), Ok(ciphertext));
}

#[test]
fn aggregate_sums_components_modulo_q() {
    let first = ToyCiphertext { tag_id: 9, u: vec![Q - 1; DIMENSION], v: Q - 1 };
    let second = ToyCiphertext { tag_id: 9, u: vec![2; DIMENSION], v: 5 };
    let sum = aggregate(&[first, second]).expect("same tag");
    assert_eq!(sum.tag_id, 9);
    assert_eq!(sum.u, vec![1; DIMENSION]);
    assert_eq!(sum.v, 4);
}

#[test]
fn aggregate_rejects_empty_and_malformed_inputs() {
    assert_eq!(aggregate(&[]), Err(PrototypeError::EmptyAggregation));

    let short = ToyCiphertext { tag_id: 1, u: vec![0; 3], v: 0 };
    assert_eq!(aggregate(&[short]), Err(PrototypeError::InvalidCiphertextDimension));

    let good = ToyCiphertext { tag_id: 1, u: vec![0; DIMENSION], v: 0 };
    let bad = ToyCiphertext { tag_id: 1, u: vec![0; 2], v: 0 };
    assert_eq!(aggregate(&[good, bad]), Err(PrototypeError::InvalidCiphertextDimension));
}

#[test]
fn mixed_tags_are_reported_before_a_later_bad_dimension() {
    let good = ToyCiphertext { tag_id: 1, u: vec![0; DIMENSION], v: 0 };
    let other_tag = ToyCiphertext { tag_id: 2, u: vec![0; 2], v: 0 };
    assert_eq!(aggregate(&[good, other_tag]), Err(PrototypeError::MixedTags));
}

#[test]
fn parity_survives_many_aggregated_ciphertexts() {
    let tag = b"epoch:parity";
    let witness = extract_test_witness(tag);
    let bits: Vec<bool> = (0..175u64).map(|i| (i * 7 + 3) % 5 < 2).collect();
    let ciphertexts: Vec<ToyCiphertext> = bits
        .iter()
        .enumerate()
        .map(|(i, &bit)| encrypt_bit(bit, tag, 1_000 + i as u64))
        .collect();
    let expected = bits.iter().fold(false, |parity, &bit| parity ^ bit);
    let combined = aggregate(&ciphertexts).expect("same tag");
    assert_eq!(decrypt_bit(&combined, tag, &witness), Ok(expected));
}

#[test]
fn prototype_errors_have_descriptions() {
    assert_eq!(
        PrototypeError::MixedTags.to_string(),
        "cannot aggregate ciphertexts from different tags"
    );
    assert_eq!(
        PrototypeError::TagMismatch.to_string(),
        "witness does not match the ciphertext tag"
    );
}

#[test]
fn aggregation_does_not_depend_on_order() {
    let tag = b"epoch:7";
    let items: Vec<ToyCiphertext> =
        [(true, 1u64), (false, 2), (true, 3), (true, 4)].iter().map(|&(b, n)| encrypt_bit(b, tag, n)).collect();
    let reordered = vec![items[2].clone(), items[0].clone(), items[3].clone(), items[1].clone()];
    let a = aggregate(&items).expect("same tag");
    let b = aggregate(&reordered).expect("same tag");
    assert_eq!(a.tag_id, b.tag_id);
    assert_eq!(a.u, b.u);
    assert_eq!(a.v, b.v);
}
