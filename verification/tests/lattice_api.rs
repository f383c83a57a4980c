use hswe_implementation::lattice::api::{decrypt, encrypt, evaluate_xor, extract, Tag};
use hswe_implementation::lattice::prototype::{target_from_tag, PrototypeError};

#[test]
fn end_to_end_same_tag_xor() {
    let tag = Tag::new(b"round:2026-07-27");
    let witness = extract(&tag);

    let ciphertexts = [encrypt(true, &tag, 1), encrypt(false, &tag, 2), encrypt(true, &tag, 3)];

    let aggregate = evaluate_xor(&ciphertexts).expect("all inputs use one tag");

    // true XOR false XOR true = false.
    assert!(!decrypt(&aggregate, &tag, &witness).expect("ciphertext, tag, and witness match"));
}

#[test]
fn aggregate_parity_matches_many_inputs() {
    let tag = Tag::new(b"round:noise-check");
    let witness = extract(&tag);

    let bits = [true, false, true, true, false, false, true, false, true, false, true, false];

    let ciphertexts: Vec<_> = bits
        .iter()
        .enumerate()
        .map(|(index, &bit)| encrypt(bit, &tag, index as u64 + 100))
        .collect();

    let expected_parity = bits.iter().fold(false, |parity, &bit| parity ^ bit);
    let aggregate = evaluate_xor(&ciphertexts).expect("all inputs use one tag");

    assert_eq!(decrypt(&aggregate, &tag, &witness).expect("matching tag"), expected_parity);
}

#[test]
fn aggregate_rejects_mixed_tags() {
    let first_tag = Tag::new(b"round:1");
    let second_tag = Tag::new(b"round:2");

    let ciphertexts = [encrypt(true, &first_tag, 1), encrypt(false, &second_tag, 2)];

    assert_eq!(evaluate_xor(&ciphertexts), Err(PrototypeError::MixedTags));
}

#[test]
fn decrypt_rejects_mismatched_tag() {
    let ciphertext_tag = Tag::new(b"round:1");
    let supplied_tag = Tag::new(b"round:2");

    let ciphertext = encrypt(true, &ciphertext_tag, 99);
    let witness = extract(&supplied_tag);

    assert_eq!(decrypt(&ciphertext, &supplied_tag, &witness), Err(PrototypeError::TagMismatch));
}

#[test]
fn api_tag_keeps_its_bytes_and_witness_matches_target() {
    let tag = Tag::new(b"round:bytes");
    assert_eq!(tag.as_bytes(), b"round:bytes");
    assert_eq!(extract(&tag).as_slice(), target_from_tag(b"round:bytes").as_slice());
}

#[test]
fn api_evaluate_xor_rejects_empty_input() {
    assert_eq!(evaluate_xor(&[]), Err(PrototypeError::EmptyAggregation));
}
