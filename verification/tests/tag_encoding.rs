use hswe_implementation::{error::HsweError, tag::Tag};

#[test]
fn epoch_tag_round_trips_through_canonical_bytes() {
    let tag = Tag::epoch("hswe.example", 42).expect("tag must be valid");

    let bytes = tag.to_canonical_bytes();
    let recovered = Tag::from_canonical_bytes(&bytes).expect("tag bytes must parse");

    assert_eq!(tag, recovered);
    assert_eq!(recovered.application_domain(), "hswe.example");
    assert_eq!(recovered.epoch_number(), 42);
}

#[test]
fn distinct_epoch_tags_have_distinct_canonical_bytes() {
    let first = Tag::epoch("hswe.example", 42).expect("tag must be valid");
    let second = Tag::epoch("hswe.example", 43).expect("tag must be valid");
    let other_domain = Tag::epoch("other.example", 42).expect("tag must be valid");

    assert_ne!(first.to_canonical_bytes(), second.to_canonical_bytes());
    assert_ne!(first.to_canonical_bytes(), other_domain.to_canonical_bytes());
}

#[test]
fn malformed_tag_bytes_are_rejected() {
    assert_eq!(Tag::from_canonical_bytes(&[1, 1, 0]), Err(HsweError::InvalidTagEncoding));

    assert_eq!(
        Tag::from_canonical_bytes(&[2, 1, 1, b'a', 0, 0, 0, 0, 0, 0, 0, 1]),
        Err(HsweError::InvalidTagEncoding)
    );

    assert_eq!(
        Tag::from_canonical_bytes(&[1, 2, 1, b'a', 0, 0, 0, 0, 0, 0, 0, 1]),
        Err(HsweError::UnsupportedTagKind)
    );
}

#[test]
fn empty_or_oversized_domains_are_rejected() {
    assert_eq!(Tag::epoch("", 1), Err(HsweError::InputTooLarge));

    let oversized = "a".repeat(256);
    assert_eq!(Tag::epoch(&oversized, 1), Err(HsweError::InputTooLarge));
}

#[test]
fn canonical_bytes_have_the_documented_layout() {
    let tag = Tag::epoch("ab", 0x0102_0304_0506_0708).expect("tag must be valid");
    assert_eq!(tag.to_canonical_bytes(), vec![1, 1, 2, b'a', b'b', 1, 2, 3, 4, 5, 6, 7, 8]);
}

#[test]
fn domain_length_counts_utf8_bytes() {
    let exact = "é".repeat(127) + "a";
    assert_eq!(exact.len(), 255);
    let tag = Tag::epoch(&exact, 7).expect("255 bytes are allowed");
    assert_eq!(tag.to_canonical_bytes()[2], 255);
    assert_eq!(Tag::from_canonical_bytes(&tag.to_canonical_bytes()), Ok(tag));

    let too_long = "é".repeat(128);
    assert_eq!(Tag::epoch(&too_long, 7), Err(HsweError::InputTooLarge));
}

#[test]
fn non_canonical_tag_bytes_are_rejected() {
    // Zero-length domain.
    assert_eq!(
        Tag::from_canonical_bytes(&[1, 1, 0, 0, 0, 0, 0, 0, 0, 0, 1]),
        Err(HsweError::InvalidTagEncoding)
    );
    // Trailing byte.
    assert_eq!(
        Tag::from_canonical_bytes(&[1, 1, 1, b'a', 0, 0, 0, 0, 0, 0, 0, 1, 9]),
        Err(HsweError::InvalidTagEncoding)
    );
    // Invalid UTF-8 in the domain.
    assert_eq!(
        Tag::from_canonical_bytes(&[1, 1, 1, 0xff, 0, 0, 0, 0, 0, 0, 0, 1]),
        Err(HsweError::InvalidTagEncoding)
    );
    // A well-formed minimal tag parses.
    let tag = Tag::from_canonical_bytes(&[1, 1, 1, b'z', 0, 0, 0, 0, 0, 0, 1, 0]).expect("valid");
    assert_eq!(tag.application_domain(), "z");
    assert_eq!(tag.epoch_number(), 256);
}

#[test]
fn tag_comparison_and_clone_agree() {
    let tag = Tag::epoch("hswe.example", 42).expect("tag must be valid");
    let copy = tag.clone();
    assert!(tag.same_as(&copy));
    let other = Tag::epoch("hswe.example", 41).expect("tag must be valid");
    assert!(!tag.same_as(&other));
}
