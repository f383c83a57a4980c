//! Canonical HSWE epoch tags and their byte encoding.

use vstd::prelude::*;
use vstd::utf8::{decode_utf8, encode_utf8, valid_utf8};

use crate::encoding::{be64, be64_value, lemma_be64_round_trip, lemma_be64_value_round_trip, push_all, push_be64, read_be64};
use crate::error::HsweError;

verus! {

broadcast use {vstd::utf8::encode_utf8_decode_utf8, vstd::utf8::decode_utf8_encode_utf8};

pub const TAG_FORMAT_VERSION: u8 = 1;

pub const EPOCH_TAG_KIND: u8 = 1;

pub const MAX_APPLICATION_DOMAIN_BYTES: usize = 255;

/// A domain is acceptable when it is non-empty and its UTF-8 encoding has at
/// most 255 bytes.
pub open spec fn valid_domain(domain: Seq<char>) -> bool {
    domain.len() > 0 && encode_utf8(domain).len() <= MAX_APPLICATION_DOMAIN_BYTES
}

/// The only permitted byte encoding of an epoch tag: version, kind, domain
/// length, the UTF-8 domain and the big-endian epoch.
pub open spec fn tag_encoding(domain: Seq<char>, epoch: u64) -> Seq<u8> {
    seq![TAG_FORMAT_VERSION, EPOCH_TAG_KIND, encode_utf8(domain).len() as u8] + encode_utf8(domain)
        + be64(epoch)
}

/// The result of parsing `bytes` as a canonical epoch tag.
pub open spec fn parse_tag(bytes: Seq<u8>) -> Result<(Seq<char>, u64), HsweError> {
    let domain_length = bytes[2] as int;
    let domain_bytes = bytes.subrange(3, 3 + domain_length);
    if bytes.len() < 11 {
        Err(HsweError::InvalidTagEncoding)
    } else if bytes[0] != TAG_FORMAT_VERSION {
        Err(HsweError::InvalidTagEncoding)
    } else if bytes[1] != EPOCH_TAG_KIND {
        Err(HsweError::UnsupportedTagKind)
    } else if domain_length == 0 {
        Err(HsweError::InvalidTagEncoding)
    } else if bytes.len() != 3 + domain_length + 8 {
        Err(HsweError::InvalidTagEncoding)
    } else if !valid_utf8(domain_bytes) {
        Err(HsweError::InvalidTagEncoding)
    } else {
        Ok(
            (
                decode_utf8(domain_bytes),
                be64_value(bytes.subrange(3 + domain_length, 3 + domain_length + 8)),
            ),
        )
    }
}

/// `core::str::from_utf8`: the bytes as a string slice when they are valid
/// UTF-8. Its documentation states that it fails exactly on invalid UTF-8;
/// on success the slice's UTF-8 bytes are the input bytes.
#[verifier::external_body]
fn str_from_utf8(bytes: &[u8]) -> (r: Option<&str>)
    ensures
        r is Some <==> valid_utf8(bytes@),
        r matches Some(s) ==> encode_utf8(s@) == bytes@,
{
    core::str::from_utf8(bytes).ok()
}

/// A canonical HSWE encryption/signing tag.
#[derive(Debug, PartialEq, Eq)]
pub struct Tag {
    application_domain: String,
    epoch: u64,
}

impl View for Tag {
    type V = (Seq<char>, u64);

    closed spec fn view(&self) -> (Seq<char>, u64) {
        (self.application_domain@, self.epoch)
    }
}

proof fn lemma_encode_nonempty(domain: Seq<char>)
    ensures
        domain.len() > 0 <==> encode_utf8(domain).len() > 0,
{
    if domain.len() > 0 {
        assert(encode_utf8(domain) == vstd::utf8::encode_scalar(domain[0] as u32) + encode_utf8(
            domain.drop_first(),
        ));
    }
}

impl Clone for Tag {
    fn clone(&self) -> (r: Self)
        ensures
            r == *self,
    {
        proof {
            use_type_invariant(self);
        }
        Tag { application_domain: self.application_domain.clone(), epoch: self.epoch }
    }
}

impl Tag {
    /// Every tag has an acceptable domain; callers learn it with
    /// `use_type_invariant`.
    #[verifier::type_invariant]
    pub open spec fn well_formed(self) -> bool {
        valid_domain(self@.0)
    }

    /// Creates a canonical epoch tag; the domain must be non-empty and at most
    /// 255 bytes long.
    pub fn epoch(application_domain: &str, epoch: u64) -> (r: Result<Self, HsweError>)
        ensures
            valid_domain(application_domain@) ==> (r matches Ok(t) && t@ == (
                application_domain@,
                epoch,
            )),
            !valid_domain(application_domain@) ==> r == Err::<Tag, HsweError>(
                HsweError::InputTooLarge,
            ),
    {
        proof {
            lemma_encode_nonempty(application_domain@);
        }
        if application_domain.is_empty() || application_domain.as_bytes().len()
            > MAX_APPLICATION_DOMAIN_BYTES {
            return Err(HsweError::InputTooLarge);
        }
        Ok(Tag { application_domain: application_domain.to_owned(), epoch })
    }

    /// Returns the application-specific domain as UTF-8 text.
    pub fn application_domain(&self) -> (r: &str)
        ensures
            r@ == self@.0,
    {
        self.application_domain.as_str()
    }

    /// Returns the epoch number.
    pub fn epoch_number(&self) -> (r: u64)
        ensures
            r == self@.1,
    {
        self.epoch
    }

    /// Tests whether two tags are the same tag.
    pub fn same_as(&self, other: &Tag) -> (r: bool)
        ensures
            r == (self@ == other@),
    {
        self.epoch == other.epoch && self.application_domain == other.application_domain
    }

    /// Returns the only permitted v0.1 byte encoding for this tag.
    pub fn to_canonical_bytes(&self) -> (r: Vec<u8>)
        ensures
            r@ == tag_encoding(self@.0, self@.1),
    {
        proof {
            use_type_invariant(self);
        }
        let domain_bytes = self.application_domain.as_str().as_bytes();
        let domain_length = domain_bytes.len() as u8;

        let mut bytes: Vec<u8> = Vec::new();
        bytes.push(TAG_FORMAT_VERSION);
        bytes.push(EPOCH_TAG_KIND);
        bytes.push(domain_length);
        push_all(&mut bytes, domain_bytes);
        push_be64(&mut bytes, self.epoch);
        assert(bytes@ == tag_encoding(self@.0, self@.1));
        bytes
    }

    /// Parses a canonical v0.1 epoch tag and rejects every other encoding.
    pub fn from_canonical_bytes(bytes: &[u8]) -> (r: Result<Self, HsweError>)
        ensures
            match parse_tag(bytes@) {
                Ok(v) => r matches Ok(t) && t@ == v,
                Err(e) => r == Err::<Tag, HsweError>(e),
            },
            r matches Ok(t) ==> tag_encoding(t@.0, t@.1) == bytes@,
    {
        proof {
            lemma_parsed_tag_is_canonical(bytes@);
        }
        if bytes.len() < 11 {
            return Err(HsweError::InvalidTagEncoding);
        }
        if bytes[0] != TAG_FORMAT_VERSION {
            return Err(HsweError::InvalidTagEncoding);
        }
        if bytes[1] != EPOCH_TAG_KIND {
            return Err(HsweError::UnsupportedTagKind);
        }

        let domain_length = bytes[2] as usize;
        if domain_length == 0 {
            return Err(HsweError::InvalidTagEncoding);
        }

        let expected_length = 3 + domain_length + 8;
        if bytes.len() != expected_length {
            return Err(HsweError::InvalidTagEncoding);
        }

        let domain_end = 3 + domain_length;
        let domain_slice = vstd::slice::slice_subrange(bytes, 3, domain_end);
        let domain = match str_from_utf8(domain_slice) {
            Some(s) => s,
            None => return Err(HsweError::InvalidTagEncoding),
        };
        let epoch = read_be64(bytes, domain_end);
        proof {
            lemma_encode_nonempty(domain@);
            assert(domain@ == decode_utf8(domain_slice@));
        }
        Self::epoch(domain, epoch)
    }
}

/// Parsing the canonical encoding of a tag gives the tag back.
pub proof fn lemma_tag_round_trip(domain: Seq<char>, epoch: u64)
    requires
        valid_domain(domain),
    ensures
        parse_tag(tag_encoding(domain, epoch)) == Ok::<(Seq<char>, u64), HsweError>(
            (domain, epoch),
        ),
{
    let bytes = tag_encoding(domain, epoch);
    let d = encode_utf8(domain);
    lemma_encode_nonempty(domain);
    lemma_be64_round_trip(epoch);
    let n = d.len() as int;
    assert(bytes[2] as int == n);
    assert(bytes.subrange(3, 3 + n) == d);
    assert(bytes.subrange(3 + n, 3 + n + 8) == be64(epoch));
    vstd::utf8::encode_utf8_valid_utf8(domain);
}

/// Distinct tags have distinct canonical encodings.
pub proof fn lemma_tag_encoding_injective(d1: Seq<char>, e1: u64, d2: Seq<char>, e2: u64)
    requires
        valid_domain(d1),
        valid_domain(d2),
        (d1, e1) != (d2, e2),
    ensures
        tag_encoding(d1, e1) != tag_encoding(d2, e2),
{
    lemma_tag_round_trip(d1, e1);
    lemma_tag_round_trip(d2, e2);
}

/// Parsing accepts only canonical encodings: whatever it accepts is the
/// canonical encoding of the tag it returns, whose domain is acceptable.
pub proof fn lemma_parsed_tag_is_canonical(bytes: Seq<u8>)
    ensures
        parse_tag(bytes) matches Ok(t) ==> valid_domain(t.0) && tag_encoding(t.0, t.1) == bytes,
{
    if parse_tag(bytes) is Ok {
        let n = bytes[2] as int;
        let domain_bytes = bytes.subrange(3, 3 + n);
        let word = bytes.subrange(3 + n, 3 + n + 8);
        let d = decode_utf8(domain_bytes);
        assert(encode_utf8(d) == domain_bytes);
        lemma_encode_nonempty(d);
        lemma_be64_value_round_trip(word);
        assert(bytes =~= seq![bytes[0], bytes[1], bytes[2]] + domain_bytes + word);
        assert(encode_utf8(d).len() as u8 == bytes[2]);
    }
}

} // verus!
