//! Public, non-secret HSWE configuration and its 32-byte identifier.

use vstd::prelude::*;
use vstd::utf8::encode_utf8;

use crate::encoding::{be64, lemma_be64_injective, lemma_be64_round_trip, push_all, push_be64};
use crate::error::HsweError;

verus! {

pub const HSWE_VERSION: u8 = 1;

pub const INDIVIDUAL_MESSAGE_MAX: u64 = 65_535;

pub const AGGREGATE_MESSAGE_MAX: u64 = 65_535;

/// Domain-separation tag of the hash from canonical tags into G1.
pub const HSWE_TAG_DST: &'static str = "HSWE-V01_BLS12381G1_XMD:SHA-256_SSWU_RO_";

/// Name of SHA-256: the digest of a byte string.
pub uninterp spec fn sha256_digest(data: Seq<u8>) -> Seq<u8>;

/// `sha2::Sha256::digest`: the 32-byte SHA-256 digest of `data`. Its value
/// is named by `sha256_digest`; nothing more is stated of it.
#[verifier::external_body]
fn sha256(data: &[u8]) -> (r: [u8; 32])
    ensures
        r@ == sha256_digest(data@),
{
    <sha2::Sha256 as sha2::Digest>::digest(data).into()
}

/// The byte string whose SHA-256 digest identifies a configuration.
pub open spec fn parameter_preimage(individual_message_max: u64, aggregate_message_max: u64) -> Seq<
    u8,
> {
    encode_utf8("HSWE"@) + seq![HSWE_VERSION] + encode_utf8("BLS12-381"@) + encode_utf8(
        "G1xG2->GT"@,
    ) + encode_utf8(HSWE_TAG_DST@) + be64(individual_message_max) + be64(aggregate_message_max)
}

/// Configurations with the same bounds hash the same preimage; different
/// bounds give different preimages (the identifiers then differ unless SHA-256
/// collides).
pub proof fn lemma_parameter_preimage_injective(a1: u64, b1: u64, a2: u64, b2: u64)
    ensures
        (parameter_preimage(a1, b1) == parameter_preimage(a2, b2)) <==> (a1 == a2 && b1 == b2),
{
    let prefix = encode_utf8("HSWE"@) + seq![HSWE_VERSION] + encode_utf8("BLS12-381"@)
        + encode_utf8("G1xG2->GT"@) + encode_utf8(HSWE_TAG_DST@);
    let n = prefix.len() as int;
    lemma_be64_round_trip(a1);
    lemma_be64_round_trip(a2);
    lemma_be64_round_trip(b1);
    lemma_be64_round_trip(b2);
    let p1 = parameter_preimage(a1, b1);
    let p2 = parameter_preimage(a2, b2);
    assert(p1 == prefix + be64(a1) + be64(b1));
    assert(p2 == prefix + be64(a2) + be64(b2));
    if p1 == p2 {
        assert(p1.subrange(n, n + 8) == be64(a1));
        assert(p2.subrange(n, n + 8) == be64(a2));
        assert(p1.subrange(n + 8, n + 16) == be64(b1));
        assert(p2.subrange(n + 8, n + 16) == be64(b2));
        lemma_be64_injective(a1, a2);
        lemma_be64_injective(b1, b2);
    }
}

/// A 32-byte identifier binding objects to one public HSWE configuration.
#[derive(Clone, Copy, Debug, PartialEq, Eq, Hash)]
pub struct ParameterId([u8; 32]);

impl View for ParameterId {
    type V = Seq<u8>;

    closed spec fn view(&self) -> Seq<u8> {
        self.0@
    }
}

impl ParameterId {
    pub fn as_bytes(&self) -> (r: &[u8; 32])
        ensures
            r@ == self@,
    {
        &self.0
    }

    /// Tests whether two identifiers are equal.
    pub fn same_as(&self, other: &ParameterId) -> (r: bool)
        ensures
            r == (self@ == other@),
    {
        let mut i: usize = 0;
        while i < 32
            invariant
                i <= 32,
                forall|k: int| 0 <= k < i ==> self.0@[k] == other.0@[k],
            decreases 32 - i,
        {
            if self.0[i] != other.0[i] {
                return false;
            }
            i = i + 1;
        }
        assert(self.0@ == other.0@);
        true
    }
}

/// Public, non-secret HSWE v0.1 configuration.
#[derive(Clone, Debug, PartialEq, Eq)]
pub struct HsweParameters {
    individual_message_max: u64,
    aggregate_message_max: u64,
    parameter_id: ParameterId,
}

impl HsweParameters {
    /// The individual message bound of the configuration.
    pub closed spec fn spec_individual_max(&self) -> u64 {
        self.individual_message_max
    }

    /// The aggregate message bound of the configuration.
    pub closed spec fn spec_aggregate_max(&self) -> u64 {
        self.aggregate_message_max
    }

    /// The identifier of the configuration.
    pub closed spec fn spec_parameter_id(&self) -> ParameterId {
        self.parameter_id
    }

    /// The default v0.1 configuration.
    pub fn v0_1() -> (r: Result<Self, HsweError>)
        ensures
            r matches Ok(p) && p.spec_individual_max() == INDIVIDUAL_MESSAGE_MAX
                && p.spec_aggregate_max() == AGGREGATE_MESSAGE_MAX && p.spec_parameter_id()@
                == sha256_digest(parameter_preimage(INDIVIDUAL_MESSAGE_MAX, AGGREGATE_MESSAGE_MAX)),
    {
        Self::new(INDIVIDUAL_MESSAGE_MAX, AGGREGATE_MESSAGE_MAX)
    }

    /// A configuration with the given message bounds; the individual bound may
    /// not exceed the aggregate bound.
    pub fn new(individual_message_max: u64, aggregate_message_max: u64) -> (r: Result<
        Self,
        HsweError,
    >)
        ensures
            individual_message_max > aggregate_message_max ==> r == Err::<HsweParameters, HsweError>(
                HsweError::UnsupportedParameters,
            ),
            individual_message_max <= aggregate_message_max ==> (r matches Ok(p)
                && p.spec_individual_max() == individual_message_max && p.spec_aggregate_max()
                == aggregate_message_max && p.spec_parameter_id()@ == sha256_digest(
                parameter_preimage(individual_message_max, aggregate_message_max),
            )),
    {
        if individual_message_max > aggregate_message_max {
            return Err(HsweError::UnsupportedParameters);
        }

        let parameter_id = Self::derive_parameter_id(individual_message_max, aggregate_message_max);

        Ok(Self { individual_message_max, aggregate_message_max, parameter_id })
    }

    pub fn individual_message_max(&self) -> (r: u64)
        ensures
            r == self.spec_individual_max(),
    {
        self.individual_message_max
    }

    pub fn aggregate_message_max(&self) -> (r: u64)
        ensures
            r == self.spec_aggregate_max(),
    {
        self.aggregate_message_max
    }

    pub fn parameter_id(&self) -> (r: ParameterId)
        ensures
            r == self.spec_parameter_id(),
    {
        self.parameter_id
    }

    fn derive_parameter_id(individual_message_max: u64, aggregate_message_max: u64) -> (r:
        ParameterId)
        ensures
            r@ == sha256_digest(parameter_preimage(individual_message_max, aggregate_message_max)),
    {
        let mut preimage: Vec<u8> = Vec::new();
        push_all(&mut preimage, "HSWE".as_bytes());
        preimage.push(HSWE_VERSION);
        push_all(&mut preimage, "BLS12-381".as_bytes());
        push_all(&mut preimage, "G1xG2->GT".as_bytes());
        push_all(&mut preimage, HSWE_TAG_DST.as_bytes());
        push_be64(&mut preimage, individual_message_max);
        push_be64(&mut preimage, aggregate_message_max);
        assert(preimage@ == parameter_preimage(individual_message_max, aggregate_message_max));

        ParameterId(sha256(preimage.as_slice()))
    }
}

} // verus!
