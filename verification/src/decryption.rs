//! Decryption of ciphertexts and aggregates with tag signatures as witnesses.

use vstd::prelude::*;

use crate::ciphertext::{Ciphertext, CrossTagAggregate, SameTagAggregate, TagSignature, TaggedU};
use crate::error::HsweError;
use crate::group::{
    gt_invert, gt_inverse, gt_mul, gt_one, gt_one_bytes, gt_product, pair, pairing, GtElement,
};
use crate::keys::{signature_verifies, HswePublicKey};
use crate::lookup::{lookup_outcome, TargetLookupTable};
use crate::params::HsweParameters;

verus! {

/// `V · mask⁻¹`, or `None` when the mask is not invertible.
pub open spec fn unmask(v: Seq<u8>, mask: Seq<u8>) -> Option<Seq<u8>> {
    match gt_inverse(mask) {
        Some(inverse) => Some(gt_product(v, inverse)),
        None => None,
    }
}

/// The checks that decryption of an object bound to `object_parameter_id` and
/// `tag` runs before it computes anything, in order.
pub open spec fn decrypt_failure(
    parameters: HsweParameters,
    public_key: HswePublicKey,
    object_parameter_id: Seq<u8>,
    tag: (Seq<char>, u64),
    signature: TagSignature,
    lookup_table: TargetLookupTable,
) -> Option<HsweError> {
    let id = parameters.spec_parameter_id()@;
    if object_parameter_id != id || public_key.spec_parameter_id()@ != id
        || signature.spec_parameter_id()@ != id {
        Some(HsweError::IncompatibleParameters)
    } else if lookup_table.spec_parameter_id()@ != id {
        Some(HsweError::LookupTableMismatch)
    } else if !signature_verifies(public_key, tag, signature) {
        Some(HsweError::InvalidSignature)
    } else {
        None
    }
}

/// What decryption of `(U, V)` returns once the checks have passed.
pub open spec fn unmasked_outcome(
    u: Seq<u8>,
    v: Seq<u8>,
    signature: TagSignature,
    lookup_table: TargetLookupTable,
    not_invertible: HsweError,
    r: Result<u64, HsweError>,
) -> bool {
    match unmask(v, pairing(signature.spec_point()@, u)) {
        None => r == Err::<u64, HsweError>(not_invertible),
        Some(target) => lookup_outcome(lookup_table.spec_maximum_message(), target, r),
    }
}

/// What decryption of an object `(U, V)` bound to `object_parameter_id` and
/// `tag` returns: the first failed check's error, or the unmasked outcome.
pub open spec fn decrypt_outcome(
    parameters: HsweParameters,
    public_key: HswePublicKey,
    object_parameter_id: Seq<u8>,
    tag: (Seq<char>, u64),
    u: Seq<u8>,
    v: Seq<u8>,
    signature: TagSignature,
    lookup_table: TargetLookupTable,
    not_invertible: HsweError,
    r: Result<u64, HsweError>,
) -> bool {
    match decrypt_failure(parameters, public_key, object_parameter_id, tag, signature, lookup_table) {
        Some(e) => r == Err::<u64, HsweError>(e),
        None => unmasked_outcome(u, v, signature, lookup_table, not_invertible, r),
    }
}

/// Decrypts one ciphertext using a valid signature for its embedded tag.
///
/// The signature acts as the witness/decryption key. The lookup table must
/// have been built for the same parameter configuration.
pub fn decrypt(
    parameters: &HsweParameters,
    public_key: &HswePublicKey,
    ciphertext: &Ciphertext,
    signature: &TagSignature,
    lookup_table: &TargetLookupTable,
) -> (r: Result<u64, HsweError>)
    ensures
        decrypt_outcome(
            *parameters,
            *public_key,
            ciphertext.spec_parameter_id()@,
            ciphertext.spec_tag()@,
            ciphertext.spec_u()@,
            ciphertext.spec_v()@,
            *signature,
            *lookup_table,
            HsweError::InvalidCiphertext,
            r,
        ),
        ciphertext.spec_parameter_id()@ != parameters.spec_parameter_id()@
            || public_key.spec_parameter_id()@ != parameters.spec_parameter_id()@
            || signature.spec_parameter_id()@ != parameters.spec_parameter_id()@ ==> r == Err::<
            u64,
            HsweError,
        >(HsweError::IncompatibleParameters),
        ciphertext.spec_parameter_id()@ == parameters.spec_parameter_id()@
            && public_key.spec_parameter_id()@ == parameters.spec_parameter_id()@
            && signature.spec_parameter_id()@ == parameters.spec_parameter_id()@
            && lookup_table.spec_parameter_id()@ != parameters.spec_parameter_id()@ ==> r == Err::<
            u64,
            HsweError,
        >(HsweError::LookupTableMismatch),
{
    let id = parameters.parameter_id();
    if !ciphertext.parameter_id().same_as(&id) || !public_key.parameter_id().same_as(&id)
        || !signature.parameter_id().same_as(&id) {
        return Err(HsweError::IncompatibleParameters);
    }

    if !lookup_table.parameter_id().same_as(&id) {
        return Err(HsweError::LookupTableMismatch);
    }

    if !public_key.verify(ciphertext.tag(), signature) {
        return Err(HsweError::InvalidSignature);
    }

    let mask = pair(&signature.point(), &ciphertext.u());
    let inverse_mask = match gt_invert(&mask) {
        Some(inverse) => inverse,
        None => return Err(HsweError::InvalidCiphertext),
    };
    let recovered_target = gt_mul(ciphertext.v(), &inverse_mask);

    lookup_table.lookup(&recovered_target)
}

/// Decrypts a same-tag aggregate using one tag signature.
///
/// The result is the sum of all messages represented by the aggregate.
pub fn decrypt_same_tag_aggregate(
    parameters: &HsweParameters,
    public_key: &HswePublicKey,
    aggregate: &SameTagAggregate,
    signature: &TagSignature,
    lookup_table: &TargetLookupTable,
) -> (r: Result<u64, HsweError>)
    ensures
        decrypt_outcome(
            *parameters,
            *public_key,
            aggregate.spec_parameter_id()@,
            aggregate.spec_tag()@,
            aggregate.spec_u()@,
            aggregate.spec_v()@,
            *signature,
            *lookup_table,
            HsweError::InvalidAggregate,
            r,
        ),
        aggregate.spec_parameter_id()@ != parameters.spec_parameter_id()@
            || public_key.spec_parameter_id()@ != parameters.spec_parameter_id()@
            || signature.spec_parameter_id()@ != parameters.spec_parameter_id()@ ==> r == Err::<
            u64,
            HsweError,
        >(HsweError::IncompatibleParameters),
        aggregate.spec_parameter_id()@ == parameters.spec_parameter_id()@
            && public_key.spec_parameter_id()@ == parameters.spec_parameter_id()@
            && signature.spec_parameter_id()@ == parameters.spec_parameter_id()@
            && lookup_table.spec_parameter_id()@ != parameters.spec_parameter_id()@ ==> r == Err::<
            u64,
            HsweError,
        >(HsweError::LookupTableMismatch),
{
    let id = parameters.parameter_id();
    if !aggregate.parameter_id().same_as(&id) || !public_key.parameter_id().same_as(&id)
        || !signature.parameter_id().same_as(&id) {
        return Err(HsweError::IncompatibleParameters);
    }

    if !lookup_table.parameter_id().same_as(&id) {
        return Err(HsweError::LookupTableMismatch);
    }

    if !public_key.verify(aggregate.tag(), signature) {
        return Err(HsweError::InvalidSignature);
    }

    let mask = pair(&signature.point(), &aggregate.u());
    let inverse_mask = match gt_invert(&mask) {
        Some(inverse) => inverse,
        None => return Err(HsweError::InvalidAggregate),
    };
    let recovered_target = gt_mul(aggregate.v(), &inverse_mask);

    lookup_table.lookup(&recovered_target)
}

/// The product of the masks `e(σ_i, U_i)` of the first `n` entries.
pub open spec fn mask_product(tagged_u: Seq<TaggedU>, signatures: Seq<TagSignature>, n: int) -> Seq<
    u8,
>
    decreases n,
{
    if n <= 0 {
        gt_one_bytes()
    } else {
        gt_product(
            mask_product(tagged_u, signatures, n - 1),
            pairing(signatures[n - 1].spec_point()@, tagged_u[n - 1].spec_u()@),
        )
    }
}

/// The error, if any, reported while scanning the entries from index `i` on.
pub open spec fn cross_scan_failure(
    parameters: HsweParameters,
    public_key: HswePublicKey,
    tagged_u: Seq<TaggedU>,
    signatures: Seq<TagSignature>,
    i: int,
) -> Option<HsweError>
    decreases signatures.len() - i,
{
    if i < 0 || i >= signatures.len() {
        None
    } else if signatures[i].spec_parameter_id()@ != parameters.spec_parameter_id()@ {
        Some(HsweError::IncompatibleParameters)
    } else if !signature_verifies(public_key, tagged_u[i].spec_tag()@, signatures[i]) {
        Some(HsweError::InvalidSignature)
    } else {
        cross_scan_failure(parameters, public_key, tagged_u, signatures, i + 1)
    }
}

/// The error, if any, that cross-tag decryption reports before unmasking.
pub open spec fn cross_decrypt_failure(
    parameters: HsweParameters,
    public_key: HswePublicKey,
    aggregate: CrossTagAggregate,
    signatures: Seq<TagSignature>,
    lookup_table: TargetLookupTable,
) -> Option<HsweError> {
    let id = parameters.spec_parameter_id()@;
    if aggregate.spec_parameter_id()@ != id || public_key.spec_parameter_id()@ != id {
        Some(HsweError::IncompatibleParameters)
    } else if lookup_table.spec_parameter_id()@ != id {
        Some(HsweError::LookupTableMismatch)
    } else if signatures.len() != aggregate.spec_tagged_u().len() {
        Some(HsweError::InvalidSignature)
    } else {
        cross_scan_failure(parameters, public_key, aggregate.spec_tagged_u(), signatures, 0)
    }
}

/// What cross-tag decryption returns: the first failed check's error, or
/// the outcome of unmasking `V` by the product of the masks.
pub open spec fn cross_decrypt_outcome(
    parameters: HsweParameters,
    public_key: HswePublicKey,
    aggregate: CrossTagAggregate,
    signatures: Seq<TagSignature>,
    lookup_table: TargetLookupTable,
    r: Result<u64, HsweError>,
) -> bool {
    match cross_decrypt_failure(parameters, public_key, aggregate, signatures, lookup_table) {
        Some(e) => r == Err::<u64, HsweError>(e),
        None => match unmask(
            aggregate.spec_v()@,
            mask_product(aggregate.spec_tagged_u(), signatures, signatures.len() as int),
        ) {
            None => r == Err::<u64, HsweError>(HsweError::InvalidAggregate),
            Some(target) => lookup_outcome(lookup_table.spec_maximum_message(), target, r),
        },
    }
}

proof fn lemma_cross_scan_prefix(
    parameters: HsweParameters,
    public_key: HswePublicKey,
    tagged_u: Seq<TaggedU>,
    signatures: Seq<TagSignature>,
    i: int,
)
    requires
        0 <= i <= signatures.len(),
        forall|j: int|
            0 <= j < i ==> (#[trigger] signatures[j]).spec_parameter_id()@
                == parameters.spec_parameter_id()@ && signature_verifies(
                public_key,
                tagged_u[j].spec_tag()@,
                signatures[j],
            ),
    ensures
        cross_scan_failure(parameters, public_key, tagged_u, signatures, 0) == cross_scan_failure(
            parameters,
            public_key,
            tagged_u,
            signatures,
            i,
        ),
    decreases i,
{
    if i > 0 {
        lemma_cross_scan_prefix(parameters, public_key, tagged_u, signatures, i - 1);
        assert(signatures[i - 1].spec_parameter_id()@ == parameters.spec_parameter_id()@);
    }
}

/// Decrypts a cross-tag aggregate.
///
/// `signatures` must be supplied in precisely the same order as the aggregate's
/// retained `(tag, U)` entries.
pub fn decrypt_cross_tag_aggregate(
    parameters: &HsweParameters,
    public_key: &HswePublicKey,
    aggregate: &CrossTagAggregate,
    signatures: &[TagSignature],
    lookup_table: &TargetLookupTable,
) -> (r: Result<u64, HsweError>)
    ensures
        cross_decrypt_outcome(*parameters, *public_key, *aggregate, signatures@, *lookup_table, r),
        aggregate.spec_parameter_id()@ != parameters.spec_parameter_id()@
            || public_key.spec_parameter_id()@ != parameters.spec_parameter_id()@ ==> r == Err::<
            u64,
            HsweError,
        >(HsweError::IncompatibleParameters),
        aggregate.spec_parameter_id()@ == parameters.spec_parameter_id()@
            && public_key.spec_parameter_id()@ == parameters.spec_parameter_id()@
            && lookup_table.spec_parameter_id()@ != parameters.spec_parameter_id()@ ==> r == Err::<
            u64,
            HsweError,
        >(HsweError::LookupTableMismatch),
        aggregate.spec_parameter_id()@ == parameters.spec_parameter_id()@
            && public_key.spec_parameter_id()@ == parameters.spec_parameter_id()@
            && lookup_table.spec_parameter_id()@ == parameters.spec_parameter_id()@
            && signatures@.len() != aggregate.spec_tagged_u().len() ==> r == Err::<u64, HsweError>(
            HsweError::InvalidSignature,
        ),
{
    let id = parameters.parameter_id();
    if !aggregate.parameter_id().same_as(&id) || !public_key.parameter_id().same_as(&id) {
        return Err(HsweError::IncompatibleParameters);
    }

    if !lookup_table.parameter_id().same_as(&id) {
        return Err(HsweError::LookupTableMismatch);
    }

    let tagged_u = aggregate.tagged_u();
    if signatures.len() != tagged_u.len() {
        return Err(HsweError::InvalidSignature);
    }

    let mut masks = gt_one();
    let n = signatures.len();

    for i in 0..n
        invariant
            n == signatures@.len(),
            n == tagged_u@.len(),
            tagged_u@ == aggregate.spec_tagged_u(),
            id == parameters.spec_parameter_id(),
            aggregate.spec_parameter_id()@ == id@,
            public_key.spec_parameter_id()@ == id@,
            lookup_table.spec_parameter_id()@ == id@,
            masks@ == mask_product(tagged_u@, signatures@, i as int),
            forall|j: int|
                0 <= j < i ==> (#[trigger] signatures@[j]).spec_parameter_id()@
                    == parameters.spec_parameter_id()@ && signature_verifies(
                    *public_key,
                    tagged_u@[j].spec_tag()@,
                    signatures@[j],
                ),
    {
        proof {
            lemma_cross_scan_prefix(*parameters, *public_key, tagged_u@, signatures@, i as int);
        }
        let signature = &signatures[i];
        let entry = &tagged_u[i];
        if !signature.parameter_id().same_as(&id) {
            return Err(HsweError::IncompatibleParameters);
        }

        if !public_key.verify(entry.tag(), signature) {
            return Err(HsweError::InvalidSignature);
        }

        let mask = pair(&signature.point(), &entry.u());
        masks = gt_mul(&masks, &mask);
    }

    proof {
        lemma_cross_scan_prefix(*parameters, *public_key, tagged_u@, signatures@, n as int);
    }

    let inverse_masks = match gt_invert(&masks) {
        Some(inverse) => inverse,
        None => return Err(HsweError::InvalidAggregate),
    };
    let recovered_target = gt_mul(aggregate.v(), &inverse_masks);

    lookup_table.lookup(&recovered_target)
}

/// Decryption refuses a lookup table built for another configuration: when
/// the object, the key and the signature belong to the parameters but the
/// table does not, the outcome is `LookupTableMismatch`, whatever `U`, `V`
/// and the tag are.
pub proof fn lemma_decryption_rejects_foreign_table(
    parameters: HsweParameters,
    public_key: HswePublicKey,
    object_parameter_id: Seq<u8>,
    tag: (Seq<char>, u64),
    u: Seq<u8>,
    v: Seq<u8>,
    signature: TagSignature,
    lookup_table: TargetLookupTable,
    not_invertible: HsweError,
    r: Result<u64, HsweError>,
)
    requires
        decrypt_outcome(
            parameters,
            public_key,
            object_parameter_id,
            tag,
            u,
            v,
            signature,
            lookup_table,
            not_invertible,
            r,
        ),
        object_parameter_id == parameters.spec_parameter_id()@,
        public_key.spec_parameter_id()@ == parameters.spec_parameter_id()@,
        signature.spec_parameter_id()@ == parameters.spec_parameter_id()@,
        lookup_table.spec_parameter_id()@ != parameters.spec_parameter_id()@,
    ensures
        r == Err::<u64, HsweError>(HsweError::LookupTableMismatch),
{
}

/// Decryption succeeds only with a table of the parameters' configuration:
/// any `Ok` outcome had every identifier equal to the parameters' one.
pub proof fn lemma_decryption_success_needs_matching_identifiers(
    parameters: HsweParameters,
    public_key: HswePublicKey,
    object_parameter_id: Seq<u8>,
    tag: (Seq<char>, u64),
    u: Seq<u8>,
    v: Seq<u8>,
    signature: TagSignature,
    lookup_table: TargetLookupTable,
    not_invertible: HsweError,
    r: Result<u64, HsweError>,
)
    requires
        decrypt_outcome(
            parameters,
            public_key,
            object_parameter_id,
            tag,
            u,
            v,
            signature,
            lookup_table,
            not_invertible,
            r,
        ),
        r is Ok,
    ensures
        object_parameter_id == parameters.spec_parameter_id()@,
        public_key.spec_parameter_id()@ == parameters.spec_parameter_id()@,
        signature.spec_parameter_id()@ == parameters.spec_parameter_id()@,
        lookup_table.spec_parameter_id()@ == parameters.spec_parameter_id()@,
        r->Ok_0 <= lookup_table.spec_maximum_message(),
{
}

/// Cross-tag decryption refuses a lookup table built for another
/// configuration when the aggregate and the key belong to the parameters.
pub proof fn lemma_cross_decryption_rejects_foreign_table(
    parameters: HsweParameters,
    public_key: HswePublicKey,
    aggregate: CrossTagAggregate,
    signatures: Seq<TagSignature>,
    lookup_table: TargetLookupTable,
    r: Result<u64, HsweError>,
)
    requires
        cross_decrypt_outcome(parameters, public_key, aggregate, signatures, lookup_table, r),
        aggregate.spec_parameter_id()@ == parameters.spec_parameter_id()@,
        public_key.spec_parameter_id()@ == parameters.spec_parameter_id()@,
        lookup_table.spec_parameter_id()@ != parameters.spec_parameter_id()@,
    ensures
        r == Err::<u64, HsweError>(HsweError::LookupTableMismatch),
{
}

/// Cross-tag decryption succeeds only with one signature per entry, each of
/// the parameters' configuration, and a table of that configuration.
pub proof fn lemma_cross_decryption_success_needs_matching_inputs(
    parameters: HsweParameters,
    public_key: HswePublicKey,
    aggregate: CrossTagAggregate,
    signatures: Seq<TagSignature>,
    lookup_table: TargetLookupTable,
    r: Result<u64, HsweError>,
)
    requires
        cross_decrypt_outcome(parameters, public_key, aggregate, signatures, lookup_table, r),
        r is Ok,
    ensures
        aggregate.spec_parameter_id()@ == parameters.spec_parameter_id()@,
        public_key.spec_parameter_id()@ == parameters.spec_parameter_id()@,
        lookup_table.spec_parameter_id()@ == parameters.spec_parameter_id()@,
        signatures.len() == aggregate.spec_tagged_u().len(),
        forall|i: int|
            0 <= i < signatures.len() ==> (#[trigger] signatures[i]).spec_parameter_id()@
                == parameters.spec_parameter_id()@ && signature_verifies(
                public_key,
                aggregate.spec_tagged_u()[i].spec_tag()@,
                signatures[i],
            ),
        r->Ok_0 <= lookup_table.spec_maximum_message(),
{
    lemma_cross_scan_reports_every_bad_entry(parameters, public_key, aggregate.spec_tagged_u(), signatures, 0);
}

proof fn lemma_cross_scan_reports_every_bad_entry(
    parameters: HsweParameters,
    public_key: HswePublicKey,
    tagged_u: Seq<TaggedU>,
    signatures: Seq<TagSignature>,
    i: int,
)
    requires
        0 <= i,
        cross_scan_failure(parameters, public_key, tagged_u, signatures, i) is None,
    ensures
        forall|j: int|
            i <= j < signatures.len() ==> (#[trigger] signatures[j]).spec_parameter_id()@
                == parameters.spec_parameter_id()@ && signature_verifies(
                public_key,
                tagged_u[j].spec_tag()@,
                signatures[j],
            ),
    decreases signatures.len() - i,
{
    if i < signatures.len() {
        lemma_cross_scan_reports_every_bad_entry(parameters, public_key, tagged_u, signatures, i + 1);
    }
}

} // verus!
