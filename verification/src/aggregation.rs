//! Homomorphic aggregation of ciphertexts, under one tag or across tags.

use vstd::prelude::*;

use crate::ciphertext::{Ciphertext, CrossTagAggregate, SameTagAggregate, TaggedU};
use crate::error::HsweError;
use crate::group::{
    g2_add, g2_identity, g2_identity_bytes, g2_sum, gt_mul, gt_one, gt_one_bytes, gt_product,
};
use crate::params::HsweParameters;

verus! {

/// The sum of the `U` components of the first `n` ciphertexts, starting from
/// the identity of G2.
pub open spec fn u_total(ciphertexts: Seq<Ciphertext>, n: int) -> Seq<u8>
    decreases n,
{
    if n <= 0 {
        g2_identity_bytes()
    } else {
        g2_sum(u_total(ciphertexts, n - 1), ciphertexts[n - 1].spec_u()@)
    }
}

/// The product of the `V` components of the first `n` ciphertexts, starting
/// from one.
pub open spec fn v_total(ciphertexts: Seq<Ciphertext>, n: int) -> Seq<u8>
    decreases n,
{
    if n <= 0 {
        gt_one_bytes()
    } else {
        gt_product(v_total(ciphertexts, n - 1), ciphertexts[n - 1].spec_v()@)
    }
}

/// The error, if any, reported while scanning ciphertexts from index `i` on
/// for a same-tag aggregate under `tag`.
pub open spec fn same_tag_scan(
    parameters: HsweParameters,
    ciphertexts: Seq<Ciphertext>,
    tag: (Seq<char>, u64),
    i: int,
) -> Option<HsweError>
    decreases ciphertexts.len() - i,
{
    if i < 0 || i >= ciphertexts.len() {
        None
    } else if ciphertexts[i].spec_parameter_id()@ != parameters.spec_parameter_id()@ {
        Some(HsweError::IncompatibleParameters)
    } else if ciphertexts[i].spec_tag()@ != tag {
        Some(HsweError::IncompatibleTags)
    } else {
        same_tag_scan(parameters, ciphertexts, tag, i + 1)
    }
}

/// The error, if any, that same-tag aggregation reports.
pub open spec fn same_tag_failure(parameters: HsweParameters, ciphertexts: Seq<Ciphertext>) -> Option<
    HsweError,
> {
    if ciphertexts.len() == 0 {
        Some(HsweError::EmptyAggregate)
    } else if ciphertexts[0].spec_parameter_id()@ != parameters.spec_parameter_id()@ {
        Some(HsweError::IncompatibleParameters)
    } else {
        same_tag_scan(parameters, ciphertexts, ciphertexts[0].spec_tag()@, 0)
    }
}

proof fn lemma_same_tag_scan_prefix(
    parameters: HsweParameters,
    ciphertexts: Seq<Ciphertext>,
    tag: (Seq<char>, u64),
    i: int,
)
    requires
        0 <= i <= ciphertexts.len(),
        forall|j: int|
            0 <= j < i ==> (#[trigger] ciphertexts[j]).spec_parameter_id()@
                == parameters.spec_parameter_id()@ && ciphertexts[j].spec_tag()@ == tag,
    ensures
        same_tag_scan(parameters, ciphertexts, tag, 0) == same_tag_scan(
            parameters,
            ciphertexts,
            tag,
            i,
        ),
    decreases i,
{
    if i > 0 {
        lemma_same_tag_scan_prefix(parameters, ciphertexts, tag, i - 1);
        assert(ciphertexts[i - 1].spec_parameter_id()@ == parameters.spec_parameter_id()@);
    }
}

/// Homomorphically aggregates ciphertexts encrypted under the same tag.
///
/// The returned aggregate encrypts the sum of the input messages: its `U` is
/// the sum of the inputs' `U` and its `V` the product of their `V`.
pub fn aggregate_same_tag(parameters: &HsweParameters, ciphertexts: &[Ciphertext]) -> (r: Result<
    SameTagAggregate,
    HsweError,
>)
    ensures
        match same_tag_failure(*parameters, ciphertexts@) {
            Some(e) => r == Err::<SameTagAggregate, HsweError>(e),
            None => r matches Ok(a) && a.spec_parameter_id() == parameters.spec_parameter_id()
                && a.spec_tag() == ciphertexts@[0].spec_tag() && a.spec_item_count()
                == ciphertexts@.len() && a.spec_u()@ == u_total(ciphertexts@, ciphertexts@.len() as int)
                && a.spec_v()@ == v_total(ciphertexts@, ciphertexts@.len() as int),
        },
        ciphertexts@.len() == 0 ==> r == Err::<SameTagAggregate, HsweError>(
            HsweError::EmptyAggregate,
        ),
        all_under_parameters(*parameters, ciphertexts@) && all_under_tag(
            ciphertexts@,
            ciphertexts@[0].spec_tag()@,
        ) && ciphertexts@.len() > 0 ==> r is Ok,
        r is Ok ==> ciphertexts@.len() > 0 && all_under_parameters(*parameters, ciphertexts@)
            && all_under_tag(ciphertexts@, ciphertexts@[0].spec_tag()@),
{
    proof {
        lemma_same_tag_aggregation_conditions(*parameters, ciphertexts@);
    }
    if ciphertexts.len() == 0 {
        return Err(HsweError::EmptyAggregate);
    }
    let first = &ciphertexts[0];
    let id = parameters.parameter_id();

    if !first.parameter_id().same_as(&id) {
        return Err(HsweError::IncompatibleParameters);
    }

    let tag = first.tag().clone();
    let mut u = g2_identity();
    let mut v = gt_one();
    let mut item_count: u64 = 0;
    let n = ciphertexts.len();

    for i in 0..n
        invariant
            n == ciphertexts@.len(),
            n > 0,
            id == parameters.spec_parameter_id(),
            ciphertexts@[0].spec_parameter_id()@ == id@,
            tag == ciphertexts@[0].spec_tag(),
            item_count == i,
            u@ == u_total(ciphertexts@, i as int),
            v@ == v_total(ciphertexts@, i as int),
            forall|j: int|
                0 <= j < i ==> (#[trigger] ciphertexts@[j]).spec_parameter_id()@
                    == parameters.spec_parameter_id()@ && ciphertexts@[j].spec_tag()@ == tag@,
    {
        proof {
            lemma_same_tag_scan_prefix(*parameters, ciphertexts@, tag@, i as int);
        }
        let ciphertext = &ciphertexts[i];
        if !ciphertext.parameter_id().same_as(&id) {
            return Err(HsweError::IncompatibleParameters);
        }

        if !ciphertext.tag().same_as(&tag) {
            return Err(HsweError::IncompatibleTags);
        }

        item_count = match item_count.checked_add(1) {
            Some(count) => count,
            None => return Err(HsweError::ItemCountOverflow),
        };

        u = g2_add(&u, &ciphertext.u());
        v = gt_mul(&v, ciphertext.v());
    }

    proof {
        lemma_same_tag_scan_prefix(*parameters, ciphertexts@, tag@, n as int);
    }
    Ok(SameTagAggregate::new(parameters.parameter_id(), tag, item_count, u, v))
}

/// The error, if any, reported while scanning ciphertexts from index `i` on
/// for a cross-tag aggregate.
pub open spec fn cross_tag_scan(parameters: HsweParameters, ciphertexts: Seq<Ciphertext>, i: int) -> Option<
    HsweError,
>
    decreases ciphertexts.len() - i,
{
    if i < 0 || i >= ciphertexts.len() {
        None
    } else if ciphertexts[i].spec_parameter_id()@ != parameters.spec_parameter_id()@ {
        Some(HsweError::IncompatibleParameters)
    } else {
        cross_tag_scan(parameters, ciphertexts, i + 1)
    }
}

/// The error, if any, that cross-tag aggregation reports.
pub open spec fn cross_tag_failure(parameters: HsweParameters, ciphertexts: Seq<Ciphertext>) -> Option<
    HsweError,
> {
    if ciphertexts.len() == 0 {
        Some(HsweError::EmptyAggregate)
    } else {
        cross_tag_scan(parameters, ciphertexts, 0)
    }
}

proof fn lemma_cross_tag_scan_prefix(parameters: HsweParameters, ciphertexts: Seq<Ciphertext>, i: int)
    requires
        0 <= i <= ciphertexts.len(),
        forall|j: int|
            0 <= j < i ==> (#[trigger] ciphertexts[j]).spec_parameter_id()@
                == parameters.spec_parameter_id()@,
    ensures
        cross_tag_scan(parameters, ciphertexts, 0) == cross_tag_scan(parameters, ciphertexts, i),
    decreases i,
{
    if i > 0 {
        lemma_cross_tag_scan_prefix(parameters, ciphertexts, i - 1);
        assert(ciphertexts[i - 1].spec_parameter_id()@ == parameters.spec_parameter_id()@);
    }
}

/// Homomorphically aggregates ciphertexts encrypted under potentially
/// different tags but under one parameter configuration.
///
/// Each tag and its corresponding `U` component are retained so that the
/// aggregate can later be decrypted with the matching tag signatures.
pub fn aggregate_cross_tag(parameters: &HsweParameters, ciphertexts: &[Ciphertext]) -> (r: Result<
    CrossTagAggregate,
    HsweError,
>)
    ensures
        match cross_tag_failure(*parameters, ciphertexts@) {
            Some(e) => r == Err::<CrossTagAggregate, HsweError>(e),
            None => r matches Ok(a) && a.spec_parameter_id() == parameters.spec_parameter_id()
                && a.spec_item_count() == ciphertexts@.len() && a.spec_tagged_u().len()
                == ciphertexts@.len() && (forall|k: int|
                0 <= k < ciphertexts@.len() ==> (#[trigger] a.spec_tagged_u()[k]).spec_tag()
                    == ciphertexts@[k].spec_tag() && a.spec_tagged_u()[k].spec_u()
                    == ciphertexts@[k].spec_u()) && a.spec_v()@ == v_total(
                ciphertexts@,
                ciphertexts@.len() as int,
            ),
        },
        ciphertexts@.len() == 0 ==> r == Err::<CrossTagAggregate, HsweError>(
            HsweError::EmptyAggregate,
        ),
        ciphertexts@.len() > 0 && all_under_parameters(*parameters, ciphertexts@) ==> r is Ok,
        r is Ok ==> ciphertexts@.len() > 0 && all_under_parameters(*parameters, ciphertexts@),
        r matches Err(e) ==> e == HsweError::EmptyAggregate || e == HsweError::IncompatibleParameters,
{
    proof {
        lemma_cross_tag_aggregation_conditions(*parameters, ciphertexts@);
    }
    if ciphertexts.len() == 0 {
        return Err(HsweError::EmptyAggregate);
    }

    let id = parameters.parameter_id();
    let mut tagged_u: Vec<TaggedU> = Vec::new();
    let mut v = gt_one();
    let mut item_count: u64 = 0;
    let n = ciphertexts.len();

    for i in 0..n
        invariant
            n == ciphertexts@.len(),
            n > 0,
            id == parameters.spec_parameter_id(),
            item_count == i,
            tagged_u@.len() == i,
            forall|k: int|
                0 <= k < i ==> (#[trigger] tagged_u@[k]).spec_tag() == ciphertexts@[k].spec_tag()
                    && tagged_u@[k].spec_u() == ciphertexts@[k].spec_u(),
            v@ == v_total(ciphertexts@, i as int),
            forall|j: int|
                0 <= j < i ==> (#[trigger] ciphertexts@[j]).spec_parameter_id()@
                    == parameters.spec_parameter_id()@,
    {
        proof {
            lemma_cross_tag_scan_prefix(*parameters, ciphertexts@, i as int);
        }
        let ciphertext = &ciphertexts[i];
        if !ciphertext.parameter_id().same_as(&id) {
            return Err(HsweError::IncompatibleParameters);
        }

        item_count = match item_count.checked_add(1) {
            Some(count) => count,
            None => return Err(HsweError::ItemCountOverflow),
        };

        tagged_u.push(TaggedU::new(ciphertext.tag().clone(), ciphertext.u()));
        v = gt_mul(&v, ciphertext.v());
    }

    proof {
        lemma_cross_tag_scan_prefix(*parameters, ciphertexts@, n as int);
    }
    Ok(CrossTagAggregate::new(parameters.parameter_id(), item_count, tagged_u, v))
}

/// Every ciphertext is bound to the parameters' configuration.
pub open spec fn all_under_parameters(parameters: HsweParameters, ciphertexts: Seq<Ciphertext>) -> bool {
    forall|i: int|
        0 <= i < ciphertexts.len() ==> (#[trigger] ciphertexts[i]).spec_parameter_id()@
            == parameters.spec_parameter_id()@
}

/// Every ciphertext carries the tag `tag`.
pub open spec fn all_under_tag(ciphertexts: Seq<Ciphertext>, tag: (Seq<char>, u64)) -> bool {
    forall|i: int| 0 <= i < ciphertexts.len() ==> (#[trigger] ciphertexts[i]).spec_tag()@ == tag
}

proof fn lemma_cross_tag_scan_is_parameter_check(
    parameters: HsweParameters,
    ciphertexts: Seq<Ciphertext>,
    i: int,
)
    requires
        0 <= i,
    ensures
        cross_tag_scan(parameters, ciphertexts, i) is None <==> forall|j: int|
            i <= j < ciphertexts.len() ==> (#[trigger] ciphertexts[j]).spec_parameter_id()@
                == parameters.spec_parameter_id()@,
        cross_tag_scan(parameters, ciphertexts, i) matches Some(e) ==> e
            == HsweError::IncompatibleParameters,
    decreases ciphertexts.len() - i,
{
    if i < ciphertexts.len() {
        lemma_cross_tag_scan_is_parameter_check(parameters, ciphertexts, i + 1);
    }
}

/// Cross-tag aggregation fails exactly on an empty input or a ciphertext of
/// another configuration, whatever the tags are: it succeeds on every
/// non-empty sequence of ciphertexts of the parameters' configuration, and
/// its only errors are `EmptyAggregate` and `IncompatibleParameters`.
pub proof fn lemma_cross_tag_aggregation_conditions(
    parameters: HsweParameters,
    ciphertexts: Seq<Ciphertext>,
)
    ensures
        cross_tag_failure(parameters, ciphertexts) is None <==> ciphertexts.len() > 0
            && all_under_parameters(parameters, ciphertexts),
        ciphertexts.len() == 0 ==> cross_tag_failure(parameters, ciphertexts) == Some(
            HsweError::EmptyAggregate,
        ),
        cross_tag_failure(parameters, ciphertexts) matches Some(e) ==> e
            == HsweError::EmptyAggregate || e == HsweError::IncompatibleParameters,
{
    lemma_cross_tag_scan_is_parameter_check(parameters, ciphertexts, 0);
}

proof fn lemma_same_tag_scan_is_check(
    parameters: HsweParameters,
    ciphertexts: Seq<Ciphertext>,
    tag: (Seq<char>, u64),
    i: int,
)
    requires
        0 <= i,
    ensures
        same_tag_scan(parameters, ciphertexts, tag, i) is None <==> forall|j: int|
            i <= j < ciphertexts.len() ==> (#[trigger] ciphertexts[j]).spec_parameter_id()@
                == parameters.spec_parameter_id()@ && ciphertexts[j].spec_tag()@ == tag,
    decreases ciphertexts.len() - i,
{
    if i < ciphertexts.len() {
        lemma_same_tag_scan_is_check(parameters, ciphertexts, tag, i + 1);
    }
}

/// Same-tag aggregation succeeds exactly on a non-empty sequence of
/// ciphertexts that are all of the parameters' configuration and all carry
/// the first one's tag.
pub proof fn lemma_same_tag_aggregation_conditions(
    parameters: HsweParameters,
    ciphertexts: Seq<Ciphertext>,
)
    ensures
        same_tag_failure(parameters, ciphertexts) is None <==> ciphertexts.len() > 0
            && all_under_parameters(parameters, ciphertexts) && all_under_tag(
            ciphertexts,
            ciphertexts[0].spec_tag()@,
        ),
        ciphertexts.len() == 0 ==> same_tag_failure(parameters, ciphertexts) == Some(
            HsweError::EmptyAggregate,
        ),
{
    if ciphertexts.len() > 0 {
        lemma_same_tag_scan_is_check(parameters, ciphertexts, ciphertexts[0].spec_tag()@, 0);
        if all_under_parameters(parameters, ciphertexts) {
            assert(ciphertexts[0].spec_parameter_id()@ == parameters.spec_parameter_id()@);
        }
    }
}

} // verus!
