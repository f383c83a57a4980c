//! Bounded discrete logarithms in the target group by table lookup.

use vstd::prelude::*;

use crate::error::HsweError;
use crate::group::{
    g1_generator, g1_generator_bytes, g2_generator, g2_generator_bytes, gt_mul, gt_one,
    gt_one_bytes, gt_product, pair, pairing, GtElement,
};
use crate::params::ParameterId;

verus! {

/// The fixed generator `gT = e(g1, g2)` of the target group.
pub open spec fn gt_generator() -> Seq<u8> {
    pairing(g1_generator_bytes(), g2_generator_bytes())
}

/// `gT^m`, computed as one multiplied by `gT` `m` times.
pub open spec fn gt_generator_power(m: nat) -> Seq<u8>
    decreases m,
{
    if m == 0 {
        gt_one_bytes()
    } else {
        gt_product(gt_generator_power((m - 1) as nat), gt_generator())
    }
}

/// `r` is what looking `value` up in a table of the powers `gT^0 ..= gT^max`
/// returns: the largest matching exponent, or `DiscreteLogOutOfRange`.
pub open spec fn lookup_outcome(max: u64, value: Seq<u8>, r: Result<u64, HsweError>) -> bool {
    match r {
        Ok(m) => m <= max && gt_generator_power(m as nat) == value && forall|j: nat|
            m < j <= max ==> gt_generator_power(j) != value,
        Err(e) => e == HsweError::DiscreteLogOutOfRange && forall|j: nat|
            j <= max ==> gt_generator_power(j) != value,
    }
}

/// Looking up any power `gT^m` with `m <= max` in the table succeeds, and
/// finds an exponent no smaller than `m` whose power is the same element.
pub proof fn lemma_lookup_finds_table_powers(max: u64, m: nat, r: Result<u64, HsweError>)
    requires
        m <= max,
        lookup_outcome(max, gt_generator_power(m), r),
    ensures
        r matches Ok(k) && m <= k <= max && gt_generator_power(k as nat) == gt_generator_power(m),
{
    if r is Ok {
        let k = r->Ok_0;
        if k < m {
            assert(gt_generator_power(m) != gt_generator_power(m));
        }
    }
}

/// A precomputed bounded discrete-log table for the fixed generator `gT`.
///
/// It maps the encodings of `gT^m` to the messages `m` in
/// `0..=maximum_message`.
#[derive(Debug)]
pub struct TargetLookupTable {
    parameter_id: ParameterId,
    maximum_message: u64,
    entries: Vec<GtElement>,
}

impl Clone for TargetLookupTable {
    fn clone(&self) -> (r: Self)
        ensures
            r.spec_parameter_id() == self.spec_parameter_id(),
            r.spec_maximum_message() == self.spec_maximum_message(),
    {
        proof {
            use_type_invariant(self);
        }
        let mut entries: Vec<GtElement> = Vec::new();
        let n = self.entries.len();
        for i in 0..n
            invariant
                n == self.entries@.len(),
                entries@ == self.entries@.take(i as int),
        {
            entries.push(self.entries[i]);
            assert(self.entries@.take(i + 1) == self.entries@.take(i as int).push(self.entries@[i as int]));
        }
        assert(self.entries@.take(n as int) == self.entries@);
        TargetLookupTable {
            parameter_id: self.parameter_id,
            maximum_message: self.maximum_message,
            entries,
        }
    }
}

impl TargetLookupTable {
    #[verifier::type_invariant]
    spec fn well_formed(self) -> bool {
        &&& self.entries@.len() == self.maximum_message + 1
        &&& forall|m: int|
            0 <= m < self.entries@.len() ==> (#[trigger] self.entries@[m])@ == gt_generator_power(
                m as nat,
            )
    }

    pub closed spec fn spec_parameter_id(&self) -> ParameterId {
        self.parameter_id
    }

    pub closed spec fn spec_maximum_message(&self) -> u64 {
        self.maximum_message
    }

    /// Precomputes all target-group powers for `0..=maximum_message`.
    pub fn new(parameter_id: ParameterId, maximum_message: u64) -> (r: Result<Self, HsweError>)
        ensures
            (maximum_message == u64::MAX || maximum_message + 1 > usize::MAX) ==> r == Err::<
                TargetLookupTable,
                HsweError,
            >(HsweError::ResourceLimitExceeded),
            !(maximum_message == u64::MAX || maximum_message + 1 > usize::MAX) ==> (r matches Ok(t)
                && t.spec_parameter_id() == parameter_id && t.spec_maximum_message()
                == maximum_message),
    {
        if maximum_message == u64::MAX {
            return Err(HsweError::ResourceLimitExceeded);
        }
        let count = maximum_message + 1;
        if count as u128 > usize::MAX as u128 {
            return Err(HsweError::ResourceLimitExceeded);
        }

        let generator = pair(&g1_generator(), &g2_generator());
        let mut entries: Vec<GtElement> = Vec::new();
        let mut current = gt_one();

        let mut message: u64 = 0;
        while message < count
            invariant
                count == maximum_message + 1,
                message <= count,
                generator@ == gt_generator(),
                entries@.len() == message,
                current@ == gt_generator_power(message as nat),
                forall|m: int|
                    0 <= m < entries@.len() ==> (#[trigger] entries@[m])@ == gt_generator_power(
                        m as nat,
                    ),
            decreases count - message,
        {
            entries.push(current);
            current = gt_mul(&current, &generator);
            message = message + 1;
        }

        Ok(Self { parameter_id, maximum_message, entries })
    }

    pub fn parameter_id(&self) -> (r: ParameterId)
        ensures
            r == self.spec_parameter_id(),
    {
        self.parameter_id
    }

    pub fn maximum_message(&self) -> (r: u64)
        ensures
            r == self.spec_maximum_message(),
    {
        self.maximum_message
    }

    /// The message `m <= maximum_message` with `gT^m = value`; when several
    /// match, the largest. Fails with `DiscreteLogOutOfRange` when none does.
    pub fn lookup(&self, value: &GtElement) -> (r: Result<u64, HsweError>)
        ensures
            lookup_outcome(self.spec_maximum_message(), value@, r),
    {
        proof {
            use_type_invariant(self);
        }
        let mut index: usize = self.entries.len();
        while index > 0
            invariant
                index <= self.entries@.len(),
                self.entries@.len() == self.maximum_message + 1,
                forall|m: int|
                    0 <= m < self.entries@.len() ==> (#[trigger] self.entries@[m])@
                        == gt_generator_power(m as nat),
                forall|j: nat| index <= j <= self.maximum_message ==> gt_generator_power(j) != value@,
            decreases index,
        {
            index = index - 1;
            if self.entries[index].same_as(value) {
                assert(self.entries@[index as int]@ == gt_generator_power(index as nat));
                return Ok(index as u64);
            }
            assert(self.entries@[index as int]@ == gt_generator_power(index as nat));
        }
        Err(HsweError::DiscreteLogOutOfRange)
    }
}

} // verus!
