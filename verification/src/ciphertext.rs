//! Signatures, ciphertexts and aggregates of the pairing-based scheme.

use vstd::prelude::*;

use crate::group::{G1Point, G2Point, GtElement};
use crate::params::ParameterId;
use crate::tag::Tag;

verus! {

/// A BLS signature on a canonical HSWE tag.
#[derive(Clone, Copy, Debug, PartialEq, Eq)]
pub struct TagSignature {
    parameter_id: ParameterId,
    point: G1Point,
}

impl TagSignature {
    pub closed spec fn spec_parameter_id(&self) -> ParameterId {
        self.parameter_id
    }

    pub closed spec fn spec_point(&self) -> G1Point {
        self.point
    }

    pub fn new(parameter_id: ParameterId, point: G1Point) -> (r: Self)
        ensures
            r.spec_parameter_id() == parameter_id,
            r.spec_point() == point,
    {
        Self { parameter_id, point }
    }

    pub fn parameter_id(&self) -> (r: ParameterId)
        ensures
            r == self.spec_parameter_id(),
    {
        self.parameter_id
    }

    pub fn point(&self) -> (r: G1Point)
        ensures
            r == self.spec_point(),
    {
        self.point
    }
}

/// A pairing-based HSWE ciphertext `(U, V)` encrypted under one canonical tag;
/// `U` is in G2 and `V` in the target field.
#[derive(Debug, PartialEq, Eq)]
pub struct Ciphertext {
    parameter_id: ParameterId,
    tag: Tag,
    u: G2Point,
    v: GtElement,
}

impl Clone for Ciphertext {
    fn clone(&self) -> (r: Self)
        ensures
            r == *self,
    {
        Ciphertext { parameter_id: self.parameter_id, tag: self.tag.clone(), u: self.u, v: self.v }
    }
}

impl Ciphertext {
    pub closed spec fn spec_parameter_id(&self) -> ParameterId {
        self.parameter_id
    }

    pub closed spec fn spec_tag(&self) -> Tag {
        self.tag
    }

    pub closed spec fn spec_u(&self) -> G2Point {
        self.u
    }

    pub closed spec fn spec_v(&self) -> GtElement {
        self.v
    }

    pub fn new(parameter_id: ParameterId, tag: Tag, u: G2Point, v: GtElement) -> (r: Self)
        ensures
            r.spec_parameter_id() == parameter_id,
            r.spec_tag() == tag,
            r.spec_u() == u,
            r.spec_v() == v,
    {
        Self { parameter_id, tag, u, v }
    }

    pub fn parameter_id(&self) -> (r: ParameterId)
        ensures
            r == self.spec_parameter_id(),
    {
        self.parameter_id
    }

    pub fn tag(&self) -> (r: &Tag)
        ensures
            *r == self.spec_tag(),
    {
        &self.tag
    }

    pub fn u(&self) -> (r: G2Point)
        ensures
            r == self.spec_u(),
    {
        self.u
    }

    pub fn v(&self) -> (r: &GtElement)
        ensures
            *r == self.spec_v(),
    {
        &self.v
    }
}

/// A same-tag aggregate.
#[derive(Debug, PartialEq, Eq)]
pub struct SameTagAggregate {
    parameter_id: ParameterId,
    tag: Tag,
    item_count: u64,
    u: G2Point,
    v: GtElement,
}

impl Clone for SameTagAggregate {
    fn clone(&self) -> (r: Self)
        ensures
            r == *self,
    {
        SameTagAggregate {
            parameter_id: self.parameter_id,
            tag: self.tag.clone(),
            item_count: self.item_count,
            u: self.u,
            v: self.v,
        }
    }
}

impl SameTagAggregate {
    pub closed spec fn spec_parameter_id(&self) -> ParameterId {
        self.parameter_id
    }

    pub closed spec fn spec_tag(&self) -> Tag {
        self.tag
    }

    pub closed spec fn spec_item_count(&self) -> u64 {
        self.item_count
    }

    pub closed spec fn spec_u(&self) -> G2Point {
        self.u
    }

    pub closed spec fn spec_v(&self) -> GtElement {
        self.v
    }

    pub fn new(parameter_id: ParameterId, tag: Tag, item_count: u64, u: G2Point, v: GtElement) -> (r:
        Self)
        ensures
            r.spec_parameter_id() == parameter_id,
            r.spec_tag() == tag,
            r.spec_item_count() == item_count,
            r.spec_u() == u,
            r.spec_v() == v,
    {
        Self { parameter_id, tag, item_count, u, v }
    }

    pub fn parameter_id(&self) -> (r: ParameterId)
        ensures
            r == self.spec_parameter_id(),
    {
        self.parameter_id
    }

    pub fn tag(&self) -> (r: &Tag)
        ensures
            *r == self.spec_tag(),
    {
        &self.tag
    }

    pub fn item_count(&self) -> (r: u64)
        ensures
            r == self.spec_item_count(),
    {
        self.item_count
    }

    pub fn u(&self) -> (r: G2Point)
        ensures
            r == self.spec_u(),
    {
        self.u
    }

    pub fn v(&self) -> (r: &GtElement)
        ensures
            *r == self.spec_v(),
    {
        &self.v
    }
}

/// One source-group component and its tag, retained for cross-tag decryption.
#[derive(Debug, PartialEq, Eq)]
pub struct TaggedU {
    tag: Tag,
    u: G2Point,
}

impl Clone for TaggedU {
    fn clone(&self) -> (r: Self)
        ensures
            r == *self,
    {
        TaggedU { tag: self.tag.clone(), u: self.u }
    }
}

impl TaggedU {
    pub closed spec fn spec_tag(&self) -> Tag {
        self.tag
    }

    pub closed spec fn spec_u(&self) -> G2Point {
        self.u
    }

    pub fn new(tag: Tag, u: G2Point) -> (r: Self)
        ensures
            r.spec_tag() == tag,
            r.spec_u() == u,
    {
        Self { tag, u }
    }

    pub fn tag(&self) -> (r: &Tag)
        ensures
            *r == self.spec_tag(),
    {
        &self.tag
    }

    pub fn u(&self) -> (r: G2Point)
        ensures
            r == self.spec_u(),
    {
        self.u
    }
}

/// An aggregate across different tags under one parameter configuration.
#[derive(Debug, PartialEq, Eq)]
pub struct CrossTagAggregate {
    parameter_id: ParameterId,
    item_count: u64,
    tagged_u: Vec<TaggedU>,
    v: GtElement,
}

impl Clone for CrossTagAggregate {
    fn clone(&self) -> (r: Self)
        ensures
            r.spec_parameter_id() == self.spec_parameter_id(),
            r.spec_item_count() == self.spec_item_count(),
            r.spec_tagged_u() == self.spec_tagged_u(),
            r.spec_v() == self.spec_v(),
    {
        let tagged_u = self.tagged_u.clone();
        assert(tagged_u@ =~= self.tagged_u@);
        CrossTagAggregate { parameter_id: self.parameter_id, item_count: self.item_count, tagged_u, v: self.v }
    }
}

impl CrossTagAggregate {
    pub closed spec fn spec_parameter_id(&self) -> ParameterId {
        self.parameter_id
    }

    pub closed spec fn spec_item_count(&self) -> u64 {
        self.item_count
    }

    pub closed spec fn spec_tagged_u(&self) -> Seq<TaggedU> {
        self.tagged_u@
    }

    pub closed spec fn spec_v(&self) -> GtElement {
        self.v
    }

    pub fn new(parameter_id: ParameterId, item_count: u64, tagged_u: Vec<TaggedU>, v: GtElement) -> (r:
        Self)
        ensures
            r.spec_parameter_id() == parameter_id,
            r.spec_item_count() == item_count,
            r.spec_tagged_u() == tagged_u@,
            r.spec_v() == v,
    {
        Self { parameter_id, item_count, tagged_u, v }
    }

    pub fn parameter_id(&self) -> (r: ParameterId)
        ensures
            r == self.spec_parameter_id(),
    {
        self.parameter_id
    }

    pub fn item_count(&self) -> (r: u64)
        ensures
            r == self.spec_item_count(),
    {
        self.item_count
    }

    pub fn tagged_u(&self) -> (r: &[TaggedU])
        ensures
            r@ == self.spec_tagged_u(),
    {
        self.tagged_u.as_slice()
    }

    pub fn v(&self) -> (r: &GtElement)
        ensures
            *r == self.spec_v(),
    {
        &self.v
    }
}

} // verus!
