//! BLS12-381 values as canonical byte strings, and the `arkworks` operations
//! on them.
//!
//! Scalars are 32-byte little-endian integers below the group order `r`;
//! points of G1 and G2 are their 48- and 96-byte compressed encodings; elements
//! of the target field are their 576-byte encodings. Every operation decodes
//! its inputs, calls `arkworks` and encodes the result.

use ark_ec::pairing::Pairing;
use ark_ec::{AffineRepr, CurveGroup, PrimeGroup};
use ark_ff::{BigInteger, Field, One, PrimeField, UniformRand};
use ark_serialize::{CanonicalDeserialize, CanonicalSerialize};
use vstd::prelude::*;

verus! {

// ---------------------------------------------------------------------------
// Scalars.
// ---------------------------------------------------------------------------

/// The order `r` of the BLS12-381 groups, the modulus of the scalar field.
pub open spec fn group_order() -> nat {
    52435875175126190479447740508185965837690552500527637822603658699938581184513nat
}

/// The integer whose little-endian bytes are `b`.
pub open spec fn le_value(b: Seq<u8>) -> nat
    decreases b.len(),
{
    if b.len() == 0 {
        0
    } else {
        (b[0] as nat) + 256 * le_value(b.drop_first())
    }
}

/// The inverse of `a` modulo `r`.
pub open spec fn field_inverse(a: nat) -> nat {
    choose|b: nat| b < group_order() && #[trigger] ((a * b) % group_order()) == 1
}

/// An element of the scalar field, kept as its canonical 32-byte
/// little-endian encoding.
#[derive(Clone, Copy, Debug, PartialEq, Eq)]
pub struct Scalar {
    bytes: [u8; 32],
}

impl View for Scalar {
    type V = nat;

    closed spec fn view(&self) -> nat {
        le_value(self.bytes@)
    }
}

proof fn lemma_le_value_zero(b: Seq<u8>)
    ensures
        (le_value(b) == 0) <==> (forall|k: int| 0 <= k < b.len() ==> b[k] == 0),
    decreases b.len(),
{
    if b.len() > 0 {
        lemma_le_value_zero(b.drop_first());
        if le_value(b) == 0 {
            assert forall|k: int| 0 <= k < b.len() implies b[k] == 0 by {
                if k > 0 {
                    assert(b.drop_first()[k - 1] == b[k]);
                }
            }
        }
        if forall|k: int| 0 <= k < b.len() ==> b[k] == 0 {
            assert forall|k: int| 0 <= k < b.drop_first().len() implies b.drop_first()[k] == 0 by {
                assert(b[k + 1] == 0);
            }
        }
    }
}

impl Scalar {
    /// The encoded value lies below the group order.
    #[verifier::type_invariant]
    pub closed spec fn canonical(self) -> bool {
        le_value(self.bytes@) < group_order()
    }

    /// The invariant bounds the value by the group order.
    pub proof fn lemma_canonical(s: Scalar)
        requires
            s.canonical(),
        ensures
            s@ < group_order(),
    {
    }

    /// The scalar zero.
    pub fn zero() -> (r: Scalar)
        ensures
            r@ == 0,
    {
        let bytes = [0u8; 32];
        proof {
            lemma_le_value_zero(bytes@);
            assert(forall|k: int| 0 <= k < 32 ==> bytes@[k] == 0);
        }
        Scalar { bytes }
    }

    /// Tests whether the scalar is zero.
    pub fn is_zero(&self) -> (r: bool)
        ensures
            r == (self@ == 0),
            self@ < group_order(),
    {
        proof {
            use_type_invariant(self);
            lemma_le_value_zero(self.bytes@);
        }
        let mut i: usize = 0;
        while i < 32
            invariant
                i <= 32,
                le_value(self.bytes@) < group_order(),
                forall|k: int| 0 <= k < i ==> self.bytes@[k] == 0,
            decreases 32 - i,
        {
            if self.bytes[i] != 0 {
                proof {
                    lemma_le_value_zero(self.bytes@);
                    assert(self.bytes@[i as int] != 0);
                }
                return false;
            }
            i = i + 1;
        }
        true
    }

    /// The canonical 32-byte little-endian encoding.
    pub fn to_bytes(&self) -> (r: [u8; 32])
        ensures
            le_value(r@) == self@,
            self@ < group_order(),
    {
        proof {
            use_type_invariant(self);
        }
        self.bytes
    }

    /// Decodes a canonical 32-byte little-endian encoding.
    pub fn from_bytes(bytes: &[u8]) -> (r: Option<Scalar>)
        ensures
            r is Some <==> bytes@.len() == 32 && le_value(bytes@) < group_order(),
            r matches Some(s) ==> s@ == le_value(bytes@),
    {
        if bytes.len() != 32 {
            return None;
        }
        scalar_decode(bytes)
    }

    /// The scalar `x`.
    pub fn from_u64(x: u64) -> (r: Scalar)
        ensures
            r@ == x,
    {
        scalar_from_u64(x)
    }
}

/// `Fr::deserialize_compressed` on 32 bytes: the scalar whose little-endian
/// value the bytes hold, which succeeds exactly when that value is below `r`.
#[verifier::external_body]
fn scalar_decode(bytes: &[u8]) -> (r: Option<Scalar>)
    requires
        bytes@.len() == 32,
    ensures
        r is Some <==> le_value(bytes@) < group_order(),
        r matches Some(s) ==> s@ == le_value(bytes@),
{
    let value = ark_bls12_381::Fr::deserialize_compressed(bytes).ok()?;
    Some(Scalar { bytes: value.into_bigint().to_bytes_le().try_into().ok()? })
}

/// `Fr::from(u64)`: the scalar with the integer value `x`.
#[verifier::external_body]
fn scalar_from_u64(x: u64) -> (r: Scalar)
    ensures
        r@ == x,
{
    let value = ark_bls12_381::Fr::from(x);
    Scalar { bytes: value.into_bigint().to_bytes_le().try_into().unwrap() }
}

/// `Fr::rand` with the operating-system generator: a uniformly random
/// scalar. Of the outcome only that it is a scalar (below `r`) is stated.
#[verifier::external_body]
pub(crate) fn scalar_random() -> (r: Scalar)
    ensures
        r@ < group_order(),
{
    let value = ark_bls12_381::Fr::rand(&mut rand::rngs::OsRng);
    Scalar { bytes: value.into_bigint().to_bytes_le().try_into().unwrap() }
}

/// `Fr + Fr`: addition modulo `r`.
#[verifier::external_body]
pub(crate) fn scalar_add(a: &Scalar, b: &Scalar) -> (r: Scalar)
    ensures
        r@ == (a@ + b@) % group_order(),
{
    let x = ark_bls12_381::Fr::from_le_bytes_mod_order(&a.bytes);
    let y = ark_bls12_381::Fr::from_le_bytes_mod_order(&b.bytes);
    Scalar { bytes: (x + y).into_bigint().to_bytes_le().try_into().unwrap() }
}

/// `Fr - Fr`: subtraction modulo `r`.
#[verifier::external_body]
pub(crate) fn scalar_sub(a: &Scalar, b: &Scalar) -> (r: Scalar)
    ensures
        r@ == (a@ - b@) % (group_order() as int),
{
    let x = ark_bls12_381::Fr::from_le_bytes_mod_order(&a.bytes);
    let y = ark_bls12_381::Fr::from_le_bytes_mod_order(&b.bytes);
    Scalar { bytes: (x - y).into_bigint().to_bytes_le().try_into().unwrap() }
}

/// `Fr * Fr`: multiplication modulo `r`.
#[verifier::external_body]
pub(crate) fn scalar_mul(a: &Scalar, b: &Scalar) -> (r: Scalar)
    ensures
        r@ == (a@ * b@) % group_order(),
{
    let x = ark_bls12_381::Fr::from_le_bytes_mod_order(&a.bytes);
    let y = ark_bls12_381::Fr::from_le_bytes_mod_order(&b.bytes);
    Scalar { bytes: (x * y).into_bigint().to_bytes_le().try_into().unwrap() }
}

/// `Field::inverse` on `Fr`: `None` for zero, otherwise the (unique, as `r`
/// is prime) scalar whose product with `a` is one modulo `r`.
#[verifier::external_body]
pub(crate) fn scalar_inverse(a: &Scalar) -> (r: Option<Scalar>)
    ensures
        r is Some <==> a@ != 0,
        r matches Some(b) ==> (a@ * b@) % group_order() == 1 && b@ == field_inverse(a@),
{
    let x = ark_bls12_381::Fr::from_le_bytes_mod_order(&a.bytes);
    let inverse = x.inverse()?;
    Some(Scalar { bytes: inverse.into_bigint().to_bytes_le().try_into().unwrap() })
}

// ---------------------------------------------------------------------------
// Names of the group operations.
// ---------------------------------------------------------------------------

/// Whether `bytes` is the compressed encoding of a point of G1.
pub uninterp spec fn g1_valid(bytes: Seq<u8>) -> bool;

/// Whether `bytes` is the compressed encoding of a point of G2.
pub uninterp spec fn g2_valid(bytes: Seq<u8>) -> bool;

/// Whether `bytes` is the encoding of an element of the target field.
pub uninterp spec fn gt_valid(bytes: Seq<u8>) -> bool;

/// The hash into G1 of `msg` under the domain-separation tag `dst`.
pub uninterp spec fn hash_to_g1(dst: Seq<u8>, msg: Seq<u8>) -> Seq<u8>;

/// The point `k · p` of G1.
pub uninterp spec fn g1_scale(p: Seq<u8>, k: nat) -> Seq<u8>;

/// Whether the point of G1 is the identity.
pub uninterp spec fn g1_is_zero(p: Seq<u8>) -> bool;

/// The point `k · g2` for the generator `g2` of G2.
pub uninterp spec fn g2_generator_scale(k: nat) -> Seq<u8>;

/// The sum of two points of G2.
pub uninterp spec fn g2_sum(a: Seq<u8>, b: Seq<u8>) -> Seq<u8>;

/// Whether the point of G2 is the identity.
pub uninterp spec fn g2_is_zero(p: Seq<u8>) -> bool;

/// The pairing `e(p, q)` of a point of G1 and a point of G2.
pub uninterp spec fn pairing(p: Seq<u8>, q: Seq<u8>) -> Seq<u8>;

/// The product of two target-field elements.
pub uninterp spec fn gt_product(a: Seq<u8>, b: Seq<u8>) -> Seq<u8>;

/// The inverse of a target-field element, `None` for zero.
pub uninterp spec fn gt_inverse(a: Seq<u8>) -> Option<Seq<u8>>;

/// The power `a^e` of a target-field element.
pub uninterp spec fn gt_power(a: Seq<u8>, e: nat) -> Seq<u8>;

/// The compressed encoding of the standard generator of G1.
pub open spec fn g1_generator_bytes() -> Seq<u8> {
    seq![
        0x97u8, 0xf1u8, 0xd3u8, 0xa7u8, 0x31u8, 0x97u8, 0xd7u8, 0x94u8,
        0x26u8, 0x95u8, 0x63u8, 0x8cu8, 0x4fu8, 0xa9u8, 0xacu8, 0x0fu8,
        0xc3u8, 0x68u8, 0x8cu8, 0x4fu8, 0x97u8, 0x74u8, 0xb9u8, 0x05u8,
        0xa1u8, 0x4eu8, 0x3au8, 0x3fu8, 0x17u8, 0x1bu8, 0xacu8, 0x58u8,
        0x6cu8, 0x55u8, 0xe8u8, 0x3fu8, 0xf9u8, 0x7au8, 0x1au8, 0xefu8,
        0xfbu8, 0x3au8, 0xf0u8, 0x0au8, 0xdbu8, 0x22u8, 0xc6u8, 0xbbu8,
    ]
}

/// The compressed encoding of the standard generator of G2.
pub open spec fn g2_generator_bytes() -> Seq<u8> {
    seq![
        0x93u8, 0xe0u8, 0x2bu8, 0x60u8, 0x52u8, 0x71u8, 0x9fu8, 0x60u8,
        0x7du8, 0xacu8, 0xd3u8, 0xa0u8, 0x88u8, 0x27u8, 0x4fu8, 0x65u8,
        0x59u8, 0x6bu8, 0xd0u8, 0xd0u8, 0x99u8, 0x20u8, 0xb6u8, 0x1au8,
        0xb5u8, 0xdau8, 0x61u8, 0xbbu8, 0xdcu8, 0x7fu8, 0x50u8, 0x49u8,
        0x33u8, 0x4cu8, 0xf1u8, 0x12u8, 0x13u8, 0x94u8, 0x5du8, 0x57u8,
        0xe5u8, 0xacu8, 0x7du8, 0x05u8, 0x5du8, 0x04u8, 0x2bu8, 0x7eu8,
        0x02u8, 0x4au8, 0xa2u8, 0xb2u8, 0xf0u8, 0x8fu8, 0x0au8, 0x91u8,
        0x26u8, 0x08u8, 0x05u8, 0x27u8, 0x2du8, 0xc5u8, 0x10u8, 0x51u8,
        0xc6u8, 0xe4u8, 0x7au8, 0xd4u8, 0xfau8, 0x40u8, 0x3bu8, 0x02u8,
        0xb4u8, 0x51u8, 0x0bu8, 0x64u8, 0x7au8, 0xe3u8, 0xd1u8, 0x77u8,
        0x0bu8, 0xacu8, 0x03u8, 0x26u8, 0xa8u8, 0x05u8, 0xbbu8, 0xefu8,
        0xd4u8, 0x80u8, 0x56u8, 0xc8u8, 0xc1u8, 0x21u8, 0xbdu8, 0xb8u8,
    ]
}

/// The compressed encoding of the identity of G2: compression and
/// infinity flags over an all-zero coordinate.
pub open spec fn g2_identity_bytes() -> Seq<u8> {
    Seq::new(96, |i: int| if i == 0 { 0xc0u8 } else { 0u8 })
}

/// The encoding of the target-field element one: the little-endian one in
/// the first base-field coefficient, zeros elsewhere.
pub open spec fn gt_one_bytes() -> Seq<u8> {
    Seq::new(576, |i: int| if i == 0 { 1u8 } else { 0u8 })
}

// ---------------------------------------------------------------------------
// Points and target-field elements.
// ---------------------------------------------------------------------------

/// A point of G1, kept as its 48-byte compressed encoding.
#[derive(Clone, Copy, Debug, PartialEq, Eq)]
pub struct G1Point {
    bytes: [u8; 48],
}

/// A point of G2, kept as its 96-byte compressed encoding.
#[derive(Clone, Copy, Debug, PartialEq, Eq)]
pub struct G2Point {
    bytes: [u8; 96],
}

/// An element of the target field of the pairing, kept as its 576-byte
/// encoding.
#[derive(Clone, Copy, Debug, PartialEq, Eq)]
pub struct GtElement {
    bytes: [u8; 576],
}

impl View for G1Point {
    type V = Seq<u8>;

    closed spec fn view(&self) -> Seq<u8> {
        self.bytes@
    }
}

impl View for G2Point {
    type V = Seq<u8>;

    closed spec fn view(&self) -> Seq<u8> {
        self.bytes@
    }
}

impl View for GtElement {
    type V = Seq<u8>;

    closed spec fn view(&self) -> Seq<u8> {
        self.bytes@
    }
}

impl G1Point {
    #[verifier::type_invariant]
    spec fn encodes_point(self) -> bool {
        g1_valid(self.bytes@)
    }

    /// The compressed encoding.
    pub fn to_bytes(&self) -> (r: [u8; 48])
        ensures
            r@ == self@,
    {
        self.bytes
    }

    /// Decodes a compressed encoding, checking that it is a point of G1.
    pub fn from_bytes(bytes: &[u8]) -> (r: Option<G1Point>)
        ensures
            r is Some <==> bytes@.len() == 48 && g1_valid(bytes@),
            r matches Some(p) ==> p@ == bytes@,
    {
        if bytes.len() != 48 {
            return None;
        }
        g1_decode(bytes)
    }
}

impl G2Point {
    #[verifier::type_invariant]
    spec fn encodes_point(self) -> bool {
        g2_valid(self.bytes@)
    }

    /// The compressed encoding.
    pub fn to_bytes(&self) -> (r: [u8; 96])
        ensures
            r@ == self@,
    {
        self.bytes
    }

    /// Decodes a compressed encoding, checking that it is a point of G2.
    pub fn from_bytes(bytes: &[u8]) -> (r: Option<G2Point>)
        ensures
            r is Some <==> bytes@.len() == 96 && g2_valid(bytes@),
            r matches Some(p) ==> p@ == bytes@,
    {
        if bytes.len() != 96 {
            return None;
        }
        g2_decode(bytes)
    }
}

impl GtElement {
    #[verifier::type_invariant]
    spec fn encodes_element(self) -> bool {
        gt_valid(self.bytes@)
    }

    /// The encoding.
    pub fn to_bytes(&self) -> (r: [u8; 576])
        ensures
            r@ == self@,
    {
        self.bytes
    }

    /// Decodes an encoding, checking that it is an element of the target field.
    pub fn from_bytes(bytes: &[u8]) -> (r: Option<GtElement>)
        ensures
            r is Some <==> bytes@.len() == 576 && gt_valid(bytes@),
            r matches Some(p) ==> p@ == bytes@,
    {
        if bytes.len() != 576 {
            return None;
        }
        gt_decode(bytes)
    }

    /// Tests whether two elements are equal.
    pub fn same_as(&self, other: &GtElement) -> (r: bool)
        ensures
            r == (self@ == other@),
    {
        let mut i: usize = 0;
        while i < 576
            invariant
                i <= 576,
                forall|k: int| 0 <= k < i ==> self.bytes@[k] == other.bytes@[k],
            decreases 576 - i,
        {
            if self.bytes[i] != other.bytes[i] {
                return false;
            }
            i = i + 1;
        }
        assert(self.bytes@ == other.bytes@);
        true
    }
}

// ---------------------------------------------------------------------------
// Trusted calls into arkworks.
// ---------------------------------------------------------------------------

/// `G1Affine::deserialize_compressed` on 48 bytes: succeeds exactly on the
/// encodings of points of G1 (validity is named by `g1_valid`).
#[verifier::external_body]
fn g1_decode(bytes: &[u8]) -> (r: Option<G1Point>)
    requires
        bytes@.len() == 48,
    ensures
        r is Some <==> g1_valid(bytes@),
        r matches Some(p) ==> p@ == bytes@,
{
    ark_bls12_381::G1Affine::deserialize_compressed(bytes).ok()?;
    Some(G1Point { bytes: bytes.try_into().ok()? })
}

/// `G2Affine::deserialize_compressed` on 96 bytes: succeeds exactly on the
/// encodings of points of G2 (validity is named by `g2_valid`).
#[verifier::external_body]
fn g2_decode(bytes: &[u8]) -> (r: Option<G2Point>)
    requires
        bytes@.len() == 96,
    ensures
        r is Some <==> g2_valid(bytes@),
        r matches Some(p) ==> p@ == bytes@,
{
    ark_bls12_381::G2Affine::deserialize_compressed(bytes).ok()?;
    Some(G2Point { bytes: bytes.try_into().ok()? })
}

/// `Fq12::deserialize_compressed` on 576 bytes: succeeds exactly on the
/// encodings of target-field elements (validity is named by `gt_valid`).
#[verifier::external_body]
fn gt_decode(bytes: &[u8]) -> (r: Option<GtElement>)
    requires
        bytes@.len() == 576,
    ensures
        r is Some <==> gt_valid(bytes@),
        r matches Some(p) ==> p@ == bytes@,
{
    ark_bls12_381::Fq12::deserialize_compressed(bytes).ok()?;
    Some(GtElement { bytes: bytes.try_into().ok()? })
}

/// `G1Affine::generator`: the standard generator of G1, whose compressed
/// encoding is the constant `g1_generator_bytes`.
#[verifier::external_body]
pub(crate) fn g1_generator() -> (r: G1Point)
    ensures
        r@ == g1_generator_bytes(),
{
    let mut out = [0u8; 48];
    ark_bls12_381::G1Affine::generator().serialize_compressed(&mut out[..]).unwrap();
    G1Point { bytes: out }
}

/// `G2Affine::generator`: the standard generator of G2, whose compressed
/// encoding is the constant `g2_generator_bytes`.
#[verifier::external_body]
pub(crate) fn g2_generator() -> (r: G2Point)
    ensures
        r@ == g2_generator_bytes(),
{
    let mut out = [0u8; 96];
    ark_bls12_381::G2Affine::generator().serialize_compressed(&mut out[..]).unwrap();
    G2Point { bytes: out }
}

/// `G2Projective::zero`: the identity of G2, encoded as `g2_identity_bytes`.
#[verifier::external_body]
pub(crate) fn g2_identity() -> (r: G2Point)
    ensures
        r@ == g2_identity_bytes(),
{
    let mut out = [0u8; 96];
    ark_bls12_381::G2Affine::zero().serialize_compressed(&mut out[..]).unwrap();
    G2Point { bytes: out }
}

/// `Fq12::one`: the unit of the target field, encoded as `gt_one_bytes`.
#[verifier::external_body]
pub(crate) fn gt_one() -> (r: GtElement)
    ensures
        r@ == gt_one_bytes(),
{
    let mut out = [0u8; 576];
    ark_bls12_381::Fq12::one().serialize_compressed(&mut out[..]).unwrap();
    GtElement { bytes: out }
}

/// `MapToCurveBasedHasher::<G1, DefaultFieldHasher<Sha256, 128>, WBMap>`
/// built with `new(dst)` and applied with `hash(msg)` (hash-to-curve into G1,
/// which the source shows never fails): the result is named `hash_to_g1`.
#[verifier::external_body]
pub(crate) fn g1_hash(dst: &[u8], msg: &[u8]) -> (r: G1Point)
    ensures
        r@ == hash_to_g1(dst@, msg@),
{
    let hasher = <ark_ec::hashing::map_to_curve_hasher::MapToCurveBasedHasher<
        ark_bls12_381::G1Projective,
        ark_ff::field_hashers::DefaultFieldHasher<sha2::Sha256, 128>,
        ark_ec::hashing::curve_maps::wb::WBMap<ark_bls12_381::g1::Config>,
    > as ark_ec::hashing::HashToCurve<ark_bls12_381::G1Projective>>::new(dst).unwrap();
    let point = ark_ec::hashing::HashToCurve::hash(&hasher, msg).unwrap();
    let mut out = [0u8; 48];
    point.serialize_compressed(&mut out[..]).unwrap();
    G1Point { bytes: out }
}

/// `G1Affine::mul_bigint`: the multiple `k · p`, named `g1_scale`.
#[verifier::external_body]
pub(crate) fn g1_mul(p: &G1Point, k: &Scalar) -> (r: G1Point)
    ensures
        r@ == g1_scale(p@, k@),
{
    let point = ark_bls12_381::G1Affine::deserialize_compressed_unchecked(&p.bytes[..]).unwrap();
    let scalar = ark_bls12_381::Fr::from_le_bytes_mod_order(&k.bytes);
    let mut out = [0u8; 48];
    point.mul_bigint(scalar.into_bigint()).into_affine().serialize_compressed(&mut out[..]).unwrap();
    G1Point { bytes: out }
}

/// `G1Affine::is_zero`: whether the point is the identity, named `g1_is_zero`.
#[verifier::external_body]
pub(crate) fn g1_point_is_zero(p: &G1Point) -> (r: bool)
    ensures
        r == g1_is_zero(p@),
{
    ark_bls12_381::G1Affine::deserialize_compressed_unchecked(&p.bytes[..]).unwrap().is_zero()
}

/// `G2::generator().mul_bigint(k)`: the multiple `k · g2`, named
/// `g2_generator_scale`.
#[verifier::external_body]
pub(crate) fn g2_mul_generator(k: &Scalar) -> (r: G2Point)
    ensures
        r@ == g2_generator_scale(k@),
{
    let scalar = ark_bls12_381::Fr::from_le_bytes_mod_order(&k.bytes);
    let point = ark_bls12_381::G2Projective::generator().mul_bigint(scalar.into_bigint());
    let mut out = [0u8; 96];
    point.into_affine().serialize_compressed(&mut out[..]).unwrap();
    G2Point { bytes: out }
}

/// `G2 + G2`: the sum of two points, named `g2_sum`.
#[verifier::external_body]
pub(crate) fn g2_add(a: &G2Point, b: &G2Point) -> (r: G2Point)
    ensures
        r@ == g2_sum(a@, b@),
{
    let x = ark_bls12_381::G2Affine::deserialize_compressed_unchecked(&a.bytes[..]).unwrap();
    let y = ark_bls12_381::G2Affine::deserialize_compressed_unchecked(&b.bytes[..]).unwrap();
    let mut out = [0u8; 96];
    (x + y).into_affine().serialize_compressed(&mut out[..]).unwrap();
    G2Point { bytes: out }
}

/// `G2Affine::is_zero`: whether the point is the identity, named `g2_is_zero`.
#[verifier::external_body]
pub(crate) fn g2_point_is_zero(p: &G2Point) -> (r: bool)
    ensures
        r == g2_is_zero(p@),
{
    ark_bls12_381::G2Affine::deserialize_compressed_unchecked(&p.bytes[..]).unwrap().is_zero()
}

/// `Bls12_381::pairing(p, q).0`: the pairing value in the target field,
/// named `pairing`.
#[verifier::external_body]
pub(crate) fn pair(p: &G1Point, q: &G2Point) -> (r: GtElement)
    ensures
        r@ == pairing(p@, q@),
{
    let x = ark_bls12_381::G1Affine::deserialize_compressed_unchecked(&p.bytes[..]).unwrap();
    let y = ark_bls12_381::G2Affine::deserialize_compressed_unchecked(&q.bytes[..]).unwrap();
    let mut out = [0u8; 576];
    ark_bls12_381::Bls12_381::pairing(x, y).0.serialize_compressed(&mut out[..]).unwrap();
    GtElement { bytes: out }
}

/// `Fq12 * Fq12`: the product, named `gt_product`.
#[verifier::external_body]
pub(crate) fn gt_mul(a: &GtElement, b: &GtElement) -> (r: GtElement)
    ensures
        r@ == gt_product(a@, b@),
{
    let x = ark_bls12_381::Fq12::deserialize_compressed_unchecked(&a.bytes[..]).unwrap();
    let y = ark_bls12_381::Fq12::deserialize_compressed_unchecked(&b.bytes[..]).unwrap();
    let mut out = [0u8; 576];
    (x * y).serialize_compressed(&mut out[..]).unwrap();
    GtElement { bytes: out }
}

/// `Field::inverse` on `Fq12`: the inverse, or `None` for zero; named
/// `gt_inverse`.
#[verifier::external_body]
pub(crate) fn gt_invert(a: &GtElement) -> (r: Option<GtElement>)
    ensures
        r matches Some(b) ==> gt_inverse(a@) == Some(b@),
        r is None ==> gt_inverse(a@) is None,
{
    let x = ark_bls12_381::Fq12::deserialize_compressed_unchecked(&a.bytes[..]).unwrap();
    let mut out = [0u8; 576];
    x.inverse()?.serialize_compressed(&mut out[..]).unwrap();
    Some(GtElement { bytes: out })
}

/// `Field::pow` on `Fq12` with the scalar's integer as exponent: `a^k`,
/// named `gt_power`.
#[verifier::external_body]
pub(crate) fn gt_pow(a: &GtElement, k: &Scalar) -> (r: GtElement)
    ensures
        r@ == gt_power(a@, k@),
{
    let x = ark_bls12_381::Fq12::deserialize_compressed_unchecked(&a.bytes[..]).unwrap();
    let exponent = ark_bls12_381::Fr::from_le_bytes_mod_order(&k.bytes).into_bigint();
    let mut out = [0u8; 576];
    x.pow(exponent).serialize_compressed(&mut out[..]).unwrap();
    GtElement { bytes: out }
}

} // verus!
