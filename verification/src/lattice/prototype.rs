//! Insecure LWE-HSWE arithmetic research prototype.
//!
//! This code demonstrates ciphertext algebra and API shape. It does not
//! implement GPV trapdoors or secure discrete-Gaussian sampling.

use vstd::prelude::*;

use super::math::{
    add_vec_mod_q, centered_mod_q, dot, dot_fits, dot_prefix, dot_step_fits, dot_product_mod_q, fits_i64, mod_q,
    spec_centered, spec_mod, sum_fits,
};

verus! {

pub const Q: i64 = 12_289;

pub const DIMENSION: usize = 16;

/// `q / 2`, the embedding of a one bit.
pub const MESSAGE_OFFSET: i64 = 6144;

/// Absolute decoding boundary for the binary `q/2` embedding.
pub const DECODE_BOUND: i64 = 3072;

pub const FNV_OFFSET_BASIS: u64 = 0xcbf2_9ce4_8422_2325;

pub const FNV_PRIME: u64 = 0x0000_0100_0000_01b3;

pub const INDEX_STRIDE: u64 = 0x9e37_79b9_7f4a_7c15;

pub const MIX_FIRST: u64 = 0xbf58_476d_1ce4_e5b9;

pub const MIX_SECOND: u64 = 0x94d0_49bb_1331_11eb;

/// Errors returned by the research-prototype API.
#[derive(Clone, Copy, Debug, PartialEq, Eq)]
pub enum PrototypeError {
    EmptyAggregation,
    InvalidCiphertextDimension,
    MixedTags,
    TagMismatch,
}

impl PrototypeError {
    /// The human-readable description of the error.
    pub fn to_string(&self) -> (s: String)
        ensures
            s@ == self.spec_message()@,
    {
        let text = match self {
            PrototypeError::EmptyAggregation => "cannot aggregate an empty ciphertext list",
            PrototypeError::InvalidCiphertextDimension => "ciphertext has an invalid u dimension",
            PrototypeError::MixedTags => "cannot aggregate ciphertexts from different tags",
            PrototypeError::TagMismatch => "witness does not match the ciphertext tag",
        };
        text.to_owned()
    }

    pub open spec fn spec_message(&self) -> &'static str {
        match self {
            PrototypeError::EmptyAggregation => "cannot aggregate an empty ciphertext list",
            PrototypeError::InvalidCiphertextDimension => "ciphertext has an invalid u dimension",
            PrototypeError::MixedTags => "cannot aggregate ciphertexts from different tags",
            PrototypeError::TagMismatch => "witness does not match the ciphertext tag",
        }
    }
}

/// A test-only ciphertext of the form `(tag_id, u, v)`.
#[derive(Clone, Debug, PartialEq, Eq)]
pub struct ToyCiphertext {
    /// API-level tag binding; not a cryptographic authentication tag.
    pub tag_id: u64,
    pub u: Vec<i64>,
    pub v: i64,
}

// ---------------------------------------------------------------------------
// Specifications of the deterministic pieces.
// ---------------------------------------------------------------------------

/// One FNV-1a step.
pub open spec fn fnv_step(state: u64, byte: u8) -> u64 {
    vstd::wrapping::u64_specs::wrapping_mul(state ^ (byte as u64), FNV_PRIME)
}

/// 64-bit FNV-1a of a byte string.
pub open spec fn spec_tag_id(tag: Seq<u8>) -> u64
    decreases tag.len(),
{
    if tag.len() == 0 {
        FNV_OFFSET_BASIS
    } else {
        fnv_step(spec_tag_id(tag.drop_last()), tag.last())
    }
}

/// Left rotation of a 64-bit word by `k < 64` bits.
pub open spec fn spec_rotl(x: u64, k: u64) -> u64 {
    if k == 0 {
        x
    } else {
        (x << k) | (x >> ((64 - k) as u64))
    }
}

/// `{-1, 0, 1}` chosen by a word's residue modulo 3.
pub open spec fn ternary(x: u64) -> i64 {
    if x % 3 == 0 {
        -1i64
    } else if x % 3 == 1 {
        0i64
    } else {
        1i64
    }
}

/// The word from which coordinate `index` of a tag's target is drawn.
pub open spec fn target_word(state: u64, index: u64) -> u64 {
    spec_rotl(
        vstd::wrapping::u64_specs::wrapping_add(
            state,
            vstd::wrapping::u64_specs::wrapping_mul(index, INDEX_STRIDE),
        ),
        index % 31,
    )
}

/// The public target vector of a tag.
pub open spec fn spec_target(tag: Seq<u8>) -> Seq<i64> {
    Seq::new(DIMENSION as nat, |i: int| ternary(target_word(spec_tag_id(tag), i as u64)))
}

/// The SplitMix64 finaliser.
pub open spec fn spec_mix(value: u64) -> u64 {
    let a = value ^ (value >> 30u64);
    let b = vstd::wrapping::u64_specs::wrapping_mul(a, MIX_FIRST);
    let c = b ^ (b >> 27u64);
    let d = vstd::wrapping::u64_specs::wrapping_mul(c, MIX_SECOND);
    d ^ (d >> 31u64)
}

/// The small pseudo-random scalar drawn from `seed`.
pub open spec fn spec_small_scalar(seed: u64) -> i64 {
    ternary(spec_mix(seed))
}

/// The small pseudo-random vector drawn from consecutive seeds.
pub open spec fn spec_small_vector(seed: u64) -> Seq<i64> {
    Seq::new(
        DIMENSION as nat,
        |i: int| spec_small_scalar(vstd::wrapping::u64_specs::wrapping_add(seed, i as u64)),
    )
}

/// The seed of the `k`-th sample of an encryption under `nonce` (k = 1, 2, 3).
pub open spec fn nonce_seed(nonce: u64, k: u64) -> u64 {
    vstd::wrapping::u64_specs::wrapping_add(vstd::wrapping::u64_specs::wrapping_mul(nonce, 2), k)
}

pub open spec fn enc_secret(nonce: u64) -> Seq<i64> {
    spec_small_vector(nonce_seed(nonce, 1))
}

pub open spec fn enc_error_1(nonce: u64) -> Seq<i64> {
    spec_small_vector(nonce_seed(nonce, 2))
}

pub open spec fn enc_error_2(nonce: u64) -> i64 {
    spec_small_scalar(nonce_seed(nonce, 3))
}

/// The embedded message: `0` or `q/2`.
pub open spec fn message_of(bit: bool) -> int {
    if bit {
        MESSAGE_OFFSET as int
    } else {
        0
    }
}

/// `u = s + e1 mod q`.
pub open spec fn enc_u(nonce: u64) -> Seq<i64> {
    Seq::new(
        DIMENSION as nat,
        |k: int| spec_mod(enc_secret(nonce)[k] + enc_error_1(nonce)[k], Q as int) as i64,
    )
}

/// `v = <y, s> + e2 + b*q/2 mod q`.
pub open spec fn enc_v(bit: bool, tag: Seq<u8>, nonce: u64) -> i64 {
    spec_mod(
        spec_mod(dot(spec_target(tag), enc_secret(nonce)), Q as int) + enc_error_2(nonce)
            + message_of(bit),
        Q as int,
    ) as i64
}

/// The centered decryption phase `v - <u, w> mod q`.
pub open spec fn spec_phase(u: Seq<i64>, v: i64, witness: Seq<i64>) -> int {
    spec_centered(v - spec_mod(dot(u, witness), Q as int), Q as int)
}

/// A decoded bit: the phase lies beyond the decoding boundary.
pub open spec fn spec_decode(phase: int) -> bool {
    phase > DECODE_BOUND || phase < -DECODE_BOUND
}

/// Every coordinate lies in `{-1, 0, 1}`.
pub open spec fn is_ternary(s: Seq<i64>) -> bool {
    forall|k: int| 0 <= k < s.len() ==> -1 <= #[trigger] s[k] <= 1
}

/// Every coordinate lies in `[lo, hi]`.
pub open spec fn bounded_by(s: Seq<i64>, lo: int, hi: int) -> bool {
    forall|k: int| 0 <= k < s.len() ==> lo <= #[trigger] s[k] <= hi
}

// ---------------------------------------------------------------------------
// Lemmas.
// ---------------------------------------------------------------------------

pub proof fn lemma_ternary_bounds(x: u64)
    ensures
        -1 <= ternary(x) <= 1,
{
}

/// An inner product of a vector bounded by `b` with a ternary vector is
/// bounded by `b` per coordinate.
pub proof fn lemma_dot_prefix_bound(left: Seq<i64>, right: Seq<i64>, b: int, n: int)
    requires
        0 <= n <= left.len(),
        left.len() == right.len(),
        b >= 0,
        bounded_by(left, -b, b),
        is_ternary(right),
    ensures
        -(n * b) <= dot_prefix(left, right, n) <= n * b,
    decreases n,
{
    if n > 0 {
        lemma_dot_prefix_bound(left, right, b, n - 1);
        let x = left[n - 1];
        let y = right[n - 1];
        assert(-b <= x * y <= b) by (nonlinear_arith)
            requires
                -b <= x <= b,
                -1 <= y <= 1,
                b >= 0,
        ;
        assert((n - 1) * b + b == n * b) by (nonlinear_arith);
    }
}

/// Such inner products never overflow `i64` for short vectors.
pub proof fn lemma_dot_fits(left: Seq<i64>, right: Seq<i64>, b: int)
    requires
        left.len() == right.len(),
        left.len() <= DIMENSION,
        0 <= b <= Q,
        bounded_by(left, -b, b),
        is_ternary(right),
    ensures
        dot_fits(left, right),
        -(DIMENSION * Q) <= dot(left, right) <= DIMENSION * Q,
{
    assert forall|k: int| 1 <= k <= left.len() implies #[trigger] dot_step_fits(left, right, k) by {
        lemma_dot_prefix_bound(left, right, b, k);
        assert(-b <= left[k - 1] * right[k - 1] <= b) by (nonlinear_arith)
            requires
                -b <= left[k - 1] <= b,
                -1 <= right[k - 1] <= 1,
                b >= 0,
        ;
        assert(k * b <= DIMENSION * Q) by (nonlinear_arith)
            requires
                0 <= k <= DIMENSION,
                0 <= b <= Q,
        ;
    }
    assert(dot_fits(left, right));
    lemma_dot_prefix_bound(left, right, b, left.len() as int);
    assert(left.len() * b <= DIMENSION * Q) by (nonlinear_arith)
        requires
            0 <= left.len() <= DIMENSION,
            0 <= b <= Q,
    ;
}

pub proof fn lemma_small_vector_ternary(seed: u64)
    ensures
        is_ternary(spec_small_vector(seed)),
        spec_small_vector(seed).len() == DIMENSION,
{
}

pub proof fn lemma_target_ternary(tag: Seq<u8>)
    ensures
        is_ternary(spec_target(tag)),
        spec_target(tag).len() == DIMENSION,
{
}

// ---------------------------------------------------------------------------
// Executable functions.
// ---------------------------------------------------------------------------

/// Returns whether a centered aggregate error is safely decodable.
pub fn is_within_noise_budget(centered_error: i64) -> (r: bool)
    ensures
        r == (-DECODE_BOUND < centered_error < DECODE_BOUND),
{
    -DECODE_BOUND < centered_error && centered_error < DECODE_BOUND
}

/// Returns a deterministic identifier used for API-level tag binding
/// (64-bit FNV-1a). This is not a cryptographic hash.
pub fn tag_id(tag: &[u8]) -> (r: u64)
    ensures
        r == spec_tag_id(tag@),
{
    let mut state: u64 = FNV_OFFSET_BASIS;
    let n = tag.len();
    for i in 0..n
        invariant
            n == tag@.len(),
            state == spec_tag_id(tag@.take(i as int)),
    {
        let byte = tag[i];
        assert(tag@.take(i + 1).drop_last() == tag@.take(i as int));
        state = state ^ (byte as u64);
        state = state.wrapping_mul(FNV_PRIME);
    }
    assert(tag@.take(n as int) == tag@);
    state
}

fn rotate_left(x: u64, k: u64) -> (r: u64)
    requires
        k < 64,
    ensures
        r == spec_rotl(x, k),
{
    if k == 0 {
        x
    } else {
        (x << k) | (x >> (64 - k))
    }
}

fn ternary_of(x: u64) -> (r: i64)
    ensures
        r == ternary(x),
        x % 3 == 0 ==> r == -1,
        x % 3 == 1 ==> r == 0,
        x % 3 == 2 ==> r == 1,
{
    let residue = x % 3;
    if residue == 0 {
        -1
    } else if residue == 1 {
        0
    } else {
        1
    }
}

/// Maps a tag deterministically to a small vector in `{-1, 0, 1}^DIMENSION`.
///
/// In a complete GPV implementation this would be the public target
/// `y = H(tag)`, with extraction sampling a short preimage of it.
pub fn target_from_tag(tag: &[u8]) -> (r: Vec<i64>)
    ensures
        r@ == spec_target(tag@),
        r@.len() == DIMENSION,
            forall|i: int|
                0 <= i < DIMENSION ==> ({
                    let w = target_word(spec_tag_id(tag@), i as u64);
                    &&& w % 3 == 0 ==> #[trigger] r@[i] == -1
                    &&& w % 3 == 1 ==> r@[i] == 0
                    &&& w % 3 == 2 ==> r@[i] == 1
                }),
{
    let state = tag_id(tag);
    let mut result: Vec<i64> = Vec::new();
    for index in 0..DIMENSION
        invariant
            state == spec_tag_id(tag@),
            result@.len() == index,
            forall|k: int|
                0 <= k < index ==> #[trigger] result@[k] == ternary(
                    target_word(state, k as u64),
                ),
    {
        let i = index as u64;
        let mixed = rotate_left(state.wrapping_add(i.wrapping_mul(INDEX_STRIDE)), i % 31);
        result.push(ternary_of(mixed));
    }
    assert(result@ == spec_target(tag@));
    proof {
        lemma_target_coordinates(tag@);
    }
    result
}

/// Returns the prototype witness for `tag`.
///
/// This deliberately uses `A = I`, so the witness equals the public target.
/// It is insecure and exists only to demonstrate the algebra.
pub fn extract_test_witness(tag: &[u8]) -> (r: Vec<i64>)
    ensures
        r@ == spec_target(tag@),
        r@.len() == DIMENSION,
            forall|i: int|
                0 <= i < DIMENSION ==> ({
                    let w = target_word(spec_tag_id(tag@), i as u64);
                    &&& w % 3 == 0 ==> #[trigger] r@[i] == -1
                    &&& w % 3 == 1 ==> r@[i] == 0
                    &&& w % 3 == 2 ==> r@[i] == 1
                }),
{
    target_from_tag(tag)
}

fn mix(value: u64) -> (r: u64)
    ensures
        r == spec_mix(value),
{
    let mut value = value;
    value = value ^ (value >> 30u64);
    value = value.wrapping_mul(MIX_FIRST);
    value = value ^ (value >> 27u64);
    value = value.wrapping_mul(MIX_SECOND);
    value ^ (value >> 31u64)
}

fn sample_small_scalar(seed: u64) -> (r: i64)
    ensures
        r == spec_small_scalar(seed),
        spec_mix(seed) % 3 == 0 ==> r == -1,
        spec_mix(seed) % 3 == 1 ==> r == 0,
        spec_mix(seed) % 3 == 2 ==> r == 1,
{
    ternary_of(mix(seed))
}

fn sample_small_vector(seed: u64) -> (r: Vec<i64>)
    ensures
        r@ == spec_small_vector(seed),
{
    let mut result: Vec<i64> = Vec::new();
    for index in 0..DIMENSION
        invariant
            result@.len() == index,
            forall|k: int|
                0 <= k < index ==> #[trigger] result@[k] == spec_small_scalar(
                    vstd::wrapping::u64_specs::wrapping_add(seed, k as u64),
                ),
    {
        result.push(sample_small_scalar(seed.wrapping_add(index as u64)));
    }
    assert(result@ == spec_small_vector(seed));
    result
}

/// Encrypts a binary message under `tag`.
///
/// This models the LWE algebra with `A = I`:
/// `u = s + e1` and `v = <y, s> + e2 + b*q/2 mod q`.
pub fn encrypt_bit(bit: bool, tag: &[u8], nonce: u64) -> (r: ToyCiphertext)
    ensures
        r.tag_id == spec_tag_id(tag@),
        r.u@ == enc_u(nonce),
        r.v == enc_v(bit, tag@, nonce),
{
    let target = target_from_tag(tag);
    let secret = sample_small_vector(nonce.wrapping_mul(2).wrapping_add(1));
    let error_1 = sample_small_vector(nonce.wrapping_mul(2).wrapping_add(2));
    let error_2 = sample_small_scalar(nonce.wrapping_mul(2).wrapping_add(3));

    proof {
        lemma_small_vector_ternary(nonce_seed(nonce, 1));
        lemma_small_vector_ternary(nonce_seed(nonce, 2));
        lemma_target_ternary(tag@);
        lemma_ternary_bounds(spec_mix(nonce_seed(nonce, 3)));
        lemma_dot_fits(target@, secret@, 1);
        assert(sum_fits(secret@, error_1@));
    }

    let u = add_vec_mod_q(secret.as_slice(), error_1.as_slice(), Q);
    let message: i64 = if bit {
        MESSAGE_OFFSET
    } else {
        0
    };

    let inner = dot_product_mod_q(target.as_slice(), secret.as_slice(), Q);
    let v = mod_q(inner + error_2 + message, Q);

    assert(u@ == enc_u(nonce));
    ToyCiphertext { tag_id: tag_id(tag), u, v }
}

} // verus!

verus! {

// ---------------------------------------------------------------------------
// Aggregation and decryption.
// ---------------------------------------------------------------------------

/// Item `i` carries the first item's tag and a `u` of the right dimension.
pub open spec fn item_matches(cts: Seq<ToyCiphertext>, i: int) -> bool {
    cts[i].tag_id == cts[0].tag_id && cts[i].u@.len() == DIMENSION
}

/// The first `n` items all match the first one.
pub open spec fn prefix_matches(cts: Seq<ToyCiphertext>, n: int) -> bool {
    forall|j: int| 0 <= j < n ==> #[trigger] item_matches(cts, j)
}

/// The error reported by scanning the items from index `i` on, if any.
pub open spec fn scan_failure(cts: Seq<ToyCiphertext>, i: int) -> Option<PrototypeError>
    decreases cts.len() - i,
{
    if i < 0 || i >= cts.len() {
        None
    } else if cts[i].tag_id != cts[0].tag_id {
        Some(PrototypeError::MixedTags)
    } else if cts[i].u@.len() != DIMENSION {
        Some(PrototypeError::InvalidCiphertextDimension)
    } else {
        scan_failure(cts, i + 1)
    }
}

/// The error that aggregation reports, or `None` when it succeeds.
pub open spec fn aggregate_failure(cts: Seq<ToyCiphertext>) -> Option<PrototypeError> {
    if cts.len() == 0 {
        Some(PrototypeError::EmptyAggregation)
    } else if cts[0].u@.len() != DIMENSION {
        Some(PrototypeError::InvalidCiphertextDimension)
    } else {
        scan_failure(cts, 0)
    }
}

/// The sum of the `v` components of the first `n` items.
pub open spec fn sum_v(cts: Seq<ToyCiphertext>, n: int) -> int
    decreases n,
{
    if n <= 0 {
        0
    } else {
        sum_v(cts, n - 1) + cts[n - 1].v
    }
}

/// The sum of coordinate `k` of the `u` components of the first `n` items.
pub open spec fn sum_u(cts: Seq<ToyCiphertext>, n: int, k: int) -> int
    decreases n,
{
    if n <= 0 {
        0
    } else {
        sum_u(cts, n - 1, k) + cts[n - 1].u@[k]
    }
}

/// The aggregate `u`: coordinate-wise sums modulo `q`.
pub open spec fn aggregate_u(cts: Seq<ToyCiphertext>) -> Seq<i64> {
    Seq::new(DIMENSION as nat, |k: int| spec_mod(sum_u(cts, cts.len() as int, k), Q as int) as i64)
}

/// The aggregate `v`: the sum modulo `q`.
pub open spec fn aggregate_v(cts: Seq<ToyCiphertext>) -> i64 {
    spec_mod(sum_v(cts, cts.len() as int), Q as int) as i64
}

/// Adding item `i` to the accumulators, reduced modulo `q`, of the items
/// before it does not overflow.
pub open spec fn item_fits(cts: Seq<ToyCiphertext>, i: int) -> bool {
    &&& spec_mod(sum_v(cts, i), Q as int) + cts[i].v <= i64::MAX
    &&& forall|k: int|
        0 <= k < cts[i].u@.len() ==> spec_mod(sum_u(cts, i, k), Q as int) + #[trigger] cts[i].u@[k]
            <= i64::MAX
}

/// Every item that aggregation adds up can be added without overflow.
pub open spec fn aggregate_fits(cts: Seq<ToyCiphertext>) -> bool {
    forall|i: int| 0 <= i < cts.len() && prefix_matches(cts, i + 1) ==> #[trigger] item_fits(cts, i)
}

/// The decryption phase of `(u, v)` can be computed without overflow.
pub open spec fn phase_fits(u: Seq<i64>, v: i64, witness: Seq<i64>) -> bool {
    &&& u.len() == witness.len()
    &&& dot_fits(u, witness)
    &&& fits_i64(v - spec_mod(dot(u, witness), Q as int))
}

pub proof fn lemma_mod_add_left(x: int, y: int, m: int)
    requires
        m > 0,
    ensures
        ((x % m) + y) % m == (x + y) % m,
{
    vstd::arithmetic::div_mod::lemma_add_mod_noop(x, y, m);
    vstd::arithmetic::div_mod::lemma_add_mod_noop(x % m, y, m);
    vstd::arithmetic::div_mod::lemma_mod_twice(x, m);
}

pub proof fn lemma_scan_skips_matching_prefix(cts: Seq<ToyCiphertext>, i: int)
    requires
        0 <= i <= cts.len(),
        prefix_matches(cts, i),
    ensures
        scan_failure(cts, 0) == scan_failure(cts, i),
    decreases i,
{
    if i > 0 {
        lemma_scan_skips_matching_prefix(cts, i - 1);
        assert(item_matches(cts, i - 1));
    }
}

/// Homomorphically aggregates same-tag ciphertexts by component-wise addition.
///
/// Returns an error if the input is empty, malformed, or contains mixed tags.
pub fn aggregate(ciphertexts: &[ToyCiphertext]) -> (r: Result<ToyCiphertext, PrototypeError>)
    requires
        aggregate_fits(ciphertexts@),
    ensures
        match aggregate_failure(ciphertexts@) {
            Some(e) => r == Err::<ToyCiphertext, PrototypeError>(e),
            None => r matches Ok(a) && a.tag_id == ciphertexts@[0].tag_id && a.u@ == aggregate_u(
                ciphertexts@,
            ) && a.v == aggregate_v(ciphertexts@),
        },
{
    let n = ciphertexts.len();
    if n == 0 {
        return Err(PrototypeError::EmptyAggregation);
    }
    let first = &ciphertexts[0];

    if first.u.len() != DIMENSION {
        return Err(PrototypeError::InvalidCiphertextDimension);
    }

    let expected_tag_id = first.tag_id;
    let mut aggregate_u_acc: Vec<i64> = Vec::new();
    for k in 0..DIMENSION
        invariant
            aggregate_u_acc@.len() == k,
            forall|j: int| 0 <= j < k ==> #[trigger] aggregate_u_acc@[j] == 0,
    {
        aggregate_u_acc.push(0);
    }
    let mut aggregate_v_acc: i64 = 0;

    for i in 0..n
        invariant
            n == ciphertexts@.len(),
            n > 0,
            expected_tag_id == ciphertexts@[0].tag_id,
            ciphertexts@[0].u@.len() == DIMENSION,
            aggregate_fits(ciphertexts@),
            prefix_matches(ciphertexts@, i as int),
            aggregate_u_acc@.len() == DIMENSION,
            forall|k: int|
                0 <= k < DIMENSION ==> #[trigger] aggregate_u_acc@[k] == spec_mod(
                    sum_u(ciphertexts@, i as int, k),
                    Q as int,
                ) && 0 <= aggregate_u_acc@[k] < Q,
            aggregate_v_acc == spec_mod(sum_v(ciphertexts@, i as int), Q as int),
            0 <= aggregate_v_acc < Q,
    {
        let ciphertext = &ciphertexts[i];
        proof {
            lemma_scan_skips_matching_prefix(ciphertexts@, i as int);
        }
        if ciphertext.tag_id != expected_tag_id {
            return Err(PrototypeError::MixedTags);
        }

        if ciphertext.u.len() != DIMENSION {
            return Err(PrototypeError::InvalidCiphertextDimension);
        }

        proof {
            assert(item_matches(ciphertexts@, i as int));
            assert(prefix_matches(ciphertexts@, i + 1));
            assert(item_fits(ciphertexts@, i as int));
            assert(sum_fits(aggregate_u_acc@, ciphertext.u@)) by {
                assert forall|k: int| 0 <= k < aggregate_u_acc@.len() implies fits_i64(
                    #[trigger] aggregate_u_acc@[k] + ciphertext.u@[k],
                ) by {
                    assert(aggregate_u_acc@[k] == spec_mod(sum_u(ciphertexts@, i as int, k), Q as int));
                    assert(spec_mod(sum_u(ciphertexts@, i as int, k), Q as int) + ciphertexts@[i as int].u@[k] <= i64::MAX);
                }
            }
        }
        let next_u = add_vec_mod_q(aggregate_u_acc.as_slice(), ciphertext.u.as_slice(), Q);
        proof {
            assert forall|k: int| 0 <= k < DIMENSION implies #[trigger] next_u@[k] == spec_mod(
                sum_u(ciphertexts@, i + 1, k),
                Q as int,
            ) && 0 <= next_u@[k] < Q by {
                lemma_mod_add_left(sum_u(ciphertexts@, i as int, k), ciphertext.u@[k] as int, Q as int);
            }
            lemma_mod_add_left(sum_v(ciphertexts@, i as int), ciphertext.v as int, Q as int);
        }
        aggregate_u_acc = next_u;
        aggregate_v_acc = mod_q(aggregate_v_acc + ciphertext.v, Q);
    }

    proof {
        assert(scan_failure(ciphertexts@, n as int) == None::<PrototypeError>);
        lemma_scan_skips_matching_prefix(ciphertexts@, n as int);
        assert(aggregate_u_acc@ == aggregate_u(ciphertexts@));
    }
    Ok(ToyCiphertext { tag_id: expected_tag_id, u: aggregate_u_acc, v: aggregate_v_acc })
}

/// Returns the centered phase `v - <u, witness> mod q` before bit decoding.
pub fn decryption_phase(ciphertext: &ToyCiphertext, witness: &[i64]) -> (r: i64)
    requires
        phase_fits(ciphertext.u@, ciphertext.v, witness@),
    ensures
        r == spec_phase(ciphertext.u@, ciphertext.v, witness@),
{
    let inner = dot_product_mod_q(ciphertext.u.as_slice(), witness, Q);
    centered_mod_q(ciphertext.v - inner, Q)
}

/// Decrypts a ciphertext or aggregate with a witness for `tag`.
///
/// This checks that the caller-provided tag matches the tag identifier stored
/// in the ciphertext; it is API-level protection, not authentication.
pub fn decrypt_bit(ciphertext: &ToyCiphertext, tag: &[u8], witness: &[i64]) -> (r: Result<
    bool,
    PrototypeError,
>)
    requires
        ciphertext.tag_id == spec_tag_id(tag@) ==> phase_fits(ciphertext.u@, ciphertext.v, witness@),
    ensures
        ciphertext.tag_id != spec_tag_id(tag@) ==> r == Err::<bool, PrototypeError>(
            PrototypeError::TagMismatch,
        ),
        ciphertext.tag_id == spec_tag_id(tag@) ==> r == Ok::<bool, PrototypeError>(
            spec_decode(spec_phase(ciphertext.u@, ciphertext.v, witness@)),
        ),
{
    if ciphertext.tag_id != tag_id(tag) {
        return Err(PrototypeError::TagMismatch);
    }

    let phase = decryption_phase(ciphertext, witness);
    Ok(phase > DECODE_BOUND || phase < -DECODE_BOUND)
}

/// Coordinate `i` of a tag's target is `-1`, `0` or `1` according as the
/// word drawn for it is `0`, `1` or `2` modulo 3; the target has `DIMENSION`
/// coordinates.
pub proof fn lemma_target_coordinates(tag: Seq<u8>)
    ensures
        spec_target(tag).len() == DIMENSION,
        forall|i: int|
            0 <= i < DIMENSION ==> ({
                let w = target_word(spec_tag_id(tag), i as u64);
                &&& w % 3 == 0 ==> #[trigger] spec_target(tag)[i] == -1
                &&& w % 3 == 1 ==> spec_target(tag)[i] == 0
                &&& w % 3 == 2 ==> spec_target(tag)[i] == 1
            }),
{
}

/// A small sample is `-1`, `0` or `1` according as its mixed seed is `0`, `1`
/// or `2` modulo 3, and the coordinates of a small vector are the small
/// samples of consecutive seeds.
pub proof fn lemma_small_sample_values(seed: u64)
    ensures
        spec_mix(seed) % 3 == 0 ==> spec_small_scalar(seed) == -1,
        spec_mix(seed) % 3 == 1 ==> spec_small_scalar(seed) == 0,
        spec_mix(seed) % 3 == 2 ==> spec_small_scalar(seed) == 1,
        spec_small_vector(seed).len() == DIMENSION,
        forall|i: int|
            0 <= i < DIMENSION ==> ({
                let w = spec_mix(vstd::wrapping::u64_specs::wrapping_add(seed, i as u64));
                &&& w % 3 == 0 ==> #[trigger] spec_small_vector(seed)[i] == -1
                &&& w % 3 == 1 ==> spec_small_vector(seed)[i] == 0
                &&& w % 3 == 2 ==> spec_small_vector(seed)[i] == 1
            }),
{
}

proof fn lemma_scan_is_match_check(cts: Seq<ToyCiphertext>, i: int)
    requires
        0 <= i,
    ensures
        scan_failure(cts, i) is None <==> forall|j: int| i <= j < cts.len() ==> #[trigger] item_matches(cts, j),
        scan_failure(cts, i) matches Some(e) ==> e == PrototypeError::MixedTags || e
            == PrototypeError::InvalidCiphertextDimension,
    decreases cts.len() - i,
{
    if i < cts.len() {
        lemma_scan_is_match_check(cts, i + 1);
        assert(item_matches(cts, i) == (cts[i].tag_id == cts[0].tag_id && cts[i].u@.len()
            == DIMENSION));
        if forall|j: int| i <= j < cts.len() ==> #[trigger] item_matches(cts, j) {
            assert(item_matches(cts, i));
        }
        if scan_failure(cts, i) is None {
            assert forall|j: int| i <= j < cts.len() implies #[trigger] item_matches(cts, j) by {
                if j > i {
                    assert(i + 1 <= j);
                }
            }
        }
    }
}

/// Aggregation succeeds exactly on a non-empty sequence whose items all
/// carry the first item's tag identifier and have `DIMENSION` coordinates;
/// an empty input gives `EmptyAggregation`, and every other error is
/// `MixedTags` or `InvalidCiphertextDimension`.
pub proof fn lemma_aggregation_conditions(cts: Seq<ToyCiphertext>)
    ensures
        aggregate_failure(cts) is None <==> cts.len() > 0 && (forall|j: int|
            0 <= j < cts.len() ==> (#[trigger] cts[j]).tag_id == cts[0].tag_id && cts[j].u@.len()
                == DIMENSION),
        cts.len() == 0 ==> aggregate_failure(cts) == Some(PrototypeError::EmptyAggregation),
        aggregate_failure(cts) matches Some(e) ==> e == PrototypeError::EmptyAggregation || e
            == PrototypeError::MixedTags || e == PrototypeError::InvalidCiphertextDimension,
{
    lemma_scan_is_match_check(cts, 0);
    let all = forall|j: int|
        0 <= j < cts.len() ==> (#[trigger] cts[j]).tag_id == cts[0].tag_id && cts[j].u@.len()
            == DIMENSION;
    if all {
        assert forall|j: int| 0 <= j < cts.len() implies #[trigger] item_matches(cts, j) by {
            assert(cts[j].tag_id == cts[0].tag_id);
        }
    }
    if cts.len() > 0 && scan_failure(cts, 0) is None {
        assert forall|j: int|
            0 <= j < cts.len() implies (#[trigger] cts[j]).tag_id == cts[0].tag_id && cts[j].u@.len()
            == DIMENSION by {
            assert(item_matches(cts, j));
        }
    }
}

} // verus!
