//! Correctness of the prototype: decryption recovers an encrypted bit within
//! a small noise bound, shifting `v` by `q/2` flips it, aggregation does not
//! depend on the order of the items, and decrypting a same-tag aggregate
//! recovers the XOR of the encrypted bits.

use vstd::prelude::*;

use super::math::{dot, dot_prefix, spec_centered, spec_mod};
use super::prototype::{
    aggregate_failure, aggregate_fits, aggregate_u, aggregate_v, bounded_by, enc_error_1,
    enc_error_2, enc_secret, enc_u, enc_v, is_ternary, item_fits, item_matches, lemma_dot_fits,
    lemma_dot_prefix_bound, lemma_mod_add_left, lemma_scan_skips_matching_prefix,
    lemma_small_vector_ternary, lemma_target_ternary, lemma_ternary_bounds, message_of, nonce_seed,
    phase_fits, prefix_matches, spec_decode, spec_mix, spec_phase, spec_tag_id, spec_target, sum_u,
    sum_v, ToyCiphertext, DIMENSION, MESSAGE_OFFSET, Q,
};

verus! {

/// The prototype modulus as an integer.
pub open spec fn q() -> int {
    Q as int
}

/// The number of `true` bits among the first `n`.
pub open spec fn count_ones(bits: Seq<bool>, n: int) -> int
    decreases n,
{
    if n <= 0 {
        0
    } else {
        count_ones(bits, n - 1) + if bits[n - 1] {
            1int
        } else {
            0int
        }
    }
}

/// The XOR of all bits.
pub open spec fn parity(bits: Seq<bool>) -> bool
    decreases bits.len(),
{
    if bits.len() == 0 {
        false
    } else {
        parity(bits.drop_last()) != bits.last()
    }
}

/// The error term `e2 - <e1, y>` that an encryption under `nonce` carries.
pub open spec fn enc_noise(tag: Seq<u8>, nonce: u64) -> int {
    enc_error_2(nonce) - dot(enc_error_1(nonce), spec_target(tag))
}

/// The total error of the first `n` encryptions.
pub open spec fn noise_sum(tag: Seq<u8>, nonces: Seq<u64>, n: int) -> int
    decreases n,
{
    if n <= 0 {
        0
    } else {
        noise_sum(tag, nonces, n - 1) + enc_noise(tag, nonces[n - 1])
    }
}

/// `cts[i]` is the honest encryption of `bits[i]` under `tag` and `nonces[i]`.
pub open spec fn honest_encryptions(
    tag: Seq<u8>,
    bits: Seq<bool>,
    nonces: Seq<u64>,
    cts: Seq<ToyCiphertext>,
) -> bool {
    &&& bits.len() == cts.len()
    &&& nonces.len() == cts.len()
    &&& forall|i: int|
        0 <= i < cts.len() ==> {
            &&& (#[trigger] cts[i]).tag_id == spec_tag_id(tag)
            &&& cts[i].u@ == enc_u(nonces[i])
            &&& cts[i].v == enc_v(bits[i], tag, nonces[i])
        }
}

proof fn lemma_cong_add(a: int, a2: int, b: int, b2: int)
    requires
        a % q() == a2 % q(),
        b % q() == b2 % q(),
    ensures
        (a + b) % q() == (a2 + b2) % q(),
{
    vstd::arithmetic::div_mod::lemma_add_mod_noop(a, b, Q as int);
    vstd::arithmetic::div_mod::lemma_add_mod_noop(a2, b2, Q as int);
}

proof fn lemma_cong_sub(a: int, a2: int, b: int, b2: int)
    requires
        a % q() == a2 % q(),
        b % q() == b2 % q(),
    ensures
        (a - b) % q() == (a2 - b2) % q(),
{
    vstd::arithmetic::div_mod::lemma_sub_mod_noop(a, b, Q as int);
    vstd::arithmetic::div_mod::lemma_sub_mod_noop(a2, b2, Q as int);
}

proof fn lemma_cong_mul(a: int, a2: int, y: int)
    requires
        a % q() == a2 % q(),
    ensures
        (a * y) % q() == (a2 * y) % q(),
{
    vstd::arithmetic::div_mod::lemma_mul_mod_noop_general(a, y, Q as int);
    vstd::arithmetic::div_mod::lemma_mul_mod_noop_general(a2, y, Q as int);
}

/// If `a ≡ b + c` coordinate-wise, then `<a, y> ≡ <b, y> + <c, y>` modulo `q`.
proof fn lemma_dot_mod_split(a: Seq<i64>, b: Seq<i64>, c: Seq<i64>, y: Seq<i64>, n: int)
    requires
        0 <= n <= a.len(),
        a.len() == b.len(),
        a.len() == c.len(),
        a.len() == y.len(),
        forall|k: int| 0 <= k < a.len() ==> (#[trigger] a[k] as int) % q() == (b[k] + c[k]) % q(),
    ensures
        dot_prefix(a, y, n) % q() == (dot_prefix(b, y, n) + dot_prefix(c, y, n)) % q(),
    decreases n,
{
    if n > 0 {
        lemma_dot_mod_split(a, b, c, y, n - 1);
        let k = n - 1;
        assert((a[k] as int) % q() == (b[k] + c[k]) % q());
        lemma_cong_mul(a[k] as int, b[k] + c[k], y[k] as int);
        assert((b[k] + c[k]) * y[k] == b[k] * y[k] + c[k] * y[k]) by (nonlinear_arith);
        lemma_cong_add(
            dot_prefix(a, y, k),
            dot_prefix(b, y, k) + dot_prefix(c, y, k),
            a[k] * y[k],
            b[k] * y[k] + c[k] * y[k],
        );
    }
}

proof fn lemma_dot_symmetric(a: Seq<i64>, b: Seq<i64>, n: int)
    requires
        0 <= n <= a.len(),
        a.len() == b.len(),
    ensures
        dot_prefix(a, b, n) == dot_prefix(b, a, n),
    decreases n,
{
    if n > 0 {
        lemma_dot_symmetric(a, b, n - 1);
        assert(a[n - 1] * b[n - 1] == b[n - 1] * a[n - 1]) by (nonlinear_arith);
    }
}

/// The phase residue of one honest encryption is its error plus its message.
proof fn lemma_encryption_residue(bit: bool, tag: Seq<u8>, nonce: u64)
    ensures
        (enc_v(bit, tag, nonce) - dot(enc_u(nonce), spec_target(tag))) % q() == (enc_noise(tag, nonce)
            + message_of(bit)) % q(),
        -17 <= enc_noise(tag, nonce) <= 17,
        enc_u(nonce).len() == DIMENSION,
        bounded_by(enc_u(nonce), 0, Q - 1),
        0 <= enc_v(bit, tag, nonce) < Q,
{
    let s = enc_secret(nonce);
    let e1 = enc_error_1(nonce);
    let e2 = enc_error_2(nonce) as int;
    let y = spec_target(tag);
    let u = enc_u(nonce);
    let m = message_of(bit);
    lemma_small_vector_ternary(nonce_seed(nonce, 1));
    lemma_small_vector_ternary(nonce_seed(nonce, 2));
    lemma_target_ternary(tag);
    lemma_ternary_bounds(spec_mix(nonce_seed(nonce, 3)));
    assert forall|k: int| 0 <= k < u.len() implies (#[trigger] u[k] as int) % q() == (s[k] + e1[k]) % q() by {
        vstd::arithmetic::div_mod::lemma_mod_twice(s[k] + e1[k], Q as int);
    }
    lemma_dot_mod_split(u, s, e1, y, DIMENSION as int);
    lemma_dot_symmetric(y, s, DIMENSION as int);
    let ds = dot(s, y);
    let de = dot(e1, y);
    // v ≡ <y, s> + e2 + m and <u, y> ≡ <s, y> + <e1, y>.
    lemma_mod_add_left(ds, e2 + m, Q as int);
    vstd::arithmetic::div_mod::lemma_mod_twice(ds + e2 + m, Q as int);
    lemma_cong_sub(enc_v(bit, tag, nonce) as int, ds + e2 + m, dot(u, y), ds + de);
    assert(ds + e2 + m - (ds + de) == e2 - de + m);
    lemma_dot_prefix_bound(e1, y, 1, DIMENSION as int);
}

/// The accumulator of the first `n` items: coordinate-wise sums modulo `q`.
pub open spec fn partial_u(cts: Seq<ToyCiphertext>, n: int) -> Seq<i64> {
    Seq::new(DIMENSION as nat, |k: int| spec_mod(sum_u(cts, n, k), Q as int) as i64)
}

proof fn lemma_residue_step(
    sv_prev: int,
    d_prev: int,
    d_u: int,
    d_next: int,
    v_i: int,
    r_prev: int,
    r_i: int,
)
    requires
        (sv_prev - d_prev) % q() == r_prev % q(),
        d_next % q() == (d_prev + d_u) % q(),
        (v_i - d_u) % q() == r_i % q(),
    ensures
        (sv_prev + v_i - d_next) % q() == (r_prev + r_i) % q(),
{
    lemma_cong_add(sv_prev - d_prev, r_prev, v_i - d_u, r_i);
    lemma_cong_sub(sv_prev + v_i, sv_prev + v_i, d_next, d_prev + d_u);
    assert(sv_prev - d_prev + (v_i - d_u) == sv_prev + v_i - (d_prev + d_u));
}

/// Bounds and parity of the error and message counts of honest encryptions.
proof fn lemma_counts(tag: Seq<u8>, bits: Seq<bool>, nonces: Seq<u64>, n: int)
    requires
        0 <= n <= bits.len(),
        n <= nonces.len(),
    ensures
        -17 * n <= noise_sum(tag, nonces, n) <= 17 * n,
        0 <= count_ones(bits, n) <= n,
        (count_ones(bits, n) % 2 == 1) == parity(bits.take(n)),
    decreases n,
{
    if n == 0 {
        assert(bits.take(0) =~= Seq::<bool>::empty());
    } else {
        lemma_counts(tag, bits, nonces, n - 1);
        lemma_encryption_residue(bits[n - 1], tag, nonces[n - 1]);
        assert(bits.take(n).drop_last() =~= bits.take(n - 1));
    }
}

/// The phase residue of an aggregate is the sum of the items' residues.
proof fn lemma_aggregate_residue(
    tag: Seq<u8>,
    bits: Seq<bool>,
    nonces: Seq<u64>,
    cts: Seq<ToyCiphertext>,
    n: int,
)
    requires
        honest_encryptions(tag, bits, nonces, cts),
        0 <= n <= cts.len(),
    ensures
        (sum_v(cts, n) - dot(partial_u(cts, n), spec_target(tag))) % q() == (noise_sum(
            tag,
            nonces,
            n,
        ) + MESSAGE_OFFSET * count_ones(bits, n)) % q(),
    decreases n,
{
    let y = spec_target(tag);
    lemma_target_ternary(tag);
    if n == 0 {
        let a = partial_u(cts, 0);
        assert forall|k: int| 0 <= k < a.len() implies #[trigger] a[k] == 0 by {}
        assert(dot(a, y) == 0) by {
            lemma_dot_prefix_bound(a, y, 0, DIMENSION as int);
        }
    } else {
        let i = n - 1;
        lemma_aggregate_residue(tag, bits, nonces, cts, i);
        assert(cts[i].tag_id == spec_tag_id(tag));
        lemma_encryption_residue(bits[i], tag, nonces[i]);
        let prev = partial_u(cts, i);
        let next = partial_u(cts, n);
        let u = cts[i].u@;
        assert forall|k: int| 0 <= k < next.len() implies (#[trigger] next[k] as int) % q() == (
        prev[k] + u[k]) % q() by {
            lemma_mod_add_left(sum_u(cts, i, k), u[k] as int, Q as int);
            vstd::arithmetic::div_mod::lemma_mod_twice(sum_u(cts, n, k), Q as int);
        }
        lemma_dot_mod_split(next, prev, u, y, DIMENSION as int);
        let m = message_of(bits[i]);
        lemma_residue_step(
            sum_v(cts, i),
            dot(prev, y),
            dot(u, y),
            dot(next, y),
            cts[i].v as int,
            noise_sum(tag, nonces, i) + MESSAGE_OFFSET * count_ones(bits, i),
            enc_noise(tag, nonces[i]) + m,
        );
        assert(MESSAGE_OFFSET * count_ones(bits, n) == MESSAGE_OFFSET * count_ones(bits, i) + m)
            by (nonlinear_arith)
            requires
                count_ones(bits, n) == count_ones(bits, i) + if bits[i] {
                    1int
                } else {
                    0int
                },
                m == if bits[i] {
                    MESSAGE_OFFSET as int
                } else {
                    0int
                },
        ;
    }
}

/// Reduces a residue `noise + (q/2)·count` to the decoded bit, for small noise.
proof fn lemma_decode_residue(noise: int, count: int, n: int)
    requires
        0 <= count <= n <= 175,
        -17 * n <= noise <= 17 * n,
    ensures
        spec_decode(spec_centered(noise + MESSAGE_OFFSET * count, Q as int)) == (count % 2 == 1),
{
    let h = count / 2;
    let p = count % 2;
    assert(MESSAGE_OFFSET * count == Q * h + (noise - noise) - h + MESSAGE_OFFSET * p) by (nonlinear_arith)
        requires
            count == 2 * h + p,
    ;
    let rest = noise - h + MESSAGE_OFFSET * p;
    vstd::arithmetic::div_mod::lemma_mod_multiples_vanish(h, rest, Q as int);
    assert(noise + MESSAGE_OFFSET * count == Q * h + rest);
    assert(-3063 <= noise - h <= 2975);
}

/// One honest encryption decrypts to its bit under the tag's witness.
pub proof fn lemma_encrypt_then_decrypt(bit: bool, tag: Seq<u8>, nonce: u64)
    ensures
        phase_fits(enc_u(nonce), enc_v(bit, tag, nonce), spec_target(tag)),
        spec_decode(spec_phase(enc_u(nonce), enc_v(bit, tag, nonce), spec_target(tag))) == bit,
{
    let u = enc_u(nonce);
    let v = enc_v(bit, tag, nonce);
    let y = spec_target(tag);
    lemma_encryption_residue(bit, tag, nonce);
    lemma_target_ternary(tag);
    lemma_dot_fits(u, y, Q as int);
    vstd::arithmetic::div_mod::lemma_sub_mod_noop_right(v as int, dot(u, y), Q as int);
    let count = if bit { 1int } else { 0int };
    assert(message_of(bit) == MESSAGE_OFFSET * count);
    lemma_decode_residue(enc_noise(tag, nonce), count, 1);
    vstd::arithmetic::div_mod::lemma_mod_twice(enc_noise(tag, nonce) + message_of(bit), Q as int);
}

/// The decryption phase of an honest encryption under the tag's witness is
/// its noise, at most 17 in size, for a zero bit, and lies at least 6127
/// away from zero for a one bit; every phase lies in `[-q/2, q/2]`.
pub proof fn lemma_honest_phase_bounds(bit: bool, tag: Seq<u8>, nonce: u64)
    ensures
        phase_fits(enc_u(nonce), enc_v(bit, tag, nonce), spec_target(tag)),
        ({
            let p = spec_phase(enc_u(nonce), enc_v(bit, tag, nonce), spec_target(tag));
            &&& -(Q / 2) <= p <= Q / 2
            &&& !bit ==> -17 <= p <= 17
            &&& bit ==> (p >= 6127 || p <= -6127)
        }),
{
    let u = enc_u(nonce);
    let v = enc_v(bit, tag, nonce);
    let y = spec_target(tag);
    lemma_encrypt_then_decrypt(bit, tag, nonce);
    lemma_encryption_residue(bit, tag, nonce);
    vstd::arithmetic::div_mod::lemma_sub_mod_noop_right(v as int, dot(u, y), Q as int);
    let noise = enc_noise(tag, nonce);
    let m = message_of(bit);
    assert((v - spec_mod(dot(u, y), Q as int)) % (Q as int) == (noise + m) % (Q as int));
    if bit {
        assert(m == 6144);
        vstd::arithmetic::div_mod::lemma_small_mod((noise + m) as nat, Q as nat);
    } else {
        assert(m == 0);
        if noise >= 0 {
            vstd::arithmetic::div_mod::lemma_small_mod(noise as nat, Q as nat);
        } else {
            vstd::arithmetic::div_mod::lemma_mod_multiples_vanish(1, noise, Q as int);
            vstd::arithmetic::div_mod::lemma_small_mod((noise + Q) as nat, Q as nat);
        }
    }
}

/// Shifting the `v` of an honest encryption by `q/2` (modulo `q`) flips the
/// bit that it decrypts to under the tag's witness.
pub proof fn lemma_shifted_encryption_flips_bit(bit: bool, tag: Seq<u8>, nonce: u64)
    ensures
        ({
            let shifted = spec_mod(enc_v(bit, tag, nonce) + Q / 2, Q as int) as i64;
            &&& phase_fits(enc_u(nonce), shifted, spec_target(tag))
            &&& spec_decode(spec_phase(enc_u(nonce), shifted, spec_target(tag))) == !bit
        }),
{
    let u = enc_u(nonce);
    let v = enc_v(bit, tag, nonce);
    let y = spec_target(tag);
    let shifted_int = spec_mod(v + Q / 2, Q as int);
    let shifted = shifted_int as i64;
    lemma_encryption_residue(bit, tag, nonce);
    lemma_target_ternary(tag);
    lemma_dot_fits(u, y, Q as int);
    assert(0 <= shifted_int < Q);
    assert(shifted as int == shifted_int);
    vstd::arithmetic::div_mod::lemma_sub_mod_noop_right(shifted as int, dot(u, y), Q as int);
    // shifted - <u, y> = v - <u, y> + q/2 modulo q.
    lemma_mod_add_left(v + Q / 2, -dot(u, y), Q as int);
    assert(v + Q / 2 - dot(u, y) == (v - dot(u, y)) + MESSAGE_OFFSET);
    lemma_mod_add_left(v - dot(u, y), MESSAGE_OFFSET as int, Q as int);
    let noise = enc_noise(tag, nonce);
    lemma_mod_add_left(noise + message_of(bit), MESSAGE_OFFSET as int, Q as int);
    let count = if bit { 2int } else { 1int };
    assert(noise + message_of(bit) + MESSAGE_OFFSET == noise + MESSAGE_OFFSET * count);
    lemma_decode_residue(noise, count, count);
    vstd::arithmetic::div_mod::lemma_mod_twice(noise + MESSAGE_OFFSET * count, Q as int);
}

proof fn lemma_sums_of_equal_prefixes(a: Seq<ToyCiphertext>, b: Seq<ToyCiphertext>, n: int)
    requires
        0 <= n <= a.len(),
        n <= b.len(),
        forall|i: int| 0 <= i < n ==> a[i] == b[i],
    ensures
        sum_v(a, n) == sum_v(b, n),
        forall|k: int| #[trigger] sum_u(a, n, k) == sum_u(b, n, k),
    decreases n,
{
    if n > 0 {
        lemma_sums_of_equal_prefixes(a, b, n - 1);
        assert(a[n - 1] == b[n - 1]);
        assert forall|k: int| #[trigger] sum_u(a, n, k) == sum_u(b, n, k) by {
            assert(sum_u(a, n - 1, k) == sum_u(b, n - 1, k));
        }
    }
}

/// Removing item `p` takes exactly its components off the sums.
proof fn lemma_sums_remove(cts: Seq<ToyCiphertext>, p: int)
    requires
        0 <= p < cts.len(),
    ensures
        sum_v(cts, cts.len() as int) == sum_v(cts.remove(p), cts.len() - 1) + cts[p].v,
        forall|k: int|
            #[trigger] sum_u(cts, cts.len() as int, k) == sum_u(cts.remove(p), cts.len() - 1, k)
                + cts[p].u@[k],
    decreases cts.len(),
{
    let n = cts.len() as int;
    let rest = cts.remove(p);
    if p == n - 1 {
        lemma_sums_of_equal_prefixes(cts, rest, n - 1);
        assert forall|k: int|
            #[trigger] sum_u(cts, n, k) == sum_u(rest, n - 1, k) + cts[p].u@[k] by {
            assert(sum_u(cts, n - 1, k) == sum_u(rest, n - 1, k));
        }
    } else {
        let front = cts.drop_last();
        lemma_sums_remove(front, p);
        assert forall|i: int| 0 <= i < n - 2 implies front.remove(p)[i] == rest[i] by {}
        lemma_sums_of_equal_prefixes(front.remove(p), rest, n - 2);
        lemma_sums_of_equal_prefixes(front, cts, n - 1);
        assert(rest[n - 2] == cts[n - 1]);
        assert(front[p] == cts[p]);
        assert forall|k: int|
            #[trigger] sum_u(cts, n, k) == sum_u(rest, n - 1, k) + cts[p].u@[k] by {
            assert(sum_u(front, n - 1, k) == sum_u(front.remove(p), n - 2, k) + front[p].u@[k]);
            assert(sum_u(front.remove(p), n - 2, k) == sum_u(rest, n - 2, k));
            assert(sum_u(front, n - 1, k) == sum_u(cts, n - 1, k));
        }
    }
}

/// Sums over two orderings of the same items agree.
proof fn lemma_sums_permutation(a: Seq<ToyCiphertext>, b: Seq<ToyCiphertext>)
    requires
        a.to_multiset() == b.to_multiset(),
    ensures
        a.len() == b.len(),
        sum_v(a, a.len() as int) == sum_v(b, b.len() as int),
        forall|k: int| #[trigger] sum_u(a, a.len() as int, k) == sum_u(b, b.len() as int, k),
    decreases a.len(),
{
    broadcast use vstd::seq_lib::to_multiset_len, vstd::seq_lib::to_multiset_contains, vstd::seq_lib::to_multiset_remove;

    assert(a.to_multiset().len() == a.len());
    assert(b.to_multiset().len() == b.len());
    if a.len() > 0 {
        let n = a.len() as int;
        let x = a[n - 1];
        assert(a.contains(x));
        assert(a.to_multiset().count(x) > 0);
        assert(b.contains(x));
        let p = choose|p: int| 0 <= p < b.len() && b[p] == x;
        assert(a.remove(n - 1) == a.drop_last());
        assert(a.remove(n - 1).to_multiset() == a.to_multiset().remove(a[n - 1]));
        assert(b.remove(p).to_multiset() == b.to_multiset().remove(b[p]));
        lemma_sums_permutation(a.drop_last(), b.remove(p));
        lemma_sums_remove(a, n - 1);
        lemma_sums_remove(b, p);
        assert forall|k: int|
            #[trigger] sum_u(a, a.len() as int, k) == sum_u(b, b.len() as int, k) by {
            assert(sum_u(a.drop_last(), n - 1, k) == sum_u(b.remove(p), n - 1, k));
        }
    }
}

/// Aggregation does not depend on the order of the items: any reordering of
/// items that all carry the first one's tag and the expected dimension
/// aggregates, like them, without error to the same `u` and `v`.
pub proof fn lemma_aggregate_permutation(cts: Seq<ToyCiphertext>, other: Seq<ToyCiphertext>)
    requires
        cts.len() >= 1,
        prefix_matches(cts, cts.len() as int),
        other.to_multiset() == cts.to_multiset(),
    ensures
        other.len() == cts.len(),
        aggregate_failure(cts) is None,
        aggregate_failure(other) is None,
        other[0].tag_id == cts[0].tag_id,
        aggregate_u(other) == aggregate_u(cts),
        aggregate_v(other) == aggregate_v(cts),
{
    broadcast use vstd::seq_lib::to_multiset_len, vstd::seq_lib::to_multiset_contains;

    lemma_sums_permutation(cts, other);
    let n = cts.len() as int;
    assert(other.contains(other[0]));
    assert(other.to_multiset().count(other[0]) > 0);
    assert(cts.contains(other[0]));
    let j0 = choose|j: int| 0 <= j < n && cts[j] == other[0];
    assert(item_matches(cts, j0));
    assert forall|i: int| 0 <= i < n implies #[trigger] item_matches(other, i) by {
        assert(other.contains(other[i]));
        assert(other.to_multiset().count(other[i]) > 0);
        assert(cts.contains(other[i]));
        let j = choose|j: int| 0 <= j < n && cts[j] == other[i];
        assert(item_matches(cts, j));
    }
    assert(item_matches(other, 0));
    assert(item_matches(cts, 0));
    lemma_scan_skips_matching_prefix(cts, n);
    lemma_scan_skips_matching_prefix(other, n);
    assert(aggregate_u(other) =~= aggregate_u(cts));
}

/// Decrypting the aggregate of at most 175 honest same-tag encryptions with
/// the tag's witness yields the XOR of the encrypted bits; aggregation of such
/// ciphertexts succeeds and never overflows.
pub proof fn lemma_aggregate_decrypts_to_parity(
    tag: Seq<u8>,
    bits: Seq<bool>,
    nonces: Seq<u64>,
    cts: Seq<ToyCiphertext>,
)
    requires
        1 <= cts.len() <= 175,
        honest_encryptions(tag, bits, nonces, cts),
    ensures
        aggregate_fits(cts),
        aggregate_failure(cts) is None,
        phase_fits(aggregate_u(cts), aggregate_v(cts), spec_target(tag)),
        spec_decode(spec_phase(aggregate_u(cts), aggregate_v(cts), spec_target(tag))) == parity(
            bits,
        ),
{
    let n = cts.len() as int;
    let y = spec_target(tag);
    lemma_target_ternary(tag);
    assert forall|j: int| 0 <= j < n implies #[trigger] item_matches(cts, j) by {
        assert(cts[j].tag_id == spec_tag_id(tag));
        assert(cts[0].tag_id == spec_tag_id(tag));
        lemma_encryption_residue(bits[j], tag, nonces[j]);
    }
    assert forall|i: int| 0 <= i < n && prefix_matches(cts, i + 1) implies #[trigger] item_fits(
        cts,
        i,
    ) by {
        assert(cts[i].tag_id == spec_tag_id(tag));
        lemma_encryption_residue(bits[i], tag, nonces[i]);
    }
    lemma_scan_skips_matching_prefix(cts, n);
    assert(cts[0].tag_id == spec_tag_id(tag));
    lemma_encryption_residue(bits[0], tag, nonces[0]);

    let u = aggregate_u(cts);
    let v = aggregate_v(cts);
    assert(u == partial_u(cts, n));
    lemma_aggregate_residue(tag, bits, nonces, cts, n);
    lemma_counts(tag, bits, nonces, n);
    lemma_dot_fits(u, y, Q as int);
    vstd::arithmetic::div_mod::lemma_sub_mod_noop_right(v as int, dot(u, y), Q as int);
    vstd::arithmetic::div_mod::lemma_add_mod_noop(sum_v(cts, n), 0, Q as int);
    lemma_mod_add_left(sum_v(cts, n), -dot(u, y), Q as int);
    let noise = noise_sum(tag, nonces, n);
    let count = count_ones(bits, n);
    lemma_decode_residue(noise, count, n);
    vstd::arithmetic::div_mod::lemma_mod_twice(noise + MESSAGE_OFFSET * count, Q as int);
    assert(bits.take(n) =~= bits);
}

} // verus!
