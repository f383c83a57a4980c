//! Correctness of the pairing-based scheme, under the group laws of
//! BLS12-381.
//!
//! The operations of `group.rs` are named, not defined, so their algebra is
//! stated here as a hypothesis, `group_model`: there is a map `gt_elem` from
//! exponents to target-group elements (`gt_elem(a)` is `gT^a` for
//! `gT = e(g1, g2)`) and a discrete logarithm `g1_log` on G1 (base `g1`),
//! through which products, powers, inverses, scalar multiples, sums and the
//! pairing act on exponents modulo the prime group order `r`. This is what
//! bilinearity and non-degeneracy of the pairing, and the cyclic groups of
//! order `r`, amount to. Under it, decryption undoes encryption, aggregates
//! decrypt to the sum of their messages, a key's own signature verifies, and
//! removing the summed blind undoes the blinding.

use vstd::arithmetic::div_mod::{
    lemma_add_mod_noop, lemma_fundamental_div_mod, lemma_mod_multiples_vanish, lemma_mod_twice,
    lemma_mul_mod_noop_general, lemma_small_mod,
};
use vstd::prelude::*;
use vstd::utf8::encode_utf8;

use crate::ciphertext::{Ciphertext, CrossTagAggregate, SameTagAggregate, TagSignature, TaggedU};
use crate::aggregation::{u_total, v_total};
use crate::decryption::{
    cross_decrypt_outcome, cross_scan_failure, decrypt_failure, decrypt_outcome, mask_product, unmask,
};
use crate::encryption::is_encryption;
use crate::error::HsweError;
use crate::group::{
    g1_generator_bytes, g1_is_zero, g1_scale, g1_valid, g2_generator_bytes,
    g2_generator_scale, g2_identity_bytes, g2_is_zero, g2_sum, group_order, gt_inverse,
    gt_one_bytes, gt_power, gt_product, hash_to_g1, pairing,
};
use crate::keys::{signature_verifies, tag_hash, HswePublicKey, HsweSecretKey};
use crate::lookup::{gt_generator, gt_generator_power, lookup_outcome, TargetLookupTable};
use crate::params::HsweParameters;
use crate::privacy::{privacy_generator_value, PRIVACY_GENERATOR_DST, PRIVACY_GENERATOR_MESSAGE};
use crate::tag::Tag;

verus! {

/// The exponent `-a` modulo `r`.
pub open spec fn neg_exponent(a: nat) -> nat {
    ((group_order() as int - (a % group_order()) as int) % (group_order() as int)) as nat
}

/// The group laws of BLS12-381, over the names of `group.rs`: `gt_elem(a)`
/// is `gT^a` and `g1_log(p)` the logarithm of a G1 point to base `g1`, and
/// every operation acts on exponents modulo the prime `r`.
pub open spec fn group_model(gt_elem: spec_fn(nat) -> Seq<u8>, g1_log: spec_fn(Seq<u8>) -> nat) -> bool {
    let r = group_order();
    // `r` is prime: a product of two non-zero residues is non-zero.
    &&& forall|a: nat, b: nat| 0 < a < r && 0 < b < r ==> #[trigger] ((a * b) % r) != 0
    // The target group is cyclic of order `r`, generated by `gT`.
    &&& gt_one_bytes() == gt_elem(0)
    &&& forall|a: nat, b: nat| #[trigger] gt_product(gt_elem(a), gt_elem(b)) == gt_elem((a + b) % r)
    &&& forall|a: nat, k: nat| #[trigger] gt_power(gt_elem(a), k) == gt_elem((a * k) % r)
    &&& forall|a: nat| #[trigger] gt_inverse(gt_elem(a)) == Some(gt_elem(neg_exponent(a)))
    &&& forall|a: nat, b: nat|
        a < r && b < r && #[trigger] gt_elem(a) == #[trigger] gt_elem(b) ==> a == b
    // G1 is cyclic of order `r`, generated by `g1`; hashing lands in it.
    &&& g1_valid(g1_generator_bytes()) && g1_log(g1_generator_bytes()) == 1
    &&& forall|dst: Seq<u8>, msg: Seq<u8>| #[trigger] g1_valid(hash_to_g1(dst, msg))
    &&& forall|p: Seq<u8>| g1_valid(p) ==> #[trigger] g1_log(p) < r
    &&& forall|p: Seq<u8>, k: nat|
        g1_valid(p) ==> g1_valid(#[trigger] g1_scale(p, k)) && g1_log(g1_scale(p, k)) == (g1_log(p)
            * k) % r
    &&& forall|p: Seq<u8>| g1_valid(p) ==> (#[trigger] g1_is_zero(p) <==> g1_log(p) == 0)
    // G2 is cyclic of order `r`, generated by `g2`.
    &&& g2_identity_bytes() == g2_generator_scale(0)
    &&& g2_generator_bytes() == g2_generator_scale(1)
    &&& forall|a: nat, b: nat|
        #[trigger] g2_sum(g2_generator_scale(a), g2_generator_scale(b)) == g2_generator_scale(
            (a + b) % r,
        )
    &&& forall|k: nat| #[trigger] g2_is_zero(g2_generator_scale(k)) <==> k % r == 0
    // The pairing is bilinear with `e(g1, g2) = gT`.
    &&& forall|p: Seq<u8>, k: nat|
        g1_valid(p) ==> #[trigger] pairing(p, g2_generator_scale(k)) == gt_elem((g1_log(p) * k) % r)
}

/// `x` below `r`, then `(x + e) - e` is `x` modulo `r`.
proof fn lemma_cancel_exponent(x: nat, e: nat)
    requires
        x < group_order(),
    ensures
        (((x + e) % group_order()) + neg_exponent(e)) % group_order() == x,
{
    let r = group_order() as int;
    let em = e as int % r;
    lemma_add_mod_noop((x + e) as int, r - em, r);
    lemma_fundamental_div_mod(e as int, r);
    assert((x + e) + (r - em) == r * (e as int / r + 1) + x) by (nonlinear_arith)
        requires
            e as int == r * (e as int / r) + em,
    ;
    lemma_mod_multiples_vanish(e as int / r + 1, x as int, r);
    lemma_small_mod(x, r as nat);
}

/// Under the group laws, `gT = gt_elem(1)` and `gT^m = gt_elem(m mod r)`.
pub proof fn lemma_generator_powers(
    gt_elem: spec_fn(nat) -> Seq<u8>,
    g1_log: spec_fn(Seq<u8>) -> nat,
    m: nat,
)
    requires
        group_model(gt_elem, g1_log),
    ensures
        gt_generator() == gt_elem(1),
        gt_generator_power(m) == gt_elem(m % group_order()),
    decreases m,
{
    let r = group_order();
    assert(pairing(g1_generator_bytes(), g2_generator_scale(1)) == gt_elem((1 * 1) % r));
    assert((1nat * 1nat) % r == 1) by {
        lemma_small_mod(1, r);
    }
    if m == 0 {
        lemma_small_mod(0, r);
    } else {
        lemma_generator_powers(gt_elem, g1_log, (m - 1) as nat);
        let p = ((m - 1) as nat) % r;
        assert(gt_product(gt_elem(p), gt_elem(1)) == gt_elem((p + 1) % r));
        lemma_add_mod_noop((m - 1) as int, 1, r as int);
        lemma_small_mod(1, r);
    }
}

/// Under the group laws, looking up `gT^m` with `m` at most the table's
/// bound gives exactly `m`: the powers up to the bound are distinct.
pub proof fn lemma_lookup_is_exact(
    gt_elem: spec_fn(nat) -> Seq<u8>,
    g1_log: spec_fn(Seq<u8>) -> nat,
    max: u64,
    m: nat,
    r: Result<u64, HsweError>,
)
    requires
        group_model(gt_elem, g1_log),
        m <= max,
        lookup_outcome(max, gt_generator_power(m), r),
    ensures
        r == Ok::<u64, HsweError>(m as u64),
{
    let q = group_order();
    lemma_generator_powers(gt_elem, g1_log, m);
    lemma_small_mod(m, q);
    match r {
        Ok(j) => {
            lemma_generator_powers(gt_elem, g1_log, j as nat);
            lemma_small_mod(j as nat, q);
            assert(gt_elem(j as nat) == gt_elem(m));
        },
        Err(_) => {
            assert(gt_generator_power(m) != gt_generator_power(m));
        },
    }
}

/// Under the group laws, a key's own signature on a tag verifies under its
/// public key, unless the tag hashes to the identity of G1.
pub proof fn lemma_own_signature_verifies(
    gt_elem: spec_fn(nat) -> Seq<u8>,
    g1_log: spec_fn(Seq<u8>) -> nat,
    secret_key: HsweSecretKey,
    public_key: HswePublicKey,
    signature: TagSignature,
    tag: (Seq<char>, u64),
)
    requires
        group_model(gt_elem, g1_log),
        0 < secret_key.spec_scalar()@ < group_order(),
        public_key.spec_parameter_id() == secret_key.spec_parameter_id(),
        public_key.spec_point()@ == g2_generator_scale(secret_key.spec_scalar()@),
        signature.spec_parameter_id() == secret_key.spec_parameter_id(),
        signature.spec_point()@ == g1_scale(tag_hash(tag), secret_key.spec_scalar()@),
        g1_log(tag_hash(tag)) != 0,
    ensures
        signature_verifies(public_key, tag, signature),
{
    let r = group_order();
    let s = secret_key.spec_scalar()@;
    let h = tag_hash(tag);
    let lh = g1_log(h);
    assert(g1_valid(h));
    assert(lh < r);
    let sig = g1_scale(h, s);
    assert(g1_log(sig) == (lh * s) % r);
    assert((lh * s) % r != 0);
    assert(!g1_is_zero(sig));
    lemma_small_mod(s, r);
    assert(!g2_is_zero(g2_generator_scale(s)));
    assert(pairing(sig, g2_generator_scale(1)) == gt_elem((g1_log(sig) * 1) % r));
    lemma_mod_twice((lh * s) as int, r as int);
    assert(pairing(h, g2_generator_scale(s)) == gt_elem((lh * s) % r));
}

/// Under the group laws, decrypting a ciphertext of `message` with the key's
/// own signature on its tag gives back `message`, when the lookup table
/// reaches `message` and the tag does not hash to the identity.
pub proof fn lemma_decrypt_recovers_message(
    gt_elem: spec_fn(nat) -> Seq<u8>,
    g1_log: spec_fn(Seq<u8>) -> nat,
    parameters: HsweParameters,
    secret_key: HsweSecretKey,
    public_key: HswePublicKey,
    signature: TagSignature,
    lookup_table: TargetLookupTable,
    ciphertext: Ciphertext,
    tag: Tag,
    message: u64,
    randomness: nat,
    r: Result<u64, HsweError>,
)
    requires
        group_model(gt_elem, g1_log),
        secret_key.spec_parameter_id() == parameters.spec_parameter_id(),
        0 < secret_key.spec_scalar()@ < group_order(),
        public_key.spec_parameter_id() == secret_key.spec_parameter_id(),
        public_key.spec_point()@ == g2_generator_scale(secret_key.spec_scalar()@),
        signature.spec_parameter_id() == secret_key.spec_parameter_id(),
        signature.spec_point()@ == g1_scale(tag_hash(tag@), secret_key.spec_scalar()@),
        g1_log(tag_hash(tag@)) != 0,
        is_encryption(
            ciphertext,
            parameters,
            public_key,
            tag,
            message,
            randomness,
        ),
        lookup_table.spec_parameter_id() == parameters.spec_parameter_id(),
        message <= lookup_table.spec_maximum_message(),
        decrypt_outcome(
            parameters,
            public_key,
            ciphertext.spec_parameter_id()@,
            ciphertext.spec_tag()@,
            ciphertext.spec_u()@,
            ciphertext.spec_v()@,
            signature,
            lookup_table,
            HsweError::InvalidCiphertext,
            r,
        ),
    ensures
        r == Ok::<u64, HsweError>(message),
{
    let q = group_order();
    let s = secret_key.spec_scalar()@;
    let h = tag_hash(tag@);
    let lh = g1_log(h);
    let m = message as nat;
    lemma_own_signature_verifies(gt_elem, g1_log, secret_key, public_key, signature, tag@);
    assert(decrypt_failure(
        parameters,
        public_key,
        ciphertext.spec_parameter_id()@,
        ciphertext.spec_tag()@,
        signature,
        lookup_table,
    ) is None);
    // The mask `e(σ, U)` and the factor `e(H(tag), pk)^k` of `V` agree.
    let ls = (lh * s) % q;
    let e = (ls * randomness) % q;
    assert(g1_valid(h));
    assert(g1_log(g1_scale(h, s)) == ls);
    assert(pairing(signature.spec_point()@, ciphertext.spec_u()@) == gt_elem(e));
    assert(pairing(h, g2_generator_scale(s)) == gt_elem(ls));
    assert(gt_power(gt_elem(ls), randomness) == gt_elem(e));
    lemma_generator_powers(gt_elem, g1_log, 0);
    assert(gt_power(gt_elem(1), m) == gt_elem((1 * m) % q));
    lemma_small_mod(m, q);
    assert(ciphertext.spec_v()@ == gt_elem((m + e) % q));
    assert(gt_inverse(gt_elem(e)) == Some(gt_elem(neg_exponent(e))));
    lemma_cancel_exponent(m, e);
    assert(unmask(ciphertext.spec_v()@, gt_elem(e)) == Some(gt_elem(m)));
    lemma_generator_powers(gt_elem, g1_log, m);
    lemma_lookup_is_exact(gt_elem, g1_log, lookup_table.spec_maximum_message(), m, r);
}

/// `f(0) + ... + f(n - 1)`.
pub open spec fn exponent_sum(f: spec_fn(int) -> nat, n: int) -> nat
    decreases n,
{
    if n <= 0 {
        0
    } else {
        exponent_sum(f, n - 1) + f(n - 1)
    }
}

/// The sum of the messages.
pub open spec fn message_total(messages: Seq<u64>) -> nat {
    exponent_sum(|i: int| messages[i] as nat, messages.len() as int)
}

/// The exponent of the mask of an encryption under the key `s`, for a tag
/// with hash `h` and randomness `k`: `(log(h) · s) · k` modulo `r`.
pub open spec fn mask_exponent(g1_log: spec_fn(Seq<u8>) -> nat, h: Seq<u8>, s: nat, k: nat) -> nat {
    (((g1_log(h) * s) % group_order()) * k) % group_order()
}

proof fn lemma_sum_of_sums(f: spec_fn(int) -> nat, g: spec_fn(int) -> nat, n: int)
    ensures
        exponent_sum(|i: int| (f(i) + g(i)) % group_order(), n) % group_order() == (exponent_sum(
            f,
            n,
        ) + exponent_sum(g, n)) % group_order(),
    decreases n,
{
    let q = group_order() as int;
    let h = |i: int| (f(i) + g(i)) % group_order();
    if n <= 0 {
    } else {
        lemma_sum_of_sums(f, g, n - 1);
        let a = exponent_sum(h, n - 1) as int;
        let b = (exponent_sum(f, n - 1) + exponent_sum(g, n - 1)) as int;
        let t = (f(n - 1) + g(n - 1)) as int;
        assert(h(n - 1) == t % q);
        lemma_add_mod_noop(a, t % q, q);
        lemma_mod_twice(t, q);
        lemma_add_mod_noop(b, t, q);
        lemma_add_mod_noop(a, t, q);
        assert(exponent_sum(f, n) + exponent_sum(g, n) == b + t);
    }
}

proof fn lemma_scaled_sum(c: nat, f: spec_fn(int) -> nat, n: int)
    ensures
        exponent_sum(|i: int| (c * f(i)) % group_order(), n) % group_order() == (c * exponent_sum(
            f,
            n,
        )) % group_order(),
    decreases n,
{
    let q = group_order() as int;
    let h = |i: int| (c * f(i)) % group_order();
    if n <= 0 {
        assert(c * 0 == 0);
    } else {
        lemma_scaled_sum(c, f, n - 1);
        let a = exponent_sum(h, n - 1) as int;
        let t = (c * f(n - 1)) as int;
        let b = (c * exponent_sum(f, n - 1)) as int;
        assert(h(n - 1) == t % q);
        lemma_add_mod_noop(a, t % q, q);
        lemma_mod_twice(t, q);
        lemma_add_mod_noop(a, t, q);
        lemma_add_mod_noop(b, t, q);
        assert(c * exponent_sum(f, n) == b + t) by (nonlinear_arith)
            requires
                exponent_sum(f, n) == exponent_sum(f, n - 1) + f(n - 1),
                b == c * exponent_sum(f, n - 1),
                t == c * f(n - 1),
        ;
    }
}

/// The `V` of the first `n` ciphertexts multiply to `gT` raised to the sum of
/// their exponents.
proof fn lemma_v_total(
    gt_elem: spec_fn(nat) -> Seq<u8>,
    g1_log: spec_fn(Seq<u8>) -> nat,
    ciphertexts: Seq<Ciphertext>,
    y: spec_fn(int) -> nat,
    n: int,
)
    requires
        group_model(gt_elem, g1_log),
        0 <= n <= ciphertexts.len(),
        forall|i: int| 0 <= i < n ==> (#[trigger] ciphertexts[i]).spec_v()@ == gt_elem(y(i)),
    ensures
        v_total(ciphertexts, n) == gt_elem(exponent_sum(y, n) % group_order()),
    decreases n,
{
    let q = group_order();
    if n == 0 {
        lemma_small_mod(0, q);
    } else {
        lemma_v_total(gt_elem, g1_log, ciphertexts, y, n - 1);
        let p = exponent_sum(y, n - 1);
        assert(ciphertexts[n - 1].spec_v()@ == gt_elem(y(n - 1)));
        lemma_add_mod_noop(p as int, y(n - 1) as int, q as int);
        lemma_mod_twice(y(n - 1) as int, q as int);
        lemma_add_mod_noop((p % q) as int, y(n - 1) as int, q as int);
        lemma_mod_twice(p as int, q as int);
    }
}

/// The `U` of the first `n` ciphertexts, with `U_i = k_i · g2`, add up to
/// `(k_0 + ... + k_{n-1}) · g2`.
proof fn lemma_u_total(
    gt_elem: spec_fn(nat) -> Seq<u8>,
    g1_log: spec_fn(Seq<u8>) -> nat,
    ciphertexts: Seq<Ciphertext>,
    k: spec_fn(int) -> nat,
    n: int,
)
    requires
        group_model(gt_elem, g1_log),
        0 <= n <= ciphertexts.len(),
        forall|i: int| 0 <= i < n ==> (#[trigger] ciphertexts[i]).spec_u()@ == g2_generator_scale(k(i)),
    ensures
        u_total(ciphertexts, n) == g2_generator_scale(exponent_sum(k, n) % group_order()),
    decreases n,
{
    let q = group_order();
    if n == 0 {
        lemma_small_mod(0, q);
    } else {
        lemma_u_total(gt_elem, g1_log, ciphertexts, k, n - 1);
        let p = exponent_sum(k, n - 1);
        assert(ciphertexts[n - 1].spec_u()@ == g2_generator_scale(k(n - 1)));
        lemma_add_mod_noop(p as int, k(n - 1) as int, q as int);
        lemma_mod_twice(k(n - 1) as int, q as int);
        lemma_add_mod_noop((p % q) as int, k(n - 1) as int, q as int);
        lemma_mod_twice(p as int, q as int);
    }
}

/// An honest encryption of `m` under the key `s` with randomness `k` has
/// `U = k · g2` and `V = gT^(m + mask exponent)`.
proof fn lemma_encryption_parts(
    gt_elem: spec_fn(nat) -> Seq<u8>,
    g1_log: spec_fn(Seq<u8>) -> nat,
    parameters: HsweParameters,
    public_key: HswePublicKey,
    s: nat,
    ciphertext: Ciphertext,
    tag: Tag,
    message: u64,
    k: nat,
)
    requires
        group_model(gt_elem, g1_log),
        public_key.spec_point()@ == g2_generator_scale(s),
        is_encryption(ciphertext, parameters, public_key, tag, message, k),
    ensures
        ciphertext.spec_u()@ == g2_generator_scale(k),
        ciphertext.spec_v()@ == gt_elem(
            ((message as nat) + mask_exponent(g1_log, tag_hash(tag@), s, k)) % group_order(),
        ),
{
    let q = group_order();
    let h = tag_hash(tag@);
    let ls = (g1_log(h) * s) % q;
    let e = mask_exponent(g1_log, h, s, k);
    let m = message as nat;
    assert(g1_valid(h));
    assert(pairing(h, g2_generator_scale(s)) == gt_elem(ls));
    assert(gt_power(gt_elem(ls), k) == gt_elem(e));
    lemma_generator_powers(gt_elem, g1_log, 0);
    assert(gt_power(gt_elem(1), m) == gt_elem((1 * m) % q));
    assert(gt_product(gt_elem(m % q), gt_elem(e)) == gt_elem((m % q + e) % q));
    lemma_add_mod_noop(m as int, e as int, q as int);
    lemma_mod_twice((ls * k) as int, q as int);
}

/// The mask of a valid signature `s · H(tag)` on `U = k · g2` is `gT` to the
/// mask exponent.
proof fn lemma_mask(
    gt_elem: spec_fn(nat) -> Seq<u8>,
    g1_log: spec_fn(Seq<u8>) -> nat,
    h: Seq<u8>,
    s: nat,
    k: nat,
)
    requires
        group_model(gt_elem, g1_log),
        g1_valid(h),
    ensures
        pairing(g1_scale(h, s), g2_generator_scale(k)) == gt_elem(mask_exponent(g1_log, h, s, k)),
{
}

/// Unmasking `gT^(m + e)` by `gT^e'` with `e' = e` modulo `r` leaves `gT^m`,
/// for `m` below `r`.
proof fn lemma_unmask(
    gt_elem: spec_fn(nat) -> Seq<u8>,
    g1_log: spec_fn(Seq<u8>) -> nat,
    m: nat,
    e: nat,
    e2: nat,
)
    requires
        group_model(gt_elem, g1_log),
        m < group_order(),
        e2 == e % group_order(),
    ensures
        unmask(gt_elem((m + e) % group_order()), gt_elem(e2)) == Some(gt_elem(m)),
{
    let q = group_order();
    lemma_mod_twice(e as int, q as int);
    assert(neg_exponent(e2) == neg_exponent(e));
    lemma_cancel_exponent(m, e);
}

/// The masks of the first `n` signatures on their entries multiply to `gT`
/// raised to the sum of their exponents.
proof fn lemma_mask_product(
    gt_elem: spec_fn(nat) -> Seq<u8>,
    g1_log: spec_fn(Seq<u8>) -> nat,
    tagged_u: Seq<TaggedU>,
    signatures: Seq<TagSignature>,
    y: spec_fn(int) -> nat,
    n: int,
)
    requires
        group_model(gt_elem, g1_log),
        0 <= n <= tagged_u.len(),
        n <= signatures.len(),
        forall|i: int|
            0 <= i < n ==> #[trigger] pairing(signatures[i].spec_point()@, tagged_u[i].spec_u()@)
                == gt_elem(y(i)),
    ensures
        mask_product(tagged_u, signatures, n) == gt_elem(exponent_sum(y, n) % group_order()),
    decreases n,
{
    let q = group_order();
    if n == 0 {
        lemma_small_mod(0, q);
    } else {
        lemma_mask_product(gt_elem, g1_log, tagged_u, signatures, y, n - 1);
        let p = exponent_sum(y, n - 1);
        assert(pairing(signatures[n - 1].spec_point()@, tagged_u[n - 1].spec_u()@) == gt_elem(
            y(n - 1),
        ));
        lemma_add_mod_noop(p as int, y(n - 1) as int, q as int);
        lemma_mod_twice(y(n - 1) as int, q as int);
        lemma_add_mod_noop((p % q) as int, y(n - 1) as int, q as int);
        lemma_mod_twice(p as int, q as int);
    }
}

proof fn lemma_cross_scan_passes(
    parameters: HsweParameters,
    public_key: HswePublicKey,
    tagged_u: Seq<TaggedU>,
    signatures: Seq<TagSignature>,
    i: int,
)
    requires
        0 <= i,
        forall|j: int|
            i <= j < signatures.len() ==> (#[trigger] signatures[j]).spec_parameter_id()@
                == parameters.spec_parameter_id()@ && signature_verifies(
                public_key,
                tagged_u[j].spec_tag()@,
                signatures[j],
            ),
    ensures
        cross_scan_failure(parameters, public_key, tagged_u, signatures, i) is None,
    decreases signatures.len() - i,
{
    if i < signatures.len() {
        assert(signatures[i].spec_parameter_id()@ == parameters.spec_parameter_id()@);
        lemma_cross_scan_passes(parameters, public_key, tagged_u, signatures, i + 1);
    }
}

/// Under the group laws, a same-tag aggregate of encryptions of `messages`
/// under one key's public key decrypts, with that key's signature on the
/// tag, to the sum of the messages, when the lookup table reaches the sum
/// and the tag does not hash to the identity.
pub proof fn lemma_same_tag_aggregate_decrypts_to_sum(
    gt_elem: spec_fn(nat) -> Seq<u8>,
    g1_log: spec_fn(Seq<u8>) -> nat,
    parameters: HsweParameters,
    secret_key: HsweSecretKey,
    public_key: HswePublicKey,
    signature: TagSignature,
    lookup_table: TargetLookupTable,
    tag: Tag,
    ciphertexts: Seq<Ciphertext>,
    messages: Seq<u64>,
    randomness: Seq<nat>,
    aggregate: SameTagAggregate,
    r: Result<u64, HsweError>,
)
    requires
        group_model(gt_elem, g1_log),
        secret_key.spec_parameter_id() == parameters.spec_parameter_id(),
        0 < secret_key.spec_scalar()@ < group_order(),
        public_key.spec_parameter_id() == secret_key.spec_parameter_id(),
        public_key.spec_point()@ == g2_generator_scale(secret_key.spec_scalar()@),
        signature.spec_parameter_id() == secret_key.spec_parameter_id(),
        signature.spec_point()@ == g1_scale(tag_hash(tag@), secret_key.spec_scalar()@),
        g1_log(tag_hash(tag@)) != 0,
        messages.len() == ciphertexts.len(),
        randomness.len() == ciphertexts.len(),
        forall|i: int|
            0 <= i < ciphertexts.len() ==> #[trigger] is_encryption(
                ciphertexts[i],
                parameters,
                public_key,
                tag,
                messages[i],
                randomness[i],
            ),
        aggregate.spec_parameter_id() == parameters.spec_parameter_id(),
        aggregate.spec_tag() == tag,
        aggregate.spec_u()@ == u_total(ciphertexts, ciphertexts.len() as int),
        aggregate.spec_v()@ == v_total(ciphertexts, ciphertexts.len() as int),
        lookup_table.spec_parameter_id() == parameters.spec_parameter_id(),
        message_total(messages) <= lookup_table.spec_maximum_message(),
        decrypt_outcome(
            parameters,
            public_key,
            aggregate.spec_parameter_id()@,
            aggregate.spec_tag()@,
            aggregate.spec_u()@,
            aggregate.spec_v()@,
            signature,
            lookup_table,
            HsweError::InvalidAggregate,
            r,
        ),
    ensures
        r == Ok::<u64, HsweError>(message_total(messages) as u64),
{
    let q = group_order();
    let n = ciphertexts.len() as int;
    let s = secret_key.spec_scalar()@;
    let h = tag_hash(tag@);
    let ls = (g1_log(h) * s) % q;
    lemma_own_signature_verifies(gt_elem, g1_log, secret_key, public_key, signature, tag@);
    let f = |i: int| messages[i] as nat;
    let k = |i: int| randomness[i];
    let g = |i: int| mask_exponent(g1_log, h, s, randomness[i]);
    let y = |i: int| (f(i) + g(i)) % group_order();
    assert forall|i: int| 0 <= i < n implies (#[trigger] ciphertexts[i]).spec_u()@
        == g2_generator_scale(k(i)) && ciphertexts[i].spec_v()@ == gt_elem(y(i)) by {
        assert(is_encryption(ciphertexts[i], parameters, public_key, tag, messages[i], randomness[i]));
        lemma_encryption_parts(gt_elem, g1_log, parameters, public_key, s, ciphertexts[i], tag, messages[i], randomness[i]);
    }
    lemma_u_total(gt_elem, g1_log, ciphertexts, k, n);
    lemma_v_total(gt_elem, g1_log, ciphertexts, y, n);
    lemma_sum_of_sums(f, g, n);
    assert(g =~= (|i: int| (ls * k(i)) % group_order()));
    lemma_scaled_sum(ls, k, n);
    let big_k = exponent_sum(k, n);
    let big_g = exponent_sum(g, n);
    let big_m = exponent_sum(f, n);
    assert(big_m == message_total(messages));
    // The mask `e(σ, ΣU)`.
    assert(g1_valid(h));
    lemma_mask(gt_elem, g1_log, h, s, big_k % q);
    lemma_mul_mod_noop_general(ls as int, big_k as int, q as int);
    assert(pairing(signature.spec_point()@, aggregate.spec_u()@) == gt_elem(big_g % q));
    lemma_unmask(gt_elem, g1_log, big_m, big_g, big_g % q);
    assert(unmask(aggregate.spec_v()@, gt_elem(big_g % q)) == Some(gt_elem(big_m)));
    lemma_generator_powers(gt_elem, g1_log, big_m);
    lemma_small_mod(big_m, q);
    lemma_lookup_is_exact(gt_elem, g1_log, lookup_table.spec_maximum_message(), big_m, r);
}

/// Under the group laws, a cross-tag aggregate of encryptions of `messages`
/// under one key's public key, with tags `tags`, decrypts with that key's
/// signatures on those tags, in order, to the sum of the messages, when the
/// lookup table reaches the sum and no tag hashes to the identity.
pub proof fn lemma_cross_tag_aggregate_decrypts_to_sum(
    gt_elem: spec_fn(nat) -> Seq<u8>,
    g1_log: spec_fn(Seq<u8>) -> nat,
    parameters: HsweParameters,
    secret_key: HsweSecretKey,
    public_key: HswePublicKey,
    signatures: Seq<TagSignature>,
    lookup_table: TargetLookupTable,
    tags: Seq<Tag>,
    ciphertexts: Seq<Ciphertext>,
    messages: Seq<u64>,
    randomness: Seq<nat>,
    aggregate: CrossTagAggregate,
    r: Result<u64, HsweError>,
)
    requires
        group_model(gt_elem, g1_log),
        secret_key.spec_parameter_id() == parameters.spec_parameter_id(),
        0 < secret_key.spec_scalar()@ < group_order(),
        public_key.spec_parameter_id() == secret_key.spec_parameter_id(),
        public_key.spec_point()@ == g2_generator_scale(secret_key.spec_scalar()@),
        tags.len() == ciphertexts.len(),
        signatures.len() == ciphertexts.len(),
        messages.len() == ciphertexts.len(),
        randomness.len() == ciphertexts.len(),
        forall|i: int|
            0 <= i < ciphertexts.len() ==> (#[trigger] signatures[i]).spec_parameter_id()
                == secret_key.spec_parameter_id() && signatures[i].spec_point()@ == g1_scale(
                tag_hash(tags[i]@),
                secret_key.spec_scalar()@,
            ) && g1_log(tag_hash(tags[i]@)) != 0,
        forall|i: int|
            0 <= i < ciphertexts.len() ==> #[trigger] is_encryption(
                ciphertexts[i],
                parameters,
                public_key,
                tags[i],
                messages[i],
                randomness[i],
            ),
        aggregate.spec_parameter_id() == parameters.spec_parameter_id(),
        aggregate.spec_tagged_u().len() == ciphertexts.len(),
        forall|i: int|
            0 <= i < ciphertexts.len() ==> (#[trigger] aggregate.spec_tagged_u()[i]).spec_tag()
                == ciphertexts[i].spec_tag() && aggregate.spec_tagged_u()[i].spec_u()
                == ciphertexts[i].spec_u(),
        aggregate.spec_v()@ == v_total(ciphertexts, ciphertexts.len() as int),
        lookup_table.spec_parameter_id() == parameters.spec_parameter_id(),
        message_total(messages) <= lookup_table.spec_maximum_message(),
        cross_decrypt_outcome(parameters, public_key, aggregate, signatures, lookup_table, r),
    ensures
        r == Ok::<u64, HsweError>(message_total(messages) as u64),
{
    let q = group_order();
    let n = ciphertexts.len() as int;
    let s = secret_key.spec_scalar()@;
    let tu = aggregate.spec_tagged_u();
    let f = |i: int| messages[i] as nat;
    let g = |i: int| mask_exponent(g1_log, tag_hash(tags[i]@), s, randomness[i]);
    let y = |i: int| (f(i) + g(i)) % group_order();
    assert forall|i: int| 0 <= i < n implies (#[trigger] ciphertexts[i]).spec_v()@ == gt_elem(y(i))
        && pairing(signatures[i].spec_point()@, tu[i].spec_u()@) == gt_elem(g(i))
        && signatures[i].spec_parameter_id()@ == parameters.spec_parameter_id()@
        && signature_verifies(public_key, tu[i].spec_tag()@, signatures[i]) by {
        assert(is_encryption(ciphertexts[i], parameters, public_key, tags[i], messages[i], randomness[i]));
        assert(signatures[i].spec_parameter_id() == secret_key.spec_parameter_id());
        lemma_encryption_parts(gt_elem, g1_log, parameters, public_key, s, ciphertexts[i], tags[i], messages[i], randomness[i]);
        assert(tu[i].spec_tag() == tags[i]);
        lemma_own_signature_verifies(gt_elem, g1_log, secret_key, public_key, signatures[i], tags[i]@);
        assert(g1_valid(tag_hash(tags[i]@)));
        lemma_mask(gt_elem, g1_log, tag_hash(tags[i]@), s, randomness[i]);
    }
    assert forall|i: int| 0 <= i < n implies #[trigger] pairing(
        signatures[i].spec_point()@,
        tu[i].spec_u()@,
    ) == gt_elem(g(i)) by {
        assert(ciphertexts[i].spec_v()@ == gt_elem(y(i)));
    }
    lemma_cross_scan_passes(parameters, public_key, tu, signatures, 0);
    lemma_mask_product(gt_elem, g1_log, tu, signatures, g, n);
    lemma_v_total(gt_elem, g1_log, ciphertexts, y, n);
    lemma_sum_of_sums(f, g, n);
    let big_g = exponent_sum(g, n);
    let big_m = exponent_sum(f, n);
    assert(big_m == message_total(messages));
    lemma_unmask(gt_elem, g1_log, big_m, big_g, big_g % q);
    lemma_generator_powers(gt_elem, g1_log, big_m);
    lemma_small_mod(big_m, q);
    lemma_lookup_is_exact(gt_elem, g1_log, lookup_table.spec_maximum_message(), big_m, r);
}

/// Under the group laws, removing the sum of the blinds from the aggregate
/// of blinded ciphertexts leaves the aggregate of the unblinded ones: the
/// same `U`, and `V` with every `h^b_i` cancelled.
pub proof fn lemma_removing_summed_blind(
    gt_elem: spec_fn(nat) -> Seq<u8>,
    g1_log: spec_fn(Seq<u8>) -> nat,
    ciphertexts: Seq<Ciphertext>,
    exponents: Seq<nat>,
    blinds: Seq<nat>,
    blinded: Seq<Ciphertext>,
    total_blind: nat,
)
    requires
        group_model(gt_elem, g1_log),
        exponents.len() == ciphertexts.len(),
        blinds.len() == ciphertexts.len(),
        blinded.len() == ciphertexts.len(),
        forall|i: int| 0 <= i < ciphertexts.len() ==> (#[trigger] ciphertexts[i]).spec_v()@ == gt_elem(exponents[i]),
        forall|i: int|
            0 <= i < ciphertexts.len() ==> (#[trigger] blinded[i]).spec_u() == ciphertexts[i].spec_u()
                && blinded[i].spec_v()@ == gt_product(
                ciphertexts[i].spec_v()@,
                gt_power(privacy_generator_value(), blinds[i]),
            ),
        total_blind % group_order() == exponent_sum(|i: int| blinds[i], blinds.len() as int)
            % group_order(),
    ensures
        u_total(blinded, blinded.len() as int) == u_total(ciphertexts, ciphertexts.len() as int),
        gt_inverse(gt_power(privacy_generator_value(), total_blind)) matches Some(inverse)
            && gt_product(v_total(blinded, blinded.len() as int), inverse) == v_total(
            ciphertexts,
            ciphertexts.len() as int,
        ),
{
    let q = group_order();
    let n = ciphertexts.len() as int;
    let hp = hash_to_g1(encode_utf8(PRIVACY_GENERATOR_DST@), encode_utf8(PRIVACY_GENERATOR_MESSAGE@));
    let lp = g1_log(hp);
    assert(g1_valid(hp));
    assert(pairing(hp, g2_generator_scale(1)) == gt_elem((lp * 1) % q));
    lemma_small_mod(lp, q);
    assert(privacy_generator_value() == gt_elem(lp));
    let e = |i: int| exponents[i];
    let b = |i: int| blinds[i];
    let g = |i: int| (lp * b(i)) % group_order();
    let y = |i: int| (e(i) + g(i)) % group_order();
    assert forall|i: int| 0 <= i < n implies #[trigger] blinded[i].spec_v()@ == gt_elem(y(i)) by {
        assert(ciphertexts[i].spec_v()@ == gt_elem(exponents[i]));
        assert(gt_power(gt_elem(lp), blinds[i]) == gt_elem(g(i)));
        assert(gt_product(gt_elem(e(i)), gt_elem(g(i))) == gt_elem((e(i) + g(i)) % q));
    }
    lemma_same_u_total(blinded, ciphertexts, n);
    lemma_v_total(gt_elem, g1_log, blinded, y, n);
    lemma_v_total(gt_elem, g1_log, ciphertexts, e, n);
    lemma_sum_of_sums(e, g, n);
    lemma_scaled_sum(lp, b, n);
    let big_e = exponent_sum(e, n);
    let big_g = exponent_sum(g, n);
    let big_b = exponent_sum(b, n);
    assert(b =~= (|i: int| blinds[i]));
    // `h^total = gT^(lp · total)`, and `lp · total = Σ lp · b_i` modulo `r`.
    let t = (lp * total_blind) % q;
    assert(gt_power(gt_elem(lp), total_blind) == gt_elem(t));
    lemma_mul_mod_noop_general(lp as int, total_blind as int, q as int);
    lemma_mul_mod_noop_general(lp as int, big_b as int, q as int);
    assert(t == big_g % q);
    // Cancel.
    lemma_add_mod_noop(big_e as int, big_g as int, q as int);
    lemma_add_mod_noop((big_e % q) as int, big_g as int, q as int);
    lemma_mod_twice(big_e as int, q as int);
    lemma_unmask(gt_elem, g1_log, big_e % q, big_g, t);
}

proof fn lemma_same_u_total(a: Seq<Ciphertext>, b: Seq<Ciphertext>, n: int)
    requires
        0 <= n <= a.len(),
        n <= b.len(),
        forall|i: int| 0 <= i < n ==> (#[trigger] a[i]).spec_u() == b[i].spec_u(),
    ensures
        u_total(a, n) == u_total(b, n),
    decreases n,
{
    if n > 0 {
        lemma_same_u_total(a, b, n - 1);
        assert(a[n - 1].spec_u() == b[n - 1].spec_u());
    }
}

/// The logarithm of the privacy generator's G1 point.
pub open spec fn privacy_log(g1_log: spec_fn(Seq<u8>) -> nat) -> nat {
    g1_log(hash_to_g1(encode_utf8(PRIVACY_GENERATOR_DST@), encode_utf8(PRIVACY_GENERATOR_MESSAGE@)))
}

proof fn lemma_rearrange_exponent(m: nat, e: nat, g: nat)
    ensures
        ((m + e) % group_order() + g % group_order()) % group_order() == (((m + g)
            % group_order()) + e) % group_order(),
{
    let q = group_order() as int;
    lemma_add_mod_noop((m + e) as int, g as int, q);
    lemma_mod_twice((m + e) as int, q);
    lemma_add_mod_noop((m + g) as int, e as int, q);
    lemma_mod_twice((m + g) as int, q);
    lemma_mod_twice(e as int, q);
    lemma_mod_twice(g as int, q);
    assert((m + e) + g == (m + g) + e);
    lemma_add_mod_noop(((m + e) % (q as nat)) as int, g as int, q);
    lemma_add_mod_noop(((m + g) % (q as nat)) as int, e as int, q);
}

/// Looking up `gT^x`, for `x` below `r`, gives `x` when the table reaches it
/// and `DiscreteLogOutOfRange` otherwise.
proof fn lemma_lookup_of_power(
    gt_elem: spec_fn(nat) -> Seq<u8>,
    g1_log: spec_fn(Seq<u8>) -> nat,
    max: u64,
    x: nat,
    r: Result<u64, HsweError>,
)
    requires
        group_model(gt_elem, g1_log),
        x < group_order(),
        lookup_outcome(max, gt_elem(x), r),
    ensures
        x <= max ==> r == Ok::<u64, HsweError>(x as u64),
        x > max ==> r == Err::<u64, HsweError>(HsweError::DiscreteLogOutOfRange),
{
    let q = group_order();
    lemma_generator_powers(gt_elem, g1_log, x);
    lemma_small_mod(x, q);
    match r {
        Ok(j) => {
            lemma_generator_powers(gt_elem, g1_log, j as nat);
            lemma_small_mod(j as nat, q);
            assert(gt_elem(j as nat) == gt_elem(x));
        },
        Err(_) => {
            if x <= max {
                assert(gt_generator_power(x) != gt_elem(x));
            }
        },
    }
}

/// Under the group laws, decrypting a ciphertext of `message` blinded by
/// `h^b` with the key's own signature recovers the exponent
/// `x = message + log(h) · b` modulo `r`: `Ok(x)` when the table reaches
/// `x`, and `DiscreteLogOutOfRange` otherwise. Only a blind with
/// `log(h) · b = 0` leaves the message readable.
pub proof fn lemma_blinded_decryption_target(
    gt_elem: spec_fn(nat) -> Seq<u8>,
    g1_log: spec_fn(Seq<u8>) -> nat,
    parameters: HsweParameters,
    secret_key: HsweSecretKey,
    public_key: HswePublicKey,
    signature: TagSignature,
    lookup_table: TargetLookupTable,
    ciphertext: Ciphertext,
    tag: Tag,
    message: u64,
    randomness: nat,
    blind: nat,
    blinded: Ciphertext,
    r: Result<u64, HsweError>,
)
    requires
        group_model(gt_elem, g1_log),
        secret_key.spec_parameter_id() == parameters.spec_parameter_id(),
        0 < secret_key.spec_scalar()@ < group_order(),
        public_key.spec_parameter_id() == secret_key.spec_parameter_id(),
        public_key.spec_point()@ == g2_generator_scale(secret_key.spec_scalar()@),
        signature.spec_parameter_id() == secret_key.spec_parameter_id(),
        signature.spec_point()@ == g1_scale(tag_hash(tag@), secret_key.spec_scalar()@),
        g1_log(tag_hash(tag@)) != 0,
        is_encryption(ciphertext, parameters, public_key, tag, message, randomness),
        blinded.spec_parameter_id() == ciphertext.spec_parameter_id(),
        blinded.spec_tag() == ciphertext.spec_tag(),
        blinded.spec_u() == ciphertext.spec_u(),
        blinded.spec_v()@ == gt_product(
            ciphertext.spec_v()@,
            gt_power(privacy_generator_value(), blind),
        ),
        lookup_table.spec_parameter_id() == parameters.spec_parameter_id(),
        decrypt_outcome(
            parameters,
            public_key,
            blinded.spec_parameter_id()@,
            blinded.spec_tag()@,
            blinded.spec_u()@,
            blinded.spec_v()@,
            signature,
            lookup_table,
            HsweError::InvalidCiphertext,
            r,
        ),
    ensures
        ({
            let x = ((message as nat) + (privacy_log(g1_log) * blind) % group_order())
                % group_order();
            &&& x <= lookup_table.spec_maximum_message() ==> r == Ok::<u64, HsweError>(x as u64)
            &&& x > lookup_table.spec_maximum_message() ==> r == Err::<u64, HsweError>(
                HsweError::DiscreteLogOutOfRange,
            )
        }),
{
    let q = group_order();
    let s = secret_key.spec_scalar()@;
    let h = tag_hash(tag@);
    let m = message as nat;
    let hp = hash_to_g1(encode_utf8(PRIVACY_GENERATOR_DST@), encode_utf8(PRIVACY_GENERATOR_MESSAGE@));
    let lp = g1_log(hp);
    let gb = (lp * blind) % q;
    let x = (m + gb) % q;
    lemma_own_signature_verifies(gt_elem, g1_log, secret_key, public_key, signature, tag@);
    lemma_encryption_parts(gt_elem, g1_log, parameters, public_key, s, ciphertext, tag, message, randomness);
    let e = mask_exponent(g1_log, h, s, randomness);
    assert(g1_valid(h));
    lemma_mask(gt_elem, g1_log, h, s, randomness);
    // The privacy generator is `gT^lp`, so `h^b = gT^gb`.
    assert(g1_valid(hp));
    assert(pairing(hp, g2_generator_scale(1)) == gt_elem((lp * 1) % q));
    lemma_small_mod(lp, q);
    assert(gt_power(gt_elem(lp), blind) == gt_elem(gb));
    let vb = ((m + e) % q + gb) % q;
    assert(blinded.spec_v()@ == gt_elem(vb));
    lemma_mod_twice((lp * blind) as int, q as int);
    lemma_rearrange_exponent(m, e, gb);
    assert(vb == (x + e) % q);
    lemma_mod_twice((((g1_log(h) * s) % q) * randomness) as int, q as int);
    lemma_unmask(gt_elem, g1_log, x, e, e % q);
    assert(unmask(blinded.spec_v()@, gt_elem(e)) == Some(gt_elem(x)));
    lemma_lookup_of_power(gt_elem, g1_log, lookup_table.spec_maximum_message(), x, r);
}

} // verus!
