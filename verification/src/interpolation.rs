//! Polynomials over the integers, read modulo the group order `r`, and the
//! exactness of Lagrange interpolation: `t` points with invertible pairwise
//! differences determine every polynomial with at most `t` coefficients.

use vstd::arithmetic::div_mod::{
    lemma_add_mod_noop, lemma_mod_twice, lemma_mul_mod_noop_general, lemma_sub_mod_noop,
};
use vstd::prelude::*;

use crate::group::{field_inverse, group_order};

verus! {

/// The modulus `r`, as an integer.
pub open spec fn modulus() -> int {
    group_order() as int
}

/// The value at `x` of the polynomial with integer coefficients `c`
/// (constant term first).
pub open spec fn peval(c: Seq<int>, x: int) -> int
    decreases c.len(),
{
    if c.len() == 0 {
        0
    } else {
        c[0] + x * peval(c.drop_first(), x)
    }
}

/// A sequence of natural numbers, as integers.
pub open spec fn int_seq(s: Seq<nat>) -> Seq<int> {
    s.map_values(|v: nat| v as int)
}

/// The quotient of `c` by `X - a` (synthetic division).
pub open spec fn synth(c: Seq<int>, a: int) -> Seq<int>
    decreases c.len(),
{
    if c.len() <= 1 {
        Seq::empty()
    } else {
        seq![peval(c.drop_first(), a)] + synth(c.drop_first(), a)
    }
}

/// `d` has an inverse modulo `r`, the one that `field_inverse` names.
pub open spec fn invertible(d: int) -> bool {
    ((d % modulus()) * (field_inverse((d % modulus()) as nat) as int)) % modulus() == 1
}

/// The differences of any two of the first `t` points are invertible.
pub open spec fn differences_invertible(xs: Seq<int>, t: int) -> bool {
    forall|i: int, j: int|
        0 <= i < t && 0 <= j < t && i != j ==> #[trigger] invertible(xs[j] - xs[i])
}

/// `c(x) = c(a) + (x - a) q(x)` for the synthetic quotient `q`.
pub proof fn lemma_synth(c: Seq<int>, a: int, x: int)
    requires
        c.len() >= 1,
    ensures
        synth(c, a).len() == c.len() - 1,
        peval(c, x) == peval(c, a) + (x - a) * peval(synth(c, a), x),
    decreases c.len(),
{
    let d = c.drop_first();
    if c.len() == 1 {
        assert(d.len() == 0);
        assert(peval(d, x) == 0);
        assert(peval(d, a) == 0);
        assert(peval(synth(c, a), x) == 0);
    } else {
        lemma_synth(d, a, x);
        let q = synth(c, a);
        let dq = synth(d, a);
        assert(q.drop_first() == dq);
        assert(q[0] == peval(d, a));
        let da = peval(d, a);
        let dx = peval(d, x);
        let qx = peval(dq, x);
        assert(peval(q, x) == da + x * qx);
        assert(peval(c, x) == c[0] + x * dx);
        assert(peval(c, a) == c[0] + a * da);
        assert(dx == da + (x - a) * qx);
        assert(c[0] + x * dx == (c[0] + a * da) + (x - a) * (da + x * qx)) by (nonlinear_arith)
            requires
                dx == da + (x - a) * qx,
        ;
    }
}

/// A factor with an inverse cancels: `d y = 0 (mod r)` gives `y = 0 (mod r)`.
proof fn lemma_cancel(d: int, y: int)
    requires
        invertible(d),
        (d * y) % modulus() == 0,
    ensures
        y % modulus() == 0,
{
    let r = modulus();
    let dm = d % r;
    let b = field_inverse(dm as nat) as int;
    assert((dm * b) % r == 1);
    lemma_mul_mod_noop_general(y, dm * b, r);
    assert(y * (dm * b) == (dm * y) * b) by (nonlinear_arith);
    lemma_mul_mod_noop_general(dm * y, b, r);
    lemma_mul_mod_noop_general(d, y, r);
    assert(((dm * y) % r) * b == 0 * b);
}

/// A polynomial with at most `t` coefficients that vanishes modulo `r` at
/// `t` points with invertible differences vanishes modulo `r` everywhere.
pub proof fn lemma_root_counting(c: Seq<int>, xs: Seq<int>, t: int, z: int)
    requires
        0 <= t <= xs.len(),
        c.len() <= t,
        differences_invertible(xs, t),
        forall|k: int| 0 <= k < t ==> #[trigger] peval(c, xs[k]) % modulus() == 0,
    ensures
        peval(c, z) % modulus() == 0,
    decreases t,
{
    let r = modulus();
    if c.len() == 0 {
        assert(peval(c, z) == 0);
    } else {
        let a = xs[t - 1];
        let q = synth(c, a);
        assert(peval(c, xs[t - 1]) % r == 0);
        assert forall|k: int| 0 <= k < t - 1 implies #[trigger] peval(q, xs[k]) % r == 0 by {
            lemma_synth(c, a, xs[k]);
            lemma_sub_mod_noop(peval(c, xs[k]), peval(c, a), r);
            assert(peval(c, xs[k]) % r == 0);
            assert((peval(c, xs[k]) - peval(c, a)) % r == 0);
            assert(invertible(xs[k] - xs[t - 1]));
            lemma_cancel(xs[k] - a, peval(q, xs[k]));
        }
        assert(differences_invertible(xs, t - 1)) by {
            assert forall|i: int, j: int|
                0 <= i < t - 1 && 0 <= j < t - 1 && i != j implies #[trigger] invertible(
                xs[j] - xs[i],
            ) by {}
        }
        lemma_synth(c, a, z);
        lemma_root_counting(q, xs, t - 1, z);
        lemma_mul_mod_noop_general(z - a, peval(q, z), r);
        lemma_add_mod_noop(peval(c, a), (z - a) * peval(q, z), r);
        assert(((z - a) * (peval(q, z) % r)) == 0);
    }
}

/// The coefficient-wise sum of two polynomials.
pub open spec fn padd(p: Seq<int>, q: Seq<int>) -> Seq<int>
    decreases p.len() + q.len(),
{
    if p.len() == 0 {
        q
    } else if q.len() == 0 {
        p
    } else {
        seq![p[0] + q[0]] + padd(p.drop_first(), q.drop_first())
    }
}

/// The polynomial `s p`.
pub open spec fn pscale(p: Seq<int>, s: int) -> Seq<int> {
    p.map_values(|v: int| s * v)
}

/// The polynomial `(a - X) p`.
pub open spec fn pfactor(p: Seq<int>, a: int) -> Seq<int> {
    padd(pscale(p, a), seq![0int] + pscale(p, -1))
}

pub proof fn lemma_padd(p: Seq<int>, q: Seq<int>, x: int)
    ensures
        padd(p, q).len() == if p.len() >= q.len() {
            p.len()
        } else {
            q.len()
        },
        peval(padd(p, q), x) == peval(p, x) + peval(q, x),
    decreases p.len() + q.len(),
{
    if p.len() == 0 {
    } else if q.len() == 0 {
    } else {
        lemma_padd(p.drop_first(), q.drop_first(), x);
        let s = padd(p, q);
        assert(s.drop_first() == padd(p.drop_first(), q.drop_first()));
        let a = peval(p.drop_first(), x);
        let b = peval(q.drop_first(), x);
        assert(x * (a + b) == x * a + x * b) by (nonlinear_arith);
    }
}

pub proof fn lemma_pscale(p: Seq<int>, s: int, x: int)
    ensures
        pscale(p, s).len() == p.len(),
        peval(pscale(p, s), x) == s * peval(p, x),
    decreases p.len(),
{
    if p.len() > 0 {
        lemma_pscale(p.drop_first(), s, x);
        assert(pscale(p, s).drop_first() == pscale(p.drop_first(), s));
        let a = peval(p.drop_first(), x);
        assert(s * p[0] + x * (s * a) == s * (p[0] + x * a)) by (nonlinear_arith);
    }
}

pub proof fn lemma_pfactor(p: Seq<int>, a: int, x: int)
    ensures
        pfactor(p, a).len() == p.len() + 1,
        peval(pfactor(p, a), x) == (a - x) * peval(p, x),
{
    let m = pscale(p, -1);
    let shifted = seq![0int] + m;
    lemma_pscale(p, a, x);
    lemma_pscale(p, -1, x);
    assert(shifted.drop_first() == m);
    assert(peval(shifted, x) == 0 + x * peval(m, x));
    lemma_padd(pscale(p, a), shifted, x);
    let v = peval(p, x);
    assert(a * v + x * (-1 * v) == (a - x) * v) by (nonlinear_arith);
}

/// The inverse modulo `r` of `xs[j] - xs[i]`, as `field_inverse` names it.
pub open spec fn inverse_difference(xs: Seq<int>, i: int, j: int) -> int {
    field_inverse(((xs[j] - xs[i]) % modulus()) as nat) as int
}

/// The Lagrange basis product of point `i` at `z`: the product over the
/// points `j < m` other than `i` of `(xs[j] - z) / (xs[j] - xs[i])`, with the
/// division taken as multiplication by the inverse modulo `r`, unreduced.
pub open spec fn basis_product(xs: Seq<int>, i: int, m: int, z: int) -> int
    decreases m,
{
    if m <= 0 {
        1
    } else if m - 1 == i {
        basis_product(xs, i, m - 1, z)
    } else {
        basis_product(xs, i, m - 1, z) * ((xs[m - 1] - z) * inverse_difference(xs, i, m - 1))
    }
}

/// The coefficients of `basis_product(xs, i, m, X)` as a polynomial in `X`.
pub open spec fn basis_polynomial(xs: Seq<int>, i: int, m: int) -> Seq<int>
    decreases m,
{
    if m <= 0 {
        seq![1int]
    } else if m - 1 == i {
        basis_polynomial(xs, i, m - 1)
    } else {
        pscale(pfactor(basis_polynomial(xs, i, m - 1), xs[m - 1]), inverse_difference(xs, i, m - 1))
    }
}

/// `sum_{k < n} ys[k] * basis_product(xs, k, t, z)`, unreduced.
pub open spec fn lagrange_sum(xs: Seq<int>, ys: Seq<int>, t: int, n: int, z: int) -> int
    decreases n,
{
    if n <= 0 {
        0
    } else {
        lagrange_sum(xs, ys, t, n - 1, z) + ys[n - 1] * basis_product(xs, n - 1, t, z)
    }
}

/// The coefficients of `lagrange_sum(xs, ys, t, n, X)` as a polynomial in `X`.
pub open spec fn lagrange_polynomial(xs: Seq<int>, ys: Seq<int>, t: int, n: int) -> Seq<int>
    decreases n,
{
    if n <= 0 {
        Seq::empty()
    } else {
        padd(
            lagrange_polynomial(xs, ys, t, n - 1),
            pscale(basis_polynomial(xs, n - 1, t), ys[n - 1]),
        )
    }
}

proof fn lemma_basis_polynomial(xs: Seq<int>, i: int, m: int, z: int)
    requires
        0 <= i < m,
    ensures
        basis_polynomial(xs, i, m).len() == m,
        peval(basis_polynomial(xs, i, m), z) == basis_product(xs, i, m, z),
    decreases m,
{
    if m - 1 == i {
        lemma_basis_polynomial_below(xs, i, m - 1, z);
    } else {
        lemma_basis_polynomial(xs, i, m - 1, z);
        let p = basis_polynomial(xs, i, m - 1);
        let a = xs[m - 1];
        let inv = inverse_difference(xs, i, m - 1);
        lemma_pfactor(p, a, z);
        lemma_pscale(pfactor(p, a), inv, z);
        let v = peval(p, z);
        assert(inv * ((a - z) * v) == v * ((a - z) * inv)) by (nonlinear_arith);
    }
}

proof fn lemma_basis_polynomial_below(xs: Seq<int>, i: int, m: int, z: int)
    requires
        0 <= m <= i,
    ensures
        basis_polynomial(xs, i, m).len() == m + 1,
        peval(basis_polynomial(xs, i, m), z) == basis_product(xs, i, m, z),
    decreases m,
{
    if m == 0 {
        let one = seq![1int];
        assert(one.drop_first().len() == 0);
        assert(peval(one.drop_first(), z) == 0);
        assert(peval(one, z) == 1 + z * 0);
    } else {
        lemma_basis_polynomial_below(xs, i, m - 1, z);
        let p = basis_polynomial(xs, i, m - 1);
        let a = xs[m - 1];
        let inv = inverse_difference(xs, i, m - 1);
        lemma_pfactor(p, a, z);
        lemma_pscale(pfactor(p, a), inv, z);
        let v = peval(p, z);
        assert(inv * ((a - z) * v) == v * ((a - z) * inv)) by (nonlinear_arith);
    }
}

proof fn lemma_lagrange_polynomial(xs: Seq<int>, ys: Seq<int>, t: int, n: int, z: int)
    requires
        0 <= n <= t,
    ensures
        lagrange_polynomial(xs, ys, t, n).len() <= t,
        peval(lagrange_polynomial(xs, ys, t, n), z) == lagrange_sum(xs, ys, t, n, z),
    decreases n,
{
    if n > 0 {
        lemma_lagrange_polynomial(xs, ys, t, n - 1, z);
        let b = basis_polynomial(xs, n - 1, t);
        lemma_basis_polynomial(xs, n - 1, t, z);
        lemma_pscale(b, ys[n - 1], z);
        lemma_padd(lagrange_polynomial(xs, ys, t, n - 1), pscale(b, ys[n - 1]), z);
    }
}

/// The basis product of point `i` vanishes at every other point `k < m`.
proof fn lemma_basis_product_vanishes(xs: Seq<int>, i: int, m: int, k: int)
    requires
        0 <= k < m,
        k != i,
    ensures
        basis_product(xs, i, m, xs[k]) == 0,
    decreases m,
{
    let z = xs[k];
    if m - 1 == i {
        lemma_basis_product_vanishes(xs, i, m - 1, k);
    } else if m - 1 == k {
        let p = basis_product(xs, i, m - 1, z);
        let inv = inverse_difference(xs, i, m - 1);
        assert(p * ((z - z) * inv) == 0) by (nonlinear_arith);
    } else {
        lemma_basis_product_vanishes(xs, i, m - 1, k);
        let inv = inverse_difference(xs, i, m - 1);
        assert(0 * ((xs[m - 1] - z) * inv) == 0);
    }
}

/// The basis product of point `i` is one modulo `r` at point `i`.
proof fn lemma_basis_product_at_own_point(xs: Seq<int>, i: int, m: int, t: int)
    requires
        0 <= i < t,
        0 <= m <= t,
        differences_invertible(xs, t),
    ensures
        basis_product(xs, i, m, xs[i]) % modulus() == 1,
    decreases m,
{
    let r = modulus();
    let z = xs[i];
    if m == 0 {
        assert(1int % r == 1);
    } else if m - 1 == i {
        lemma_basis_product_at_own_point(xs, i, m - 1, t);
    } else {
        lemma_basis_product_at_own_point(xs, i, m - 1, t);
        let p = basis_product(xs, i, m - 1, z);
        let d = xs[m - 1] - z;
        let inv = inverse_difference(xs, i, m - 1);
        assert(invertible(xs[m - 1] - xs[i]));
        lemma_mul_mod_noop_general(d, inv, r);
        assert((d * inv) % r == 1);
        lemma_mul_mod_noop_general(p, d * inv, r);
        assert((1int * 1int) % r == 1);
    }
}

/// At point `k`, the Lagrange sum over the first `n` points is `ys[k]`
/// modulo `r` when `k < n`, and zero otherwise.
proof fn lemma_lagrange_sum_at_point(xs: Seq<int>, ys: Seq<int>, t: int, n: int, k: int)
    requires
        0 <= n <= t,
        0 <= k < t,
        differences_invertible(xs, t),
    ensures
        lagrange_sum(xs, ys, t, n, xs[k]) % modulus() == if k < n {
            ys[k] % modulus()
        } else {
            0
        },
    decreases n,
{
    let r = modulus();
    if n > 0 {
        lemma_lagrange_sum_at_point(xs, ys, t, n - 1, k);
        let prev = lagrange_sum(xs, ys, t, n - 1, xs[k]);
        let g = basis_product(xs, n - 1, t, xs[k]);
        let term = ys[n - 1] * g;
        lemma_add_mod_noop(prev, term, r);
        if n - 1 == k {
            lemma_basis_product_at_own_point(xs, k, t, t);
            lemma_mul_mod_noop_general(ys[k], g, r);
            assert(ys[k] * 1 == ys[k]);
            lemma_mod_twice(ys[k], r);
            assert(prev % r == 0);
        } else {
            lemma_basis_product_vanishes(xs, n - 1, t, k);
            assert(term == 0) by (nonlinear_arith)
                requires
                    g == 0,
                    term == ys[n - 1] * g,
            ;
            lemma_mod_twice(prev, r);
        }
    } else {
        assert(0int % r == 0);
    }
}

/// Lagrange interpolation is exact: if `ys[k] = c(xs[k])` modulo `r` at `t`
/// points with invertible differences and `c` has at most `t`
/// coefficients, the Lagrange sum at any `z` is `c(z)` modulo `r`.
pub proof fn lemma_interpolation_exact(c: Seq<int>, xs: Seq<int>, ys: Seq<int>, t: int, z: int)
    requires
        0 <= t <= xs.len(),
        c.len() <= t,
        differences_invertible(xs, t),
        forall|k: int| 0 <= k < t ==> #[trigger] (ys[k] % modulus()) == peval(c, xs[k]) % modulus(),
    ensures
        lagrange_sum(xs, ys, t, t, z) % modulus() == peval(c, z) % modulus(),
{
    let r = modulus();
    let p = lagrange_polynomial(xs, ys, t, t);
    let e = padd(c, pscale(p, -1));
    lemma_lagrange_polynomial(xs, ys, t, t, 0);
    lemma_pscale(p, -1, 0);
    lemma_padd(c, pscale(p, -1), 0);
    assert forall|k: int| 0 <= k < t implies #[trigger] peval(e, xs[k]) % r == 0 by {
        lemma_lagrange_polynomial(xs, ys, t, t, xs[k]);
        lemma_pscale(p, -1, xs[k]);
        lemma_padd(c, pscale(p, -1), xs[k]);
        lemma_lagrange_sum_at_point(xs, ys, t, t, k);
        assert(ys[k] % r == peval(c, xs[k]) % r);
        lemma_sub_mod_noop(peval(c, xs[k]), lagrange_sum(xs, ys, t, t, xs[k]), r);
        assert(peval(e, xs[k]) == peval(c, xs[k]) - lagrange_sum(xs, ys, t, t, xs[k]));
    }
    lemma_root_counting(e, xs, t, z);
    lemma_lagrange_polynomial(xs, ys, t, t, z);
    lemma_pscale(p, -1, z);
    lemma_padd(c, pscale(p, -1), z);
    assert(peval(e, z) == peval(c, z) - lagrange_sum(xs, ys, t, t, z));
    vstd::arithmetic::div_mod::lemma_mod_equivalence(peval(c, z), lagrange_sum(xs, ys, t, t, z), r);
}

} // verus!
