//! Shamir secret sharing of scalars.

use vstd::arithmetic::div_mod::{lemma_add_mod_noop, lemma_mod_twice, lemma_mul_mod_noop_general};
use vstd::prelude::*;

use crate::group::{
    field_inverse, group_order, scalar_add, scalar_inverse, scalar_mul, scalar_random, scalar_sub,
    Scalar,
};
use crate::interpolation::{
    basis_product, differences_invertible, int_seq, invertible, lagrange_sum,
    lemma_interpolation_exact, modulus, peval,
};

verus! {

/// One share `(index, f(index))` of a shared scalar.
#[derive(Clone, Copy, Debug, PartialEq, Eq)]
pub struct ScalarShare {
    index: u64,
    value: Scalar,
}

/// Errors of secret sharing.
#[derive(Clone, Copy, Debug, PartialEq, Eq, Structural)]
pub enum SharingError {
    ZeroThreshold,
    ThresholdExceedsShareCount,
    ZeroIndex,
    InsufficientShares,
    DuplicateShareIndex,
    NonInvertibleDenominator,
}

impl SharingError {
    pub open spec fn spec_message(&self) -> &'static str {
        match self {
            SharingError::ZeroThreshold => "threshold must be at least one",
            SharingError::ThresholdExceedsShareCount => "threshold cannot exceed the number of shares",
            SharingError::ZeroIndex => "share index must be non-zero",
            SharingError::InsufficientShares => "not enough shares to reconstruct",
            SharingError::DuplicateShareIndex => "duplicate share index",
            SharingError::NonInvertibleDenominator => "failed to invert a field element",
        }
    }

    /// The human-readable description of the error.
    pub fn to_string(&self) -> (s: String)
        ensures
            s@ == self.spec_message()@,
    {
        let text = match self {
            SharingError::ZeroThreshold => "threshold must be at least one",
            SharingError::ThresholdExceedsShareCount => "threshold cannot exceed the number of shares",
            SharingError::ZeroIndex => "share index must be non-zero",
            SharingError::InsufficientShares => "not enough shares to reconstruct",
            SharingError::DuplicateShareIndex => "duplicate share index",
            SharingError::NonInvertibleDenominator => "failed to invert a field element",
        };
        text.to_owned()
    }
}

impl ScalarShare {
    pub closed spec fn spec_index(&self) -> u64 {
        self.index
    }

    pub closed spec fn spec_value(&self) -> Scalar {
        self.value
    }

    /// A share at a non-zero index.
    pub fn new(index: u64, value: Scalar) -> (r: Result<Self, SharingError>)
        ensures
            index == 0 ==> r == Err::<ScalarShare, SharingError>(SharingError::ZeroIndex),
            index != 0 ==> (r matches Ok(s) && s.spec_index() == index && s.spec_value() == value),
    {
        if index == 0 {
            return Err(SharingError::ZeroIndex);
        }

        Ok(Self { index, value })
    }

    pub fn index(&self) -> (r: u64)
        ensures
            r == self.spec_index(),
    {
        self.index
    }

    pub fn value(&self) -> (r: Scalar)
        ensures
            r == self.spec_value(),
    {
        self.value
    }
}

/// The integer value of the polynomial with coefficients `c` (constant term
/// first) at `x`.
pub open spec fn poly_eval(c: Seq<nat>, x: nat) -> nat
    decreases c.len(),
{
    if c.len() == 0 {
        0
    } else {
        c[0] + x * poly_eval(c.drop_first(), x)
    }
}

/// The integer values of a sequence of scalars.
pub open spec fn scalar_values(s: Seq<Scalar>) -> Seq<nat> {
    s.map_values(|x: Scalar| x@)
}

/// `shares` are the `share_count` evaluations at `1, 2, ...` of the polynomial
/// with coefficients `c` (`threshold` of them, below `r`) whose constant term
/// is `secret`.
pub open spec fn shares_from_polynomial(
    c: Seq<nat>,
    secret: nat,
    threshold: nat,
    share_count: nat,
    shares: Seq<ScalarShare>,
) -> bool {
    &&& c.len() == threshold
    &&& c[0] == secret
    &&& forall|k: int| 0 <= k < c.len() ==> c[k] < group_order()
    &&& shares.len() == share_count
    &&& forall|i: int|
        0 <= i < share_count ==> (#[trigger] shares[i]).spec_index() == i + 1
            && shares[i].spec_value()@ == poly_eval(c, (i + 1) as nat) % group_order()
}

/// `shares` are the `share_count` evaluations at `1, 2, ...` of some
/// polynomial with `threshold` coefficients whose constant term is `secret`.
pub open spec fn shares_of(secret: nat, threshold: nat, share_count: nat, shares: Seq<ScalarShare>) -> bool {
    exists|c: Seq<nat>| #[trigger] shares_from_polynomial(c, secret, threshold, share_count, shares)
}

proof fn lemma_horner_step(c: Seq<nat>, j: int, x: nat, v: nat)
    requires
        0 <= j < c.len(),
        v == poly_eval(c.subrange(j + 1, c.len() as int), x) % group_order(),
    ensures
        (((v * x) % group_order()) + c[j]) % group_order() == poly_eval(
            c.subrange(j, c.len() as int),
            x,
        ) % group_order(),
{
    let r = group_order() as int;
    let rest = poly_eval(c.subrange(j + 1, c.len() as int), x) as int;
    assert(c.subrange(j, c.len() as int).drop_first() == c.subrange(j + 1, c.len() as int));
    vstd::arithmetic::div_mod::lemma_mul_mod_noop_general(rest, x as int, r);
    vstd::arithmetic::div_mod::lemma_add_mod_noop(rest * x, c[j] as int, r);
    vstd::arithmetic::div_mod::lemma_add_mod_noop((v * x) as int, c[j] as int, r);
    vstd::arithmetic::div_mod::lemma_mod_twice((v * x) as int, r);
    vstd::arithmetic::div_mod::lemma_mod_twice(c[j] as int, r);
    assert(rest * x == x * rest) by (nonlinear_arith);
}

/// Evaluates the polynomial with the given coefficients at the index `x`
/// modulo `r`, by Horner's rule.
fn evaluate_at(coefficients: &Vec<Scalar>, x: u64) -> (r: Scalar)
    ensures
        r@ == poly_eval(scalar_values(coefficients@), x as nat) % group_order(),
{
    let point = Scalar::from_u64(x);
    let mut value = Scalar::zero();
    let n = coefficients.len();
    let ghost c = scalar_values(coefficients@);
    let mut j = n;
    assert(c.subrange(n as int, n as int) == Seq::<nat>::empty());
    while j > 0
        invariant
            j <= n,
            n == coefficients@.len(),
            c == scalar_values(coefficients@),
            point@ == x,
            value@ == poly_eval(c.subrange(j as int, n as int), x as nat) % group_order(),
        decreases j,
    {
        j = j - 1;
        proof {
            lemma_horner_step(c, j as int, x as nat, value@);
        }
        let product = scalar_mul(&value, &point);
        value = scalar_add(&product, &coefficients[j]);
    }
    assert(c.subrange(0, n as int) == c);
    value
}

/// Splits `secret` into `share_count` shares of which any `threshold`
/// reconstruct it, using a random polynomial of degree `threshold - 1`.
pub fn split_secret(secret: Scalar, threshold: usize, share_count: usize) -> (r: Result<
    Vec<ScalarShare>,
    SharingError,
>)
    ensures
        threshold == 0 ==> r == Err::<Vec<ScalarShare>, SharingError>(SharingError::ZeroThreshold),
        threshold != 0 && threshold > share_count ==> r == Err::<Vec<ScalarShare>, SharingError>(
            SharingError::ThresholdExceedsShareCount,
        ),
        0 < threshold <= share_count ==> (r matches Ok(shares) && shares_of(
            secret@,
            threshold as nat,
            share_count as nat,
            shares@,
        )),
{
    if threshold == 0 {
        return Err(SharingError::ZeroThreshold);
    }

    if threshold > share_count {
        return Err(SharingError::ThresholdExceedsShareCount);
    }

    proof {
        use_type_invariant(&secret);
        Scalar::lemma_canonical(secret);
    }
    let mut coefficients: Vec<Scalar> = Vec::new();
    coefficients.push(secret);

    for k in 1..threshold
        invariant
            coefficients@.len() == k,
            coefficients@[0] == secret,
            forall|k: int| 0 <= k < coefficients@.len() ==> (#[trigger] coefficients@[k])@ < group_order(),
    {
        coefficients.push(scalar_random());
    }
    assert(coefficients@.len() == threshold);
    let ghost c = scalar_values(coefficients@);
    proof {
        assert forall|k: int| 0 <= k < c.len() implies c[k] < group_order() by {
            assert(c[k] == coefficients@[k]@);
        }
    }

    let mut shares: Vec<ScalarShare> = Vec::new();
    for i in 0..share_count
        invariant
            c == scalar_values(coefficients@),
            c.len() == threshold,
            c[0] == secret@,
            forall|k: int| 0 <= k < c.len() ==> c[k] < group_order(),
            shares@.len() == i,
            forall|k: int|
                0 <= k < i ==> (#[trigger] shares@[k]).spec_index() == k + 1
                    && shares@[k].spec_value()@ == poly_eval(c, (k + 1) as nat) % group_order(),
    {
        let index = (i as u64) + 1;
        let value = evaluate_at(&coefficients, index);
        let share = ScalarShare { index, value };
        shares.push(share);
    }

    proof {
        assert(c.len() == threshold);
        assert(c[0] == secret@);
        assert(shares_from_polynomial(c, secret@, threshold as nat, share_count as nat, shares@));
    }
    Ok(shares)
}

/// The indices of the shares, as integers.
pub open spec fn share_points(shares: Seq<ScalarShare>) -> Seq<nat> {
    shares.map_values(|s: ScalarShare| s.spec_index() as nat)
}

/// The values of the shares, as integers.
pub open spec fn share_values(shares: Seq<ScalarShare>) -> Seq<nat> {
    shares.map_values(|s: ScalarShare| s.spec_value()@)
}

/// The Lagrange basis polynomial of point `i` at zero, `Π x_j / (x_j - x_i)`
/// over the points `j < m` other than `i`, in the scalar field.
pub open spec fn basis_at_zero(xs: Seq<nat>, i: int, m: int) -> nat
    decreases m,
{
    if m <= 0 {
        1
    } else if m - 1 == i {
        basis_at_zero(xs, i, m - 1)
    } else {
        let difference = ((xs[m - 1] - xs[i]) % (group_order() as int)) as nat;
        (basis_at_zero(xs, i, m - 1) * ((xs[m - 1] * field_inverse(difference))
            % group_order())) % group_order()
    }
}

/// The Lagrange interpolation at zero of the first `t` points, summed over
/// the first `n` of them, in the scalar field.
pub open spec fn interpolate_at_zero(xs: Seq<nat>, ys: Seq<nat>, t: int, n: int) -> nat
    decreases n,
{
    if n <= 0 {
        0
    } else {
        (interpolate_at_zero(xs, ys, t, n - 1) + (ys[n - 1] * basis_at_zero(xs, n - 1, t))
            % group_order()) % group_order()
    }
}

/// Two of the first `t` shares carry the same index.
pub open spec fn has_duplicate_index(shares: Seq<ScalarShare>, t: int) -> bool {
    exists|i: int, j: int|
        0 <= i < j < t && (#[trigger] shares[i]).spec_index() == (#[trigger] shares[j]).spec_index()
}

proof fn lemma_small_difference_nonzero(a: int, b: int)
    requires
        0 <= a < 0x1_0000_0000_0000_0000,
        0 <= b < 0x1_0000_0000_0000_0000,
        a != b,
    ensures
        (a - b) % (group_order() as int) != 0,
{
    let r = group_order() as int;
    let d = a - b;
    vstd::arithmetic::div_mod::lemma_fundamental_div_mod(d, r);
    let q = d / r;
    if d % r == 0 {
        assert(d == r * q);
        assert(q == 0) by (nonlinear_arith)
            requires
                d == r * q,
                -r < d < r,
                r > 0,
        ;
    }
}

/// The first `t` shares are points of the polynomial with coefficients `c`:
/// each value is `c` at the share's index, modulo `r`.
pub open spec fn on_polynomial(shares: Seq<ScalarShare>, t: int, c: Seq<nat>) -> bool {
    forall|k: int|
        0 <= k < t ==> (#[trigger] shares[k]).spec_value()@ == poly_eval(
            c,
            shares[k].spec_index() as nat,
        ) % group_order()
}

proof fn lemma_poly_eval_as_int(c: Seq<nat>, x: nat)
    ensures
        poly_eval(c, x) == peval(int_seq(c), x as int),
    decreases c.len(),
{
    if c.len() > 0 {
        lemma_poly_eval_as_int(c.drop_first(), x);
        assert(int_seq(c).drop_first() == int_seq(c.drop_first()));
    }
}

proof fn lemma_basis_at_zero(xs: Seq<nat>, i: int, m: int)
    requires
        0 <= i < xs.len(),
        0 <= m <= xs.len(),
    ensures
        basis_at_zero(xs, i, m) == basis_product(int_seq(xs), i, m, 0) % modulus(),
    decreases m,
{
    let r = modulus();
    if m <= 0 {
        assert(1int % r == 1);
    } else if m - 1 == i {
        lemma_basis_at_zero(xs, i, m - 1);
    } else {
        lemma_basis_at_zero(xs, i, m - 1);
        let xi = int_seq(xs);
        let p = basis_product(xi, i, m - 1, 0);
        let difference = ((xs[m - 1] - xs[i]) % r) as nat;
        let inv = field_inverse(difference) as int;
        assert(xi[m - 1] == xs[m - 1] && xi[i] == xs[i]);
        assert((xi[m - 1] - 0) * inv == xs[m - 1] * inv);
        lemma_mul_mod_noop_general(p, xs[m - 1] * inv, r);
    }
}

proof fn lemma_interpolate_at_zero(xs: Seq<nat>, ys: Seq<nat>, t: int, n: int)
    requires
        0 <= n <= t,
        t <= xs.len(),
        t <= ys.len(),
    ensures
        interpolate_at_zero(xs, ys, t, n) == lagrange_sum(int_seq(xs), int_seq(ys), t, n, 0)
            % modulus(),
    decreases n,
{
    let r = modulus();
    if n <= 0 {
        assert(0int % r == 0);
    } else {
        lemma_interpolate_at_zero(xs, ys, t, n - 1);
        lemma_basis_at_zero(xs, n - 1, t);
        let prev = lagrange_sum(int_seq(xs), int_seq(ys), t, n - 1, 0);
        let g = basis_product(int_seq(xs), n - 1, t, 0);
        let y = ys[n - 1] as int;
        assert(int_seq(ys)[n - 1] == y);
        lemma_mul_mod_noop_general(y, g, r);
        lemma_add_mod_noop(prev, y * g, r);
        lemma_mod_twice(y * g, r);
    }
}

/// Any `threshold` shares picked from those that `split_secret` hands out
/// lie on one polynomial with at most `threshold` coefficients whose value at
/// zero is the secret; with distinct indices, `reconstruct_secret` therefore
/// returns the secret from them.
pub proof fn lemma_split_shares_determine_secret(
    secret: nat,
    threshold: nat,
    share_count: nat,
    shares: Seq<ScalarShare>,
    picked: Seq<ScalarShare>,
)
    requires
        threshold >= 1,
        shares_of(secret, threshold, share_count, shares),
        picked.len() >= threshold,
        forall|k: int| 0 <= k < threshold ==> shares.contains(#[trigger] picked[k]),
    ensures
        exists|c: Seq<nat>|
            c.len() <= threshold && poly_eval(c, 0) % group_order() == secret
                && #[trigger] on_polynomial(picked, threshold as int, c),
{
    let c = choose|c: Seq<nat>| #[trigger]
        shares_from_polynomial(c, secret, threshold, share_count, shares);
    assert(shares_from_polynomial(c, secret, threshold, share_count, shares));
    assert forall|k: int| 0 <= k < threshold implies (#[trigger] picked[k]).spec_value()@
        == poly_eval(c, picked[k].spec_index() as nat) % group_order() by {
        assert(shares.contains(picked[k]));
        let i = choose|i: int| 0 <= i < shares.len() && shares[i] == picked[k];
        assert(shares[i].spec_index() == i + 1);
    }
    assert(on_polynomial(picked, threshold as int, c));
    assert(c.drop_first().len() == threshold - 1);
    assert(poly_eval(c, 0) == c[0] + 0 * poly_eval(c.drop_first(), 0));
    assert(c[0] < group_order());
    vstd::arithmetic::div_mod::lemma_small_mod(secret, group_order());
}

proof fn lemma_basis_agrees(xs1: Seq<nat>, xs2: Seq<nat>, t: int, i: int, m: int)
    requires
        0 <= i < t,
        m <= t,
        forall|j: int| 0 <= j < t ==> xs1[j] == xs2[j],
    ensures
        basis_at_zero(xs1, i, m) == basis_at_zero(xs2, i, m),
    decreases m,
{
    if m > 0 {
        lemma_basis_agrees(xs1, xs2, t, i, m - 1);
        assert(xs1[m - 1] == xs2[m - 1] && xs1[i] == xs2[i]);
    }
}

proof fn lemma_interpolation_agrees(
    xs1: Seq<nat>,
    ys1: Seq<nat>,
    xs2: Seq<nat>,
    ys2: Seq<nat>,
    t: int,
    n: int,
)
    requires
        n <= t,
        forall|j: int| 0 <= j < t ==> xs1[j] == xs2[j] && ys1[j] == ys2[j],
    ensures
        interpolate_at_zero(xs1, ys1, t, n) == interpolate_at_zero(xs2, ys2, t, n),
    decreases n,
{
    if n > 0 {
        lemma_interpolation_agrees(xs1, ys1, xs2, ys2, t, n - 1);
        lemma_basis_agrees(xs1, xs2, t, n - 1, t);
        assert(ys1[n - 1] == ys2[n - 1]);
    }
}

/// Reconstruction reads only the first `threshold` shares: on them and on
/// the whole sequence, the duplicate check, the interpolated value and the
/// polynomials the shares lie on are the same.
pub proof fn lemma_reconstruction_reads_first_shares(shares: Seq<ScalarShare>, threshold: int)
    requires
        0 <= threshold <= shares.len(),
    ensures
        has_duplicate_index(shares, threshold) == has_duplicate_index(
            shares.take(threshold),
            threshold,
        ),
        interpolate_at_zero(share_points(shares), share_values(shares), threshold, threshold)
            == interpolate_at_zero(
            share_points(shares.take(threshold)),
            share_values(shares.take(threshold)),
            threshold,
            threshold,
        ),
        forall|c: Seq<nat>|
            #[trigger] on_polynomial(shares, threshold, c) == on_polynomial(
                shares.take(threshold),
                threshold,
                c,
            ),
{
    let first = shares.take(threshold);
    assert forall|j: int| 0 <= j < threshold implies share_points(shares)[j] == share_points(
        first,
    )[j] && share_values(shares)[j] == share_values(first)[j] by {
        assert(first[j] == shares[j]);
    }
    lemma_interpolation_agrees(
        share_points(shares),
        share_values(shares),
        share_points(first),
        share_values(first),
        threshold,
        threshold,
    );
    if has_duplicate_index(shares, threshold) {
        let (i, j) = choose|i: int, j: int|
            0 <= i < j < threshold && (#[trigger] shares[i]).spec_index() == (
            #[trigger] shares[j]).spec_index();
        assert(first[i] == shares[i] && first[j] == shares[j]);
    }
    if has_duplicate_index(first, threshold) {
        let (i, j) = choose|i: int, j: int|
            0 <= i < j < threshold && (#[trigger] first[i]).spec_index() == (
            #[trigger] first[j]).spec_index();
        assert(first[i] == shares[i] && first[j] == shares[j]);
    }
    assert forall|c: Seq<nat>| #[trigger] on_polynomial(shares, threshold, c) == on_polynomial(
        first,
        threshold,
        c,
    ) by {
        assert forall|k: int| 0 <= k < threshold implies first[k] == shares[k] by {}
    }
}

/// Reconstructs the shared scalar from the first `threshold` shares by
/// Lagrange interpolation at zero.
///
/// Interpolation is exact: when those shares have distinct indices and lie
/// on a polynomial with at most `threshold` coefficients, the result is that
/// polynomial's value at zero.
pub fn reconstruct_secret(shares: &[ScalarShare], threshold: usize) -> (r: Result<
    Scalar,
    SharingError,
>)
    ensures
        threshold == 0 ==> r == Err::<Scalar, SharingError>(SharingError::ZeroThreshold),
        threshold != 0 && shares@.len() < threshold ==> r == Err::<Scalar, SharingError>(
            SharingError::InsufficientShares,
        ),
        threshold != 0 && shares@.len() >= threshold && has_duplicate_index(
            shares@,
            threshold as int,
        ) ==> r == Err::<Scalar, SharingError>(SharingError::DuplicateShareIndex),
        threshold != 0 && shares@.len() >= threshold && !has_duplicate_index(
            shares@,
            threshold as int,
        ) ==> (r matches Ok(secret) && secret@ == interpolate_at_zero(
            share_points(shares@),
            share_values(shares@),
            threshold as int,
            threshold as int,
        )),
        threshold != 0 && shares@.len() >= threshold && !has_duplicate_index(
            shares@,
            threshold as int,
        ) ==> forall|c: Seq<nat>|
            c.len() <= threshold && #[trigger] on_polynomial(shares@, threshold as int, c) ==> (
            r matches Ok(secret) && secret@ == poly_eval(c, 0) % group_order()),
{
    if threshold == 0 {
        return Err(SharingError::ZeroThreshold);
    }

    if shares.len() < threshold {
        return Err(SharingError::InsufficientShares);
    }

    let t = threshold;
    for i in 0..t
        invariant
            t == threshold,
            t <= shares@.len(),
            forall|a: int, b: int|
                0 <= a < i && a < b < t ==> (#[trigger] shares@[a]).spec_index() != (
                #[trigger] shares@[b]).spec_index(),
    {
        for j in (i + 1)..t
            invariant
                t == threshold,
                t <= shares@.len(),
                i < t,
                forall|a: int, b: int|
                    0 <= a < i && a < b < t ==> (#[trigger] shares@[a]).spec_index() != (
                    #[trigger] shares@[b]).spec_index(),
                forall|b: int|
                    i < b < j ==> shares@[i as int].spec_index() != (
                    #[trigger] shares@[b]).spec_index(),
        {
            if shares[i].index() == shares[j].index() {
                return Err(SharingError::DuplicateShareIndex);
            }
        }
    }

    let ghost xs = share_points(shares@);
    let ghost ys = share_values(shares@);
    let ghost xi = int_seq(xs);
    let mut secret = Scalar::zero();

    for i in 0..t
        invariant
            t == threshold,
            t <= shares@.len(),
            xs == share_points(shares@),
            ys == share_values(shares@),
            xi == int_seq(xs),
            !has_duplicate_index(shares@, t as int),
            secret@ == interpolate_at_zero(xs, ys, t as int, i as int),
            forall|a: int, b: int|
                0 <= a < i && 0 <= b < t && a != b ==> #[trigger] invertible(xi[b] - xi[a]),
    {
        let x_i = Scalar::from_u64(shares[i].index());
        let mut lagrange_at_zero = Scalar::from_u64(1);

        for j in 0..t
            invariant
                t == threshold,
                t <= shares@.len(),
                i < t,
                xs == share_points(shares@),
                xi == int_seq(xs),
                !has_duplicate_index(shares@, t as int),
                x_i@ == xs[i as int],
                lagrange_at_zero@ == basis_at_zero(xs, i as int, j as int),
                forall|a: int, b: int|
                    0 <= a < i && 0 <= b < t && a != b ==> #[trigger] invertible(xi[b] - xi[a]),
                forall|b: int| 0 <= b < j && b != i ==> #[trigger] invertible(xi[b] - xi[i as int]),
        {
            if i != j {
                let x_j = Scalar::from_u64(shares[j].index());
                let denominator = scalar_sub(&x_j, &x_i);
                proof {
                    assert(xs[j as int] == shares@[j as int].spec_index());
                    if i < j {
                        assert(shares@[i as int].spec_index() != shares@[j as int].spec_index());
                    } else {
                        assert(shares@[j as int].spec_index() != shares@[i as int].spec_index());
                    }
                    lemma_small_difference_nonzero(xs[j as int] as int, xs[i as int] as int);
                }

                let inverse = match scalar_inverse(&denominator) {
                    Some(inverse) => inverse,
                    None => return Err(SharingError::NonInvertibleDenominator),
                };
                proof {
                    assert(xi[j as int] == xs[j as int] && xi[i as int] == xs[i as int]);
                    assert(invertible(xi[j as int] - xi[i as int]));
                }

                let term = scalar_mul(&x_j, &inverse);
                lagrange_at_zero = scalar_mul(&lagrange_at_zero, &term);
            }
        }

        let weighted = scalar_mul(&shares[i].value(), &lagrange_at_zero);
        secret = scalar_add(&secret, &weighted);
    }

    proof {
        let tt = t as int;
        let yi = int_seq(ys);
        assert(differences_invertible(xi, tt));
        lemma_interpolate_at_zero(xs, ys, tt, tt);
        assert forall|c: Seq<nat>|
            c.len() <= tt && #[trigger] on_polynomial(shares@, tt, c) implies secret@ == poly_eval(
            c,
            0,
        ) % group_order() by {
            let ci = int_seq(c);
            assert forall|k: int| 0 <= k < tt implies #[trigger] (yi[k] % modulus()) == peval(
                ci,
                xi[k],
            ) % modulus() by {
                let idx = shares@[k].spec_index() as nat;
                assert(xi[k] == idx);
                assert(yi[k] == shares@[k].spec_value()@);
                lemma_poly_eval_as_int(c, idx);
                lemma_mod_twice(poly_eval(c, idx) as int, modulus());
            }
            lemma_interpolation_exact(ci, xi, yi, tt, 0);
            lemma_poly_eval_as_int(c, 0);
        }
    }
    Ok(secret)
}

} // verus!
