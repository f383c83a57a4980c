//! Small, checked modular-arithmetic helpers for the lattice prototype.
//!
//! These functions are not constant-time.

use vstd::prelude::*;

verus! {

/// The canonical representative of `value` modulo a positive `modulus`.
pub open spec fn spec_mod(value: int, modulus: int) -> int {
    value % modulus
}

/// The centered representative of `value` modulo a positive `modulus`:
/// residues above `modulus / 2` are shifted down by one modulus.
pub open spec fn spec_centered(value: int, modulus: int) -> int {
    let reduced = value % modulus;
    if reduced > modulus / 2 {
        reduced - modulus
    } else {
        reduced
    }
}

/// The sum of the first `n` coordinate products of `left` and `right`.
pub open spec fn dot_prefix(left: Seq<i64>, right: Seq<i64>, n: int) -> int
    decreases n,
{
    if n <= 0 {
        0
    } else {
        dot_prefix(left, right, n - 1) + left[n - 1] * right[n - 1]
    }
}

/// The integer inner product of two equal-length vectors.
pub open spec fn dot(left: Seq<i64>, right: Seq<i64>) -> int {
    dot_prefix(left, right, left.len() as int)
}

pub open spec fn fits_i64(x: int) -> bool {
    i64::MIN <= x <= i64::MAX
}

/// The `k`-th product and running sum of the inner product fit in `i64`.
pub open spec fn dot_step_fits(left: Seq<i64>, right: Seq<i64>, k: int) -> bool {
    fits_i64(left[k - 1] * right[k - 1]) && fits_i64(dot_prefix(left, right, k))
}

/// Every product and every running sum of the inner product fits in `i64`.
pub open spec fn dot_fits(left: Seq<i64>, right: Seq<i64>) -> bool {
    forall|k: int| 1 <= k <= left.len() ==> #[trigger] dot_step_fits(left, right, k)
}

/// Every coordinate sum of two vectors fits in `i64`.
pub open spec fn sum_fits(left: Seq<i64>, right: Seq<i64>) -> bool {
    forall|k: int| 0 <= k < left.len() ==> fits_i64(#[trigger] left[k] + right[k])
}

/// Returns `value mod modulus` as a canonical representative in `[0, modulus)`.
pub fn mod_q(value: i64, modulus: i64) -> (r: i64)
    requires
        modulus > 0,
    ensures
        r == spec_mod(value as int, modulus as int),
        0 <= r < modulus,
{
    value.checked_rem_euclid(modulus).unwrap()
}

/// Maps a value modulo `modulus` to its centered representative.
///
/// For an odd modulus `q`, the result lies in `[-floor(q/2), floor(q/2)]`.
pub fn centered_mod_q(value: i64, modulus: i64) -> (r: i64)
    requires
        modulus > 0,
    ensures
        r == spec_centered(value as int, modulus as int),
        -(modulus / 2) <= r <= modulus / 2,
{
    let reduced = mod_q(value, modulus);
    let half = modulus / 2;

    if reduced > half {
        reduced - modulus
    } else {
        reduced
    }
}

/// Adds equal-length vectors coordinate-wise modulo `modulus`.
pub fn add_vec_mod_q(left: &[i64], right: &[i64], modulus: i64) -> (r: Vec<i64>)
    requires
        left@.len() == right@.len(),
        modulus > 0,
        sum_fits(left@, right@),
    ensures
        r@.len() == left@.len(),
        forall|k: int|
            0 <= k < r@.len() ==> #[trigger] r@[k] == spec_mod(
                left@[k] + right@[k],
                modulus as int,
            ) && 0 <= r@[k] < modulus,
{
    let mut result: Vec<i64> = Vec::new();
    let n = left.len();
    for i in 0..n
        invariant
            n == left@.len(),
            n == right@.len(),
            modulus > 0,
            sum_fits(left@, right@),
            result@.len() == i,
            forall|k: int|
                0 <= k < i ==> #[trigger] result@[k] == spec_mod(
                    left@[k] + right@[k],
                    modulus as int,
                ) && 0 <= result@[k] < modulus,
    {
        assert(fits_i64(left@[i as int] + right@[i as int]));
        result.push(mod_q(left[i] + right[i], modulus));
    }
    result
}

/// Computes the inner product of two equal-length vectors modulo `modulus`.
pub fn dot_product_mod_q(left: &[i64], right: &[i64], modulus: i64) -> (r: i64)
    requires
        modulus > 0,
        left@.len() == right@.len(),
        dot_fits(left@, right@),
    ensures
        r == spec_mod(dot(left@, right@), modulus as int),
        0 <= r < modulus,
{
    let n = left.len();
    let mut sum: i64 = 0;
    for i in 0..n
        invariant
            n == left@.len(),
            n == right@.len(),
            dot_fits(left@, right@),
            sum == dot_prefix(left@, right@, i as int),
    {
        assert(dot_step_fits(left@, right@, i + 1));
        sum = sum + left[i] * right[i];
    }
    mod_q(sum, modulus)
}

/// Computes `matrix * vector` modulo `modulus`, the matrix given by rows.
pub fn matrix_vector_mul_mod_q(matrix: &[Vec<i64>], vector: &[i64], modulus: i64) -> (r: Vec<i64>)
    requires
        modulus > 0,
        matrix@.len() > 0,
        forall|k: int|
            0 <= k < matrix@.len() ==> (#[trigger] matrix@[k])@.len() == vector@.len()
                && dot_fits(matrix@[k]@, vector@),
    ensures
        r@.len() == matrix@.len(),
        forall|k: int|
            0 <= k < r@.len() ==> #[trigger] r@[k] == spec_mod(
                dot(matrix@[k]@, vector@),
                modulus as int,
            ),
{
    let mut result: Vec<i64> = Vec::new();
    let n = matrix.len();
    for i in 0..n
        invariant
            n == matrix@.len(),
            modulus > 0,
            forall|k: int|
                0 <= k < matrix@.len() ==> (#[trigger] matrix@[k])@.len() == vector@.len()
                    && dot_fits(matrix@[k]@, vector@),
            result@.len() == i,
            forall|k: int|
                0 <= k < i ==> #[trigger] result@[k] == spec_mod(
                    dot(matrix@[k]@, vector@),
                    modulus as int,
                ),
    {
        let row = &matrix[i];
        assert(row@.len() == vector@.len() && dot_fits(row@, vector@));
        result.push(dot_product_mod_q(row.as_slice(), vector, modulus));
    }
    result
}

} // verus!
