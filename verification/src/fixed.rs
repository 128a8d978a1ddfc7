use vstd::prelude::*;
use vstd::arithmetic::div_mod::{lemma_div_basics_4, lemma_div_basics_5};

verus! {

/// The filter coefficient is carried as a Q30 fixed-point number:
/// a stored value `k` stands for the real number `k / SCALE`.
/// `SCALE` is `2^30`, so the coefficient range `[-2, 2]` of
/// `2 * cos(theta)` fits comfortably in an `i64`.
pub const SCALE: i64 = 0x4000_0000;

/// Division rounding toward zero, the rounding Rust's `/` performs on
/// signed integers. Spec-level `/` on `int` is Euclidean, so the
/// negative case is spelled out explicitly.
pub open spec fn tdiv(a: int, b: int) -> int {
    if a >= 0 {
        a / b
    } else {
        -((-a) / b)
    }
}

/// A product of bounded factors is bounded by the product of the bounds.
pub proof fn lemma_mul_bound(a: int, b: int, m: int, n: int)
    by (nonlinear_arith)
    requires
        -m <= a <= m,
        -n <= b <= n,
    ensures
        -(m * n) <= a * b <= m * n,
{
}

/// The magnitude of a truncating quotient never exceeds the magnitude
/// of the dividend (for a positive divisor).
pub proof fn lemma_tdiv_bound(a: int, b: int, m: int)
    requires
        b > 0,
        -m <= a <= m,
    ensures
        -m <= tdiv(a, b) <= m,
{
    if a >= 0 {
        lemma_div_basics_4(a, b);
        lemma_div_basics_5(a, b);
    } else {
        lemma_div_basics_4(-a, b);
        lemma_div_basics_5(-a, b);
    }
}

/// Drop the extra `SCALE` factor a product picks up when one operand
/// is a Q30 fixed-point value, rounding toward zero.
pub fn descale(a: i128) -> (r: i128)
    ensures
        r == tdiv(a as int, SCALE as int),
{
    proof {
        lemma_tdiv_bound(a as int, SCALE as int, if a >= 0 { a as int } else { -(a as int) });
        lemma_div_basics_4(0, SCALE as int);
        lemma_div_basics_5(0, SCALE as int);
    }
    match a.checked_div(SCALE as i128) {
        Some(q) => q,
        None => vstd::pervasive::unreached(),
    }
}

} // verus!
