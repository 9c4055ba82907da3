//! Fixed-point helpers.
//!
//! A fixed-point value `v` stands for the rational number `v / ONE`.

use vstd::prelude::*;

verus! {

/// The fixed-point unit: fourteen fractional bits.
pub const ONE: i64 = 16384;

/// Quotient of `a` by a positive `b`, rounded toward zero.
pub open spec fn trunc_div(a: int, b: int) -> int {
    if a >= 0 {
        a / b
    } else {
        -((-a) / b)
    }
}

/// `r` is the integer square root of `n`: the largest integer whose square
/// does not exceed `n`.
pub open spec fn is_sqrt_floor(n: int, r: int) -> bool {
    0 <= r && r * r <= n < (r + 1) * (r + 1)
}

/// Rounding toward zero never moves a quotient away from zero, and it stays
/// within one unit of the exact quotient.
pub proof fn lemma_trunc_div_bounds(a: int, b: int)
    requires
        b > 0,
    ensures
        a >= 0 ==> 0 <= trunc_div(a, b) * b <= a < (trunc_div(a, b) + 1) * b,
        a <= 0 ==> (trunc_div(a, b) - 1) * b < a <= trunc_div(a, b) * b <= 0,
{
    let n = if a >= 0 {
        a
    } else {
        -a
    };
    let q = n / b;
    vstd::arithmetic::div_mod::lemma_fundamental_div_mod(n, b);
    vstd::arithmetic::div_mod::lemma_mod_bound(n, b);
    vstd::arithmetic::div_mod::lemma_div_pos_is_pos(n, b);
    assert(q * b == b * q && (q + 1) * b == b * q + b && (-q) * b == -(b * q) && (-q - 1) * b == -(
    b * q) - b) by (nonlinear_arith);
    assert(0 <= b * q) by (nonlinear_arith)
        requires
            0 <= q,
            b > 0,
    ;
}

/// A quotient rounded toward zero stays between integer bounds on the exact
/// quotient: if `lo * b <= a <= hi * b` then `lo <= trunc_div(a, b) <= hi`.
pub proof fn lemma_trunc_div_between(a: int, b: int, lo: int, hi: int)
    requires
        b > 0,
        lo * b <= a <= hi * b,
    ensures
        lo <= trunc_div(a, b) <= hi,
{
    lemma_trunc_div_bounds(a, b);
    let q = trunc_div(a, b);
    if q > hi {
        vstd::arithmetic::mul::lemma_mul_inequality(hi + 1, q, b);
        vstd::arithmetic::mul::lemma_mul_inequality(hi, q - 1, b);
        assert((hi + 1) * b == hi * b + b) by (nonlinear_arith);
    }
    if lo > q {
        vstd::arithmetic::mul::lemma_mul_inequality(q + 1, lo, b);
        vstd::arithmetic::mul::lemma_mul_inequality(q, lo - 1, b);
        assert((lo - 1) * b == lo * b - b) by (nonlinear_arith);
    }
}

/// Divides by a positive number, rounding toward zero.
pub fn div_toward_zero(a: i64, b: i64) -> (q: i64)
    requires
        b > 0,
    ensures
        q == trunc_div(a as int, b as int),
{
    a / b
}

/// A number has at most one integer square root.
pub proof fn lemma_sqrt_floor_unique(n: int, a: int, b: int)
    requires
        is_sqrt_floor(n, a),
        is_sqrt_floor(n, b),
    ensures
        a == b,
{
    if a < b {
        assert((a + 1) * (a + 1) <= b * b) by (nonlinear_arith)
            requires
                0 <= a + 1 <= b,
        ;
    }
    if b < a {
        assert((b + 1) * (b + 1) <= a * a) by (nonlinear_arith)
            requires
                0 <= b + 1 <= a,
        ;
    }
}

/// The integer square root of `n`, for `n` that is not negative.
pub open spec fn sqrt_floor(n: int) -> int {
    choose|r: int| is_sqrt_floor(n, r)
}

/// Integer square root.
pub fn isqrt(n: u64) -> (r: u64)
    ensures
        is_sqrt_floor(n as int, r as int),
        r == sqrt_floor(n as int),
        r <= 4294967295,
{
    let mut lo: u64 = 0;
    let mut hi: u64 = 4294967296;
    while hi - lo > 1
        invariant
            lo < hi <= 4294967296,
            lo * lo <= n,
            n < hi * hi,
        decreases hi - lo,
    {
        let mid: u64 = lo + (hi - lo) / 2;
        assert(mid * mid <= 4294967295 * 4294967295) by (nonlinear_arith)
            requires
                mid <= 4294967295,
        ;
        if mid * mid <= n {
            lo = mid;
        } else {
            hi = mid;
        }
    }
    proof {
        lemma_sqrt_floor_unique(n as int, lo as int, sqrt_floor(n as int));
    }
    lo
}

} // verus!
