//! Fixed-point scalar arithmetic.
//!
//! A scalar is an `i128` holding the real value times `SCALE`. Multiplication,
//! division and square root round toward zero, and each executable operation
//! is proved equal to its spec-level definition.

use vstd::prelude::*;

verus! {

/// The fixed-point denominator: the integer `v` stands for `v / SCALE`.
pub const SCALE: i128 = 1_000_000;

/// Absolute value of a mathematical integer.
pub open spec fn iabs(a: int) -> int {
    if a >= 0 {
        a
    } else {
        -a
    }
}

/// Division rounding toward zero (the rounding of Rust's `/` on machine
/// integers), defined for `b != 0`.
pub open spec fn tdiv_spec(a: int, b: int) -> int {
    let q = iabs(a) / iabs(b);
    if (a >= 0) == (b >= 0) {
        q
    } else {
        -q
    }
}

/// Fixed-point product: `(a * b) / SCALE`, rounded toward zero.
pub open spec fn fx_mul_spec(a: int, b: int) -> int {
    tdiv_spec(a * b, SCALE as int)
}

/// Fixed-point quotient: `(a * SCALE) / b`, rounded toward zero.
pub open spec fn fx_div_spec(a: int, b: int) -> int {
    tdiv_spec(a * (SCALE as int), b)
}

/// The integer square root: the greatest `r` with `r * r <= n`.
pub open spec fn isqrt_spec(n: nat) -> nat
    decreases n,
{
    if n == 0 {
        0
    } else {
        let r = isqrt_spec((n - 1) as nat);
        if (r + 1) * (r + 1) <= n {
            r + 1
        } else {
            r
        }
    }
}

/// Fixed-point square root of a nonnegative scalar: since `a` stands for
/// `a / SCALE`, its root is `isqrt(a * SCALE) / SCALE`.
pub open spec fn fx_sqrt_spec(a: int) -> int {
    isqrt_spec((a * (SCALE as int)) as nat) as int
}

/// `isqrt_spec(n)` is the floor of the square root of `n`.
pub proof fn lemma_isqrt_bounds(n: nat)
    ensures
        isqrt_spec(n) * isqrt_spec(n) <= n,
        n < (isqrt_spec(n) + 1) * (isqrt_spec(n) + 1),
    decreases n,
{
    if n == 0 {
        assert(isqrt_spec(n) == 0);
        assert(n < (isqrt_spec(n) + 1) * (isqrt_spec(n) + 1)) by (nonlinear_arith)
            requires
                n == 0,
                isqrt_spec(n) == 0,
        ;
    } else {
        let r = isqrt_spec((n - 1) as nat);
        lemma_isqrt_bounds((n - 1) as nat);
        assert(r * r <= n - 1);
        assert(n - 1 < (r + 1) * (r + 1));
        if (r + 1) * (r + 1) <= n {
            assert(isqrt_spec(n) == r + 1);
            assert(n == (r + 1) * (r + 1));
            assert(((r + 1) + 1) * ((r + 1) + 1) > (r + 1) * (r + 1)) by (nonlinear_arith);
        } else {
            assert(isqrt_spec(n) == r);
            assert(r * r <= n);
            assert(n < (r + 1) * (r + 1));
        }
        assert(isqrt_spec(n) * isqrt_spec(n) <= n);
        assert(n < (isqrt_spec(n) + 1) * (isqrt_spec(n) + 1));
    }
}

/// Any `q` with `q * q <= n < (q + 1) * (q + 1)` is `isqrt_spec(n)`.
pub proof fn lemma_isqrt_unique(n: nat, q: nat)
    requires
        q * q <= n,
        n < (q + 1) * (q + 1),
    ensures
        q == isqrt_spec(n),
{
    let r = isqrt_spec(n);
    lemma_isqrt_bounds(n);
    if q < r {
        assert((q + 1) * (q + 1) <= r * r) by (nonlinear_arith)
            requires
                q + 1 <= r,
        ;
    }
    if r < q {
        assert((r + 1) * (r + 1) <= q * q) by (nonlinear_arith)
            requires
                r + 1 <= q,
        ;
    }
}

/// The magnitude of a truncating quotient is at most the quotient of the
/// magnitudes, and never exceeds the magnitude of the dividend.
pub proof fn lemma_tdiv_abs(a: int, b: int)
    requires
        b != 0,
    ensures
        iabs(tdiv_spec(a, b)) == iabs(a) / iabs(b),
        iabs(tdiv_spec(a, b)) <= iabs(a),
{
    vstd::arithmetic::div_mod::lemma_div_is_ordered_by_denominator(iabs(a), 1, iabs(b));
    vstd::arithmetic::div_mod::lemma_div_basics(iabs(a));
}

/// Truncating quotients grow with the magnitude of the dividend.
pub proof fn lemma_div_abs_ordered(x: int, y: int, d: int)
    requires
        0 <= x <= y,
        0 < d,
    ensures
        x / d <= y / d,
{
    vstd::arithmetic::div_mod::lemma_div_is_ordered(x, y, d);
}

/// Magnitude bounds of the factors bound the magnitude of a fixed-point
/// product.
pub proof fn lemma_fx_mul_bound(a: int, b: int, aa: int, bb: int)
    requires
        iabs(a) <= aa,
        iabs(b) <= bb,
    ensures
        iabs(a * b) <= aa * bb,
        iabs(fx_mul_spec(a, b)) <= aa * bb / (SCALE as int),
        iabs(fx_mul_spec(a, b)) <= aa * bb,
{
    assert(iabs(a * b) <= aa * bb) by (nonlinear_arith)
        requires
            iabs(a) <= aa,
            iabs(b) <= bb,
    ;
    lemma_tdiv_abs(a * b, SCALE as int);
    lemma_div_abs_ordered(iabs(a * b), aa * bb, SCALE as int);
    vstd::arithmetic::div_mod::lemma_div_is_ordered_by_denominator(aa * bb, 1, SCALE as int);
    vstd::arithmetic::div_mod::lemma_div_basics(aa * bb);
}

/// A magnitude bound on the dividend and a lower bound on the divisor bound
/// the magnitude of a fixed-point quotient.
pub proof fn lemma_fx_div_bound(a: int, b: int, aa: int, d: int)
    requires
        iabs(a) <= aa,
        iabs(b) >= d,
        d >= 1,
    ensures
        iabs(fx_div_spec(a, b)) <= aa * (SCALE as int) / d,
        iabs(fx_div_spec(a, b)) <= aa * (SCALE as int),
{
    assert(iabs(a * (SCALE as int)) == iabs(a) * (SCALE as int)) by (nonlinear_arith);
    assert(iabs(a) * (SCALE as int) <= aa * (SCALE as int)) by (nonlinear_arith)
        requires
            iabs(a) <= aa,
    ;
    lemma_tdiv_abs(a * (SCALE as int), b);
    vstd::arithmetic::div_mod::lemma_div_is_ordered_by_denominator(
        iabs(a * (SCALE as int)),
        d,
        iabs(b),
    );
    lemma_div_abs_ordered(iabs(a * (SCALE as int)), aa * (SCALE as int), d);
    vstd::arithmetic::div_mod::lemma_div_is_ordered_by_denominator(aa * (SCALE as int), 1, d);
    vstd::arithmetic::div_mod::lemma_div_basics(aa * (SCALE as int));
}

/// Truncating division by a positive divisor is monotone in the dividend.
pub proof fn lemma_tdiv_monotone(x: int, y: int, d: int)
    requires
        x <= y,
        d >= 1,
    ensures
        tdiv_spec(x, d) <= tdiv_spec(y, d),
{
    if x >= 0 {
        vstd::arithmetic::div_mod::lemma_div_is_ordered(x, y, d);
    } else if y >= 0 {
        vstd::arithmetic::div_mod::lemma_div_pos_is_pos(-x, d);
        vstd::arithmetic::div_mod::lemma_div_pos_is_pos(y, d);
    } else {
        vstd::arithmetic::div_mod::lemma_div_is_ordered(-y, -x, d);
    }
}

/// For a nonnegative dividend the truncating quotient brackets it:
/// `d * q <= x < d * q + d`.
pub proof fn lemma_tdiv_nonneg_bounds(x: int, d: int)
    requires
        x >= 0,
        d >= 1,
    ensures
        tdiv_spec(x, d) >= 0,
        d * tdiv_spec(x, d) <= x,
        x < d * tdiv_spec(x, d) + d,
{
    vstd::arithmetic::div_mod::lemma_remainder(x, d);
    vstd::arithmetic::div_mod::lemma_div_pos_is_pos(x, d);
    assert(x / d * d == d * (x / d)) by (nonlinear_arith);
}

/// Zero divided by anything nonzero is zero.
pub proof fn lemma_tdiv_zero(d: int)
    requires
        d != 0,
    ensures
        tdiv_spec(0, d) == 0,
{
    vstd::arithmetic::div_mod::lemma_div_basics(iabs(d));
}

/// A zero factor gives a zero fixed-point product.
pub proof fn lemma_fx_mul_zero(x: int)
    ensures
        fx_mul_spec(0, x) == 0,
        fx_mul_spec(x, 0) == 0,
{
    assert(0 * x == 0) by (nonlinear_arith);
    assert(x * 0 == 0) by (nonlinear_arith);
    lemma_tdiv_zero(SCALE as int);
}

/// Dividing an exact multiple of the divisor is exact.
pub proof fn lemma_tdiv_exact(q: int, d: int)
    requires
        d >= 1,
        q >= 0,
    ensures
        tdiv_spec(q * d, d) == q,
{
    assert(q * d >= 0) by (nonlinear_arith)
        requires
            q >= 0,
            d >= 1,
    ;
    assert(q * d == d * q) by (nonlinear_arith);
    vstd::arithmetic::div_mod::lemma_div_multiples_vanish(q, d);
}

/// Truncating division commutes with negation of the dividend.
pub proof fn lemma_tdiv_neg(a: int, b: int)
    requires
        b != 0,
    ensures
        tdiv_spec(-a, b) == -tdiv_spec(a, b),
{
}

/// Multiplying by the fixed-point unit is the identity.
pub proof fn lemma_fx_mul_one(x: int)
    ensures
        fx_mul_spec(SCALE as int, x) == x,
        fx_mul_spec(x, SCALE as int) == x,
{
    assert((SCALE as int) * x == x * (SCALE as int)) by (nonlinear_arith);
    assert(iabs(x * (SCALE as int)) == iabs(x) * (SCALE as int)) by (nonlinear_arith);
    vstd::arithmetic::div_mod::lemma_div_multiples_vanish(iabs(x), SCALE as int);
    assert((iabs(x) * (SCALE as int)) / (SCALE as int) == iabs(x));
}

/// An upper bound `s * s` on `n` gives the upper bound `s` on its root.
pub proof fn lemma_isqrt_le(n: nat, s: nat)
    requires
        n <= s * s,
    ensures
        isqrt_spec(n) <= s,
{
    let r = isqrt_spec(n);
    lemma_isqrt_bounds(n);
    if r > s {
        assert(s * s < r * r) by (nonlinear_arith)
            requires
                s < r,
        ;
    }
}

/// The root of a nonnegative scalar is nonnegative, and bounded by any `s`
/// whose square dominates `a * SCALE`.
pub proof fn lemma_fx_sqrt_bound(a: int, s: int)
    requires
        0 <= a,
        0 <= s,
        a * (SCALE as int) <= s * s,
    ensures
        0 <= fx_sqrt_spec(a) <= s,
{
    lemma_isqrt_le((a * (SCALE as int)) as nat, s as nat);
}

/// Exact truncating division on machine integers.
pub fn tdiv(a: i128, b: i128) -> (q: i128)
    requires
        b != 0,
        a != i128::MIN,
        b != i128::MIN,
    ensures
        q == tdiv_spec(a as int, b as int),
{
    let na: u128 = if a >= 0 {
        a as u128
    } else {
        (-a) as u128
    };
    let nb: u128 = if b >= 0 {
        b as u128
    } else {
        (-b) as u128
    };
    assert(na as int == iabs(a as int));
    assert(nb as int == iabs(b as int));
    let nq: u128 = na / nb;
    proof {
        lemma_tdiv_abs(a as int, b as int);
    }
    if (a >= 0) == (b >= 0) {
        nq as i128
    } else {
        -(nq as i128)
    }
}

/// Exact fixed-point multiplication.
pub fn fx_mul(a: i128, b: i128) -> (r: i128)
    requires
        -(i128::MAX as int) <= a * b <= i128::MAX as int,
    ensures
        r == fx_mul_spec(a as int, b as int),
        iabs(r as int) <= iabs(a * b),
{
    proof {
        lemma_tdiv_abs(a * b, SCALE as int);
    }
    tdiv(a * b, SCALE)
}

/// Exact fixed-point division; `b` must be nonzero.
pub fn fx_div(a: i128, b: i128) -> (r: i128)
    requires
        b != 0,
        b != i128::MIN,
        -(i128::MAX as int) <= a * (SCALE as int) <= i128::MAX as int,
    ensures
        r == fx_div_spec(a as int, b as int),
{
    tdiv(a * SCALE, b)
}

/// The integer square root of a `u128`, by bisection.
pub fn isqrt(n: u128) -> (r: u128)
    ensures
        r as nat == isqrt_spec(n as nat),
        r < 0x1_0000_0000_0000_0000,
{
    let mut lo: u128 = 0;
    let mut hi: u128 = 0x1_0000_0000_0000_0000;
    proof {
        assert((hi as int) * (hi as int) > n as int) by (nonlinear_arith)
            requires
                hi == 0x1_0000_0000_0000_0000u128,
                n <= u128::MAX,
        ;
    }
    while lo + 1 < hi
        invariant
            lo < hi <= 0x1_0000_0000_0000_0000,
            (lo as int) * (lo as int) <= n as int,
            (hi as int) * (hi as int) > n as int,
        decreases hi - lo,
    {
        let mid: u128 = lo + (hi - lo) / 2;
        assert(lo < mid < hi);
        assert(mid * mid <= u128::MAX) by (nonlinear_arith)
            requires
                mid < 0x1_0000_0000_0000_0000u128,
        ;
        if mid * mid <= n {
            lo = mid;
        } else {
            hi = mid;
        }
    }
    proof {
        lemma_isqrt_unique(n as nat, lo as nat);
    }
    lo
}

/// Exact fixed-point square root of a nonnegative scalar.
pub fn fx_sqrt(a: i128) -> (r: i128)
    requires
        0 <= a,
        a * (SCALE as int) <= i128::MAX as int,
    ensures
        r == fx_sqrt_spec(a as int),
        0 <= r < 0x1_0000_0000_0000_0000,
{
    let m: u128 = (a as u128) * (SCALE as u128);
    let s = isqrt(m);
    s as i128
}

} // verus!
