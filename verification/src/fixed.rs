//! Fixed-point scalar arithmetic.
//!
//! A scalar is an `i64` mantissa denoting the real number `mantissa / SCALE`.
//! Multiplication and division round the ideal mantissa toward zero; the spec
//! functions `smul` and `sdiv` say exactly which integer comes back, so every
//! caller's contract can be stated without any appeal to real numbers.

use vstd::prelude::*;

verus! {

/// A mantissa `m` denotes the real value `m / SCALE`.
pub const SCALE: i64 = 65536;

/// Magnitude of a mathematical integer.
pub open spec fn mag(a: int) -> int {
    if a < 0 {
        -a
    } else {
        a
    }
}

/// Truncated (round-toward-zero) division: the semantics of machine division.
pub open spec fn tdiv(a: int, b: int) -> int
    recommends
        b != 0,
{
    if (a < 0) == (b < 0) {
        mag(a) / mag(b)
    } else {
        -(mag(a) / mag(b))
    }
}

/// Mantissa of the fixed-point product of mantissas `a` and `b`.
pub open spec fn smul(a: int, b: int) -> int {
    tdiv(a * b, SCALE as int)
}

/// Mantissa of the fixed-point quotient of mantissas `a` and `b`.
pub open spec fn sdiv(a: int, b: int) -> int
    recommends
        b != 0,
{
    tdiv(a * (SCALE as int), b)
}

/// Truncated division on `i128`: the shared kernel of the fixed-point
/// multiply and divide.
pub(crate) fn tdiv128(a: i128, b: i128) -> (r: i128)
    requires
        b != 0,
        a != i128::MIN,
        b != i128::MIN,
    ensures
        r == tdiv(a as int, b as int),
{
    let ua: u128 = if a < 0 {
        (-a) as u128
    } else {
        a as u128
    };
    let ub: u128 = if b < 0 {
        (-b) as u128
    } else {
        b as u128
    };
    let uq: u128 = ua / ub;
    proof {
        assert(ua == mag(a as int));
        assert(ub == mag(b as int));
        assert(uq == mag(a as int) / mag(b as int));
        assert(uq <= ua) by (nonlinear_arith)
            requires
                uq == ua / ub,
                ub >= 1,
        ;
    }
    let q: i128 = uq as i128;
    if (a < 0) != (b < 0) {
        -q
    } else {
        q
    }
}

/// Fixed-point multiply; the result mantissa is `smul` of the inputs.
pub fn fx_mul(a: i64, b: i64) -> (r: i64)
    requires
        i64::MIN <= smul(a as int, b as int) <= i64::MAX,
    ensures
        r == smul(a as int, b as int),
{
    proof {
        assert((a as int) * (b as int) <= 0x40000000000000000000000000000000
            && -0x40000000000000000000000000000000 <= (a as int) * (b as int))
            by (nonlinear_arith);
    }
    let p: i128 = (a as i128) * (b as i128);
    let q = tdiv128(p, SCALE as i128);
    q as i64
}

/// Fixed-point divide; the result mantissa is `sdiv` of the inputs.
pub fn fx_div(a: i64, b: i64) -> (r: i64)
    requires
        b != 0,
        i64::MIN <= sdiv(a as int, b as int) <= i64::MAX,
    ensures
        r == sdiv(a as int, b as int),
{
    let p: i128 = (a as i128) * (SCALE as i128);
    let q = tdiv128(p, b as i128);
    q as i64
}

/// Dividing by zero aside, a truncated quotient is no larger than `m`
/// whenever the dividend is at most `m` times the divisor.
pub proof fn lemma_tdiv_bound(a: int, b: int, m: int)
    requires
        b >= 1,
        m >= 0,
        mag(a) <= m * b,
    ensures
        mag(tdiv(a, b)) <= m,
{
    assert(mag(a) / mag(b) <= m) by (nonlinear_arith)
        requires
            b >= 1,
            m >= 0,
            mag(a) <= m * b,
            mag(a) >= 0,
            mag(b) == b,
    ;
}

/// Zero divided by anything nonzero is zero.
pub proof fn lemma_tdiv_zero(b: int)
    requires
        b != 0,
    ensures
        tdiv(0, b) == 0,
{
    assert(0int / mag(b) == 0) by (nonlinear_arith)
        requires
            mag(b) >= 1,
    ;
}

/// Multiplying and then truncated-dividing by the same positive integer is
/// the identity.
pub proof fn lemma_tdiv_mul_exact(a: int, b: int)
    requires
        b >= 1,
    ensures
        tdiv(a * b, b) == a,
{
    assert(mag(a * b) == mag(a) * b) by (nonlinear_arith)
        requires
            b >= 1,
    ;
    assert((mag(a) * b) / b == mag(a)) by (nonlinear_arith)
        requires
            b >= 1,
            mag(a) >= 0,
    ;
    if a < 0 {
        assert(a * b < 0) by (nonlinear_arith)
            requires
                a < 0,
                b >= 1,
        ;
    } else {
        assert(a * b >= 0) by (nonlinear_arith)
            requires
                a >= 0,
                b >= 1,
        ;
    }
}

/// A fixed-point product of mantissas bounded by `aa` and `bb` is bounded by
/// `aa * bb` (a coarse bound: the true one is `SCALE` times smaller).
pub proof fn lemma_smul_bound(a: int, b: int, aa: int, bb: int)
    requires
        mag(a) <= aa,
        mag(b) <= bb,
    ensures
        mag(smul(a, b)) <= aa * bb,
{
    assert(mag(a * b) == mag(a) * mag(b)) by (nonlinear_arith);
    assert(mag(a) * mag(b) <= aa * bb) by (nonlinear_arith)
        requires
            mag(a) <= aa,
            mag(b) <= bb,
            mag(a) >= 0,
            mag(b) >= 0,
    ;
    assert(mag(a * b) <= (aa * bb) * (SCALE as int)) by (nonlinear_arith)
        requires
            mag(a * b) <= aa * bb,
    ;
    lemma_tdiv_bound(a * b, SCALE as int, aa * bb);
}

/// The magnitude of a product is bounded by the product of the bounds.
pub proof fn lemma_mul_mag(a: int, b: int, aa: int, bb: int)
    requires
        mag(a) <= aa,
        mag(b) <= bb,
    ensures
        mag(a * b) <= aa * bb,
{
    assert(mag(a * b) == mag(a) * mag(b)) by (nonlinear_arith);
    assert(mag(a) * mag(b) <= aa * bb) by (nonlinear_arith)
        requires
            mag(a) <= aa,
            mag(b) <= bb,
            mag(a) >= 0,
            mag(b) >= 0,
    ;
}

/// Tight form of the product bound: the fixed-point product of mantissas
/// bounded by `aa` and `bb` is bounded by any `m` with `aa * bb <= m * SCALE`.
pub proof fn lemma_smul_tight(a: int, b: int, aa: int, bb: int, m: int)
    requires
        mag(a) <= aa,
        mag(b) <= bb,
        m >= 0,
        aa * bb <= m * (SCALE as int),
    ensures
        mag(smul(a, b)) <= m,
{
    lemma_mul_mag(a, b, aa, bb);
    lemma_tdiv_bound(a * b, SCALE as int, m);
}

/// A fixed-point quotient is bounded by `SCALE` times the dividend's bound.
pub proof fn lemma_sdiv_bound(a: int, b: int, aa: int)
    requires
        b != 0,
        mag(a) <= aa,
    ensures
        mag(sdiv(a, b)) <= aa * (SCALE as int),
{
    assert(mag(a * (SCALE as int)) == mag(a) * (SCALE as int)) by (nonlinear_arith);
    assert(mag(a) * (SCALE as int) <= aa * (SCALE as int)) by (nonlinear_arith)
        requires
            mag(a) <= aa,
    ;
    if b > 0 {
        assert(mag(a * (SCALE as int)) <= (aa * (SCALE as int)) * b) by (nonlinear_arith)
            requires
                b >= 1,
                mag(a * (SCALE as int)) <= aa * (SCALE as int),
                mag(a * (SCALE as int)) >= 0,
        ;
        lemma_tdiv_bound(a * (SCALE as int), b, aa * (SCALE as int));
    } else {
        assert(mag(a * (SCALE as int)) <= (aa * (SCALE as int)) * (-b)) by (nonlinear_arith)
            requires
                -b >= 1,
                mag(a * (SCALE as int)) <= aa * (SCALE as int),
                mag(a * (SCALE as int)) >= 0,
        ;
        lemma_tdiv_bound(a * (SCALE as int), -b, aa * (SCALE as int));
        assert(tdiv(a * (SCALE as int), b) == -tdiv(a * (SCALE as int), -b));
    }
}

/// Floor of the square root of a nonnegative integer.
pub open spec fn sqrt_floor(n: int) -> int
    decreases n,
{
    if n <= 0 {
        0
    } else {
        let p = sqrt_floor(n - 1);
        if (p + 1) * (p + 1) <= n {
            p + 1
        } else {
            p
        }
    }
}

/// `sqrt_floor(n)` really is the floor of the square root of `n`.
pub proof fn lemma_sqrt_floor_bounds(n: int)
    requires
        n >= 0,
    ensures
        sqrt_floor(n) >= 0,
        sqrt_floor(n) * sqrt_floor(n) <= n,
        n < (sqrt_floor(n) + 1) * (sqrt_floor(n) + 1),
    decreases n,
{
    if n == 0 {
        assert(sqrt_floor(0) == 0);
    } else {
        lemma_sqrt_floor_bounds(n - 1);
        let p = sqrt_floor(n - 1);
        if (p + 1) * (p + 1) <= n {
            assert(sqrt_floor(n) == p + 1);
            assert(n - 1 < (p + 1) * (p + 1));
            assert(n < (p + 2) * (p + 2)) by (nonlinear_arith)
                requires
                    p >= 0,
                    n <= (p + 1) * (p + 1),
            ;
        } else {
            assert(sqrt_floor(n) == p);
        }
    }
}

/// A nonnegative integer whose square brackets `n` is `sqrt_floor(n)`.
pub proof fn lemma_sqrt_floor_unique(n: int, r: int)
    requires
        n >= 0,
        r >= 0,
        r * r <= n,
        n < (r + 1) * (r + 1),
    ensures
        r == sqrt_floor(n),
{
    lemma_sqrt_floor_bounds(n);
    let s = sqrt_floor(n);
    if r < s {
        assert(false) by (nonlinear_arith)
            requires
                r >= 0,
                s >= 0,
                r < s,
                s * s <= n,
                n < (r + 1) * (r + 1),
        ;
    } else if s < r {
        assert(false) by (nonlinear_arith)
            requires
                r >= 0,
                s >= 0,
                s < r,
                r * r <= n,
                n < (s + 1) * (s + 1),
        ;
    }
}

/// Integer square root by bisection.
pub fn isqrt128(n: u128) -> (r: u128)
    requires
        n < 0x4000000000000000000,
    ensures
        r == sqrt_floor(n as int),
{
    let mut lo: u128 = 0;
    let mut hi: u128 = 0x2000000000;
    while lo + 1 < hi
        invariant
            lo < hi,
            hi <= 0x2000000000,
            lo * lo <= n,
            (n as int) < (hi as int) * (hi as int),
        decreases hi - lo,
    {
        let mid = lo + (hi - lo) / 2;
        proof {
            assert((mid as int) * (mid as int) <= 0x4000000000000000000) by (nonlinear_arith)
                requires
                    mid <= 0x2000000000,
            ;
        }
        if mid * mid <= n {
            lo = mid;
        } else {
            hi = mid;
        }
    }
    proof {
        lemma_sqrt_floor_unique(n as int, lo as int);
    }
    lo
}

} // verus!
