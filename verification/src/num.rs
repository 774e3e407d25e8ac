//! Fixed-point numeric foundation: the global scale, truncating division as
//! the hardware performs it, and an exact integer square root.

use vstd::arithmetic::div_mod::{lemma_fundamental_div_mod, lemma_fundamental_div_mod_converse};
use vstd::prelude::*;

verus! {

/// Number of integer units per world unit: all coordinates, translations and
/// tolerances in this crate are integers counted in millionths.
pub const SCALE: i64 = 1_000_000;

/// Absolute value over mathematical integers.
pub open spec fn abs_i(x: int) -> int {
    if x < 0 {
        -x
    } else {
        x
    }
}

/// Division truncating toward zero, the semantics of `i64::checked_div`.
pub open spec fn div_trunc(x: int, d: int) -> int
    recommends
        d != 0,
{
    if x == 0 {
        0
    } else if x > 0 && d > 0 {
        x / d
    } else if x < 0 && d < 0 {
        (x * -1) / (d * -1)
    } else if x < 0 {
        ((x * -1) / d) * -1
    } else {
        (x / (d * -1)) * -1
    }
}

/// Truncating division never increases magnitude when the divisor is at
/// least one, and the quotient of a bounded dividend is bounded by the
/// divided bound.
pub proof fn lemma_div_trunc_bound(x: int, d: int, m: int)
    requires
        d >= 1,
        abs_i(x) <= m,
    ensures
        abs_i(div_trunc(x, d)) <= m / d,
        abs_i(div_trunc(x, d)) <= m,
{
    let ax = abs_i(x);
    assert(ax >= 0);
    lemma_fundamental_div_mod(ax, d);
    lemma_fundamental_div_mod(m, d);
    assert(ax / d >= 0) by (nonlinear_arith)
        requires
            ax >= 0,
            d >= 1,
            ax == d * (ax / d) + ax % d,
            0 <= ax % d < d,
    ;
    assert(ax / d <= m / d) by (nonlinear_arith)
        requires
            0 <= ax <= m,
            d >= 1,
            ax == d * (ax / d) + ax % d,
            0 <= ax % d < d,
            m == d * (m / d) + m % d,
            0 <= m % d < d,
    ;
    assert(m / d <= m) by (nonlinear_arith)
        requires
            m >= 0,
            d >= 1,
            m == d * (m / d) + m % d,
            0 <= m % d < d,
            m / d >= 0,
    ;
    assert(d * (ax / d) <= ax) by (nonlinear_arith)
        requires
            ax >= 0,
            d >= 1,
            ax == d * (ax / d) + ax % d,
            0 <= ax % d < d,
    ;
    if x == 0 {
    } else if x > 0 {
        assert(div_trunc(x, d) == ax / d);
    } else {
        assert(div_trunc(x, d) == (ax / d) * -1);
    }
}

/// Exact truncating division for `i64` values; wraps `checked_div`, whose
/// result vstd specifies with exactly the `div_trunc` case split.
pub fn div_exec(x: i64, d: i64) -> (q: i64)
    requires
        d >= 1,
    ensures
        q == div_trunc(x as int, d as int),
        abs_i(q as int) <= abs_i(x as int),
{
    proof {
        lemma_div_trunc_bound(x as int, d as int, abs_i(x as int));
    }
    x.checked_div(d).unwrap()
}

/// Dividing an exact multiple recovers the factor.
pub proof fn lemma_div_trunc_exact(k: int, d: int)
    requires
        d >= 1,
    ensures
        div_trunc(k * d, d) == k,
{
    if k == 0 {
        assert(k * d == 0) by (nonlinear_arith)
            requires
                k == 0,
        ;
    } else if k > 0 {
        assert(k * d > 0) by (nonlinear_arith)
            requires
                k > 0,
                d >= 1,
        ;
        lemma_fundamental_div_mod_converse(k * d, d, k, 0);
    } else {
        assert(k * d < 0) by (nonlinear_arith)
            requires
                k < 0,
                d >= 1,
        ;
        assert((k * d) * -1 == (-k) * d) by (nonlinear_arith);
        lemma_fundamental_div_mod_converse((-k) * d, d, -k, 0);
        assert(div_trunc(k * d, d) == (((-k) * d) / d) * -1);
    }
}

/// A bounded dividend divided by anything at least `dmin` is bounded by the
/// divided bound.
pub proof fn lemma_div_trunc_bound_denom(x: int, d: int, m: int, dmin: int)
    requires
        d >= dmin >= 1,
        abs_i(x) <= m,
    ensures
        abs_i(div_trunc(x, d)) <= m / dmin,
{
    lemma_div_trunc_bound(x, d, m);
    let ax = abs_i(x);
    lemma_fundamental_div_mod(ax, d);
    lemma_fundamental_div_mod(ax, dmin);
    lemma_fundamental_div_mod(m, dmin);
    assert(ax / d <= ax / dmin) by (nonlinear_arith)
        requires
            ax >= 0,
            d >= dmin >= 1,
            ax == d * (ax / d) + ax % d,
            0 <= ax % d < d,
            ax == dmin * (ax / dmin) + ax % dmin,
            0 <= ax % dmin < dmin,
    ;
    assert(ax / dmin <= m / dmin) by (nonlinear_arith)
        requires
            0 <= ax <= m,
            dmin >= 1,
            ax == dmin * (ax / dmin) + ax % dmin,
            0 <= ax % dmin < dmin,
            m == dmin * (m / dmin) + m % dmin,
            0 <= m % dmin < dmin,
    ;
    assert(abs_i(div_trunc(x, d)) == ax / d);
}

/// The (unique) integer square root of a nonnegative integer.
pub open spec fn isqrt_s(n: int) -> int
    recommends
        n >= 0,
{
    choose|r: int| 0 <= r && #[trigger] (r * r) <= n < (r + 1) * (r + 1)
}

/// Any integer satisfying the square-root bracketing property equals
/// `isqrt_s`.
pub proof fn lemma_isqrt_unique(n: int, r: int)
    requires
        0 <= r,
        r * r <= n,
        n < (r + 1) * (r + 1),
    ensures
        r == isqrt_s(n),
{
    assert(exists|q: int| 0 <= q && #[trigger] (q * q) <= n < (q + 1) * (q + 1));
    let q = isqrt_s(n);
    assert(0 <= q && q * q <= n < (q + 1) * (q + 1));
    if q < r {
        assert((q + 1) * (q + 1) <= r * r) by (nonlinear_arith)
            requires
                0 <= q,
                q + 1 <= r,
        ;
    }
    if r < q {
        assert((r + 1) * (r + 1) <= q * q) by (nonlinear_arith)
            requires
                0 <= r,
                r + 1 <= q,
        ;
    }
}

/// Inputs up to this bound (two to the 126th power) have an integer square
/// root representable in 63 bits.
pub const ISQRT_INPUT_LIMIT: u128 = 0x40000000000000000000000000000000;

/// Integer square root by bisection.
pub fn isqrt(n: u128) -> (r: u64)
    requires
        n < ISQRT_INPUT_LIMIT,
    ensures
        (r as int) * (r as int) <= n as int,
        (n as int) < ((r as int) + 1) * ((r as int) + 1),
        r as int == isqrt_s(n as int),
{
    let mut lo: u128 = 0;
    let mut hi: u128 = 0x8000_0000_0000_0000u128;
    while lo + 1 < hi
        invariant
            0 <= lo < hi <= 0x8000_0000_0000_0000u128,
            (lo as int) * (lo as int) <= n as int,
            (n as int) < (hi as int) * (hi as int),
            n < ISQRT_INPUT_LIMIT,
        decreases hi - lo,
    {
        let mid = lo + (hi - lo) / 2;
        assert(lo < mid < hi);
        assert((mid as int) * (mid as int) < 0x40000000000000000000000000000000int) by (nonlinear_arith)
            requires
                0 < (mid as int) <= 0x8000_0000_0000_0000int - 1,
        ;
        if mid * mid <= n {
            lo = mid;
        } else {
            hi = mid;
        }
    }
    proof {
        assert(hi == lo + 1);
        lemma_isqrt_unique(n as int, lo as int);
    }
    lo as u64
}

} // verus!
