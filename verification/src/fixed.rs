use vstd::prelude::*;
use vstd::arithmetic::div_mod::{
    lemma_div_is_ordered, lemma_div_multiples_vanish, lemma_fundamental_div_mod,
    lemma_mod_bound,
};

verus! {

/// One world unit in the fixed-point representation: every coordinate,
/// length and ray parameter in this crate is an `i64` holding the world
/// value times `SCALE`.
pub const SCALE: i64 = 65536;

/// Largest coordinate magnitude (128 world units) accepted by the vector
/// operations; keeps every intermediate product inside `i128`.
pub const COORD_MAX: i64 = 8388608;

/// Round-toward-zero division, the rounding that `/` performs on machine
/// integers; meaningful for positive `b`.
pub open spec fn div_trunc(a: int, b: int) -> int {
    if a >= 0 {
        a / b
    } else {
        -((-a) / b)
    }
}

/// `r` is the integer square root of `n`, rounded down.
pub open spec fn is_isqrt(n: int, r: int) -> bool {
    0 <= r && r * r <= n && n < (r + 1) * (r + 1)
}

/// The rounded-down integer square root as a spec-level function.
pub closed spec fn sqrt_floor(n: int) -> int {
    choose|r: int| is_isqrt(n, r)
}

pub proof fn lemma_isqrt_unique(n: int, a: int, b: int)
    by (nonlinear_arith)
    requires
        is_isqrt(n, a),
        is_isqrt(n, b),
    ensures
        a == b,
{
}

/// A positive value has a positive rounded-down root.
pub proof fn lemma_isqrt_pos(n: int, r: int)
    by (nonlinear_arith)
    requires
        is_isqrt(n, r),
        1 <= n,
    ensures
        1 <= r,
{
}

/// Any witness of `is_isqrt` is the value of `sqrt_floor`.
pub proof fn lemma_sqrt_floor(n: int, r: int)
    requires
        is_isqrt(n, r),
    ensures
        sqrt_floor(n) == r,
{
    assert(exists|q: int| is_isqrt(n, q));
    lemma_isqrt_unique(n, r, sqrt_floor(n));
}

/// Every nonnegative value has a rounded-down integer square root.
pub proof fn lemma_sqrt_floor_exists(n: int)
    requires
        0 <= n,
    ensures
        is_isqrt(n, sqrt_floor(n)),
    decreases n,
{
    if n == 0 {
        assert(is_isqrt(0, 0)) by (nonlinear_arith);
        lemma_sqrt_floor(0, 0);
    } else {
        lemma_sqrt_floor_exists(n - 1);
        let r = sqrt_floor(n - 1);
        if (r + 1) * (r + 1) <= n {
            assert(is_isqrt(n, r + 1)) by (nonlinear_arith)
                requires
                    is_isqrt(n - 1, r),
                    (r + 1) * (r + 1) <= n,
            ;
            lemma_sqrt_floor(n, r + 1);
        } else {
            assert(is_isqrt(n, r));
            lemma_sqrt_floor(n, r);
        }
    }
}

/// A truncated quotient is no larger in magnitude than the dividend.
pub proof fn lemma_div_trunc_magnitude(a: int, d: int)
    requires
        1 <= d,
    ensures
        -a <= div_trunc(a, d) <= a || a < 0 && a <= div_trunc(a, d) <= -a,
        a >= 0 ==> 0 <= div_trunc(a, d) <= a,
        a < 0 ==> a <= div_trunc(a, d) <= 0,
{
    if a >= 0 {
        lemma_div_is_ordered(0, a, d);
        lemma_fundamental_div_mod(a, d);
        lemma_mod_bound(a, d);
        assert(a / d <= a) by (nonlinear_arith)
            requires
                1 <= d,
                0 <= a,
                a == d * (a / d) + a % d,
                0 <= a % d,
                0 <= a / d,
        ;
    } else {
        lemma_div_is_ordered(0, -a, d);
        lemma_fundamental_div_mod(-a, d);
        lemma_mod_bound(-a, d);
        assert((-a) / d <= -a) by (nonlinear_arith)
            requires
                1 <= d,
                0 <= -a,
                -a == d * ((-a) / d) + (-a) % d,
                0 <= (-a) % d,
                0 <= (-a) / d,
        ;
    }
}

/// The remainder thrown away by `div_trunc` has the sign of the dividend
/// and magnitude under the divisor: `a == div_trunc(a, d) * d + e` with
/// `0 <= a * e` and `-d < e < d`.
pub proof fn lemma_div_trunc_rem(a: int, d: int)
    requires
        1 <= d,
    ensures
        -d < a - div_trunc(a, d) * d < d,
        a >= 0 ==> 0 <= a - div_trunc(a, d) * d && 0 <= div_trunc(a, d) * d <= a,
        a < 0 ==> a - div_trunc(a, d) * d <= 0 && a <= div_trunc(a, d) * d <= 0,
{
    if a >= 0 {
        lemma_fundamental_div_mod(a, d);
        lemma_mod_bound(a, d);
        lemma_div_is_ordered(0, a, d);
        assert(a - div_trunc(a, d) * d == a % d) by (nonlinear_arith)
            requires
                a == d * (a / d) + a % d,
                div_trunc(a, d) == a / d,
        ;
    } else {
        lemma_fundamental_div_mod(-a, d);
        lemma_mod_bound(-a, d);
        lemma_div_is_ordered(0, -a, d);
        assert(a - div_trunc(a, d) * d == -((-a) % d) && div_trunc(a, d) * d == -(d * ((-a)
            / d))) by (nonlinear_arith)
            requires
                -a == d * ((-a) / d) + (-a) % d,
                div_trunc(a, d) == -((-a) / d),
        ;
    }
}

/// Dividing an exact multiple is exact.
pub proof fn lemma_div_trunc_exact(a: int, d: int)
    requires
        1 <= d,
        0 <= a,
    ensures
        div_trunc(a * d, d) == a,
{
    lemma_div_multiples_vanish(a, d);
    assert(a * d == d * a) by (nonlinear_arith);
}

/// Product of two machine words, carried out in `i128` where it cannot
/// overflow.
pub fn mul_wide(a: i64, b: i64) -> (r: i128)
    ensures
        r == a * b,
{
    proof {
        assert(i128::MIN <= (a as int) * (b as int) <= i128::MAX) by (nonlinear_arith)
            requires
                i64::MIN <= a <= i64::MAX,
                i64::MIN <= b <= i64::MAX,
        ;
    }
    (a as i128) * (b as i128)
}

/// Round-toward-zero division on `i128`, exactly `div_trunc`.
pub fn div_wide(a: i128, b: i128) -> (r: i128)
    requires
        1 <= b,
    ensures
        r == div_trunc(a as int, b as int),
{
    a / b
}

/// Rounded-down integer square root, by bisection.
pub fn isqrt(n: u128) -> (r: u64)
    ensures
        is_isqrt(n as int, r as int),
        r == sqrt_floor(n as int),
{
    let mut lo: u128 = 0;
    let mut hi: u128 = 18446744073709551616;
    while hi - lo > 1
        invariant
            lo < hi <= 18446744073709551616u128,
            lo * lo <= n,
            n < hi * hi,
        decreases hi - lo,
    {
        let mid: u128 = lo + (hi - lo) / 2;
        proof {
            assert(mid * mid < 340282366920938463463374607431768211455u128) by (nonlinear_arith)
                requires
                    0 <= mid <= 18446744073709551615u128,
            ;
        }
        if mid * mid <= n {
            lo = mid;
        } else {
            hi = mid;
        }
    }
    proof {
        assert(is_isqrt(n as int, lo as int));
        lemma_sqrt_floor(n as int, lo as int);
    }
    lo as u64
}

} // verus!
