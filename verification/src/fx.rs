//! Binary fixed-point scalars: an `i64` raw value denotes `raw / SCALE`.
//!
//! Multiplication, division and square root truncate toward zero, exactly as
//! the spec functions `fmul`, `fdiv` and `fsqrt` state over `int`.

use vstd::arithmetic::div_mod::*;
use vstd::prelude::*;

verus! {

/// Number of raw units per 1.0: the fixed-point scale.
pub const SCALE: i64 = 65536;

/// Truncating (toward zero) division for a positive divisor.
pub open spec fn tdiv(a: int, b: int) -> int
    recommends
        b > 0,
{
    if a >= 0 {
        a / b
    } else {
        -((-a) / b)
    }
}

/// Fixed-point product: the real product `(a/S)*(b/S)`, scaled and truncated.
pub open spec fn fmul(a: int, b: int) -> int {
    tdiv(a * b, SCALE as int)
}

/// Fixed-point quotient: the real quotient `(a/S)/(b/S)`, scaled and truncated.
pub open spec fn fdiv(a: int, b: int) -> int
    recommends
        b > 0,
{
    tdiv(a * (SCALE as int), b)
}

/// `r` is the integer square root of `n`.
pub open spec fn is_isqrt(n: int, r: int) -> bool {
    0 <= r && r * r <= n && n < (r + 1) * (r + 1)
}

/// The integer square root, as the unique `r` with `r^2 <= n < (r+1)^2`.
pub open spec fn isqrt(n: int) -> int {
    choose|r: int| is_isqrt(n, r)
}

/// Fixed-point square root: the real `sqrt(a/S)`, scaled and truncated,
/// which is exactly `isqrt(a * S)`.
pub open spec fn fsqrt(a: int) -> int
    recommends
        a >= 0,
{
    isqrt(a * (SCALE as int))
}

/// `x` lies within the symmetric range `[-b, b]`.
pub open spec fn bounded(x: int, b: int) -> bool {
    -b <= x <= b
}

pub proof fn lemma_isqrt_exists(n: int) -> (r: int)
    requires
        n >= 0,
    ensures
        is_isqrt(n, r),
    decreases n,
{
    if n == 0 {
        assert(is_isqrt(0, 0));
        0
    } else {
        let p = lemma_isqrt_exists(n - 1);
        if (p + 1) * (p + 1) <= n {
            assert(n - 1 < (p + 1) * (p + 1));
            assert(n < (p + 2) * (p + 2)) by (nonlinear_arith)
                requires
                    n <= (p + 1) * (p + 1),
                    p >= 0,
            ;
            assert((p + 1 + 1) * (p + 1 + 1) == (p + 2) * (p + 2)) by (nonlinear_arith);
            assert(is_isqrt(n, p + 1));
            p + 1
        } else {
            assert(is_isqrt(n, p));
            p
        }
    }
}

pub proof fn lemma_isqrt_unique(n: int, r1: int, r2: int)
    requires
        is_isqrt(n, r1),
        is_isqrt(n, r2),
    ensures
        r1 == r2,
{
    if r1 < r2 {
        assert((r1 + 1) * (r1 + 1) <= r2 * r2) by (nonlinear_arith)
            requires
                0 <= r1,
                r1 + 1 <= r2,
        ;
    }
    if r2 < r1 {
        assert((r2 + 1) * (r2 + 1) <= r1 * r1) by (nonlinear_arith)
            requires
                0 <= r2,
                r2 + 1 <= r1,
        ;
    }
}

/// Any witness of `is_isqrt` is the value of `isqrt`.
pub proof fn lemma_isqrt_is(n: int, r: int)
    requires
        is_isqrt(n, r),
    ensures
        isqrt(n) == r,
{
    assert(is_isqrt(n, isqrt(n)));
    lemma_isqrt_unique(n, isqrt(n), r);
}

pub proof fn lemma_isqrt_bounds(n: int)
    requires
        n >= 0,
    ensures
        is_isqrt(n, isqrt(n)),
        0 <= isqrt(n),
        isqrt(n) * isqrt(n) <= n,
{
    let r = lemma_isqrt_exists(n);
    assert(is_isqrt(n, isqrt(n)));
}

/// The integer square root is monotone.
pub proof fn lemma_isqrt_ordered(m: int, n: int)
    requires
        0 <= m <= n,
    ensures
        isqrt(m) <= isqrt(n),
{
    lemma_isqrt_bounds(m);
    lemma_isqrt_bounds(n);
    let rm = isqrt(m);
    let rn = isqrt(n);
    if rn < rm {
        assert((rn + 1) * (rn + 1) <= rm * rm) by (nonlinear_arith)
            requires
                0 <= rn,
                rn + 1 <= rm,
        ;
    }
}

/// Truncating division negates with its dividend.
pub proof fn lemma_tdiv_neg(a: int, b: int)
    requires
        b > 0,
    ensures
        tdiv(-a, b) == -tdiv(a, b),
{
    if a == 0 {
        assert(0int / b == 0) by {
            lemma_basic_div(0int, b);
        }
    }
}

/// Truncating division of an exact multiple recovers the factor.
pub proof fn lemma_tdiv_exact(k: int, b: int)
    requires
        b > 0,
    ensures
        tdiv(k * b, b) == k,
{
    if k >= 0 {
        lemma_div_by_multiple(k, b);
    } else {
        lemma_div_by_multiple(-k, b);
        assert(-(k * b) == (-k) * b) by (nonlinear_arith);
    }
}

/// A bound on the dividend gives a bound on the truncating quotient.
pub proof fn lemma_tdiv_bound(a: int, b: int, c: int)
    requires
        b > 0,
        c >= 0,
        -c <= a <= c,
    ensures
        bounded(tdiv(a, b), c / b),
{
    if a >= 0 {
        lemma_div_is_ordered(a, c, b);
        lemma_div_pos_is_pos(a, b);
        lemma_div_pos_is_pos(c, b);
    } else {
        lemma_div_is_ordered(-a, c, b);
        lemma_div_pos_is_pos(-a, b);
        lemma_div_pos_is_pos(c, b);
    }
}

/// Truncating division is ordered on nonnegative dividends.
pub proof fn lemma_tdiv_ordered(a1: int, a2: int, b: int)
    requires
        b > 0,
        0 <= a1 <= a2,
    ensures
        0 <= tdiv(a1, b) <= tdiv(a2, b),
    {
    lemma_div_is_ordered(a1, a2, b);
    lemma_div_pos_is_pos(a1, b);
}

/// A product of bounded factors gives a bounded fixed-point product.
pub proof fn lemma_fmul_bound(a: int, b: int, aa: int, bb: int)
    requires
        bounded(a, aa),
        bounded(b, bb),
        0 <= aa,
        0 <= bb,
    ensures
        bounded(fmul(a, b), (aa * bb) / (SCALE as int)),
{
    assert(-(aa * bb) <= a * b <= aa * bb) by (nonlinear_arith)
        requires
            -aa <= a <= aa,
            -bb <= b <= bb,
            0 <= aa,
            0 <= bb,
    ;
    assert(aa * bb >= 0) by (nonlinear_arith)
        requires
            0 <= aa,
            0 <= bb,
    ;
    lemma_tdiv_bound(a * b, SCALE as int, aa * bb);
}

/// Fixed-point products of values in `[0, 1]` stay in `[0, 1]`, below each factor.
pub proof fn lemma_fmul_range01(a: int, b: int)
    requires
        0 <= a <= SCALE as int,
        0 <= b <= SCALE as int,
    ensures
        0 <= fmul(a, b) <= SCALE as int,
        fmul(a, b) <= a,
        fmul(a, b) <= b,
{
    let s = SCALE as int;
    assert(a * b <= a * s) by (nonlinear_arith)
        requires
            0 <= a,
            b <= s,
    ;
    assert(a * b <= s * b) by (nonlinear_arith)
        requires
            0 <= b,
            a <= s,
    ;
    assert(a * b >= 0) by (nonlinear_arith)
        requires
            0 <= a,
            0 <= b,
    ;
    lemma_div_is_ordered(a * b, a * s, s);
    lemma_div_is_ordered(a * b, s * b, s);
    lemma_div_by_multiple(a, s);
    assert(s * b == b * s) by (nonlinear_arith);
    lemma_div_by_multiple(b, s);
    lemma_div_pos_is_pos(a * b, s);
}

/// Truncating division is monotone in the dividend.
pub proof fn lemma_tdiv_mono(a: int, b: int, d: int)
    requires
        d > 0,
        a <= b,
    ensures
        tdiv(a, d) <= tdiv(b, d),
{
    if a >= 0 {
        lemma_div_is_ordered(a, b, d);
        lemma_div_pos_is_pos(a, d);
        lemma_div_pos_is_pos(b, d);
    } else if b < 0 {
        lemma_div_is_ordered(-b, -a, d);
    } else {
        lemma_div_pos_is_pos(-a, d);
        lemma_div_pos_is_pos(b, d);
    }
}

/// Dividing a bounded value by a positive multiple of the scale bounds the
/// fixed-point quotient by the ordinary integer quotient.
pub proof fn lemma_fdiv_split(a: int, w: int, big: int)
    requires
        w >= 1,
        0 <= big,
        bounded(a, big),
    ensures
        bounded(fdiv(a, w * (SCALE as int)), big / w),
{
    let s = SCALE as int;
    assert(-(big * s) <= a * s <= big * s) by (nonlinear_arith)
        requires
            -big <= a <= big,
            s == 65536,
    ;
    assert(big * s >= 0) by (nonlinear_arith)
        requires
            big >= 0,
            s == 65536,
    ;
    assert(w * s >= 1) by (nonlinear_arith)
        requires
            w >= 1,
            s == 65536,
    ;
    lemma_tdiv_bound(a * s, w * s, big * s);
    lemma_div_denominator(big * s, s, w);
    lemma_div_by_multiple(big, s);
    assert(big * s == s * big) by (nonlinear_arith);
    assert(w * s == s * w) by (nonlinear_arith);
}

/// Scaling by a pixel index keeps the product within the whole viewport
/// span: `|x| <= w * SCALE` and `|d| <= big / w` give `|fmul(x, d)| <= big`.
pub proof fn lemma_fmul_rel(x: int, d: int, w: int, big: int)
    requires
        w >= 1,
        0 <= big,
        bounded(x, w * (SCALE as int)),
        bounded(d, big / w),
    ensures
        bounded(fmul(x, d), big),
{
    let s = SCALE as int;
    lemma_fundamental_div_mod(big, w);
    assert(w * (big / w) <= big);
    assert(big / w >= 0) by {
        lemma_div_pos_is_pos(big, w);
    }
    assert(-((w * s) * (big / w)) <= x * d <= (w * s) * (big / w)) by (nonlinear_arith)
        requires
            -(w * s) <= x <= w * s,
            -(big / w) <= d <= big / w,
            0 <= w * s,
            0 <= big / w,
    ;
    assert((w * s) * (big / w) == (w * (big / w)) * s) by (nonlinear_arith);
    assert((w * (big / w)) * s <= big * s) by (nonlinear_arith)
        requires
            w * (big / w) <= big,
            s == 65536,
    ;
    assert(big * s >= 0) by (nonlinear_arith)
        requires
            big >= 0,
            s == 65536,
    ;
    lemma_tdiv_bound(x * d, s, big * s);
    assert(big * s == big * s);
    lemma_div_by_multiple(big, s);
}

/// Integer square root, by binary search on the root.
pub fn isqrt_u128(n: u128) -> (r: u64)
    ensures
        is_isqrt(n as int, r as int),
        r as int == isqrt(n as int),
{
    let mut lo: u128 = 0;
    let mut hi: u128 = 0x1_0000_0000_0000_0000u128;
    assert((n as int) < 0x1_0000_0000_0000_0000u128 as int * (0x1_0000_0000_0000_0000u128 as int))
        by (nonlinear_arith)
        requires
            n <= u128::MAX,
    ;
    while hi - lo > 1
        invariant
            0 <= lo < hi <= 0x1_0000_0000_0000_0000u128,
            (lo as int) * (lo as int) <= n as int,
            (n as int) < (hi as int) * (hi as int),
        decreases hi - lo,
    {
        let mid: u128 = lo + (hi - lo) / 2;
        assert(lo < mid < hi);
        assert(mid * mid <= u128::MAX) by (nonlinear_arith)
            requires
                0 <= mid < 0x1_0000_0000_0000_0000u128,
        ;
        if mid * mid <= n {
            lo = mid;
        } else {
            hi = mid;
        }
    }
    assert(hi == lo + 1);
    assert(lo < 0x1_0000_0000_0000_0000u128);
    proof {
        lemma_isqrt_is(n as int, lo as int);
    }
    lo as u64
}

/// Fixed-point multiply; truncates toward zero.
pub fn mul_fx(a: i64, b: i64) -> (r: i64)
    requires
        i64::MIN as int <= fmul(a as int, b as int) <= i64::MAX as int,
    ensures
        r as int == fmul(a as int, b as int),
{
    let p: i128 = (a as i128) * (b as i128);
    scaled_down(p)
}

/// Fixed-point divide by a positive value; truncates toward zero.
pub fn div_fx(a: i64, b: i64) -> (r: i64)
    requires
        b > 0,
        i64::MIN as int <= fdiv(a as int, b as int) <= i64::MAX as int,
    ensures
        r as int == fdiv(a as int, b as int),
{
    let p: i128 = (a as i128) * (SCALE as i128);
    let neg: bool = p < 0;
    let m: u128 = if neg {
        (-p) as u128
    } else {
        p as u128
    };
    let q: u128 = m / (b as u128);
    proof {
        lemma_div_is_ordered(q as int, m as int, 1);
        lemma_div_is_ordered_by_denominator(m as int, 1, b as int);
    }
    if neg {
        (-(q as i128)) as i64
    } else {
        (q as i128) as i64
    }
}

/// Divide a doubled-scale product back down by `SCALE`, truncating toward zero.
pub fn scaled_down(p: i128) -> (r: i64)
    requires
        i64::MIN as int <= tdiv(p as int, SCALE as int) <= i64::MAX as int,
    ensures
        r as int == tdiv(p as int, SCALE as int),
{
    let neg: bool = p < 0;
    let m: u128 = if neg {
        (-p) as u128
    } else {
        p as u128
    };
    let q: u128 = m / (SCALE as u128);
    proof {
        lemma_div_is_ordered(q as int, m as int, 1);
        lemma_div_is_ordered_by_denominator(m as int, 1, SCALE as int);
    }
    if neg {
        (-(q as i128)) as i64
    } else {
        (q as i128) as i64
    }
}

/// Truncating division of a wide value by a positive divisor.
pub fn tdiv128(p: i128, d: i128) -> (r: i128)
    requires
        d >= 1,
        p > i128::MIN,
    ensures
        r as int == tdiv(p as int, d as int),
{
    let neg: bool = p < 0;
    let m: u128 = if neg {
        (-p) as u128
    } else {
        p as u128
    };
    let q: u128 = m / (d as u128);
    proof {
        lemma_div_is_ordered_by_denominator(m as int, 1, d as int);
        lemma_div_basics(m as int);
    }
    if neg {
        -(q as i128)
    } else {
        q as i128
    }
}

/// Fixed-point square root of a nonnegative value.
pub fn sqrt_fx(a: i64) -> (r: i64)
    requires
        a >= 0,
    ensures
        r as int == fsqrt(a as int),
        r >= 0,
{
    assert((a as int) * (SCALE as int) <= 0x8000_0000_0000_0000_0000i128 as int)
        by (nonlinear_arith)
        requires
            0 <= a <= i64::MAX,
    ;
    let n: u128 = (a as u128) * (SCALE as u128);
    let r = isqrt_u128(n);
    proof {
        let ri = r as int;
        if ri >= 0x1_0000_0000_0000i64 as int {
            assert(ri * ri > 0x8000_0000_0000_0000_0000i128 as int) by (nonlinear_arith)
                requires
                    ri >= 0x1_0000_0000_0000i64 as int,
            ;
        }
    }
    r as i64
}

} // verus!
