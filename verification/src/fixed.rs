//! Scalar fixed-point arithmetic.
//!
//! A quantity is an `i64` counting millionths: `ONE` is the number one.
//! Results are truncated toward zero and saturate at `VBIG`, so every
//! operation is total and its result is pinned exactly by a spec function.

use vstd::prelude::*;

verus! {

/// The fixed-point representation of the number one.
pub const ONE: i64 = 1_000_000;

/// Saturation bound: every fixed-point quantity stays in `[-VBIG, VBIG]`.
pub const VBIG: i64 = 4_000_000_000_000_000_000;

/// The near-zero threshold: anything below one quantum counts as zero.
pub const EPS: i64 = 1;

pub open spec fn in_range(x: int) -> bool {
    -VBIG <= x <= VBIG
}

pub open spec fn iabs(x: int) -> int {
    if x >= 0 {
        x
    } else {
        -x
    }
}

/// Saturate a mathematical integer into the representable range.
pub open spec fn clip_s(x: int) -> int {
    if x > VBIG {
        VBIG as int
    } else if x < -VBIG {
        -VBIG as int
    } else {
        x
    }
}

/// Division truncated toward zero (the divisor must not be zero).
pub open spec fn tdiv_s(p: int, d: int) -> int {
    if (p >= 0) == (d >= 0) {
        iabs(p) / iabs(d)
    } else {
        -(iabs(p) / iabs(d))
    }
}

pub open spec fn fadd_s(a: int, b: int) -> int {
    clip_s(a + b)
}

pub open spec fn fsub_s(a: int, b: int) -> int {
    clip_s(a - b)
}

pub open spec fn fneg_s(a: int) -> int {
    clip_s(-a)
}

pub open spec fn fmul_s(a: int, b: int) -> int {
    clip_s(tdiv_s(a * b, ONE as int))
}

/// Division of fixed-point quantities; a zero divisor saturates, mirroring
/// the infinities a quotient of reals would reach.
pub open spec fn fdiv_s(a: int, b: int) -> int {
    if b == 0 {
        if a > 0 {
            VBIG as int
        } else if a < 0 {
            -VBIG as int
        } else {
            0
        }
    } else {
        clip_s(tdiv_s(a * ONE, b))
    }
}

/// The integer square root: the unique `r >= 0` with `r * r <= n < (r + 1) * (r + 1)`.
pub open spec fn isqrt_s(n: int) -> int {
    choose|r: int| 0 <= r && #[trigger] (r * r) <= n && n < (r + 1) * (r + 1)
}

/// Square root of a non-negative fixed-point quantity.
pub open spec fn fsqrt_s(a: int) -> int {
    isqrt_s(a * ONE)
}

pub open spec fn clamp_s(v: int, lo: int, hi: int) -> int {
    if v < lo {
        lo
    } else if v > hi {
        hi
    } else {
        v
    }
}

pub proof fn lemma_isqrt_unique(n: int, r: int)
    requires
        0 <= r,
        r * r <= n,
        n < (r + 1) * (r + 1),
    ensures
        isqrt_s(n) == r,
{
    assert(0 <= r && r * r <= n && n < (r + 1) * (r + 1));
    let q = isqrt_s(n);
    assert(0 <= q && q * q <= n && n < (q + 1) * (q + 1));
    assert(q == r) by (nonlinear_arith)
        requires
            0 <= r,
            r * r <= n,
            n < (r + 1) * (r + 1),
            0 <= q,
            q * q <= n,
            n < (q + 1) * (q + 1),
    ;
}

fn clip128(x: i128) -> (r: i64)
    ensures
        r as int == clip_s(x as int),
        in_range(r as int),
{
    if x > VBIG as i128 {
        VBIG
    } else if x < -(VBIG as i128) {
        -VBIG
    } else {
        x as i64
    }
}

pub fn fadd(a: i64, b: i64) -> (r: i64)
    requires
        in_range(a as int),
        in_range(b as int),
    ensures
        r as int == fadd_s(a as int, b as int),
        in_range(r as int),
{
    clip128(a as i128 + b as i128)
}

pub fn fsub(a: i64, b: i64) -> (r: i64)
    requires
        in_range(a as int),
        in_range(b as int),
    ensures
        r as int == fsub_s(a as int, b as int),
        in_range(r as int),
{
    clip128(a as i128 - b as i128)
}

pub fn fneg(a: i64) -> (r: i64)
    requires
        in_range(a as int),
    ensures
        r as int == fneg_s(a as int),
        in_range(r as int),
{
    -a
}

proof fn lemma_abs_mul(a: int, b: int)
    by (nonlinear_arith)
    ensures
        iabs(a) * iabs(b) == iabs(a * b),
        ((a < 0) != (b < 0)) ==> a * b <= 0,
        !((a < 0) != (b < 0)) ==> a * b >= 0,
{
}

pub fn fmul(a: i64, b: i64) -> (r: i64)
    requires
        in_range(a as int),
        in_range(b as int),
    ensures
        r as int == fmul_s(a as int, b as int),
        in_range(r as int),
{
    let neg: bool = (a < 0) != (b < 0);
    let ua: u64 = if a < 0 {
        (-a) as u64
    } else {
        a as u64
    };
    let ub: u64 = if b < 0 {
        (-b) as u64
    } else {
        b as u64
    };
    proof {
        lemma_abs_mul(a as int, b as int);
    }
    assert((ua as u128) * (ub as u128) <= 0xffff_ffff_ffff_ffff_ffff_ffff_ffff_ffffu128)
        by (nonlinear_arith)
        requires
            ua <= 4_000_000_000_000_000_000u64,
            ub <= 4_000_000_000_000_000_000u64,
    ;
    let q: u128 = (ua as u128 * ub as u128) / (ONE as u128);
    proof {
        assert(q as int == iabs(a as int * b as int) / (ONE as int));
        let p = (a as int) * (b as int);
        if neg {
            assert(tdiv_s(p, ONE as int) == -(q as int));
        } else {
            assert(tdiv_s(p, ONE as int) == q as int);
        }
    }
    if q > VBIG as u128 {
        if neg {
            -VBIG
        } else {
            VBIG
        }
    } else {
        if neg {
            -(q as i64)
        } else {
            q as i64
        }
    }
}

pub fn fdiv(a: i64, b: i64) -> (r: i64)
    requires
        in_range(a as int),
        in_range(b as int),
    ensures
        r as int == fdiv_s(a as int, b as int),
        in_range(r as int),
{
    if b == 0 {
        if a > 0 {
            VBIG
        } else if a < 0 {
            -VBIG
        } else {
            0
        }
    } else {
        let neg: bool = (a < 0) != (b < 0);
        let ua: u64 = if a < 0 {
            (-a) as u64
        } else {
            a as u64
        };
        let ub: u64 = if b < 0 {
            (-b) as u64
        } else {
            b as u64
        };
        proof {
            lemma_abs_mul(a as int, ONE as int);
            lemma_abs_mul(a as int, b as int);
        }
        assert((ua as u128) * (ONE as u128) <= 0xffff_ffff_ffff_ffff_ffff_ffff_ffff_ffffu128)
            by (nonlinear_arith)
            requires
                ua <= 4_000_000_000_000_000_000u64,
    ;
        let q: u128 = (ua as u128 * ONE as u128) / (ub as u128);
        proof {
            assert(q as int == iabs(a as int * ONE) / iabs(b as int));
            let p = (a as int) * (ONE as int);
            if neg {
                assert(tdiv_s(p, b as int) == -(q as int));
            } else {
                assert(tdiv_s(p, b as int) == q as int);
            }
        }
        if q > VBIG as u128 {
            if neg {
                -VBIG
            } else {
                VBIG
            }
        } else {
            if neg {
                -(q as i64)
            } else {
                q as i64
            }
        }
    }
}

fn isqrt_u128(n: u128) -> (r: u64)
    ensures
        (r as int) * (r as int) <= n as int,
        (n as int) < (r as int + 1) * (r as int + 1),
{
    let mut lo: u128 = 0;
    let mut hi: u128 = 0x1_0000_0000_0000_0000;
    assert((n as int) < (hi as int) * (hi as int)) by (nonlinear_arith)
        requires
            hi == 0x1_0000_0000_0000_0000u128,
            n <= 0xffff_ffff_ffff_ffff_ffff_ffff_ffff_ffffu128,
    ;
    while hi - lo > 1
        invariant
            lo < hi,
            hi <= 0x1_0000_0000_0000_0000u128,
            (lo as int) * (lo as int) <= n as int,
            (n as int) < (hi as int) * (hi as int),
        decreases hi - lo,
    {
        let mid: u128 = lo + (hi - lo) / 2;
        assert((mid as int) * (mid as int) <= 0xffff_ffff_ffff_ffff_ffff_ffff_ffff_ffffu128)
            by (nonlinear_arith)
            requires
                mid < 0x1_0000_0000_0000_0000u128,
        ;
        if mid * mid <= n {
            lo = mid;
        } else {
            hi = mid;
        }
    }
    assert(hi == lo + 1);
    assert(lo < 0x1_0000_0000_0000_0000u128);
    lo as u64
}

pub fn fsqrt(a: i64) -> (r: i64)
    requires
        0 <= a,
        in_range(a as int),
    ensures
        r as int == fsqrt_s(a as int),
        0 <= r,
        in_range(r as int),
{
    let n: u128 = (a as u128) * (ONE as u128);
    let s: u64 = isqrt_u128(n);
    proof {
        lemma_isqrt_unique(n as int, s as int);
        assert(s <= VBIG) by (nonlinear_arith)
            requires
                (s as int) * (s as int) <= n as int,
                n as int <= (VBIG as int) * (ONE as int),
        ;
    }
    s as i64
}

/// Multiplying by one changes nothing, truncation included.
pub proof fn lemma_fmul_one(a: int)
    requires
        in_range(a),
    ensures
        fmul_s(a, ONE as int) == a,
{
    lemma_abs_mul(a, ONE as int);
    vstd::arithmetic::div_mod::lemma_div_multiples_vanish(iabs(a), ONE as int);
}

/// Multiplying by a whole number of units is exact, up to saturation.
pub proof fn lemma_fmul_whole(k: int, y: int)
    ensures
        fmul_s(k * ONE, y) == clip_s(k * y),
{
    assert((k * ONE) * y == (k * y) * (ONE as int)) by (nonlinear_arith);
    lemma_abs_mul(k * y, ONE as int);
    vstd::arithmetic::div_mod::lemma_div_multiples_vanish(iabs(k * y), ONE as int);
}

/// Every non-negative integer has an integer square root.
pub proof fn lemma_isqrt_exists(n: int)
    requires
        0 <= n,
    ensures
        exists|r: int| 0 <= r && #[trigger] (r * r) <= n && n < (r + 1) * (r + 1),
    decreases n,
{
    if n == 0 {
        assert(0int * 0int == 0 && (0int + 1) * (0int + 1) == 1) by (nonlinear_arith);
        assert(0 <= 0int && (0int * 0int) <= n && n < (0int + 1) * (0int + 1));
    } else {
        lemma_isqrt_exists(n - 1);
        let r = choose|r: int| 0 <= r && #[trigger] (r * r) <= n - 1 && n - 1 < (r + 1) * (r + 1);
        if n < (r + 1) * (r + 1) {
            assert(r * r <= n);
        } else {
            assert(0 <= r + 1 && (r + 1) * (r + 1) <= n && n < (r + 2) * (r + 2))
                by (nonlinear_arith)
                requires
                    0 <= r,
                    r * r <= n - 1,
                    n - 1 < (r + 1) * (r + 1),
                    !(n < (r + 1) * (r + 1)),
            ;
        }
    }
}

/// The integer square root of a non-negative integer satisfies its bracket
/// and is monotone.
pub proof fn lemma_isqrt_bounds(n: int)
    requires
        0 <= n,
    ensures
        0 <= isqrt_s(n),
        isqrt_s(n) * isqrt_s(n) <= n,
        n < (isqrt_s(n) + 1) * (isqrt_s(n) + 1),
{
    lemma_isqrt_exists(n);
    let r = isqrt_s(n);
    assert(0 <= r && r * r <= n && n < (r + 1) * (r + 1));
}

/// A larger number never has a smaller integer square root.
pub proof fn lemma_isqrt_le(m: int, n: int)
    requires
        0 <= m <= n,
    ensures
        isqrt_s(m) <= isqrt_s(n),
{
    lemma_isqrt_bounds(m);
    lemma_isqrt_bounds(n);
    let x = isqrt_s(m);
    let y = isqrt_s(n);
    assert(x <= y) by (nonlinear_arith)
        requires
            0 <= x,
            0 <= y,
            x * x <= m,
            m <= n,
            n < (y + 1) * (y + 1),
    ;
}

/// A product of non-negative quantities stays non-negative.
pub proof fn lemma_fmul_nonneg(a: int, b: int)
    requires
        0 <= a,
        0 <= b,
    ensures
        0 <= fmul_s(a, b),
{
    assert(0 <= a * b) by (nonlinear_arith)
        requires
            0 <= a,
            0 <= b,
    ;
    if a * b > 0 {
        vstd::arithmetic::div_mod::lemma_div_pos_is_pos(a * b, ONE as int);
    }
}

/// A non-positive numerator over a non-negative divisor never goes positive.
pub proof fn lemma_fdiv_nonpos(p: int, d: int)
    requires
        p <= 0,
        0 <= d,
    ensures
        fdiv_s(p, d) <= 0,
{
    if d != 0 {
        if p * ONE < 0 {
            vstd::arithmetic::div_mod::lemma_div_pos_is_pos(iabs(p * ONE), d);
        }
    }
}

/// Dividing a bounded quantity by a divisor of at least one half leaves a
/// bounded quotient whose product with the divisor misses the dividend by
/// less than one divisor: the division error of normalization.
pub proof fn lemma_fdiv_err(x: int, d: int)
    requires
        500_000 <= d <= 1_000_000,
        iabs(x) <= 1_000_002,
    ensures
        iabs(fdiv_s(x, d)) <= 2 * ONE + 4,
        iabs(fdiv_s(x, d) * d - x * ONE) < d,
{
    let ax = iabs(x);
    lemma_abs_mul(x, ONE as int);
    let q = ax * ONE / d;
    vstd::arithmetic::div_mod::lemma_fundamental_div_mod(ax * ONE, d);
    vstd::arithmetic::div_mod::lemma_mod_bound(ax * ONE, d);
    let r = (ax * ONE) % d;
    vstd::arithmetic::div_mod::lemma_div_is_ordered(ax * ONE, 1_000_002 * ONE, d);
    vstd::arithmetic::div_mod::lemma_div_is_ordered_by_denominator(1_000_002 * ONE, 500_000, d);
    assert(1_000_002int * 1_000_000 / 500_000 == 2_000_004) by (nonlinear_arith);
    assert(0 <= q <= 2 * ONE + 4);
    vstd::arithmetic::div_mod::lemma_div_pos_is_pos(ax * ONE, d);
    assert(q * d == d * q) by (nonlinear_arith);
    let t = tdiv_s(x * ONE, d);
    if x >= 0 {
        assert(t == q);
        assert(t * d == x * ONE - r);
    } else {
        assert(t == -q);
        assert((-q) * d == -(q * d)) by (nonlinear_arith);
        assert(t * d == x * ONE + r);
    }
    assert(fdiv_s(x, d) == t);
}

/// The fixed-point square root of a square never exceeds the magnitude.
pub proof fn lemma_fsqrt_sq_le(h: int)
    requires
        in_range(h),
    ensures
        fsqrt_s(fmul_s(h, h)) <= iabs(h),
{
    lemma_abs_mul(h, h);
    assert(0 <= h * h) by (nonlinear_arith);
    let hh = h * h;
    let q = tdiv_s(hh, ONE as int);
    assert(q == hh / (ONE as int));
    vstd::arithmetic::div_mod::lemma_fundamental_div_mod(hh, ONE as int);
    assert(q * ONE <= hh) by (nonlinear_arith)
        requires
            hh == ONE * (hh / (ONE as int)) + hh % (ONE as int),
            0 <= hh % (ONE as int),
            q == hh / (ONE as int),
    ;
    if hh > 0 {
        vstd::arithmetic::div_mod::lemma_div_pos_is_pos(hh, ONE as int);
    }
    assert(iabs(h) * iabs(h) == hh);
    assert(hh < (iabs(h) + 1) * (iabs(h) + 1)) by (nonlinear_arith)
        requires
            hh == iabs(h) * iabs(h),
            0 <= iabs(h),
    ;
    lemma_isqrt_unique(hh, iabs(h));
    let m = fmul_s(h, h);
    if q <= VBIG {
        assert(m == q);
        lemma_isqrt_le(m * ONE, hh);
    } else {
        assert(m == VBIG as int);
        assert((VBIG as int) * (ONE as int) <= hh) by (nonlinear_arith)
            requires
                q * ONE <= hh,
                q > VBIG,
                q == hh / (ONE as int),
        ;
        lemma_isqrt_le(m * ONE, hh);
    }
}

pub fn fabs(a: i64) -> (r: i64)
    requires
        in_range(a as int),
    ensures
        r as int == iabs(a as int),
        in_range(r as int),
{
    if a < 0 {
        -a
    } else {
        a
    }
}

/// A square is never negative, clipping included.
pub proof fn lemma_fmul_self_nonneg(a: int)
    ensures
        fmul_s(a, a) >= 0,
{
    assert(a * a >= 0) by (nonlinear_arith);
    if a * a > 0 {
        vstd::arithmetic::div_mod::lemma_div_pos_is_pos(a * a, ONE as int);
    }
}

/// Negating the first factor negates a product, clipping included.
pub proof fn lemma_fmul_neg_left(a: int, b: int)
    ensures
        fmul_s(-a, b) == -fmul_s(a, b),
{
    assert((-a) * b == -(a * b)) by (nonlinear_arith);
}

/// Negating one factor negates a product, clipping included.
pub proof fn lemma_fmul_neg_right(a: int, b: int)
    ensures
        fmul_s(a, -b) == -fmul_s(a, b),
{
    assert(a * (-b) == -(a * b)) by (nonlinear_arith);
}

/// Negating both factors leaves a product alone.
pub proof fn lemma_fmul_neg_neg(a: int, b: int)
    ensures
        fmul_s(-a, -b) == fmul_s(a, b),
{
    assert((-a) * (-b) == a * b) by (nonlinear_arith);
}

pub fn clamp(v: i64, lo: i64, hi: i64) -> (r: i64)
    ensures
        r as int == clamp_s(v as int, lo as int, hi as int),
{
    if v < lo {
        return lo;
    }
    if v > hi {
        return hi;
    }
    v
}

} // verus!
