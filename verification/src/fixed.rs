//! Fixed-point arithmetic in micro-units: helpers shared by the damping
//! primitive, the rotation algebra and the camera pose computation.

use vstd::prelude::*;

verus! {

/// One real-valued unit, in micro-units.
pub const SCALE: i64 = 1_000_000;

/// Largest magnitude a damped scalar (distance, height, radius floor,
/// inclination) may hold: one thousand units.
pub const VMAX: i64 = 1_000_000_000;

/// A quarter turn (pi / 2) in micro-radians, truncated.
pub const HALF_PI_FP: i64 = 1_570_796;

/// Largest damping rate, per second.
pub const RATE_MAX: i64 = 50_000_000;

/// Largest time step accepted by one drive call: one minute.
pub const DT_MAX: u64 = 60_000_000;

/// Natural logarithm of two, in micro-units, truncated.
pub const LN2_FP: u64 = 693_147;

pub open spec fn abs_i(a: int) -> int {
    if a < 0 { -a } else { a }
}

/// Division that truncates toward zero, as Rust's `/` does on signed
/// integers; on non-negative arguments it agrees with Euclidean division.
pub open spec fn tdiv(a: int, b: int) -> int {
    if a >= 0 { a / b } else { -((-a) / b) }
}

pub open spec fn clamp_s(a: int, lo: int, hi: int) -> int {
    if a < lo { lo } else if a > hi { hi } else { a }
}

pub open spec fn max_s(a: int, b: int) -> int {
    if a > b { a } else { b }
}

/// Product of `a` and `b` in micro-units: `a * b / SCALE`, truncated
/// toward zero.
pub open spec fn spec_fmul(a: int, b: int) -> int {
    tdiv(a * b, SCALE as int)
}

pub proof fn lemma_neg_mul(a: int, b: int)
    by (nonlinear_arith)
    ensures
        (-a) * b == -(a * b),
        a * (-b) == -(a * b),
        (-a) * (-b) == a * b,
{
}

pub proof fn lemma_mul_sign(a: int, b: int)
    by (nonlinear_arith)
    ensures
        a >= 0 && b >= 0 ==> a * b >= 0,
        a >= 0 && b <= 0 ==> a * b <= 0,
        a <= 0 && b >= 0 ==> a * b <= 0,
        a <= 0 && b <= 0 ==> a * b >= 0,
{
}

pub proof fn lemma_mul_le(a: int, b: int, ca: int, cb: int)
    by (nonlinear_arith)
    requires
        0 <= a <= ca,
        0 <= b <= cb,
    ensures
        a * b <= ca * cb,
{
}

pub fn clamp_i64(a: i64, lo: i64, hi: i64) -> (r: i64)
    requires
        lo <= hi,
    ensures
        r as int == clamp_s(a as int, lo as int, hi as int),
        lo <= r <= hi,
{
    if a < lo {
        lo
    } else if a > hi {
        hi
    } else {
        a
    }
}

/// Fixed-point multiply: `a * b / SCALE`, truncated toward zero.
pub fn fmul(a: i64, b: i64) -> (r: i64)
    requires
        abs_i(a as int) * abs_i(b as int) <= 9_000_000_000_000_000_000,
    ensures
        r as int == spec_fmul(a as int, b as int),
        abs_i(r as int) == abs_i(a as int) * abs_i(b as int) / (SCALE as int),
{
    if a == 0 || b == 0 {
        proof {
            assert((a as int) * (b as int) == 0 && abs_i(a as int) * abs_i(b as int) == 0)
                by (nonlinear_arith)
                requires
                    a == 0 || b == 0,
            ;
        }
        return 0;
    }
    proof {
        assert(abs_i(a as int) <= abs_i(a as int) * abs_i(b as int)
            && abs_i(b as int) <= abs_i(a as int) * abs_i(b as int)) by (nonlinear_arith)
            requires
                abs_i(a as int) >= 1,
                abs_i(b as int) >= 1,
        ;
    }
    proof {
        lemma_neg_mul(a as int, b as int);
        lemma_mul_sign(a as int, b as int);
        assert(abs_i((a as int) * (b as int)) == abs_i(a as int) * abs_i(b as int));
    }
    let ua: u64 = if a < 0 { (-a) as u64 } else { a as u64 };
    let ub: u64 = if b < 0 { (-b) as u64 } else { b as u64 };
    proof {
        lemma_mul_le(1, 1, ua as int, ub as int);
    }
    let m: u64 = ua * ub / 1_000_000;
    let r: i64 = if (a < 0) != (b < 0) {
        -(m as i64)
    } else {
        m as i64
    };
    r
}

/// The square of `a`, exact.
pub fn sq_i64(a: i64) -> (r: i64)
    requires
        -3_000_000_000 <= a <= 3_000_000_000,
    ensures
        r as int == (a as int) * (a as int),
        r >= 0,
{
    proof {
        assert(0 <= (a as int) * (a as int) <= 9_000_000_000_000_000_000) by (nonlinear_arith)
            requires
                -3_000_000_000 <= a as int <= 3_000_000_000,
        ;
    }
    a * a
}

/// `a * num / den`, truncated toward zero.
pub fn muldiv(a: i64, num: i64, den: u64) -> (r: i64)
    requires
        den >= 1,
        num >= 0,
        abs_i(a as int) * (num as int) <= 9_000_000_000_000_000_000,
    ensures
        r as int == tdiv((a as int) * (num as int), den as int),
        abs_i(r as int) == abs_i(a as int) * (num as int) / (den as int),
        a >= 0 ==> r >= 0,
        a <= 0 ==> r <= 0,
{
    if a == 0 || num == 0 {
        proof {
            assert((a as int) * (num as int) == 0 && abs_i(a as int) * (num as int) == 0)
                by (nonlinear_arith)
                requires
                    a == 0 || num == 0,
            ;
        }
        return 0;
    }
    proof {
        assert(abs_i(a as int) <= abs_i(a as int) * (num as int)) by (nonlinear_arith)
            requires
                abs_i(a as int) >= 1,
                num as int >= 1,
        ;
        lemma_neg_mul(a as int, num as int);
        lemma_mul_sign(a as int, num as int);
    }
    let ua: u64 = if a < 0 { (-a) as u64 } else { a as u64 };
    let m: u64 = ua * (num as u64) / den;
    if a < 0 {
        -(m as i64)
    } else {
        m as i64
    }
}

/// `a * b / SCALE`, truncated toward zero, computed with wide
/// intermediates: `b` may be as large as the zoom factor grows.
pub fn fmul_wide(a: i64, b: i64) -> (r: i64)
    requires
        abs_i(a as int) <= VMAX,
        0 <= b <= 5_000_000_000_000,
    ensures
        r as int == spec_fmul(a as int, b as int),
        abs_i(r as int) == abs_i(a as int) * (b as int) / (SCALE as int),
        a >= 0 ==> r >= 0,
        a <= 0 ==> r <= 0,
{
    if a == 0 || b == 0 {
        proof {
            assert((a as int) * (b as int) == 0 && abs_i(a as int) * (b as int) == 0)
                by (nonlinear_arith)
                requires
                    a == 0 || b == 0,
            ;
        }
        return 0;
    }
    proof {
        lemma_neg_mul(a as int, b as int);
        lemma_mul_sign(a as int, b as int);
        lemma_mul_le(abs_i(a as int), b as int, VMAX as int, 5_000_000_000_000);
        lemma_div_le_self(abs_i(a as int) * (b as int), SCALE as int);
    }
    let ua: u64 = if a < 0 { (-a) as u64 } else { a as u64 };
    let m: u64 = ((ua as u128) * (b as u128) / 1_000_000) as u64;
    if a < 0 {
        -(m as i64)
    } else {
        m as i64
    }
}

pub open spec fn is_isqrt(r: int, n: int) -> bool {
    0 <= r && r * r <= n && n < (r + 1) * (r + 1)
}

/// The integer square root (unique for any non-negative argument).
pub open spec fn spec_isqrt(n: int) -> int {
    choose|r: int| is_isqrt(r, n)
}

pub proof fn lemma_isqrt_unique(r1: int, r2: int, n: int)
    by (nonlinear_arith)
    requires
        0 <= r1,
        r1 * r1 <= n,
        n < (r1 + 1) * (r1 + 1),
        0 <= r2,
        r2 * r2 <= n,
        n < (r2 + 1) * (r2 + 1),
    ensures
        r1 == r2,
{
}

/// Every non-negative integer has an integer square root.
pub proof fn lemma_isqrt_exists(n: int)
    requires
        0 <= n,
    ensures
        is_isqrt(spec_isqrt(n), n),
    decreases n,
{
    if n == 0 {
        assert(is_isqrt(0, 0));
        assert(exists|r: int| is_isqrt(r, 0)) by {
            assert(is_isqrt(0, 0));
        }
    } else {
        lemma_isqrt_exists(n - 1);
        let r = spec_isqrt(n - 1);
        if n < (r + 1) * (r + 1) {
            assert(is_isqrt(r, n));
            assert(exists|q: int| is_isqrt(q, n)) by {
                assert(is_isqrt(r, n));
            }
        } else {
            assert((r + 1) * (r + 1) < (r + 2) * (r + 2)) by (nonlinear_arith)
                requires
                    0 <= r,
            ;
            assert(is_isqrt(r + 1, n));
            assert(exists|q: int| is_isqrt(q, n)) by {
                assert(is_isqrt(r + 1, n));
            }
        }
    }
}

/// The integer square root is monotone.
pub proof fn lemma_isqrt_monotone(n1: int, n2: int)
    requires
        0 <= n1 <= n2,
    ensures
        spec_isqrt(n1) <= spec_isqrt(n2),
{
    lemma_isqrt_exists(n1);
    lemma_isqrt_exists(n2);
    let s1 = spec_isqrt(n1);
    let s2 = spec_isqrt(n2);
    if s1 > s2 {
        assert(s1 * s1 >= (s2 + 1) * (s2 + 1)) by (nonlinear_arith)
            requires
                s1 >= s2 + 1,
                0 <= s2,
        ;
    }
}

/// Comparing two non-negative quotients by cross-multiplying: when
/// `a1 * b2 <= a2 * b1`, the truncated quotients are ordered the same way.
pub proof fn lemma_div_cross_monotone(a1: int, b1: int, a2: int, b2: int)
    requires
        0 <= a1,
        1 <= b1,
        0 <= a2,
        1 <= b2,
        a1 * b2 <= a2 * b1,
    ensures
        a1 / b1 <= a2 / b2,
{
    let q1 = a1 / b1;
    let q2 = a2 / b2;
    vstd::arithmetic::div_mod::lemma_fundamental_div_mod(a1, b1);
    vstd::arithmetic::div_mod::lemma_fundamental_div_mod(a2, b2);
    vstd::arithmetic::div_mod::lemma_mod_bound(a1, b1);
    vstd::arithmetic::div_mod::lemma_mod_bound(a2, b2);
    vstd::arithmetic::div_mod::lemma_div_pos_is_pos(a1, b1);
    vstd::arithmetic::div_mod::lemma_div_pos_is_pos(a2, b2);
    if q1 > q2 {
        assert(b2 * (q2 + 1) == b2 * q2 + b2) by (nonlinear_arith);
        assert(a1 * b2 > a2 * b1) by (nonlinear_arith)
            requires
                a1 >= b1 * q1,
                q1 >= q2 + 1,
                a2 < b2 * (q2 + 1),
                1 <= b1,
                1 <= b2,
                0 <= q2,
                0 <= a2,
        ;
    }
}

/// `|a| <= k * SCALE` and `|b| <= v` bound a fixed-point product:
/// `|a| * |b| / SCALE <= k * v`.
pub proof fn lemma_fmul_abs_le(aa: int, ab: int, k: int, v: int)
    requires
        0 <= aa,
        0 <= ab <= v,
        aa <= k * (SCALE as int),
        0 <= k,
        0 <= v,
    ensures
        aa * ab / (SCALE as int) <= k * v,
{
    lemma_mul_le(aa, ab, k * (SCALE as int), v);
    assert((k * (SCALE as int)) * v == (SCALE as int) * (k * v)) by (nonlinear_arith);
    vstd::arithmetic::div_mod::lemma_div_is_ordered(
        aa * ab,
        (SCALE as int) * (k * v),
        SCALE as int,
    );
    vstd::arithmetic::div_mod::lemma_div_multiples_vanish(k * v, SCALE as int);
}

/// Dividing a non-negative value by a positive divisor cannot grow it.
pub proof fn lemma_div_le_self(x: int, d: int)
    requires
        0 <= x,
        1 <= d,
    ensures
        0 <= x / d <= x,
{
    vstd::arithmetic::div_mod::lemma_div_is_ordered_by_denominator(x, 1, d);
    vstd::arithmetic::div_mod::lemma_div_pos_is_pos(x, d);
    assert(x / 1 == x);
}

/// Integer square root by bisection.
pub fn isqrt_u128(n: u128) -> (r: u64)
    requires
        n <= 10_000_000_000_000_000_000_000u128,
    ensures
        is_isqrt(r as int, n as int),
        r as int == spec_isqrt(n as int),
        r <= 100_000_000_000u64,
{
    let mut lo: u64 = 0;
    let mut hi: u64 = 100_000_000_000;
    proof {
        assert((100_000_000_000i64 as int + 1) * (100_000_000_000i64 as int + 1)
            > 10_000_000_000_000_000_000_000) by (nonlinear_arith);
    }
    while lo < hi
        invariant
            lo <= hi <= 100_000_000_000u64,
            (lo as int) * (lo as int) <= n as int,
            (n as int) < ((hi as int) + 1) * ((hi as int) + 1),
        decreases hi - lo,
    {
        let mid: u64 = lo + (hi - lo + 1) / 2;
        proof {
            lemma_mul_le(mid as int, mid as int, 100_000_000_000, 100_000_000_000);
        }
        let sq: u128 = (mid as u128) * (mid as u128);
        if sq <= n {
            lo = mid;
        } else {
            hi = mid - 1;
        }
    }
    proof {
        assert(is_isqrt(lo as int, n as int));
        let w = spec_isqrt(n as int);
        assert(is_isqrt(w, n as int)) by {
            assert(exists|r: int| is_isqrt(r, n as int)) by {
                assert(is_isqrt(lo as int, n as int));
            }
        }
        lemma_isqrt_unique(lo as int, w, n as int);
    }
    lo
}

} // verus!
