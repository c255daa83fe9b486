//! Fixed-point quaternions and vectors: the rotation algebra behind the
//! orbit camera. Quaternion components are micro-unit fixed-point numbers;
//! a rotation is kept near unit length (within a small tolerance of one)
//! by renormalizing after every composition or interpolation.

use vstd::prelude::*;
use crate::fixed::{
    abs_i, isqrt_u128, lemma_fmul_abs_le, lemma_mul_le, lemma_mul_sign, muldiv, spec_fmul,
    spec_isqrt, sq_i64, tdiv, SCALE,
};
use crate::damp::damp_step;

verus! {

/// Largest magnitude of one component of a near-unit quaternion.
pub const QCOMP_MAX: i64 = 1_100_000;

/// Lower bound on the squared norm of a near-unit quaternion.
pub const UNIT_NSQ_LO: i64 = 998_000_000_000;

/// Upper bound on the squared norm of a near-unit quaternion.
pub const UNIT_NSQ_HI: i64 = 1_002_000_000_000;

#[derive(Clone, Copy, PartialEq, Eq, Structural, Debug)]
pub struct Quat {
    pub x: i64,
    pub y: i64,
    pub z: i64,
    pub w: i64,
}

#[derive(Clone, Copy, PartialEq, Eq, Structural, Debug)]
pub struct Vec3 {
    pub x: i64,
    pub y: i64,
    pub z: i64,
}

pub open spec fn vec_norm_sq(v: Vec3) -> int {
    (v.x as int) * (v.x as int) + (v.y as int) * (v.y as int) + (v.z as int) * (v.z as int)
}

pub open spec fn quat_norm_sq(q: Quat) -> int {
    (q.x as int) * (q.x as int) + (q.y as int) * (q.y as int) + (q.z as int) * (q.z as int) + (
    q.w as int) * (q.w as int)
}

/// A quaternion of length one, up to the fixed-point tolerance.
pub open spec fn near_unit(q: Quat) -> bool {
    &&& abs_i(q.x as int) <= QCOMP_MAX
    &&& abs_i(q.y as int) <= QCOMP_MAX
    &&& abs_i(q.z as int) <= QCOMP_MAX
    &&& abs_i(q.w as int) <= QCOMP_MAX
    &&& UNIT_NSQ_LO <= quat_norm_sq(q) <= UNIT_NSQ_HI
}

/// A cosine-sine pair of length one, up to the fixed-point tolerance.
pub open spec fn near_unit2(c: int, s: int) -> bool {
    &&& abs_i(c) <= QCOMP_MAX
    &&& abs_i(s) <= QCOMP_MAX
    &&& UNIT_NSQ_LO <= c * c + s * s <= UNIT_NSQ_HI
}

pub open spec fn spec_quat_identity() -> Quat {
    Quat { x: 0, y: 0, z: 0, w: SCALE }
}

pub proof fn lemma_identity_near_unit()
    ensures
        near_unit(spec_quat_identity()),
{
    assert(quat_norm_sq(spec_quat_identity()) == 1_000_000_000_000);
}

/// The identity rotation.
pub fn quat_identity() -> (q: Quat)
    ensures
        q == spec_quat_identity(),
        near_unit(q),
{
    proof {
        lemma_identity_near_unit();
    }
    Quat { x: 0, y: 0, z: 0, w: SCALE }
}

/// Whether `q` is of unit length up to the fixed-point tolerance.
pub fn is_near_unit(q: &Quat) -> (b: bool)
    requires
        abs_i(q.x as int) <= 100_000_000_000,
        abs_i(q.y as int) <= 100_000_000_000,
        abs_i(q.z as int) <= 100_000_000_000,
        abs_i(q.w as int) <= 100_000_000_000,
    ensures
        b == near_unit(*q),
{
    if q.x > QCOMP_MAX || q.x < -QCOMP_MAX || q.y > QCOMP_MAX || q.y < -QCOMP_MAX || q.z
        > QCOMP_MAX || q.z < -QCOMP_MAX || q.w > QCOMP_MAX || q.w < -QCOMP_MAX {
        return false;
    }
    proof {
        assert((q.x as int) * (q.x as int) <= 1_210_000_000_000 && (q.y as int) * (q.y as int)
            <= 1_210_000_000_000 && (q.z as int) * (q.z as int) <= 1_210_000_000_000 && (
        q.w as int) * (q.w as int) <= 1_210_000_000_000) by (nonlinear_arith)
            requires
                -1_100_000 <= q.x as int <= 1_100_000,
                -1_100_000 <= q.y as int <= 1_100_000,
                -1_100_000 <= q.z as int <= 1_100_000,
                -1_100_000 <= q.w as int <= 1_100_000,
        ;
    }
    let n: i64 = sq_i64(q.x) + sq_i64(q.y) + sq_i64(q.z) + sq_i64(q.w);
    UNIT_NSQ_LO <= n && n <= UNIT_NSQ_HI
}

/// The Hamilton product of two quaternions, each fixed-point product
/// truncated toward zero.
pub open spec fn spec_quat_mul(a: Quat, b: Quat) -> Quat {
    Quat {
        x: (spec_fmul(a.w as int, b.x as int) + spec_fmul(a.x as int, b.w as int) + spec_fmul(
            a.y as int,
            b.z as int,
        ) - spec_fmul(a.z as int, b.y as int)) as i64,
        y: (spec_fmul(a.w as int, b.y as int) - spec_fmul(a.x as int, b.z as int) + spec_fmul(
            a.y as int,
            b.w as int,
        ) + spec_fmul(a.z as int, b.x as int)) as i64,
        z: (spec_fmul(a.w as int, b.z as int) + spec_fmul(a.x as int, b.y as int) - spec_fmul(
            a.y as int,
            b.x as int,
        ) + spec_fmul(a.z as int, b.w as int)) as i64,
        w: (spec_fmul(a.w as int, b.w as int) - spec_fmul(a.x as int, b.x as int) - spec_fmul(
            a.y as int,
            b.y as int,
        ) - spec_fmul(a.z as int, b.z as int)) as i64,
    }
}

/// Compose two rotations: the Hamilton product `a * b`.
pub fn quat_mul(a: &Quat, b: &Quat) -> (r: Quat)
    requires
        abs_i(a.x as int) <= 2_000_000,
        abs_i(a.y as int) <= 2_000_000,
        abs_i(a.z as int) <= 2_000_000,
        abs_i(a.w as int) <= 2_000_000,
        abs_i(b.x as int) <= 2_000_000,
        abs_i(b.y as int) <= 2_000_000,
        abs_i(b.z as int) <= 2_000_000,
        abs_i(b.w as int) <= 2_000_000,
    ensures
        r == spec_quat_mul(*a, *b),
        abs_i(r.x as int) <= 16_000_000,
        abs_i(r.y as int) <= 16_000_000,
        abs_i(r.z as int) <= 16_000_000,
        abs_i(r.w as int) <= 16_000_000,
{
    let x: i64 = fmul4(a.w, b.x, a.x, b.w, a.y, b.z, a.z, b.y, false, false, false, true);
    let y: i64 = fmul4(a.w, b.y, a.x, b.z, a.y, b.w, a.z, b.x, false, true, false, false);
    let z: i64 = fmul4(a.w, b.z, a.x, b.y, a.y, b.x, a.z, b.w, false, false, true, false);
    let w: i64 = fmul4(a.w, b.w, a.x, b.x, a.y, b.y, a.z, b.z, false, true, true, true);
    Quat { x, y, z, w }
}

/// Four fixed-point products combined with the given signs (`true` for
/// subtraction): one component of a Hamilton product.
fn fmul4(
    a1: i64,
    b1: i64,
    a2: i64,
    b2: i64,
    a3: i64,
    b3: i64,
    a4: i64,
    b4: i64,
    n1: bool,
    n2: bool,
    n3: bool,
    n4: bool,
) -> (r: i64)
    requires
        abs_i(a1 as int) <= 2_000_000,
        abs_i(b1 as int) <= 2_000_000,
        abs_i(a2 as int) <= 2_000_000,
        abs_i(b2 as int) <= 2_000_000,
        abs_i(a3 as int) <= 2_000_000,
        abs_i(b3 as int) <= 2_000_000,
        abs_i(a4 as int) <= 2_000_000,
        abs_i(b4 as int) <= 2_000_000,
    ensures
        r as int == (if n1 {
            -spec_fmul(a1 as int, b1 as int)
        } else {
            spec_fmul(a1 as int, b1 as int)
        }) + (if n2 {
            -spec_fmul(a2 as int, b2 as int)
        } else {
            spec_fmul(a2 as int, b2 as int)
        }) + (if n3 {
            -spec_fmul(a3 as int, b3 as int)
        } else {
            spec_fmul(a3 as int, b3 as int)
        }) + (if n4 {
            -spec_fmul(a4 as int, b4 as int)
        } else {
            spec_fmul(a4 as int, b4 as int)
        }),
        abs_i(r as int) <= 16_000_000,
{
    let t1: i64 = fmul_bounded(a1, b1);
    let t2: i64 = fmul_bounded(a2, b2);
    let t3: i64 = fmul_bounded(a3, b3);
    let t4: i64 = fmul_bounded(a4, b4);
    let s1: i64 = if n1 {
        -t1
    } else {
        t1
    };
    let s2: i64 = if n2 {
        -t2
    } else {
        t2
    };
    let s3: i64 = if n3 {
        -t3
    } else {
        t3
    };
    let s4: i64 = if n4 {
        -t4
    } else {
        t4
    };
    s1 + s2 + s3 + s4
}

/// A fixed-point product of two quaternion-sized operands.
fn fmul_bounded(a: i64, b: i64) -> (r: i64)
    requires
        abs_i(a as int) <= 2_000_000,
        abs_i(b as int) <= 2_000_000,
    ensures
        r as int == spec_fmul(a as int, b as int),
        abs_i(r as int) <= 4_000_000,
{
    proof {
        lemma_mul_le(abs_i(a as int), abs_i(b as int), 2_000_000, 2_000_000);
        lemma_fmul_abs_le(abs_i(a as int), abs_i(b as int), 2, 2_000_000);
    }
    crate::fixed::fmul(a, b)
}

/// `q` scaled to unit length by the integer square root of its squared
/// norm; the identity when the norm is zero or when fixed-point rounding
/// leaves the scaled result outside the unit tolerance.
pub open spec fn spec_normalize(q: Quat) -> Quat {
    let l = spec_isqrt(quat_norm_sq(q));
    if l == 0 {
        spec_quat_identity()
    } else {
        let c = Quat {
            x: tdiv((q.x as int) * (SCALE as int), l) as i64,
            y: tdiv((q.y as int) * (SCALE as int), l) as i64,
            z: tdiv((q.z as int) * (SCALE as int), l) as i64,
            w: tdiv((q.w as int) * (SCALE as int), l) as i64,
        };
        if near_unit(c) {
            c
        } else {
            spec_quat_identity()
        }
    }
}

/// Scale `q` back to unit length (within the fixed-point tolerance),
/// falling back to the identity when that cannot be reached.
pub fn quat_normalize(q: &Quat) -> (r: Quat)
    requires
        abs_i(q.x as int) <= 20_000_000,
        abs_i(q.y as int) <= 20_000_000,
        abs_i(q.z as int) <= 20_000_000,
        abs_i(q.w as int) <= 20_000_000,
    ensures
        r == spec_normalize(*q),
        near_unit(r),
{
    proof {
        assert(0 <= (q.x as int) * (q.x as int) <= 400_000_000_000_000 && 0 <= (q.y as int) * (
        q.y as int) <= 400_000_000_000_000 && 0 <= (q.z as int) * (q.z as int)
            <= 400_000_000_000_000 && 0 <= (q.w as int) * (q.w as int) <= 400_000_000_000_000)
            by (nonlinear_arith)
            requires
                -20_000_000 <= q.x as int <= 20_000_000,
                -20_000_000 <= q.y as int <= 20_000_000,
                -20_000_000 <= q.z as int <= 20_000_000,
                -20_000_000 <= q.w as int <= 20_000_000,
        ;
        lemma_identity_near_unit();
    }
    let n: i64 = sq_i64(q.x) + sq_i64(q.y) + sq_i64(q.z) + sq_i64(q.w);
    let l: u64 = isqrt_u128(n as u128);
    if l == 0 {
        return quat_identity();
    }
    proof {
        lemma_mul_le(abs_i(q.x as int), SCALE as int, 20_000_000, SCALE as int);
        lemma_mul_le(abs_i(q.y as int), SCALE as int, 20_000_000, SCALE as int);
        lemma_mul_le(abs_i(q.z as int), SCALE as int, 20_000_000, SCALE as int);
        lemma_mul_le(abs_i(q.w as int), SCALE as int, 20_000_000, SCALE as int);
    }
    let cx: i64 = muldiv(q.x, SCALE, l);
    let cy: i64 = muldiv(q.y, SCALE, l);
    let cz: i64 = muldiv(q.z, SCALE, l);
    let cw: i64 = muldiv(q.w, SCALE, l);
    let cand = Quat { x: cx, y: cy, z: cz, w: cw };
    if cx > QCOMP_MAX || cx < -QCOMP_MAX || cy > QCOMP_MAX || cy < -QCOMP_MAX || cz > QCOMP_MAX
        || cz < -QCOMP_MAX || cw > QCOMP_MAX || cw < -QCOMP_MAX {
        return quat_identity();
    }
    if is_near_unit(&cand) {
        cand
    } else {
        quat_identity()
    }
}

/// The largest component magnitude of `v`.
pub open spec fn vmax3(v: Vec3) -> int {
    crate::fixed::max_s(
        abs_i(v.x as int),
        crate::fixed::max_s(abs_i(v.y as int), abs_i(v.z as int)),
    )
}

/// The cross product, each fixed-point product truncated toward zero.
pub open spec fn spec_cross(a: Vec3, b: Vec3) -> Vec3 {
    Vec3 {
        x: (spec_fmul(a.y as int, b.z as int) - spec_fmul(a.z as int, b.y as int)) as i64,
        y: (spec_fmul(a.z as int, b.x as int) - spec_fmul(a.x as int, b.z as int)) as i64,
        z: (spec_fmul(a.x as int, b.y as int) - spec_fmul(a.y as int, b.x as int)) as i64,
    }
}

fn cross(a: &Vec3, b: &Vec3) -> (r: Vec3)
    requires
        abs_i(a.x as int) <= 2_000_000,
        abs_i(a.y as int) <= 2_000_000,
        abs_i(a.z as int) <= 2_000_000,
        vmax3(*b) <= 480_000_000_000,
    ensures
        r == spec_cross(*a, *b),
        abs_i(r.x as int) <= 4 * vmax3(*b),
        abs_i(r.y as int) <= 4 * vmax3(*b),
        abs_i(r.z as int) <= 4 * vmax3(*b),
{
    let x: i64 = fmul_big(a.y, b.z, Ghost(vmax3(*b))) - fmul_big(a.z, b.y, Ghost(vmax3(*b)));
    let y: i64 = fmul_big(a.z, b.x, Ghost(vmax3(*b))) - fmul_big(a.x, b.z, Ghost(vmax3(*b)));
    let z: i64 = fmul_big(a.x, b.y, Ghost(vmax3(*b))) - fmul_big(a.y, b.x, Ghost(vmax3(*b)));
    Vec3 { x, y, z }
}

/// A fixed-point product of a rotation-sized operand and a vector-sized
/// operand, with its magnitude bound stated against `vb`.
fn fmul_big(a: i64, b: i64, Ghost(vb): Ghost<int>) -> (r: i64)
    requires
        abs_i(a as int) <= 2_000_000,
        abs_i(b as int) <= vb,
        0 <= vb <= 480_000_000_000,
    ensures
        r as int == spec_fmul(a as int, b as int),
        abs_i(r as int) <= 2 * vb,
{
    proof {
        lemma_mul_le(abs_i(a as int), abs_i(b as int), 2_000_000, 480_000_000_000);
        lemma_fmul_abs_le(abs_i(a as int), abs_i(b as int), 2, vb);
    }
    crate::fixed::fmul(a, b)
}

/// `v` rotated by `q`: `v + w * t + qv x t` with `t = 2 * (qv x v)`, the
/// expansion of the sandwich product for a unit quaternion, each product
/// truncated toward zero.
pub open spec fn spec_rotate_vec(q: Quat, v: Vec3) -> Vec3 {
    let qv = Vec3 { x: q.x, y: q.y, z: q.z };
    let c = spec_cross(qv, v);
    let t = Vec3 { x: (c.x as int + c.x as int) as i64, y: (c.y as int + c.y as int) as i64, z: (
    c.z as int + c.z as int) as i64 };
    let qt = spec_cross(qv, t);
    Vec3 {
        x: (v.x as int + spec_fmul(q.w as int, t.x as int) + qt.x as int) as i64,
        y: (v.y as int + spec_fmul(q.w as int, t.y as int) + qt.y as int) as i64,
        z: (v.z as int + spec_fmul(q.w as int, t.z as int) + qt.z as int) as i64,
    }
}

/// Rotate `v` by the near-unit rotation `q`.
pub fn rotate_vec(q: &Quat, v: &Vec3) -> (r: Vec3)
    requires
        abs_i(q.x as int) <= 2_000_000,
        abs_i(q.y as int) <= 2_000_000,
        abs_i(q.z as int) <= 2_000_000,
        abs_i(q.w as int) <= 2_000_000,
        vmax3(*v) <= 60_000_000_000,
    ensures
        r == spec_rotate_vec(*q, *v),
        abs_i(r.x as int) <= 49 * vmax3(*v),
        abs_i(r.y as int) <= 49 * vmax3(*v),
        abs_i(r.z as int) <= 49 * vmax3(*v),
{
    let qv = Vec3 { x: q.x, y: q.y, z: q.z };
    let c = cross(&qv, v);
    let t = Vec3 { x: c.x + c.x, y: c.y + c.y, z: c.z + c.z };
    proof {
        assert(vmax3(t) <= 8 * vmax3(*v));
    }
    let qt = cross(&qv, &t);
    let x: i64 = v.x + fmul_big(q.w, t.x, Ghost(vmax3(t))) + qt.x;
    let y: i64 = v.y + fmul_big(q.w, t.y, Ghost(vmax3(t))) + qt.y;
    let z: i64 = v.z + fmul_big(q.w, t.z, Ghost(vmax3(t))) + qt.z;
    Vec3 { x, y, z }
}

/// The cosine-sine pair `sin_cos_half` computes for the angle `a`:
/// truncated Taylor polynomials of the half angle's magnitude, the pair
/// scaled to the unit circle by its integer length, falling back to the
/// pair for angle zero when the scaled pair leaves the unit tolerance, the
/// sine carrying the angle's sign.
pub open spec fn spec_sin_cos_half(a: int) -> (int, int) {
    if a == 0 {
        (SCALE as int, 0)
    } else {
        let s = SCALE as int;
        let h = abs_i(a) / 2;
        let t2 = (h * h) / s;
        let t3 = (t2 * h) / s;
        let t4 = (t2 * t2) / s;
        let t5 = (t2 * t3) / s;
        let ch = s - t2 / 2 + t4 / 24;
        let sh = h - t3 / 6 + t5 / 120;
        let l = spec_isqrt(ch * ch + sh * sh);
        let c1 = tdiv(ch * s, l);
        let s1 = tdiv(sh * s, l);
        if abs_i(c1) > QCOMP_MAX || abs_i(s1) > QCOMP_MAX {
            (s, 0)
        } else if UNIT_NSQ_LO <= c1 * c1 + s1 * s1 <= UNIT_NSQ_HI {
            (c1, if a < 0 { -s1 } else { s1 })
        } else {
            (s, 0)
        }
    }
}

/// Cosine and sine of half the angle `a` (micro-radians, magnitude at most
/// 1.6), from truncated Taylor polynomials, the pair renormalized to unit
/// length; the pair for angle zero is the fallback when renormalization
/// cannot reach the unit tolerance. Exact at zero.
pub fn sin_cos_half(a: i64) -> (cs: (i64, i64))
    requires
        -1_600_000 <= a <= 1_600_000,
    ensures
        cs.0 as int == spec_sin_cos_half(a as int).0,
        cs.1 as int == spec_sin_cos_half(a as int).1,
        near_unit2(cs.0 as int, cs.1 as int),
        a == 0 ==> cs.0 == SCALE && cs.1 == 0,
        a >= 0 ==> cs.1 >= 0,
        a <= 0 ==> cs.1 <= 0,
{
    proof {
        assert(near_unit2(SCALE as int, 0)) by {
            assert((SCALE as int) * (SCALE as int) == 1_000_000_000_000);
        }
    }
    if a == 0 {
        return (SCALE, 0);
    }
    let am: u64 = if a < 0 {
        (-a) as u64
    } else {
        a as u64
    };
    let hm: i64 = (am / 2) as i64;
    proof {
        lemma_mul_sign(hm as int, hm as int);
        lemma_mul_le(hm as int, hm as int, 800_000, 800_000);
    }
    let t2: i64 = crate::fixed::fmul(hm, hm);
    proof {
        crate::fixed::lemma_div_le_self((hm as int) * (hm as int), SCALE as int);
        assert(0 <= t2 <= 640_000);
        lemma_mul_sign(t2 as int, hm as int);
        lemma_mul_le(t2 as int, hm as int, 640_000, 800_000);
        lemma_mul_sign(t2 as int, t2 as int);
        lemma_mul_le(t2 as int, t2 as int, 640_000, 640_000);
    }
    let t3: i64 = crate::fixed::fmul(t2, hm);
    let t4: i64 = crate::fixed::fmul(t2, t2);
    proof {
        crate::fixed::lemma_div_le_self((t2 as int) * (hm as int), SCALE as int);
        crate::fixed::lemma_div_le_self((t2 as int) * (t2 as int), SCALE as int);
        assert(0 <= t3 <= 512_000);
        assert(0 <= t4 <= 409_600);
        lemma_mul_sign(t2 as int, t3 as int);
        lemma_mul_le(t2 as int, t3 as int, 640_000, 512_000);
    }
    let t5: i64 = crate::fixed::fmul(t2, t3);
    proof {
        crate::fixed::lemma_div_le_self((t2 as int) * (t3 as int), SCALE as int);
        assert(0 <= t5 <= 327_680);
    }
    let ch: i64 = SCALE - ((t2 as u64) / 2) as i64 + ((t4 as u64) / 24) as i64;
    proof {
        assert(680_000 <= ch <= 1_017_067);
        lemma_mul_le(t2 as int, hm as int, 640_000, hm as int);
        lemma_fmul_abs_le(t2 as int, hm as int, 1, hm as int);
        assert(t3 <= hm);
    }
    let sh: i64 = hm - ((t3 as u64) / 6) as i64 + ((t5 as u64) / 120) as i64;
    proof {
        assert(0 <= sh <= 806_000);
        assert(462_400_000_000 <= (ch as int) * (ch as int)) by (nonlinear_arith)
            requires
                680_000 <= ch as int,
        ;
        assert((ch as int) * (ch as int) <= 1_050_000_000_000 && 0 <= (sh as int) * (sh as int)
            <= 650_000_000_000) by (nonlinear_arith)
            requires
                680_000 <= ch as int <= 1_020_000,
                0 <= sh as int <= 806_000,
        ;
    }
    let n2: i64 = sq_i64(ch) + sq_i64(sh);
    let l: u64 = isqrt_u128(n2 as u128);
    proof {
        assert(l >= 1) by (nonlinear_arith)
            requires
                1 <= n2 as int,
                (n2 as int) < ((l as int) + 1) * ((l as int) + 1),
                0 <= l as int,
        ;
        lemma_mul_le(abs_i(ch as int), SCALE as int, 1_020_000, SCALE as int);
        lemma_mul_le(abs_i(sh as int), SCALE as int, 806_000, SCALE as int);
    }
    let c1: i64 = muldiv(ch, SCALE, l);
    let s1: i64 = muldiv(sh, SCALE, l);
    if c1 > QCOMP_MAX || c1 < -QCOMP_MAX || s1 > QCOMP_MAX || s1 < -QCOMP_MAX {
        return (SCALE, 0);
    }
    proof {
        assert(0 <= (c1 as int) * (c1 as int) <= 1_210_000_000_000 && 0 <= (s1 as int) * (
        s1 as int) <= 1_210_000_000_000) by (nonlinear_arith)
            requires
                -1_100_000 <= c1 as int <= 1_100_000,
                -1_100_000 <= s1 as int <= 1_100_000,
        ;
    }
    let nc: i64 = sq_i64(c1) + sq_i64(s1);
    if UNIT_NSQ_LO <= nc && nc <= UNIT_NSQ_HI {
        if a < 0 {
            proof {
                crate::fixed::lemma_neg_mul(s1 as int, s1 as int);
            }
            (c1, -s1)
        } else {
            (c1, s1)
        }
    } else {
        (SCALE, 0)
    }
}

/// The rotation by `angle` about the x axis, as computed in fixed point.
pub open spec fn spec_from_rotation_x(angle: int) -> Quat {
    let cs = spec_sin_cos_half(angle);
    Quat { x: cs.1 as i64, y: 0, z: 0, w: cs.0 as i64 }
}

/// The rotation by `angle` about the y axis, as computed in fixed point.
pub open spec fn spec_from_rotation_y(angle: int) -> Quat {
    let cs = spec_sin_cos_half(angle);
    Quat { x: 0, y: cs.1 as i64, z: 0, w: cs.0 as i64 }
}

/// The rotation by `angle` (micro-radians) about the x axis.
pub fn quat_from_rotation_x(angle: i64) -> (q: Quat)
    requires
        -1_600_000 <= angle <= 1_600_000,
    ensures
        q == spec_from_rotation_x(angle as int),
        near_unit(q),
        angle == 0 ==> q == spec_quat_identity(),
        q.y == 0 && q.z == 0,
        angle >= 0 ==> q.x >= 0,
        angle <= 0 ==> q.x <= 0,
{
    let (c, s) = sin_cos_half(angle);
    let q = Quat { x: s, y: 0, z: 0, w: c };
    proof {
        assert(quat_norm_sq(q) == (c as int) * (c as int) + (s as int) * (s as int));
    }
    q
}

/// The rotation by `angle` (micro-radians) about the y axis.
pub fn quat_from_rotation_y(angle: i64) -> (q: Quat)
    requires
        -1_600_000 <= angle <= 1_600_000,
    ensures
        q == spec_from_rotation_y(angle as int),
        near_unit(q),
        angle == 0 ==> q == spec_quat_identity(),
        q.x == 0 && q.z == 0,
        angle >= 0 ==> q.y >= 0,
        angle <= 0 ==> q.y <= 0,
{
    let (c, s) = sin_cos_half(angle);
    let q = Quat { x: 0, y: s, z: 0, w: c };
    proof {
        assert(quat_norm_sq(q) == (c as int) * (c as int) + (s as int) * (s as int));
    }
    q
}

/// The rotation about the axis of `v` by the length of `v`, as computed in
/// fixed point: the axis scaled onto the unit sphere by the sine of the
/// half angle, the identity when rounding leaves the unit tolerance.
pub open spec fn spec_from_scaled_axis(v: Vec3) -> Quat {
    let th = spec_isqrt(vec_norm_sq(v));
    let cs = spec_sin_cos_half(th);
    let qx = tdiv((v.x as int) * cs.1, th);
    let qy = tdiv((v.y as int) * cs.1, th);
    let qz = tdiv((v.z as int) * cs.1, th);
    let cand = Quat { x: qx as i64, y: qy as i64, z: qz as i64, w: cs.0 as i64 };
    if abs_i(qx) > QCOMP_MAX || abs_i(qy) > QCOMP_MAX || abs_i(qz) > QCOMP_MAX {
        spec_quat_identity()
    } else if near_unit(cand) {
        cand
    } else {
        spec_quat_identity()
    }
}

/// The rotation about the axis of `v`, by an angle equal to the length of
/// `v` in micro-radians. `v` must not be the zero vector.
pub fn quat_from_scaled_axis(v: &Vec3) -> (q: Quat)
    requires
        abs_i(v.x as int) <= 60_000,
        abs_i(v.y as int) <= 60_000,
        abs_i(v.z as int) <= 60_000,
        !(v.x == 0 && v.y == 0 && v.z == 0),
    ensures
        q == spec_from_scaled_axis(*v),
        near_unit(q),
{
    proof {
        assert((v.x != 0 ==> 1 <= (v.x as int) * (v.x as int)) && (v.y != 0 ==> 1 <= (v.y as int)
            * (v.y as int)) && (v.z != 0 ==> 1 <= (v.z as int) * (v.z as int)) && 0 <= (
        v.x as int) * (v.x as int) <= 3_600_000_000 && 0 <= (v.y as int) * (v.y as int)
            <= 3_600_000_000 && 0 <= (v.z as int) * (v.z as int) <= 3_600_000_000)
            by (nonlinear_arith)
            requires
                -60_000 <= v.x as int <= 60_000,
                -60_000 <= v.y as int <= 60_000,
                -60_000 <= v.z as int <= 60_000,
                !(v.x == 0 && v.y == 0 && v.z == 0),
        ;
        lemma_identity_near_unit();
    }
    let n: i64 = sq_i64(v.x) + sq_i64(v.y) + sq_i64(v.z);
    let th: u64 = isqrt_u128(n as u128);
    proof {
        assert(th >= 1) by (nonlinear_arith)
            requires
                1 <= n as int,
                (n as int) < ((th as int) + 1) * ((th as int) + 1),
                0 <= th as int,
        ;
        assert(th as int <= 103_923) by (nonlinear_arith)
            requires
                (th as int) * (th as int) <= 10_800_000_000,
                0 <= th as int,
        ;
    }
    let (c, s) = sin_cos_half(th as i64);
    proof {
        lemma_mul_le(abs_i(v.x as int), s as int, 60_000, 1_100_000);
        lemma_mul_le(abs_i(v.y as int), s as int, 60_000, 1_100_000);
        lemma_mul_le(abs_i(v.z as int), s as int, 60_000, 1_100_000);
    }
    let qx: i64 = muldiv(v.x, s, th);
    let qy: i64 = muldiv(v.y, s, th);
    let qz: i64 = muldiv(v.z, s, th);
    if qx > QCOMP_MAX || qx < -QCOMP_MAX || qy > QCOMP_MAX || qy < -QCOMP_MAX || qz > QCOMP_MAX
        || qz < -QCOMP_MAX {
        return quat_identity();
    }
    let cand = Quat { x: qx, y: qy, z: qz, w: c };
    if is_near_unit(&cand) {
        cand
    } else {
        quat_identity()
    }
}

/// The dot product of two quaternions, each fixed-point product truncated
/// toward zero.
pub open spec fn spec_quat_dot(a: Quat, b: Quat) -> int {
    spec_fmul(a.x as int, b.x as int) + spec_fmul(a.y as int, b.y as int) + spec_fmul(
        a.z as int,
        b.z as int,
    ) + spec_fmul(a.w as int, b.w as int)
}

pub open spec fn spec_quat_neg(q: Quat) -> Quat {
    Quat {
        x: (-(q.x as int)) as i64,
        y: (-(q.y as int)) as i64,
        z: (-(q.z as int)) as i64,
        w: (-(q.w as int)) as i64,
    }
}

/// One damping step of strength `alpha` for a rotation: component-wise
/// interpolation toward the target (negated when that is the shorter arc),
/// then renormalization. A step of strength zero, or one taken at the
/// target, changes nothing.
pub open spec fn spec_rot_step(cur: Quat, tgt: Quat, alpha: int) -> Quat {
    if alpha == 0 || cur == tgt {
        cur
    } else {
        let tq = if spec_quat_dot(cur, tgt) < 0 {
            spec_quat_neg(tgt)
        } else {
            tgt
        };
        let lerped = Quat {
            x: damp_step(cur.x as int, tq.x as int, alpha) as i64,
            y: damp_step(cur.y as int, tq.y as int, alpha) as i64,
            z: damp_step(cur.z as int, tq.z as int, alpha) as i64,
            w: damp_step(cur.w as int, tq.w as int, alpha) as i64,
        };
        spec_normalize(lerped)
    }
}

/// One component of the interpolation step: the damping step for scalars.
fn lerp_comp(c: i64, t: i64, alpha: i64) -> (r: i64)
    requires
        -2_000_000 <= c <= 2_000_000,
        -2_000_000 <= t <= 2_000_000,
        0 <= alpha <= SCALE,
    ensures
        r as int == damp_step(c as int, t as int, alpha as int),
        c <= t ==> c <= r <= t,
        t <= c ==> t <= r <= c,
{
    if c <= t {
        let diff: u64 = (t - c) as u64;
        proof {
            lemma_mul_le(diff as int, alpha as int, 4_000_000, SCALE as int);
            lemma_mul_le(diff as int, alpha as int, diff as int, SCALE as int);
            vstd::arithmetic::div_mod::lemma_div_is_ordered(
                (diff as int) * (alpha as int),
                (diff as int) * (SCALE as int),
                SCALE as int,
            );
            vstd::arithmetic::div_mod::lemma_div_multiples_vanish(diff as int, SCALE as int);
            assert((diff as int) * (SCALE as int) == (SCALE as int) * (diff as int))
                by (nonlinear_arith);
            lemma_mul_sign(diff as int, alpha as int);
        }
        let step: u64 = diff * (alpha as u64) / 1_000_000;
        c + (step as i64)
    } else {
        let diff: u64 = (c - t) as u64;
        proof {
            lemma_mul_le(diff as int, alpha as int, 4_000_000, SCALE as int);
            lemma_mul_le(diff as int, alpha as int, diff as int, SCALE as int);
            vstd::arithmetic::div_mod::lemma_div_is_ordered(
                (diff as int) * (alpha as int),
                (diff as int) * (SCALE as int),
                SCALE as int,
            );
            vstd::arithmetic::div_mod::lemma_div_multiples_vanish(diff as int, SCALE as int);
            assert((diff as int) * (SCALE as int) == (SCALE as int) * (diff as int))
                by (nonlinear_arith);
            lemma_mul_sign(diff as int, alpha as int);
            crate::fixed::lemma_neg_mul(diff as int, alpha as int);
        }
        let step: u64 = diff * (alpha as u64) / 1_000_000;
        c - (step as i64)
    }
}

/// A rotation approaching `target` along the shorter arc at the
/// exponential response `rate` (per second, in micro-units).
#[derive(Clone, Copy)]
pub struct DampedRotation {
    pub current: Quat,
    pub target: Quat,
    pub rate: i64,
}

impl DampedRotation {
    pub open spec fn wf(self) -> bool {
        &&& near_unit(self.current)
        &&& near_unit(self.target)
        &&& 0 <= self.rate <= crate::fixed::RATE_MAX
    }

    pub fn new(value: Quat, rate: i64) -> (d: DampedRotation)
        requires
            near_unit(value),
            0 <= rate <= crate::fixed::RATE_MAX,
        ensures
            d.wf(),
            d.current == value,
            d.target == value,
            d.rate == rate,
    {
        DampedRotation { current: value, target: value, rate }
    }

    /// One damping step of strength `alpha` toward the target. The current
    /// value stays near unit length; a step of strength zero, or one taken
    /// at the target, changes nothing.
    pub fn advance(&mut self, alpha: i64)
        requires
            old(self).wf(),
            0 <= alpha <= SCALE,
        ensures
            final(self).wf(),
            final(self).target == old(self).target,
            final(self).rate == old(self).rate,
            final(self).current == spec_rot_step(
                old(self).current,
                old(self).target,
                alpha as int,
            ),
            alpha == 0 ==> final(self).current == old(self).current,
            old(self).current == old(self).target ==> final(self).current == old(self).current,
    {
        if alpha == 0 {
            return ;
        }
        if self.current == self.target {
            return ;
        }
        let dot: i64 = fmul_bounded(self.current.x, self.target.x) + fmul_bounded(
            self.current.y,
            self.target.y,
        ) + fmul_bounded(self.current.z, self.target.z) + fmul_bounded(
            self.current.w,
            self.target.w,
        );
        let tq: Quat = if dot < 0 {
            Quat { x: -self.target.x, y: -self.target.y, z: -self.target.z, w: -self.target.w }
        } else {
            self.target
        };
        let lerped = Quat {
            x: lerp_comp(self.current.x, tq.x, alpha),
            y: lerp_comp(self.current.y, tq.y, alpha),
            z: lerp_comp(self.current.z, tq.z, alpha),
            w: lerp_comp(self.current.w, tq.w, alpha),
        };
        self.current = quat_normalize(&lerped);
    }

    /// Advance toward the target by one time step of `dt` micro-seconds:
    /// one damping step whose strength is derived from `rate * dt`. Returns
    /// the new current value.
    pub fn drive(&mut self, dt: u64) -> (value: Quat)
        requires
            old(self).wf(),
            dt <= crate::fixed::DT_MAX,
        ensures
            final(self).wf(),
            final(self).target == old(self).target,
            final(self).rate == old(self).rate,
            value == final(self).current,
            final(self).current == spec_rot_step(
                old(self).current,
                old(self).target,
                crate::damp::spec_alpha_for(old(self).rate as int, dt as int),
            ),
            dt == 0 ==> final(self).current == old(self).current,
            old(self).current == old(self).target ==> final(self).current == old(self).current,
    {
        let a: i64 = crate::damp::alpha_for(self.rate, dt);
        self.advance(a);
        self.current
    }
}

} // verus!\n