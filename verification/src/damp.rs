//! The damped-approach primitive for scalars: a current value that moves a
//! fraction of the remaining distance toward a mutable target on every
//! step, at a frame-time-independent rate.

use vstd::prelude::*;
use vstd::arithmetic::div_mod::{
    lemma_div_is_ordered, lemma_div_multiples_vanish, lemma_fundamental_div_mod,
};
use crate::fixed::{
    abs_i, lemma_mul_le, lemma_mul_sign, lemma_neg_mul, DT_MAX, LN2_FP, RATE_MAX, SCALE, VMAX,
};

verus! {

/// A scalar approaching `target` at the exponential response `rate`
/// (per second, in micro-units). All three fields are micro-unit
/// fixed-point values.
#[derive(Clone, Copy)]
pub struct DampedScalar {
    pub current: i64,
    pub target: i64,
    pub rate: i64,
}

/// The current value after one damping step of strength `alpha`
/// (a fraction of SCALE): the current value moves `(distance * alpha) /
/// SCALE` toward the target, the step truncated toward zero.
pub open spec fn damp_step(cur: int, tgt: int, alpha: int) -> int {
    if cur <= tgt {
        cur + (tgt - cur) * alpha / (SCALE as int)
    } else {
        cur - (cur - tgt) * alpha / (SCALE as int)
    }
}

/// The value after one damping step at strength `alpha` before any
/// fixed-point rounding, multiplied by SCALE.
pub open spec fn ideal_step_scaled(cur: int, tgt: int, alpha: int) -> int {
    cur * (SCALE as int) + (tgt - cur) * alpha
}

/// The value after two damping steps at strength `alpha` before rounding,
/// multiplied by SCALE squared: the second step starts from the first.
pub open spec fn ideal_double_step_scaled(cur: int, tgt: int, alpha: int) -> int {
    ideal_step_scaled(cur, tgt, alpha) * (SCALE as int) + (tgt * (SCALE as int)
        - ideal_step_scaled(cur, tgt, alpha)) * alpha
}

/// Frame-time independence of the damping model: whenever the fraction
/// retained by one full step, `SCALE - a1`, equals the square of the
/// fraction retained by a half step, `SCALE - a2`, two half steps land
/// exactly where the one full step lands (before fixed-point rounding).
pub proof fn lemma_frame_time_independence(cur: int, tgt: int, a1: int, a2: int)
    requires
        (SCALE - a1) * (SCALE as int) == (SCALE - a2) * (SCALE - a2),
    ensures
        ideal_double_step_scaled(cur, tgt, a2) == ideal_step_scaled(cur, tgt, a1) * (SCALE as int),
{
    let s: int = SCALE as int;
    let d: int = tgt - cur;
    assert((cur * s + d * a2) * s == cur * (s * s) + d * (a2 * s)) by (nonlinear_arith);
    assert(tgt * s - (cur * s + d * a2) == d * s - d * a2) by (nonlinear_arith)
        requires
            d == tgt - cur,
    ;
    assert((d * s - d * a2) * a2 == d * (a2 * s) - d * (a2 * a2)) by (nonlinear_arith);
    assert(a1 * s == 2 * (a2 * s) - a2 * a2) by (nonlinear_arith)
        requires
            (s - a1) * s == (s - a2) * (s - a2),
    ;
    assert(2 * (d * (a2 * s)) - d * (a2 * a2) == d * (a1 * s)) by (nonlinear_arith)
        requires
            a1 * s == 2 * (a2 * s) - a2 * a2,
    ;
    assert((cur * s + d * a1) * s == cur * (s * s) + d * (a1 * s)) by (nonlinear_arith);
    assert(ideal_double_step_scaled(cur, tgt, a2) == (cur * s + d * a2) * s + (tgt * s - (cur * s
        + d * a2)) * a2);
    assert(ideal_step_scaled(cur, tgt, a1) * s == (cur * s + d * a1) * s);
}

/// One damping step never overshoots: the new value lies between the old
/// value and the target.
pub proof fn lemma_damp_step_between(cur: int, tgt: int, alpha: int)
    requires
        0 <= alpha <= SCALE,
    ensures
        cur <= tgt ==> cur <= damp_step(cur, tgt, alpha) <= tgt,
        tgt <= cur ==> tgt <= damp_step(cur, tgt, alpha) <= cur,
{
    let s: int = SCALE as int;
    if cur <= tgt {
        let d: int = tgt - cur;
        lemma_mul_sign(d, alpha);
        lemma_mul_le(d, alpha, d, s);
        lemma_div_is_ordered(d * alpha, d * s, s);
        lemma_div_multiples_vanish(d, s);
        assert(d * s == s * d) by (nonlinear_arith);
        vstd::arithmetic::div_mod::lemma_div_pos_is_pos(d * alpha, s);
    } else {
        let d: int = cur - tgt;
        lemma_mul_sign(d, alpha);
        lemma_mul_le(d, alpha, d, s);
        lemma_div_is_ordered(d * alpha, d * s, s);
        lemma_div_multiples_vanish(d, s);
        assert(d * s == s * d) by (nonlinear_arith);
        vstd::arithmetic::div_mod::lemma_div_pos_is_pos(d * alpha, s);
    }
}

/// Frame-time independence of the executable steps: whenever the fraction
/// retained by one full step equals the square of the fraction retained by
/// a half step, taking two half steps lands within two micro-units of the
/// one full step — the ideal steps agree exactly and each fixed-point step
/// rounds by less than one ulp.
pub proof fn lemma_frame_time_independence_exec(cur: int, tgt: int, a1: int, a2: int)
    requires
        0 <= a1 <= SCALE,
        0 <= a2 <= SCALE,
        (SCALE - a1) * (SCALE as int) == (SCALE - a2) * (SCALE - a2),
    ensures
        abs_i(damp_step(damp_step(cur, tgt, a2), tgt, a2) - damp_step(cur, tgt, a1)) < 3,
{
    let s: int = SCALE as int;
    let c1: int = damp_step(cur, tgt, a2);
    let c2: int = damp_step(c1, tgt, a2);
    let cf: int = damp_step(cur, tgt, a1);
    let i1: int = ideal_step_scaled(cur, tgt, a2);
    let id: int = ideal_double_step_scaled(cur, tgt, a2);
    let i2: int = ideal_step_scaled(c1, tgt, a2);
    let ifl: int = ideal_step_scaled(cur, tgt, a1);
    lemma_frame_time_independence(cur, tgt, a1, a2);
    lemma_damp_tracks_ideal(cur, tgt, a2);
    lemma_damp_tracks_ideal(c1, tgt, a2);
    lemma_damp_tracks_ideal(cur, tgt, a1);
    let e1: int = i1 - s * c1;
    // The ideal double step differs from the ideal step taken at c1 by the
    // first step's rounding error, attenuated by the retained fraction.
    assert(id - s * i2 == e1 * (s - a2)) by (nonlinear_arith)
        requires
            id == i1 * s + (tgt * s - i1) * a2,
            i2 == c1 * s + (tgt - c1) * a2,
            e1 == i1 - s * c1,
    ;
    assert(abs_i(e1 * (s - a2)) < s * s) by (nonlinear_arith)
        requires
            abs_i(e1) < s,
            0 <= s - a2 <= s,
            s == SCALE as int,
    ;
    assert(abs_i(s * i2 - s * (s * c2)) < s * s) by (nonlinear_arith)
        requires
            abs_i(i2 - s * c2) < s,
            s == SCALE as int,
    ;
    assert(abs_i(ifl * s - s * (s * cf)) < s * s) by (nonlinear_arith)
        requires
            abs_i(ifl - s * cf) < s,
            s == SCALE as int,
    ;
    assert(id == ifl * s);
    assert(abs_i(s * (s * c2) - s * (s * cf)) < 3 * (s * s)) by {
        assert(abs_i(id - s * (s * c2)) < 2 * (s * s));
    }
    assert(abs_i(c2 - cf) < 3) by (nonlinear_arith)
        requires
            abs_i(s * (s * c2) - s * (s * cf)) < 3 * (s * s),
            s == SCALE as int,
    ;
}

/// Frame-time independence of the executable steps under an inexact
/// retained-fraction relation: when the square of the half step's retained
/// fraction misses the full step's retained fraction (times SCALE) by at
/// most `eps`, two half steps land within `3 + |tgt - cur| * eps / SCALE^2`
/// of the one full step (stated multiplied through by SCALE^2): the ideal
/// steps differ by the relation's miss scaled by the remaining distance,
/// and each fixed-point step rounds by less than one ulp.
pub proof fn lemma_frame_time_independence_approx(cur: int, tgt: int, a1: int, a2: int, eps: int)
    requires
        0 <= a1 <= SCALE,
        0 <= a2 <= SCALE,
        0 <= eps,
        abs_i((SCALE - a1) * (SCALE as int) - (SCALE - a2) * (SCALE - a2)) <= eps,
    ensures
        abs_i(damp_step(damp_step(cur, tgt, a2), tgt, a2) - damp_step(cur, tgt, a1)) * ((
        SCALE as int) * (SCALE as int)) < 3 * ((SCALE as int) * (SCALE as int)) + abs_i(tgt - cur)
            * eps,
{
    let s: int = SCALE as int;
    let d: int = tgt - cur;
    let delta: int = (s - a1) * s - (s - a2) * (s - a2);
    let c1: int = damp_step(cur, tgt, a2);
    let c2: int = damp_step(c1, tgt, a2);
    let cf: int = damp_step(cur, tgt, a1);
    let i1: int = ideal_step_scaled(cur, tgt, a2);
    let id: int = ideal_double_step_scaled(cur, tgt, a2);
    let i2: int = ideal_step_scaled(c1, tgt, a2);
    let ifl: int = ideal_step_scaled(cur, tgt, a1);
    lemma_damp_tracks_ideal(cur, tgt, a2);
    lemma_damp_tracks_ideal(c1, tgt, a2);
    lemma_damp_tracks_ideal(cur, tgt, a1);
    let e1: int = i1 - s * c1;
    assert(id - s * i2 == e1 * (s - a2)) by (nonlinear_arith)
        requires
            id == i1 * s + (tgt * s - i1) * a2,
            i2 == c1 * s + (tgt - c1) * a2,
            e1 == i1 - s * c1,
    ;
    assert(abs_i(e1 * (s - a2)) < s * s) by (nonlinear_arith)
        requires
            abs_i(e1) < s,
            0 <= s - a2 <= s,
            s == SCALE as int,
    ;
    // The ideal full step and the ideal double step differ by the miss of
    // the retained-fraction relation, scaled by the remaining distance.
    assert((cur * s + d * a2) * s == cur * (s * s) + d * (a2 * s)) by (nonlinear_arith);
    assert(tgt * s - (cur * s + d * a2) == d * s - d * a2) by (nonlinear_arith)
        requires
            d == tgt - cur,
    ;
    assert((d * s - d * a2) * a2 == d * (a2 * s) - d * (a2 * a2)) by (nonlinear_arith);
    assert((cur * s + d * a1) * s == cur * (s * s) + d * (a1 * s)) by (nonlinear_arith);
    assert(delta == 2 * (a2 * s) - a2 * a2 - a1 * s) by (nonlinear_arith)
        requires
            delta == (s - a1) * s - (s - a2) * (s - a2),
    ;
    assert(d * (2 * (a2 * s) - a2 * a2 - a1 * s) == 2 * (d * (a2 * s)) - d * (a2 * a2) - d * (a1
        * s)) by (nonlinear_arith);
    assert(d * delta == d * (2 * (a2 * s) - a2 * a2 - a1 * s));
    assert(id == (cur * s + d * a2) * s + (tgt * s - (cur * s + d * a2)) * a2);
    assert(ifl * s == (cur * s + d * a1) * s);
    assert(id - ifl * s == d * delta);
    assert(abs_i(d * delta) <= abs_i(d) * eps) by (nonlinear_arith)
        requires
            abs_i(delta) <= eps,
            0 <= eps,
    ;
    assert(abs_i(s * i2 - s * (s * c2)) < s * s) by (nonlinear_arith)
        requires
            abs_i(i2 - s * c2) < s,
            s == SCALE as int,
    ;
    assert(abs_i(ifl * s - s * (s * cf)) < s * s) by (nonlinear_arith)
        requires
            abs_i(ifl - s * cf) < s,
            s == SCALE as int,
    ;
    assert(abs_i(s * (s * c2) - s * (s * cf)) < 3 * (s * s) + abs_i(d) * eps);
    assert(abs_i(c2 - cf) * (s * s) <= abs_i(s * (s * c2) - s * (s * cf))) by (nonlinear_arith)
        requires
            s == SCALE as int,
    ;
}

/// The executable damping step tracks the ideal (un-truncated) step within
/// one micro-unit: fixed-point rounding loses less than one ulp per step.
pub proof fn lemma_damp_tracks_ideal(cur: int, tgt: int, alpha: int)
    requires
        0 <= alpha <= SCALE,
    ensures
        abs_i(ideal_step_scaled(cur, tgt, alpha) - (SCALE as int) * damp_step(cur, tgt, alpha))
            < SCALE as int,
{
    let s: int = SCALE as int;
    if cur <= tgt {
        let d: int = tgt - cur;
        lemma_mul_sign(d, alpha);
        lemma_fundamental_div_mod(d * alpha, s);
        vstd::arithmetic::div_mod::lemma_mod_bound(d * alpha, s);
        assert(ideal_step_scaled(cur, tgt, alpha) - s * damp_step(cur, tgt, alpha) == d * alpha
            - s * (d * alpha / s));
    } else {
        let d: int = cur - tgt;
        lemma_mul_sign(d, alpha);
        lemma_neg_mul(d, alpha);
        lemma_fundamental_div_mod(d * alpha, s);
        vstd::arithmetic::div_mod::lemma_mod_bound(d * alpha, s);
        assert(ideal_step_scaled(cur, tgt, alpha) - s * damp_step(cur, tgt, alpha) == -(d * alpha)
            + s * (d * alpha / s));
    }
}

/// `v` halved `k` times, each halving truncated.
pub open spec fn spec_halve(v: int, k: int) -> int
    decreases k,
{
    if k <= 0 {
        v
    } else {
        spec_halve(v, k - 1) / 2
    }
}

/// The value `exp_neg` computes: the argument split as `x == k * ln 2 + r`,
/// a quartic polynomial for `exp(-r)`, the result halved `k` times.
pub open spec fn spec_exp_neg(x: int) -> int {
    if x <= 0 {
        SCALE as int
    } else {
        let s = SCALE as int;
        let k = x / (LN2_FP as int);
        let r = x % (LN2_FP as int);
        let t2 = (r * r) / s;
        let t3 = (t2 * r) / s;
        let t4 = (t3 * r) / s;
        let pos = s + t2 / 2 + t4 / 24;
        let neg = r + t3 / 6;
        let raw = if pos > neg {
            pos - neg
        } else {
            0
        };
        let capped = if raw > s {
            s
        } else {
            raw
        };
        spec_halve(capped, k)
    }
}

/// The value `alpha_for` computes: the damping strength of one step of
/// length `dt` at response `rate`.
pub open spec fn spec_alpha_for(rate: int, dt: int) -> int {
    (SCALE as int) - spec_exp_neg(rate * dt / (SCALE as int))
}

/// `exp(-x) * SCALE` for a micro-unit `x >= 0`, approximately: the argument
/// is split as `x == k * ln 2 + r`, a quartic polynomial evaluates
/// `exp(-r)` and the result is halved `k` times. Exact at `x == 0`.
pub fn exp_neg(x: u64) -> (r: i64)
    requires
        x <= 3_000_000_000u64,
    ensures
        r as int == spec_exp_neg(x as int),
        0 <= r <= SCALE,
        x == 0 ==> r == SCALE,
{
    if x == 0 {
        return SCALE;
    }
    let k: u64 = x / LN2_FP;
    let ru: u64 = x % LN2_FP;
    proof {
        lemma_mul_le(ru as int, ru as int, 693_146, 693_146);
    }
    let t2: u64 = ru * ru / 1_000_000;
    proof {
        lemma_mul_le(t2 as int, ru as int, 480_452, 693_146);
    }
    let t3: u64 = t2 * ru / 1_000_000;
    proof {
        lemma_mul_le(t3 as int, ru as int, 333_060, 693_146);
    }
    let t4: u64 = t3 * ru / 1_000_000;
    let pos: u64 = 1_000_000 + t2 / 2 + t4 / 24;
    let neg: u64 = ru + t3 / 6;
    let raw: u64 = if pos > neg {
        pos - neg
    } else {
        0
    };
    let capped: u64 = if raw > 1_000_000 {
        1_000_000
    } else {
        raw
    };
    let mut q: u64 = capped;
    let mut i: u64 = 0;
    while i < k
        invariant
            q <= 1_000_000,
            i <= k,
            q as int == spec_halve(capped as int, i as int),
        decreases k - i,
    {
        q = q / 2;
        i = i + 1;
    }
    q as i64
}

/// The damping strength of one step of length `dt` (micro-seconds) at the
/// response `rate` (per second): `(1 - exp(-rate * dt)) * SCALE`. A zero
/// time step or a zero rate gives strength zero, so the step is a no-op.
pub fn alpha_for(rate: i64, dt: u64) -> (a: i64)
    requires
        0 <= rate <= RATE_MAX,
        dt <= DT_MAX,
    ensures
        a as int == spec_alpha_for(rate as int, dt as int),
        0 <= a <= SCALE,
        dt == 0 ==> a == 0,
        rate == 0 ==> a == 0,
{
    proof {
        lemma_mul_le(rate as int, dt as int, RATE_MAX as int, DT_MAX as int);
        assert(rate == 0 || dt == 0 ==> (rate as int) * (dt as int) == 0) by (nonlinear_arith);
    }
    let x: u64 = (rate as u64) * dt / 1_000_000;
    let e: i64 = exp_neg(x);
    SCALE - e
}

impl DampedScalar {
    pub open spec fn wf(self) -> bool {
        &&& -VMAX <= self.current <= VMAX
        &&& -VMAX <= self.target <= VMAX
        &&& 0 <= self.rate <= RATE_MAX
    }

    pub fn new(value: i64, rate: i64) -> (d: DampedScalar)
        requires
            -VMAX <= value <= VMAX,
            0 <= rate <= RATE_MAX,
        ensures
            d.wf(),
            d.current == value,
            d.target == value,
            d.rate == rate,
    {
        DampedScalar { current: value, target: value, rate }
    }

    /// One damping step of strength `alpha`. The current value moves toward
    /// the target and never overshoots it; the distance to the target never
    /// grows; a step of strength zero, or one taken at the target, changes
    /// nothing.
    pub fn advance(&mut self, alpha: i64)
        requires
            old(self).wf(),
            0 <= alpha <= SCALE,
        ensures
            final(self).wf(),
            final(self).target == old(self).target,
            final(self).rate == old(self).rate,
            final(self).current as int == damp_step(
                old(self).current as int,
                old(self).target as int,
                alpha as int,
            ),
            abs_i(final(self).target - final(self).current) <= abs_i(
                old(self).target - old(self).current,
            ),
            old(self).current <= old(self).target ==> old(self).current <= final(self).current
                <= old(self).target,
            old(self).target <= old(self).current ==> old(self).target <= final(self).current
                <= old(self).current,
            alpha == 0 ==> final(self).current == old(self).current,
            old(self).current == old(self).target ==> final(self).current == old(self).current,
            abs_i(ideal_step_scaled(old(self).current as int, old(self).target as int, alpha as int)
                - (SCALE as int) * (final(self).current as int)) < SCALE as int,
    {
        proof {
            lemma_fundamental_div_mod(
                (abs_i(old(self).target - old(self).current)) * (alpha as int),
                SCALE as int,
            );
        }
        if self.current <= self.target {
            let diff: u64 = (self.target - self.current) as u64;
            proof {
                lemma_mul_le(diff as int, alpha as int, 2 * VMAX as int, SCALE as int);
                lemma_mul_le(diff as int, alpha as int, diff as int, SCALE as int);
                lemma_div_is_ordered(
                    (diff as int) * (alpha as int),
                    (diff as int) * (SCALE as int),
                    SCALE as int,
                );
                lemma_div_multiples_vanish(diff as int, SCALE as int);
                assert((diff as int) * (SCALE as int) == (SCALE as int) * (diff as int))
                    by (nonlinear_arith);
                lemma_mul_sign(diff as int, alpha as int);
            }
            let step: u64 = diff * (alpha as u64) / 1_000_000;
            self.current = self.current + (step as i64);
        } else {
            let diff: u64 = (self.current - self.target) as u64;
            proof {
                lemma_mul_le(diff as int, alpha as int, 2 * VMAX as int, SCALE as int);
                lemma_mul_le(diff as int, alpha as int, diff as int, SCALE as int);
                lemma_div_is_ordered(
                    (diff as int) * (alpha as int),
                    (diff as int) * (SCALE as int),
                    SCALE as int,
                );
                lemma_div_multiples_vanish(diff as int, SCALE as int);
                assert((diff as int) * (SCALE as int) == (SCALE as int) * (diff as int))
                    by (nonlinear_arith);
                lemma_mul_sign(diff as int, alpha as int);
                lemma_neg_mul(diff as int, alpha as int);
            }
            let step: u64 = diff * (alpha as u64) / 1_000_000;
            self.current = self.current - (step as i64);
        }
    }

    /// Advance toward the target by one time step of `dt` micro-seconds:
    /// one damping step whose strength is derived from `rate * dt` so that
    /// the approach is frame-time independent. Returns the new current
    /// value.
    pub fn drive(&mut self, dt: u64) -> (value: i64)
        requires
            old(self).wf(),
            dt <= DT_MAX,
        ensures
            final(self).wf(),
            final(self).target == old(self).target,
            final(self).rate == old(self).rate,
            value == final(self).current,
            final(self).current as int == damp_step(
                old(self).current as int,
                old(self).target as int,
                spec_alpha_for(old(self).rate as int, dt as int),
            ),
            abs_i(final(self).target - final(self).current) <= abs_i(
                old(self).target - old(self).current,
            ),
            old(self).current <= old(self).target ==> old(self).current <= final(self).current
                <= old(self).target,
            old(self).target <= old(self).current ==> old(self).target <= final(self).current
                <= old(self).current,
            dt == 0 ==> final(self).current == old(self).current,
            old(self).current == old(self).target ==> final(self).current == old(self).current,
    {
        let a: i64 = alpha_for(self.rate, dt);
        self.advance(a);
        self.current
    }
}

} // verus!
