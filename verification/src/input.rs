//! Input mapping: held keys and scroll events move the *targets* of the
//! five damped camera values each tick; the current values are never
//! touched here. Key codes are plain integers that the host maps from its
//! input device.

use vstd::prelude::*;
use crate::camera::OrbitCam;
use crate::fixed::{
    abs_i, clamp_i64, clamp_s, lemma_div_le_self, lemma_mul_le, max_s, muldiv, spec_fmul,
    spec_isqrt, tdiv, HALF_PI_FP, SCALE, VMAX,
};
use crate::rot::{
    near_unit, quat_from_rotation_y, quat_from_scaled_axis, quat_mul, quat_normalize,
    spec_from_rotation_y, spec_from_scaled_axis, spec_normalize, spec_quat_mul, Quat, Vec3,
};

verus! {

pub const KEY_W: u32 = 87;

pub const KEY_A: u32 = 65;

pub const KEY_D: u32 = 68;

pub const KEY_S: u32 = 83;

pub const KEY_ARROW_LEFT: u32 = 37;

pub const KEY_ARROW_UP: u32 = 38;

pub const KEY_ARROW_RIGHT: u32 = 39;

pub const KEY_ARROW_DOWN: u32 = 40;

pub const KEY_SHIFT_LEFT: u32 = 160;

pub const KEY_SPACE: u32 = 32;

/// Rotation per tick from a held rotate key: 0.05 radians.
pub const YAW_GAIN: i64 = 50_000;

/// Tilt per tick from a held tilt key: 0.08 radians.
pub const PITCH_GAIN: i64 = 80_000;

/// Zoom input per tick from a held zoom key: 0.2.
pub const KEY_ZOOM_STEP: i64 = 200_000;

/// Fraction of the zoom input applied to the distance target: 0.2.
pub const ZOOM_GAIN: i64 = 200_000;

/// Largest zoom input one tick's arithmetic supports (a representation
/// limit, far above any physical scroll volume): the scaled factor
/// `1 + dz * ZOOM_GAIN` must stay within the wide multiply's range.
pub const DZ_MAX: i64 = 20_000_000_000_000;

/// Top of the pan speed curve: 0.04.
pub const PAN_GAIN: i64 = 40_000;

/// The bindings of the ten logical actions to key codes.
#[derive(Clone, Copy, PartialEq, Eq, Structural, Debug)]
pub struct OrbitCamConfig {
    pub forward: u32,
    pub left: u32,
    pub right: u32,
    pub backward: u32,
    pub cw: u32,
    pub ccw: u32,
    pub tilt_up: u32,
    pub tilt_down: u32,
    pub zoom_in: u32,
    pub zoom_out: u32,
}

impl Default for OrbitCamConfig {
    /// The default bindings: WASD pans, the horizontal arrows rotate, the
    /// vertical arrows tilt, left shift zooms in and space zooms out.
    fn default() -> (c: Self)
        ensures
            c.forward == KEY_W,
            c.left == KEY_A,
            c.right == KEY_D,
            c.backward == KEY_S,
            c.cw == KEY_ARROW_LEFT,
            c.ccw == KEY_ARROW_RIGHT,
            c.tilt_up == KEY_ARROW_UP,
            c.tilt_down == KEY_ARROW_DOWN,
            c.zoom_in == KEY_SHIFT_LEFT,
            c.zoom_out == KEY_SPACE,
    {
        OrbitCamConfig {
            forward: KEY_W,
            left: KEY_A,
            right: KEY_D,
            backward: KEY_S,
            cw: KEY_ARROW_LEFT,
            ccw: KEY_ARROW_RIGHT,
            tilt_up: KEY_ARROW_UP,
            tilt_down: KEY_ARROW_DOWN,
            zoom_in: KEY_SHIFT_LEFT,
            zoom_out: KEY_SPACE,
        }
    }
}

/// One scroll event of the tick: line-unit events count at full weight,
/// pixel-unit events at a tenth. `amount` is a micro-unit value.
#[derive(Clone, Copy, PartialEq, Eq, Structural, Debug)]
pub struct ScrollEvent {
    pub pixel_unit: bool,
    pub amount: i64,
}

/// Whether `key` is among the held keys.
pub fn key_held(held: &Vec<u32>, key: u32) -> (r: bool)
    ensures
        r == held@.contains(key),
{
    let n: usize = held.len();
    let mut i: usize = 0;
    while i < n
        invariant
            n == held.len(),
            i <= n,
            forall|j: int| 0 <= j < i ==> held[j] != key,
        decreases n - i,
    {
        if held[i] == key {
            proof {
                assert(held[i as int] == key);
            }
            return true;
        }
        i = i + 1;
    }
    false
}

/// The zoom contribution of one scroll event.
pub open spec fn scroll_contrib(e: ScrollEvent) -> int {
    if e.pixel_unit {
        tdiv(e.amount as int, 10)
    } else {
        e.amount as int
    }
}

/// The summed zoom contribution of a tick's scroll events.
pub open spec fn spec_scroll_delta(s: Seq<ScrollEvent>) -> int
    decreases s.len(),
{
    if s.len() == 0 {
        0
    } else {
        spec_scroll_delta(s.drop_last()) + scroll_contrib(s.last())
    }
}

/// Sum the tick's scroll events.
pub fn scroll_delta(scroll: &Vec<ScrollEvent>) -> (r: i64)
    requires
        scroll@.len() <= 10_000,
        forall|j: int| 0 <= j < scroll@.len() ==> abs_i(scroll@[j].amount as int) <= VMAX as int,
    ensures
        r as int == spec_scroll_delta(scroll@),
        abs_i(r as int) <= scroll@.len() * (VMAX as int),
{
    let n: usize = scroll.len();
    let mut acc: i64 = 0;
    let mut i: usize = 0;
    while i < n
        invariant
            n == scroll@.len() <= 10_000,
            forall|j: int| 0 <= j < n ==> abs_i(scroll@[j].amount as int) <= VMAX as int,
            i <= n,
            acc as int == spec_scroll_delta(scroll@.take(i as int)),
            abs_i(acc as int) <= (i as int) * (VMAX as int),
        decreases n - i,
    {
        let e: ScrollEvent = scroll[i];
        let c: i64 = if e.pixel_unit {
            proof {
                assert((e.amount as int) * 1 == e.amount as int);
            }
            muldiv(e.amount, 1, 10)
        } else {
            e.amount
        };
        proof {
            assert(abs_i(c as int) <= VMAX as int) by {
                if e.pixel_unit {
                    lemma_div_le_self(abs_i(e.amount as int), 10);
                }
            }
            assert(scroll@.take(i as int + 1).drop_last() =~= scroll@.take(i as int));
            assert(scroll@.take(i as int + 1).last() == scroll@[i as int]);
            assert((i as int) * (VMAX as int) + (VMAX as int) == (i as int + 1) * (VMAX as int))
                by (nonlinear_arith);
            lemma_mul_le(i as int, VMAX as int, 10_000, VMAX as int);
        }
        acc = acc + c;
        i = i + 1;
    }
    proof {
        assert(scroll@.take(n as int) =~= scroll@);
    }
    acc
}

/// `sign * v` for a sign in {-1, 0, 1}.
fn sign_times(sign: i64, v: i64) -> (r: i64)
    requires
        -1 <= sign <= 1,
        0 <= v <= 1_000_000,
    ensures
        r as int == (if sign == 0 {
            0int
        } else if sign == 1 {
            v as int
        } else {
            -(v as int)
        }),
{
    if sign == 0 {
        0
    } else if sign == 1 {
        v
    } else {
        -v
    }
}

/// The distance target after one tick of zoom input `dz`: multiplied by
/// `1 + dz * ZOOM_GAIN`. The factor is floored at zero (the distance
/// target never turns negative) and the result is kept within the
/// representation's range [0, VMAX].
pub open spec fn spec_zoom_target(t: int, dz: int) -> int {
    let factor = max_s(SCALE as int + spec_fmul(dz, ZOOM_GAIN as int), 0);
    clamp_s(spec_fmul(t, factor), 0, VMAX as int)
}

/// The pan speed scale for a camera at distance `d`: a saturating curve of
/// the square root of the distance, zero at zero and approaching PAN_GAIN
/// from below as the distance grows.
pub open spec fn spec_speed_scale(d: int) -> int {
    let s = spec_isqrt(d * (SCALE as int));
    (PAN_GAIN * s) / (s + 2 * (SCALE as int))
}

/// The pan speed scale vanishes at distance zero.
pub proof fn lemma_speed_scale_at_zero()
    ensures
        spec_speed_scale(0) == 0,
{
    let s = SCALE as int;
    assert(0 * s == 0) by (nonlinear_arith);
    crate::fixed::lemma_isqrt_exists(0);
    let w = spec_isqrt(0);
    assert(0 * 0 == 0 && (0 + 1) * (0 + 1) == 1) by (nonlinear_arith);
    crate::fixed::lemma_isqrt_unique(0, w, 0);
    assert((PAN_GAIN as int) * spec_isqrt(0) == 0) by (nonlinear_arith)
        requires
            spec_isqrt(0) == 0,
    ;
}

/// The pan speed scale never shrinks as the distance grows: the saturating
/// shape of the curve — slow when close, bounded when far — is kept, even
/// though its exact values are a tunable constant.
pub proof fn lemma_speed_scale_monotone(d1: int, d2: int)
    requires
        0 <= d1 <= d2,
    ensures
        spec_speed_scale(d1) <= spec_speed_scale(d2),
{
    let s = SCALE as int;
    assert(0 <= d1 * s <= d2 * s) by (nonlinear_arith)
        requires
            0 <= d1 <= d2,
            s == SCALE as int,
    ;
    crate::fixed::lemma_isqrt_monotone(d1 * s, d2 * s);
    crate::fixed::lemma_isqrt_exists(d1 * s);
    crate::fixed::lemma_isqrt_exists(d2 * s);
    let s1 = spec_isqrt(d1 * s);
    let s2 = spec_isqrt(d2 * s);
    let g = PAN_GAIN as int;
    assert((g * s1) * (s2 + 2 * s) <= (g * s2) * (s1 + 2 * s)) by (nonlinear_arith)
        requires
            0 <= s1 <= s2,
            g == PAN_GAIN as int,
            s == SCALE as int,
    ;
    assert(0 <= g * s1 && 0 <= g * s2) by (nonlinear_arith)
        requires
            0 <= s1 <= s2,
            g == PAN_GAIN as int,
    ;
    crate::fixed::lemma_div_cross_monotone(g * s1, s1 + 2 * s, g * s2, s2 + 2 * s);
}

/// The yaw input of the tick: rotate-clockwise adds, counter-clockwise
/// subtracts, scaled by the yaw gain.
pub open spec fn spec_yaw(held: Seq<u32>, c: OrbitCamConfig) -> int {
    (if held.contains(c.cw) {
        YAW_GAIN as int
    } else {
        0
    }) - (if held.contains(c.ccw) {
        YAW_GAIN as int
    } else {
        0
    })
}

/// The tilt input of the tick: tilt-up subtracts (toward zero
/// inclination), tilt-down adds, scaled by the pitch gain.
pub open spec fn spec_pitch(held: Seq<u32>, c: OrbitCamConfig) -> int {
    (if held.contains(c.tilt_down) {
        PITCH_GAIN as int
    } else {
        0
    }) - (if held.contains(c.tilt_up) {
        PITCH_GAIN as int
    } else {
        0
    })
}

/// The zoom input of the tick: the summed scroll events plus a fixed step
/// for a held zoom key, zoom-out outranking zoom-in.
pub open spec fn spec_delta_zoom(held: Seq<u32>, c: OrbitCamConfig, scroll: Seq<ScrollEvent>) -> int {
    spec_scroll_delta(scroll) + (if held.contains(c.zoom_out) {
        KEY_ZOOM_STEP as int
    } else if held.contains(c.zoom_in) {
        -KEY_ZOOM_STEP as int
    } else {
        0
    })
}

/// The sideways pan input: the right key subtracts, the left key adds.
pub open spec fn spec_pan_right(held: Seq<u32>, c: OrbitCamConfig) -> int {
    (if held.contains(c.left) {
        1int
    } else {
        0
    }) - (if held.contains(c.right) {
        1int
    } else {
        0
    })
}

/// The forward pan input: the forward key subtracts, the backward key adds.
pub open spec fn spec_pan_up(held: Seq<u32>, c: OrbitCamConfig) -> int {
    (if held.contains(c.backward) {
        1int
    } else {
        0
    }) - (if held.contains(c.forward) {
        1int
    } else {
        0
    })
}

/// The orientation target after one tick of rotation input: composed on
/// the right with the yaw rotation about the world-up axis when the yaw
/// input is nonzero, then with the rotation about the axis perpendicular
/// to world-up and the scaled pan direction when that axis is nonzero,
/// renormalized after each composition. `scl` is the pan speed scale of
/// the camera's current distance.
pub open spec fn spec_up_after_input(up: Quat, yaw: int, scl: int, pan_r: int, pan_u: int) -> Quat {
    let turned = if yaw != 0 {
        spec_normalize(spec_quat_mul(up, spec_from_rotation_y(yaw)))
    } else {
        up
    };
    let ax = if pan_u == 0 {
        0int
    } else if pan_u == 1 {
        scl
    } else {
        -scl
    };
    let az = if pan_r == 0 {
        0int
    } else if pan_r == 1 {
        scl
    } else {
        -scl
    };
    if ax == 0 && az == 0 {
        turned
    } else {
        spec_normalize(
            spec_quat_mul(
                turned,
                spec_from_scaled_axis(Vec3 { x: ax as i64, y: 0, z: az as i64 }),
            ),
        )
    }
}

/// What one tick of input does to one camera: only the targets move. The
/// distance target is scaled by the zoom input; the inclination target is
/// shifted by the tilt input and clamped to [0, pi/2]; the orientation
/// target is composed with the yaw rotation and then with the pan
/// rotation, staying near unit length, and is untouched when the yaw input
/// is zero and the pan rotation axis vanishes (no pan key held, or a pan
/// speed scale of zero). The five current values, all rates, the height
/// offset and the floor never change.
pub open spec fn input_applied(
    pre: OrbitCam,
    post: OrbitCam,
    yaw: int,
    pitch: int,
    dz: int,
    pan_r: int,
    pan_u: int,
) -> bool {
    &&& post.distance.target as int == spec_zoom_target(pre.distance.target as int, dz)
    &&& post.distance.current == pre.distance.current
    &&& post.distance.rate == pre.distance.rate
    &&& post.inclination.target as int == clamp_s(
        pre.inclination.target + pitch,
        0,
        HALF_PI_FP as int,
    )
    &&& post.inclination.current == pre.inclination.current
    &&& post.inclination.rate == pre.inclination.rate
    &&& post.target_height == pre.target_height
    &&& post.min == pre.min
    &&& post.up.current == pre.up.current
    &&& post.up.rate == pre.up.rate
    &&& post.up.target == spec_up_after_input(
        pre.up.target,
        yaw,
        spec_speed_scale(pre.distance.current as int),
        pan_r,
        pan_u,
    )
    &&& near_unit(post.up.target)
    &&& (yaw == 0 && (spec_speed_scale(pre.distance.current as int) == 0 || (pan_r == 0 && pan_u
        == 0)) ==> post.up.target == pre.up.target)
}

/// The pan speed scale of a camera at distance `d` (micro-units): always
/// strictly below the curve's asymptote PAN_GAIN.
pub fn speed_scale(d: i64) -> (scl: i64)
    requires
        0 <= d <= VMAX,
    ensures
        scl as int == spec_speed_scale(d as int),
        0 <= scl < PAN_GAIN,
{
    let du: u64 = (d as u64) * 1_000_000;
    let s: u64 = crate::fixed::isqrt_u128(du as u128);
    proof {
        assert(s <= 1_000_000_000) by (nonlinear_arith)
            requires
                (s as int) * (s as int) <= 1_000_000_000_000_000,
                0 <= s as int,
        ;
        assert((PAN_GAIN as int) * (s as int) <= (PAN_GAIN as int) * ((s as int) + 2_000_000))
            by (nonlinear_arith)
            requires
                0 <= s as int,
        ;
        assert(((s as int) + 2_000_000) * (PAN_GAIN as int) == (PAN_GAIN as int) * ((s as int)
            + 2_000_000)) by (nonlinear_arith);
        vstd::arithmetic::div_mod::lemma_div_is_ordered(
            (PAN_GAIN as int) * (s as int),
            (PAN_GAIN as int) * ((s as int) + 2_000_000),
            (s as int) + 2_000_000,
        );
        vstd::arithmetic::div_mod::lemma_div_multiples_vanish(
            PAN_GAIN as int,
            (s as int) + 2_000_000,
        );
        vstd::arithmetic::div_mod::lemma_div_pos_is_pos(
            (PAN_GAIN as int) * (s as int),
            (s as int) + 2_000_000,
        );
        crate::fixed::lemma_mul_sign(PAN_GAIN as int, s as int);
    }
    let num: u64 = 40_000u64 * s;
    let den: u64 = s + 2_000_000;
    let scl: u64 = num / den;
    proof {
        // Strictly below the asymptote: the numerator falls short of
        // PAN_GAIN * den by PAN_GAIN * 2 SCALE.
        vstd::arithmetic::div_mod::lemma_fundamental_div_mod(num as int, den as int);
        vstd::arithmetic::div_mod::lemma_mod_bound(num as int, den as int);
        if scl as int >= PAN_GAIN as int {
            assert((den as int) * (scl as int) >= (den as int) * (PAN_GAIN as int))
                by (nonlinear_arith)
                requires
                    scl as int >= PAN_GAIN as int,
                    den as int >= 1,
            ;
            assert((den as int) * (PAN_GAIN as int) > (PAN_GAIN as int) * (s as int))
                by (nonlinear_arith)
                requires
                    den as int == s as int + 2_000_000,
                    PAN_GAIN as int == 40_000,
                    0 <= s as int,
            ;
        }
    }
    scl as i64
}

impl OrbitCam {
    /// Apply one tick of input to this camera: move the targets as the
    /// inputs say and leave every current value in place.
    pub fn apply_input(&mut self, yaw: i64, pitch: i64, dz: i64, pan_r: i64, pan_u: i64)
        requires
            old(self).wf(),
            -50_000 <= yaw <= 50_000,
            -80_000 <= pitch <= 80_000,
            abs_i(dz as int) <= DZ_MAX,
            -1 <= pan_r <= 1,
            -1 <= pan_u <= 1,
        ensures
            final(self).wf(),
            input_applied(
                *old(self),
                *final(self),
                yaw as int,
                pitch as int,
                dz as int,
                pan_r as int,
                pan_u as int,
            ),
    {
        // Zoom: scale the distance target by the zoom input.
        proof {
            lemma_mul_le(abs_i(dz as int), ZOOM_GAIN as int, DZ_MAX as int, ZOOM_GAIN as int);
        }
        let raw_factor: i64 = SCALE + crate::fixed::fmul(dz, ZOOM_GAIN);
        let factor: i64 = if raw_factor < 0 {
            0
        } else {
            raw_factor
        };
        let scaled: i64 = crate::fixed::fmul_wide(self.distance.target, factor);
        self.distance.target = clamp_i64(scaled, 0, VMAX);
        // Rotate: compose the orientation target with the yaw rotation.
        if yaw != 0 {
            let qy: Quat = quat_from_rotation_y(yaw);
            let composed: Quat = quat_mul(&self.up.target, &qy);
            self.up.target = quat_normalize(&composed);
        }
        // Tilt: shift the inclination target, clamped to [0, pi/2].
        self.inclination.target = clamp_i64(self.inclination.target + pitch, 0, HALF_PI_FP);
        // Pan: compose the orientation target with a rotation about the
        // axis perpendicular to the world-up axis and the pan direction,
        // scaled by a distance-dependent speed; skip this camera's update
        // when that axis vanishes.
        let scl: i64 = speed_scale(self.distance.current);
        let ax: i64 = sign_times(pan_u, scl);
        let az: i64 = sign_times(pan_r, scl);
        if ax == 0 && az == 0 {
            return ;
        }
        let axis = Vec3 { x: ax, y: 0, z: az };
        let qp: Quat = quat_from_scaled_axis(&axis);
        let composed: Quat = quat_mul(&self.up.target, &qp);
        self.up.target = quat_normalize(&composed);
    }

    /// Apply one tick of input to every camera: derive the yaw, tilt, zoom
    /// and pan inputs from the held keys and the scroll events under the
    /// given bindings, then move each camera's targets.
    pub fn process_input(
        cameras: &mut Vec<OrbitCam>,
        held: &Vec<u32>,
        scroll: &Vec<ScrollEvent>,
        config: &OrbitCamConfig,
    )
        requires
            forall|i: int| 0 <= i < old(cameras).len() ==> old(cameras)[i].wf(),
            scroll@.len() <= 10_000,
            forall|j: int|
                0 <= j < scroll@.len() ==> abs_i(scroll@[j].amount as int) <= VMAX as int,
        ensures
            final(cameras).len() == old(cameras).len(),
            forall|i: int| #![trigger final(cameras)[i]]
                0 <= i < old(cameras).len() ==> final(cameras)[i].wf() && input_applied(
                    old(cameras)[i],
                    final(cameras)[i],
                    spec_yaw(held@, *config),
                    spec_pitch(held@, *config),
                    spec_delta_zoom(held@, *config, scroll@),
                    spec_pan_right(held@, *config),
                    spec_pan_up(held@, *config),
                ),
    {
        let mut yaw: i64 = 0;
        if key_held(held, config.cw) {
            yaw = yaw + YAW_GAIN;
        }
        if key_held(held, config.ccw) {
            yaw = yaw - YAW_GAIN;
        }
        let mut pitch: i64 = 0;
        if key_held(held, config.tilt_up) {
            pitch = pitch - PITCH_GAIN;
        }
        if key_held(held, config.tilt_down) {
            pitch = pitch + PITCH_GAIN;
        }
        let mut dz: i64 = scroll_delta(scroll);
        if key_held(held, config.zoom_out) {
            dz = dz + KEY_ZOOM_STEP;
        } else if key_held(held, config.zoom_in) {
            dz = dz - KEY_ZOOM_STEP;
        }
        let mut pan_r: i64 = 0;
        if key_held(held, config.right) {
            pan_r = pan_r - 1;
        }
        if key_held(held, config.left) {
            pan_r = pan_r + 1;
        }
        let mut pan_u: i64 = 0;
        if key_held(held, config.forward) {
            pan_u = pan_u - 1;
        }
        if key_held(held, config.backward) {
            pan_u = pan_u + 1;
        }
        let ghost cams0 = *cameras;
        let n: usize = cameras.len();
        let mut i: usize = 0;
        while i < n
            invariant
                n == cameras.len(),
                n == cams0.len(),
                i <= n,
                forall|j: int| 0 <= j < n ==> cams0[j].wf(),
                -50_000 <= yaw <= 50_000,
                -80_000 <= pitch <= 80_000,
                abs_i(dz as int) <= DZ_MAX,
                -1 <= pan_r <= 1,
                -1 <= pan_u <= 1,
                yaw as int == spec_yaw(held@, *config),
                pitch as int == spec_pitch(held@, *config),
                dz as int == spec_delta_zoom(held@, *config, scroll@),
                pan_r as int == spec_pan_right(held@, *config),
                pan_u as int == spec_pan_up(held@, *config),
                forall|j: int| #![trigger cameras[j]] i <= j < n ==> cameras[j] == cams0[j],
                forall|j: int| #![trigger cameras[j]]
                    0 <= j < i ==> cameras[j].wf() && input_applied(
                        cams0[j],
                        cameras[j],
                        yaw as int,
                        pitch as int,
                        dz as int,
                        pan_r as int,
                        pan_u as int,
                    ),
            decreases n - i,
        {
            let mut cam: OrbitCam = cameras[i];
            proof {
                assert(cameras[i as int] == cams0[i as int]);
                assert(cams0[i as int].wf());
            }
            let ghost cam_pre = cam;
            cam.apply_input(yaw, pitch, dz, pan_r, pan_u);
            let ghost pre_set = cameras@;
            cameras.set(i, cam);
            proof {
                let ii = i as int;
                assert(cameras@ == pre_set.update(ii, cam));
                assert(cam_pre == cams0[ii]);
                assert forall|j: int| 0 <= j < ii + 1 implies #[trigger] cameras[j].wf()
                    && input_applied(
                    cams0[j],
                    cameras[j],
                    yaw as int,
                    pitch as int,
                    dz as int,
                    pan_r as int,
                    pan_u as int,
                ) by {
                    if j < ii {
                        assert(cameras[j] == pre_set[j]);
                    } else {
                        assert(cameras[j] == cam);
                    }
                }
            }
            i = i + 1;
        }
    }
}

/// The inclination target always lands in [0, pi/2], whatever tilt input
/// the tick carried.
pub proof fn lemma_inclination_clamped(
    pre: OrbitCam,
    post: OrbitCam,
    yaw: int,
    pitch: int,
    dz: int,
    pan_r: int,
    pan_u: int,
)
    requires
        input_applied(pre, post, yaw, pitch, dz, pan_r, pan_u),
    ensures
        0 <= post.inclination.target <= HALF_PI_FP,
{
}

/// The orientation target stays near unit length after any tick of input.
pub proof fn lemma_orientation_stays_unit(
    pre: OrbitCam,
    post: OrbitCam,
    yaw: int,
    pitch: int,
    dz: int,
    pan_r: int,
    pan_u: int,
)
    requires
        input_applied(pre, post, yaw, pitch, dz, pan_r, pan_u),
    ensures
        near_unit(post.up.target),
{
}

/// A tick with no pan key and no rotate key held leaves the orientation
/// target untouched.
pub proof fn lemma_neutral_tick_keeps_orientation(
    pre: OrbitCam,
    post: OrbitCam,
    pitch: int,
    dz: int,
)
    requires
        input_applied(pre, post, 0, pitch, dz, 0, 0),
    ensures
        post.up.target == pre.up.target,
{
}

} // verus!\n