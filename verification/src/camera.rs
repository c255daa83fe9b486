//! The orbit camera: five damped values (orbit-plane orientation,
//! inclination, distance, height offset, minimum-radius floor) driven each
//! tick toward their targets, and the pose computed from the advanced
//! values.

use vstd::prelude::*;
use crate::damp::{damp_step, spec_alpha_for, DampedScalar};
use crate::fixed::{
    abs_i, is_isqrt, isqrt_u128, lemma_fmul_abs_le, lemma_isqrt_unique, lemma_mul_le,
    lemma_neg_mul, spec_fmul, spec_isqrt, DT_MAX, HALF_PI_FP, RATE_MAX, SCALE, VMAX,
};
use crate::rot::{
    near_unit, quat_from_rotation_x, quat_identity, quat_mul, rotate_vec, spec_from_rotation_x,
    spec_quat_identity, spec_quat_mul, spec_rot_step, spec_rotate_vec, vec_norm_sq, vmax3,
    DampedRotation, Quat, Vec3,
};

verus! {

/// Damping rate of the orbit-plane orientation, per second.
pub const UP_RATE: i64 = 10_000_000;

/// Damping rate of the inclination angle, per second.
pub const TILT_RATE: i64 = 10_000_000;

/// Damping rate of the distance, per second.
pub const ZOOM_RATE: i64 = 8_000_000;

/// Initial distance from the focal point: four units.
pub const DIST_INIT: i64 = 4_000_000;

/// Initial height offset and minimum-radius floor: a hundredth of a unit.
pub const HEIGHT_INIT: i64 = 10_000;

/// A camera pose: a position and an orientation facing the focal point.
#[derive(Clone, Copy, PartialEq, Eq, Structural, Debug)]
pub struct Pose {
    pub position: Vec3,
    pub orientation: Quat,
}

/// An orbiting viewpoint: every field approaches its own target smoothly.
#[derive(Clone, Copy)]
pub struct OrbitCam {
    pub up: DampedRotation,
    pub inclination: DampedScalar,
    pub distance: DampedScalar,
    pub target_height: DampedScalar,
    pub min: DampedScalar,
}

/// The orbit arm: the canonical forward vector tilted by the inclination
/// rotation `qx` and scaled by the distance.
pub open spec fn spec_arm(qx: Quat, dist: int) -> Vec3 {
    let unit = spec_rotate_vec(qx, Vec3 { x: 0, y: 0, z: SCALE });
    Vec3 {
        x: spec_fmul(dist, unit.x as int) as i64,
        y: spec_fmul(dist, unit.y as int) as i64,
        z: spec_fmul(dist, unit.z as int) as i64,
    }
}

/// The candidate local position: the height offset along the vertical axis
/// plus the arm.
pub open spec fn spec_local_pos(arm: Vec3, height: i64) -> Vec3 {
    Vec3 { x: arm.x, y: (height as int + arm.y as int) as i64, z: arm.z }
}

/// The minimum-radius correction: when the local position's length falls
/// below the floor, push it up along the vertical axis by exactly the
/// shortfall; the horizontal components are never touched. The corrected
/// radius is not re-measured, so extreme tilts may still undershoot the
/// floor slightly.
pub open spec fn spec_corrected(pos: Vec3, min: int) -> Vec3 {
    let r = spec_isqrt(vec_norm_sq(pos));
    if r < min {
        Vec3 { x: pos.x, y: (pos.y as int + (min - r)) as i64, z: pos.z }
    } else {
        pos
    }
}

/// The pose determined by the orbit-plane orientation `up`, the
/// inclination rotation `qx`, the distance, the height offset and the
/// minimum-radius floor.
pub open spec fn spec_pose_parts(up: Quat, qx: Quat, dist: int, height: i64, min: int) -> Pose {
    let arm = spec_arm(qx, dist);
    let local = spec_local_pos(arm, height);
    let corrected = spec_corrected(local, min);
    Pose { position: spec_rotate_vec(up, corrected), orientation: spec_quat_mul(up, qx) }
}

/// Degenerate-radius correction: when the measured length `r` of the local
/// position falls below the floor `min`, the corrected position keeps both
/// horizontal components and gains exactly `min - r` on the vertical one.
pub proof fn lemma_degenerate_radius_correction(pos: Vec3, min: int, r: int)
    requires
        is_isqrt(r, vec_norm_sq(pos)),
        r < min,
        0 <= min <= VMAX as int,
        abs_i(pos.y as int) <= 60_000_000_000,
    ensures
        spec_corrected(pos, min).x == pos.x,
        spec_corrected(pos, min).z == pos.z,
        spec_corrected(pos, min).y as int == pos.y as int + (min - r),
{
    let n = vec_norm_sq(pos);
    let w = spec_isqrt(n);
    assert(is_isqrt(w, n)) by {
        assert(exists|q: int| is_isqrt(q, n)) by {
            assert(is_isqrt(r, n));
        }
    }
    lemma_isqrt_unique(r, w, n);
}

/// When the local position lies on the vertical axis, pointing up, the
/// correction lands it at exactly the floor: the corrected position is
/// `(0, min, 0)`, whose length is exactly `min`.
pub proof fn lemma_correction_vertical_exact(pos: Vec3, min: int)
    requires
        pos.x == 0,
        pos.z == 0,
        0 <= pos.y,
        (pos.y as int) < min <= VMAX as int,
    ensures
        spec_corrected(pos, min) == (Vec3 { x: 0, y: min as i64, z: 0 }),
        vec_norm_sq(spec_corrected(pos, min)) == min * min,
{
    let n = vec_norm_sq(pos);
    assert(n == (pos.y as int) * (pos.y as int));
    assert(is_isqrt(pos.y as int, n)) by (nonlinear_arith)
        requires
            0 <= pos.y,
            n == (pos.y as int) * (pos.y as int),
    ;
    let w = spec_isqrt(n);
    assert(is_isqrt(w, n)) by {
        assert(exists|q: int| is_isqrt(q, n)) by {
            assert(is_isqrt(pos.y as int, n));
        }
    }
    lemma_isqrt_unique(pos.y as int, w, n);
    assert((min as i64) as int == min);
    assert(vec_norm_sq(Vec3 { x: 0, y: min as i64, z: 0 }) == min * min);
}

/// Compute the pose from the given parts. `qx` is the inclination tilt.
fn pose_from_parts(up: &Quat, qx: &Quat, dist: i64, height: i64, min: i64) -> (p: Pose)
    requires
        near_unit(*up),
        near_unit(*qx),
        0 <= dist <= VMAX,
        -VMAX <= height <= VMAX,
        0 <= min <= VMAX,
    ensures
        p == spec_pose_parts(*up, *qx, dist as int, height, min as int),
{
    let fwd = Vec3 { x: 0, y: 0, z: SCALE };
    let unit = rotate_vec(qx, &fwd);
    proof {
        assert(vmax3(fwd) == SCALE as int);
        lemma_mul_le(abs_i(dist as int), abs_i(unit.x as int), VMAX as int, 49_000_000);
        lemma_mul_le(abs_i(dist as int), abs_i(unit.y as int), VMAX as int, 49_000_000);
        lemma_mul_le(abs_i(dist as int), abs_i(unit.z as int), VMAX as int, 49_000_000);
        lemma_fmul_abs_le(abs_i(dist as int), abs_i(unit.x as int), 1000, 49_000_000);
        lemma_fmul_abs_le(abs_i(dist as int), abs_i(unit.y as int), 1000, 49_000_000);
        lemma_fmul_abs_le(abs_i(dist as int), abs_i(unit.z as int), 1000, 49_000_000);
    }
    let arm = Vec3 {
        x: crate::fixed::fmul(dist, unit.x),
        y: crate::fixed::fmul(dist, unit.y),
        z: crate::fixed::fmul(dist, unit.z),
    };
    let pos = Vec3 { x: arm.x, y: height + arm.y, z: arm.z };
    proof {
        assert(0 <= (pos.x as int) * (pos.x as int) <= 2_500_000_000_000_000_000_000 && 0 <= (
        pos.y as int) * (pos.y as int) <= 2_500_000_000_000_000_000_000 && 0 <= (pos.z as int) * (
        pos.z as int) <= 2_500_000_000_000_000_000_000) by (nonlinear_arith)
            requires
                -50_000_000_000 <= pos.x as int <= 50_000_000_000,
                -50_000_000_000 <= pos.y as int <= 50_000_000_000,
                -50_000_000_000 <= pos.z as int <= 50_000_000_000,
        ;
        lemma_neg_mul(pos.x as int, pos.x as int);
        lemma_neg_mul(pos.y as int, pos.y as int);
        lemma_neg_mul(pos.z as int, pos.z as int);
    }
    let ax: u64 = if pos.x < 0 {
        (-pos.x) as u64
    } else {
        pos.x as u64
    };
    let ay: u64 = if pos.y < 0 {
        (-pos.y) as u64
    } else {
        pos.y as u64
    };
    let az: u64 = if pos.z < 0 {
        (-pos.z) as u64
    } else {
        pos.z as u64
    };
    let nsq: u128 = (ax as u128) * (ax as u128) + (ay as u128) * (ay as u128) + (az as u128) * (
    az as u128);
    proof {
        assert(nsq as int == vec_norm_sq(pos));
    }
    let r64: u64 = isqrt_u128(nsq);
    let corrected = if (r64 as i64) < min {
        Vec3 { x: pos.x, y: pos.y + (min - (r64 as i64)), z: pos.z }
    } else {
        pos
    };
    let position = rotate_vec(up, &corrected);
    let orientation = quat_mul(up, qx);
    Pose { position, orientation }
}

/// The target, rate and approach relation of one damped scalar across one
/// drive step: the target and rate are kept, and the current value takes
/// exactly one damping step of the strength that `rate` and `dt` give —
/// hence it moves toward the target without overshooting, and a value at
/// its target, or a zero time step, stays put.
pub open spec fn scalar_approach(pre: DampedScalar, post: DampedScalar, dt: u64) -> bool {
    &&& post.target == pre.target
    &&& post.rate == pre.rate
    &&& post.current as int == damp_step(
        pre.current as int,
        pre.target as int,
        spec_alpha_for(pre.rate as int, dt as int),
    )
    &&& abs_i(post.target - post.current) <= abs_i(pre.target - pre.current)
    &&& (pre.current <= pre.target ==> pre.current <= post.current <= pre.target)
    &&& (pre.target <= pre.current ==> pre.target <= post.current <= pre.current)
    &&& (pre.current == pre.target ==> post.current == pre.current)
    &&& (dt == 0 ==> post.current == pre.current)
}

/// What one drive step does to the camera state: each of the five damped
/// values takes exactly one damping step of the strength its rate and `dt`
/// give, targets are kept, and a camera already at all of its targets, or
/// a zero time step, changes nothing.
pub open spec fn drove(pre: OrbitCam, post: OrbitCam, dt: u64) -> bool {
    &&& scalar_approach(pre.inclination, post.inclination, dt)
    &&& scalar_approach(pre.distance, post.distance, dt)
    &&& scalar_approach(pre.target_height, post.target_height, dt)
    &&& scalar_approach(pre.min, post.min, dt)
    &&& post.up.target == pre.up.target
    &&& post.up.rate == pre.up.rate
    &&& post.up.current == spec_rot_step(
        pre.up.current,
        pre.up.target,
        spec_alpha_for(pre.up.rate as int, dt as int),
    )
    &&& (pre.up.current == pre.up.target ==> post.up.current == pre.up.current)
    &&& (dt == 0 ==> post.up.current == pre.up.current)
}

/// The pose of the camera's current values: the height offset plus the
/// inclination-tilted, distance-scaled arm, corrected against the floor,
/// carried into the orbit plane by the `up` rotation.
pub open spec fn spec_camera_pose(cam: OrbitCam) -> Pose {
    spec_pose_parts(
        cam.up.current,
        spec_from_rotation_x(-(cam.inclination.current as int)),
        cam.distance.current as int,
        cam.target_height.current,
        cam.min.current as int,
    )
}

impl OrbitCam {
    /// The state invariant: every damped value is well formed, both
    /// orientation quaternions are near unit length, the inclination lies
    /// in [0, pi/2] and the distance and the floor are non-negative.
    pub open spec fn wf(self) -> bool {
        &&& self.up.wf()
        &&& self.inclination.wf()
        &&& 0 <= self.inclination.current <= HALF_PI_FP
        &&& 0 <= self.inclination.target <= HALF_PI_FP
        &&& self.distance.wf()
        &&& 0 <= self.distance.current
        &&& 0 <= self.distance.target
        &&& self.target_height.wf()
        &&& self.min.wf()
        &&& 0 <= self.min.current
        &&& 0 <= self.min.target
    }

    /// A camera at rest: identity orientation, zero inclination, distance
    /// four units, height offset and floor a hundredth of a unit. `radius`
    /// sets the damping rate of the height offset and of the floor.
    pub fn from_radius(radius: i64) -> (cam: OrbitCam)
        requires
            0 <= radius <= RATE_MAX,
        ensures
            cam.wf(),
            cam.up.current == spec_quat_identity(),
            cam.up.target == spec_quat_identity(),
            cam.up.rate == UP_RATE,
            cam.inclination.current == 0 && cam.inclination.target == 0 && cam.inclination.rate
                == TILT_RATE,
            cam.distance.current == DIST_INIT && cam.distance.target == DIST_INIT
                && cam.distance.rate == ZOOM_RATE,
            cam.target_height.current == HEIGHT_INIT && cam.target_height.target == HEIGHT_INIT
                && cam.target_height.rate == radius,
            cam.min.current == HEIGHT_INIT && cam.min.target == HEIGHT_INIT && cam.min.rate
                == radius,
    {
        OrbitCam {
            up: DampedRotation::new(quat_identity(), UP_RATE),
            inclination: DampedScalar::new(0, TILT_RATE),
            distance: DampedScalar::new(DIST_INIT, ZOOM_RATE),
            target_height: DampedScalar::new(HEIGHT_INIT, radius),
            min: DampedScalar::new(HEIGHT_INIT, radius),
        }
    }

    /// The pose of the camera's current (already advanced) values.
    pub fn pose(&self) -> (p: Pose)
        requires
            self.wf(),
        ensures
            p == spec_camera_pose(*self),
    {
        let qx = quat_from_rotation_x(-self.inclination.current);
        pose_from_parts(&self.up.current, &qx, self.distance.current, self.target_height.current,
            self.min.current)
    }

    /// Advance all five damped values by the time step `dt` (micro-seconds)
    /// and compute the pose of the advanced values.
    pub fn drive(&mut self, dt: u64) -> (p: Pose)
        requires
            old(self).wf(),
            dt <= DT_MAX,
        ensures
            final(self).wf(),
            drove(*old(self), *final(self), dt),
            p == spec_camera_pose(*final(self)),
    {
        self.up.drive(dt);
        self.inclination.drive(dt);
        self.distance.drive(dt);
        self.target_height.drive(dt);
        self.min.drive(dt);
        self.pose()
    }
}

impl Default for OrbitCam {
    /// The camera of `from_radius` with a radius of one unit.
    fn default() -> (cam: Self)
        ensures
            cam.wf(),
            cam.up.current == spec_quat_identity() && cam.up.target == spec_quat_identity()
                && cam.up.rate == UP_RATE,
            cam.inclination.current == 0 && cam.inclination.target == 0 && cam.inclination.rate
                == TILT_RATE,
            cam.distance.current == DIST_INIT && cam.distance.target == DIST_INIT
                && cam.distance.rate == ZOOM_RATE,
            cam.target_height.current == HEIGHT_INIT && cam.target_height.target == HEIGHT_INIT
                && cam.target_height.rate == SCALE,
            cam.min.current == HEIGHT_INIT && cam.min.target == HEIGHT_INIT && cam.min.rate
                == SCALE,
    {
        OrbitCam::from_radius(SCALE)
    }
}

/// Drive every camera by the same time step and collect the poses, one per
/// camera, in order.
pub fn update_orbitcams(cams: &mut Vec<OrbitCam>, dt: u64) -> (poses: Vec<Pose>)
    requires
        forall|i: int| 0 <= i < old(cams).len() ==> old(cams)[i].wf(),
        dt <= DT_MAX,
    ensures
        final(cams).len() == old(cams).len(),
        poses.len() == old(cams).len(),
        forall|i: int| #![trigger final(cams)[i]]
            0 <= i < old(cams).len() ==> final(cams)[i].wf() && drove(
                old(cams)[i],
                final(cams)[i],
                dt,
            ),
        forall|i: int| #![trigger poses[i]]
            0 <= i < old(cams).len() ==> poses[i] == spec_camera_pose(final(cams)[i]),
{
    let ghost cams0 = *cams;
    let mut poses: Vec<Pose> = Vec::new();
    let n: usize = cams.len();
    let mut i: usize = 0;
    while i < n
        invariant
            n == cams.len(),
            n == cams0.len(),
            i <= n,
            poses.len() == i,
            forall|j: int| 0 <= j < n ==> cams0[j].wf(),
            dt <= DT_MAX,
            forall|j: int| #![trigger cams[j]] i <= j < n ==> cams[j] == cams0[j],
            forall|j: int| #![trigger cams[j]]
                0 <= j < i ==> cams[j].wf() && drove(cams0[j], cams[j], dt),
            forall|j: int| #![trigger poses[j]]
                0 <= j < i ==> poses[j] == spec_camera_pose(cams[j]),
        decreases n - i,
    {
        let mut cam: OrbitCam = cams[i];
        proof {
            assert(cams[i as int] == cams0[i as int]);
            assert(cams0[i as int].wf());
        }
        let ghost cam_pre = cam;
        let p: Pose = cam.drive(dt);
        let ghost pre_set = cams@;
        let ghost pre_push = poses@;
        cams.set(i, cam);
        poses.push(p);
        proof {
            let ii = i as int;
            assert(cams@ == pre_set.update(ii, cam));
            assert(cam_pre == cams0[ii]);
            assert(drove(cams0[ii], cam, dt));
            assert forall|j: int| 0 <= j < ii + 1 implies #[trigger] cams[j].wf() && drove(
                cams0[j],
                cams[j],
                dt,
            ) by {
                if j < ii {
                    assert(cams[j] == pre_set[j]);
                } else {
                    assert(cams[j] == cam);
                }
            }
            assert forall|j: int| 0 <= j < ii + 1 implies #[trigger] poses[j] == spec_camera_pose(
                cams[j],
            ) by {
                if j < ii {
                    assert(cams[j] == pre_set[j]);
                    assert(poses[j] == pre_push[j]);
                } else {
                    assert(cams[j] == cam);
                    assert(poses[j] == p);
                }
            }
        }
        i = i + 1;
    }
    poses
}

} // verus!\n