use orbitcam::camera::{update_orbitcams, OrbitCam, Pose, DIST_INIT, HEIGHT_INIT};
use orbitcam::damp::{alpha_for, DampedScalar};
use orbitcam::input::{
    key_held, scroll_delta, speed_scale, OrbitCamConfig, ScrollEvent, KEY_A, KEY_ARROW_DOWN,
    KEY_ARROW_LEFT, KEY_ARROW_RIGHT, KEY_ARROW_UP, KEY_D, KEY_S, KEY_SHIFT_LEFT, KEY_SPACE, KEY_W,
};
use orbitcam::rot::{quat_identity, Quat, Vec3};

const SCALE: i64 = 1_000_000;
const HALF_PI_FP: i64 = 1_570_796;

fn norm_sq(q: &Quat) -> i64 {
    q.x * q.x + q.y * q.y + q.z * q.z + q.w * q.w
}

fn assert_near_unit(q: &Quat) {
    let n = norm_sq(q);
    assert!(
        998_000_000_000 <= n && n <= 1_002_000_000_000,
        "norm_sq out of tolerance: {}",
        n
    );
}

#[test]
fn damped_scalar_monotone_approach() {
    let mut d = DampedScalar::new(0, 10_000_000);
    d.target = 1_000_000;
    let mut last_gap = (d.target - d.current).abs();
    for _ in 0..20 {
        let prev = d.current;
        d.drive(100_000);
        let gap = (d.target - d.current).abs();
        assert!(gap <= last_gap, "distance to target grew");
        assert!(prev <= d.current && d.current <= d.target, "overshoot");
        last_gap = gap;
    }
    assert!(last_gap < 1_000_000);
}

#[test]
fn damped_scalar_monotone_from_above() {
    let mut d = DampedScalar::new(500_000, 20_000_000);
    d.target = -250_000;
    let mut last_gap = (d.target - d.current).abs();
    for _ in 0..30 {
        let prev = d.current;
        d.drive(50_000);
        let gap = (d.target - d.current).abs();
        assert!(gap <= last_gap);
        assert!(d.target <= d.current && d.current <= prev);
        last_gap = gap;
    }
}

#[test]
fn damped_scalar_idempotent_at_target() {
    let mut d = DampedScalar::new(123_456, 5_000_000);
    for _ in 0..5 {
        let v = d.drive(1_000_000);
        assert_eq!(v, 123_456);
        assert_eq!(d.current, 123_456);
        assert_eq!(d.target, 123_456);
    }
}

#[test]
fn damped_scalar_zero_dt_is_noop() {
    let mut d = DampedScalar::new(0, 10_000_000);
    d.target = 777_777;
    d.drive(0);
    assert_eq!(d.current, 0);
}

#[test]
fn alpha_for_edges() {
    assert_eq!(alpha_for(10_000_000, 0), 0);
    assert_eq!(alpha_for(0, 1_000_000), 0);
    let a = alpha_for(1_000_000, 1_000_000);
    assert!(0 < a && a <= SCALE, "alpha out of range: {}", a);
    // 1 - exp(-1) is about 0.632.
    assert!((a - 632_120).abs() < 5_000, "alpha far from 1-exp(-1): {}", a);
}

#[test]
fn frame_time_independence_within_tolerance() {
    // One step of dt versus two steps of dt/2, at two different rates.
    for &(rate, dt) in &[(1_000_000i64, 1_000_000u64), (10_000_000, 1_000_000), (2_000_000, 400_000)] {
        let mut one = DampedScalar::new(0, rate);
        one.target = 1_000_000;
        let mut two = DampedScalar::new(0, rate);
        two.target = 1_000_000;
        one.drive(dt);
        two.drive(dt / 2);
        two.drive(dt / 2);
        let diff = (one.current - two.current).abs();
        assert!(diff <= 2_000, "one={} two={} rate={}", one.current, two.current, rate);
    }
}

#[test]
fn half_step_retained_fraction_relation() {
    // The fraction retained by one full step should be close to the square
    // of the fraction retained by a half step: exact for the damping model,
    // within a small tolerance for the fixed-point exponential.
    for &(rate, dt) in &[
        (1_000_000i64, 1_000_000u64),
        (10_000_000, 1_000_000),
        (2_000_000, 400_000),
        (5_000_000, 2_000_000),
        (500_000, 100_000),
    ] {
        let a1 = alpha_for(rate, dt);
        let a2 = alpha_for(rate, dt / 2);
        let full = (SCALE - a1) * SCALE;
        let halves = (SCALE - a2) * (SCALE - a2);
        let miss = (full - halves).abs();
        assert!(miss <= 2_000_000_000, "relation miss {} at rate {}", miss, rate);
    }
}

#[test]
fn update_drives_each_camera_exactly_once() {
    let mut cams = vec![OrbitCam::default()];
    cams[0].distance.target = 6_000_000;
    cams[0].inclination.target = 500_000;
    let mut copy = cams[0];
    let poses = update_orbitcams(&mut cams, 250_000);
    let p = copy.drive(250_000);
    assert_eq!(poses[0], p);
    assert_eq!(cams[0].distance.current, copy.distance.current);
    assert_eq!(cams[0].inclination.current, copy.inclination.current);
    assert_eq!(cams[0].up.current, copy.up.current);
}

#[test]
fn speed_scale_saturating_shape() {
    // Zero at zero, monotone in distance, strictly below the asymptote.
    assert_eq!(speed_scale(0), 0);
    let mut last: i64 = 0;
    for &d in &[1, 10_000, 1_000_000, 4_000_000, 100_000_000, 1_000_000_000] {
        let scl = speed_scale(d);
        assert!(scl >= last, "curve decreased at {}", d);
        assert!(scl < 40_000);
        last = scl;
    }
    // Far out the curve approaches, but never reaches, 0.04.
    assert!(speed_scale(1_000_000_000) > 35_000);
}

#[test]
fn pose_is_a_function_of_the_state() {
    let mut cam1 = OrbitCam::default();
    cam1.inclination.target = 800_000;
    cam1.distance.target = 7_000_000;
    let mut cam2 = cam1;
    for _ in 0..10 {
        let p1 = cam1.drive(100_000);
        let p2 = cam2.drive(100_000);
        assert_eq!(p1, p2);
    }
    // A second pose of the same state is the same pose.
    assert_eq!(cam1.pose(), cam1.pose());
}

#[test]
fn degenerate_radius_correction_is_vertical_only() {
    let mut cam = OrbitCam::from_radius(SCALE);
    cam.distance.current = 0;
    cam.target_height.current = 5_000;
    cam.min.current = 100_000;
    let p = cam.pose();
    // r = 5_000 < min = 100_000: the vertical component gains exactly
    // min - r, the horizontal ones stay zero.
    assert_eq!(p.position, Vec3 { x: 0, y: 100_000, z: 0 });
    assert_eq!(p.orientation, quat_identity());
}

#[test]
fn no_correction_above_the_floor() {
    let cam = OrbitCam::from_radius(SCALE);
    let p = cam.pose();
    // inclination 0: the arm lies along +Z, the height offset along +Y.
    assert_eq!(p.position, Vec3 { x: 0, y: HEIGHT_INIT, z: DIST_INIT });
    assert_eq!(p.orientation, quat_identity());
}

#[test]
fn inclination_saturates_low() {
    let config = OrbitCamConfig::default();
    let mut cams = vec![OrbitCam::default()];
    let held = vec![KEY_ARROW_UP];
    let scroll: Vec<ScrollEvent> = vec![];
    for _ in 0..10_000 {
        OrbitCam::process_input(&mut cams, &held, &scroll, &config);
        assert!(0 <= cams[0].inclination.target && cams[0].inclination.target <= HALF_PI_FP);
    }
    assert_eq!(cams[0].inclination.target, 0);
}

#[test]
fn inclination_saturates_high() {
    let config = OrbitCamConfig::default();
    let mut cams = vec![OrbitCam::default()];
    let held = vec![KEY_ARROW_DOWN];
    let scroll: Vec<ScrollEvent> = vec![];
    for _ in 0..100 {
        OrbitCam::process_input(&mut cams, &held, &scroll, &config);
        assert!(0 <= cams[0].inclination.target && cams[0].inclination.target <= HALF_PI_FP);
    }
    assert_eq!(cams[0].inclination.target, HALF_PI_FP);
}

#[test]
fn orientation_stays_unit_length() {
    let config = OrbitCamConfig::default();
    let mut cams = vec![OrbitCam::default()];
    let held = vec![KEY_A, KEY_ARROW_LEFT, KEY_W];
    let scroll: Vec<ScrollEvent> = vec![];
    for _ in 0..200 {
        OrbitCam::process_input(&mut cams, &held, &scroll, &config);
        update_orbitcams(&mut cams, 16_667);
        assert_near_unit(&cams[0].up.target);
        assert_near_unit(&cams[0].up.current);
    }
}

#[test]
fn zoom_formula_exact() {
    let mut cam = OrbitCam::default();
    assert_eq!(cam.distance.target, 4_000_000);
    cam.apply_input(0, 0, 1_000_000, 0, 0);
    // 4.0 * (1 + 1.0 * 0.2) = 4.8.
    assert_eq!(cam.distance.target, 4_800_000);
}

#[test]
fn zoom_large_scroll_is_not_capped() {
    let config = OrbitCamConfig::default();
    let mut cams = vec![OrbitCam::default()];
    // Twenty line-unit scroll events of one unit each: dz = 20.
    let scroll: Vec<ScrollEvent> = (0..20)
        .map(|_| ScrollEvent { pixel_unit: false, amount: 1_000_000 })
        .collect();
    let held: Vec<u32> = vec![];
    OrbitCam::process_input(&mut cams, &held, &scroll, &config);
    // 4.0 * (1 + 20 * 0.2) = 20.0.
    assert_eq!(cams[0].distance.target, 20_000_000);
}

#[test]
fn zoom_never_negative() {
    let mut cam = OrbitCam::default();
    cam.apply_input(0, 0, -2_000_000_000_000, 0, 0);
    assert!(cam.distance.target >= 0);
}

#[test]
fn zoom_key_steps_distance() {
    let config = OrbitCamConfig::default();
    let mut cams = vec![OrbitCam::default()];
    let held = vec![KEY_SPACE];
    let scroll: Vec<ScrollEvent> = vec![];
    OrbitCam::process_input(&mut cams, &held, &scroll, &config);
    // 4.0 * (1 + 0.2 * 0.2) = 4.16.
    assert_eq!(cams[0].distance.target, 4_160_000);
    let mut cams2 = vec![OrbitCam::default()];
    let held2 = vec![KEY_SHIFT_LEFT];
    OrbitCam::process_input(&mut cams2, &held2, &scroll, &config);
    // 4.0 * (1 - 0.2 * 0.2) = 3.84.
    assert_eq!(cams2[0].distance.target, 3_840_000);
}

#[test]
fn zero_pan_keeps_orientation_target() {
    let mut cam = OrbitCam::default();
    // Give the orientation target a value away from the identity first.
    cam.apply_input(50_000, 0, 0, 1, 0);
    let up_before = cam.up.target;
    assert_ne!(up_before, quat_identity());
    // A tick with tilt and zoom input but no pan and no yaw.
    cam.apply_input(0, 80_000, 300_000, 0, 0);
    assert_eq!(cam.up.target, up_before);
}

#[test]
fn zero_pan_through_process_input() {
    let config = OrbitCamConfig::default();
    let mut cams = vec![OrbitCam::default()];
    let held0 = vec![KEY_D, KEY_ARROW_LEFT];
    let scroll: Vec<ScrollEvent> = vec![];
    OrbitCam::process_input(&mut cams, &held0, &scroll, &config);
    let up_before = cams[0].up.target;
    // Only non-pan, non-rotate keys held this tick.
    let held = vec![KEY_SPACE, KEY_ARROW_DOWN];
    OrbitCam::process_input(&mut cams, &held, &scroll, &config);
    assert_eq!(cams[0].up.target, up_before);
}

#[test]
fn pan_moves_orientation_target() {
    let mut cam = OrbitCam::default();
    let up_before = cam.up.target;
    cam.apply_input(0, 0, 0, 0, 1);
    assert_ne!(cam.up.target, up_before);
    assert_near_unit(&cam.up.target);
}

#[test]
fn end_to_end_rest_pose() {
    let mut cam = OrbitCam::default();
    let mut p = Pose { position: Vec3 { x: 0, y: 0, z: 0 }, orientation: quat_identity() };
    for _ in 0..60 {
        p = cam.drive(1_000_000);
    }
    // Constructed at its targets, the camera never moves: the pose is the
    // converged one.
    assert_eq!(p.position, Vec3 { x: 0, y: HEIGHT_INIT, z: DIST_INIT });
    assert_eq!(p.orientation, quat_identity());
}

#[test]
fn end_to_end_converges_to_new_distance() {
    let mut cam = OrbitCam::default();
    cam.distance.target = 8_000_000;
    let mut p = cam.pose();
    for _ in 0..200 {
        p = cam.drive(500_000);
    }
    assert!((cam.distance.current - 8_000_000).abs() <= 2);
    // With inclination zero the arm lies along +Z at the current distance.
    assert_eq!(p.position.x, 0);
    assert_eq!(p.position.y, HEIGHT_INIT);
    assert!((p.position.z - 8_000_000).abs() <= 2);
    assert_eq!(p.orientation, quat_identity());
}

#[test]
fn update_orbitcams_drives_each_camera() {
    let mut cams = vec![OrbitCam::default(), OrbitCam::from_radius(2_000_000)];
    cams[0].distance.target = 6_000_000;
    let poses = update_orbitcams(&mut cams, 250_000);
    assert_eq!(poses.len(), 2);
    assert!(cams[0].distance.current > 4_000_000);
    assert!(cams[0].distance.current <= 6_000_000);
    // The second camera sits at its targets and keeps its rest pose.
    assert_eq!(poses[1].position, Vec3 { x: 0, y: HEIGHT_INIT, z: DIST_INIT });
}

#[test]
fn scroll_delta_mixes_units() {
    let events = vec![
        ScrollEvent { pixel_unit: false, amount: 1_000_000 },
        ScrollEvent { pixel_unit: true, amount: 10_000_000 },
    ];
    assert_eq!(scroll_delta(&events), 2_000_000);
    let tiny = vec![ScrollEvent { pixel_unit: true, amount: -15 }];
    // Pixel events scale by a tenth, truncated toward zero.
    assert_eq!(scroll_delta(&tiny), -1);
    let none: Vec<ScrollEvent> = vec![];
    assert_eq!(scroll_delta(&none), 0);
}

#[test]
fn key_held_scans_the_list() {
    let held = vec![KEY_W, KEY_SPACE];
    assert!(key_held(&held, KEY_W));
    assert!(key_held(&held, KEY_SPACE));
    assert!(!key_held(&held, KEY_A));
    let empty: Vec<u32> = vec![];
    assert!(!key_held(&empty, KEY_W));
}

#[test]
fn config_default_bindings() {
    let c = OrbitCamConfig::default();
    assert_eq!(c.forward, KEY_W);
    assert_eq!(c.left, KEY_A);
    assert_eq!(c.right, KEY_D);
    assert_eq!(c.backward, KEY_S);
    assert_eq!(c.cw, KEY_ARROW_LEFT);
    assert_eq!(c.ccw, KEY_ARROW_RIGHT);
    assert_eq!(c.tilt_up, KEY_ARROW_UP);
    assert_eq!(c.tilt_down, KEY_ARROW_DOWN);
    assert_eq!(c.zoom_in, KEY_SHIFT_LEFT);
    assert_eq!(c.zoom_out, KEY_SPACE);
}

#[test]
fn from_radius_initial_state() {
    let cam = OrbitCam::from_radius(SCALE);
    assert_eq!(cam.up.current, quat_identity());
    assert_eq!(cam.up.target, quat_identity());
    assert_eq!(cam.inclination.current, 0);
    assert_eq!(cam.distance.current, DIST_INIT);
    assert_eq!(cam.target_height.current, HEIGHT_INIT);
    assert_eq!(cam.min.current, HEIGHT_INIT);
}

#[test]
fn rotation_damping_converges_and_is_idempotent() {
    let mut cam = OrbitCam::default();
    // Rotate the target away from the identity, then drive to it.
    cam.apply_input(50_000, 0, 0, 0, 0);
    let target = cam.up.target;
    assert_ne!(cam.up.current, target);
    for _ in 0..400 {
        cam.drive(250_000);
    }
    // Once current equals target, further driving changes nothing.
    if cam.up.current == cam.up.target {
        let frozen = cam.up.current;
        cam.drive(250_000);
        assert_eq!(cam.up.current, frozen);
    }
    assert_near_unit(&cam.up.current);
    assert_near_unit(&cam.up.target);
}
