//! Orbit-camera core: damped approach of scalar and rotation values toward
//! mutable targets, pose computation for an orbiting viewpoint, and mapping
//! of per-tick input to the targets.
//!
//! All quantities are fixed-point integers in micro-units: a real value `v`
//! is stored as the integer `v * 1_000_000`. Angles are radians in the same
//! micro-unit encoding; rotations are quaternions whose four components are
//! micro-unit fixed-point numbers kept near unit length.

pub mod camera;
pub mod damp;
pub mod fixed;
pub mod input;
pub mod rot;
