//! Points, vectors and the camera-framing computation.
//!
//! Scene coordinates are held in fixed point: one world unit is
//! `MICROS_PER_UNIT` micro-units, so fractional coordinates from a digest
//! file are represented exactly up to six decimal places.

use vstd::prelude::*;

verus! {

/// Number of micro-units in one world unit.
pub const MICROS_PER_UNIT: i64 = 1_000_000;

/// Camera standoff distance from a framed target, in world units.
pub const STANDOFF_UNITS: i64 = 50;

/// Camera standoff distance in micro-units.
pub const STANDOFF_MICROS: i64 = STANDOFF_UNITS * MICROS_PER_UNIT;

/// Largest coordinate magnitude (in micro-units) the model admits: one
/// million world units.  Keeps all framing arithmetic far from overflow.
pub const COORD_LIMIT_MICROS: i64 = 1_000_000_000_000;

/// A point in scene space, coordinates in micro-units.
#[derive(Clone, Copy, Debug, PartialEq, Eq, Structural)]
pub struct Point3 {
    pub x: i64,
    pub y: i64,
    pub z: i64,
}

/// A direction in scene space (for example a camera's up vector),
/// components in micro-units.
#[derive(Clone, Copy, Debug, PartialEq, Eq, Structural)]
pub struct Vec3 {
    pub x: i64,
    pub y: i64,
    pub z: i64,
}

/// A camera pose: where the camera sits, the point it looks at, and the
/// up direction used to orient it.  The pose always looks directly at
/// `target`; the forward direction is the vector from `position` to
/// `target`.
#[derive(Clone, Copy, Debug, PartialEq, Eq, Structural)]
pub struct CameraPose {
    pub position: Point3,
    pub target: Point3,
    pub up: Vec3,
}

/// The pose that frames `target`: the camera stands at the standoff
/// distance along the positive x axis and looks back at the target.
pub open spec fn spec_frame(target: Point3, up: Vec3) -> CameraPose {
    CameraPose {
        position: Point3 {
            x: (target.x + STANDOFF_MICROS) as i64,
            y: target.y,
            z: target.z,
        },
        target: target,
        up: up,
    }
}

/// The forward vector of a pose: from the camera position to the target,
/// as unbounded integers per coordinate.
pub open spec fn pose_forward(pose: CameraPose) -> (int, int, int) {
    (
        pose.target.x - pose.position.x,
        pose.target.y - pose.position.y,
        pose.target.z - pose.position.z,
    )
}

/// Whether every coordinate of a point lies within the model's limit.
pub open spec fn point_in_bounds(p: Point3) -> bool {
    &&& -COORD_LIMIT_MICROS <= p.x <= COORD_LIMIT_MICROS
    &&& -COORD_LIMIT_MICROS <= p.y <= COORD_LIMIT_MICROS
    &&& -COORD_LIMIT_MICROS <= p.z <= COORD_LIMIT_MICROS
}

/// Runtime check matching `point_in_bounds`.
pub fn point_within_limits(p: &Point3) -> (b: bool)
    ensures
        b == point_in_bounds(*p),
{
    -COORD_LIMIT_MICROS <= p.x && p.x <= COORD_LIMIT_MICROS
        && -COORD_LIMIT_MICROS <= p.y && p.y <= COORD_LIMIT_MICROS
        && -COORD_LIMIT_MICROS <= p.z && p.z <= COORD_LIMIT_MICROS
}

/// A point within the coordinate limit can always be framed without
/// overflowing the standoff arithmetic.
pub proof fn lemma_bounded_point_frames(p: Point3)
    requires
        point_in_bounds(p),
    ensures
        p.x + STANDOFF_MICROS <= i64::MAX,
{
}

/// Compute the camera pose that frames `target` with the given up vector:
/// the camera is placed at `target + (STANDOFF_MICROS, 0, 0)` and looks at
/// `target`.  Pure: the result depends on the arguments alone.
pub fn frame_camera_on(target: Point3, up: Vec3) -> (pose: CameraPose)
    requires
        target.x + STANDOFF_MICROS <= i64::MAX,
    ensures
        pose == spec_frame(target, up),
{
    CameraPose {
        position: Point3 { x: target.x + STANDOFF_MICROS, y: target.y, z: target.z },
        target: target,
        up: up,
    }
}

/// A framing pose looks directly at its target: the target is the supplied
/// point, the forward vector runs exactly from the camera position to that
/// point, and the up vector is the one supplied.
pub proof fn lemma_frame_looks_at_target(target: Point3, up: Vec3)
    requires
        target.x + STANDOFF_MICROS <= i64::MAX,
    ensures
        spec_frame(target, up).target == target,
        spec_frame(target, up).up == up,
        pose_forward(spec_frame(target, up)) == (-(STANDOFF_MICROS as int), 0int, 0int),
        spec_frame(target, up).position.x + pose_forward(spec_frame(target, up)).0 == target.x,
        spec_frame(target, up).position.y + pose_forward(spec_frame(target, up)).1 == target.y,
        spec_frame(target, up).position.z + pose_forward(spec_frame(target, up)).2 == target.z,
{
}

/// Framing is deterministic: two framings of the same target with the same
/// up vector yield the identical pose.
pub proof fn lemma_frame_deterministic(t1: Point3, u1: Vec3, t2: Point3, u2: Vec3)
    requires
        t1 == t2,
        u1 == u2,
    ensures
        spec_frame(t1, u1) == spec_frame(t2, u2),
{
}

} // verus!
