//! The camera's pose, modelled as a position and a roll-free orientation.
//!
//! The orientation is kept decomposed as a yaw (rotation about world up) and
//! a pitch (rotation about the camera's right axis), both in milli-degrees;
//! composing yaw before pitch keeps the view from accumulating roll. The
//! position holds `UNIT` steps per length unit.

use vstd::prelude::*;
use crate::math::{UNIT, PITCH_LIMIT};

verus! {

/// A 3D vector in fixed-point steps, `UNIT` steps per whole unit.
#[derive(Clone, Copy, PartialEq, Eq, Structural, Debug)]
pub struct Vec3Fix {
    pub x: i64,
    pub y: i64,
    pub z: i64,
}

/// One buffered pointer-motion sample, in `UNIT` steps per whole count.
/// Positive `dx` is motion to the right, positive `dy` motion downward.
#[derive(Clone, Copy, PartialEq, Eq, Structural, Debug)]
pub struct MouseDelta {
    pub dx: i64,
    pub dy: i64,
}

/// Marker for querying flycams.
#[derive(Clone, Copy, PartialEq, Eq, Structural, Debug)]
pub struct FlyCameraMarker;

/// The controlled camera's pose: where it stands and where it looks.
#[derive(Clone, Copy, PartialEq, Eq, Structural, Debug)]
pub struct CameraPose {
    /// Position in `UNIT` steps per length unit.
    pub pos: Vec3Fix,
    /// Rotation about world up, in milli-degrees.
    pub yaw: i64,
    /// Rotation about the local right axis, in milli-degrees.
    pub pitch: i64,
}

/// A pitch that stays short of straight up or straight down, so the view
/// cannot flip over the poles.
pub open spec fn pitch_in_range(p: int) -> bool {
    -(PITCH_LIMIT as int) <= p <= PITCH_LIMIT as int
}

/// The pose a freshly spawned camera takes: standing at `(0, 3, 3)` and
/// looking at the world origin. Seen from there the origin lies 45 degrees
/// below the horizon with no sideways turn, so the yaw is zero and the pitch
/// minus 45 degrees.
pub fn initial_pose() -> (p: CameraPose)
    ensures
        p.pos == (Vec3Fix { x: 0, y: 3000, z: 3000 }),
        p.yaw == 0,
        p.pitch == -45_000,
        pitch_in_range(p.pitch as int),
{
    CameraPose {
        pos: Vec3Fix { x: 0, y: 3 * UNIT, z: 3 * UNIT },
        yaw: 0,
        pitch: -45_000,
    }
}

} // verus!
