//! A first-person fly-camera controller.
//!
//! The controller's state is modelled in fixed-point arithmetic: lengths and
//! direction components carry three decimal digits (one unit is 1000), and
//! angles are milli-degrees. The per-frame update rules — turning the camera
//! from buffered pointer motion and translating it from held movement keys —
//! are ordinary integer functions with full contracts; a host engine feeds
//! them input snapshots and applies the resulting pose to its scene.

pub mod config;
pub mod look;
pub mod math;
pub mod movement;
pub mod pose;

pub use config::{FlyCamKeybinds, FlyCamSettings};
pub use look::look_update;
pub use math::{PITCH_LIMIT, UNIT};
pub use movement::move_update;
pub use pose::{initial_pose, CameraPose, FlyCameraMarker, MouseDelta, Vec3Fix};
