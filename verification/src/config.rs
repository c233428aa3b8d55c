//! The two configuration records the controller reads each frame: the
//! sensitivity and speed settings, and the key bindings for the six movement
//! actions.
//!
//! Key identifiers are plain numbers in a space the host chooses; the
//! constants below name the identifiers the default bindings use, and the
//! host maps its own key codes onto them.

use vstd::prelude::*;
use crate::math::UNIT;

verus! {

/// Key identifier for the letter W.
pub const KEY_W: u64 = 0;

/// Key identifier for the letter S.
pub const KEY_S: u64 = 1;

/// Key identifier for the letter A.
pub const KEY_A: u64 = 2;

/// Key identifier for the letter D.
pub const KEY_D: u64 = 3;

/// Key identifier for the space bar.
pub const KEY_SPACE: u64 = 4;

/// Key identifier for the left shift key.
pub const KEY_SHIFT_LEFT: u64 = 5;

/// Settings for mouse sensitivity and movement speed, in fixed-point steps:
/// `sensitivity` is degrees per whole input count times `UNIT`, and
/// `move_speed` is length units per second times `UNIT`.
#[derive(Clone, Copy, PartialEq, Eq, Structural, Debug)]
pub struct FlyCamSettings {
    pub sensitivity: i64,
    pub move_speed: i64,
}

impl Default for FlyCamSettings {
    /// The stock feel: 0.08 degrees per count, 10 length units per second.
    fn default() -> (s: Self)
        ensures
            s.sensitivity == 80,
            s.move_speed == 10 * UNIT,
    {
        FlyCamSettings { sensitivity: 80, move_speed: 10 * UNIT }
    }
}

/// Allows customizing the different movement keybinds.
#[derive(Clone, Copy, PartialEq, Eq, Structural, Debug)]
pub struct FlyCamKeybinds {
    pub move_forward: u64,
    pub move_back: u64,
    pub move_left: u64,
    pub move_right: u64,
    pub move_up: u64,
    pub move_down: u64,
}

impl Default for FlyCamKeybinds {
    /// The usual first-person layout: WASD to move, space to rise, left
    /// shift to sink.
    fn default() -> (k: Self)
        ensures
            k.move_forward == KEY_W,
            k.move_back == KEY_S,
            k.move_left == KEY_A,
            k.move_right == KEY_D,
            k.move_up == KEY_SPACE,
            k.move_down == KEY_SHIFT_LEFT,
    {
        FlyCamKeybinds {
            move_forward: KEY_W,
            move_back: KEY_S,
            move_left: KEY_A,
            move_right: KEY_D,
            move_up: KEY_SPACE,
            move_down: KEY_SHIFT_LEFT,
        }
    }
}

} // verus!
