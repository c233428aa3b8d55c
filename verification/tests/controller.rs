use fly_cam::config::{FlyCamKeybinds, FlyCamSettings, KEY_A, KEY_D, KEY_S, KEY_SHIFT_LEFT, KEY_SPACE, KEY_W};
use fly_cam::look::look_update;
use fly_cam::movement::move_update;
use fly_cam::pose::{initial_pose, CameraPose, MouseDelta, Vec3Fix};

fn level_pose() -> CameraPose {
    CameraPose {
        pos: Vec3Fix { x: 0, y: 3000, z: 3000 },
        yaw: 0,
        pitch: 0,
    }
}

// The camera's axes at zero yaw and zero pitch: forward is negative z,
// right is positive x, both one whole unit long.
fn level_forward() -> Vec3Fix {
    Vec3Fix { x: 0, y: 0, z: -1000 }
}

fn level_right() -> Vec3Fix {
    Vec3Fix { x: 1000, y: 0, z: 0 }
}

#[test]
fn default_settings() {
    let s = FlyCamSettings::default();
    assert_eq!(s.sensitivity, 80);
    assert_eq!(s.move_speed, 10_000);
}

#[test]
fn default_keybinds() {
    let k = FlyCamKeybinds::default();
    assert_eq!(k.move_forward, KEY_W);
    assert_eq!(k.move_back, KEY_S);
    assert_eq!(k.move_left, KEY_A);
    assert_eq!(k.move_right, KEY_D);
    assert_eq!(k.move_up, KEY_SPACE);
    assert_eq!(k.move_down, KEY_SHIFT_LEFT);
}

#[test]
fn spawn_pose_looks_at_origin() {
    let p = initial_pose();
    assert_eq!(p.pos, Vec3Fix { x: 0, y: 3000, z: 3000 });
    assert_eq!(p.yaw, 0);
    assert_eq!(p.pitch, -45_000);
}

#[test]
fn single_sample_turns_yaw_eight_degrees() {
    // 100 counts of horizontal motion at sensitivity 0.08 turn the camera
    // 8 degrees, leaving pitch alone.
    let mut pose = level_pose();
    let motions = vec![MouseDelta { dx: 100_000, dy: 0 }];
    look_update(&mut pose, &motions, 80);
    assert_eq!(pose.yaw, -8_000);
    assert_eq!(pose.pitch, 0);
    assert_eq!(pose.pos, level_pose().pos);
}

#[test]
fn vertical_sample_drops_pitch() {
    let mut pose = level_pose();
    let motions = vec![MouseDelta { dx: 0, dy: 50_000 }];
    look_update(&mut pose, &motions, 80);
    assert_eq!(pose.yaw, 0);
    assert_eq!(pose.pitch, -4_000);
}

#[test]
fn empty_batch_leaves_orientation_unchanged() {
    let mut pose = initial_pose();
    let motions: Vec<MouseDelta> = Vec::new();
    look_update(&mut pose, &motions, 80);
    assert_eq!(pose, initial_pose());
}

#[test]
fn pitch_clamps_downward() {
    let mut pose = level_pose();
    let motions = vec![MouseDelta { dx: 0, dy: 1_000_000_000 }];
    look_update(&mut pose, &motions, 80);
    assert_eq!(pose.pitch, -89_000);
}

#[test]
fn pitch_clamps_upward() {
    let mut pose = level_pose();
    let motions = vec![MouseDelta { dx: 0, dy: -1_000_000_000 }];
    look_update(&mut pose, &motions, 80);
    assert_eq!(pose.pitch, 89_000);
}

#[test]
fn pitch_stays_clamped_across_samples() {
    let mut pose = level_pose();
    let motions = vec![
        MouseDelta { dx: 0, dy: 900_000_000 },
        MouseDelta { dx: 0, dy: -10_000 },
        MouseDelta { dx: 0, dy: 2_000 },
    ];
    look_update(&mut pose, &motions, 80);
    // Clamped to the floor, then raised by 0.8 degrees, then lowered by 0.16.
    assert_eq!(pose.pitch, -89_000 + 800 - 160);
}

#[test]
fn one_batch_equals_two_frames() {
    let a = MouseDelta { dx: 31_416, dy: -2_718 };
    let b = MouseDelta { dx: -14_142, dy: 99_999 };

    let mut batched = initial_pose();
    look_update(&mut batched, &vec![a, b], 80);

    let mut framed = initial_pose();
    look_update(&mut framed, &vec![a], 80);
    look_update(&mut framed, &vec![b], 80);

    assert_eq!(batched, framed);
}

#[test]
fn forward_key_moves_along_forward() {
    // Holding forward for one second at speed 10 moves ten units along the
    // camera's forward axis: from (0, 3, 3) straight to (0, 3, -7).
    let mut pose = level_pose();
    let keys = vec![KEY_W];
    let binds = FlyCamKeybinds::default();
    move_update(&mut pose, &keys, &binds, &level_forward(), &level_right(), 10_000, 1_000);
    assert_eq!(pose.pos, Vec3Fix { x: 0, y: 3000, z: 3000 - 10_000 });
    assert_eq!(pose.yaw, 0);
    assert_eq!(pose.pitch, 0);
}

#[test]
fn no_keys_means_no_motion() {
    let mut pose = initial_pose();
    let keys: Vec<u64> = Vec::new();
    let binds = FlyCamKeybinds::default();
    move_update(&mut pose, &keys, &binds, &level_forward(), &level_right(), 10_000, 987_654);
    assert_eq!(pose, initial_pose());
}

#[test]
fn unbound_keys_mean_no_motion() {
    let mut pose = initial_pose();
    let keys = vec![77, 99];
    let binds = FlyCamKeybinds::default();
    move_update(&mut pose, &keys, &binds, &level_forward(), &level_right(), 10_000, 1_000);
    assert_eq!(pose, initial_pose());
}

#[test]
fn opposing_keys_cancel() {
    let mut pose = level_pose();
    let keys = vec![KEY_W, KEY_S];
    let binds = FlyCamKeybinds::default();
    move_update(&mut pose, &keys, &binds, &level_forward(), &level_right(), 10_000, 1_000);
    assert_eq!(pose.pos, level_pose().pos);
}

#[test]
fn diagonal_is_no_faster_than_straight() {
    // Forward and right held together: the summed direction is normalized,
    // so each axis gets 0.706 of the speed and the squared displacement
    // stays within (speed * dt) squared.
    let mut pose = level_pose();
    let keys = vec![KEY_W, KEY_D];
    let binds = FlyCamKeybinds::default();
    move_update(&mut pose, &keys, &binds, &level_forward(), &level_right(), 10_000, 1_000);
    let moved_x: i64 = pose.pos.x - 0;
    let moved_z: i64 = pose.pos.z - 3000;
    assert_eq!(moved_x, 7_060);
    assert_eq!(moved_z, -7_060);
    assert!(moved_x * moved_x + moved_z * moved_z <= 10_000i64 * 10_000);
}

#[test]
fn rise_and_sink_follow_world_up() {
    let binds = FlyCamKeybinds::default();

    let mut up = level_pose();
    move_update(&mut up, &vec![KEY_SPACE], &binds, &level_forward(), &level_right(), 10_000, 500);
    assert_eq!(up.pos, Vec3Fix { x: 0, y: 3000 + 5_000, z: 3000 });

    let mut down = level_pose();
    move_update(&mut down, &vec![KEY_SHIFT_LEFT], &binds, &level_forward(), &level_right(), 10_000, 500);
    assert_eq!(down.pos, Vec3Fix { x: 0, y: 3000 - 5_000, z: 3000 });
}

#[test]
fn pitched_forward_follows_view_direction() {
    // Pitched 45 degrees down, "forward" follows the view, not the horizon.
    // The camera's forward axis then has equal downward and forward parts.
    let mut pose = initial_pose();
    let fwd = Vec3Fix { x: 0, y: -707, z: -707 };
    let right = level_right();
    let keys = vec![KEY_W];
    let binds = FlyCamKeybinds::default();
    move_update(&mut pose, &keys, &binds, &fwd, &right, 10_000, 1_000);
    // |fwd| is slightly under one unit, and normalization brings it back:
    // ceil_sqrt(2 * 707^2) = 1000, so the axis passes through unscaled.
    assert_eq!(pose.pos, Vec3Fix { x: 0, y: 3000 - 7_070, z: 3000 - 7_070 });
}

#[test]
fn extreme_inputs_stay_at_the_limits() {
    // A wild pointer sample at the largest accepted magnitude and
    // sensitivity still only drives pitch to the clamp.
    let mut pose = level_pose();
    let motions = vec![MouseDelta { dx: 1_000_000_000, dy: 1_000_000_000 }];
    look_update(&mut pose, &motions, 1_000_000);
    assert_eq!(pose.pitch, -89_000);
    assert_eq!(pose.yaw, -1_000_000_000_000);

    // The largest accepted speed and frame time move exactly
    // speed * dt along the held direction.
    let mut pose = level_pose();
    let keys = vec![KEY_W];
    let binds = FlyCamKeybinds::default();
    move_update(&mut pose, &keys, &binds, &level_forward(), &level_right(), 100_000_000, 10_000_000);
    assert_eq!(pose.pos.z, 3000 - 1_000_000_000_000);
    assert_eq!(pose.pos.x, 0);
    assert_eq!(pose.pos.y, 3000);
}

#[test]
fn zero_frame_time_moves_nothing() {
    let mut pose = level_pose();
    let keys = vec![KEY_W];
    let binds = FlyCamKeybinds::default();
    move_update(&mut pose, &keys, &binds, &level_forward(), &level_right(), 10_000, 0);
    assert_eq!(pose.pos, level_pose().pos);
}
