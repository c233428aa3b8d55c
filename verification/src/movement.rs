//! The per-frame move update: held keys steer the camera along its own
//! forward and right axes and along world up.
//!
//! The contributions of the six actions are summed, the sum is normalized to
//! unit length (or left zero), and the unit direction is scaled by
//! `move_speed * delta_time` — so holding several keys at once never moves
//! the camera faster than holding one.

use vstd::prelude::*;
use crate::config::FlyCamKeybinds;
use crate::math::{ceil_sqrt, ceil_sqrt_exec, lemma_ceil_sqrt, lemma_tdiv_sq, sq, tdiv,
    DIR_LIMIT, POS_LIMIT, SPEED_LIMIT, TIME_LIMIT, UNIT};
use crate::pose::{CameraPose, Vec3Fix};

verus! {

/// Whether a key identifier occurs in the snapshot of currently held keys.
pub fn holds_key(keys: &Vec<u64>, k: u64) -> (r: bool)
    ensures
        r == keys@.contains(k),
{
    let mut i: usize = 0;
    while i < keys.len()
        invariant
            i <= keys@.len(),
            forall|j: int| 0 <= j < i ==> keys@[j] != k,
        decreases keys@.len() - i,
    {
        if keys[i] == k {
            return true;
        }
        i = i + 1;
    }
    false
}

/// The squared length of a vector, in squared steps.
pub open spec fn norm_sq(x: int, y: int, z: int) -> int {
    sq(x) + sq(y) + sq(z)
}

/// The x component of the summed steering direction: forward and back
/// contribute the camera's forward axis, right and left its right axis.
pub open spec fn steer_x(keys: Seq<u64>, kb: FlyCamKeybinds, fwd: Vec3Fix, right: Vec3Fix) -> int {
    (if keys.contains(kb.move_forward) { fwd.x as int } else { 0 })
    - (if keys.contains(kb.move_back) { fwd.x as int } else { 0 })
    + (if keys.contains(kb.move_right) { right.x as int } else { 0 })
    - (if keys.contains(kb.move_left) { right.x as int } else { 0 })
}

/// The y component of the summed steering direction: rise and sink
/// additionally contribute one whole unit of world up.
pub open spec fn steer_y(keys: Seq<u64>, kb: FlyCamKeybinds, fwd: Vec3Fix, right: Vec3Fix) -> int {
    (if keys.contains(kb.move_forward) { fwd.y as int } else { 0 })
    - (if keys.contains(kb.move_back) { fwd.y as int } else { 0 })
    + (if keys.contains(kb.move_right) { right.y as int } else { 0 })
    - (if keys.contains(kb.move_left) { right.y as int } else { 0 })
    + (if keys.contains(kb.move_up) { UNIT as int } else { 0 })
    - (if keys.contains(kb.move_down) { UNIT as int } else { 0 })
}

/// The z component of the summed steering direction.
pub open spec fn steer_z(keys: Seq<u64>, kb: FlyCamKeybinds, fwd: Vec3Fix, right: Vec3Fix) -> int {
    (if keys.contains(kb.move_forward) { fwd.z as int } else { 0 })
    - (if keys.contains(kb.move_back) { fwd.z as int } else { 0 })
    + (if keys.contains(kb.move_right) { right.z as int } else { 0 })
    - (if keys.contains(kb.move_left) { right.z as int } else { 0 })
}

/// The length the steering direction is divided by to normalize it: the
/// ceiling square root of its squared length, zero only for the zero vector.
pub open spec fn steer_norm(keys: Seq<u64>, kb: FlyCamKeybinds, fwd: Vec3Fix, right: Vec3Fix) -> int {
    ceil_sqrt(norm_sq(
        steer_x(keys, kb, fwd, right),
        steer_y(keys, kb, fwd, right),
        steer_z(keys, kb, fwd, right),
    ))
}

/// One component of the steering direction normalized to unit length:
/// brought to `UNIT` steps of a unit vector, or zero for the zero vector.
pub open spec fn norm_comp(d: int, n: int) -> int {
    if n == 0 {
        0
    } else {
        tdiv(d * (UNIT as int), n)
    }
}

/// One component of the frame displacement: the unit direction scaled by
/// `speed * dt`. The divisor folds the two stacked `UNIT` scales (the unit
/// vector's and the milliseconds') back out.
pub open spec fn disp_comp(nc: int, speed: int, dt: int) -> int {
    tdiv(nc * speed * dt, 1_000_000)
}

/// The x component of the whole frame displacement, in steps.
pub open spec fn displacement_x(keys: Seq<u64>, kb: FlyCamKeybinds, fwd: Vec3Fix, right: Vec3Fix, speed: int, dt: int) -> int {
    disp_comp(norm_comp(steer_x(keys, kb, fwd, right), steer_norm(keys, kb, fwd, right)), speed, dt)
}

/// The y component of the whole frame displacement, in steps.
pub open spec fn displacement_y(keys: Seq<u64>, kb: FlyCamKeybinds, fwd: Vec3Fix, right: Vec3Fix, speed: int, dt: int) -> int {
    disp_comp(norm_comp(steer_y(keys, kb, fwd, right), steer_norm(keys, kb, fwd, right)), speed, dt)
}

/// The z component of the whole frame displacement, in steps.
pub open spec fn displacement_z(keys: Seq<u64>, kb: FlyCamKeybinds, fwd: Vec3Fix, right: Vec3Fix, speed: int, dt: int) -> int {
    disp_comp(norm_comp(steer_z(keys, kb, fwd, right), steer_norm(keys, kb, fwd, right)), speed, dt)
}

/// A normalized steering vector has squared length at most one whole unit
/// squared, whatever vector it came from.
proof fn lemma_norm_sum(sx: int, sy: int, sz: int, n: int)
    requires
        0 < n,
        norm_sq(sx, sy, sz) <= n * n,
    ensures
        norm_sq(norm_comp(sx, n), norm_comp(sy, n), norm_comp(sz, n)) <= 1_000_000,
{
    let u = UNIT as int;
    let nx = norm_comp(sx, n);
    let ny = norm_comp(sy, n);
    let nz = norm_comp(sz, n);
    lemma_tdiv_sq(sx * u, n);
    lemma_tdiv_sq(sy * u, n);
    lemma_tdiv_sq(sz * u, n);
    assert(sq(sx * u) == sq(sx) * 1_000_000) by (nonlinear_arith)
        requires u == 1000;
    assert(sq(sy * u) == sq(sy) * 1_000_000) by (nonlinear_arith)
        requires u == 1000;
    assert(sq(sz * u) == sq(sz) * 1_000_000) by (nonlinear_arith)
        requires u == 1000;
    assert((sq(nx) + sq(ny) + sq(nz)) * sq(n) == sq(nx) * sq(n) + sq(ny) * sq(n) + sq(nz) * sq(n))
        by (nonlinear_arith);
    assert((sq(sx) + sq(sy) + sq(sz)) * 1_000_000 <= (n * n) * 1_000_000) by (nonlinear_arith)
        requires sq(sx) + sq(sy) + sq(sz) <= n * n;
    assert(sq(n) == n * n);
    assert((sq(nx) + sq(ny) + sq(nz)) * sq(n) <= sq(n) * 1_000_000) by (nonlinear_arith)
        requires
            (sq(nx) + sq(ny) + sq(nz)) * sq(n) == sq(nx) * sq(n) + sq(ny) * sq(n) + sq(nz) * sq(n),
            sq(nx) * sq(n) <= sq(sx) * 1_000_000,
            sq(ny) * sq(n) <= sq(sy) * 1_000_000,
            sq(nz) * sq(n) <= sq(sz) * 1_000_000,
            (sq(sx) + sq(sy) + sq(sz)) * 1_000_000 <= (n * n) * 1_000_000,
            sq(n) == n * n;
    assert(sq(n) > 0) by (nonlinear_arith)
        requires n > 0;
    assert(sq(nx) + sq(ny) + sq(nz) <= 1_000_000) by (nonlinear_arith)
        requires
            (sq(nx) + sq(ny) + sq(nz)) * sq(n) <= sq(n) * 1_000_000,
            sq(n) > 0;
}

/// Scaling a vector of squared length at most one unit by `speed * dt`
/// yields a displacement of squared length at most `(speed * dt)` squared,
/// in squared steps.
proof fn lemma_disp_sum(nx: int, ny: int, nz: int, speed: int, dt: int)
    requires
        0 <= speed,
        0 <= dt,
        norm_sq(nx, ny, nz) <= 1_000_000,
    ensures
        norm_sq(
            disp_comp(nx, speed, dt),
            disp_comp(ny, speed, dt),
            disp_comp(nz, speed, dt),
        ) <= (speed * dt) * (speed * dt) / 1_000_000,
{
    let len = speed * dt;
    let px = disp_comp(nx, speed, dt);
    let py = disp_comp(ny, speed, dt);
    let pz = disp_comp(nz, speed, dt);
    assert(nx * speed * dt == nx * len && ny * speed * dt == ny * len && nz * speed * dt == nz * len)
        by (nonlinear_arith)
        requires len == speed * dt;
    lemma_tdiv_sq(nx * len, 1_000_000);
    lemma_tdiv_sq(ny * len, 1_000_000);
    lemma_tdiv_sq(nz * len, 1_000_000);
    assert(sq(nx * len) == sq(nx) * sq(len)) by (nonlinear_arith);
    assert(sq(ny * len) == sq(ny) * sq(len)) by (nonlinear_arith);
    assert(sq(nz * len) == sq(nz) * sq(len)) by (nonlinear_arith);
    let total = sq(px) + sq(py) + sq(pz);
    assert(total * sq(1_000_000) == sq(px) * sq(1_000_000) + sq(py) * sq(1_000_000) + sq(pz) * sq(1_000_000))
        by (nonlinear_arith)
        requires total == sq(px) + sq(py) + sq(pz);
    assert((sq(nx) + sq(ny) + sq(nz)) * sq(len) <= 1_000_000 * sq(len)) by (nonlinear_arith)
        requires
            sq(nx) + sq(ny) + sq(nz) <= 1_000_000,
            sq(len) >= 0;
    assert(sq(len) >= 0) by (nonlinear_arith);
    assert(total * sq(1_000_000) <= 1_000_000 * sq(len)) by (nonlinear_arith)
        requires
            total * sq(1_000_000) == sq(px) * sq(1_000_000) + sq(py) * sq(1_000_000) + sq(pz) * sq(1_000_000),
            sq(px) * sq(1_000_000) <= sq(nx) * sq(len),
            sq(py) * sq(1_000_000) <= sq(ny) * sq(len),
            sq(pz) * sq(1_000_000) <= sq(nz) * sq(len),
            (sq(nx) + sq(ny) + sq(nz)) * sq(len) <= 1_000_000 * sq(len);
    assert(sq(1_000_000) == 1_000_000_000_000int);
    assert(total * 1_000_000 <= sq(len));
    assert(total >= 0) by (nonlinear_arith)
        requires total == sq(px) + sq(py) + sq(pz);
    vstd::arithmetic::div_mod::lemma_div_is_ordered(total * 1_000_000, sq(len), 1_000_000);
    vstd::arithmetic::div_mod::lemma_div_by_multiple(total, 1_000_000);
    assert(sq(len) == (speed * dt) * (speed * dt));
}

/// Bounded speed: however many keys are held at once and whatever the
/// camera's axes are, the frame displacement's squared length never exceeds
/// the square of `speed * dt` (brought back to squared steps).
pub proof fn lemma_displacement_bounded(keys: Seq<u64>, kb: FlyCamKeybinds, fwd: Vec3Fix, right: Vec3Fix, speed: int, dt: int)
    requires
        0 <= speed,
        0 <= dt,
    ensures
        norm_sq(
            displacement_x(keys, kb, fwd, right, speed, dt),
            displacement_y(keys, kb, fwd, right, speed, dt),
            displacement_z(keys, kb, fwd, right, speed, dt),
        ) <= (speed * dt) * (speed * dt) / 1_000_000,
{
    let sx = steer_x(keys, kb, fwd, right);
    let sy = steer_y(keys, kb, fwd, right);
    let sz = steer_z(keys, kb, fwd, right);
    let m = norm_sq(sx, sy, sz);
    assert(sq(sx) >= 0 && sq(sy) >= 0 && sq(sz) >= 0) by (nonlinear_arith);
    lemma_ceil_sqrt(m);
    let n = steer_norm(keys, kb, fwd, right);
    if n == 0 {
        assert(m == 0);
        assert(sx == 0 && sy == 0 && sz == 0) by (nonlinear_arith)
            requires
                sq(sx) + sq(sy) + sq(sz) == 0,
                sq(sx) == sx * sx,
                sq(sy) == sy * sy,
                sq(sz) == sz * sz;
        assert(norm_comp(sx, n) == 0);
        assert(0 * speed * dt == 0) by (nonlinear_arith);
        vstd::arithmetic::div_mod::lemma_div_of0(1_000_000);
        assert(disp_comp(0, speed, dt) == 0);
        assert((speed * dt) * (speed * dt) >= 0) by (nonlinear_arith);
        vstd::arithmetic::div_mod::lemma_div_pos_is_pos((speed * dt) * (speed * dt), 1_000_000);
    } else {
        lemma_norm_sum(sx, sy, sz, n);
        lemma_disp_sum(
            norm_comp(sx, n),
            norm_comp(sy, n),
            norm_comp(sz, n),
            speed,
            dt,
        );
    }
}

/// One component of the steering direction normalized to unit length.
fn norm_part(d: i64, n: u64) -> (r: i64)
    requires
        -30_000 <= d <= 30_000,
        n <= 63_246,
        sq(d as int) <= (n as int) * (n as int),
    ensures
        r as int == norm_comp(d as int, n as int),
        -UNIT <= r <= UNIT,
{
    if n == 0 {
        return 0;
    }
    proof {
        assert(-(n as int) <= d as int <= n as int) by (nonlinear_arith)
            requires
                sq(d as int) <= (n as int) * (n as int),
                sq(d as int) == (d as int) * (d as int),
                0 <= n as int;
        vstd::arithmetic::div_mod::lemma_div_multiples_vanish(1000, n as int);
        if d >= 0 {
            vstd::arithmetic::div_mod::lemma_div_is_ordered((d as int) * 1000, (n as int) * 1000, n as int);
            vstd::arithmetic::div_mod::lemma_div_pos_is_pos((d as int) * 1000, n as int);
        } else {
            vstd::arithmetic::div_mod::lemma_div_is_ordered((-d as int) * 1000, (n as int) * 1000, n as int);
            vstd::arithmetic::div_mod::lemma_div_pos_is_pos((-d as int) * 1000, n as int);
        }
    }
    if d >= 0 {
        (((d as u64) * 1000) / n) as i64
    } else {
        -(((((-d) as u64) * 1000) / n) as i64)
    }
}

/// One component of the frame displacement from a normalized direction.
fn disp_part(nc: i64, speed: i64, dt: i64) -> (r: i64)
    requires
        -UNIT <= nc <= UNIT,
        0 <= speed <= SPEED_LIMIT,
        0 <= dt <= TIME_LIMIT,
    ensures
        r as int == disp_comp(nc as int, speed as int, dt as int),
        -1_000_000_000_000 <= r <= 1_000_000_000_000,
{
    proof {
        if nc >= 0 {
            assert((nc as int) * (speed as int) * (dt as int) <= 1_000_000_000_000_000_000int
                && 0 <= (nc as int) * (speed as int) * (dt as int)
                && (nc as int) * (speed as int) <= 100_000_000_000int) by (nonlinear_arith)
                requires
                    0 <= nc as int <= 1000,
                    0 <= speed as int <= 100_000_000,
                    0 <= dt as int <= 10_000_000;
            vstd::arithmetic::div_mod::lemma_div_pos_is_pos((nc as int) * (speed as int) * (dt as int), 1_000_000);
            vstd::arithmetic::div_mod::lemma_div_is_ordered(
                (nc as int) * (speed as int) * (dt as int),
                1_000_000_000_000_000_000int,
                1_000_000,
            );
        } else {
            assert((-nc as int) * (speed as int) * (dt as int) <= 1_000_000_000_000_000_000int
                && 0 <= (-nc as int) * (speed as int) * (dt as int)
                && (-nc as int) * (speed as int) <= 100_000_000_000int
                && (-nc as int) * (speed as int) * (dt as int) == -((nc as int) * (speed as int) * (dt as int)))
                by (nonlinear_arith)
                requires
                    0 <= -nc as int <= 1000,
                    0 <= speed as int <= 100_000_000,
                    0 <= dt as int <= 10_000_000;
            vstd::arithmetic::div_mod::lemma_div_pos_is_pos((-nc as int) * (speed as int) * (dt as int), 1_000_000);
            vstd::arithmetic::div_mod::lemma_div_is_ordered(
                (-nc as int) * (speed as int) * (dt as int),
                1_000_000_000_000_000_000int,
                1_000_000,
            );
        }
    }
    if nc >= 0 {
        let p: u64 = (nc as u64) * (speed as u64) * (dt as u64);
        (p / 1_000_000) as i64
    } else {
        let p: u64 = ((-nc) as u64) * (speed as u64) * (dt as u64);
        -((p / 1_000_000) as i64)
    }
}

/// Reads the held keys and translates the camera: the six bound actions
/// steer along the camera's forward and right axes and world up, the summed
/// direction is normalized, scaled by `speed * dt`, and added to the
/// position. Orientation is untouched; with nothing held the pose is
/// unchanged; and the displacement's squared length never exceeds the square
/// of `speed * dt`.
pub fn move_update(
    pose: &mut CameraPose,
    keys: &Vec<u64>,
    binds: &FlyCamKeybinds,
    fwd: &Vec3Fix,
    right: &Vec3Fix,
    speed: i64,
    dt: i64,
)
    requires
        -DIR_LIMIT <= fwd.x <= DIR_LIMIT,
        -DIR_LIMIT <= fwd.y <= DIR_LIMIT,
        -DIR_LIMIT <= fwd.z <= DIR_LIMIT,
        -DIR_LIMIT <= right.x <= DIR_LIMIT,
        -DIR_LIMIT <= right.y <= DIR_LIMIT,
        -DIR_LIMIT <= right.z <= DIR_LIMIT,
        0 <= speed <= SPEED_LIMIT,
        0 <= dt <= TIME_LIMIT,
        -POS_LIMIT <= old(pose).pos.x <= POS_LIMIT,
        -POS_LIMIT <= old(pose).pos.y <= POS_LIMIT,
        -POS_LIMIT <= old(pose).pos.z <= POS_LIMIT,
    ensures
        final(pose).yaw == old(pose).yaw,
        final(pose).pitch == old(pose).pitch,
        final(pose).pos.x as int == old(pose).pos.x as int
            + displacement_x(keys@, *binds, *fwd, *right, speed as int, dt as int),
        final(pose).pos.y as int == old(pose).pos.y as int
            + displacement_y(keys@, *binds, *fwd, *right, speed as int, dt as int),
        final(pose).pos.z as int == old(pose).pos.z as int
            + displacement_z(keys@, *binds, *fwd, *right, speed as int, dt as int),
        keys@.len() == 0 ==> *final(pose) == *old(pose),
        norm_sq(
            final(pose).pos.x as int - old(pose).pos.x as int,
            final(pose).pos.y as int - old(pose).pos.y as int,
            final(pose).pos.z as int - old(pose).pos.z as int,
        ) <= ((speed as int) * (dt as int)) * ((speed as int) * (dt as int)) / 1_000_000,
{
    let fh = holds_key(keys, binds.move_forward);
    let bh = holds_key(keys, binds.move_back);
    let rh = holds_key(keys, binds.move_right);
    let lh = holds_key(keys, binds.move_left);
    let uh = holds_key(keys, binds.move_up);
    let dh = holds_key(keys, binds.move_down);

    let mut dx: i64 = 0;
    let mut dy: i64 = 0;
    let mut dz: i64 = 0;
    if fh {
        dx = dx + fwd.x;
        dy = dy + fwd.y;
        dz = dz + fwd.z;
    }
    if bh {
        dx = dx - fwd.x;
        dy = dy - fwd.y;
        dz = dz - fwd.z;
    }
    if rh {
        dx = dx + right.x;
        dy = dy + right.y;
        dz = dz + right.z;
    }
    if lh {
        dx = dx - right.x;
        dy = dy - right.y;
        dz = dz - right.z;
    }
    if uh {
        dy = dy + UNIT;
    }
    if dh {
        dy = dy - UNIT;
    }

    let ghost sx = steer_x(keys@, *binds, *fwd, *right);
    let ghost sy = steer_y(keys@, *binds, *fwd, *right);
    let ghost sz = steer_z(keys@, *binds, *fwd, *right);
    proof {
        assert(dx as int == sx && dy as int == sy && dz as int == sz);
        assert(sq(dx as int) <= 900_000_000 && sq(dy as int) <= 900_000_000 && sq(dz as int) <= 900_000_000
            && sq(dx as int) >= 0 && sq(dy as int) >= 0 && sq(dz as int) >= 0) by (nonlinear_arith)
            requires
                -30_000 <= dx as int <= 30_000,
                -30_000 <= dy as int <= 30_000,
                -30_000 <= dz as int <= 30_000;
    }
    let m: u64 = ((dx * dx) + (dy * dy) + (dz * dz)) as u64;
    let n: u64 = ceil_sqrt_exec(m);
    proof {
        assert(m as int == norm_sq(sx, sy, sz));
        assert(n as int == steer_norm(keys@, *binds, *fwd, *right));
        assert(sq(dx as int) <= (n as int) * (n as int)
            && sq(dy as int) <= (n as int) * (n as int)
            && sq(dz as int) <= (n as int) * (n as int));
    }
    let nx = norm_part(dx, n);
    let ny = norm_part(dy, n);
    let nz = norm_part(dz, n);
    let px = disp_part(nx, speed, dt);
    let py = disp_part(ny, speed, dt);
    let pz = disp_part(nz, speed, dt);
    proof {
        lemma_displacement_bounded(keys@, *binds, *fwd, *right, speed as int, dt as int);
        if keys@.len() == 0 {
            assert((dx as int) * (dx as int) == 0 && (dy as int) * (dy as int) == 0
                && (dz as int) * (dz as int) == 0) by (nonlinear_arith)
                requires
                    dx as int == 0,
                    dy as int == 0,
                    dz as int == 0;
            assert(n == 0);
            assert(0int * (speed as int) * (dt as int) == 0) by (nonlinear_arith);
            vstd::arithmetic::div_mod::lemma_div_of0(1_000_000);
            assert(px as int == 0 && py as int == 0 && pz as int == 0);
        }
    }
    pose.pos.x = pose.pos.x + px;
    pose.pos.y = pose.pos.y + py;
    pose.pos.z = pose.pos.z + pz;
}

} // verus!
