//! The per-frame look update: the drained batch of pointer-motion samples
//! turns the camera, sample by sample in arrival order.
//!
//! Each sample lowers yaw by its horizontal delta scaled by the sensitivity
//! and lowers pitch by its vertical delta scaled the same way; pitch is then
//! clamped so the camera never looks past straight up or straight down.

use vstd::prelude::*;
use crate::math::{scaled, scaled_exec, ANGLE_LIMIT, BATCH_LIMIT, MOTION_LIMIT, PITCH_LIMIT,
    SENS_LIMIT, STEP_LIMIT};
use crate::pose::{pitch_in_range, CameraPose, MouseDelta};

verus! {

/// Pitch angles are clamped to [-`PITCH_LIMIT`, `PITCH_LIMIT`] milli-degrees.
pub open spec fn clamp_pitch(p: int) -> int {
    if p < -(PITCH_LIMIT as int) {
        -(PITCH_LIMIT as int)
    } else if p > PITCH_LIMIT as int {
        PITCH_LIMIT as int
    } else {
        p
    }
}

/// One pointer-motion sample applied to a yaw/pitch pair: both angles drop
/// by the scaled delta, and pitch is clamped to its range.
pub open spec fn look_step(yaw: int, pitch: int, m: MouseDelta, s: int) -> (int, int) {
    (yaw - scaled(m.dx as int, s), clamp_pitch(pitch - scaled(m.dy as int, s)))
}

/// A whole drained batch applied to a yaw/pitch pair, front to back.
pub open spec fn look_batch(yaw: int, pitch: int, ms: Seq<MouseDelta>, s: int) -> (int, int)
    decreases ms.len(),
{
    if ms.len() == 0 {
        (yaw, pitch)
    } else {
        let stepped = look_step(yaw, pitch, ms[0], s);
        look_batch(stepped.0, stepped.1, ms.drop_first(), s)
    }
}

/// Draining a batch with one more sample at its back is the batch followed
/// by that sample.
pub proof fn lemma_look_batch_push(yaw: int, pitch: int, ms: Seq<MouseDelta>, m: MouseDelta, s: int)
    ensures
        look_batch(yaw, pitch, ms.push(m), s) == ({
            let mid = look_batch(yaw, pitch, ms, s);
            look_step(mid.0, mid.1, m, s)
        }),
    decreases ms.len(),
{
    reveal_with_fuel(look_batch, 3);
    if ms.len() == 0 {
        assert(ms.push(m)[0] == m);
        assert(ms.push(m).drop_first() =~= ms);
    } else {
        let stepped = look_step(yaw, pitch, ms[0], s);
        assert(ms.push(m)[0] == ms[0]);
        assert(ms.push(m).drop_first() =~= ms.drop_first().push(m));
        lemma_look_batch_push(stepped.0, stepped.1, ms.drop_first(), m, s);
    }
}

/// Batches compose: draining `a` then `b` in two frames ends exactly where
/// draining the single batch `a + b` in one frame does.
pub proof fn lemma_look_batch_concat(yaw: int, pitch: int, a: Seq<MouseDelta>, b: Seq<MouseDelta>, s: int)
    ensures
        look_batch(yaw, pitch, a + b, s) == ({
            let mid = look_batch(yaw, pitch, a, s);
            look_batch(mid.0, mid.1, b, s)
        }),
    decreases a.len(),
{
    if a.len() == 0 {
        assert(a + b =~= b);
    } else {
        let stepped = look_step(yaw, pitch, a[0], s);
        assert((a + b).drop_first() =~= a.drop_first() + b);
        lemma_look_batch_concat(stepped.0, stepped.1, a.drop_first(), b, s);
    }
}

/// Wherever pitch starts, a nonempty batch leaves it inside its clamped
/// range, and a pitch already in range never leaves it.
pub proof fn lemma_look_batch_pitch_range(yaw: int, pitch: int, ms: Seq<MouseDelta>, s: int)
    ensures
        ms.len() > 0 ==> pitch_in_range(look_batch(yaw, pitch, ms, s).1),
        pitch_in_range(pitch) ==> pitch_in_range(look_batch(yaw, pitch, ms, s).1),
    decreases ms.len(),
{
    if ms.len() > 0 {
        let stepped = look_step(yaw, pitch, ms[0], s);
        lemma_look_batch_pitch_range(stepped.0, stepped.1, ms.drop_first(), s);
    }
}

/// Consumes a drained batch of pointer-motion samples and turns the camera:
/// the pose's yaw and pitch become the batch folded over their old values,
/// and the position is untouched. An empty batch leaves the pose unchanged.
pub fn look_update(pose: &mut CameraPose, motions: &Vec<MouseDelta>, sensitivity: i64)
    requires
        -ANGLE_LIMIT <= old(pose).yaw <= ANGLE_LIMIT,
        -ANGLE_LIMIT <= old(pose).pitch <= ANGLE_LIMIT,
        0 <= sensitivity <= SENS_LIMIT,
        motions@.len() <= BATCH_LIMIT,
        forall|i: int| 0 <= i < motions@.len() ==> (
            -MOTION_LIMIT <= (#[trigger] motions@[i]).dx <= MOTION_LIMIT
            && -MOTION_LIMIT <= motions@[i].dy <= MOTION_LIMIT
        ),
    ensures
        ({
            let end = look_batch(old(pose).yaw as int, old(pose).pitch as int, motions@, sensitivity as int);
            final(pose).yaw as int == end.0 && final(pose).pitch as int == end.1
        }),
        final(pose).pos == old(pose).pos,
        motions@.len() == 0 ==> *final(pose) == *old(pose),
        motions@.len() > 0 ==> pitch_in_range(final(pose).pitch as int),
        pitch_in_range(old(pose).pitch as int) ==> pitch_in_range(final(pose).pitch as int),
{
    let ghost yaw0 = pose.yaw as int;
    let ghost pitch0 = pose.pitch as int;
    let s = sensitivity;
    let mut yaw = pose.yaw;
    let mut pitch = pose.pitch;
    let mut i: usize = 0;
    while i < motions.len()
        invariant
            i <= motions@.len(),
            motions@.len() <= BATCH_LIMIT,
            0 <= s <= SENS_LIMIT,
            forall|j: int| 0 <= j < motions@.len() ==> (
                -MOTION_LIMIT <= (#[trigger] motions@[j]).dx <= MOTION_LIMIT
                && -MOTION_LIMIT <= motions@[j].dy <= MOTION_LIMIT
            ),
            (yaw as int, pitch as int) == look_batch(yaw0, pitch0, motions@.take(i as int), s as int),
            -ANGLE_LIMIT <= yaw0 <= ANGLE_LIMIT,
            -ANGLE_LIMIT <= pitch0 <= ANGLE_LIMIT,
            -ANGLE_LIMIT - (i as int) * (STEP_LIMIT as int) <= yaw as int,
            yaw as int <= ANGLE_LIMIT + (i as int) * (STEP_LIMIT as int),
            i == 0 ==> pitch == pitch0,
            i > 0 ==> pitch_in_range(pitch as int),
        decreases motions@.len() - i,
    {
        let m = motions[i];
        let sx = scaled_exec(m.dx, s);
        let sy = scaled_exec(m.dy, s);
        let lowered = pitch - sy;
        pitch = if lowered < -PITCH_LIMIT {
            -PITCH_LIMIT
        } else if lowered > PITCH_LIMIT {
            PITCH_LIMIT
        } else {
            lowered
        };
        yaw = yaw - sx;
        proof {
            assert(motions@.take(i as int + 1) =~= motions@.take(i as int).push(m));
            lemma_look_batch_push(yaw0, pitch0, motions@.take(i as int), m, s as int);
        }
        i = i + 1;
    }
    proof {
        assert(motions@.take(motions@.len() as int) =~= motions@);
        lemma_look_batch_pitch_range(yaw0, pitch0, motions@, s as int);
    }
    pose.yaw = yaw;
    pose.pitch = pitch;
}

} // verus!
