//! Fixed-point arithmetic helpers shared by the look and move updates.
//!
//! All quantities carry three decimal digits: one unit of length, one second,
//! one input count or one degree is `UNIT` steps of the underlying integer.
//! Division always truncates toward zero, as the hardware division on
//! magnitudes does.

use vstd::prelude::*;

verus! {

/// One whole unit (of length, of a degree, of a second) in fixed-point steps.
pub const UNIT: i64 = 1000;

/// The greatest pitch magnitude the camera may take, in milli-degrees: just
/// short of straight up, so the view never flips over the pole.
pub const PITCH_LIMIT: i64 = 89_000;

/// Greatest magnitude accepted for one pointer-motion sample, in steps.
pub const MOTION_LIMIT: i64 = 1_000_000_000;

/// Greatest accepted sensitivity setting, in steps.
pub const SENS_LIMIT: i64 = 1_000_000;

/// Greatest magnitude one motion sample can add to an angle, in steps:
/// `MOTION_LIMIT / UNIT * SENS_LIMIT`.
pub const STEP_LIMIT: i64 = 1_000_000_000_000;

/// Greatest yaw or pitch magnitude accepted on entry to an update, in steps.
pub const ANGLE_LIMIT: i64 = 100_000_000_000_000_000;

/// Greatest number of motion samples accepted in one drained batch.
pub const BATCH_LIMIT: usize = 1_000_000;

/// Greatest magnitude accepted for a basis-vector component, in steps.
pub const DIR_LIMIT: i64 = 10_000;

/// Greatest accepted movement speed, in steps per second.
pub const SPEED_LIMIT: i64 = 100_000_000;

/// Greatest accepted frame time, in milliseconds.
pub const TIME_LIMIT: i64 = 10_000_000;

/// Greatest position-component magnitude accepted on entry to a move update.
pub const POS_LIMIT: i64 = 1_000_000_000_000_000;

/// The square of an integer.
pub open spec fn sq(x: int) -> int {
    x * x
}

/// Division truncating toward zero, for a positive divisor: the rounding of
/// `/` on machine integers.
pub open spec fn tdiv(a: int, b: int) -> int {
    if a >= 0 {
        a / b
    } else {
        -((-a) / b)
    }
}

/// A pointer-motion delta scaled by a sensitivity setting: both carry `UNIT`
/// steps per whole count, so the product is brought back to steps.
pub open spec fn scaled(d: int, s: int) -> int {
    tdiv(d * s, UNIT as int)
}

/// Descend from `i` to the least nonnegative root whose square still reaches
/// `m`.
pub open spec fn csqrt_down(m: int, i: int) -> int
    decreases i,
{
    if i <= 0 {
        0
    } else if (i - 1) * (i - 1) >= m {
        csqrt_down(m, i - 1)
    } else {
        i
    }
}

/// The least nonnegative integer whose square is at least `m`.
pub open spec fn ceil_sqrt(m: int) -> int {
    csqrt_down(m, m)
}

/// `csqrt_down` really yields the least root: its square reaches `m`, and the
/// next integer down falls short.
proof fn lemma_csqrt_down_props(m: int, i: int)
    requires
        0 <= m,
        0 <= i,
        i * i >= m,
    ensures
        0 <= csqrt_down(m, i),
        csqrt_down(m, i) <= i,
        csqrt_down(m, i) * csqrt_down(m, i) >= m,
        csqrt_down(m, i) > 0 ==> (csqrt_down(m, i) - 1) * (csqrt_down(m, i) - 1) < m,
    decreases i,
{
    if i <= 0 {
        assert(i * i == 0) by (nonlinear_arith)
            requires
                i == 0;
        assert(m <= 0);
    } else if (i - 1) * (i - 1) >= m {
        lemma_csqrt_down_props(m, i - 1);
    }
}

/// Any value with the least-root properties is `ceil_sqrt(m)`.
proof fn lemma_ceil_sqrt_unique(m: int, a: int, b: int) by (nonlinear_arith)
    requires
        0 <= a,
        0 <= b,
        a * a >= m,
        b * b >= m,
        a == 0 || (a - 1) * (a - 1) < m,
        b == 0 || (b - 1) * (b - 1) < m,
    ensures
        a == b,
{
}

/// The characterising facts about `ceil_sqrt`, for nonnegative `m`.
pub proof fn lemma_ceil_sqrt(m: int)
    requires
        0 <= m,
    ensures
        0 <= ceil_sqrt(m),
        ceil_sqrt(m) * ceil_sqrt(m) >= m,
        ceil_sqrt(m) > 0 ==> (ceil_sqrt(m) - 1) * (ceil_sqrt(m) - 1) < m,
        m == 0 ==> ceil_sqrt(m) == 0,
        m > 0 ==> ceil_sqrt(m) > 0,
{
    assert(m * m >= m) by (nonlinear_arith)
        requires 0 <= m;
    lemma_csqrt_down_props(m, m);
    if m > 0 && ceil_sqrt(m) == 0 {
        assert(false);
    }
}

/// The least nonnegative integer whose square is at least `m`, found by
/// counting up from zero.
pub fn ceil_sqrt_exec(m: u64) -> (n: u64)
    requires
        m <= 4_000_000_000,
    ensures
        n as int == ceil_sqrt(m as int),
        n * n >= m,
        n <= 63_246,
        m == 0 ==> n == 0,
        m > 0 ==> n > 0,
{
    let mut i: u64 = 0;
    while i * i < m
        invariant
            m <= 4_000_000_000,
            i <= 63_246,
            i * i <= 4_000_000_000_000,
            i == 0 || (i - 1) * (i - 1) < m,
        decreases 63_246 - i,
    {
        proof {
            assert(i < 63_246) by (nonlinear_arith)
                requires
                    i * i < m,
                    m <= 4_000_000_000,
                    0 <= i;
            assert((i + 1) * (i + 1) <= 4_000_000_000_000) by (nonlinear_arith)
                requires
                    0 <= i < 63_246;
        }
        i = i + 1;
    }
    proof {
        lemma_ceil_sqrt(m as int);
        lemma_ceil_sqrt_unique(m as int, i as int, ceil_sqrt(m as int));
    }
    i
}

/// Truncating division shrinks squares in proportion to the divisor:
/// `sq(tdiv(a, d)) * sq(d) <= sq(a)`.
pub proof fn lemma_tdiv_sq(a: int, d: int)
    requires
        0 < d,
    ensures
        sq(tdiv(a, d)) * sq(d) <= sq(a),
{
    if a >= 0 {
        vstd::arithmetic::div_mod::lemma_fundamental_div_mod(a, d);
        vstd::arithmetic::div_mod::lemma_mod_bound(a, d);
        vstd::arithmetic::div_mod::lemma_div_pos_is_pos(a, d);
        let q = a / d;
        assert(q * d <= a) by (nonlinear_arith)
            requires
                a == d * q + a % d,
                0 <= a % d;
        assert(sq(q) * sq(d) <= sq(a)) by (nonlinear_arith)
            requires
                0 <= q,
                0 < d,
                q * d <= a;
    } else {
        let b = -a;
        vstd::arithmetic::div_mod::lemma_fundamental_div_mod(b, d);
        vstd::arithmetic::div_mod::lemma_mod_bound(b, d);
        vstd::arithmetic::div_mod::lemma_div_pos_is_pos(b, d);
        let q = b / d;
        assert(q * d <= b) by (nonlinear_arith)
            requires
                b == d * q + b % d,
                0 <= b % d;
        assert(sq(-q) * sq(d) <= sq(-b)) by (nonlinear_arith)
            requires
                0 <= q,
                0 < d,
                q * d <= b;
    }
}

/// Truncating division keeps magnitudes under any bound the numerator obeys:
/// if `|a| <= c * d` then `|tdiv(a, d)| <= c`.
pub proof fn lemma_tdiv_le(a: int, d: int, c: int)
    requires
        0 < d,
        0 <= c,
        -(c * d) <= a <= c * d,
    ensures
        -c <= tdiv(a, d) <= c,
{
    if a >= 0 {
        vstd::arithmetic::div_mod::lemma_div_is_ordered(a, c * d, d);
        vstd::arithmetic::div_mod::lemma_div_by_multiple(c, d);
        vstd::arithmetic::div_mod::lemma_div_pos_is_pos(a, d);
    } else {
        vstd::arithmetic::div_mod::lemma_div_is_ordered(-a, c * d, d);
        vstd::arithmetic::div_mod::lemma_div_by_multiple(c, d);
        vstd::arithmetic::div_mod::lemma_div_pos_is_pos(-a, d);
    }
}

/// A pointer-motion delta scaled by the sensitivity, truncating toward zero.
pub fn scaled_exec(d: i64, s: i64) -> (r: i64)
    requires
        -MOTION_LIMIT <= d <= MOTION_LIMIT,
        0 <= s <= SENS_LIMIT,
    ensures
        r as int == scaled(d as int, s as int),
        -STEP_LIMIT <= r <= STEP_LIMIT,
{
    proof {
        assert((MOTION_LIMIT as int) * (SENS_LIMIT as int) == (STEP_LIMIT as int) * (UNIT as int));
        if d >= 0 {
            assert(d * s <= MOTION_LIMIT as int * SENS_LIMIT as int) by (nonlinear_arith)
                requires
                    0 <= d <= MOTION_LIMIT as int,
                    0 <= s <= SENS_LIMIT as int;
            assert(0 <= d * s) by (nonlinear_arith)
                requires
                    0 <= d,
                    0 <= s;
            lemma_tdiv_le(d * s, UNIT as int, STEP_LIMIT as int);
        } else {
            assert((-d) * s <= MOTION_LIMIT as int * SENS_LIMIT as int) by (nonlinear_arith)
                requires
                    0 <= -d <= MOTION_LIMIT as int,
                    0 <= s <= SENS_LIMIT as int;
            assert(0 <= (-d) * s) by (nonlinear_arith)
                requires
                    0 <= -d,
                    0 <= s;
            assert((-d) * s == -(d * s)) by (nonlinear_arith);
            lemma_tdiv_le(d * s, UNIT as int, STEP_LIMIT as int);
        }
    }
    if d >= 0 {
        let p: u64 = (d as u64) * (s as u64);
        let q: u64 = p / (UNIT as u64);
        proof {
            vstd::arithmetic::div_mod::lemma_div_pos_is_pos(p as int, UNIT as int);
            vstd::arithmetic::div_mod::lemma_div_is_ordered(p as int, (MOTION_LIMIT as int) * (SENS_LIMIT as int), UNIT as int);
        }
        q as i64
    } else {
        let p: u64 = ((-d) as u64) * (s as u64);
        let q: u64 = p / (UNIT as u64);
        proof {
            vstd::arithmetic::div_mod::lemma_div_pos_is_pos(p as int, UNIT as int);
            vstd::arithmetic::div_mod::lemma_div_is_ordered(p as int, (MOTION_LIMIT as int) * (SENS_LIMIT as int), UNIT as int);
        }
        -(q as i64)
    }
}

} // verus!
