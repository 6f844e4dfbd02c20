//! Integer trigonometry for template generation: sine and cosine over
//! angles in millidegrees, returned as fixed-point values scaled by
//! `TRIG_SCALE`.  The sine of a half turn uses Bhaskara I's rational
//! approximation, which is exact at 0, 90 and 180 degrees and accurate to
//! about two parts in a thousand elsewhere — ample for canonical stroke
//! shapes, and computable, and provable, in plain integer arithmetic.

use vstd::prelude::*;
use vstd::arithmetic::div_mod::{lemma_div_pos_is_pos, lemma_multiply_divide_le};

verus! {

/// Fixed-point scale of the trigonometric values: ten-thousandths.
pub const TRIG_SCALE: i64 = 10_000;

/// Millidegrees in a half turn.
pub const HALF_TURN: i64 = 180_000;

/// Millidegrees in a full turn.
pub const FULL_TURN: i64 = 360_000;

/// Bhaskara I's sine approximation on `[0, HALF_TURN]` millidegrees,
/// scaled by `TRIG_SCALE`.
pub open spec fn half_sine_spec(d: int) -> int {
    let p = d * (180_000 - d);
    (4 * p * 10_000) / (40_500_000_000 - p)
}

/// Scaled sine of an angle in `[0, FULL_TURN)` millidegrees.
pub open spec fn sin_milli_spec(d: int) -> int {
    if d <= 180_000 {
        half_sine_spec(d)
    } else {
        -half_sine_spec(d - 180_000)
    }
}

/// Scaled cosine of an angle in `[0, FULL_TURN)` millidegrees, as the sine
/// of the angle advanced by a quarter turn.
pub open spec fn cos_milli_spec(d: int) -> int {
    sin_milli_spec((d + 90_000) % 360_000)
}

fn half_sine(d: i64) -> (r: i64)
    requires
        0 <= d <= 180_000,
    ensures
        r as int == half_sine_spec(d as int),
        0 <= r <= TRIG_SCALE,
{
    proof {
        assert(0 <= (d as int) * (180_000 - d as int) <= 8_100_000_000) by (nonlinear_arith)
            requires
                0 <= d as int <= 180_000,
        ;
    }
    let p: i64 = d * (180_000 - d);
    let num: i64 = 4 * p * 10_000;
    let den: i64 = 40_500_000_000 - p;
    proof {
        lemma_div_pos_is_pos(num as int, den as int);
        assert(num as int <= (den as int) * 10_000) by (nonlinear_arith)
            requires
                num as int == 4 * (p as int) * 10_000,
                den as int == 40_500_000_000 - p as int,
                0 <= p as int <= 8_100_000_000,
        ;
        lemma_multiply_divide_le(num as int, den as int, 10_000);
    }
    ((num as u64) / (den as u64)) as i64
}

/// Scaled sine of an angle in millidegrees.
pub fn sin_milli(d: i64) -> (r: i64)
    requires
        0 <= d < FULL_TURN,
    ensures
        r as int == sin_milli_spec(d as int),
        -TRIG_SCALE <= r <= TRIG_SCALE,
{
    if d <= 180_000 {
        half_sine(d)
    } else {
        -half_sine(d - 180_000)
    }
}

/// Scaled cosine of an angle in millidegrees.
pub fn cos_milli(d: i64) -> (r: i64)
    requires
        0 <= d < FULL_TURN,
    ensures
        r as int == cos_milli_spec(d as int),
        -TRIG_SCALE <= r <= TRIG_SCALE,
{
    let e: i64 = (((d as u64) + 90_000) % 360_000) as i64;
    sin_milli(e)
}

} // verus!
