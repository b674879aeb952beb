//! The frame driver: a single accumulated rotation angle, advanced once
//! per tick by the angular speed times the elapsed time.

use vstd::prelude::*;
use crate::fixed::{mag, smul, tdiv, fx_mul, SCALE, lemma_smul_tight};
use crate::geom::{COORD_LIMIT, TRIG_LIMIT};

verus! {

/// The animation state: the accumulated rotation angle mantissa.  It grows
/// without bound; no wraparound is applied.
#[derive(Clone, Copy, PartialEq, Eq, Structural, Debug)]
pub struct AnimationState {
    pub angle: i64,
}

impl View for AnimationState {
    type V = int;

    open spec fn view(&self) -> int {
        self.angle as int
    }
}

impl AnimationState {
    /// A fresh driver starts at angle zero.
    pub fn start() -> (r: AnimationState)
        ensures
            r@ == 0,
    {
        AnimationState { angle: 0 }
    }

    /// One tick: the angle grows by `angular_speed · dt`, rounded once.
    pub fn advance(self, dt: i64, angular_speed: i64) -> (r: AnimationState)
        requires
            mag(dt as int) <= COORD_LIMIT as int,
            mag(angular_speed as int) <= TRIG_LIMIT as int,
            i64::MIN <= self@ + smul(angular_speed as int, dt as int) <= i64::MAX,
        ensures
            r@ == self@ + smul(angular_speed as int, dt as int),
    {
        proof {
            lemma_smul_tight(angular_speed as int, dt as int, TRIG_LIMIT as int,
                COORD_LIMIT as int, 0x40_0000_0000_0000);
        }
        AnimationState { angle: self.angle + fx_mul(angular_speed, dt) }
    }
}

/// Advancing by two ticks lands within one mantissa unit of advancing once
/// by their combined elapsed time: accumulation is linear up to the single
/// rounding each tick performs.
pub proof fn lemma_advance_split(angle: int, speed: int, d1: int, d2: int)
    ensures
        mag((angle + smul(speed, d1) + smul(speed, d2)) - (angle + smul(speed, d1 + d2)))
            <= 1,
{
    assert(speed * (d1 + d2) == speed * d1 + speed * d2) by (nonlinear_arith);
    let x = speed * d1;
    let y = speed * d2;
    lemma_tdiv_split(x, y);
}

/// Truncated division by the scale distributes over a sum up to one unit.
proof fn lemma_tdiv_split(x: int, y: int)
    ensures
        mag(tdiv(x, SCALE as int) + tdiv(y, SCALE as int) - tdiv(x + y, SCALE as int)) <= 1,
{
    assert(mag((if (x < 0) == (0x10000 < 0) {
        mag(x) / mag(0x10000)
    } else {
        -(mag(x) / mag(0x10000))
    }) + (if (y < 0) == (0x10000 < 0) {
        mag(y) / mag(0x10000)
    } else {
        -(mag(y) / mag(0x10000))
    }) - (if (x + y < 0) == (0x10000 < 0) {
        mag(x + y) / mag(0x10000)
    } else {
        -(mag(x + y) / mag(0x10000))
    })) <= 1) by (nonlinear_arith);
}

} // verus!
