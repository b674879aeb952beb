//! Points and directions in camera-relative space, and the axis-aligned
//! rotation of the x–z plane.

use vstd::prelude::*;
use crate::fixed::{mag, smul, fx_mul, SCALE, lemma_smul_bound, lemma_tdiv_mul_exact,
    lemma_tdiv_zero};

verus! {

/// Largest coordinate mantissa the pipeline accepts; keeps every
/// intermediate product inside the machine integers.
pub const COORD_LIMIT: i64 = 0x10_0000_0000;

/// Largest mantissa accepted for a cosine or sine argument (the value 2;
/// true cosines and sines never exceed 1).
pub const TRIG_LIMIT: i64 = 0x2_0000;

/// Mathematical model of a 3-vector: its three coordinate mantissas.
pub struct V3m {
    pub x: int,
    pub y: int,
    pub z: int,
}

/// Mathematical model of a 2-vector.
pub struct V2m {
    pub x: int,
    pub y: int,
}

/// A point or direction in 3D space; each coordinate is a fixed-point
/// mantissa denoting `coordinate / SCALE`.
#[derive(Clone, Copy, PartialEq, Eq, Structural, Debug)]
pub struct Vector3 {
    pub x: i64,
    pub y: i64,
    pub z: i64,
}

impl View for Vector3 {
    type V = V3m;

    open spec fn view(&self) -> V3m {
        V3m { x: self.x as int, y: self.y as int, z: self.z as int }
    }
}

/// A normalized-device or pixel coordinate pair, as fixed-point mantissas.
#[derive(Clone, Copy, PartialEq, Eq, Structural, Debug)]
pub struct Vector2 {
    pub x: i64,
    pub y: i64,
}

impl View for Vector2 {
    type V = V2m;

    open spec fn view(&self) -> V2m {
        V2m { x: self.x as int, y: self.y as int }
    }
}

/// Squared Euclidean length of a 3-vector, in mantissa-squared units.
pub open spec fn v3_norm2(v: V3m) -> int {
    v.x * v.x + v.y * v.y + v.z * v.z
}

/// Componentwise sum of two vectors.
pub fn translate(p: Vector3, q: Vector3) -> (r: Vector3)
    requires
        i64::MIN <= p@.x + q@.x <= i64::MAX,
        i64::MIN <= p@.y + q@.y <= i64::MAX,
        i64::MIN <= p@.z + q@.z <= i64::MAX,
    ensures
        r@ == (V3m { x: p@.x + q@.x, y: p@.y + q@.y, z: p@.z + q@.z }),
{
    Vector3 { x: p.x + q.x, y: p.y + q.y, z: p.z + q.z }
}

/// The rotation applied to a point in the x–z plane by the angle whose
/// cosine and sine have mantissas `cos_m` and `sin_m`.  The sign pattern of
/// the z row is deliberately asymmetric (it is not an orthonormal rotation
/// matrix): the transform is kept exactly as the rendering it models draws.
pub open spec fn rotate_euler_m(p: V3m, c: int, s: int) -> V3m {
    V3m {
        x: smul(p.x, c) + smul(p.z, s),
        y: p.y,
        z: smul(p.x, s) - smul(p.z, c),
    }
}

/// Rotates `p` in the x–z plane; the y-coordinate passes through unchanged.
pub fn rotate_euler(p: Vector3, cos_m: i64, sin_m: i64) -> (r: Vector3)
    requires
        mag(p@.x) <= COORD_LIMIT as int,
        mag(p@.z) <= COORD_LIMIT as int,
        mag(cos_m as int) <= TRIG_LIMIT as int,
        mag(sin_m as int) <= TRIG_LIMIT as int,
    ensures
        r@ == rotate_euler_m(p@, cos_m as int, sin_m as int),
        r@.y == p@.y,
{
    proof {
        lemma_smul_bound(p@.x, cos_m as int, COORD_LIMIT as int, TRIG_LIMIT as int);
        lemma_smul_bound(p@.x, sin_m as int, COORD_LIMIT as int, TRIG_LIMIT as int);
        lemma_smul_bound(p@.z, cos_m as int, COORD_LIMIT as int, TRIG_LIMIT as int);
        lemma_smul_bound(p@.z, sin_m as int, COORD_LIMIT as int, TRIG_LIMIT as int);
    }
    let x1 = fx_mul(p.x, cos_m) + fx_mul(p.z, sin_m);
    let z1 = fx_mul(p.x, sin_m) - fx_mul(p.z, cos_m);
    Vector3 { x: x1, y: p.y, z: z1 }
}

/// At zero angle (cosine one, sine zero) the rotation fixes every point of
/// the x–y plane exactly.  A point with nonzero z is not fixed — the z row's
/// sign pattern negates its z — so the zero-angle identity is stated for the
/// plane on which it holds.
pub proof fn lemma_rotate_euler_zero_angle(p: V3m)
    requires
        p.z == 0,
    ensures
        rotate_euler_m(p, SCALE as int, 0) == p,
{
    lemma_tdiv_mul_exact(p.x, SCALE as int);
    assert(smul(p.x, SCALE as int) == p.x);
    assert(smul(p.x, 0) == 0) by {
        lemma_tdiv_zero(SCALE as int);
    }
    assert(smul(0, 0) == 0) by {
        lemma_tdiv_zero(SCALE as int);
    }
    assert(smul(0, SCALE as int) == 0) by {
        lemma_tdiv_mul_exact(0, SCALE as int);
    }
}

} // verus!
