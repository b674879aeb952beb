//! Perspective projection and the affine map from normalized device
//! coordinates to pixels.

use vstd::prelude::*;
use crate::fixed::{mag, smul, sdiv, tdiv, fx_mul, fx_div, SCALE, lemma_smul_tight,
    lemma_sdiv_bound, lemma_tdiv_zero, lemma_tdiv_mul_exact};
use crate::geom::{V2m, V3m, Vector2, Vector3, COORD_LIMIT, TRIG_LIMIT};

verus! {

/// One half, as a mantissa.
pub const HALF: i64 = 32768;

/// Perspective divide: x and y over depth, x first scaled by the aspect
/// correction (height over width; one for no correction).
pub open spec fn project_m(p: V3m, aspect: int) -> V2m {
    V2m { x: sdiv(smul(p.x, aspect), p.z), y: sdiv(p.y, p.z) }
}

/// Projects a camera-space point with positive depth to normalized device
/// coordinates.
pub fn project(p: Vector3, aspect: i64) -> (r: Vector2)
    requires
        p@.z > 0,
        mag(p@.x) <= COORD_LIMIT as int,
        mag(p@.y) <= COORD_LIMIT as int,
        mag(aspect as int) <= TRIG_LIMIT as int,
    ensures
        r@ == project_m(p@, aspect as int),
{
    proof {
        lemma_smul_tight(p@.x, aspect as int, COORD_LIMIT as int, TRIG_LIMIT as int,
            0x40_0000_0000);
        lemma_sdiv_bound(smul(p@.x, aspect as int), p@.z, 0x40_0000_0000);
        lemma_sdiv_bound(p@.y, p@.z, COORD_LIMIT as int);
    }
    let sx = fx_div(fx_mul(p.x, aspect), p.z);
    let sy = fx_div(p.y, p.z);
    Vector2 { x: sx, y: sy }
}

/// The affine map from the normalized square to the viewport: scale by the
/// half-extent, then shift by it, so [-1, 1] lands on [0, extent].  It is
/// computed afresh from the extents it is handed, never cached, so a
/// resized viewport takes effect on the next call.
pub open spec fn to_screen_m(v: V2m, w: int, h: int) -> V2m {
    let hw = smul(w, HALF as int);
    let hh = smul(h, HALF as int);
    V2m { x: smul(v.x, hw) + hw, y: smul(v.y, hh) + hh }
}

/// Maps normalized device coordinates to pixel coordinates for the given
/// viewport extents.
pub fn to_screen(ndc: Vector2, w: i64, h: i64) -> (r: Vector2)
    requires
        mag(ndc@.x) <= COORD_LIMIT as int,
        mag(ndc@.y) <= COORD_LIMIT as int,
        mag(w as int) <= COORD_LIMIT as int,
        mag(h as int) <= COORD_LIMIT as int,
    ensures
        r@ == to_screen_m(ndc@, w as int, h as int),
{
    proof {
        let cl = COORD_LIMIT as int;
        lemma_smul_tight(w as int, HALF as int, cl, HALF as int, 0x8_0000_0000);
        lemma_smul_tight(h as int, HALF as int, cl, HALF as int, 0x8_0000_0000);
        lemma_smul_tight(ndc@.x, smul(w as int, HALF as int), cl, 0x8_0000_0000,
            0x80_0000_0000_0000);
        lemma_smul_tight(ndc@.y, smul(h as int, HALF as int), cl, 0x8_0000_0000,
            0x80_0000_0000_0000);
    }
    let hw = fx_mul(w, HALF);
    let hh = fx_mul(h, HALF);
    Vector2 { x: fx_mul(ndc.x, hw) + hw, y: fx_mul(ndc.y, hh) + hh }
}

/// Half a pixel extent really is the extent's mantissa halved.
pub proof fn lemma_half_extent(w: int)
    ensures
        smul(w, HALF as int) == tdiv(w, 2),
{
    assert(mag(w * (HALF as int)) == mag(w) * (HALF as int)) by (nonlinear_arith);
    assert((mag(w) * 32768) / 65536 == mag(w) / 2) by (nonlinear_arith)
        requires
            mag(w) >= 0,
    ;
}

/// Halving an even integer loses nothing.
proof fn half_of_even(w: int)
    requires
        w % 2 == 0,
    ensures
        tdiv(w, 2) + tdiv(w, 2) == w,
{
    assert(mag(w) % 2 == 0);
    assert(mag(w) / 2 + mag(w) / 2 == mag(w)) by (nonlinear_arith)
        requires
            mag(w) % 2 == 0,
            mag(w) >= 0,
    ;
}

/// A point dead ahead of the camera lands on the exact center of any
/// viewport: half the width and half the height.
pub proof fn lemma_center_maps_to_center(depth: int, aspect: int, w: int, h: int)
    requires
        depth > 0,
    ensures
        ({
            let c = to_screen_m(project_m(V3m { x: 0, y: 0, z: depth }, aspect), w, h);
            c.x == tdiv(w, 2) && c.y == tdiv(h, 2)
        }),
{
    lemma_tdiv_zero(SCALE as int);
    lemma_tdiv_zero(depth);
    lemma_half_extent(w);
    lemma_half_extent(h);
    assert(smul(0, aspect) == 0);
    assert(sdiv(0, depth) == 0);
    assert(smul(0, smul(w, HALF as int)) == 0);
    assert(smul(0, smul(h, HALF as int)) == 0);
}

/// The lower corner of the normalized square maps exactly to the viewport
/// origin, whatever the extents.
pub proof fn lemma_corner_maps_to_origin(w: int, h: int)
    ensures
        ({
            let c = to_screen_m(V2m { x: -(SCALE as int), y: -(SCALE as int) }, w, h);
            c.x == 0 && c.y == 0
        }),
{
    lemma_tdiv_mul_exact(-smul(w, HALF as int), SCALE as int);
    lemma_tdiv_mul_exact(-smul(h, HALF as int), SCALE as int);
}

/// The upper corner of the normalized square maps exactly to the full
/// extents whenever their mantissas are even; an odd mantissa loses its
/// last half-unit to rounding.
pub proof fn lemma_corner_maps_to_extent(w: int, h: int)
    requires
        w % 2 == 0,
        h % 2 == 0,
    ensures
        ({
            let c = to_screen_m(V2m { x: SCALE as int, y: SCALE as int }, w, h);
            c.x == w && c.y == h
        }),
{
    lemma_tdiv_mul_exact(smul(w, HALF as int), SCALE as int);
    lemma_tdiv_mul_exact(smul(h, HALF as int), SCALE as int);
    lemma_half_extent(w);
    lemma_half_extent(h);
    half_of_even(w);
    half_of_even(h);
}

} // verus!
