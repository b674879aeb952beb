//! Quaternion algebra and arbitrary-axis rotation.
//!
//! The executable type carries fixed-point mantissas; the spec-level model
//! `Qm` carries unbounded integers, and every executable contract speaks
//! through it: the Hamilton product, the reciprocal, the rotor built from an
//! axis and a half-angle, and the sandwich product that rotates a vector.

use vstd::prelude::*;
use crate::fixed::{mag, smul, sdiv, tdiv, fx_mul, fx_div, isqrt128, sqrt_floor, SCALE,
    lemma_smul_tight, lemma_sdiv_bound, lemma_tdiv_bound, lemma_mul_mag,
    lemma_sqrt_floor_bounds};
use crate::geom::{V3m, Vector3, v3_norm2, COORD_LIMIT, TRIG_LIMIT};

verus! {

/// Largest component mantissa `rotate` accepts for the rotation quaternion
/// (the value 4; a unit rotation quaternion has components at most 1).
pub const ROTOR_LIMIT: i64 = 0x4_0000;

/// Smallest squared norm (in mantissa-squared units) `rotate` accepts for
/// the rotation quaternion: the value 1/4, i.e. length at least one half.
pub const ROTOR_NORM2_MIN: i64 = 0x4000_0000;

/// Mathematical model of a quaternion: scalar part `a`, vector part
/// `b, c, d`, as unbounded mantissas.
pub struct Qm {
    pub a: int,
    pub b: int,
    pub c: int,
    pub d: int,
}

/// Hamilton product of two quaternions.
pub open spec fn qmul(x: Qm, y: Qm) -> Qm {
    Qm {
        a: x.a * y.a - x.b * y.b - x.c * y.c - x.d * y.d,
        b: x.a * y.b + x.b * y.a + x.c * y.d - x.d * y.c,
        c: x.a * y.c - x.b * y.d + x.c * y.a + x.d * y.b,
        d: x.a * y.d + x.b * y.c - x.c * y.b + x.d * y.a,
    }
}

/// Conjugate: the vector part negated.
pub open spec fn qconj(x: Qm) -> Qm {
    Qm { a: x.a, b: -x.b, c: -x.c, d: -x.d }
}

/// Squared norm, in mantissa-squared units.
pub open spec fn qnorm2(x: Qm) -> int {
    x.a * x.a + x.b * x.b + x.c * x.c + x.d * x.d
}

/// A 3-vector embedded as a pure quaternion: zero scalar part.
pub open spec fn pure_of(v: V3m) -> Qm {
    Qm { a: 0, b: v.x, c: v.y, d: v.z }
}

/// The sandwich product `q · p̂ · q̄` that conjugation-rotates an embedded
/// vector.
pub open spec fn sandwich(q: Qm, p: V3m) -> Qm {
    qmul(qmul(q, pure_of(p)), qconj(q))
}

/// Conjugation does not change the squared norm.
pub proof fn lemma_qnorm2_conj(x: Qm)
    ensures
        qnorm2(qconj(x)) == qnorm2(x),
{
    assert((-x.b) * (-x.b) == x.b * x.b) by (nonlinear_arith);
    assert((-x.c) * (-x.c) == x.c * x.c) by (nonlinear_arith);
    assert((-x.d) * (-x.d) == x.d * x.d) by (nonlinear_arith);
}

/// An embedded vector's quaternion norm is the vector's norm.
pub proof fn lemma_qnorm2_pure(v: V3m)
    ensures
        qnorm2(pure_of(v)) == v3_norm2(v),
{
}

/// The Hamilton product is not commutative: a witness pair.
pub proof fn lemma_qmul_not_commutative()
    ensures
        exists|x: Qm, y: Qm| qmul(x, y) != qmul(y, x),
{
    let x = Qm { a: 0, b: 1, c: 0, d: 0 };
    let y = Qm { a: 0, b: 0, c: 1, d: 0 };
    assert(qmul(x, y).d == 1);
    assert(qmul(y, x).d == -1);
    assert(qmul(x, y) != qmul(y, x));
}

/// Embedding a vector as a pure quaternion and reading it back is lossless.
pub proof fn lemma_embed_extract(v: V3m)
    ensures
        pure_of(v).a == 0,
        (V3m { x: pure_of(v).b, y: pure_of(v).c, z: pure_of(v).d }) == v,
{
}

/// Componentwise fixed-point Hamilton product: each of the sixteen term
/// products rounds once.
pub open spec fn qmul_fx(x: Qm, y: Qm) -> Qm {
    Qm {
        a: smul(x.a, y.a) - smul(x.b, y.b) - smul(x.c, y.c) - smul(x.d, y.d),
        b: smul(x.a, y.b) + smul(x.b, y.a) + smul(x.c, y.d) - smul(x.d, y.c),
        c: smul(x.a, y.c) - smul(x.b, y.d) + smul(x.c, y.a) + smul(x.d, y.b),
        d: smul(x.a, y.d) + smul(x.b, y.c) - smul(x.c, y.b) + smul(x.d, y.a),
    }
}

/// Fixed-point squared norm, each square rounded once.
pub open spec fn qnorm2_fx(x: Qm) -> int {
    smul(x.a, x.a) + smul(x.b, x.b) + smul(x.c, x.c) + smul(x.d, x.d)
}

/// Fixed-point reciprocal: the conjugate divided by the squared norm.
pub open spec fn qrecip_fx(x: Qm) -> Qm {
    let n = qnorm2_fx(x);
    Qm { a: sdiv(x.a, n), b: sdiv(-x.b, n), c: sdiv(-x.c, n), d: sdiv(-x.d, n) }
}

/// The rotor built from an axis and the cosine and sine of the half-angle:
/// `(cos, axiŝ · sin)`, the axis normalized by the floor square root of its
/// squared norm.
pub open spec fn rot_m(v: V3m, c: int, s: int) -> Qm {
    let l = sqrt_floor(v3_norm2(v));
    Qm {
        a: c,
        b: smul(sdiv(v.x, l), s),
        c: smul(sdiv(v.y, l), s),
        d: smul(sdiv(v.z, l), s),
    }
}

/// The rotated vector: the exact integer sandwich product, scaled back by
/// the rotor's squared norm with a single rounding per coordinate.
pub open spec fn rotate_m(q: Qm, p: V3m) -> V3m {
    let u = sandwich(q, p);
    let n = qnorm2(q);
    V3m { x: tdiv(u.b, n), y: tdiv(u.c, n), z: tdiv(u.d, n) }
}

/// A quaternion of fixed-point mantissas.
#[derive(Clone, Copy, PartialEq, Eq, Structural, Debug)]
pub struct Quaternion {
    pub a: i64,
    pub b: i64,
    pub c: i64,
    pub d: i64,
}

impl View for Quaternion {
    type V = Qm;

    open spec fn view(&self) -> Qm {
        Qm { a: self.a as int, b: self.b as int, c: self.c as int, d: self.d as int }
    }
}

impl Quaternion {
    /// Embeds a vector as a pure quaternion.
    pub fn from_v3(v: Vector3) -> (r: Quaternion)
        ensures
            r@ == pure_of(v@),
    {
        Quaternion { a: 0, b: v.x, c: v.y, d: v.z }
    }

    /// Extracts the vector part.  Extraction demands purity: the scalar
    /// residue of a correctly formed rotation result is zero by proof, not
    /// by a run-time check.
    pub fn to_v3(self) -> (r: Vector3)
        requires
            self@.a == 0,
        ensures
            r@ == (V3m { x: self@.b, y: self@.c, z: self@.d }),
    {
        Vector3 { x: self.b, y: self.c, z: self.d }
    }

    /// Hamilton product in fixed point.
    pub fn product(self, o: Quaternion) -> (r: Quaternion)
        requires
            mag(self@.a) <= COORD_LIMIT as int,
            mag(self@.b) <= COORD_LIMIT as int,
            mag(self@.c) <= COORD_LIMIT as int,
            mag(self@.d) <= COORD_LIMIT as int,
            mag(o@.a) <= COORD_LIMIT as int,
            mag(o@.b) <= COORD_LIMIT as int,
            mag(o@.c) <= COORD_LIMIT as int,
            mag(o@.d) <= COORD_LIMIT as int,
    ensures
            r@ == qmul_fx(self@, o@),
    {
        proof {
            let cl = COORD_LIMIT as int;
            let m: int = 0x100_0000_0000_0000;
            lemma_smul_tight(self@.a, o@.a, cl, cl, m);
            lemma_smul_tight(self@.a, o@.b, cl, cl, m);
            lemma_smul_tight(self@.a, o@.c, cl, cl, m);
            lemma_smul_tight(self@.a, o@.d, cl, cl, m);
            lemma_smul_tight(self@.b, o@.a, cl, cl, m);
            lemma_smul_tight(self@.b, o@.b, cl, cl, m);
            lemma_smul_tight(self@.b, o@.c, cl, cl, m);
            lemma_smul_tight(self@.b, o@.d, cl, cl, m);
            lemma_smul_tight(self@.c, o@.a, cl, cl, m);
            lemma_smul_tight(self@.c, o@.b, cl, cl, m);
            lemma_smul_tight(self@.c, o@.c, cl, cl, m);
            lemma_smul_tight(self@.c, o@.d, cl, cl, m);
            lemma_smul_tight(self@.d, o@.a, cl, cl, m);
            lemma_smul_tight(self@.d, o@.b, cl, cl, m);
            lemma_smul_tight(self@.d, o@.c, cl, cl, m);
            lemma_smul_tight(self@.d, o@.d, cl, cl, m);
        }
        Quaternion {
            a: fx_mul(self.a, o.a) - fx_mul(self.b, o.b) - fx_mul(self.c, o.c) - fx_mul(
                self.d, o.d),
            b: fx_mul(self.a, o.b) + fx_mul(self.b, o.a) + fx_mul(self.c, o.d) - fx_mul(
                self.d, o.c),
            c: fx_mul(self.a, o.c) - fx_mul(self.b, o.d) + fx_mul(self.c, o.a) + fx_mul(
                self.d, o.b),
            d: fx_mul(self.a, o.d) + fx_mul(self.b, o.c) - fx_mul(self.c, o.b) + fx_mul(
                self.d, o.a),
        }
    }

    /// Reciprocal: conjugate over squared norm, each division rounded once.
    pub fn recip(self) -> (r: Quaternion)
        requires
            mag(self@.a) <= COORD_LIMIT as int,
            mag(self@.b) <= COORD_LIMIT as int,
            mag(self@.c) <= COORD_LIMIT as int,
            mag(self@.d) <= COORD_LIMIT as int,
            qnorm2_fx(self@) != 0,
        ensures
            r@ == qrecip_fx(self@),
    {
        proof {
            let cl = COORD_LIMIT as int;
            let m: int = 0x100_0000_0000_0000;
            lemma_smul_tight(self@.a, self@.a, cl, cl, m);
            lemma_smul_tight(self@.b, self@.b, cl, cl, m);
            lemma_smul_tight(self@.c, self@.c, cl, cl, m);
            lemma_smul_tight(self@.d, self@.d, cl, cl, m);
        }
        let n = fx_mul(self.a, self.a) + fx_mul(self.b, self.b) + fx_mul(self.c, self.c)
            + fx_mul(self.d, self.d);
        proof {
            let cl = COORD_LIMIT as int;
            lemma_sdiv_bound(self@.a, n as int, cl);
            lemma_sdiv_bound(-self@.b, n as int, cl);
            lemma_sdiv_bound(-self@.c, n as int, cl);
            lemma_sdiv_bound(-self@.d, n as int, cl);
        }
        Quaternion {
            a: fx_div(self.a, n),
            b: fx_div(-self.b, n),
            c: fx_div(-self.c, n),
            d: fx_div(-self.d, n),
        }
    }

    /// Builds the rotor for the axis and the half-angle whose cosine and
    /// sine mantissas are given: the scalar part is the cosine, the vector
    /// part the normalized axis scaled by the sine.
    pub fn rot(axis: Vector3, half_cos: i64, half_sin: i64) -> (r: Quaternion)
        requires
            v3_norm2(axis@) > 0,
            mag(axis@.x) <= COORD_LIMIT as int,
            mag(axis@.y) <= COORD_LIMIT as int,
            mag(axis@.z) <= COORD_LIMIT as int,
            mag(half_cos as int) <= TRIG_LIMIT as int,
            mag(half_sin as int) <= TRIG_LIMIT as int,
        ensures
            r@ == rot_m(axis@, half_cos as int, half_sin as int),
            mag(r@.a) <= TRIG_LIMIT as int,
            mag(r@.b) <= TRIG_LIMIT as int,
            mag(r@.c) <= TRIG_LIMIT as int,
            mag(r@.d) <= TRIG_LIMIT as int,
    {
        let xw = axis.x as i128;
        let yw = axis.y as i128;
        let zw = axis.z as i128;
        proof {
            let cl = COORD_LIMIT as int;
            lemma_mul_mag(axis@.x, axis@.x, cl, cl);
            lemma_mul_mag(axis@.y, axis@.y, cl, cl);
            lemma_mul_mag(axis@.z, axis@.z, cl, cl);
            assert(axis@.x * axis@.x >= 0) by (nonlinear_arith);
            assert(axis@.y * axis@.y >= 0) by (nonlinear_arith);
            assert(axis@.z * axis@.z >= 0) by (nonlinear_arith);
        }
        let n2: i128 = xw * xw + yw * yw + zw * zw;
        let lu = isqrt128(n2 as u128);
        proof {
            assert(n2 as int == v3_norm2(axis@));
            lemma_sqrt_floor_bounds(n2 as int);
            assert(lu < 0x4000_0000_0000) by (nonlinear_arith)
                requires
                    (lu as int) * (lu as int) <= (n2 as int),
                    n2 < 0x4000000000000000000,
                    lu >= 0,
            ;
            assert(n2 >= 0);
            assert(((n2 as u128) as int) == n2 as int);
            assert(lu == sqrt_floor(n2 as int));
            if lu == 0 {
                let s = sqrt_floor(n2 as int);
                assert((n2 as int) < (s + 1) * (s + 1));
                assert((s + 1) * (s + 1) == 1) by (nonlinear_arith)
                    requires
                        s == 0,
                ;
                assert(false);
            }
        }
        let l = lu as i64;
        proof {
            let li = l as int;
            axis_component_le_len(axis@.x, n2 as int, li);
            axis_component_le_len(axis@.y, n2 as int, li);
            axis_component_le_len(axis@.z, n2 as int, li);
            sdiv_by_len_bounded(axis@.x, li);
            sdiv_by_len_bounded(axis@.y, li);
            sdiv_by_len_bounded(axis@.z, li);
            let tl = TRIG_LIMIT as int;
            lemma_smul_tight(sdiv(axis@.x, li), half_sin as int, SCALE as int, tl, tl);
            lemma_smul_tight(sdiv(axis@.y, li), half_sin as int, SCALE as int, tl, tl);
            lemma_smul_tight(sdiv(axis@.z, li), half_sin as int, SCALE as int, tl, tl);
        }
        let bx = fx_mul(fx_div(axis.x, l), half_sin);
        let by = fx_mul(fx_div(axis.y, l), half_sin);
        let bz = fx_mul(fx_div(axis.z, l), half_sin);
        Quaternion { a: half_cos, b: bx, c: by, d: bz }
    }
}

/// A coordinate is no longer than the vector: its square is at most the
/// squared norm, whose floor root is `l`.
proof fn axis_component_le_len(x: int, n2: int, l: int)
    requires
        x * x <= n2,
        l >= 0,
        n2 < (l + 1) * (l + 1),
    ensures
        mag(x) <= l,
{
    assert(mag(x) * mag(x) == x * x) by (nonlinear_arith);
    assert(mag(x) <= l) by (nonlinear_arith)
        requires
            mag(x) * mag(x) == x * x,
            x * x <= n2,
            n2 < (l + 1) * (l + 1),
            l >= 0,
            mag(x) >= 0,
    ;
}

/// Dividing a coordinate by the vector's length keeps the quotient within
/// one unit of scale.
proof fn sdiv_by_len_bounded(x: int, l: int)
    requires
        l >= 1,
        mag(x) <= l,
    ensures
        mag(sdiv(x, l)) <= SCALE as int,
{
    assert(mag(x * (SCALE as int)) == mag(x) * (SCALE as int)) by (nonlinear_arith);
    assert(mag(x * (SCALE as int)) <= (SCALE as int) * l) by (nonlinear_arith)
        requires
            mag(x * (SCALE as int)) == mag(x) * (SCALE as int),
            mag(x) <= l,
    ;
    lemma_tdiv_bound(x * (SCALE as int), l, SCALE as int);
}

/// Rotates `p` by the sandwich product `q · p̂ · q⁻¹`, computed exactly in
/// wide integers and rounded once per coordinate when scaling back by the
/// rotor's squared norm.
pub fn rotate(q: Quaternion, p: Vector3) -> (r: Vector3)
    requires
        mag(q@.a) <= ROTOR_LIMIT as int,
        mag(q@.b) <= ROTOR_LIMIT as int,
        mag(q@.c) <= ROTOR_LIMIT as int,
        mag(q@.d) <= ROTOR_LIMIT as int,
        qnorm2(q@) >= ROTOR_NORM2_MIN as int,
        mag(p@.x) <= COORD_LIMIT as int,
        mag(p@.y) <= COORD_LIMIT as int,
        mag(p@.z) <= COORD_LIMIT as int,
    ensures
        r@ == rotate_m(q@, p@),
{
    let qa = q.a as i128;
    let qb = q.b as i128;
    let qc = q.c as i128;
    let qd = q.d as i128;
    let px = p.x as i128;
    let py = p.y as i128;
    let pz = p.z as i128;
    proof {
        let rl = ROTOR_LIMIT as int;
        let cl = COORD_LIMIT as int;
        lemma_mul_mag(q@.a, p@.x, rl, cl);
        lemma_mul_mag(q@.a, p@.y, rl, cl);
        lemma_mul_mag(q@.a, p@.z, rl, cl);
        lemma_mul_mag(q@.b, p@.x, rl, cl);
        lemma_mul_mag(q@.b, p@.y, rl, cl);
        lemma_mul_mag(q@.b, p@.z, rl, cl);
        lemma_mul_mag(q@.c, p@.x, rl, cl);
        lemma_mul_mag(q@.c, p@.y, rl, cl);
        lemma_mul_mag(q@.c, p@.z, rl, cl);
        lemma_mul_mag(q@.d, p@.x, rl, cl);
        lemma_mul_mag(q@.d, p@.y, rl, cl);
        lemma_mul_mag(q@.d, p@.z, rl, cl);
    }
    let ta = 0 - qb * px - qc * py - qd * pz;
    let tb = qa * px + qc * pz - qd * py;
    let tc = qa * py - qb * pz + qd * px;
    let td = qa * pz + qb * py - qc * px;
    let ghost ts = qmul(q@, pure_of(p@));
    proof {
        assert(ta == ts.a);
        assert(tb == ts.b);
        assert(tc == ts.c);
        assert(td == ts.d);
        let rl = ROTOR_LIMIT as int;
        let tlm: int = 0xC0_0000_0000_0000;
        lemma_mul_mag(ts.a, -q@.b, tlm, rl);
        lemma_mul_mag(ts.a, -q@.c, tlm, rl);
        lemma_mul_mag(ts.a, -q@.d, tlm, rl);
        lemma_mul_mag(ts.b, q@.a, tlm, rl);
        lemma_mul_mag(ts.b, -q@.c, tlm, rl);
        lemma_mul_mag(ts.b, -q@.d, tlm, rl);
        lemma_mul_mag(ts.c, q@.a, tlm, rl);
        lemma_mul_mag(ts.c, -q@.b, tlm, rl);
        lemma_mul_mag(ts.c, -q@.d, tlm, rl);
        lemma_mul_mag(ts.d, q@.a, tlm, rl);
        lemma_mul_mag(ts.d, -q@.b, tlm, rl);
        lemma_mul_mag(ts.d, -q@.c, tlm, rl);
        lemma_mul_mag(q@.a, q@.a, rl, rl);
        lemma_mul_mag(q@.b, q@.b, rl, rl);
        lemma_mul_mag(q@.c, q@.c, rl, rl);
        lemma_mul_mag(q@.d, q@.d, rl, rl);
    }
    let cb = -qb;
    let cc = -qc;
    let cd = -qd;
    let ub = ta * cb + tb * qa + tc * cd - td * cc;
    let uc = ta * cc - tb * cd + tc * qa + td * cb;
    let ud = ta * cd + tb * cc - tc * cb + td * qa;
    let n2 = qa * qa + qb * qb + qc * qc + qd * qd;
    let ghost us = qmul(ts, qconj(q@));
    proof {
        assert(ub == us.b);
        assert(uc == us.c);
        assert(ud == us.d);
        assert(n2 == qnorm2(q@));
        let m: int = 0x4000_0000_0000;
        lemma_tdiv_bound(us.b, n2 as int, m);
        lemma_tdiv_bound(us.c, n2 as int, m);
        lemma_tdiv_bound(us.d, n2 as int, m);
    }
    let rx = crate::fixed::tdiv128(ub, n2);
    let ry = crate::fixed::tdiv128(uc, n2);
    let rz = crate::fixed::tdiv128(ud, n2);
    Vector3 { x: rx as i64, y: ry as i64, z: rz as i64 }
}

/// Arbitrary-axis rotation: builds the rotor from the axis and the
/// half-angle cosine and sine, then applies the sandwich product.
pub fn rotate_quaternion(p: Vector3, axis: Vector3, half_cos: i64, half_sin: i64) -> (r:
    Vector3)
    requires
        v3_norm2(axis@) > 0,
        mag(axis@.x) <= COORD_LIMIT as int,
        mag(axis@.y) <= COORD_LIMIT as int,
        mag(axis@.z) <= COORD_LIMIT as int,
        mag(half_cos as int) <= TRIG_LIMIT as int,
        mag(half_sin as int) <= TRIG_LIMIT as int,
        qnorm2(rot_m(axis@, half_cos as int, half_sin as int)) >= ROTOR_NORM2_MIN as int,
        mag(p@.x) <= COORD_LIMIT as int,
        mag(p@.y) <= COORD_LIMIT as int,
        mag(p@.z) <= COORD_LIMIT as int,
    ensures
        r@ == rotate_m(rot_m(axis@, half_cos as int, half_sin as int), p@),
{
    let q = Quaternion::rot(axis, half_cos, half_sin);
    rotate(q, p)
}

} // verus!
