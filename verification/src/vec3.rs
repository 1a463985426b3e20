//! Three-component fixed-point vectors.
//!
//! `Vec3` doubles as a point and as a color, as in most small tracers.
//! Every operation has an exact integer contract over the raw components.

use vstd::prelude::*;
use crate::fx::{
    absi, fxm, tdiv, sqrt_floor, fx_mul, isqrt, i_div, i_min, i_max,
    lemma_tdiv_abs_le, lemma_sqrt_unique,
    FP_ONE, FX_LIM, COORD_LIM,
};

verus! {

/// A point in space, a direction, or a color, with fixed-point components.
#[derive(Clone, Copy, PartialEq, Eq, Structural, Debug)]
pub struct Vec3 {
    pub x: i128,
    pub y: i128,
    pub z: i128,
}

/// Alias used where a value is meant as a position.
pub type Point3 = Vec3;

/// Alias used where a value is meant as an RGB color.
pub type Color = Vec3;

/// All three components within `lim` in magnitude.
pub open spec fn vec_in_range(v: Vec3, lim: int) -> bool {
    absi(v.x as int) <= lim && absi(v.y as int) <= lim && absi(v.z as int) <= lim
}

/// Component-wise sum.
pub open spec fn svadd(a: Vec3, b: Vec3) -> (int, int, int) {
    (a.x + b.x, a.y + b.y, a.z + b.z)
}

/// The fixed-point dot product.
pub open spec fn sdot(a: Vec3, b: Vec3) -> int {
    fxm(a.x as int, b.x as int) + fxm(a.y as int, b.y as int) + fxm(a.z as int, b.z as int)
}

/// The fixed-point squared length.
pub open spec fn slen2(v: Vec3) -> int {
    sdot(v, v)
}

/// The fixed-point length: the rounded square root of the squared length,
/// brought back to the base scale.
pub open spec fn slen(v: Vec3) -> int {
    sqrt_floor((slen2(v) * FP_ONE) as nat) as int
}

/// The fixed-point cross product, per component.
pub open spec fn scross(a: Vec3, b: Vec3) -> (int, int, int) {
    (
        fxm(a.y as int, b.z as int) - fxm(a.z as int, b.y as int),
        fxm(a.z as int, b.x as int) - fxm(a.x as int, b.z as int),
        fxm(a.x as int, b.y as int) - fxm(a.y as int, b.x as int),
    )
}

impl Vec3 {
    /// Build a vector from raw fixed-point components.
    pub fn new(x: i128, y: i128, z: i128) -> (r: Vec3)
        ensures
            r == (Vec3 { x, y, z }),
    {
        Vec3 { x, y, z }
    }

    /// The zero vector.
    pub fn zero() -> (r: Vec3)
        ensures
            r == (Vec3 { x: 0i128, y: 0i128, z: 0i128 }),
    {
        Vec3 { x: 0, y: 0, z: 0 }
    }

    /// Component-wise addition.
    pub fn plus(&self, o: &Vec3) -> (r: Vec3)
        requires
            vec_in_range(*self, FX_LIM as int),
            vec_in_range(*o, FX_LIM as int),
        ensures
            r.x == self.x + o.x,
            r.y == self.y + o.y,
            r.z == self.z + o.z,
    {
        Vec3 { x: self.x + o.x, y: self.y + o.y, z: self.z + o.z }
    }

    /// Component-wise subtraction.
    pub fn minus(&self, o: &Vec3) -> (r: Vec3)
        requires
            vec_in_range(*self, FX_LIM as int),
            vec_in_range(*o, FX_LIM as int),
        ensures
            r.x == self.x - o.x,
            r.y == self.y - o.y,
            r.z == self.z - o.z,
    {
        Vec3 { x: self.x - o.x, y: self.y - o.y, z: self.z - o.z }
    }

    /// Negation.
    pub fn neg(&self) -> (r: Vec3)
        requires
            vec_in_range(*self, FX_LIM as int),
        ensures
            r.x == -self.x,
            r.y == -self.y,
            r.z == -self.z,
    {
        Vec3 { x: -self.x, y: -self.y, z: -self.z }
    }

    /// Scaling by a fixed-point factor.
    pub fn scale(&self, k: i128) -> (r: Vec3)
        requires
            vec_in_range(*self, FX_LIM as int),
            -FX_LIM <= k <= FX_LIM,
        ensures
            r.x == fxm(self.x as int, k as int),
            r.y == fxm(self.y as int, k as int),
            r.z == fxm(self.z as int, k as int),
    {
        Vec3 {
            x: fx_mul(self.x, k),
            y: fx_mul(self.y, k),
            z: fx_mul(self.z, k),
        }
    }

    /// Component-wise product (used for color attenuation).
    pub fn mul_comp(&self, o: &Vec3) -> (r: Vec3)
        requires
            vec_in_range(*self, FX_LIM as int),
            vec_in_range(*o, FX_LIM as int),
        ensures
            r.x == fxm(self.x as int, o.x as int),
            r.y == fxm(self.y as int, o.y as int),
            r.z == fxm(self.z as int, o.z as int),
    {
        Vec3 {
            x: fx_mul(self.x, o.x),
            y: fx_mul(self.y, o.y),
            z: fx_mul(self.z, o.z),
        }
    }

    /// The fixed-point dot product.
    pub fn dot(&self, o: &Vec3) -> (r: i128)
        requires
            vec_in_range(*self, FX_LIM as int),
            vec_in_range(*o, FX_LIM as int),
        ensures
            r == sdot(*self, *o),
    {
        let px = fx_mul(self.x, o.x);
        let py = fx_mul(self.y, o.y);
        let pz = fx_mul(self.z, o.z);
        proof {
            lemma_fxm_abs_lim(self.x as int, o.x as int);
            lemma_fxm_abs_lim(self.y as int, o.y as int);
            lemma_fxm_abs_lim(self.z as int, o.z as int);
        }
        px + py + pz
    }

    /// The fixed-point cross product.
    pub fn cross(&self, o: &Vec3) -> (r: Vec3)
        requires
            vec_in_range(*self, FX_LIM as int),
            vec_in_range(*o, FX_LIM as int),
        ensures
            (r.x as int, r.y as int, r.z as int) == scross(*self, *o),
    {
        proof {
            lemma_fxm_abs_lim(self.y as int, o.z as int);
            lemma_fxm_abs_lim(self.z as int, o.y as int);
            lemma_fxm_abs_lim(self.z as int, o.x as int);
            lemma_fxm_abs_lim(self.x as int, o.z as int);
            lemma_fxm_abs_lim(self.x as int, o.y as int);
            lemma_fxm_abs_lim(self.y as int, o.x as int);
        }
        Vec3 {
            x: fx_mul(self.y, o.z) - fx_mul(self.z, o.y),
            y: fx_mul(self.z, o.x) - fx_mul(self.x, o.z),
            z: fx_mul(self.x, o.y) - fx_mul(self.y, o.x),
        }
    }

    /// The fixed-point squared length. Never negative.
    pub fn len_sqr(&self) -> (r: i128)
        requires
            vec_in_range(*self, FX_LIM as int),
        ensures
            r == slen2(*self),
            r >= 0,
    {
        proof {
            lemma_slen2_nonneg(*self);
        }
        let r = self.dot(self);
        r
    }

    /// The fixed-point length.
    pub fn length(&self) -> (r: i128)
        requires
            vec_in_range(*self, COORD_LIM as int),
        ensures
            r == slen(*self),
            r >= 0,
            r * r <= slen2(*self) * FP_ONE,
            slen2(*self) * FP_ONE < (r + 1) * (r + 1),
    {
        proof {
            lemma_slen2_nonneg(*self);
            lemma_slen2_coord_bound(*self);
        }
        let l2 = self.len_sqr();
        isqrt(l2 * FP_ONE)
    }
}

/// Tolerance around `FP_ONE` accepted for the squared length of a
/// normalized vector (2^20 raw, about 2.4e-4 relative).
pub const UNIT_TOL: i128 = 1048576;

/// Smallest squared length `to_unit` accepts (2^16 raw): vectors shorter
/// than about 2^-8 world units are too coarse to normalize.
pub const UNIT_MIN_LEN2: i128 = 65536;

/// A vector whose squared length is within tolerance of one.
pub open spec fn unit_band(v: Vec3) -> bool {
    FP_ONE - UNIT_TOL <= slen2(v) <= FP_ONE + UNIT_TOL
}

/// The raw normalization candidate: each component scaled by the length.
pub open spec fn sunit_raw(v: Vec3) -> (int, int, int) {
    let l = slen(v);
    (tdiv(v.x * FP_ONE, l), tdiv(v.y * FP_ONE, l), tdiv(v.z * FP_ONE, l))
}

/// The unit vector along the dominant axis of `v`, used when the
/// normalization candidate fails its length check.
pub open spec fn sunit_axis(v: Vec3) -> Vec3 {
    let ax = absi(v.x as int);
    let ay = absi(v.y as int);
    let az = absi(v.z as int);
    if ax >= ay && ax >= az {
        Vec3 { x: if v.x >= 0 { FP_ONE } else { (-FP_ONE) as i128 }, y: 0i128, z: 0i128 }
    } else if ay >= az {
        Vec3 { x: 0i128, y: if v.y >= 0 { FP_ONE } else { (-FP_ONE) as i128 }, z: 0i128 }
    } else {
        Vec3 { x: 0i128, y: 0i128, z: if v.z >= 0 { FP_ONE } else { (-FP_ONE) as i128 } }
    }
}

/// What `to_unit` returns: the normalization candidate when it passes the
/// range and length checks, else the dominant-axis unit vector.
pub open spec fn sunit(v: Vec3) -> Vec3 {
    let (cx, cy, cz) = sunit_raw(v);
    if absi(cx) <= 2 * FP_ONE && absi(cy) <= 2 * FP_ONE && absi(cz) <= 2 * FP_ONE
        && unit_band(Vec3 { x: cx as i128, y: cy as i128, z: cz as i128 }) {
        Vec3 { x: cx as i128, y: cy as i128, z: cz as i128 }
    } else {
        sunit_axis(v)
    }
}

/// The mirror reflection of `v` about the normal `n`.
pub open spec fn sreflect(v: Vec3, n: Vec3) -> (int, int, int) {
    let k = 2 * sdot(v, n);
    (v.x - fxm(n.x as int, k), v.y - fxm(n.y as int, k), v.z - fxm(n.z as int, k))
}

impl Vec3 {
    /// Normalize to (approximately) unit length. The result always has a
    /// squared length within `UNIT_TOL` of one; when the division-based
    /// candidate passes its checks (the common case) the result is exactly
    /// `sunit_raw`, else the dominant-axis unit vector is used.
    pub fn to_unit(&self) -> (r: Vec3)
        requires
            vec_in_range(*self, 72057594037927936),
            slen2(*self) >= UNIT_MIN_LEN2,
        ensures
            r == sunit(*self),
            unit_band(r),
            vec_in_range(r, 2 * FP_ONE as int),
    {
        proof {
            lemma_slen2_nonneg(*self);
            lemma_fxm_tight(self.x as int, self.x as int, 72057594037927936, 72057594037927936);
            lemma_fxm_tight(self.y as int, self.y as int, 72057594037927936, 72057594037927936);
            lemma_fxm_tight(self.z as int, self.z as int, 72057594037927936, 72057594037927936);
            assert(72057594037927936int * 72057594037927936int / (FP_ONE as int)
                == 1208925819614629174706176) by (nonlinear_arith);
        }
        let l2 = self.len_sqr();
        let l = isqrt(l2 * FP_ONE);
        proof {
            assert(l > 0) by (nonlinear_arith)
                requires
                    l2 * FP_ONE >= UNIT_MIN_LEN2 * FP_ONE,
                    (l + 1) * (l + 1) > l2 * FP_ONE,
                    l >= 0,
                    UNIT_MIN_LEN2 * FP_ONE > 4,
            ;
        }
        let cx = i_div(self.x * FP_ONE, l);
        let cy = i_div(self.y * FP_ONE, l);
        let cz = i_div(self.z * FP_ONE, l);
        let two = 2 * FP_ONE;
        if -two <= cx && cx <= two && -two <= cy && cy <= two && -two <= cz && cz <= two {
            let cand = Vec3 { x: cx, y: cy, z: cz };
            let m2 = cand.len_sqr();
            if FP_ONE - UNIT_TOL <= m2 && m2 <= FP_ONE + UNIT_TOL {
                return cand;
            }
        }
        let f = self.dominant_axis_unit();
        proof {
            lemma_axis_unit_band(*self);
        }
        f
    }

    /// The unit vector along this vector's dominant axis.
    pub fn dominant_axis_unit(&self) -> (r: Vec3)
        requires
            vec_in_range(*self, FX_LIM as int),
        ensures
            r == sunit_axis(*self),
    {
        let ax = if self.x < 0 { -self.x } else { self.x };
        let ay = if self.y < 0 { -self.y } else { self.y };
        let az = if self.z < 0 { -self.z } else { self.z };
        if ax >= ay && ax >= az {
            Vec3 { x: if self.x >= 0 { FP_ONE } else { -FP_ONE }, y: 0, z: 0 }
        } else if ay >= az {
            Vec3 { x: 0, y: if self.y >= 0 { FP_ONE } else { -FP_ONE }, z: 0 }
        } else {
            Vec3 { x: 0, y: 0, z: if self.z >= 0 { FP_ONE } else { -FP_ONE } }
        }
    }

    /// Mirror reflection about a normal.
    pub fn reflect(&self, n: &Vec3) -> (r: Vec3)
        requires
            vec_in_range(*self, 4 * FP_ONE as int),
            vec_in_range(*n, 4 * FP_ONE as int),
        ensures
            (r.x as int, r.y as int, r.z as int) == sreflect(*self, *n),
    {
        proof {
            lemma_fxm_tight(self.x as int, n.x as int, 4 * FP_ONE as int, 4 * FP_ONE as int);
            lemma_fxm_tight(self.y as int, n.y as int, 4 * FP_ONE as int, 4 * FP_ONE as int);
            lemma_fxm_tight(self.z as int, n.z as int, 4 * FP_ONE as int, 4 * FP_ONE as int);
            assert((4 * FP_ONE as int) * (4 * FP_ONE as int) / (FP_ONE as int) == 16 * FP_ONE as int)
                by (nonlinear_arith);
            assert(absi(sdot(*self, *n)) <= 48 * FP_ONE as int);
        }
        let d = self.dot(n);
        let k = 2 * d;
        proof {
            lemma_fxm_tight(n.x as int, k as int, 4 * FP_ONE as int, 96 * FP_ONE as int);
            lemma_fxm_tight(n.y as int, k as int, 4 * FP_ONE as int, 96 * FP_ONE as int);
            lemma_fxm_tight(n.z as int, k as int, 4 * FP_ONE as int, 96 * FP_ONE as int);
        }
        Vec3 {
            x: self.x - fx_mul(n.x, k),
            y: self.y - fx_mul(n.y, k),
            z: self.z - fx_mul(n.z, k),
        }
    }
}

/// A tight magnitude bound for the fixed-point product: the product of the
/// operand bounds, rescaled.
pub proof fn lemma_fxm_tight(a: int, b: int, la: int, lb: int)
    requires
        absi(a) <= la,
        absi(b) <= lb,
    ensures
        absi(fxm(a, b)) <= (la * lb) / (FP_ONE as int),
        absi(fxm(a, b)) * FP_ONE <= la * lb,
{
    assert(absi(a) * absi(b) <= la * lb) by (nonlinear_arith)
        requires 0 <= absi(a) <= la, 0 <= absi(b) <= lb
    ;
    crate::fx::lemma_fxm_bound(a, b, la * lb);
    let x = absi(fxm(a, b));
    assert(x * FP_ONE == FP_ONE * x) by (nonlinear_arith);
    vstd::arithmetic::div_mod::lemma_div_multiples_vanish(x, FP_ONE as int);
    vstd::arithmetic::div_mod::lemma_div_is_ordered(x * FP_ONE, la * lb, FP_ONE as int);
}

/// The dominant-axis unit vector always sits in the unit band.
pub proof fn lemma_axis_unit_band(v: Vec3)
    ensures
        unit_band(sunit_axis(v)),
        vec_in_range(sunit_axis(v), 2 * FP_ONE as int),
{
    let u = sunit_axis(v);
    assert((FP_ONE as int) * (FP_ONE as int) > 0) by (nonlinear_arith);
    vstd::arithmetic::div_mod::lemma_div_multiples_vanish(FP_ONE as int, FP_ONE as int);
    assert(fxm(FP_ONE as int, FP_ONE as int) == FP_ONE);
    assert((-FP_ONE as int) * (-FP_ONE as int) == (FP_ONE as int) * (FP_ONE as int))
        by (nonlinear_arith);
    assert(fxm(-FP_ONE as int, -FP_ONE as int) == FP_ONE);
    assert(fxm(0, 0) == 0);
}

/// The fixed-point product of two in-limit scalars stays well inside `i128`.
pub proof fn lemma_fxm_abs_lim(a: int, b: int)
    requires
        absi(a) <= FX_LIM as int,
        absi(b) <= FX_LIM as int,
    ensures
        absi(fxm(a, b)) <= (FX_LIM as int) * (FX_LIM as int),
{
    assert(absi(a) * absi(b) <= (FX_LIM as int) * (FX_LIM as int)) by (nonlinear_arith)
        requires 0 <= absi(a) <= FX_LIM as int, 0 <= absi(b) <= FX_LIM as int
    ;
    crate::fx::lemma_fxm_bound(a, b, (FX_LIM as int) * (FX_LIM as int));
}

/// A squared length is never negative.
pub proof fn lemma_slen2_nonneg(v: Vec3)
    ensures
        slen2(v) >= 0,
        fxm(v.x as int, v.x as int) >= 0,
        fxm(v.y as int, v.y as int) >= 0,
        fxm(v.z as int, v.z as int) >= 0,
{
    lemma_fxm_sq_nonneg(v.x as int);
    lemma_fxm_sq_nonneg(v.y as int);
    lemma_fxm_sq_nonneg(v.z as int);
}

proof fn lemma_fxm_sq_nonneg(a: int)
    ensures
        fxm(a, a) >= 0,
        fxm(a, a) * FP_ONE <= a * a,
{
    assert(a * a >= 0) by (nonlinear_arith);
    assert(absi(a) * absi(a) == a * a) by (nonlinear_arith);
    crate::fx::lemma_fxm_bound(a, a, a * a);
    lemma_tdiv_abs_le(a * a, FP_ONE as int);
}

/// Vectors within the coordinate range have a squared length small enough
/// to rescale without overflow.
pub proof fn lemma_slen2_coord_bound(v: Vec3)
    requires
        vec_in_range(v, COORD_LIM as int),
    ensures
        0 <= slen2(v) <= 3 * COORD_LIM * COORD_LIM,
{
    lemma_slen2_nonneg(v);
    lemma_fxm_coord(v.x as int);
    lemma_fxm_coord(v.y as int);
    lemma_fxm_coord(v.z as int);
}

proof fn lemma_fxm_coord(a: int)
    requires
        absi(a) <= COORD_LIM as int,
    ensures
        fxm(a, a) <= (COORD_LIM as int) * (COORD_LIM as int),
{
    assert(absi(a) * absi(a) <= (COORD_LIM as int) * (COORD_LIM as int)) by (nonlinear_arith)
        requires 0 <= absi(a) <= COORD_LIM as int
    ;
    crate::fx::lemma_fxm_bound(a, a, (COORD_LIM as int) * (COORD_LIM as int));
}

} // verus!

verus! {

/// A vector in the unit band has components within twice unit length.
pub proof fn lemma_unit_band_range(v: Vec3)
    ensures
        unit_band(v) ==> vec_in_range(v, 2 * FP_ONE as int),
{
    if unit_band(v) {
        lemma_slen2_nonneg(v);
        lemma_band_comp(v.x as int, slen2(v) - fxm(v.y as int, v.y as int) - fxm(v.z as int, v.z as int));
        lemma_band_comp(v.y as int, slen2(v) - fxm(v.x as int, v.x as int) - fxm(v.z as int, v.z as int));
        lemma_band_comp(v.z as int, slen2(v) - fxm(v.x as int, v.x as int) - fxm(v.y as int, v.y as int));
    }
}

proof fn lemma_band_comp(x: int, own: int)
    requires
        fxm(x, x) == own,
        own <= FP_ONE + UNIT_TOL,
    ensures
        absi(x) <= 2 * FP_ONE,
{
    crate::fx::lemma_tdiv_mul_close(x * x, FP_ONE as int);
    assert(x * x >= 0) by (nonlinear_arith);
    assert(x * x <= own * FP_ONE + FP_ONE) by (nonlinear_arith)
        requires x * x - FP_ONE < own * FP_ONE, FP_ONE > 0
    ;
    assert(absi(x) <= 2 * FP_ONE) by (nonlinear_arith)
        requires
            x * x <= (FP_ONE + UNIT_TOL) * FP_ONE + FP_ONE,
            UNIT_TOL < FP_ONE,
            FP_ONE >= 2,
    ;
}

} // verus!

verus! {

/// Whatever branch normalization takes, the result sits in the unit band.
pub proof fn lemma_sunit_band(v: Vec3)
    ensures
        unit_band(sunit(v)),
        vec_in_range(sunit(v), 2 * FP_ONE as int),
{
    let (cx, cy, cz) = sunit_raw(v);
    if absi(cx) <= 2 * FP_ONE && absi(cy) <= 2 * FP_ONE && absi(cz) <= 2 * FP_ONE
        && unit_band(Vec3 { x: cx as i128, y: cy as i128, z: cz as i128 }) {
    } else {
        lemma_axis_unit_band(v);
    }
}

} // verus!

verus! {

/// Threshold above which normalization provably takes its division path
/// (2^28 raw): the candidate then always passes the range and length
/// checks, so `sunit` is exactly `sunit_raw`.
pub const UNIT_SAFE_LEN2: i128 = 268435456;

/// For a long-enough input the normalization candidate is always accepted:
/// its components stay within twice one and its squared length lands within
/// a few raw units of one, far inside the tolerance band.
pub proof fn lemma_sunit_main(x: Vec3)
    requires
        vec_in_range(x, 72057594037927936),
        slen2(x) >= UNIT_SAFE_LEN2,
    ensures
        (sunit(x).x as int, sunit(x).y as int, sunit(x).z as int) == sunit_raw(x),
        unit_band(sunit(x)),
        vec_in_range(sunit(x), 2 * FP_ONE as int),
        slen(x) >= 1073741824,
        absi(slen(x) * sunit_raw(x).0 - x.x * FP_ONE) < slen(x),
        absi(slen(x) * sunit_raw(x).1 - x.y * FP_ONE) < slen(x),
        absi(slen(x) * sunit_raw(x).2 - x.z * FP_ONE) < slen(x),
{
    let s_ = FP_ONE as int;
    let l2 = slen2(x);
    let lsq = l2 * s_;
    crate::fx::lemma_sqrt_floor_bounds(lsq as nat);
    let l = slen(x);
    assert(l * l <= lsq && lsq < (l + 1) * (l + 1));
    assert(l >= 1073741824) by (nonlinear_arith)
        requires
            (l + 1) * (l + 1) > lsq,
            lsq >= 268435456 * 4294967296,
            l >= 0,
    ;
    lemma_slen2_nonneg(x);
    let (cx, cy, cz) = sunit_raw(x);
    lemma_unit_comp(x.x as int, l, l2);
    lemma_unit_comp(x.y as int, l, l2);
    lemma_unit_comp(x.z as int, l, l2);
    // The three squared-component identities, summed.
    let dx = l * cx - x.x * s_;
    let dy = l * cy - x.y * s_;
    let dz = l * cz - x.z * s_;
    assert((l * cx) * (l * cx) == l * l * (cx * cx)
        && (l * cy) * (l * cy) == l * l * (cy * cy)
        && (l * cz) * (l * cz) == l * l * (cz * cz)) by (nonlinear_arith);
    assert(absi((l * cx) * (l * cx) - (x.x * s_) * (x.x * s_)) <= 5 * s_ * (l * l)
        && absi((l * cy) * (l * cy) - (x.y * s_) * (x.y * s_)) <= 5 * s_ * (l * l)
        && absi((l * cz) * (l * cz) - (x.z * s_) * (x.z * s_)) <= 5 * s_ * (l * l)) by {
        lemma_sq_close(x.x as int, cx, l);
        lemma_sq_close(x.y as int, cy, l);
        lemma_sq_close(x.z as int, cz, l);
    }
    let csum = cx * cx + cy * cy + cz * cz;
    let xsum = (x.x * s_) * (x.x * s_) + (x.y * s_) * (x.y * s_) + (x.z * s_) * (x.z * s_);
    assert(l * l * csum == l * l * (cx * cx) + l * l * (cy * cy) + l * l * (cz * cz))
        by (nonlinear_arith)
        requires csum == cx * cx + cy * cy + cz * cz
    ;
    assert(absi(l * l * csum - xsum) <= 15 * s_ * (l * l)) by (nonlinear_arith)
        requires
            absi(l * l * (cx * cx) - (x.x * s_) * (x.x * s_)) <= 5 * s_ * (l * l),
            absi(l * l * (cy * cy) - (x.y * s_) * (x.y * s_)) <= 5 * s_ * (l * l),
            absi(l * l * (cz * cz) - (x.z * s_) * (x.z * s_)) <= 5 * s_ * (l * l),
            l * l * csum == l * l * (cx * cx) + l * l * (cy * cy) + l * l * (cz * cz),
            xsum == (x.x * s_) * (x.x * s_) + (x.y * s_) * (x.y * s_) + (x.z * s_) * (x.z * s_),
    ;
    // xsum is within 3 S^3 of S^2 * lsq.
    crate::fx::lemma_tdiv_mul_close(x.x as int * x.x, s_);
    crate::fx::lemma_tdiv_mul_close(x.y as int * x.y, s_);
    crate::fx::lemma_tdiv_mul_close(x.z as int * x.z, s_);
    assert(x.x as int * x.x >= 0 && x.y as int * x.y >= 0 && x.z as int * x.z >= 0)
        by (nonlinear_arith);
    assert(s_ * l2 <= x.x as int * x.x + x.y as int * x.y + x.z as int * x.z
        && x.x as int * x.x + x.y as int * x.y + x.z as int * x.z < s_ * l2 + 3 * s_)
        by (nonlinear_arith)
        requires
            l2 == fxm(x.x as int, x.x as int) + fxm(x.y as int, x.y as int) + fxm(x.z as int, x.z as int),
            x.x as int * x.x - s_ < fxm(x.x as int, x.x as int) * s_ <= x.x as int * x.x,
            x.y as int * x.y - s_ < fxm(x.y as int, x.y as int) * s_ <= x.y as int * x.y,
            x.z as int * x.z - s_ < fxm(x.z as int, x.z as int) * s_ <= x.z as int * x.z,
            s_ > 0,
    ;
    assert(xsum == s_ * s_ * (x.x as int * x.x + x.y as int * x.y + x.z as int * x.z))
        by (nonlinear_arith)
        requires xsum == (x.x * s_) * (x.x * s_) + (x.y * s_) * (x.y * s_) + (x.z * s_) * (x.z * s_)
    ;
    assert(s_ * s_ * lsq <= xsum && xsum < s_ * s_ * lsq + 3 * (s_ * s_ * s_))
        by (nonlinear_arith)
        requires
            xsum == s_ * s_ * (x.x as int * x.x + x.y as int * x.y + x.z as int * x.z),
            s_ * l2 <= x.x as int * x.x + x.y as int * x.y + x.z as int * x.z,
            x.x as int * x.x + x.y as int * x.y + x.z as int * x.z < s_ * l2 + 3 * s_,
            lsq == l2 * s_,
            s_ > 0,
    ;
    // Combine with the root bounds to place csum within [S^2 - 15 S, S^2 + 2^39].
    assert(csum >= s_ * s_ - 15 * s_) by (nonlinear_arith)
        requires
            absi(l * l * csum - xsum) <= 15 * s_ * (l * l),
            xsum >= s_ * s_ * lsq,
            lsq >= l * l,
            l >= 1073741824,
            s_ == 4294967296,
    ;
    assert(l * l * csum < s_ * s_ * ((l + 1) * (l + 1)) + 3 * (s_ * s_ * s_) + 15 * s_ * (l * l))
        by (nonlinear_arith)
        requires
            absi(l * l * csum - xsum) <= 15 * s_ * (l * l),
            xsum < s_ * s_ * lsq + 3 * (s_ * s_ * s_),
            lsq < (l + 1) * (l + 1),
            s_ > 0,
    ;
    assert(csum <= s_ * s_ + 549755813888) by (nonlinear_arith)
        requires
            l * l * csum < s_ * s_ * ((l + 1) * (l + 1)) + 3 * (s_ * s_ * s_) + 15 * s_ * (l * l),
            l >= 1073741824,
            s_ == 4294967296,
    ;
    // Back to the fixed-point squared length of the candidate.
    let cand = Vec3 { x: cx as i128, y: cy as i128, z: cz as i128 };
    crate::fx::lemma_tdiv_mul_close(cx * cx, s_);
    crate::fx::lemma_tdiv_mul_close(cy * cy, s_);
    crate::fx::lemma_tdiv_mul_close(cz * cz, s_);
    assert(cx * cx >= 0 && cy * cy >= 0 && cz * cz >= 0) by (nonlinear_arith);
    assert(slen2(cand) == fxm(cx, cx) + fxm(cy, cy) + fxm(cz, cz));
    assert(s_ - 18 <= slen2(cand) && slen2(cand) <= s_ + 128) by (nonlinear_arith)
        requires
            slen2(cand) == fxm(cx, cx) + fxm(cy, cy) + fxm(cz, cz),
            cx * cx - s_ < fxm(cx, cx) * s_ <= cx * cx,
            cy * cy - s_ < fxm(cy, cy) * s_ <= cy * cy,
            cz * cz - s_ < fxm(cz, cz) * s_ <= cz * cz,
            s_ * s_ - 15 * s_ <= csum <= s_ * s_ + 549755813888,
            csum == cx * cx + cy * cy + cz * cz,
            s_ == 4294967296,
    ;
    assert(unit_band(cand));
    assert(sunit(x) == cand);
}

/// One component of the normalization candidate: bounded by twice one and
/// within one divisor step of the exact ratio.
proof fn lemma_unit_comp(xi: int, l: int, l2: int)
    requires
        l >= 1073741824,
        l * l <= l2 * FP_ONE,
        l2 * FP_ONE < (l + 1) * (l + 1),
        fxm(xi, xi) <= l2,
        l2 >= 0,
    ensures
        absi(tdiv(xi * FP_ONE, l)) <= 2 * FP_ONE,
        absi(l * tdiv(xi * FP_ONE, l) - xi * FP_ONE) < l,
{
    let s_ = FP_ONE as int;
    crate::fx::lemma_tdiv_mul_close(xi * xi, s_);
    assert(xi * xi >= 0) by (nonlinear_arith);
    assert(xi * xi < l2 * s_ + s_) by (nonlinear_arith)
        requires fxm(xi, xi) * s_ <= l2 * s_, xi * xi - s_ < fxm(xi, xi) * s_, s_ > 0, fxm(xi, xi) <= l2
    ;
    assert(xi * xi < 4 * (l * l)) by (nonlinear_arith)
        requires
            xi * xi < l2 * s_ + s_,
            l2 * s_ < (l + 1) * (l + 1),
            l >= 1073741824,
            s_ == 4294967296,
    ;
    assert(absi(xi) <= 2 * l) by (nonlinear_arith)
        requires xi * xi < 4 * (l * l), l >= 0
    ;
    assert(absi(xi * s_) <= l * (2 * s_)) by (nonlinear_arith)
        requires absi(xi) <= 2 * l, s_ > 0, l >= 0
    ;
    crate::fx::lemma_tdiv_ratio_le(xi * s_, l, 2 * s_);
    crate::fx::lemma_tdiv_mul_close_general(xi * s_, l);
    assert(absi(l) == l);
    assert(absi(tdiv(xi * s_, l) * l - xi * s_) < l) by (nonlinear_arith)
        requires
            tdiv(xi * s_, l) * l <= xi * s_ + l - 1,
            xi * s_ - l + 1 <= tdiv(xi * s_, l) * l,
            l >= 1,
    ;
    assert(l * tdiv(xi * s_, l) == tdiv(xi * s_, l) * l) by (nonlinear_arith);
}

/// The square of a scaled component stays close to the square of the exact
/// scaled value.
proof fn lemma_sq_close(xi: int, ci: int, l: int)
    requires
        l >= 1073741824,
        absi(ci) <= 2 * FP_ONE,
        absi(l * ci - xi * FP_ONE) < l,
    ensures
        absi((l * ci) * (l * ci) - (xi * FP_ONE) * (xi * FP_ONE)) <= 5 * FP_ONE * (l * l),
{
    let s_ = FP_ONE as int;
    let a = l * ci;
    let b = xi * s_;
    let d = a - b;
    assert(a * a - b * b == d * (a + b)) by (nonlinear_arith)
        requires d == a - b
    ;
    assert(absi(a) <= 2 * s_ * l) by (nonlinear_arith)
        requires a == l * ci, absi(ci) <= 2 * s_, l >= 0
    ;
    assert(absi(b) <= absi(a) + l) by (nonlinear_arith)
        requires absi(a - b) < l, l >= 0
    ;
    assert(absi(d * (a + b)) <= 5 * s_ * (l * l)) by (nonlinear_arith)
        requires
            absi(d) < l,
            absi(a) <= 2 * s_ * l,
            absi(b) <= 2 * s_ * l + l,
            l >= 1,
            s_ == 4294967296,
    ;
}

} // verus!

verus! {

/// A raw-orthogonal vector stays near-orthogonal to `w` after
/// normalization: the only error is division truncation, under one raw
/// unit per component.
pub proof fn lemma_unit_ortho(x: Vec3, w: Vec3)
    requires
        vec_in_range(x, 72057594037927936),
        slen2(x) >= UNIT_SAFE_LEN2,
        vec_in_range(w, 2 * FP_ONE as int),
        x.x * w.x + x.y * w.y + x.z * w.z == 0,
    ensures
        absi(sdot(sunit(x), w)) <= 16,
{
    lemma_sunit_main(x);
    let s_ = FP_ONE as int;
    let l = slen(x);
    let (cx, cy, cz) = sunit_raw(x);
    let dx = l * cx - x.x * s_;
    let dy = l * cy - x.y * s_;
    let dz = l * cz - x.z * s_;
    let y = cx * w.x + cy * w.y + cz * w.z;
    assert(l * (cx * w.x) == (x.x * s_) * w.x + dx * w.x) by (nonlinear_arith)
        requires dx == l * cx - x.x * s_
    ;
    assert(l * (cy * w.y) == (x.y * s_) * w.y + dy * w.y) by (nonlinear_arith)
        requires dy == l * cy - x.y * s_
    ;
    assert(l * (cz * w.z) == (x.z * s_) * w.z + dz * w.z) by (nonlinear_arith)
        requires dz == l * cz - x.z * s_
    ;
    assert((x.x * s_) * w.x + (x.y * s_) * w.y + (x.z * s_) * w.z == 0) by (nonlinear_arith)
        requires x.x * w.x + x.y * w.y + x.z * w.z == 0
    ;
    assert(l * y == dx * w.x + dy * w.y + dz * w.z) by (nonlinear_arith)
        requires
            y == cx * w.x + cy * w.y + cz * w.z,
            l * (cx * w.x) == (x.x * s_) * w.x + dx * w.x,
            l * (cy * w.y) == (x.y * s_) * w.y + dy * w.y,
            l * (cz * w.z) == (x.z * s_) * w.z + dz * w.z,
            (x.x * s_) * w.x + (x.y * s_) * w.y + (x.z * s_) * w.z == 0,
    ;
    assert(absi(dx * w.x) <= l * (2 * s_)
        && absi(dy * w.y) <= l * (2 * s_)
        && absi(dz * w.z) <= l * (2 * s_)) by (nonlinear_arith)
        requires
            absi(dx) < l, absi(dy) < l, absi(dz) < l,
            absi(w.x as int) <= 2 * s_, absi(w.y as int) <= 2 * s_, absi(w.z as int) <= 2 * s_,
            l >= 1,
    ;
    assert(absi(y) <= 6 * s_) by (nonlinear_arith)
        requires
            l * y == dx * w.x + dy * w.y + dz * w.z,
            absi(dx * w.x) <= l * (2 * s_),
            absi(dy * w.y) <= l * (2 * s_),
            absi(dz * w.z) <= l * (2 * s_),
            l >= 1,
            s_ > 0,
    ;
    let u = sunit(x);
    assert(sdot(u, w) == fxm(cx, w.x as int) + fxm(cy, w.y as int) + fxm(cz, w.z as int));
    crate::fx::lemma_tdiv_mul_close(cx * w.x, s_);
    crate::fx::lemma_tdiv_mul_close(cy * w.y, s_);
    crate::fx::lemma_tdiv_mul_close(cz * w.z, s_);
    assert(absi(sdot(u, w)) <= 16) by (nonlinear_arith)
        requires
            sdot(u, w) == fxm(cx, w.x as int) + fxm(cy, w.y as int) + fxm(cz, w.z as int),
            absi(fxm(cx, w.x as int) * s_ - cx * w.x) < s_,
            absi(fxm(cy, w.y as int) * s_ - cy * w.y) < s_,
            absi(fxm(cz, w.z as int) * s_ - cz * w.z) < s_,
            absi(cx * w.x + cy * w.y + cz * w.z) <= 6 * s_,
            s_ == 4294967296,
    ;
}

} // verus!
