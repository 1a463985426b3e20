//! Orthonormal bases built from a normal vector.

use vstd::prelude::*;
use crate::fx::{absi, fxm, FP_ONE, FX_LIM, COORD_LIM};
use crate::vec3::{
    Vec3, vec_in_range, scross, sunit, unit_band, slen2, sdot, lemma_fxm_tight,
    lemma_sunit_main, lemma_unit_ortho, lemma_slen2_nonneg,
    UNIT_MIN_LEN2, UNIT_SAFE_LEN2,
};

verus! {

/// Raw threshold for "the normal is close to the x axis" (0.9 in fixed point).
pub const AXIS_NEAR: i128 = 3865470566;

/// How far from exactly perpendicular the frame's tangent may sit: a few
/// raw units of truncation (about 4e-9 of one).
pub const ONB_ORTHO_TOL: i128 = 16;

/// A local frame: `w` points along the normal it was built from, `v` is a
/// unit vector, and `u` is exactly their fixed-point cross product.
#[derive(Clone, Copy, PartialEq, Eq, Structural, Debug)]
pub struct Onb {
    pub u_axis: Vec3,
    pub v_axis: Vec3,
    pub w_axis: Vec3,
}

/// The frame invariant carried by every constructed basis.
pub open spec fn onb_wf(o: Onb) -> bool {
    vec_in_range(o.u_axis, 8 * FP_ONE as int)
        && vec_in_range(o.v_axis, 2 * FP_ONE as int)
        && vec_in_range(o.w_axis, 2 * FP_ONE as int)
        && unit_band(o.v_axis)
        && unit_band(o.w_axis)
        && absi(sdot(o.v_axis, o.w_axis)) <= ONB_ORTHO_TOL
        && (o.u_axis.x as int, o.u_axis.y as int, o.u_axis.z as int)
            == scross(o.w_axis, o.v_axis)
}

/// The frame transform of a local vector, one world component per axis.
pub open spec fn slocal(o: Onb, a: Vec3) -> (int, int, int) {
    (
        fxm(o.u_axis.x as int, a.x as int) + fxm(o.v_axis.x as int, a.y as int)
            + fxm(o.w_axis.x as int, a.z as int),
        fxm(o.u_axis.y as int, a.x as int) + fxm(o.v_axis.y as int, a.y as int)
            + fxm(o.w_axis.y as int, a.z as int),
        fxm(o.u_axis.z as int, a.x as int) + fxm(o.v_axis.z as int, a.y as int)
            + fxm(o.w_axis.z as int, a.z as int),
    )
}

impl Onb {
    /// First tangent axis.
    pub fn u(&self) -> (r: Vec3)
        ensures
            r == self.u_axis,
    {
        self.u_axis
    }

    /// Second tangent axis.
    pub fn v(&self) -> (r: Vec3)
        ensures
            r == self.v_axis,
    {
        self.v_axis
    }

    /// The normal axis.
    pub fn w(&self) -> (r: Vec3)
        ensures
            r == self.w_axis,
    {
        self.w_axis
    }

    /// Bring local coordinates into the world frame.
    pub fn local(&self, a: i128, b: i128, c: i128) -> (r: Vec3)
        requires
            onb_wf(*self),
            absi(a as int) <= 2 * FP_ONE as int,
            absi(b as int) <= 2 * FP_ONE as int,
            absi(c as int) <= 2 * FP_ONE as int,
        ensures
            (r.x as int, r.y as int, r.z as int) == slocal(*self, Vec3 { x: a, y: b, z: c }),
            vec_in_range(r, 48 * FP_ONE as int),
    {
        self.local_vec(&Vec3 { x: a, y: b, z: c })
    }

    /// Bring a local vector into the world frame.
    pub fn local_vec(&self, a: &Vec3) -> (r: Vec3)
        requires
            onb_wf(*self),
            vec_in_range(*a, 2 * FP_ONE as int),
        ensures
            (r.x as int, r.y as int, r.z as int) == slocal(*self, *a),
            vec_in_range(r, 48 * FP_ONE as int),
    {
        proof {
            lemma_local_bounds(*self, *a);
        }
        let p1 = self.u_axis.scale(a.x);
        let p2 = self.v_axis.scale(a.y);
        let p3 = self.w_axis.scale(a.z);
        let r = p1.plus(&p2).plus(&p3);
        r
    }

    /// Build a frame whose `w` axis is the normalized input: the helper
    /// axis is chosen away from `w`, so the cross product is provably long
    /// enough to normalize, exactly raw-orthogonal to `w`, and the frame's
    /// tangent stays perpendicular up to truncation.
    pub fn build_from_w(n: Vec3) -> (r: Onb)
        requires
            vec_in_range(n, COORD_LIM as int),
            slen2(n) >= UNIT_MIN_LEN2,
        ensures
            onb_wf(r),
            r.w_axis == sunit(n),
    {
        let w = n.to_unit();
        let wx_abs = if w.x < 0 { -w.x } else { w.x };
        let near = wx_abs > AXIS_NEAR;
        let a = if near {
            Vec3 { x: 0, y: FP_ONE, z: 0 }
        } else {
            Vec3 { x: FP_ONE, y: 0, z: 0 }
        };
        proof {
            lemma_cross_range(w, a, 2 * FP_ONE as int, FP_ONE as int);
        }
        let vr = w.cross(&a);
        proof {
            lemma_build_cross_long(w, vr, near);
            lemma_sunit_main(vr);
            lemma_unit_ortho(vr, w);
        }
        let v = vr.to_unit();
        proof {
            lemma_cross_range(w, v, 2 * FP_ONE as int, 2 * FP_ONE as int);
            assert((2 * FP_ONE as int) * (2 * FP_ONE as int) / (FP_ONE as int)
                == 4 * FP_ONE as int) by (nonlinear_arith);
        }
        let u = w.cross(&v);
        Onb { u_axis: u, v_axis: v, w_axis: w }
    }
}

/// The helper-axis cross product is exactly a pair of `w`'s components, so
/// it is raw-orthogonal to `w`, and the axis choice keeps it long.
proof fn lemma_build_cross_long(w: Vec3, vr: Vec3, near: bool)
    requires
        unit_band(w),
        vec_in_range(w, 2 * FP_ONE as int),
        near ==> absi(w.x as int) > AXIS_NEAR,
        !near ==> absi(w.x as int) <= AXIS_NEAR,
        near ==> (vr.x as int, vr.y as int, vr.z as int)
            == scross(w, Vec3 { x: 0i128, y: FP_ONE, z: 0i128 }),
        !near ==> (vr.x as int, vr.y as int, vr.z as int)
            == scross(w, Vec3 { x: FP_ONE, y: 0i128, z: 0i128 }),
    ensures
        vec_in_range(vr, 72057594037927936),
        slen2(vr) >= UNIT_SAFE_LEN2,
        vr.x * w.x + vr.y * w.y + vr.z * w.z == 0,
{
    let s_ = FP_ONE as int;
    crate::fx::lemma_fxm_unit_scale(w.x as int);
    crate::fx::lemma_fxm_unit_scale(w.y as int);
    crate::fx::lemma_fxm_unit_scale(w.z as int);
    crate::fx::lemma_fxm_zero(w.x as int);
    crate::fx::lemma_fxm_zero(w.y as int);
    crate::fx::lemma_fxm_zero(w.z as int);
    lemma_slen2_nonneg(w);
    lemma_slen2_nonneg(vr);
    if near {
        // vr == (-w.z, 0, w.x)
        assert(vr.x == -w.z && vr.y == 0 && vr.z == w.x);
        assert(vr.x * w.x + vr.y * w.y + vr.z * w.z == 0) by (nonlinear_arith)
            requires vr.x == -w.z, vr.y == 0, vr.z == w.x
        ;
        // The x component alone is long: |w.x| > 0.9.
        crate::fx::lemma_tdiv_mul_close(w.x as int * w.x, s_);
        assert(w.x as int * w.x >= 14941862704343301489) by (nonlinear_arith)
            requires absi(w.x as int) > 3865470566
        ;
        assert(fxm(w.x as int, w.x as int) >= 3478923508) by (nonlinear_arith)
            requires
                fxm(w.x as int, w.x as int) * s_ > w.x as int * w.x - s_,
                w.x as int * w.x >= 14941862704343301489,
                s_ == 4294967296,
        ;
        assert(slen2(vr) >= UNIT_SAFE_LEN2) by {
            assert(fxm(vr.x as int, vr.x as int) >= 0 && fxm(vr.y as int, vr.y as int) >= 0);
            assert(fxm(vr.z as int, vr.z as int) == fxm(w.x as int, w.x as int));
        }
    } else {
        // vr == (0, w.z, -w.y)
        assert(vr.x == 0 && vr.y == w.z && vr.z == -w.y);
        assert(vr.x * w.x + vr.y * w.y + vr.z * w.z == 0) by (nonlinear_arith)
            requires vr.x == 0, vr.y == w.z, vr.z == -w.y
        ;
        // The two live components carry all the unit length that the small
        // x component does not.
        crate::fx::lemma_tdiv_mul_close(w.x as int * w.x, s_);
        assert(w.x as int * w.x >= 0) by (nonlinear_arith);
        assert(w.x as int * w.x <= 14941862696612360356) by (nonlinear_arith)
            requires absi(w.x as int) <= 3865470566
        ;
        assert(fxm(w.x as int, w.x as int) <= 3478923509) by (nonlinear_arith)
            requires
                fxm(w.x as int, w.x as int) * s_ <= w.x as int * w.x,
                w.x as int * w.x <= 14941862696612360356,
                fxm(w.x as int, w.x as int) >= 0,
                s_ == 4294967296,
        ;
        assert((-(w.y as int)) * (-(w.y as int)) == w.y as int * w.y) by (nonlinear_arith);
        assert(fxm(vr.z as int, vr.z as int) == fxm(w.y as int, w.y as int));
        assert(slen2(vr) == fxm(w.z as int, w.z as int) + fxm(w.y as int, w.y as int)) by {
            crate::fx::lemma_fxm_zero(0);
        }
        assert(slen2(vr) >= UNIT_SAFE_LEN2) by {
            assert(slen2(w) >= FP_ONE - crate::vec3::UNIT_TOL);
            assert(fxm(w.y as int, w.y as int) + fxm(w.z as int, w.z as int)
                >= FP_ONE - crate::vec3::UNIT_TOL - 3478923509);
        }
    }
}

/// Component bound for a fixed-point cross product of bounded vectors.
pub proof fn lemma_cross_range(a: Vec3, b: Vec3, la: int, lb: int)
    requires
        vec_in_range(a, la),
        vec_in_range(b, lb),
        0 <= la,
        0 <= lb,
    ensures
        absi(scross(a, b).0) <= 2 * ((la * lb) / (FP_ONE as int)),
        absi(scross(a, b).1) <= 2 * ((la * lb) / (FP_ONE as int)),
        absi(scross(a, b).2) <= 2 * ((la * lb) / (FP_ONE as int)),
{
    lemma_fxm_tight(a.y as int, b.z as int, la, lb);
    lemma_fxm_tight(a.z as int, b.y as int, la, lb);
    lemma_fxm_tight(a.z as int, b.x as int, la, lb);
    lemma_fxm_tight(a.x as int, b.z as int, la, lb);
    lemma_fxm_tight(a.x as int, b.y as int, la, lb);
    lemma_fxm_tight(a.y as int, b.x as int, la, lb);
}

proof fn lemma_local_bounds(o: Onb, a: Vec3)
    requires
        onb_wf(o),
        vec_in_range(a, 2 * FP_ONE as int),
    ensures
        absi(fxm(o.u_axis.x as int, a.x as int)) <= 16 * FP_ONE as int,
        absi(fxm(o.u_axis.y as int, a.x as int)) <= 16 * FP_ONE as int,
        absi(fxm(o.u_axis.z as int, a.x as int)) <= 16 * FP_ONE as int,
        absi(fxm(o.v_axis.x as int, a.y as int)) <= 4 * FP_ONE as int,
        absi(fxm(o.v_axis.y as int, a.y as int)) <= 4 * FP_ONE as int,
        absi(fxm(o.v_axis.z as int, a.y as int)) <= 4 * FP_ONE as int,
        absi(fxm(o.w_axis.x as int, a.z as int)) <= 4 * FP_ONE as int,
        absi(fxm(o.w_axis.y as int, a.z as int)) <= 4 * FP_ONE as int,
        absi(fxm(o.w_axis.z as int, a.z as int)) <= 4 * FP_ONE as int,
{
    lemma_fxm_tight(o.u_axis.x as int, a.x as int, 8 * FP_ONE as int, 2 * FP_ONE as int);
    lemma_fxm_tight(o.u_axis.y as int, a.x as int, 8 * FP_ONE as int, 2 * FP_ONE as int);
    lemma_fxm_tight(o.u_axis.z as int, a.x as int, 8 * FP_ONE as int, 2 * FP_ONE as int);
    lemma_fxm_tight(o.v_axis.x as int, a.y as int, 2 * FP_ONE as int, 2 * FP_ONE as int);
    lemma_fxm_tight(o.v_axis.y as int, a.y as int, 2 * FP_ONE as int, 2 * FP_ONE as int);
    lemma_fxm_tight(o.v_axis.z as int, a.y as int, 2 * FP_ONE as int, 2 * FP_ONE as int);
    lemma_fxm_tight(o.w_axis.x as int, a.z as int, 2 * FP_ONE as int, 2 * FP_ONE as int);
    lemma_fxm_tight(o.w_axis.y as int, a.z as int, 2 * FP_ONE as int, 2 * FP_ONE as int);
    lemma_fxm_tight(o.w_axis.z as int, a.z as int, 2 * FP_ONE as int, 2 * FP_ONE as int);
    assert((8 * FP_ONE as int) * (2 * FP_ONE as int) / (FP_ONE as int) == 16 * FP_ONE as int)
        by (nonlinear_arith);
    assert((2 * FP_ONE as int) * (2 * FP_ONE as int) / (FP_ONE as int) == 4 * FP_ONE as int)
        by (nonlinear_arith);
}

} // verus!
