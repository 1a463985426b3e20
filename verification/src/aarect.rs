//! Axis-aligned rectangles.
//!
//! Each rectangle lies in a plane of one fixed axis. The crossing
//! parameter is solved exactly in fixed point; a zero direction component
//! along the fixed axis means the ray runs parallel to the plane and
//! misses. The XZ rectangle doubles as an area-light target: it has a
//! solid-angle density and a uniform point sampler.

use vstd::prelude::*;
use crate::fx::{
    absi, fxm, fxd, tdiv, fx_mul, fx_div, lemma_tdiv_ratio_le, lemma_tdiv_abs_le,
    lemma_fxm_one, FP_ONE, FX_LIM,
};
use crate::vec3::{
    Vec3, Point3, vec_in_range, sdot, slen2, slen, lemma_fxm_tight, lemma_slen2_nonneg,
    UNIT_MIN_LEN2,
};
use crate::ray::{Ray, sat, geo_ray, GEO_LIM};
use crate::aabb::{
    AABB, contains_at, box_in_range, axis_at,
    lemma_position_in_padded_axis, lemma_plane_axis, BOX_PAD,
};
use crate::hittable::{HitRecord, SpecHit, hit_matches};
use crate::material::{Material, material_wf};
use crate::rng::random_range_fx;

verus! {

/// A rectangle in a plane of constant `z == k`.
pub struct XYRect {
    pub x0: i128,
    pub x1: i128,
    pub y0: i128,
    pub y1: i128,
    pub k: i128,
    pub mp: Material,
}

/// A rectangle in a plane of constant `y == k`.
pub struct XZRect {
    pub x0: i128,
    pub x1: i128,
    pub z0: i128,
    pub z1: i128,
    pub k: i128,
    pub mp: Material,
}

/// A rectangle in a plane of constant `x == k`.
pub struct YZRect {
    pub y0: i128,
    pub y1: i128,
    pub z0: i128,
    pub z1: i128,
    pub k: i128,
    pub mp: Material,
}

pub open spec fn xyrect_wf(rc: XYRect) -> bool {
    absi(rc.x0 as int) <= GEO_LIM && absi(rc.x1 as int) <= GEO_LIM
        && absi(rc.y0 as int) <= GEO_LIM && absi(rc.y1 as int) <= GEO_LIM
        && absi(rc.k as int) <= GEO_LIM
        && rc.x0 < rc.x1 && rc.y0 < rc.y1
        && material_wf(rc.mp)
}

pub open spec fn xzrect_wf(rc: XZRect) -> bool {
    absi(rc.x0 as int) <= GEO_LIM && absi(rc.x1 as int) <= GEO_LIM
        && absi(rc.z0 as int) <= GEO_LIM && absi(rc.z1 as int) <= GEO_LIM
        && absi(rc.k as int) <= GEO_LIM
        && rc.x0 < rc.x1 && rc.z0 < rc.z1
        && material_wf(rc.mp)
}

pub open spec fn yzrect_wf(rc: YZRect) -> bool {
    absi(rc.y0 as int) <= GEO_LIM && absi(rc.y1 as int) <= GEO_LIM
        && absi(rc.z0 as int) <= GEO_LIM && absi(rc.z1 as int) <= GEO_LIM
        && absi(rc.k as int) <= GEO_LIM
        && rc.y0 < rc.y1 && rc.z0 < rc.z1
        && material_wf(rc.mp)
}

/// The padded box around an XY rectangle.
pub open spec fn sbbox_xyrect(rc: XYRect) -> AABB {
    AABB {
        min: Vec3 { x: (rc.x0 - BOX_PAD) as i128, y: (rc.y0 - BOX_PAD) as i128, z: (rc.k - BOX_PAD) as i128 },
        max: Vec3 { x: (rc.x1 + BOX_PAD) as i128, y: (rc.y1 + BOX_PAD) as i128, z: (rc.k + BOX_PAD) as i128 },
    }
}

pub open spec fn sbbox_xzrect(rc: XZRect) -> AABB {
    AABB {
        min: Vec3 { x: (rc.x0 - BOX_PAD) as i128, y: (rc.k - BOX_PAD) as i128, z: (rc.z0 - BOX_PAD) as i128 },
        max: Vec3 { x: (rc.x1 + BOX_PAD) as i128, y: (rc.k + BOX_PAD) as i128, z: (rc.z1 + BOX_PAD) as i128 },
    }
}

pub open spec fn sbbox_yzrect(rc: YZRect) -> AABB {
    AABB {
        min: Vec3 { x: (rc.k - BOX_PAD) as i128, y: (rc.y0 - BOX_PAD) as i128, z: (rc.z0 - BOX_PAD) as i128 },
        max: Vec3 { x: (rc.k + BOX_PAD) as i128, y: (rc.y1 + BOX_PAD) as i128, z: (rc.z1 + BOX_PAD) as i128 },
    }
}

/// What `XYRect::hit` returns.
pub open spec fn sxyrect_hit(rc: XYRect, r: Ray, t_min: int, t_max: int) -> Option<SpecHit> {
    if r.dir.z == 0 {
        None
    } else {
        let t = fxd(rc.k - r.orig.z, r.dir.z as int);
        if !(t_min <= t <= t_max && -FX_LIM <= t <= FX_LIM) {
            None
        } else {
            let px = sat(r, t).0;
            let py = sat(r, t).1;
            let pz = sat(r, t).2;
            if !(rc.x0 <= px <= rc.x1 && rc.y0 <= py <= rc.y1) {
                None
            } else {
                let on = Vec3 { x: 0i128, y: 0i128, z: FP_ONE };
                let ff = sdot(r.dir, on) < 0;
                Some(SpecHit {
                    p: Vec3 { x: px as i128, y: py as i128, z: pz as i128 },
                    normal: if ff { on } else { Vec3 { x: 0i128, y: 0i128, z: (-FP_ONE) as i128 } },
                    t: t as i128,
                    u: fxd(px - rc.x0, rc.x1 - rc.x0) as i128,
                    v: fxd(py - rc.y0, rc.y1 - rc.y0) as i128,
                    front_face: ff,
                    mat: rc.mp,
                })
            }
        }
    }
}

/// What `XZRect::hit` returns.
pub open spec fn sxzrect_hit(rc: XZRect, r: Ray, t_min: int, t_max: int) -> Option<SpecHit> {
    if r.dir.y == 0 {
        None
    } else {
        let t = fxd(rc.k - r.orig.y, r.dir.y as int);
        if !(t_min <= t <= t_max && -FX_LIM <= t <= FX_LIM) {
            None
        } else {
            let px = sat(r, t).0;
            let py = sat(r, t).1;
            let pz = sat(r, t).2;
            if !(rc.x0 <= px <= rc.x1 && rc.z0 <= pz <= rc.z1) {
                None
            } else {
                let on = Vec3 { x: 0i128, y: FP_ONE, z: 0i128 };
                let ff = sdot(r.dir, on) < 0;
                Some(SpecHit {
                    p: Vec3 { x: px as i128, y: py as i128, z: pz as i128 },
                    normal: if ff { on } else { Vec3 { x: 0i128, y: (-FP_ONE) as i128, z: 0i128 } },
                    t: t as i128,
                    u: fxd(px - rc.x0, rc.x1 - rc.x0) as i128,
                    v: fxd(pz - rc.z0, rc.z1 - rc.z0) as i128,
                    front_face: ff,
                    mat: rc.mp,
                })
            }
        }
    }
}

/// What `YZRect::hit` returns.
pub open spec fn syzrect_hit(rc: YZRect, r: Ray, t_min: int, t_max: int) -> Option<SpecHit> {
    if r.dir.x == 0 {
        None
    } else {
        let t = fxd(rc.k - r.orig.x, r.dir.x as int);
        if !(t_min <= t <= t_max && -FX_LIM <= t <= FX_LIM) {
            None
        } else {
            let px = sat(r, t).0;
            let py = sat(r, t).1;
            let pz = sat(r, t).2;
            if !(rc.y0 <= py <= rc.y1 && rc.z0 <= pz <= rc.z1) {
                None
            } else {
                let on = Vec3 { x: FP_ONE, y: 0i128, z: 0i128 };
                let ff = sdot(r.dir, on) < 0;
                Some(SpecHit {
                    p: Vec3 { x: px as i128, y: py as i128, z: pz as i128 },
                    normal: if ff { on } else { Vec3 { x: (-FP_ONE) as i128, y: 0i128, z: 0i128 } },
                    t: t as i128,
                    u: fxd(py - rc.y0, rc.y1 - rc.y0) as i128,
                    v: fxd(pz - rc.z0, rc.z1 - rc.z0) as i128,
                    front_face: ff,
                    mat: rc.mp,
                })
            }
        }
    }
}

/// The in-rectangle fraction of a coordinate, used as a surface coordinate.
fn frac_in(lo: i128, hi: i128, p: i128) -> (r: i128)
    requires
        lo < hi,
        lo <= p <= hi,
        absi(lo as int) <= 2 * GEO_LIM,
        absi(hi as int) <= 2 * GEO_LIM,
    ensures
        r == fxd(p - lo, hi - lo),
        0 <= r <= FP_ONE,
{
    proof {
        assert((p - lo) * FP_ONE <= (hi - lo) * FP_ONE && 0 <= (p - lo) * FP_ONE)
            by (nonlinear_arith)
            requires lo <= p <= hi, FP_ONE > 0
        ;
        lemma_tdiv_ratio_le((p - lo) * FP_ONE, (hi - lo) as int, FP_ONE as int);
        lemma_tdiv_abs_le((p - lo) * FP_ONE, (hi - lo) as int);
    }
    fx_div(p - lo, hi - lo)
}

impl XYRect {
    /// Build an XY rectangle.
    pub fn new(x0: i128, x1: i128, y0: i128, y1: i128, k: i128, mp: Material) -> (r: XYRect)
        ensures
            r.x0 == x0 && r.x1 == x1 && r.y0 == y0 && r.y1 == y1 && r.k == k && r.mp == mp,
    {
        XYRect { x0, x1, y0, y1, k, mp }
    }

    /// Intersect a ray with this rectangle.
    pub fn hit<'a>(&'a self, r: &Ray, t_min: i128, t_max: i128) -> (res: Option<HitRecord<'a>>)
        requires
            xyrect_wf(*self),
            geo_ray(*r),
        ensures
            res is Some <==> sxyrect_hit(*self, *r, t_min as int, t_max as int) is Some,
            res is Some ==> hit_matches(res.unwrap(), sxyrect_hit(*self, *r, t_min as int, t_max as int).unwrap()),
    {
        if r.dir.z == 0 {
            return None;
        }
        let t = fx_div(self.k - r.orig.z, r.dir.z);
        if !(t_min <= t && t <= t_max && -FX_LIM <= t && t <= FX_LIM) {
            return None;
        }
        let p = r.at(t);
        if !(self.x0 <= p.x && p.x <= self.x1 && self.y0 <= p.y && p.y <= self.y1) {
            return None;
        }
        let u = frac_in(self.x0, self.x1, p.x);
        let v = frac_in(self.y0, self.y1, p.y);
        let on = Vec3 { x: 0, y: 0, z: FP_ONE };
        let mut rec = HitRecord::new(p, on, t, u, v, true, &self.mp);
        rec.set_face_normal(*r, on);
        Some(rec)
    }

    /// The padded bounding box.
    pub fn bounding_box(&self) -> (res: AABB)
        requires
            xyrect_wf(*self),
        ensures
            res == sbbox_xyrect(*self),
            box_in_range(res),
    {
        AABB {
            min: Vec3 { x: self.x0 - BOX_PAD, y: self.y0 - BOX_PAD, z: self.k - BOX_PAD },
            max: Vec3 { x: self.x1 + BOX_PAD, y: self.y1 + BOX_PAD, z: self.k + BOX_PAD },
        }
    }
}

impl XZRect {
    /// Build an XZ rectangle.
    pub fn new(x0: i128, x1: i128, z0: i128, z1: i128, k: i128, mp: Material) -> (r: XZRect)
        ensures
            r.x0 == x0 && r.x1 == x1 && r.z0 == z0 && r.z1 == z1 && r.k == k && r.mp == mp,
    {
        XZRect { x0, x1, z0, z1, k, mp }
    }

    /// Intersect a ray with this rectangle.
    pub fn hit<'a>(&'a self, r: &Ray, t_min: i128, t_max: i128) -> (res: Option<HitRecord<'a>>)
        requires
            xzrect_wf(*self),
            geo_ray(*r),
        ensures
            res is Some <==> sxzrect_hit(*self, *r, t_min as int, t_max as int) is Some,
            res is Some ==> hit_matches(res.unwrap(), sxzrect_hit(*self, *r, t_min as int, t_max as int).unwrap()),
    {
        if r.dir.y == 0 {
            return None;
        }
        let t = fx_div(self.k - r.orig.y, r.dir.y);
        if !(t_min <= t && t <= t_max && -FX_LIM <= t && t <= FX_LIM) {
            return None;
        }
        let p = r.at(t);
        if !(self.x0 <= p.x && p.x <= self.x1 && self.z0 <= p.z && p.z <= self.z1) {
            return None;
        }
        let u = frac_in(self.x0, self.x1, p.x);
        let v = frac_in(self.z0, self.z1, p.z);
        let on = Vec3 { x: 0, y: FP_ONE, z: 0 };
        let mut rec = HitRecord::new(p, on, t, u, v, true, &self.mp);
        rec.set_face_normal(*r, on);
        Some(rec)
    }

    /// The padded bounding box.
    pub fn bounding_box(&self) -> (res: AABB)
        requires
            xzrect_wf(*self),
        ensures
            res == sbbox_xzrect(*self),
            box_in_range(res),
    {
        AABB {
            min: Vec3 { x: self.x0 - BOX_PAD, y: self.k - BOX_PAD, z: self.z0 - BOX_PAD },
            max: Vec3 { x: self.x1 + BOX_PAD, y: self.k + BOX_PAD, z: self.z1 + BOX_PAD },
        }
    }

    /// A uniform grid point on the rectangle, minus the origin: a sample
    /// direction toward the light.
    pub fn random(&self, origin: &Point3) -> (res: Vec3)
        requires
            xzrect_wf(*self),
            vec_in_range(*origin, 4 * GEO_LIM as int),
        ensures
            self.x0 <= res.x + origin.x < self.x1,
            res.y + origin.y == self.k,
            self.z0 <= res.z + origin.z < self.z1,
            vec_in_range(res, 6 * GEO_LIM as int),
    {
        let rx = random_range_fx(self.x0, self.x1);
        let rz = random_range_fx(self.z0, self.z1);
        Vec3 { x: rx - origin.x, y: self.k - origin.y, z: rz - origin.z }
    }
}

impl YZRect {
    /// Build a YZ rectangle.
    pub fn new(y0: i128, y1: i128, z0: i128, z1: i128, k: i128, mp: Material) -> (r: YZRect)
        ensures
            r.y0 == y0 && r.y1 == y1 && r.z0 == z0 && r.z1 == z1 && r.k == k && r.mp == mp,
    {
        YZRect { y0, y1, z0, z1, k, mp }
    }

    /// Intersect a ray with this rectangle.
    pub fn hit<'a>(&'a self, r: &Ray, t_min: i128, t_max: i128) -> (res: Option<HitRecord<'a>>)
        requires
            yzrect_wf(*self),
            geo_ray(*r),
        ensures
            res is Some <==> syzrect_hit(*self, *r, t_min as int, t_max as int) is Some,
            res is Some ==> hit_matches(res.unwrap(), syzrect_hit(*self, *r, t_min as int, t_max as int).unwrap()),
    {
        if r.dir.x == 0 {
            return None;
        }
        let t = fx_div(self.k - r.orig.x, r.dir.x);
        if !(t_min <= t && t <= t_max && -FX_LIM <= t && t <= FX_LIM) {
            return None;
        }
        let p = r.at(t);
        if !(self.y0 <= p.y && p.y <= self.y1 && self.z0 <= p.z && p.z <= self.z1) {
            return None;
        }
        let u = frac_in(self.y0, self.y1, p.y);
        let v = frac_in(self.z0, self.z1, p.z);
        let on = Vec3 { x: FP_ONE, y: 0, z: 0 };
        let mut rec = HitRecord::new(p, on, t, u, v, true, &self.mp);
        rec.set_face_normal(*r, on);
        Some(rec)
    }

    /// The padded bounding box.
    pub fn bounding_box(&self) -> (res: AABB)
        requires
            yzrect_wf(*self),
        ensures
            res == sbbox_yzrect(*self),
            box_in_range(res),
    {
        AABB {
            min: Vec3 { x: self.k - BOX_PAD, y: self.y0 - BOX_PAD, z: self.z0 - BOX_PAD },
            max: Vec3 { x: self.k + BOX_PAD, y: self.y1 + BOX_PAD, z: self.z1 + BOX_PAD },
        }
    }
}

/// Any hit the XY mirror reports is inside the window and inside the
/// padded box.
pub proof fn lemma_sxyrect_hit_props(rc: XYRect, r: Ray, t_min: int, t_max: int)
    requires
        xyrect_wf(rc),
        geo_ray(r),
        sxyrect_hit(rc, r, t_min, t_max) is Some,
    ensures
        ({
            let h = sxyrect_hit(rc, r, t_min, t_max).unwrap();
            t_min <= h.t <= t_max
                && contains_at(sbbox_xyrect(rc), r, h.t as int)
                && h.mat == rc.mp
        }),
{
    let t = fxd(rc.k - r.orig.z, r.dir.z as int);
    let h = sxyrect_hit(rc, r, t_min, t_max).unwrap();
    lemma_position_in_padded_axis(rc.x0 as int, rc.x1 as int, r.orig.x as int, r.dir.x as int, t);
    lemma_position_in_padded_axis(rc.y0 as int, rc.y1 as int, r.orig.y as int, r.dir.y as int, t);
    assert(absi(r.dir.z as int) < BOX_PAD * FP_ONE);
    lemma_plane_axis(rc.k as int, r.orig.z as int, r.dir.z as int, t);
}

/// Any hit the XZ mirror reports is inside the window and inside the
/// padded box.
pub proof fn lemma_sxzrect_hit_props(rc: XZRect, r: Ray, t_min: int, t_max: int)
    requires
        xzrect_wf(rc),
        geo_ray(r),
        sxzrect_hit(rc, r, t_min, t_max) is Some,
    ensures
        ({
            let h = sxzrect_hit(rc, r, t_min, t_max).unwrap();
            t_min <= h.t <= t_max
                && contains_at(sbbox_xzrect(rc), r, h.t as int)
                && h.mat == rc.mp
        }),
{
    let t = fxd(rc.k - r.orig.y, r.dir.y as int);
    lemma_position_in_padded_axis(rc.x0 as int, rc.x1 as int, r.orig.x as int, r.dir.x as int, t);
    lemma_position_in_padded_axis(rc.z0 as int, rc.z1 as int, r.orig.z as int, r.dir.z as int, t);
    assert(absi(r.dir.y as int) < BOX_PAD * FP_ONE);
    lemma_plane_axis(rc.k as int, r.orig.y as int, r.dir.y as int, t);
}

/// Any hit the YZ mirror reports is inside the window and inside the
/// padded box.
pub proof fn lemma_syzrect_hit_props(rc: YZRect, r: Ray, t_min: int, t_max: int)
    requires
        yzrect_wf(rc),
        geo_ray(r),
        syzrect_hit(rc, r, t_min, t_max) is Some,
    ensures
        ({
            let h = syzrect_hit(rc, r, t_min, t_max).unwrap();
            t_min <= h.t <= t_max
                && contains_at(sbbox_yzrect(rc), r, h.t as int)
                && h.mat == rc.mp
        }),
{
    let t = fxd(rc.k - r.orig.x, r.dir.x as int);
    lemma_position_in_padded_axis(rc.y0 as int, rc.y1 as int, r.orig.y as int, r.dir.y as int, t);
    lemma_position_in_padded_axis(rc.z0 as int, rc.z1 as int, r.orig.z as int, r.dir.z as int, t);
    assert(absi(r.dir.x as int) < BOX_PAD * FP_ONE);
    lemma_plane_axis(rc.k as int, r.orig.x as int, r.dir.x as int, t);
}

} // verus!
