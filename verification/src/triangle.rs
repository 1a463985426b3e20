//! Triangles, tested by plane crossing and three edge-sign checks.

use vstd::prelude::*;
use crate::fx::{absi, fxm, fxd, tdiv, fx_mul, fx_div, FP_ONE, FX_LIM};
use crate::vec3::{
    Vec3, Point3, vec_in_range, sdot, scross, slen2, sunit, sunit_axis, unit_band,
    lemma_fxm_tight, UNIT_MIN_LEN2,
};
use crate::ray::{Ray, sat, geo_ray, GEO_LIM};
use crate::aabb::{AABB, contains_at, contains_at_exec, box_in_range, BOX_PAD};
use crate::hittable::{HitRecord, SpecHit, hit_matches};
use crate::material::{Material, material_wf};

verus! {

/// A triangle on three corners.
pub struct Triangle {
    pub a: Point3,
    pub b: Point3,
    pub c: Point3,
    pub mp: Material,
}

pub open spec fn triangle_wf(t: Triangle) -> bool {
    vec_in_range(t.a, GEO_LIM as int)
        && vec_in_range(t.b, GEO_LIM as int)
        && vec_in_range(t.c, GEO_LIM as int)
        && material_wf(t.mp)
}

/// The difference of two points, as a spec vector.
pub open spec fn svsub(p: Point3, q: Point3) -> Vec3 {
    Vec3 { x: (p.x - q.x) as i128, y: (p.y - q.y) as i128, z: (p.z - q.z) as i128 }
}

/// A spec vector from a cross-product triple.
pub open spec fn vof(t: (int, int, int)) -> Vec3 {
    Vec3 { x: t.0 as i128, y: t.1 as i128, z: t.2 as i128 }
}

/// The triangle's unit normal: the normalized edge cross product, with the
/// dominant-axis fallback for a degenerate triangle.
pub open spec fn snormal(t: Triangle) -> Vec3 {
    let cr = vof(scross(svsub(t.b, t.a), svsub(t.c, t.a)));
    if slen2(cr) >= UNIT_MIN_LEN2 { sunit(cr) } else { sunit_axis(cr) }
}

/// The three same-side sign checks that decide interior membership.
pub open spec fn sinside(t: Triangle, p: Point3) -> bool {
    sdot(vof(scross(svsub(t.c, t.a), svsub(p, t.a))), vof(scross(svsub(t.c, t.a), svsub(t.b, t.a)))) >= 0
        && sdot(vof(scross(svsub(t.a, t.b), svsub(p, t.b))), vof(scross(svsub(t.a, t.b), svsub(t.c, t.b)))) >= 0
        && sdot(vof(scross(svsub(t.b, t.c), svsub(p, t.c))), vof(scross(svsub(t.b, t.c), svsub(t.a, t.c)))) >= 0
}

/// The triangle's padded bounding box.
pub open spec fn sbbox_triangle(t: Triangle) -> AABB {
    AABB {
        min: Vec3 {
            x: (smin3(t.a.x as int, t.b.x as int, t.c.x as int) - BOX_PAD) as i128,
            y: (smin3(t.a.y as int, t.b.y as int, t.c.y as int) - BOX_PAD) as i128,
            z: (smin3(t.a.z as int, t.b.z as int, t.c.z as int) - BOX_PAD) as i128,
        },
        max: Vec3 {
            x: (smax3(t.a.x as int, t.b.x as int, t.c.x as int) + BOX_PAD) as i128,
            y: (smax3(t.a.y as int, t.b.y as int, t.c.y as int) + BOX_PAD) as i128,
            z: (smax3(t.a.z as int, t.b.z as int, t.c.z as int) + BOX_PAD) as i128,
        },
    }
}

pub open spec fn smin3(a: int, b: int, c: int) -> int {
    if a <= b && a <= c { a } else if b <= c { b } else { c }
}

pub open spec fn smax3(a: int, b: int, c: int) -> int {
    if a >= b && a >= c { a } else if b >= c { b } else { c }
}

/// The barycentric coordinates solved from the x and y rows, zero when the
/// system degenerates.
pub open spec fn sbary(t: Triangle, p: Point3) -> (int, int) {
    let a1 = t.a.x - t.b.x;
    let b1 = t.a.x - t.c.x;
    let c1 = t.a.x - p.x;
    let a2 = t.a.y - t.b.y;
    let b2 = t.a.y - t.c.y;
    let c2 = t.a.y - p.y;
    let den = fxm(a1, b2) - fxm(b1, a2);
    if den == 0 {
        (0, 0)
    } else {
        (fxd(fxm(c1, b2) - fxm(b1, c2), den), fxd(fxm(a1, c2) - fxm(a2, c1), den))
    }
}

/// What the triangle's hit test returns.
pub open spec fn striangle_hit(t: Triangle, r: Ray, t_min: int, t_max: int) -> Option<SpecHit> {
    let n = snormal(t);
    let td = sdot(r.dir, n);
    if td == 0 {
        None
    } else {
        let tt = fxd(sdot(svsub(t.a, r.orig), n), td);
        if !(t_min <= tt <= t_max && -FX_LIM <= tt <= FX_LIM) {
            None
        } else if !contains_at(sbbox_triangle(t), r, tt) {
            None
        } else {
            let p = Vec3 {
                x: sat(r, tt).0 as i128,
                y: sat(r, tt).1 as i128,
                z: sat(r, tt).2 as i128,
            };
            if !sinside(t, p) {
                None
            } else {
                let ff = sdot(r.dir, n) < 0;
                let n2 = if ff {
                    n
                } else {
                    Vec3 { x: (-n.x) as i128, y: (-n.y) as i128, z: (-n.z) as i128 }
                };
                Some(SpecHit {
                    p,
                    normal: n2,
                    t: tt as i128,
                    u: sbary(t, p).0 as i128,
                    v: sbary(t, p).1 as i128,
                    front_face: ff,
                    mat: t.mp,
                })
            }
        }
    }
}

impl Triangle {
    /// Build a triangle.
    pub fn new(x: Point3, y: Point3, z: Point3, mp: Material) -> (r: Triangle)
        ensures
            r.a == x && r.b == y && r.c == z && r.mp == mp,
    {
        Triangle { a: x, b: y, c: z, mp }
    }

    /// The unit normal of the triangle's plane.
    pub fn get_normal(&self) -> (r: Vec3)
        requires
            triangle_wf(*self),
        ensures
            r == snormal(*self),
            unit_band(r),
            vec_in_range(r, 2 * FP_ONE as int),
    {
        let e1 = self.b.minus(&self.a);
        let e2 = self.c.minus(&self.a);
        proof {
            crate::onb::lemma_cross_range(e1, e2, 2 * GEO_LIM as int, 2 * GEO_LIM as int);
            assert((2 * GEO_LIM as int) * (2 * GEO_LIM as int) / (FP_ONE as int)
                == 18014398509481984) by (nonlinear_arith);
        }
        let cr = e1.cross(&e2);
        let l2 = cr.len_sqr();
        if l2 >= UNIT_MIN_LEN2 {
            cr.to_unit()
        } else {
            proof {
                crate::vec3::lemma_axis_unit_band(cr);
            }
            cr.dominant_axis_unit()
        }
    }

    /// The three edge-sign checks deciding whether a plane point lies
    /// inside the triangle.
    pub fn inside(&self, p: Point3) -> (r: bool)
        requires
            triangle_wf(*self),
            vec_in_range(p, 4 * GEO_LIM as int),
        ensures
            r == sinside(*self, p),
    {
        proof {
            lemma_edge_ranges(*self, p);
            crate::onb::lemma_cross_range(svsub(self.c, self.a), svsub(p, self.a), 2 * GEO_LIM as int, 5 * GEO_LIM as int);
            crate::onb::lemma_cross_range(svsub(self.c, self.a), svsub(self.b, self.a), 2 * GEO_LIM as int, 2 * GEO_LIM as int);
            crate::onb::lemma_cross_range(svsub(self.a, self.b), svsub(p, self.b), 2 * GEO_LIM as int, 5 * GEO_LIM as int);
            crate::onb::lemma_cross_range(svsub(self.a, self.b), svsub(self.c, self.b), 2 * GEO_LIM as int, 2 * GEO_LIM as int);
            crate::onb::lemma_cross_range(svsub(self.b, self.c), svsub(p, self.c), 2 * GEO_LIM as int, 5 * GEO_LIM as int);
            crate::onb::lemma_cross_range(svsub(self.b, self.c), svsub(self.a, self.c), 2 * GEO_LIM as int, 2 * GEO_LIM as int);
            assert((2 * GEO_LIM as int) * (5 * GEO_LIM as int) / (FP_ONE as int)
                == 45035996273704960) by (nonlinear_arith);
            assert((2 * GEO_LIM as int) * (2 * GEO_LIM as int) / (FP_ONE as int)
                == 18014398509481984) by (nonlinear_arith);
        }
        let ca = self.c.minus(&self.a);
        let pa = p.minus(&self.a);
        let ba = self.b.minus(&self.a);
        let ab = self.a.minus(&self.b);
        let pb = p.minus(&self.b);
        let cb = self.c.minus(&self.b);
        let bc = self.b.minus(&self.c);
        let pc = p.minus(&self.c);
        let ac = self.a.minus(&self.c);
        let t1 = ca.cross(&pa).dot(&ca.cross(&ba));
        let t2 = ab.cross(&pb).dot(&ab.cross(&cb));
        let t3 = bc.cross(&pc).dot(&bc.cross(&ac));
        t1 >= 0 && t2 >= 0 && t3 >= 0
    }

    /// Intersect a ray with the triangle.
    #[verifier::rlimit(100)]
    pub fn hit<'a>(&'a self, r: &Ray, t_min: i128, t_max: i128) -> (res: Option<HitRecord<'a>>)
        requires
            triangle_wf(*self),
            geo_ray(*r),
        ensures
            res is Some <==> striangle_hit(*self, *r, t_min as int, t_max as int) is Some,
            res is Some ==> hit_matches(res.unwrap(), striangle_hit(*self, *r, t_min as int, t_max as int).unwrap()),
    {
        let n = self.get_normal();
        proof {
            crate::pdf::lemma_unitish_dot_wide(r.dir, n);
        }
        let td = r.dir.dot(&n);
        if td == 0 {
            return None;
        }
        let ao = self.a.minus(&r.orig);
        proof {
            lemma_fxm_tight(ao.x as int, n.x as int, 7 * GEO_LIM as int, 2 * FP_ONE as int);
            lemma_fxm_tight(ao.y as int, n.y as int, 7 * GEO_LIM as int, 2 * FP_ONE as int);
            lemma_fxm_tight(ao.z as int, n.z as int, 7 * GEO_LIM as int, 2 * FP_ONE as int);
            assert((7 * GEO_LIM as int) * (2 * FP_ONE as int) / (FP_ONE as int)
                == 14 * GEO_LIM as int) by (nonlinear_arith);
        }
        let num = ao.dot(&n);
        let tt = fx_div(num, td);
        if !(t_min <= tt && tt <= t_max && -FX_LIM <= tt && tt <= FX_LIM) {
            return None;
        }
        let bb = self.bounding_box();
        if !contains_at_exec(&bb, r, tt) {
            return None;
        }
        proof {
            crate::aabb::lemma_contains_at_position(bb, *r, tt as int);
        }
        let p = r.at(tt);
        if !self.inside(p) {
            return None;
        }
        let a1 = self.a.x - self.b.x;
        let b1 = self.a.x - self.c.x;
        let c1 = self.a.x - p.x;
        let a2 = self.a.y - self.b.y;
        let b2 = self.a.y - self.c.y;
        let c2 = self.a.y - p.y;
        proof {
            lemma_bary_ranges(a1 as int, b1 as int, c1 as int, a2 as int, b2 as int, c2 as int);
        }
        let den = fx_mul(a1, b2) - fx_mul(b1, a2);
        let (u, v) = if den == 0 {
            (0, 0)
        } else {
            (
                fx_div(fx_mul(c1, b2) - fx_mul(b1, c2), den),
                fx_div(fx_mul(a1, c2) - fx_mul(a2, c1), den),
            )
        };
        let mut rec = HitRecord::new(p, n, tt, u, v, true, &self.mp);
        rec.set_face_normal(*r, n);
        Some(rec)
    }

    /// The padded bounding box over the three corners.
    pub fn bounding_box(&self) -> (res: AABB)
        requires
            triangle_wf(*self),
        ensures
            res == sbbox_triangle(*self),
            box_in_range(res),
    {
        let minx = crate::fx::i_min(self.a.x, crate::fx::i_min(self.b.x, self.c.x));
        let miny = crate::fx::i_min(self.a.y, crate::fx::i_min(self.b.y, self.c.y));
        let minz = crate::fx::i_min(self.a.z, crate::fx::i_min(self.b.z, self.c.z));
        let maxx = crate::fx::i_max(self.a.x, crate::fx::i_max(self.b.x, self.c.x));
        let maxy = crate::fx::i_max(self.a.y, crate::fx::i_max(self.b.y, self.c.y));
        let maxz = crate::fx::i_max(self.a.z, crate::fx::i_max(self.b.z, self.c.z));
        AABB {
            min: Vec3 { x: minx - BOX_PAD, y: miny - BOX_PAD, z: minz - BOX_PAD },
            max: Vec3 { x: maxx + BOX_PAD, y: maxy + BOX_PAD, z: maxz + BOX_PAD },
        }
    }
}

/// Component bounds for the inside test's intermediates.
proof fn lemma_edge_ranges(t: Triangle, p: Point3)
    requires
        triangle_wf(t),
        vec_in_range(p, 4 * GEO_LIM as int),
    ensures
        vec_in_range(svsub(t.c, t.a), 2 * GEO_LIM as int),
        vec_in_range(svsub(t.b, t.a), 2 * GEO_LIM as int),
        vec_in_range(svsub(t.a, t.b), 2 * GEO_LIM as int),
        vec_in_range(svsub(t.c, t.b), 2 * GEO_LIM as int),
        vec_in_range(svsub(t.b, t.c), 2 * GEO_LIM as int),
        vec_in_range(svsub(t.a, t.c), 2 * GEO_LIM as int),
        vec_in_range(svsub(p, t.a), 5 * GEO_LIM as int),
        vec_in_range(svsub(p, t.b), 5 * GEO_LIM as int),
        vec_in_range(svsub(p, t.c), 5 * GEO_LIM as int),
{
}

/// The barycentric intermediates stay in the multiplier range.
proof fn lemma_bary_ranges(a1: int, b1: int, c1: int, a2: int, b2: int, c2: int)
    requires
        absi(a1) <= 2 * GEO_LIM,
        absi(b1) <= 2 * GEO_LIM,
        absi(c1) <= 5 * GEO_LIM,
        absi(a2) <= 2 * GEO_LIM,
        absi(b2) <= 2 * GEO_LIM,
        absi(c2) <= 5 * GEO_LIM,
    ensures
        absi(fxm(a1, b2)) <= 18014398509481984,
        absi(fxm(b1, a2)) <= 18014398509481984,
        absi(fxm(c1, b2)) <= 45035996273704960,
        absi(fxm(b1, c2)) <= 45035996273704960,
        absi(fxm(a1, c2)) <= 45035996273704960,
        absi(fxm(a2, c1)) <= 45035996273704960,
{
    lemma_fxm_tight(a1, b2, 2 * GEO_LIM as int, 2 * GEO_LIM as int);
    lemma_fxm_tight(b1, a2, 2 * GEO_LIM as int, 2 * GEO_LIM as int);
    lemma_fxm_tight(c1, b2, 5 * GEO_LIM as int, 2 * GEO_LIM as int);
    lemma_fxm_tight(b1, c2, 2 * GEO_LIM as int, 5 * GEO_LIM as int);
    lemma_fxm_tight(a1, c2, 2 * GEO_LIM as int, 5 * GEO_LIM as int);
    lemma_fxm_tight(a2, c1, 2 * GEO_LIM as int, 5 * GEO_LIM as int);
    assert((2 * GEO_LIM as int) * (2 * GEO_LIM as int) / (FP_ONE as int)
        == 18014398509481984) by (nonlinear_arith);
    assert((5 * GEO_LIM as int) * (2 * GEO_LIM as int) / (FP_ONE as int)
        == 45035996273704960) by (nonlinear_arith);
    assert((2 * GEO_LIM as int) * (5 * GEO_LIM as int) / (FP_ONE as int)
        == 45035996273704960) by (nonlinear_arith);
}

/// Any hit the triangle mirror reports is inside the window and the
/// padded box, with a sane record.
pub proof fn lemma_striangle_hit_props(t: Triangle, r: Ray, t_min: int, t_max: int)
    requires
        triangle_wf(t),
        geo_ray(r),
        striangle_hit(t, r, t_min, t_max) is Some,
    ensures
        ({
            let h = striangle_hit(t, r, t_min, t_max).unwrap();
            t_min <= h.t <= t_max && -FX_LIM <= h.t <= FX_LIM
                && contains_at(sbbox_triangle(t), r, h.t as int)
                && crate::hittable::spec_hit_wf(h)
                && h.mat == t.mp
        }),
{
    let h = striangle_hit(t, r, t_min, t_max).unwrap();
    let n = snormal(t);
    assert(unit_band(n) && vec_in_range(n, 2 * FP_ONE as int)) by {
        let cr = vof(scross(svsub(t.b, t.a), svsub(t.c, t.a)));
        if slen2(cr) >= UNIT_MIN_LEN2 {
            crate::vec3::lemma_sunit_band(cr);
        } else {
            crate::vec3::lemma_axis_unit_band(cr);
        }
    }
    crate::vec3::lemma_unit_band_range(n);
    crate::hittable::lemma_slen2_neg(n);
    crate::aabb::lemma_contains_at_position(sbbox_triangle(t), r, h.t as int);
}

} // verus!
