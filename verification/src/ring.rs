//! A flat annulus in the ground plane.

use vstd::prelude::*;
use crate::fx::{absi, fxm, fxd, fx_mul, fx_div, lemma_fxm_one, FP_ONE, FX_LIM};
use crate::vec3::{Vec3, Point3, vec_in_range, sdot, lemma_fxm_tight};
use crate::ray::{Ray, sat, geo_ray, GEO_LIM};
use crate::aabb::{AABB, contains_at, contains_at_exec, box_in_range, BOX_PAD};
use crate::hittable::{HitRecord, SpecHit, hit_matches};
use crate::material::{Material, material_wf};

verus! {

/// An annulus of central radius `r` and half-width `t`, lying in the plane
/// `y == 0`; the squared inner and outer radii are precomputed.
pub struct Ring {
    pub r: i128,
    pub t: i128,
    pub mat: Material,
    pub dis_min: i128,
    pub dis_max: i128,
}

pub open spec fn ring_wf(rg: Ring) -> bool {
    BOX_PAD <= rg.t && rg.t < rg.r
        && rg.r + rg.t <= GEO_LIM
        && rg.dis_min == fxm(rg.r - rg.t, rg.r - rg.t)
        && rg.dis_max == fxm(rg.r + rg.t, rg.r + rg.t)
        && material_wf(rg.mat)
}

/// The ring's padded, thin bounding box.
pub open spec fn sbbox_ring(rg: Ring) -> AABB {
    AABB {
        min: Vec3 {
            x: (-(rg.r + rg.t) - BOX_PAD) as i128,
            y: (-BOX_PAD) as i128,
            z: (-(rg.r + rg.t) - BOX_PAD) as i128,
        },
        max: Vec3 {
            x: (rg.r + rg.t + BOX_PAD) as i128,
            y: BOX_PAD,
            z: (rg.r + rg.t + BOX_PAD) as i128,
        },
    }
}

/// What the ring's hit test returns: the ground-plane crossing, accepted
/// when its squared planar distance lies between the radii.
pub open spec fn sring_hit(rg: Ring, r: Ray, t_min: int, t_max: int) -> Option<SpecHit> {
    if r.dir.y == 0 {
        None
    } else {
        let tt = fxd(-r.orig.y, r.dir.y as int);
        if !(t_min <= tt <= t_max && -FX_LIM <= tt <= FX_LIM) {
            None
        } else if !contains_at(sbbox_ring(rg), r, tt) {
            None
        } else {
            let p = Vec3 {
                x: sat(r, tt).0 as i128,
                y: sat(r, tt).1 as i128,
                z: sat(r, tt).2 as i128,
            };
            let d2 = fxm(p.x as int, p.x as int) + fxm(p.z as int, p.z as int);
            if d2 < rg.dis_min || d2 > rg.dis_max {
                None
            } else {
                let on = Vec3 { x: 0i128, y: FP_ONE, z: 0i128 };
                let ff = sdot(r.dir, on) < 0;
                Some(SpecHit {
                    p,
                    normal: if ff { on } else { Vec3 { x: 0i128, y: (-FP_ONE) as i128, z: 0i128 } },
                    t: tt as i128,
                    u: 0i128,
                    v: 0i128,
                    front_face: ff,
                    mat: rg.mat,
                })
            }
        }
    }
}

impl Ring {
    /// A ring of central radius `r` and half-width `t`.
    pub fn new(r: i128, t: i128, mat: Material) -> (res: Ring)
        requires
            BOX_PAD <= t < r,
            r + t <= GEO_LIM,
        ensures
            res.r == r,
            res.t == t,
            res.mat == mat,
            res.dis_min == fxm(r - t, r - t),
            res.dis_max == fxm(r + t, r + t),
    {
        Ring {
            r,
            t,
            mat,
            dis_min: fx_mul(r - t, r - t),
            dis_max: fx_mul(r + t, r + t),
        }
    }

    /// Intersect a ray with the ring.
    pub fn hit<'a>(&'a self, r: &Ray, t_min: i128, t_max: i128) -> (res: Option<HitRecord<'a>>)
        requires
            ring_wf(*self),
            geo_ray(*r),
        ensures
            res is Some <==> sring_hit(*self, *r, t_min as int, t_max as int) is Some,
            res is Some ==> hit_matches(res.unwrap(), sring_hit(*self, *r, t_min as int, t_max as int).unwrap()),
    {
        if r.dir.y == 0 {
            return None;
        }
        let tt = fx_div(-r.orig.y, r.dir.y);
        if !(t_min <= tt && tt <= t_max && -FX_LIM <= tt && tt <= FX_LIM) {
            return None;
        }
        let bb = self.bounding_box();
        if !contains_at_exec(&bb, r, tt) {
            return None;
        }
        proof {
            crate::aabb::lemma_contains_at_position(bb, *r, tt as int);
            crate::vec3::lemma_fxm_tight(
                sat(*r, tt as int).0, sat(*r, tt as int).0,
                2 * GEO_LIM as int, 2 * GEO_LIM as int,
            );
            crate::vec3::lemma_fxm_tight(
                sat(*r, tt as int).2, sat(*r, tt as int).2,
                2 * GEO_LIM as int, 2 * GEO_LIM as int,
            );
        }
        let p = r.at(tt);
        let d2 = fx_mul(p.x, p.x) + fx_mul(p.z, p.z);
        if d2 < self.dis_min || d2 > self.dis_max {
            return None;
        }
        let on = Vec3 { x: 0, y: FP_ONE, z: 0 };
        let mut rec = HitRecord::new(p, on, tt, 0, 0, false, &self.mat);
        rec.set_face_normal(*r, on);
        Some(rec)
    }

    /// The padded bounding box.
    pub fn bounding_box(&self) -> (res: AABB)
        requires
            ring_wf(*self),
        ensures
            res == sbbox_ring(*self),
            box_in_range(res),
    {
        let rr = self.r + self.t;
        AABB {
            min: Vec3 { x: -rr - BOX_PAD, y: -BOX_PAD, z: -rr - BOX_PAD },
            max: Vec3 { x: rr + BOX_PAD, y: BOX_PAD, z: rr + BOX_PAD },
        }
    }
}

/// Any hit the ring mirror reports is inside the window and the padded
/// box, with a sane record.
pub proof fn lemma_sring_hit_props(rg: Ring, r: Ray, t_min: int, t_max: int)
    requires
        ring_wf(rg),
        geo_ray(r),
        sring_hit(rg, r, t_min, t_max) is Some,
    ensures
        ({
            let h = sring_hit(rg, r, t_min, t_max).unwrap();
            t_min <= h.t <= t_max && -FX_LIM <= h.t <= FX_LIM
                && contains_at(sbbox_ring(rg), r, h.t as int)
                && crate::hittable::spec_hit_wf(h)
                && h.mat == rg.mat
        }),
{
    let h = sring_hit(rg, r, t_min, t_max).unwrap();
    lemma_fxm_one();
    crate::aabb::lemma_contains_at_position(sbbox_ring(rg), r, h.t as int);
}

} // verus!
