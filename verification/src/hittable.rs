//! Hit records: what an intersection test reports.

use vstd::prelude::*;
use crate::fx::{absi, FP_ONE, FX_LIM, COORD_LIM};
use crate::ray::GEO_LIM;
use crate::vec3::{Vec3, Point3, vec_in_range, sdot, slen2, unit_band};
use crate::ray::Ray;
use crate::material::Material;

verus! {

/// A surface intersection: where, the oriented unit normal, the ray
/// parameter, surface coordinates, which side was struck, and the surface's
/// material.
pub struct HitRecord<'a> {
    pub p: Point3,
    pub normal: Vec3,
    pub t: i128,
    pub u: i128,
    pub v: i128,
    pub front_face: bool,
    pub mat_ptr: &'a Material,
}

/// The same data as a plain value, used by specifications.
pub struct SpecHit {
    pub p: Point3,
    pub normal: Vec3,
    pub t: i128,
    pub u: i128,
    pub v: i128,
    pub front_face: bool,
    pub mat: Material,
}

/// An exec record carries exactly the data of a spec record.
pub open spec fn hit_matches<'a>(h: HitRecord<'a>, s: SpecHit) -> bool {
    h.p == s.p && h.normal == s.normal && h.t == s.t && h.u == s.u && h.v == s.v
        && h.front_face == s.front_face && *h.mat_ptr == s.mat
}

/// Geometric sanity of a reported hit: point in the world range, normal of
/// roughly unit length.
pub open spec fn spec_hit_wf(s: SpecHit) -> bool {
    vec_in_range(s.p, 4 * GEO_LIM as int)
        && vec_in_range(s.normal, 2 * FP_ONE as int)
        && unit_band(s.normal)
}

impl<'a> HitRecord<'a> {
    /// Assemble a record.
    pub fn new(
        p: Point3,
        normal: Vec3,
        t: i128,
        u: i128,
        v: i128,
        front_face: bool,
        mat_ptr: &'a Material,
    ) -> (r: HitRecord<'a>)
        ensures
            r.p == p,
            r.normal == normal,
            r.t == t,
            r.u == u,
            r.v == v,
            r.front_face == front_face,
            r.mat_ptr == mat_ptr,
    {
        HitRecord { p, normal, t, u, v, front_face, mat_ptr }
    }

    /// Orient the stored normal against the incoming ray: `front_face`
    /// records whether the outward normal opposes the ray direction, and
    /// the stored normal is flipped to always oppose it.
    pub fn set_face_normal(&mut self, r: Ray, outward_normal: Vec3)
        requires
            vec_in_range(r.dir, FX_LIM as int),
            vec_in_range(outward_normal, FX_LIM as int),
        ensures
            final(self).front_face == (sdot(r.dir, outward_normal) < 0),
            final(self).normal == if sdot(r.dir, outward_normal) < 0 {
                outward_normal
            } else {
                Vec3 { x: (-outward_normal.x) as i128, y: (-outward_normal.y) as i128, z: (-outward_normal.z) as i128 }
            },
            final(self).p == old(self).p,
            final(self).t == old(self).t,
            final(self).u == old(self).u,
            final(self).v == old(self).v,
            final(self).mat_ptr == old(self).mat_ptr,
    {
        let d = r.dir.dot(&outward_normal);
        self.front_face = d < 0;
        self.normal = if self.front_face {
            outward_normal
        } else {
            outward_normal.neg()
        };
    }
}

/// Negating a vector keeps its squared length, so an oriented normal stays
/// in the unit band.
pub proof fn lemma_slen2_neg(v: Vec3)
    requires
        vec_in_range(v, FX_LIM as int),
    ensures
        slen2(Vec3 { x: (-v.x) as i128, y: (-v.y) as i128, z: (-v.z) as i128 }) == slen2(v),
{
    lemma_fxm_neg(v.x as int);
    lemma_fxm_neg(v.y as int);
    lemma_fxm_neg(v.z as int);
}

proof fn lemma_fxm_neg(a: int)
    ensures
        crate::fx::fxm(-a, -a) == crate::fx::fxm(a, a),
{
    assert((-a) * (-a) == a * a) by (nonlinear_arith);
}

} // verus!
