//! Spheres, still and moving.
//!
//! The quadratic solve is carried out in exact fixed-point arithmetic; a
//! candidate root is accepted only after an exact check that it lies in
//! the search window and that the hit position lies inside the sphere's
//! padded bounding box. The surface coordinates use the monotone
//! diamond-angle stand-in for the spherical map, which is endpoint-exact
//! on the coordinate axes.

use vstd::prelude::*;
use crate::fx::{
    absi, fxm, fxd, tdiv, sqrt_floor, fx_mul, fx_div, isqrt, i_div,
    lemma_tdiv_ratio_le, FP_ONE, FX_LIM,
};
use crate::vec3::{
    Vec3, Point3, vec_in_range, sdot, slen2, unit_band, lemma_fxm_tight,
    lemma_slen2_nonneg,
};
use crate::ray::{Ray, sat, geo_ray, GEO_LIM};
use crate::aabb::{
    AABB, contains_at, contains_at_exec, box_in_range, box_le, lemma_contains_at_position,
    BOX_PAD,
};
use crate::hittable::{HitRecord, SpecHit, hit_matches, lemma_slen2_neg};
use crate::material::{Material, material_wf};

verus! {

/// A sphere: center, radius, and the surface's material.
pub struct Sphere {
    pub center: Point3,
    pub radius: i128,
    pub mat_ptr: Material,
}

/// A sphere whose center moves linearly between two keyframes.
pub struct MovingSphere {
    pub center0: Point3,
    pub center1: Point3,
    pub time0: i128,
    pub time1: i128,
    pub radius: i128,
    pub mat_ptr: Material,
}

/// Ranges under which the sphere kernel is exact: the radius is at least
/// the box padding, so normals stay within twice unit length.
pub open spec fn sphere_wf(s: Sphere) -> bool {
    vec_in_range(s.center, GEO_LIM as int)
        && BOX_PAD <= s.radius <= GEO_LIM
        && material_wf(s.mat_ptr)
}

/// The moving sphere's well-formedness: keyframe times within the unit
/// span and in order.
pub open spec fn moving_sphere_wf(s: MovingSphere) -> bool {
    vec_in_range(s.center0, GEO_LIM as int)
        && vec_in_range(s.center1, GEO_LIM as int)
        && 0 <= s.time0 < s.time1 <= FP_ONE
        && BOX_PAD <= s.radius <= GEO_LIM
        && material_wf(s.mat_ptr)
}

/// The sphere's padded bounding box.
pub open spec fn sbbox_sphere(c: Point3, radius: int) -> AABB {
    AABB {
        min: Vec3 {
            x: (c.x - radius - BOX_PAD) as i128,
            y: (c.y - radius - BOX_PAD) as i128,
            z: (c.z - radius - BOX_PAD) as i128,
        },
        max: Vec3 {
            x: (c.x + radius + BOX_PAD) as i128,
            y: (c.y + radius + BOX_PAD) as i128,
            z: (c.z + radius + BOX_PAD) as i128,
        },
    }
}

/// The diamond angle of a planar vector: a monotone, endpoint-exact
/// stand-in for the polar angle, scaled so a full turn is four.
pub open spec fn sdiamond(xq: int, yq: int) -> int {
    let d = absi(xq) + absi(yq);
    if d == 0 {
        0
    } else if xq >= 0 && yq >= 0 {
        tdiv(yq * FP_ONE, d)
    } else if xq < 0 && yq >= 0 {
        FP_ONE + tdiv((-xq) * FP_ONE, d)
    } else if xq < 0 {
        2 * FP_ONE + tdiv((-yq) * FP_ONE, d)
    } else {
        3 * FP_ONE + tdiv(xq * FP_ONE, d)
    }
}

/// The azimuthal surface coordinate of an outward normal: the diamond
/// angle of `(-x, z)`, a quarter turn mapped to a quarter of one.
pub open spec fn ssphere_u(on: Vec3) -> int {
    tdiv(sdiamond(-on.x, on.z as int), 4)
}

/// The polar surface coordinate: the linear, endpoint-exact stand-in
/// `(1 + y) / 2` for `acos(-y) / pi`.
pub open spec fn ssphere_v(on: Vec3) -> int {
    let y = if on.y > FP_ONE {
        FP_ONE as int
    } else if on.y < -FP_ONE {
        -FP_ONE as int
    } else {
        on.y as int
    };
    tdiv(FP_ONE + y, 2)
}

/// Finish a hit at an accepted root: validate the position against the
/// padded box, derive the outward normal, reject a degenerate normal, and
/// orient it against the ray.
pub open spec fn sfinish_sphere(c: Point3, radius: int, mat: Material, r: Ray, t: int) -> Option<SpecHit> {
    if !contains_at(sbbox_sphere(c, radius), r, t) {
        None
    } else {
        let p = Vec3 {
            x: sat(r, t).0 as i128,
            y: sat(r, t).1 as i128,
            z: sat(r, t).2 as i128,
        };
        let on = Vec3 {
            x: tdiv((p.x - c.x) * FP_ONE, radius) as i128,
            y: tdiv((p.y - c.y) * FP_ONE, radius) as i128,
            z: tdiv((p.z - c.z) * FP_ONE, radius) as i128,
        };
        if !unit_band(on) {
            None
        } else {
            let ff = sdot(r.dir, on) < 0;
            let n = if ff {
                on
            } else {
                Vec3 { x: (-on.x) as i128, y: (-on.y) as i128, z: (-on.z) as i128 }
            };
            Some(SpecHit {
                p,
                normal: n,
                t: t as i128,
                u: ssphere_u(on) as i128,
                v: ssphere_v(on) as i128,
                front_face: ff,
                mat,
            })
        }
    }
}

/// What the sphere's hit test returns: the quadratic solved in fixed
/// point, the nearer admissible root preferred.
pub open spec fn ssphere_hit_at(c: Point3, radius: int, mat: Material, r: Ray, t_min: int, t_max: int) -> Option<SpecHit> {
    let a = slen2(r.dir);
    if a <= 0 {
        None
    } else {
        let ocx = r.orig.x - c.x;
        let ocy = r.orig.y - c.y;
        let ocz = r.orig.z - c.z;
        let half_b = fxm(ocx, r.dir.x as int) + fxm(ocy, r.dir.y as int) + fxm(ocz, r.dir.z as int);
        let cc = fxm(ocx, ocx) + fxm(ocy, ocy) + fxm(ocz, ocz) - fxm(radius, radius);
        let disc = fxm(half_b, half_b) - fxm(a, cc);
        if disc < 0 {
            None
        } else {
            let sq = sqrt_floor((disc * FP_ONE) as nat) as int;
            let r1 = fxd(-half_b - sq, a);
            if t_min <= r1 <= t_max && -FX_LIM <= r1 <= FX_LIM {
                sfinish_sphere(c, radius, mat, r, r1)
            } else {
                let r2 = fxd(-half_b + sq, a);
                if t_min <= r2 <= t_max && -FX_LIM <= r2 <= FX_LIM {
                    sfinish_sphere(c, radius, mat, r, r2)
                } else {
                    None
                }
            }
        }
    }
}

/// The full mirror of `Sphere::hit`.
pub open spec fn ssphere_hit(s: Sphere, r: Ray, t_min: int, t_max: int) -> Option<SpecHit> {
    ssphere_hit_at(s.center, s.radius as int, s.mat_ptr, r, t_min, t_max)
}

/// Any hit the sphere mirror reports is inside the window, inside the
/// padded box, and geometrically sane.
pub proof fn lemma_ssphere_hit_props(c: Point3, radius: int, mat: Material, r: Ray, t_min: int, t_max: int)
    requires
        ssphere_hit_at(c, radius, mat, r, t_min, t_max) is Some,
    ensures
        ({
            let h = ssphere_hit_at(c, radius, mat, r, t_min, t_max).unwrap();
            t_min <= h.t <= t_max
                && contains_at(sbbox_sphere(c, radius), r, h.t as int)
                && h.mat == mat
        }),
{
}

/// The diamond angle, computed exactly.
fn diamond(xq: i128, yq: i128) -> (r: i128)
    requires
        absi(xq as int) <= 4 * FP_ONE as int,
        absi(yq as int) <= 4 * FP_ONE as int,
    ensures
        r == sdiamond(xq as int, yq as int),
        0 <= r <= 4 * FP_ONE,
{
    let xa = if xq < 0 { -xq } else { xq };
    let ya = if yq < 0 { -yq } else { yq };
    let d = xa + ya;
    if d == 0 {
        0
    } else {
        proof {
            lemma_tdiv_ratio_le(ya * FP_ONE, d as int, FP_ONE as int);
            lemma_tdiv_ratio_le(xa * FP_ONE, d as int, FP_ONE as int);
            assert(ya * FP_ONE <= d * FP_ONE && xa * FP_ONE <= d * FP_ONE
                && 0 <= ya * FP_ONE && 0 <= xa * FP_ONE) by (nonlinear_arith)
                requires 0 <= ya <= d, 0 <= xa <= d, FP_ONE > 0
            ;
            crate::fx::lemma_tdiv_abs_le(ya * FP_ONE, d as int);
            crate::fx::lemma_tdiv_abs_le(xa * FP_ONE, d as int);
        }
        if xq >= 0 && yq >= 0 {
            i_div(yq * FP_ONE, d)
        } else if xq < 0 && yq >= 0 {
            FP_ONE + i_div(-xq * FP_ONE, d)
        } else if xq < 0 {
            2 * FP_ONE + i_div(-yq * FP_ONE, d)
        } else {
            3 * FP_ONE + i_div(xq * FP_ONE, d)
        }
    }
}

/// The surface coordinates of an outward normal.
fn sphere_uv(on: &Vec3) -> (r: (i128, i128))
    requires
        vec_in_range(*on, 2 * FP_ONE as int),
    ensures
        r.0 == ssphere_u(*on),
        r.1 == ssphere_v(*on),
        0 <= r.0 <= FP_ONE,
        0 <= r.1 <= FP_ONE,
{
    let dv = diamond(-on.x, on.z);
    proof {
        crate::fx::lemma_tdiv_abs_le(dv as int, 4);
        assert(tdiv(dv as int, 4) == (dv as int) / 4);
        vstd::arithmetic::div_mod::lemma_div_is_ordered(dv as int, 4 * FP_ONE, 4);
        vstd::arithmetic::div_mod::lemma_div_multiples_vanish(FP_ONE as int, 4);
        if dv > 0 {
            vstd::arithmetic::div_mod::lemma_div_pos_is_pos(dv as int, 4);
        }
    }
    let u = i_div(dv, 4);
    let y = if on.y > FP_ONE {
        FP_ONE
    } else if on.y < -FP_ONE {
        -FP_ONE
    } else {
        on.y
    };
    proof {
        crate::fx::lemma_tdiv_abs_le(FP_ONE as int + y, 2);
        assert(tdiv(FP_ONE as int + y as int, 2) == (FP_ONE as int + y as int) / 2
            || FP_ONE as int + y as int == 0);
        vstd::arithmetic::div_mod::lemma_div_is_ordered(FP_ONE as int + y as int, 2 * FP_ONE, 2);
        vstd::arithmetic::div_mod::lemma_div_multiples_vanish(FP_ONE as int, 2);
        if FP_ONE + y > 0 {
            vstd::arithmetic::div_mod::lemma_div_pos_is_pos(FP_ONE as int + y as int, 2);
        }
    }
    let v = i_div(FP_ONE + y, 2);
    (u, v)
}

/// Shared kernel: intersect a ray with a sphere of the given center and
/// radius, mirroring `ssphere_hit_at` exactly.
fn sphere_hit_at<'a>(
    c: &Point3,
    radius: i128,
    mat: &'a Material,
    r: &Ray,
    t_min: i128,
    t_max: i128,
) -> (res: Option<HitRecord<'a>>)
    requires
        vec_in_range(*c, GEO_LIM as int),
        BOX_PAD <= radius <= GEO_LIM,
        geo_ray(*r),
    ensures
        res is Some <==> ssphere_hit_at(*c, radius as int, *mat, *r, t_min as int, t_max as int) is Some,
        res is Some ==> hit_matches(
            res.unwrap(),
            ssphere_hit_at(*c, radius as int, *mat, *r, t_min as int, t_max as int).unwrap(),
        ),
{
    let a = r.dir.len_sqr();
    if a <= 0 {
        return None;
    }
    let oc = r.orig.minus(c);
    proof {
        lemma_sphere_mid_bounds(*c, radius as int, *r, oc);
    }
    let half_b = oc.dot(&r.dir);
    let cc = oc.len_sqr() - fx_mul(radius, radius);
    proof {
        lemma_fxm_tight(half_b as int, half_b as int, 567453553048682496, 567453553048682496);
        lemma_fxm_tight(a as int, cc as int, 486388759756013568, 666532744850833408);
        assert(567453553048682496int * 567453553048682496int / (FP_ONE as int)
            == 74972290282038487412637696) by (nonlinear_arith);
        assert(486388759756013568int * 666532744850833408int / (FP_ONE as int)
            == 75482305862188409095716864) by (nonlinear_arith);
    }
    let disc = fx_mul(half_b, half_b) - fx_mul(a, cc);
    if disc < 0 {
        return None;
    }
    let sq = isqrt(disc * FP_ONE);
    proof {
        assert(sq <= 803864148953255795) by (nonlinear_arith)
            requires
                sq >= 0,
                (sq as int) * (sq as int) <= 150454596144226896508354560 * (FP_ONE as int),
        ;
    }
    let r1 = fx_div(-half_b - sq, a);
    if t_min <= r1 && r1 <= t_max && -FX_LIM <= r1 && r1 <= FX_LIM {
        sphere_finish(c, radius, mat, r, r1)
    } else {
        let r2 = fx_div(-half_b + sq, a);
        if t_min <= r2 && r2 <= t_max && -FX_LIM <= r2 && r2 <= FX_LIM {
            sphere_finish(c, radius, mat, r, r2)
        } else {
            None
        }
    }
}

/// Magnitude bounds for the quadratic's intermediates.
proof fn lemma_sphere_mid_bounds(c: Point3, radius: int, r: Ray, oc: Vec3)
    requires
        vec_in_range(c, GEO_LIM as int),
        0 < radius <= GEO_LIM,
        geo_ray(r),
        oc.x == r.orig.x - c.x,
        oc.y == r.orig.y - c.y,
        oc.z == r.orig.z - c.z,
    ensures
        vec_in_range(oc, 7 * GEO_LIM as int),
        absi(sdot(oc, r.dir)) <= 567453553048682496,
        0 <= slen2(oc) <= 662029145223462912,
        0 <= fxm(radius, radius) <= 4503599627370496,
        0 <= slen2(r.dir) <= 486388759756013568,
        absi(slen2(oc) - fxm(radius, radius)) <= 666532744850833408,
{
    lemma_fxm_tight(oc.x as int, r.dir.x as int, 7 * GEO_LIM as int, 6 * GEO_LIM as int);
    lemma_fxm_tight(oc.y as int, r.dir.y as int, 7 * GEO_LIM as int, 6 * GEO_LIM as int);
    lemma_fxm_tight(oc.z as int, r.dir.z as int, 7 * GEO_LIM as int, 6 * GEO_LIM as int);
    lemma_fxm_tight(oc.x as int, oc.x as int, 7 * GEO_LIM as int, 7 * GEO_LIM as int);
    lemma_fxm_tight(oc.y as int, oc.y as int, 7 * GEO_LIM as int, 7 * GEO_LIM as int);
    lemma_fxm_tight(oc.z as int, oc.z as int, 7 * GEO_LIM as int, 7 * GEO_LIM as int);
    lemma_fxm_tight(radius, radius, GEO_LIM as int, GEO_LIM as int);
    lemma_fxm_tight(r.dir.x as int, r.dir.x as int, 6 * GEO_LIM as int, 6 * GEO_LIM as int);
    lemma_fxm_tight(r.dir.y as int, r.dir.y as int, 6 * GEO_LIM as int, 6 * GEO_LIM as int);
    lemma_fxm_tight(r.dir.z as int, r.dir.z as int, 6 * GEO_LIM as int, 6 * GEO_LIM as int);
    lemma_slen2_nonneg(oc);
    lemma_slen2_nonneg(r.dir);
    assert((7 * GEO_LIM as int) * (6 * GEO_LIM as int) / (FP_ONE as int)
        == 189151184349560832) by (nonlinear_arith);
    assert((7 * GEO_LIM as int) * (7 * GEO_LIM as int) / (FP_ONE as int)
        == 220676381741154304) by (nonlinear_arith);
    assert((GEO_LIM as int) * (GEO_LIM as int) / (FP_ONE as int)
        == 4503599627370496) by (nonlinear_arith);
    assert((6 * GEO_LIM as int) * (6 * GEO_LIM as int) / (FP_ONE as int)
        == 162129586585337856) by (nonlinear_arith);
}

/// Finish an accepted root, mirroring `sfinish_sphere` exactly.
fn sphere_finish<'a>(
    c: &Point3,
    radius: i128,
    mat: &'a Material,
    r: &Ray,
    t: i128,
) -> (res: Option<HitRecord<'a>>)
    requires
        vec_in_range(*c, GEO_LIM as int),
        BOX_PAD <= radius <= GEO_LIM,
        geo_ray(*r),
        -FX_LIM <= t <= FX_LIM,
    ensures
        res is Some <==> sfinish_sphere(*c, radius as int, *mat, *r, t as int) is Some,
        res is Some ==> hit_matches(res.unwrap(), sfinish_sphere(*c, radius as int, *mat, *r, t as int).unwrap()),
{
    let pad = radius + BOX_PAD;
    let bb = AABB {
        min: Vec3 { x: c.x - pad, y: c.y - pad, z: c.z - pad },
        max: Vec3 { x: c.x + pad, y: c.y + pad, z: c.z + pad },
    };
    if !contains_at_exec(&bb, r, t) {
        return None;
    }
    proof {
        lemma_contains_at_position(bb, *r, t as int);
    }
    let p = r.at(t);
    let dx = p.x - c.x;
    let dy = p.y - c.y;
    let dz = p.z - c.z;
    proof {
        assert(absi(dx as int) * FP_ONE <= radius * (2 * FP_ONE)) by (nonlinear_arith)
            requires absi(dx as int) <= radius + BOX_PAD, BOX_PAD <= radius, FP_ONE > 0
        ;
        assert(absi(dy as int) * FP_ONE <= radius * (2 * FP_ONE)) by (nonlinear_arith)
            requires absi(dy as int) <= radius + BOX_PAD, BOX_PAD <= radius, FP_ONE > 0
        ;
        assert(absi(dz as int) * FP_ONE <= radius * (2 * FP_ONE)) by (nonlinear_arith)
            requires absi(dz as int) <= radius + BOX_PAD, BOX_PAD <= radius, FP_ONE > 0
        ;
        assert(absi(dx as int * FP_ONE) == absi(dx as int) * FP_ONE) by (nonlinear_arith);
        assert(absi(dy as int * FP_ONE) == absi(dy as int) * FP_ONE) by (nonlinear_arith);
        assert(absi(dz as int * FP_ONE) == absi(dz as int) * FP_ONE) by (nonlinear_arith);
        lemma_tdiv_ratio_le(dx as int * FP_ONE, radius as int, 2 * FP_ONE as int);
        lemma_tdiv_ratio_le(dy as int * FP_ONE, radius as int, 2 * FP_ONE as int);
        lemma_tdiv_ratio_le(dz as int * FP_ONE, radius as int, 2 * FP_ONE as int);
    }
    let on = Vec3 {
        x: i_div(dx * FP_ONE, radius),
        y: i_div(dy * FP_ONE, radius),
        z: i_div(dz * FP_ONE, radius),
    };
    let l2 = on.len_sqr();
    if !(FP_ONE - crate::vec3::UNIT_TOL <= l2 && l2 <= FP_ONE + crate::vec3::UNIT_TOL) {
        return None;
    }
    let uv = sphere_uv(&on);
    let mut rec = HitRecord::new(p, on, t, uv.0, uv.1, false, mat);
    rec.set_face_normal(*r, on);
    Some(rec)
}

impl Sphere {
    /// Build a sphere.
    pub fn new(center: Point3, radius: i128, mat_ptr: Material) -> (r: Sphere)
        ensures
            r.center == center,
            r.radius == radius,
            r.mat_ptr == mat_ptr,
    {
        Sphere { center, radius, mat_ptr }
    }

    /// Intersect a ray with this sphere: the nearer root of the quadratic
    /// within the window, validated against the padded box.
    pub fn hit<'a>(&'a self, r: &Ray, t_min: i128, t_max: i128) -> (res: Option<HitRecord<'a>>)
        requires
            sphere_wf(*self),
            geo_ray(*r),
        ensures
            res is Some <==> ssphere_hit(*self, *r, t_min as int, t_max as int) is Some,
            res is Some ==> hit_matches(res.unwrap(), ssphere_hit(*self, *r, t_min as int, t_max as int).unwrap()),
    {
        sphere_hit_at(&self.center, self.radius, &self.mat_ptr, r, t_min, t_max)
    }

    /// The padded bounding box.
    pub fn bounding_box(&self) -> (res: AABB)
        requires
            sphere_wf(*self),
        ensures
            res == sbbox_sphere(self.center, self.radius as int),
            box_in_range(res),
    {
        let pad = self.radius + BOX_PAD;
        AABB {
            min: Vec3 { x: self.center.x - pad, y: self.center.y - pad, z: self.center.z - pad },
            max: Vec3 { x: self.center.x + pad, y: self.center.y + pad, z: self.center.z + pad },
        }
    }
}

/// The clamped interpolation coefficient for a moving sphere at a time.
pub open spec fn slam(s: MovingSphere, tm: int) -> int {
    let l = fxd(tm - s.time0, s.time1 - s.time0);
    if l < 0 { 0 } else if l > FP_ONE { FP_ONE as int } else { l }
}

/// The interpolated center at a time, clamped to the keyframe span.
pub open spec fn scenter(s: MovingSphere, tm: int) -> Point3 {
    let l = slam(s, tm);
    Vec3 {
        x: (s.center0.x + fxm(s.center1.x - s.center0.x, l)) as i128,
        y: (s.center0.y + fxm(s.center1.y - s.center0.y, l)) as i128,
        z: (s.center0.z + fxm(s.center1.z - s.center0.z, l)) as i128,
    }
}

/// The full mirror of `MovingSphere::hit`: the still-sphere kernel at the
/// interpolated center.
pub open spec fn smoving_hit(s: MovingSphere, r: Ray, t_min: int, t_max: int) -> Option<SpecHit> {
    ssphere_hit_at(scenter(s, r.tm as int), s.radius as int, s.mat_ptr, r, t_min, t_max)
}

impl MovingSphere {
    /// Build a moving sphere.
    pub fn new(
        center0: Point3,
        center1: Point3,
        time0: i128,
        time1: i128,
        radius: i128,
        mat_ptr: Material,
    ) -> (r: MovingSphere)
        ensures
            r.center0 == center0,
            r.center1 == center1,
            r.time0 == time0,
            r.time1 == time1,
            r.radius == radius,
            r.mat_ptr == mat_ptr,
    {
        MovingSphere { center0, center1, time0, time1, radius, mat_ptr }
    }

    /// The center at a time, interpolated linearly between the keyframes
    /// and clamped to their span.
    pub fn center(&self, time: i128) -> (res: Point3)
        requires
            moving_sphere_wf(*self),
            0 <= time <= FP_ONE,
        ensures
            res == scenter(*self, time as int),
            vec_in_range(res, GEO_LIM as int),
    {
        let l0 = fx_div(time - self.time0, self.time1 - self.time0);
        let l = if l0 < 0 {
            0
        } else if l0 > FP_ONE {
            FP_ONE
        } else {
            l0
        };
        proof {
            lemma_fxm_tight(
                (self.center1.x - self.center0.x) as int, l as int,
                2 * GEO_LIM as int, FP_ONE as int,
            );
            lemma_fxm_tight(
                (self.center1.y - self.center0.y) as int, l as int,
                2 * GEO_LIM as int, FP_ONE as int,
            );
            lemma_fxm_tight(
                (self.center1.z - self.center0.z) as int, l as int,
                2 * GEO_LIM as int, FP_ONE as int,
            );
            assert((2 * GEO_LIM as int) * (FP_ONE as int) / (FP_ONE as int) == 2 * GEO_LIM as int)
                by (nonlinear_arith);
            lemma_scenter_between(*self, time as int);
        }
        Vec3 {
            x: self.center0.x + fx_mul(self.center1.x - self.center0.x, l),
            y: self.center0.y + fx_mul(self.center1.y - self.center0.y, l),
            z: self.center0.z + fx_mul(self.center1.z - self.center0.z, l),
        }
    }

    /// Intersect a ray: the still-sphere kernel at the interpolated center.
    pub fn hit<'a>(&'a self, r: &Ray, t_min: i128, t_max: i128) -> (res: Option<HitRecord<'a>>)
        requires
            moving_sphere_wf(*self),
            geo_ray(*r),
            0 <= r.tm <= FP_ONE,
        ensures
            res is Some <==> smoving_hit(*self, *r, t_min as int, t_max as int) is Some,
            res is Some ==> hit_matches(res.unwrap(), smoving_hit(*self, *r, t_min as int, t_max as int).unwrap()),
    {
        let c = self.center(r.tm);
        sphere_hit_at(&c, self.radius, &self.mat_ptr, r, t_min, t_max)
    }

    /// The union of the padded keyframe boxes.
    pub fn bounding_box(&self) -> (res: AABB)
        requires
            moving_sphere_wf(*self),
        ensures
            res == crate::aabb::ssurround(
                sbbox_sphere(self.center0, self.radius as int),
                sbbox_sphere(self.center1, self.radius as int),
            ),
            box_in_range(res),
    {
        let pad = self.radius + BOX_PAD;
        let b0 = AABB {
            min: Vec3 { x: self.center0.x - pad, y: self.center0.y - pad, z: self.center0.z - pad },
            max: Vec3 { x: self.center0.x + pad, y: self.center0.y + pad, z: self.center0.z + pad },
        };
        let b1 = AABB {
            min: Vec3 { x: self.center1.x - pad, y: self.center1.y - pad, z: self.center1.z - pad },
            max: Vec3 { x: self.center1.x + pad, y: self.center1.y + pad, z: self.center1.z + pad },
        };
        AABB::surrounding_box(b0, b1)
    }
}

} // verus!

verus! {

/// Every hit the sphere kernel reports lies in the search window, inside
/// the padded box, and carries a sane record.
pub proof fn lemma_sfinish_props(c: Point3, radius: int, mat: Material, r: Ray, t_min: int, t_max: int)
    requires
        vec_in_range(c, GEO_LIM as int),
        BOX_PAD <= radius <= GEO_LIM,
        crate::material::material_wf(mat),
        geo_ray(r),
        ssphere_hit_at(c, radius, mat, r, t_min, t_max) is Some,
    ensures
        ({
            let h = ssphere_hit_at(c, radius, mat, r, t_min, t_max).unwrap();
            t_min <= h.t <= t_max && -FX_LIM <= h.t <= FX_LIM
                && contains_at(sbbox_sphere(c, radius), r, h.t as int)
                && crate::hittable::spec_hit_wf(h)
                && h.mat == mat
        }),
{
    let a = slen2(r.dir);
    let ocx = r.orig.x - c.x;
    let ocy = r.orig.y - c.y;
    let ocz = r.orig.z - c.z;
    let half_b = fxm(ocx, r.dir.x as int) + fxm(ocy, r.dir.y as int) + fxm(ocz, r.dir.z as int);
    let cc = fxm(ocx, ocx) + fxm(ocy, ocy) + fxm(ocz, ocz) - fxm(radius, radius);
    let disc = fxm(half_b, half_b) - fxm(a, cc);
    let sq = sqrt_floor((disc * FP_ONE) as nat) as int;
    let r1 = fxd(-half_b - sq, a);
    let r2 = fxd(-half_b + sq, a);
    let t: int = if t_min <= r1 <= t_max && -FX_LIM <= r1 <= FX_LIM { r1 } else { r2 };
    lemma_finish_wf(c, radius, mat, r, t);
}

/// The record a finished sphere hit carries is sane.
proof fn lemma_finish_wf(c: Point3, radius: int, mat: Material, r: Ray, t: int)
    requires
        vec_in_range(c, GEO_LIM as int),
        BOX_PAD <= radius <= GEO_LIM,
        crate::material::material_wf(mat),
        geo_ray(r),
        -FX_LIM <= t <= FX_LIM,
        sfinish_sphere(c, radius, mat, r, t) is Some,
    ensures
        ({
            let h = sfinish_sphere(c, radius, mat, r, t).unwrap();
            h.t == t && contains_at(sbbox_sphere(c, radius), r, t)
                && crate::hittable::spec_hit_wf(h)
                && h.mat == mat
        }),
{
    let bb = sbbox_sphere(c, radius);
    lemma_contains_at_position(bb, r, t);
    let h = sfinish_sphere(c, radius, mat, r, t).unwrap();
    let p = Vec3 {
        x: sat(r, t).0 as i128,
        y: sat(r, t).1 as i128,
        z: sat(r, t).2 as i128,
    };
    let on = Vec3 {
        x: tdiv((p.x - c.x) * FP_ONE, radius) as i128,
        y: tdiv((p.y - c.y) * FP_ONE, radius) as i128,
        z: tdiv((p.z - c.z) * FP_ONE, radius) as i128,
    };
    crate::vec3::lemma_unit_band_range(on);
    crate::hittable::lemma_slen2_neg(on);
}

/// The interpolated center stays between the keyframe centers, so its
/// padded box stays within the union of the keyframe boxes.
pub proof fn lemma_scenter_between(s: MovingSphere, tm: int)
    requires
        moving_sphere_wf(s),
    ensures
        vec_in_range(scenter(s, tm), GEO_LIM as int),
        box_le(
            sbbox_sphere(scenter(s, tm), s.radius as int),
            crate::aabb::ssurround(
                sbbox_sphere(s.center0, s.radius as int),
                sbbox_sphere(s.center1, s.radius as int),
            ),
        ),
{
    let l = slam(s, tm);
    lemma_interp_between(s.center0.x as int, s.center1.x as int, l);
    lemma_interp_between(s.center0.y as int, s.center1.y as int, l);
    lemma_interp_between(s.center0.z as int, s.center1.z as int, l);
}

/// One component of the clamped interpolation stays between its endpoints.
proof fn lemma_interp_between(c0: int, c1: int, l: int)
    requires
        0 <= l <= FP_ONE,
        absi(c0) <= GEO_LIM,
        absi(c1) <= GEO_LIM,
    ensures
        c0 <= c1 ==> c0 <= c0 + fxm(c1 - c0, l) <= c1,
        c1 <= c0 ==> c1 <= c0 + fxm(c1 - c0, l) <= c0,
{
    let d = c1 - c0;
    crate::vec3::lemma_fxm_tight(d, l, absi(d), FP_ONE as int);
    vstd::arithmetic::div_mod::lemma_div_multiples_vanish(absi(d), FP_ONE as int);
    assert(absi(d) * FP_ONE == FP_ONE * absi(d)) by (nonlinear_arith);
    crate::fx::lemma_tdiv_abs_le(d * l, FP_ONE as int);
    if d >= 0 {
        assert(d * l >= 0) by (nonlinear_arith)
            requires d >= 0, l >= 0
        ;
    } else {
        assert(d * l <= 0) by (nonlinear_arith)
            requires d < 0, l >= 0
        ;
        lemma_tdiv_nonpos(d * l, FP_ONE as int);
    }
}

/// Truncating a nonpositive dividend by a positive divisor is nonpositive.
proof fn lemma_tdiv_nonpos(x: int, d: int)
    requires
        x <= 0,
        d > 0,
    ensures
        tdiv(x, d) <= 0,
{
    if x < 0 {
        vstd::arithmetic::div_mod::lemma_div_pos_is_pos(-x, d);
    }
}

} // verus!
