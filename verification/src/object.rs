//! Scene objects: the closed set of hittable things, with one exact
//! specification of what a hit returns.
//!
//! The linear scan over a list and the bounding-volume traversal are both
//! specified here; that they agree is proved in the bvh module.

use vstd::prelude::*;
use crate::fx::{absi, fxm, fxd, tdiv, FP_ONE, FX_LIM, COORD_LIM};
use crate::vec3::{Vec3, Point3, vec_in_range, sdot, slen2, slen, UNIT_MIN_LEN2};
use crate::ray::{Ray, sat, ray_wf, geo_ray, GEO_LIM};
use crate::aabb::{
    AABB, contains_at, hit_spec, box_le, box_in_range, ssurround, BOX_PAD,
};
use crate::hittable::{HitRecord, SpecHit, hit_matches};
use crate::material::{Material, material_wf};
use crate::sphere::{
    Sphere, MovingSphere, sphere_wf, moving_sphere_wf, ssphere_hit, smoving_hit,
    sbbox_sphere, scenter,
};
use crate::aarect::{
    XYRect, XZRect, YZRect, xyrect_wf, xzrect_wf, yzrect_wf,
    sxyrect_hit, sxzrect_hit, syzrect_hit, sbbox_xyrect, sbbox_xzrect, sbbox_yzrect,
};

verus! {

broadcast use {vstd::std_specs::vec::group_vec_axioms, vstd::seq::group_seq_axioms};

/// A collection of objects scanned in order.
pub struct HittableList {
    pub objects: Vec<Object>,
}

/// An object shifted by a constant offset.
pub struct Translate {
    pub ptr: Box<Object>,
    pub offset: Vec3,
}

/// An object whose reported surface side is inverted.
pub struct FlipFace {
    pub ptr: Box<Object>,
}


/// An object rotated about the vertical axis. The caller supplies the
/// sine and cosine of the angle as fixed-point values whose squares sum to
/// one within tolerance; the trigonometry itself stays outside the core.
pub struct RotateY {
    pub ptr: Box<Object>,
    pub sin_theta: i128,
    pub cos_theta: i128,
}

/// One node of a bounding-volume hierarchy: a box that bounds both
/// children's boxes.
pub struct BvhNode {
    pub aabbox: AABB,
    pub left: Box<Object>,
    pub right: Box<Object>,
}

/// Any hittable thing.
pub enum Object {
    Sphere(Sphere),
    MovingSphere(MovingSphere),
    XYRect(XYRect),
    XZRect(XZRect),
    YZRect(YZRect),
    Boxes(crate::boxes::Boxes),
    Triangle(crate::triangle::Triangle),
    Ring(crate::ring::Ring),
    List(HittableList),
    Translate(Translate),
    RotateY(RotateY),
    FlipFace(FlipFace),
    ConstantMedium(crate::medium::ConstantMedium),
    Bvh(BvhNode),
}

/// Every object in the tree is well-formed; a hierarchy node's box bounds
/// its children's boxes.
pub open spec fn owf(o: Object) -> bool
    decreases o, 1int,
{
    match o {
        Object::Sphere(s) => sphere_wf(s),
        Object::MovingSphere(s) => moving_sphere_wf(s),
        Object::XYRect(rc) => xyrect_wf(rc),
        Object::XZRect(rc) => xzrect_wf(rc),
        Object::YZRect(rc) => yzrect_wf(rc),
        Object::Boxes(b) => crate::boxes::boxes_wf(b),
        Object::Triangle(t) => crate::triangle::triangle_wf(t),
        Object::Ring(rg) => crate::ring::ring_wf(rg),
        Object::List(l) => owf_seq(l.objects@),
        Object::Translate(tr) => owf(*tr.ptr) && vec_in_range(tr.offset, GEO_LIM as int),
        Object::RotateY(rt) => owf(*rt.ptr)
            && absi(rt.sin_theta as int) <= FP_ONE
            && absi(rt.cos_theta as int) <= FP_ONE
            && FP_ONE - crate::vec3::UNIT_TOL
                <= fxm(rt.sin_theta as int, rt.sin_theta as int)
                    + fxm(rt.cos_theta as int, rt.cos_theta as int)
            && fxm(rt.sin_theta as int, rt.sin_theta as int)
                + fxm(rt.cos_theta as int, rt.cos_theta as int)
                <= FP_ONE + crate::vec3::UNIT_TOL,
        Object::FlipFace(f) => owf(*f.ptr),
        Object::ConstantMedium(m) => crate::medium::medium_wf(m),
        Object::Bvh(n) => owf(*n.left) && owf(*n.right)
            && box_in_range(n.aabbox)
            && child_bounded(*n.left, n.aabbox)
            && child_bounded(*n.right, n.aabbox),
    }
}

/// A hierarchy child is either bounded by the node's box or is the empty
/// filler list, which never hits anything.
pub open spec fn child_bounded(c: Object, bb: AABB) -> bool {
    match sbbox(c) {
        Some(b) => box_le(b, bb),
        None => is_empty_list(c),
    }
}

/// The filler object: an empty list.
pub open spec fn is_empty_list(o: Object) -> bool {
    match o {
        Object::List(l) => l.objects@.len() == 0,
        _ => false,
    }
}

pub open spec fn owf_seq(s: Seq<Object>) -> bool
    decreases s, 0int,
{
    forall|i: int| 0 <= i < s.len() ==> owf(#[trigger] s[i])
}

/// Whether two hit calls on this object must agree: true of everything
/// whose intersection test draws no randomness.
pub open spec fn deterministic(o: Object) -> bool
    decreases o, 1int,
{
    match o {
        Object::List(l) => det_seq(l.objects@),
        Object::Boxes(b) => det_seq(b.sides.objects@),
        Object::Translate(tr) => deterministic(*tr.ptr),
        Object::RotateY(rt) => deterministic(*rt.ptr),
        Object::FlipFace(f) => deterministic(*f.ptr),
        Object::ConstantMedium(_) => false,
        Object::Bvh(n) => deterministic(*n.left) && deterministic(*n.right),
        _ => true,
    }
}

pub open spec fn det_seq(s: Seq<Object>) -> bool
    decreases s, 0int,
{
    forall|i: int| 0 <= i < s.len() ==> deterministic(#[trigger] s[i])
}

/// A box shifted by an offset.
pub open spec fn sshift_box(b: AABB, off: Vec3) -> AABB {
    AABB {
        min: Vec3 {
            x: (b.min.x + off.x) as i128,
            y: (b.min.y + off.y) as i128,
            z: (b.min.z + off.z) as i128,
        },
        max: Vec3 {
            x: (b.max.x + off.x) as i128,
            y: (b.max.y + off.y) as i128,
            z: (b.max.z + off.z) as i128,
        },
    }
}

/// The bounding box an object reports, when it has one.
pub open spec fn sbbox(o: Object) -> Option<AABB>
    decreases o, 1int,
{
    match o {
        Object::Sphere(s) => Some(sbbox_sphere(s.center, s.radius as int)),
        Object::MovingSphere(s) => Some(ssurround(
            sbbox_sphere(s.center0, s.radius as int),
            sbbox_sphere(s.center1, s.radius as int),
        )),
        Object::XYRect(rc) => Some(sbbox_xyrect(rc)),
        Object::XZRect(rc) => Some(sbbox_xzrect(rc)),
        Object::YZRect(rc) => Some(sbbox_yzrect(rc)),
        Object::Boxes(b) => Some(crate::boxes::sbbox_boxes(b)),
        Object::Triangle(t) => Some(crate::triangle::sbbox_triangle(t)),
        Object::Ring(rg) => Some(crate::ring::sbbox_ring(rg)),
        Object::List(l) => sbbox_seq(l.objects@),
        Object::Translate(tr) => match sbbox(*tr.ptr) {
            Some(b) => {
                let sb = sshift_box(b, tr.offset);
                if box_in_range(sb) { Some(sb) } else { None }
            }
            None => None,
        },
        Object::FlipFace(f) => sbbox(*f.ptr),
        Object::RotateY(rt) => srot_box(rt),
        Object::ConstantMedium(m) => sbbox(*m.boundary),
        Object::Bvh(n) => Some(n.aabbox),
    }
}

/// The union of a sequence of boxes; `None` for an empty sequence or when
/// any member lacks a box.
pub open spec fn sbbox_seq(s: Seq<Object>) -> Option<AABB>
    decreases s, 0int,
{
    if s.len() == 0 {
        None
    } else if s.len() == 1 {
        sbbox(s[0])
    } else {
        match (sbbox_seq(s.subrange(0, s.len() - 1)), sbbox(s[s.len() - 1])) {
            (Some(b0), Some(b1)) => Some(ssurround(b0, b1)),
            _ => None,
        }
    }
}

/// What `Translate`'s hit returns: the child queried with the moved ray,
/// the hit point moved back, the normal re-oriented. A moved origin
/// outside the kernel range reports a miss.
pub open spec fn strans_hit(tr: Translate, r: Ray, t_min: int, t_max: int) -> Option<SpecHit>
    decreases tr, 0int,
{
    let morig = Vec3 {
        x: (r.orig.x - tr.offset.x) as i128,
        y: (r.orig.y - tr.offset.y) as i128,
        z: (r.orig.z - tr.offset.z) as i128,
    };
    if !vec_in_range(morig, GEO_LIM as int) {
        None
    } else {
        let mr = Ray { orig: morig, dir: r.dir, tm: r.tm };
        match ohit(*tr.ptr, mr, t_min, t_max) {
            Some(h) => {
                let p2 = Vec3 {
                    x: (h.p.x + tr.offset.x) as i128,
                    y: (h.p.y + tr.offset.y) as i128,
                    z: (h.p.z + tr.offset.z) as i128,
                };
                if !vec_in_range(p2, 4 * GEO_LIM as int) {
                    None
                } else {
                let ff = sdot(mr.dir, h.normal) < 0;
                let n2 = if ff {
                    h.normal
                } else {
                    Vec3 {
                        x: (-h.normal.x) as i128,
                        y: (-h.normal.y) as i128,
                        z: (-h.normal.z) as i128,
                    }
                };
                Some(SpecHit {
                    p: p2,
                    normal: n2,
                    t: h.t,
                    u: h.u,
                    v: h.v,
                    front_face: ff,
                    mat: h.mat,
                })
                }
            }
            None => None,
        }
    }
}

/// A vector carried from the rotated object's space into world space
/// (rotation by the angle).
pub open spec fn srot_fwd(sin_t: int, cos_t: int, v: Vec3) -> Vec3 {
    Vec3 {
        x: (fxm(cos_t, v.x as int) + fxm(sin_t, v.z as int)) as i128,
        y: v.y,
        z: (fxm(cos_t, v.z as int) - fxm(sin_t, v.x as int)) as i128,
    }
}

/// A vector carried from world space into the rotated object's space
/// (rotation by the opposite angle).
pub open spec fn srot_back(sin_t: int, cos_t: int, v: Vec3) -> Vec3 {
    Vec3 {
        x: (fxm(cos_t, v.x as int) - fxm(sin_t, v.z as int)) as i128,
        y: v.y,
        z: (fxm(cos_t, v.z as int) + fxm(sin_t, v.x as int)) as i128,
    }
}

/// The rotated object's box: the child's box corners carried to world
/// space, enclosed and padded; `None` when the child has no box or the
/// result leaves the world range.
pub open spec fn srot_box(rt: RotateY) -> Option<AABB>
    decreases rt, 0int,
{
    match sbbox(*rt.ptr) {
        Some(b) => {
            let st = rt.sin_theta as int;
            let ct = rt.cos_theta as int;
            let x1 = fxm(ct, b.min.x as int) + fxm(st, b.min.z as int);
            let z1 = fxm(ct, b.min.z as int) - fxm(st, b.min.x as int);
            let x2 = fxm(ct, b.min.x as int) + fxm(st, b.max.z as int);
            let z2 = fxm(ct, b.max.z as int) - fxm(st, b.min.x as int);
            let x3 = fxm(ct, b.max.x as int) + fxm(st, b.min.z as int);
            let z3 = fxm(ct, b.min.z as int) - fxm(st, b.max.x as int);
            let x4 = fxm(ct, b.max.x as int) + fxm(st, b.max.z as int);
            let z4 = fxm(ct, b.max.z as int) - fxm(st, b.max.x as int);
            let rb = AABB {
                min: Vec3 {
                    x: (smin4(x1, x2, x3, x4) - BOX_PAD) as i128,
                    y: (b.min.y - BOX_PAD) as i128,
                    z: (smin4(z1, z2, z3, z4) - BOX_PAD) as i128,
                },
                max: Vec3 {
                    x: (smax4(x1, x2, x3, x4) + BOX_PAD) as i128,
                    y: (b.max.y + BOX_PAD) as i128,
                    z: (smax4(z1, z2, z3, z4) + BOX_PAD) as i128,
                },
            };
            if box_in_range(rb) { Some(rb) } else { None }
        }
        None => None,
    }
}

pub open spec fn smin4(a: int, b: int, c: int, d: int) -> int {
    let m1 = if a <= b { a } else { b };
    let m2 = if c <= d { c } else { d };
    if m1 <= m2 { m1 } else { m2 }
}

pub open spec fn smax4(a: int, b: int, c: int, d: int) -> int {
    let m1 = if a >= b { a } else { b };
    let m2 = if c >= d { c } else { d };
    if m1 >= m2 { m1 } else { m2 }
}

/// What the rotation wrapper's hit returns: the child queried in object
/// space, the record carried back to world space and validated against the
/// rotated box. Out-of-range intermediates report a miss.
pub open spec fn srot_hit(rt: RotateY, r: Ray, t_min: int, t_max: int) -> Option<SpecHit>
    decreases rt, 1int,
{
    let st = rt.sin_theta as int;
    let ct = rt.cos_theta as int;
    let morig = srot_back(st, ct, r.orig);
    let mdir = srot_back(st, ct, r.dir);
    if !(vec_in_range(morig, 6 * GEO_LIM as int) && vec_in_range(mdir, 6 * GEO_LIM as int)
        && srot_box(rt) is Some) {
        None
    } else {
        let mr = Ray { orig: morig, dir: mdir, tm: r.tm };
        match ohit(*rt.ptr, mr, t_min, t_max) {
            Some(h) => {
                let p2 = srot_fwd(st, ct, h.p);
                let n0 = srot_fwd(st, ct, h.normal);
                if !(vec_in_range(p2, 4 * GEO_LIM as int)
                    && crate::vec3::unit_band(n0)
                    && contains_at(srot_box(rt).unwrap(), r, h.t as int)) {
                    None
                } else {
                    let ff = sdot(mdir, n0) < 0;
                    let n2 = if ff {
                        n0
                    } else {
                        Vec3 { x: (-n0.x) as i128, y: (-n0.y) as i128, z: (-n0.z) as i128 }
                    };
                    Some(SpecHit {
                        p: p2,
                        normal: n2,
                        t: h.t,
                        u: h.u,
                        v: h.v,
                        front_face: ff,
                        mat: h.mat,
                    })
                }
            }
            None => None,
        }
    }
}

/// The clamped span a ray spends inside a medium's boundary: the first
/// crossing, the second searched just past it, both clamped to the window
/// and to nonnegative entry; `None` when the span is empty or a crossing
/// is missing.
pub open spec fn smedium_span(m: crate::medium::ConstantMedium, r: Ray, t_min: int, t_max: int) -> Option<(int, int)> {
    match ohit(*m.boundary, r, -FX_LIM as int, FX_LIM as int) {
        Some(h1) => match ohit(*m.boundary, r, h1.t + 429497, FX_LIM as int) {
            Some(h2) => {
                let a0 = if h1.t > t_min { h1.t as int } else { t_min };
                let a = if a0 < 0 { 0 } else { a0 };
                let b = if (h2.t as int) < t_max { h2.t as int } else { t_max };
                if a >= b { None } else { Some((a, b)) }
            }
            None => None,
        },
        None => None,
    }
}

/// What an object's hit test returns, for every deterministic object.
pub open spec fn ohit(o: Object, r: Ray, t_min: int, t_max: int) -> Option<SpecHit>
    decreases o, 2int,
{
    match o {
        Object::Sphere(s) => ssphere_hit(s, r, t_min, t_max),
        Object::MovingSphere(s) => smoving_hit(s, r, t_min, t_max),
        Object::XYRect(rc) => sxyrect_hit(rc, r, t_min, t_max),
        Object::XZRect(rc) => sxzrect_hit(rc, r, t_min, t_max),
        Object::YZRect(rc) => syzrect_hit(rc, r, t_min, t_max),
        Object::Boxes(b) => sscan(b.sides.objects@, r, t_min, t_max),
        Object::Triangle(t) => crate::triangle::striangle_hit(t, r, t_min, t_max),
        Object::Ring(rg) => crate::ring::sring_hit(rg, r, t_min, t_max),
        Object::List(l) => sscan(l.objects@, r, t_min, t_max),
        Object::Translate(tr) => strans_hit(tr, r, t_min, t_max),
        Object::RotateY(rt) => srot_hit(rt, r, t_min, t_max),
        Object::FlipFace(f) => match ohit(*f.ptr, r, t_min, t_max) {
            Some(h) => Some(SpecHit {
                p: h.p,
                normal: h.normal,
                t: h.t,
                u: h.u,
                v: h.v,
                front_face: !h.front_face,
                mat: h.mat,
            }),
            None => None,
        },
        Object::ConstantMedium(_) => None,
        Object::Bvh(n) => if !hit_spec(n.aabbox, r, t_min, t_max) {
            None
        } else {
            match ohit(*n.left, r, t_min, t_max) {
                Some(h1) => match ohit(*n.right, r, t_min, h1.t as int) {
                    Some(h2) => Some(h2),
                    None => Some(h1),
                },
                None => ohit(*n.right, r, t_min, t_max),
            }
        },
    }
}

/// The in-order linear scan: each hit narrows the window for the rest.
pub open spec fn sscan(s: Seq<Object>, r: Ray, t_min: int, t_max: int) -> Option<SpecHit>
    decreases s, 3int,
{
    if s.len() == 0 {
        None
    } else {
        let prev = sscan(s.subrange(0, s.len() - 1), r, t_min, t_max);
        match prev {
            Some(h) => match ohit(s[s.len() - 1], r, t_min, h.t as int) {
                Some(h2) => Some(h2),
                None => Some(h),
            },
            None => ohit(s[s.len() - 1], r, t_min, t_max),
        }
    }
}

/// The light-sampling density an object reports for a direction.
pub open spec fn spdf(o: Object, origin: Point3, v: Vec3) -> int
    decreases o, 1int,
{
    match o {
        Object::XZRect(rc) => sxzrect_pdf(rc, origin, v),
        Object::List(l) => if l.objects@.len() == 0 {
            0
        } else {
            tdiv(spdf_sum(l.objects@, origin, v), l.objects@.len() as int)
        },
        _ => 0,
    }
}

pub open spec fn spdf_sum(s: Seq<Object>, origin: Point3, v: Vec3) -> int
    decreases s, 0int,
{
    if s.len() == 0 {
        0
    } else {
        spdf_sum(s.subrange(0, s.len() - 1), origin, v) + spdf(s[s.len() - 1], origin, v)
    }
}

/// The solid-angle density of sampling a rectangle light from an origin:
/// squared distance over the cosine times the area, zero when the ray
/// misses the rectangle or the geometry degenerates.
pub open spec fn sxzrect_pdf(rc: XZRect, origin: Point3, v: Vec3) -> int {
    let r = Ray { orig: origin, dir: v, tm: 0i128 };
    match sxzrect_hit(rc, r, 4294967, FX_LIM as int) {
        Some(h) => {
            let t2 = fxm(h.t as int, h.t as int);
            let dis_sqr = fxm(t2, slen2(v));
            if !(-FX_LIM <= t2 <= FX_LIM && -FX_LIM <= dis_sqr <= FX_LIM) {
                0
            } else {
                let len = slen(v);
                let cosr = tdiv(absi(sdot(v, h.normal)) * FP_ONE, len);
                let area = fxm(rc.x1 - rc.x0, rc.z1 - rc.z0);
                let denom = fxm(cosr, area);
                if denom <= 0 {
                    0
                } else {
                    fxd(dis_sqr, denom)
                }
            }
        }
        None => 0,
    }
}

} // verus!

verus! {

/// A well-formed object's box, when it has one, is in the world range.
pub proof fn lemma_sbbox_in_range(o: Object)
    requires
        owf(o),
    ensures
        sbbox(o) is Some ==> box_in_range(sbbox(o).unwrap()),
    decreases o, 4int,
{
    match o {
        Object::List(l) => {
            lemma_sbbox_seq_in_range(l.objects@);
        }
        Object::Translate(tr) => {}
        Object::FlipFace(f) => {
            lemma_sbbox_in_range(*f.ptr);
        }
        Object::RotateY(rt) => {
            assert(srot_box(rt) is Some ==> box_in_range(srot_box(rt).unwrap()));
        }
        Object::ConstantMedium(m) => {
            assert(crate::medium::medium_wf(m));
            lemma_sbbox_in_range(*m.boundary);
        }
        Object::Boxes(b) => {
            assert(crate::boxes::boxes_wf(b));
        }
        Object::Triangle(t) => {
            assert(crate::triangle::triangle_wf(t));
        }
        Object::Ring(rg) => {
            assert(crate::ring::ring_wf(rg));
        }
        _ => {}
    }
}

pub proof fn lemma_sbbox_seq_in_range(s: Seq<Object>)
    requires
        owf_seq(s),
    ensures
        sbbox_seq(s) is Some ==> box_in_range(sbbox_seq(s).unwrap()),
    decreases s, 3int,
{
    if s.len() == 0 {
    } else if s.len() == 1 {
        lemma_sbbox_in_range(s[0]);
    } else {
        assert(owf_seq(s.subrange(0, s.len() - 1))) by {
            assert forall|i: int| 0 <= i < s.len() - 1 implies owf(#[trigger] s.subrange(0, s.len() - 1)[i]) by {
                assert(s.subrange(0, s.len() - 1)[i] == s[i]);
            }
        }
        lemma_sbbox_seq_in_range(s.subrange(0, s.len() - 1));
        lemma_sbbox_in_range(s[s.len() - 1]);
    }
}

/// Every hit an object's mirror reports lies in the search window, inside
/// the object's box when it has one, and carries a sane record.
#[verifier::rlimit(100)]
pub proof fn lemma_ohit_props(o: Object, r: Ray, t_min: int, t_max: int)
    requires
        owf(o),
        geo_ray(r),
        0 <= r.tm <= FP_ONE,
        ohit(o, r, t_min, t_max) is Some,
    ensures
        ({
            let h = ohit(o, r, t_min, t_max).unwrap();
            t_min <= h.t <= t_max && -FX_LIM <= h.t <= FX_LIM
                && (sbbox(o) is Some ==> contains_at(sbbox(o).unwrap(), r, h.t as int))
                && crate::hittable::spec_hit_wf(h)
                && material_wf(h.mat)
        }),
    decreases o, 4int,
{
    let h = ohit(o, r, t_min, t_max).unwrap();
    match o {
        Object::Sphere(s) => {
            crate::sphere::lemma_sfinish_props(s.center, s.radius as int, s.mat_ptr, r, t_min, t_max);
        }
        Object::MovingSphere(s) => {
            let c = scenter(s, r.tm as int);
            crate::sphere::lemma_scenter_between(s, r.tm as int);
            crate::sphere::lemma_sfinish_props(c, s.radius as int, s.mat_ptr, r, t_min, t_max);
            let bb = sbbox_sphere(c, s.radius as int);
            let ub = ssurround(
                sbbox_sphere(s.center0, s.radius as int),
                sbbox_sphere(s.center1, s.radius as int),
            );
            assert(box_le(bb, ub));
            crate::aabb::lemma_box_le_contains_at(bb, ub, r, h.t as int);
        }
        Object::XYRect(rc) => {
            crate::aarect::lemma_sxyrect_hit_props(rc, r, t_min, t_max);
            crate::aabb::lemma_contains_at_position(sbbox_xyrect(rc), r, h.t as int);
            crate::fx::lemma_fxm_one();
            crate::hittable::lemma_slen2_neg(h.normal);
        }
        Object::XZRect(rc) => {
            crate::aarect::lemma_sxzrect_hit_props(rc, r, t_min, t_max);
            crate::aabb::lemma_contains_at_position(sbbox_xzrect(rc), r, h.t as int);
            crate::fx::lemma_fxm_one();
            crate::hittable::lemma_slen2_neg(h.normal);
        }
        Object::YZRect(rc) => {
            crate::aarect::lemma_syzrect_hit_props(rc, r, t_min, t_max);
            crate::aabb::lemma_contains_at_position(sbbox_yzrect(rc), r, h.t as int);
            crate::fx::lemma_fxm_one();
            crate::hittable::lemma_slen2_neg(h.normal);
        }
        Object::Boxes(b) => {
            assert(crate::boxes::boxes_wf(b));
            lemma_sscan_props(b.sides.objects@, r, t_min, t_max);
            let h2 = sscan(b.sides.objects@, r, t_min, t_max).unwrap();
            if sbbox_seq(b.sides.objects@) is Some {
                crate::aabb::lemma_box_le_contains_at(
                    sbbox_seq(b.sides.objects@).unwrap(),
                    crate::boxes::sbbox_boxes(b),
                    r,
                    h2.t as int,
                );
            }
        }
        Object::Triangle(t) => {
            crate::triangle::lemma_striangle_hit_props(t, r, t_min, t_max);
        }
        Object::Ring(rg) => {
            crate::ring::lemma_sring_hit_props(rg, r, t_min, t_max);
        }
        Object::List(l) => {
            lemma_sscan_props(l.objects@, r, t_min, t_max);
        }
        Object::Translate(tr) => {
            let morig = Vec3 {
                x: (r.orig.x - tr.offset.x) as i128,
                y: (r.orig.y - tr.offset.y) as i128,
                z: (r.orig.z - tr.offset.z) as i128,
            };
            let mr = Ray { orig: morig, dir: r.dir, tm: r.tm };
            assert(ohit(o, r, t_min, t_max) == strans_hit(tr, r, t_min, t_max));
            assert(vec_in_range(morig, GEO_LIM as int));
            assert(ohit(*tr.ptr, mr, t_min, t_max) is Some);
            lemma_ohit_props(*tr.ptr, mr, t_min, t_max);
            lemma_sbbox_in_range(*tr.ptr);
            let hc = ohit(*tr.ptr, mr, t_min, t_max).unwrap();
            crate::vec3::lemma_unit_band_range(hc.normal);
            crate::hittable::lemma_slen2_neg(hc.normal);
            if sbbox(o) is Some {
                let b = sbbox(*tr.ptr).unwrap();
                lemma_shift_contains(b, tr.offset, mr, r, hc.t as int);
            }
        }
        Object::FlipFace(f) => {
            lemma_ohit_props(*f.ptr, r, t_min, t_max);
        }
        Object::RotateY(rt) => {
            let st = rt.sin_theta as int;
            let ct = rt.cos_theta as int;
            let morig = srot_back(st, ct, r.orig);
            let mdir = srot_back(st, ct, r.dir);
            let mr = Ray { orig: morig, dir: mdir, tm: r.tm };
            assert(ohit(o, r, t_min, t_max) == srot_hit(rt, r, t_min, t_max));
            assert(ohit(*rt.ptr, mr, t_min, t_max) is Some);
            lemma_ohit_props(*rt.ptr, mr, t_min, t_max);
            let hc = ohit(*rt.ptr, mr, t_min, t_max).unwrap();
            let n0 = srot_fwd(st, ct, hc.normal);
            crate::vec3::lemma_unit_band_range(n0);
            crate::hittable::lemma_slen2_neg(n0);
        }
        Object::ConstantMedium(_) => {}
        Object::Bvh(n) => {
            match ohit(*n.left, r, t_min, t_max) {
                Some(h1) => {
                    lemma_ohit_props(*n.left, r, t_min, t_max);
                    lemma_child_contains(*n.left, n.aabbox, r, t_min, t_max, h1.t as int);
                    match ohit(*n.right, r, t_min, h1.t as int) {
                        Some(h2) => {
                            lemma_ohit_props(*n.right, r, t_min, h1.t as int);
                            lemma_child_contains(*n.right, n.aabbox, r, t_min, h1.t as int, h2.t as int);
                        }
                        None => {}
                    }
                }
                None => {
                    lemma_ohit_props(*n.right, r, t_min, t_max);
                    let h2 = ohit(*n.right, r, t_min, t_max).unwrap();
                    lemma_child_contains(*n.right, n.aabbox, r, t_min, t_max, h2.t as int);
                }
            }
        }
    }
}

/// A bounded child's containment lifts to the node box; the empty filler
/// never produces the hypothesis.
proof fn lemma_child_contains(c: Object, bb: AABB, r: Ray, t_min: int, t_max: int, t: int)
    requires
        child_bounded(c, bb),
        ohit(c, r, t_min, t_max) is Some,
        sbbox(c) is Some ==> contains_at(sbbox(c).unwrap(), r, t),
    ensures
        contains_at(bb, r, t),
{
    if sbbox(c) is None {
        assert(is_empty_list(c));
        match c {
            Object::List(l) => {
                assert(l.objects@.len() == 0);
                assert(sscan(l.objects@, r, t_min, t_max) is None);
            }
            _ => {}
        }
        assert(false);
    } else {
        crate::aabb::lemma_box_le_contains_at(sbbox(c).unwrap(), bb, r, t);
    }
}

/// The scan's version of the hit properties.
pub proof fn lemma_sscan_props(s: Seq<Object>, r: Ray, t_min: int, t_max: int)
    requires
        owf_seq(s),
        geo_ray(r),
        0 <= r.tm <= FP_ONE,
        sscan(s, r, t_min, t_max) is Some,
    ensures
        ({
            let h = sscan(s, r, t_min, t_max).unwrap();
            t_min <= h.t <= t_max && -FX_LIM <= h.t <= FX_LIM
                && (sbbox_seq(s) is Some ==> contains_at(sbbox_seq(s).unwrap(), r, h.t as int))
                && crate::hittable::spec_hit_wf(h)
                && material_wf(h.mat)
        }),
    decreases s, 3int,
{
    let pre = s.subrange(0, s.len() - 1);
    let last = s[s.len() - 1];
    assert(owf(last));
    assert(owf_seq(pre)) by {
        assert forall|i: int| 0 <= i < pre.len() implies owf(#[trigger] pre[i]) by {
            assert(pre[i] == s[i]);
        }
    }
    let prev = sscan(pre, r, t_min, t_max);
    match prev {
        Some(h1) => {
            assert(pre.len() >= 1);
            lemma_sscan_props(pre, r, t_min, t_max);
            match ohit(last, r, t_min, h1.t as int) {
                Some(h2) => {
                    lemma_ohit_props(last, r, t_min, h1.t as int);
                    lemma_scan_box_step(s, r, h2.t as int, false);
                }
                None => {
                    lemma_scan_box_step(s, r, h1.t as int, true);
                }
            }
        }
        None => {
            lemma_ohit_props(last, r, t_min, t_max);
            let h2 = ohit(last, r, t_min, t_max).unwrap();
            lemma_scan_box_step(s, r, h2.t as int, false);
        }
    }
}

/// Lift a containment from a scan prefix or from the last member to the
/// whole sequence's box.
proof fn lemma_scan_box_step(s: Seq<Object>, r: Ray, t: int, from_prefix: bool)
    requires
        s.len() >= 1,
        from_prefix ==> s.len() >= 2,
        from_prefix ==> (sbbox_seq(s.subrange(0, s.len() - 1)) is Some
            ==> contains_at(sbbox_seq(s.subrange(0, s.len() - 1)).unwrap(), r, t)),
        !from_prefix ==> (sbbox(s[s.len() - 1]) is Some
            ==> contains_at(sbbox(s[s.len() - 1]).unwrap(), r, t)),
    ensures
        sbbox_seq(s) is Some ==> contains_at(sbbox_seq(s).unwrap(), r, t),
{
    if sbbox_seq(s) is Some {
        if s.len() == 1 {
            assert(sbbox_seq(s) == sbbox(s[0]));
        } else {
            let b0 = sbbox_seq(s.subrange(0, s.len() - 1)).unwrap();
            let b1 = sbbox(s[s.len() - 1]).unwrap();
            if from_prefix {
                crate::aabb::lemma_box_le_contains_at(b0, ssurround(b0, b1), r, t);
            } else {
                crate::aabb::lemma_box_le_contains_at(b1, ssurround(b0, b1), r, t);
            }
        }
    }
}

} // verus!

verus! {

/// Slab membership moves exactly with a translation: membership for the
/// moved ray in the child's box is membership for the original ray in the
/// shifted box.
proof fn lemma_shift_contains(b: AABB, off: Vec3, mr: Ray, r: Ray, t: int)
    requires
        contains_at(b, mr, t),
        box_in_range(b),
        vec_in_range(off, GEO_LIM as int),
        vec_in_range(r.orig, 6 * GEO_LIM as int),
        mr.dir == r.dir,
        mr.orig.x == r.orig.x - off.x,
        mr.orig.y == r.orig.y - off.y,
        mr.orig.z == r.orig.z - off.z,
        box_in_range(sshift_box(b, off)),
    ensures
        contains_at(sshift_box(b, off), r, t),
{
    assert((b.min.x - mr.orig.x) * FP_ONE == ((b.min.x + off.x) - r.orig.x) * FP_ONE)
        by (nonlinear_arith)
        requires mr.orig.x == r.orig.x - off.x
    ;
    assert((b.max.x - mr.orig.x) * FP_ONE == ((b.max.x + off.x) - r.orig.x) * FP_ONE)
        by (nonlinear_arith)
        requires mr.orig.x == r.orig.x - off.x
    ;
    assert((b.min.y - mr.orig.y) * FP_ONE == ((b.min.y + off.y) - r.orig.y) * FP_ONE)
        by (nonlinear_arith)
        requires mr.orig.y == r.orig.y - off.y
    ;
    assert((b.max.y - mr.orig.y) * FP_ONE == ((b.max.y + off.y) - r.orig.y) * FP_ONE)
        by (nonlinear_arith)
        requires mr.orig.y == r.orig.y - off.y
    ;
    assert((b.min.z - mr.orig.z) * FP_ONE == ((b.min.z + off.z) - r.orig.z) * FP_ONE)
        by (nonlinear_arith)
        requires mr.orig.z == r.orig.z - off.z
    ;
    assert((b.max.z - mr.orig.z) * FP_ONE == ((b.max.z + off.z) - r.orig.z) * FP_ONE)
        by (nonlinear_arith)
        requires mr.orig.z == r.orig.z - off.z
    ;
}

} // verus!

verus! {

impl HittableList {
    /// An empty list.
    pub fn empty() -> (r: HittableList)
        ensures
            r.objects@.len() == 0,
    {
        HittableList { objects: Vec::new() }
    }

    /// Append an object.
    pub fn add(&mut self, object: Object)
        ensures
            final(self).objects@ == old(self).objects@.push(object),
    {
        self.objects.push(object);
    }
}

impl Translate {
    /// Shift an object by a displacement.
    pub fn new(p: Object, displacement: Vec3) -> (r: Translate)
        ensures
            r.ptr == p,
            r.offset == displacement,
    {
        Translate { ptr: Box::new(p), offset: displacement }
    }
}

impl FlipFace {
    /// Invert the reported surface side of an object.
    pub fn new(ptr: Object) -> (r: FlipFace)
        ensures
            r.ptr == ptr,
    {
        FlipFace { ptr: Box::new(ptr) }
    }
}

impl RotateY {
    /// Rotate an object about the vertical axis. The caller computes the
    /// trigonometry; the squares of the two values must sum to one within
    /// the unit tolerance.
    pub fn new(p: Object, sin_theta: i128, cos_theta: i128) -> (r: RotateY)
        requires
            owf(p),
            absi(sin_theta as int) <= FP_ONE,
            absi(cos_theta as int) <= FP_ONE,
            FP_ONE - crate::vec3::UNIT_TOL
                <= fxm(sin_theta as int, sin_theta as int) + fxm(cos_theta as int, cos_theta as int),
            fxm(sin_theta as int, sin_theta as int) + fxm(cos_theta as int, cos_theta as int)
                <= FP_ONE + crate::vec3::UNIT_TOL,
        ensures
            r.ptr == p,
            r.sin_theta == sin_theta,
            r.cos_theta == cos_theta,
            owf(Object::RotateY(r)),
    {
        RotateY { ptr: Box::new(p), sin_theta, cos_theta }
    }
}

impl Object {
    /// Intersect a ray with this object within a parameter window.
    ///
    /// For every deterministic object the result is exactly `ohit`; for
    /// any object, a reported hit lies in the window and carries a sane
    /// record.
    #[verifier::rlimit(100)]
    pub fn hit<'a>(&'a self, r: &Ray, t_min: i128, t_max: i128) -> (res: Option<HitRecord<'a>>)
        requires
            owf(*self),
            geo_ray(*r),
            0 <= r.tm <= FP_ONE,
        ensures
            deterministic(*self) ==> (res is Some <==> ohit(*self, *r, t_min as int, t_max as int) is Some),
            (deterministic(*self) && res is Some) ==> hit_matches(
                res.unwrap(),
                ohit(*self, *r, t_min as int, t_max as int).unwrap(),
            ),
            res is Some ==> t_min <= res.unwrap().t <= t_max
                && -FX_LIM <= res.unwrap().t <= FX_LIM
                && vec_in_range(res.unwrap().p, 4 * GEO_LIM as int)
                && vec_in_range(res.unwrap().normal, 2 * FP_ONE as int)
                && crate::vec3::unit_band(res.unwrap().normal)
                && material_wf(*res.unwrap().mat_ptr),
            (self is ConstantMedium && res is Some) ==> ({
                let m = self->ConstantMedium_0;
                let h = res.unwrap();
                h.front_face == true && *h.mat_ptr == m.phase_function
                    && h.u == 0 && h.v == 0
                    && (deterministic(*m.boundary) ==> ({
                        let span = smedium_span(m, *r, t_min as int, t_max as int);
                        span is Some && span.unwrap().0 <= h.t && h.t <= span.unwrap().1
                    }))
            }),
            (self is ConstantMedium
                && deterministic(*(self->ConstantMedium_0).boundary)
                && smedium_span(self->ConstantMedium_0, *r, t_min as int, t_max as int) is None)
                ==> res is None,
        decreases *self,
    {
        match self {
            Object::Sphere(s) => {
                let res = s.hit(r, t_min, t_max);
                proof {
                    if res is Some {
                        crate::sphere::lemma_sfinish_props(
                            s.center, s.radius as int, s.mat_ptr, *r, t_min as int, t_max as int,
                        );
                    }
                }
                res
            }
            Object::MovingSphere(s) => {
                let res = s.hit(r, t_min, t_max);
                proof {
                    if res is Some {
                        crate::sphere::lemma_scenter_between(*s, r.tm as int);
                        crate::sphere::lemma_sfinish_props(
                            scenter(*s, r.tm as int), s.radius as int, s.mat_ptr,
                            *r, t_min as int, t_max as int,
                        );
                    }
                }
                res
            }
            Object::XYRect(rc) => {
                let res = rc.hit(r, t_min, t_max);
                proof {
                    if res is Some {
                        lemma_ohit_props(*self, *r, t_min as int, t_max as int);
                    }
                }
                res
            }
            Object::XZRect(rc) => {
                let res = rc.hit(r, t_min, t_max);
                proof {
                    if res is Some {
                        lemma_ohit_props(*self, *r, t_min as int, t_max as int);
                    }
                }
                res
            }
            Object::YZRect(rc) => {
                let res = rc.hit(r, t_min, t_max);
                proof {
                    if res is Some {
                        lemma_ohit_props(*self, *r, t_min as int, t_max as int);
                    }
                }
                res
            }
            Object::Triangle(t) => {
                let res = t.hit(r, t_min, t_max);
                proof {
                    if res is Some {
                        crate::triangle::lemma_striangle_hit_props(*t, *r, t_min as int, t_max as int);
                        crate::aabb::lemma_contains_at_position(
                            crate::triangle::sbbox_triangle(*t), *r,
                            crate::triangle::striangle_hit(*t, *r, t_min as int, t_max as int).unwrap().t as int,
                        );
                    }
                }
                res
            }
            Object::Ring(rg) => {
                let res = rg.hit(r, t_min, t_max);
                proof {
                    if res is Some {
                        crate::ring::lemma_sring_hit_props(*rg, *r, t_min as int, t_max as int);
                        crate::aabb::lemma_contains_at_position(
                            crate::ring::sbbox_ring(*rg), *r,
                            crate::ring::sring_hit(*rg, *r, t_min as int, t_max as int).unwrap().t as int,
                        );
                    }
                }
                res
            }
            Object::Boxes(bx) => {
                proof {
                    assert(*self == Object::Boxes(*bx));
                    assert(crate::boxes::boxes_wf(*bx));
                    assert(owf_seq(bx.sides.objects@));
                }
                let ghost full = bx.sides.objects@;
                let mut best: Option<HitRecord<'a>> = None;
                let mut closest = t_max;
                let n = bx.sides.objects.len();
                let mut i: usize = 0;
                proof {
                    assert(full.subrange(0, 0).len() == 0);
                }
                while i < n
                    invariant
                        owf_seq(full),
                        geo_ray(*r),
                        0 <= r.tm <= FP_ONE,
                        i <= n,
                        n == full.len(),
                        full == bx.sides.objects@,
                        *self == Object::Boxes(*bx),
                        owf(*self),
                        det_seq(full) ==> (match sscan(full.subrange(0, i as int), *r, t_min as int, t_max as int) {
                            Some(h) => best is Some && hit_matches(best.unwrap(), h),
                            None => best is None,
                        }),
                        match best {
                            Some(b) => t_min <= b.t <= t_max && -FX_LIM <= b.t <= FX_LIM
                                && closest == b.t
                                && vec_in_range(b.p, 4 * GEO_LIM as int)
                                && vec_in_range(b.normal, 2 * FP_ONE as int)
                                && crate::vec3::unit_band(b.normal)
                                && material_wf(*b.mat_ptr),
                            None => closest == t_max,
                        },
                    decreases n - i,
                {
                    proof {
                        assert(owf(full[i as int]));
                        if det_seq(full) {
                            assert(deterministic(full[i as int]));
                        }
                        assert(decreases_to!(*self => self->Boxes_0));
                        assert(decreases_to!(self->Boxes_0 => self->Boxes_0.sides));
                        assert(decreases_to!(self->Boxes_0.sides => self->Boxes_0.sides.objects));
                        assert(decreases_to!(self->Boxes_0.sides.objects => self->Boxes_0.sides.objects@));
                        assert(decreases_to!(self->Boxes_0.sides.objects@ => self->Boxes_0.sides.objects@[i as int]));
                        assert(decreases_to!(*self => self->Boxes_0.sides.objects@[i as int]));
                        assert(self->Boxes_0.sides.objects@[i as int] == bx.sides.objects@[i as int]);
                    }
                    let ob = &bx.sides.objects[i];
                    let res_i = ob.hit(r, t_min, closest);
                    proof {
                        let pre = full.subrange(0, i as int);
                        let ext = full.subrange(0, i as int + 1);
                        assert(ext.subrange(0, i as int) =~= pre);
                        assert(ext[i as int] == full[i as int]);
                        assert(ext.len() == i + 1);
                    }
                    match res_i {
                        Some(rec) => {
                            closest = rec.t;
                            best = Some(rec);
                        }
                        None => {}
                    }
                    i = i + 1;
                }
                proof {
                    assert(full.subrange(0, n as int) =~= full);
                }
                best
            }
            Object::List(l) => {
                proof {
                    assert(*self == Object::List(*l));
                    assert(owf_seq(l.objects@));
                }
                let ghost full = l.objects@;
                let mut best: Option<HitRecord<'a>> = None;
                let mut closest = t_max;
                let n = l.objects.len();
                let mut i: usize = 0;
                proof {
                    assert(full.subrange(0, 0).len() == 0);
                }
                while i < n
                    invariant
                        owf_seq(full),
                        geo_ray(*r),
                        0 <= r.tm <= FP_ONE,
                        i <= n,
                        n == full.len(),
                        full == l.objects@,
                        *self == Object::List(*l),
                        owf(*self),
                        det_seq(full) ==> (match sscan(full.subrange(0, i as int), *r, t_min as int, t_max as int) {
                            Some(h) => best is Some && hit_matches(best.unwrap(), h),
                            None => best is None,
                        }),
                        match best {
                            Some(b) => t_min <= b.t <= t_max && -FX_LIM <= b.t <= FX_LIM
                                && closest == b.t
                                && vec_in_range(b.p, 4 * GEO_LIM as int)
                                && vec_in_range(b.normal, 2 * FP_ONE as int)
                                && crate::vec3::unit_band(b.normal)
                                && material_wf(*b.mat_ptr),
                            None => closest == t_max,
                        },
                    decreases n - i,
                {
                    proof {
                        assert(owf(full[i as int]));
                        if det_seq(full) {
                            assert(deterministic(full[i as int]));
                        }
                        assert(decreases_to!(*self => self->List_0));
                        assert(decreases_to!(self->List_0 => self->List_0.objects));
                        assert(decreases_to!(self->List_0.objects => self->List_0.objects@));
                        assert(decreases_to!(self->List_0.objects@ => self->List_0.objects@[i as int]));
                        assert(decreases_to!(*self => self->List_0.objects@[i as int]));
                        assert(self->List_0.objects@[i as int] == l.objects@[i as int]);
                    }
                    let ob = &l.objects[i];
                    let res_i = ob.hit(r, t_min, closest);
                    proof {
                        let pre = full.subrange(0, i as int);
                        let ext = full.subrange(0, i as int + 1);
                        assert(ext.subrange(0, i as int) =~= pre);
                        assert(ext[i as int] == full[i as int]);
                        assert(ext.len() == i + 1);
                    }
                    match res_i {
                        Some(rec) => {
                            closest = rec.t;
                            best = Some(rec);
                        }
                        None => {}
                    }
                    i = i + 1;
                }
                proof {
                    assert(full.subrange(0, n as int) =~= full);
                }
                best
            }
            Object::Translate(tr) => {
                let two = 2 * GEO_LIM;
                let mx = r.orig.x - tr.offset.x;
                let my = r.orig.y - tr.offset.y;
                let mz = r.orig.z - tr.offset.z;
                proof {
                    assert(*self == Object::Translate(*tr));
                    assert(ohit(*self, *r, t_min as int, t_max as int)
                        == strans_hit(*tr, *r, t_min as int, t_max as int));
                }
                if !(-GEO_LIM <= mx && mx <= GEO_LIM && -GEO_LIM <= my && my <= GEO_LIM
                    && -GEO_LIM <= mz && mz <= GEO_LIM) {
                    return None;
                }
                let moved = Ray { orig: Vec3 { x: mx, y: my, z: mz }, dir: r.dir, tm: r.tm };
                match tr.ptr.hit(&moved, t_min, t_max) {
                    Some(rec) => {
                        let px = rec.p.x + tr.offset.x;
                        let py = rec.p.y + tr.offset.y;
                        let pz = rec.p.z + tr.offset.z;
                        let plim = 4 * GEO_LIM;
                        if !(-plim <= px && px <= plim && -plim <= py && py <= plim
                            && -plim <= pz && pz <= plim) {
                            return None;
                        }
                        let on = rec.normal;
                        proof {
                            crate::hittable::lemma_slen2_neg(on);
                        }
                        let mut rec2 = HitRecord::new(
                            Vec3 { x: px, y: py, z: pz },
                            on, rec.t, rec.u, rec.v, rec.front_face, rec.mat_ptr,
                        );
                        rec2.set_face_normal(moved, on);
                        Some(rec2)
                    }
                    None => None,
                }
            }
            Object::RotateY(rt) => {
                proof {
                    assert(*self == Object::RotateY(*rt));
                    assert(decreases_to!(*self => self->RotateY_0));
                }
                rotate_hit(rt, r, t_min, t_max)
            }
            Object::FlipFace(f) => {
                match f.ptr.hit(r, t_min, t_max) {
                    Some(rec) => {
                        let mut rec2 = rec;
                        rec2.front_face = !rec2.front_face;
                        Some(rec2)
                    }
                    None => None,
                }
            }
            Object::ConstantMedium(m) => {
                proof {
                    assert(*self == Object::ConstantMedium(*m));
                    assert(crate::medium::medium_wf(*m));
                    assert(decreases_to!(*self => self->ConstantMedium_0));
                }
                medium_hit(m, r, t_min, t_max)
            }
            Object::Bvh(n) => {
                if !n.aabbox.hit(r, t_min, t_max) {
                    return None;
                }
                match n.left.hit(r, t_min, t_max) {
                    Some(recl) => {
                        let lt = recl.t;
                        match n.right.hit(r, t_min, lt) {
                            Some(recr) => Some(recr),
                            None => Some(recl),
                        }
                    }
                    None => n.right.hit(r, t_min, t_max),
                }
            }
        }
    }

    /// The bounding box this object reports, when it has one.
    #[verifier::rlimit(100)]
    pub fn bounding_box(&self) -> (res: Option<AABB>)
        requires
            owf(*self),
        ensures
            res == sbbox(*self),
            res is Some ==> box_in_range(res.unwrap()),
        decreases *self,
    {
        proof {
            lemma_sbbox_in_range(*self);
        }
        match self {
            Object::Sphere(s) => Some(s.bounding_box()),
            Object::MovingSphere(s) => Some(s.bounding_box()),
            Object::XYRect(rc) => Some(rc.bounding_box()),
            Object::XZRect(rc) => Some(rc.bounding_box()),
            Object::YZRect(rc) => Some(rc.bounding_box()),
            Object::Triangle(t) => Some(t.bounding_box()),
            Object::Ring(rg) => Some(rg.bounding_box()),
            Object::Boxes(bx) => {
                proof {
                    assert(*self == Object::Boxes(*bx));
                    assert(crate::boxes::boxes_wf(*bx));
                }
                Some(AABB {
                    min: Vec3 {
                        x: bx.min.x - crate::aabb::BOX_PAD,
                        y: bx.min.y - crate::aabb::BOX_PAD,
                        z: bx.min.z - crate::aabb::BOX_PAD,
                    },
                    max: Vec3 {
                        x: bx.max.x + crate::aabb::BOX_PAD,
                        y: bx.max.y + crate::aabb::BOX_PAD,
                        z: bx.max.z + crate::aabb::BOX_PAD,
                    },
                })
            }
            Object::List(l) => {
                proof {
                    assert(*self == Object::List(*l));
                    assert(owf_seq(l.objects@));
                }
                let ghost full = l.objects@;
                let n = l.objects.len();
                if n == 0 {
                    proof {
                        assert(full.len() == 0);
                        assert(sbbox_seq(full) is None);
                        assert(sbbox(*self) == sbbox_seq(full));
                    }
                    return None;
                }
                proof {
                    assert(owf(full[0]));
                    assert(full.subrange(0, 1int).len() == 1);
                    assert(full.subrange(0, 1int)[0] == full[0]);
                }
                let mut acc = l.objects[0].bounding_box();
                let mut i: usize = 1;
                while i < n
                    invariant
                        owf_seq(full),
                        1 <= i <= n,
                        n == full.len(),
                        full == l.objects@,
                        *self == Object::List(*l),
                        owf(*self),
                        acc == sbbox_seq(full.subrange(0, i as int)),
                    decreases n - i,
                {
                    proof {
                        assert(owf(full[i as int]));
                        assert(decreases_to!(*self => self->List_0));
                        assert(decreases_to!(self->List_0 => self->List_0.objects));
                        assert(decreases_to!(self->List_0.objects => self->List_0.objects@));
                        assert(decreases_to!(self->List_0.objects@ => self->List_0.objects@[i as int]));
                        assert(decreases_to!(*self => self->List_0.objects@[i as int]));
                        assert(self->List_0.objects@[i as int] == l.objects@[i as int]);
                    }
                    let bi = l.objects[i].bounding_box();
                    proof {
                        let pre = full.subrange(0, i as int);
                        let ext = full.subrange(0, i as int + 1);
                        assert(ext.subrange(0, i as int) =~= pre);
                        assert(ext[i as int] == full[i as int]);
                        assert(ext.len() == i + 1);
                    }
                    acc = match (acc, bi) {
                        (Some(b0), Some(b1)) => Some(AABB::surrounding_box(b0, b1)),
                        _ => None,
                    };
                    i = i + 1;
                }
                proof {
                    assert(full.subrange(0, n as int) =~= full);
                }
                acc
            }
            Object::Translate(tr) => {
                match tr.ptr.bounding_box() {
                    Some(b) => {
                        let sb = AABB {
                            min: Vec3 {
                                x: b.min.x + tr.offset.x,
                                y: b.min.y + tr.offset.y,
                                z: b.min.z + tr.offset.z,
                            },
                            max: Vec3 {
                                x: b.max.x + tr.offset.x,
                                y: b.max.y + tr.offset.y,
                                z: b.max.z + tr.offset.z,
                            },
                        };
                        let ok = -COORD_LIM <= sb.min.x && sb.min.x <= COORD_LIM
                            && -COORD_LIM <= sb.min.y && sb.min.y <= COORD_LIM
                            && -COORD_LIM <= sb.min.z && sb.min.z <= COORD_LIM
                            && -COORD_LIM <= sb.max.x && sb.max.x <= COORD_LIM
                            && -COORD_LIM <= sb.max.y && sb.max.y <= COORD_LIM
                            && -COORD_LIM <= sb.max.z && sb.max.z <= COORD_LIM;
                        if ok {
                            Some(sb)
                        } else {
                            None
                        }
                    }
                    None => None,
                }
            }
            Object::FlipFace(f) => f.ptr.bounding_box(),
            Object::RotateY(rt) => {
                proof {
                    assert(*self == Object::RotateY(*rt));
                    assert(decreases_to!(*self => self->RotateY_0));
                }
                rotate_box(rt)
            }
            Object::ConstantMedium(m) => {
                proof {
                    assert(*self == Object::ConstantMedium(*m));
                    assert(crate::medium::medium_wf(*m));
                }
                m.boundary.bounding_box()
            }
            Object::Bvh(n) => Some(n.aabbox),
        }
    }
}

/// A sequence of members each bounded by one box folds to a box bounded by
/// it too.
pub proof fn lemma_sbbox_seq_le(s: Seq<Object>, bb: AABB)
    requires
        s.len() >= 1,
        forall|i: int| 0 <= i < s.len() ==> sbbox(#[trigger] s[i]) is Some
            && box_le(sbbox(s[i]).unwrap(), bb),
    ensures
        sbbox_seq(s) is Some,
        box_le(sbbox_seq(s).unwrap(), bb),
    decreases s.len(),
{
    if s.len() == 1 {
    } else {
        let pre = s.subrange(0, s.len() - 1);
        assert forall|i: int| 0 <= i < pre.len() implies sbbox(#[trigger] pre[i]) is Some
            && box_le(sbbox(pre[i]).unwrap(), bb) by {
            assert(pre[i] == s[i]);
        }
        lemma_sbbox_seq_le(pre, bb);
    }
}

} // verus!


verus! {

/// What sampling a direction toward an object can return: a rectangle
/// light yields a vector from the origin to a point of the rectangle; a
/// list yields some member's sample; everything else is never sampled and
/// returns the fixed unit x direction.
pub open spec fn srandom_shape(o: Object, origin: Point3, res: Vec3) -> bool
    decreases o, 2int,
{
    match o {
        Object::XZRect(rc) => rc.x0 <= res.x + origin.x < rc.x1
            && res.y + origin.y == rc.k
            && rc.z0 <= res.z + origin.z < rc.z1,
        Object::List(l) => if l.objects@.len() == 0 {
            res == (Vec3 { x: FP_ONE, y: 0i128, z: 0i128 })
        } else {
            exists|i: int| #![auto] 0 <= i < l.objects@.len()
                && srandom_shape(l.objects@[i], origin, res)
        },
        _ => res == (Vec3 { x: FP_ONE, y: 0i128, z: 0i128 }),
    }
}

/// A bound under which list-averaged densities cannot overflow: no list
/// sampled as a light holds more than a million members.
pub open spec fn pdf_wf(o: Object) -> bool
    decreases o, 1int,
{
    match o {
        Object::List(l) => l.objects@.len() <= 1048576 && pdf_seq_wf(l.objects@),
        _ => true,
    }
}

pub open spec fn pdf_seq_wf(s: Seq<Object>) -> bool
    decreases s, 0int,
{
    forall|i: int| 0 <= i < s.len() ==> pdf_wf(#[trigger] s[i])
}

/// Largest value a light-sampling density can take.
pub open spec fn pdf_cap() -> int {
    (FX_LIM as int) * (FP_ONE as int)
}

impl Object {
    /// The density with which `random` would sample the direction `v` from
    /// `origin`: the solid-angle law for a rectangle light, the average for
    /// a list, zero for objects that are not sampled as lights.
    #[verifier::rlimit(60)]
    pub fn pdf_value(&self, origin: &Point3, v: &Vec3) -> (r: i128)
        requires
            owf(*self),
            pdf_wf(*self),
            vec_in_range(*origin, 6 * GEO_LIM as int),
            vec_in_range(*v, 6 * GEO_LIM as int),
            crate::vec3::slen2(*v) >= crate::vec3::UNIT_MIN_LEN2,
        ensures
            r == spdf(*self, *origin, *v),
            0 <= r <= pdf_cap(),
        decreases *self,
    {
        match self {
            Object::XZRect(rc) => {
                let ray = Ray { orig: *origin, dir: *v, tm: 0 };
                let res = rc.hit(&ray, 4294967, FX_LIM);
                match res {
                    Some(rec) => {
                        proof {
                            crate::aarect::lemma_sxzrect_hit_props(*rc, ray, 4294967, FX_LIM as int);
                        }
                        let t2 = crate::fx::fx_mul(rec.t, rec.t);
                        if !(-FX_LIM <= t2 && t2 <= FX_LIM) {
                            return 0;
                        }
                        proof {
                            crate::vec3::lemma_fxm_tight(v.x as int, v.x as int,
                                6 * GEO_LIM as int, 6 * GEO_LIM as int);
                            crate::vec3::lemma_fxm_tight(v.y as int, v.y as int,
                                6 * GEO_LIM as int, 6 * GEO_LIM as int);
                            crate::vec3::lemma_fxm_tight(v.z as int, v.z as int,
                                6 * GEO_LIM as int, 6 * GEO_LIM as int);
                            assert((6 * GEO_LIM as int) * (6 * GEO_LIM as int) / (FP_ONE as int)
                                == 162129586585337856) by (nonlinear_arith);
                            crate::vec3::lemma_slen2_nonneg(*v);
                        }
                        let l2 = v.len_sqr();
                        let dis_sqr = crate::fx::fx_mul(t2, l2);
                        if !(-FX_LIM <= dis_sqr && dis_sqr <= FX_LIM) {
                            return 0;
                        }
                        let len = v.length();
                        proof {
                            assert(len > 0) by (nonlinear_arith)
                                requires
                                    (len + 1) * (len + 1) > slen2(*v) * FP_ONE,
                                    slen2(*v) >= 65536,
                                    FP_ONE == 4294967296,
                                    len >= 0,
                            ;
                            crate::pdf::lemma_unitish_dot_wide(*v, rec.normal);
                        }
                        let dt = v.dot(&rec.normal);
                        let da = crate::fx::i_abs(dt);
                        proof {
                            assert(len >= 16777216) by (nonlinear_arith)
                                requires
                                    (len + 1) * (len + 1) > slen2(*v) * FP_ONE,
                                    slen2(*v) >= 65536,
                                    FP_ONE == 4294967296,
                                    len >= 0,
                            ;
                            assert(da as int * FP_ONE <= len * 72057594037927936)
                                by (nonlinear_arith)
                                requires
                                    0 <= da <= 158329674399744,
                                    len >= 16777216,
                                    FP_ONE == 4294967296,
                            ;
                            crate::fx::lemma_tdiv_ratio_le(
                                da as int * FP_ONE, len as int,
                                72057594037927936,
                            );
                            crate::fx::lemma_tdiv_abs_le(da as int * FP_ONE, len as int);
                        }
                        let cosr = crate::fx::i_div(da * FP_ONE, len);
                        proof {
                            lemma_area_range(rc.x1 as int - rc.x0 as int, rc.z1 as int - rc.z0 as int);
                        }
                        let area = crate::fx::fx_mul(rc.x1 - rc.x0, rc.z1 - rc.z0);
                        let denom = crate::fx::fx_mul(cosr, area);
                        if denom <= 0 {
                            0
                        } else {
                            proof {
                                crate::fx::lemma_tdiv_abs_le(dis_sqr as int * FP_ONE, denom as int);
                                assert(dis_sqr >= 0) by {
                                    crate::fx::lemma_fxm_zero(0);
                                    lemma_sq_nonneg(rec.t as int, slen2(*v));
                                }
                            }
                            let pv = crate::fx::fx_div(dis_sqr, denom);
                            pv
                        }
                    }
                    None => 0,
                }
            }
            Object::List(l) => {
                proof {
                    assert(*self == Object::List(*l));
                    assert(owf_seq(l.objects@) && pdf_seq_wf(l.objects@));
                }
                let ghost full = l.objects@;
                let n = l.objects.len();
                if n == 0 {
                    return 0;
                }
                let mut sum: i128 = 0;
                let mut i: usize = 0;
                proof {
                    assert(spdf_sum(full.subrange(0, 0), *origin, *v) == 0);
                }
                while i < n
                    invariant
                        owf_seq(full),
                        pdf_seq_wf(full),
                        vec_in_range(*origin, 6 * GEO_LIM as int),
                        vec_in_range(*v, 6 * GEO_LIM as int),
                        crate::vec3::slen2(*v) >= crate::vec3::UNIT_MIN_LEN2,
                        i <= n,
                        n == full.len(),
                        n <= 1048576,
                        full == l.objects@,
                        *self == Object::List(*l),
                        owf(*self),
                        sum == spdf_sum(full.subrange(0, i as int), *origin, *v),
                        0 <= sum <= (i as int) * pdf_cap(),
                    decreases n - i,
                {
                    proof {
                        assert(owf(full[i as int]) && pdf_wf(full[i as int]));
                        assert(decreases_to!(*self => self->List_0));
                        assert(decreases_to!(self->List_0 => self->List_0.objects));
                        assert(decreases_to!(self->List_0.objects => self->List_0.objects@));
                        assert(decreases_to!(self->List_0.objects@ => self->List_0.objects@[i as int]));
                        assert(decreases_to!(*self => self->List_0.objects@[i as int]));
                        assert(self->List_0.objects@[i as int] == l.objects@[i as int]);
                        assert((i as int) * pdf_cap() + pdf_cap() == (i as int + 1) * pdf_cap())
                            by (nonlinear_arith);
                    }
                    let p = l.objects[i].pdf_value(origin, v);
                    proof {
                        let pre = full.subrange(0, i as int);
                        let ext = full.subrange(0, i as int + 1);
                        assert(ext.subrange(0, i as int) =~= pre);
                        assert(ext[i as int] == full[i as int]);
                        assert(ext.len() == i + 1);
                    }
                    sum = sum + p;
                    i = i + 1;
                }
                proof {
                    assert(full.subrange(0, n as int) =~= full);
                    crate::fx::lemma_tdiv_abs_le(sum as int, n as int);
                    assert(sum <= (n as int) * pdf_cap()) ;
                    crate::fx::lemma_tdiv_ratio_le(sum as int, n as int, pdf_cap());
                }
                crate::fx::i_div(sum, n as i128)
            }
            _ => 0,
        }
    }

    /// A direction toward a sampled point of this object: rectangle lights
    /// sample a grid point, lists pick a member at random, everything else
    /// returns a fixed direction, as it is never sampled.
    pub fn random(&self, origin: &Point3) -> (res: Vec3)
        requires
            owf(*self),
            vec_in_range(*origin, 4 * GEO_LIM as int),
        ensures
            vec_in_range(res, 6 * GEO_LIM as int),
            srandom_shape(*self, *origin, res),
        decreases *self,
    {
        match self {
            Object::XZRect(rc) => rc.random(origin),
            Object::List(l) => {
                proof {
                    assert(*self == Object::List(*l));
                    assert(owf_seq(l.objects@));
                }
                let n = l.objects.len();
                if n == 0 {
                    Vec3 { x: FP_ONE, y: 0, z: 0 }
                } else {
                    let i = crate::rng::random_index(n);
                    proof {
                        assert(owf(l.objects@[i as int]));
                        assert(decreases_to!(*self => self->List_0));
                        assert(decreases_to!(self->List_0 => self->List_0.objects));
                        assert(decreases_to!(self->List_0.objects => self->List_0.objects@));
                        assert(decreases_to!(self->List_0.objects@ => self->List_0.objects@[i as int]));
                        assert(decreases_to!(*self => self->List_0.objects@[i as int]));
                    }
                    let res = l.objects[i].random(origin);
                    proof {
                        assert(srandom_shape(l.objects@[i as int], *origin, res));
                    }
                    res
                }
            }
            _ => Vec3 { x: FP_ONE, y: 0, z: 0 },
        }
    }
}

/// A rectangle's area factor is nonnegative and bounded.
proof fn lemma_area_range(dx: int, dz: int)
    requires
        0 < dx <= 2 * GEO_LIM,
        0 < dz <= 2 * GEO_LIM,
    ensures
        0 <= fxm(dx, dz),
        absi(fxm(dx, dz)) <= FX_LIM as int,
{
    assert(dx * dz >= 0) by (nonlinear_arith)
        requires dx > 0, dz > 0
    ;
    crate::fx::lemma_tdiv_abs_le(dx * dz, FP_ONE as int);
    crate::vec3::lemma_fxm_tight(dx, dz, 2 * GEO_LIM as int, 2 * GEO_LIM as int);
    assert((2 * GEO_LIM as int) * (2 * GEO_LIM as int) / (FP_ONE as int) <= FX_LIM as int)
        by (nonlinear_arith);
}

/// The product of two nonnegative quantities is nonnegative in fixed point.
proof fn lemma_sq_nonneg(t: int, l2: int)
    requires
        l2 >= 0,
    ensures
        fxm(fxm(t, t), l2) >= 0,
{
    assert(t * t >= 0) by (nonlinear_arith);
    crate::fx::lemma_tdiv_abs_le(t * t, FP_ONE as int);
    let q = fxm(t, t);
    assert(q * l2 >= 0) by (nonlinear_arith)
        requires q >= 0, l2 >= 0
    ;
    crate::fx::lemma_tdiv_abs_le(q * l2, FP_ONE as int);
}

} // verus!


verus! {

/// The participating medium's intersection test, factored out of the main
/// dispatch. Every reported interaction sits in the clamped boundary span,
/// scatters into the phase function, and is marked front-facing; when the
/// boundary is deterministic and the span is empty, the ray always passes
/// through.
fn medium_hit<'a>(m: &'a crate::medium::ConstantMedium, r: &Ray, t_min: i128, t_max: i128) -> (res: Option<HitRecord<'a>>)
    requires
        crate::medium::medium_wf(*m),
        geo_ray(*r),
        0 <= r.tm <= FP_ONE,
    ensures
        res is Some ==> ({
            let h = res.unwrap();
            t_min <= h.t <= t_max && -FX_LIM <= h.t <= FX_LIM
                && vec_in_range(h.p, 4 * GEO_LIM as int)
                && h.normal == (Vec3 { x: FP_ONE, y: 0i128, z: 0i128 })
                && crate::vec3::unit_band(h.normal)
                && h.front_face == true
                && *h.mat_ptr == m.phase_function
                && h.u == 0 && h.v == 0
                && material_wf(*h.mat_ptr)
        }),
        (deterministic(*m.boundary) && res is Some) ==> ({
            let h = res.unwrap();
            let span = smedium_span(*m, *r, t_min as int, t_max as int);
            span is Some && span.unwrap().0 <= h.t && h.t <= span.unwrap().1
        }),
        (deterministic(*m.boundary)
            && smedium_span(*m, *r, t_min as int, t_max as int) is None) ==> res is None,
    decreases *m,
{
                let r1 = m.boundary.hit(r, -FX_LIM, FX_LIM);
                let rec1 = match r1 {
                    Some(x) => x,
                    None => {
                        return None;
                    }
                };
                let r2 = m.boundary.hit(r, rec1.t + 429497, FX_LIM);
                let rec2 = match r2 {
                    Some(x) => x,
                    None => {
                        return None;
                    }
                };
                let mut ta = if rec1.t > t_min { rec1.t } else { t_min };
                if ta < 0 {
                    ta = 0;
                }
                let tb = if rec2.t < t_max { rec2.t } else { t_max };
                if ta >= tb {
                    return None;
                }
                let rl = r.dir.length();
                if rl <= 0 {
                    return None;
                }
                let span = tb - ta;
                proof {
                    crate::vec3::lemma_fxm_tight(r.dir.x as int, r.dir.x as int,
                        6 * GEO_LIM as int, 6 * GEO_LIM as int);
                    crate::vec3::lemma_fxm_tight(r.dir.y as int, r.dir.y as int,
                        6 * GEO_LIM as int, 6 * GEO_LIM as int);
                    crate::vec3::lemma_fxm_tight(r.dir.z as int, r.dir.z as int,
                        6 * GEO_LIM as int, 6 * GEO_LIM as int);
                    assert((6 * GEO_LIM as int) * (6 * GEO_LIM as int) / (FP_ONE as int)
                        == 162129586585337856) by (nonlinear_arith);
                    assert(rl <= 45705840067699) by (nonlinear_arith)
                        requires
                            rl * rl <= crate::vec3::slen2(r.dir) * FP_ONE,
                            crate::vec3::slen2(r.dir) <= 486388759756013568,
                            rl >= 0,
                            FP_ONE == 4294967296,
                    ;
                }
                let dist = crate::fx::fx_mul(span, rl);
                let u0 = crate::rng::random_unit_fx();
                let u = if u0 < 1 { 1 } else { u0 };
                let nl = crate::fx::fx_neg_ln(u);
                let hd = crate::fx::fx_mul(m.neg_inv_density, nl);
                if hd > dist {
                    return None;
                }
                proof {
                    assert(hd >= 0) by {
                        assert(m.neg_inv_density as int * nl as int >= 0) by (nonlinear_arith)
                            requires m.neg_inv_density >= 0, nl >= 0
                        ;
                        crate::fx::lemma_tdiv_abs_le(m.neg_inv_density as int * nl as int, FP_ONE as int);
                    }
                    assert(dist as int * FP_ONE <= span as int * rl as int);
                    assert(hd as int * FP_ONE <= span as int * rl as int) by (nonlinear_arith)
                        requires
                            hd <= dist,
                            dist as int * FP_ONE <= span as int * rl as int,
                            FP_ONE > 0,
                    ;
                    crate::fx::lemma_tdiv_ratio_le(hd as int * FP_ONE, rl as int, span as int);
                    crate::fx::lemma_tdiv_abs_le(hd as int * FP_ONE, rl as int);
                    assert(hd <= 50000000000000000000000) by (nonlinear_arith)
                        requires
                            0 <= hd as int * FP_ONE <= span as int * rl as int,
                            0 <= span <= FX_LIM,
                            0 <= rl <= 45705840067699,
                            0 <= hd,
                            FP_ONE == 4294967296,
                            FX_LIM == 4611686018427387904,
                    ;
                }
                let num = hd * FP_ONE;
                let delta = crate::fx::i_div(num, rl);
                proof {
                    assert(0 <= delta <= span);
                }
                let t = ta + delta;
                if !(t_min <= t && t <= t_max && -FX_LIM <= t && t <= FX_LIM) {
                    return None;
                }
                let p = r.at(t);
                let g4 = 4 * GEO_LIM;
                if !(-g4 <= p.x && p.x <= g4 && -g4 <= p.y && p.y <= g4 && -g4 <= p.z && p.z <= g4) {
                    return None;
                }
                proof {
                    crate::fx::lemma_fxm_one();
                }
                let rec = HitRecord::new(p, Vec3 { x: FP_ONE, y: 0, z: 0 }, t, 0, 0, true, &m.phase_function);
                Some(rec)
}

} // verus!

verus! {

/// Rotated corner coordinates stay within twice the child box's range.
proof fn lemma_rot_corner_ranges(st: i128, ct: i128, b: AABB)
    requires
        absi(st as int) <= FP_ONE,
        absi(ct as int) <= FP_ONE,
        box_in_range(b),
    ensures
        absi(fxm(ct as int, b.min.x as int)) <= COORD_LIM,
        absi(fxm(ct as int, b.max.x as int)) <= COORD_LIM,
        absi(fxm(ct as int, b.min.z as int)) <= COORD_LIM,
        absi(fxm(ct as int, b.max.z as int)) <= COORD_LIM,
        absi(fxm(st as int, b.min.x as int)) <= COORD_LIM,
        absi(fxm(st as int, b.max.x as int)) <= COORD_LIM,
        absi(fxm(st as int, b.min.z as int)) <= COORD_LIM,
        absi(fxm(st as int, b.max.z as int)) <= COORD_LIM,
{
    crate::vec3::lemma_fxm_tight(ct as int, b.min.x as int, FP_ONE as int, COORD_LIM as int);
    crate::vec3::lemma_fxm_tight(ct as int, b.max.x as int, FP_ONE as int, COORD_LIM as int);
    crate::vec3::lemma_fxm_tight(ct as int, b.min.z as int, FP_ONE as int, COORD_LIM as int);
    crate::vec3::lemma_fxm_tight(ct as int, b.max.z as int, FP_ONE as int, COORD_LIM as int);
    crate::vec3::lemma_fxm_tight(st as int, b.min.x as int, FP_ONE as int, COORD_LIM as int);
    crate::vec3::lemma_fxm_tight(st as int, b.max.x as int, FP_ONE as int, COORD_LIM as int);
    crate::vec3::lemma_fxm_tight(st as int, b.min.z as int, FP_ONE as int, COORD_LIM as int);
    crate::vec3::lemma_fxm_tight(st as int, b.max.z as int, FP_ONE as int, COORD_LIM as int);
    assert((FP_ONE as int) * (COORD_LIM as int) / (FP_ONE as int) == COORD_LIM as int)
        by (nonlinear_arith);
}

/// The rotation wrapper's hit test, factored out of the main dispatch.
#[verifier::rlimit(100)]
fn rotate_hit<'a>(rt: &'a RotateY, r: &Ray, t_min: i128, t_max: i128) -> (res: Option<HitRecord<'a>>)
    requires
        owf(Object::RotateY(*rt)),
        geo_ray(*r),
        0 <= r.tm <= FP_ONE,
    ensures
        deterministic(*rt.ptr) ==> (res is Some <==> srot_hit(*rt, *r, t_min as int, t_max as int) is Some),
        (deterministic(*rt.ptr) && res is Some) ==> hit_matches(
            res.unwrap(),
            srot_hit(*rt, *r, t_min as int, t_max as int).unwrap(),
        ),
        res is Some ==> t_min <= res.unwrap().t <= t_max
            && -FX_LIM <= res.unwrap().t <= FX_LIM
            && vec_in_range(res.unwrap().p, 4 * GEO_LIM as int)
            && vec_in_range(res.unwrap().normal, 2 * FP_ONE as int)
            && crate::vec3::unit_band(res.unwrap().normal)
            && material_wf(*res.unwrap().mat_ptr),
    decreases *rt,
{
    let st = rt.sin_theta;
    let ct = rt.cos_theta;
    proof {
        crate::vec3::lemma_fxm_tight(ct as int, r.orig.x as int, FP_ONE as int, 6 * GEO_LIM as int);
        crate::vec3::lemma_fxm_tight(st as int, r.orig.z as int, FP_ONE as int, 6 * GEO_LIM as int);
        crate::vec3::lemma_fxm_tight(st as int, r.orig.x as int, FP_ONE as int, 6 * GEO_LIM as int);
        crate::vec3::lemma_fxm_tight(ct as int, r.orig.z as int, FP_ONE as int, 6 * GEO_LIM as int);
        crate::vec3::lemma_fxm_tight(ct as int, r.dir.x as int, FP_ONE as int, 6 * GEO_LIM as int);
        crate::vec3::lemma_fxm_tight(st as int, r.dir.z as int, FP_ONE as int, 6 * GEO_LIM as int);
        crate::vec3::lemma_fxm_tight(st as int, r.dir.x as int, FP_ONE as int, 6 * GEO_LIM as int);
        crate::vec3::lemma_fxm_tight(ct as int, r.dir.z as int, FP_ONE as int, 6 * GEO_LIM as int);
        assert((FP_ONE as int) * (6 * GEO_LIM as int) / (FP_ONE as int) == 6 * GEO_LIM as int)
            by (nonlinear_arith);
    }
    let mox = crate::fx::fx_mul(ct, r.orig.x) - crate::fx::fx_mul(st, r.orig.z);
    let moz = crate::fx::fx_mul(ct, r.orig.z) + crate::fx::fx_mul(st, r.orig.x);
    let mdx = crate::fx::fx_mul(ct, r.dir.x) - crate::fx::fx_mul(st, r.dir.z);
    let mdz = crate::fx::fx_mul(ct, r.dir.z) + crate::fx::fx_mul(st, r.dir.x);
    let g6 = 6 * GEO_LIM;
    let rb = match rotate_box(rt) {
        Some(b) => b,
        None => {
            return None;
        }
    };
    if !(-g6 <= mox && mox <= g6 && -g6 <= moz && moz <= g6
        && -g6 <= mdx && mdx <= g6 && -g6 <= mdz && mdz <= g6) {
        return None;
    }
    let moved = Ray {
        orig: Vec3 { x: mox, y: r.orig.y, z: moz },
        dir: Vec3 { x: mdx, y: r.dir.y, z: mdz },
        tm: r.tm,
    };
    let rec = match rt.ptr.hit(&moved, t_min, t_max) {
        Some(x) => x,
        None => {
            return None;
        }
    };
    proof {
        crate::vec3::lemma_fxm_tight(ct as int, rec.p.x as int, FP_ONE as int, 4 * GEO_LIM as int);
        crate::vec3::lemma_fxm_tight(st as int, rec.p.z as int, FP_ONE as int, 4 * GEO_LIM as int);
        crate::vec3::lemma_fxm_tight(st as int, rec.p.x as int, FP_ONE as int, 4 * GEO_LIM as int);
        crate::vec3::lemma_fxm_tight(ct as int, rec.p.z as int, FP_ONE as int, 4 * GEO_LIM as int);
        assert((FP_ONE as int) * (4 * GEO_LIM as int) / (FP_ONE as int) == 4 * GEO_LIM as int)
            by (nonlinear_arith);
        crate::vec3::lemma_fxm_tight(ct as int, rec.normal.x as int, FP_ONE as int, 2 * FP_ONE as int);
        crate::vec3::lemma_fxm_tight(st as int, rec.normal.z as int, FP_ONE as int, 2 * FP_ONE as int);
        crate::vec3::lemma_fxm_tight(st as int, rec.normal.x as int, FP_ONE as int, 2 * FP_ONE as int);
        crate::vec3::lemma_fxm_tight(ct as int, rec.normal.z as int, FP_ONE as int, 2 * FP_ONE as int);
        assert((FP_ONE as int) * (2 * FP_ONE as int) / (FP_ONE as int) == 2 * FP_ONE as int)
            by (nonlinear_arith);
    }
    let px = crate::fx::fx_mul(ct, rec.p.x) + crate::fx::fx_mul(st, rec.p.z);
    let pz = crate::fx::fx_mul(ct, rec.p.z) - crate::fx::fx_mul(st, rec.p.x);
    let nx = crate::fx::fx_mul(ct, rec.normal.x) + crate::fx::fx_mul(st, rec.normal.z);
    let nz = crate::fx::fx_mul(ct, rec.normal.z) - crate::fx::fx_mul(st, rec.normal.x);
    let p2 = Vec3 { x: px, y: rec.p.y, z: pz };
    let n0 = Vec3 { x: nx, y: rec.normal.y, z: nz };
    let g4 = 4 * GEO_LIM;
    let l2 = n0.len_sqr();
    if !(-g4 <= px && px <= g4 && -g4 <= rec.p.y && rec.p.y <= g4 && -g4 <= pz && pz <= g4
        && FP_ONE - crate::vec3::UNIT_TOL <= l2 && l2 <= FP_ONE + crate::vec3::UNIT_TOL
        && crate::aabb::contains_at_exec(&rb, r, rec.t)) {
        return None;
    }
    proof {
        crate::vec3::lemma_unit_band_range(n0);
        crate::hittable::lemma_slen2_neg(n0);
    }
    let mut rec2 = HitRecord::new(p2, n0, rec.t, rec.u, rec.v, rec.front_face, rec.mat_ptr);
    rec2.set_face_normal(moved, n0);
    Some(rec2)
}

/// The rotated object's box, computed from the child's box corners.
fn rotate_box(rt: &RotateY) -> (res: Option<AABB>)
    requires
        owf(Object::RotateY(*rt)),
    ensures
        res == srot_box(*rt),
        res is Some ==> box_in_range(res.unwrap()),
    decreases *rt,
{
    proof {
        assert(owf(*rt.ptr));
    }
    match rt.ptr.bounding_box() {
        Some(b) => {
            proof {
                lemma_rot_corner_ranges(rt.sin_theta, rt.cos_theta, b);
            }
            let st = rt.sin_theta;
            let ct = rt.cos_theta;
            let x1 = crate::fx::fx_mul(ct, b.min.x) + crate::fx::fx_mul(st, b.min.z);
            let z1 = crate::fx::fx_mul(ct, b.min.z) - crate::fx::fx_mul(st, b.min.x);
            let x2 = crate::fx::fx_mul(ct, b.min.x) + crate::fx::fx_mul(st, b.max.z);
            let z2 = crate::fx::fx_mul(ct, b.max.z) - crate::fx::fx_mul(st, b.min.x);
            let x3 = crate::fx::fx_mul(ct, b.max.x) + crate::fx::fx_mul(st, b.min.z);
            let z3 = crate::fx::fx_mul(ct, b.min.z) - crate::fx::fx_mul(st, b.max.x);
            let x4 = crate::fx::fx_mul(ct, b.max.x) + crate::fx::fx_mul(st, b.max.z);
            let z4 = crate::fx::fx_mul(ct, b.max.z) - crate::fx::fx_mul(st, b.max.x);
            let xmin = crate::fx::i_min(crate::fx::i_min(x1, x2), crate::fx::i_min(x3, x4));
            let xmax = crate::fx::i_max(crate::fx::i_max(x1, x2), crate::fx::i_max(x3, x4));
            let zmin = crate::fx::i_min(crate::fx::i_min(z1, z2), crate::fx::i_min(z3, z4));
            let zmax = crate::fx::i_max(crate::fx::i_max(z1, z2), crate::fx::i_max(z3, z4));
            let rb = AABB {
                min: Vec3 {
                    x: xmin - crate::aabb::BOX_PAD,
                    y: b.min.y - crate::aabb::BOX_PAD,
                    z: zmin - crate::aabb::BOX_PAD,
                },
                max: Vec3 {
                    x: xmax + crate::aabb::BOX_PAD,
                    y: b.max.y + crate::aabb::BOX_PAD,
                    z: zmax + crate::aabb::BOX_PAD,
                },
            };
            let ok = -COORD_LIM <= rb.min.x && rb.min.x <= COORD_LIM
                && -COORD_LIM <= rb.min.y && rb.min.y <= COORD_LIM
                && -COORD_LIM <= rb.min.z && rb.min.z <= COORD_LIM
                && -COORD_LIM <= rb.max.x && rb.max.x <= COORD_LIM
                && -COORD_LIM <= rb.max.y && rb.max.y <= COORD_LIM
                && -COORD_LIM <= rb.max.z && rb.max.z <= COORD_LIM;
            if ok {
                Some(rb)
            } else {
                None
            }
        }
        None => None,
    }
}

} // verus!
