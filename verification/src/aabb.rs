//! Axis-aligned bounding boxes with an exact slab test.
//!
//! Membership of a ray position in a box is a pure integer predicate
//! (`contains_at`), and the box test decides *exactly* whether some
//! fixed-point parameter in `[t_min, t_max]` places the ray inside the box.
//! A direction component of zero degenerates, as it should, into a test of
//! the origin against the slab.

use vstd::prelude::*;
use crate::fx::{
    absi, fdiv, cdiv, floor_div, ceil_div, lemma_div_decision, i_min, i_max,
    FP_ONE, COORD_LIM,
};
use crate::vec3::{Vec3, Point3, vec_in_range};
use crate::ray::{Ray, ray_wf};

verus! {

/// An axis-aligned box, the corner of smallest coordinates and the corner
/// of largest coordinates.
#[derive(Clone, Copy, PartialEq, Eq, Structural, Debug)]
pub struct AABB {
    pub min: Point3,
    pub max: Point3,
}

/// Corners within the world coordinate range.
pub open spec fn box_in_range(b: AABB) -> bool {
    vec_in_range(b.min, COORD_LIM as int) && vec_in_range(b.max, COORD_LIM as int)
}

/// One axis of the slab membership test at parameter `t`: the ray position
/// on this axis lies between the two planes.
pub open spec fn axis_at(mn: int, mx: int, o: int, d: int, t: int) -> bool {
    (mn - o) * FP_ONE <= t * d && t * d <= (mx - o) * FP_ONE
}

/// The ray position at parameter `t` lies inside the box.
pub open spec fn contains_at(b: AABB, r: Ray, t: int) -> bool {
    axis_at(b.min.x as int, b.max.x as int, r.orig.x as int, r.dir.x as int, t)
        && axis_at(b.min.y as int, b.max.y as int, r.orig.y as int, r.dir.y as int, t)
        && axis_at(b.min.z as int, b.max.z as int, r.orig.z as int, r.dir.z as int, t)
}

/// Some parameter within `[t_min, t_max]` places the ray inside the box.
pub open spec fn hit_spec(b: AABB, r: Ray, t_min: int, t_max: int) -> bool {
    exists|t: int| t_min <= t <= t_max && contains_at(b, r, t)
}

/// `inner` lies within `outer`, corner-wise.
pub open spec fn box_le(inner: AABB, outer: AABB) -> bool {
    outer.min.x <= inner.min.x && inner.max.x <= outer.max.x
        && outer.min.y <= inner.min.y && inner.max.y <= outer.max.y
        && outer.min.z <= inner.min.z && inner.max.z <= outer.max.z
}

/// A point lies within the box.
pub open spec fn contains_point(b: AABB, p: Point3) -> bool {
    b.min.x <= p.x <= b.max.x && b.min.y <= p.y <= b.max.y && b.min.z <= p.z <= b.max.z
}

/// The component-wise union of two boxes, as a spec value.
pub open spec fn ssurround(a: AABB, b: AABB) -> AABB {
    AABB {
        min: Vec3 {
            x: if a.min.x <= b.min.x { a.min.x } else { b.min.x },
            y: if a.min.y <= b.min.y { a.min.y } else { b.min.y },
            z: if a.min.z <= b.min.z { a.min.z } else { b.min.z },
        },
        max: Vec3 {
            x: if a.max.x >= b.max.x { a.max.x } else { b.max.x },
            y: if a.max.y >= b.max.y { a.max.y } else { b.max.y },
            z: if a.max.z >= b.max.z { a.max.z } else { b.max.z },
        },
    }
}

/// Narrow the parameter interval `[lo, hi]` by one slab. The result is
/// exactly the set of parameters that stay inside this slab, or `None`
/// when that set is empty.
fn axis_narrow(mn: i128, mx: i128, o: i128, d: i128, lo: i128, hi: i128) -> (res: Option<(i128, i128)>)
    requires
        absi(mn as int) <= COORD_LIM as int,
        absi(mx as int) <= COORD_LIM as int,
        absi(o as int) <= COORD_LIM as int,
        absi(d as int) <= COORD_LIM as int,
    ensures
        match res {
            Some(iv) => iv.0 <= iv.1 && forall|t: int|
                (iv.0 <= t <= iv.1) <==> (lo <= t <= hi && #[trigger] axis_at(mn as int, mx as int, o as int, d as int, t)),
            None => forall|t: int|
                lo <= t <= hi ==> !(#[trigger] axis_at(mn as int, mx as int, o as int, d as int, t)),
        },
{
    let a: i128 = (mn - o) * FP_ONE;
    let b: i128 = (mx - o) * FP_ONE;
    if d == 0 {
        proof {
            assert forall|t: int| #[trigger] axis_at(mn as int, mx as int, o as int, d as int, t)
                <==> (a <= 0 && 0 <= b) by {
                assert(t * (d as int) == 0) by (nonlinear_arith)
                    requires d == 0
                ;
            }
        }
        if a <= 0 && 0 <= b && lo <= hi {
            Some((lo, hi))
        } else {
            None
        }
    } else if d > 0 {
        let l2 = i_max(lo, ceil_div(a, d));
        let h2 = i_min(hi, floor_div(b, d));
        proof {
            assert forall|t: int| #[trigger] axis_at(mn as int, mx as int, o as int, d as int, t)
                <==> (cdiv(a as int, d as int) <= t <= fdiv(b as int, d as int)) by {
                lemma_div_decision(t, a as int, d as int);
                lemma_div_decision(t, b as int, d as int);
            }
        }
        if l2 <= h2 {
            Some((l2, h2))
        } else {
            None
        }
    } else {
        let e = -d;
        let l2 = i_max(lo, ceil_div(-b, e));
        let h2 = i_min(hi, floor_div(-a, e));
        proof {
            assert forall|t: int| #[trigger] axis_at(mn as int, mx as int, o as int, d as int, t)
                <==> (cdiv(-b as int, e as int) <= t <= fdiv(-a as int, e as int)) by {
                assert(t * (e as int) == -(t * (d as int))) by (nonlinear_arith)
                    requires e == -d
                ;
                lemma_div_decision(t, -(b as int), e as int);
                lemma_div_decision(t, -(a as int), e as int);
            }
        }
        if l2 <= h2 {
            Some((l2, h2))
        } else {
            None
        }
    }
}

impl AABB {
    /// Build a box from its two corners.
    pub fn new(min: Point3, max: Point3) -> (r: AABB)
        ensures
            r == (AABB { min, max }),
    {
        AABB { min, max }
    }

    /// The slab test: decides exactly whether some parameter in
    /// `[t_min, t_max]` places the ray inside this box.
    pub fn hit(&self, r: &Ray, t_min: i128, t_max: i128) -> (res: bool)
        requires
            box_in_range(*self),
            ray_wf(*r),
        ensures
            res == hit_spec(*self, *r, t_min as int, t_max as int),
    {
        let b = *self;
        let i1 = axis_narrow(b.min.x, b.max.x, r.orig.x, r.dir.x, t_min, t_max);
        let (l1, h1) = match i1 {
            None => {
                proof {
                    lemma_no_axis_no_hit_x(b, *r, t_min as int, t_max as int, t_min as int, t_max as int);
                }
                return false;
            }
            Some(iv) => iv,
        };
        let i2 = axis_narrow(b.min.y, b.max.y, r.orig.y, r.dir.y, l1, h1);
        let (l2, h2) = match i2 {
            None => {
                proof {
                    assert(!hit_spec(b, *r, t_min as int, t_max as int)) by {
                        if hit_spec(b, *r, t_min as int, t_max as int) {
                            let t = choose|t: int| t_min <= t <= t_max && contains_at(b, *r, t);
                            assert(axis_at(b.min.x as int, b.max.x as int, r.orig.x as int, r.dir.x as int, t));
                            assert(l1 <= t <= h1);
                            assert(axis_at(b.min.y as int, b.max.y as int, r.orig.y as int, r.dir.y as int, t));
                        }
                    }
                }
                return false;
            }
            Some(iv) => iv,
        };
        let i3 = axis_narrow(b.min.z, b.max.z, r.orig.z, r.dir.z, l2, h2);
        match i3 {
            None => {
                proof {
                    assert(!hit_spec(b, *r, t_min as int, t_max as int)) by {
                        if hit_spec(b, *r, t_min as int, t_max as int) {
                            let t = choose|t: int| t_min <= t <= t_max && contains_at(b, *r, t);
                            assert(axis_at(b.min.x as int, b.max.x as int, r.orig.x as int, r.dir.x as int, t));
                            assert(l1 <= t <= h1);
                            assert(axis_at(b.min.y as int, b.max.y as int, r.orig.y as int, r.dir.y as int, t));
                            assert(l2 <= t <= h2);
                            assert(axis_at(b.min.z as int, b.max.z as int, r.orig.z as int, r.dir.z as int, t));
                        }
                    }
                }
                false
            }
            Some(iv) => {
                proof {
                    let w = iv.0 as int;
                    assert(axis_at(b.min.z as int, b.max.z as int, r.orig.z as int, r.dir.z as int, w));
                    assert(l2 <= w <= h2);
                    assert(axis_at(b.min.y as int, b.max.y as int, r.orig.y as int, r.dir.y as int, w));
                    assert(l1 <= w <= h1);
                    assert(axis_at(b.min.x as int, b.max.x as int, r.orig.x as int, r.dir.x as int, w));
                    assert(t_min <= w <= t_max);
                    assert(contains_at(b, *r, w));
                    assert(hit_spec(b, *r, t_min as int, t_max as int));
                }
                true
            }
        }
    }

    /// The component-wise union: smallest corner of minima, largest of maxima.
    pub fn surrounding_box(box0: AABB, box1: AABB) -> (r: AABB)
        ensures
            r == ssurround(box0, box1),
            box_le(box0, r),
            box_le(box1, r),
    {
        let small = Vec3 {
            x: i_min(box0.min.x, box1.min.x),
            y: i_min(box0.min.y, box1.min.y),
            z: i_min(box0.min.z, box1.min.z),
        };
        let large = Vec3 {
            x: i_max(box0.max.x, box1.max.x),
            y: i_max(box0.max.y, box1.max.y),
            z: i_max(box0.max.z, box1.max.z),
        };
        AABB { min: small, max: large }
    }
}

proof fn lemma_no_axis_no_hit_x(b: AABB, r: Ray, lo: int, hi: int, t_min: int, t_max: int)
    requires
        t_min == lo,
        t_max == hi,
        forall|t: int| lo <= t <= hi
            ==> !(#[trigger] axis_at(b.min.x as int, b.max.x as int, r.orig.x as int, r.dir.x as int, t)),
    ensures
        !hit_spec(b, r, t_min, t_max),
{
    if hit_spec(b, r, t_min, t_max) {
        let t = choose|t: int| t_min <= t <= t_max && contains_at(b, r, t);
        assert(axis_at(b.min.x as int, b.max.x as int, r.orig.x as int, r.dir.x as int, t));
    }
}

/// The union of two boxes contains every point of either box.
pub proof fn lemma_surrounding_box_contains(a: AABB, b: AABB, p: Point3)
    requires
        contains_point(a, p) || contains_point(b, p),
    ensures
        contains_point(ssurround(a, b), p),
{
}

/// Taking the union with itself gives the box back.
pub proof fn lemma_surrounding_box_idempotent(a: AABB)
    ensures
        ssurround(a, a) == a,
{
}

/// A smaller box's slab membership implies the larger box's.
pub proof fn lemma_box_le_contains_at(inner: AABB, outer: AABB, r: Ray, t: int)
    requires
        box_le(inner, outer),
        contains_at(inner, r, t),
    ensures
        contains_at(outer, r, t),
{
    assert((outer.min.x - r.orig.x) * FP_ONE <= (inner.min.x - r.orig.x) * FP_ONE) by (nonlinear_arith)
        requires outer.min.x <= inner.min.x
    ;
    assert((inner.max.x - r.orig.x) * FP_ONE <= (outer.max.x - r.orig.x) * FP_ONE) by (nonlinear_arith)
        requires inner.max.x <= outer.max.x
    ;
    assert((outer.min.y - r.orig.y) * FP_ONE <= (inner.min.y - r.orig.y) * FP_ONE) by (nonlinear_arith)
        requires outer.min.y <= inner.min.y
    ;
    assert((inner.max.y - r.orig.y) * FP_ONE <= (outer.max.y - r.orig.y) * FP_ONE) by (nonlinear_arith)
        requires inner.max.y <= outer.max.y
    ;
    assert((outer.min.z - r.orig.z) * FP_ONE <= (inner.min.z - r.orig.z) * FP_ONE) by (nonlinear_arith)
        requires outer.min.z <= inner.min.z
    ;
    assert((inner.max.z - r.orig.z) * FP_ONE <= (outer.max.z - r.orig.z) * FP_ONE) by (nonlinear_arith)
        requires inner.max.z <= outer.max.z
    ;
}

/// Membership at a parameter inside the search window witnesses a box hit.
pub proof fn lemma_contains_at_hit(b: AABB, r: Ray, t: int, t_min: int, t_max: int)
    requires
        t_min <= t <= t_max,
        contains_at(b, r, t),
    ensures
        hit_spec(b, r, t_min, t_max),
{
}

/// Padding added around every primitive's bounding box (about 1.5e-5
/// world units): absorbs the one-unit truncation of position arithmetic.
pub const BOX_PAD: i128 = 65536;

/// Slab membership at `t` puts the computed ray position inside the box:
/// the truncated position sits between floor and ceiling of the exact one.
pub proof fn lemma_contains_at_position(b: AABB, r: Ray, t: int)
    requires
        contains_at(b, r, t),
    ensures
        b.min.x <= crate::ray::sat(r, t).0 <= b.max.x,
        b.min.y <= crate::ray::sat(r, t).1 <= b.max.y,
        b.min.z <= crate::ray::sat(r, t).2 <= b.max.z,
{
    lemma_axis_position(b.min.x as int, b.max.x as int, r.orig.x as int, r.dir.x as int, t);
    lemma_axis_position(b.min.y as int, b.max.y as int, r.orig.y as int, r.dir.y as int, t);
    lemma_axis_position(b.min.z as int, b.max.z as int, r.orig.z as int, r.dir.z as int, t);
}

proof fn lemma_axis_position(mn: int, mx: int, o: int, d: int, t: int)
    requires
        axis_at(mn, mx, o, d, t),
    ensures
        mn <= o + crate::fx::fxm(t, d) <= mx,
{
    let x = t * d;
    crate::fx::lemma_tdiv_mul_close(x, FP_ONE as int);
    let q = crate::fx::tdiv(x, FP_ONE as int);
    // Lower side: x >= (mn - o) * FP_ONE, and q * FP_ONE is within FP_ONE of x.
    if x >= 0 {
        assert(q >= mn - o) by (nonlinear_arith)
            requires
                x - FP_ONE < q * FP_ONE,
                (mn - o) * FP_ONE <= x,
                FP_ONE > 0,
        ;
        assert(q <= mx - o) by (nonlinear_arith)
            requires
                q * FP_ONE <= x,
                x <= (mx - o) * FP_ONE,
                FP_ONE > 0,
        ;
    } else {
        assert(q >= mn - o) by (nonlinear_arith)
            requires
                x <= q * FP_ONE,
                (mn - o) * FP_ONE <= x,
                FP_ONE > 0,
        ;
        assert(q <= mx - o) by (nonlinear_arith)
            requires
                q * FP_ONE < x + FP_ONE,
                x <= (mx - o) * FP_ONE,
                FP_ONE > 0,
        ;
    }
}

/// Whether the ray position at a given parameter lies inside the box,
/// decided exactly.
pub fn contains_at_exec(b: &AABB, r: &Ray, t: i128) -> (res: bool)
    requires
        box_in_range(*b),
        ray_wf(*r),
        -1208925819614629174706176 <= t <= 1208925819614629174706176,
    ensures
        res == contains_at(*b, *r, t as int),
{
    let ax = axis_at_exec(b.min.x, b.max.x, r.orig.x, r.dir.x, t);
    let ay = axis_at_exec(b.min.y, b.max.y, r.orig.y, r.dir.y, t);
    let az = axis_at_exec(b.min.z, b.max.z, r.orig.z, r.dir.z, t);
    ax && ay && az
}

fn axis_at_exec(mn: i128, mx: i128, o: i128, d: i128, t: i128) -> (res: bool)
    requires
        absi(mn as int) <= COORD_LIM as int,
        absi(mx as int) <= COORD_LIM as int,
        absi(o as int) <= COORD_LIM as int,
        absi(d as int) <= COORD_LIM as int,
        -1208925819614629174706176 <= t <= 1208925819614629174706176,
    ensures
        res == axis_at(mn as int, mx as int, o as int, d as int, t as int),
{
    proof {
        assert(absi((t as int) * (d as int)) <= 1208925819614629174706176 * COORD_LIM)
            by (nonlinear_arith)
            requires
                absi(t as int) <= 1208925819614629174706176,
                absi(d as int) <= COORD_LIM as int,
        ;
    }
    let td: i128 = t * d;
    (mn - o) * FP_ONE <= td && td <= (mx - o) * FP_ONE
}

/// Widening the search interval preserves a box hit.
pub proof fn lemma_hit_spec_monotone(b: AABB, r: Ray, t_min: int, t_max: int, lo: int, hi: int)
    requires
        hit_spec(b, r, t_min, t_max),
        lo <= t_min,
        t_max <= hi,
    ensures
        hit_spec(b, r, lo, hi),
{
    let t = choose|t: int| t_min <= t <= t_max && contains_at(b, r, t);
    assert(lo <= t <= hi && contains_at(b, r, t));
}

} // verus!

verus! {

/// A computed position within `[mn, mx]` on an axis certifies padded slab
/// membership at that parameter: truncation costs less than one raw unit,
/// and the padding absorbs it.
pub proof fn lemma_position_in_padded_axis(mn: int, mx: int, o: int, d: int, t: int)
    requires
        mn <= o + crate::fx::fxm(t, d) <= mx,
    ensures
        axis_at(mn - BOX_PAD, mx + BOX_PAD, o, d, t),
{
    let x = t * d;
    crate::fx::lemma_tdiv_mul_close(x, FP_ONE as int);
    let q = crate::fx::tdiv(x, FP_ONE as int);
    assert((mn - BOX_PAD - o) * FP_ONE <= x && x <= (mx + BOX_PAD - o) * FP_ONE)
        by (nonlinear_arith)
        requires
            mn - o <= q <= mx - o,
            x - FP_ONE < q * FP_ONE <= x || x <= q * FP_ONE < x + FP_ONE,
            FP_ONE > 0,
            BOX_PAD >= 1,
            BOX_PAD * FP_ONE >= FP_ONE,
    ;
}

/// The plane-crossing parameter `t = (k - o) / d` certifies padded slab
/// membership around the plane `k`, for any direction the kernels accept.
pub proof fn lemma_plane_axis(k: int, o: int, d: int, t: int)
    requires
        d != 0,
        crate::fx::absi(d) < BOX_PAD * FP_ONE,
        t == crate::fx::fxd(k - o, d),
    ensures
        axis_at(k - BOX_PAD, k + BOX_PAD, o, d, t),
{
    let a = (k - o) * FP_ONE;
    crate::fx::lemma_tdiv_mul_close_general(a, d);
    let q = crate::fx::tdiv(a, d);
    // q * d is within |d| of a; multiplying the membership bounds out.
    assert(t * d == q * d);
    assert((k - BOX_PAD - o) * FP_ONE <= q * d && q * d <= (k + BOX_PAD - o) * FP_ONE)
        by (nonlinear_arith)
        requires
            a - crate::fx::absi(d) + 1 <= q * d <= a + crate::fx::absi(d) - 1,
            a == (k - o) * FP_ONE,
            crate::fx::absi(d) < BOX_PAD * FP_ONE,
            FP_ONE > 0,
    ;
}

} // verus!
