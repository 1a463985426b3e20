//! An axis-aligned box: six rectangles sharing one material.

use vstd::prelude::*;
use crate::fx::absi;
use crate::vec3::{Vec3, Point3, vec_in_range};
use crate::ray::GEO_LIM;
use crate::aabb::{AABB, box_le, box_in_range, BOX_PAD};
use crate::object::{Object, HittableList, owf, owf_seq, det_seq, sbbox, sbbox_seq, lemma_sbbox_seq_le};
use crate::material::{Material, material_wf, material_dupable};
use crate::aarect::{XYRect, XZRect, YZRect};

verus! {

broadcast use {vstd::std_specs::vec::group_vec_axioms, vstd::seq::group_seq_axioms};

/// The box, kept as its two corners plus the six rectangle sides that do
/// the actual intersection work.
pub struct Boxes {
    pub min: Point3,
    pub max: Point3,
    pub sides: HittableList,
}

/// The box's padded bounding volume: the literal corner box plus the
/// rectangle padding.
pub open spec fn sbbox_boxes(b: Boxes) -> AABB {
    AABB {
        min: Vec3 {
            x: (b.min.x - BOX_PAD) as i128,
            y: (b.min.y - BOX_PAD) as i128,
            z: (b.min.z - BOX_PAD) as i128,
        },
        max: Vec3 {
            x: (b.max.x + BOX_PAD) as i128,
            y: (b.max.y + BOX_PAD) as i128,
            z: (b.max.z + BOX_PAD) as i128,
        },
    }
}

/// The six face rectangles of the corner box `[p0, p1]`, all sharing one
/// material: two XY faces at the z extremes, two XZ at the y extremes, two
/// YZ at the x extremes.
pub open spec fn sbox_sides(p0: Point3, p1: Point3, ptr: Material) -> Seq<Object> {
    seq![
        Object::XYRect(XYRect { x0: p0.x, x1: p1.x, y0: p0.y, y1: p1.y, k: p1.z, mp: ptr }),
        Object::XYRect(XYRect { x0: p0.x, x1: p1.x, y0: p0.y, y1: p1.y, k: p0.z, mp: ptr }),
        Object::XZRect(XZRect { x0: p0.x, x1: p1.x, z0: p0.z, z1: p1.z, k: p1.y, mp: ptr }),
        Object::XZRect(XZRect { x0: p0.x, x1: p1.x, z0: p0.z, z1: p1.z, k: p0.y, mp: ptr }),
        Object::YZRect(YZRect { y0: p0.y, y1: p1.y, z0: p0.z, z1: p1.z, k: p1.x, mp: ptr }),
        Object::YZRect(YZRect { y0: p0.y, y1: p1.y, z0: p0.z, z1: p1.z, k: p0.x, mp: ptr }),
    ]
}

/// Corners in range and in order; the sides well-formed and bounded by the
/// corner box.
pub open spec fn boxes_wf(b: Boxes) -> bool
    decreases b, 0int,
{
    vec_in_range(b.min, GEO_LIM as int)
        && vec_in_range(b.max, GEO_LIM as int)
        && b.min.x < b.max.x && b.min.y < b.max.y && b.min.z < b.max.z
        && owf_seq(b.sides.objects@)
        && sbbox_seq(b.sides.objects@) is Some
        && box_le(sbbox_seq(b.sides.objects@).unwrap(), sbbox_boxes(b))
        && det_seq(b.sides.objects@)
}

impl Boxes {
    /// Assemble the six sides between two corners, all sharing one
    /// material.
    pub fn new(p0: Point3, p1: Point3, ptr: Material) -> (r: Boxes)
        requires
            vec_in_range(p0, GEO_LIM as int),
            vec_in_range(p1, GEO_LIM as int),
            p0.x < p1.x,
            p0.y < p1.y,
            p0.z < p1.z,
            material_wf(ptr),
            material_dupable(ptr),
        ensures
            r.min == p0,
            r.max == p1,
            boxes_wf(r),
            r.sides.objects@ == sbox_sides(p0, p1, ptr),
    {
        let mut sides = HittableList::empty();
        let o1 = Object::XYRect(XYRect::new(p0.x, p1.x, p0.y, p1.y, p1.z, ptr.duplicate()));
        let o2 = Object::XYRect(XYRect::new(p0.x, p1.x, p0.y, p1.y, p0.z, ptr.duplicate()));
        let o3 = Object::XZRect(XZRect::new(p0.x, p1.x, p0.z, p1.z, p1.y, ptr.duplicate()));
        let o4 = Object::XZRect(XZRect::new(p0.x, p1.x, p0.z, p1.z, p0.y, ptr.duplicate()));
        let o5 = Object::YZRect(YZRect::new(p0.y, p1.y, p0.z, p1.z, p1.x, ptr.duplicate()));
        let o6 = Object::YZRect(YZRect::new(p0.y, p1.y, p0.z, p1.z, p0.x, ptr));
        let ghost parts = seq![o1, o2, o3, o4, o5, o6];
        sides.add(o1);
        sides.add(o2);
        sides.add(o3);
        sides.add(o4);
        sides.add(o5);
        sides.add(o6);
        proof {
            assert(sides.objects@ =~= parts);
            assert(parts =~= sbox_sides(p0, p1, ptr));
        }
        let r = Boxes { min: p0, max: p1, sides };
        proof {
            let s = r.sides.objects@;
            let bb = sbbox_boxes(r);
            assert forall|i: int| 0 <= i < s.len() implies owf(#[trigger] s[i])
                && sbbox(s[i]) is Some
                && box_le(sbbox(s[i]).unwrap(), bb)
                && crate::object::deterministic(s[i]) by {
                assert(s[i] == parts[i]);
            }
            lemma_sbbox_seq_le(s, bb);
        }
        r
    }
}

} // verus!
