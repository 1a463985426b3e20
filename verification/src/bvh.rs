//! Bounding-volume hierarchy: construction by median split on a random
//! axis, and the proof that traversing the tree finds exactly what a
//! linear scan over its leaves finds.

use vstd::prelude::*;
use crate::fx::{absi, FP_ONE, FX_LIM};
use crate::vec3::{Vec3, vec_in_range};
use crate::ray::{Ray, geo_ray};
use crate::aabb::{AABB, hit_spec, contains_at, box_le, box_in_range};
use crate::object::{
    Object, HittableList, BvhNode, owf, owf_seq, deterministic, det_seq,
    sbbox, sbbox_seq, ohit, sscan, child_bounded, is_empty_list,
    lemma_ohit_props,
};
use crate::rng::random_index;

verus! {

broadcast use {
    vstd::std_specs::vec::group_vec_axioms,
    vstd::seq::group_seq_axioms,
    vstd::seq_lib::group_to_multiset_ensures,
    vstd::seq_lib::lemma_multiset_commutative,
};

/// The atomic objects a tree scans over: hierarchy nodes flatten to their
/// children, and empty filler lists vanish.
pub open spec fn leaves(o: Object) -> Seq<Object>
    decreases o,
{
    match o {
        Object::Bvh(n) => leaves(*n.left) + leaves(*n.right),
        Object::List(l) => if l.objects@.len() == 0 { Seq::empty() } else { seq![o] },
        _ => seq![o],
    }
}

/// The leaves of a whole collection, in order.
pub open spec fn leaves_seq(s: Seq<Object>) -> Seq<Object>
    decreases s,
{
    if s.len() == 0 {
        Seq::empty()
    } else {
        leaves_seq(s.subrange(0, s.len() - 1)) + leaves(s[s.len() - 1])
    }
}

/// Scanning a concatenation is scanning the first part, then the second
/// with the window narrowed by the first part's best hit.
pub proof fn lemma_scan_append(s1: Seq<Object>, s2: Seq<Object>, r: Ray, t_min: int, t_max: int)
    ensures
        sscan(s1 + s2, r, t_min, t_max) == (match sscan(s1, r, t_min, t_max) {
            Some(h1) => match sscan(s2, r, t_min, h1.t as int) {
                Some(h2) => Some(h2),
                None => Some(h1),
            },
            None => sscan(s2, r, t_min, t_max),
        }),
    decreases s2.len(),
{
    if s2.len() == 0 {
        assert(s1 + s2 =~= s1);
    } else {
        let u = s2.subrange(0, s2.len() - 1);
        let x = s2[s2.len() - 1];
        lemma_scan_append(s1, u, r, t_min, t_max);
        let whole = s1 + s2;
        assert(whole.len() == s1.len() + s2.len());
        assert(whole.subrange(0, whole.len() - 1) =~= s1 + u);
        assert(whole[whole.len() - 1] == x);
        match sscan(s1, r, t_min, t_max) {
            Some(h1) => {
                lemma_scan_append(s1, u, r, t_min, h1.t as int);
            }
            None => {}
        }
    }
}

/// Traversing a well-formed, deterministic tree returns exactly what the
/// in-order linear scan over its leaves returns: the box tests prune only
/// objects that cannot be hit within the window.
pub proof fn lemma_bvh_scan_equiv(o: Object, r: Ray, t_min: int, t_max: int)
    requires
        owf(o),
        deterministic(o),
        geo_ray(r),
        0 <= r.tm <= FP_ONE,
    ensures
        ohit(o, r, t_min, t_max) == sscan(leaves(o), r, t_min, t_max),
    decreases o,
{
    match o {
        Object::Bvh(n) => {
            let lf = leaves(*n.left);
            let rf = leaves(*n.right);
            assert(leaves(o) == lf + rf);
            lemma_scan_append(lf, rf, r, t_min, t_max);
            lemma_bvh_scan_equiv(*n.left, r, t_min, t_max);
            if hit_spec(n.aabbox, r, t_min, t_max) {
                match ohit(*n.left, r, t_min, t_max) {
                    Some(h1) => {
                        lemma_bvh_scan_equiv(*n.right, r, t_min, h1.t as int);
                    }
                    None => {
                        lemma_bvh_scan_equiv(*n.right, r, t_min, t_max);
                    }
                }
            } else {
                assert(ohit(*n.left, r, t_min, t_max) is None) by {
                    if ohit(*n.left, r, t_min, t_max) is Some {
                        lemma_pruned_child(*n.left, n.aabbox, r, t_min, t_max);
                    }
                }
                assert(ohit(*n.right, r, t_min, t_max) is None) by {
                    if ohit(*n.right, r, t_min, t_max) is Some {
                        lemma_pruned_child(*n.right, n.aabbox, r, t_min, t_max);
                    }
                }
                lemma_bvh_scan_equiv(*n.right, r, t_min, t_max);
            }
        }
        Object::List(l) => {
            if l.objects@.len() == 0 {
                assert(leaves(o) =~= Seq::<Object>::empty());
                assert(sscan(Seq::<Object>::empty(), r, t_min, t_max) is None);
                assert(sscan(l.objects@, r, t_min, t_max) is None);
            } else {
                let lv = leaves(o);
                assert(lv.len() == 1 && lv[0] == o);
                assert(sscan(lv.subrange(0, 0), r, t_min, t_max) is None);
            }
        }
        _ => {
            let lv = leaves(o);
            assert(lv.len() == 1 && lv[0] == o);
            assert(sscan(lv.subrange(0, 0), r, t_min, t_max) is None);
        }
    }
}

/// A bounded child whose mirror reports a hit in the window forces the
/// node's own box test to pass.
proof fn lemma_pruned_child(c: Object, bb: AABB, r: Ray, t_min: int, t_max: int)
    requires
        owf(c),
        geo_ray(r),
        0 <= r.tm <= FP_ONE,
        child_bounded(c, bb),
        ohit(c, r, t_min, t_max) is Some,
    ensures
        hit_spec(bb, r, t_min, t_max),
{
    let h = ohit(c, r, t_min, t_max).unwrap();
    lemma_ohit_props(c, r, t_min, t_max);
    if sbbox(c) is None {
        assert(is_empty_list(c));
        match c {
            Object::List(l) => {
                assert(sscan(l.objects@, r, t_min, t_max) is None);
            }
            _ => {}
        }
        assert(false);
    } else {
        crate::aabb::lemma_box_le_contains_at(sbbox(c).unwrap(), bb, r, h.t as int);
        crate::aabb::lemma_contains_at_hit(bb, r, h.t as int, t_min, t_max);
    }
}

/// The sort key used by the builder: the box's smallest coordinate on the
/// chosen axis.
pub open spec fn skey(o: Object, axis: int) -> int {
    let b = sbbox(o).unwrap();
    if axis == 0 { b.min.x as int } else if axis == 1 { b.min.y as int } else { b.min.z as int }
}

/// Every member has a box.
pub open spec fn boxed_seq(s: Seq<Object>) -> bool {
    forall|i: int| 0 <= i < s.len() ==> sbbox(#[trigger] s[i]) is Some
}

/// A singleton's leaves are its member's leaves.
proof fn lemma_leaves_seq_one(s: Seq<Object>)
    requires
        s.len() == 1,
    ensures
        leaves_seq(s) =~= leaves(s[0]),
{
    assert(leaves_seq(s.subrange(0, 0)) =~= Seq::<Object>::empty());
    assert(Seq::<Object>::empty() + leaves(s[0]) =~= leaves(s[0]));
}

/// A pair's leaves are the concatenation of its members' leaves.
proof fn lemma_leaves_seq_two(s: Seq<Object>)
    requires
        s.len() == 2,
    ensures
        leaves_seq(s) =~= leaves(s[0]) + leaves(s[1]),
{
    let pre = s.subrange(0, 1);
    lemma_leaves_seq_one(pre);
    assert(pre[0] == s[0]);
}

/// Leaves distribute over concatenation.
proof fn lemma_leaves_seq_concat(x: Seq<Object>, y: Seq<Object>)
    ensures
        leaves_seq(x + y) =~= leaves_seq(x) + leaves_seq(y),
    decreases y.len(),
{
    if y.len() == 0 {
        assert(x + y =~= x);
        assert(leaves_seq(y) =~= Seq::<Object>::empty());
    } else {
        let u = y.subrange(0, y.len() - 1);
        lemma_leaves_seq_concat(x, u);
        let whole = x + y;
        assert(whole.subrange(0, whole.len() - 1) =~= x + u);
        assert(whole[whole.len() - 1] == y[y.len() - 1]);
    }
}

/// Removing a member removes exactly its leaves from the collection's.
proof fn lemma_leaves_seq_remove(s: Seq<Object>, i: int)
    requires
        0 <= i < s.len(),
    ensures
        leaves_seq(s).to_multiset()
            =~= leaves_seq(s.remove(i)).to_multiset().add(leaves(s[i]).to_multiset()),
    decreases s.len(),
{
    broadcast use vstd::multiset::group_multiset_axioms;
    if i == s.len() - 1 {
        assert(s.remove(i) =~= s.subrange(0, s.len() - 1));
    } else {
        let pre = s.subrange(0, s.len() - 1);
        let last = s[s.len() - 1];
        lemma_leaves_seq_remove(pre, i);
        assert(pre[i] == s[i]);
        let rem = s.remove(i);
        assert(rem.len() == s.len() - 1);
        assert(rem.subrange(0, rem.len() - 1) =~= pre.remove(i));
        assert(rem[rem.len() - 1] == last);
        // leaves_seq(s) = leaves_seq(pre) + leaves(last)
        // leaves_seq(rem) = leaves_seq(pre.remove(i)) + leaves(last)
        assert(leaves_seq(s).to_multiset()
            =~= leaves_seq(pre).to_multiset().add(leaves(last).to_multiset()));
        assert(leaves_seq(rem).to_multiset()
            =~= leaves_seq(pre.remove(i)).to_multiset().add(leaves(last).to_multiset()));
    }
}

/// Selection sort by box start on an axis: same members (hence the same
/// leaves, as a multiset), all properties preserved.
fn sort_by_key(objects: Vec<Object>, axis: usize) -> (out: Vec<Object>)
    requires
        axis < 3,
        owf_seq(objects@),
        boxed_seq(objects@),
    ensures
        out@.len() == objects@.len(),
        owf_seq(out@),
        boxed_seq(out@),
        det_seq(objects@) ==> det_seq(out@),
        leaves_seq(out@).to_multiset() =~= leaves_seq(objects@).to_multiset(),
{
    broadcast use vstd::multiset::group_multiset_axioms;
    let ghost input = objects@;
    let mut src = objects;
    let mut out: Vec<Object> = Vec::new();
    proof {
        assert(leaves_seq(out@) =~= Seq::<Object>::empty());
    }
    while src.len() > 0
        invariant
            axis < 3,
            owf_seq(src@),
            boxed_seq(src@),
            owf_seq(out@),
            boxed_seq(out@),
            src@.len() + out@.len() == input.len(),
            det_seq(input) ==> (det_seq(src@) && det_seq(out@)),
            leaves_seq(out@).to_multiset().add(leaves_seq(src@).to_multiset())
                =~= leaves_seq(input).to_multiset(),
        decreases src@.len(),
    {
        let mut m: usize = 0;
        let mut k: usize = 1;
        while k < src.len()
            invariant
                axis < 3,
                owf_seq(src@),
                boxed_seq(src@),
                src@.len() > 0,
                m < src@.len(),
                k <= src@.len(),
            decreases src@.len() - k,
        {
            proof {
                assert(owf(src@[k as int]) && sbbox(src@[k as int]) is Some);
                assert(owf(src@[m as int]) && sbbox(src@[m as int]) is Some);
            }
            if BvhNode::box_compare(&src[k], &src[m], axis) {
                m = k;
            }
            k = k + 1;
        }
        let ghost src_old = src@;
        proof {
            lemma_leaves_seq_remove(src_old, m as int);
        }
        let x = src.remove(m);
        proof {
            assert(x == src_old[m as int]);
            assert(src@ =~= src_old.remove(m as int));
            assert forall|i: int| 0 <= i < src@.len() implies owf(#[trigger] src@[i])
                && sbbox(src@[i]) is Some by {
                if i < m {
                    assert(src@[i] == src_old[i]);
                } else {
                    assert(src@[i] == src_old[i + 1]);
                }
            }
            if det_seq(input) {
                assert forall|i: int| 0 <= i < src@.len() implies deterministic(#[trigger] src@[i]) by {
                    if i < m {
                        assert(src@[i] == src_old[i]);
                    } else {
                        assert(src@[i] == src_old[i + 1]);
                    }
                }
            }
        }
        let ghost out_old = out@;
        out.push(x);
        proof {
            assert(out@ =~= out_old.push(x));
            assert(out@.subrange(0, out@.len() - 1) =~= out_old);
            assert(out@[out@.len() - 1] == x);
            assert(leaves_seq(out@) == leaves_seq(out_old) + leaves(x));
            assert forall|i: int| 0 <= i < out@.len() implies owf(#[trigger] out@[i])
                && sbbox(out@[i]) is Some by {
                if i < out_old.len() {
                    assert(out@[i] == out_old[i]);
                } else {
                    assert(out@[i] == x);
                }
            }
            if det_seq(input) {
                assert forall|i: int| 0 <= i < out@.len() implies deterministic(#[trigger] out@[i]) by {
                    if i < out_old.len() {
                        assert(out@[i] == out_old[i]);
                    } else {
                        assert(out@[i] == x);
                    }
                }
            }
        }
    }
    proof {
        assert(leaves_seq(src@) =~= Seq::<Object>::empty());
        assert(leaves_seq(out@).to_multiset() =~= leaves_seq(input).to_multiset());
    }
    out
}

impl BvhNode {
    /// Whether `a`'s box starts strictly before `b`'s on the axis.
    pub fn box_compare(a: &Object, b: &Object, axis: usize) -> (r: bool)
        requires
            owf(*a),
            owf(*b),
            sbbox(*a) is Some,
            sbbox(*b) is Some,
            axis < 3,
        ensures
            r == (skey(*a, axis as int) < skey(*b, axis as int)),
    {
        let ba = a.bounding_box().unwrap();
        let bb = b.bounding_box().unwrap();
        if axis == 0 {
            ba.min.x < bb.min.x
        } else if axis == 1 {
            ba.min.y < bb.min.y
        } else {
            ba.min.z < bb.min.z
        }
    }

    /// Build a hierarchy over a whole list.
    pub fn new_list(list: HittableList, time0: i128, time1: i128) -> (res: BvhNode)
        requires
            list.objects@.len() >= 1,
            owf_seq(list.objects@),
            boxed_seq(list.objects@),
        ensures
            owf(Object::Bvh(res)),
            det_seq(list.objects@) ==> deterministic(Object::Bvh(res)),
            leaves(Object::Bvh(res)).to_multiset() =~= leaves_seq(list.objects@).to_multiset(),
    {
        BvhNode::new_vec(list.objects, time0, time1)
    }

    /// Build a hierarchy: one object becomes a node with an empty filler
    /// sibling, two are ordered by box start, more are sorted on a random
    /// axis and split at the median. Every object must have a bounding
    /// box, as a hierarchy cannot bound unbounded geometry.
    pub fn new_vec(objects: Vec<Object>, _time0: i128, _time1: i128) -> (res: BvhNode)
        requires
            objects@.len() >= 1,
            owf_seq(objects@),
            boxed_seq(objects@),
        ensures
            owf(Object::Bvh(res)),
            det_seq(objects@) ==> deterministic(Object::Bvh(res)),
            leaves(Object::Bvh(res)).to_multiset() =~= leaves_seq(objects@).to_multiset(),
        decreases objects@.len(),
    {
        broadcast use vstd::multiset::group_multiset_axioms;
        let ghost input = objects@;
        let axis = random_index(3);
        let mut objects = objects;
        let n = objects.len();
        if n == 1 {
            let o0 = objects.pop().unwrap();
            proof {
                assert(input[0] == o0);
                assert(owf(o0) && sbbox(o0) is Some);
            }
            let bb = o0.bounding_box().unwrap();
            let res = BvhNode {
                aabbox: bb,
                left: Box::new(o0),
                right: Box::new(Object::List(HittableList::empty())),
            };
            proof {
                let filler = *res.right;
                assert(is_empty_list(filler));
                assert(filler->List_0.objects@.len() == 0);
                assert(owf_seq(filler->List_0.objects@));
                assert(sbbox_seq(filler->List_0.objects@) is None);
                assert(sbbox(filler) is None);
                assert(leaves(filler) =~= Seq::<Object>::empty());
                assert(leaves(Object::Bvh(res)) =~= leaves(o0));
                lemma_leaves_seq_one(input);
                assert(box_le(sbbox(o0).unwrap(), res.aabbox));
                assert(child_bounded(*res.left, res.aabbox));
                assert(child_bounded(filler, res.aabbox));
                assert(owf(filler));
                assert(owf(Object::Bvh(res)));
                if det_seq(input) {
                    assert(deterministic(o0));
                    assert(det_seq(filler->List_0.objects@));
                    assert(deterministic(filler));
                    assert(deterministic(Object::Bvh(res)));
                }
            }
            res
        } else if n == 2 {
            let o1 = objects.pop().unwrap();
            let o0 = objects.pop().unwrap();
            proof {
                assert(input[0] == o0 && input[1] == o1);
                assert(owf(o0) && owf(o1) && sbbox(o0) is Some && sbbox(o1) is Some);
            }
            let swap = !BvhNode::box_compare(&o0, &o1, axis);
            let (a, b) = if swap { (o1, o0) } else { (o0, o1) };
            let ba = a.bounding_box().unwrap();
            let bb2 = b.bounding_box().unwrap();
            let res = BvhNode {
                aabbox: AABB::surrounding_box(ba, bb2),
                left: Box::new(a),
                right: Box::new(b),
            };
            proof {
                lemma_leaves_seq_two(input);
                assert(leaves(Object::Bvh(res)) == leaves(a) + leaves(b));
                assert((leaves(a) + leaves(b)).to_multiset()
                    =~= (leaves(o0) + leaves(o1)).to_multiset());
                assert(child_bounded(*res.left, res.aabbox));
                assert(child_bounded(*res.right, res.aabbox));
                assert(owf(Object::Bvh(res)));
                if det_seq(input) {
                    assert(deterministic(o0) && deterministic(o1));
                    assert(deterministic(Object::Bvh(res)));
                }
            }
            res
        } else {
            let sorted = sort_by_key(objects, axis);
            let ghost sorted_view = sorted@;
            let mut left_vec = sorted;
            let right_vec = left_vec.split_off(n / 2);
            proof {
                assert(left_vec@ =~= sorted_view.subrange(0, (n / 2) as int));
                assert(right_vec@ =~= sorted_view.subrange((n / 2) as int, n as int));
                assert(left_vec@ + right_vec@ =~= sorted_view);
                lemma_leaves_seq_concat(left_vec@, right_vec@);
                lemma_sub_props(sorted_view, left_vec@);
                lemma_sub_props(sorted_view, right_vec@);
            }
            let left = BvhNode::new_vec(left_vec, _time0, _time1);
            let right = BvhNode::new_vec(right_vec, _time0, _time1);
            let res = BvhNode {
                aabbox: AABB::surrounding_box(left.aabbox, right.aabbox),
                left: Box::new(Object::Bvh(left)),
                right: Box::new(Object::Bvh(right)),
            };
            proof {
                assert(owf(Object::Bvh(left)) && owf(Object::Bvh(right)));
                assert(box_in_range(left.aabbox) && box_in_range(right.aabbox));
                assert(box_in_range(res.aabbox));
                assert(sbbox(Object::Bvh(left)) == Some(left.aabbox));
                assert(child_bounded(*res.left, res.aabbox));
                assert(child_bounded(*res.right, res.aabbox));
                assert(owf(Object::Bvh(res)));
                assert(leaves(Object::Bvh(res)) == leaves(Object::Bvh(left)) + leaves(Object::Bvh(right)));
                if det_seq(input) {
                    assert(deterministic(Object::Bvh(res)));
                }
            }
            res
        }
    }
}

/// Elementwise properties carry to any subrange-shaped part.
proof fn lemma_sub_props(s: Seq<Object>, part: Seq<Object>)
    requires
        owf_seq(s),
        boxed_seq(s),
        exists|a: int, b: int| 0 <= a <= b <= s.len() && part =~= s.subrange(a, b),
    ensures
        owf_seq(part),
        boxed_seq(part),
        det_seq(s) ==> det_seq(part),
{
    let (a, b) = choose|a: int, b: int| 0 <= a <= b <= s.len() && part =~= s.subrange(a, b);
    assert forall|i: int| 0 <= i < part.len() implies owf(#[trigger] part[i])
        && sbbox(part[i]) is Some by {
        assert(part[i] == s[a + i]);
    }
    if det_seq(s) {
        assert forall|i: int| 0 <= i < part.len() implies deterministic(#[trigger] part[i]) by {
            assert(part[i] == s[a + i]);
        }
    }
}

} // verus!
