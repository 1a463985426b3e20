//! Parametric rays.

use vstd::prelude::*;
use crate::fx::{absi, fxm, FX_LIM, COORD_LIM};
use crate::vec3::{Vec3, Point3, vec_in_range};

verus! {

/// A ray: origin plus direction, with a time stamp for motion blur.
/// Positions along it are taken at fixed-point parameters `t`.
#[derive(Clone, Copy, PartialEq, Eq, Structural, Debug)]
pub struct Ray {
    pub orig: Point3,
    pub dir: Vec3,
    pub tm: i128,
}

/// The position along a ray at parameter `t`, one component per axis.
pub open spec fn sat(r: Ray, t: int) -> (int, int, int) {
    (
        r.orig.x + fxm(t, r.dir.x as int),
        r.orig.y + fxm(t, r.dir.y as int),
        r.orig.z + fxm(t, r.dir.z as int),
    )
}

/// A ray the geometry kernels accept: origin and direction within the
/// world coordinate range.
pub open spec fn ray_wf(r: Ray) -> bool {
    vec_in_range(r.orig, COORD_LIM as int) && vec_in_range(r.dir, COORD_LIM as int)
}

/// The tighter range (2^42 raw, 1024 world units) within which the
/// primitive intersection kernels keep all intermediates exact.
pub const GEO_LIM: i128 = 4398046511104;

/// A ray within the primitive kernels' range: hit points and sampled
/// directions of in-range scenes stay inside these bounds, so scattered
/// rays can be traced recursively.
pub open spec fn geo_ray(r: Ray) -> bool {
    vec_in_range(r.orig, 6 * GEO_LIM as int) && vec_in_range(r.dir, 6 * GEO_LIM as int)
}

impl Ray {
    /// Build a ray.
    pub fn new(origin: Point3, direction: Vec3, time: i128) -> (r: Ray)
        ensures
            r == (Ray { orig: origin, dir: direction, tm: time }),
    {
        Ray { orig: origin, dir: direction, tm: time }
    }

    /// The position along the ray at parameter `t`.
    pub fn at(&self, t: i128) -> (p: Point3)
        requires
            ray_wf(*self),
            -FX_LIM <= t <= FX_LIM,
        ensures
            (p.x as int, p.y as int, p.z as int) == sat(*self, t as int),
    {
        proof {
            lemma_at_term_bound(t as int, self.dir.x as int);
            lemma_at_term_bound(t as int, self.dir.y as int);
            lemma_at_term_bound(t as int, self.dir.z as int);
        }
        let px = self.orig.x + crate::fx::fx_mul(t, self.dir.x);
        let py = self.orig.y + crate::fx::fx_mul(t, self.dir.y);
        let pz = self.orig.z + crate::fx::fx_mul(t, self.dir.z);
        Vec3 { x: px, y: py, z: pz }
    }
}

proof fn lemma_at_term_bound(t: int, d: int)
    requires
        absi(t) <= FX_LIM as int,
        absi(d) <= COORD_LIM as int,
    ensures
        absi(fxm(t, d)) <= (FX_LIM as int) * (COORD_LIM as int),
{
    assert(absi(t) * absi(d) <= (FX_LIM as int) * (COORD_LIM as int)) by (nonlinear_arith)
        requires 0 <= absi(t) <= FX_LIM as int, 0 <= absi(d) <= COORD_LIM as int
    ;
    crate::fx::lemma_fxm_bound(t, d, (FX_LIM as int) * (COORD_LIM as int));
}

} // verus!
