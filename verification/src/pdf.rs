//! Probability densities over scatter directions.

use vstd::prelude::*;
use crate::fx::{absi, fxm, fxd, isqrt, fx_div, FP_ONE, FX_LIM, COORD_LIM};
use crate::vec3::{Vec3, Point3, vec_in_range, sdot, slen2, sunit, UNIT_MIN_LEN2};
use crate::onb::{Onb, onb_wf};
use crate::rng::{random_symmetric_fx, rand_below};
use crate::texture::PI_FP;

verus! {

/// A cosine-weighted direction in the local frame: a point drawn uniformly
/// on the unit disk, lifted to the hemisphere. Drawn by rejection, with a
/// fixed fallback after too many rejections.
pub fn random_cosine_direction() -> (v: Vec3)
    ensures
        vec_in_range(v, FP_ONE as int),
        v.z >= 0,
        crate::vec3::unit_band(v),
{
    let mut i: usize = 0;
    while i < 64
        invariant
            i <= 64,
        decreases 64 - i,
    {
        let x = random_symmetric_fx();
        let y = random_symmetric_fx();
        proof {
            crate::vec3::lemma_fxm_tight(x as int, x as int, FP_ONE as int, FP_ONE as int);
            crate::vec3::lemma_fxm_tight(y as int, y as int, FP_ONE as int, FP_ONE as int);
            crate::vec3::lemma_slen2_nonneg(Vec3 { x, y, z: 0i128 });
        }
        let d2 = crate::fx::fx_mul(x, x) + crate::fx::fx_mul(y, y);
        if d2 <= FP_ONE {
            let z = isqrt((FP_ONE - d2) * FP_ONE);
            proof {
                assert(z * z <= (FP_ONE - d2) * FP_ONE);
                assert(z <= FP_ONE) by (nonlinear_arith)
                    requires
                        z * z <= (FP_ONE - d2) * FP_ONE,
                        0 <= FP_ONE - d2 <= FP_ONE,
                        z >= 0,
                ;
                // The lifted point is unit up to truncation: z^2 restores
                // exactly what the disk point lacks.
                crate::fx::lemma_tdiv_mul_close(z as int * z as int, FP_ONE as int);
                assert(z as int * z as int >= 0) by (nonlinear_arith);
                assert(FP_ONE as int * fxm(z as int, z as int) > z as int * z as int - FP_ONE);
                assert((z + 1) * (z + 1) > (FP_ONE - d2) * FP_ONE);
                assert(z as int * z as int > (FP_ONE - d2) * FP_ONE - 2 * z - 1) by (nonlinear_arith)
                    requires (z + 1) * (z + 1) > (FP_ONE - d2) * (FP_ONE as int), z >= 0
                ;
                assert(fxm(z as int, z as int) >= FP_ONE - d2 - 3) by (nonlinear_arith)
                    requires
                        FP_ONE as int * fxm(z as int, z as int)
                            > (FP_ONE - d2) * (FP_ONE as int) - 2 * z - 1 - FP_ONE,
                        0 <= z <= FP_ONE,
                        FP_ONE == 4294967296,
                ;
                assert((z as int) * (z as int) <= (FP_ONE as int) * (FP_ONE - d2)) by (nonlinear_arith)
                    requires z * z <= (FP_ONE - d2) * (FP_ONE as int)
                ;
                crate::fx::lemma_tdiv_ratio_le(z as int * z as int, FP_ONE as int, FP_ONE - d2);
                crate::fx::lemma_tdiv_abs_le(z as int * z as int, FP_ONE as int);
            }
            return Vec3 { x, y, z };
        }
        i = i + 1;
    }
    proof {
        crate::fx::lemma_fxm_one();
    }
    Vec3 { x: 0, y: 0, z: FP_ONE }
}

/// The cosine-weighted density around a frame's normal: `max(0, cos) / pi`
/// of the normalized direction.
pub open spec fn scos_pdf_value(o: Onb, direction: Vec3) -> int {
    let c = sdot(sunit(direction), o.w_axis);
    if c <= 0 { 0 } else { fxd(c, PI_FP as int) }
}

/// What a cosine draw looks like: the frame image of some near-unit local
/// vector with nonnegative height.
pub open spec fn scos_sample(o: Onb, r: Vec3) -> bool {
    exists|l: Vec3| #![auto] l.z >= 0 && vec_in_range(l, FP_ONE as int)
        && crate::vec3::unit_band(l)
        && (r.x as int, r.y as int, r.z as int) == crate::onb::slocal(o, l)
}

/// The cosine-weighted density attached to a surface normal.
#[derive(Clone, Copy, PartialEq, Eq, Structural, Debug)]
pub struct CosPdf {
    pub uvw: Onb,
}

impl CosPdf {
    /// Build the density's local frame from a normal.
    pub fn new(w: Vec3) -> (r: CosPdf)
        requires
            vec_in_range(w, COORD_LIM as int),
            slen2(w) >= UNIT_MIN_LEN2,
        ensures
            onb_wf(r.uvw),
            r.uvw.w_axis == sunit(w),
    {
        CosPdf { uvw: Onb::build_from_w(w) }
    }

    /// Draw a direction with cosine-weighted density about the normal.
    /// Every draw is the frame image of a near-unit local vector in the
    /// upper hemisphere, so it points into the normal's side.
    pub fn generate(&self) -> (r: Vec3)
        requires
            onb_wf(self.uvw),
        ensures
            vec_in_range(r, 48 * FP_ONE as int),
            scos_sample(self.uvw, r),
    {
        let local = random_cosine_direction();
        let r = self.uvw.local_vec(&local);
        proof {
            assert(scos_sample(self.uvw, r)) by {
                assert(local.z >= 0 && vec_in_range(local, FP_ONE as int)
                    && crate::vec3::unit_band(local)
                    && (r.x as int, r.y as int, r.z as int) == crate::onb::slocal(self.uvw, local));
            }
        }
        r
    }

    /// The density of a given direction: `max(0, cos theta) / pi`.
    pub fn value(&self, direction: Vec3) -> (r: i128)
        requires
            onb_wf(self.uvw),
            vec_in_range(direction, COORD_LIM as int),
            slen2(direction) >= UNIT_MIN_LEN2,
        ensures
            r == scos_pdf_value(self.uvw, direction),
            0 <= r <= 4 * FP_ONE,
    {
        let ud = direction.to_unit();
        proof {
            lemma_unitish_dot(ud, self.uvw.w_axis);
        }
        let c = ud.dot(&self.uvw.w_axis);
        if c <= 0 {
            0
        } else {
            proof {
                assert((c as int) * (FP_ONE as int) <= (PI_FP as int) * (4 * FP_ONE as int))
                    by (nonlinear_arith)
                    requires
                        0 < c <= 12 * FP_ONE,
                        FP_ONE == 4294967296,
                        PI_FP == 13493037705,
                ;
                crate::fx::lemma_tdiv_ratio_le(c as int * FP_ONE, PI_FP as int, 4 * FP_ONE as int);
                crate::fx::lemma_tdiv_abs_le(c as int * FP_ONE, PI_FP as int);
            }
            fx_div(c, PI_FP)
        }
    }
}

/// The dot product of two nearly-unit vectors is small.
pub proof fn lemma_unitish_dot(a: Vec3, b: Vec3)
    requires
        vec_in_range(a, 2 * FP_ONE as int),
        vec_in_range(b, 2 * FP_ONE as int),
    ensures
        absi(sdot(a, b)) <= 12 * FP_ONE as int,
{
    crate::vec3::lemma_fxm_tight(a.x as int, b.x as int, 2 * FP_ONE as int, 2 * FP_ONE as int);
    crate::vec3::lemma_fxm_tight(a.y as int, b.y as int, 2 * FP_ONE as int, 2 * FP_ONE as int);
    crate::vec3::lemma_fxm_tight(a.z as int, b.z as int, 2 * FP_ONE as int, 2 * FP_ONE as int);
    assert((2 * FP_ONE as int) * (2 * FP_ONE as int) / (FP_ONE as int) == 4 * FP_ONE as int)
        by (nonlinear_arith);
}

} // verus!

verus! {

/// The dot product of a kernel-range vector and a nearly-unit vector.
pub proof fn lemma_unitish_dot_wide(a: Vec3, b: Vec3)
    requires
        vec_in_range(a, 6 * crate::ray::GEO_LIM as int),
        vec_in_range(b, 2 * FP_ONE as int),
    ensures
        absi(sdot(a, b)) <= 158329674399744,
{
    crate::vec3::lemma_fxm_tight(a.x as int, b.x as int, 6 * crate::ray::GEO_LIM as int, 2 * FP_ONE as int);
    crate::vec3::lemma_fxm_tight(a.y as int, b.y as int, 6 * crate::ray::GEO_LIM as int, 2 * FP_ONE as int);
    crate::vec3::lemma_fxm_tight(a.z as int, b.z as int, 6 * crate::ray::GEO_LIM as int, 2 * FP_ONE as int);
    assert((6 * crate::ray::GEO_LIM as int) * (2 * FP_ONE as int) / (FP_ONE as int)
        == 52776558133248) by (nonlinear_arith);
}

/// A density over directions taken from sampling a target object from a
/// fixed origin.
pub struct HittablePdf<'a> {
    pub o: Point3,
    pub ptr: &'a crate::object::Object,
}

impl<'a> HittablePdf<'a> {
    /// Sample directions toward `ptr` from the origin `o`.
    pub fn new(ptr: &'a crate::object::Object, o: Point3) -> (r: HittablePdf<'a>)
        ensures
            r.o == o,
            r.ptr == ptr,
    {
        HittablePdf { o, ptr }
    }

    /// Draw a direction toward the target: exactly what the target's own
    /// sampler reports.
    pub fn generate(&self) -> (r: Vec3)
        requires
            crate::object::owf(*self.ptr),
            vec_in_range(self.o, 4 * crate::ray::GEO_LIM as int),
        ensures
            vec_in_range(r, 6 * crate::ray::GEO_LIM as int),
            crate::object::srandom_shape(*self.ptr, self.o, r),
    {
        self.ptr.random(&self.o)
    }

    /// The density of a direction.
    pub fn value(&self, direction: &Vec3) -> (r: i128)
        requires
            crate::object::owf(*self.ptr),
            crate::object::pdf_wf(*self.ptr),
            vec_in_range(self.o, 6 * crate::ray::GEO_LIM as int),
            vec_in_range(*direction, 6 * crate::ray::GEO_LIM as int),
            slen2(*direction) >= UNIT_MIN_LEN2,
        ensures
            r == crate::object::spdf(*self.ptr, self.o, *direction),
            0 <= r <= crate::object::pdf_cap(),
    {
        self.ptr.pdf_value(&self.o, direction)
    }
}

/// The even mixture of a light-sampling density and a cosine density.
pub struct MixturePdf<'a> {
    pub p0: HittablePdf<'a>,
    pub p1: CosPdf,
}

/// The mixture's density: the mean of its two parts.
pub open spec fn smix_value(lv: int, cv: int) -> int {
    crate::fx::tdiv(lv + cv, 2)
}

impl<'a> MixturePdf<'a> {
    /// Mix a light-sampling density with a cosine density, half and half.
    pub fn new(p0: HittablePdf<'a>, p1: CosPdf) -> (r: MixturePdf<'a>)
        ensures
            r.p0 == p0,
            r.p1 == p1,
    {
        MixturePdf { p0, p1 }
    }

    /// Draw from one of the two parts, each with probability one half: the
    /// result is a sample of the target or a cosine draw about the normal.
    pub fn generate(&self) -> (r: Vec3)
        requires
            crate::object::owf(*self.p0.ptr),
            vec_in_range(self.p0.o, 4 * crate::ray::GEO_LIM as int),
            crate::onb::onb_wf(self.p1.uvw),
        ensures
            vec_in_range(r, 6 * crate::ray::GEO_LIM as int),
            crate::object::srandom_shape(*self.p0.ptr, self.p0.o, r)
                || scos_sample(self.p1.uvw, r),
    {
        let pick = rand_below(2);
        if pick == 0 {
            self.p0.generate()
        } else {
            let d = self.p1.generate();
            proof {
                assert(48 * FP_ONE <= 6 * crate::ray::GEO_LIM);
            }
            d
        }
    }

    /// The mixture density of a direction: the mean of both densities,
    /// which is what makes the importance weight correct whichever part
    /// the direction was drawn from.
    pub fn value(&self, direction: &Vec3) -> (r: i128)
        requires
            crate::object::owf(*self.p0.ptr),
            crate::object::pdf_wf(*self.p0.ptr),
            vec_in_range(self.p0.o, 6 * crate::ray::GEO_LIM as int),
            crate::onb::onb_wf(self.p1.uvw),
            vec_in_range(*direction, crate::fx::COORD_LIM as int),
            vec_in_range(*direction, 6 * crate::ray::GEO_LIM as int),
            slen2(*direction) >= UNIT_MIN_LEN2,
        ensures
            r == smix_value(
                crate::object::spdf(*self.p0.ptr, self.p0.o, *direction),
                scos_pdf_value(self.p1.uvw, *direction),
            ),
            r >= 0,
    {
        let v0 = self.p0.value(direction);
        let v1 = self.p1.value(*direction);
        proof {
            crate::fx::lemma_tdiv_abs_le(v0 as int + v1 as int, 2);
            assert(v0 + v1 >= 0);
        }
        crate::fx::i_div(v0 + v1, 2)
    }
}

} // verus!
