//! The recursive radiance estimator.
//!
//! Each bounce combines the surface's emission with the radiance carried
//! by one scattered ray. Specular bounces follow their single ray
//! unweighted; diffuse bounces sample a direction from an even mixture of
//! the light-sampling density and the material's cosine density, and weigh
//! the recursion by the scattering density over the mixture density. A
//! sample of nonpositive mixture density contributes nothing, so a zero
//! importance can never divide the estimate.

use vstd::prelude::*;
use crate::fx::{absi, fxm, fxd, fx_mul, fx_div, i_min, i_max, FP_ONE, FX_LIM, COORD_LIM};
use crate::vec3::{Vec3, Color, vec_in_range, slen2, UNIT_MIN_LEN2};
use crate::ray::{Ray, geo_ray, GEO_LIM};
use crate::object::{Object, owf, pdf_wf, deterministic, ohit};
use crate::material::{Material, material_wf, semitted, COLOR_LIM};
use crate::pdf::{HittablePdf, MixturePdf};

verus! {

/// The positive cutoff below which self-intersection is ignored
/// (one thousandth in fixed point).
pub const T_EPS: i128 = 4294967;

/// A color component clamped into the color range.
pub open spec fn sclamp_color(x: int) -> int {
    if x < -COLOR_LIM { -COLOR_LIM as int } else if x > COLOR_LIM { COLOR_LIM as int } else { x }
}

/// Clamp a color into the color range.
fn clamp_color(c: Color) -> (r: Color)
    ensures
        r.x == sclamp_color(c.x as int),
        r.y == sclamp_color(c.y as int),
        r.z == sclamp_color(c.z as int),
        vec_in_range(r, COLOR_LIM as int),
{
    Vec3 {
        x: i_max(i_min(c.x, COLOR_LIM), -COLOR_LIM),
        y: i_max(i_min(c.y, COLOR_LIM), -COLOR_LIM),
        z: i_max(i_min(c.z, COLOR_LIM), -COLOR_LIM),
    }
}

/// The radiance carried back along a ray.
///
/// At depth zero the answer is black; a ray that hits nothing answers the
/// background; a hit on a surface that does not scatter answers its
/// emission alone.
#[verifier::rlimit(100)]
pub fn ray_color(r: &Ray, background: &Color, world: &Object, lights: &Object, depth: i32) -> (res: Color)
    requires
        owf(*world),
        owf(*lights),
        pdf_wf(*lights),
        geo_ray(*r),
        0 <= r.tm <= FP_ONE,
        slen2(r.dir) >= UNIT_MIN_LEN2,
        vec_in_range(*background, COLOR_LIM as int),
    ensures
        depth <= 0 ==> res == (Vec3 { x: 0i128, y: 0i128, z: 0i128 }),
        (depth > 0 && deterministic(*world)
            && ohit(*world, *r, T_EPS as int, FX_LIM as int) is None) ==> res == *background,
        (depth > 0 && deterministic(*world)
            && ohit(*world, *r, T_EPS as int, FX_LIM as int) is Some
            && ohit(*world, *r, T_EPS as int, FX_LIM as int).unwrap().mat is DiffuseLight)
            ==> {
                let h = ohit(*world, *r, T_EPS as int, FX_LIM as int).unwrap();
                res == semitted(h.mat, h.front_face, h.u as int, h.v as int, h.p)
            },
        vec_in_range(res, COLOR_LIM as int),
    decreases depth,
{
    if depth <= 0 {
        return Vec3 { x: 0, y: 0, z: 0 };
    }
    let hit = world.hit(r, T_EPS, FX_LIM);
    match hit {
        None => *background,
        Some(rec) => {
            let emitted = rec.mat_ptr.emitted(r, rec.front_face, rec.u, rec.v, &rec.p);
            let scattered = rec.mat_ptr.scatter(r, &rec);
            match scattered {
                None => emitted,
                Some(srec) => {
                    match srec.specular_ray {
                        Some(sray) => {
                            // A specular path: follow the one ray, weigh by the
                            // attenuation alone.
                            if sray.dir.len_sqr() < UNIT_MIN_LEN2 {
                                // A degenerate bounce carries nothing back.
                                return Vec3 { x: 0, y: 0, z: 0 };
                            }
                            proof {
                                lemma_spec_dir_ranges(*rec.mat_ptr, srec.specular_ray.unwrap());
                            }
                            let sub = ray_color(&sray, background, world, lights, depth - 1);
                            proof {
                                crate::material::lemma_texture_value_range(
                                    crate::texture::Texture::Solid(crate::texture::SolidColor {
                                        color_value: srec.attenuation,
                                    }), 0, 0, rec.p,
                                );
                            }
                            let c = mul_color(&srec.attenuation, &sub);
                            clamp_color(c)
                        }
                        None => {
                            // A diffuse path: sample the even mixture of the
                            // light density and the material's cosine density.
                            let cpdf = match srec.pdf_ptr {
                                Some(p) => p,
                                None => {
                                    return emitted;
                                }
                            };
                            let lpdf = HittablePdf::new(lights, rec.p);
                            let mixture = MixturePdf::new(lpdf, cpdf);
                            let dir = mixture.generate();
                            if dir.len_sqr() < UNIT_MIN_LEN2 {
                                return emitted;
                            }
                            let sc = Ray::new(rec.p, dir, r.tm);
                            let pdf_val = mixture.value(&sc.dir);
                            if pdf_val <= 0 {
                                // A zero-importance sample contributes zero
                                // radiance rather than dividing by zero.
                                return emitted;
                            }
                            let spdf_v = rec.mat_ptr.scattering_pdf(r, &rec, &sc);
                            let sub = ray_color(&sc, background, world, lights, depth - 1);
                            let w1 = mul_color_scalar_bounded(&srec.attenuation, spdf_v, &sub);
                            let cx = fx_div(w1.x, pdf_val);
                            let cy = fx_div(w1.y, pdf_val);
                            let cz = fx_div(w1.z, pdf_val);
                            let total = Vec3 {
                                x: emitted.x + cx,
                                y: emitted.y + cy,
                                z: emitted.z + cz,
                            };
                            clamp_color(total)
                        }
                    }
                }
            }
        }
    }
}

/// The attenuation's specular directions stay within the kernel range and
/// within the unit-span bound needed to recurse.
proof fn lemma_spec_dir_ranges(m: Material, sray: Ray)
    requires
        vec_in_range(sray.dir, 1024 * FP_ONE as int),
    ensures
        vec_in_range(sray.dir, 6 * GEO_LIM as int),
{
}

/// Component-wise color product, both in the color range.
fn mul_color(a: &Color, b: &Color) -> (r: Color)
    requires
        vec_in_range(*a, COLOR_LIM as int),
        vec_in_range(*b, COLOR_LIM as int),
    ensures
        r.x == fxm(a.x as int, b.x as int),
        r.y == fxm(a.y as int, b.y as int),
        r.z == fxm(a.z as int, b.z as int),
{
    a.mul_comp(b)
}

/// `attenuation * scattering_pdf * color`, all bounded.
fn mul_color_scalar_bounded(a: &Color, k: i128, b: &Color) -> (r: Color)
    requires
        vec_in_range(*a, COLOR_LIM as int),
        0 <= k <= 4 * FP_ONE,
        vec_in_range(*b, COLOR_LIM as int),
    ensures
        r.x == fxm(fxm(a.x as int, k as int), b.x as int),
        r.y == fxm(fxm(a.y as int, k as int), b.y as int),
        r.z == fxm(fxm(a.z as int, k as int), b.z as int),
        vec_in_range(r, FX_LIM as int),
{
    proof {
        crate::vec3::lemma_fxm_tight(a.x as int, k as int, COLOR_LIM as int, 4 * FP_ONE as int);
        crate::vec3::lemma_fxm_tight(a.y as int, k as int, COLOR_LIM as int, 4 * FP_ONE as int);
        crate::vec3::lemma_fxm_tight(a.z as int, k as int, COLOR_LIM as int, 4 * FP_ONE as int);
        assert((COLOR_LIM as int) * (4 * FP_ONE as int) / (FP_ONE as int)
            == 4 * COLOR_LIM as int) by (nonlinear_arith);
    }
    let s = a.scale(k);
    proof {
        crate::vec3::lemma_fxm_tight(s.x as int, b.x as int, 4 * COLOR_LIM as int, COLOR_LIM as int);
        crate::vec3::lemma_fxm_tight(s.y as int, b.y as int, 4 * COLOR_LIM as int, COLOR_LIM as int);
        crate::vec3::lemma_fxm_tight(s.z as int, b.z as int, 4 * COLOR_LIM as int, COLOR_LIM as int);
        assert((4 * COLOR_LIM as int) * (COLOR_LIM as int) / (FP_ONE as int) <= FX_LIM as int)
            by (nonlinear_arith);
    }
    s.mul_comp(b)
}

} // verus!
