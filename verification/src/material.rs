//! Surface response: scattering, emission, and the scattering density.
//!
//! Materials form a closed set. Scattering either produces a specular ray
//! (metal, glass, fog phase function) or defers direction choice to a
//! cosine density (diffuse), exactly one of the two.

use vstd::prelude::*;
use crate::fx::{
    absi, fxm, fxd, tdiv, sqrt_floor, fx_mul, fx_div, isqrt, i_min, i_max,
    FP_ONE, FX_LIM, COORD_LIM,
};
use crate::vec3::{
    Vec3, Point3, Color, vec_in_range, sdot, slen2, sunit, sreflect, unit_band,
    lemma_fxm_tight, UNIT_MIN_LEN2,
};
use crate::ray::{Ray, ray_wf, geo_ray};
use crate::hittable::HitRecord;
use crate::texture::{Texture, SolidColor, stexture_value, image_wf, PI_FP};
use crate::pdf::CosPdf;
use crate::rng::{random_in_unit_sphere, random_unit_fx};
use crate::onb::onb_wf;

verus! {

/// Color components a texture or material may carry (they may exceed one:
/// lights are brighter than white).
pub const COLOR_LIM: i128 = 35184372088832;

/// A diffuse surface with an albedo texture.
#[derive(Clone, PartialEq, Eq, Debug)]
pub struct Lambertian {
    pub albedo: Texture,
}

/// A specular reflector with a fuzz radius in `[0, 1]`.
#[derive(Clone, PartialEq, Eq, Debug)]
pub struct Metal {
    pub albedo: Color,
    pub fuzz: i128,
}

/// A clear refractive surface with an index of refraction.
#[derive(Clone, PartialEq, Eq, Debug)]
pub struct Dielectric {
    pub ir: i128,
}

/// A surface that only emits.
#[derive(Clone, PartialEq, Eq, Debug)]
pub struct DiffuseLight {
    pub emit: Texture,
}

/// The phase function of a participating medium: scatters uniformly.
#[derive(Clone, PartialEq, Eq, Debug)]
pub struct Isotropic {
    pub albedo: Texture,
}

/// A surface material of any supported kind.
#[derive(Clone, PartialEq, Eq, Debug)]
pub enum Material {
    Lambertian(Lambertian),
    Metal(Metal),
    Dielectric(Dielectric),
    DiffuseLight(DiffuseLight),
    Isotropic(Isotropic),
}

/// What a scatter call reports: either a concrete specular ray, or a
/// density to sample a diffuse direction from; never both.
pub struct ScatterRecord {
    pub specular_ray: Option<Ray>,
    pub attenuation: Color,
    pub pdf_ptr: Option<CosPdf>,
}

impl ScatterRecord {
    /// Assemble a scatter record.
    pub fn new(specular_ray: Option<Ray>, attenuation: Color, pdf_ptr: Option<CosPdf>) -> (r: ScatterRecord)
        ensures
            r.specular_ray == specular_ray,
            r.attenuation == attenuation,
            r.pdf_ptr == pdf_ptr,
    {
        ScatterRecord { specular_ray, attenuation, pdf_ptr }
    }
}

/// Bounds under which a texture's colors are usable by the integrator.
pub open spec fn texture_wf(t: Texture) -> bool {
    match t {
        Texture::Solid(s) => vec_in_range(s.color_value, COLOR_LIM as int),
        Texture::Checker(c) => vec_in_range(c.odd.color_value, COLOR_LIM as int)
            && vec_in_range(c.even.color_value, COLOR_LIM as int),
        Texture::Image(img) => image_wf(img),
    }
}

/// Bounds under which a material's parameters are usable.
pub open spec fn material_wf(m: Material) -> bool {
    match m {
        Material::Lambertian(l) => texture_wf(l.albedo),
        Material::Metal(mt) => vec_in_range(mt.albedo, COLOR_LIM as int)
            && 0 <= mt.fuzz <= FP_ONE,
        Material::Dielectric(d) => 1073741824 <= d.ir <= 4 * FP_ONE,
        Material::DiffuseLight(dl) => texture_wf(dl.emit),
        Material::Isotropic(i) => texture_wf(i.albedo),
    }
}

/// The bounds a hit record must satisfy for scattering: point in the world
/// range, oriented normal of roughly unit length.
pub open spec fn scatter_rec_wf<'a>(rec: HitRecord<'a>) -> bool {
    vec_in_range(rec.p, COORD_LIM as int)
        && vec_in_range(rec.normal, 2 * FP_ONE as int)
        && unit_band(rec.normal)
}

/// Any texture color stays within the color range.
pub proof fn lemma_texture_value_range(t: Texture, u: int, v: int, p: Point3)
    requires
        texture_wf(t),
    ensures
        vec_in_range(stexture_value(t, u, v, p), COLOR_LIM as int),
{
    match t {
        Texture::Solid(_) => {}
        Texture::Checker(_) => {}
        Texture::Image(img) => {
            let c = crate::texture::simage_value(img, u, v);
            if img.pixel_color@.len() == 0 {
            } else {
                let i = crate::texture::spixel_index(u, img.width as int);
                let j = crate::texture::spixel_index(v, img.height as int);
                let pix = img.pixel_color@[j * (img.width as int) + i];
                lemma_channel_range(pix.0 as int);
                lemma_channel_range(pix.1 as int);
                lemma_channel_range(pix.2 as int);
            }
        }
    }
}

proof fn lemma_channel_range(c: int)
    requires
        0 <= c <= 255,
    ensures
        0 <= crate::texture::schannel(c) <= FP_ONE,
{
    let x = c * FP_ONE * 1000;
    crate::fx::lemma_tdiv_abs_le(x, 255999);
    assert(tdiv(x, 255999) == if x == 0 { 0int } else { x / 255999 });
    if x > 0 {
        vstd::arithmetic::div_mod::lemma_div_is_ordered(x, 1095216660480000, 255999);
        assert(1095216660480000int / 255999int < FP_ONE);
        vstd::arithmetic::div_mod::lemma_div_pos_is_pos(x, 255999);
    }
}

/// The refraction ratio a dielectric uses: `1/ir` entering, `ir` leaving.
pub open spec fn sratio(ir: int, front_face: bool) -> int {
    if front_face { fxd(FP_ONE as int, ir) } else { ir }
}

/// The incidence cosine the dielectric uses: `dot(-unit_dir, normal)`,
/// clamped into `[-1, 1]`.
pub open spec fn scos_in(u: Vec3, n: Vec3) -> int {
    let c = fxm(-u.x, n.x as int) + fxm(-u.y, n.y as int) + fxm(-u.z, n.z as int);
    let c1 = if c <= FP_ONE { c } else { FP_ONE as int };
    if c1 >= -FP_ONE { c1 } else { -FP_ONE as int }
}

/// The sine derived from the clamped cosine.
pub open spec fn ssin_in(cos: int) -> int {
    sqrt_floor(((FP_ONE - fxm(cos, cos)) * FP_ONE) as nat) as int
}

/// Total internal reflection is forced when `ratio * sin > 1`.
pub open spec fn scannot_refract(u: Vec3, n: Vec3, ratio: int) -> bool {
    fxm(ratio, ssin_in(scos_in(u, n))) > FP_ONE
}

/// The refracted direction, one component at a time (Snell's law in fixed
/// point): the perpendicular part scaled by the ratio, plus the parallel
/// part along the normal.
pub open spec fn srefract(u: Vec3, n: Vec3, ratio: int) -> (int, int, int) {
    let cos = scos_in(u, n);
    let hx = u.x + fxm(n.x as int, cos);
    let hy = u.y + fxm(n.y as int, cos);
    let hz = u.z + fxm(n.z as int, cos);
    let sx = fxm(hx, ratio);
    let sy = fxm(hy, ratio);
    let sz = fxm(hz, ratio);
    let l2 = fxm(sx, sx) + fxm(sy, sy) + fxm(sz, sz);
    let k = absi(FP_ONE - l2);
    let s = sqrt_floor((k * FP_ONE) as nat) as int;
    (sx + fxm(n.x as int, -s), sy + fxm(n.y as int, -s), sz + fxm(n.z as int, -s))
}

/// Schlick's reflectance approximation, in fixed point.
pub open spec fn sreflectance(cos: int, ref_idx: int) -> int {
    let r0 = fxd(FP_ONE - ref_idx, FP_ONE + ref_idx);
    let r0s = fxm(r0, r0);
    let omc = FP_ONE - cos;
    let p2 = fxm(omc, omc);
    let p4 = fxm(p2, p2);
    let p5 = fxm(p4, omc);
    r0s + fxm(FP_ONE - r0s, p5)
}

/// Schlick's approximation. The result is a probability: it always lies in
/// `[0, 1]`, and at normal incidence (`cos == 1`) it is exactly the squared
/// fixed-point ratio `((1 - n)/(1 + n))^2`.
pub fn reflectance(cos: i128, ref_idx: i128) -> (r: i128)
    requires
        0 <= cos <= FP_ONE,
        0 < ref_idx <= 4 * FP_ONE,
    ensures
        r == sreflectance(cos as int, ref_idx as int),
        0 <= r <= FP_ONE,
        cos == FP_ONE ==> r == fxm(
            fxd(FP_ONE - ref_idx, FP_ONE + ref_idx),
            fxd(FP_ONE - ref_idx, FP_ONE + ref_idx),
        ),
{
    proof {
        lemma_reflectance_bounds(cos as int, ref_idx as int);
    }
    let r0 = fx_div(FP_ONE - ref_idx, FP_ONE + ref_idx);
    let r0s = fx_mul(r0, r0);
    let omc = FP_ONE - cos;
    let p2 = fx_mul(omc, omc);
    let p4 = fx_mul(p2, p2);
    let p5 = fx_mul(p4, omc);
    r0s + fx_mul(FP_ONE - r0s, p5)
}

/// All intermediate quantities of the Schlick formula are probabilities.
proof fn lemma_reflectance_bounds(cos: int, ref_idx: int)
    requires
        0 <= cos <= FP_ONE,
        0 < ref_idx <= 4 * FP_ONE,
    ensures
        ({
            let r0 = fxd(FP_ONE - ref_idx, FP_ONE + ref_idx);
            let r0s = fxm(r0, r0);
            let omc = FP_ONE - cos;
            let p2 = fxm(omc, omc);
            let p4 = fxm(p2, p2);
            let p5 = fxm(p4, omc);
            absi(r0) <= FP_ONE && 0 <= r0s <= FP_ONE
                && 0 <= p2 <= FP_ONE && 0 <= p4 <= FP_ONE && 0 <= p5 <= FP_ONE
                && 0 <= r0s + fxm(FP_ONE - r0s, p5) <= FP_ONE
        }),
        cos == FP_ONE ==> sreflectance(cos, ref_idx) == fxm(
            fxd(FP_ONE - ref_idx, FP_ONE + ref_idx),
            fxd(FP_ONE - ref_idx, FP_ONE + ref_idx),
        ),
{
    let r0 = fxd(FP_ONE - ref_idx, FP_ONE + ref_idx);
    // |1 - n| <= 1 + n, so the quotient is within one.
    assert(absi((FP_ONE - ref_idx) * FP_ONE) <= (FP_ONE + ref_idx) * FP_ONE) by (nonlinear_arith)
        requires 0 < ref_idx, FP_ONE >= 1
    ;
    crate::fx::lemma_tdiv_ratio_le(
        (FP_ONE - ref_idx) * FP_ONE,
        FP_ONE + ref_idx,
        FP_ONE as int,
    );
    let r0s = fxm(r0, r0);
    lemma_fxm_unit_interval_signed(r0);
    let omc = FP_ONE - cos;
    let p2 = fxm(omc, omc);
    lemma_fxm_unit_interval(omc, omc);
    let p4 = fxm(p2, p2);
    lemma_fxm_unit_interval(p2, p2);
    let p5 = fxm(p4, omc);
    lemma_fxm_unit_interval(p4, omc);
    lemma_fxm_unit_interval(FP_ONE - r0s, p5);
    assert(r0s + fxm(FP_ONE - r0s, p5) <= FP_ONE) by {
        lemma_fxm_le_right(FP_ONE - r0s, p5);
    }
    if cos == FP_ONE {
        crate::fx::lemma_fxm_zero(0);
        crate::fx::lemma_fxm_zero(FP_ONE - r0s);
    }
}

/// The product of two probabilities is a probability.
proof fn lemma_fxm_unit_interval(a: int, b: int)
    requires
        0 <= a <= FP_ONE,
        0 <= b <= FP_ONE,
    ensures
        0 <= fxm(a, b) <= FP_ONE,
        fxm(a, b) * FP_ONE <= a * b,
{
    assert(absi(a) * absi(b) <= (FP_ONE as int) * (FP_ONE as int)) by (nonlinear_arith)
        requires 0 <= a <= FP_ONE, 0 <= b <= FP_ONE
    ;
    crate::fx::lemma_fxm_bound(a, b, (FP_ONE as int) * (FP_ONE as int));
    crate::fx::lemma_tdiv_abs_le(a * b, FP_ONE as int);
    assert(a * b >= 0) by (nonlinear_arith)
        requires a >= 0, b >= 0
    ;
    crate::fx::lemma_tdiv_mul_close(a * b, FP_ONE as int);
    let q = fxm(a, b);
    assert(q >= 0);
    assert(q <= FP_ONE) by (nonlinear_arith)
        requires
            q * FP_ONE <= a * b,
            a * b <= (FP_ONE as int) * (FP_ONE as int),
            q >= 0,
            FP_ONE > 0,
    ;
}

/// The squared fixed-point value of a number within one is a probability.
proof fn lemma_fxm_unit_interval_signed(a: int)
    requires
        absi(a) <= FP_ONE,
    ensures
        0 <= fxm(a, a) <= FP_ONE,
{
    assert(a * a == absi(a) * absi(a)) by (nonlinear_arith);
    assert(0 <= a * a <= (FP_ONE as int) * (FP_ONE as int)) by (nonlinear_arith)
        requires 0 <= absi(a) <= FP_ONE
    ;
    crate::fx::lemma_tdiv_abs_le(a * a, FP_ONE as int);
    crate::fx::lemma_tdiv_mul_close(a * a, FP_ONE as int);
    let q = fxm(a, a);
    assert(q <= FP_ONE) by (nonlinear_arith)
        requires
            q * FP_ONE <= a * a,
            a * a <= (FP_ONE as int) * (FP_ONE as int),
            q >= 0,
            FP_ONE > 0,
    ;
}

/// `a * p <= a` for a scale `p` within one and `a` within one.
proof fn lemma_fxm_le_right(a: int, p: int)
    requires
        0 <= a <= FP_ONE,
        0 <= p <= FP_ONE,
    ensures
        fxm(a, p) <= a,
{
    lemma_fxm_unit_interval(a, p);
    let q = fxm(a, p);
    assert(q * FP_ONE <= a * p);
    assert(q <= a) by (nonlinear_arith)
        requires q * FP_ONE <= a * p, p <= FP_ONE, 0 <= a, q >= 0, FP_ONE > 0
    ;
}

impl Lambertian {
    /// A diffuse surface of one solid color.
    pub fn new(a: Color) -> (r: Lambertian)
        ensures
            r.albedo == Texture::Solid(SolidColor { color_value: a }),
    {
        Lambertian { albedo: Texture::Solid(SolidColor::new(a)) }
    }

    /// A diffuse surface with an arbitrary texture.
    pub fn new_arc(albedo: Texture) -> (r: Lambertian)
        ensures
            r.albedo == albedo,
    {
        Lambertian { albedo }
    }
}

impl Metal {
    /// A specular surface; fuzz is capped at one, as a fuzz sphere larger
    /// than the reflection lobe is meaningless.
    pub fn new(a: Color, f: i128) -> (r: Metal)
        requires
            0 <= f,
        ensures
            r.albedo == a,
            r.fuzz == if f < FP_ONE { f as int } else { FP_ONE as int },
    {
        Metal { albedo: a, fuzz: if f < FP_ONE { f } else { FP_ONE } }
    }
}

impl Dielectric {
    /// A refractive surface with the given index.
    pub fn new(index_of_refraction: i128) -> (r: Dielectric)
        ensures
            r.ir == index_of_refraction,
    {
        Dielectric { ir: index_of_refraction }
    }
}

impl DiffuseLight {
    /// A light of one solid color.
    pub fn new(c: Color) -> (r: DiffuseLight)
        ensures
            r.emit == Texture::Solid(SolidColor { color_value: c }),
    {
        DiffuseLight { emit: Texture::Solid(SolidColor::new(c)) }
    }

    /// A light with an arbitrary texture.
    pub fn new_arc(emit: Texture) -> (r: DiffuseLight)
        ensures
            r.emit == emit,
    {
        DiffuseLight { emit }
    }
}

impl Isotropic {
    /// A phase function of one solid color.
    pub fn new(c: Color) -> (r: Isotropic)
        ensures
            r.albedo == Texture::Solid(SolidColor { color_value: c }),
    {
        Isotropic { albedo: Texture::Solid(SolidColor::new(c)) }
    }

    /// A phase function with an arbitrary texture.
    pub fn new_arc(a: Texture) -> (r: Isotropic)
        ensures
            r.albedo == a,
    {
        Isotropic { albedo: a }
    }
}

} // verus!

verus! {

/// What `scattering_pdf` returns: the Lambertian cosine density, zero for
/// every other material.
pub open spec fn sscattering_pdf(m: Material, normal: Vec3, scattered: Ray) -> int {
    match m {
        Material::Lambertian(_) => {
            let c = sdot(normal, sunit(scattered.dir));
            if c < 0 { 0 } else { fxd(c, PI_FP as int) }
        }
        _ => 0,
    }
}

/// What `emitted` returns: the light texture on the front face, black
/// everywhere else.
pub open spec fn semitted(m: Material, front_face: bool, u: int, v: int, p: Point3) -> Color {
    match m {
        Material::DiffuseLight(dl) => if front_face {
            stexture_value(dl.emit, u, v, p)
        } else {
            Vec3 { x: 0i128, y: 0i128, z: 0i128 }
        },
        _ => Vec3 { x: 0i128, y: 0i128, z: 0i128 },
    }
}

/// Refraction by Snell's law in fixed point, mirroring `srefract`.
fn refract(uv: &Vec3, n: &Vec3, ratio: i128) -> (res: Vec3)
    requires
        vec_in_range(*uv, 2 * FP_ONE as int),
        vec_in_range(*n, 2 * FP_ONE as int),
        0 <= ratio <= 4 * FP_ONE,
    ensures
        (res.x as int, res.y as int, res.z as int) == srefract(*uv, *n, ratio as int),
        vec_in_range(res, 128 * FP_ONE as int),
{
    let m = uv.neg();
    proof {
        crate::pdf::lemma_unitish_dot(m, *n);
    }
    let cosd = m.dot(n);
    let cos0 = i_min(cosd, FP_ONE);
    let cos = i_max(cos0, -FP_ONE);
    proof {
        lemma_fxm_tight(n.x as int, cos as int, 2 * FP_ONE as int, FP_ONE as int);
        lemma_fxm_tight(n.y as int, cos as int, 2 * FP_ONE as int, FP_ONE as int);
        lemma_fxm_tight(n.z as int, cos as int, 2 * FP_ONE as int, FP_ONE as int);
        assert((2 * FP_ONE as int) * (FP_ONE as int) / (FP_ONE as int) == 2 * FP_ONE as int)
            by (nonlinear_arith);
    }
    let h = uv.plus(&n.scale(cos));
    proof {
        lemma_fxm_tight(h.x as int, ratio as int, 4 * FP_ONE as int, 4 * FP_ONE as int);
        lemma_fxm_tight(h.y as int, ratio as int, 4 * FP_ONE as int, 4 * FP_ONE as int);
        lemma_fxm_tight(h.z as int, ratio as int, 4 * FP_ONE as int, 4 * FP_ONE as int);
        assert((4 * FP_ONE as int) * (4 * FP_ONE as int) / (FP_ONE as int) == 16 * FP_ONE as int)
            by (nonlinear_arith);
    }
    let sv = h.scale(ratio);
    proof {
        lemma_fxm_tight(sv.x as int, sv.x as int, 16 * FP_ONE as int, 16 * FP_ONE as int);
        lemma_fxm_tight(sv.y as int, sv.y as int, 16 * FP_ONE as int, 16 * FP_ONE as int);
        lemma_fxm_tight(sv.z as int, sv.z as int, 16 * FP_ONE as int, 16 * FP_ONE as int);
        assert((16 * FP_ONE as int) * (16 * FP_ONE as int) / (FP_ONE as int) == 256 * FP_ONE as int)
            by (nonlinear_arith);
        crate::vec3::lemma_slen2_nonneg(sv);
    }
    let l2 = sv.len_sqr();
    let k = FP_ONE - l2;
    let ka = crate::fx::i_abs(k);
    let s = isqrt(ka * FP_ONE);
    proof {
        assert(s * s <= ka * FP_ONE);
        assert(s <= 28 * FP_ONE) by (nonlinear_arith)
            requires
                s >= 0,
                s * s <= ka * (FP_ONE as int),
                0 <= ka <= 769 * FP_ONE,
        ;
        lemma_fxm_tight(n.x as int, -(s as int), 2 * FP_ONE as int, 28 * FP_ONE as int);
        lemma_fxm_tight(n.y as int, -(s as int), 2 * FP_ONE as int, 28 * FP_ONE as int);
        lemma_fxm_tight(n.z as int, -(s as int), 2 * FP_ONE as int, 28 * FP_ONE as int);
        assert((2 * FP_ONE as int) * (28 * FP_ONE as int) / (FP_ONE as int) == 56 * FP_ONE as int)
            by (nonlinear_arith);
    }
    let par = n.scale(-s);
    sv.plus(&par)
}

impl Material {
    /// How this material responds to a hit: a specular bounce, a deferred
    /// cosine-density sample, or nothing (pure emitters absorb).
    pub fn scatter(&self, r_in: &Ray, rec: &HitRecord) -> (res: Option<ScatterRecord>)
        requires
            material_wf(*self),
            geo_ray(*r_in),
            slen2(r_in.dir) >= UNIT_MIN_LEN2,
            vec_in_range(rec.p, COORD_LIM as int),
            vec_in_range(rec.normal, 2 * FP_ONE as int),
            unit_band(rec.normal),
        ensures
            match self {
                Material::Lambertian(l) => res is Some && {
                    let s = res.unwrap();
                    s.specular_ray is None
                        && s.attenuation == stexture_value(l.albedo, rec.u as int, rec.v as int, rec.p)
                        && s.pdf_ptr is Some
                        && crate::onb::onb_wf(s.pdf_ptr.unwrap().uvw)
                        && s.pdf_ptr.unwrap().uvw.w_axis == sunit(rec.normal)
                },
                Material::Metal(mt) => (res is Some ==> {
                    let s = res.unwrap();
                    let sr = s.specular_ray.unwrap();
                    s.specular_ray is Some && s.pdf_ptr is None
                        && s.attenuation == mt.albedo
                        && sr.orig == rec.p && sr.tm == 0
                        && sdot(sr.dir, rec.normal) > 0
                        && absi(sr.dir.x - sreflect(sunit(r_in.dir), rec.normal).0) <= mt.fuzz
                        && absi(sr.dir.y - sreflect(sunit(r_in.dir), rec.normal).1) <= mt.fuzz
                        && absi(sr.dir.z - sreflect(sunit(r_in.dir), rec.normal).2) <= mt.fuzz
                        && vec_in_range(sr.dir, 1024 * FP_ONE as int)
                }) && (mt.fuzz == 0 ==> (res is Some <==> {
                    let d = sreflect(sunit(r_in.dir), rec.normal);
                    fxm(d.0, rec.normal.x as int) + fxm(d.1, rec.normal.y as int)
                        + fxm(d.2, rec.normal.z as int) > 0
                })),
                Material::Dielectric(d) => res is Some && {
                    let s = res.unwrap();
                    let sr = s.specular_ray.unwrap();
                    let u = sunit(r_in.dir);
                    let ratio = sratio(d.ir as int, rec.front_face);
                    s.specular_ray is Some && s.pdf_ptr is None
                        && s.attenuation == (Vec3 { x: FP_ONE, y: FP_ONE, z: FP_ONE })
                        && sr.orig == rec.p && sr.tm == r_in.tm
                        && ((sr.dir.x as int, sr.dir.y as int, sr.dir.z as int) == sreflect(u, rec.normal)
                            || (sr.dir.x as int, sr.dir.y as int, sr.dir.z as int) == srefract(u, rec.normal, ratio))
                        && (scannot_refract(u, rec.normal, ratio)
                            ==> (sr.dir.x as int, sr.dir.y as int, sr.dir.z as int) == sreflect(u, rec.normal))
                        && vec_in_range(sr.dir, 1024 * FP_ONE as int)
                },
                Material::DiffuseLight(_) => res is None,
                Material::Isotropic(i) => res is Some && {
                    let s = res.unwrap();
                    let sr = s.specular_ray.unwrap();
                    s.specular_ray is Some && s.pdf_ptr is None
                        && s.attenuation == stexture_value(i.albedo, rec.u as int, rec.v as int, rec.p)
                        && sr.orig == rec.p && sr.tm == r_in.tm
                        && slen2(sr.dir) < FP_ONE
                        && vec_in_range(sr.dir, 1024 * FP_ONE as int)
                },
            },
    {
        match self {
            Material::Lambertian(l) => {
                proof {
                    crate::vec3::lemma_slen2_nonneg(rec.normal);
                }
                Some(ScatterRecord::new(
                    None,
                    l.albedo.value(rec.u, rec.v, &rec.p),
                    Some(CosPdf::new(rec.normal)),
                ))
            }
            Material::Metal(mt) => {
                let ud = r_in.dir.to_unit();
                let reflected = ud.reflect(&rec.normal);
                let e = crate::rng::random_in_unit_sphere();
                proof {
                    lemma_fxm_tight(e.x as int, mt.fuzz as int, FP_ONE as int, mt.fuzz as int);
                    lemma_fxm_tight(e.y as int, mt.fuzz as int, FP_ONE as int, mt.fuzz as int);
                    lemma_fxm_tight(e.z as int, mt.fuzz as int, FP_ONE as int, mt.fuzz as int);
                    vstd::arithmetic::div_mod::lemma_div_multiples_vanish(
                        mt.fuzz as int, FP_ONE as int,
                    );
                    assert((FP_ONE as int) * (mt.fuzz as int) / (FP_ONE as int) == mt.fuzz as int);
                    lemma_reflect_range(sunit(r_in.dir), rec.normal);
                    if mt.fuzz == 0 {
                        crate::fx::lemma_fxm_zero(e.x as int);
                        crate::fx::lemma_fxm_zero(e.y as int);
                        crate::fx::lemma_fxm_zero(e.z as int);
                    }
                }
                let pert = e.scale(mt.fuzz);
                let dir = reflected.plus(&pert);
                let dt = dir.dot(&rec.normal);
                if dt > 0 {
                    Some(ScatterRecord::new(
                        Some(Ray::new(rec.p, dir, 0)),
                        mt.albedo,
                        None,
                    ))
                } else {
                    None
                }
            }
            Material::Dielectric(d) => {
                let ud = r_in.dir.to_unit();
                let m = ud.neg();
                proof {
                    crate::pdf::lemma_unitish_dot(m, rec.normal);
                }
                let cosd = m.dot(&rec.normal);
                let cos0 = i_min(cosd, FP_ONE);
                let cos = i_max(cos0, -FP_ONE);
                proof {
                    lemma_fxm_unit_interval_signed(cos as int);
                }
                let k2 = FP_ONE - fx_mul(cos, cos);
                let sin = isqrt(k2 * FP_ONE);
                proof {
                    assert(sin <= FP_ONE) by (nonlinear_arith)
                        requires
                            sin >= 0,
                            (sin as int) * (sin as int) <= k2 * (FP_ONE as int),
                            0 <= k2 <= FP_ONE,
                    ;
                }
                let ratio = if rec.front_face {
                    proof {
                        lemma_ratio_range(d.ir as int);
                    }
                    fx_div(FP_ONE, d.ir)
                } else {
                    d.ir
                };
                let cannot = fx_mul(ratio, sin) > FP_ONE;
                let rnd = crate::rng::random_unit_fx();
                let cr = i_max(cos, 0);
                let refl = reflectance(cr, ratio);
                let dir = if cannot || cos <= 0 || refl > rnd {
                    ud.reflect(&rec.normal)
                } else {
                    refract(&ud, &rec.normal, ratio)
                };
                proof {
                    lemma_reflect_range(sunit(r_in.dir), rec.normal);
                }
                Some(ScatterRecord::new(
                    Some(Ray::new(rec.p, dir, r_in.tm)),
                    Vec3 { x: FP_ONE, y: FP_ONE, z: FP_ONE },
                    None,
                ))
            }
            Material::DiffuseLight(_) => None,
            Material::Isotropic(i) => {
                let dir = crate::rng::random_in_unit_sphere();
                Some(ScatterRecord::new(
                    Some(Ray::new(rec.p, dir, r_in.tm)),
                    i.albedo.value(rec.u, rec.v, &rec.p),
                    None,
                ))
            }
        }
    }

    /// The density with which this material would itself have scattered in
    /// the given direction: the cosine law for a diffuse surface, zero for
    /// everything else.
    pub fn scattering_pdf(&self, _r_in: &Ray, rec: &HitRecord, scattered: &Ray) -> (r: i128)
        requires
            vec_in_range(rec.normal, 2 * FP_ONE as int),
            vec_in_range(scattered.dir, COORD_LIM as int),
            slen2(scattered.dir) >= UNIT_MIN_LEN2,
        ensures
            r == sscattering_pdf(*self, rec.normal, *scattered),
            0 <= r <= 4 * FP_ONE,
    {
        match self {
            Material::Lambertian(_) => {
                let ud = scattered.dir.to_unit();
                proof {
                    crate::pdf::lemma_unitish_dot(rec.normal, ud);
                }
                let c = rec.normal.dot(&ud);
                if c < 0 {
                    0
                } else {
                    proof {
                        assert((c as int) * (FP_ONE as int) <= (PI_FP as int) * (4 * FP_ONE as int))
                            by (nonlinear_arith)
                            requires
                                0 <= c <= 12 * FP_ONE,
                                FP_ONE == 4294967296,
                                PI_FP == 13493037705,
                        ;
                        crate::fx::lemma_tdiv_ratio_le(c as int * FP_ONE, PI_FP as int, 4 * FP_ONE as int);
                        crate::fx::lemma_tdiv_abs_le(c as int * FP_ONE, PI_FP as int);
                    }
                    fx_div(c, crate::texture::PI_FP)
                }
            }
            _ => 0,
        }
    }

    /// Light emitted at a hit: the emission texture on the front face of a
    /// light, black for every other material or face.
    pub fn emitted(&self, _r_in: &Ray, rec_front_face: bool, u: i128, v: i128, p: &Point3) -> (r: Color)
        requires
            material_wf(*self),
            vec_in_range(*p, COORD_LIM as int),
        ensures
            r == semitted(*self, rec_front_face, u as int, v as int, *p),
            vec_in_range(r, COLOR_LIM as int),
    {
        match self {
            Material::DiffuseLight(dl) => {
                if rec_front_face {
                    let c = dl.emit.value(u, v, p);
                    proof {
                        lemma_texture_value_range(dl.emit, u as int, v as int, *p);
                    }
                    c
                } else {
                    Vec3 { x: 0, y: 0, z: 0 }
                }
            }
            _ => Vec3 { x: 0, y: 0, z: 0 },
        }
    }
}

/// The reflection of a nearly-unit vector about a nearly-unit normal has
/// small components.
proof fn lemma_reflect_range(v: Vec3, n: Vec3)
    requires
        vec_in_range(v, 2 * FP_ONE as int),
        vec_in_range(n, 2 * FP_ONE as int),
    ensures
        absi(sreflect(v, n).0) <= 100 * FP_ONE,
        absi(sreflect(v, n).1) <= 100 * FP_ONE,
        absi(sreflect(v, n).2) <= 100 * FP_ONE,
{
    crate::pdf::lemma_unitish_dot(v, n);
    let k = 2 * sdot(v, n);
    lemma_fxm_tight(n.x as int, k, 2 * FP_ONE as int, 24 * FP_ONE as int);
    lemma_fxm_tight(n.y as int, k, 2 * FP_ONE as int, 24 * FP_ONE as int);
    lemma_fxm_tight(n.z as int, k, 2 * FP_ONE as int, 24 * FP_ONE as int);
    assert((2 * FP_ONE as int) * (24 * FP_ONE as int) / (FP_ONE as int) == 48 * FP_ONE as int)
        by (nonlinear_arith);
}

/// The refraction ratio derived from a well-formed index is a positive
/// probability-scale factor within four.
proof fn lemma_ratio_range(ir: int)
    requires
        1073741824 <= ir <= 4 * FP_ONE,
    ensures
        0 < fxd(FP_ONE as int, ir) <= 4 * FP_ONE,
{
    let q = fxd(FP_ONE as int, ir);
    assert((FP_ONE as int) * (FP_ONE as int) <= ir * (4 * FP_ONE as int)) by (nonlinear_arith)
        requires ir >= 1073741824
    ;
    crate::fx::lemma_tdiv_ratio_le((FP_ONE as int) * (FP_ONE as int), ir, 4 * FP_ONE as int);
    crate::fx::lemma_tdiv_mul_close((FP_ONE as int) * (FP_ONE as int), ir);
    assert(q > 0) by (nonlinear_arith)
        requires
            (FP_ONE as int) * (FP_ONE as int) - ir < q * ir,
            1073741824 <= ir <= 4 * FP_ONE,
            FP_ONE == 4294967296,
    ;
}

} // verus!

verus! {

/// Materials whose textures can be copied exactly.
pub open spec fn material_dupable(m: Material) -> bool {
    match m {
        Material::Lambertian(l) => crate::texture::texture_dupable(l.albedo),
        Material::Metal(_) => true,
        Material::Dielectric(_) => true,
        Material::DiffuseLight(dl) => crate::texture::texture_dupable(dl.emit),
        Material::Isotropic(i) => crate::texture::texture_dupable(i.albedo),
    }
}

impl Material {
    /// An exact copy, so one material can be given to several surfaces.
    pub fn duplicate(&self) -> (r: Material)
        requires
            material_dupable(*self),
        ensures
            r == *self,
    {
        match self {
            Material::Lambertian(l) => Material::Lambertian(Lambertian { albedo: l.albedo.duplicate() }),
            Material::Metal(mt) => Material::Metal(Metal { albedo: mt.albedo, fuzz: mt.fuzz }),
            Material::Dielectric(d) => Material::Dielectric(Dielectric { ir: d.ir }),
            Material::DiffuseLight(dl) => Material::DiffuseLight(DiffuseLight { emit: dl.emit.duplicate() }),
            Material::Isotropic(i) => Material::Isotropic(Isotropic { albedo: i.albedo.duplicate() }),
        }
    }
}

} // verus!
