//! A constant-density participating medium bounded by another object.
//!
//! A ray entering the boundary scatters inside it when an exponentially
//! distributed free-flight distance, drawn as `-ln(U)` over the density,
//! falls short of the span the ray spends inside; otherwise the ray passes
//! through. The interaction is a genuinely random decision, so the hit
//! test promises only what holds of every draw.

use vstd::prelude::*;
use crate::fx::{fxm, fxd, tdiv, sneg_ln, FP_ONE, FX_LIM, NEG_LN_CAP};
use crate::vec3::{Vec3, Color};
use crate::object::{Object, owf, sbbox};
use crate::material::{Material, Isotropic, material_wf};
use crate::texture::Texture;

verus! {

/// A homogeneous medium: the boundary, the positive inverse density, and
/// the isotropic phase function rays scatter into.
pub struct ConstantMedium {
    pub boundary: Box<Object>,
    pub neg_inv_density: i128,
    pub phase_function: Material,
}

/// What the medium needs to be usable: a bounded, well-formed boundary, an
/// inverse density in range, and an isotropic phase function.
pub open spec fn medium_wf(m: ConstantMedium) -> bool
    decreases m, 0int,
{
    owf(*m.boundary)
        && sbbox(*m.boundary) is Some
        && 0 < m.neg_inv_density <= FX_LIM
        && m.phase_function is Isotropic
        && material_wf(m.phase_function)
}

impl ConstantMedium {
    /// A medium of the given density and solid scatter color. The density
    /// is a positive fixed-point value of at least four raw units, so its
    /// inverse stays in range.
    pub fn new(b: Object, d: i128, c: Color) -> (r: ConstantMedium)
        requires
            4 <= d <= FX_LIM,
        ensures
            r.boundary == b,
            r.neg_inv_density == fxd(FP_ONE as int, d as int),
            r.phase_function == Material::Isotropic(Isotropic {
                albedo: Texture::Solid(crate::texture::SolidColor { color_value: c }),
            }),
            0 < r.neg_inv_density <= FX_LIM,
    {
        proof {
            lemma_inv_density_range(d as int);
        }
        ConstantMedium {
            boundary: Box::new(b),
            neg_inv_density: crate::fx::fx_div(FP_ONE, d),
            phase_function: Material::Isotropic(Isotropic::new(c)),
        }
    }

    /// A medium with an arbitrary phase texture.
    pub fn new_arc(b: Object, d: i128, a: Texture) -> (r: ConstantMedium)
        requires
            4 <= d <= FX_LIM,
        ensures
            r.boundary == b,
            r.neg_inv_density == fxd(FP_ONE as int, d as int),
            r.phase_function == Material::Isotropic(Isotropic { albedo: a }),
            0 < r.neg_inv_density <= FX_LIM,
    {
        proof {
            lemma_inv_density_range(d as int);
        }
        ConstantMedium {
            boundary: Box::new(b),
            neg_inv_density: crate::fx::fx_div(FP_ONE, d),
            phase_function: Material::Isotropic(Isotropic::new_arc(a)),
        }
    }
}

/// The inverse of a density of at least four raw units is positive and in
/// range.
pub proof fn lemma_inv_density_range(d: int)
    requires
        4 <= d <= FX_LIM,
    ensures
        0 < fxd(FP_ONE as int, d) <= FX_LIM,
{
    let q = fxd(FP_ONE as int, d);
    assert((FP_ONE as int) * (FP_ONE as int) <= d * (FX_LIM as int)) by (nonlinear_arith)
        requires d >= 4, FP_ONE == 4294967296, FX_LIM == 4611686018427387904
    ;
    crate::fx::lemma_tdiv_ratio_le((FP_ONE as int) * (FP_ONE as int), d, FX_LIM as int);
    crate::fx::lemma_tdiv_mul_close((FP_ONE as int) * (FP_ONE as int), d);
    assert(q > 0) by (nonlinear_arith)
        requires
            (FP_ONE as int) * (FP_ONE as int) - d < q * d,
            4 <= d <= FX_LIM,
            FP_ONE == 4294967296,
            FX_LIM == 4611686018427387904,
    ;
}

/// The negative log of any draw short of one is at least one raw unit.
pub proof fn lemma_sneg_ln_pos(u: int)
    requires
        1 <= u < FP_ONE,
    ensures
        1 <= sneg_ln(u) <= NEG_LN_CAP,
    decreases FP_ONE - u,
{
    if u >= 2147483648 {
        let w = FP_ONE - u;
        crate::fx::lemma_fxm_zero(0);
        lemma_series_nonneg(w);
    } else {
        lemma_sneg_ln_pos(2 * u);
    }
}

proof fn lemma_series_nonneg(w: int)
    requires
        1 <= w <= 2147483648,
    ensures
        sneg_ln((FP_ONE - w) as int) >= w,
        sneg_ln((FP_ONE - w) as int) <= NEG_LN_CAP,
{
    let u = FP_ONE - w;
    assert(u >= 2147483648);
    lemma_sq_chain(w);
}

proof fn lemma_sq_chain(w: int)
    requires
        0 <= w <= 2147483648,
    ensures
        0 <= tdiv(fxm(w, w), 2) <= 2147483648,
        0 <= tdiv(fxm(fxm(w, w), w), 3) <= 2147483648,
        0 <= tdiv(fxm(fxm(fxm(w, w), w), w), 4) <= 2147483648,
{
    lemma_hp(w, w);
    lemma_hp(fxm(w, w), w);
    lemma_hp(fxm(fxm(w, w), w), w);
    crate::fx::lemma_tdiv_abs_le(fxm(w, w), 2);
    crate::fx::lemma_tdiv_abs_le(fxm(fxm(w, w), w), 3);
    crate::fx::lemma_tdiv_abs_le(fxm(fxm(fxm(w, w), w), w), 4);
}

proof fn lemma_hp(a: int, b: int)
    requires
        0 <= a <= 2147483648,
        0 <= b <= 2147483648,
    ensures
        0 <= fxm(a, b) <= 2147483648,
{
    assert(0 <= a * b <= 2147483648 * (FP_ONE as int)) by (nonlinear_arith)
        requires 0 <= a <= 2147483648, 0 <= b <= 2147483648, FP_ONE == 4294967296
    ;
    crate::fx::lemma_tdiv_abs_le(a * b, FP_ONE as int);
    crate::fx::lemma_tdiv_ratio_le(a * b, FP_ONE as int, 2147483648);
}

/// A medium whose inverse density dominates the span cannot interact: the
/// sampled flight distance exceeds the span for every draw short of one.
/// This is the vanishing-density limit: as the density goes to zero the
/// inverse density grows without bound, and rays pass through.
pub proof fn lemma_medium_passthrough(nid: int, u: int, dist: int)
    requires
        1 <= u < FP_ONE,
        0 <= dist,
        (dist + 1) * FP_ONE <= nid <= FX_LIM,
    ensures
        fxm(nid, sneg_ln(u)) > dist,
{
    lemma_sneg_ln_pos(u);
    let nl = sneg_ln(u);
    assert(nid * 1 <= nid * nl) by (nonlinear_arith)
        requires nid >= 0, nl >= 1
    ;
    vstd::arithmetic::div_mod::lemma_div_is_ordered(nid, nid * nl, FP_ONE as int);
    vstd::arithmetic::div_mod::lemma_div_is_ordered((dist + 1) * FP_ONE, nid, FP_ONE as int);
    assert((dist + 1) * FP_ONE / (FP_ONE as int) == dist + 1) by {
        vstd::arithmetic::div_mod::lemma_div_multiples_vanish(dist + 1, FP_ONE as int);
        assert((dist + 1) * FP_ONE == FP_ONE * (dist + 1)) by (nonlinear_arith);
    }
    assert(nid * nl >= 0) by (nonlinear_arith)
        requires nid >= 0, nl >= 0
    ;
    assert(fxm(nid, nl) == (nid * nl) / (FP_ONE as int)) by {
        crate::fx::lemma_tdiv_abs_le(nid * nl, FP_ONE as int);
    }
}

} // verus!
