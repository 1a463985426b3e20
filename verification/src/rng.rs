//! Random draws.
//!
//! The one trusted item of the crate wraps `rand`; everything built on top
//! of it is verified for every value the draw could take.

use vstd::prelude::*;
use rand::Rng;
use crate::fx::FP_ONE;
use crate::vec3::{Vec3, vec_in_range, slen2, lemma_slen2_nonneg};

verus! {

/// Relies on `rand::thread_rng` and `rand::Rng::gen_range` over the
/// half-open range `0..n`: the draw is uniform over `0..n`, hence strictly
/// below `n`. The `n > 0` bound keeps the range nonempty, so the call
/// cannot panic. Nothing more can be promised of a random value.
#[verifier::external_body]
pub(crate) fn rand_below(n: u64) -> (r: u64)
    requires
        n > 0,
    ensures
        r < n,
{
    rand::thread_rng().gen_range(0..n)
}

/// A uniform fixed-point draw from `[0, 1]`, both ends included.
pub fn random_unit_fx() -> (r: i128)
    ensures
        0 <= r <= FP_ONE,
{
    let v = rand_below((FP_ONE as u64) + 1);
    v as i128
}

/// A uniform fixed-point draw from `[-1, 1]`.
pub fn random_symmetric_fx() -> (r: i128)
    ensures
        -FP_ONE <= r <= FP_ONE,
{
    let v = rand_below(2 * (FP_ONE as u64) + 1);
    (v as i128) - FP_ONE
}

/// A uniform index below `n`.
pub fn random_index(n: usize) -> (r: usize)
    requires
        n > 0,
    ensures
        r < n,
{
    let v = rand_below(n as u64);
    v as usize
}

/// A uniform fixed-point draw from `[a, b)`.
pub fn random_range_fx(a: i128, b: i128) -> (r: i128)
    requires
        a < b,
        -(FP_ONE * FP_ONE) <= a,
        b <= FP_ONE * FP_ONE,
        b - a <= u64::MAX,
    ensures
        a <= r < b,
{
    let v = rand_below((b - a) as u64);
    a + (v as i128)
}

/// A random point strictly inside the unit sphere: drawn by rejection from
/// the cube, with a fixed interior fallback after too many rejections.
pub fn random_in_unit_sphere() -> (v: Vec3)
    ensures
        slen2(v) < FP_ONE,
        vec_in_range(v, FP_ONE as int),
{
    let mut i: usize = 0;
    while i < 64
        invariant
            i <= 64,
        decreases 64 - i,
    {
        let x = random_symmetric_fx();
        let y = random_symmetric_fx();
        let z = random_symmetric_fx();
        let c = Vec3 { x, y, z };
        let l2 = c.len_sqr();
        if l2 < FP_ONE {
            return c;
        }
        i = i + 1;
    }
    let f = Vec3 { x: 0, y: 0, z: 2147483648 };
    proof {
        vstd::arithmetic::div_mod::lemma_div_multiples_vanish(1073741824, FP_ONE as int);
        assert(crate::fx::fxm(2147483648, 2147483648) == 1073741824);
        assert(crate::fx::fxm(0, 0) == 0);
    }
    f
}

} // verus!
