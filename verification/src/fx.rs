//! Fixed-point scalar arithmetic.
//!
//! Every geometric quantity in this crate is a fixed-point number: an `i128`
//! holding the value scaled by `FP_ONE` (2^32). All operations are exact
//! integer arithmetic with truncation toward zero, so every contract can be
//! stated as plain integer math.

use vstd::prelude::*;
use vstd::arithmetic::div_mod::{
    lemma_fundamental_div_mod, lemma_div_is_ordered, lemma_div_pos_is_pos,
    lemma_div_nonincreasing, lemma_div_multiples_vanish,
};
use vstd::arithmetic::mul::{lemma_mul_inequality, lemma_mul_upper_bound};

verus! {

/// The fixed-point scale: 2^32. A world-space coordinate of 1.0 is stored
/// as this raw value.
pub const FP_ONE: i128 = 4294967296;

/// Largest raw magnitude accepted by the generic scalar helpers (2^62).
/// Products of two such values stay well inside `i128`.
pub const FX_LIM: i128 = 4611686018427387904;

/// Magnitude bound for world-space coordinates and direction components
/// (2^45 raw, i.e. 8192 world units). Sums and products of a few values in
/// this range stay below `FX_LIM`.
pub const COORD_LIM: i128 = 35184372088832;

/// Absolute value, as a spec-level integer.
pub open spec fn absi(x: int) -> int {
    if x < 0 { -x } else { x }
}

/// Truncating (round toward zero) integer division, mirroring Rust's `/`
/// on signed integers. `d` must not be zero.
pub open spec fn tdiv(x: int, d: int) -> int {
    if x == 0 {
        0
    } else if x > 0 && d > 0 {
        x / d
    } else if x < 0 && d < 0 {
        (x * -1) / (d * -1)
    } else if x < 0 {
        ((x * -1) / d) * -1
    } else {
        (x / (d * -1)) * -1
    }
}

/// Flooring integer division by a positive divisor.
pub open spec fn fdiv(x: int, d: int) -> int {
    x / d
}

/// Ceiling integer division by a positive divisor.
pub open spec fn cdiv(x: int, d: int) -> int {
    -((-x) / d)
}

/// The fixed-point product: the mathematical product rescaled back,
/// truncated toward zero.
pub open spec fn fxm(a: int, b: int) -> int {
    tdiv(a * b, FP_ONE as int)
}

/// The fixed-point quotient, truncated toward zero.
pub open spec fn fxd(a: int, b: int) -> int {
    tdiv(a * FP_ONE, b)
}

/// Truncating division shrinks magnitude: `|x / d| <= |x|` for `|d| >= 1`.
pub proof fn lemma_tdiv_abs_le(x: int, d: int)
    requires
        d != 0,
    ensures
        absi(tdiv(x, d)) <= absi(x),
        x >= 0 && d > 0 ==> 0 <= tdiv(x, d),
{
    if x != 0 {
        let xa = absi(x);
        let da = absi(d);
        lemma_div_pos_is_pos(xa, da);
        lemma_div_nonincreasing(xa, da);
        assert(0 <= xa / da <= xa);
    }
}

/// The defining inequality of truncating division by a positive divisor:
/// the quotient times the divisor is within one divisor of the dividend.
pub proof fn lemma_tdiv_mul_close(x: int, d: int)
    requires
        d > 0,
    ensures
        x >= 0 ==> x - d < tdiv(x, d) * d <= x,
        x < 0 ==> x <= tdiv(x, d) * d < x + d,
{
    if x >= 0 {
        lemma_fundamental_div_mod(x, d);
        assert(x == d * (x / d) + x % d);
        assert(tdiv(x, d) * d == d * (x / d)) by (nonlinear_arith)
            requires x >= 0, d > 0, tdiv(x, d) == if x == 0 { 0int } else { x / d }
        {
            if x == 0 {
                lemma_div_pos_is_pos(0, d);
            }
        }
    } else {
        let y = -x;
        lemma_fundamental_div_mod(y, d);
        assert(y == d * (y / d) + y % d);
        assert(tdiv(x, d) == -(y / d));
        assert((-(y / d)) * d == -(d * (y / d))) by (nonlinear_arith);
    }
}

/// A bound on the operands gives a bound on the fixed-point product.
pub proof fn lemma_fxm_bound(a: int, b: int, bound: int)
    requires
        absi(a) * absi(b) <= bound,
        0 <= bound,
    ensures
        absi(fxm(a, b)) <= bound,
        absi(a * b) <= bound,
        absi(fxm(a, b)) * FP_ONE <= bound,
{
    assert(absi(a * b) == absi(a) * absi(b)) by (nonlinear_arith);
    lemma_tdiv_abs_le(a * b, FP_ONE as int);
    let q = fxm(a, b);
    lemma_tdiv_mul_close(a * b, FP_ONE as int);
    if a * b >= 0 {
        assert(q * FP_ONE <= a * b);
        assert(q >= 0) by {
            lemma_tdiv_abs_le(a * b, FP_ONE as int);
        }
        assert(absi(q) * FP_ONE == q * FP_ONE);
    } else {
        assert(a * b <= q * FP_ONE);
        assert(q <= 0) by (nonlinear_arith)
            requires a * b < 0, q * FP_ONE < a * b + FP_ONE, FP_ONE > 0
        ;
        assert(absi(q) * FP_ONE == -(q * FP_ONE)) by (nonlinear_arith)
            requires q <= 0, absi(q) == -q
        ;
    }
}

/// Fixed-point multiplication. Truncates toward zero, exactly as `fxm` says.
pub fn fx_mul(a: i128, b: i128) -> (r: i128)
    requires
        -FX_LIM <= a <= FX_LIM,
        -FX_LIM <= b <= FX_LIM,
    ensures
        r == fxm(a as int, b as int),
        absi(r as int) * FP_ONE <= absi(a as int) * absi(b as int),
{
    proof {
        assert(absi(a as int) * absi(b as int) <= FX_LIM * FX_LIM) by (nonlinear_arith)
            requires -FX_LIM <= a <= FX_LIM, -FX_LIM <= b <= FX_LIM
        ;
        assert((a as int) * (b as int) <= FX_LIM * FX_LIM
            && -(FX_LIM * FX_LIM) <= (a as int) * (b as int)) by (nonlinear_arith)
            requires -FX_LIM <= a <= FX_LIM, -FX_LIM <= b <= FX_LIM
        ;
        lemma_fxm_bound(a as int, b as int, absi(a as int) * absi(b as int));
    }
    let p: i128 = a * b;
    let r = p.checked_div(FP_ONE).unwrap();
    proof {
        assert(r == tdiv(p as int, FP_ONE as int));
    }
    r
}

/// Fixed-point division. Truncates toward zero, exactly as `fxd` says.
pub fn fx_div(a: i128, b: i128) -> (r: i128)
    requires
        b != 0,
        -FX_LIM <= a <= FX_LIM,
    ensures
        r == fxd(a as int, b as int),
{
    proof {
        assert((a as int) * (FP_ONE as int) <= FX_LIM * FP_ONE
            && -(FX_LIM * FP_ONE) <= (a as int) * (FP_ONE as int)) by (nonlinear_arith)
            requires -FX_LIM <= a <= FX_LIM
        ;
        lemma_tdiv_abs_le((a * FP_ONE) as int, b as int);
    }
    let p: i128 = a * FP_ONE;
    p.checked_div(b).unwrap()
}

/// Truncating division of raw values (no rescale).
pub fn i_div(a: i128, b: i128) -> (r: i128)
    requires
        b != 0,
        a != i128::MIN,
    ensures
        r == tdiv(a as int, b as int),
{
    proof {
        lemma_tdiv_abs_le(a as int, b as int);
    }
    a.checked_div(b).unwrap()
}

/// Flooring division of raw values by a positive divisor.
pub fn floor_div(a: i128, b: i128) -> (r: i128)
    requires
        b > 0,
        -FX_LIM * FP_ONE <= a <= FX_LIM * FP_ONE,
    ensures
        r == fdiv(a as int, b as int),
        absi(r as int) <= absi(a as int) + 1,
{
    proof {
        lemma_tdiv_abs_le(a as int, b as int);
        lemma_tdiv_floor_relation(a as int, b as int);
    }
    let q = a.checked_div(b).unwrap();
    let rem = a.checked_rem(b).unwrap();
    if rem != 0 && a < 0 {
        q - 1
    } else {
        q
    }
}

/// Ceiling division of raw values by a positive divisor.
pub fn ceil_div(a: i128, b: i128) -> (r: i128)
    requires
        b > 0,
        -FX_LIM * FP_ONE <= a <= FX_LIM * FP_ONE,
    ensures
        r == cdiv(a as int, b as int),
{
    let r = floor_div(-a, b);
    -r
}

/// How truncating and flooring division relate for a positive divisor:
/// they agree when the dividend is nonnegative or divides exactly, and
/// differ by one otherwise.
pub proof fn lemma_tdiv_floor_relation(a: int, b: int)
    requires
        b > 0,
    ensures
        a >= 0 || a % b == 0 ==> fdiv(a, b) == tdiv(a, b),
        a < 0 && a % b != 0 ==> fdiv(a, b) == tdiv(a, b) - 1,
        a % b == 0 <==> absi(a) % b == 0,
{
    lemma_fundamental_div_mod(a, b);
    if a >= 0 {
        if a == 0 {
            lemma_div_pos_is_pos(0, b);
            lemma_div_nonincreasing(0, b);
        }
    } else {
        let xa = -a;
        lemma_fundamental_div_mod(xa, b);
        let q = xa / b;
        let m = xa % b;
        assert(tdiv(a, b) == -q);
        if m == 0 {
            assert(a == (-q) * b + 0) by (nonlinear_arith)
                requires xa == b * q + m, m == 0, a == -xa
            ;
            lemma_fundamental_div_mod_converse_pos(a, b, -q, 0);
        } else {
            assert(a == (-q - 1) * b + (b - m)) by (nonlinear_arith)
                requires xa == b * q + m, a == -xa
            ;
            lemma_fundamental_div_mod_converse_pos(a, b, -q - 1, b - m);
        }
    }
}

/// Euclidean division determined by quotient and remainder, positive divisor.
proof fn lemma_fundamental_div_mod_converse_pos(x: int, d: int, q: int, r: int)
    requires
        d > 0,
        0 <= r < d,
        x == q * d + r,
    ensures
        x / d == q,
        x % d == r,
{
    vstd::arithmetic::div_mod::lemma_fundamental_div_mod_converse(x, d, q, r);
}

/// For a positive divisor, comparing an integer with the floor or ceiling
/// quotient decides the product inequality exactly.
pub proof fn lemma_div_decision(t: int, a: int, d: int)
    requires
        d > 0,
    ensures
        t * d >= a <==> t >= cdiv(a, d),
        t * d <= a <==> t <= fdiv(a, d),
{
    lemma_fundamental_div_mod(a, d);
    let q = a / d;
    let m = a % d;
    assert(a == d * q + m);
    // t <= fdiv <==> t*d <= a
    assert(fdiv(a, d) == q);
    assert((t <= q) ==> (t * d <= a)) by (nonlinear_arith)
        requires a == d * q + m, 0 <= m, d > 0
    ;
    assert((t * d <= a) ==> (t <= q)) by (nonlinear_arith)
        requires a == d * q + m, m < d, d > 0
    ;
    // ceiling side
    lemma_fundamental_div_mod(-a, d);
    let q2 = (-a) / d;
    let m2 = (-a) % d;
    assert(cdiv(a, d) == -q2);
    assert((t >= -q2) ==> (t * d >= a)) by (nonlinear_arith)
        requires -a == d * q2 + m2, 0 <= m2, d > 0
    ;
    assert((t * d >= a) ==> (t >= -q2)) by (nonlinear_arith)
        requires -a == d * q2 + m2, m2 < d, d > 0
    ;
}

/// The floor of the real square root, as a spec-level function.
pub open spec fn sqrt_floor(n: nat) -> nat
    decreases n,
{
    if n == 0 {
        0
    } else {
        let s = sqrt_floor((n - 1) as nat);
        if (s + 1) * (s + 1) <= n { s + 1 } else { s }
    }
}

/// `sqrt_floor` is exactly characterized by the two squaring bounds.
pub proof fn lemma_sqrt_floor_bounds(n: nat)
    ensures
        sqrt_floor(n) * sqrt_floor(n) <= n,
        n < (sqrt_floor(n) + 1) * (sqrt_floor(n) + 1),
    decreases n,
{
    if n > 0 {
        lemma_sqrt_floor_bounds((n - 1) as nat);
        let s = sqrt_floor((n - 1) as nat);
        if (s + 1) * (s + 1) <= n {
            assert(sqrt_floor(n) == s + 1);
            assert(n < (s + 2) * (s + 2)) by (nonlinear_arith)
                requires (n - 1) < (s + 1) * (s + 1), s >= 0
            ;
            let t = sqrt_floor(n);
            assert(n < (t + 1) * (t + 1)) by (nonlinear_arith)
                requires n < (s + 2) * (s + 2), t == s + 1
            ;
        } else {
            assert(sqrt_floor(n) == s);
            assert(s * s <= n);
            let t = sqrt_floor(n);
            assert(n < (t + 1) * (t + 1)) by (nonlinear_arith)
                requires n < (s + 1) * (s + 1), t == s
            ;
        }
    } else {
        assert(sqrt_floor(0) == 0);
        assert(n < (sqrt_floor(n) + 1) * (sqrt_floor(n) + 1)) by (nonlinear_arith)
            requires n == 0, sqrt_floor(n) == 0
        ;
    }
}

/// Only one nonnegative integer satisfies the squaring bounds.
pub proof fn lemma_sqrt_unique(r: int, n: int)
    requires
        0 <= r,
        0 <= n,
        r * r <= n,
        n < (r + 1) * (r + 1),
    ensures
        r == sqrt_floor(n as nat),
{
    lemma_sqrt_floor_bounds(n as nat);
    let s = sqrt_floor(n as nat) as int;
    assert(r == s) by (nonlinear_arith)
        requires
            0 <= r, 0 <= s,
            r * r <= n, n < (r + 1) * (r + 1),
            s * s <= n, n < (s + 1) * (s + 1),
    ;
}

/// Integer square root: the exact floor of the real square root.
pub fn isqrt(x: i128) -> (r: i128)
    requires
        0 <= x,
    ensures
        0 <= r,
        r * r <= x,
        x < (r + 1) * (r + 1),
        r == sqrt_floor(x as nat),
{
    let xu: u128 = x as u128;
    let mut lo: u128 = 0;
    let mut hi: u128 = 18446744073709551616;
    proof {
        assert((hi + 1) * (hi + 1) > xu) by (nonlinear_arith)
            requires hi == 18446744073709551616u128, xu < 170141183460469231731687303715884105728u128
        ;
    }
    while lo < hi
        invariant
            lo <= hi,
            lo * lo <= xu,
            xu < (hi + 1) * (hi + 1),
            hi <= 18446744073709551616,
            xu == x,
        decreases hi - lo,
    {
        let mid = lo + (hi - lo + 1) / 2;
        proof {
            assert(lo < mid <= hi);
        }
        match mid.checked_mul(mid) {
            Some(sq) => {
                if sq <= xu {
                    lo = mid;
                } else {
                    proof {
                        assert(xu < mid * mid);
                    }
                    hi = mid - 1;
                }
            }
            None => {
                proof {
                    assert(mid * mid > u128::MAX);
                }
                hi = mid - 1;
            }
        }
    }
    let r = lo as i128;
    proof {
        assert(lo * lo <= xu && xu < (lo + 1) * (lo + 1));
        assert(lo <= 18446744073709551616);
        assert(r == lo);
        assert((r as int) * (r as int) == (lo as int) * (lo as int)) by (nonlinear_arith)
            requires r == lo
        ;
        assert(((r + 1) as int) * ((r + 1) as int) == ((lo + 1) as int) * ((lo + 1) as int))
            by (nonlinear_arith)
            requires r == lo
        ;
        lemma_sqrt_unique(r as int, x as int);
    }
    r
}

/// Smaller of two raw values.
pub fn i_min(a: i128, b: i128) -> (r: i128)
    ensures
        r == if a <= b { a as int } else { b as int },
{
    if a <= b { a } else { b }
}

/// Larger of two raw values.
pub fn i_max(a: i128, b: i128) -> (r: i128)
    ensures
        r == if a >= b { a as int } else { b as int },
{
    if a >= b { a } else { b }
}

/// Absolute value of a raw scalar.
pub fn i_abs(a: i128) -> (r: i128)
    requires
        a != i128::MIN,
    ensures
        r == absi(a as int),
{
    if a < 0 { -a } else { a }
}

} // verus!

verus! {

/// `|x/d| <= b` when `|x| <= d * b` and the divisor is positive.
pub proof fn lemma_tdiv_ratio_le(x: int, d: int, b: int)
    requires
        d > 0,
        0 <= b,
        absi(x) <= d * b,
    ensures
        absi(tdiv(x, d)) <= b,
{
    lemma_tdiv_mul_close(x, d);
    let q = tdiv(x, d);
    if x >= 0 {
        assert(q >= 0) by {
            lemma_tdiv_abs_le(x, d);
        }
        assert(q <= b) by (nonlinear_arith)
            requires q * d <= x, x <= d * b, d > 0, q >= 0
        ;
    } else {
        assert(q <= 0) by (nonlinear_arith)
            requires x <= q * d, x < 0, d > 0, q * d < x + d
        ;
        assert(-q <= b) by (nonlinear_arith)
            requires x <= q * d, -x <= d * b, d > 0, q <= 0
        ;
    }
}

/// Zero times anything is zero in fixed point.
pub proof fn lemma_fxm_zero(a: int)
    ensures
        fxm(0, a) == 0,
        fxm(a, 0) == 0,
{
    assert(0 * a == 0) by (nonlinear_arith);
    assert(a * 0 == 0) by (nonlinear_arith);
}

} // verus!

verus! {

/// Truncating division lands the product within one divisor of the
/// dividend, whatever the divisor's sign.
pub proof fn lemma_tdiv_mul_close_general(x: int, d: int)
    requires
        d != 0,
    ensures
        tdiv(x, d) * d <= x + absi(d) - 1,
        x - absi(d) + 1 <= tdiv(x, d) * d,
{
    if d > 0 {
        lemma_tdiv_mul_close(x, d);
    } else {
        let e = -d;
        lemma_tdiv_mul_close(x, e);
        assert(tdiv(x, d) == -tdiv(x, e));
        assert((-tdiv(x, e)) * d == tdiv(x, e) * e) by (nonlinear_arith)
            requires d == -e
        ;
    }
}

} // verus!

verus! {

/// One times one is one in fixed point, with either sign.
pub proof fn lemma_fxm_one()
    ensures
        fxm(FP_ONE as int, FP_ONE as int) == FP_ONE,
        fxm(-FP_ONE as int, -FP_ONE as int) == FP_ONE,
        fxm(0, 0) == 0,
{
    assert((FP_ONE as int) * (FP_ONE as int) > 0) by (nonlinear_arith);
    lemma_div_multiples_vanish(FP_ONE as int, FP_ONE as int);
    assert((-FP_ONE as int) * (-FP_ONE as int) == (FP_ONE as int) * (FP_ONE as int))
        by (nonlinear_arith);
    assert(0 * 0 == 0) by (nonlinear_arith);
}

} // verus!

verus! {

/// Natural log of two, in fixed point.
pub const LN2_FP: i128 = 2977044471;

/// Cap on the negative-log helper (64 in fixed point).
pub const NEG_LN_CAP: i128 = 274877906944;

/// `-ln(u)` for a fixed-point `u` in `(0, 1]`: the argument is doubled into
/// `[1/2, 1]`, paying `ln 2` per doubling, and a four-term series finishes;
/// the result is capped. Zero exactly at `u == 1`.
pub open spec fn sneg_ln(u: int) -> int
    decreases FP_ONE - u,
{
    if u >= 2147483648 {
        let w = FP_ONE - u;
        w + tdiv(fxm(w, w), 2) + tdiv(fxm(fxm(w, w), w), 3) + tdiv(fxm(fxm(fxm(w, w), w), w), 4)
    } else if 1 <= u < 2147483648 {
        let rest = sneg_ln(2 * u);
        if LN2_FP + rest > NEG_LN_CAP { NEG_LN_CAP as int } else { LN2_FP + rest }
    } else {
        NEG_LN_CAP as int
    }
}

/// The exact negative logarithm described by `sneg_ln`.
pub fn fx_neg_ln(u: i128) -> (r: i128)
    requires
        1 <= u <= FP_ONE,
    ensures
        r == sneg_ln(u as int),
        0 <= r <= NEG_LN_CAP,
        (r == 0 <==> u == FP_ONE),
    decreases FP_ONE - u,
{
    if u >= 2147483648 {
        let w = FP_ONE - u;
        proof {
            lemma_series_terms(w as int);
        }
        let w2 = fx_mul(w, w);
        let w3 = fx_mul(w2, w);
        let w4 = fx_mul(w3, w);
        let r = w + i_div(w2, 2) + i_div(w3, 3) + i_div(w4, 4);
        r
    } else {
        let rest = fx_neg_ln(2 * u);
        if LN2_FP + rest > NEG_LN_CAP {
            NEG_LN_CAP
        } else {
            LN2_FP + rest
        }
    }
}

/// The series terms are nonnegative and small for `w` within one half.
proof fn lemma_series_terms(w: int)
    requires
        0 <= w <= 2147483648,
    ensures
        0 <= fxm(w, w) <= 2147483648,
        0 <= fxm(fxm(w, w), w) <= 2147483648,
        0 <= fxm(fxm(fxm(w, w), w), w) <= 2147483648,
        0 <= tdiv(fxm(w, w), 2) <= fxm(w, w),
        0 <= tdiv(fxm(fxm(w, w), w), 3) <= fxm(fxm(w, w), w),
        0 <= tdiv(fxm(fxm(fxm(w, w), w), w), 4) <= fxm(fxm(fxm(w, w), w), w),
{
    lemma_half_prod(w, w);
    lemma_half_prod(fxm(w, w), w);
    lemma_half_prod(fxm(fxm(w, w), w), w);
    lemma_tdiv_nonneg_le(fxm(w, w), 2);
    lemma_tdiv_nonneg_le(fxm(fxm(w, w), w), 3);
    lemma_tdiv_nonneg_le(fxm(fxm(fxm(w, w), w), w), 4);
}

/// The fixed-point product of two values within one half stays within one
/// half and is nonnegative.
proof fn lemma_half_prod(a: int, b: int)
    requires
        0 <= a <= 2147483648,
        0 <= b <= 2147483648,
    ensures
        0 <= fxm(a, b) <= 2147483648,
{
    assert(0 <= a * b <= 2147483648 * (FP_ONE as int)) by (nonlinear_arith)
        requires 0 <= a <= 2147483648, 0 <= b <= 2147483648, FP_ONE == 4294967296
    ;
    lemma_tdiv_abs_le(a * b, FP_ONE as int);
    lemma_tdiv_ratio_le(a * b, FP_ONE as int, 2147483648);
}

/// Truncating division by a positive constant keeps nonnegativity and
/// never grows the dividend.
proof fn lemma_tdiv_nonneg_le(x: int, d: int)
    requires
        0 <= x,
        1 <= d,
    ensures
        0 <= tdiv(x, d) <= x,
{
    lemma_tdiv_abs_le(x, d);
}

} // verus!

verus! {

/// Scaling by one is the identity in fixed point.
pub proof fn lemma_fxm_unit_scale(a: int)
    ensures
        fxm(a, FP_ONE as int) == a,
        fxm(FP_ONE as int, a) == a,
{
    if a == 0 {
        lemma_fxm_zero(FP_ONE as int);
    } else if a > 0 {
        lemma_div_multiples_vanish(a, FP_ONE as int);
        assert(a * FP_ONE == FP_ONE * a) by (nonlinear_arith);
    } else {
        lemma_div_multiples_vanish(-a, FP_ONE as int);
        assert((a * -1) * FP_ONE == FP_ONE * (-a)) by (nonlinear_arith);
        assert((a * FP_ONE) * -1 == (a * -1) * FP_ONE) by (nonlinear_arith);
    }
}

} // verus!
