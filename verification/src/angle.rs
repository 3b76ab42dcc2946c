//! Interior angles between edge vectors, in fixed-point radians.

use crate::math::{
    isqrt, lemma_mul_div_le, lemma_sqrt_floor_props, sqrt_floor, HALF_PI_FP, MAX_COORD, PI_FP,
    QUARTER_PI_FP, SCALE,
};
use crate::vec3::{
    iabs, in_range, lemma_prod_bound, lemma_square_bound, norm2, v3_cross, v3_dot, Vec3, V3,
};
use vstd::arithmetic::div_mod::{
    lemma_div_is_ordered, lemma_div_multiples_vanish, lemma_div_pos_is_pos,
};
use vstd::prelude::*;

verus! {

/// Coefficients of the arctangent approximation on `[0, 1]`:
/// `atan(t) ~ (pi/4) t + t (1 - t) (A + B t)`, accurate to about
/// 1.5e-3 radians.
pub const ATAN_A: i64 = 244_700;

pub const ATAN_B: i64 = 66_300;

/// The fixed-point arctangent polynomial, defined on `[0, SCALE]`
/// (representing a ratio in `[0, 1]`).
pub open spec fn atan01_m(x: int) -> int {
    let s = SCALE as int;
    let t1 = (QUARTER_PI_FP as int) * x / s;
    let u = x * (s - x) / s;
    let c = (ATAN_A as int) + (ATAN_B as int) * x / s;
    t1 + u * c / s
}

/// The angle between the vectors `u` and `w`, in fixed-point radians in
/// `[0, PI_FP]`: the arctangent of the ratio between the length of their
/// cross product and their dot product, quadrant-corrected. Two exactly
/// opposed or degenerate vectors give `PI_FP` or zero respectively.
pub open spec fn angle_m(u: V3, w: V3) -> int {
    let c = v3_dot(u, w);
    let sv = sqrt_floor(norm2(v3_cross(u, w)));
    let ac = iabs(c);
    let base = if sv == 0 && ac == 0 {
        0
    } else if sv <= ac {
        atan01_m(sv * (SCALE as int) / ac)
    } else {
        (HALF_PI_FP as int) - atan01_m(ac * (SCALE as int) / sv)
    };
    if c >= 0 {
        base
    } else {
        (PI_FP as int) - base
    }
}

/// The arctangent polynomial stays within `[0, HALF_PI_FP)` on its domain.
pub proof fn lemma_atan01_m_range(x: int)
    requires
        0 <= x <= SCALE as int,
    ensures
        0 <= atan01_m(x) < HALF_PI_FP as int,
{
    let s = SCALE as int;
    lemma_mul_div_le(QUARTER_PI_FP as int, x, s);
    lemma_mul_div_le(x, s - x, s);
    lemma_mul_div_le(ATAN_B as int, x, s);
    let u = x * (s - x) / s;
    let c = (ATAN_A as int) + (ATAN_B as int) * x / s;
    lemma_mul_div_le(c, u, s);
    assert(u * c == c * u) by (nonlinear_arith);
}

/// The angle between any two vectors lies in `[0, PI_FP]`.
pub proof fn lemma_angle_m_range(u: V3, w: V3)
    ensures
        0 <= angle_m(u, w) <= PI_FP as int,
{
    let c = v3_dot(u, w);
    let cr = v3_cross(u, w);
    assert(cr.x * cr.x >= 0 && cr.y * cr.y >= 0 && cr.z * cr.z >= 0) by (nonlinear_arith);
    let s2 = norm2(cr);
    lemma_sqrt_floor_props(s2);
    let sv = sqrt_floor(s2);
    let ac = iabs(c);
    let s = SCALE as int;
    if sv == 0 && ac == 0 {
    } else if sv <= ac {
        lemma_mul_div_le(s, sv, ac);
        assert(sv * s == s * sv) by (nonlinear_arith);
        lemma_atan01_m_range(sv * s / ac);
    } else {
        lemma_mul_div_le(s, ac, sv);
        assert(ac * s == s * ac) by (nonlinear_arith);
        lemma_atan01_m_range(ac * s / sv);
    }
}

/// Evaluates the arctangent polynomial on a fixed-point ratio.
pub fn atan01(x: i64) -> (r: i64)
    requires
        0 <= x <= SCALE,
    ensures
        r as int == atan01_m(x as int),
        0 <= r < HALF_PI_FP,
{
    let xu = x as u64;
    assert((QUARTER_PI_FP as u64) * xu <= 785_398_000_000) by (nonlinear_arith)
        requires
            0 <= xu <= 1_000_000u64,
    ;
    let t1 = (QUARTER_PI_FP as u64) * xu / (SCALE as u64);
    proof {
        lemma_mul_div_le(QUARTER_PI_FP as int, xu as int, SCALE as int);
    }
    assert(t1 <= 785_398);
    assert(xu * ((SCALE as u64) - xu) <= 1_000_000_000_000) by (nonlinear_arith)
        requires
            0 <= xu <= 1_000_000u64,
    ;
    let u = xu * ((SCALE as u64) - xu) / (SCALE as u64);
    proof {
        lemma_mul_div_le(xu as int, (SCALE - x) as int, SCALE as int);
    }
    assert(u <= 1_000_000);
    assert((ATAN_B as u64) * xu <= 66_300_000_000) by (nonlinear_arith)
        requires
            0 <= xu <= 1_000_000u64,
    ;
    let c = (ATAN_A as u64) + (ATAN_B as u64) * xu / (SCALE as u64);
    proof {
        lemma_mul_div_le(ATAN_B as int, xu as int, SCALE as int);
    }
    assert(c <= 311_000);
    assert(u * c <= 311_000_000_000) by (nonlinear_arith)
        requires
            u <= 1_000_000u64,
            c <= 311_000u64,
    ;
    let t2 = u * c / (SCALE as u64);
    proof {
        lemma_mul_div_le(c as int, u as int, SCALE as int);
        assert((u as int) * (c as int) == (c as int) * (u as int)) by (nonlinear_arith);
    }
    assert(t2 <= 311_000);
    let r = t1 + t2;
    r as i64
}

/// Computes the interior angle between two edge vectors in fixed-point
/// radians, in `[0, PI_FP]`.
pub fn angle_between(u: Vec3, w: Vec3) -> (r: i64)
    requires
        in_range(u@, 2 * MAX_COORD as int),
        in_range(w@, 2 * MAX_COORD as int),
    ensures
        r as int == angle_m(u@, w@),
        0 <= r <= PI_FP,
{
    let ux = u.x as i128;
    let uy = u.y as i128;
    let uz = u.z as i128;
    let wx = w.x as i128;
    let wy = w.y as i128;
    let wz = w.z as i128;
    proof {
        lemma_prod_bound(ux as int, wx as int);
        lemma_prod_bound(uy as int, wy as int);
        lemma_prod_bound(uz as int, wz as int);
        lemma_prod_bound(uy as int, wz as int);
        lemma_prod_bound(uz as int, wy as int);
        lemma_prod_bound(uz as int, wx as int);
        lemma_prod_bound(ux as int, wz as int);
        lemma_prod_bound(ux as int, wy as int);
        lemma_prod_bound(uy as int, wx as int);
    }
    let c = ux * wx + uy * wy + uz * wz;
    let cx = uy * wz - uz * wy;
    let cy = uz * wx - ux * wz;
    let cz = ux * wy - uy * wx;
    proof {
        lemma_square_bound(cx as int);
        lemma_square_bound(cy as int);
        lemma_square_bound(cz as int);
    }
    let s2: u128 = ((cx * cx) as u128) + ((cy * cy) as u128) + ((cz * cz) as u128);
    assert(s2 as int == norm2(v3_cross(u@, w@)));
    let sv = isqrt(s2);
    proof {
        if sv > 4_000_000_000_000_000_000 {
            assert(false) by (nonlinear_arith)
                requires
                    sv > 4_000_000_000_000_000_000u128,
                    (sv as int) * (sv as int) <= s2 as int,
                    s2 as int <= 12_000_000_000_000_000_000_000_000_000_000_000_000,
            ;
        }
    }
    let ac: u128 = if c >= 0 {
        c as u128
    } else {
        (-c) as u128
    };
    assert(ac as int == iabs(v3_dot(u@, w@)));
    let base: i64 = if sv == 0 && ac == 0 {
        0
    } else if sv <= ac {
        assert(sv * (SCALE as u128) <= 4_000_000_000_000_000_000_000_000u128) by (nonlinear_arith)
            requires
                sv <= 4_000_000_000_000_000_000u128,
        ;
        let t = (sv * (SCALE as u128)) / ac;
        proof {
            lemma_div_is_ordered(
                (sv * (SCALE as u128)) as int,
                (ac as int) * (SCALE as int),
                ac as int,
            );
            assert((sv as int) * (SCALE as int) <= (ac as int) * (SCALE as int))
                by (nonlinear_arith)
                requires
                    sv <= ac,
            ;
            lemma_div_multiples_vanish(SCALE as int, ac as int);
            assert((ac as int) * (SCALE as int) == (SCALE as int) * (ac as int))
                by (nonlinear_arith);
            lemma_div_pos_is_pos((sv * (SCALE as u128)) as int, ac as int);
        }
        assert(t <= SCALE as u128);
        atan01(t as i64)
    } else {
        assert(ac * (SCALE as u128) <= 4_000_000_000_000_000_000_000_000u128) by (nonlinear_arith)
            requires
                ac < 4_000_000_000_000_000_000u128,
        ;
        let t = (ac * (SCALE as u128)) / sv;
        proof {
            lemma_div_is_ordered(
                (ac * (SCALE as u128)) as int,
                (sv as int) * (SCALE as int),
                sv as int,
            );
            assert((ac as int) * (SCALE as int) <= (sv as int) * (SCALE as int))
                by (nonlinear_arith)
                requires
                    ac <= sv,
            ;
            lemma_div_multiples_vanish(SCALE as int, sv as int);
            assert((sv as int) * (SCALE as int) == (SCALE as int) * (sv as int))
                by (nonlinear_arith);
            lemma_div_pos_is_pos((ac * (SCALE as u128)) as int, sv as int);
        }
        assert(t <= SCALE as u128);
        HALF_PI_FP - atan01(t as i64)
    };
    if c >= 0 {
        base
    } else {
        PI_FP - base
    }
}

} // verus!
