//! 3D vectors in fixed-point coordinates and their exact integer model.

use crate::math::{
    isqrt, lemma_sqrt_floor_props, sqrt_floor, MAX_COORD, NORM_BOUND, SCALE,
};
use vstd::arithmetic::div_mod::{
    lemma_div_is_ordered, lemma_div_multiples_vanish, lemma_div_pos_is_pos,
    lemma_fundamental_div_mod, lemma_mod_division_less_than_divisor,
};
use vstd::prelude::*;

verus! {

/// A 3D vector whose components are fixed-point integers
/// (`SCALE` sub-units per unit).
#[derive(Clone, Copy, PartialEq, Eq, Structural, Debug)]
pub struct Vec3 {
    pub x: i64,
    pub y: i64,
    pub z: i64,
}

/// The mathematical value of a vector: the same three components as
/// unbounded integers.
pub ghost struct V3 {
    pub x: int,
    pub y: int,
    pub z: int,
}

impl View for Vec3 {
    type V = V3;

    open spec fn view(&self) -> V3 {
        V3 { x: self.x as int, y: self.y as int, z: self.z as int }
    }
}

pub open spec fn v3_zero() -> V3 {
    V3 { x: 0, y: 0, z: 0 }
}

pub open spec fn v3_add(a: V3, b: V3) -> V3 {
    V3 { x: a.x + b.x, y: a.y + b.y, z: a.z + b.z }
}

pub open spec fn v3_sub(a: V3, b: V3) -> V3 {
    V3 { x: a.x - b.x, y: a.y - b.y, z: a.z - b.z }
}

pub open spec fn v3_cross(a: V3, b: V3) -> V3 {
    V3 {
        x: a.y * b.z - a.z * b.y,
        y: a.z * b.x - a.x * b.z,
        z: a.x * b.y - a.y * b.x,
    }
}

pub open spec fn v3_dot(a: V3, b: V3) -> int {
    a.x * b.x + a.y * b.y + a.z * b.z
}

/// Squared euclidean length.
pub open spec fn norm2(a: V3) -> int {
    v3_dot(a, a)
}

/// All three components lie within `[-bound, bound]`.
pub open spec fn in_range(a: V3, bound: int) -> bool {
    &&& -bound <= a.x <= bound
    &&& -bound <= a.y <= bound
    &&& -bound <= a.z <= bound
}

pub open spec fn iabs(a: int) -> int {
    if a >= 0 {
        a
    } else {
        -a
    }
}

/// Fixed-point scaling division: multiply by `SCALE`, divide by `l`,
/// truncating toward zero.
pub open spec fn scale_div(a: int, l: int) -> int {
    if a >= 0 {
        (a * (SCALE as int)) / l
    } else {
        -((-a * (SCALE as int)) / l)
    }
}

/// Normalization to fixed-point unit length; a vector whose floor length
/// is zero maps to the zero vector.
pub open spec fn normalize_m(a: V3) -> V3 {
    let l = sqrt_floor(norm2(a));
    if l == 0 {
        v3_zero()
    } else {
        V3 { x: scale_div(a.x, l), y: scale_div(a.y, l), z: scale_div(a.z, l) }
    }
}

/// The face normal of the triangle `(pa, pb, pc)`: the normalized cross
/// product of its two edges leaving `pa` (right-hand rule on the winding).
pub open spec fn face_normal_m(pa: V3, pb: V3, pc: V3) -> V3 {
    normalize_m(v3_cross(v3_sub(pb, pa), v3_sub(pc, pa)))
}

/// Componentwise sum.
pub fn v3_add_e(a: Vec3, b: Vec3) -> (r: Vec3)
    requires
        in_range(a@, NORM_BOUND as int),
        in_range(b@, NORM_BOUND as int),
    ensures
        r@ == v3_add(a@, b@),
{
    Vec3 { x: a.x + b.x, y: a.y + b.y, z: a.z + b.z }
}

/// Componentwise difference.
pub fn v3_sub_e(a: Vec3, b: Vec3) -> (r: Vec3)
    requires
        in_range(a@, NORM_BOUND as int),
        in_range(b@, NORM_BOUND as int),
    ensures
        r@ == v3_sub(a@, b@),
{
    Vec3 { x: a.x - b.x, y: a.y - b.y, z: a.z - b.z }
}

/// Exact cross product of two bounded vectors.
pub fn v3_cross_e(a: Vec3, b: Vec3) -> (r: Vec3)
    requires
        in_range(a@, 2 * MAX_COORD as int),
        in_range(b@, 2 * MAX_COORD as int),
    ensures
        r@ == v3_cross(a@, b@),
        in_range(r@, NORM_BOUND as int),
{
    proof {
        lemma_prod_bound(a@.y, b@.z);
        lemma_prod_bound(a@.z, b@.y);
        lemma_prod_bound(a@.z, b@.x);
        lemma_prod_bound(a@.x, b@.z);
        lemma_prod_bound(a@.x, b@.y);
        lemma_prod_bound(a@.y, b@.x);
    }
    Vec3 {
        x: a.y * b.z - a.z * b.y,
        y: a.z * b.x - a.x * b.z,
        z: a.x * b.y - a.y * b.x,
    }
}

/// Product of two coordinates bounded by `2 * MAX_COORD` stays within
/// half of `NORM_BOUND`.
pub(crate) proof fn lemma_prod_bound(a: int, b: int) by (nonlinear_arith)
    requires
        -2 * (MAX_COORD as int) <= a <= 2 * (MAX_COORD as int),
        -2 * (MAX_COORD as int) <= b <= 2 * (MAX_COORD as int),
    ensures
        -(NORM_BOUND as int) <= 2 * (a * b) <= NORM_BOUND as int,
        -(NORM_BOUND as int) <= -2 * (a * b) <= NORM_BOUND as int,
{
}

/// One component of the normalization: `(|c| * SCALE) / l` with the sign
/// of `c` restored.
fn sdiv_e(c: i64, l: u128) -> (r: i64)
    requires
        1 <= l <= 4_000_000_000_000_000_000,
        -(l as int) <= c as int <= l as int,
    ensures
        r as int == scale_div(c as int, l as int),
        -SCALE <= r <= SCALE,
{
    let neg = c < 0;
    let m: u128 = if neg {
        (-(c as i128)) as u128
    } else {
        c as u128
    };
    assert(m as int == iabs(c as int));
    assert(m * (SCALE as u128) <= 4_000_000_000_000_000_000_000_000u128) by (nonlinear_arith)
        requires
            m <= 4_000_000_000_000_000_000u128,
    ;
    let q: u128 = (m * (SCALE as u128)) / l;
    proof {
        lemma_div_is_ordered((m * (SCALE as u128)) as int, (l * (SCALE as u128)) as int, l as int);
        lemma_div_multiples_vanish(SCALE as int, l as int);
        assert((l as int) * (SCALE as int) == (SCALE as int) * (l as int)) by (nonlinear_arith);
        lemma_div_pos_is_pos((m * (SCALE as u128)) as int, l as int);
    }
    assert(q <= SCALE as u128);
    let qi = q as i64;
    if neg {
        -qi
    } else {
        qi
    }
}

/// Normalizes a vector to fixed-point unit length; returns the zero
/// vector when the floor of the euclidean length is zero.
pub fn normalize_or_zero(a: Vec3) -> (r: Vec3)
    requires
        in_range(a@, NORM_BOUND as int),
    ensures
        r@ == normalize_m(a@),
        in_range(r@, SCALE as int),
{
    let xi = a.x as i128;
    let yi = a.y as i128;
    let zi = a.z as i128;
    proof {
        lemma_square_bound(xi as int);
        lemma_square_bound(yi as int);
        lemma_square_bound(zi as int);
    }
    let q: u128 = ((xi * xi) as u128) + ((yi * yi) as u128) + ((zi * zi) as u128);
    assert(q as int == norm2(a@));
    let l = isqrt(q);
    proof {
        if l > 4_000_000_000_000_000_000 {
            assert(false) by (nonlinear_arith)
                requires
                    l > 4_000_000_000_000_000_000u128,
                    (l as int) * (l as int) <= q as int,
                    q as int <= 12_000_000_000_000_000_000_000_000_000_000_000_000,
            ;
        }
    }
    if l == 0 {
        Vec3 { x: 0, y: 0, z: 0 }
    } else {
        proof {
            lemma_comp_le_root(a@.x, q as int, l as int);
            lemma_comp_le_root(a@.y, q as int, l as int);
            lemma_comp_le_root(a@.z, q as int, l as int);
        }
        Vec3 { x: sdiv_e(a.x, l), y: sdiv_e(a.y, l), z: sdiv_e(a.z, l) }
    }
}

/// The square of a bounded value is nonnegative and bounded.
pub(crate) proof fn lemma_square_bound(x: int) by (nonlinear_arith)
    requires
        -(NORM_BOUND as int) <= x <= NORM_BOUND as int,
    ensures
        0 <= x * x <= 4_000_000_000_000_000_000_000_000_000_000_000_000,
{
}

/// A component whose square is at most `q < (l + 1)^2` lies in `[-l, l]`.
pub(crate) proof fn lemma_comp_le_root(c: int, q: int, l: int) by (nonlinear_arith)
    requires
        l >= 0,
        c * c <= q,
        q < (l + 1) * (l + 1),
    ensures
        -l <= c <= l,
{
}

/// Computes the face normal of a triangle given its three corner
/// positions: the normalized cross product of the edges leaving `pa`.
/// Degenerate (zero-area) triangles yield the zero vector.
pub fn face_normal(pa: Vec3, pb: Vec3, pc: Vec3) -> (r: Vec3)
    requires
        in_range(pa@, MAX_COORD as int),
        in_range(pb@, MAX_COORD as int),
        in_range(pc@, MAX_COORD as int),
    ensures
        r@ == face_normal_m(pa@, pb@, pc@),
        in_range(r@, SCALE as int),
{
    let e1 = v3_sub_e(pb, pa);
    let e2 = v3_sub_e(pc, pa);
    let c = v3_cross_e(e1, e2);
    normalize_or_zero(c)
}

/// The square of one normalized component, bracketed between exact
/// integer bounds.
proof fn lemma_sdiv_sq_bounds(c: int, l: int)
    requires
        l >= 1,
        -l <= c <= l,
    ensures
        scale_div(c, l) * scale_div(c, l) * (l * l) <= c * c * (SCALE as int) * (SCALE as int),
        scale_div(c, l) * scale_div(c, l) * (l * l) >= c * c * (SCALE as int) * (SCALE as int)
            - 2 * iabs(c) * (SCALE as int) * l,
        -(SCALE as int) <= scale_div(c, l) <= SCALE as int,
        scale_div(c, l) * scale_div(c, l) >= 0,
{
    let s = SCALE as int;
    let m = iabs(c);
    let d = (m * s) / l;
    assert(m * s >= 0) by (nonlinear_arith)
        requires
            m >= 0,
            s >= 0,
    ;
    lemma_div_pos_is_pos(m * s, l);
    lemma_fundamental_div_mod(m * s, l);
    lemma_mod_division_less_than_divisor(m * s, l);
    assert(l * d <= m * s < l * d + l);
    let k = scale_div(c, l);
    assert(k == d || k == -d);
    assert(k * k == d * d) by (nonlinear_arith)
        requires
            k == d || k == -d,
    ;
    assert(m * m == c * c) by (nonlinear_arith)
        requires
            m == iabs(c),
    ;
    assert(d * d * (l * l) <= (m * s) * (m * s)) by (nonlinear_arith)
        requires
            d >= 0,
            l >= 1,
            l * d <= m * s,
    ;
    assert(d * d * (l * l) >= (m * s) * (m * s) - 2 * (m * s) * l) by (nonlinear_arith)
        requires
            d >= 0,
            l >= 1,
            m * s >= 0,
            l * d <= m * s,
            m * s < l * d + l,
    ;
    assert((m * s) * (m * s) == c * c * s * s) by (nonlinear_arith)
        requires
            m * m == c * c,
    ;
    assert(2 * (m * s) * l == 2 * m * s * l) by (nonlinear_arith);
    // the magnitude bound
    lemma_div_is_ordered(m * s, l * s, l);
    assert(m * s <= l * s) by (nonlinear_arith)
        requires
            m <= l,
            s >= 0,
    ;
    lemma_div_multiples_vanish(s, l);
    assert((l * s) / l == s);
    assert(d <= s);
}

/// The normalization of any vector has components within `[-SCALE, SCALE]`.
pub proof fn lemma_normalize_in_range(a: V3)
    ensures
        in_range(normalize_m(a), SCALE as int),
{
    let x = a.x;
    let y = a.y;
    let z = a.z;
    assert(x * x >= 0 && y * y >= 0 && z * z >= 0) by (nonlinear_arith);
    let q = norm2(a);
    lemma_sqrt_floor_props(q);
    let l = sqrt_floor(q);
    if l >= 1 {
        assert(x * x <= q && y * y <= q && z * z <= q);
        lemma_comp_le_root(x, q, l);
        lemma_comp_le_root(y, q, l);
        lemma_comp_le_root(z, q, l);
        lemma_sdiv_sq_bounds(x, l);
        lemma_sdiv_sq_bounds(y, l);
        lemma_sdiv_sq_bounds(z, l);
    }
}

/// Every vertex normal is unit length or exactly zero: a vector whose
/// floor length `l` is zero is the zero vector and normalizes to zero;
/// otherwise the squared length of its normalization lies within a
/// vanishing relative error of `SCALE^2` (at most `6 / SCALE` below it and
/// `2 / l` above it).
pub proof fn lemma_unit_or_zero(a: V3)
    ensures
        norm2(a) >= 0,
        sqrt_floor(norm2(a)) == 0 <==> a == v3_zero(),
        a == v3_zero() ==> normalize_m(a) == v3_zero(),
        sqrt_floor(norm2(a)) >= 1 ==> norm2(normalize_m(a)) >= (SCALE as int) * (SCALE as int)
            - 6 * (SCALE as int),
        sqrt_floor(norm2(a)) >= 1 ==> norm2(normalize_m(a)) * (sqrt_floor(norm2(a))
            * sqrt_floor(norm2(a))) <= (SCALE as int) * (SCALE as int) * (sqrt_floor(norm2(a))
            * sqrt_floor(norm2(a)) + 2 * sqrt_floor(norm2(a))),
{
    let x = a.x;
    let y = a.y;
    let z = a.z;
    assert(x * x >= 0 && y * y >= 0 && z * z >= 0) by (nonlinear_arith);
    let q = norm2(a);
    lemma_sqrt_floor_props(q);
    let l = sqrt_floor(q);
    let s = SCALE as int;
    if l == 0 {
        assert(q == 0) by (nonlinear_arith)
            requires
                q >= 0,
                q < (l + 1) * (l + 1),
                l == 0,
        ;
        assert(x == 0 && y == 0 && z == 0) by (nonlinear_arith)
            requires
                x * x >= 0,
                y * y >= 0,
                z * z >= 0,
                x * x + y * y + z * z == 0,
        ;
    }
    if a == v3_zero() {
        assert(q == 0);
    }
    if l >= 1 {
        assert(x * x <= q && y * y <= q && z * z <= q);
        lemma_comp_le_root(x, q, l);
        lemma_comp_le_root(y, q, l);
        lemma_comp_le_root(z, q, l);
        lemma_sdiv_sq_bounds(x, l);
        lemma_sdiv_sq_bounds(y, l);
        lemma_sdiv_sq_bounds(z, l);
        let kx = scale_div(x, l);
        let ky = scale_div(y, l);
        let kz = scale_div(z, l);
        let n = normalize_m(a);
        assert(n == V3 { x: kx, y: ky, z: kz });
        assert(norm2(n) == kx * kx + ky * ky + kz * kz);
        assert((kx * kx + ky * ky + kz * kz) * (l * l) == kx * kx * (l * l) + ky * ky * (l * l)
            + kz * kz * (l * l)) by (nonlinear_arith);
        // upper bound
        assert(q <= l * l + 2 * l) by (nonlinear_arith)
            requires
                q < (l + 1) * (l + 1),
        ;
        assert(x * x * s * s + y * y * s * s + z * z * s * s == q * (s * s)) by (nonlinear_arith)
            requires
                q == x * x + y * y + z * z,
        ;
        assert(q * (s * s) <= (l * l + 2 * l) * (s * s)) by (nonlinear_arith)
            requires
                q <= l * l + 2 * l,
                s >= 1,
        ;
        assert((l * l + 2 * l) * (s * s) == s * s * (l * l + 2 * l)) by (nonlinear_arith);
        assert(norm2(n) * (l * l) <= s * s * (l * l + 2 * l));
        // lower bound
        let mx = iabs(x);
        let my = iabs(y);
        let mz = iabs(z);
        assert(mx <= l && my <= l && mz <= l);
        assert(2 * mx * s * l + 2 * my * s * l + 2 * mz * s * l <= 6 * s * (l * l))
            by (nonlinear_arith)
            requires
                0 <= mx <= l,
                0 <= my <= l,
                0 <= mz <= l,
                s >= 1,
                l >= 1,
        ;
        assert(q * (s * s) >= (l * l) * (s * s)) by (nonlinear_arith)
            requires
                q >= l * l,
                s >= 1,
        ;
        assert(norm2(n) * (l * l) >= (l * l) * (s * s) - 6 * s * (l * l));
        assert((l * l) * (s * s) - 6 * s * (l * l) == (s * s - 6 * s) * (l * l))
            by (nonlinear_arith);
        assert(norm2(n) >= s * s - 6 * s) by (nonlinear_arith)
            requires
                norm2(n) * (l * l) >= (s * s - 6 * s) * (l * l),
                l >= 1,
        ;
    }
}

/// A triangle with two coincident corner positions has the zero vector
/// as its face normal.
pub proof fn lemma_degenerate_face(pa: V3, pb: V3, pc: V3)
    requires
        pa == pb || pb == pc || pa == pc,
    ensures
        face_normal_m(pa, pb, pc) == v3_zero(),
{
    let u = v3_sub(pb, pa);
    let w = v3_sub(pc, pa);
    let c = v3_cross(u, w);
    assert(c == v3_zero()) by (nonlinear_arith)
        requires
            c == v3_cross(u, w),
            u == v3_sub(pb, pa),
            w == v3_sub(pc, pa),
            pa == pb || pb == pc || pa == pc,
    ;
    assert(norm2(c) == 0);
    assert(sqrt_floor(0) == 0);
}

} // verus!
