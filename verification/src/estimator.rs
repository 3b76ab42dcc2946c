//! The normal estimator: per-vertex normals from a triangle list, under a
//! pluggable per-corner weighting policy.

use crate::angle::{angle_between, angle_m, lemma_angle_m_range};
use crate::math::{lemma_mul_div_le, MAX_COORD, PI_FP, SCALE, TRI_MAX};
use crate::vec3::{
    face_normal, face_normal_m, iabs, in_range, lemma_normalize_in_range, normalize_m,
    normalize_or_zero, v3_add, v3_add_e, v3_cross, v3_sub, v3_sub_e, v3_zero, Vec3, V3,
};
use vstd::pervasive::VecAdditionalExecFns;
use vstd::prelude::*;

verus! {

/// One triangle: an ordered triple of vertex indices. The order is the
/// winding that gives the face its outward normal.
#[derive(Clone, Copy, PartialEq, Eq, Structural, Debug)]
pub struct Triangle {
    pub a: usize,
    pub b: usize,
    pub c: usize,
}

/// The per-corner weighting policy of the estimator.
#[derive(Clone, Copy, PartialEq, Eq, Structural, Debug)]
pub enum Policy {
    /// Each face's contribution to a corner is weighted by the face's
    /// interior angle at that corner.
    FaceWeighted,
    /// Every incident face contributes with the same unit weight.
    Uniform,
}

/// All three indices of the triangle address a position below `n`.
pub open spec fn tri_ok(t: Triangle, n: int) -> bool {
    t.a < n && t.b < n && t.c < n
}

/// Every triangle of the sequence addresses positions below `n`.
pub open spec fn triangles_ok(tris: Seq<Triangle>, n: int) -> bool {
    forall|j: int| 0 <= j < tris.len() ==> tri_ok(#[trigger] tris[j], n)
}

/// Every position's components are bounded by `MAX_COORD`.
pub open spec fn positions_ok(pos: Seq<Vec3>) -> bool {
    forall|i: int| 0 <= i < pos.len() ==> in_range(#[trigger] pos[i]@, MAX_COORD as int)
}

/// Fixed-point weighting of one component: `(a * w) / SCALE`, truncating
/// toward zero; `w` is a nonnegative fixed-point weight.
pub open spec fn wmul(a: int, w: int) -> int {
    if a >= 0 {
        (a * w) / (SCALE as int)
    } else {
        -((-a * w) / (SCALE as int))
    }
}

/// The weight of the corner `pa` of the triangle `(pa, pb, pc)` under the
/// given policy: the interior angle at `pa`, or the constant one.
pub open spec fn corner_weight_m(pol: Policy, pa: V3, pb: V3, pc: V3) -> int {
    match pol {
        Policy::FaceWeighted => angle_m(v3_sub(pb, pa), v3_sub(pc, pa)),
        Policy::Uniform => SCALE as int,
    }
}

/// A face normal scaled by a corner weight, componentwise.
pub open spec fn corner_term_m(n: V3, w: int) -> V3 {
    V3 { x: wmul(n.x, w), y: wmul(n.y, w), z: wmul(n.z, w) }
}

/// What one triangle adds to the accumulator of the vertex `vi`: one
/// weighted copy of its face normal for every corner equal to `vi`.
pub open spec fn tri_contrib_m(pos: Seq<Vec3>, t: Triangle, pol: Policy, vi: int) -> V3 {
    let pa = pos[t.a as int]@;
    let pb = pos[t.b as int]@;
    let pc = pos[t.c as int]@;
    let n = face_normal_m(pa, pb, pc);
    let ta = if t.a == vi {
        corner_term_m(n, corner_weight_m(pol, pa, pb, pc))
    } else {
        v3_zero()
    };
    let tb = if t.b == vi {
        corner_term_m(n, corner_weight_m(pol, pb, pc, pa))
    } else {
        v3_zero()
    };
    let tc = if t.c == vi {
        corner_term_m(n, corner_weight_m(pol, pc, pa, pb))
    } else {
        v3_zero()
    };
    v3_add(v3_add(ta, tb), tc)
}

/// The accumulated (still unnormalized) normal of the vertex `vi`: the sum
/// of the contributions of all triangles, in list order.
pub open spec fn accum_m(pos: Seq<Vec3>, tris: Seq<Triangle>, pol: Policy, vi: int) -> V3
    decreases tris.len(),
{
    if tris.len() == 0 {
        v3_zero()
    } else {
        v3_add(
            accum_m(pos, tris.drop_last(), pol, vi),
            tri_contrib_m(pos, tris.last(), pol, vi),
        )
    }
}

/// The final normal of the vertex `vi`: its accumulator normalized to unit
/// length, or the zero vector when the accumulator is zero.
pub open spec fn vertex_normal_m(pos: Seq<Vec3>, tris: Seq<Triangle>, pol: Policy, vi: int) -> V3 {
    normalize_m(accum_m(pos, tris, pol, vi))
}

/// Fixed-point weighting of one component, exactly `wmul`.
fn wmul_e(a: i64, w: i64) -> (r: i64)
    requires
        -SCALE <= a <= SCALE,
        0 <= w <= PI_FP,
    ensures
        r as int == wmul(a as int, w as int),
        -PI_FP <= r <= PI_FP,
{
    let neg = a < 0;
    let m: u64 = if neg {
        (-a) as u64
    } else {
        a as u64
    };
    assert(m as int == iabs(a as int));
    let wu = w as u64;
    assert(m * wu <= 4_000_000_000_000u64) by (nonlinear_arith)
        requires
            m <= 1_000_000u64,
            wu <= 3_141_593u64,
    ;
    let q = m * wu / (SCALE as u64);
    proof {
        lemma_mul_div_le(w as int, m as int, SCALE as int);
        assert((m as int) * (w as int) == (w as int) * (m as int)) by (nonlinear_arith);
    }
    assert(q <= w as u64);
    let qi = q as i64;
    if neg {
        -qi
    } else {
        qi
    }
}

/// Scales a face normal by a corner weight, componentwise.
fn weighted_term(n: Vec3, w: i64) -> (r: Vec3)
    requires
        in_range(n@, SCALE as int),
        0 <= w <= PI_FP,
    ensures
        r@ == corner_term_m(n@, w as int),
        in_range(r@, PI_FP as int),
{
    Vec3 { x: wmul_e(n.x, w), y: wmul_e(n.y, w), z: wmul_e(n.z, w) }
}

/// Computes the weight of the corner `pa` of the triangle `(pa, pb, pc)`:
/// the single substitution point that distinguishes the two policies.
pub fn corner_weight(pol: Policy, pa: Vec3, pb: Vec3, pc: Vec3) -> (w: i64)
    requires
        in_range(pa@, MAX_COORD as int),
        in_range(pb@, MAX_COORD as int),
        in_range(pc@, MAX_COORD as int),
    ensures
        w as int == corner_weight_m(pol, pa@, pb@, pc@),
        0 <= w <= PI_FP,
{
    match pol {
        Policy::FaceWeighted => {
            let e1 = v3_sub_e(pb, pa);
            let e2 = v3_sub_e(pc, pa);
            angle_between(e1, e2)
        },
        Policy::Uniform => SCALE,
    }
}

/// The weight of any corner under any policy lies in `[0, PI_FP]`.
pub proof fn lemma_corner_weight_range(pol: Policy, pa: V3, pb: V3, pc: V3)
    ensures
        0 <= corner_weight_m(pol, pa, pb, pc) <= PI_FP as int,
{
    match pol {
        Policy::FaceWeighted => {
            lemma_angle_m_range(v3_sub(pb, pa), v3_sub(pc, pa));
        },
        Policy::Uniform => {
        },
    }
}

/// A weighted component keeps the weight as a magnitude bound.
proof fn lemma_wmul_bound(a: int, w: int)
    requires
        -(SCALE as int) <= a <= SCALE as int,
        0 <= w <= PI_FP as int,
    ensures
        -(PI_FP as int) <= wmul(a, w) <= PI_FP as int,
{
    let m = iabs(a);
    lemma_mul_div_le(w, m, SCALE as int);
    assert(m * w == w * m) by (nonlinear_arith);
}

/// What one triangle adds to any accumulator stays within `3 * PI_FP` per
/// component.
proof fn lemma_contrib_bound(pos: Seq<Vec3>, t: Triangle, pol: Policy, vi: int)
    requires
        positions_ok(pos),
        tri_ok(t, pos.len() as int),
    ensures
        in_range(tri_contrib_m(pos, t, pol, vi), 3 * PI_FP as int),
{
    let pa = pos[t.a as int]@;
    let pb = pos[t.b as int]@;
    let pc = pos[t.c as int]@;
    let n = face_normal_m(pa, pb, pc);
    lemma_normalize_in_range(v3_cross(v3_sub(pb, pa), v3_sub(pc, pa)));
    lemma_corner_weight_range(pol, pa, pb, pc);
    lemma_corner_weight_range(pol, pb, pc, pa);
    lemma_corner_weight_range(pol, pc, pa, pb);
    lemma_wmul_bound(n.x, corner_weight_m(pol, pa, pb, pc));
    lemma_wmul_bound(n.y, corner_weight_m(pol, pa, pb, pc));
    lemma_wmul_bound(n.z, corner_weight_m(pol, pa, pb, pc));
    lemma_wmul_bound(n.x, corner_weight_m(pol, pb, pc, pa));
    lemma_wmul_bound(n.y, corner_weight_m(pol, pb, pc, pa));
    lemma_wmul_bound(n.z, corner_weight_m(pol, pb, pc, pa));
    lemma_wmul_bound(n.x, corner_weight_m(pol, pc, pa, pb));
    lemma_wmul_bound(n.y, corner_weight_m(pol, pc, pa, pb));
    lemma_wmul_bound(n.z, corner_weight_m(pol, pc, pa, pb));
}

/// Extending the processed prefix by one triangle adds exactly that
/// triangle's contribution.
proof fn lemma_accum_take_step(pos: Seq<Vec3>, tris: Seq<Triangle>, pol: Policy, vi: int, i: int)
    requires
        0 <= i < tris.len(),
    ensures
        accum_m(pos, tris.take(i + 1), pol, vi) == v3_add(
            accum_m(pos, tris.take(i), pol, vi),
            tri_contrib_m(pos, tris[i], pol, vi),
        ),
{
    assert(tris.take(i + 1).drop_last() =~= tris.take(i));
    assert(tris.take(i + 1).last() == tris[i]);
}

/// Removing any one triangle removes exactly its contribution from the
/// accumulated sum.
proof fn lemma_accum_remove(pos: Seq<Vec3>, tris: Seq<Triangle>, pol: Policy, vi: int, i: int)
    requires
        0 <= i < tris.len(),
    ensures
        accum_m(pos, tris, pol, vi) == v3_add(
            accum_m(pos, tris.remove(i), pol, vi),
            tri_contrib_m(pos, tris[i], pol, vi),
        ),
    decreases tris.len(),
{
    if i == tris.len() - 1 {
        assert(tris.remove(i) =~= tris.drop_last());
    } else {
        let s2 = tris.drop_last();
        lemma_accum_remove(pos, s2, pol, vi, i);
        assert(tris.remove(i).drop_last() =~= s2.remove(i));
        assert(tris.remove(i).last() == tris.last());
        assert(s2[i] == tris[i]);
    }
}

/// Accumulation is order independent: two triangle lists with the same
/// multiset of triangles accumulate to the same sum at every vertex.
pub proof fn lemma_accum_permutation(
    pos: Seq<Vec3>,
    tris1: Seq<Triangle>,
    tris2: Seq<Triangle>,
    pol: Policy,
    vi: int,
)
    requires
        tris1.to_multiset() == tris2.to_multiset(),
    ensures
        accum_m(pos, tris1, pol, vi) == accum_m(pos, tris2, pol, vi),
    decreases tris1.len(),
{
    broadcast use vstd::seq_lib::group_to_multiset_ensures;

    if tris1.len() == 0 {
        assert(tris2.to_multiset().len() == 0);
        assert(tris2.len() == 0);
    } else {
        let last = tris1.len() - 1;
        let x = tris1[last];
        assert(tris1.contains(x));
        assert(tris2.to_multiset().count(x) > 0);
        assert(tris2.contains(x));
        let j = choose|j: int| 0 <= j < tris2.len() && tris2[j] == x;
        lemma_accum_remove(pos, tris2, pol, vi, j);
        assert(tris1.drop_last() =~= tris1.remove(last));
        assert(tris1.remove(last).to_multiset() == tris1.to_multiset().remove(x));
        assert(tris2.remove(j).to_multiset() == tris2.to_multiset().remove(x));
        lemma_accum_permutation(pos, tris1.drop_last(), tris2.remove(j), pol, vi);
    }
}

/// Order independence of the estimator: permuting the triangle list leaves
/// every vertex normal unchanged.
pub proof fn lemma_order_independent(
    pos: Seq<Vec3>,
    tris1: Seq<Triangle>,
    tris2: Seq<Triangle>,
    pol: Policy,
)
    requires
        tris1.to_multiset() == tris2.to_multiset(),
    ensures
        forall|vi: int| vertex_normal_m(pos, tris1, pol, vi) == vertex_normal_m(
            pos,
            tris2,
            pol,
            vi,
        ),
{
    assert forall|vi: int| vertex_normal_m(pos, tris1, pol, vi) == vertex_normal_m(
        pos,
        tris2,
        pol,
        vi,
    ) by {
        lemma_accum_permutation(pos, tris1, tris2, pol, vi);
    }
}

/// Determinism of the estimator: any two outputs that satisfy the
/// estimator's contract on the same mesh and policy are equal.
pub proof fn lemma_estimator_deterministic(
    pos: Seq<Vec3>,
    tris: Seq<Triangle>,
    pol: Policy,
    r1: Seq<Vec3>,
    r2: Seq<Vec3>,
)
    requires
        r1.len() == pos.len(),
        r2.len() == pos.len(),
        forall|i: int|
            0 <= i < r1.len() ==> (#[trigger] r1[i])@ == vertex_normal_m(pos, tris, pol, i),
        forall|i: int|
            0 <= i < r2.len() ==> (#[trigger] r2[i])@ == vertex_normal_m(pos, tris, pol, i),
    ensures
        r1 == r2,
{
    assert forall|i: int| 0 <= i < r1.len() implies r1[i] == r2[i] by {
        assert(r1[i]@ == r2[i]@);
    }
    assert(r1 =~= r2);
}

/// A triangle whose three corner positions coincide contributes nothing to
/// any vertex accumulator.
pub proof fn lemma_degenerate_contrib(pos: Seq<Vec3>, t: Triangle, pol: Policy, vi: int)
    requires
        0 <= t.a < pos.len(),
        0 <= t.b < pos.len(),
        0 <= t.c < pos.len(),
        pos[t.a as int]@ == pos[t.b as int]@,
        pos[t.b as int]@ == pos[t.c as int]@,
    ensures
        tri_contrib_m(pos, t, pol, vi) == v3_zero(),
{
    let pa = pos[t.a as int]@;
    crate::vec3::lemma_degenerate_face(pa, pa, pa);
    let w1 = corner_weight_m(pol, pa, pa, pa);
    assert(wmul(0, w1) == 0) by {
        assert(0 * w1 == 0) by (nonlinear_arith);
        assert(-0 * w1 == 0) by (nonlinear_arith);
    }
    assert(corner_term_m(v3_zero(), w1) == v3_zero());
}

/// Unit-or-zero at the estimator level: every vertex normal is the zero
/// vector exactly when the vertex's accumulator is zero, and otherwise its
/// squared length lies within a vanishing relative error of `SCALE^2`
/// (see `lemma_unit_or_zero` for the exact brackets).
pub proof fn lemma_vertex_unit_or_zero(pos: Seq<Vec3>, tris: Seq<Triangle>, pol: Policy, vi: int)
    ensures
        accum_m(pos, tris, pol, vi) == v3_zero() ==> vertex_normal_m(pos, tris, pol, vi)
            == v3_zero(),
        accum_m(pos, tris, pol, vi) != v3_zero() ==> crate::vec3::norm2(
            vertex_normal_m(pos, tris, pol, vi),
        ) >= (SCALE as int) * (SCALE as int) - 6 * (SCALE as int),
{
    let a = accum_m(pos, tris, pol, vi);
    crate::vec3::lemma_unit_or_zero(a);
    crate::math::lemma_sqrt_floor_props(crate::vec3::norm2(a));
}

/// A mesh all of whose triangles have coincident corner positions yields
/// the zero normal at every vertex.
pub proof fn lemma_all_degenerate_zero(pos: Seq<Vec3>, tris: Seq<Triangle>, pol: Policy, vi: int)
    requires
        forall|j: int|
            0 <= j < tris.len() ==> {
                &&& 0 <= (#[trigger] tris[j]).a < pos.len()
                &&& 0 <= tris[j].b < pos.len()
                &&& 0 <= tris[j].c < pos.len()
                &&& pos[tris[j].a as int]@ == pos[tris[j].b as int]@
                &&& pos[tris[j].b as int]@ == pos[tris[j].c as int]@
            },
    ensures
        accum_m(pos, tris, pol, vi) == v3_zero(),
        vertex_normal_m(pos, tris, pol, vi) == v3_zero(),
    decreases tris.len(),
{
    if tris.len() > 0 {
        lemma_all_degenerate_zero(pos, tris.drop_last(), pol, vi);
        lemma_degenerate_contrib(pos, tris.last(), pol, vi);
    }
    crate::vec3::lemma_unit_or_zero(v3_zero());
}

/// Derives one normal per vertex from the triangle list: accumulates each
/// triangle's face normal into its three corners under the policy's
/// per-corner weight, then normalizes every accumulator (zero stays zero).
#[verifier::rlimit(100)]
pub fn compute_vertex_normals(positions: &Vec<Vec3>, triangles: &Vec<Triangle>, pol: Policy) -> (r:
    Vec<Vec3>)
    requires
        positions_ok(positions@),
        triangles_ok(triangles@, positions@.len() as int),
        triangles@.len() <= TRI_MAX,
    ensures
        r@.len() == positions@.len(),
        forall|i: int|
            0 <= i < r@.len() ==> (#[trigger] r@[i])@ == vertex_normal_m(
                positions@,
                triangles@,
                pol,
                i,
            ),
        forall|i: int| 0 <= i < r@.len() ==> in_range((#[trigger] r@[i])@, SCALE as int),
{
    let n = positions.len();
    let mut acc: Vec<Vec3> = Vec::new();
    let mut i: usize = 0;
    while i < n
        invariant
            0 <= i <= n,
            acc@.len() == i,
            forall|v: int| 0 <= v < i ==> (#[trigger] acc@[v])@ == v3_zero(),
        decreases n - i,
    {
        acc.push(Vec3 { x: 0, y: 0, z: 0 });
        i += 1;
    }
    let tcount = triangles.len();
    let mut ti: usize = 0;
    while ti < tcount
        invariant
            0 <= ti <= tcount,
            tcount == triangles@.len(),
            tcount <= TRI_MAX,
            acc@.len() == positions@.len(),
            positions_ok(positions@),
            triangles_ok(triangles@, positions@.len() as int),
            forall|v: int|
                0 <= v < acc@.len() ==> (#[trigger] acc@[v])@ == accum_m(
                    positions@,
                    triangles@.take(ti as int),
                    pol,
                    v,
                ),
            forall|v: int|
                0 <= v < acc@.len() ==> in_range(
                    (#[trigger] acc@[v])@,
                    3 * (ti as int) * (PI_FP as int),
                ),
        decreases tcount - ti,
    {
        let ghost acc0 = acc@;
        let t = triangles[ti];
        assert(tri_ok(t, positions@.len() as int));
        let pa = positions[t.a];
        let pb = positions[t.b];
        let pc = positions[t.c];
        let fnorm = face_normal(pa, pb, pc);
        let wa = corner_weight(pol, pa, pb, pc);
        let wb = corner_weight(pol, pb, pc, pa);
        let wc = corner_weight(pol, pc, pa, pb);
        let ta = weighted_term(fnorm, wa);
        let tb = weighted_term(fnorm, wb);
        let tc = weighted_term(fnorm, wc);
        proof {
            assert(3 * (ti as int) * (PI_FP as int) <= 3 * (TRI_MAX as int) * (PI_FP as int))
                by (nonlinear_arith)
                requires
                    0 <= ti as int <= TRI_MAX as int,
            ;
        }
        let cura = acc[t.a];
        acc.set(t.a, v3_add_e(cura, ta));
        let curb = acc[t.b];
        acc.set(t.b, v3_add_e(curb, tb));
        let curc = acc[t.c];
        acc.set(t.c, v3_add_e(curc, tc));
        proof {
            lemma_contrib_bound(positions@, t, pol, ti as int);
            assert(forall|v: int|
                0 <= v < acc@.len() ==> (#[trigger] acc@[v])@ == v3_add(
                    acc0[v]@,
                    tri_contrib_m(positions@, t, pol, v),
                ));
            assert forall|v: int| 0 <= v < acc@.len() implies (#[trigger] acc@[v])@ == accum_m(
                positions@,
                triangles@.take(ti as int + 1),
                pol,
                v,
            ) by {
                lemma_accum_take_step(positions@, triangles@, pol, v, ti as int);
            }
            assert forall|v: int| 0 <= v < acc@.len() implies in_range(
                (#[trigger] acc@[v])@,
                3 * (ti as int + 1) * (PI_FP as int),
            ) by {
                lemma_contrib_bound(positions@, t, pol, v);
                assert(3 * (ti as int + 1) * (PI_FP as int) == 3 * (ti as int) * (PI_FP as int) + 3
                    * (PI_FP as int)) by (nonlinear_arith);
            }
        }
        ti += 1;
    }
    proof {
        assert(triangles@.take(tcount as int) =~= triangles@);
    }
    let mut out: Vec<Vec3> = Vec::new();
    let mut vi: usize = 0;
    while vi < n
        invariant
            0 <= vi <= n,
            n == positions@.len(),
            acc@.len() == n,
            out@.len() == vi,
            forall|v: int|
                0 <= v < acc@.len() ==> (#[trigger] acc@[v])@ == accum_m(
                    positions@,
                    triangles@,
                    pol,
                    v,
                ),
            forall|v: int|
                0 <= v < acc@.len() ==> in_range(
                    (#[trigger] acc@[v])@,
                    3 * (TRI_MAX as int) * (PI_FP as int),
                ),
            forall|v: int|
                0 <= v < vi ==> (#[trigger] out@[v])@ == vertex_normal_m(
                    positions@,
                    triangles@,
                    pol,
                    v,
                ),
            forall|v: int| 0 <= v < vi ==> in_range((#[trigger] out@[v])@, SCALE as int),
        decreases n - vi,
    {
        let a = acc[vi];
        out.push(normalize_or_zero(a));
        vi += 1;
    }
    out
}

} // verus!
