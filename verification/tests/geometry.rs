use vertex_normals::angle::atan01;
use vertex_normals::estimator::{corner_weight, Policy};
use vertex_normals::math::isqrt;
use vertex_normals::vec3::{face_normal, normalize_or_zero, Vec3};

fn v(x: i64, y: i64, z: i64) -> Vec3 {
    Vec3 { x, y, z }
}

#[test]
fn isqrt_exact_values() {
    assert_eq!(isqrt(0), 0);
    assert_eq!(isqrt(1), 1);
    assert_eq!(isqrt(3), 1);
    assert_eq!(isqrt(4), 2);
    assert_eq!(isqrt(15), 3);
    assert_eq!(isqrt(16), 4);
    assert_eq!(isqrt(1_000_000_000_000_000_000_000_000), 1_000_000_000_000);
    assert_eq!(isqrt(u64::MAX as u128 * u64::MAX as u128), u64::MAX as u128);
}

#[test]
fn atan01_endpoint_values() {
    // atan(0) is zero and atan(1) is exactly the fixed-point quarter pi
    assert_eq!(atan01(0), 0);
    assert_eq!(atan01(1_000_000), 785_398);
}

#[test]
fn normalize_three_four_five() {
    // a 3-4-5 vector normalizes exactly in fixed point
    let n = normalize_or_zero(v(3_000_000, 4_000_000, 0));
    assert_eq!(n, v(600_000, 800_000, 0));
}

#[test]
fn normalize_zero_stays_zero() {
    assert_eq!(normalize_or_zero(v(0, 0, 0)), v(0, 0, 0));
}

#[test]
fn face_normal_right_hand_winding() {
    // x cross y is z, so the unit triangle in the xy plane faces +z
    let n = face_normal(v(0, 0, 0), v(1_000_000, 0, 0), v(0, 1_000_000, 0));
    assert_eq!(n, v(0, 0, 1_000_000));
}

#[test]
fn face_normal_degenerate_is_zero() {
    let p = v(1_000_000, 2_000_000, 3_000_000);
    assert_eq!(face_normal(p, p, p), v(0, 0, 0));
}

#[test]
fn corner_weight_right_angle() {
    // edges along +x and +y meet at a right angle: exactly half pi
    let w = corner_weight(
        Policy::FaceWeighted,
        v(0, 0, 0),
        v(1_000_000, 0, 0),
        v(0, 1_000_000, 0),
    );
    assert_eq!(w, 1_570_796);
}

#[test]
fn corner_weight_quarter_angle() {
    // edges along +x and the xy diagonal meet at exactly quarter pi
    let w = corner_weight(
        Policy::FaceWeighted,
        v(0, 0, 0),
        v(1_000_000, 0, 0),
        v(1_000_000, 1_000_000, 0),
    );
    assert_eq!(w, 785_398);
}

#[test]
fn corner_weight_uniform_is_constant_one() {
    let w = corner_weight(
        Policy::Uniform,
        v(0, 0, 0),
        v(1_000_000, 0, 0),
        v(7, 1_000_000, -3),
    );
    assert_eq!(w, 1_000_000);
}
