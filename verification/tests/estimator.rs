use vertex_normals::demo::generate_demo_mesh;
use vertex_normals::estimator::{compute_vertex_normals, Policy, Triangle};
use vertex_normals::vec3::Vec3;

const SCALE: i64 = 1_000_000;

fn v(x: i64, y: i64, z: i64) -> Vec3 {
    Vec3 { x, y, z }
}

fn tri(a: usize, b: usize, c: usize) -> Triangle {
    Triangle { a, b, c }
}

fn norm2(n: Vec3) -> i128 {
    let (x, y, z) = (n.x as i128, n.y as i128, n.z as i128);
    x * x + y * y + z * z
}

fn max_component_difference(a: Vec3, b: Vec3) -> i64 {
    (a.x - b.x).abs().max((a.y - b.y).abs()).max((a.z - b.z).abs())
}

#[test]
fn determinism_repeated_runs() {
    let mesh = generate_demo_mesh();
    for pol in [Policy::FaceWeighted, Policy::Uniform] {
        let first = compute_vertex_normals(&mesh.positions, &mesh.triangles, pol);
        let second = compute_vertex_normals(&mesh.positions, &mesh.triangles, pol);
        assert_eq!(first, second);
    }
}

#[test]
fn output_shape_matches_positions() {
    let mesh = generate_demo_mesh();
    for pol in [Policy::FaceWeighted, Policy::Uniform] {
        let normals = compute_vertex_normals(&mesh.positions, &mesh.triangles, pol);
        assert_eq!(normals.len(), mesh.positions.len());
    }
    // no triangles at all: still one (zero) normal per vertex
    let positions = vec![v(0, 0, 0), v(SCALE, 0, 0)];
    let triangles: Vec<Triangle> = Vec::new();
    let normals = compute_vertex_normals(&positions, &triangles, Policy::FaceWeighted);
    assert_eq!(normals.len(), 2);
    assert_eq!(normals, vec![v(0, 0, 0), v(0, 0, 0)]);
}

#[test]
fn unit_or_zero_invariant() {
    let mesh = generate_demo_mesh();
    let unit2 = (SCALE as i128) * (SCALE as i128);
    // tolerance of 2e-5 relative on the squared length, i.e. 1e-5 on the length
    let tol = 20_000_000i128;
    for pol in [Policy::FaceWeighted, Policy::Uniform] {
        let normals = compute_vertex_normals(&mesh.positions, &mesh.triangles, pol);
        for n in normals {
            let nn = norm2(n);
            assert!(nn == 0 || (nn - unit2).abs() <= tol, "|n|^2 = {nn}");
        }
    }
}

#[test]
fn policy_distinction_at_shared_vertex() {
    // vertex 2 is shared by triangles with visibly different interior
    // angles, so the two policies must disagree there by more than epsilon
    let mesh = generate_demo_mesh();
    let weighted = compute_vertex_normals(&mesh.positions, &mesh.triangles, Policy::FaceWeighted);
    let uniform = compute_vertex_normals(&mesh.positions, &mesh.triangles, Policy::Uniform);
    assert!(max_component_difference(weighted[2], uniform[2]) > 10);
}

#[test]
fn degenerate_triangle_yields_zero_normals() {
    // one triangle whose three positions coincide: a zero face normal and
    // three zero vertex normals, with no arithmetic fault
    let p = v(1_000_000, 2_000_000, 3_000_000);
    let positions = vec![p, p, p];
    let triangles = vec![tri(0, 1, 2)];
    for pol in [Policy::FaceWeighted, Policy::Uniform] {
        let normals = compute_vertex_normals(&positions, &triangles, pol);
        assert_eq!(normals, vec![v(0, 0, 0), v(0, 0, 0), v(0, 0, 0)]);
    }
}

#[test]
fn order_independence_exact() {
    let mesh = generate_demo_mesh();
    let baseline = compute_vertex_normals(&mesh.positions, &mesh.triangles, Policy::FaceWeighted);
    // reversed triangle list
    let mut reversed = mesh.triangles.clone();
    reversed.reverse();
    let from_reversed = compute_vertex_normals(&mesh.positions, &reversed, Policy::FaceWeighted);
    assert_eq!(baseline, from_reversed);
    // rotated triangle list
    let mut rotated = mesh.triangles.clone();
    rotated.rotate_left(4);
    let from_rotated = compute_vertex_normals(&mesh.positions, &rotated, Policy::FaceWeighted);
    assert_eq!(baseline, from_rotated);
    // the same under the uniform policy
    let baseline_u = compute_vertex_normals(&mesh.positions, &mesh.triangles, Policy::Uniform);
    let from_reversed_u = compute_vertex_normals(&mesh.positions, &reversed, Policy::Uniform);
    assert_eq!(baseline_u, from_reversed_u);
}

#[test]
fn end_to_end_peak_normal() {
    // the spire peak (vertex 0): both policies give an upward-pointing
    // unit vector, and the five unequal apex angles make them differ.
    // (The two steep faces flanking the near-axial vertex 2 face almost
    // straight left, so the peak normal leans well into -x; its upward
    // character is the strictly positive y component.)
    let mesh = generate_demo_mesh();
    let weighted = compute_vertex_normals(&mesh.positions, &mesh.triangles, Policy::FaceWeighted);
    let uniform = compute_vertex_normals(&mesh.positions, &mesh.triangles, Policy::Uniform);
    let unit2 = (SCALE as i128) * (SCALE as i128);
    let tol = 20_000_000i128;
    for peak in [weighted[0], uniform[0]] {
        assert!(peak.y > 100_000);
        assert!((norm2(peak) - unit2).abs() <= tol);
    }
    assert!(max_component_difference(weighted[0], uniform[0]) > 10);
}

#[test]
fn flat_plane_normals_are_exact() {
    // two coplanar triangles in the xz plane: every vertex normal is
    // exactly the +y unit vector under both policies
    let positions = vec![
        v(0, 0, 0),
        v(SCALE, 0, 0),
        v(SCALE, 0, SCALE),
        v(0, 0, SCALE),
    ];
    let triangles = vec![tri(0, 3, 2), tri(0, 2, 1)];
    for pol in [Policy::FaceWeighted, Policy::Uniform] {
        let normals = compute_vertex_normals(&positions, &triangles, pol);
        assert_eq!(
            normals,
            vec![v(0, SCALE, 0), v(0, SCALE, 0), v(0, SCALE, 0), v(0, SCALE, 0)]
        );
    }
}
