use vertex_normals::demo::generate_demo_mesh;
use vertex_normals::estimator::Triangle;
use vertex_normals::mesh::{Mesh, MeshError};
use vertex_normals::vec3::Vec3;

fn v(x: i64, y: i64, z: i64) -> Vec3 {
    Vec3 { x, y, z }
}

fn tri(a: usize, b: usize, c: usize) -> Triangle {
    Triangle { a, b, c }
}

#[test]
fn new_accepts_valid_topology() {
    let mesh = Mesh::new(vec![v(0, 0, 0), v(1, 0, 0), v(0, 1, 0)], vec![tri(0, 1, 2)]);
    let mesh = mesh.expect("valid topology");
    assert_eq!(mesh.positions.len(), 3);
    assert_eq!(mesh.triangles.len(), 1);
    assert!(mesh.normals.is_none());
}

#[test]
fn new_rejects_out_of_range_index() {
    let r = Mesh::new(vec![v(0, 0, 0), v(1, 0, 0), v(0, 1, 0)], vec![tri(0, 1, 3)]);
    assert!(matches!(r, Err(MeshError::MalformedTopology)));
}

#[test]
fn demo_mesh_shape() {
    let mesh = generate_demo_mesh();
    assert_eq!(mesh.positions.len(), 9);
    assert_eq!(mesh.triangles.len(), 10);
    assert!(mesh.normals.is_none());
    assert_eq!(mesh.positions[0], v(0, 10_000_000, 0));
    assert_eq!(mesh.triangles[0], tri(0, 5, 1));
}

#[test]
fn clone_is_deep_and_independent() {
    let mesh_a = generate_demo_mesh();
    let mut mesh_b = mesh_a.clone();
    assert_eq!(mesh_a.positions, mesh_b.positions);
    assert_eq!(mesh_a.triangles, mesh_b.triangles);
    mesh_b.compute_smooth_normals();
    // computing on the copy must not touch the source mesh
    assert!(mesh_a.normals.is_none());
    assert!(mesh_b.normals.is_some());
}

#[test]
fn both_policies_populate_normals() {
    let mut mesh_a = generate_demo_mesh();
    let mut mesh_b = mesh_a.clone();
    mesh_a.compute_face_weighted_normals();
    mesh_b.compute_smooth_normals();
    let na = mesh_a.normals.as_ref().expect("normals written");
    let nb = mesh_b.normals.as_ref().expect("normals written");
    assert_eq!(na.len(), 9);
    assert_eq!(nb.len(), 9);
    // the zeroth vertex's normal is readable by index after computation
    assert_eq!(mesh_a.normal(0), na[0]);
    assert_eq!(mesh_b.normal(0), nb[0]);
}

#[test]
fn recomputation_overwrites_wholesale() {
    let mut mesh = generate_demo_mesh();
    mesh.compute_smooth_normals();
    let smooth = mesh.normals.clone().expect("normals written");
    mesh.compute_face_weighted_normals();
    let weighted = mesh.normals.clone().expect("normals written");
    assert_eq!(smooth.len(), weighted.len());
    assert_ne!(smooth, weighted);
    // running the same policy again restores the same attribute
    mesh.compute_smooth_normals();
    assert_eq!(mesh.normals.clone().expect("normals written"), smooth);
}

#[test]
fn set_normals_replaces_attribute() {
    let mut mesh = Mesh::new(vec![v(0, 0, 0), v(1, 0, 0), v(0, 1, 0)], vec![tri(0, 1, 2)])
        .expect("valid topology");
    mesh.set_normals(vec![v(0, 0, 1_000_000); 3]);
    assert_eq!(mesh.normal(2), v(0, 0, 1_000_000));
    assert_eq!(mesh.positions.len(), 3);
}

#[test]
fn accessors_expose_the_data() {
    let mesh = generate_demo_mesh();
    assert_eq!(mesh.positions(), &mesh.positions);
    assert_eq!(mesh.triangles(), &mesh.triangles);
    assert!(mesh.normals().is_none());
}
