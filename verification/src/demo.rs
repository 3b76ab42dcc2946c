//! The fixed demonstration geometry: a spire beside a gable, sharing an
//! edge, authored as literal fixed-point coordinates.

use crate::estimator::{positions_ok, triangles_ok, Triangle};
use crate::math::MAX_COORD;
use crate::mesh::Mesh;
use crate::vec3::{in_range, Vec3};
use vstd::prelude::*;

verus! {

/// The nine vertex positions: a peak over a ring of spire corners and the
/// three gable corners, one unit being `SCALE` sub-units.
pub open spec fn demo_positions() -> Seq<Vec3> {
    seq![
        Vec3 { x: 0i64, y: 10_000_000i64, z: 0i64 },  // spire peak
        Vec3 { x: -1_000_000i64, y: 0i64, z: -1_000_000i64 },  // spire back left
        Vec3 { x: -200_000i64, y: 8_000_000i64, z: 0i64 },  // spire left center
        Vec3 { x: -1_000_000i64, y: 0i64, z: 1_000_000i64 },  // spire front left
        Vec3 { x: 1_000_000i64, y: 0i64, z: 1_000_000i64 },  // spire front right
        Vec3 { x: 1_000_000i64, y: 0i64, z: -1_000_000i64 },  // spire back right
        Vec3 { x: -2_000_000i64, y: 0i64, z: -1_000_000i64 },  // gable back left
        Vec3 { x: -2_000_000i64, y: 8_000_000i64, z: 0i64 },  // gable left center
        Vec3 { x: -2_000_000i64, y: 0i64, z: 1_000_000i64 },  // gable front left
    ]
}

/// The ten triangles: five around the spire peak, five closing the gable.
pub open spec fn demo_triangles() -> Seq<Triangle> {
    seq![
        Triangle { a: 0, b: 5, c: 1 },
        Triangle { a: 0, b: 1, c: 2 },
        Triangle { a: 0, b: 2, c: 3 },
        Triangle { a: 0, b: 3, c: 4 },
        Triangle { a: 0, b: 4, c: 5 },
        Triangle { a: 2, b: 1, c: 7 },
        Triangle { a: 7, b: 1, c: 6 },
        Triangle { a: 2, b: 7, c: 3 },
        Triangle { a: 3, b: 7, c: 8 },
        Triangle { a: 7, b: 6, c: 8 },
    ]
}

/// Builds the fixed demonstration mesh, ready for either estimator policy.
pub fn generate_demo_mesh() -> (m: Mesh)
    ensures
        m.positions@ == demo_positions(),
        m.triangles@ == demo_triangles(),
        m.normals is None,
        m.wf(),
{
    let mut positions: Vec<Vec3> = Vec::new();
    positions.push(Vec3 { x: 0, y: 10_000_000, z: 0 });
    positions.push(Vec3 { x: -1_000_000, y: 0, z: -1_000_000 });
    positions.push(Vec3 { x: -200_000, y: 8_000_000, z: 0 });
    positions.push(Vec3 { x: -1_000_000, y: 0, z: 1_000_000 });
    positions.push(Vec3 { x: 1_000_000, y: 0, z: 1_000_000 });
    positions.push(Vec3 { x: 1_000_000, y: 0, z: -1_000_000 });
    positions.push(Vec3 { x: -2_000_000, y: 0, z: -1_000_000 });
    positions.push(Vec3 { x: -2_000_000, y: 8_000_000, z: 0 });
    positions.push(Vec3 { x: -2_000_000, y: 0, z: 1_000_000 });
    let mut triangles: Vec<Triangle> = Vec::new();
    triangles.push(Triangle { a: 0, b: 5, c: 1 });
    triangles.push(Triangle { a: 0, b: 1, c: 2 });
    triangles.push(Triangle { a: 0, b: 2, c: 3 });
    triangles.push(Triangle { a: 0, b: 3, c: 4 });
    triangles.push(Triangle { a: 0, b: 4, c: 5 });
    triangles.push(Triangle { a: 2, b: 1, c: 7 });
    triangles.push(Triangle { a: 7, b: 1, c: 6 });
    triangles.push(Triangle { a: 2, b: 7, c: 3 });
    triangles.push(Triangle { a: 3, b: 7, c: 8 });
    triangles.push(Triangle { a: 7, b: 6, c: 8 });
    proof {
        assert(positions@ =~= demo_positions());
        assert(triangles@ =~= demo_triangles());
        assert forall|i: int| 0 <= i < demo_positions().len() implies in_range(
            (#[trigger] demo_positions()[i])@,
            MAX_COORD as int,
        ) by {
        }
        assert(positions_ok(positions@));
        assert(triangles_ok(triangles@, positions@.len() as int));
    }
    Mesh { positions, triangles, normals: None }
}

} // verus!
