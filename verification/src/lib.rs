//! Vertex-normal estimation for triangle meshes, in fixed-point arithmetic.
//!
//! A mesh is a list of 3D positions and a list of triangles indexing them.
//! The estimator derives one normal per vertex: it accumulates, for every
//! triangle, the triangle's face normal into the accumulators of its three
//! corners — weighted either by the triangle's interior angle at the corner
//! (`Policy::FaceWeighted`) or uniformly (`Policy::Uniform`) — and then
//! normalizes every accumulator to unit length, mapping a zero accumulator
//! to the zero vector.
//!
//! All quantities are fixed-point integers with `math::SCALE` sub-units per
//! unit, so every arithmetic step is exact and the whole computation is
//! specified by integer-valued model functions: the estimator's result is
//! proved equal to `estimator::vertex_normal_m` at every vertex, which
//! yields determinism and order independence as theorems rather than
//! observations.

pub mod angle;
pub mod demo;
pub mod estimator;
pub mod math;
pub mod mesh;
pub mod vec3;
