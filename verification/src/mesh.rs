//! The mesh descriptor: positions, triangles and the derived normal
//! attribute.

use crate::estimator::{
    compute_vertex_normals, positions_ok, tri_ok, triangles_ok, vertex_normal_m, Policy, Triangle,
};
use crate::math::TRI_MAX;
use crate::vec3::{Vec3, V3};
use vstd::prelude::*;

verus! {

/// An error in the caller-supplied mesh data.
#[derive(Clone, Copy, PartialEq, Eq, Structural, Debug)]
pub enum MeshError {
    /// A triangle references a vertex index outside the positions list.
    MalformedTopology,
}

/// An immutable triangle mesh: one positions list and one triangle list,
/// plus the per-vertex normal attribute once an estimator has run.
pub struct Mesh {
    pub positions: Vec<Vec3>,
    pub triangles: Vec<Triangle>,
    pub normals: Option<Vec<Vec3>>,
}

/// The mathematical value of an optional normals list.
pub open spec fn normals_view(o: Option<Vec<Vec3>>) -> Option<Seq<V3>> {
    match o {
        Option::None => Option::None,
        Option::Some(v) => Option::Some(v@.map_values(|p: Vec3| p@)),
    }
}

/// Copies a list of plain values.
fn copy_list<T: Copy>(src: &Vec<T>) -> (r: Vec<T>)
    ensures
        r@ == src@,
{
    let n = src.len();
    let mut r: Vec<T> = Vec::new();
    let mut i: usize = 0;
    while i < n
        invariant
            0 <= i <= n,
            n == src@.len(),
            r@ == src@.take(i as int),
        decreases n - i,
    {
        r.push(src[i]);
        proof {
            assert(r@ =~= src@.take(i as int + 1));
        }
        i += 1;
    }
    proof {
        assert(src@.take(n as int) =~= src@);
    }
    r
}

impl Mesh {
    /// The mesh is well formed: positions bounded, every triangle index in
    /// range, and the triangle count within the estimator's capacity.
    pub open spec fn wf(self) -> bool {
        &&& positions_ok(self.positions@)
        &&& triangles_ok(self.triangles@, self.positions@.len() as int)
        &&& self.triangles@.len() <= TRI_MAX as int
    }

    /// Builds a mesh after validating the topology: every index of every
    /// triangle must address a position, else `MalformedTopology`.
    pub fn new(positions: Vec<Vec3>, triangles: Vec<Triangle>) -> (r: Result<Mesh, MeshError>)
        requires
            positions_ok(positions@),
            triangles@.len() <= TRI_MAX as int,
        ensures
            match r {
                Ok(m) => {
                    &&& triangles_ok(triangles@, positions@.len() as int)
                    &&& m.positions@ == positions@
                    &&& m.triangles@ == triangles@
                    &&& m.normals is None
                    &&& m.wf()
                },
                Err(e) => {
                    &&& e == MeshError::MalformedTopology
                    &&& !triangles_ok(triangles@, positions@.len() as int)
                },
            },
    {
        let n = positions.len();
        let count = triangles.len();
        let mut j: usize = 0;
        while j < count
            invariant
                0 <= j <= count,
                n == positions@.len(),
                count == triangles@.len(),
                triangles_ok(triangles@.take(j as int), n as int),
            decreases count - j,
        {
            let t = triangles[j];
            if !(t.a < n && t.b < n && t.c < n) {
                assert(!tri_ok(triangles@[j as int], n as int));
                return Err(MeshError::MalformedTopology);
            }
            proof {
                assert(forall|k: int|
                    0 <= k < j as int + 1 ==> tri_ok(
                        #[trigger] triangles@.take(j as int + 1)[k],
                        n as int,
                    ));
            }
            j += 1;
        }
        proof {
            assert(triangles@.take(count as int) =~= triangles@);
        }
        Ok(Mesh { positions, triangles, normals: None })
    }

    /// Read access to the positions list.
    pub fn positions(&self) -> (r: &Vec<Vec3>)
        ensures
            r@ == self.positions@,
    {
        &self.positions
    }

    /// Read access to the triangle list.
    pub fn triangles(&self) -> (r: &Vec<Triangle>)
        ensures
            r@ == self.triangles@,
    {
        &self.triangles
    }

    /// Read access to the normal attribute, absent until an estimator has
    /// run.
    pub fn normals(&self) -> (r: &Option<Vec<Vec3>>)
        ensures
            r == &self.normals,
    {
        &self.normals
    }

    /// The normal of one vertex, by index, after an estimator has run.
    pub fn normal(&self, i: usize) -> (r: Vec3)
        requires
            self.normals is Some,
            i < normals_view(self.normals).unwrap().len(),
        ensures
            r@ == normals_view(self.normals).unwrap()[i as int],
    {
        match &self.normals {
            Option::Some(ns) => ns[i],
            Option::None => {
                proof {
                    assert(false);
                }
                Vec3 { x: 0, y: 0, z: 0 }
            },
        }
    }

    /// Attaches (or replaces) the normal attribute wholesale.
    pub fn set_normals(&mut self, normals: Vec<Vec3>)
        ensures
            final(self).positions@ == old(self).positions@,
            final(self).triangles@ == old(self).triangles@,
            final(self).normals == Some::<Vec<Vec3>>(normals),
    {
        self.normals = Some(normals);
    }

    /// Runs the estimator under the given policy and stores one normal per
    /// vertex in the mesh.
    pub fn compute_normals(&mut self, pol: Policy)
        requires
            old(self).wf(),
        ensures
            final(self).wf(),
            final(self).positions@ == old(self).positions@,
            final(self).triangles@ == old(self).triangles@,
            final(self).normals is Some,
            normals_view(final(self).normals) == Some(
                Seq::new(
                    old(self).positions@.len(),
                    |i: int| vertex_normal_m(old(self).positions@, old(self).triangles@, pol, i),
                ),
            ),
    {
        let ns = compute_vertex_normals(&self.positions, &self.triangles, pol);
        proof {
            assert(ns@.map_values(|p: Vec3| p@) =~= Seq::new(
                self.positions@.len(),
                |i: int| vertex_normal_m(self.positions@, self.triangles@, pol, i),
            ));
        }
        self.normals = Some(ns);
    }

    /// Runs the face-weighted (interior-angle-weighted) policy.
    pub fn compute_face_weighted_normals(&mut self)
        requires
            old(self).wf(),
        ensures
            final(self).wf(),
            final(self).positions@ == old(self).positions@,
            final(self).triangles@ == old(self).triangles@,
            final(self).normals is Some,
            normals_view(final(self).normals) == Some(
                Seq::new(
                    old(self).positions@.len(),
                    |i: int|
                        vertex_normal_m(
                            old(self).positions@,
                            old(self).triangles@,
                            Policy::FaceWeighted,
                            i,
                        ),
                ),
            ),
    {
        self.compute_normals(Policy::FaceWeighted)
    }

    /// Runs the uniform smoothing policy: every incident face counts once.
    pub fn compute_smooth_normals(&mut self)
        requires
            old(self).wf(),
        ensures
            final(self).wf(),
            final(self).positions@ == old(self).positions@,
            final(self).triangles@ == old(self).triangles@,
            final(self).normals is Some,
            normals_view(final(self).normals) == Some(
                Seq::new(
                    old(self).positions@.len(),
                    |i: int|
                        vertex_normal_m(
                            old(self).positions@,
                            old(self).triangles@,
                            Policy::Uniform,
                            i,
                        ),
                ),
            ),
    {
        self.compute_normals(Policy::Uniform)
    }
}

impl Clone for Mesh {
    /// Deep copy: the two meshes share no storage and carry equal data.
    fn clone(&self) -> (r: Mesh)
        ensures
            r.positions@ == self.positions@,
            r.triangles@ == self.triangles@,
            normals_view(r.normals) == normals_view(self.normals),
    {
        let normals = match &self.normals {
            Option::Some(ns) => Option::Some(copy_list(ns)),
            Option::None => Option::None,
        };
        proof {
            if self.normals is Some {
                assert(normals_view(normals).unwrap() =~= normals_view(self.normals).unwrap());
            }
        }
        Mesh { positions: copy_list(&self.positions), triangles: copy_list(&self.triangles), normals }
    }
}

} // verus!
