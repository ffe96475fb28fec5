//! Meshes as the acceleration structures consume them: quantized vertex
//! data and faces of vertex indices.
//!
//! Mesh files are decoded outside; what arrives here are plain index and
//! lattice-point arrays.  This module carries the index bookkeeping that
//! must be exact: chunking a flat index list into faces, merging several
//! meshes into one unified vertex/face buffer with every face re-based onto
//! the merged vertex array, and turning faces back into the triangles a
//! per-mesh hierarchy is built over.

use vstd::prelude::*;
use crate::aabb::Vec3I;
use crate::blas::Triangle;

verus! {

/// One face: three vertex indices and a pad, so a face occupies 16 bytes in
/// the GPU buffer.
#[derive(Clone, Copy, PartialEq, Eq, Structural, Debug)]
pub struct Face {
    pub a: u32,
    pub b: u32,
    pub c: u32,
    pub pad: u32,
}

/// One mesh: vertex positions and normals on the lattice, and the faces
/// indexing the positions.
pub struct Mesh {
    pub positions: Vec<Vec3I>,
    pub normals: Vec<Vec3I>,
    pub faces: Vec<Face>,
}

impl Mesh {
    /// Every face indexes a position that exists.
    pub open spec fn wf(self) -> bool {
        forall|i: int|
            0 <= i < self.faces@.len() ==> (#[trigger] self.faces@[i]).a < self.positions@.len()
                && self.faces@[i].b < self.positions@.len() && self.faces@[i].c
                < self.positions@.len()
    }
}

/// Chunks a flat index list into padded faces of three, dropping an
/// incomplete trailing chunk.
pub fn faces_from_indices(indices: &Vec<u32>) -> (r: Vec<Face>)
    ensures
        r@.len() == indices@.len() / 3,
        forall|i: int|
            0 <= i < r@.len() ==> (#[trigger] r@[i]) == (Face {
                a: indices@[3 * i],
                b: indices@[3 * i + 1],
                c: indices@[3 * i + 2],
                pad: 0,
            }),
{
    let mut out: Vec<Face> = Vec::new();
    let count = indices.len() / 3;
    let mut f: usize = 0;
    while f < count
        invariant
            count == indices@.len() / 3,
            indices@.len() <= usize::MAX,
            f <= count,
            out@.len() == f,
            forall|j: int|
                0 <= j < out@.len() ==> (#[trigger] out@[j]) == (Face {
                    a: indices@[3 * j],
                    b: indices@[3 * j + 1],
                    c: indices@[3 * j + 2],
                    pad: 0,
                }),
        decreases count - f,
    {
        proof {
            assert(3 * (indices@.len() as int / 3) <= indices@.len());
            assert(3 * (f as int) + 2 < indices@.len());
        }
        out.push(Face { a: indices[3 * f], b: indices[3 * f + 1], c: indices[3 * f + 2], pad: 0 });
        f = f + 1;
    }
    out
}

/// A face with its indices advanced by `off`.
pub open spec fn shift_face(f: Face, off: int) -> Face {
    Face {
        a: (f.a + off) as u32,
        b: (f.b + off) as u32,
        c: (f.c + off) as u32,
        pad: f.pad,
    }
}

/// All positions of a mesh list, in order.
pub open spec fn all_positions(ms: Seq<Mesh>) -> Seq<Vec3I>
    decreases ms.len(),
{
    if ms.len() == 0 {
        Seq::empty()
    } else {
        all_positions(ms.drop_last()) + ms.last().positions@
    }
}

/// All normals of a mesh list, in order.
pub open spec fn all_normals(ms: Seq<Mesh>) -> Seq<Vec3I>
    decreases ms.len(),
{
    if ms.len() == 0 {
        Seq::empty()
    } else {
        all_normals(ms.drop_last()) + ms.last().normals@
    }
}

/// All faces of a mesh list, each mesh's re-based onto the start of its own
/// vertex run in the merged position array.
pub open spec fn all_faces(ms: Seq<Mesh>) -> Seq<Face>
    decreases ms.len(),
{
    if ms.len() == 0 {
        Seq::empty()
    } else {
        all_faces(ms.drop_last()) + Seq::new(
            ms.last().faces@.len(),
            |i: int| shift_face(ms.last().faces@[i], all_positions(ms.drop_last()).len() as int),
        )
    }
}

/// Merges meshes into one: positions and normals concatenate in order, and
/// every face is advanced by the number of positions that precede its mesh,
/// so it indexes the same vertex in the merged array.  The merged mesh is
/// well-formed again.
pub fn merge_meshes(meshes: Vec<Mesh>) -> (r: Mesh)
    requires
        forall|i: int| 0 <= i < meshes@.len() ==> (#[trigger] meshes@[i]).wf(),
        all_positions(meshes@).len() <= u32::MAX as int,
    ensures
        r.positions@ == all_positions(meshes@),
        r.normals@ == all_normals(meshes@),
        r.faces@ == all_faces(meshes@),
        r.wf(),
{
    let ghost ms0 = meshes@;
    let mut meshes = meshes;
    let mut unified = Mesh { positions: Vec::new(), normals: Vec::new(), faces: Vec::new() };
    let mut offset: u32 = 0;
    let ghost mut k: int = 0;
    proof {
        lemma_all_positions_grow(ms0, 0);
    }
    while meshes.len() > 0
        invariant
            0 <= k <= ms0.len(),
            meshes@ == ms0.skip(k),
            forall|i: int| 0 <= i < ms0.len() ==> (#[trigger] ms0[i]).wf(),
            all_positions(ms0).len() <= u32::MAX as int,
            unified.positions@ == all_positions(ms0.take(k)),
            unified.normals@ == all_normals(ms0.take(k)),
            unified.faces@ == all_faces(ms0.take(k)),
            unified.wf(),
            offset as int == all_positions(ms0.take(k)).len(),
        decreases meshes@.len(),
    {
        let mut mesh = meshes.remove(0);
        proof {
            assert(mesh == ms0[k]);
            assert(ms0.take(k + 1).drop_last() =~= ms0.take(k));
            assert(ms0.take(k + 1).last() == ms0[k]);
            lemma_all_positions_grow(ms0, k + 1);
        }
        let ghost mesh0 = mesh;
        let ghost faces0 = unified.faces@;
        let mut j: usize = 0;
        while j < mesh.faces.len()
            invariant
                j <= mesh0.faces@.len(),
                mesh == mesh0,
                mesh0.wf(),
                offset as int + mesh0.positions@.len() <= u32::MAX as int,
                unified.positions@ == all_positions(ms0.take(k)),
                unified.normals@ == all_normals(ms0.take(k)),
                offset as int == all_positions(ms0.take(k)).len(),
                unified.faces@ == faces0 + Seq::new(
                    j as nat,
                    |i: int| shift_face(mesh0.faces@[i], offset as int),
                ),
            decreases mesh0.faces@.len() - j,
        {
            let f = mesh.faces[j];
            unified.faces.push(Face {
                a: f.a + offset,
                b: f.b + offset,
                c: f.c + offset,
                pad: f.pad,
            });
            proof {
                assert(unified.faces@ =~= faces0 + Seq::new(
                    (j + 1) as nat,
                    |i: int| shift_face(mesh0.faces@[i], offset as int),
                ));
            }
            j = j + 1;
        }
        let new_offset = offset + mesh.positions.len() as u32;
        unified.positions.append(&mut mesh.positions);
        unified.normals.append(&mut mesh.normals);
        proof {
            k = k + 1;
            assert(meshes@ =~= ms0.skip(k));
            assert(unified.positions@ =~= all_positions(ms0.take(k)));
            assert(unified.normals@ =~= all_normals(ms0.take(k)));
            assert(unified.faces@ =~= all_faces(ms0.take(k)));
        }
        offset = new_offset;
    }
    proof {
        assert(ms0.take(ms0.len() as int) =~= ms0);
    }
    unified
}

/// The total position count only grows as more meshes are taken, so every
/// per-mesh offset fits whenever the grand total does.
proof fn lemma_all_positions_grow(ms: Seq<Mesh>, k: int)
    requires
        0 <= k <= ms.len(),
    ensures
        all_positions(ms.take(k)).len() <= all_positions(ms).len(),
    decreases ms.len() - k,
{
    if k < ms.len() {
        lemma_all_positions_grow(ms, k + 1);
        assert(ms.take(k + 1).drop_last() =~= ms.take(k));
    } else {
        assert(ms.take(k) =~= ms);
    }
}

/// The triangles a mesh's faces describe, in face order: the inputs to a
/// per-mesh hierarchy build.
pub fn mesh_triangles(mesh: &Mesh) -> (r: Vec<Triangle>)
    requires
        mesh.wf(),
    ensures
        r@.len() == mesh.faces@.len(),
        forall|i: int|
            0 <= i < mesh.faces@.len() ==> (#[trigger] r@[i]) == (Triangle {
                a: mesh.positions@[mesh.faces@[i].a as int],
                b: mesh.positions@[mesh.faces@[i].b as int],
                c: mesh.positions@[mesh.faces@[i].c as int],
            }),
{
    let mut out: Vec<Triangle> = Vec::new();
    let mut i: usize = 0;
    while i < mesh.faces.len()
        invariant
            i <= mesh.faces@.len(),
            mesh.wf(),
            out@.len() == i,
            forall|j: int|
                0 <= j < i ==> (#[trigger] out@[j]) == (Triangle {
                    a: mesh.positions@[mesh.faces@[j].a as int],
                    b: mesh.positions@[mesh.faces@[j].b as int],
                    c: mesh.positions@[mesh.faces@[j].c as int],
                }),
        decreases mesh.faces@.len() - i,
    {
        let f = mesh.faces[i];
        out.push(Triangle {
            a: mesh.positions[f.a as usize],
            b: mesh.positions[f.b as usize],
            c: mesh.positions[f.c as usize],
        });
        i = i + 1;
    }
    out
}

} // verus!
