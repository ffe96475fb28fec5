use tracer_core::aabb::{AABB, Vec3I};
use tracer_core::blas::BLAS;
use tracer_core::mesh::{faces_from_indices, merge_meshes, mesh_triangles, Face, Mesh};

fn v(x: i32, y: i32, z: i32) -> Vec3I {
    Vec3I { x, y, z }
}

fn face(a: u32, b: u32, c: u32) -> Face {
    Face { a, b, c, pad: 0 }
}

#[test]
fn indices_chunk_into_padded_faces() {
    let indices = vec![0u32, 1, 2, 2, 3, 0, 9];
    let faces = faces_from_indices(&indices);
    assert_eq!(faces, vec![face(0, 1, 2), face(2, 3, 0)]);
    assert_eq!(faces_from_indices(&vec![]), vec![]);
    // Fewer than three indices make no face.
    assert_eq!(faces_from_indices(&vec![4u32, 5]), vec![]);
}

#[test]
fn merging_rebases_faces_onto_the_unified_vertices() {
    let m1 = Mesh {
        positions: vec![v(0, 0, 0), v(1, 0, 0), v(0, 1, 0)],
        normals: vec![v(0, 0, 1); 3],
        faces: vec![face(0, 1, 2)],
    };
    let m2 = Mesh {
        positions: vec![v(5, 0, 0), v(6, 0, 0), v(5, 1, 0)],
        normals: vec![v(0, 1, 0); 3],
        faces: vec![face(0, 2, 1)],
    };
    let unified = merge_meshes(vec![m1, m2]);
    assert_eq!(unified.positions.len(), 6);
    assert_eq!(unified.positions[3], v(5, 0, 0));
    assert_eq!(unified.normals[0], v(0, 0, 1));
    assert_eq!(unified.normals[5], v(0, 1, 0));
    // The second mesh's face now points past the first mesh's vertices.
    assert_eq!(unified.faces, vec![face(0, 1, 2), face(3, 5, 4)]);
}

#[test]
fn merged_triangles_feed_a_hierarchy() {
    let m1 = Mesh {
        positions: vec![v(0, 0, 0), v(2, 0, 0), v(0, 2, 0)],
        normals: vec![v(0, 0, 1); 3],
        faces: vec![face(0, 1, 2)],
    };
    let m2 = Mesh {
        positions: vec![v(10, 0, 0), v(12, 0, 0), v(10, 2, 0)],
        normals: vec![v(0, 0, 1); 3],
        faces: vec![face(0, 1, 2)],
    };
    let unified = merge_meshes(vec![m1, m2]);
    let triangles = mesh_triangles(&unified);
    assert_eq!(triangles.len(), 2);
    assert_eq!(triangles[1].a, v(10, 0, 0));
    let blas = BLAS::new(triangles);
    assert_eq!(
        blas.root_bounds(),
        AABB { lb: v(0, 0, 0), ub: v(12, 2, 0) },
    );
}
