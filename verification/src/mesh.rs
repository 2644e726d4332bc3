//! Triangle meshes as a loader hands them over: one flat array of vertex
//! coordinates, three for each vertex, and one of vertex numbers, three for each
//! triangle.

use vstd::prelude::*;

verus! {

/// Why no mesh could be made of the arrays.
#[derive(Clone, Copy, Debug, PartialEq, Eq, Structural)]
pub enum MeshError {
    /// A triangle names a vertex whose coordinates the array does not hold.
    MissingVertex,
}

/// The number of whole triangles that the vertex numbers describe.
pub open spec fn triangle_count(indices: Seq<u32>) -> int {
    (indices.len() as int) / 3
}

/// The array holds all three coordinates of the vertex.
pub open spec fn has_vertex(vertex: u32, coordinates: int) -> bool {
    vertex * 3 + 3 <= coordinates
}

/// Every corner of every whole triangle is a vertex that the array holds.
pub open spec fn all_vertices_present(indices: Seq<u32>, coordinates: int) -> bool {
    forall|k: int| 0 <= k < 3 * triangle_count(indices) ==> has_vertex(#[trigger] indices[k], coordinates)
}

/// The three coordinates of a vertex.
pub open spec fn vertex_at<T>(positions: Seq<T>, vertex: u32) -> (T, T, T) {
    (positions[vertex * 3], positions[vertex * 3 + 1], positions[vertex * 3 + 2])
}

fn corner_of<T: Copy>(positions: &Vec<T>, vertex: u32) -> (corner: (T, T, T))
    requires
        has_vertex(vertex, positions@.len() as int),
    ensures
        corner == vertex_at(positions@, vertex),
{
    let held: usize = positions.len();
    let first: usize = (vertex as u64 * 3) as usize;
    assert(first + 2 < held);
    (positions[first], positions[first + 1], positions[first + 2])
}

/// The triangles of a mesh, each as the coordinates of its three corners, in
/// the order of the vertex numbers. Vertex numbers behind the last whole
/// triangle are not read. The coordinates are only moved, never read, so any
/// kind of number will do.
pub fn triangles<T: Copy>(positions: &Vec<T>, indices: &Vec<u32>) -> (corners: Result<
    Vec<((T, T, T), (T, T, T), (T, T, T))>,
    MeshError,
>)
    ensures
        match corners {
            Ok(faces) => {
                &&& all_vertices_present(indices@, positions@.len() as int)
                &&& faces@.len() == triangle_count(indices@)
                &&& forall|f: int|
                    0 <= f < faces@.len() ==> (#[trigger] faces@[f]) == (
                        vertex_at(positions@, indices@[3 * f]),
                        vertex_at(positions@, indices@[3 * f + 1]),
                        vertex_at(positions@, indices@[3 * f + 2]),
                    )
            },
            Err(_) => !all_vertices_present(indices@, positions@.len() as int),
        },
{
    let number_of_triangles: usize = indices.len() / 3;
    let limit: u64 = positions.len() as u64;
    let mut faces: Vec<((T, T, T), (T, T, T), (T, T, T))> = Vec::new();
    let mut face_idx: usize = 0;
    while face_idx < number_of_triangles
        invariant
            face_idx <= number_of_triangles,
            number_of_triangles == triangle_count(indices@),
            3 * number_of_triangles <= indices@.len() <= usize::MAX,
            limit == positions@.len(),
            faces@.len() == face_idx,
            forall|k: int|
                0 <= k < 3 * face_idx ==> has_vertex(
                    #[trigger] indices@[k],
                    positions@.len() as int,
                ),
            forall|f: int|
                0 <= f < face_idx ==> (#[trigger] faces@[f]) == (
                    vertex_at(positions@, indices@[3 * f]),
                    vertex_at(positions@, indices@[3 * f + 1]),
                    vertex_at(positions@, indices@[3 * f + 2]),
                ),
        decreases number_of_triangles - face_idx,
    {
        let offset: usize = face_idx * 3;
        let a: u32 = indices[offset];
        let b: u32 = indices[offset + 1];
        let c: u32 = indices[offset + 2];
        if a as u64 * 3 + 3 > limit || b as u64 * 3 + 3 > limit || c as u64 * 3 + 3 > limit {
            return Err(MeshError::MissingVertex);
        }
        faces.push((corner_of(positions, a), corner_of(positions, b), corner_of(positions, c)));
        face_idx += 1;
    }
    Ok(faces)
}

} // verus!
