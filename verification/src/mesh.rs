//! Face-index validation for a triangle mesh.
//!
//! A mesh's index list is read in groups of three; an incomplete trailing
//! group is skipped, never rendered. Every index of a complete face must
//! refer to a loaded vertex: an out-of-range index is corrupt geometry and
//! fails the whole operation instead of being skipped silently.

use vstd::prelude::*;

verus! {

/// One triangle of the mesh: three indices into the vertex list.
#[derive(Clone, Copy, Debug, PartialEq, Eq, Structural)]
pub struct Face {
    pub a: usize,
    pub b: usize,
    pub c: usize,
}

/// Corrupt input geometry; the frame is not rendered.
#[derive(Clone, Copy, Debug, PartialEq, Eq, Structural)]
pub enum MeshError {
    /// A face refers to a vertex index at or beyond the vertex count.
    InvalidMesh,
}

/// How many complete faces the index list holds.
pub open spec fn face_count(indices: Seq<usize>) -> int {
    indices.len() as int / 3
}

/// The `k`-th complete face of the index list.
pub open spec fn face_of(indices: Seq<usize>, k: int) -> Face {
    Face { a: indices[3 * k], b: indices[3 * k + 1], c: indices[3 * k + 2] }
}

/// Whether every complete face refers only to loaded vertices.
pub open spec fn faces_valid(indices: Seq<usize>, vertex_count: int) -> bool {
    forall|k: int|
        0 <= k < face_count(indices) ==> {
            let f = #[trigger] face_of(indices, k);
            f.a < vertex_count && f.b < vertex_count && f.c < vertex_count
        }
}

/// Groups the index list into complete faces, dropping an incomplete
/// trailing group. Succeeds exactly when every complete face refers only to
/// vertices below `vertex_count`; otherwise the whole mesh is rejected.
#[verifier::loop_isolation(false)]
pub fn collect_faces(indices: &Vec<usize>, vertex_count: usize) -> (r: Result<
    Vec<Face>,
    MeshError,
>)
    ensures
        r is Ok <==> faces_valid(indices@, vertex_count as int),
        r matches Ok(faces) ==> {
            &&& faces@.len() == face_count(indices@)
            &&& forall|k: int| 0 <= k < faces@.len() ==> #[trigger] faces@[k] == face_of(indices@, k)
        },
        r matches Err(e) ==> e == MeshError::InvalidMesh,
{
    let n = indices.len();
    let nf = n / 3;
    let mut faces: Vec<Face> = Vec::new();
    let mut k: usize = 0;
    while k < nf
        invariant
            k <= nf,
            faces@.len() == k,
            forall|j: int|
                0 <= j < k ==> {
                    let f = #[trigger] faces@[j];
                    &&& f == face_of(indices@, j)
                    &&& f.a < vertex_count
                    &&& f.b < vertex_count
                    &&& f.c < vertex_count
                },
        decreases nf - k,
    {
        let a = indices[3 * k];
        let b = indices[3 * k + 1];
        let c = indices[3 * k + 2];
        if a >= vertex_count || b >= vertex_count || c >= vertex_count {
            assert(face_of(indices@, k as int).a == a && face_of(indices@, k as int).b == b
                && face_of(indices@, k as int).c == c);
            return Err(MeshError::InvalidMesh);
        }
        faces.push(Face { a, b, c });
        k = k + 1;
    }
    assert forall|j: int| 0 <= j < face_count(indices@) implies {
        let f = #[trigger] face_of(indices@, j);
        f.a < vertex_count && f.b < vertex_count && f.c < vertex_count
    } by {
        assert(faces@[j] == face_of(indices@, j));
    }
    Ok(faces)
}

} // verus!
