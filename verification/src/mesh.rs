use vstd::prelude::*;

verus! {

/// How many faces of a mesh file are turned into triangles of the scene.
pub const MESH_FACE_LIMIT: usize = 128;

/// How many vertices of a mesh file are marked with a small sphere.
pub const VERTEX_MARKER_LIMIT: usize = 8;

/// The three vertex indices of a face of an indexed mesh.
#[derive(Debug, Clone, Copy, PartialEq, Eq)]
pub struct FaceIndices {
    pub a: usize,
    pub b: usize,
    pub c: usize,
}

/// Whether all three corners of a face name a vertex of the mesh.
pub open spec fn face_in_range(f: FaceIndices, n_vertices: int) -> bool {
    f.a < n_vertices && f.b < n_vertices && f.c < n_vertices
}

/// The number of faces taken from a mesh of `len` faces.
pub open spec fn taken(len: int, limit: int) -> int {
    if len < limit { len } else { limit }
}

/// The faces of a mesh that become triangles: the first `limit` of them (all
/// of them when there are fewer). The result is `None` exactly when one of
/// these faces names a vertex that the mesh does not have; faces past the
/// limit are not looked at.
pub fn select_faces(faces: &Vec<FaceIndices>, n_vertices: usize, limit: usize)
    -> (r: Option<Vec<FaceIndices>>)
    ensures
        r is Some <==> forall|k: int| 0 <= k < taken(faces@.len() as int, limit as int)
            ==> face_in_range(#[trigger] faces@[k], n_vertices as int),
        r matches Some(v) ==> v@ == faces@.take(taken(faces@.len() as int, limit as int)),
{
    let n: usize = if faces.len() < limit { faces.len() } else { limit };
    let mut out: Vec<FaceIndices> = Vec::new();
    let mut k: usize = 0;
    while k < n
        invariant
            n == taken(faces@.len() as int, limit as int),
            k <= n,
            out@ == faces@.take(k as int),
            forall|q: int| 0 <= q < k ==> face_in_range(#[trigger] faces@[q], n_vertices as int),
        decreases n - k,
    {
        let f = faces[k];
        if f.a >= n_vertices || f.b >= n_vertices || f.c >= n_vertices {
            return None;
        }
        out.push(f);
        assert(out@ =~= faces@.take(k + 1));
        k = k + 1;
    }
    Some(out)
}

} // verus!
