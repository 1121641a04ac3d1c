use rustyray::mesh::{select_faces, FaceIndices, MESH_FACE_LIMIT, VERTEX_MARKER_LIMIT};

fn face(a: usize, b: usize, c: usize) -> FaceIndices {
    FaceIndices { a, b, c }
}

#[test]
fn takes_at_most_the_limit() {
    let faces: Vec<FaceIndices> = (0..200).map(|k| face(k % 3, (k + 1) % 3, (k + 2) % 3)).collect();
    let taken = select_faces(&faces, 3, MESH_FACE_LIMIT).unwrap();
    assert_eq!(taken.len(), 128);
    assert_eq!(&taken[..], &faces[..128]);
    assert_eq!(VERTEX_MARKER_LIMIT, 8);
}

#[test]
fn takes_all_of_a_small_mesh() {
    let faces = vec![face(0, 1, 2), face(2, 3, 0)];
    assert_eq!(select_faces(&faces, 4, MESH_FACE_LIMIT), Some(faces.clone()));
}

#[test]
fn bad_vertex_index_is_refused() {
    let faces = vec![face(0, 1, 2), face(2, 4, 0)];
    assert_eq!(select_faces(&faces, 4, MESH_FACE_LIMIT), None);
}

#[test]
fn bad_face_past_the_limit_is_not_looked_at() {
    let faces = vec![face(0, 1, 2), face(9, 9, 9)];
    assert_eq!(select_faces(&faces, 3, 1), Some(vec![face(0, 1, 2)]));
}
