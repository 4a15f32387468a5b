use rael_obj::mesh::Face;
use rael_obj::mesh::MeshError;
use rael_obj::mesh::collect_faces;

#[test]
fn groups_indices_in_threes() {
    let indices = vec![0usize, 1, 2, 2, 3, 0];
    let faces = collect_faces(&indices, 4).unwrap();
    assert_eq!(faces.len(), 2);
    assert_eq!(faces[0], Face { a: 0, b: 1, c: 2 });
    assert_eq!(faces[1], Face { a: 2, b: 3, c: 0 });
}

#[test]
fn incomplete_trailing_group_is_skipped() {
    let indices = vec![0usize, 1, 2, 2, 3, 0, 3];
    let faces = collect_faces(&indices, 4).unwrap();
    assert_eq!(faces.len(), 2);
    assert_eq!(faces[1], Face { a: 2, b: 3, c: 0 });
}

#[test]
fn empty_index_list_yields_no_faces() {
    let faces = collect_faces(&Vec::new(), 0).unwrap();
    assert!(faces.is_empty());
}

#[test]
fn out_of_range_index_rejects_the_mesh() {
    let indices = vec![0usize, 1, 2, 2, 4, 0];
    assert_eq!(collect_faces(&indices, 4), Err(MeshError::InvalidMesh));
}

#[test]
fn index_at_vertex_count_boundary() {
    let indices = vec![0usize, 1, 3];
    assert_eq!(collect_faces(&indices, 4).unwrap().len(), 1);
    assert_eq!(collect_faces(&indices, 3), Err(MeshError::InvalidMesh));
}

#[test]
fn out_of_range_index_in_trailing_group_is_ignored() {
    let indices = vec![0usize, 1, 2, 99];
    let faces = collect_faces(&indices, 3).unwrap();
    assert_eq!(faces.len(), 1);
}
