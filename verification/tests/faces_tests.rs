use robo_sim4::faces::{face_edges, faces_are_polygons};

#[test]
fn cube_faces_are_polygons() {
    let faces = vec![vec![0, 1, 5, 4], vec![4, 5, 6, 7], vec![6, 7, 3, 2]];
    assert!(faces_are_polygons(&faces));
    assert!(faces_are_polygons(&vec![]));
}

#[test]
fn a_face_with_two_corners_is_no_polygon() {
    assert!(!faces_are_polygons(&vec![vec![0, 1, 2], vec![3, 4]]));
}

#[test]
fn edges_go_round_and_repeat_the_first() {
    assert_eq!(face_edges(&vec![0, 1, 5, 4]), vec![(0, 1), (1, 5), (5, 4), (4, 0), (0, 1)]);
    assert_eq!(face_edges(&vec![7]), vec![(7, 7), (7, 7)]);
}
