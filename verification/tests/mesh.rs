use rasterizer::mesh::cube;

#[test]
fn cube_has_eight_corners_and_twelve_triangles() {
    let m = cube();
    assert_eq!(m.vertices.len(), 8);
    assert_eq!(m.triangles.len(), 12);
    assert_eq!(m.vertices[0], (-1, -1, -1));
    assert_eq!(m.vertices[6], (1, 1, 1));
    assert_eq!(m.triangles[0], (0, 1, 2));
    assert_eq!(m.triangles[11], (0, 7, 4));
}

#[test]
fn cube_triangles_face_inward() {
    let m = cube();
    for &(a, b, c) in &m.triangles {
        assert!(a < 8 && b < 8 && c < 8);
        let (pa, pb, pc) = (m.vertices[a], m.vertices[b], m.vertices[c]);
        let u = (pb.0 - pa.0, pb.1 - pa.1, pb.2 - pa.2);
        let v = (pc.0 - pa.0, pc.1 - pa.1, pc.2 - pa.2);
        let n = (u.1 * v.2 - u.2 * v.1, u.2 * v.0 - u.0 * v.2, u.0 * v.1 - u.1 * v.0);
        assert!(n.0 * pa.0 + n.1 * pa.1 + n.2 * pa.2 < 0);
    }
}
