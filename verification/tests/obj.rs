use rasterizer::mesh::Mesh;
use rasterizer::obj::{ObjError, ObjVertex};

fn read(text: &str) -> Result<Mesh<ObjVertex>, ObjError> {
    Mesh::from_obj_text(text)
}

fn coords(m: &Mesh<ObjVertex>) -> Vec<(String, String, String)> {
    m.vertices.iter().map(|v| (v.x.clone(), v.y.clone(), v.z.clone())).collect()
}

#[test]
fn reads_vertices_and_triangles() {
    let m = read("v 0 0 0\nv 1.5 0 0\nv 0 -2 3e1\nf 1 2 3\n").unwrap();
    assert_eq!(
        coords(&m),
        vec![
            ("0".to_string(), "0".to_string(), "0".to_string()),
            ("1.5".to_string(), "0".to_string(), "0".to_string()),
            ("0".to_string(), "-2".to_string(), "3e1".to_string()),
        ]
    );
    assert_eq!(m.triangles, vec![(0, 1, 2)]);
}

#[test]
fn empty_text_is_an_empty_mesh() {
    let m = read("").unwrap();
    assert!(m.vertices.is_empty());
    assert!(m.triangles.is_empty());
}

#[test]
fn quad_becomes_two_triangles() {
    let m = read("f 1 2 3 4").unwrap();
    assert_eq!(m.triangles, vec![(0, 1, 2), (0, 2, 3)]);
}

#[test]
fn long_face_keeps_first_triangle_only() {
    let m = read("f 1 2 3 4 5\nf 1 2 3 x y").unwrap();
    assert_eq!(m.triangles, vec![(0, 1, 2), (0, 1, 2)]);
}

#[test]
fn slashes_and_signs_in_references() {
    let m = read("f 1/1/1 +2//7 3/4\nf 10/ 20 30").unwrap();
    assert_eq!(m.triangles, vec![(0, 1, 2), (9, 19, 29)]);
}

#[test]
fn other_and_short_lines_are_skipped() {
    let text = "# a comment\nvn 0 0 1\nvt 0 0\nv 1 2\nf 1 2\no name\ns off\n\n   \nv\tx\ty  z   w\n";
    let m = read(text).unwrap();
    assert_eq!(coords(&m), vec![("x".to_string(), "y".to_string(), "z".to_string())]);
    assert!(m.triangles.is_empty());
}

#[test]
fn crlf_line_endings() {
    let m = read("v 1 2 3\r\nf 1 2 3\r\nf 3 2 1 4\r\n").unwrap();
    assert_eq!(coords(&m), vec![("1".to_string(), "2".to_string(), "3".to_string())]);
    assert_eq!(m.triangles, vec![(0, 1, 2), (2, 1, 0), (2, 0, 3)]);
}

#[test]
fn unicode_white_space_separates_words() {
    let m = read("f\u{a0}1\u{3000}2\u{2009}3").unwrap();
    assert_eq!(m.triangles, vec![(0, 1, 2)]);
}

#[test]
fn zero_index_is_refused() {
    assert_eq!(read("v 0 0 0\nf 0 1 2").err(), Some(ObjError::ZeroIndex));
    assert_eq!(read("f 1 2 3 0").err(), Some(ObjError::ZeroIndex));
}

#[test]
fn bad_index_is_refused() {
    assert_eq!(read("f a 1 2").err(), Some(ObjError::InvalidIndex));
    assert_eq!(read("f 1 2 3 x").err(), Some(ObjError::InvalidIndex));
    assert_eq!(read("f 1 -2 3").err(), Some(ObjError::InvalidIndex));
    assert_eq!(read("f + 2 3").err(), Some(ObjError::InvalidIndex));
    assert_eq!(read("f /1 2 3").err(), Some(ObjError::InvalidIndex));
    assert_eq!(read("f 1 2 99999999999999999999999").err(), Some(ObjError::InvalidIndex));
}

#[test]
fn first_bad_reference_decides_the_error() {
    assert_eq!(read("f 0 x 1").err(), Some(ObjError::ZeroIndex));
    assert_eq!(read("f x 0 1").err(), Some(ObjError::InvalidIndex));
    assert_eq!(read("f 1 2 3\nf 0 1 2\nf x 1 2").err(), Some(ObjError::ZeroIndex));
}

#[test]
fn largest_index_is_accepted() {
    let text = format!("f {} 1 2", usize::MAX);
    let m = read(&text).unwrap();
    assert_eq!(m.triangles, vec![(usize::MAX - 1, 0, 1)]);
}

#[test]
fn lines_compose() {
    let a = "v 1 2 3\nf 1 2 3";
    let b = "f 2 3 4 5\nv 4 5 6";
    let whole = read(&format!("{}\n{}", a, b)).unwrap();
    let first = read(a).unwrap();
    let second = read(b).unwrap();
    let mut vs = coords(&first);
    vs.extend(coords(&second));
    assert_eq!(coords(&whole), vs);
    let mut ts = first.triangles.clone();
    ts.extend(second.triangles.iter().copied());
    assert_eq!(whole.triangles, ts);
}
