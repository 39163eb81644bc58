//! Triangle meshes: a list of vertices and triangles that index into it.

use vstd::prelude::*;

verus! {

/// A triangle mesh. Each triangle names three vertices by their position in
/// `vertices`.
pub struct Mesh<V> {
    pub vertices: Vec<V>,
    pub triangles: Vec<(usize, usize, usize)>,
}

/// The corners of the unit cube centred at the origin, each written as the
/// signs of its coordinates: the corner lies at half of these values.
pub open spec fn cube_corners() -> Seq<(i8, i8, i8)> {
    seq![
        (-1i8, -1i8, -1i8),
        (1i8, -1i8, -1i8),
        (1i8, 1i8, -1i8),
        (-1i8, 1i8, -1i8),
        (-1i8, -1i8, 1i8),
        (1i8, -1i8, 1i8),
        (1i8, 1i8, 1i8),
        (-1i8, 1i8, 1i8),
    ]
}

/// The cube's twelve triangles, two per face: front, back, bottom, top, right, left.
pub open spec fn cube_triangles() -> Seq<(usize, usize, usize)> {
    seq![
        (0usize, 1usize, 2usize),
        (0usize, 2usize, 3usize),
        (4usize, 6usize, 5usize),
        (4usize, 7usize, 6usize),
        (0usize, 5usize, 1usize),
        (0usize, 4usize, 5usize),
        (2usize, 7usize, 3usize),
        (2usize, 6usize, 7usize),
        (1usize, 6usize, 2usize),
        (1usize, 5usize, 6usize),
        (0usize, 3usize, 7usize),
        (0usize, 7usize, 4usize),
    ]
}

/// The unit cube centred at the origin, its corners given by the signs of
/// their coordinates (see `cube_corners`).
pub fn cube() -> (m: Mesh<(i8, i8, i8)>)
    ensures
        m.vertices@ == cube_corners(),
        m.triangles@ == cube_triangles(),
{
    let vertices: Vec<(i8, i8, i8)> = vec![
        (-1, -1, -1),
        (1, -1, -1),
        (1, 1, -1),
        (-1, 1, -1),
        (-1, -1, 1),
        (1, -1, 1),
        (1, 1, 1),
        (-1, 1, 1),
    ];
    let triangles: Vec<(usize, usize, usize)> = vec![
        (0, 1, 2),
        (0, 2, 3),
        (4, 6, 5),
        (4, 7, 6),
        (0, 5, 1),
        (0, 4, 5),
        (2, 7, 3),
        (2, 6, 7),
        (1, 6, 2),
        (1, 5, 6),
        (0, 3, 7),
        (0, 7, 4),
    ];
    assert(vertices@ =~= cube_corners());
    assert(triangles@ =~= cube_triangles());
    Mesh { vertices, triangles }
}

/// The cross product of `b - a` and `c - a`: a normal of the triangle `a, b, c`.
pub open spec fn normal(a: (i8, i8, i8), b: (i8, i8, i8), c: (i8, i8, i8)) -> (int, int, int) {
    let (ux, uy, uz) = (b.0 - a.0, b.1 - a.1, b.2 - a.2);
    let (vx, vy, vz) = (c.0 - a.0, c.1 - a.1, c.2 - a.2);
    (uy * vz - uz * vy, uz * vx - ux * vz, ux * vy - uy * vx)
}

/// The triangle `t` of the cube names three of its corners, lies flat on one
/// face, and its normal points into the cube.
pub open spec fn inward_face_triangle(t: (usize, usize, usize)) -> bool {
    let cs = cube_corners();
    &&& t.0 < 8 && t.1 < 8 && t.2 < 8
    &&& {
        let (a, b, c) = (cs[t.0 as int], cs[t.1 as int], cs[t.2 as int]);
        let n = normal(a, b, c);
        &&& (a.0 == b.0 == c.0) || (a.1 == b.1 == c.1) || (a.2 == b.2 == c.2)
        &&& n.0 * a.0 + n.1 * a.1 + n.2 * a.2 < 0
    }
}

/// The cube is well formed and consistently wound: its corners are the eight
/// distinct sign patterns, and every triangle names corners it has, lies flat
/// on one face and has its normal pointing into the cube, so all triangles
/// have the same winding seen from outside.
pub proof fn lemma_cube_well_formed()
    ensures
        cube_corners().len() == 8,
        cube_triangles().len() == 12,
        forall|i: int, j: int|
            0 <= i < j < 8 ==> #[trigger] cube_corners()[i] != #[trigger] cube_corners()[j],
        forall|k: int| 0 <= k < 12 ==> inward_face_triangle(#[trigger] cube_triangles()[k]),
{
    let cs = cube_corners();
    assert forall|i: int, j: int| 0 <= i < j < 8 implies #[trigger] cs[i] != #[trigger] cs[j] by {
        assert(i == 0 || i == 1 || i == 2 || i == 3 || i == 4 || i == 5 || i == 6);
        assert(j == 1 || j == 2 || j == 3 || j == 4 || j == 5 || j == 6 || j == 7);
    }
    let ts = cube_triangles();
    assert(inward_face_triangle(ts[0])) by (nonlinear_arith)
        requires
            ts[0] == (0usize, 1usize, 2usize),
            cs == cube_corners(),
            cs[0] == (-1i8, -1i8, -1i8),
            cs[1] == (1i8, -1i8, -1i8),
            cs[2] == (1i8, 1i8, -1i8),
    ;
    assert(inward_face_triangle(ts[1])) by (nonlinear_arith)
        requires
            ts[1] == (0usize, 2usize, 3usize),
            cs == cube_corners(),
            cs[0] == (-1i8, -1i8, -1i8),
            cs[2] == (1i8, 1i8, -1i8),
            cs[3] == (-1i8, 1i8, -1i8),
    ;
    assert(inward_face_triangle(ts[2])) by (nonlinear_arith)
        requires
            ts[2] == (4usize, 6usize, 5usize),
            cs == cube_corners(),
            cs[4] == (-1i8, -1i8, 1i8),
            cs[6] == (1i8, 1i8, 1i8),
            cs[5] == (1i8, -1i8, 1i8),
    ;
    assert(inward_face_triangle(ts[3])) by (nonlinear_arith)
        requires
            ts[3] == (4usize, 7usize, 6usize),
            cs == cube_corners(),
            cs[4] == (-1i8, -1i8, 1i8),
            cs[7] == (-1i8, 1i8, 1i8),
            cs[6] == (1i8, 1i8, 1i8),
    ;
    assert(inward_face_triangle(ts[4])) by (nonlinear_arith)
        requires
            ts[4] == (0usize, 5usize, 1usize),
            cs == cube_corners(),
            cs[0] == (-1i8, -1i8, -1i8),
            cs[5] == (1i8, -1i8, 1i8),
            cs[1] == (1i8, -1i8, -1i8),
    ;
    assert(inward_face_triangle(ts[5])) by (nonlinear_arith)
        requires
            ts[5] == (0usize, 4usize, 5usize),
            cs == cube_corners(),
            cs[0] == (-1i8, -1i8, -1i8),
            cs[4] == (-1i8, -1i8, 1i8),
            cs[5] == (1i8, -1i8, 1i8),
    ;
    assert(inward_face_triangle(ts[6])) by (nonlinear_arith)
        requires
            ts[6] == (2usize, 7usize, 3usize),
            cs == cube_corners(),
            cs[2] == (1i8, 1i8, -1i8),
            cs[7] == (-1i8, 1i8, 1i8),
            cs[3] == (-1i8, 1i8, -1i8),
    ;
    assert(inward_face_triangle(ts[7])) by (nonlinear_arith)
        requires
            ts[7] == (2usize, 6usize, 7usize),
            cs == cube_corners(),
            cs[2] == (1i8, 1i8, -1i8),
            cs[6] == (1i8, 1i8, 1i8),
            cs[7] == (-1i8, 1i8, 1i8),
    ;
    assert(inward_face_triangle(ts[8])) by (nonlinear_arith)
        requires
            ts[8] == (1usize, 6usize, 2usize),
            cs == cube_corners(),
            cs[1] == (1i8, -1i8, -1i8),
            cs[6] == (1i8, 1i8, 1i8),
            cs[2] == (1i8, 1i8, -1i8),
    ;
    assert(inward_face_triangle(ts[9])) by (nonlinear_arith)
        requires
            ts[9] == (1usize, 5usize, 6usize),
            cs == cube_corners(),
            cs[1] == (1i8, -1i8, -1i8),
            cs[5] == (1i8, -1i8, 1i8),
            cs[6] == (1i8, 1i8, 1i8),
    ;
    assert(inward_face_triangle(ts[10])) by (nonlinear_arith)
        requires
            ts[10] == (0usize, 3usize, 7usize),
            cs == cube_corners(),
            cs[0] == (-1i8, -1i8, -1i8),
            cs[3] == (-1i8, 1i8, -1i8),
            cs[7] == (-1i8, 1i8, 1i8),
    ;
    assert(inward_face_triangle(ts[11])) by (nonlinear_arith)
        requires
            ts[11] == (0usize, 7usize, 4usize),
            cs == cube_corners(),
            cs[0] == (-1i8, -1i8, -1i8),
            cs[7] == (-1i8, 1i8, 1i8),
            cs[4] == (-1i8, -1i8, 1i8),
    ;
    assert forall|k: int| 0 <= k < 12 implies inward_face_triangle(#[trigger] ts[k]) by {
        assert(k == 0 || k == 1 || k == 2 || k == 3 || k == 4 || k == 5 || k == 6 || k == 7 || k == 8
            || k == 9 || k == 10 || k == 11);
    }
}

/// Whether the triangle `t` has the directed edge `u -> v` on its boundary,
/// walked in the triangle's own order.
pub open spec fn has_edge(t: (usize, usize, usize), u: usize, v: usize) -> bool {
    (t.0 == u && t.1 == v) || (t.1 == u && t.2 == v) || (t.2 == u && t.0 == v)
}

/// The cube's surface is closed and consistently oriented: every edge of a
/// triangle is walked the other way by another triangle, and no directed
/// edge belongs to two triangles. So the twelve triangles are distinct, no
/// face has a hole, and every edge joins exactly two triangles.
pub proof fn lemma_cube_closed()
    ensures
        forall|k: int, u: usize, v: usize|
            0 <= k < 12 && #[trigger] has_edge(cube_triangles()[k], u, v) ==> exists|l: int|
                0 <= l < 12 && l != k && #[trigger] has_edge(cube_triangles()[l], v, u),
        forall|k: int, l: int, u: usize, v: usize|
            0 <= k < l < 12 && #[trigger] has_edge(cube_triangles()[k], u, v) ==> !#[trigger] has_edge(
                cube_triangles()[l],
                u,
                v,
            ),
        forall|k: int, l: int|
            0 <= k < l < 12 ==> #[trigger] cube_triangles()[k] != #[trigger] cube_triangles()[l],
{
    let ts = cube_triangles();
    assert forall|k: int, u: usize, v: usize|
        0 <= k < 12 && #[trigger] has_edge(ts[k], u, v) implies exists|l: int|
            0 <= l < 12 && l != k && #[trigger] has_edge(ts[l], v, u) by {
        if k == 0 {
            assert(ts[0] == (0usize, 1usize, 2usize));
            if u == 0 && v == 1 { assert(has_edge(ts[4], v, u)); } else if u == 1 && v == 2 { assert(has_edge(ts[8], v, u)); } else if u == 2 && v == 0 { assert(has_edge(ts[1], v, u)); }
        }
        if k == 1 {
            assert(ts[1] == (0usize, 2usize, 3usize));
            if u == 0 && v == 2 { assert(has_edge(ts[0], v, u)); } else if u == 2 && v == 3 { assert(has_edge(ts[6], v, u)); } else if u == 3 && v == 0 { assert(has_edge(ts[10], v, u)); }
        }
        if k == 2 {
            assert(ts[2] == (4usize, 6usize, 5usize));
            if u == 4 && v == 6 { assert(has_edge(ts[3], v, u)); } else if u == 6 && v == 5 { assert(has_edge(ts[9], v, u)); } else if u == 5 && v == 4 { assert(has_edge(ts[5], v, u)); }
        }
        if k == 3 {
            assert(ts[3] == (4usize, 7usize, 6usize));
            if u == 4 && v == 7 { assert(has_edge(ts[11], v, u)); } else if u == 7 && v == 6 { assert(has_edge(ts[7], v, u)); } else if u == 6 && v == 4 { assert(has_edge(ts[2], v, u)); }
        }
        if k == 4 {
            assert(ts[4] == (0usize, 5usize, 1usize));
            if u == 0 && v == 5 { assert(has_edge(ts[5], v, u)); } else if u == 5 && v == 1 { assert(has_edge(ts[9], v, u)); } else if u == 1 && v == 0 { assert(has_edge(ts[0], v, u)); }
        }
        if k == 5 {
            assert(ts[5] == (0usize, 4usize, 5usize));
            if u == 0 && v == 4 { assert(has_edge(ts[11], v, u)); } else if u == 4 && v == 5 { assert(has_edge(ts[2], v, u)); } else if u == 5 && v == 0 { assert(has_edge(ts[4], v, u)); }
        }
        if k == 6 {
            assert(ts[6] == (2usize, 7usize, 3usize));
            if u == 2 && v == 7 { assert(has_edge(ts[7], v, u)); } else if u == 7 && v == 3 { assert(has_edge(ts[10], v, u)); } else if u == 3 && v == 2 { assert(has_edge(ts[1], v, u)); }
        }
        if k == 7 {
            assert(ts[7] == (2usize, 6usize, 7usize));
            if u == 2 && v == 6 { assert(has_edge(ts[8], v, u)); } else if u == 6 && v == 7 { assert(has_edge(ts[3], v, u)); } else if u == 7 && v == 2 { assert(has_edge(ts[6], v, u)); }
        }
        if k == 8 {
            assert(ts[8] == (1usize, 6usize, 2usize));
            if u == 1 && v == 6 { assert(has_edge(ts[9], v, u)); } else if u == 6 && v == 2 { assert(has_edge(ts[7], v, u)); } else if u == 2 && v == 1 { assert(has_edge(ts[0], v, u)); }
        }
        if k == 9 {
            assert(ts[9] == (1usize, 5usize, 6usize));
            if u == 1 && v == 5 { assert(has_edge(ts[4], v, u)); } else if u == 5 && v == 6 { assert(has_edge(ts[2], v, u)); } else if u == 6 && v == 1 { assert(has_edge(ts[8], v, u)); }
        }
        if k == 10 {
            assert(ts[10] == (0usize, 3usize, 7usize));
            if u == 0 && v == 3 { assert(has_edge(ts[1], v, u)); } else if u == 3 && v == 7 { assert(has_edge(ts[6], v, u)); } else if u == 7 && v == 0 { assert(has_edge(ts[11], v, u)); }
        }
        if k == 11 {
            assert(ts[11] == (0usize, 7usize, 4usize));
            if u == 0 && v == 7 { assert(has_edge(ts[10], v, u)); } else if u == 7 && v == 4 { assert(has_edge(ts[3], v, u)); } else if u == 4 && v == 0 { assert(has_edge(ts[5], v, u)); }
        }
    }
    assert forall|k: int, l: int, u: usize, v: usize|
        0 <= k < l < 12 && #[trigger] has_edge(ts[k], u, v) implies !#[trigger] has_edge(ts[l], u, v) by {
        assert(k == 0 || k == 1 || k == 2 || k == 3 || k == 4 || k == 5 || k == 6 || k == 7 || k == 8
            || k == 9 || k == 10 || k == 11);
        assert(l == 1 || l == 2 || l == 3 || l == 4 || l == 5 || l == 6 || l == 7 || l == 8 || l == 9
            || l == 10 || l == 11);
    }
    assert forall|k: int, l: int| 0 <= k < l < 12 implies #[trigger] ts[k] != #[trigger] ts[l] by {
        assert(k == 0 || k == 1 || k == 2 || k == 3 || k == 4 || k == 5 || k == 6 || k == 7 || k == 8
            || k == 9 || k == 10 || k == 11);
        assert(l == 1 || l == 2 || l == 3 || l == 4 || l == 5 || l == 6 || l == 7 || l == 8 || l == 9
            || l == 10 || l == 11);
    }
}

} // verus!
