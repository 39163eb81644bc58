//! The geometry of a screen-space triangle: edge functions, the pixels a
//! filled triangle covers, and why a scan of its bounding box finds them all.

use vstd::prelude::*;

use crate::rasterizer::on_screen;

verus! {

/// The edge function of the directed edge `a -> b` at the point `c`: twice the
/// signed area of the triangle `a, b, c`, positive on one side of the line
/// through `a` and `b`, negative on the other and zero on it.
pub open spec fn edge(ax: int, ay: int, bx: int, by: int, cx: int, cy: int) -> int {
    (cx - ax) * (by - ay) - (cy - ay) * (bx - ax)
}

/// Twice the signed area of the triangle `p0, p1, p2`.
pub open spec fn area2(p0: (i32, i32), p1: (i32, i32), p2: (i32, i32)) -> int {
    edge(p0.0 as int, p0.1 as int, p1.0 as int, p1.1 as int, p2.0 as int, p2.1 as int)
}

/// The weight of `p0` at the pixel `(x, y)`: the edge function of `p1 -> p2`.
pub open spec fn weight0(p0: (i32, i32), p1: (i32, i32), p2: (i32, i32), x: int, y: int) -> int {
    edge(p1.0 as int, p1.1 as int, p2.0 as int, p2.1 as int, x, y)
}

/// The weight of `p1` at the pixel `(x, y)`: the edge function of `p2 -> p0`.
pub open spec fn weight1(p0: (i32, i32), p1: (i32, i32), p2: (i32, i32), x: int, y: int) -> int {
    edge(p2.0 as int, p2.1 as int, p0.0 as int, p0.1 as int, x, y)
}

/// The weight of `p2` at the pixel `(x, y)`: the edge function of `p0 -> p1`.
pub open spec fn weight2(p0: (i32, i32), p1: (i32, i32), p2: (i32, i32), x: int, y: int) -> int {
    edge(p0.0 as int, p0.1 as int, p1.0 as int, p1.1 as int, x, y)
}

/// Three weights that are all of one sign (zero counts as either): the point
/// lies inside the triangle or on its border, whatever the triangle's winding.
pub open spec fn same_sign(w0: int, w1: int, w2: int) -> bool {
    (w0 >= 0 && w1 >= 0 && w2 >= 0) || (w0 <= 0 && w1 <= 0 && w2 <= 0)
}

/// The pixel `(x, y)` lies inside the triangle or on its border.
pub open spec fn covers(p0: (i32, i32), p1: (i32, i32), p2: (i32, i32), x: int, y: int) -> bool {
    same_sign(weight0(p0, p1, p2, x, y), weight1(p0, p1, p2, x, y), weight2(p0, p1, p2, x, y))
}

pub open spec fn min3(a: int, b: int, c: int) -> int {
    if a <= b && a <= c { a } else if b <= c { b } else { c }
}

pub open spec fn max3(a: int, b: int, c: int) -> int {
    if a >= b && a >= c { a } else if b >= c { b } else { c }
}

/// The triangle's bounding box, clipped to a screen of side `size`, holds `(x, y)`.
pub open spec fn in_clipped_box(size: int, p0: (i32, i32), p1: (i32, i32), p2: (i32, i32), x: int, y: int) -> bool {
    &&& 0 <= x < size
    &&& 0 <= y < size
    &&& min3(p0.0 as int, p1.0 as int, p2.0 as int) <= x <= max3(p0.0 as int, p1.0 as int, p2.0 as int)
    &&& min3(p0.1 as int, p1.1 as int, p2.1 as int) <= y <= max3(p0.1 as int, p1.1 as int, p2.1 as int)
}

/// The pixel `(x, y)` belongs to the filled triangle `p0, p1, p2` on a screen of
/// side `size`: the triangle is not degenerate, and the pixel is on the screen
/// and inside the triangle or on its border.
pub open spec fn drawn(size: int, p0: (i32, i32), p1: (i32, i32), p2: (i32, i32), x: int, y: int) -> bool {
    &&& area2(p0, p1, p2) != 0
    &&& on_screen(size, x, y)
    &&& covers(p0, p1, p2, x, y)
}

proof fn lemma_expand(a: int, b: int, c: int, d: int)
    ensures
        (a - b) * (c - d) == a * c - a * d - b * c + b * d,
{
    assert((a - b) * (c - d) == a * c - a * d - b * c + b * d) by (nonlinear_arith);
}

/// The edge function expanded into a sum of products.
proof fn lemma_edge_expand(ax: int, ay: int, bx: int, by: int, cx: int, cy: int)
    ensures
        edge(ax, ay, bx, by, cx, cy) == cx * by - cx * ay - ax * by + ax * ay - (cy * bx - cy * ax - ay * bx
            + ay * ax),
{
    lemma_expand(cx, ax, by, ay);
    lemma_expand(cy, ay, bx, ax);
}

/// The three weights of a pixel add up to twice the triangle's area.
pub proof fn lemma_weights_sum(p0: (i32, i32), p1: (i32, i32), p2: (i32, i32), x: int, y: int)
    ensures
        weight0(p0, p1, p2, x, y) + weight1(p0, p1, p2, x, y) + weight2(p0, p1, p2, x, y)
            == area2(p0, p1, p2),
{
    let (x0, y0, x1, y1, x2, y2) = (p0.0 as int, p0.1 as int, p1.0 as int, p1.1 as int, p2.0 as int, p2.1 as int);
    lemma_edge_expand(x1, y1, x2, y2, x, y);
    lemma_edge_expand(x2, y2, x0, y0, x, y);
    lemma_edge_expand(x0, y0, x1, y1, x, y);
    lemma_edge_expand(x0, y0, x1, y1, x2, y2);
    assert(x * y2 == y2 * x) by (nonlinear_arith);
    assert(x * y1 == y1 * x) by (nonlinear_arith);
    assert(x * y0 == y0 * x) by (nonlinear_arith);
    assert(x1 * y0 == y0 * x1) by (nonlinear_arith);
    assert(x2 * y1 == y1 * x2) by (nonlinear_arith);
    assert(x0 * y2 == y2 * x0) by (nonlinear_arith);
    assert(x1 * y2 == y2 * x1) by (nonlinear_arith);
    assert(x2 * y0 == y0 * x2) by (nonlinear_arith);
    assert(x0 * y1 == y1 * x0) by (nonlinear_arith);
}

/// The weights in coordinates relative to `p0`.
proof fn lemma_weights_relative(p0: (i32, i32), p1: (i32, i32), p2: (i32, i32), x: int, y: int)
    ensures
        weight1(p0, p1, p2, x, y) == (p2.0 - p0.0) * (y - p0.1) - (x - p0.0) * (p2.1 - p0.1),
        weight2(p0, p1, p2, x, y) == (x - p0.0) * (p1.1 - p0.1) - (y - p0.1) * (p1.0 - p0.0),
        area2(p0, p1, p2) == (p2.0 - p0.0) * (p1.1 - p0.1) - (p2.1 - p0.1) * (p1.0 - p0.0),
{
    let (x0, y0, x2, y2) = (p0.0 as int, p0.1 as int, p2.0 as int, p2.1 as int);
    let (u, v, c, d) = (x - x0, y - y0, x2 - x0, y2 - y0);
    assert((x - x2) * (y0 - y2) - (y - y2) * (x0 - x2) == c * v - u * d) by (nonlinear_arith)
        requires
            u == x - x0,
            v == y - y0,
            c == x2 - x0,
            d == y2 - y0,
    ;
}

/// The weights are the pixel's barycentric coordinates, scaled by twice the area.
pub proof fn lemma_weights_barycentric(p0: (i32, i32), p1: (i32, i32), p2: (i32, i32), x: int, y: int)
    ensures
        weight1(p0, p1, p2, x, y) * (p1.0 - p0.0) + weight2(p0, p1, p2, x, y) * (p2.0 - p0.0)
            == (x - p0.0) * area2(p0, p1, p2),
        weight1(p0, p1, p2, x, y) * (p1.1 - p0.1) + weight2(p0, p1, p2, x, y) * (p2.1 - p0.1)
            == (y - p0.1) * area2(p0, p1, p2),
{
    lemma_weights_relative(p0, p1, p2, x, y);
    let (a, b, c, d) = (p1.0 - p0.0, p1.1 - p0.1, p2.0 - p0.0, p2.1 - p0.1);
    let (u, v) = (x - p0.0, y - p0.1);
    assert((c * v - u * d) * a + (u * b - v * a) * c == u * (c * b - d * a)) by (nonlinear_arith);
    assert((c * v - u * d) * b + (u * b - v * a) * d == v * (c * b - d * a)) by (nonlinear_arith);
}

/// A convex combination of values at most `m` is at most `m`.
proof fn lemma_convex_upper(x: int, x0: int, x1: int, x2: int, w0: int, w1: int, w2: int, a: int, m: int)
    requires
        w1 * (x1 - x0) + w2 * (x2 - x0) == (x - x0) * a,
        w0 + w1 + w2 == a,
        a > 0,
        w0 >= 0,
        w1 >= 0,
        w2 >= 0,
        x0 <= m,
        x1 <= m,
        x2 <= m,
    ensures
        x <= m,
{
    assert(w1 * (x1 - x0) <= w1 * (m - x0)) by (nonlinear_arith)
        requires
            w1 >= 0,
            x1 <= m,
    ;
    assert(w2 * (x2 - x0) <= w2 * (m - x0)) by (nonlinear_arith)
        requires
            w2 >= 0,
            x2 <= m,
    ;
    assert(w1 * (m - x0) + w2 * (m - x0) <= a * (m - x0)) by (nonlinear_arith)
        requires
            w0 + w1 + w2 == a,
            w0 >= 0,
            x0 <= m,
    ;
    assert(x <= m) by (nonlinear_arith)
        requires
            (x - x0) * a <= a * (m - x0),
            a > 0,
    ;
}

/// Both bounds of a convex combination, whatever the common sign of the weights.
proof fn lemma_convex_between(x: int, x0: int, x1: int, x2: int, w0: int, w1: int, w2: int, a: int)
    requires
        w1 * (x1 - x0) + w2 * (x2 - x0) == (x - x0) * a,
        w0 + w1 + w2 == a,
        a != 0,
        same_sign(w0, w1, w2),
    ensures
        min3(x0, x1, x2) <= x <= max3(x0, x1, x2),
{
    let m = max3(x0, x1, x2);
    let n = min3(x0, x1, x2);
    assert((-w1) * (x1 - x0) + (-w2) * (x2 - x0) == (x - x0) * (-a)) by (nonlinear_arith)
        requires
            w1 * (x1 - x0) + w2 * (x2 - x0) == (x - x0) * a,
    ;
    assert(w1 * (-x1 - -x0) + w2 * (-x2 - -x0) == (-x - -x0) * a) by (nonlinear_arith)
        requires
            w1 * (x1 - x0) + w2 * (x2 - x0) == (x - x0) * a,
    ;
    assert((-w1) * (-x1 - -x0) + (-w2) * (-x2 - -x0) == (-x - -x0) * (-a)) by (nonlinear_arith)
        requires
            w1 * (x1 - x0) + w2 * (x2 - x0) == (x - x0) * a,
    ;
    if w0 >= 0 && w1 >= 0 && w2 >= 0 {
        lemma_convex_upper(x, x0, x1, x2, w0, w1, w2, a, m);
        lemma_convex_upper(-x, -x0, -x1, -x2, w0, w1, w2, a, -n);
    } else {
        lemma_convex_upper(x, x0, x1, x2, -w0, -w1, -w2, -a, m);
        lemma_convex_upper(-x, -x0, -x1, -x2, -w0, -w1, -w2, -a, -n);
    }
}

/// Every pixel of a filled triangle lies within the triangle's bounding box,
/// so a scan of the box, clipped to the screen, meets all of them.
pub proof fn lemma_drawn_in_box(size: int, p0: (i32, i32), p1: (i32, i32), p2: (i32, i32), x: int, y: int)
    requires
        drawn(size, p0, p1, p2, x, y),
    ensures
        in_clipped_box(size, p0, p1, p2, x, y),
{
    lemma_weights_sum(p0, p1, p2, x, y);
    lemma_weights_barycentric(p0, p1, p2, x, y);
    let (w0, w1, w2) = (weight0(p0, p1, p2, x, y), weight1(p0, p1, p2, x, y), weight2(p0, p1, p2, x, y));
    lemma_convex_between(x, p0.0 as int, p1.0 as int, p2.0 as int, w0, w1, w2, area2(p0, p1, p2));
    lemma_convex_between(y, p0.1 as int, p1.1 as int, p2.1 as int, w0, w1, w2, area2(p0, p1, p2));
}

/// Which pixels a filled triangle has, in plain arithmetic: exactly the
/// on-screen pixels of a triangle of non-zero area whose three edge weights
/// share a sign (zero counts as either), with no other condition.
pub proof fn lemma_drawn_exactly(size: int, p0: (i32, i32), p1: (i32, i32), p2: (i32, i32), x: int, y: int)
    ensures
        drawn(size, p0, p1, p2, x, y) <==> {
            let w0 = (x - p1.0) * (p2.1 - p1.1) - (y - p1.1) * (p2.0 - p1.0);
            let w1 = (x - p2.0) * (p0.1 - p2.1) - (y - p2.1) * (p0.0 - p2.0);
            let w2 = (x - p0.0) * (p1.1 - p0.1) - (y - p0.1) * (p1.0 - p0.0);
            &&& (p2.0 - p0.0) * (p1.1 - p0.1) - (p2.1 - p0.1) * (p1.0 - p0.0) != 0
            &&& 0 <= x < size
            &&& 0 <= y < size
            &&& (w0 >= 0 && w1 >= 0 && w2 >= 0) || (w0 <= 0 && w1 <= 0 && w2 <= 0)
        },
{
}

/// Reversing an edge negates its edge function.
proof fn lemma_edge_reverse(ax: int, ay: int, bx: int, by: int, cx: int, cy: int)
    ensures
        edge(bx, by, ax, ay, cx, cy) == -edge(ax, ay, bx, by, cx, cy),
{
    let (u, v, p, q) = (cx - ax, cy - ay, bx - ax, by - ay);
    assert((cx - bx) * (ay - by) - (cy - by) * (ax - bx) == -(u * q - v * p)) by (nonlinear_arith)
        requires
            u == cx - ax,
            v == cy - ay,
            p == bx - ax,
            q == by - ay,
    ;
}

/// Rotating the three points leaves the edge function unchanged.
proof fn lemma_edge_rotate(ax: int, ay: int, bx: int, by: int, cx: int, cy: int)
    ensures
        edge(bx, by, cx, cy, ax, ay) == edge(ax, ay, bx, by, cx, cy),
{
    let (u, v, p, q) = (cx - ax, cy - ay, bx - ax, by - ay);
    assert((ax - bx) * (cy - by) - (ay - by) * (cx - bx) == u * q - v * p) by (nonlinear_arith)
        requires
            u == cx - ax,
            v == cy - ay,
            p == bx - ax,
            q == by - ay,
    ;
}

/// The filled triangle does not depend on the order of its corners: swapping
/// two corners (which reverses the winding) or rotating them fills the same pixels.
pub proof fn lemma_drawn_any_order(size: int, p0: (i32, i32), p1: (i32, i32), p2: (i32, i32), x: int, y: int)
    ensures
        drawn(size, p0, p1, p2, x, y) == drawn(size, p1, p0, p2, x, y),
        drawn(size, p0, p1, p2, x, y) == drawn(size, p1, p2, p0, x, y),
{
    let (x0, y0, x1, y1, x2, y2) = (p0.0 as int, p0.1 as int, p1.0 as int, p1.1 as int, p2.0 as int, p2.1 as int);
    lemma_edge_reverse(x0, y0, x2, y2, x, y);
    lemma_edge_reverse(x1, y1, x2, y2, x, y);
    lemma_edge_reverse(x0, y0, x1, y1, x, y);
    lemma_edge_reverse(x0, y0, x1, y1, x2, y2);
    lemma_edge_rotate(x0, y0, x1, y1, x2, y2);
}

/// A corner of a non-degenerate triangle that lies on the screen is filled.
pub proof fn lemma_corner_drawn(size: int, p0: (i32, i32), p1: (i32, i32), p2: (i32, i32))
    requires
        area2(p0, p1, p2) != 0,
        on_screen(size, p0.0 as int, p0.1 as int),
    ensures
        drawn(size, p0, p1, p2, p0.0 as int, p0.1 as int),
{
    let (x0, y0, x1, y1, x2, y2) = (p0.0 as int, p0.1 as int, p1.0 as int, p1.1 as int, p2.0 as int, p2.1 as int);
    lemma_edge_rotate(x0, y0, x1, y1, x2, y2);
    assert(weight1(p0, p1, p2, x0, y0) == 0) by (nonlinear_arith)
        requires
            weight1(p0, p1, p2, x0, y0) == (x0 - x2) * (y0 - y2) - (y0 - y2) * (x0 - x2),
    ;
    assert(weight2(p0, p1, p2, x0, y0) == 0);
}

/// The edge function of `a -> b` at `c`, computed exactly.
pub fn edge_function(ax: i32, ay: i32, bx: i32, by: i32, cx: i32, cy: i32) -> (r: i128)
    ensures
        r == edge(ax as int, ay as int, bx as int, by as int, cx as int, cy as int),
{
    let dx1: i128 = cx as i128 - ax as i128;
    let dy1: i128 = by as i128 - ay as i128;
    let dy2: i128 = cy as i128 - ay as i128;
    let dx2: i128 = bx as i128 - ax as i128;
    assert(-0x1_0000_0000 * 0x1_0000_0000 <= dx1 * dy1 <= 0x1_0000_0000 * 0x1_0000_0000) by (nonlinear_arith)
        requires
            -0x1_0000_0000 < dx1 < 0x1_0000_0000,
            -0x1_0000_0000 < dy1 < 0x1_0000_0000,
    ;
    assert(-0x1_0000_0000 * 0x1_0000_0000 <= dy2 * dx2 <= 0x1_0000_0000 * 0x1_0000_0000) by (nonlinear_arith)
        requires
            -0x1_0000_0000 < dy2 < 0x1_0000_0000,
            -0x1_0000_0000 < dx2 < 0x1_0000_0000,
    ;
    let a: i128 = dx1 * dy1;
    let b: i128 = dy2 * dx2;
    a - b
}

pub(crate) fn min3_i32(a: i32, b: i32, c: i32) -> (r: i32)
    ensures
        r == min3(a as int, b as int, c as int),
{
    if a <= b && a <= c {
        a
    } else if b <= c {
        b
    } else {
        c
    }
}

pub(crate) fn max3_i32(a: i32, b: i32, c: i32) -> (r: i32)
    ensures
        r == max3(a as int, b as int, c as int),
{
    if a >= b && a >= c {
        a
    } else if b >= c {
        b
    } else {
        c
    }
}

} // verus!
