//! A square colour buffer addressed by integer screen coordinates, and the
//! pixel coverage of a screen-space triangle.

use vstd::prelude::*;

use crate::triangle::{
    area2, drawn, edge_function, lemma_drawn_in_box, max3, max3_i32, min3, min3_i32, weight0,
    weight1, weight2,
};

verus! {

/// Whether the pixel `(x, y)` lies on a square screen of side `size`.
pub open spec fn on_screen(size: int, x: int, y: int) -> bool {
    0 <= x < size && 0 <= y < size
}

/// The row-major index of the pixel `(x, y)` on a screen of side `size`.
pub open spec fn pixel_index(size: int, x: int, y: int) -> int {
    x + y * size
}

/// Whether a square buffer of side `size` fits the machine: a colour buffer,
/// and a depth buffer beside it, of four-byte cells must each stay within
/// `isize::MAX` bytes.
pub open spec fn size_fits(size: int) -> bool {
    size * size * 4 <= isize::MAX
}

/// A pixel index on the screen is below the number of pixels.
pub proof fn lemma_pixel_index_bounds(size: int, x: int, y: int)
    requires
        on_screen(size, x, y),
    ensures
        0 <= pixel_index(size, x, y) < size * size,
{
    assert(0 <= x + y * size < size * size) by (nonlinear_arith)
        requires
            0 <= x < size,
            0 <= y < size,
    ;
}

/// Distinct pixels of a screen have distinct indices.
pub proof fn lemma_pixel_index_injective(size: int, x1: int, y1: int, x2: int, y2: int)
    requires
        on_screen(size, x1, y1),
        on_screen(size, x2, y2),
        pixel_index(size, x1, y1) == pixel_index(size, x2, y2),
    ensures
        x1 == x2,
        y1 == y2,
{
    if y1 < y2 {
        assert(x1 + y1 * size < x2 + y2 * size) by (nonlinear_arith)
            requires
                0 <= x1 < size,
                0 <= x2,
                y1 < y2,
        ;
    } else if y2 < y1 {
        assert(x2 + y2 * size < x1 + y1 * size) by (nonlinear_arith)
            requires
                0 <= x2 < size,
                0 <= x1,
                y2 < y1,
        ;
    }
}

/// A pixel comes before another in reading order: an earlier row, or the
/// same row and further left.
pub open spec fn before(x1: int, y1: int, x2: int, y2: int) -> bool {
    y1 < y2 || (y1 == y2 && x1 < x2)
}

/// Row-major order: a pixel before another in reading order has the smaller index.
pub proof fn lemma_pixel_index_row_major(size: int, x1: int, y1: int, x2: int, y2: int)
    requires
        on_screen(size, x1, y1),
        on_screen(size, x2, y2),
        before(x1, y1, x2, y2),
    ensures
        pixel_index(size, x1, y1) < pixel_index(size, x2, y2),
{
    if y1 < y2 {
        assert(x1 + y1 * size < x2 + y2 * size) by (nonlinear_arith)
            requires
                0 <= x1 < size,
                0 <= x2,
                y1 < y2,
        ;
    }
}

proof fn lemma_size_fits_i32(size: int)
    requires
        0 <= size,
        size_fits(size),
    ensures
        size * size <= usize::MAX,
        size < i32::MAX,
{
    assert(size * size <= size * size * 4) by (nonlinear_arith)
        requires
            0 <= size,
    ;
    if size >= i32::MAX {
        assert(size * size * 4 >= 0x7fff_ffff * 0x7fff_ffff * 4) by (nonlinear_arith)
            requires
                size >= 0x7fff_ffff,
        ;
    }
}

/// One pixel of a filled triangle, with the triangle's three edge weights there.
pub struct Fragment {
    pub x: i32,
    pub y: i32,
    /// The pixel's index in the buffer.
    pub idx: usize,
    pub w0: i128,
    pub w1: i128,
    pub w2: i128,
}

/// The pixels of a filled triangle and twice its signed area.
pub struct Coverage {
    pub area: i128,
    pub fragments: Vec<Fragment>,
}

/// A fragment of the triangle `p0, p1, p2` on a screen of side `size`.
pub open spec fn fragment_of(size: int, p0: (i32, i32), p1: (i32, i32), p2: (i32, i32), f: Fragment) -> bool {
    &&& drawn(size, p0, p1, p2, f.x as int, f.y as int)
    &&& f.idx == pixel_index(size, f.x as int, f.y as int)
    &&& f.w0 == weight0(p0, p1, p2, f.x as int, f.y as int)
    &&& f.w1 == weight1(p0, p1, p2, f.x as int, f.y as int)
    &&& f.w2 == weight2(p0, p1, p2, f.x as int, f.y as int)
}

/// A colour buffer of `size * size` pixels, stored row by row.
pub struct Rasterizer {
    pub buffer: Vec<u32>,
    pub size: usize,
}

impl Rasterizer {
    /// The buffer holds one cell per pixel, and its size fits the machine.
    pub open spec fn wf(&self) -> bool {
        &&& self.buffer@.len() == self.size * self.size
        &&& size_fits(self.size as int)
    }

    /// The colour of the pixel `(x, y)`.
    pub open spec fn pixel(&self, x: int, y: int) -> u32 {
        self.buffer@[pixel_index(self.size as int, x, y)]
    }

    /// A black buffer of side `size`.
    pub fn new(size: usize) -> (r: Self)
        requires
            size_fits(size as int),
        ensures
            r.wf(),
            r.size == size,
            forall|i: int| 0 <= i < size * size ==> #[trigger] r.buffer@[i] == 0u32,
    {
        proof {
            lemma_size_fits_i32(size as int);
        }
        let n: usize = size * size;
        let buffer: Vec<u32> = vec![0u32; n];
        Rasterizer { buffer, size }
    }

    /// Paints every pixel with `color`.
    pub fn clear(&mut self, color: u32)
        requires
            old(self).wf(),
        ensures
            final(self).wf(),
            final(self).size == old(self).size,
            final(self).buffer@.len() == old(self).buffer@.len(),
            forall|i: int| 0 <= i < final(self).buffer@.len() ==> #[trigger] final(self).buffer@[i] == color,
    {
        let n: usize = self.buffer.len();
        let mut i: usize = 0;
        while i < n
            invariant
                0 <= i <= n,
                n == self.buffer@.len(),
                self.wf(),
                self.size == old(self).size,
                forall|j: int| 0 <= j < i ==> #[trigger] self.buffer@[j] == color,
            decreases n - i,
        {
            self.buffer.set(i, color);
            i = i + 1;
        }
    }

    /// The buffer index of the pixel `(x, y)`, or `None` when it is off the screen.
    pub fn screen_to_index(&self, x: i32, y: i32) -> (r: Option<usize>)
        requires
            self.wf(),
        ensures
            r is Some <==> on_screen(self.size as int, x as int, y as int),
            r matches Some(i) ==> i == pixel_index(self.size as int, x as int, y as int)
                && i < self.buffer@.len(),
            r is Some <==> 0 <= x < self.size && 0 <= y < self.size,
            r matches Some(i) ==> i == x + y * self.size,
    {
        proof {
            lemma_size_fits_i32(self.size as int);
        }
        let side: i32 = self.size as i32;
        if x < 0 || x >= side || y < 0 || y >= side {
            return None;
        }
        proof {
            lemma_pixel_index_bounds(self.size as int, x as int, y as int);
            assert(y * self.size <= x + y * self.size);
        }
        let xu: usize = x as usize;
        let yu: usize = y as usize;
        Some(xu + yu * self.size)
    }

    /// Paints the pixel `(x, y)` with `color` when it is on the screen;
    /// every other pixel keeps its colour.
    pub fn put_pixel(&mut self, x: i32, y: i32, color: u32)
        requires
            old(self).wf(),
        ensures
            final(self).wf(),
            final(self).size == old(self).size,
            on_screen(old(self).size as int, x as int, y as int) ==> final(self).buffer@
                == old(self).buffer@.update(
                pixel_index(old(self).size as int, x as int, y as int),
                color,
            ),
            !on_screen(old(self).size as int, x as int, y as int) ==> final(self).buffer@
                == old(self).buffer@,
            final(self).buffer@.len() == old(self).buffer@.len(),
            forall|i: int|
                0 <= i < old(self).buffer@.len() ==> #[trigger] final(self).buffer@[i] == if 0 <= x
                    < old(self).size && 0 <= y < old(self).size && i == x + y * old(self).size {
                    color
                } else {
                    old(self).buffer@[i]
                },
    {
        if let Some(idx) = self.screen_to_index(x, y) {
            self.buffer.set(idx, color);
        }
    }

    /// The pixels of the filled triangle `p0, p1, p2` (screen coordinates),
    /// in row-major order, each with its three edge weights; none when the
    /// triangle is degenerate. A pixel is filled when it is on the screen and
    /// its three weights share a sign, so both windings fill alike. Only the
    /// triangle's bounding box, clipped to the screen, is scanned. Weights and
    /// area are exact: they are computed in `i128`, which no coordinates overflow.
    pub fn triangle_fragments(&self, p0: (i32, i32), p1: (i32, i32), p2: (i32, i32)) -> (c: Coverage)
        requires
            self.wf(),
        ensures
            c.area == area2(p0, p1, p2),
            forall|k: int|
                0 <= k < c.fragments@.len() ==> fragment_of(
                    self.size as int,
                    p0,
                    p1,
                    p2,
                    #[trigger] c.fragments@[k],
                ),
            forall|k: int, l: int|
                0 <= k < l < c.fragments@.len() ==> #[trigger] c.fragments@[k].idx
                    < #[trigger] c.fragments@[l].idx,
            forall|x: int, y: int|
                #[trigger] drawn(self.size as int, p0, p1, p2, x, y) ==> exists|k: int|
                    0 <= k < c.fragments@.len() && #[trigger] c.fragments@[k].x == x
                        && c.fragments@[k].y == y,
            // The same, in plain arithmetic: the area is the cross product of
            // the two edges from p0, and ...
            c.area == (p2.0 - p0.0) * (p1.1 - p0.1) - (p2.1 - p0.1) * (p1.0 - p0.0),
            // ... every fragment is an on-screen pixel whose three edge
            // weights, given here, share a sign ...
            forall|k: int|
                0 <= k < c.fragments@.len() ==> {
                    let f = #[trigger] c.fragments@[k];
                    let (x, y) = (f.x as int, f.y as int);
                    &&& 0 <= x < self.size
                    &&& 0 <= y < self.size
                    &&& f.idx == x + y * self.size
                    &&& f.w0 == (x - p1.0) * (p2.1 - p1.1) - (y - p1.1) * (p2.0 - p1.0)
                    &&& f.w1 == (x - p2.0) * (p0.1 - p2.1) - (y - p2.1) * (p0.0 - p2.0)
                    &&& f.w2 == (x - p0.0) * (p1.1 - p0.1) - (y - p0.1) * (p1.0 - p0.0)
                    &&& (f.w0 >= 0 && f.w1 >= 0 && f.w2 >= 0) || (f.w0 <= 0 && f.w1 <= 0 && f.w2 <= 0)
                    &&& c.area != 0
                },
            // ... and every on-screen pixel of a non-degenerate triangle whose
            // three edge weights share a sign (zero counts as either), the
            // interior as well as the border, is a fragment.
            forall|x: int, y: int|
                #[trigger] on_screen(self.size as int, x, y) && c.area != 0 && ({
                    let w0 = (x - p1.0) * (p2.1 - p1.1) - (y - p1.1) * (p2.0 - p1.0);
                    let w1 = (x - p2.0) * (p0.1 - p2.1) - (y - p2.1) * (p0.0 - p2.0);
                    let w2 = (x - p0.0) * (p1.1 - p0.1) - (y - p0.1) * (p1.0 - p0.0);
                    (w0 >= 0 && w1 >= 0 && w2 >= 0) || (w0 <= 0 && w1 <= 0 && w2 <= 0)
                }) ==> exists|k: int|
                    0 <= k < c.fragments@.len() && #[trigger] c.fragments@[k].x == x
                        && c.fragments@[k].y == y,
    {
        let ghost size = self.size as int;
        let area: i128 = edge_function(p0.0, p0.1, p1.0, p1.1, p2.0, p2.1);
        let mut fragments: Vec<Fragment> = Vec::new();
        if area == 0 {
            return Coverage { area, fragments };
        }
        proof {
            lemma_size_fits_i32(size);
        }
        let side: i32 = self.size as i32;
        let lo_x: i32 = min3_i32(p0.0, p1.0, p2.0);
        let hi_x: i32 = max3_i32(p0.0, p1.0, p2.0);
        let lo_y: i32 = min3_i32(p0.1, p1.1, p2.1);
        let hi_y: i32 = max3_i32(p0.1, p1.1, p2.1);
        let min_x: i32 = if lo_x < 0 { 0 } else { lo_x };
        let max_x: i32 = if hi_x > side - 1 { side - 1 } else { hi_x };
        let min_y: i32 = if lo_y < 0 { 0 } else { lo_y };
        let max_y: i32 = if hi_y > side - 1 { side - 1 } else { hi_y };
        proof {
            assert forall|px: int, py: int|
                #[trigger] drawn(size, p0, p1, p2, px, py) && py < min_y implies exists|k: int|
                    0 <= k < fragments@.len() && #[trigger] fragments@[k].x == px
                        && fragments@[k].y == py by {
                lemma_drawn_in_box(size, p0, p1, p2, px, py);
            }
        }
        let mut y: i32 = min_y;
        while y <= max_y
            invariant
                self.wf(),
                size == self.size,
                size < i32::MAX,
                side == size,
                area == area2(p0, p1, p2),
                area != 0,
                0 <= min_y <= y,
                y <= max_y + 1 || y == min_y,
                max_y <= side - 1,
                0 <= min_x,
                max_x <= side - 1,
                min_x == (if lo_x < 0 { 0 } else { lo_x }),
                max_x == (if hi_x > side - 1 { side - 1 } else { hi_x as int }),
                min_y == (if lo_y < 0 { 0 } else { lo_y }),
                max_y == (if hi_y > side - 1 { side - 1 } else { hi_y as int }),
                lo_x == min3(p0.0 as int, p1.0 as int, p2.0 as int),
                hi_x == max3(p0.0 as int, p1.0 as int, p2.0 as int),
                lo_y == min3(p0.1 as int, p1.1 as int, p2.1 as int),
                hi_y == max3(p0.1 as int, p1.1 as int, p2.1 as int),
                forall|k: int|
                    0 <= k < fragments@.len() ==> fragment_of(size, p0, p1, p2, #[trigger] fragments@[k]),
                forall|k: int|
                    0 <= k < fragments@.len() ==> (#[trigger] fragments@[k]).y < y,
                forall|k: int, l: int|
                    0 <= k < l < fragments@.len() ==> #[trigger] fragments@[k].idx
                        < #[trigger] fragments@[l].idx,
                forall|px: int, py: int|
                    #[trigger] drawn(size, p0, p1, p2, px, py) && py < y ==> exists|k: int|
                        0 <= k < fragments@.len() && #[trigger] fragments@[k].x == px
                            && fragments@[k].y == py,
            decreases max_y as int + 1 - y as int,
        {
            let mut x: i32 = min_x;
            while x <= max_x
                invariant
                    self.wf(),
                    size == self.size,
                    size < i32::MAX,
                    side == size,
                    area == area2(p0, p1, p2),
                    area != 0,
                    0 <= min_y <= y <= max_y,
                    max_y <= side - 1,
                    0 <= min_x <= x,
                    x <= max_x + 1 || x == min_x,
                    max_x <= side - 1,
                    min_x == (if lo_x < 0 { 0 } else { lo_x }),
                    max_x == (if hi_x > side - 1 { side - 1 } else { hi_x as int }),
                    lo_x == min3(p0.0 as int, p1.0 as int, p2.0 as int),
                    hi_x == max3(p0.0 as int, p1.0 as int, p2.0 as int),
                    forall|k: int|
                        0 <= k < fragments@.len() ==> fragment_of(size, p0, p1, p2, #[trigger] fragments@[k]),
                    forall|k: int|
                        0 <= k < fragments@.len() ==> before(
                            (#[trigger] fragments@[k]).x as int,
                            fragments@[k].y as int,
                            x as int,
                            y as int,
                        ),
                    forall|k: int, l: int|
                        0 <= k < l < fragments@.len() ==> #[trigger] fragments@[k].idx
                            < #[trigger] fragments@[l].idx,
                    forall|px: int, py: int|
                        #[trigger] drawn(size, p0, p1, p2, px, py) && before(px, py, x as int, y as int)
                            && min_x <= px ==> exists|k: int|
                            0 <= k < fragments@.len() && #[trigger] fragments@[k].x == px
                                && fragments@[k].y == py,
                decreases max_x as int + 1 - x as int,
            {
                let ghost prev = fragments@;
                let w0: i128 = edge_function(p1.0, p1.1, p2.0, p2.1, x, y);
                let w1: i128 = edge_function(p2.0, p2.1, p0.0, p0.1, x, y);
                let w2: i128 = edge_function(p0.0, p0.1, p1.0, p1.1, x, y);
                if (w0 >= 0 && w1 >= 0 && w2 >= 0) || (w0 <= 0 && w1 <= 0 && w2 <= 0) {
                    if let Some(idx) = self.screen_to_index(x, y) {
                        proof {
                            assert forall|k: int| 0 <= k < fragments@.len() implies #[trigger] fragments@[k].idx
                                < idx by {
                                let f = fragments@[k];
                                lemma_pixel_index_row_major(size, f.x as int, f.y as int, x as int, y as int);
                            }
                        }
                        fragments.push(Fragment { x, y, idx, w0, w1, w2 });
                    }
                }
                proof {
                    assert forall|px: int, py: int|
                        #[trigger] drawn(size, p0, p1, p2, px, py) && before(px, py, x + 1, y as int)
                            && min_x <= px implies exists|k: int|
                            0 <= k < fragments@.len() && #[trigger] fragments@[k].x == px
                                && fragments@[k].y == py by {
                        if before(px, py, x as int, y as int) {
                            let k = choose|k: int|
                                0 <= k < prev.len() && #[trigger] prev[k].x == px && prev[k].y == py;
                            assert(fragments@[k] == prev[k]);
                        } else {
                            let last = fragments@.len() - 1;
                            assert(fragments@[last].x == px);
                        }
                    }
                }
                x = x + 1;
            }
            proof {
                assert forall|px: int, py: int|
                    #[trigger] drawn(size, p0, p1, p2, px, py) && py < y + 1 implies exists|k: int|
                        0 <= k < fragments@.len() && #[trigger] fragments@[k].x == px
                            && fragments@[k].y == py by {
                    lemma_drawn_in_box(size, p0, p1, p2, px, py);
                }
            }
            y = y + 1;
        }
        proof {
            assert forall|px: int, py: int| #[trigger] drawn(size, p0, p1, p2, px, py) implies exists|k: int|
                0 <= k < fragments@.len() && #[trigger] fragments@[k].x == px
                    && fragments@[k].y == py by {
                lemma_drawn_in_box(size, p0, p1, p2, px, py);
            }
        }
        let c = Coverage { area, fragments };
        assert(c.fragments@ == fragments@);
        proof {
            assert forall|x: int, y: int|
                #[trigger] on_screen(size, x, y) && c.area != 0 && ({
                    let w0 = (x - p1.0) * (p2.1 - p1.1) - (y - p1.1) * (p2.0 - p1.0);
                    let w1 = (x - p2.0) * (p0.1 - p2.1) - (y - p2.1) * (p0.0 - p2.0);
                    let w2 = (x - p0.0) * (p1.1 - p0.1) - (y - p0.1) * (p1.0 - p0.0);
                    (w0 >= 0 && w1 >= 0 && w2 >= 0) || (w0 <= 0 && w1 <= 0 && w2 <= 0)
                }) implies exists|k: int|
                    0 <= k < c.fragments@.len() && #[trigger] c.fragments@[k].x == x
                        && c.fragments@[k].y == y by {
                assert(drawn(size, p0, p1, p2, x, y));
            }
        }
        c
    }
}

} // verus!
