use rasterizer::rasterizer::{Coverage, Rasterizer};

fn pixels(c: &Coverage) -> Vec<(i32, i32)> {
    c.fragments.iter().map(|f| (f.x, f.y)).collect()
}

#[test]
fn new_buffer_is_black_and_square() {
    let r = Rasterizer::new(4);
    assert_eq!(r.size, 4);
    assert_eq!(r.buffer.len(), 16);
    assert!(r.buffer.iter().all(|&p| p == 0));
}

#[test]
fn new_empty_buffer() {
    let r = Rasterizer::new(0);
    assert_eq!(r.buffer.len(), 0);
    assert_eq!(r.screen_to_index(0, 0), None);
}

#[test]
fn clear_paints_every_pixel() {
    let mut r = Rasterizer::new(3);
    r.clear(0x000022);
    assert_eq!(r.buffer, vec![0x000022; 9]);
    r.clear(7);
    assert_eq!(r.buffer, vec![7; 9]);
}

#[test]
fn screen_to_index_row_major() {
    let r = Rasterizer::new(10);
    assert_eq!(r.screen_to_index(0, 0), Some(0));
    assert_eq!(r.screen_to_index(3, 0), Some(3));
    assert_eq!(r.screen_to_index(0, 1), Some(10));
    assert_eq!(r.screen_to_index(7, 4), Some(47));
    assert_eq!(r.screen_to_index(9, 9), Some(99));
}

#[test]
fn screen_to_index_off_screen() {
    let r = Rasterizer::new(10);
    assert_eq!(r.screen_to_index(-1, 0), None);
    assert_eq!(r.screen_to_index(0, -1), None);
    assert_eq!(r.screen_to_index(10, 0), None);
    assert_eq!(r.screen_to_index(0, 10), None);
    assert_eq!(r.screen_to_index(i32::MIN, i32::MAX), None);
}

#[test]
fn screen_to_index_injective_on_screen() {
    let r = Rasterizer::new(6);
    let mut seen = vec![false; 36];
    for y in 0..6 {
        for x in 0..6 {
            let i = r.screen_to_index(x, y).unwrap();
            assert!(!seen[i]);
            seen[i] = true;
        }
    }
    assert!(seen.iter().all(|&s| s));
}

#[test]
fn put_pixel_writes_one_pixel() {
    let mut r = Rasterizer::new(4);
    r.put_pixel(2, 1, 0xff0000);
    let mut expected = vec![0u32; 16];
    expected[6] = 0xff0000;
    assert_eq!(r.buffer, expected);
}

#[test]
fn put_pixel_off_screen_changes_nothing() {
    let mut r = Rasterizer::new(4);
    r.put_pixel(4, 0, 1);
    r.put_pixel(-1, 2, 1);
    r.put_pixel(0, 100, 1);
    assert_eq!(r.buffer, vec![0u32; 16]);
}

#[test]
fn right_triangle_fragments() {
    let r = Rasterizer::new(4);
    let c = r.triangle_fragments((0, 0), (3, 0), (0, 3));
    assert_eq!(c.area, -9);
    assert_eq!(
        pixels(&c),
        vec![(0, 0), (1, 0), (2, 0), (3, 0), (0, 1), (1, 1), (2, 1), (0, 2), (1, 2), (0, 3)]
    );
    let first = &c.fragments[0];
    assert_eq!((first.idx, first.w0, first.w1, first.w2), (0, -9, 0, 0));
    let mid = &c.fragments[5];
    assert_eq!((mid.x, mid.y, mid.idx), (1, 1, 5));
    assert_eq!((mid.w0, mid.w1, mid.w2), (-3, -3, -3));
    let idxs: Vec<usize> = c.fragments.iter().map(|f| f.idx).collect();
    assert_eq!(idxs, vec![0, 1, 2, 3, 4, 5, 6, 8, 9, 12]);
}

#[test]
fn weights_sum_to_area() {
    let r = Rasterizer::new(16);
    let c = r.triangle_fragments((1, 2), (14, 5), (6, 13));
    assert!(!c.fragments.is_empty());
    for f in &c.fragments {
        assert_eq!(f.w0 + f.w1 + f.w2, c.area);
    }
}

#[test]
fn winding_does_not_matter() {
    let r = Rasterizer::new(16);
    let a = r.triangle_fragments((1, 2), (14, 5), (6, 13));
    let b = r.triangle_fragments((14, 5), (1, 2), (6, 13));
    let c = r.triangle_fragments((14, 5), (6, 13), (1, 2));
    assert_eq!(a.area, -b.area);
    assert_eq!(a.area, c.area);
    assert_eq!(pixels(&a), pixels(&b));
    assert_eq!(pixels(&a), pixels(&c));
}

#[test]
fn corners_are_filled() {
    let r = Rasterizer::new(16);
    let c = r.triangle_fragments((1, 2), (14, 5), (6, 13));
    let ps = pixels(&c);
    assert!(ps.contains(&(1, 2)));
    assert!(ps.contains(&(14, 5)));
    assert!(ps.contains(&(6, 13)));
}

#[test]
fn degenerate_triangle_draws_nothing() {
    let r = Rasterizer::new(8);
    let c = r.triangle_fragments((0, 0), (3, 3), (6, 6));
    assert_eq!(c.area, 0);
    assert!(c.fragments.is_empty());
    let d = r.triangle_fragments((2, 2), (2, 2), (2, 2));
    assert_eq!(d.area, 0);
    assert!(d.fragments.is_empty());
}

#[test]
fn triangle_clipped_to_screen() {
    let r = Rasterizer::new(4);
    let c = r.triangle_fragments((-10, -10), (10, -10), (-10, 10));
    // Every on-screen pixel with x + y <= 0 lies inside: only (0, 0).
    assert_eq!(pixels(&c), vec![(0, 0)]);
    let big = r.triangle_fragments((-100, -100), (300, -100), (-100, 300));
    assert_eq!(big.fragments.len(), 16);
}

#[test]
fn triangle_off_screen_draws_nothing() {
    let r = Rasterizer::new(4);
    let c = r.triangle_fragments((10, 10), (20, 10), (10, 20));
    assert!(c.area != 0);
    assert!(c.fragments.is_empty());
}

#[test]
fn extreme_coordinates_are_exact() {
    let r = Rasterizer::new(2);
    let c = r.triangle_fragments((i32::MIN, i32::MIN), (i32::MAX, i32::MIN), (i32::MAX, i32::MAX));
    let span: i128 = i32::MAX as i128 - i32::MIN as i128;
    assert_eq!(c.area, -span * span);
    // The triangle is the half of the plane on or below the diagonal y = x.
    assert_eq!(pixels(&c), vec![(0, 0), (1, 0), (1, 1)]);
}
