use moo3d::{Color, FrameBuffer, DEPTH_CLEAR, DEPTH_ONE, TEXTURE_BYTES};

fn pixel(f: &FrameBuffer, x: usize, y: usize) -> Color {
    let p = f.get_pixels();
    let i = 4 * (y * f.width() + x);
    Color::new(p[i], p[i + 1], p[i + 2], p[i + 3])
}

fn solid_textures(colors: &[Color]) -> Vec<u8> {
    let mut bytes = Vec::new();
    for c in colors {
        for _ in 0..TEXTURE_BYTES / 4 {
            bytes.push(c.r);
            bytes.push(c.g);
            bytes.push(c.b);
            bytes.push(c.a);
        }
    }
    bytes
}

#[test]
fn new_buffer_is_zeroed_and_cleared_far() {
    let f = FrameBuffer::new(4, 3, &[]);
    assert_eq!(f.width(), 4);
    assert_eq!(f.height(), 3);
    assert_eq!(f.get_pixels().len(), 48);
    assert!(f.get_pixels().iter().all(|b| *b == 0));
    assert_eq!(f.depth_at(3, 2), DEPTH_CLEAR);
    assert_eq!(f.texture_count(), 0);
}

#[test]
fn textures_are_split_in_order() {
    let bytes = solid_textures(&[Color::new(1, 2, 3, 4), Color::new(5, 6, 7, 8)]);
    let mut f = FrameBuffer::new(2, 2, &bytes);
    assert_eq!(f.texture_count(), 2);
    f.clear();
    f.shade_pixel(0, 0, 10, 1, 77, Color::new(255, 255, 255, 255));
    assert_eq!(pixel(&f, 0, 0), Color::new(5, 6, 7, 8));
    f.shade_pixel(1, 0, 10, 0, -3, Color::new(255, 255, 255, 255));
    assert_eq!(pixel(&f, 1, 0), Color::new(1, 2, 3, 4));
}

#[test]
fn clear_whitens_and_resets_depth() {
    let mut f = FrameBuffer::new(3, 2, &[]);
    f.write_pixel(1, 1, 5, Color::new(1, 2, 3, 4));
    assert_eq!(f.depth_at(1, 1), 5);
    f.clear();
    assert!(f.get_pixels().iter().all(|b| *b == 255));
    assert_eq!(f.depth_at(1, 1), DEPTH_CLEAR);
}

#[test]
fn write_pixel_keeps_nearest() {
    let mut f = FrameBuffer::new(4, 3, &[]);
    f.clear();
    let red = Color::new(255, 0, 0, 255);
    let green = Color::new(0, 255, 0, 255);
    let blue = Color::new(0, 0, 255, 255);
    f.write_pixel(1, 1, 100, red);
    assert_eq!(pixel(&f, 1, 1), red);
    f.write_pixel(1, 1, 200, green);
    assert_eq!(pixel(&f, 1, 1), red);
    f.write_pixel(1, 1, 100, green);
    assert_eq!(pixel(&f, 1, 1), red);
    f.write_pixel(1, 1, 50, blue);
    assert_eq!(pixel(&f, 1, 1), blue);
    assert_eq!(f.depth_at(1, 1), 50);
    assert_eq!(pixel(&f, 2, 1), Color::new(255, 255, 255, 255));
}

#[test]
fn write_sequence_ends_with_first_minimum() {
    let mut f = FrameBuffer::new(2, 2, &[]);
    f.clear();
    let depths = [500u32, 300, 300, 700, 100, 100, 900];
    for (k, d) in depths.iter().enumerate() {
        f.write_pixel(0, 1, *d, Color::new(k as u8, 0, 0, 255));
    }
    assert_eq!(f.depth_at(0, 1), 100);
    assert_eq!(pixel(&f, 0, 1), Color::new(4, 0, 0, 255));
}

#[test]
fn write_pixel_rejects_off_screen_and_out_of_range_depth() {
    let mut f = FrameBuffer::new(4, 3, &[]);
    f.clear();
    let c = Color::new(1, 2, 3, 4);
    f.write_pixel(-1, 0, 1, c);
    f.write_pixel(4, 0, 1, c);
    f.write_pixel(0, 3, 1, c);
    f.write_pixel(0, 0, DEPTH_ONE + 1, c);
    f.write_pixel(0, 0, 0x8000_0000, c);
    assert!(f.get_pixels().iter().all(|b| *b == 255));
    f.write_pixel(0, 0, DEPTH_ONE, c);
    assert_eq!(pixel(&f, 0, 0), c);
    f.write_pixel(3, 2, 0, c);
    assert_eq!(pixel(&f, 3, 2), c);
}

#[test]
fn to_render_checks_screen_and_depth() {
    let f = FrameBuffer::new(4, 3, &[]);
    assert!(f.to_render(0, 0, None));
    assert!(f.to_render(3, 2, Some(DEPTH_ONE)));
    assert!(!f.to_render(3, 2, Some(DEPTH_ONE + 1)));
    assert!(!f.to_render(4, 2, None));
    assert!(!f.to_render(0, -1, None));
}

#[test]
fn write_square_covers_its_pixels() {
    let mut f = FrameBuffer::new(4, 3, &[]);
    f.clear();
    let c = Color::new(9, 9, 9, 9);
    f.write_square(2, 1, 0, 2, c);
    for (x, y) in [(1, 0), (1, 1), (2, 0), (2, 1)] {
        assert_eq!(pixel(&f, x, y), c);
        assert_eq!(f.depth_at(x, y), DEPTH_ONE);
    }
    assert_eq!(pixel(&f, 3, 1), Color::new(255, 255, 255, 255));
    assert_eq!(pixel(&f, 2, 2), Color::new(255, 255, 255, 255));
}

#[test]
fn write_square_clips_and_needs_visible_centre() {
    let mut f = FrameBuffer::new(4, 3, &[]);
    f.clear();
    let c = Color::new(9, 9, 9, 9);
    f.write_square(0, 0, 0, 4, c);
    assert_eq!(pixel(&f, 0, 0), c);
    assert_eq!(pixel(&f, 1, 1), c);
    assert_eq!(pixel(&f, 2, 2), Color::new(255, 255, 255, 255));
    let mut g = FrameBuffer::new(4, 3, &[]);
    g.clear();
    g.write_square(5, 0, 0, 8, c);
    g.write_square(1, 1, DEPTH_ONE + 1, 8, c);
    assert!(g.get_pixels().iter().all(|b| *b == 255));
}

#[test]
fn triangle_bounds_clamp_to_screen() {
    let f = FrameBuffer::new(4, 3, &[]);
    assert_eq!(f.triangle_bounds(-2, 1, 5, 2, 2, -1), (0, 0, 3, 2));
    assert_eq!(f.triangle_bounds(1, 1, 2, 1, 1, 2), (1, 1, 2, 2));
    let (min_x, _, max_x, _) = f.triangle_bounds(10, 0, 12, 1, 11, 2);
    assert!(min_x > max_x);
}

#[test]
fn shade_pixel_modulates_texture_by_light() {
    let bytes = solid_textures(&[Color::new(200, 100, 50, 77)]);
    let mut f = FrameBuffer::new(3, 3, &bytes);
    f.clear();
    f.shade_pixel(1, 1, 1000, 0, 12345, Color::new(128, 255, 0, 10));
    assert_eq!(pixel(&f, 1, 1), Color::new(100, 100, 0, 77));
    f.shade_pixel(1, 1, 2000, 0, 0, Color::new(255, 255, 255, 255));
    assert_eq!(pixel(&f, 1, 1), Color::new(100, 100, 0, 77));
}
