use moo3d::{Color, Texture, TEXTURE_TEXELS};

fn indexed_texture() -> Texture {
    let mut data = Vec::new();
    for i in 0..TEXTURE_TEXELS {
        data.push(Color::new((i % 256) as u8, (i / 256) as u8, 0, 255));
    }
    Texture::new(data)
}

#[test]
fn color_compose_modulates_and_keeps_alpha() {
    let c = Color::new(200, 100, 50, 77).compose(Color::new(128, 255, 0, 10));
    assert_eq!(c, Color::new(100, 100, 0, 77));
    let white = Color::new(255, 255, 255, 255);
    assert_eq!(Color::new(9, 8, 7, 6).compose(white), Color::new(9, 8, 7, 6));
}

#[test]
fn color_attenuate_caps_level() {
    let c = Color::new(255, 128, 0, 9);
    assert_eq!(c.attenuate(100), Color::new(100, 50, 0, 255));
    assert_eq!(c.attenuate(1000), Color::new(255, 128, 0, 255));
    assert_eq!(c.attenuate(0), Color::new(0, 0, 0, 255));
}

#[test]
fn color_accumulate_saturates() {
    let c = Color::new(200, 10, 255, 255).accumulate(Color::new(100, 20, 1, 0));
    assert_eq!(c, Color::new(255, 30, 255, 255));
}

#[test]
fn checkerboard_squares() {
    let t = Texture::checkerboard();
    let black = Color::new(0, 0, 0, 255);
    let white = Color::new(255, 255, 255, 255);
    assert_eq!(t.sample_texel(0), black);
    assert_eq!(t.sample_texel(31), black);
    assert_eq!(t.sample_texel(32), white);
    assert_eq!(t.sample_texel(128 * 32), white);
    assert_eq!(t.sample_texel(128 * 32 + 32), black);
    assert_eq!(t.sample_texel(16383), black);
}

#[test]
fn sample_wraps_every_index() {
    let t = indexed_texture();
    assert_eq!(t.sample_texel(5), Color::new(5, 0, 0, 255));
    assert_eq!(t.sample_texel(16384 + 5), Color::new(5, 0, 0, 255));
    assert_eq!(t.sample_texel(-1), Color::new(255, 63, 0, 255));
    assert_eq!(t.sample_texel(-16384), Color::new(0, 0, 0, 255));
    assert_eq!(t.sample_texel(i64::MIN), Color::new(0, 0, 0, 255));
    assert_eq!(t.sample_texel(i64::MAX), Color::new(255, 63, 0, 255));
    assert_eq!(t.sample_texel(300), Color::new(44, 1, 0, 255));
}
