use moo3d::{
    Block, BlockData, Color, CubeFace, FaceDraw, FrameBuffer, Material, Shape, WorldData,
    DEPTH_CLEAR, TEXTURE_BYTES,
};

#[test]
fn footprint_face_is_drawn_and_shaded() {
    let mut world = WorldData::new(4, 0, 0, 0);
    for x in 4..6 {
        for y in 4..6 {
            *world.get_mut(x, y, 8).unwrap() =
                Block::Full(BlockData::new(Shape::Block, Material::Dirt));
        }
    }
    let draws = world.draw_bundle(0, 0, 0, [true; 8]);
    assert_eq!(draws.len(), 16);
    let front = FaceDraw { x: 4, y: 4, z: 8, face: CubeFace::MinusZ, shape: Shape::Block, texture: 1 };
    assert!(draws.contains(&front));
    assert!(!draws.iter().any(|d| d.x == 4 && d.y == 4 && d.face == CubeFace::PlusX));
    for u in 0..4 {
        for v in 0..4 {
            for w in 0..4 {
                if (u, v, w) != (0, 0, 0) {
                    assert!(world.draw_bundle(u, v, w, [true; 8]).is_empty());
                }
            }
        }
    }

    let mut bytes = Vec::new();
    for tex in [Color::new(10, 200, 30, 255), Color::new(120, 80, 240, 255)] {
        for _ in 0..TEXTURE_BYTES / 4 {
            bytes.extend_from_slice(&[tex.r, tex.g, tex.b, tex.a]);
        }
    }
    let mut frame = FrameBuffer::new(5, 5, &bytes);
    frame.clear();
    let light = Color::new(255, 0, 0, 255).attenuate(200).accumulate(Color::new(255, 255, 255, 255).attenuate(120));
    frame.shade_pixel(2, 2, 0x3E80_0000, front.texture as usize, 64 * 128 + 64, light);
    assert!(frame.depth_at(2, 2) < DEPTH_CLEAR);
    let p = frame.get_pixels();
    let i = 4 * (2 * 5 + 2);
    let expected = Color::new(120, 80, 240, 255).compose(light);
    assert_eq!(light, Color::new(255, 120, 120, 255));
    assert_eq!(expected, Color::new(120, 37, 112, 255));
    assert_eq!(Color::new(p[i], p[i + 1], p[i + 2], p[i + 3]), expected);
}
