use moo3d::{
    draw_block, face_visibility, Block, BlockBundle, BlockData, CubeFace, FaceDraw, Material,
    Shape, WorldData,
};

fn dirt() -> Block {
    Block::Full(BlockData::new(Shape::Block, Material::Dirt))
}

fn faces(list: [Option<CubeFace>; 6]) -> Vec<CubeFace> {
    list.iter().filter_map(|f| *f).collect()
}

#[test]
fn material_table() {
    let empty = Material::Empty.data();
    assert!(empty.is_transparent && !empty.is_solid && empty.texture.is_none());
    let d = Material::Dirt.data();
    assert!(!d.is_transparent && d.is_solid);
    assert_eq!(d.texture, Some([1, 1, 1, 1, 1, 1]));
    assert_eq!(Material::Grass.data().texture, Some([0, 0, 0, 0, 0, 0]));
}

#[test]
fn block_kinds() {
    let b = Block::new();
    assert!(b.is_full());
    assert!(!b.is_occluder());
    assert!(dirt().is_occluder());
    let m = Block::Multiple(vec![BlockData::new(Shape::Mini, Material::Dirt)]);
    assert!(!m.is_full());
    assert!(!m.is_occluder());
}

#[test]
fn cube_face_indices() {
    assert_eq!(CubeFace::PlusX.index(), 0);
    assert_eq!(CubeFace::PlusZ.index(), 2);
    assert_eq!(CubeFace::MinusZ.index(), 5);
}

#[test]
fn lone_block_shows_all_faces() {
    let mut bundle = BlockBundle::new();
    *bundle.get_mut(5, 5, 5) = dirt();
    assert_eq!(
        faces(face_visibility(&bundle, 5, 5, 5)),
        vec![
            CubeFace::MinusX,
            CubeFace::PlusX,
            CubeFace::MinusY,
            CubeFace::PlusY,
            CubeFace::MinusZ,
            CubeFace::PlusZ
        ]
    );
}

#[test]
fn face_between_occluders_is_hidden() {
    let mut bundle = BlockBundle::new();
    *bundle.get_mut(5, 5, 5) = dirt();
    *bundle.get_mut(6, 5, 5) = Block::Full(BlockData::new(Shape::Block, Material::Grass));
    let list = face_visibility(&bundle, 5, 5, 5);
    assert_eq!(
        list,
        [
            Some(CubeFace::MinusX),
            Some(CubeFace::MinusY),
            Some(CubeFace::PlusY),
            Some(CubeFace::MinusZ),
            Some(CubeFace::PlusZ),
            None
        ]
    );
    assert!(!faces(face_visibility(&bundle, 6, 5, 5)).contains(&CubeFace::MinusX));
}

#[test]
fn face_next_to_transparent_or_partial_is_shown() {
    let mut bundle = BlockBundle::new();
    *bundle.get_mut(5, 5, 5) = dirt();
    *bundle.get_mut(5, 6, 5) = Block::Multiple(vec![BlockData::new(Shape::Mini, Material::Dirt)]);
    *bundle.get_mut(5, 5, 6) = Block::Full(BlockData::new(Shape::Block, Material::Empty));
    let list = faces(face_visibility(&bundle, 5, 5, 5));
    assert!(list.contains(&CubeFace::PlusY));
    assert!(list.contains(&CubeFace::PlusZ));
    assert_eq!(list.len(), 6);
}

#[test]
fn faces_on_bundle_border_are_exposed() {
    let mut bundle = BlockBundle::new();
    *bundle.get_mut(0, 0, 0) = dirt();
    *bundle.get_mut(15, 15, 15) = dirt();
    *bundle.get_mut(14, 15, 15) = dirt();
    assert_eq!(faces(face_visibility(&bundle, 0, 0, 0)).len(), 6);
    let top = faces(face_visibility(&bundle, 15, 15, 15));
    assert!(top.contains(&CubeFace::PlusX));
    assert!(!top.contains(&CubeFace::MinusX));
    assert_eq!(top.len(), 5);
}

#[test]
fn world_window_addressing() {
    let mut world = WorldData::new(2, 1, 1, 1);
    assert_eq!(world.bundles.len(), 8);
    assert_eq!(world.world_bundle_squared, 4);
    assert!(world.get(0, 20, 20).is_none());
    assert!(world.get(20, 20, 48).is_none());
    assert!(world.get(16, 16, 16).is_some());
    assert!(world.get(47, 47, 47).is_some());
    assert!(world.get_bundle(0, 1, 1).is_none());
    assert!(world.get_bundle(3, 1, 1).is_none());
    assert!(world.get_bundle(2, 2, 2).is_some());
    assert!(world.get_mut(5, 40, 40).is_none());
    *world.get_mut(40, 17, 33).unwrap() = dirt();
    let (block, _) = world.get(40, 17, 33).unwrap();
    assert!(block.is_occluder());
    let bundle = world.get_bundle(2, 1, 2).unwrap();
    assert!(bundle.get(8, 1, 1).is_occluder());
    assert!(!world.get(40, 17, 34).unwrap().0.is_occluder());
}

#[test]
fn bundle_corners_span_the_bundle() {
    let world = WorldData::new(2, 1, 0, 0);
    let corners = world.bundle_corners(1, 0, 1);
    assert_eq!(corners[0], (128, 0, 64));
    assert_eq!(corners[1], (192, 0, 64));
    assert_eq!(corners[2], (128, 64, 64));
    assert_eq!(corners[4], (128, 0, 128));
    assert_eq!(corners[7], (192, 64, 128));
    let mut seen = corners.to_vec();
    seen.sort();
    seen.dedup();
    assert_eq!(seen.len(), 8);
}

#[test]
fn culled_bundle_draws_nothing() {
    let mut world = WorldData::new(1, 0, 0, 0);
    *world.get_mut(3, 3, 3).unwrap() = dirt();
    assert!(world.draw_bundle(0, 0, 0, [false; 8]).is_empty());
    let mut one = [false; 8];
    one[6] = true;
    assert_eq!(world.draw_bundle(0, 0, 0, one).len(), 6);
    assert!(world.draw_bundle(1, 0, 0, [true; 8]).is_empty());
}

#[test]
fn draw_block_skips_transparent_and_partial() {
    let mut bundle = BlockBundle::new();
    *bundle.get_mut(1, 1, 1) = Block::Multiple(vec![BlockData::new(Shape::Mini, Material::Dirt)]);
    let mut out = Vec::new();
    draw_block(&bundle, 1, 1, 1, &mut out);
    draw_block(&bundle, 2, 2, 2, &mut out);
    assert!(out.is_empty());
    *bundle.get_mut(2, 2, 2) = Block::Full(BlockData::new(Shape::VPlank, Material::Grass));
    draw_block(&bundle, 2, 2, 2, &mut out);
    assert_eq!(out.len(), 6);
    assert_eq!(
        out[0],
        FaceDraw { x: 2, y: 2, z: 2, face: CubeFace::MinusX, shape: Shape::VPlank, texture: 0 }
    );
}

#[test]
fn cube_face_corners_lie_on_their_side() {
    assert_eq!(
        CubeFace::PlusZ.corner_signs(),
        [[-1, -1, 1], [1, -1, 1], [1, 1, 1], [-1, 1, 1]]
    );
    assert_eq!(
        CubeFace::MinusX.corner_signs(),
        [[-1, -1, -1], [-1, -1, 1], [-1, 1, 1], [-1, 1, -1]]
    );
    for face in [
        CubeFace::PlusX,
        CubeFace::PlusY,
        CubeFace::PlusZ,
        CubeFace::MinusX,
        CubeFace::MinusY,
        CubeFace::MinusZ,
    ] {
        let c = face.corner_signs();
        // outward normal from the first three corners: (c1 - c0) x (c2 - c0)
        let d1 = [c[1][0] - c[0][0], c[1][1] - c[0][1], c[1][2] - c[0][2]];
        let d2 = [c[2][0] - c[0][0], c[2][1] - c[0][1], c[2][2] - c[0][2]];
        let n = [
            d1[1] * d2[2] - d1[2] * d2[1],
            d1[2] * d2[0] - d1[0] * d2[2],
            d1[0] * d2[1] - d1[1] * d2[0],
        ];
        let axis = match face {
            CubeFace::PlusX | CubeFace::MinusX => 0,
            CubeFace::PlusY | CubeFace::MinusY => 1,
            _ => 2,
        };
        for k in 0..4 {
            assert_eq!(c[k][axis], c[0][axis]);
        }
        assert_eq!(n[axis].signum(), c[0][axis]);
    }
}
