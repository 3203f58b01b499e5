use vstd::prelude::*;

verus! {

/// Static properties of a material. `texture` holds one texture id per face,
/// indexed by `CubeFace::index`.
#[derive(Clone, Copy, Debug)]
pub struct MaterialData {
    pub is_transparent: bool,
    pub is_solid: bool,
    pub texture: Option<[u16; 6]>,
}

#[derive(Clone, Copy, Debug, PartialEq, Eq, Structural)]
pub enum Material {
    Empty,
    Dirt,
    Grass,
}

impl Material {
    pub open spec fn spec_is_transparent(self) -> bool {
        self is Empty
    }

    pub open spec fn spec_is_solid(self) -> bool {
        !(self is Empty)
    }

    /// The texture id drawn on every face of an opaque material.
    pub open spec fn spec_texture_id(self) -> u16 {
        match self {
            Material::Empty => 0,
            Material::Dirt => 1,
            Material::Grass => 0,
        }
    }

    /// Whether the material hides the faces of its neighbours: solid and opaque.
    pub open spec fn spec_is_occluder(self) -> bool {
        self.spec_is_solid() && !self.spec_is_transparent()
    }

    pub fn data(self) -> (r: MaterialData)
        ensures
            r.is_transparent == self.spec_is_transparent(),
            r.is_solid == self.spec_is_solid(),
            r.texture is None <==> self.spec_is_transparent(),
            r.texture matches Some(t) ==> forall|i: int|
                0 <= i < 6 ==> #[trigger] t[i] == self.spec_texture_id(),
    {
        match self {
            Material::Empty => MaterialData { is_transparent: true, is_solid: false, texture: None },
            Material::Dirt => MaterialData {
                is_transparent: false,
                is_solid: true,
                texture: Some([1, 1, 1, 1, 1, 1]),
            },
            Material::Grass => MaterialData {
                is_transparent: false,
                is_solid: true,
                texture: Some([0, 0, 0, 0, 0, 0]),
            },
        }
    }
}

} // verus!
