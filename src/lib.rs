//! A software voxel renderer: the integer core of the pipeline.
//!
//! The world model, face culling, chunk selection, texture sampling and the
//! depth-tested frame buffer live here with their contracts. Floating-point
//! geometry (matrices, projection, barycentric stepping) is done by the caller,
//! which hands this crate plain integers: pixel coordinates, texel indices and
//! depth keys.
mod base16;
mod face;
mod fixedpoint;
mod framebuffer;
mod gfx;
mod material;
mod world;

pub use base16::{decode_texture_line, Base16Reader};
pub use face::CubeFace;
pub use fixedpoint::{Fixed32, FIXED32_ONE, FIXED32_SCALE};
pub use framebuffer::{FrameBuffer, PixelWrite, DEPTH_CLEAR, DEPTH_ONE};
pub use gfx::{
    Color, Texture, MAX_TEXTURE_COORD, TEXTURE_BYTES, TEXTURE_LEN, TEXTURE_SIZE, TEXTURE_TEXELS,
};
pub use material::{Material, MaterialData};
pub use world::{
    draw_block, face_visibility, Block, BlockBundle, BlockData, FaceDraw, Shape, WorldData,
    BLOCK_BUNDLE_SIZE, BUNDLE_UNITS, BUNDLE_VOLUME, UNITS_PER_BLOCK,
};
