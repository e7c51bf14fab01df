//! Verified core of a 2D/3D renderer: sprite animation, texture-atlas packing,
//! index-buffer construction and the bookkeeping that sits between the scene
//! description and the GPU.

pub mod time;
pub mod handle;
pub mod names;
pub mod animation;
pub mod sprite;
pub mod plain_sprite;
pub mod geometry;
pub mod image_decode;
pub mod atlas;
pub mod fonts;
pub mod rect_atlas;
pub mod shape;
pub mod layer;
pub mod draw;
pub mod mesh;
pub mod capacity;
pub mod dirty;
pub mod retained;
pub mod text_batches;
pub mod ui_packet;
pub mod shaders;
pub mod instanced_shaders;
