//! WAD archive reading, image decoding and level metadata for a DOOM renderer.
pub mod analysis;
pub mod archive;
pub mod image;
pub mod index_map;
pub mod meta;
pub mod name;
pub mod render;
pub mod types;
pub mod visitor;
