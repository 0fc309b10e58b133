//! Brush-library logic of the Darkly painting engine: brush packs and their
//! validation, presets and the preset library, the brush node graph and its
//! preview subgraphs, wire types, WGSL layout helpers, texture-slot recipes,
//! and clipboard pixel trimming.

pub mod text;
pub mod archive;
pub mod params;
pub mod nodegraph;
pub mod brush;
pub mod clipboard;
