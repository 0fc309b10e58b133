//! The brush subsystem.

pub mod wire;
pub mod pack_icons;
pub mod pack;
pub mod pack_file;
pub mod texture_source;
pub mod pipeline;
pub mod warp_field;
pub mod stabilizer;
pub mod wgsl;
pub mod wgsl_compile;
pub mod registry;
pub mod preview_subgraph;
pub mod preset;
pub mod preset_library;
pub mod portable;

pub use registry::{default_graph, BrushNodeRegistration, BrushNodeRegistry};
