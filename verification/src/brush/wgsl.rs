//! Framework pieces for compiling brush graphs to WGSL: the std430 type
//! system and layout, the sampling-frame selector, the shader-variant tag,
//! and the compile error.

pub mod type_system;
pub mod sample_frame;
pub mod context;
pub mod extent;
pub mod compile;
pub mod shader;

use vstd::prelude::*;

use crate::text::{concat4, owned};

pub use context::{ShaderMode, TextureSlots};
pub use extent::ExtentCtx;
pub use sample_frame::SampleFrame;
pub use type_system::WgslType;

verus! {

/// Errors raised when a brush graph cannot compile to WGSL.
#[derive(Debug, Clone, PartialEq, Eq)]
pub enum CompileError {
    /// A node's WGSL emission failed. Carries the node's `type_id` and the
    /// reason, for diagnostics.
    NodeNotCompilable { type_id: String, reason: String },
    /// The graph has no terminal node (nothing produces a value to feed the
    /// fragment shader's return).
    NoTerminal,
}

/// The diagnostic text of a compile error.
pub open spec fn compile_error_text(e: CompileError) -> Seq<char> {
    match e {
        CompileError::NodeNotCompilable { type_id, reason } => "node `"@ + type_id@
            + "` is not WGSL-compilable: "@ + reason@,
        CompileError::NoTerminal => "graph has no terminal node (nothing to render)"@,
    }
}

impl CompileError {
    /// The diagnostic text of this error (what it displays as).
    pub fn message(&self) -> (r: String)
        ensures
            r@ == compile_error_text(*self),
    {
        match self {
            CompileError::NodeNotCompilable { type_id, reason } => concat4(
                "node `",
                type_id.as_str(),
                "` is not WGSL-compilable: ",
                reason.as_str(),
            ),
            CompileError::NoTerminal => owned("graph has no terminal node (nothing to render)"),
        }
    }
}

} // verus!
