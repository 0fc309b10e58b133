//! The single-module form of the brush WGSL compiler's public surface: the
//! type system and layout helpers, the compile error, and its own two-mode
//! shader tag.

use vstd::prelude::*;

pub use crate::brush::wgsl::type_system::{align_to, compute_struct_size, WgslType};
pub use crate::brush::wgsl::{CompileError, ExtentCtx};
pub use crate::brush::wgsl::compile::{
    compile_brush_to_wgsl, intrinsic_dab_header, CompileCtx, CompiledBrush, ExecStep, ExecutionPlan, FieldDecl, FixedCompiler,
    InputSlot, NodeCompiler, NodeWgsl, WireRemap,
};

verus! {

/// Which of the two compiled shader variants is being assembled: the
/// instanced per-dab `Stroke` skeleton, or the single-quad `Preview`.
#[derive(Copy, Clone, Debug, Eq, PartialEq, Structural)]
pub enum ShaderMode {
    Stroke,
    Preview,
}

} // verus!
