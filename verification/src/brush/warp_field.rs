//! Warp field: the stroke scratch as a displacement map.
//!
//! A warp terminal (liquify, and any pinch/swirl/bloat sibling) keeps the
//! accumulated displacement `source − target` in its scratch instead of the
//! picture. Per dab it advects the field by the dab's own offset and adds
//! that offset: `field'(p) = field(p + nv) + nv`.

use vstd::prelude::*;

use crate::text::concat5;

verus! {

/// The WGSL fragment tail [`advect_wgsl`] emits for `offset_expr` and the
/// dab field named `copy_origin_field`.
pub open spec fn advect_source(offset_expr: Seq<char>, copy_origin_field: Seq<char>) -> Seq<
    char,
> {
    "    let nv = "@ + offset_expr + ";\n    let prev = warp_field_bilinear(\n        scratch_mirror_tex, target_pos + nv - d."@
        + copy_origin_field + ");\n    return vec4<f32>(prev + nv, 0.0, 0.0);\n"@
}

/// The per-dab fragment tail every warp terminal shares: advect the
/// accumulated field by this dab's offset, add the offset, write it back.
///
/// `offset_expr` must evaluate to a `vec2<f32>`: the displacement this dab
/// contributes at the current fragment. `copy_origin_field` names the dab
/// record field holding the mirror snapshot's origin.
pub fn advect_wgsl(offset_expr: &str, copy_origin_field: &str) -> (r: String)
    ensures
        r@ == advect_source(offset_expr@, copy_origin_field@),
{
    concat5(
        "    let nv = ",
        offset_expr,
        ";\n    let prev = warp_field_bilinear(\n        scratch_mirror_tex, target_pos + nv - d.",
        copy_origin_field,
        ");\n    return vec4<f32>(prev + nv, 0.0, 0.0);\n",
    )
}

} // verus!
