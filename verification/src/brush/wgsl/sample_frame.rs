//! Coordinate frame a spatial sampling node (`noise`, `image`) samples in.

use vstd::prelude::*;

use crate::text::owned;

verus! {

/// Coordinate frame a spatial node samples in.
#[derive(Clone, Copy, Debug, PartialEq, Eq, Structural)]
pub enum SampleFrame {
    /// Canvas-global pixel space: grain pinned to the canvas.
    Canvas,
    /// The dab's oriented unit frame: grain moves rigidly with each stamp.
    Dab,
}

impl SampleFrame {
    /// Map a `space` enum index to a frame. Index order matches the node's
    /// options list (`["Canvas", "Dab"]`); anything out of range falls back
    /// to `Canvas`, the safe default.
    pub fn from_index(i: u32) -> (r: Self)
        ensures
            r == (if i == 1 {
                SampleFrame::Dab
            } else {
                SampleFrame::Canvas
            }),
    {
        match i {
            1 => Self::Dab,
            _ => Self::Canvas,
        }
    }
}

/// The sample coordinate in the canvas frame: the target position over the
/// scale converted to canvas pixels.
pub open spec fn canvas_coord(scale: Seq<char>) -> Seq<char> {
    "target_pos / (("@ + scale + ") * u.intrinsic.dpi_factor)"@
}

/// The `let` lines the dab frame needs before its coordinate: the stamp's
/// rotation basis, the unit-disc offset rotated into it, the per-dab
/// decorrelation offset of the periodic field, and the dab radius in pixels.
pub open spec fn dab_preamble(ident: Seq<char>, rotation: Seq<char>, variation: Seq<char>, period: Seq<char>) -> Seq<char> {
    "    let "@ + ident + "_ca = cos("@ + rotation + ");\n"@
        + "    let "@ + ident + "_sa = sin("@ + rotation + ");\n"@
        + "    let "@ + ident + "_dab_local = vec2<f32>(\n"@
        + "        local_uv.x * "@ + ident + "_ca + local_uv.y * "@ + ident + "_sa,\n"@
        + "       -local_uv.x * "@ + ident + "_sa + local_uv.y * "@ + ident + "_ca,\n"@
        + "    );\n"@
        + "    let "@ + ident + "_off = fbm_offset2(u32(max(("@ + variation + "), 0.0) * 4096.0), "@ + period + ");\n"@
        + "    let "@ + ident + "_radius_px = 1.0 / d.inv_radius_target_px;\n"@
}

/// The sample coordinate in the dab frame: the rotated offset in dab pixels
/// over the scale converted to canvas pixels, shifted by the decorrelation
/// offset.
pub open spec fn dab_coord(ident: Seq<char>, scale: Seq<char>) -> Seq<char> {
    "("@ + ident + "_dab_local * "@ + ident + "_radius_px) / (("@ + scale + ") * u.intrinsic.dpi_factor) + "@ + ident
        + "_off"@
}

/// Emit the `vec2<f32>` sample coordinate of a spatial node as
/// `(preamble, coord)`: `preamble` holds the `let` lines to splice into the
/// fragment body before `coord` is used.
///
/// `scale_expr`, `rotation_expr` and `variation_expr` are the node's input
/// expressions (a literal when unwired); the scale is interpolated
/// parenthesized, so a wired expression composes. `period` is the repeat
/// period of the sampled field, rendered with six decimals; the canvas frame
/// ignores it, and rotation and variation with it. `ident` prefixes the
/// emitted `let` names.
pub fn frame_sample_coord_expr(
    space: SampleFrame,
    scale_expr: &str,
    rotation_expr: &str,
    variation_expr: &str,
    period: &str,
    ident: &str,
) -> (r: (String, String))
    ensures
        space == SampleFrame::Canvas ==> r.0@ == Seq::<char>::empty() && r.1@ == canvas_coord(scale_expr@),
        space == SampleFrame::Dab ==> r.0@ == dab_preamble(ident@, rotation_expr@, variation_expr@, period@)
            && r.1@ == dab_coord(ident@, scale_expr@),
{
    match space {
        SampleFrame::Canvas => {
            let mut coord = owned("target_pos / ((");
            coord.append(scale_expr);
            coord.append(") * u.intrinsic.dpi_factor)");
            (String::new(), coord)
        },
        SampleFrame::Dab => {
            let mut pre = owned("    let ");
            pre.append(ident);
            pre.append("_ca = cos(");
            pre.append(rotation_expr);
            pre.append(");\n");
            pre.append("    let ");
            pre.append(ident);
            pre.append("_sa = sin(");
            pre.append(rotation_expr);
            pre.append(");\n");
            pre.append("    let ");
            pre.append(ident);
            pre.append("_dab_local = vec2<f32>(\n");
            pre.append("        local_uv.x * ");
            pre.append(ident);
            pre.append("_ca + local_uv.y * ");
            pre.append(ident);
            pre.append("_sa,\n");
            pre.append("       -local_uv.x * ");
            pre.append(ident);
            pre.append("_sa + local_uv.y * ");
            pre.append(ident);
            pre.append("_ca,\n");
            pre.append("    );\n");
            pre.append("    let ");
            pre.append(ident);
            pre.append("_off = fbm_offset2(u32(max((");
            pre.append(variation_expr);
            pre.append("), 0.0) * 4096.0), ");
            pre.append(period);
            pre.append(");\n");
            pre.append("    let ");
            pre.append(ident);
            pre.append("_radius_px = 1.0 / d.inv_radius_target_px;\n");
            let mut coord = owned("(");
            coord.append(ident);
            coord.append("_dab_local * ");
            coord.append(ident);
            coord.append("_radius_px) / ((");
            coord.append(scale_expr);
            coord.append(") * u.intrinsic.dpi_factor) + ");
            coord.append(ident);
            coord.append("_off");
            (pre, coord)
        },
    }
}

} // verus!
