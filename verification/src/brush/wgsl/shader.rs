//! Assembly of a compiled brush's two shader variants: the generated
//! per-dab and uniform structs, the bind groups, the node declarations, the
//! vertex stage of the variant, and the fragment stage that binds the
//! fragment-local helpers before splicing in the node bodies.

use vstd::prelude::*;

use crate::brush::wgsl::compile::{field_view, fields_view, line_appended, FieldDecl, FieldView};
use crate::brush::wgsl_compile::ShaderMode;
use crate::brush::wgsl::type_system::ty_name;
use crate::text::owned;

verus! {

/// The stroke variant's vertex stage: an instanced quad per dab, mapped
/// against the layer's viewport.
pub const STROKE_VERTEX_STAGE_WGSL: &'static str = r#"
struct VsOut {
    @builtin(position) clip:        vec4<f32>,
    @location(0) target_pos:        vec2<f32>,
    @location(1) @interpolate(flat) dab_idx: u32,
};

fn quad_corner(vi: u32) -> vec2<f32> {
    var corners = array<vec2<f32>, 6>(
        vec2<f32>(0.0, 0.0),
        vec2<f32>(1.0, 0.0),
        vec2<f32>(0.0, 1.0),
        vec2<f32>(1.0, 0.0),
        vec2<f32>(1.0, 1.0),
        vec2<f32>(0.0, 1.0),
    );
    return corners[vi];
}

@vertex
fn vs_main(
    @builtin(vertex_index)   vi: u32,
    @builtin(instance_index) ii: u32,
) -> VsOut {
    let dab = dabs[ii];
    let corner = quad_corner(vi);
    // `dab.bbox_target_px` is the dab's bbox half-extent in the target's
    // pixel space (stroke target ≡ canvas px). The fragment stage
    // discards past the same bound, so the quad covers exactly what
    // the shader can write — no waste, no clipping. The CPU side packs
    // the same value into the dab record and uses it for the
    // layer-clip bbox, so the save-point system tracks the same
    // footprint the shader writes.
    let quad_half = dab.bbox_target_px;
    let target_pos = dab.pos + (corner * 2.0 - vec2<f32>(1.0, 1.0)) * quad_half;
    let layer_offset = u.intrinsic.layer_offset;
    let layer_size = u.intrinsic.layer_size;
    let local = target_pos - vec2<f32>(f32(layer_offset.x), f32(layer_offset.y));
    let layer_w = f32(layer_size.x);
    let layer_h = f32(layer_size.y);
    let clip = vec2<f32>(
        local.x / layer_w * 2.0 - 1.0,
        1.0 - local.y / layer_h * 2.0,
    );
    var out: VsOut;
    out.clip       = vec4<f32>(clip, 0.0, 1.0);
    out.target_pos = target_pos;
    out.dab_idx    = ii;
    return out;
}
"#;

/// The preview variant's vertex stage: one quad around the single dab,
/// mapped against the preview mask's viewport.
pub const PREVIEW_VERTEX_STAGE_WGSL: &'static str = r#"
struct VsOut {
    @builtin(position) clip:        vec4<f32>,
    @location(0) target_pos:        vec2<f32>,
    @location(1) @interpolate(flat) dab_idx: u32,
};

fn quad_corner(vi: u32) -> vec2<f32> {
    var corners = array<vec2<f32>, 6>(
        vec2<f32>(0.0, 0.0),
        vec2<f32>(1.0, 0.0),
        vec2<f32>(0.0, 1.0),
        vec2<f32>(1.0, 0.0),
        vec2<f32>(1.0, 1.0),
        vec2<f32>(0.0, 1.0),
    );
    return corners[vi];
}

@vertex
fn vs_main(@builtin(vertex_index) vi: u32) -> VsOut {
    let dab = dabs[0];
    let corner = quad_corner(vi);
    // Read `dab.pos` instead of `u.intrinsic.preview_centre` so the
    // dab record is the single source of truth for positioning. The
    // CPU side packs `pos = preview_centre`, making the two equivalent
    // by construction, but threading through `dab.pos` keeps the
    // vertex structurally identical to stroke's modulo the clip-space
    // mapping — the invariant is the same: target-space pos, bbox in
    // target px.
    let target_pos = dab.pos + (corner * 2.0 - vec2<f32>(1.0, 1.0)) * dab.bbox_target_px;
    let preview_size_f = vec2<f32>(
        f32(u.intrinsic.preview_size.x),
        f32(u.intrinsic.preview_size.y),
    );
    let clip = vec2<f32>(
        target_pos.x / preview_size_f.x * 2.0 - 1.0,
        1.0 - target_pos.y / preview_size_f.y * 2.0,
    );
    var out: VsOut;
    out.clip       = vec4<f32>(clip, 0.0, 1.0);
    out.target_pos = target_pos;
    out.dab_idx    = 0u;
    return out;
}
"#;

/// The opening of the fragment stage: the dab, the fragment's position
/// relative to it (discarding past its footprint), and the helpers node
/// bodies may read.
pub const FRAGMENT_HEAD_WGSL: &'static str = r#"@fragment
fn fs_main(in: VsOut) -> @location(0) vec4<f32> {
    let d = dabs[in.dab_idx];
    let target_pos = in.target_pos;
    let local = target_pos - d.pos;
    let local_dist_px = length(local);
    if (local_dist_px >= d.bbox_target_px) {
        discard;
    }
    let local_uv = local * d.inv_radius_target_px;
    let local_dist = length(local_uv);
    let theta = atan2(local_uv.y, local_uv.x);
    let canvas_size = vec2<f32>(
        f32(u.intrinsic.canvas_size.x),
        f32(u.intrinsic.canvas_size.y),
    );
"#;

/// The selection line of the stroke variant: the selection texture sampled
/// at the fragment.
pub const STROKE_SELECTION_WGSL: &'static str = "    let sel = textureSampleLevel(sel_tex, sel_smp, target_pos / canvas_size, 0.0).r;\n";

/// The selection line of the preview variant: the whole footprint.
pub const PREVIEW_SELECTION_WGSL: &'static str = "    let sel: f32 = 1.0;\n";

/// The struct member lines of `fs`.
pub open spec fn members_text(fs: Seq<FieldView>) -> Seq<char>
    decreases fs.len(),
{
    if fs.len() == 0 {
        Seq::empty()
    } else {
        members_text(fs.drop_last()) + "    "@ + fs.last().0 + ": "@ + ty_name(fs.last().1) + ",\n"@
    }
}

/// The bind group lines of a variant; the stroke variant adds the selection
/// texture and the terminal's own bindings.
pub open spec fn bindings_text(mode: ShaderMode, terminal_bindings: Seq<char>) -> Seq<char> {
    let common = "@group(0) @binding(0) var<uniform> u: Uniforms;\n"@ + "@group(1) @binding(0) var<storage, read> dabs: array<DabRecord>;\n"@;
    match mode {
        ShaderMode::Stroke => line_appended(
            common + "@group(2) @binding(0) var sel_tex: texture_2d<f32>;\n"@ + "@group(2) @binding(1) var sel_smp: sampler;\n"@,
            terminal_bindings,
        ),
        ShaderMode::Preview => common,
    }
}

/// The text of a shader variant: `prelude` (the shared shape and prelude
/// sources), the dab and uniform structs, the bind groups, the node
/// declarations, the variant's vertex stage, and the fragment stage around
/// `body`.
pub open spec fn shader_text(
    mode: ShaderMode,
    prelude: Seq<char>,
    dab: Seq<FieldView>,
    uniforms: Seq<FieldView>,
    decls: Seq<char>,
    body: Seq<char>,
    terminal_bindings: Seq<char>,
) -> Seq<char> {
    prelude + "struct DabRecord {\n"@ + members_text(dab) + "};\n\n"@ + "struct Uniforms {\n"@
        + "    intrinsic: IntrinsicUniforms,\n"@ + members_text(uniforms) + "};\n\n"@ + bindings_text(
        mode,
        terminal_bindings,
    ) + "\n"@ + decls + "\n"@ + (match mode {
        ShaderMode::Stroke => STROKE_VERTEX_STAGE_WGSL@,
        ShaderMode::Preview => PREVIEW_VERTEX_STAGE_WGSL@,
    }) + "\n"@ + FRAGMENT_HEAD_WGSL@ + (match mode {
        ShaderMode::Stroke => STROKE_SELECTION_WGSL@,
        ShaderMode::Preview => PREVIEW_SELECTION_WGSL@,
    }) + body + "}\n"@
}

/// Append the struct member lines of `fs` to `out`.
fn push_members(out: &mut String, fs: &Vec<FieldDecl>)
    ensures
        final(out)@ == old(out)@ + members_text(fields_view(fs@)),
{
    let ghost fv = fields_view(fs@);
    let ghost start = out@;
    let mut i: usize = 0;
    assert(fv.take(0) =~= Seq::<FieldView>::empty());
    assert(start + members_text(fv.take(0)) =~= start);
    while i < fs.len()
        invariant
            i <= fs@.len(),
            fv == fields_view(fs@),
            start == old(out)@,
            out@ == start + members_text(fv.take(i as int)),
        decreases fs@.len() - i,
    {
        assert(fv.take(i + 1).drop_last() =~= fv.take(i as int));
        assert(fv.take(i + 1).last() == field_view(fs@[i as int]));
        out.append("    ");
        out.append(fs[i].name.as_str());
        out.append(": ");
        let ty = fs[i].ty.wgsl_name();
        out.append(ty);
        out.append(",\n");
        assert(out@ =~= start + members_text(fv.take(i + 1)));
        i = i + 1;
    }
    assert(fv.take(fv.len() as int) =~= fv);
}

/// Assemble the `mode` variant of a compiled brush's shader.
pub fn assemble_shader(
    mode: ShaderMode,
    prelude: &str,
    dab_fields: &Vec<FieldDecl>,
    uniform_fields: &Vec<FieldDecl>,
    decls: &str,
    body: &str,
    terminal_bindings: &str,
) -> (r: String)
    ensures
        r@ == shader_text(mode, prelude@, fields_view(dab_fields@), fields_view(uniform_fields@), decls@, body@, terminal_bindings@),
{
    let mut out = owned(prelude);
    out.append("struct DabRecord {\n");
    push_members(&mut out, dab_fields);
    out.append("};\n\n");
    out.append("struct Uniforms {\n");
    out.append("    intrinsic: IntrinsicUniforms,\n");
    push_members(&mut out, uniform_fields);
    out.append("};\n\n");
    let mut binds = owned("@group(0) @binding(0) var<uniform> u: Uniforms;\n");
    binds.append("@group(1) @binding(0) var<storage, read> dabs: array<DabRecord>;\n");
    match mode {
        ShaderMode::Stroke => {
            binds.append("@group(2) @binding(0) var sel_tex: texture_2d<f32>;\n");
            binds.append("@group(2) @binding(1) var sel_smp: sampler;\n");
            crate::brush::wgsl::compile::append_line(&mut binds, terminal_bindings);
        },
        ShaderMode::Preview => {},
    }
    assert(binds@ == bindings_text(mode, terminal_bindings@));
    out.append(binds.as_str());
    out.append("\n");
    out.append(decls);
    out.append("\n");
    match mode {
        ShaderMode::Stroke => out.append(STROKE_VERTEX_STAGE_WGSL),
        ShaderMode::Preview => out.append(PREVIEW_VERTEX_STAGE_WGSL),
    }
    out.append("\n");
    out.append(FRAGMENT_HEAD_WGSL);
    match mode {
        ShaderMode::Stroke => out.append(STROKE_SELECTION_WGSL),
        ShaderMode::Preview => out.append(PREVIEW_SELECTION_WGSL),
    }
    out.append(body);
    out.append("}\n");
    out
}

} // verus!
