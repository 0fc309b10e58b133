use darkly::brush::stabilizer::StabilizerConfig;
use darkly::brush::texture_source::{BakeChannels, BakeKind, BakeSpec, ResolvedSource};
use darkly::brush::wgsl::type_system::{align_to, compute_struct_size, WgslType};
use darkly::brush::wgsl::context::{dab_field_name, ident, uniform_field_name};
use darkly::brush::wgsl::sample_frame::frame_sample_coord_expr;
use darkly::brush::wgsl::{CompileError, SampleFrame, ShaderMode, TextureSlots};
use darkly::nodegraph::NodeId;
use darkly::brush::wgsl_compile;

#[test]
fn type_system_align_to_basic() {
    assert_eq!(align_to(0, 4), 0);
    assert_eq!(align_to(1, 4), 4);
    assert_eq!(align_to(4, 4), 4);
    assert_eq!(align_to(5, 4), 8);
    assert_eq!(align_to(12, 16), 16);
    assert_eq!(align_to(16, 16), 16);
}

#[test]
fn wgsl_compile_align_to_basic() {
    assert_eq!(wgsl_compile::align_to(0, 4), 0);
    assert_eq!(wgsl_compile::align_to(1, 4), 4);
    assert_eq!(wgsl_compile::align_to(4, 4), 4);
    assert_eq!(wgsl_compile::align_to(5, 4), 8);
    assert_eq!(wgsl_compile::align_to(12, 16), 16);
    assert_eq!(wgsl_compile::align_to(16, 16), 16);
}

#[test]
fn type_system_struct_size_simple() {
    // vec2 (8) + f32 (4) + f32 (4) = 16, aligned to 8 = 16.
    assert_eq!(compute_struct_size(&[WgslType::Vec2, WgslType::F32, WgslType::F32]), 16);
}

#[test]
fn type_system_struct_size_with_vec4() {
    // f32 (4) -> align to 16 (pad 12) -> vec4 (16) = 32.
    assert_eq!(compute_struct_size(&[WgslType::F32, WgslType::Vec4]), 32);
}

#[test]
fn wgsl_compile_struct_size_matches() {
    assert_eq!(wgsl_compile::compute_struct_size(&[WgslType::Vec2, WgslType::F32, WgslType::F32]), 16);
    assert_eq!(wgsl_compile::compute_struct_size(&[]), 0);
}

#[test]
fn wgsl_type_layouts() {
    assert_eq!((WgslType::F32.size(), WgslType::F32.align()), (4, 4));
    assert_eq!((WgslType::Vec2.size(), WgslType::Vec2.align()), (8, 8));
    assert_eq!((WgslType::Vec4.size(), WgslType::Vec4.align()), (16, 16));
    assert_eq!(WgslType::Vec4.wgsl_name(), "vec4<f32>");
}

#[test]
fn from_index_maps_options() {
    assert_eq!(SampleFrame::from_index(0), SampleFrame::Canvas);
    assert_eq!(SampleFrame::from_index(1), SampleFrame::Dab);
    assert_eq!(SampleFrame::from_index(7), SampleFrame::Canvas);
}

#[test]
fn compile_errors_describe_themselves() {
    let e = CompileError::NodeNotCompilable { type_id: "noise".into(), reason: "no WGSL".into() };
    assert_eq!(e.message(), "node `noise` is not WGSL-compilable: no WGSL");
    assert_eq!(CompileError::NoTerminal.message(), "graph has no terminal node (nothing to render)");
    assert_ne!(ShaderMode::Stroke, ShaderMode::CursorPreview);
}

#[test]
fn stabilizer_config_default_is_pass_through() {
    let config = StabilizerConfig::default();
    assert!(config.algorithm.is_empty());
    assert!(config.params.is_empty());
}

#[test]
fn resolution_scales_with_octaves_and_clamps() {
    assert_eq!(BakeSpec::resolution_for_octaves(1), 512);
    assert_eq!(BakeSpec::resolution_for_octaves(4), 512);
    assert_eq!(BakeSpec::resolution_for_octaves(8), 2048);
    assert_eq!(BakeSpec::resolution_for_octaves(0), 512);
    assert_eq!(BakeSpec::resolution_for_octaves(99), 2048);
}

#[test]
fn resolution_steps_by_octave() {
    assert_eq!(BakeSpec::resolution_for_octaves(5), 512);
    assert_eq!(BakeSpec::resolution_for_octaves(6), 1024);
    assert_eq!(BakeSpec::resolution_for_octaves(7), 2048);
    assert_eq!(BakeSpec::resolution_for_octaves(-3), 512);
}

#[test]
fn named_sources_label_by_name() {
    assert_eq!(ResolvedSource::Named("paper".into()).binding_label(), "paper");
    let spec = BakeSpec {
        kind: BakeKind::Noise { seed: 1, octaves: 4, warp_q: 0, roughness_q: 0 },
        resolution: BakeSpec::resolution_for_octaves(4),
        channels: BakeChannels::Grayscale,
    };
    assert_eq!(ResolvedSource::Baked(spec).binding_label(), "<baked noise>");
}

#[test]
fn node_names_carry_the_node_id() {
    assert_eq!(ident(NodeId(12), "noise"), "noise_12");
    assert_eq!(dab_field_name(NodeId(3), "size"), "n3_size");
    assert_eq!(uniform_field_name(NodeId(0), "tint"), "n0_tint");
}

#[test]
fn requesting_a_texture_twice_binds_it_once() {
    let mut slots = TextureSlots::new();
    assert_eq!(slots.request_texture("paper"), 0);
    assert_eq!(slots.request_texture("canvas"), 1);
    assert_eq!(slots.request_texture("paper"), 0);
    let spec = BakeSpec {
        kind: BakeKind::Noise { seed: 7, octaves: 3, warp_q: 0, roughness_q: 0 },
        resolution: 512,
        channels: BakeChannels::Rgba,
    };
    assert_eq!(slots.request_source(ResolvedSource::Baked(spec)), 2);
    assert_eq!(slots.request_source(ResolvedSource::Baked(spec)), 2);
    assert_eq!(slots.sources().len(), 3);
}

#[test]
fn canvas_interpolates_scale_expr_parenthesized() {
    let (pre, coord) =
        frame_sample_coord_expr(SampleFrame::Canvas, "32.000000", "d.n1_rotation", "d.n2_variation", "16.000000", "noise_3");
    assert!(pre.is_empty(), "Canvas emits no preamble");
    assert_eq!(coord, "target_pos / ((32.000000) * u.intrinsic.dpi_factor)");
    assert!(!coord.contains("dab_local"));
    assert!(!coord.contains("rotation"));
}

#[test]
fn dab_rotates_local_uv_by_rotation_expr() {
    let (pre, _coord) = frame_sample_coord_expr(SampleFrame::Dab, "8.000000", "1.5", "0.0", "16.000000", "noise_3");
    assert!(pre.contains("cos(1.5)"));
    assert!(pre.contains("sin(1.5)"));
    assert!(pre.contains("noise_3_dab_local"));
    assert!(pre.contains("local_uv.x * noise_3_ca + local_uv.y * noise_3_sa"));
}

#[test]
fn dab_reconstructs_radius_so_scale_is_reference_pixels() {
    let (pre, coord) = frame_sample_coord_expr(SampleFrame::Dab, "8.000000", "0.0", "0.0", "1.000000", "img_5");
    assert!(pre.contains("let img_5_radius_px = 1.0 / d.inv_radius_target_px;"));
    assert!(coord.contains("(img_5_dab_local * img_5_radius_px) / ((8.000000) * u.intrinsic.dpi_factor)"));
    assert!(!coord.contains("img_5_radius_px * u.intrinsic.dpi_factor"));
}

#[test]
fn both_frames_convert_the_scale_expression() {
    for (frame, ident) in [(SampleFrame::Canvas, "noise_1"), (SampleFrame::Dab, "noise_2")] {
        let (_, coord) = frame_sample_coord_expr(frame, "d.n7_size", "0.0", "0.0", "16.000000", ident);
        assert!(
            coord.contains("(d.n7_size) * u.intrinsic.dpi_factor"),
            "{frame:?} must convert the wired scale expression, got {coord}"
        );
    }
}

#[test]
fn dab_variation_offset_is_2d_and_period_bounded() {
    let (pre, coord) =
        frame_sample_coord_expr(SampleFrame::Dab, "8.000000", "0.0", "d.n2_variation", "16.000000", "noise_3");
    assert!(pre.contains("let noise_3_off = fbm_offset2(u32(max((d.n2_variation), 0.0) * 4096.0), 16.000000)"));
    assert!(coord.contains("+ noise_3_off"));
    assert!(!coord.contains("* 64.0"));
    assert!(!coord.contains("d.n2_variation) * 64.0, (d.n2_variation)"));
}

#[test]
fn dab_preamble_is_the_whole_rotation_block() {
    let (pre, coord) = frame_sample_coord_expr(SampleFrame::Dab, "s", "r", "v", "2.000000", "n");
    assert_eq!(
        pre,
        "    let n_ca = cos(r);\n    let n_sa = sin(r);\n    let n_dab_local = vec2<f32>(\n        local_uv.x * n_ca + local_uv.y * n_sa,\n       -local_uv.x * n_sa + local_uv.y * n_ca,\n    );\n    let n_off = fbm_offset2(u32(max((v), 0.0) * 4096.0), 2.000000);\n    let n_radius_px = 1.0 / d.inv_radius_target_px;\n"
    );
    assert_eq!(coord, "(n_dab_local * n_radius_px) / ((s) * u.intrinsic.dpi_factor) + n_off");
}
