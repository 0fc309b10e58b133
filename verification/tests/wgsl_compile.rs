use darkly::brush::wgsl::type_system::WgslType;
use darkly::brush::wgsl_compile::{
    compile_brush_to_wgsl, CompileError, ExecStep, ExecutionPlan, FieldDecl, FixedCompiler, InputSlot, NodeWgsl,
    WireRemap,
};
use darkly::nodegraph::{NodeId, PortRef};

const PRELUDE: &str = "// shape\n// prelude\n";

fn field(name: &str, ty: WgslType) -> FieldDecl {
    FieldDecl { name: name.into(), ty }
}

fn contribution(decls: &str, body: &str, dab: Vec<FieldDecl>, outputs: Vec<(&str, &str)>) -> NodeWgsl {
    NodeWgsl {
        decls: decls.into(),
        body: body.into(),
        outputs: outputs.into_iter().map(|(a, b)| (a.to_string(), b.to_string())).collect(),
        dab_fields: dab,
        uniform_fields: vec![],
        terminal_bindings: String::new(),
    }
}

fn fixed(n: NodeWgsl, preview_body: &str) -> FixedCompiler {
    let mut p = n.clone();
    p.body = preview_body.into();
    FixedCompiler { stroke: Ok(n), preview: Ok(p) }
}

fn step(id: u64, ty: &str, terminal: bool, inputs: Vec<InputSlot>, outputs: Vec<&str>) -> ExecStep {
    ExecStep {
        node_id: NodeId(id),
        type_id: ty.into(),
        is_terminal: terminal,
        input_slots: inputs,
        output_ports: outputs.into_iter().map(String::from).collect(),
    }
}

#[test]
fn an_empty_plan_has_no_terminal() {
    let plan = ExecutionPlan { steps: vec![] };
    let compilers: Vec<Option<FixedCompiler>> = vec![];
    assert!(matches!(compile_brush_to_wgsl(&plan, &compilers, PRELUDE), Err(CompileError::NoTerminal)));
}

#[test]
fn a_step_without_a_compiler_fails_the_brush() {
    let plan = ExecutionPlan { steps: vec![step(0, "mystery", true, vec![], vec![])] };
    let compilers: Vec<Option<FixedCompiler>> = vec![None];
    match compile_brush_to_wgsl(&plan, &compilers, PRELUDE) {
        Err(CompileError::NodeNotCompilable { type_id, reason }) => {
            assert_eq!(type_id, "mystery");
            assert_eq!(reason, "no evaluator registered");
        },
        other => panic!("unexpected: {other:?}"),
    }
}

#[test]
fn a_refusing_node_fails_the_brush() {
    let plan = ExecutionPlan {
        steps: vec![step(0, "pen_input", false, vec![], vec!["pressure"]), step(1, "stamp", true, vec![], vec![])],
    };
    let bad = FixedCompiler { stroke: Err("needs a tip".into()), preview: Err("needs a tip".into()) };
    let compilers = vec![Some(fixed(contribution("", "", vec![], vec![]), "")), Some(bad)];
    match compile_brush_to_wgsl(&plan, &compilers, PRELUDE) {
        Err(CompileError::NodeNotCompilable { type_id, reason }) => {
            assert_eq!(type_id, "stamp");
            assert_eq!(reason, "needs a tip");
        },
        other => panic!("unexpected: {other:?}"),
    }
}

#[test]
fn the_walk_concatenates_contributions_and_lays_out_fields() {
    let wire = InputSlot {
        port_name: "flow".into(),
        source: PortRef { node: NodeId(0), port: "pressure".into() },
        remap: WireRemap::Wrap("((".into(), ") * 0.5)".into()),
    };
    let plan = ExecutionPlan {
        steps: vec![
            step(0, "pen_input", false, vec![], vec!["pressure"]),
            step(1, "stamp", true, vec![wire], vec![]),
        ],
    };
    let pen = contribution(
        "fn helper() {}",
        "let p = d.n0_pressure;",
        vec![field("n0_pressure", WgslType::F32), field("n0_tilt", WgslType::Vec2)],
        vec![("pressure", "p")],
    );
    let stamp = contribution("", "return vec4<f32>(1.0);\n", vec![field("n1_color", WgslType::Vec4)], vec![]);
    let compilers = vec![Some(fixed(pen, "")), Some(fixed(stamp, "return vec4<f32>(0.5);"))];
    let c = compile_brush_to_wgsl(&plan, &compilers, PRELUDE).unwrap();
    assert_eq!(c.decls, "fn helper() {}\n");
    assert_eq!(c.stroke_body, "let p = d.n0_pressure;\nreturn vec4<f32>(1.0);\n");
    assert_eq!(c.preview_body, "let p = d.n0_pressure;\nreturn vec4<f32>(0.5);\n");
    let names: Vec<&str> = c.dab_layout.iter().map(|f| f.name.as_str()).collect();
    assert_eq!(names, vec!["pos", "bbox_target_px", "inv_radius_target_px", "n1_color", "n0_tilt", "n0_pressure"]);
    assert!(c.uniform_layout.is_empty());
    assert!(c.stroke_wgsl.starts_with("// shape\n// prelude\nstruct DabRecord {\n    pos: vec2<f32>,\n"));
    assert!(c.stroke_wgsl.contains("    n1_color: vec4<f32>,\n    n0_tilt: vec2<f32>,\n    n0_pressure: f32,\n};\n\n"));
    assert!(c.stroke_wgsl.contains("struct Uniforms {\n    intrinsic: IntrinsicUniforms,\n};\n\n"));
    assert!(c.stroke_wgsl.contains("@group(2) @binding(1) var sel_smp: sampler;\n"));
    assert!(!c.preview_wgsl.contains("sel_tex"));
    assert!(c.preview_wgsl.contains("    let sel: f32 = 1.0;\nlet p = d.n0_pressure;\nreturn vec4<f32>(0.5);\n}\n"));
    assert!(c.stroke_wgsl.ends_with("let p = d.n0_pressure;\nreturn vec4<f32>(1.0);\n}\n"));
    assert!(c.stroke_wgsl.contains("fn helper() {}\n\n"));
}
