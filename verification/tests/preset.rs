use darkly::archive::write_archive;
use darkly::brush::default_graph;
use darkly::brush::preset::{
    migrate_drop_preview_output, migrate_stamp_opacity_to_flow, read_preset_json, BrushPreset, PresetBundle,
    PresetResourceMeta, ResourceKind, ENGINE_VERSION, FORMAT_VERSION, MALFORMED_GRAPH_ERROR,
};
use darkly::brush::registry::BrushNodeRegistry;
use darkly::brush::wire::BrushWireType;
use darkly::nodegraph::{Graph, PortDef, PortRef};
use darkly::params::ParamValue;

const JSON: &str = "{\"name\":\"Test Brush\"}";

#[test]
fn from_graph_fills_in_the_defaults() {
    let p = BrushPreset::from_graph("Test Brush", default_graph());
    assert_eq!(p.name, "Test Brush");
    assert_eq!(p.format_version, FORMAT_VERSION);
    assert_eq!(p.engine_version, ENGINE_VERSION);
    assert!(p.category.is_empty() && p.author.is_empty() && p.description.is_empty());
    assert!(p.tags.is_empty() && p.resources.is_empty());
    assert!(p.stabilizer.algorithm.is_empty());
    assert_eq!(p.graph.nodes.len(), 4);
}

#[test]
fn round_trip_no_resources() {
    let bundle = PresetBundle::without_resources(BrushPreset::from_graph("Test Brush", default_graph()));
    let bytes = bundle.to_bytes(JSON).unwrap();
    assert_eq!(read_preset_json(&bytes).unwrap(), JSON);
    let loaded = PresetBundle::from_parsed(&bytes, BrushPreset::from_graph("Test Brush", default_graph())).unwrap();
    assert_eq!(loaded.preset.name, "Test Brush");
    assert_eq!(loaded.preset.format_version, FORMAT_VERSION);
    assert!(loaded.resource_data.is_empty());
    assert!(loaded.thumbnail_png.is_none());
}

fn with_tip() -> BrushPreset {
    let mut preset = BrushPreset::from_graph("Tip Brush", default_graph());
    preset.resources.push(PresetResourceMeta {
        name: "tip.png".into(),
        kind: ResourceKind::BrushTip,
        path: "resources/tip.png".into(),
    });
    preset
}

#[test]
fn round_trip_with_resources() {
    let tip_data = vec![0x89, 0x50, 0x4E, 0x47, 1, 2, 3, 4, 5];
    let bundle = PresetBundle {
        preset: with_tip(),
        resource_data: vec![("tip.png".into(), tip_data.clone())],
        thumbnail_png: None,
    };
    let bytes = bundle.to_bytes(JSON).unwrap();
    let loaded = PresetBundle::from_parsed(&bytes, with_tip()).unwrap();
    assert_eq!(loaded.preset.name, "Tip Brush");
    assert_eq!(loaded.preset.resources.len(), 1);
    assert_eq!(loaded.preset.resources[0].kind, ResourceKind::BrushTip);
    assert_eq!(loaded.resource("tip.png").unwrap(), &tip_data[..]);
    assert!(loaded.resource("other.png").is_none());
}

#[test]
fn a_resource_without_metadata_is_stored_under_resources() {
    let bundle = PresetBundle {
        preset: BrushPreset::from_graph("Loose", default_graph()),
        resource_data: vec![("grain.png".into(), vec![7, 7])],
        thumbnail_png: None,
    };
    let bytes = bundle.to_bytes(JSON).unwrap();
    let mut preset = BrushPreset::from_graph("Loose", default_graph());
    preset.resources.push(PresetResourceMeta {
        name: "grain".into(),
        kind: ResourceKind::Pattern,
        path: "resources/grain.png".into(),
    });
    let loaded = PresetBundle::from_parsed(&bytes, preset).unwrap();
    assert_eq!(loaded.resource("grain").unwrap(), &[7u8, 7][..]);
}

#[test]
fn a_listed_resource_missing_from_the_archive_is_an_error() {
    let bundle = PresetBundle::without_resources(with_tip());
    let bytes = bundle.to_bytes(JSON).unwrap();
    let err = PresetBundle::from_parsed(&bytes, with_tip()).unwrap_err();
    assert!(err.starts_with("resource 'tip.png' referenced at 'resources/tip.png' not found in ZIP: "), "got: {err}");
}

#[test]
fn future_version_rejected() {
    let mut preset = BrushPreset::from_graph("Future", default_graph());
    preset.format_version = FORMAT_VERSION + 1;
    let bytes = PresetBundle::without_resources(BrushPreset::from_graph("Future", default_graph()))
        .to_bytes(JSON)
        .unwrap();
    let err = PresetBundle::from_parsed(&bytes, preset).unwrap_err();
    assert!(err.contains("newer than supported"), "got: {err}");
    assert_eq!(err, "preset format version 2 is newer than supported version 1");
}

#[test]
fn corrupt_zip_returns_error() {
    let err = read_preset_json(b"not a zip").unwrap_err();
    assert!(err.contains("invalid ZIP"), "got: {err}");
}

#[test]
fn missing_preset_json_returns_error() {
    let bytes = write_archive(&vec![("dummy.txt".to_string(), b"hello".to_vec())]).unwrap();
    let err = read_preset_json(&bytes).unwrap_err();
    assert!(err.contains("missing preset.json"), "got: {err}");
}

#[test]
fn preset_json_that_is_not_text_is_refused() {
    let bytes = write_archive(&vec![("preset.json".to_string(), vec![0xff, 0xfe, 0x00])]).unwrap();
    let err = read_preset_json(&bytes).unwrap_err();
    assert_eq!(err, "failed to read preset.json: stream did not contain valid UTF-8");
}

#[test]
fn two_resources_at_one_path_cannot_be_written() {
    let bundle = PresetBundle {
        preset: BrushPreset::from_graph("Twice", default_graph()),
        resource_data: vec![("a".into(), vec![1]), ("a".into(), vec![2])],
        thumbnail_png: None,
    };
    let err = bundle.to_bytes(JSON).unwrap_err();
    assert!(err.starts_with("zip write error: "), "got: {err}");
}

#[test]
fn legacy_stamp_opacity_migrates_to_flow() {
    let registry = BrushNodeRegistry::new();
    let mut graph: Graph<BrushWireType> = Graph::new();
    let pen = graph.add_node("pen_input", registry.get("pen_input").unwrap().ports.clone(), vec![]);
    let mut stamp_ports = registry.get("stamp").unwrap().ports.clone();
    for p in stamp_ports.iter_mut() {
        if p.name == "flow" {
            p.name = "opacity".into();
        }
    }
    let stamp = graph.add_node("stamp", stamp_ports, vec![ParamValue::Int(0)]);
    graph
        .connect(PortRef { node: pen, port: "pressure".into() }, PortRef { node: stamp, port: "opacity".into() })
        .expect("legacy wire should connect");

    migrate_stamp_opacity_to_flow(&mut graph);

    let stamp_node = graph.nodes.get(&stamp).expect("stamp survived");
    assert!(stamp_node.ports.iter().any(|p| p.name == "flow"));
    assert!(!stamp_node.ports.iter().any(|p| p.name == "opacity"));
    assert!(graph.connections.iter().any(|c| c.to.node == stamp && c.to.port == "flow"));
    assert!(!graph.connections.iter().any(|c| c.to.node == stamp && c.to.port == "opacity"));
    // The pen's ports are not a stamp's, so they are left alone.
    assert_eq!(graph.nodes.get(&pen).unwrap().ports.len(), 4);
}

#[test]
fn legacy_preview_output_is_dropped_and_the_preview_wired() {
    let registry = BrushNodeRegistry::new();
    let mut graph: Graph<BrushWireType> = Graph::new();
    // A pre-redesign stamp has no `preview` output; the color output has
    // no `brush_preview` input; a `preview_output` node takes the dab.
    let mut stamp_ports = registry.get("stamp").unwrap().ports.clone();
    stamp_ports.retain(|p| p.name != "preview");
    let stamp = graph.add_node("stamp", stamp_ports, vec![ParamValue::Int(0)]);
    let color = graph.add_node("color_output", vec![PortDef::input("dab", BrushWireType::Texture)], vec![]);
    let legacy = graph.add_node("preview_output", vec![PortDef::input("texture", BrushWireType::Texture)], vec![]);
    graph.connect(PortRef { node: stamp, port: "dab".into() }, PortRef { node: color, port: "dab".into() }).unwrap();
    graph.connect(PortRef { node: stamp, port: "dab".into() }, PortRef { node: legacy, port: "texture".into() }).unwrap();

    migrate_drop_preview_output(&mut graph);

    assert!(!graph.nodes.contains_key(&legacy));
    assert_eq!(graph.nodes.len(), 2);
    assert!(graph.nodes.get(&stamp).unwrap().ports.iter().any(|p| p.name == "preview"));
    assert!(graph.nodes.get(&color).unwrap().ports.iter().any(|p| p.name == "brush_preview"));
    assert_eq!(graph.connections.len(), 2);
    let last = graph.connections.last().unwrap();
    assert_eq!((last.from.node, last.from.port.as_str()), (stamp, "preview"));
    assert_eq!((last.to.node, last.to.port.as_str()), (color, "brush_preview"));
    assert!(graph.is_well_formed());
}

#[test]
fn preview_migration_leaves_an_already_wired_graph_alone() {
    let mut graph = default_graph();
    let before = graph.connections.len();
    migrate_drop_preview_output(&mut graph);
    assert_eq!(graph.connections.len(), before);
    assert_eq!(graph.nodes.len(), 4);
}

#[test]
fn preview_migration_needs_exactly_one_stamp() {
    let registry = BrushNodeRegistry::new();
    let mut graph: Graph<BrushWireType> = Graph::new();
    graph.add_node("stamp", registry.get("stamp").unwrap().ports.clone(), vec![]);
    graph.add_node("stamp", registry.get("stamp").unwrap().ports.clone(), vec![]);
    graph.add_node("color_output", registry.get("color_output").unwrap().ports.clone(), vec![]);
    migrate_drop_preview_output(&mut graph);
    assert!(graph.connections.is_empty());
}

#[test]
fn loading_migrates_the_graph() {
    let registry = BrushNodeRegistry::new();
    let mut graph: Graph<BrushWireType> = Graph::new();
    let legacy = graph.add_node("preview_output", vec![PortDef::input("texture", BrushWireType::Texture)], vec![]);
    let stamp = graph.add_node("stamp", registry.get("stamp").unwrap().ports.clone(), vec![]);
    let preset = BrushPreset::from_graph("Old", graph);
    let bytes = PresetBundle::without_resources(BrushPreset::from_graph("Old", default_graph())).to_bytes(JSON).unwrap();
    let loaded = PresetBundle::from_parsed(&bytes, preset).unwrap();
    assert!(!loaded.preset.graph.nodes.contains_key(&legacy));
    assert!(loaded.preset.graph.nodes.contains_key(&stamp));
}

#[test]
fn migrating_twice_changes_nothing_more() {
    let registry = BrushNodeRegistry::new();
    let mut graph: Graph<BrushWireType> = Graph::new();
    let mut stamp_ports = registry.get("stamp").unwrap().ports.clone();
    stamp_ports[2].name = "opacity".into();
    let stamp = graph.add_node("stamp", stamp_ports, vec![]);
    migrate_stamp_opacity_to_flow(&mut graph);
    let once: Vec<String> = graph.nodes.get(&stamp).unwrap().ports.iter().map(|p| p.name.clone()).collect();
    migrate_stamp_opacity_to_flow(&mut graph);
    let twice: Vec<String> = graph.nodes.get(&stamp).unwrap().ports.iter().map(|p| p.name.clone()).collect();
    assert_eq!(once, twice);
    assert_eq!(once[2], "flow");
}

#[test]
fn a_preset_whose_graph_breaks_the_invariant_is_refused() {
    let mut preset = BrushPreset::from_graph("Broken", default_graph());
    preset.graph.next_id = 0;
    let bytes = PresetBundle::without_resources(BrushPreset::from_graph("Broken", default_graph()))
        .to_bytes(JSON)
        .unwrap();
    assert_eq!(PresetBundle::from_parsed(&bytes, preset).unwrap_err(), MALFORMED_GRAPH_ERROR);
}
