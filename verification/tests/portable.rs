use darkly::brush::portable::PortableConnection;

fn conn(a: &str, b: &str, c: &str, d: &str) -> PortableConnection {
    PortableConnection { from_node: a.into(), from_port: b.into(), to_node: c.into(), to_port: d.into() }
}

#[test]
fn connection_text_round_trips() {
    let c = conn("noise_2", "value", "stamp", "size");
    let text = c.to_text();
    assert_eq!(text, "noise_2.value -> stamp.size");
    assert_eq!(PortableConnection::parse(&text).unwrap(), c);
    let parsed: PortableConnection = text.parse().unwrap();
    assert_eq!(parsed, c);
}

#[test]
fn parsing_trims_each_part() {
    assert_eq!(
        PortableConnection::parse("  pen . pressure->stamp.flow ").unwrap(),
        conn("pen", "pressure", "stamp", "flow")
    );
    // Only the first `.` of a side splits it.
    assert_eq!(PortableConnection::parse("a.b.c -> d.e.f").unwrap(), conn("a", "b.c", "d", "e.f"));
}

#[test]
fn parsing_rejects_malformed_wires() {
    assert_eq!(
        PortableConnection::parse("a.b to c.d").unwrap_err(),
        "connection 'a.b to c.d': expected 'from_id.from_port -> to_id.to_port'"
    );
    assert_eq!(
        PortableConnection::parse("ab -> c.d").unwrap_err(),
        "connection 'ab -> c.d': from side must be 'id.port'"
    );
    assert_eq!(
        PortableConnection::parse("a.b -> cd").unwrap_err(),
        "connection 'a.b -> cd': to side must be 'id.port'"
    );
}

#[test]
fn a_dotted_node_id_does_not_round_trip() {
    // Outside the round-trip law: the first `.` splits the side.
    let c = conn("a.b", "x", "c", "y");
    assert_eq!(PortableConnection::parse(&c.to_text()).unwrap(), conn("a", "b.x", "c", "y"));
}

#[test]
fn from_str_reports_what_parse_reports() {
    let r: Result<PortableConnection, String> = "ab -> c.d".parse();
    assert_eq!(r.unwrap_err(), "connection 'ab -> c.d': from side must be 'id.port'");
    let ok: PortableConnection = " pen . pressure->stamp.flow ".parse().unwrap();
    assert_eq!(ok, conn("pen", "pressure", "stamp", "flow"));
}

use darkly::brush::default_graph;
use darkly::brush::pack_file::BrushMetadata;
use darkly::brush::stabilizer::StabilizerConfig;
use darkly::brush::portable::{PortableBrush, PortableNode};
use darkly::brush::registry::BrushNodeRegistry;
use darkly::params::ParamValue;

#[test]
fn default_graph_round_trip() {
    let registry = BrushNodeRegistry::new();
    let g = default_graph();
    let p = PortableBrush::from_graph_only(&g, &registry).unwrap();
    let ids: Vec<&str> = p.nodes.iter().map(|n| n.id.as_str()).collect();
    assert_eq!(ids, vec!["circle", "color_output", "pen_input", "stamp"]);
    assert!(p.nodes.iter().all(|n| n.inputs.is_empty()));
    let texts: Vec<String> = p.connections.iter().map(|c| c.to_text()).collect();
    assert_eq!(
        texts,
        vec![
            "circle.texture -> stamp.tip",
            "pen_input.pressure -> stamp.flow",
            "stamp.dab -> color_output.dab",
            "stamp.preview -> color_output.brush_preview",
        ]
    );
    let back = p.into_graph(&registry).unwrap();
    assert_eq!(back.nodes.len(), 4);
    assert_eq!(back.connections.len(), 4);
    assert!(back.is_well_formed());
    // Re-exporting the imported graph gives the same portable form.
    assert_eq!(PortableBrush::from_graph_only(&back, &registry).unwrap(), p);
}

#[test]
fn overridden_parameters_survive() {
    let registry = BrushNodeRegistry::new();
    let p = PortableBrush {
        nodes: vec![PortableNode {
            id: "stamp".into(),
            type_id: "stamp".into(),
            comment: String::new(),
            inputs: vec![("blend_mode".into(), ParamValue::Int(3))],
        }],
        connections: vec![],
        ..Default::default()
    };
    let g = p.into_graph(&registry).unwrap();
    let stamp = g.nodes.values().next().unwrap();
    assert_eq!(stamp.params, vec![ParamValue::Int(3)]);
    let again = PortableBrush::from_graph_only(&g, &registry).unwrap();
    assert_eq!(again.nodes[0].inputs, vec![("blend_mode".to_string(), ParamValue::Int(3))]);
}

#[test]
fn unknown_type_rejected() {
    let registry = BrushNodeRegistry::new();
    let p = PortableBrush {
        nodes: vec![PortableNode { id: "1".into(), type_id: "never_was_a_node".into(), comment: String::new(), inputs: vec![] }],
        connections: vec![],
        ..Default::default()
    };
    let err = p.into_graph(&registry).unwrap_err();
    assert!(err.contains("unknown node type"), "got: {err}");
    assert_eq!(err, "unknown node type 'never_was_a_node'");
}

#[test]
fn unknown_input_rejected() {
    let registry = BrushNodeRegistry::new();
    let p = PortableBrush {
        nodes: vec![PortableNode {
            id: "1".into(),
            type_id: "circle".into(),
            comment: String::new(),
            inputs: vec![("this_input_does_not_exist".into(), ParamValue::Int(1))],
        }],
        connections: vec![],
        ..Default::default()
    };
    let err = p.into_graph(&registry).unwrap_err();
    assert!(err.contains("unknown input"), "got: {err}");
    assert_eq!(err, "unknown input 'this_input_does_not_exist' on 'circle'");
}

#[test]
fn an_unknown_node_id_in_a_connection_is_rejected() {
    let registry = BrushNodeRegistry::new();
    let p = PortableBrush {
        nodes: vec![PortableNode { id: "pen".into(), type_id: "pen_input".into(), comment: String::new(), inputs: vec![] }],
        connections: vec![conn("pen", "pressure", "stamp", "flow")],
        ..Default::default()
    };
    assert_eq!(
        p.into_graph(&registry).unwrap_err(),
        "connection 'pen.pressure -> stamp.flow': unknown node id stamp"
    );
}

#[test]
fn a_repeated_node_id_is_rejected() {
    let registry = BrushNodeRegistry::new();
    let node = PortableNode { id: "pen".into(), type_id: "pen_input".into(), comment: String::new(), inputs: vec![] };
    let p = PortableBrush { nodes: vec![node.clone(), node], ..Default::default() };
    assert_eq!(p.into_graph(&registry).unwrap_err(), "duplicate node id 'pen'");
}

#[test]
fn exporting_an_unregistered_type_fails() {
    let registry = BrushNodeRegistry::new();
    let mut g = default_graph();
    g.add_node("mystery", vec![], vec![]);
    assert_eq!(
        PortableBrush::from_graph_only(&g, &registry).unwrap_err(),
        "node mystery has unknown type 'mystery', cannot serialize"
    );
}

#[test]
fn two_random_round_trip() {
    let registry = BrushNodeRegistry::new();
    let random = registry.get("random").unwrap();
    let defaults: Vec<ParamValue> = random.params.iter().map(|d| d.default).collect();
    let mut graph = darkly::nodegraph::Graph::new();
    graph.add_node("random", random.ports.clone(), defaults.clone());
    graph.add_node("random", random.ports.clone(), defaults);
    let portable = PortableBrush::from_graph_only(&graph, &registry).unwrap();
    let ids: Vec<&str> = portable.nodes.iter().map(|n| n.id.as_str()).collect();
    assert_eq!(ids, vec!["random", "random_2"]);
    let restored = portable.into_graph(&registry).unwrap();
    assert_eq!(restored.nodes.len(), 2);
    let again = PortableBrush::from_graph_only(&restored, &registry).unwrap();
    assert_eq!(again, portable);
}

#[test]
fn same_kind_keys_normalize_by_lexicographic_order() {
    let registry = BrushNodeRegistry::new();
    let p = PortableBrush {
        nodes: vec![
            PortableNode { id: "randomB".into(), type_id: "random".into(), comment: String::new(), inputs: vec![("mode".into(), ParamValue::Int(2))] },
            PortableNode { id: "randomA".into(), type_id: "random".into(), comment: String::new(), inputs: vec![] },
        ],
        connections: vec![],
        ..Default::default()
    };
    let restored = p.into_graph(&registry).unwrap();
    // Nodes are taken in id order, so randomA becomes the first of its kind.
    let again = PortableBrush::from_graph_only(&restored, &registry).unwrap();
    let ids: Vec<&str> = again.nodes.iter().map(|n| n.id.as_str()).collect();
    assert_eq!(ids, vec!["random", "random_2"]);
    assert!(again.nodes[0].inputs.is_empty());
    assert_eq!(again.nodes[1].inputs, vec![("mode".to_string(), ParamValue::Int(2))]);
}

#[test]
fn node_comment_round_trips() {
    let registry = BrushNodeRegistry::new();
    let random = registry.get("random").unwrap();
    let defaults: Vec<ParamValue> = random.params.iter().map(|d| d.default).collect();
    let mut graph = darkly::nodegraph::Graph::new();
    let a = graph.add_node("random", random.ports.clone(), defaults.clone());
    let _b = graph.add_node("random", random.ports.clone(), defaults);
    graph.set_node_comment(&a, "roughness source\nkeep frequency low".into()).unwrap();

    let portable = PortableBrush::from_graph_only(&graph, &registry).unwrap();
    // Only the annotated node carries a comment.
    assert_eq!(portable.nodes.iter().filter(|n| !n.comment.is_empty()).count(), 1);
    assert_eq!(portable.nodes[0].id, "random");
    assert_eq!(portable.nodes[0].comment, "roughness source\nkeep frequency low");

    let restored = portable.into_graph(&registry).unwrap();
    let comments: Vec<&str> = restored.nodes.values().map(|n| n.comment.as_str()).collect();
    assert_eq!(comments, vec!["roughness source\nkeep frequency low", ""]);
    // And it lands on the same kind-derived id on re-export.
    let again = PortableBrush::from_graph_only(&restored, &registry).unwrap();
    assert_eq!(again, portable);
}

#[test]
fn a_comment_on_a_missing_node_is_refused() {
    let mut g = default_graph();
    let missing = darkly::nodegraph::NodeId(99);
    assert_eq!(
        g.set_node_comment(&missing, "x".into()),
        Err(darkly::nodegraph::GraphError::NodeNotFound(missing))
    );
    assert!(g.nodes.values().all(|n| n.comment.is_empty()));
}

#[test]
fn stabilizer_round_trip_and_elision() {
    let registry = BrushNodeRegistry::new();
    let mut brush = BrushMetadata::from_graph("test", "Test", default_graph());

    // Default stabilizer: left out of the portable form.
    let portable = PortableBrush::from_brush(&brush, &registry).unwrap();
    assert!(portable.stabilizer.is_none());

    // Non-default: kept across the round trip.
    brush.stabilizer = StabilizerConfig { algorithm: "laplacian".into(), params: vec![ParamValue::FloatBits(0.6f32.to_bits())] };
    let portable = PortableBrush::from_brush(&brush, &registry).unwrap();
    let restored = portable.into_brush(&registry, "test").unwrap();
    assert_eq!(restored.stabilizer.algorithm, "laplacian");
    assert_eq!(restored.stabilizer.params.len(), 1);
}

#[test]
fn brush_metadata_round_trips() {
    let registry = BrushNodeRegistry::new();
    let mut brush = BrushMetadata::from_graph("wet", "Wet Ink", default_graph());
    brush.description = "Bleeds at the edges".into();
    brush.author = "someone".into();
    brush.tags = vec!["ink".into(), "wet".into()];
    let portable = PortableBrush::from_brush(&brush, &registry).unwrap();
    assert_eq!(portable.name, "Wet Ink");
    assert_eq!(portable.tags, vec!["ink".to_string(), "wet".to_string()]);
    let restored = portable.into_brush(&registry, "wet_2").unwrap();
    assert_eq!(restored.id, "wet_2");
    assert_eq!(restored.name, "Wet Ink");
    assert_eq!(restored.description, "Bleeds at the edges");
    assert_eq!(restored.author, "someone");
    assert_eq!(restored.tags, brush.tags);
    assert!(restored.stabilizer.algorithm.is_empty() && restored.stabilizer.params.is_empty());
    assert_eq!(PortableBrush::from_graph_only(&restored.graph, &registry).unwrap().nodes, portable.nodes);
}
