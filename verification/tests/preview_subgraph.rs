use darkly::brush::preview_subgraph::build_node_preview_graph;
use darkly::brush::wire::BrushWireType;
use darkly::brush::BrushNodeRegistry;
use darkly::nodegraph::{Graph, NodeId, PortRef};

fn add(graph: &mut Graph<BrushWireType>, registry: &BrushNodeRegistry, type_id: &str) -> NodeId {
    let reg = registry.get(type_id).unwrap();
    graph.add_node(type_id, reg.ports.clone(), reg.params.iter().map(|p| p.default_value()).collect())
}

#[test]
fn includes_predecessors_and_appends_terminal() {
    let registry = BrushNodeRegistry::new();
    let mut graph = Graph::new();
    let circle = add(&mut graph, &registry, "circle");
    let stamp = add(&mut graph, &registry, "stamp");
    graph
        .connect(
            PortRef { node: circle, port: "texture".into() },
            PortRef { node: stamp, port: "tip".into() },
        )
        .unwrap();

    let sub = build_node_preview_graph(&graph, stamp).expect("stamp has a Texture output");

    assert_eq!(sub.nodes.len(), 3);
    assert!(sub.nodes.contains_key(&stamp));
    assert!(sub.nodes.contains_key(&circle));
    let term = sub.nodes.values().find(|n| n.type_id == "preview_terminal");
    assert!(term.is_some(), "preview_terminal should be appended");
    let term_id = term.unwrap().id;
    let wired = sub
        .connections
        .iter()
        .any(|c| c.from.node == stamp && c.to.node == term_id && c.to.port == "texture");
    assert!(wired, "stamp's first Texture output should be wired into preview_terminal.texture");
}

#[test]
fn returns_none_for_node_without_texture_output() {
    let registry = BrushNodeRegistry::new();
    let mut graph = Graph::new();
    let random = add(&mut graph, &registry, "random");
    assert!(build_node_preview_graph(&graph, random).is_none());
}

#[test]
fn returns_none_for_missing_node() {
    let graph: Graph<BrushWireType> = Graph::new();
    assert!(build_node_preview_graph(&graph, NodeId(42)).is_none());
}

#[test]
fn prunes_unrelated_nodes() {
    let registry = BrushNodeRegistry::new();
    let mut graph = Graph::new();
    let circle = add(&mut graph, &registry, "circle");
    let _unrelated = add(&mut graph, &registry, "circle");

    let sub = build_node_preview_graph(&graph, circle).expect("circle has a Texture output");
    assert_eq!(sub.nodes.len(), 2);
    assert!(sub.nodes.contains_key(&circle));
}

#[test]
fn preview_wires_the_first_texture_output_and_keeps_transitive_inputs() {
    let registry = BrushNodeRegistry::new();
    let mut graph = Graph::new();
    let pen = add(&mut graph, &registry, "pen_input");
    let circle = add(&mut graph, &registry, "circle");
    let stamp = add(&mut graph, &registry, "stamp");
    let color = add(&mut graph, &registry, "color_output");
    graph.connect(PortRef { node: pen, port: "pressure".into() }, PortRef { node: circle, port: "size".into() }).unwrap();
    graph.connect(PortRef { node: circle, port: "texture".into() }, PortRef { node: stamp, port: "tip".into() }).unwrap();
    graph.connect(PortRef { node: stamp, port: "dab".into() }, PortRef { node: color, port: "dab".into() }).unwrap();

    let sub = build_node_preview_graph(&graph, stamp).unwrap();
    // pen feeds circle feeds stamp; the color output is downstream only.
    assert_eq!(sub.nodes.len(), 4);
    assert!(sub.nodes.contains_key(&pen));
    assert!(!sub.nodes.contains_key(&color));
    let last = sub.connections.last().unwrap();
    assert_eq!(last.from.node, stamp);
    assert_eq!(last.from.port, "dab");
    assert_eq!(last.to.port, "texture");
    // The subgraph keeps the two wires among kept nodes, then the terminal's.
    assert_eq!(sub.connections.len(), 3);
    // The active graph is untouched.
    assert_eq!(graph.nodes.len(), 4);
    assert_eq!(graph.connections.len(), 3);
}
