use darkly::brush::registry::{default_graph, BrushNodeRegistry};
use darkly::brush::wire::BrushWireType;
use darkly::nodegraph::{Graph, GraphError, NodeId, PortDef, PortRef};

fn add(graph: &mut Graph<BrushWireType>, registry: &BrushNodeRegistry, type_id: &str) -> NodeId {
    let reg = registry.get(type_id).unwrap();
    graph.add_node(type_id, reg.ports.clone(), reg.params.iter().map(|p| p.default_value()).collect())
}

#[test]
fn ids_are_handed_out_in_order() {
    let registry = BrushNodeRegistry::new();
    let mut g = Graph::new();
    assert_eq!(add(&mut g, &registry, "circle"), NodeId(0));
    assert_eq!(add(&mut g, &registry, "stamp"), NodeId(1));
    assert_eq!(g.next_id, 2);
}

#[test]
fn connect_refuses_what_does_not_fit() {
    let registry = BrushNodeRegistry::new();
    let mut g = Graph::new();
    let pen = add(&mut g, &registry, "pen_input");
    let stamp = add(&mut g, &registry, "stamp");
    // Vec2 cannot drive a Texture input.
    assert_eq!(
        g.connect(PortRef { node: pen, port: "position".into() }, PortRef { node: stamp, port: "tip".into() }),
        Err(GraphError::IncompatibleTypes)
    );
    assert_eq!(
        g.connect(PortRef { node: pen, port: "nope".into() }, PortRef { node: stamp, port: "tip".into() }),
        Err(GraphError::PortNotFound("nope".into()))
    );
    assert_eq!(
        g.connect(PortRef { node: NodeId(9), port: "x".into() }, PortRef { node: stamp, port: "tip".into() }),
        Err(GraphError::NodeNotFound(NodeId(9)))
    );
    assert!(g.connections.is_empty());
}

#[test]
fn connect_replaces_the_wire_into_an_input() {
    let registry = BrushNodeRegistry::new();
    let mut g = Graph::new();
    let pen = add(&mut g, &registry, "pen_input");
    let stamp = add(&mut g, &registry, "stamp");
    g.connect(PortRef { node: pen, port: "pressure".into() }, PortRef { node: stamp, port: "flow".into() }).unwrap();
    g.connect(PortRef { node: pen, port: "speed".into() }, PortRef { node: stamp, port: "flow".into() }).unwrap();
    assert_eq!(g.connections.len(), 1);
    assert_eq!(g.connections[0].from.port, "speed");
}

#[test]
fn removing_a_node_drops_its_wires() {
    let mut g = default_graph();
    assert_eq!(g.nodes.len(), 4);
    assert_eq!(g.connections.len(), 4);
    // The stamp (id 2) touches every wire.
    g.remove_node(NodeId(2)).unwrap();
    assert_eq!(g.nodes.len(), 3);
    assert!(g.connections.is_empty());
    assert_eq!(g.remove_node(NodeId(2)), Err(GraphError::NodeNotFound(NodeId(2))));
    assert!(g.is_well_formed());
}

#[test]
fn remove_nodes_keeps_the_rest_in_order() {
    let mut g = default_graph();
    g.remove_nodes(&vec![NodeId(0), NodeId(3), NodeId(77)]);
    let ids: Vec<NodeId> = g.nodes.ids();
    assert_eq!(ids, vec![NodeId(1), NodeId(2)]);
    // Only circle.texture -> stamp.tip survives.
    assert_eq!(g.connections.len(), 1);
    assert_eq!(g.connections[0].to.port, "tip");
}

#[test]
fn well_formedness_check_spots_dangling_wires_and_duplicate_ids() {
    let mut g = default_graph();
    assert!(g.is_well_formed());
    g.connections[0].to.node = NodeId(99);
    assert!(!g.is_well_formed());

    let mut h: Graph<BrushWireType> = Graph::new();
    h.add_node("a", vec![PortDef::output("x", BrushWireType::Scalar)], vec![]);
    h.next_id = 0;
    assert!(!h.is_well_formed());
}

#[test]
fn inputs_for_lists_the_wires_into_a_node() {
    let g = default_graph();
    let into_stamp = g.inputs_for(NodeId(2));
    assert_eq!(into_stamp.len(), 2);
    assert!(into_stamp.iter().all(|c| c.to.node == NodeId(2)));
}

#[test]
fn registry_knows_the_builtin_types() {
    let r = BrushNodeRegistry::new();
    let stamp = r.get("stamp").unwrap();
    let names: Vec<&str> = stamp.ports.iter().map(|p| p.name.as_str()).collect();
    assert_eq!(names, vec!["tip", "size", "flow", "color", "dab", "preview"]);
    assert!(r.get("preview_output").is_none());
    assert_eq!(r.get("preview_terminal").unwrap().ports.len(), 1);
}

#[test]
fn default_graph_wires_pen_circle_stamp_and_output() {
    let g = default_graph();
    let types: Vec<&str> = g.nodes.values().map(|n| n.type_id.as_str()).collect();
    assert_eq!(types, vec!["pen_input", "circle", "stamp", "color_output"]);
    let wires: Vec<(u64, &str, u64, &str)> = g
        .connections
        .iter()
        .map(|c| (c.from.node.0, c.from.port.as_str(), c.to.node.0, c.to.port.as_str()))
        .collect();
    assert_eq!(
        wires,
        vec![
            (1, "texture", 2, "tip"),
            (0, "pressure", 2, "flow"),
            (2, "dab", 3, "dab"),
            (2, "preview", 3, "brush_preview"),
        ]
    );
    assert!(g.is_well_formed());
}
