//! Brush presets: the unit of save, load and share.
//!
//! On disk a preset is an archive holding `preset.json` (metadata and the
//! node graph) and the binary resources the graph refers to under
//! `resources/<name>`. Loading migrates graphs saved before two renames of
//! the node set, and refuses archives written by a newer format version.

use vstd::prelude::*;

use crate::brush::stabilizer::StabilizerConfig;
use crate::brush::wire::BrushWireType;
use crate::brush::registry::{builtin_ports, port_shape, shapes, BrushNodeRegistry, PortShape};
use crate::nodegraph::{
    holds_id, kept_ids, lemma_drop_into_unwired, select_conns, select_nodes, wire_accepted, wired_into,
    Connection, Graph, NodeId, NodeView, PortDef, PortRef,
};
use crate::archive::{
    distinct_paths, entries_fit, entry_views, found, read_entry, write_archive, zip_lookup, ArchiveErrorKind,
    ArchiveWriteError,
};
use crate::text::{concat2, concat4, concat5, decimal, decimal_string, owned, str_eq, utf8_text};
use vstd::slice::slice_to_vec;
use vstd::utf8::{decode_utf8, encode_utf8, valid_utf8};

verus! {

/// Current format version. Bumped when the schema changes in a
/// backwards-incompatible way.
pub const FORMAT_VERSION: u32 = 1;

/// The engine version recorded in presets this library creates: the version
/// of this package, as its Cargo.toml gives it, written out here because the
/// library reads no build environment.
pub const ENGINE_VERSION: &'static str = "0.1.0";

/// A brush preset.
#[derive(Debug)]
pub struct BrushPreset {
    pub format_version: u32,
    pub name: String,
    pub engine_version: String,
    pub category: String,
    pub author: String,
    pub description: String,
    pub tags: Vec<String>,
    pub graph: Graph<BrushWireType>,
    /// Stabilizer configuration. The default is no stabilization.
    pub stabilizer: StabilizerConfig,
    pub resources: Vec<PresetResourceMeta>,
}

/// Metadata of a resource embedded in the archive; its bytes live in
/// [`PresetBundle::resource_data`].
#[derive(Clone, Debug)]
pub struct PresetResourceMeta {
    pub name: String,
    pub kind: ResourceKind,
    /// Path inside the archive (e.g. `resources/tip.png`).
    pub path: String,
}

/// Kind of embedded resource.
#[derive(Clone, Copy, Debug, PartialEq, Eq, Structural)]
pub enum ResourceKind {
    BrushTip,
    Pattern,
}

/// A fully loaded preset with its resource data in memory.
#[derive(Debug)]
pub struct PresetBundle {
    pub preset: BrushPreset,
    /// Resource data keyed by the `name` of its [`PresetResourceMeta`].
    pub resource_data: Vec<(String, Vec<u8>)>,
    /// A baked preview image (PNG), once one has been made.
    pub thumbnail_png: Option<Vec<u8>>,
}

impl BrushPreset {
    /// A preset holding just `graph`: current format and engine version, no
    /// metadata, no stabilization, no resources.
    pub fn from_graph(name: &str, graph: Graph<BrushWireType>) -> (p: Self)
        ensures
            p.format_version == FORMAT_VERSION,
            p.name@ == name@,
            p.engine_version@ == ENGINE_VERSION@,
            p.category@.len() == 0,
            p.author@.len() == 0,
            p.description@.len() == 0,
            p.tags@.len() == 0,
            p.graph == graph,
            p.stabilizer.algorithm@.len() == 0,
            p.stabilizer.params@.len() == 0,
            p.resources@.len() == 0,
    {
        BrushPreset {
            format_version: FORMAT_VERSION,
            name: owned(name),
            engine_version: owned(ENGINE_VERSION),
            category: String::new(),
            author: String::new(),
            description: String::new(),
            tags: Vec::new(),
            graph,
            stabilizer: StabilizerConfig::default(),
            resources: Vec::new(),
        }
    }
}

/// Whether `data` holds a resource named `name`.
pub open spec fn has_resource(data: Seq<(String, Vec<u8>)>, name: Seq<char>) -> bool {
    exists|i: int| 0 <= i < data.len() && (#[trigger] data[i]).0@ == name
}

/// Whether `i` is the first position of `data` holding a resource named `name`.
pub open spec fn first_resource(data: Seq<(String, Vec<u8>)>, name: Seq<char>, i: int) -> bool {
    &&& 0 <= i < data.len()
    &&& data[i].0@ == name
    &&& forall|k: int| 0 <= k < i ==> (#[trigger] data[k]).0@ != name
}

impl PresetBundle {
    /// A bundle of `preset` with no resource data and no thumbnail.
    pub fn without_resources(preset: BrushPreset) -> (b: Self)
        ensures
            b.preset == preset,
            b.resource_data@.len() == 0,
            b.thumbnail_png is None,
    {
        PresetBundle { preset, resource_data: Vec::new(), thumbnail_png: None }
    }

    /// The data of the first resource named `name`, if any.
    pub fn resource(&self, name: &str) -> (r: Option<&[u8]>)
        ensures
            r is None <==> !has_resource(self.resource_data@, name@),
            r matches Some(d) ==> exists|i: int|
                first_resource(self.resource_data@, name@, i) && d@ == self.resource_data@[i].1@,
    {
        let mut i: usize = 0;
        while i < self.resource_data.len()
            invariant
                i <= self.resource_data@.len(),
                forall|k: int| 0 <= k < i ==> (#[trigger] self.resource_data@[k]).0@ != name@,
            decreases self.resource_data.len() - i,
        {
            if str_eq(self.resource_data[i].0.as_str(), name) {
                let d = self.resource_data[i].1.as_slice();
                assert(first_resource(self.resource_data@, name@, i as int));
                return Some(d);
            }
            i = i + 1;
        }
        None
    }
}

// ---------------------------------------------------------------------------
// Migration: the stamp's per-dab alpha port, once "opacity", is "flow".

/// A port name with the stamp's old "opacity" read as "flow".
pub open spec fn flow_name(name: Seq<char>) -> Seq<char> {
    if name == "opacity"@ {
        "flow"@
    } else {
        name
    }
}

/// Whether `id` is the id of a `stamp` node of `nodes`.
pub open spec fn is_stamp(nodes: Seq<NodeView<BrushWireType>>, id: NodeId) -> bool {
    exists|i: int| 0 <= i < nodes.len() && (#[trigger] nodes[i]).id == id && nodes[i].type_id == "stamp"@
}

/// Whether port `q` is port `p` with "opacity" renamed to "flow".
pub open spec fn port_migrated(p: PortDef<BrushWireType>, q: PortDef<BrushWireType>) -> bool {
    q.name@ == flow_name(p.name@) && q.dir == p.dir && q.wire_type == p.wire_type
}

/// Whether wire end `q` is wire end `p`, renamed when it is a stamp's port.
pub open spec fn end_migrated(nodes: Seq<NodeView<BrushWireType>>, p: PortRef, q: PortRef) -> bool {
    &&& q.node == p.node
    &&& q.port@ == if is_stamp(nodes, p.node) {
        flow_name(p.port@)
    } else {
        p.port@
    }
}

/// Whether node `m` is node `n` after the rename: a stamp's ports renamed
/// one for one, every other node unchanged.
pub open spec fn node_migrated(n: NodeView<BrushWireType>, m: NodeView<BrushWireType>) -> bool {
    &&& m.id == n.id
    &&& m.type_id == n.type_id
    &&& m.params == n.params
    &&& if n.type_id == "stamp"@ {
        &&& m.ports.len() == n.ports.len()
        &&& forall|k: int| 0 <= k < n.ports.len() ==> port_migrated(n.ports[k], #[trigger] m.ports[k])
    } else {
        m.ports == n.ports
    }
}

/// Whether graph `g` is graph `old` with every reference to a stamp's
/// "opacity" port renamed to "flow": the stamps' own ports and both ends of
/// every wire.
pub open spec fn stamp_flow_migrated(old: Graph<BrushWireType>, g: Graph<BrushWireType>) -> bool {
    &&& g.next_id() == old.next_id()
    &&& g.nodes@.len() == old.nodes@.len()
    &&& forall|i: int| 0 <= i < old.nodes@.len() ==> node_migrated(old.nodes@[i], #[trigger] g.nodes@[i])
    &&& g.connections@.len() == old.connections@.len()
    &&& forall|j: int|
        0 <= j < old.connections@.len() ==> end_migrated(
            old.nodes@,
            old.connections@[j].from,
            (#[trigger] g.connections@[j]).from,
        ) && end_migrated(old.nodes@, old.connections@[j].to, g.connections@[j].to)
}

/// The ids of the `stamp` nodes of `graph`, in order.
fn stamp_ids(graph: &Graph<BrushWireType>) -> (ids: Vec<NodeId>)
    ensures
        forall|id: NodeId| ids@.contains(id) <==> is_stamp(graph.nodes@, id),
{
    let mut ids: Vec<NodeId> = Vec::new();
    let mut i: usize = 0;
    while i < graph.nodes.len()
        invariant
            i <= graph.nodes@.len(),
            forall|id: NodeId| ids@.contains(id) <==> exists|k: int|
                0 <= k < i && (#[trigger] graph.nodes@[k]).id == id && graph.nodes@[k].type_id == "stamp"@,
        decreases graph.nodes@.len() - i,
    {
        let n = graph.nodes.at(i);
        let ghost before = ids@;
        if str_eq(n.type_id.as_str(), "stamp") {
            ids.push(n.id);
        }
        proof {
            assert forall|id: NodeId| ids@.contains(id) <==> exists|k: int|
                0 <= k < i + 1 && (#[trigger] graph.nodes@[k]).id == id && graph.nodes@[k].type_id == "stamp"@ by {
                if ids@.contains(id) {
                    let m = choose|m: int| 0 <= m < ids@.len() && ids@[m] == id;
                    if m < before.len() {
                        assert(before[m] == id);
                        assert(before.contains(id));
                    } else {
                        assert(graph.nodes@[i as int].id == id);
                    }
                }
                if exists|k: int| 0 <= k < i + 1 && (#[trigger] graph.nodes@[k]).id == id && graph.nodes@[k].type_id == "stamp"@ {
                    let k = choose|k: int| 0 <= k < i + 1 && (#[trigger] graph.nodes@[k]).id == id && graph.nodes@[k].type_id == "stamp"@;
                    if k < i {
                        assert(before.contains(id));
                        let m = choose|m: int| 0 <= m < before.len() && before[m] == id;
                        assert(ids@[m] == id);
                    } else {
                        assert(ids@[ids@.len() - 1] == id);
                    }
                }
            }
        }
        i = i + 1;
    }
    ids
}

/// Whether `v` holds `id`.
fn holds_node_id(v: &Vec<NodeId>, id: NodeId) -> (r: bool)
    ensures
        r == v@.contains(id),
{
    let mut i: usize = 0;
    while i < v.len()
        invariant
            i <= v@.len(),
            forall|k: int| 0 <= k < i ==> v@[k] != id,
        decreases v.len() - i,
    {
        if v[i] == id {
            assert(v@[i as int] == id);
            return true;
        }
        i = i + 1;
    }
    false
}

/// `p` with its name "opacity" renamed to "flow".
fn migrate_port(p: &PortDef<BrushWireType>) -> (q: PortDef<BrushWireType>)
    ensures
        port_migrated(*p, q),
{
    if str_eq(p.name.as_str(), "opacity") {
        PortDef { name: owned("flow"), dir: p.dir, wire_type: p.wire_type }
    } else {
        p.clone()
    }
}

/// End `p` of a wire, with its port renamed when `stamps` holds its node.
fn migrate_end(p: &PortRef, stamps: &Vec<NodeId>) -> (q: PortRef)
    ensures
        q.node == p.node,
        q.port@ == if stamps@.contains(p.node) {
            flow_name(p.port@)
        } else {
            p.port@
        },
{
    if holds_node_id(stamps, p.node) && str_eq(p.port.as_str(), "opacity") {
        PortRef { node: p.node, port: owned("flow") }
    } else {
        p.clone()
    }
}

/// Rewrite every reference to a stamp's "opacity" port to the new name
/// "flow": the stamps' port lists and both ends of every wire. Presets saved
/// before the rename keep loading.
pub fn migrate_stamp_opacity_to_flow(graph: &mut Graph<BrushWireType>)
    requires
        old(graph).wf(),
    ensures
        final(graph).wf(),
        stamp_flow_migrated(*old(graph), *final(graph)),
{
    let stamps = stamp_ids(graph);
    let ghost nodes0 = graph.nodes@;
    let mut i: usize = 0;
    while i < graph.nodes.len()
        invariant
            i <= graph.nodes@.len(),
            graph.nodes@.len() == nodes0.len(),
            graph.connections@ == old(graph).connections@,
            graph.next_id() == old(graph).next_id(),
            nodes0 == old(graph).nodes@,
            forall|k: int| 0 <= k < i ==> node_migrated(nodes0[k], #[trigger] graph.nodes@[k]),
            forall|k: int| i <= k < nodes0.len() ==> #[trigger] graph.nodes@[k] == nodes0[k],
        decreases graph.nodes@.len() - i,
    {
        let n = graph.nodes.at(i);
        if str_eq(n.type_id.as_str(), "stamp") {
            let mut ports: Vec<PortDef<BrushWireType>> = Vec::new();
            let mut k: usize = 0;
            while k < n.ports.len()
                invariant
                    k <= n.ports@.len(),
                    ports@.len() == k,
                    forall|m: int| 0 <= m < k ==> port_migrated(n.ports@[m], #[trigger] ports@[m]),
                decreases n.ports@.len() - k,
            {
                ports.push(migrate_port(&n.ports[k]));
                k = k + 1;
            }
            graph.nodes.set_ports_at(i, ports);
        }
        i = i + 1;
    }
    let ghost nodes1 = graph.nodes@;
    let mut conns: Vec<Connection> = Vec::new();
    let mut j: usize = 0;
    while j < graph.connections.len()
        invariant
            j <= graph.connections@.len(),
            graph.connections@ == old(graph).connections@,
            forall|id: NodeId| stamps@.contains(id) <==> is_stamp(nodes0, id),
            conns@.len() == j,
            forall|m: int|
                0 <= m < j ==> end_migrated(
                    nodes0,
                    graph.connections@[m].from,
                    (#[trigger] conns@[m]).from,
                ) && end_migrated(nodes0, graph.connections@[m].to, conns@[m].to),
        decreases graph.connections@.len() - j,
    {
        let c = &graph.connections[j];
        let from = migrate_end(&c.from, &stamps);
        let to = migrate_end(&c.to, &stamps);
        conns.push(Connection { from, to });
        j = j + 1;
    }
    graph.connections = conns;
    proof {
        let g = *graph;
        assert forall|k: int| 0 <= k < g.nodes@.len() implies (#[trigger] g.nodes@[k]).id == nodes0[k].id by {
            assert(node_migrated(nodes0[k], g.nodes@[k]));
        }
        assert(crate::nodegraph::distinct_ids(g.nodes@)) by {
            assert forall|a: int, b: int|
                0 <= a < g.nodes@.len() && 0 <= b < g.nodes@.len() && a != b implies
                (#[trigger] g.nodes@[a]).id != (#[trigger] g.nodes@[b]).id by {
                assert(g.nodes@[a].id == nodes0[a].id && g.nodes@[b].id == nodes0[b].id);
            }
        }
        assert forall|m: int| 0 <= m < g.nodes@.len() implies (#[trigger] g.nodes@[m]).id.0 < g.next_id() by {
            assert(g.nodes@[m].id == nodes0[m].id);
        }
        assert forall|id: NodeId| crate::nodegraph::holds_id(nodes0, id) implies crate::nodegraph::holds_id(g.nodes@, id) by {
            let k = choose|k: int| 0 <= k < nodes0.len() && (#[trigger] nodes0[k]).id == id;
            assert(g.nodes@[k].id == id);
        }
        assert forall|m: int| 0 <= m < g.connections@.len() implies crate::nodegraph::holds_id(
            g.nodes@,
            (#[trigger] g.connections@[m]).from.node,
        ) && crate::nodegraph::holds_id(g.nodes@, g.connections@[m].to.node) by {
            assert(crate::nodegraph::holds_id(nodes0, old(graph).connections@[m].from.node));
            assert(crate::nodegraph::holds_id(nodes0, old(graph).connections@[m].to.node));
        }
    }
}


/// The stamp rename is a one-way upgrade: running it on a graph it has
/// already upgraded changes no name, id, type or parameter.
pub proof fn stamp_migration_is_idempotent(g0: Graph<BrushWireType>, g1: Graph<BrushWireType>, g2: Graph<BrushWireType>)
    requires
        stamp_flow_migrated(g0, g1),
        stamp_flow_migrated(g1, g2),
    ensures
        g2.nodes@.len() == g1.nodes@.len(),
        forall|i: int|
            0 <= i < g1.nodes@.len() ==> {
                let (a, b) = (g1.nodes@[i], #[trigger] g2.nodes@[i]);
                &&& b.id == a.id
                &&& b.type_id == a.type_id
                &&& b.params == a.params
                &&& shapes(b.ports) == shapes(a.ports)
            },
        g2.connections@.len() == g1.connections@.len(),
        forall|j: int|
            0 <= j < g1.connections@.len() ==> {
                let (a, b) = (g1.connections@[j], #[trigger] g2.connections@[j]);
                &&& b.from.node == a.from.node
                &&& b.from.port@ == a.from.port@
                &&& b.to.node == a.to.node
                &&& b.to.port@ == a.to.port@
            },
{
    reveal_strlit("opacity");
    reveal_strlit("flow");
    assert("flow"@.len() == 4 && "opacity"@.len() == 7);
    assert forall|i: int| 0 <= i < g1.nodes@.len() implies {
        let (a, b) = (g1.nodes@[i], #[trigger] g2.nodes@[i]);
        &&& b.id == a.id
        &&& b.type_id == a.type_id
        &&& b.params == a.params
        &&& shapes(b.ports) == shapes(a.ports)
    } by {
        let (z, a, b) = (g0.nodes@[i], g1.nodes@[i], g2.nodes@[i]);
        assert(node_migrated(z, a));
        assert(node_migrated(a, b));
        if a.type_id == "stamp"@ {
            assert forall|k: int| 0 <= k < a.ports.len() implies #[trigger] shapes(b.ports)[k] == shapes(a.ports)[k] by {
                assert(port_migrated(z.ports[k], a.ports[k]));
                assert(port_migrated(a.ports[k], b.ports[k]));
            }
            assert(shapes(b.ports) =~= shapes(a.ports));
        }
    }
    // Every id is a stamp's in `g1` exactly when it is in `g0`.
    assert forall|id: NodeId| is_stamp(g1.nodes@, id) <==> is_stamp(g0.nodes@, id) by {
        if is_stamp(g1.nodes@, id) {
            let i = choose|i: int| 0 <= i < g1.nodes@.len() && (#[trigger] g1.nodes@[i]).id == id && g1.nodes@[i].type_id == "stamp"@;
            assert(node_migrated(g0.nodes@[i], g1.nodes@[i]));
        }
        if is_stamp(g0.nodes@, id) {
            let i = choose|i: int| 0 <= i < g0.nodes@.len() && (#[trigger] g0.nodes@[i]).id == id && g0.nodes@[i].type_id == "stamp"@;
            assert(node_migrated(g0.nodes@[i], g1.nodes@[i]));
        }
    }
    assert forall|j: int| 0 <= j < g1.connections@.len() implies {
        let (a, b) = (g1.connections@[j], #[trigger] g2.connections@[j]);
        &&& b.from.node == a.from.node
        &&& b.from.port@ == a.from.port@
        &&& b.to.node == a.to.node
        &&& b.to.port@ == a.to.port@
    } by {
        let (z, a, b) = (g0.connections@[j], g1.connections@[j], g2.connections@[j]);
        assert(end_migrated(g0.nodes@, z.from, a.from) && end_migrated(g0.nodes@, z.to, a.to));
        assert(end_migrated(g1.nodes@, a.from, b.from) && end_migrated(g1.nodes@, a.to, b.to));
    }
}

// ---------------------------------------------------------------------------
// Migration: `preview_output` nodes are gone; the stamp's preview wires into
// the color output instead.

/// The ids of the nodes of `nodes` of type `t`, in order.
pub open spec fn ids_of_type(nodes: Seq<NodeView<BrushWireType>>, t: Seq<char>) -> Seq<NodeId>
    decreases nodes.len(),
{
    if nodes.len() == 0 {
        Seq::empty()
    } else if nodes.last().type_id == t {
        ids_of_type(nodes.drop_last(), t).push(nodes.last().id)
    } else {
        ids_of_type(nodes.drop_last(), t)
    }
}

/// Whether some port of `ports` is named `name`.
pub open spec fn names_port(ports: Seq<PortShape>, name: Seq<char>) -> bool {
    exists|k: int| 0 <= k < ports.len() && (#[trigger] ports[k]).0 == name
}

/// `ports` with each port of `reg` whose name it lacks appended, in the
/// order of `reg`.
pub open spec fn patch_ports(ports: Seq<PortShape>, reg: Seq<PortShape>) -> Seq<PortShape>
    decreases reg.len(),
{
    if reg.len() == 0 {
        ports
    } else {
        let p = patch_ports(ports, reg.drop_last());
        if names_port(p, reg.last().0) {
            p
        } else {
            p.push(reg.last())
        }
    }
}

/// Whether node `m` is node `n`, with its ports completed from its
/// registration when it is node `s` or node `c`.
pub open spec fn node_patched(n: NodeView<BrushWireType>, m: NodeView<BrushWireType>, s: NodeId, c: NodeId) -> bool {
    &&& m.id == n.id
    &&& m.type_id == n.type_id
    &&& m.params == n.params
    &&& if n.id == s || n.id == c {
        &&& m.ports.len() >= n.ports.len()
        &&& m.ports.take(n.ports.len() as int) == n.ports
        &&& shapes(m.ports) == patch_ports(shapes(n.ports), builtin_ports(n.type_id))
    } else {
        m.ports == n.ports
    }
}

/// The ids of the nodes that survive dropping every `preview_output` node.
pub open spec fn non_preview_ids(nodes: Seq<NodeView<BrushWireType>>) -> Set<NodeId> {
    kept_ids(nodes, ids_of_type(nodes, "preview_output"@))
}

/// Whether graph `g` is graph `old` after the preview migration: every
/// `preview_output` node and the wires touching it dropped; then, when the
/// rest has exactly one `stamp` and one `color_output` and nothing is wired
/// into the color output's `brush_preview`, both nodes' ports completed from
/// their registrations and the wire `stamp.preview -> color_output.brush_preview`
/// added, if the graph accepts it.
pub open spec fn preview_migrated(old: Graph<BrushWireType>, g: Graph<BrushWireType>) -> bool {
    let keep = non_preview_ids(old.nodes@);
    let n1 = select_nodes(old.nodes@, keep);
    let c1 = select_conns(old.connections@, keep);
    let stamps = ids_of_type(n1, "stamp"@);
    let colors = ids_of_type(n1, "color_output"@);
    &&& g.next_id() == old.next_id()
    &&& if stamps.len() != 1 || colors.len() != 1 || wired_into(c1, colors[0], "brush_preview"@) {
        g.nodes@ == n1 && g.connections@ == c1
    } else {
        &&& g.nodes@.len() == n1.len()
        &&& forall|i: int| 0 <= i < n1.len() ==> node_patched(n1[i], #[trigger] g.nodes@[i], stamps[0], colors[0])
        &&& if wire_accepted(g.nodes@, stamps[0], "preview"@, colors[0], "brush_preview"@) {
            &&& g.connections@.len() == c1.len() + 1
            &&& g.connections@.drop_last() == c1
            &&& g.connections@.last().from.node == stamps[0]
            &&& g.connections@.last().from.port@ == "preview"@
            &&& g.connections@.last().to.node == colors[0]
            &&& g.connections@.last().to.port@ == "brush_preview"@
        } else {
            g.connections@ == c1
        }
    }
}

/// The ids of the nodes of `graph` of type `t`, in order.
fn ids_with_type(graph: &Graph<BrushWireType>, t: &str) -> (ids: Vec<NodeId>)
    ensures
        ids@ == ids_of_type(graph.nodes@, t@),
{
    let mut ids: Vec<NodeId> = Vec::new();
    let mut i: usize = 0;
    while i < graph.nodes.len()
        invariant
            i <= graph.nodes@.len(),
            ids@ == ids_of_type(graph.nodes@.take(i as int), t@),
        decreases graph.nodes@.len() - i,
    {
        assert(graph.nodes@.take(i + 1).drop_last() =~= graph.nodes@.take(i as int));
        let n = graph.nodes.at(i);
        if str_eq(n.type_id.as_str(), t) {
            ids.push(n.id);
        }
        i = i + 1;
    }
    assert(graph.nodes@.take(graph.nodes@.len() as int) =~= graph.nodes@);
    ids
}

/// Whether a wire of `conns` runs into port `port` of node `id`.
fn has_wire_into(conns: &Vec<Connection>, id: NodeId, port: &str) -> (r: bool)
    ensures
        r == wired_into(conns@, id, port@),
{
    let mut i: usize = 0;
    while i < conns.len()
        invariant
            i <= conns@.len(),
            forall|k: int| 0 <= k < i ==> !((#[trigger] conns@[k]).to.node == id && conns@[k].to.port@ == port@),
        decreases conns@.len() - i,
    {
        if conns[i].to.node == id && str_eq(conns[i].to.port.as_str(), port) {
            return true;
        }
        i = i + 1;
    }
    false
}

/// Whether some port of `ports` is named `name`.
fn has_port_named(ports: &Vec<PortDef<BrushWireType>>, name: &str) -> (r: bool)
    ensures
        r == names_port(shapes(ports@), name@),
{
    let mut i: usize = 0;
    while i < ports.len()
        invariant
            i <= ports@.len(),
            forall|k: int| 0 <= k < i ==> (#[trigger] ports@[k]).name@ != name@,
        decreases ports@.len() - i,
    {
        if str_eq(ports[i].name.as_str(), name) {
            assert(shapes(ports@)[i as int].0 == name@);
            return true;
        }
        i = i + 1;
    }
    assert forall|k: int| 0 <= k < shapes(ports@).len() implies (#[trigger] shapes(ports@)[k]).0 != name@ by {
        assert(ports@[k].name@ != name@);
    }
    false
}

/// `ports` with each port of `reg` whose name it lacks appended.
fn completed_ports(ports: &Vec<PortDef<BrushWireType>>, reg: &Vec<PortDef<BrushWireType>>) -> (r: Vec<PortDef<BrushWireType>>)
    ensures
        r@.len() >= ports@.len(),
        r@.take(ports@.len() as int) == ports@,
        shapes(r@) == patch_ports(shapes(ports@), shapes(reg@)),
{
    let mut r = ports.clone();
    assert(r@ =~= ports@);
    assert(shapes(reg@.take(0)) =~= Seq::<PortShape>::empty());
    let mut k: usize = 0;
    while k < reg.len()
        invariant
            k <= reg@.len(),
            r@.len() >= ports@.len(),
            r@.take(ports@.len() as int) == ports@,
            shapes(r@) == patch_ports(shapes(ports@), shapes(reg@.take(k as int))),
        decreases reg@.len() - k,
    {
        let ghost before = r@;
        assert(shapes(reg@.take(k + 1)).drop_last() =~= shapes(reg@.take(k as int)));
        assert(shapes(reg@.take(k + 1)).last() == port_shape(reg@[k as int]));
        if !has_port_named(&r, reg[k].name.as_str()) {
            r.push(reg[k].clone());
            assert(shapes(r@) =~= shapes(before).push(port_shape(reg@[k as int])));
            assert(r@.take(ports@.len() as int) =~= before.take(ports@.len() as int));
        }
        k = k + 1;
    }
    assert(reg@.take(reg@.len() as int) =~= reg@);
    r
}

/// The position of the node with id `id` in `graph`, if any.
fn position_of(graph: &Graph<BrushWireType>, id: NodeId) -> (r: Option<usize>)
    ensures
        r matches Some(i) ==> i < graph.nodes@.len() && graph.nodes@[i as int].id == id,
        r is None ==> !holds_id(graph.nodes@, id),
{
    let mut i: usize = 0;
    while i < graph.nodes.len()
        invariant
            i <= graph.nodes@.len(),
            forall|k: int| 0 <= k < i ==> (#[trigger] graph.nodes@[k]).id != id,
        decreases graph.nodes@.len() - i,
    {
        if graph.nodes.at(i).id == id {
            return Some(i);
        }
        i = i + 1;
    }
    None
}


/// Whether `nodes` holds a node with id `id` and type `t`.
pub open spec fn holds_typed(nodes: Seq<NodeView<BrushWireType>>, id: NodeId, t: Seq<char>) -> bool {
    exists|i: int| 0 <= i < nodes.len() && (#[trigger] nodes[i]).id == id && nodes[i].type_id == t
}

/// Each id listed by `ids_of_type` is the id of a node of that type.
proof fn lemma_ids_of_type(nodes: Seq<NodeView<BrushWireType>>, t: Seq<char>)
    ensures
        forall|k: int| 0 <= k < ids_of_type(nodes, t).len() ==> holds_typed(nodes, #[trigger] ids_of_type(nodes, t)[k], t),
    decreases nodes.len(),
{
    if nodes.len() > 0 {
        let init = nodes.drop_last();
        lemma_ids_of_type(init, t);
        let w = ids_of_type(init, t);
        assert forall|k: int| 0 <= k < ids_of_type(nodes, t).len() implies holds_typed(nodes, #[trigger] ids_of_type(nodes, t)[k], t) by {
            if k < w.len() {
                assert(ids_of_type(nodes, t)[k] == w[k]);
                assert(holds_typed(init, w[k], t));
                let i = choose|i: int| 0 <= i < init.len() && (#[trigger] init[i]).id == w[k] && init[i].type_id == t;
                assert(nodes[i] == init[i]);
            } else {
                assert(nodes[nodes.len() - 1].id == ids_of_type(nodes, t)[k]);
            }
        }
    }
}

/// Complete the ports of node `id` (of registered type `type_id`) with the
/// registered ports it lacks.
fn complete_node_ports(graph: &mut Graph<BrushWireType>, registry: &BrushNodeRegistry, id: NodeId, type_id: &str)
    requires
        old(graph).wf(),
        registry.wf(),
        holds_typed(old(graph).nodes@, id, type_id@),
        crate::brush::registry::is_builtin_type(type_id@),
    ensures
        final(graph).wf(),
        final(graph).next_id() == old(graph).next_id(),
        final(graph).connections@ == old(graph).connections@,
        final(graph).nodes@.len() == old(graph).nodes@.len(),
        forall|i: int| 0 <= i < old(graph).nodes@.len() ==> {
            let n = old(graph).nodes@[i];
            let m = #[trigger] final(graph).nodes@[i];
            &&& m.id == n.id
            &&& m.type_id == n.type_id
            &&& m.params == n.params
            &&& if n.id == id {
                &&& m.ports.len() >= n.ports.len()
                &&& m.ports.take(n.ports.len() as int) == n.ports
                &&& shapes(m.ports) == patch_ports(shapes(n.ports), builtin_ports(n.type_id))
            } else {
                m.ports == n.ports
            }
        },
{
    let ghost nodes = graph.nodes@;
    let reg = match registry.get(type_id) {
        Some(reg) => reg,
        None => {
            return;
        },
    };
    let idx = match position_of(graph, id) {
        Some(i) => i,
        None => {
            return;
        },
    };
    proof {
        let j = choose|j: int| 0 <= j < nodes.len() && (#[trigger] nodes[j]).id == id && nodes[j].type_id == type_id@;
        assert(nodes[j].id == nodes[idx as int].id);
    }
    let ports = completed_ports(&graph.nodes.at(idx).ports, &reg.ports);
    graph.nodes.set_ports_at(idx, ports);
    proof {
        let g = *graph;
        assert forall|k: int| 0 <= k < g.nodes@.len() implies (#[trigger] g.nodes@[k]).id == nodes[k].id by {
            if k == idx {
            }
        }
        assert(crate::nodegraph::distinct_ids(g.nodes@)) by {
            assert forall|a: int, b: int|
                0 <= a < g.nodes@.len() && 0 <= b < g.nodes@.len() && a != b implies
                (#[trigger] g.nodes@[a]).id != (#[trigger] g.nodes@[b]).id by {
                assert(g.nodes@[a].id == nodes[a].id && g.nodes@[b].id == nodes[b].id);
            }
        }
        assert forall|m: int| 0 <= m < g.nodes@.len() implies (#[trigger] g.nodes@[m]).id.0 < g.next_id() by {
            assert(g.nodes@[m].id == nodes[m].id);
        }
        assert forall|x: NodeId| holds_id(nodes, x) implies holds_id(g.nodes@, x) by {
            let k = choose|k: int| 0 <= k < nodes.len() && (#[trigger] nodes[k]).id == x;
            assert(g.nodes@[k].id == x);
        }
        assert forall|m: int| 0 <= m < g.connections@.len() implies holds_id(
            g.nodes@,
            (#[trigger] g.connections@[m]).from.node,
        ) && holds_id(g.nodes@, g.connections@[m].to.node) by {
            assert(holds_id(nodes, g.connections@[m].from.node));
            assert(holds_id(nodes, g.connections@[m].to.node));
        }
        assert forall|i: int| 0 <= i < nodes.len() && (#[trigger] g.nodes@[i]).id == id implies i == idx by {
            assert(g.nodes@[i].id == nodes[i].id);
        }
    }
}

/// Drop every `preview_output` node with its wires, then, when what is left
/// has exactly one `stamp` and one `color_output` and nothing feeds the
/// color output's `brush_preview`, complete both nodes' ports from their
/// registrations and wire `stamp.preview -> color_output.brush_preview`.
/// Presets saved before hover previews moved to the terminals keep
/// showing one.
pub fn migrate_drop_preview_output(graph: &mut Graph<BrushWireType>)
    requires
        old(graph).wf(),
    ensures
        final(graph).wf(),
        preview_migrated(*old(graph), *final(graph)),
{
    let previews = ids_with_type(graph, "preview_output");
    graph.remove_nodes(&previews);
    let stamps = ids_with_type(graph, "stamp");
    let colors = ids_with_type(graph, "color_output");
    if stamps.len() != 1 || colors.len() != 1 {
        return;
    }
    let stamp_id = stamps[0];
    let color_id = colors[0];
    if has_wire_into(&graph.connections, color_id, "brush_preview") {
        return;
    }
    let ghost n1 = graph.nodes@;
    let ghost c1 = graph.connections@;
    proof {
        lemma_ids_of_type(n1, "stamp"@);
        lemma_ids_of_type(n1, "color_output"@);
        crate::brush::registry::lemma_builtin_types_distinct();
        assert(holds_typed(n1, stamp_id, "stamp"@));
        assert(holds_typed(n1, color_id, "color_output"@));
        assert(stamp_id != color_id) by {
            let a = choose|i: int| 0 <= i < n1.len() && (#[trigger] n1[i]).id == stamp_id && n1[i].type_id == "stamp"@;
            let b = choose|i: int| 0 <= i < n1.len() && (#[trigger] n1[i]).id == color_id && n1[i].type_id == "color_output"@;
            if a != b {
            }
        }
    }
    let registry = BrushNodeRegistry::new();
    complete_node_ports(graph, &registry, stamp_id, "stamp");
    let ghost n2 = graph.nodes@;
    proof {
        let b = choose|i: int| 0 <= i < n1.len() && (#[trigger] n1[i]).id == color_id && n1[i].type_id == "color_output"@;
        assert(n2[b].id == color_id && n2[b].type_id == "color_output"@);
    }
    complete_node_ports(graph, &registry, color_id, "color_output");
    proof {
        lemma_drop_into_unwired(c1, color_id, "brush_preview"@);
        assert forall|i: int| 0 <= i < n1.len() implies node_patched(n1[i], #[trigger] graph.nodes@[i], stamp_id, color_id) by {
            assert(n2[i].id == n1[i].id);
        }
    }
    let wired = graph.connect(
        PortRef { node: stamp_id, port: owned("preview") },
        PortRef { node: color_id, port: owned("brush_preview") },
    );
    proof {
        if wired is Ok {
            assert(graph.connections@.drop_last() =~= c1);
        }
    }
}


// ---------------------------------------------------------------------------
// The archive: `preset.json` and the resources.

/// Path of the preset's JSON inside the archive.
pub const PRESET_JSON_PATH: &'static str = "preset.json";

/// The message of a failed read of `preset.json`.
pub open spec fn preset_json_error(f: (ArchiveErrorKind, Seq<char>)) -> Seq<char> {
    match f.0 {
        ArchiveErrorKind::NotArchive => "invalid ZIP archive: "@ + f.1,
        ArchiveErrorKind::Missing => "missing preset.json: "@ + f.1,
        ArchiveErrorKind::Unreadable => "failed to read preset.json: "@ + f.1,
    }
}

/// The message when `preset.json` is not UTF-8 text.
pub open spec fn preset_json_not_text() -> Seq<char> {
    "failed to read preset.json: stream did not contain valid UTF-8"@
}

/// What reading the text of `preset.json` from the archive `archive` gives.
pub open spec fn preset_json_read(archive: Seq<u8>) -> Result<Seq<char>, Seq<char>> {
    match zip_lookup(archive, "preset.json"@) {
        Ok(data) => if valid_utf8(data) {
            Ok(decode_utf8(data))
        } else {
            Err(preset_json_not_text())
        },
        Err(f) => Err(preset_json_error(f)),
    }
}

/// A read that gave the text `t`.
pub open spec fn text_ok(t: Seq<char>) -> Result<Seq<char>, Seq<char>> {
    Ok(t)
}

/// The view of a text result.
pub open spec fn text_result(r: Result<String, String>) -> Result<Seq<char>, Seq<char>> {
    match r {
        Ok(s) => Ok(s@),
        Err(e) => Err(e@),
    }
}

/// The text of `preset.json` in the archive `archive`, to be parsed into a
/// [`BrushPreset`] and handed to [`PresetBundle::from_parsed`].
pub fn read_preset_json(archive: &[u8]) -> (r: Result<String, String>)
    ensures
        text_result(r) == preset_json_read(archive@),
{
    match read_entry(archive, PRESET_JSON_PATH) {
        Ok(data) => match utf8_text(data) {
            Some(text) => Ok(text),
            None => Err(owned("failed to read preset.json: stream did not contain valid UTF-8")),
        },
        Err(e) => {
            let msg = match e.kind {
                ArchiveErrorKind::NotArchive => concat2("invalid ZIP archive: ", e.message.as_str()),
                ArchiveErrorKind::Missing => concat2("missing preset.json: ", e.message.as_str()),
                ArchiveErrorKind::Unreadable => concat2("failed to read preset.json: ", e.message.as_str()),
            };
            Err(msg)
        },
    }
}

/// The message refusing a preset of format version `v`.
pub open spec fn newer_version_error(v: u32) -> Seq<char> {
    "preset format version "@ + decimal(v as nat) + " is newer than supported version "@ + decimal(
        FORMAT_VERSION as nat,
    )
}

/// The error of a parsed preset whose graph breaks the graph invariant
/// (an id used twice, a wire to a missing node or port, an id counter behind
/// its nodes).
pub const MALFORMED_GRAPH_ERROR: &'static str = "preset graph is malformed";

/// The message of a failed read of the resource `meta`.
pub open spec fn resource_error(meta: PresetResourceMeta, f: (ArchiveErrorKind, Seq<char>)) -> Seq<char> {
    match f.0 {
        ArchiveErrorKind::NotArchive => "invalid ZIP archive: "@ + f.1,
        ArchiveErrorKind::Missing => "resource '"@ + meta.name@ + "' referenced at '"@ + meta.path@
            + "' not found in ZIP: "@ + f.1,
        ArchiveErrorKind::Unreadable => "failed to read resource '"@ + meta.name@ + "': "@ + f.1,
    }
}

/// Whether the resource `meta` reads from the archive.
pub open spec fn resource_found(archive: Seq<u8>, meta: PresetResourceMeta) -> bool {
    zip_lookup(archive, meta.path@) is Ok
}

/// Whether `i` is the first of `metas` whose resource does not read from
/// the archive.
pub open spec fn first_missing_resource(archive: Seq<u8>, metas: Seq<PresetResourceMeta>, i: int) -> bool {
    &&& 0 <= i < metas.len()
    &&& !resource_found(archive, metas[i])
    &&& forall|k: int| 0 <= k < i ==> resource_found(archive, #[trigger] metas[k])
}

/// Whether graph `g` is graph `old` after both load migrations.
pub open spec fn graph_loaded(old: Graph<BrushWireType>, g: Graph<BrushWireType>) -> bool {
    exists|mid: Graph<BrushWireType>| #![trigger stamp_flow_migrated(old, mid)]
        mid.wf() && stamp_flow_migrated(old, mid) && preview_migrated(mid, g)
}

/// Whether preset `q` is preset `p` with only its graph changed.
pub open spec fn same_but_graph(p: BrushPreset, q: BrushPreset) -> bool {
    &&& q.format_version == p.format_version
    &&& q.name == p.name
    &&& q.engine_version == p.engine_version
    &&& q.category == p.category
    &&& q.author == p.author
    &&& q.description == p.description
    &&& q.tags == p.tags
    &&& q.stabilizer == p.stabilizer
    &&& q.resources == p.resources
}

impl PresetBundle {
    /// Finish loading a preset parsed from the `preset.json` of the archive
    /// `archive`: migrate its graph, refuse a format version newer than this
    /// library's, and read each listed resource from the archive, in order.
    pub fn from_parsed(archive: &[u8], preset: BrushPreset) -> (r: Result<PresetBundle, String>)
        ensures
            preset.format_version > FORMAT_VERSION ==> (r matches Err(e) && e@ == newer_version_error(
                preset.format_version,
            )),
            preset.format_version <= FORMAT_VERSION && !preset.graph.wf() ==> (r matches Err(e) && e@
                == MALFORMED_GRAPH_ERROR@),
            preset.format_version <= FORMAT_VERSION && preset.graph.wf() ==> (r is Ok <==> forall|k: int|
                0 <= k < preset.resources@.len() ==> resource_found(archive@, #[trigger] preset.resources@[k])),
            preset.format_version <= FORMAT_VERSION && preset.graph.wf() && r is Err ==> exists|i: int|
                first_missing_resource(archive@, preset.resources@, i) && r->Err_0@ == resource_error(
                    preset.resources@[i],
                    zip_lookup(archive@, preset.resources@[i].path@)->Err_0,
                ),
            r matches Ok(b) ==> {
                &&& same_but_graph(preset, b.preset)
                &&& b.preset.graph.wf()
                &&& graph_loaded(preset.graph, b.preset.graph)
                &&& b.thumbnail_png is None
                &&& b.resource_data@.len() == preset.resources@.len()
                &&& forall|k: int|
                    0 <= k < preset.resources@.len() ==> (#[trigger] b.resource_data@[k]).0@
                        == preset.resources@[k].name@ && zip_lookup(archive@, preset.resources@[k].path@)
                        == found(b.resource_data@[k].1@)
            },
    {
        let ghost p0 = preset;
        if preset.format_version > FORMAT_VERSION {
            let v = decimal_string(preset.format_version as u64);
            let supported = decimal_string(FORMAT_VERSION as u64);
            return Err(concat4(
                "preset format version ",
                v.as_str(),
                " is newer than supported version ",
                supported.as_str(),
            ));
        }
        if !preset.graph.is_well_formed() {
            return Err(owned(MALFORMED_GRAPH_ERROR));
        }
        let mut loaded = preset;
        let ghost g0 = loaded.graph;
        migrate_stamp_opacity_to_flow(&mut loaded.graph);
        let ghost g1 = loaded.graph;
        migrate_drop_preview_output(&mut loaded.graph);
        let mut data: Vec<(String, Vec<u8>)> = Vec::new();
        let mut i: usize = 0;
        while i < loaded.resources.len()
            invariant
                i <= loaded.resources@.len(),
                p0 == preset,
                p0.format_version <= FORMAT_VERSION,
                p0.graph.wf(),
                loaded.format_version == p0.format_version,
                loaded.resources@ == p0.resources@,
                data@.len() == i,
                forall|k: int|
                    0 <= k < i ==> (#[trigger] data@[k]).0@ == loaded.resources@[k].name@ && zip_lookup(
                        archive@,
                        loaded.resources@[k].path@,
                    ) == found(data@[k].1@),
            decreases loaded.resources@.len() - i,
        {
            let meta = &loaded.resources[i];
            match read_entry(archive, meta.path.as_str()) {
                Ok(bytes) => {
                    data.push((meta.name.clone(), bytes));
                },
                Err(e) => {
                    let msg = match e.kind {
                        ArchiveErrorKind::NotArchive => concat2("invalid ZIP archive: ", e.message.as_str()),
                        ArchiveErrorKind::Missing => {
                            let head = concat5(
                                "resource '",
                                meta.name.as_str(),
                                "' referenced at '",
                                meta.path.as_str(),
                                "' not found in ZIP: ",
                            );
                            concat2(head.as_str(), e.message.as_str())
                        },
                        ArchiveErrorKind::Unreadable => concat4(
                            "failed to read resource '",
                            meta.name.as_str(),
                            "': ",
                            e.message.as_str(),
                        ),
                    };
                    proof {
                        assert(first_missing_resource(archive@, loaded.resources@, i as int)) by {
                            assert forall|k: int| 0 <= k < i implies resource_found(archive@, #[trigger] loaded.resources@[k]) by {
                                assert(zip_lookup(archive@, loaded.resources@[k].path@) == found(data@[k].1@));
                            }
                        }
                    }
                    return Err(msg);
                },
            }
            i = i + 1;
        }
        proof {
            assert(stamp_flow_migrated(g0, g1));
            assert forall|k: int| 0 <= k < loaded.resources@.len() implies resource_found(archive@, #[trigger] loaded.resources@[k]) by {
                assert(zip_lookup(archive@, loaded.resources@[k].path@) == found(data@[k].1@));
            }
        }
        Ok(PresetBundle { preset: loaded, resource_data: data, thumbnail_png: None })
    }
}


/// Where the resource `name` is stored: at the path of the first of `metas`
/// with that name, else at `resources/<name>`.
pub open spec fn resource_path(metas: Seq<PresetResourceMeta>, name: Seq<char>) -> Seq<char>
    decreases metas.len(),
{
    if metas.len() == 0 {
        "resources/"@ + name
    } else if metas[0].name@ == name {
        metas[0].path@
    } else {
        resource_path(metas.drop_first(), name)
    }
}

/// The entries of the archive of bundle `b` whose preset serializes to
/// `json`: `preset.json`, then each resource at its path, in order.
pub open spec fn preset_entries(b: PresetBundle, json: Seq<char>) -> Seq<(Seq<char>, Seq<u8>)> {
    seq![("preset.json"@, encode_utf8(json))] + b.resource_data@.map_values(
        |e: (String, Vec<u8>)| (resource_path(b.preset.resources@, e.0@), e.1@),
    )
}

/// Whether `e` is an error message of a failed archive write.
pub open spec fn archive_write_error(e: Seq<char>) -> bool {
    exists|m: Seq<char>| e == "zip write error: "@ + m || e == "zip finalize error: "@ + m
}

/// The path the resource `name` is stored at.
fn path_for(metas: &Vec<PresetResourceMeta>, name: &str) -> (r: String)
    ensures
        r@ == resource_path(metas@, name@),
{
    let mut i: usize = 0;
    assert(metas@.skip(0) =~= metas@);
    while i < metas.len()
        invariant
            i <= metas@.len(),
            resource_path(metas@, name@) == resource_path(metas@.skip(i as int), name@),
        decreases metas@.len() - i,
    {
        if str_eq(metas[i].name.as_str(), name) {
            return metas[i].path.clone();
        }
        assert(metas@.skip(i as int).drop_first() =~= metas@.skip(i + 1));
        i = i + 1;
    }
    concat2("resources/", name)
}

impl PresetBundle {
    /// The archive of this bundle, given the JSON its preset serializes to:
    /// `preset.json`, then each resource at the path its metadata names (or
    /// `resources/<name>` when none does). Fails with a write error when two
    /// entries share a path or a path is too long for the zip format;
    /// succeeds when the paths are distinct and every path and every entry's
    /// data fits.
    pub fn to_bytes(&self, preset_json: &str) -> (r: Result<Vec<u8>, String>)
        ensures
            r is Ok ==> distinct_paths(preset_entries(*self, preset_json@)),
            distinct_paths(preset_entries(*self, preset_json@)) && entries_fit(preset_entries(*self, preset_json@))
                ==> r is Ok,
            r matches Ok(bytes) ==> forall|i: int|
                0 <= i < preset_entries(*self, preset_json@).len() ==> zip_lookup(
                    bytes@,
                    (#[trigger] preset_entries(*self, preset_json@)[i]).0,
                ) == found(preset_entries(*self, preset_json@)[i].1),
            r matches Err(e) ==> archive_write_error(e@),
    {
        let mut entries: Vec<(String, Vec<u8>)> = Vec::new();
        entries.push((owned(PRESET_JSON_PATH), slice_to_vec(preset_json.as_bytes())));
        let mut i: usize = 0;
        while i < self.resource_data.len()
            invariant
                i <= self.resource_data@.len(),
                entry_views(entries@) == preset_entries(*self, preset_json@).take(i + 1),
            decreases self.resource_data@.len() - i,
        {
            let path = path_for(&self.preset.resources, self.resource_data[i].0.as_str());
            let data = self.resource_data[i].1.clone();
            assert(data@ =~= self.resource_data@[i as int].1@);
            let ghost before = entries@;
            entries.push((path, data));
            proof {
                let pe = preset_entries(*self, preset_json@);
                assert(pe[i + 1] == (resource_path(self.preset.resources@, self.resource_data@[i as int].0@), self.resource_data@[i as int].1@));
                assert(entry_views(entries@) =~= entry_views(before).push(pe[i + 1]));
                assert(pe.take(i + 2) =~= pe.take(i + 1).push(pe[i + 1]));
            }
            i = i + 1;
        }
        assert(preset_entries(*self, preset_json@).take(self.resource_data@.len() + 1int) =~= preset_entries(*self, preset_json@));
        match write_archive(&entries) {
            Ok(bytes) => Ok(bytes),
            Err(ArchiveWriteError::Entry(e)) => Err(concat2("zip write error: ", e.as_str())),
            Err(ArchiveWriteError::Finish(e)) => Err(concat2("zip finalize error: ", e.as_str())),
        }
    }
}


/// The first resource of `metas` named `name` is stored at its own path.
proof fn lemma_resource_path_first(metas: Seq<PresetResourceMeta>, k: int)
    requires
        0 <= k < metas.len(),
        forall|j: int| 0 <= j < k ==> (#[trigger] metas[j]).name@ != metas[k].name@,
    ensures
        resource_path(metas, metas[k].name@) == metas[k].path@,
    decreases k,
{
    if k > 0 {
        let rest = metas.drop_first();
        assert forall|j: int| 0 <= j < k - 1 implies (#[trigger] rest[j]).name@ != rest[k - 1].name@ by {
            assert(rest[j] == metas[j + 1]);
        }
        assert(metas[0].name@ != metas[k].name@);
        lemma_resource_path_first(rest, k - 1);
    }
}

/// Reading back an archive written by [`PresetBundle::to_bytes`] gives the
/// preset JSON it was given and, for every resource metadata entry that is
/// the first of its name, the data the bundle holds under that name.
///
/// The hypotheses are what `to_bytes` promises of the bytes it returns.
pub proof fn preset_archive_round_trip(b: PresetBundle, json: Seq<char>, bytes: Seq<u8>)
    requires
        distinct_paths(preset_entries(b, json)),
        forall|i: int|
            0 <= i < preset_entries(b, json).len() ==> zip_lookup(bytes, (#[trigger] preset_entries(b, json)[i]).0)
                == found(preset_entries(b, json)[i].1),
    ensures
        preset_json_read(bytes) == text_ok(json),
        forall|k: int, d: int|
            0 <= k < b.preset.resources@.len() && 0 <= d < b.resource_data@.len()
                && (#[trigger] b.preset.resources@[k]).name@ == (#[trigger] b.resource_data@[d]).0@
                && (forall|j: int| 0 <= j < k ==> (#[trigger] b.preset.resources@[j]).name@ != b.preset.resources@[k].name@)
                ==> zip_lookup(bytes, b.preset.resources@[k].path@) == found(b.resource_data@[d].1@),
{
    let pe = preset_entries(b, json);
    assert(pe[0] == ("preset.json"@, encode_utf8(json)));
    assert(zip_lookup(bytes, pe[0].0) == found(pe[0].1));
    vstd::utf8::encode_utf8_valid_utf8(json);
    vstd::utf8::encode_utf8_decode_utf8(json);
    assert forall|k: int, d: int|
        0 <= k < b.preset.resources@.len() && 0 <= d < b.resource_data@.len()
            && (#[trigger] b.preset.resources@[k]).name@ == (#[trigger] b.resource_data@[d]).0@
            && (forall|j: int| 0 <= j < k ==> (#[trigger] b.preset.resources@[j]).name@ != b.preset.resources@[k].name@)
        implies zip_lookup(bytes, b.preset.resources@[k].path@) == found(b.resource_data@[d].1@) by {
        lemma_resource_path_first(b.preset.resources@, k);
        assert(pe[d + 1] == (resource_path(b.preset.resources@, b.resource_data@[d].0@), b.resource_data@[d].1@));
        assert(zip_lookup(bytes, pe[d + 1].0) == found(pe[d + 1].1));
    }
}


/// Loading back an archive written by [`PresetBundle::to_bytes`] finds every
/// resource, with its data: when the bundle holds one resource per metadata
/// entry, in the same order and under the same name, and no two entries
/// share a name, each entry's path reads back the data the bundle holds for
/// it. So [`PresetBundle::from_parsed`] on those bytes and the bundle's
/// preset (of a supported version, with a well formed graph) succeeds and
/// gives back the bundle's resource data.
///
/// The hypotheses on `bytes` are what `to_bytes` promises of the bytes it
/// returns.
pub proof fn preset_reload_reads_every_resource(b: PresetBundle, json: Seq<char>, bytes: Seq<u8>)
    requires
        distinct_paths(preset_entries(b, json)),
        forall|i: int|
            0 <= i < preset_entries(b, json).len() ==> zip_lookup(bytes, (#[trigger] preset_entries(b, json)[i]).0)
                == found(preset_entries(b, json)[i].1),
        b.resource_data@.len() == b.preset.resources@.len(),
        forall|k: int| 0 <= k < b.resource_data@.len() ==> (#[trigger] b.resource_data@[k]).0@ == b.preset.resources@[k].name@,
        forall|i: int, j: int|
            0 <= i < b.preset.resources@.len() && 0 <= j < b.preset.resources@.len() && i != j ==> (#[trigger] b.preset.resources@[i]).name@
                != (#[trigger] b.preset.resources@[j]).name@,
    ensures
        forall|k: int|
            0 <= k < b.preset.resources@.len() ==> resource_found(bytes, #[trigger] b.preset.resources@[k])
                && zip_lookup(bytes, b.preset.resources@[k].path@) == found(b.resource_data@[k].1@),
{
    preset_archive_round_trip(b, json, bytes);
    assert forall|k: int| 0 <= k < b.preset.resources@.len() implies resource_found(bytes, #[trigger] b.preset.resources@[k])
        && zip_lookup(bytes, b.preset.resources@[k].path@) == found(b.resource_data@[k].1@) by {
        assert(b.resource_data@[k].0@ == b.preset.resources@[k].name@);
        assert forall|j: int| 0 <= j < k implies (#[trigger] b.preset.resources@[j]).name@ != b.preset.resources@[k].name@ by {
            assert(b.preset.resources@[j].name@ != b.preset.resources@[k].name@);
        }
    }
}

} // verus!
