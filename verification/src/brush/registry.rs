//! The brush node types this library knows: their ports and parameters, and
//! the default brush graph built from them.

use vstd::prelude::*;

use crate::brush::wire::BrushWireType;
use crate::nodegraph::{
    find_port, has_port, holds_id, lemma_drop_into_unwired, lemma_node_with, wire_accepted, wired_into, Connection,
    Graph, NodeId, PortDef, PortDir, PortRef,
};
use crate::params::{ParamDef, ParamValue};
use crate::text::{owned, str_eq};

verus! {

/// A node type: its id, the ports every instance starts with, and its
/// parameter definitions.
#[derive(Debug)]
pub struct BrushNodeRegistration {
    pub type_id: &'static str,
    pub ports: Vec<PortDef<BrushWireType>>,
    pub params: Vec<ParamDef>,
}

impl Clone for BrushNodeRegistration {
    fn clone(&self) -> (r: Self)
        ensures
            r.type_id == self.type_id,
            r.ports@ == self.ports@,
            r.params@ == self.params@,
    {
        let ports = self.ports.clone();
        assert(ports@ =~= self.ports@);
        let params = self.params.clone();
        assert(params@ =~= self.params@);
        BrushNodeRegistration { type_id: self.type_id, ports, params }
    }
}

/// Whether `reg` is the preview terminal: one `texture` input of type
/// `Texture`, and no parameters.
pub open spec fn is_preview_terminal(reg: BrushNodeRegistration) -> bool {
    &&& reg.type_id@ == "preview_terminal"@
    &&& reg.ports@.len() == 1
    &&& reg.ports@[0].name@ == "texture"@
    &&& reg.ports@[0].dir == crate::nodegraph::PortDir::Input
    &&& reg.ports@[0].wire_type == BrushWireType::Texture
    &&& reg.params@.len() == 0
}

/// What a port is, seen as values: its name, direction and wire type.
pub type PortShape = (Seq<char>, PortDir, BrushWireType);

/// The shape of `p`.
pub open spec fn port_shape(p: PortDef<BrushWireType>) -> PortShape {
    (p.name@, p.dir, p.wire_type)
}

/// The shapes of `ports`, in order.
pub open spec fn shapes(ports: Seq<PortDef<BrushWireType>>) -> Seq<PortShape> {
    ports.map_values(|p: PortDef<BrushWireType>| port_shape(p))
}

/// Whether `type_id` names a node type this library registers.
pub open spec fn is_builtin_type(type_id: Seq<char>) -> bool {
    ||| type_id == "pen_input"@
    ||| type_id == "circle"@
    ||| type_id == "stamp"@
    ||| type_id == "random"@
    ||| type_id == "color_output"@
    ||| type_id == "preview_terminal"@
}

/// The ports a node of registered type `type_id` starts with.
pub open spec fn builtin_ports(type_id: Seq<char>) -> Seq<PortShape> {
    if type_id == "pen_input"@ {
        seq![
            ("position"@, PortDir::Output, BrushWireType::Vec2),
            ("pressure"@, PortDir::Output, BrushWireType::Scalar),
            ("tilt"@, PortDir::Output, BrushWireType::Vec2),
            ("speed"@, PortDir::Output, BrushWireType::Scalar),
        ]
    } else if type_id == "circle"@ {
        seq![
            ("size"@, PortDir::Input, BrushWireType::Scalar),
            ("hardness"@, PortDir::Input, BrushWireType::Scalar),
            ("texture"@, PortDir::Output, BrushWireType::Texture),
        ]
    } else if type_id == "stamp"@ {
        seq![
            ("tip"@, PortDir::Input, BrushWireType::Texture),
            ("size"@, PortDir::Input, BrushWireType::Scalar),
            ("flow"@, PortDir::Input, BrushWireType::Scalar),
            ("color"@, PortDir::Input, BrushWireType::Vec4),
            ("dab"@, PortDir::Output, BrushWireType::Texture),
            ("preview"@, PortDir::Output, BrushWireType::Texture),
        ]
    } else if type_id == "random"@ {
        seq![("value"@, PortDir::Output, BrushWireType::Scalar)]
    } else if type_id == "color_output"@ {
        seq![
            ("dab"@, PortDir::Input, BrushWireType::Texture),
            ("brush_preview"@, PortDir::Input, BrushWireType::Texture),
        ]
    } else if type_id == "preview_terminal"@ {
        seq![("texture"@, PortDir::Input, BrushWireType::Texture)]
    } else {
        seq![]
    }
}

/// The registered type ids are pairwise distinct.
pub proof fn lemma_builtin_types_distinct()
    ensures
        "pen_input"@ != "circle"@,
        "pen_input"@ != "stamp"@,
        "pen_input"@ != "random"@,
        "pen_input"@ != "color_output"@,
        "pen_input"@ != "preview_terminal"@,
        "circle"@ != "stamp"@,
        "circle"@ != "random"@,
        "circle"@ != "color_output"@,
        "circle"@ != "preview_terminal"@,
        "stamp"@ != "random"@,
        "stamp"@ != "color_output"@,
        "stamp"@ != "preview_terminal"@,
        "random"@ != "color_output"@,
        "random"@ != "preview_terminal"@,
        "color_output"@ != "preview_terminal"@,
{
    reveal_strlit("pen_input");
    reveal_strlit("circle");
    reveal_strlit("stamp");
    reveal_strlit("random");
    reveal_strlit("color_output");
    reveal_strlit("preview_terminal");
    assert("pen_input"@.len() == 9);
    assert("circle"@.len() == 6);
    assert("stamp"@.len() == 5);
    assert("random"@.len() == 6);
    assert("color_output"@.len() == 12);
    assert("preview_terminal"@.len() == 16);
    assert("circle"@[0] != "random"@[0]);
}

/// The first of `entries` registering `type_id`, if any.
pub open spec fn first_registration(entries: Seq<BrushNodeRegistration>, type_id: Seq<char>) -> Option<
    BrushNodeRegistration,
>
    decreases entries.len(),
{
    if entries.len() == 0 {
        None
    } else if entries[0].type_id@ == type_id {
        Some(entries[0])
    } else {
        first_registration(entries.drop_first(), type_id)
    }
}

/// The registry of node types.
pub struct BrushNodeRegistry {
    entries: Vec<BrushNodeRegistration>,
}

fn registration(type_id: &'static str, ports: Vec<PortDef<BrushWireType>>, params: Vec<ParamDef>) -> (r: BrushNodeRegistration)
    ensures
        r.type_id == type_id,
        r.ports@ == ports@,
        r.params@ == params@,
{
    BrushNodeRegistration { type_id, ports, params }
}

fn preview_terminal_registration() -> (r: BrushNodeRegistration)
    ensures
        is_preview_terminal(r),
{
    let mut ports = Vec::new();
    ports.push(PortDef::input("texture", BrushWireType::Texture));
    registration("preview_terminal", ports, Vec::new())
}

impl BrushNodeRegistry {
    /// Well formed: the preview terminal is registered, and every entry under
    /// its type id is the preview terminal.
    pub closed spec fn wf(&self) -> bool {
        &&& forall|i: int| 0 <= i < self.entries@.len() ==> is_builtin_type(
            (#[trigger] self.entries@[i]).type_id@,
        ) && shapes(self.entries@[i].ports@) == builtin_ports(self.entries@[i].type_id@)
        &&& forall|t: Seq<char>| is_builtin_type(t) ==> #[trigger] self.registers(t)
        &&& exists|i: int| 0 <= i < self.entries@.len() && (#[trigger] self.entries@[i]).type_id@
            == "preview_terminal"@
        &&& forall|i: int|
            0 <= i < self.entries@.len() && (#[trigger] self.entries@[i]).type_id@
                == "preview_terminal"@ ==> is_preview_terminal(self.entries@[i])
    }

    /// Whether a node type with this id is registered.
    pub closed spec fn registers(&self, type_id: Seq<char>) -> bool {
        exists|i: int| 0 <= i < self.entries@.len() && (#[trigger] self.entries@[i]).type_id@ == type_id
    }

    /// The registration a lookup of `type_id` finds: the first with that id.
    pub closed spec fn lookup(&self, type_id: Seq<char>) -> Option<BrushNodeRegistration> {
        first_registration(self.entries@, type_id)
    }

    /// The registry of every node type this library knows.
    pub fn new() -> (r: Self)
        ensures
            r.wf(),
    {
        proof {
            lemma_builtin_types_distinct();
        }
        let mut entries: Vec<BrushNodeRegistration> = Vec::new();

        let mut pen = Vec::new();
        pen.push(PortDef::output("position", BrushWireType::Vec2));
        pen.push(PortDef::output("pressure", BrushWireType::Scalar));
        pen.push(PortDef::output("tilt", BrushWireType::Vec2));
        pen.push(PortDef::output("speed", BrushWireType::Scalar));
        assert(shapes(pen@) =~= builtin_ports("pen_input"@));
        entries.push(registration("pen_input", pen, Vec::new()));

        let mut circle = Vec::new();
        circle.push(PortDef::input("size", BrushWireType::Scalar));
        circle.push(PortDef::input("hardness", BrushWireType::Scalar));
        circle.push(PortDef::output("texture", BrushWireType::Texture));
        assert(shapes(circle@) =~= builtin_ports("circle"@));
        entries.push(registration("circle", circle, Vec::new()));

        let mut stamp = Vec::new();
        stamp.push(PortDef::input("tip", BrushWireType::Texture));
        stamp.push(PortDef::input("size", BrushWireType::Scalar));
        stamp.push(PortDef::input("flow", BrushWireType::Scalar));
        stamp.push(PortDef::input("color", BrushWireType::Vec4));
        stamp.push(PortDef::output("dab", BrushWireType::Texture));
        stamp.push(PortDef::output("preview", BrushWireType::Texture));
        let mut stamp_params = Vec::new();
        stamp_params.push(ParamDef { name: "blend_mode", default: ParamValue::Int(0) });
        assert(shapes(stamp@) =~= builtin_ports("stamp"@));
        entries.push(registration("stamp", stamp, stamp_params));

        let mut random = Vec::new();
        random.push(PortDef::output("value", BrushWireType::Scalar));
        let mut random_params = Vec::new();
        random_params.push(ParamDef { name: "mode", default: ParamValue::Int(0) });
        assert(shapes(random@) =~= builtin_ports("random"@));
        entries.push(registration("random", random, random_params));

        let mut color_output = Vec::new();
        color_output.push(PortDef::input("dab", BrushWireType::Texture));
        color_output.push(PortDef::input("brush_preview", BrushWireType::Texture));
        assert(shapes(color_output@) =~= builtin_ports("color_output"@));
        entries.push(registration("color_output", color_output, Vec::new()));

        let terminal = preview_terminal_registration();
        entries.push(terminal);

        let r = BrushNodeRegistry { entries };
        proof {
            let es = r.entries@;
            let last = es.len() - 1;
            assert(es[last].type_id@ == "preview_terminal"@);
            reveal_strlit("preview_terminal");
            reveal_strlit("pen_input");
            reveal_strlit("circle");
            reveal_strlit("stamp");
            reveal_strlit("random");
            reveal_strlit("color_output");
            assert forall|i: int|
                0 <= i < es.len() && (#[trigger] es[i]).type_id@ == "preview_terminal"@ implies is_preview_terminal(es[i]) by {
                if i < last {
                    assert(es[i].type_id@ != "preview_terminal"@);
                }
            }
            assert(es[0].type_id@ == "pen_input"@);
            assert(shapes(es[0].ports@) =~= builtin_ports(es[0].type_id@));
            assert(es[1].type_id@ == "circle"@);
            assert(shapes(es[1].ports@) =~= builtin_ports(es[1].type_id@));
            assert(es[2].type_id@ == "stamp"@);
            assert(shapes(es[2].ports@) =~= builtin_ports(es[2].type_id@));
            assert(es[3].type_id@ == "random"@);
            assert(shapes(es[3].ports@) =~= builtin_ports(es[3].type_id@));
            assert(es[4].type_id@ == "color_output"@);
            assert(shapes(es[4].ports@) =~= builtin_ports(es[4].type_id@));
            assert(es[5].type_id@ == "preview_terminal"@);
            assert(shapes(es[5].ports@) =~= builtin_ports(es[5].type_id@));
            assert forall|t: Seq<char>| is_builtin_type(t) implies #[trigger] r.registers(t) by {
                if t == "pen_input"@ {
                    assert(es[0].type_id@ == t);
                } else if t == "circle"@ {
                    assert(es[1].type_id@ == t);
                } else if t == "stamp"@ {
                    assert(es[2].type_id@ == t);
                } else if t == "random"@ {
                    assert(es[3].type_id@ == t);
                } else if t == "color_output"@ {
                    assert(es[4].type_id@ == t);
                } else {
                    assert(es[5].type_id@ == t);
                }
            }
        }
        r
    }

    /// The registration of node type `type_id`, if registered.
    pub fn get(&self, type_id: &str) -> (r: Option<&BrushNodeRegistration>)
        ensures
            r matches Some(reg) ==> reg.type_id@ == type_id@ && self.lookup(type_id@) == Some(*reg),
            r is None ==> self.lookup(type_id@) is None,
            r is None <==> !self.registers(type_id@),
            self.wf() ==> (r is Some <==> is_builtin_type(type_id@)),
            self.wf() ==> (r matches Some(reg) ==> shapes(reg.ports@) == builtin_ports(type_id@)),
            self.wf() && type_id@ == "preview_terminal"@ ==> (r matches Some(reg)
                && is_preview_terminal(*reg)),
    {
        let mut i: usize = 0;
        assert(self.entries@.skip(0) =~= self.entries@);
        while i < self.entries.len()
            invariant
                i <= self.entries@.len(),
                forall|k: int| 0 <= k < i ==> (#[trigger] self.entries@[k]).type_id@ != type_id@,
                first_registration(self.entries@, type_id@) == first_registration(self.entries@.skip(i as int), type_id@),
            decreases self.entries.len() - i,
        {
            if str_eq(self.entries[i].type_id, type_id) {
                return Some(&self.entries[i]);
            }
            assert(self.entries@.skip(i as int).drop_first() =~= self.entries@.skip(i + 1));
            i = i + 1;
        }
        assert(!self.registers(type_id@));
        None
    }
}

/// Add a node of a registered type, with its registered ports and default
/// parameter values.
fn add_registered(graph: &mut Graph<BrushWireType>, registry: &BrushNodeRegistry, type_id: &str) -> (id: Option<NodeId>)
    requires
        old(graph).wf(),
        old(graph).next_id() < u64::MAX,
        registry.wf(),
    ensures
        final(graph).wf(),
        final(graph).connections@ == old(graph).connections@,
        id is Some <==> is_builtin_type(type_id@),
        id matches Some(n) ==> n == NodeId(old(graph).next_id())
            && final(graph).nodes@.len() == old(graph).nodes@.len() + 1
            && final(graph).nodes@.drop_last() == old(graph).nodes@
            && final(graph).nodes@.last().id == n
            && final(graph).nodes@.last().type_id == type_id@
            && shapes(final(graph).nodes@.last().ports) == builtin_ports(type_id@)
            && final(graph).next_id() == old(graph).next_id() + 1,
        id is None ==> final(graph).nodes@ == old(graph).nodes@
            && final(graph).next_id() == old(graph).next_id(),
{
    match registry.get(type_id) {
        Some(reg) => {
            let mut params: Vec<ParamValue> = Vec::new();
            let mut i: usize = 0;
            while i < reg.params.len()
                invariant
                    i <= reg.params@.len(),
                decreases reg.params.len() - i,
            {
                params.push(reg.params[i].default_value());
                i = i + 1;
            }
            let ports = reg.ports.clone();
            assert(ports@ =~= reg.ports@);
            Some(graph.add_node(type_id, ports, params))
        },
        None => None,
    }
}

/// The first port of `ports` named `name` facing `dir` is the one at `k`.
proof fn lemma_find_port_at(ports: Seq<PortDef<BrushWireType>>, name: Seq<char>, dir: PortDir, k: int)
    requires
        0 <= k < ports.len(),
        ports[k].name@ == name,
        ports[k].dir == dir,
        forall|j: int| 0 <= j < k ==> !((#[trigger] ports[j]).name@ == name && ports[j].dir == dir),
    ensures
        has_port(ports, name, dir),
        find_port(ports, name, dir) == ports[k],
    decreases k,
{
    if k > 0 {
        let rest = ports.drop_first();
        assert forall|j: int| 0 <= j < k - 1 implies !((#[trigger] rest[j]).name@ == name && rest[j].dir == dir) by {
            assert(rest[j] == ports[j + 1]);
        }
        assert(!(ports[0].name@ == name && ports[0].dir == dir));
        lemma_find_port_at(rest, name, dir, k - 1);
    }
}

/// The port at `k` of a node whose ports have the shapes `shape`.
proof fn lemma_port_shape(ports: Seq<PortDef<BrushWireType>>, shape: Seq<PortShape>, k: int)
    requires
        shapes(ports) == shape,
        0 <= k < shape.len(),
    ensures
        ports.len() == shape.len(),
        ports[k].name@ == shape[k].0,
        ports[k].dir == shape[k].1,
        ports[k].wire_type == shape[k].2,
{
    assert(shapes(ports)[k] == port_shape(ports[k]));
}

/// The names the registered ports of the default graph's nodes go by are
/// pairwise distinct where a lookup compares them.
proof fn lemma_default_port_names()
    ensures
        "position"@ != "pressure"@,
        "size"@ != "flow"@,
        "tip"@ != "flow"@,
        "dab"@ != "preview"@,
        "dab"@ != "brush_preview"@,
        "size"@ != "texture"@,
        "hardness"@ != "texture"@,
{
    reveal_strlit("position");
    reveal_strlit("pressure");
    reveal_strlit("size");
    reveal_strlit("flow");
    reveal_strlit("tip");
    reveal_strlit("dab");
    reveal_strlit("preview");
    reveal_strlit("brush_preview");
    reveal_strlit("texture");
    reveal_strlit("hardness");
    assert("position"@[1] != "pressure"@[1]);
    assert("size"@[0] != "flow"@[0]);
    assert("tip"@.len() != "flow"@.len());
    assert("dab"@.len() != "preview"@.len());
    assert("dab"@.len() != "brush_preview"@.len());
    assert("size"@.len() != "texture"@.len());
    assert("hardness"@.len() != "texture"@.len());
}

/// Whether `c` runs from port `fp` of node `f` to port `tp` of node `t`.
pub open spec fn wire_is(c: Connection, f: u64, fp: Seq<char>, t: u64, tp: Seq<char>) -> bool {
    c.from.node == NodeId(f) && c.from.port@ == fp && c.to.node == NodeId(t) && c.to.port@ == tp
}

/// Wire `from -> to` into `g`, which is known to accept it and to have no
/// wire into `to` yet: it is appended.
fn connect_known(g: &mut Graph<BrushWireType>, from: PortRef, to: PortRef)
    requires
        old(g).wf(),
        wire_accepted(old(g).nodes@, from.node, from.port@, to.node, to.port@),
        !wired_into(old(g).connections@, to.node, to.port@),
    ensures
        final(g).wf(),
        final(g).nodes@ == old(g).nodes@,
        final(g).next_id() == old(g).next_id(),
        final(g).connections@ == old(g).connections@.push(Connection { from, to }),
{
    proof {
        lemma_drop_into_unwired(old(g).connections@, to.node, to.port@);
    }
    let _ = g.connect(from, to);
}

/// The brush a fresh session starts with: a pen input driving a stamp of a
/// circle tip, feeding the color output (both its dab and its hover
/// preview).
pub fn default_graph() -> (g: Graph<BrushWireType>)
    ensures
        g.wf(),
        g.next_id() == 4,
        g.nodes@.len() == 4,
        forall|i: int| 0 <= i < 4 ==> (#[trigger] g.nodes@[i]).id == NodeId(i as u64),
        g.nodes@[0].type_id == "pen_input"@,
        g.nodes@[1].type_id == "circle"@,
        g.nodes@[2].type_id == "stamp"@,
        g.nodes@[3].type_id == "color_output"@,
        forall|i: int| 0 <= i < 4 ==> shapes((#[trigger] g.nodes@[i]).ports) == builtin_ports(g.nodes@[i].type_id),
        g.connections@.len() == 4,
        wire_is(g.connections@[0], 1, "texture"@, 2, "tip"@),
        wire_is(g.connections@[1], 0, "pressure"@, 2, "flow"@),
        wire_is(g.connections@[2], 2, "dab"@, 3, "dab"@),
        wire_is(g.connections@[3], 2, "preview"@, 3, "brush_preview"@),
{
    let registry = BrushNodeRegistry::new();
    let mut g = Graph::new();
    proof {
        lemma_builtin_types_distinct();
        lemma_default_port_names();
    }
    let _ = add_registered(&mut g, &registry, "pen_input");
    let ghost n1 = g.nodes@;
    let _ = add_registered(&mut g, &registry, "circle");
    let ghost n2 = g.nodes@;
    let _ = add_registered(&mut g, &registry, "stamp");
    let ghost n3 = g.nodes@;
    let _ = add_registered(&mut g, &registry, "color_output");
    let ghost ns = g.nodes@;
    proof {
        assert(ns.drop_last() == n3);
        assert(n3.drop_last() == n2);
        assert(n2.drop_last() == n1);
        assert(ns[0] == n3[0] && n3[0] == n2[0] && n2[0] == n1[0]);
        assert(ns[1] == n3[1] && n3[1] == n2[1]);
        assert(ns[2] == n3[2]);
        lemma_node_with(ns, 0);
        lemma_node_with(ns, 1);
        lemma_node_with(ns, 2);
        lemma_node_with(ns, 3);
        assert(ns[0].id == NodeId(0) && ns[1].id == NodeId(1) && ns[2].id == NodeId(2) && ns[3].id == NodeId(3));
        let (pen, circle, stamp, color) = (ns[0].ports, ns[1].ports, ns[2].ports, ns[3].ports);
        let (pen_s, circle_s, stamp_s, color_s) = (
            builtin_ports("pen_input"@),
            builtin_ports("circle"@),
            builtin_ports("stamp"@),
            builtin_ports("color_output"@),
        );
        lemma_port_shape(circle, circle_s, 0);
        lemma_port_shape(circle, circle_s, 1);
        lemma_port_shape(circle, circle_s, 2);
        lemma_find_port_at(circle, "texture"@, PortDir::Output, 2);
        lemma_port_shape(pen, pen_s, 0);
        lemma_port_shape(pen, pen_s, 1);
        lemma_find_port_at(pen, "pressure"@, PortDir::Output, 1);
        lemma_port_shape(stamp, stamp_s, 0);
        lemma_port_shape(stamp, stamp_s, 1);
        lemma_port_shape(stamp, stamp_s, 2);
        lemma_port_shape(stamp, stamp_s, 3);
        lemma_port_shape(stamp, stamp_s, 4);
        lemma_port_shape(stamp, stamp_s, 5);
        lemma_find_port_at(stamp, "tip"@, PortDir::Input, 0);
        lemma_find_port_at(stamp, "flow"@, PortDir::Input, 2);
        lemma_find_port_at(stamp, "dab"@, PortDir::Output, 4);
        lemma_find_port_at(stamp, "preview"@, PortDir::Output, 5);
        lemma_port_shape(color, color_s, 0);
        lemma_port_shape(color, color_s, 1);
        lemma_find_port_at(color, "dab"@, PortDir::Input, 0);
        lemma_find_port_at(color, "brush_preview"@, PortDir::Input, 1);
        assert(holds_id(ns, NodeId(0)) && holds_id(ns, NodeId(1)) && holds_id(ns, NodeId(2)) && holds_id(ns, NodeId(3)));
    }
    connect_known(&mut g, PortRef { node: NodeId(1), port: owned("texture") }, PortRef { node: NodeId(2), port: owned("tip") });
    let ghost c1 = g.connections@;
    proof {
        assert(!wired_into(c1, NodeId(2), "flow"@)) by {
            assert(c1.len() == 1);
        }
    }
    connect_known(&mut g, PortRef { node: NodeId(0), port: owned("pressure") }, PortRef { node: NodeId(2), port: owned("flow") });
    let ghost c2 = g.connections@;
    proof {
        assert(!wired_into(c2, NodeId(3), "dab"@)) by {
            assert(c2.len() == 2);
        }
    }
    connect_known(&mut g, PortRef { node: NodeId(2), port: owned("dab") }, PortRef { node: NodeId(3), port: owned("dab") });
    let ghost c3 = g.connections@;
    proof {
        assert(!wired_into(c3, NodeId(3), "brush_preview"@)) by {
            assert(c3.len() == 3);
            assert(c3[2].to.port@ == "dab"@);
        }
    }
    connect_known(&mut g, PortRef { node: NodeId(2), port: owned("preview") }, PortRef { node: NodeId(3), port: owned("brush_preview") });
    proof {
        let c = g.connections@;
        assert(c[0] == c1[0] && c[1] == c2[1] && c[2] == c3[2]);
    }
    g
}

} // verus!
