//! The node graph a brush is authored as: nodes with typed ports, and wires
//! from an output port of one node to an input port of another.
//!
//! A well-formed graph (`Graph::wf`) has distinct node ids, ids below the
//! next id it will hand out, and wires whose both ends name nodes it holds.
//! Every operation here keeps it well formed.

use vstd::prelude::*;

use crate::brush::wire::{spec_compatible, spec_is_wirable, BrushWireType};
use crate::params::ParamValue;
use crate::text::{concat3, decimal, decimal_string, owned, str_eq};

verus! {

/// Identity of a node within its graph.
#[derive(Clone, Copy, Debug, PartialEq, Eq, Hash, Structural)]
pub struct NodeId(pub u64);

/// Which way a port faces.
#[derive(Clone, Copy, Debug, PartialEq, Eq, Structural)]
pub enum PortDir {
    Input,
    Output,
}

/// A port a node declares: its name, direction and wire type.
#[derive(Debug)]
pub struct PortDef<W> {
    pub name: String,
    pub dir: PortDir,
    pub wire_type: W,
}

impl<W: Copy> Clone for PortDef<W> {
    fn clone(&self) -> (r: Self)
        ensures
            r == *self,
    {
        PortDef { name: self.name.clone(), dir: self.dir, wire_type: self.wire_type }
    }
}

impl<W> PortDef<W> {
    /// An input port.
    pub fn input(name: &str, wire_type: W) -> (p: Self)
        ensures
            p.name@ == name@,
            p.dir == PortDir::Input,
            p.wire_type == wire_type,
    {
        PortDef { name: owned(name), dir: PortDir::Input, wire_type }
    }

    /// An output port.
    pub fn output(name: &str, wire_type: W) -> (p: Self)
        ensures
            p.name@ == name@,
            p.dir == PortDir::Output,
            p.wire_type == wire_type,
    {
        PortDef { name: owned(name), dir: PortDir::Output, wire_type }
    }
}

/// One node instance.
#[derive(Debug)]
pub struct Node<W> {
    pub id: NodeId,
    pub type_id: String,
    /// Free-form author annotation; empty where there is none.
    pub comment: String,
    pub ports: Vec<PortDef<W>>,
    pub params: Vec<ParamValue>,
}

/// What a node is, seen as mathematical values.
pub struct NodeView<W> {
    pub id: NodeId,
    pub type_id: Seq<char>,
    pub comment: Seq<char>,
    pub ports: Seq<PortDef<W>>,
    pub params: Seq<ParamValue>,
}

impl<W> View for Node<W> {
    type V = NodeView<W>;

    open spec fn view(&self) -> NodeView<W> {
        NodeView { id: self.id, type_id: self.type_id@, comment: self.comment@, ports: self.ports@, params: self.params@ }
    }
}

impl<W: Copy> Clone for Node<W> {
    fn clone(&self) -> (r: Self)
        ensures
            r@ == self@,
    {
        let ports = self.ports.clone();
        assert(ports@ =~= self.ports@);
        let params = self.params.clone();
        assert(params@ =~= self.params@);
        Node { id: self.id, type_id: self.type_id.clone(), comment: self.comment.clone(), ports, params }
    }
}

/// One end of a wire: a node and one of its ports, by name.
#[derive(Debug, PartialEq, Eq, Hash)]
pub struct PortRef {
    pub node: NodeId,
    pub port: String,
}

impl Clone for PortRef {
    fn clone(&self) -> (r: Self)
        ensures
            r == *self,
    {
        PortRef { node: self.node, port: self.port.clone() }
    }
}

/// A wire from an output port to an input port.
#[derive(Debug, PartialEq, Eq)]
pub struct Connection {
    pub from: PortRef,
    pub to: PortRef,
}

impl Clone for Connection {
    fn clone(&self) -> (r: Self)
        ensures
            r == *self,
    {
        Connection { from: self.from.clone(), to: self.to.clone() }
    }
}

/// Why a graph edit was refused.
#[derive(Clone, Debug, PartialEq, Eq)]
pub enum GraphError {
    /// No node has this id.
    NodeNotFound(NodeId),
    /// The node has no port of this name facing the needed way.
    PortNotFound(String),
    /// The source's wire type cannot drive the destination's.
    IncompatibleTypes,
    /// The destination port takes no wire (a compile-time-only input).
    NotWirable,
}

/// The text of a graph error.
pub open spec fn graph_error_text(e: GraphError) -> Seq<char> {
    match e {
        GraphError::NodeNotFound(id) => "node "@ + decimal(id.0 as nat) + " not found"@,
        GraphError::PortNotFound(p) => "port '"@ + p@ + "' not found"@,
        GraphError::IncompatibleTypes => "incompatible wire types"@,
        GraphError::NotWirable => "the input takes no wire"@,
    }
}

impl GraphError {
    /// The text of this error.
    pub fn message(&self) -> (r: String)
        ensures
            r@ == graph_error_text(*self),
    {
        match self {
            GraphError::NodeNotFound(id) => {
                let n = decimal_string(id.0);
                concat3("node ", n.as_str(), " not found")
            },
            GraphError::PortNotFound(p) => concat3("port '", p.as_str(), "' not found"),
            GraphError::IncompatibleTypes => owned("incompatible wire types"),
            GraphError::NotWirable => owned("the input takes no wire"),
        }
    }
}

/// The nodes of a graph, keyed by id, in insertion order.
#[derive(Debug)]
pub struct NodeMap<W> {
    entries: Vec<Node<W>>,
}

impl<W> View for NodeMap<W> {
    type V = Seq<NodeView<W>>;

    closed spec fn view(&self) -> Seq<NodeView<W>> {
        self.entries@.map_values(|n: Node<W>| n@)
    }
}

/// Whether some node of `nodes` has id `id`.
pub open spec fn holds_id<W>(nodes: Seq<NodeView<W>>, id: NodeId) -> bool {
    exists|i: int| 0 <= i < nodes.len() && (#[trigger] nodes[i]).id == id
}

/// The ids of `nodes`, as a set.
pub open spec fn id_set<W>(nodes: Seq<NodeView<W>>) -> Set<NodeId> {
    Set::new(|id: NodeId| holds_id(nodes, id))
}

/// Whether the ids of `nodes` are pairwise distinct.
pub open spec fn distinct_ids<W>(nodes: Seq<NodeView<W>>) -> bool {
    forall|i: int, j: int|
        0 <= i < nodes.len() && 0 <= j < nodes.len() && i != j ==> (#[trigger] nodes[i]).id
            != (#[trigger] nodes[j]).id
}

/// `nodes` without the node whose id is `id`, order kept.
pub open spec fn drop_id<W>(nodes: Seq<NodeView<W>>, id: NodeId) -> Seq<NodeView<W>>
    decreases nodes.len(),
{
    if nodes.len() == 0 {
        nodes
    } else if nodes.last().id == id {
        drop_id(nodes.drop_last(), id)
    } else {
        drop_id(nodes.drop_last(), id).push(nodes.last())
    }
}

/// Whether a wire touches node `id` at either end.
pub open spec fn touches(c: Connection, id: NodeId) -> bool {
    c.from.node == id || c.to.node == id
}

/// `conns` without the wires touching node `id`, order kept.
pub open spec fn drop_touching(conns: Seq<Connection>, id: NodeId) -> Seq<Connection>
    decreases conns.len(),
{
    if conns.len() == 0 {
        conns
    } else if touches(conns.last(), id) {
        drop_touching(conns.drop_last(), id)
    } else {
        drop_touching(conns.drop_last(), id).push(conns.last())
    }
}

/// `conns` without the wires into input `port` of node `node`, order kept.
pub open spec fn drop_into(conns: Seq<Connection>, node: NodeId, port: Seq<char>) -> Seq<
    Connection,
>
    decreases conns.len(),
{
    if conns.len() == 0 {
        conns
    } else if conns.last().to.node == node && conns.last().to.port@ == port {
        drop_into(conns.drop_last(), node, port)
    } else {
        drop_into(conns.drop_last(), node, port).push(conns.last())
    }
}

/// Whether some wire of `conns` runs into port `port` of node `id`.
pub open spec fn wired_into(conns: Seq<Connection>, id: NodeId, port: Seq<char>) -> bool {
    exists|i: int| 0 <= i < conns.len() && (#[trigger] conns[i]).to.node == id && conns[i].to.port@ == port
}

/// The wires of `conns` into node `id`, order kept.
pub open spec fn wires_into(conns: Seq<Connection>, id: NodeId) -> Seq<Connection>
    decreases conns.len(),
{
    if conns.len() == 0 {
        conns
    } else if conns.last().to.node == id {
        wires_into(conns.drop_last(), id).push(conns.last())
    } else {
        wires_into(conns.drop_last(), id)
    }
}

/// Whether `ports` has a port named `name` facing `dir`.
pub open spec fn has_port<W>(ports: Seq<PortDef<W>>, name: Seq<char>, dir: PortDir) -> bool {
    exists|i: int| 0 <= i < ports.len() && (#[trigger] ports[i]).name@ == name && ports[i].dir == dir
}

/// The first port of `ports` named `name` facing `dir` (meaningful when
/// there is one).
pub open spec fn find_port<W>(ports: Seq<PortDef<W>>, name: Seq<char>, dir: PortDir) -> PortDef<W>
    decreases ports.len(),
{
    if ports.len() == 0 {
        arbitrary()
    } else if ports[0].name@ == name && ports[0].dir == dir {
        ports[0]
    } else {
        find_port(ports.drop_first(), name, dir)
    }
}

/// The node of `nodes` with id `id` (meaningful when there is one).
pub open spec fn node_with<W>(nodes: Seq<NodeView<W>>, id: NodeId) -> NodeView<W> {
    nodes[choose|i: int| 0 <= i < nodes.len() && (#[trigger] nodes[i]).id == id]
}

/// A brush node graph.
#[derive(Debug)]
pub struct Graph<W> {
    pub nodes: NodeMap<W>,
    pub connections: Vec<Connection>,
    /// The id the next added node gets.
    pub next_id: u64,
}

impl<W> Graph<W> {
    /// The id the next added node gets.
    pub open spec fn next_id(&self) -> u64 {
        self.next_id
    }

    /// Well formed: distinct node ids below the next id, and every wire's
    /// ends name nodes of the graph.
    pub open spec fn wf(&self) -> bool {
        &&& distinct_ids(self.nodes@)
        &&& forall|i: int|
            0 <= i < self.nodes@.len() ==> (#[trigger] self.nodes@[i]).id.0 < self.next_id()
        &&& forall|i: int|
            0 <= i < self.connections@.len() ==> holds_id(
                self.nodes@,
                (#[trigger] self.connections@[i]).from.node,
            ) && holds_id(self.nodes@, self.connections@[i].to.node)
    }
}

impl<W> NodeMap<W> {
    /// Number of nodes.
    pub fn len(&self) -> (n: usize)
        ensures
            n == self@.len(),
    {
        self.entries.len()
    }

    /// Position of the node with id `id`, if any.
    fn index_of(&self, id: &NodeId) -> (r: Option<usize>)
        ensures
            r matches Some(i) ==> i < self@.len() && self@[i as int].id == *id,
            r is None ==> !holds_id(self@, *id),
    {
        let mut i: usize = 0;
        while i < self.entries.len()
            invariant
                i <= self.entries@.len(),
                forall|k: int| 0 <= k < i ==> (#[trigger] self.entries@[k]).id != *id,
            decreases self.entries.len() - i,
        {
            if self.entries[i].id == *id {
                return Some(i);
            }
            i = i + 1;
        }
        None
    }

    /// Whether a node has id `id`.
    pub fn contains_key(&self, id: &NodeId) -> (r: bool)
        ensures
            r == holds_id(self@, *id),
    {
        self.index_of(id).is_some()
    }

    /// The node with id `id`, if any.
    pub fn get(&self, id: &NodeId) -> (r: Option<&Node<W>>)
        ensures
            r is None <==> !holds_id(self@, *id),
            r matches Some(n) ==> n.id == *id && exists|i: int|
                0 <= i < self@.len() && self@[i] == n@,
    {
        match self.index_of(id) {
            Some(i) => Some(&self.entries[i]),
            None => None,
        }
    }

    /// The node at position `i`, in insertion order.
    pub fn at(&self, i: usize) -> (n: &Node<W>)
        requires
            i < self@.len(),
        ensures
            n@ == self@[i as int],
    {
        &self.entries[i]
    }

    /// The nodes, in insertion order.
    pub fn values(&self) -> (r: std::slice::Iter<'_, Node<W>>)
        ensures
            vstd::std_specs::iter::IteratorSpec::remaining(&r).len() == self@.len(),
            forall|i: int| 0 <= i < self@.len() ==> (#[trigger] vstd::std_specs::iter::IteratorSpec::remaining(&r)[i])@ == self@[i],
    {
        proof {
            broadcast use vstd::std_specs::slice::axiom_spec_slice_iter;
        }
        self.entries.as_slice().iter()
    }

    /// The node ids, in insertion order.
    pub fn ids(&self) -> (r: Vec<NodeId>)
        ensures
            r@.len() == self@.len(),
            forall|i: int| 0 <= i < r@.len() ==> r@[i] == (#[trigger] self@[i]).id,
    {
        let mut r: Vec<NodeId> = Vec::new();
        let mut i: usize = 0;
        while i < self.entries.len()
            invariant
                i <= self.entries@.len(),
                r@.len() == i,
                forall|k: int| 0 <= k < i ==> r@[k] == (#[trigger] self.entries@[k]).id,
            decreases self.entries.len() - i,
        {
            r.push(self.entries[i].id);
            i = i + 1;
        }
        r
    }
}

impl<W: Copy> NodeMap<W> {
    /// Replace the ports of the node at position `i`.
    pub fn set_ports_at(&mut self, i: usize, ports: Vec<PortDef<W>>)
        requires
            i < old(self)@.len(),
        ensures
            final(self)@ == old(self)@.update(
                i as int,
                NodeView {
                    id: old(self)@[i as int].id,
                    type_id: old(self)@[i as int].type_id,
                    comment: old(self)@[i as int].comment,
                    ports: ports@,
                    params: old(self)@[i as int].params,
                },
            ),
    {
        let n = &self.entries[i];
        let params = n.params.clone();
        assert(params@ =~= n.params@);
        let node = Node { id: n.id, type_id: n.type_id.clone(), comment: n.comment.clone(), ports, params };
        self.entries.set(i, node);
        assert(self@ =~= old(self)@.update(i as int, node@));
    }
}

impl<W: Copy> NodeMap<W> {
    /// Replace the comment of the node at position `i`.
    fn set_comment_at(&mut self, i: usize, comment: String)
        requires
            i < old(self)@.len(),
        ensures
            final(self)@ == old(self)@.update(
                i as int,
                NodeView {
                    id: old(self)@[i as int].id,
                    type_id: old(self)@[i as int].type_id,
                    comment: comment@,
                    ports: old(self)@[i as int].ports,
                    params: old(self)@[i as int].params,
                },
            ),
    {
        let n = &self.entries[i];
        let ports = n.ports.clone();
        assert(ports@ =~= n.ports@);
        let params = n.params.clone();
        assert(params@ =~= n.params@);
        let node = Node { id: n.id, type_id: n.type_id.clone(), comment, ports, params };
        self.entries.set(i, node);
        assert(self@ =~= old(self)@.update(i as int, node@));
    }
}

impl<W: Copy> Clone for NodeMap<W> {
    fn clone(&self) -> (r: Self)
        ensures
            r@ == self@,
    {
        let entries = self.entries.clone();
        assert(entries@.map_values(|n: Node<W>| n@) =~= self.entries@.map_values(|n: Node<W>| n@));
        NodeMap { entries }
    }
}

impl<W: Copy> Clone for Graph<W> {
    fn clone(&self) -> (r: Self)
        ensures
            r.nodes@ == self.nodes@,
            r.connections@ == self.connections@,
            r.next_id() == self.next_id(),
    {
        let connections = self.connections.clone();
        assert(connections@ =~= self.connections@);
        Graph { nodes: self.nodes.clone(), connections, next_id: self.next_id }
    }
}

proof fn lemma_drop_id_props<W>(nodes: Seq<NodeView<W>>, id: NodeId)
    ensures
        forall|k: int| 0 <= k < drop_id(nodes, id).len() ==> #[trigger] drop_id(nodes, id)[k].id != id,
        forall|k: int|
            0 <= k < drop_id(nodes, id).len() ==> exists|j: int|
                0 <= j < nodes.len() && nodes[j] == #[trigger] drop_id(nodes, id)[k],
        forall|j: int|
            0 <= j < nodes.len() && (#[trigger] nodes[j]).id != id ==> holds_id(
                drop_id(nodes, id),
                nodes[j].id,
            ),
        drop_id(nodes, id).len() <= nodes.len(),
    decreases nodes.len(),
{
    if nodes.len() > 0 {
        let init = nodes.drop_last();
        lemma_drop_id_props(init, id);
        let d = drop_id(init, id);
        assert forall|k: int| 0 <= k < drop_id(nodes, id).len() implies exists|j: int|
            0 <= j < nodes.len() && nodes[j] == #[trigger] drop_id(nodes, id)[k] by {
            if k < d.len() {
                let j = choose|j: int| 0 <= j < init.len() && init[j] == d[k];
                assert(nodes[j] == init[j]);
            } else {
                assert(nodes[nodes.len() - 1] == drop_id(nodes, id)[k]);
            }
        }
        assert forall|j: int|
            0 <= j < nodes.len() && (#[trigger] nodes[j]).id != id implies holds_id(
            drop_id(nodes, id),
            nodes[j].id,
        ) by {
            if j < init.len() {
                assert(init[j] == nodes[j]);
                let k = choose|k: int| 0 <= k < d.len() && (#[trigger] d[k]).id == init[j].id;
                assert(drop_id(nodes, id)[k] == d[k]);
            } else {
                assert(drop_id(nodes, id)[d.len() as int] == nodes[j]);
            }
        }
    }
}

proof fn lemma_drop_id_distinct<W>(nodes: Seq<NodeView<W>>, id: NodeId)
    requires
        distinct_ids(nodes),
    ensures
        distinct_ids(drop_id(nodes, id)),
    decreases nodes.len(),
{
    if nodes.len() > 0 {
        let init = nodes.drop_last();
        assert(distinct_ids(init)) by {
            assert forall|i: int, j: int|
                0 <= i < init.len() && 0 <= j < init.len() && i != j implies (#[trigger] init[i]).id
                    != (#[trigger] init[j]).id by {
                assert(init[i] == nodes[i] && init[j] == nodes[j]);
            }
        }
        lemma_drop_id_distinct(init, id);
        lemma_drop_id_props(init, id);
        let d = drop_id(init, id);
        if nodes.last().id != id {
            let dd = d.push(nodes.last());
            assert forall|i: int, j: int|
                0 <= i < dd.len() && 0 <= j < dd.len() && i != j implies (#[trigger] dd[i]).id
                    != (#[trigger] dd[j]).id by {
                if i < d.len() && j < d.len() {
                    assert(dd[i] == d[i] && dd[j] == d[j]);
                } else if i < d.len() {
                    let a = choose|a: int| 0 <= a < init.len() && init[a] == d[i];
                    assert(init[a] == nodes[a]);
                    assert(dd[j] == nodes[nodes.len() - 1]);
                } else {
                    let a = choose|a: int| 0 <= a < init.len() && init[a] == d[j];
                    assert(init[a] == nodes[a]);
                    assert(dd[i] == nodes[nodes.len() - 1]);
                }
            }
        }
    }
}

proof fn lemma_drop_touching_props(conns: Seq<Connection>, id: NodeId)
    ensures
        forall|k: int|
            0 <= k < drop_touching(conns, id).len() ==> !touches(
                #[trigger] drop_touching(conns, id)[k],
                id,
            ),
        forall|k: int|
            0 <= k < drop_touching(conns, id).len() ==> exists|j: int|
                0 <= j < conns.len() && conns[j] == #[trigger] drop_touching(conns, id)[k],
    decreases conns.len(),
{
    if conns.len() > 0 {
        let init = conns.drop_last();
        lemma_drop_touching_props(init, id);
        let d = drop_touching(init, id);
        assert forall|k: int| 0 <= k < drop_touching(conns, id).len() implies exists|j: int|
            0 <= j < conns.len() && conns[j] == #[trigger] drop_touching(conns, id)[k] by {
            if k < d.len() {
                let j = choose|j: int| 0 <= j < init.len() && init[j] == d[k];
                assert(conns[j] == init[j]);
            } else {
                assert(conns[conns.len() - 1] == drop_touching(conns, id)[k]);
            }
        }
    }
}

impl Graph<BrushWireType> {
    /// An empty graph.
    pub fn new() -> (g: Self)
        ensures
            g.wf(),
            g.nodes@.len() == 0,
            g.connections@.len() == 0,
            g.next_id() == 0,
    {
        Graph { nodes: NodeMap { entries: Vec::new() }, connections: Vec::new(), next_id: 0 }
    }

    /// Add a node of type `type_id` with the given ports and parameter
    /// values, under a fresh id, and return that id.
    pub fn add_node(&mut self, type_id: &str, ports: Vec<PortDef<BrushWireType>>, params: Vec<
        ParamValue,
    >) -> (id: NodeId)
        requires
            old(self).wf(),
            old(self).next_id() < u64::MAX,
        ensures
            final(self).wf(),
            id == NodeId(old(self).next_id()),
            final(self).next_id() == old(self).next_id() + 1,
            final(self).nodes@.len() == old(self).nodes@.len() + 1,
            final(self).nodes@.drop_last() == old(self).nodes@,
            final(self).nodes@.last().id == id,
            final(self).nodes@.last().type_id == type_id@,
            final(self).nodes@.last().comment == Seq::<char>::empty(),
            final(self).nodes@.last().ports == ports@,
            final(self).nodes@.last().params == params@,
            final(self).connections@ == old(self).connections@,
    {
        let id = NodeId(self.next_id);
        let node = Node { id, type_id: owned(type_id), comment: String::new(), ports, params };
        self.nodes.entries.push(node);
        self.next_id = self.next_id + 1;
        proof {
            let ns = self.nodes@;
            assert(ns =~= old(self).nodes@.push(node@));
            assert(ns.drop_last() =~= old(self).nodes@);
            assert forall|i: int, j: int|
                0 <= i < ns.len() && 0 <= j < ns.len() && i != j implies (#[trigger] ns[i]).id
                    != (#[trigger] ns[j]).id by {
                if i < ns.len() - 1 && j < ns.len() - 1 {
                    assert(ns[i] == old(self).nodes@[i] && ns[j] == old(self).nodes@[j]);
                } else if i < ns.len() - 1 {
                    assert(ns[i] == old(self).nodes@[i]);
                } else {
                    assert(ns[j] == old(self).nodes@[j]);
                }
            }
            assert forall|i: int| 0 <= i < self.connections@.len() implies holds_id(
                self.nodes@,
                (#[trigger] self.connections@[i]).from.node,
            ) && holds_id(self.nodes@, self.connections@[i].to.node) by {
                let c = self.connections@[i];
                let a = choose|a: int|
                    0 <= a < old(self).nodes@.len() && (#[trigger] old(self).nodes@[a]).id
                        == c.from.node;
                let b = choose|b: int|
                    0 <= b < old(self).nodes@.len() && (#[trigger] old(self).nodes@[b]).id
                        == c.to.node;
                assert(ns[a] == old(self).nodes@[a]);
                assert(ns[b] == old(self).nodes@[b]);
            }
            assert forall|i: int| 0 <= i < ns.len() implies (#[trigger] ns[i]).id.0
                < self.next_id() by {
                if i < ns.len() - 1 {
                    assert(ns[i] == old(self).nodes@[i]);
                }
            }
        }
        id
    }

    /// Set the comment of node `id`; refused when no node has that id.
    pub fn set_node_comment(&mut self, id: &NodeId, comment: String) -> (r: Result<(), GraphError>)
        requires
            old(self).wf(),
        ensures
            final(self).wf(),
            r is Err <==> !holds_id(old(self).nodes@, *id),
            r matches Err(e) ==> e == GraphError::NodeNotFound(*id),
            final(self).nodes@.len() == old(self).nodes@.len(),
            forall|i: int|
                0 <= i < old(self).nodes@.len() ==> (#[trigger] final(self).nodes@[i]) == (if old(self).nodes@[i].id == *id {
                    NodeView {
                        id: old(self).nodes@[i].id,
                        type_id: old(self).nodes@[i].type_id,
                        comment: comment@,
                        ports: old(self).nodes@[i].ports,
                        params: old(self).nodes@[i].params,
                    }
                } else {
                    old(self).nodes@[i]
                }),
            final(self).connections@ == old(self).connections@,
            final(self).next_id() == old(self).next_id(),
    {
        match self.nodes.index_of(id) {
            None => Err(GraphError::NodeNotFound(*id)),
            Some(k) => {
                let ghost before = self.nodes@;
                self.nodes.set_comment_at(k, comment);
                proof {
                    let ns = self.nodes@;
                    assert forall|i: int| 0 <= i < ns.len() implies #[trigger] ns[i].id == before[i].id by {
                        if i == k {
                        } else {
                            assert(ns[i] == before[i]);
                        }
                    }
                    assert forall|i: int| 0 <= i < self.connections@.len() implies holds_id(
                        ns,
                        (#[trigger] self.connections@[i]).from.node,
                    ) && holds_id(ns, self.connections@[i].to.node) by {
                        let c = self.connections@[i];
                        let a = choose|a: int| 0 <= a < before.len() && (#[trigger] before[a]).id == c.from.node;
                        let b = choose|b: int| 0 <= b < before.len() && (#[trigger] before[b]).id == c.to.node;
                        assert(ns[a].id == before[a].id);
                        assert(ns[b].id == before[b].id);
                    }
                    assert forall|i: int, j: int|
                        0 <= i < ns.len() && 0 <= j < ns.len() && i != j implies (#[trigger] ns[i]).id
                            != (#[trigger] ns[j]).id by {
                        assert(ns[i].id == before[i].id && ns[j].id == before[j].id);
                    }
                    assert forall|i: int| 0 <= i < ns.len() implies (#[trigger] ns[i]).id.0 < self.next_id() by {
                        assert(ns[i].id == before[i].id);
                    }
                    assert forall|i: int| 0 <= i < before.len() && i != k implies before[i].id != *id by {
                        assert(before[i].id != before[k as int].id);
                    }
                }
                Ok(())
            },
        }
    }

    /// Remove node `id` and every wire touching it.
    pub fn remove_node(&mut self, id: NodeId) -> (r: Result<(), GraphError>)
        requires
            old(self).wf(),
        ensures
            final(self).wf(),
            final(self).next_id() == old(self).next_id(),
            r is Ok <==> holds_id(old(self).nodes@, id),
            r is Err ==> r->Err_0 == GraphError::NodeNotFound(id)
                && final(self).nodes@ == old(self).nodes@ && final(self).connections@
                == old(self).connections@,
            r is Ok ==> final(self).nodes@ == drop_id(old(self).nodes@, id)
                && final(self).connections@ == drop_touching(old(self).connections@, id),
    {
        if !self.nodes.contains_key(&id) {
            return Err(GraphError::NodeNotFound(id));
        }
        let mut kept: Vec<Node<BrushWireType>> = Vec::new();
        let mut i: usize = 0;
        while i < self.nodes.entries.len()
            invariant
                i <= self.nodes.entries@.len(),
                self.nodes@ == old(self).nodes@,
                kept@.map_values(|n: Node<BrushWireType>| n@) == drop_id(
                    self.nodes@.take(i as int),
                    id,
                ),
            decreases self.nodes.entries.len() - i,
        {
            assert(self.nodes@.take(i + 1).drop_last() =~= self.nodes@.take(i as int));
            let ghost before = kept@;
            if self.nodes.entries[i].id != id {
                let n = self.nodes.entries[i].clone();
                kept.push(n);
                assert(kept@.map_values(|n: Node<BrushWireType>| n@) =~= before.map_values(
                    |n: Node<BrushWireType>| n@,
                ).push(self.nodes@[i as int]));
            }
            i = i + 1;
        }
        assert(self.nodes@.take(self.nodes@.len() as int) =~= self.nodes@);
        let mut wires: Vec<Connection> = Vec::new();
        let mut j: usize = 0;
        while j < self.connections.len()
            invariant
                j <= self.connections@.len(),
                self.connections@ == old(self).connections@,
                wires@ == drop_touching(self.connections@.take(j as int), id),
            decreases self.connections.len() - j,
        {
            assert(self.connections@.take(j + 1).drop_last() =~= self.connections@.take(j as int));
            let c = &self.connections[j];
            if c.from.node != id && c.to.node != id {
                wires.push(c.clone());
            }
            j = j + 1;
        }
        assert(self.connections@.take(self.connections@.len() as int) =~= self.connections@);
        self.nodes.entries = kept;
        self.connections = wires;
        assert(self.nodes@ == drop_id(old(self).nodes@, id));
        proof {
            let on = old(self).nodes@;
            lemma_drop_id_props(on, id);
            lemma_drop_id_distinct(on, id);
            lemma_drop_touching_props(old(self).connections@, id);
            let dn = self.nodes@;
            assert forall|i: int| 0 <= i < dn.len() implies (#[trigger] dn[i]).id.0
                < self.next_id() by {
                let j = choose|j: int| 0 <= j < on.len() && on[j] == dn[i];
            }
            assert forall|i: int| 0 <= i < self.connections@.len() implies holds_id(
                self.nodes@,
                (#[trigger] self.connections@[i]).from.node,
            ) && holds_id(self.nodes@, self.connections@[i].to.node) by {
                let c = self.connections@[i];
                let k = choose|k: int|
                    0 <= k < old(self).connections@.len() && old(self).connections@[k] == c;
                assert(holds_id(on, c.from.node) && holds_id(on, c.to.node));
                let a = choose|a: int| 0 <= a < on.len() && (#[trigger] on[a]).id == c.from.node;
                let b = choose|b: int| 0 <= b < on.len() && (#[trigger] on[b]).id == c.to.node;
            }
        }
        Ok(())
    }

    /// The wires into node `id`, in wiring order.
    pub fn inputs_for(&self, id: NodeId) -> (r: Vec<Connection>)
        ensures
            r@ == wires_into(self.connections@, id),
    {
        let mut r: Vec<Connection> = Vec::new();
        let mut j: usize = 0;
        while j < self.connections.len()
            invariant
                j <= self.connections@.len(),
                r@ == wires_into(self.connections@.take(j as int), id),
            decreases self.connections.len() - j,
        {
            assert(self.connections@.take(j + 1).drop_last() =~= self.connections@.take(j as int));
            if self.connections[j].to.node == id {
                r.push(self.connections[j].clone());
            }
            j = j + 1;
        }
        assert(self.connections@.take(self.connections@.len() as int) =~= self.connections@);
        r
    }
}

/// What [`Graph::connect`] decides for a wire `from -> to` on `nodes`.
pub open spec fn connect_outcome(nodes: Seq<NodeView<BrushWireType>>, from: PortRef, to: PortRef) -> Result<(), GraphError> {
    if !holds_id(nodes, from.node) {
        Err(GraphError::NodeNotFound(from.node))
    } else if !has_port(node_with(nodes, from.node).ports, from.port@, PortDir::Output) {
        Err(GraphError::PortNotFound(from.port))
    } else if !holds_id(nodes, to.node) {
        Err(GraphError::NodeNotFound(to.node))
    } else if !has_port(node_with(nodes, to.node).ports, to.port@, PortDir::Input) {
        Err(GraphError::PortNotFound(to.port))
    } else {
        let ft = find_port(node_with(nodes, from.node).ports, from.port@, PortDir::Output).wire_type;
        let tt = find_port(node_with(nodes, to.node).ports, to.port@, PortDir::Input).wire_type;
        if !spec_compatible(ft, tt) {
            Err(GraphError::IncompatibleTypes)
        } else if !spec_is_wirable(tt) {
            Err(GraphError::NotWirable)
        } else {
            Ok(())
        }
    }
}

/// Whether [`Graph::connect`] accepts a wire from port `from_port` of node
/// `from` to port `to_port` of node `to` on `nodes`.
pub open spec fn wire_accepted(nodes: Seq<NodeView<BrushWireType>>, from: NodeId, from_port: Seq<char>, to: NodeId, to_port: Seq<char>) -> bool {
    &&& holds_id(nodes, from)
    &&& has_port(node_with(nodes, from).ports, from_port, PortDir::Output)
    &&& holds_id(nodes, to)
    &&& has_port(node_with(nodes, to).ports, to_port, PortDir::Input)
    &&& spec_compatible(
        find_port(node_with(nodes, from).ports, from_port, PortDir::Output).wire_type,
        find_port(node_with(nodes, to).ports, to_port, PortDir::Input).wire_type,
    )
    &&& spec_is_wirable(find_port(node_with(nodes, to).ports, to_port, PortDir::Input).wire_type)
}

/// A wire the graph accepts joins an output and an input of the same wire
/// type, or a `Scalar` and an `Int`: ports of any other two different types
/// (a `Vec2` output and a `Scalar` input, say) are never wired.
pub proof fn accepted_wires_join_matching_types(
    nodes: Seq<NodeView<BrushWireType>>,
    from: NodeId,
    from_port: Seq<char>,
    to: NodeId,
    to_port: Seq<char>,
)
    requires
        wire_accepted(nodes, from, from_port, to, to_port),
    ensures
        ({
            let a = find_port(node_with(nodes, from).ports, from_port, PortDir::Output).wire_type;
            let b = find_port(node_with(nodes, to).ports, to_port, PortDir::Input).wire_type;
            a == b || (a == BrushWireType::Scalar && b == BrushWireType::Int) || (a == BrushWireType::Int && b
                == BrushWireType::Scalar)
        }),
{
    let a = find_port(node_with(nodes, from).ports, from_port, PortDir::Output).wire_type;
    let b = find_port(node_with(nodes, to).ports, to_port, PortDir::Input).wire_type;
    crate::brush::wire::distinct_types_connect_only_scalar_and_int(a, b);
}

/// With distinct ids, the node found at `i` is the node with its id.
pub proof fn lemma_node_with<W>(nodes: Seq<NodeView<W>>, i: int)
    requires
        distinct_ids(nodes),
        0 <= i < nodes.len(),
    ensures
        node_with(nodes, nodes[i].id) == nodes[i],
{
    let j = choose|j: int| 0 <= j < nodes.len() && (#[trigger] nodes[j]).id == nodes[i].id;
    assert(nodes[j].id == nodes[i].id);
}

/// The wire type of the first port named `name` facing `dir`, if any.
fn port_type<W: Copy>(ports: &Vec<PortDef<W>>, name: &str, dir: PortDir) -> (r: Option<W>)
    ensures
        r is None <==> !has_port(ports@, name@, dir),
        r matches Some(t) ==> t == find_port(ports@, name@, dir).wire_type,
{
    let mut i: usize = 0;
    assert(ports@.skip(0) =~= ports@);
    while i < ports.len()
        invariant
            i <= ports@.len(),
            forall|k: int| 0 <= k < i ==> !((#[trigger] ports@[k]).name@ == name@ && ports@[k].dir == dir),
            find_port(ports@, name@, dir) == find_port(ports@.skip(i as int), name@, dir),
        decreases ports.len() - i,
    {
        if ports[i].dir == dir && str_eq(ports[i].name.as_str(), name) {
            return Some(ports[i].wire_type);
        }
        assert(ports@.skip(i as int).drop_first() =~= ports@.skip(i + 1));
        i = i + 1;
    }
    None
}

proof fn lemma_drop_into_props(conns: Seq<Connection>, node: NodeId, port: Seq<char>)
    ensures
        forall|k: int|
            0 <= k < drop_into(conns, node, port).len() ==> exists|j: int|
                0 <= j < conns.len() && conns[j] == #[trigger] drop_into(conns, node, port)[k],
    decreases conns.len(),
{
    if conns.len() > 0 {
        let init = conns.drop_last();
        lemma_drop_into_props(init, node, port);
        let d = drop_into(init, node, port);
        assert forall|k: int| 0 <= k < drop_into(conns, node, port).len() implies exists|j: int|
            0 <= j < conns.len() && conns[j] == #[trigger] drop_into(conns, node, port)[k] by {
            if k < d.len() {
                let j = choose|j: int| 0 <= j < init.len() && init[j] == d[k];
                assert(conns[j] == init[j]);
            } else {
                assert(conns[conns.len() - 1] == drop_into(conns, node, port)[k]);
            }
        }
    }
}

impl Graph<BrushWireType> {
    /// Wire output `from` to input `to`, replacing any wire already into
    /// `to`. Refused when either node or port is missing (ports are looked
    /// up by name among outputs and inputs respectively), when the types
    /// are incompatible, or when `to` takes no wire.
    pub fn connect(&mut self, from: PortRef, to: PortRef) -> (r: Result<(), GraphError>)
        requires
            old(self).wf(),
        ensures
            final(self).wf(),
            final(self).nodes@ == old(self).nodes@,
            final(self).next_id() == old(self).next_id(),
            r == connect_outcome(old(self).nodes@, from, to),
            r is Ok <==> wire_accepted(old(self).nodes@, from.node, from.port@, to.node, to.port@),
            r is Err ==> final(self).connections@ == old(self).connections@,
            r is Ok ==> final(self).connections@ == drop_into(
                old(self).connections@,
                to.node,
                to.port@,
            ).push(Connection { from, to }),
    {
        let ghost nodes = self.nodes@;
        let from_node = match self.nodes.get(&from.node) {
            Some(n) => n,
            None => return Err(GraphError::NodeNotFound(from.node)),
        };
        proof {
            let i = choose|i: int| 0 <= i < nodes.len() && nodes[i] == from_node@;
            lemma_node_with(nodes, i);
        }
        let ft = match port_type(&from_node.ports, from.port.as_str(), PortDir::Output) {
            Some(t) => t,
            None => return Err(GraphError::PortNotFound(from.port)),
        };
        let to_node = match self.nodes.get(&to.node) {
            Some(n) => n,
            None => return Err(GraphError::NodeNotFound(to.node)),
        };
        proof {
            let i = choose|i: int| 0 <= i < nodes.len() && nodes[i] == to_node@;
            lemma_node_with(nodes, i);
        }
        let tt = match port_type(&to_node.ports, to.port.as_str(), PortDir::Input) {
            Some(t) => t,
            None => return Err(GraphError::PortNotFound(to.port)),
        };
        if !BrushWireType::compatible(ft, tt) {
            return Err(GraphError::IncompatibleTypes);
        }
        if !tt.is_wirable() {
            return Err(GraphError::NotWirable);
        }
        let mut wires: Vec<Connection> = Vec::new();
        let mut j: usize = 0;
        while j < self.connections.len()
            invariant
                j <= self.connections@.len(),
                self.connections@ == old(self).connections@,
                wires@ == drop_into(self.connections@.take(j as int), to.node, to.port@),
            decreases self.connections.len() - j,
        {
            assert(self.connections@.take(j + 1).drop_last() =~= self.connections@.take(j as int));
            let c = &self.connections[j];
            if !(c.to.node == to.node && str_eq(c.to.port.as_str(), to.port.as_str())) {
                wires.push(c.clone());
            }
            j = j + 1;
        }
        assert(self.connections@.take(self.connections@.len() as int) =~= self.connections@);
        let ghost from_id = from.node;
        let ghost to_id = to.node;
        wires.push(Connection { from, to });
        self.connections = wires;
        proof {
            lemma_drop_into_props(old(self).connections@, to_id, self.connections@.last().to.port@);
            assert forall|i: int| 0 <= i < self.connections@.len() implies holds_id(
                self.nodes@,
                (#[trigger] self.connections@[i]).from.node,
            ) && holds_id(self.nodes@, self.connections@[i].to.node) by {
                if i < self.connections@.len() - 1 {
                    let c = self.connections@[i];
                    let k = choose|k: int|
                        0 <= k < old(self).connections@.len() && old(self).connections@[k] == c;
                }
            }
        }
        Ok(())
    }
}


/// The nodes of `nodes` whose ids are in `keep`, order kept.
pub open spec fn select_nodes(nodes: Seq<NodeView<BrushWireType>>, keep: Set<NodeId>) -> Seq<
    NodeView<BrushWireType>,
>
    decreases nodes.len(),
{
    if nodes.len() == 0 {
        nodes
    } else if keep.contains(nodes.last().id) {
        select_nodes(nodes.drop_last(), keep).push(nodes.last())
    } else {
        select_nodes(nodes.drop_last(), keep)
    }
}

/// The wires of `conns` with both ends in `keep`, order kept.
pub open spec fn select_conns(conns: Seq<Connection>, keep: Set<NodeId>) -> Seq<Connection>
    decreases conns.len(),
{
    if conns.len() == 0 {
        conns
    } else if keep.contains(conns.last().from.node) && keep.contains(conns.last().to.node) {
        select_conns(conns.drop_last(), keep).push(conns.last())
    } else {
        select_conns(conns.drop_last(), keep)
    }
}

/// Sets that agree on the ids of `nodes` select the same nodes.
pub proof fn lemma_select_nodes_congruent(nodes: Seq<NodeView<BrushWireType>>, k1: Set<NodeId>, k2: Set<NodeId>)
    requires
        forall|i: int| 0 <= i < nodes.len() ==> (k1.contains(#[trigger] nodes[i].id) <==> k2.contains(nodes[i].id)),
    ensures
        select_nodes(nodes, k1) == select_nodes(nodes, k2),
    decreases nodes.len(),
{
    if nodes.len() > 0 {
        let init = nodes.drop_last();
        assert forall|i: int| 0 <= i < init.len() implies (k1.contains(#[trigger] init[i].id) <==> k2.contains(init[i].id)) by {
            assert(init[i] == nodes[i]);
        }
        lemma_select_nodes_congruent(init, k1, k2);
        assert(k1.contains(nodes[nodes.len() - 1].id) <==> k2.contains(nodes[nodes.len() - 1].id));
    }
}

/// Selecting every id of `nodes` keeps them all.
pub proof fn lemma_select_nodes_all(nodes: Seq<NodeView<BrushWireType>>, k: Set<NodeId>)
    requires
        forall|i: int| 0 <= i < nodes.len() ==> k.contains(#[trigger] nodes[i].id),
    ensures
        select_nodes(nodes, k) == nodes,
    decreases nodes.len(),
{
    if nodes.len() > 0 {
        let init = nodes.drop_last();
        assert forall|i: int| 0 <= i < init.len() implies k.contains(#[trigger] init[i].id) by {
            assert(init[i] == nodes[i]);
        }
        lemma_select_nodes_all(init, k);
        assert(k.contains(nodes[nodes.len() - 1].id));
        assert(init.push(nodes.last()) =~= nodes);
    }
}

/// Dropping an id from a selection drops it from the keep set.
pub proof fn lemma_select_nodes_drop(nodes: Seq<NodeView<BrushWireType>>, k: Set<NodeId>, id: NodeId)
    ensures
        drop_id(select_nodes(nodes, k), id) == select_nodes(nodes, k.remove(id)),
    decreases nodes.len(),
{
    if nodes.len() > 0 {
        let init = nodes.drop_last();
        lemma_select_nodes_drop(init, k, id);
        if k.contains(nodes.last().id) {
            let s = select_nodes(init, k).push(nodes.last());
            assert(s.drop_last() =~= select_nodes(init, k));
        }
    }
}

/// A selection holds exactly the ids of `nodes` that the keep set holds.
pub proof fn lemma_select_nodes_holds(nodes: Seq<NodeView<BrushWireType>>, k: Set<NodeId>, id: NodeId)
    ensures
        holds_id(select_nodes(nodes, k), id) <==> (holds_id(nodes, id) && k.contains(id)),
        forall|i: int| 0 <= i < select_nodes(nodes, k).len() ==> k.contains(#[trigger] select_nodes(nodes, k)[i].id),
    decreases nodes.len(),
{
    if nodes.len() > 0 {
        let init = nodes.drop_last();
        lemma_select_nodes_holds(init, k, id);
        let si = select_nodes(init, k);
        if holds_id(nodes, id) && k.contains(id) {
            let j = choose|j: int| 0 <= j < nodes.len() && (#[trigger] nodes[j]).id == id;
            if j < init.len() {
                assert(init[j] == nodes[j]);
                let m = choose|m: int| 0 <= m < si.len() && (#[trigger] si[m]).id == id;
                if k.contains(nodes.last().id) {
                    assert(select_nodes(nodes, k)[m] == si[m]);
                }
            } else {
                assert(select_nodes(nodes, k)[si.len() as int] == nodes[j]);
            }
        }
        if holds_id(select_nodes(nodes, k), id) {
            let m = choose|m: int| 0 <= m < select_nodes(nodes, k).len() && (#[trigger] select_nodes(nodes, k)[m]).id == id;
            if m < si.len() {
                assert(select_nodes(nodes, k)[m] == si[m]);
                assert(holds_id(si, id));
                let j = choose|j: int| 0 <= j < init.len() && (#[trigger] init[j]).id == id;
                assert(nodes[j] == init[j]);
            } else {
                assert(nodes[nodes.len() - 1].id == id);
            }
        }
        assert forall|i: int| 0 <= i < select_nodes(nodes, k).len() implies k.contains(#[trigger] select_nodes(nodes, k)[i].id) by {
            if i < si.len() {
                assert(select_nodes(nodes, k)[i] == si[i]);
            }
        }
    }
}

/// Sets that agree on the ends of `conns` select the same wires.
pub proof fn lemma_select_conns_congruent(conns: Seq<Connection>, k1: Set<NodeId>, k2: Set<NodeId>)
    requires
        forall|i: int| 0 <= i < conns.len() ==> (k1.contains(#[trigger] conns[i].from.node) <==> k2.contains(conns[i].from.node)) && (k1.contains(conns[i].to.node) <==> k2.contains(conns[i].to.node)),
    ensures
        select_conns(conns, k1) == select_conns(conns, k2),
    decreases conns.len(),
{
    if conns.len() > 0 {
        let init = conns.drop_last();
        assert forall|i: int| 0 <= i < init.len() implies (k1.contains(#[trigger] init[i].from.node) <==> k2.contains(init[i].from.node)) && (k1.contains(init[i].to.node) <==> k2.contains(init[i].to.node)) by {
            assert(init[i] == conns[i]);
        }
        lemma_select_conns_congruent(init, k1, k2);
        let l = conns[conns.len() - 1];
        assert(k1.contains(l.from.node) <==> k2.contains(l.from.node));
    }
}

/// Selecting every end of `conns` keeps them all.
pub proof fn lemma_select_conns_all(conns: Seq<Connection>, k: Set<NodeId>)
    requires
        forall|i: int| 0 <= i < conns.len() ==> k.contains(#[trigger] conns[i].from.node) && k.contains(conns[i].to.node),
    ensures
        select_conns(conns, k) == conns,
    decreases conns.len(),
{
    if conns.len() > 0 {
        let init = conns.drop_last();
        assert forall|i: int| 0 <= i < init.len() implies k.contains(#[trigger] init[i].from.node) && k.contains(init[i].to.node) by {
            assert(init[i] == conns[i]);
        }
        lemma_select_conns_all(init, k);
        assert(k.contains(conns[conns.len() - 1].from.node));
        assert(init.push(conns.last()) =~= conns);
    }
}

/// Dropping the wires touching an id from a selection drops the id from the keep set.
pub proof fn lemma_select_conns_drop(conns: Seq<Connection>, k: Set<NodeId>, id: NodeId)
    ensures
        drop_touching(select_conns(conns, k), id) == select_conns(conns, k.remove(id)),
    decreases conns.len(),
{
    if conns.len() > 0 {
        let init = conns.drop_last();
        lemma_select_conns_drop(init, k, id);
        if k.contains(conns.last().from.node) && k.contains(conns.last().to.node) {
            let s = select_conns(init, k).push(conns.last());
            assert(s.drop_last() =~= select_conns(init, k));
        }
    }
}

/// A selected wire is a wire of `conns` with both ends kept.
pub proof fn lemma_select_conns_ends(conns: Seq<Connection>, k: Set<NodeId>)
    ensures
        forall|i: int| 0 <= i < select_conns(conns, k).len() ==> exists|j: int| 0 <= j < conns.len() && conns[j] == #[trigger] select_conns(conns, k)[i],
        forall|i: int| 0 <= i < select_conns(conns, k).len() ==> k.contains(#[trigger] select_conns(conns, k)[i].from.node) && k.contains(select_conns(conns, k)[i].to.node),
    decreases conns.len(),
{
    if conns.len() > 0 {
        let init = conns.drop_last();
        lemma_select_conns_ends(init, k);
        let si = select_conns(init, k);
        assert forall|i: int| 0 <= i < select_conns(conns, k).len() implies exists|j: int| 0 <= j < conns.len() && conns[j] == #[trigger] select_conns(conns, k)[i] by {
            if i < si.len() {
                assert(select_conns(conns, k)[i] == si[i]);
                let j = choose|j: int| 0 <= j < init.len() && init[j] == si[i];
                assert(conns[j] == init[j]);
            } else {
                assert(conns[conns.len() - 1] == select_conns(conns, k)[i]);
            }
        }
        assert forall|i: int| 0 <= i < select_conns(conns, k).len() implies k.contains(#[trigger] select_conns(conns, k)[i].from.node) && k.contains(select_conns(conns, k)[i].to.node) by {
            if i < si.len() {
                assert(select_conns(conns, k)[i] == si[i]);
            }
        }
    }
}

/// Dropping the wires into a node that no wire reaches changes nothing.
pub proof fn lemma_drop_into_absent(conns: Seq<Connection>, node: NodeId, port: Seq<char>)
    requires
        forall|i: int| 0 <= i < conns.len() ==> (#[trigger] conns[i]).to.node != node,
    ensures
        drop_into(conns, node, port) == conns,
    decreases conns.len(),
{
    if conns.len() > 0 {
        let init = conns.drop_last();
        assert forall|i: int| 0 <= i < init.len() implies (#[trigger] init[i]).to.node != node by {
            assert(init[i] == conns[i]);
        }
        lemma_drop_into_absent(init, node, port);
        assert(conns[conns.len() - 1].to.node != node);
        assert(init.push(conns.last()) =~= conns);
    }
}

/// A selected node is a node of `nodes`.
pub proof fn lemma_select_nodes_kept(nodes: Seq<NodeView<BrushWireType>>, k: Set<NodeId>, i: int)
    requires
        0 <= i < select_nodes(nodes, k).len(),
    ensures
        exists|j: int| 0 <= j < nodes.len() && nodes[j] == select_nodes(nodes, k)[i],
    decreases nodes.len(),
{
    if nodes.len() > 0 {
        let init = nodes.drop_last();
        let si = select_nodes(init, k);
        if i < si.len() {
            lemma_select_nodes_kept(init, k, i);
            assert(select_nodes(nodes, k)[i] == si[i]);
            let j = choose|j: int| 0 <= j < init.len() && init[j] == si[i];
            assert(nodes[j] == init[j]);
        } else {
            assert(nodes[nodes.len() - 1] == select_nodes(nodes, k)[i]);
        }
    }
}


/// The ids of `nodes` that are not listed in `ids`.
pub open spec fn kept_ids(nodes: Seq<NodeView<BrushWireType>>, ids: Seq<NodeId>) -> Set<NodeId> {
    Set::new(|id: NodeId| holds_id(nodes, id) && !ids.contains(id))
}

impl Graph<BrushWireType> {
    /// Remove every node listed in `ids`, with the wires touching them.
    /// Ids of no node are ignored.
    pub fn remove_nodes(&mut self, ids: &Vec<NodeId>)
        requires
            old(self).wf(),
        ensures
            final(self).wf(),
            final(self).next_id() == old(self).next_id(),
            final(self).nodes@ == select_nodes(old(self).nodes@, kept_ids(old(self).nodes@, ids@)),
            final(self).connections@ == select_conns(
                old(self).connections@,
                kept_ids(old(self).nodes@, ids@),
            ),
    {
        let ghost nodes = self.nodes@;
        let ghost conns = self.connections@;
        let ghost all_ids = id_set(nodes);
        proof {
            lemma_select_nodes_all(nodes, all_ids);
            assert forall|i: int| 0 <= i < conns.len() implies all_ids.contains(
                #[trigger] conns[i].from.node,
            ) && all_ids.contains(conns[i].to.node) by {
                assert(holds_id(nodes, conns[i].from.node));
            }
            lemma_select_conns_all(conns, all_ids);
        }
        let ghost mut kset = all_ids;
        let mut d: usize = 0;
        while d < ids.len()
            invariant
                d <= ids@.len(),
                nodes == old(self).nodes@,
                conns == old(self).connections@,
                all_ids == id_set(nodes),
                distinct_ids(nodes),
                forall|i: int| 0 <= i < conns.len() ==> holds_id(nodes, (#[trigger] conns[i]).from.node)
                    && holds_id(nodes, conns[i].to.node),
                self.wf(),
                self.next_id() == old(self).next_id(),
                self.nodes@ == select_nodes(nodes, kset),
                self.connections@ == select_conns(conns, kset),
                forall|id: NodeId| #[trigger] kset.contains(id) <==> (all_ids.contains(id)
                    && !ids@.take(d as int).contains(id)),
            decreases ids.len() - d,
        {
            let id = ids[d];
            let res = self.remove_node(id);
            proof {
                lemma_select_nodes_drop(nodes, kset, id);
                lemma_select_conns_drop(conns, kset, id);
                lemma_select_nodes_holds(nodes, kset, id);
                if res is Err {
                    // `id` is not a kept node, so no kept wire touches it.
                    lemma_select_nodes_congruent(nodes, kset, kset.remove(id));
                    assert forall|i: int| 0 <= i < conns.len() implies (kset.contains(
                        #[trigger] conns[i].from.node,
                    ) <==> kset.remove(id).contains(conns[i].from.node)) && (kset.contains(
                        conns[i].to.node,
                    ) <==> kset.remove(id).contains(conns[i].to.node)) by {
                        assert(holds_id(nodes, conns[i].from.node));
                        assert(holds_id(nodes, conns[i].to.node));
                    }
                    lemma_select_conns_congruent(conns, kset, kset.remove(id));
                }
                let before = ids@.take(d as int);
                let after = ids@.take(d + 1);
                assert(after =~= before.push(id));
                assert forall|x: NodeId| after.contains(x) <==> (before.contains(x) || x == id) by {
                    if after.contains(x) {
                        let k = choose|k: int| 0 <= k < after.len() && after[k] == x;
                        if k < before.len() {
                            assert(before[k] == x);
                        }
                    }
                    if before.contains(x) {
                        let k = choose|k: int| 0 <= k < before.len() && before[k] == x;
                        assert(after[k] == x);
                    }
                    if x == id {
                        assert(after[d as int] == x);
                    }
                }
                kset = kset.remove(id);
            }
            d = d + 1;
        }
        proof {
            assert(ids@.take(ids@.len() as int) =~= ids@);
            assert(kset =~= kept_ids(nodes, ids@));
        }
    }
}


impl Graph<BrushWireType> {
    /// Whether the graph is well formed (see [`Graph::wf`]): a graph read
    /// from outside is checked with this before the library works on it.
    pub fn is_well_formed(&self) -> (r: bool)
        ensures
            r == self.wf(),
    {
        let ids = self.nodes.ids();
        let n = ids.len();
        let mut i: usize = 0;
        while i < n
            invariant
                n == ids@.len(),
                ids@.len() == self.nodes@.len(),
                forall|k: int| 0 <= k < ids@.len() ==> ids@[k] == (#[trigger] self.nodes@[k]).id,
                i <= n,
                forall|a: int, b: int| 0 <= a < b < i ==> (#[trigger] ids@[a]) != (#[trigger] ids@[b]),
                forall|a: int| 0 <= a < i ==> (#[trigger] ids@[a]).0 < self.next_id,
            decreases n - i,
        {
            if ids[i].0 >= self.next_id {
                assert(self.nodes@[i as int].id == ids@[i as int]);
                return false;
            }
            let mut j: usize = 0;
            while j < i
                invariant
                    n == ids@.len(),
                    ids@.len() == self.nodes@.len(),
                    forall|k: int| 0 <= k < ids@.len() ==> ids@[k] == (#[trigger] self.nodes@[k]).id,
                    i < n,
                    j <= i,
                    forall|b: int| 0 <= b < j ==> ids@[b] != ids@[i as int],
                decreases i - j,
            {
                if ids[j] == ids[i] {
                    proof {
                        assert(self.nodes@[j as int].id == self.nodes@[i as int].id);
                        assert(!distinct_ids(self.nodes@));
                    }
                    return false;
                }
                j = j + 1;
            }
            i = i + 1;
        }
        assert(distinct_ids(self.nodes@)) by {
            assert forall|a: int, b: int|
                0 <= a < self.nodes@.len() && 0 <= b < self.nodes@.len() && a != b implies
                (#[trigger] self.nodes@[a]).id != (#[trigger] self.nodes@[b]).id by {
                assert(ids@[a] == self.nodes@[a].id && ids@[b] == self.nodes@[b].id);
                if a < b {
                    assert(ids@[a] != ids@[b]);
                } else {
                    assert(ids@[b] != ids@[a]);
                }
            }
        }
        assert forall|k: int| 0 <= k < self.nodes@.len() implies (#[trigger] self.nodes@[k]).id.0 < self.next_id() by {
            assert(ids@[k] == self.nodes@[k].id);
        }
        let mut c: usize = 0;
        while c < self.connections.len()
            invariant
                c <= self.connections@.len(),
                forall|k: int| 0 <= k < c ==> holds_id(self.nodes@, (#[trigger] self.connections@[k]).from.node)
                    && holds_id(self.nodes@, self.connections@[k].to.node),
            decreases self.connections.len() - c,
        {
            let conn = &self.connections[c];
            if !self.nodes.contains_key(&conn.from.node) || !self.nodes.contains_key(&conn.to.node) {
                return false;
            }
            c = c + 1;
        }
        true
    }
}


/// Whether nodes `nodes`, wires `conns` and next id `next_id` make a well
/// formed graph (see [`Graph::wf`]).
pub open spec fn parts_wf(nodes: Seq<NodeView<BrushWireType>>, conns: Seq<Connection>, next_id: u64) -> bool {
    &&& distinct_ids(nodes)
    &&& forall|i: int| 0 <= i < nodes.len() ==> (#[trigger] nodes[i]).id.0 < next_id
    &&& forall|i: int|
        0 <= i < conns.len() ==> holds_id(nodes, (#[trigger] conns[i]).from.node) && holds_id(
            nodes,
            conns[i].to.node,
        )
}

impl Graph<BrushWireType> {
    /// The graph made of `nodes` (in order), `connections` and the next id
    /// `next_id`, when that graph is well formed (see [`Graph::wf`]): how a
    /// graph read from outside is rebuilt.
    pub fn from_parts(nodes: Vec<Node<BrushWireType>>, connections: Vec<Connection>, next_id: u64) -> (r: Option<Self>)
        ensures
            r matches Some(g) ==> g.wf(),
            r matches Some(g) ==> g.nodes@ == nodes@.map_values(|n: Node<BrushWireType>| n@)
                && g.connections@ == connections@ && g.next_id() == next_id,
            r is None ==> !parts_wf(nodes@.map_values(|n: Node<BrushWireType>| n@), connections@, next_id),
    {
        let g = Graph { nodes: NodeMap { entries: nodes }, connections, next_id };
        if g.is_well_formed() {
            Some(g)
        } else {
            None
        }
    }
}

/// Dropping the wires into a port no wire reaches changes nothing.
pub proof fn lemma_drop_into_unwired(conns: Seq<Connection>, node: NodeId, port: Seq<char>)
    requires
        !wired_into(conns, node, port),
    ensures
        drop_into(conns, node, port) == conns,
    decreases conns.len(),
{
    if conns.len() > 0 {
        let init = conns.drop_last();
        assert(!wired_into(init, node, port)) by {
            if wired_into(init, node, port) {
                let i = choose|i: int| 0 <= i < init.len() && (#[trigger] init[i]).to.node == node && init[i].to.port@ == port;
                assert(conns[i] == init[i]);
            }
        }
        lemma_drop_into_unwired(init, node, port);
        assert(!(conns[conns.len() - 1].to.node == node && conns[conns.len() - 1].to.port@ == port));
        assert(init.push(conns.last()) =~= conns);
    }
}

} // verus!
