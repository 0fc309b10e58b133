//! Subgraph builder for per-node previews.
//!
//! Given an active brush graph and a target node, produces a new graph
//! holding just the target, every node upstream of it, and an appended
//! `preview_terminal` wired to the target's first `Texture` output. Rendering
//! that graph shows what the target node currently outputs.
//!
//! Returns `None` if the target node doesn't exist or has no `Texture`
//! output port — those cases shouldn't render a preview at all.

use vstd::prelude::*;

use crate::brush::registry::BrushNodeRegistry;
use crate::brush::wire::BrushWireType;
use crate::nodegraph::{
    find_port, has_port, holds_id, kept_ids, lemma_drop_into_absent, lemma_node_with,
    lemma_select_conns_congruent, lemma_select_nodes_congruent, lemma_select_nodes_holds,
    lemma_select_nodes_kept, node_with, select_conns, select_nodes, wires_into, Connection, Graph,
    NodeId, NodeView, PortDef, PortDir, PortRef,
};
use crate::params::ParamValue;
use crate::text::owned;

verus! {

/// Whether some wire runs from node `a` to node `b`.
pub open spec fn edge(conns: Seq<Connection>, a: NodeId, b: NodeId) -> bool {
    exists|i: int| 0 <= i < conns.len() && (#[trigger] conns[i]).from.node == a && conns[i].to.node == b
}

/// Whether a path of at most `n` wires leads from node `a` to node `t`.
pub open spec fn reaches(conns: Seq<Connection>, a: NodeId, t: NodeId, n: nat) -> bool
    decreases n,
{
    if a == t {
        true
    } else if n == 0 {
        false
    } else {
        exists|b: NodeId| #[trigger] edge(conns, a, b) && reaches(conns, b, t, (n - 1) as nat)
    }
}

/// Whether node `a` feeds node `t`, directly or through other nodes (every
/// node is upstream of itself).
pub open spec fn is_upstream(conns: Seq<Connection>, a: NodeId, t: NodeId) -> bool {
    exists|n: nat| #[trigger] reaches(conns, a, t, n)
}

/// The nodes upstream of `t`.
pub open spec fn upstream_set(conns: Seq<Connection>, t: NodeId) -> Set<NodeId> {
    Set::new(|id: NodeId| is_upstream(conns, id, t))
}

/// Whether port `i` is the first `Texture` output of `ports`.
pub open spec fn is_first_texture_output(ports: Seq<PortDef<BrushWireType>>, i: int) -> bool {
    &&& 0 <= i < ports.len()
    &&& ports[i].dir == PortDir::Output
    &&& ports[i].wire_type == BrushWireType::Texture
    &&& forall|k: int|
        0 <= k < i ==> !((#[trigger] ports[k]).dir == PortDir::Output && ports[k].wire_type
            == BrushWireType::Texture)
}

/// Whether `ports` has a `Texture` output.
pub open spec fn has_texture_output(ports: Seq<PortDef<BrushWireType>>) -> bool {
    exists|i: int|
        0 <= i < ports.len() && (#[trigger] ports[i]).dir == PortDir::Output && ports[i].wire_type
            == BrushWireType::Texture
}

/// The name of the first `Texture` output of `ports` (meaningful when there
/// is one).
pub open spec fn first_texture_output_name(ports: Seq<PortDef<BrushWireType>>) -> Seq<char> {
    ports[choose|i: int| is_first_texture_output(ports, i)].name@
}

/// Whether a preview can be built for `target`: it exists, has a `Texture`
/// output, and the first output port carrying that output's name is the
/// texture one (so the wire to the terminal type-checks).
pub open spec fn previewable(g: Graph<BrushWireType>, target: NodeId) -> bool {
    &&& holds_id(g.nodes@, target)
    &&& has_texture_output(node_with(g.nodes@, target).ports)
    &&& find_port(
        node_with(g.nodes@, target).ports,
        first_texture_output_name(node_with(g.nodes@, target).ports),
        PortDir::Output,
    ).wire_type == BrushWireType::Texture
}

proof fn lemma_wires_into(conns: Seq<Connection>, x: NodeId)
    ensures
        forall|k: int| 0 <= k < wires_into(conns, x).len() ==> (#[trigger] wires_into(conns, x)[k]).to.node == x && conns.contains(wires_into(conns, x)[k]),
        forall|i: int| 0 <= i < conns.len() && (#[trigger] conns[i]).to.node == x ==> wires_into(conns, x).contains(conns[i]),
    decreases conns.len(),
{
    if conns.len() > 0 {
        let init = conns.drop_last();
        lemma_wires_into(init, x);
        let w = wires_into(init, x);
        assert forall|k: int| 0 <= k < wires_into(conns, x).len() implies (#[trigger] wires_into(conns, x)[k]).to.node == x && conns.contains(wires_into(conns, x)[k]) by {
            if k < w.len() {
                assert(wires_into(conns, x)[k] == w[k]);
                assert(init.contains(w[k]));
                let i = choose|i: int| 0 <= i < init.len() && init[i] == w[k];
                assert(conns[i] == init[i]);
            } else {
                assert(conns[conns.len() - 1] == wires_into(conns, x)[k]);
            }
        }
        assert forall|i: int| 0 <= i < conns.len() && (#[trigger] conns[i]).to.node == x implies wires_into(conns, x).contains(conns[i]) by {
            if i < init.len() {
                assert(init[i] == conns[i]);
                assert(w.contains(init[i]));
                let k = choose|k: int| 0 <= k < w.len() && w[k] == init[i];
                assert(wires_into(conns, x)[k] == w[k]);
            } else {
                assert(wires_into(conns, x)[w.len() as int] == conns[i]);
            }
        }
    }
}

/// A set closed under "feeds into" that holds `t` holds everything
/// upstream of `t`.
proof fn lemma_closed_holds_upstream(conns: Seq<Connection>, keep: Set<NodeId>, a: NodeId, t: NodeId, n: nat)
    requires
        keep.contains(t),
        forall|i: int| 0 <= i < conns.len() && keep.contains(#[trigger] conns[i].to.node) ==> keep.contains(conns[i].from.node),
        reaches(conns, a, t, n),
    ensures
        keep.contains(a),
    decreases n,
{
    if a != t {
        let b = choose|b: NodeId| #[trigger] edge(conns, a, b) && reaches(conns, b, t, (n - 1) as nat);
        lemma_closed_holds_upstream(conns, keep, b, t, (n - 1) as nat);
        let i = choose|i: int| 0 <= i < conns.len() && (#[trigger] conns[i]).from.node == a && conns[i].to.node == b;
    }
}

/// A duplicate-free list of node ids of `nodes` is no longer than `nodes`.
proof fn lemma_keep_bounded(keep: Seq<NodeId>, nodes: Seq<NodeView<BrushWireType>>)
    requires
        keep.no_duplicates(),
        forall|k: int| 0 <= k < keep.len() ==> holds_id(nodes, #[trigger] keep[k]),
    ensures
        keep.len() <= nodes.len(),
{
    let ids = nodes.map_values(|n: NodeView<BrushWireType>| n.id);
    keep.unique_seq_to_set();
    ids.lemma_cardinality_of_set();
    assert(keep.to_set().subset_of(ids.to_set())) by {
        assert forall|x: NodeId| keep.to_set().contains(x) implies ids.to_set().contains(x) by {
            let k = choose|k: int| 0 <= k < keep.len() && keep[k] == x;
            assert(holds_id(nodes, keep[k]));
            let j = choose|j: int| 0 <= j < nodes.len() && (#[trigger] nodes[j]).id == keep[k];
            assert(ids[j] == x);
        }
    }
    vstd::seq_lib::seq_to_set_is_finite(ids);
    vstd::set_lib::lemma_len_subset(keep.to_set(), ids.to_set());
}

fn contains_id(v: &Vec<NodeId>, id: NodeId) -> (r: bool)
    ensures
        r == v@.contains(id),
{
    let mut i: usize = 0;
    while i < v.len()
        invariant
            i <= v@.len(),
            forall|k: int| 0 <= k < i ==> v@[k] != id,
        decreases v.len() - i,
    {
        if v[i] == id {
            assert(v@[i as int] == id);
            return true;
        }
        i = i + 1;
    }
    false
}

/// The ids of the nodes upstream of `target`, found by walking wires
/// backwards from it.
fn upstream_of(active: &Graph<BrushWireType>, target: NodeId) -> (keep: Vec<NodeId>)
    requires
        active.wf(),
        holds_id(active.nodes@, target),
    ensures
        forall|id: NodeId| keep@.contains(id) <==> (holds_id(active.nodes@, id) && is_upstream(active.connections@, id, target)),
{
    let ghost conns = active.connections@;
    let ghost nodes = active.nodes@;
    let mut keep: Vec<NodeId> = Vec::new();
    keep.push(target);
    let mut frontier: Vec<NodeId> = Vec::new();
    frontier.push(target);
    proof {
        assert(reaches(conns, target, target, 0));
        assert(keep@.no_duplicates());
        assert(keep@[0] == target);
    }
    while frontier.len() > 0
        invariant
            active.wf(),
            conns == active.connections@,
            nodes == active.nodes@,
            keep@.no_duplicates(),
            keep@.contains(target),
            forall|k: int| 0 <= k < keep@.len() ==> holds_id(nodes, #[trigger] keep@[k]),
            forall|k: int| 0 <= k < keep@.len() ==> is_upstream(conns, #[trigger] keep@[k], target),
            forall|k: int| 0 <= k < frontier@.len() ==> keep@.contains(#[trigger] frontier@[k]),
            forall|i: int|
                0 <= i < conns.len() && keep@.contains(#[trigger] conns[i].to.node) && !frontier@.contains(conns[i].to.node) ==> keep@.contains(conns[i].from.node),
        decreases nodes.len() - keep@.len(), frontier@.len(),
    {
        proof {
            lemma_keep_bounded(keep@, nodes);
        }
        let ghost old_frontier = frontier@;
        let ghost old_keep_len = keep@.len();
        let x = frontier.pop().unwrap();
        assert(old_frontier.drop_last() =~= frontier@);
        assert(keep@.contains(x));
        let inputs = active.inputs_for(x);
        proof {
            lemma_wires_into(conns, x);
            assert forall|t: NodeId| old_frontier.contains(t) && t != x implies frontier@.contains(t) by {
                let k = choose|k: int| 0 <= k < old_frontier.len() && old_frontier[k] == t;
                assert(frontier@[k] == t);
            }
        }
        let mut j: usize = 0;
        while j < inputs.len()
            invariant
                j <= inputs@.len(),
                inputs@ == wires_into(conns, x),
                active.wf(),
                conns == active.connections@,
                nodes == active.nodes@,
                keep@.no_duplicates(),
                keep@.contains(target),
                keep@.contains(x),
                keep@.len() >= old_keep_len,
                frontier@.len() <= old_frontier.len() - 1 || keep@.len() > old_keep_len,
                forall|k: int| 0 <= k < keep@.len() ==> holds_id(nodes, #[trigger] keep@[k]),
                forall|k: int| 0 <= k < keep@.len() ==> is_upstream(conns, #[trigger] keep@[k], target),
                forall|k: int| 0 <= k < frontier@.len() ==> keep@.contains(#[trigger] frontier@[k]),
                forall|i: int|
                    0 <= i < conns.len() && keep@.contains(#[trigger] conns[i].to.node) && !frontier@.contains(conns[i].to.node) && conns[i].to.node != x ==> keep@.contains(conns[i].from.node),
                forall|k: int| 0 <= k < j ==> keep@.contains(#[trigger] inputs@[k].from.node),
                forall|k: int| 0 <= k < frontier@.len() ==> old_frontier.contains(#[trigger] frontier@[k]) || !old_frontier.contains(frontier@[k]),
            decreases inputs.len() - j,
        {
            let src = inputs[j].from.node;
            proof {
                lemma_wires_into(conns, x);
                assert(wires_into(conns, x)[j as int] == inputs@[j as int]);
                assert(conns.contains(inputs@[j as int]));
                let i = choose|i: int| 0 <= i < conns.len() && conns[i] == inputs@[j as int];
                assert(edge(conns, src, x));
                assert(holds_id(nodes, conns[i].from.node));
                let kx = choose|k: int| 0 <= k < keep@.len() && keep@[k] == x;
                assert(is_upstream(conns, keep@[kx], target));
                let n = choose|n: nat| #[trigger] reaches(conns, x, target, n);
                assert(reaches(conns, src, target, n + 1));
            }
            if !contains_id(&keep, src) {
                let ghost before = keep@;
                let ghost fbefore = frontier@;
                keep.push(src);
                frontier.push(src);
                proof {
                    assert(frontier@[frontier@.len() - 1] == src);
                    assert forall|t: NodeId| fbefore.contains(t) implies frontier@.contains(t) by {
                        let k = choose|k: int| 0 <= k < fbefore.len() && fbefore[k] == t;
                        assert(frontier@[k] == t);
                    }
                    assert forall|t: NodeId| keep@.contains(t) && t != src implies before.contains(t) by {
                        let k = choose|k: int| 0 <= k < keep@.len() && keep@[k] == t;
                        assert(before[k] == t);
                    }
                    assert(keep@.no_duplicates()) by {
                        assert forall|a: int, b: int| 0 <= a < b < keep@.len() implies keep@[a] != keep@[b] by {
                            if b == keep@.len() - 1 {
                                assert(keep@[a] == before[a]);
                            } else {
                                assert(keep@[a] == before[a] && keep@[b] == before[b]);
                            }
                        }
                    }
                    assert forall|id: NodeId| before.contains(id) implies keep@.contains(id) by {
                        let k = choose|k: int| 0 <= k < before.len() && before[k] == id;
                        assert(keep@[k] == id);
                    }
                    assert(keep@[keep@.len() - 1] == src);
                    assert forall|k: int| 0 <= k < keep@.len() implies is_upstream(conns, #[trigger] keep@[k], target) by {
                        if k < before.len() {
                            assert(keep@[k] == before[k]);
                        } else {
                            let n = choose|n: nat| #[trigger] reaches(conns, x, target, n);
                            assert(reaches(conns, src, target, n + 1));
                        }
                    }
                }
            }
            j = j + 1;
        }
        proof {
            assert forall|i: int|
                0 <= i < conns.len() && keep@.contains(#[trigger] conns[i].to.node) && !frontier@.contains(conns[i].to.node) implies keep@.contains(conns[i].from.node) by {
                if conns[i].to.node == x {
                    assert(wires_into(conns, x).contains(conns[i]));
                    let k = choose|k: int| 0 <= k < wires_into(conns, x).len() && wires_into(conns, x)[k] == conns[i];
                    assert(keep@.contains(inputs@[k].from.node));
                }
            }
            lemma_keep_bounded(keep@, nodes);
        }
    }
    proof {
        assert forall|id: NodeId| keep@.contains(id) <==> (holds_id(nodes, id) && is_upstream(conns, id, target)) by {
            if keep@.contains(id) {
                let k = choose|k: int| 0 <= k < keep@.len() && keep@[k] == id;
                assert(holds_id(nodes, keep@[k]));
                assert(is_upstream(conns, keep@[k], target));
            }
            if holds_id(nodes, id) && is_upstream(conns, id, target) {
                let n = choose|n: nat| #[trigger] reaches(conns, id, target, n);
                lemma_closed_holds_upstream(conns, keep@.to_set(), id, target, n);
            }
        }
    }
    keep
}

/// Index of the first `Texture` output of `ports`, if any.
fn first_texture_output(ports: &Vec<PortDef<BrushWireType>>) -> (r: Option<usize>)
    ensures
        r is None <==> !has_texture_output(ports@),
        r matches Some(i) ==> is_first_texture_output(ports@, i as int),
{
    let mut i: usize = 0;
    while i < ports.len()
        invariant
            i <= ports@.len(),
            forall|k: int| 0 <= k < i ==> !((#[trigger] ports@[k]).dir == PortDir::Output && ports@[k].wire_type == BrushWireType::Texture),
        decreases ports.len() - i,
    {
        if ports[i].dir == PortDir::Output && ports[i].wire_type == BrushWireType::Texture {
            return Some(i);
        }
        i = i + 1;
    }
    None
}

proof fn lemma_first_texture_unique(ports: Seq<PortDef<BrushWireType>>, i: int, j: int)
    requires
        is_first_texture_output(ports, i),
        is_first_texture_output(ports, j),
    ensures
        i == j,
{
    if i < j {
        assert(!(ports[i].dir == PortDir::Output && ports[i].wire_type == BrushWireType::Texture));
    }
    if j < i {
        assert(!(ports[j].dir == PortDir::Output && ports[j].wire_type == BrushWireType::Texture));
    }
}

/// Build a self-contained preview graph rooted at `target`: the target, every
/// node upstream of it and the wires among them, plus a fresh
/// `preview_terminal` whose `texture` input is wired from the target's first
/// `Texture` output.
///
/// Returns `None` if `target` doesn't exist, has no `Texture` output, or the
/// wire to the terminal is refused.
///
/// The graph is returned as built: preview-only parameter overrides (such as
/// a neutral dab color) are left to the caller, which owns those values.
pub fn build_node_preview_graph(active: &Graph<BrushWireType>, target: NodeId) -> (r: Option<Graph<BrushWireType>>)
    requires
        active.wf(),
        active.next_id() < u64::MAX,
    ensures
        r is Some <==> previewable(*active, target),
        r matches Some(sub) ==> {
            let term = NodeId(active.next_id());
            &&& sub.wf()
            &&& sub.nodes@.drop_last() == select_nodes(active.nodes@, upstream_set(active.connections@, target))
            &&& sub.nodes@.len() > 0
            &&& sub.nodes@.last().id == term
            &&& sub.nodes@.last().type_id == "preview_terminal"@
            &&& sub.nodes@.last().ports.len() == 1
            &&& sub.nodes@.last().ports[0].name@ == "texture"@
            &&& sub.nodes@.last().ports[0].dir == PortDir::Input
            &&& sub.nodes@.last().ports[0].wire_type == BrushWireType::Texture
            &&& sub.nodes@.last().params.len() == 0
            &&& sub.connections@.len() > 0
            &&& sub.connections@.drop_last() == select_conns(active.connections@, upstream_set(active.connections@, target))
            &&& sub.connections@.last().from.node == target
            &&& sub.connections@.last().from.port@ == first_texture_output_name(node_with(active.nodes@, target).ports)
            &&& sub.connections@.last().to.node == term
            &&& sub.connections@.last().to.port@ == "texture"@
        },
{
    let ghost nodes = active.nodes@;
    let ghost conns = active.connections@;
    let target_node = match active.nodes.get(&target) {
        Some(n) => n,
        None => return None,
    };
    proof {
        let i = choose|i: int| 0 <= i < nodes.len() && nodes[i] == target_node@;
        lemma_node_with(nodes, i);
    }
    let out_index = match first_texture_output(&target_node.ports) {
        Some(i) => i,
        None => return None,
    };
    let texture_out_name = target_node.ports[out_index].name.clone();
    proof {
        let c = choose|i: int| is_first_texture_output(target_node.ports@, i);
        lemma_first_texture_unique(target_node.ports@, c, out_index as int);
        assert(texture_out_name@ == first_texture_output_name(target_node.ports@));
    }

    let keep = upstream_of(active, target);
    let ghost uset = upstream_set(conns, target);

    let mut sub = active.clone();
    let ids = active.nodes.ids();
    let mut to_drop: Vec<NodeId> = Vec::new();
    let mut i: usize = 0;
    while i < ids.len()
        invariant
            i <= ids@.len(),
            ids@.len() == nodes.len(),
            forall|k: int| 0 <= k < ids@.len() ==> ids@[k] == (#[trigger] nodes[k]).id,
            forall|id: NodeId| keep@.contains(id) <==> (holds_id(nodes, id) && is_upstream(conns, id, target)),
            forall|id: NodeId| to_drop@.contains(id) <==> (exists|k: int| 0 <= k < i && #[trigger] ids@[k] == id && !keep@.contains(id)),
        decreases ids.len() - i,
    {
        let ghost before = to_drop@;
        if !contains_id(&keep, ids[i]) {
            to_drop.push(ids[i]);
        }
        proof {
            assert forall|id: NodeId| to_drop@.contains(id) <==> (exists|k: int| 0 <= k < i + 1 && #[trigger] ids@[k] == id && !keep@.contains(id)) by {
                if to_drop@.contains(id) {
                    let m = choose|m: int| 0 <= m < to_drop@.len() && to_drop@[m] == id;
                    if m < before.len() {
                        assert(before[m] == to_drop@[m]);
                        assert(before.contains(id));
                    }
                }
                if exists|k: int| 0 <= k < i + 1 && #[trigger] ids@[k] == id && !keep@.contains(id) {
                    let k = choose|k: int| 0 <= k < i + 1 && #[trigger] ids@[k] == id && !keep@.contains(id);
                    if k < i {
                        assert(before.contains(id));
                        let m = choose|m: int| 0 <= m < before.len() && before[m] == id;
                        assert(to_drop@[m] == id);
                    } else {
                        assert(to_drop@[to_drop@.len() - 1] == id);
                    }
                }
            }
        }
        i = i + 1;
    }

    sub.remove_nodes(&to_drop);
    let ghost kset = kept_ids(nodes, to_drop@);
    proof {
        assert forall|i: int| 0 <= i < nodes.len() implies (kset.contains(#[trigger] nodes[i].id) <==> uset.contains(nodes[i].id)) by {
            let id = nodes[i].id;
            assert(ids@[i] == id);
            assert(holds_id(nodes, id));
            if kset.contains(id) {
                assert(!to_drop@.contains(id));
                assert(keep@.contains(id));
            } else {
                assert(to_drop@.contains(id));
            }
        }
        lemma_select_nodes_congruent(nodes, kset, uset);
        assert forall|i: int| 0 <= i < conns.len() implies (kset.contains(#[trigger] conns[i].from.node) <==> uset.contains(conns[i].from.node)) && (kset.contains(conns[i].to.node) <==> uset.contains(conns[i].to.node)) by {
            let a = conns[i].from.node;
            let b = conns[i].to.node;
            assert(holds_id(nodes, a) && holds_id(nodes, b));
            let ia = choose|k: int| 0 <= k < nodes.len() && (#[trigger] nodes[k]).id == a;
            let ib = choose|k: int| 0 <= k < nodes.len() && (#[trigger] nodes[k]).id == b;
            assert(kset.contains(nodes[ia].id) <==> uset.contains(nodes[ia].id));
            assert(kset.contains(nodes[ib].id) <==> uset.contains(nodes[ib].id));
        }
        lemma_select_conns_congruent(conns, kset, uset);
        // The target itself is kept, with the node it had.
        assert(reaches(conns, target, target, 0));
        lemma_select_nodes_holds(nodes, uset, target);
    }

    let registry = BrushNodeRegistry::new();
    let term_reg = match registry.get("preview_terminal") {
        Some(reg) => reg,
        None => return None,
    };
    let mut params: Vec<ParamValue> = Vec::new();
    let mut p: usize = 0;
    while p < term_reg.params.len()
        invariant
            p <= term_reg.params@.len(),
            params@.len() == p,
        decreases term_reg.params.len() - p,
    {
        params.push(term_reg.params[p].default_value());
        p = p + 1;
    }
    let ghost kept_nodes = sub.nodes@;
    let ghost kept_conns = sub.connections@;
    let term_id = sub.add_node(term_reg.type_id, term_reg.ports.clone(), params);
    let from = PortRef { node: target, port: texture_out_name };
    let to = PortRef { node: term_id, port: owned("texture") };
    proof {
        let sn = sub.nodes@;
        assert(sn.drop_last() == kept_nodes);
        // The target in the subgraph is the node it was in the active graph.
        let it = choose|k: int| 0 <= k < kept_nodes.len() && (#[trigger] kept_nodes[k]).id == target;
        lemma_select_nodes_kept(nodes, uset, it);
        assert(sn[it] == kept_nodes[it]);
        lemma_node_with(sn, it);
        let tn = node_with(nodes, target);
        assert(sn[it] == tn);
        lemma_node_with(sn, sn.len() - 1);
        let tp = sn[sn.len() - 1].ports;
        assert(has_port(tp, "texture"@, PortDir::Input)) by {
            assert(tp[0].name@ == "texture"@);
        }
        assert(find_port(tp, "texture"@, PortDir::Input) == tp[0]) by {
            reveal_with_fuel(find_port, 2);
        }
        assert(has_port(tn.ports, from.port@, PortDir::Output)) by {
            assert(tn.ports[out_index as int].name@ == from.port@);
        }
        assert(holds_id(sn, target)) by {
            assert(sn[it].id == target);
        }
        assert(holds_id(sn, term_id)) by {
            assert(sn[sn.len() - 1].id == term_id);
        }
        assert forall|i: int| 0 <= i < kept_conns.len() implies (#[trigger] kept_conns[i]).to.node != term_id by {
            let b = kept_conns[i].to.node;
            assert(holds_id(kept_nodes, b));
            let k = choose|k: int| 0 <= k < kept_nodes.len() && (#[trigger] kept_nodes[k]).id == b;
        }
        lemma_drop_into_absent(kept_conns, term_id, to.port@);
    }
    match sub.connect(from, to) {
        Ok(()) => Some(sub),
        Err(_) => None,
    }
}

} // verus!
