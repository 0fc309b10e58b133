//! The portable brush format: a brush's describing metadata, and its graph
//! with what the node registrations can re-derive left out (ports, default
//! parameter values): its nodes by kind-derived id (the first of a type is
//! the type's id, the Nth `"<type_id>_<N>"`) and type, with their comments
//! and parameter overrides, and its wires in the one-line text form
//! `"<from_id>.<from_port> -> <to_id>.<to_port>"`.
//!
//! The format is reversible: a graph exported and imported again comes back
//! as it was (see [`portable_round_trip`] for when), and the text form of a
//! wire reads back to the wire (see [`connection_text_round_trip`]).

use vstd::prelude::*;

use crate::brush::pack_file::BrushMetadata;
use crate::brush::registry::BrushNodeRegistry;
use crate::brush::stabilizer::StabilizerConfig;
use crate::brush::wire::BrushWireType;
use crate::nodegraph::{
    drop_into, find_port, graph_error_text, has_port, holds_id, node_with, wire_accepted, Connection, Graph, NodeId,
    NodeView, PortDir, PortRef,
};
use crate::brush::wire::{spec_compatible, spec_is_wirable};
use crate::params::{ParamDef, ParamValue};
use crate::text::{
    lemma_lex_total, lemma_lex_trans, chars_of, concat3, concat4, concat5, lex_le, str_eq, str_le, decimal, decimal_string, is_unicode_whitespace, is_whitespace, owned, string_of_chars,
};

use vstd::string::StrSliceExecFns;

verus! {

/// A wire between two nodes of a portable brush, by node id and port name.
#[derive(Clone, Debug, PartialEq)]
pub struct PortableConnection {
    pub from_node: String,
    pub from_port: String,
    pub to_node: String,
    pub to_port: String,
}

/// The fields of a connection, as values.
pub type ConnectionView = (Seq<char>, Seq<char>, Seq<char>, Seq<char>);

/// The fields of `c`, as values.
pub open spec fn connection_view(c: PortableConnection) -> ConnectionView {
    (c.from_node@, c.from_port@, c.to_node@, c.to_port@)
}

/// The text form of `c`.
pub open spec fn connection_text(c: ConnectionView) -> Seq<char> {
    c.0 + "."@ + c.1 + " -> "@ + c.2 + "."@ + c.3
}

/// `s` without its leading white space.
pub open spec fn trim_start(s: Seq<char>) -> Seq<char>
    decreases s.len(),
{
    if s.len() > 0 && is_unicode_whitespace(s[0]) {
        trim_start(s.drop_first())
    } else {
        s
    }
}

/// `s` without its trailing white space.
pub open spec fn trim_end(s: Seq<char>) -> Seq<char>
    decreases s.len(),
{
    if s.len() > 0 && is_unicode_whitespace(s.last()) {
        trim_end(s.drop_last())
    } else {
        s
    }
}

/// `s` without its leading and trailing white space, as `str::trim` gives it.
pub open spec fn trim(s: Seq<char>) -> Seq<char> {
    trim_end(trim_start(s))
}

/// The position of the first `->` in `s` at or after `i`, or -1.
pub open spec fn find_arrow(s: Seq<char>, i: int) -> int
    decreases s.len() - i,
{
    if i < 0 || i + 1 >= s.len() {
        -1
    } else if s[i] == '-' && s[i + 1] == '>' {
        i
    } else {
        find_arrow(s, i + 1)
    }
}

/// The position of the first `.` in `s` at or after `i`, or -1.
pub open spec fn find_dot(s: Seq<char>, i: int) -> int
    decreases s.len() - i,
{
    if i < 0 || i >= s.len() {
        -1
    } else if s[i] == '.' {
        i
    } else {
        find_dot(s, i + 1)
    }
}

/// The message for text with no `->`.
pub open spec fn arrow_error(s: Seq<char>) -> Seq<char> {
    "connection '"@ + s + "': expected 'from_id.from_port -> to_id.to_port'"@
}

/// The message for a side with no `.`.
pub open spec fn side_error(s: Seq<char>, label: Seq<char>) -> Seq<char> {
    "connection '"@ + s + "': "@ + label + " side must be 'id.port'"@
}

/// What reading one side of the text `s` gives: the trimmed side split at
/// its first `.`, each part trimmed.
pub open spec fn parse_side(side: Seq<char>, s: Seq<char>, label: Seq<char>) -> Result<(Seq<char>, Seq<char>), Seq<char>> {
    let t = trim(side);
    let j = find_dot(t, 0);
    if j < 0 {
        Err(side_error(s, label))
    } else {
        Ok((trim(t.take(j)), trim(t.skip(j + 1))))
    }
}

/// What reading the text `s` gives: split at its first `->`, then each
/// side read.
pub open spec fn parse_connection(s: Seq<char>) -> Result<ConnectionView, Seq<char>> {
    let i = find_arrow(s, 0);
    if i < 0 {
        Err(arrow_error(s))
    } else {
        match parse_side(s.take(i), s, "from"@) {
            Err(e) => Err(e),
            Ok(from) => match parse_side(s.skip(i + 2), s, "to"@) {
                Err(e) => Err(e),
                Ok(to) => Ok((from.0, from.1, to.0, to.1)),
            },
        }
    }
}

/// A read that gave `c`.
pub open spec fn parsed(c: ConnectionView) -> Result<ConnectionView, Seq<char>> {
    Ok(c)
}

/// The view of a parse result.
pub open spec fn parse_view(r: Result<PortableConnection, String>) -> Result<ConnectionView, Seq<char>> {
    match r {
        Ok(c) => Ok(connection_view(c)),
        Err(e) => Err(e@),
    }
}

/// A string holding `v[lo..hi]`.
fn range_string(v: &Vec<char>, lo: usize, hi: usize) -> (r: String)
    requires
        lo <= hi <= v@.len(),
    ensures
        r@ == v@.subrange(lo as int, hi as int),
{
    let mut out: Vec<char> = Vec::new();
    let mut i: usize = lo;
    while i < hi
        invariant
            lo <= i <= hi,
            hi <= v@.len(),
            out@ == v@.subrange(lo as int, i as int),
        decreases hi - i,
    {
        out.push(v[i]);
        assert(out@ =~= v@.subrange(lo as int, i + 1));
        i = i + 1;
    }
    string_of_chars(&out)
}

/// The bounds of `v[lo..hi]` trimmed.
fn trim_range(v: &Vec<char>, lo: usize, hi: usize) -> (r: (usize, usize))
    requires
        lo <= hi <= v@.len(),
    ensures
        lo <= r.0 <= r.1 <= hi,
        v@.subrange(r.0 as int, r.1 as int) == trim(v@.subrange(lo as int, hi as int)),
{
    let mut a: usize = lo;
    while a < hi && is_whitespace(v[a])
        invariant
            lo <= a <= hi,
            hi <= v@.len(),
            trim_start(v@.subrange(lo as int, hi as int)) == trim_start(v@.subrange(a as int, hi as int)),
        decreases hi - a,
    {
        assert(v@.subrange(a as int, hi as int).drop_first() =~= v@.subrange(a + 1, hi as int));
        a = a + 1;
    }
    let mut b: usize = hi;
    while b > a && is_whitespace(v[b - 1])
        invariant
            a <= b <= hi,
            hi <= v@.len(),
            trim_end(v@.subrange(a as int, hi as int)) == trim_end(v@.subrange(a as int, b as int)),
        decreases b - a,
    {
        assert(v@.subrange(a as int, b as int).drop_last() =~= v@.subrange(a as int, b - 1));
        b = b - 1;
    }
    (a, b)
}

/// The position of the first `.` in `v[lo..hi]` at or after `lo`, if any.
fn dot_in(v: &Vec<char>, lo: usize, hi: usize) -> (r: Option<usize>)
    requires
        lo <= hi <= v@.len(),
    ensures
        r is None ==> find_dot(v@.subrange(lo as int, hi as int), 0) < 0,
        r matches Some(j) ==> lo <= j < hi && find_dot(v@.subrange(lo as int, hi as int), 0) == j - lo,
{
    let ghost t = v@.subrange(lo as int, hi as int);
    let mut j: usize = lo;
    while j < hi
        invariant
            lo <= j <= hi,
            hi <= v@.len(),
            t == v@.subrange(lo as int, hi as int),
            find_dot(t, 0) == find_dot(t, j - lo),
        decreases hi - j,
    {
        if v[j] == '.' {
            return Some(j);
        }
        j = j + 1;
    }
    None
}

/// The position of the first `->` in `v`, if any.
fn arrow_in(v: &Vec<char>) -> (r: Option<usize>)
    ensures
        r is None ==> find_arrow(v@, 0) < 0,
        r matches Some(i) ==> i + 1 < v@.len() && find_arrow(v@, 0) == i,
{
    let mut i: usize = 0;
    while v.len() > 0 && i < v.len() - 1
        invariant
            i <= v@.len(),
            find_arrow(v@, 0) == find_arrow(v@, i as int),
        decreases v@.len() - i,
    {
        if v[i] == '-' && v[i + 1] == '>' {
            return Some(i);
        }
        i = i + 1;
    }
    None
}

/// Read one side of the text `s` (whose characters are `v`), held in
/// `v[lo..hi]`.
fn read_side(v: &Vec<char>, lo: usize, hi: usize, s: &str, label: &str) -> (r: Result<(String, String), String>)
    requires
        lo <= hi <= v@.len(),
        v@ == s@,
    ensures
        match parse_side(v@.subrange(lo as int, hi as int), s@, label@) {
            Ok(p) => r matches Ok(q) && q.0@ == p.0 && q.1@ == p.1,
            Err(e) => r matches Err(m) && m@ == e,
        },
{
    let (a, b) = trim_range(v, lo, hi);
    let ghost t = v@.subrange(a as int, b as int);
    match dot_in(v, a, b) {
        None => {
            let mut m = concat3("connection '", s, "': ");
            m.append(label);
            m.append(" side must be 'id.port'");
            Err(m)
        },
        Some(j) => {
            let (ia, ib) = trim_range(v, a, j);
            let (pa, pb) = trim_range(v, j + 1, b);
            proof {
                assert(t.take(j - a) =~= v@.subrange(a as int, j as int));
                assert(t.skip(j - a + 1) =~= v@.subrange(j + 1, b as int));
            }
            Ok((range_string(v, ia, ib), range_string(v, pa, pb)))
        },
    }
}

impl PortableConnection {
    /// The text form: `"<from_node>.<from_port> -> <to_node>.<to_port>"`.
    pub fn to_text(&self) -> (r: String)
        ensures
            r@ == connection_text(connection_view(*self)),
    {
        let mut r = concat3(self.from_node.as_str(), ".", self.from_port.as_str());
        r.append(" -> ");
        r.append(self.to_node.as_str());
        r.append(".");
        r.append(self.to_port.as_str());
        r
    }

    /// Read a connection from its text form: split at the first `->`, then
    /// each side, trimmed, at its first `.`, each part trimmed.
    #[verifier::spinoff_prover]
    pub fn parse(s: &str) -> (r: Result<PortableConnection, String>)
        ensures
            parse_view(r) == parse_connection(s@),
    {
        let v = chars_of(s);
        match arrow_in(&v) {
            None => Err(concat3("connection '", s, "': expected 'from_id.from_port -> to_id.to_port'")),
            Some(i) => {
                proof {
                    assert(s@.take(i as int) =~= v@.subrange(0, i as int));
                    assert(s@.skip(i + 2) =~= v@.subrange(i + 2, v@.len() as int));
                }
                let from = read_side(&v, 0, i, s, "from")?;
                let to = read_side(&v, i + 2, v.len(), s, "to")?;
                Ok(PortableConnection { from_node: from.0, from_port: from.1, to_node: to.0, to_port: to.1 })
            },
        }
    }
}

/// Whether `x` has no white space at either end.
pub open spec fn no_outer_space(x: Seq<char>) -> bool {
    x.len() == 0 || (!is_unicode_whitespace(x[0]) && !is_unicode_whitespace(x.last()))
}

/// Whether `x` holds no `.`.
pub open spec fn no_dot(x: Seq<char>) -> bool {
    forall|k: int| 0 <= k < x.len() ==> x[k] != '.'
}

/// Whether `x` holds no `->`.
pub open spec fn no_arrow(x: Seq<char>) -> bool {
    forall|k: int| 0 <= k < x.len() - 1 ==> !(#[trigger] x[k] == '-' && x[k + 1] == '>')
}

/// With no `->` starting in `[i, n)`, the first `->` from `i` is the first from `n`.
proof fn lemma_find_arrow_skip(s: Seq<char>, i: int, n: int)
    requires
        0 <= i <= n,
        forall|k: int| i <= k < n ==> !(k + 1 < s.len() && #[trigger] s[k] == '-' && s[k + 1] == '>'),
    ensures
        find_arrow(s, i) == find_arrow(s, n),
    decreases n - i,
{
    if i < n {
        lemma_find_arrow_skip(s, i + 1, n);
    }
}

/// With no `.` in `[i, n)`, the first `.` from `i` is the first from `n`.
proof fn lemma_find_dot_skip(s: Seq<char>, i: int, n: int)
    requires
        0 <= i <= n,
        forall|k: int| i <= k < n && k < s.len() ==> s[k] != '.',
    ensures
        find_dot(s, i) == find_dot(s, n),
    decreases n - i,
{
    if i < n {
        lemma_find_dot_skip(s, i + 1, n);
    }
}

/// Text with no white space at either end is its own trim.
proof fn lemma_trim_unchanged(x: Seq<char>)
    requires
        no_outer_space(x),
    ensures
        trim(x) == x,
{
}

/// The trim of `a + "." + b`, when `a` starts and `b` ends without white
/// space, is itself; and its first `.` is right after `a` when `a` has none.
proof fn lemma_dotted(a: Seq<char>, b: Seq<char>)
    requires
        no_outer_space(a),
        no_outer_space(b),
        no_dot(a),
    ensures
        trim(a + "."@ + b) == a + "."@ + b,
        find_dot(a + "."@ + b, 0) == a.len(),
        (a + "."@ + b).take(a.len() as int) == a,
        (a + "."@ + b).skip(a.len() + 1int) == b,
{
    reveal_strlit(".");
    let t = a + "."@ + b;
    assert(t[a.len() as int] == '.');
    if a.len() > 0 {
        assert(t[0] == a[0]);
    }
    if b.len() > 0 {
        assert(t.last() == b.last());
    }
    assert(trim_start(t) == t);
    assert(trim_end(t) == t);
    lemma_find_dot_skip(t, 0, a.len() as int);
    assert(t.take(a.len() as int) =~= a);
    assert(t.skip(a.len() + 1int) =~= b);
}

/// In the text form of `c`, the first `->` is the one between the sides.
proof fn lemma_text_arrow(c: ConnectionView)
    requires
        no_arrow(c.0),
        no_arrow(c.1),
    ensures
        find_arrow(connection_text(c), 0) == c.0.len() + c.1.len() + 2,
{
    reveal_strlit(".");
    reveal_strlit(" -> ");
    let from = c.0 + "."@ + c.1;
    let to = c.2 + "."@ + c.3;
    let s = connection_text(c);
    let n: int = from.len() + 1int;
    assert(s =~= from + " -> "@ + to);
    assert forall|k: int| 0 <= k < n implies !(k + 1 < s.len() && #[trigger] s[k] == '-' && s[k + 1] == '>') by {
        if k < c.0.len() - 1 {
            assert(s[k] == c.0[k] && s[k + 1] == c.0[k + 1]);
        } else if k == c.0.len() - 1 {
            assert(s[k + 1] == '.');
        } else if k == c.0.len() {
            assert(s[k] == '.');
        } else if k < from.len() - 1 {
            assert(s[k] == c.1[k - c.0.len() - 1] && s[k + 1] == c.1[k - c.0.len()]);
        } else if k == from.len() - 1 {
            assert(s[k + 1] == ' ');
        } else {
            assert(s[k] == ' ');
        }
    }
    assert(s[n] == '-' && s[n + 1] == '>');
    lemma_find_arrow_skip(s, 0, n);
}

/// The sides of the text form of `c`, split at the arrow between them.
proof fn lemma_text_sides(c: ConnectionView)
    ensures
        connection_text(c).take(c.0.len() + c.1.len() + 2int) == (c.0 + "."@ + c.1).push(' '),
        connection_text(c).skip(c.0.len() + c.1.len() + 4int) == seq![' '] + (c.2 + "."@ + c.3),
{
    reveal_strlit(".");
    reveal_strlit(" -> ");
    let from = c.0 + "."@ + c.1;
    let to = c.2 + "."@ + c.3;
    let s = connection_text(c);
    assert(s =~= from + " -> "@ + to);
    assert(s.take(c.0.len() + c.1.len() + 2int) =~= from.push(' '));
    assert(s.skip(c.0.len() + c.1.len() + 4int) =~= seq![' '] + to);
}

/// A side of the form `a + "." + b`, with a space added before or after,
/// trims to `a + "." + b`.
proof fn lemma_side_trim(a: Seq<char>, b: Seq<char>)
    requires
        no_outer_space(a),
        no_outer_space(b),
        no_dot(a),
    ensures
        trim((a + "."@ + b).push(' ')) == a + "."@ + b,
        trim(seq![' '] + (a + "."@ + b)) == a + "."@ + b,
{
    reveal_strlit(".");
    let t = a + "."@ + b;
    lemma_dotted(a, b);
    assert(is_unicode_whitespace(' '));
    assert(t[a.len() as int] == '.');
    assert(t.len() > 0);
    if a.len() > 0 {
        assert(t[0] == a[0]);
    }
    assert(!is_unicode_whitespace(t[0]));
    let l = t.push(' ');
    assert(l[0] == t[0]);
    assert(trim_start(l) == l);
    assert(l.drop_last() =~= t);
    assert(trim_end(l) == trim_end(t));
    let r = seq![' '] + t;
    assert(r.drop_first() =~= t);
    assert(trim_start(r) == trim_start(t));
    assert(trim_start(t) == t);
}

/// The text form of a connection reads back to the connection, when both
/// node ids are free of `.`, the from side is free of `->`, and no field
/// has white space at either end.
#[verifier::spinoff_prover]
#[verifier::rlimit(30)]
pub proof fn connection_text_round_trip(c: ConnectionView)
    requires
        no_dot(c.0),
        no_dot(c.2),
        no_arrow(c.0),
        no_arrow(c.1),
        no_outer_space(c.0),
        no_outer_space(c.1),
        no_outer_space(c.2),
        no_outer_space(c.3),
    ensures
        parse_connection(connection_text(c)) == parsed(c),
{
    let s = connection_text(c);
    lemma_text_arrow(c);
    lemma_text_sides(c);
    lemma_side_trim(c.0, c.1);
    lemma_side_trim(c.2, c.3);
    lemma_dotted(c.0, c.1);
    lemma_dotted(c.2, c.3);
    lemma_trim_unchanged(c.0);
    lemma_trim_unchanged(c.1);
    lemma_trim_unchanged(c.2);
    lemma_trim_unchanged(c.3);
}

impl std::str::FromStr for PortableConnection {
    type Err = String;

    fn from_str(s: &str) -> (r: Result<Self, Self::Err>)
        ensures
            parse_view(r) == parse_connection(s@),
    {
        PortableConnection::parse(s)
    }
}


/// A node of the portable form: its id there, its type, its comment, and
/// the parameters whose values differ from the type's registered defaults,
/// by name.
#[derive(Clone, Debug, PartialEq)]
pub struct PortableNode {
    pub id: String,
    pub type_id: String,
    /// Free-form author annotation; empty where there is none.
    pub comment: String,
    pub inputs: Vec<(String, ParamValue)>,
}

/// A brush in the portable form: its describing metadata (empty for a bare
/// graph), and its graph with what can be re-derived from the node
/// registrations (ports, default parameter values) left out.
#[derive(Clone, Debug, PartialEq)]
pub struct PortableBrush {
    pub name: String,
    pub description: String,
    pub author: String,
    pub tags: Vec<String>,
    /// The stabilizer, where it is not the pass-through default.
    pub stabilizer: Option<StabilizerConfig>,
    pub nodes: Vec<PortableNode>,
    pub connections: Vec<PortableConnection>,
}

impl PortableBrush {
    /// Well formed: the nodes are keyed by id as a map holds them, in id
    /// order, no two sharing an id. An export gives such a form; an import
    /// takes any, ordering the nodes itself and refusing a repeated id.
    pub open spec fn wf(&self) -> bool {
        &&& in_id_order(nodes_view(self.nodes@))
        &&& distinct_node_ids(nodes_view(self.nodes@))
    }
}

/// Whether no two nodes of `nodes` share a kind-derived id.
pub open spec fn distinct_keys(nodes: Seq<NodeView<BrushWireType>>) -> bool {
    forall|i: int, j: int| 0 <= i < nodes.len() && 0 <= j < nodes.len() && i != j ==> node_key(nodes, i) != node_key(nodes, j)
}

impl Default for PortableBrush {
    /// An empty brush: no metadata, no stabilizer, no nodes, no wires.
    fn default() -> (r: Self)
        ensures
            r.name@.len() == 0,
            r.description@.len() == 0,
            r.author@.len() == 0,
            r.tags@.len() == 0,
            r.stabilizer is None,
            r.nodes@.len() == 0,
            r.connections@.len() == 0,
    {
        PortableBrush {
            name: String::new(),
            description: String::new(),
            author: String::new(),
            tags: Vec::new(),
            stabilizer: None,
            nodes: Vec::new(),
            connections: Vec::new(),
        }
    }
}

/// The strings `v`, as values.
pub open spec fn strings_view(v: Seq<String>) -> Seq<Seq<char>> {
    v.map_values(|s: String| s@)
}

/// A copy of the strings `v`.
fn clone_strings(v: &Vec<String>) -> (r: Vec<String>)
    ensures
        strings_view(r@) == strings_view(v@),
{
    let mut r: Vec<String> = Vec::new();
    let mut i: usize = 0;
    while i < v.len()
        invariant
            i <= v@.len(),
            strings_view(r@) == strings_view(v@.take(i as int)),
        decreases v@.len() - i,
    {
        r.push(v[i].clone());
        assert(strings_view(v@.take(i + 1)) =~= strings_view(v@.take(i as int)).push(v@[i as int]@));
        assert(strings_view(r@) =~= strings_view(v@.take(i as int)).push(v@[i as int]@));
        i = i + 1;
    }
    assert(v@.take(v@.len() as int) =~= v@);
    r
}

/// Parameter overrides, as values: name and value.
pub type InputsView = Seq<(Seq<char>, ParamValue)>;

/// A portable node, as values: id, type, overrides, comment.
pub type PortableNodeView = (Seq<char>, Seq<char>, InputsView, Seq<char>);

/// The overrides `v`, as values.
pub open spec fn inputs_view(v: Seq<(String, ParamValue)>) -> InputsView {
    v.map_values(|e: (String, ParamValue)| (e.0@, e.1))
}

/// The node `n`, as values.
pub open spec fn portable_node_view(n: PortableNode) -> PortableNodeView {
    (n.id@, n.type_id@, inputs_view(n.inputs@), n.comment@)
}

/// The nodes `ns`, as values.
pub open spec fn nodes_view(ns: Seq<PortableNode>) -> Seq<PortableNodeView> {
    ns.map_values(|n: PortableNode| portable_node_view(n))
}

/// The connections `cs`, as values.
pub open spec fn connections_view(cs: Seq<PortableConnection>) -> Seq<ConnectionView> {
    cs.map_values(|c: PortableConnection| connection_view(c))
}

/// How many of `ns` are of type `t`.
pub open spec fn count_type(ns: Seq<NodeView<BrushWireType>>, t: Seq<char>) -> nat
    decreases ns.len(),
{
    if ns.len() == 0 {
        0
    } else {
        count_type(ns.drop_last(), t) + if ns.last().type_id == t { 1nat } else { 0nat }
    }
}

/// The kind-derived id of the node of type `t` preceded by `k` of its kind:
/// the first of a kind is its type id, the `n`-th `<type_id>_<n>`.
pub open spec fn kind_id(t: Seq<char>, k: nat) -> Seq<char> {
    if k == 0 {
        t
    } else {
        t + "_"@ + decimal(k + 1)
    }
}

/// The id node `i` of `nodes` goes by in the portable form: derived from its
/// kind and how many of its kind come before it.
pub open spec fn node_key(nodes: Seq<NodeView<BrushWireType>>, i: int) -> Seq<char> {
    kind_id(nodes[i].type_id, count_type(nodes.take(i), nodes[i].type_id))
}

/// The position of the first of `nodes` with id `id`.
pub open spec fn position_of(nodes: Seq<NodeView<BrushWireType>>, id: NodeId) -> int
    decreases nodes.len(),
{
    if nodes.len() == 0 {
        0
    } else if nodes[0].id == id {
        0
    } else {
        1 + position_of(nodes.drop_first(), id)
    }
}

/// The portable id of the node with id `id` (its number in decimal when
/// `nodes` holds none).
pub open spec fn key_of(nodes: Seq<NodeView<BrushWireType>>, id: NodeId) -> Seq<char> {
    if holds_id(nodes, id) {
        node_key(nodes, position_of(nodes, id))
    } else {
        decimal(id.0 as nat)
    }
}

/// The parameters of `params` whose value differs from the default that
/// `defs` declares at the same position, by the declared name, in order.
pub open spec fn overrides(params: Seq<ParamValue>, defs: Seq<ParamDef>) -> InputsView
    decreases params.len(),
{
    if params.len() == 0 {
        Seq::empty()
    } else {
        let k = params.len() - 1;
        let prev = overrides(params.drop_last(), defs);
        if k < defs.len() && params[k] != defs[k].default {
            prev.push((defs[k].name@, params[k]))
        } else {
            prev
        }
    }
}

/// The portable form of node `i` of `nodes`, whose type declares `defs`.
pub open spec fn exported_node(nodes: Seq<NodeView<BrushWireType>>, i: int, defs: Seq<ParamDef>) -> PortableNodeView {
    (node_key(nodes, i), nodes[i].type_id, overrides(nodes[i].params, defs), nodes[i].comment)
}

/// The portable form of wire `c` between nodes of `nodes`.
pub open spec fn exported_connection(nodes: Seq<NodeView<BrushWireType>>, c: Connection) -> ConnectionView {
    (key_of(nodes, c.from.node), c.from.port@, key_of(nodes, c.to.node), c.to.port@)
}

/// The error of exporting a graph whose node `i` has an unregistered type.
pub open spec fn unknown_type_error(nodes: Seq<NodeView<BrushWireType>>, i: int) -> Seq<char> {
    "node "@ + node_key(nodes, i) + " has unknown type '"@ + nodes[i].type_id + "', cannot serialize"@
}

/// The portable ids of the nodes of `graph`, in order.
fn node_keys(graph: &Graph<BrushWireType>) -> (r: Vec<String>)
    ensures
        r@.len() == graph.nodes@.len(),
        forall|i: int| 0 <= i < r@.len() ==> (#[trigger] r@[i])@ == node_key(graph.nodes@, i),
{
    let ghost ns = graph.nodes@;
    let mut r: Vec<String> = Vec::new();
    let mut i: usize = 0;
    while i < graph.nodes.len()
        invariant
            i <= ns.len(),
            ns == graph.nodes@,
            r@.len() == i,
            forall|k: int| 0 <= k < i ==> (#[trigger] r@[k])@ == node_key(ns, k),
        decreases ns.len() - i,
    {
        let t = &graph.nodes.at(i).type_id;
        let mut count: usize = 0;
        let mut j: usize = 0;
        assert(ns.take(0) =~= Seq::<NodeView<BrushWireType>>::empty());
        while j < i
            invariant
                j <= i,
                i < ns.len(),
                ns == graph.nodes@,
                t@ == ns[i as int].type_id,
                count == count_type(ns.take(j as int), ns[i as int].type_id),
                count <= j,
            decreases i - j,
        {
            assert(ns.take(j + 1).drop_last() =~= ns.take(j as int));
            assert(ns.take(j + 1).last() == ns[j as int]);
            if str_eq(graph.nodes.at(j).type_id.as_str(), t.as_str()) {
                count = count + 1;
            }
            j = j + 1;
        }
        let key = if count == 0 {
            t.clone()
        } else {
            let n = decimal_string(count as u64 + 1);
            concat3(t.as_str(), "_", n.as_str())
        };
        r.push(key);
        i = i + 1;
    }
    r
}

/// The portable id of the node with id `id`, given the portable ids `keys`
/// of the nodes of `graph`.
fn key_for(graph: &Graph<BrushWireType>, keys: &Vec<String>, id: NodeId) -> (r: String)
    requires
        keys@.len() == graph.nodes@.len(),
        forall|i: int| 0 <= i < keys@.len() ==> (#[trigger] keys@[i])@ == node_key(graph.nodes@, i),
    ensures
        r@ == key_of(graph.nodes@, id),
{
    let ghost ns = graph.nodes@;
    let mut i: usize = 0;
    assert(ns.skip(0) =~= ns);
    while i < graph.nodes.len()
        invariant
            i <= ns.len(),
            ns == graph.nodes@,
            keys@.len() == ns.len(),
            forall|k: int| 0 <= k < keys@.len() ==> (#[trigger] keys@[k])@ == node_key(ns, k),
            forall|k: int| 0 <= k < i ==> (#[trigger] ns[k]).id != id,
            position_of(ns, id) == i + position_of(ns.skip(i as int), id),
        decreases ns.len() - i,
    {
        assert(ns.skip(i as int)[0] == ns[i as int]);
        if graph.nodes.at(i).id == id {
            assert(holds_id(ns, id));
            return keys[i].clone();
        }
        assert(ns.skip(i as int).drop_first() =~= ns.skip(i + 1));
        i = i + 1;
    }
    assert(!holds_id(ns, id));
    decimal_string(id.0)
}

/// Whether connection `a` comes no later than `b`: by from id, from port,
/// to id, then to port, each compared lexicographically.
pub open spec fn conn_le(a: ConnectionView, b: ConnectionView) -> bool {
    if a.0 != b.0 {
        lex_le(a.0, b.0)
    } else if a.1 != b.1 {
        lex_le(a.1, b.1)
    } else if a.2 != b.2 {
        lex_le(a.2, b.2)
    } else {
        lex_le(a.3, b.3)
    }
}

/// `s` with `x` inserted after the last element that comes no later than it.
pub open spec fn inserted_in_order(s: Seq<ConnectionView>, x: ConnectionView) -> Seq<ConnectionView>
    decreases s.len(),
{
    if s.len() == 0 {
        seq![x]
    } else if conn_le(s.last(), x) {
        s.push(x)
    } else {
        inserted_in_order(s.drop_last(), x).push(s.last())
    }
}

/// `s` sorted by [`conn_le`], stably (an insertion sort).
pub open spec fn sorted_connections(s: Seq<ConnectionView>) -> Seq<ConnectionView>
    decreases s.len(),
{
    if s.len() == 0 {
        s
    } else {
        inserted_in_order(sorted_connections(s.drop_last()), s.last())
    }
}

/// Whether `s` is in [`conn_le`] order.
pub open spec fn in_connection_order(s: Seq<ConnectionView>) -> bool {
    forall|i: int, j: int| 0 <= i < j < s.len() ==> conn_le(#[trigger] s[i], #[trigger] s[j])
}

/// Sorting connections already in order changes nothing.
pub proof fn lemma_sorted_connections_keep_order(s: Seq<ConnectionView>)
    requires
        in_connection_order(s),
    ensures
        sorted_connections(s) == s,
    decreases s.len(),
{
    if s.len() > 0 {
        let d = s.drop_last();
        assert forall|i: int, j: int| 0 <= i < j < d.len() implies conn_le(#[trigger] d[i], #[trigger] d[j]) by {
            assert(d[i] == s[i] && d[j] == s[j]);
        }
        lemma_sorted_connections_keep_order(d);
        if d.len() > 0 {
            assert(conn_le(s[d.len() - 1], s[s.len() - 1]));
        }
        assert(d.push(s.last()) =~= s);
    }
}

/// Inserting at the position after the last element no later than `x`.
proof fn lemma_inserted_at(v: Seq<ConnectionView>, x: ConnectionView, j: int)
    requires
        0 <= j <= v.len(),
        j > 0 ==> conn_le(v[j - 1], x),
        forall|k: int| j <= k < v.len() ==> !conn_le(#[trigger] v[k], x),
    ensures
        inserted_in_order(v, x) == v.insert(j, x),
    decreases v.len(),
{
    if v.len() == 0 {
        assert(v.insert(j, x) =~= seq![x]);
    } else if j == v.len() {
        assert(v.last() == v[j - 1]);
        assert(v.insert(j, x) =~= v.push(x));
    } else {
        assert(!conn_le(v[v.len() - 1], x));
        let d = v.drop_last();
        assert forall|k: int| j <= k < d.len() implies !conn_le(#[trigger] d[k], x) by {
            assert(d[k] == v[k]);
        }
        if j > 0 {
            assert(d[j - 1] == v[j - 1]);
        }
        lemma_inserted_at(d, x, j);
        assert(d.insert(j, x).push(v.last()) =~= v.insert(j, x));
    }
}

/// `s` with node `x` inserted after the last node whose id comes no later
/// than its own.
pub open spec fn node_inserted_in_order(s: Seq<PortableNodeView>, x: PortableNodeView) -> Seq<PortableNodeView>
    decreases s.len(),
{
    if s.len() == 0 {
        seq![x]
    } else if lex_le(s.last().0, x.0) {
        s.push(x)
    } else {
        node_inserted_in_order(s.drop_last(), x).push(s.last())
    }
}

/// The nodes `s` sorted by id, stably (an insertion sort): the order a map
/// keyed by id presents them in.
pub open spec fn sorted_nodes(s: Seq<PortableNodeView>) -> Seq<PortableNodeView>
    decreases s.len(),
{
    if s.len() == 0 {
        s
    } else {
        node_inserted_in_order(sorted_nodes(s.drop_last()), s.last())
    }
}

/// Whether the nodes `s` are in id order.
pub open spec fn in_id_order(s: Seq<PortableNodeView>) -> bool {
    forall|i: int, j: int| 0 <= i < j < s.len() ==> lex_le((#[trigger] s[i]).0, (#[trigger] s[j]).0)
}

/// Whether no two of the nodes `s` share an id.
pub open spec fn distinct_node_ids(s: Seq<PortableNodeView>) -> bool {
    forall|i: int, j: int| 0 <= i < s.len() && 0 <= j < s.len() && i != j ==> (#[trigger] s[i]).0 != (#[trigger] s[j]).0
}

/// Inserting `x` into `v` gives `x` and the nodes of `v`, nothing else.
proof fn lemma_node_inserted_contents(v: Seq<PortableNodeView>, x: PortableNodeView)
    ensures
        forall|k: int|
            0 <= k < node_inserted_in_order(v, x).len() ==> #[trigger] node_inserted_in_order(v, x)[k] == x || v.contains(
                node_inserted_in_order(v, x)[k],
            ),
    decreases v.len(),
{
    lemma_node_inserted_len(v, x);
    let r = node_inserted_in_order(v, x);
    if v.len() > 0 && !lex_le(v.last().0, x.0) {
        let d = v.drop_last();
        lemma_node_inserted_contents(d, x);
        let rd = node_inserted_in_order(d, x);
        lemma_node_inserted_len(d, x);
        assert forall|k: int| 0 <= k < r.len() implies #[trigger] r[k] == x || v.contains(r[k]) by {
            if k < rd.len() {
                assert(r[k] == rd[k]);
                if rd[k] != x {
                    let m = choose|m: int| 0 <= m < d.len() && d[m] == rd[k];
                    assert(v[m] == d[m]);
                }
            } else {
                assert(r[k] == v[v.len() - 1]);
            }
        }
    } else if v.len() > 0 {
        assert forall|k: int| 0 <= k < r.len() implies #[trigger] r[k] == x || v.contains(r[k]) by {
            if k < v.len() {
                assert(r[k] == v[k]);
            }
        }
    }
}

/// Inserting into nodes in id order keeps them in id order.
proof fn lemma_node_inserted_sorted(v: Seq<PortableNodeView>, x: PortableNodeView)
    requires
        in_id_order(v),
    ensures
        in_id_order(node_inserted_in_order(v, x)),
    decreases v.len(),
{
    lemma_node_inserted_len(v, x);
    let r = node_inserted_in_order(v, x);
    if v.len() > 0 {
        let last = v[v.len() - 1];
        if lex_le(v.last().0, x.0) {
            assert forall|i: int, j: int| 0 <= i < j < r.len() implies lex_le((#[trigger] r[i]).0, (#[trigger] r[j]).0) by {
                if j == v.len() {
                    assert(r[i] == v[i]);
                    if i < v.len() - 1 {
                        assert(lex_le(v[i].0, last.0));
                        lemma_lex_trans(v[i].0, last.0, x.0);
                    }
                } else {
                    assert(r[i] == v[i] && r[j] == v[j]);
                }
            }
        } else {
            let d = v.drop_last();
            assert forall|i: int, j: int| 0 <= i < j < d.len() implies lex_le((#[trigger] d[i]).0, (#[trigger] d[j]).0) by {
                assert(d[i] == v[i] && d[j] == v[j]);
            }
            lemma_node_inserted_sorted(d, x);
            lemma_node_inserted_contents(d, x);
            lemma_node_inserted_len(d, x);
            lemma_lex_total(last.0, x.0);
            let rd = node_inserted_in_order(d, x);
            assert forall|i: int, j: int| 0 <= i < j < r.len() implies lex_le((#[trigger] r[i]).0, (#[trigger] r[j]).0) by {
                assert(r[i] == rd[i]);
                if j == rd.len() {
                    assert(r[j] == last);
                    if rd[i] != x {
                        let m = choose|m: int| 0 <= m < d.len() && d[m] == rd[i];
                        assert(v[m] == d[m]);
                        assert(lex_le(v[m].0, v[v.len() - 1].0));
                    }
                } else {
                    assert(r[j] == rd[j]);
                }
            }
        }
    }
}

/// Inserting a node whose id no node of `v` has keeps the ids distinct.
proof fn lemma_node_inserted_distinct(v: Seq<PortableNodeView>, x: PortableNodeView)
    requires
        distinct_node_ids(v),
        forall|k: int| 0 <= k < v.len() ==> (#[trigger] v[k]).0 != x.0,
    ensures
        distinct_node_ids(node_inserted_in_order(v, x)),
    decreases v.len(),
{
    lemma_node_inserted_len(v, x);
    let r = node_inserted_in_order(v, x);
    if v.len() > 0 {
        let last = v[v.len() - 1];
        if lex_le(v.last().0, x.0) {
            assert forall|i: int, j: int| 0 <= i < r.len() && 0 <= j < r.len() && i != j implies (#[trigger] r[i]).0 != (#[trigger] r[j]).0 by {
                if i < v.len() {
                    assert(r[i] == v[i]);
                }
                if j < v.len() {
                    assert(r[j] == v[j]);
                }
            }
        } else {
            let d = v.drop_last();
            assert forall|i: int, j: int| 0 <= i < d.len() && 0 <= j < d.len() && i != j implies (#[trigger] d[i]).0 != (#[trigger] d[j]).0 by {
                assert(d[i] == v[i] && d[j] == v[j]);
            }
            assert forall|k: int| 0 <= k < d.len() implies (#[trigger] d[k]).0 != x.0 by {
                assert(d[k] == v[k]);
            }
            lemma_node_inserted_distinct(d, x);
            lemma_node_inserted_contents(d, x);
            lemma_node_inserted_len(d, x);
            let rd = node_inserted_in_order(d, x);
            assert forall|k: int| 0 <= k < rd.len() implies (#[trigger] rd[k]).0 != last.0 by {
                if rd[k] != x {
                    let m = choose|m: int| 0 <= m < d.len() && d[m] == rd[k];
                    assert(v[m] == d[m]);
                    assert(v[m].0 != v[v.len() - 1].0);
                }
            }
            assert forall|i: int, j: int| 0 <= i < r.len() && 0 <= j < r.len() && i != j implies (#[trigger] r[i]).0 != (#[trigger] r[j]).0 by {
                if i < rd.len() {
                    assert(r[i] == rd[i]);
                } else {
                    assert(r[i] == last);
                }
                if j < rd.len() {
                    assert(r[j] == rd[j]);
                } else {
                    assert(r[j] == last);
                }
            }
        }
    }
}

/// Sorting gives nodes in id order, each one of the nodes sorted, and
/// keeps distinct ids distinct.
pub proof fn lemma_sorted_nodes_sorted(s: Seq<PortableNodeView>)
    ensures
        in_id_order(sorted_nodes(s)),
        forall|k: int| 0 <= k < sorted_nodes(s).len() ==> s.contains(#[trigger] sorted_nodes(s)[k]),
        distinct_node_ids(s) ==> distinct_node_ids(sorted_nodes(s)),
    decreases s.len(),
{
    if s.len() > 0 {
        let d = s.drop_last();
        let x = s[s.len() - 1];
        lemma_sorted_nodes_sorted(d);
        let sd = sorted_nodes(d);
        lemma_node_inserted_sorted(sd, x);
        lemma_node_inserted_contents(sd, x);
        let r = sorted_nodes(s);
        assert forall|k: int| 0 <= k < r.len() implies s.contains(#[trigger] r[k]) by {
            if r[k] != x {
                let m = choose|m: int| 0 <= m < sd.len() && sd[m] == r[k];
                let n = choose|n: int| 0 <= n < d.len() && d[n] == sd[m];
                assert(s[n] == d[n]);
            }
        }
        if distinct_node_ids(s) {
            assert forall|i: int, j: int| 0 <= i < d.len() && 0 <= j < d.len() && i != j implies (#[trigger] d[i]).0 != (#[trigger] d[j]).0 by {
                assert(d[i] == s[i] && d[j] == s[j]);
            }
            assert forall|k: int| 0 <= k < sd.len() implies (#[trigger] sd[k]).0 != x.0 by {
                let n = choose|n: int| 0 <= n < d.len() && d[n] == sd[k];
                assert(s[n] == d[n]);
                assert(s[n].0 != s[s.len() - 1].0);
            }
            lemma_node_inserted_distinct(sd, x);
        }
    }
}

/// Sorting nodes keeps their number.
proof fn lemma_sorted_nodes_len(s: Seq<PortableNodeView>)
    ensures
        sorted_nodes(s).len() == s.len(),
    decreases s.len(),
{
    if s.len() > 0 {
        lemma_sorted_nodes_len(s.drop_last());
        lemma_node_inserted_len(sorted_nodes(s.drop_last()), s.last());
    }
}

proof fn lemma_node_inserted_len(s: Seq<PortableNodeView>, x: PortableNodeView)
    ensures
        node_inserted_in_order(s, x).len() == s.len() + 1,
    decreases s.len(),
{
    if s.len() > 0 {
        lemma_node_inserted_len(s.drop_last(), x);
    }
}

/// Sorting nodes already in id order changes nothing.
pub proof fn lemma_sorted_nodes_keep_order(s: Seq<PortableNodeView>)
    requires
        in_id_order(s),
    ensures
        sorted_nodes(s) == s,
    decreases s.len(),
{
    if s.len() > 0 {
        let d = s.drop_last();
        assert forall|i: int, j: int| 0 <= i < j < d.len() implies lex_le((#[trigger] d[i]).0, (#[trigger] d[j]).0) by {
            assert(d[i] == s[i] && d[j] == s[j]);
        }
        lemma_sorted_nodes_keep_order(d);
        if d.len() > 0 {
            assert(lex_le(s[d.len() - 1].0, s[s.len() - 1].0));
        }
        assert(d.push(s.last()) =~= s);
    }
}

proof fn lemma_node_inserted_at(v: Seq<PortableNodeView>, x: PortableNodeView, j: int)
    requires
        0 <= j <= v.len(),
        j > 0 ==> lex_le(v[j - 1].0, x.0),
        forall|k: int| j <= k < v.len() ==> !lex_le((#[trigger] v[k]).0, x.0),
    ensures
        node_inserted_in_order(v, x) == v.insert(j, x),
    decreases v.len(),
{
    if v.len() == 0 {
        assert(v.insert(j, x) =~= seq![x]);
    } else if j == v.len() {
        assert(v.last() == v[j - 1]);
        assert(v.insert(j, x) =~= v.push(x));
    } else {
        assert(!lex_le(v[v.len() - 1].0, x.0));
        let d = v.drop_last();
        assert forall|k: int| j <= k < d.len() implies !lex_le((#[trigger] d[k]).0, x.0) by {
            assert(d[k] == v[k]);
        }
        if j > 0 {
            assert(d[j - 1] == v[j - 1]);
        }
        lemma_node_inserted_at(d, x, j);
        assert(d.insert(j, x).push(v.last()) =~= v.insert(j, x));
    }
}

fn clone_inputs(v: &Vec<(String, ParamValue)>) -> (r: Vec<(String, ParamValue)>)
    ensures
        inputs_view(r@) == inputs_view(v@),
{
    let mut r: Vec<(String, ParamValue)> = Vec::new();
    let mut i: usize = 0;
    while i < v.len()
        invariant
            i <= v@.len(),
            inputs_view(r@) == inputs_view(v@.take(i as int)),
        decreases v@.len() - i,
    {
        r.push((v[i].0.clone(), v[i].1));
        assert(inputs_view(v@.take(i + 1)) =~= inputs_view(v@.take(i as int)).push((v@[i as int].0@, v@[i as int].1)));
        assert(inputs_view(r@) =~= inputs_view(v@.take(i as int)).push((v@[i as int].0@, v@[i as int].1)));
        i = i + 1;
    }
    assert(v@.take(v@.len() as int) =~= v@);
    r
}

/// The nodes `v` sorted by id, stably.
fn sort_nodes(v: &Vec<PortableNode>) -> (r: Vec<PortableNode>)
    ensures
        nodes_view(r@) == sorted_nodes(nodes_view(v@)),
{
    let ghost nv = nodes_view(v@);
    let mut r: Vec<PortableNode> = Vec::new();
    let mut i: usize = 0;
    assert(nv.take(0) =~= Seq::<PortableNodeView>::empty());
    assert(nodes_view(r@) =~= Seq::<PortableNodeView>::empty());
    while i < v.len()
        invariant
            i <= v@.len(),
            nv == nodes_view(v@),
            nodes_view(r@) == sorted_nodes(nv.take(i as int)),
        decreases v@.len() - i,
    {
        let n = PortableNode {
            id: v[i].id.clone(),
            type_id: v[i].type_id.clone(),
            comment: v[i].comment.clone(),
            inputs: clone_inputs(&v[i].inputs),
        };
        let ghost rv = nodes_view(r@);
        let mut j: usize = r.len();
        while j > 0
            invariant
                j <= r@.len(),
                rv == nodes_view(r@),
                forall|k: int| j <= k < rv.len() ==> !lex_le((#[trigger] rv[k]).0, n.id@),
            ensures
                j <= r@.len(),
                forall|k: int| j <= k < rv.len() ==> !lex_le((#[trigger] rv[k]).0, n.id@),
                j > 0 ==> lex_le(rv[j - 1].0, n.id@),
            decreases j,
        {
            if str_le(r[j - 1].id.as_str(), n.id.as_str()) {
                assert(rv[j - 1] == portable_node_view(r@[j - 1]));
                break;
            }
            assert(rv[j - 1] == portable_node_view(r@[j - 1]));
            j = j - 1;
        }
        proof {
            if j > 0 {
                assert(rv[j - 1] == portable_node_view(r@[j - 1]));
            }
            lemma_node_inserted_at(rv, portable_node_view(n), j as int);
            assert(nv.take(i + 1).drop_last() =~= nv.take(i as int));
            assert(nv.take(i + 1).last() == portable_node_view(n));
        }
        let ghost before = r@;
        r.insert(j, n);
        assert(nodes_view(r@) =~= nodes_view(before).insert(j as int, portable_node_view(n)));
        i = i + 1;
    }
    assert(nv.take(nv.len() as int) =~= nv);
    r
}

/// The portable form of wire `w` between nodes of `nodes`.
pub open spec fn wire_key(nodes: Seq<NodeView<BrushWireType>>, w: WireView) -> ConnectionView {
    (key_of(nodes, w.0), w.1, key_of(nodes, w.2), w.3)
}

/// `s` with wire `x` inserted after the last wire whose portable form comes
/// no later than its own.
pub open spec fn wire_inserted_in_order(nodes: Seq<NodeView<BrushWireType>>, s: Seq<WireView>, x: WireView) -> Seq<WireView>
    decreases s.len(),
{
    if s.len() == 0 {
        seq![x]
    } else if conn_le(wire_key(nodes, s.last()), wire_key(nodes, x)) {
        s.push(x)
    } else {
        wire_inserted_in_order(nodes, s.drop_last(), x).push(s.last())
    }
}

/// The wires `s` sorted, stably, by their portable form on `nodes`.
pub open spec fn sorted_wires(nodes: Seq<NodeView<BrushWireType>>, s: Seq<WireView>) -> Seq<WireView>
    decreases s.len(),
{
    if s.len() == 0 {
        s
    } else {
        wire_inserted_in_order(nodes, sorted_wires(nodes, s.drop_last()), s.last())
    }
}

/// Sorting wires already in the order of their portable form changes
/// nothing.
pub proof fn lemma_sorted_wires_keep_order(nodes: Seq<NodeView<BrushWireType>>, s: Seq<WireView>)
    requires
        forall|i: int, j: int| 0 <= i < j < s.len() ==> conn_le(wire_key(nodes, #[trigger] s[i]), wire_key(nodes, #[trigger] s[j])),
    ensures
        sorted_wires(nodes, s) == s,
    decreases s.len(),
{
    if s.len() > 0 {
        let d = s.drop_last();
        assert forall|i: int, j: int| 0 <= i < j < d.len() implies conn_le(wire_key(nodes, #[trigger] d[i]), wire_key(nodes, #[trigger] d[j])) by {
            assert(d[i] == s[i] && d[j] == s[j]);
        }
        lemma_sorted_wires_keep_order(nodes, d);
        if d.len() > 0 {
            assert(conn_le(wire_key(nodes, s[d.len() - 1]), wire_key(nodes, s[s.len() - 1])));
        }
        assert(d.push(s.last()) =~= s);
    }
}

proof fn lemma_wire_inserted_at(nodes: Seq<NodeView<BrushWireType>>, v: Seq<WireView>, x: WireView, j: int)
    requires
        0 <= j <= v.len(),
        j > 0 ==> conn_le(wire_key(nodes, v[j - 1]), wire_key(nodes, x)),
        forall|k: int| j <= k < v.len() ==> !conn_le(wire_key(nodes, #[trigger] v[k]), wire_key(nodes, x)),
    ensures
        wire_inserted_in_order(nodes, v, x) == v.insert(j, x),
    decreases v.len(),
{
    if v.len() == 0 {
        assert(v.insert(j, x) =~= seq![x]);
    } else if j == v.len() {
        assert(v.last() == v[j - 1]);
        assert(v.insert(j, x) =~= v.push(x));
    } else {
        assert(!conn_le(wire_key(nodes, v[v.len() - 1]), wire_key(nodes, x)));
        let d = v.drop_last();
        assert forall|k: int| j <= k < d.len() implies !conn_le(wire_key(nodes, #[trigger] d[k]), wire_key(nodes, x)) by {
            assert(d[k] == v[k]);
        }
        if j > 0 {
            assert(d[j - 1] == v[j - 1]);
        }
        lemma_wire_inserted_at(nodes, d, x, j);
        assert(d.insert(j, x).push(v.last()) =~= v.insert(j, x));
    }
}

/// The wires of `graph` sorted, stably, by their portable form: the order
/// an export lists them in.
fn sort_wires(graph: &Graph<BrushWireType>) -> (r: Vec<Connection>)
    ensures
        r@.map_values(|c: Connection| wire_view(c)) == sorted_wires(
            graph.nodes@,
            graph.connections@.map_values(|c: Connection| wire_view(c)),
        ),
        forall|k: int| 0 <= k < r@.len() ==> exists|m: int| 0 <= m < graph.connections@.len() && graph.connections@[m] == #[trigger] r@[k],
{
    let keys = node_keys(graph);
    let ghost ns = graph.nodes@;
    let ghost wv = graph.connections@.map_values(|c: Connection| wire_view(c));
    let mut r: Vec<Connection> = Vec::new();
    let mut i: usize = 0;
    assert(wv.take(0) =~= Seq::<WireView>::empty());
    assert(r@.map_values(|c: Connection| wire_view(c)) =~= Seq::<WireView>::empty());
    while i < graph.connections.len()
        invariant
            i <= graph.connections@.len(),
            ns == graph.nodes@,
            wv == graph.connections@.map_values(|c: Connection| wire_view(c)),
            keys@.len() == ns.len(),
            forall|k: int| 0 <= k < keys@.len() ==> (#[trigger] keys@[k])@ == node_key(ns, k),
            r@.map_values(|c: Connection| wire_view(c)) == sorted_wires(ns, wv.take(i as int)),
            forall|k: int| 0 <= k < r@.len() ==> exists|m: int| 0 <= m < graph.connections@.len() && graph.connections@[m] == #[trigger] r@[k],
        decreases graph.connections@.len() - i,
    {
        let c = graph.connections[i].clone();
        let pc = PortableConnection {
            from_node: key_for(graph, &keys, c.from.node),
            from_port: c.from.port.clone(),
            to_node: key_for(graph, &keys, c.to.node),
            to_port: c.to.port.clone(),
        };
        assert(connection_view(pc) == wire_key(ns, wire_view(c)));
        let ghost rv = r@.map_values(|c: Connection| wire_view(c));
        let mut j: usize = r.len();
        while j > 0
            invariant
                j <= r@.len(),
                ns == graph.nodes@,
                keys@.len() == ns.len(),
                forall|k: int| 0 <= k < keys@.len() ==> (#[trigger] keys@[k])@ == node_key(ns, k),
                rv == r@.map_values(|c: Connection| wire_view(c)),
                connection_view(pc) == wire_key(ns, wire_view(c)),
                forall|k: int| j <= k < rv.len() ==> !conn_le(wire_key(ns, #[trigger] rv[k]), wire_key(ns, wire_view(c))),
            ensures
                j <= r@.len(),
                forall|k: int| j <= k < rv.len() ==> !conn_le(wire_key(ns, #[trigger] rv[k]), wire_key(ns, wire_view(c))),
                j > 0 ==> conn_le(wire_key(ns, rv[j - 1]), wire_key(ns, wire_view(c))),
            decreases j,
        {
            let other = &r[j - 1];
            let po = PortableConnection {
                from_node: key_for(graph, &keys, other.from.node),
                from_port: other.from.port.clone(),
                to_node: key_for(graph, &keys, other.to.node),
                to_port: other.to.port.clone(),
            };
            assert(rv[j - 1] == wire_view(r@[j - 1]));
            if conn_le_exec(&po, &pc) {
                break;
            }
            j = j - 1;
        }
        proof {
            lemma_wire_inserted_at(ns, rv, wire_view(c), j as int);
            assert(wv.take(i + 1).drop_last() =~= wv.take(i as int));
            assert(wv.take(i + 1).last() == wire_view(c));
        }
        let ghost before = r@;
        r.insert(j, c);
        proof {
            assert(r@.map_values(|c: Connection| wire_view(c)) =~= before.map_values(|c: Connection| wire_view(c)).insert(j as int, wire_view(c)));
            assert forall|k: int| 0 <= k < r@.len() implies exists|m: int| 0 <= m < graph.connections@.len() && graph.connections@[m] == #[trigger] r@[k] by {
                if k < j {
                    assert(r@[k] == before[k]);
                } else if k == j {
                    assert(graph.connections@[i as int] == r@[k]);
                } else {
                    assert(r@[k] == before[k - 1]);
                }
            }
        }
        i = i + 1;
    }
    assert(wv.take(wv.len() as int) =~= wv);
    r
}

/// Whether `a` comes no later than `b`.
fn conn_le_exec(a: &PortableConnection, b: &PortableConnection) -> (r: bool)
    ensures
        r == conn_le(connection_view(*a), connection_view(*b)),
{
    if !str_eq(a.from_node.as_str(), b.from_node.as_str()) {
        str_le(a.from_node.as_str(), b.from_node.as_str())
    } else if !str_eq(a.from_port.as_str(), b.from_port.as_str()) {
        str_le(a.from_port.as_str(), b.from_port.as_str())
    } else if !str_eq(a.to_node.as_str(), b.to_node.as_str()) {
        str_le(a.to_node.as_str(), b.to_node.as_str())
    } else {
        str_le(a.to_port.as_str(), b.to_port.as_str())
    }
}

/// `v` sorted by [`conn_le`], stably.
fn sort_connections(v: Vec<PortableConnection>) -> (r: Vec<PortableConnection>)
    ensures
        connections_view(r@) == sorted_connections(connections_view(v@)),
{
    let ghost cv = connections_view(v@);
    let mut r: Vec<PortableConnection> = Vec::new();
    let mut i: usize = 0;
    assert(cv.take(0) =~= Seq::<ConnectionView>::empty());
    assert(connections_view(r@) =~= Seq::<ConnectionView>::empty());
    while i < v.len()
        invariant
            i <= v@.len(),
            cv == connections_view(v@),
            connections_view(r@) == sorted_connections(cv.take(i as int)),
        decreases v@.len() - i,
    {
        let c = PortableConnection {
            from_node: v[i].from_node.clone(),
            from_port: v[i].from_port.clone(),
            to_node: v[i].to_node.clone(),
            to_port: v[i].to_port.clone(),
        };
        let ghost rv = connections_view(r@);
        let mut j: usize = r.len();
        while j > 0
            invariant
                j <= r@.len(),
                rv == connections_view(r@),
                forall|k: int| j <= k < rv.len() ==> !conn_le(#[trigger] rv[k], connection_view(c)),
            ensures
                j <= r@.len(),
                forall|k: int| j <= k < rv.len() ==> !conn_le(#[trigger] rv[k], connection_view(c)),
                j > 0 ==> conn_le(rv[j - 1], connection_view(c)),
            decreases j,
        {
            if conn_le_exec(&r[j - 1], &c) {
                assert(rv[j - 1] == connection_view(r@[j - 1]));
                break;
            }
            j = j - 1;
        }
        proof {
            if j > 0 {
                assert(rv[j - 1] == connection_view(r@[j - 1]));
            }
            lemma_inserted_at(rv, connection_view(c), j as int);
            assert(cv.take(i + 1).drop_last() =~= cv.take(i as int));
            assert(cv.take(i + 1).last() == connection_view(c));
        }
        let ghost before = r@;
        r.insert(j, c);
        assert(connections_view(r@) =~= connections_view(before).insert(j as int, connection_view(c)));
        i = i + 1;
    }
    assert(cv.take(cv.len() as int) =~= cv);
    r
}

/// The overrides of `params` against `defs`.
fn overrides_of(params: &Vec<ParamValue>, defs: &Vec<ParamDef>) -> (r: Vec<(String, ParamValue)>)
    ensures
        inputs_view(r@) == overrides(params@, defs@),
{
    let mut r: Vec<(String, ParamValue)> = Vec::new();
    let mut k: usize = 0;
    assert(params@.take(0) =~= Seq::<ParamValue>::empty());
    assert(inputs_view(r@) =~= Seq::<(Seq<char>, ParamValue)>::empty());
    while k < params.len()
        invariant
            k <= params@.len(),
            inputs_view(r@) == overrides(params@.take(k as int), defs@),
        decreases params.len() - k,
    {
        assert(params@.take(k + 1).drop_last() =~= params@.take(k as int));
        let ghost before = r@;
        if k < defs.len() && params[k] != defs[k].default {
            r.push((owned(defs[k].name), params[k]));
            assert(inputs_view(r@) =~= inputs_view(before).push((defs@[k as int].name@, params@[k as int])));
        }
        k = k + 1;
    }
    assert(params@.take(params@.len() as int) =~= params@);
    r
}

impl PortableBrush {
    /// The portable form of `brush`: its graph's, as
    /// [`PortableBrush::from_graph_only`] gives it, with the brush's name,
    /// description, author and tags, and its stabilizer where that is not the
    /// pass-through default. Fails where the graph's export fails.
    pub fn from_brush(brush: &BrushMetadata, registry: &BrushNodeRegistry) -> (r: Result<PortableBrush, String>)
        ensures
            r is Err <==> exists|i: int|
                0 <= i < brush.graph.nodes@.len() && registry.lookup((#[trigger] brush.graph.nodes@[i]).type_id) is None,
            r matches Err(e) ==> exists|i: int|
                0 <= i < brush.graph.nodes@.len() && registry.lookup((#[trigger] brush.graph.nodes@[i]).type_id) is None
                    && (forall|k: int| 0 <= k < i ==> registry.lookup((#[trigger] brush.graph.nodes@[k]).type_id) is Some)
                    && e@ == unknown_type_error(brush.graph.nodes@, i),
            r matches Ok(p) ==> exported_brush(*brush, *registry, p),
            r matches Ok(p) ==> in_id_order(nodes_view(p.nodes@)),
            r matches Ok(p) ==> (distinct_keys(brush.graph.nodes@) ==> p.wf()),
    {
        let graph_only = match PortableBrush::from_graph_only(&brush.graph, registry) {
            Ok(p) => p,
            Err(e) => return Err(e),
        };
        let stabilizer = if brush.stabilizer.algorithm.as_str().unicode_len() == 0 && brush.stabilizer.params.len() == 0 {
            None
        } else {
            Some(brush.stabilizer.clone())
        };
        Ok(
            PortableBrush {
                name: brush.name.clone(),
                description: brush.description.clone(),
                author: brush.author.clone(),
                tags: clone_strings(&brush.tags),
                stabilizer,
                nodes: graph_only.nodes,
                connections: graph_only.connections,
            },
        )
    }

    /// The portable form of `graph`, with no metadata: each node by its
    /// kind-derived id with its comment and the parameters that differ from
    /// its type's defaults, in id order, and each wire by the ids and port
    /// names of its ends, sorted so that identical graphs export identical
    /// connection lists. Fails at the first node whose type is not
    /// registered.
    pub fn from_graph_only(graph: &Graph<BrushWireType>, registry: &BrushNodeRegistry) -> (r: Result<
        PortableBrush,
        String,
    >)
        ensures
            r is Err <==> exists|i: int|
                0 <= i < graph.nodes@.len() && registry.lookup((#[trigger] graph.nodes@[i]).type_id) is None,
            r matches Err(e) ==> exists|i: int|
                0 <= i < graph.nodes@.len() && registry.lookup((#[trigger] graph.nodes@[i]).type_id) is None
                    && (forall|k: int| 0 <= k < i ==> registry.lookup((#[trigger] graph.nodes@[k]).type_id) is Some)
                    && e@ == unknown_type_error(graph.nodes@, i),
            r matches Ok(p) ==> nodes_view(p.nodes@) == sorted_nodes(exported_nodes(*graph, *registry)),
            r matches Ok(p) ==> connections_view(p.connections@) == sorted_connections(
                graph.connections@.map_values(|c: Connection| exported_connection(graph.nodes@, c)),
            ),
            r matches Ok(p) ==> p.name@.len() == 0 && p.description@.len() == 0 && p.author@.len() == 0
                && p.tags@.len() == 0 && p.stabilizer is None,
            r matches Ok(p) ==> in_id_order(nodes_view(p.nodes@)),
            r matches Ok(p) ==> (distinct_keys(graph.nodes@) ==> p.wf()),
    {
        let keys = node_keys(graph);
        let mut nodes: Vec<PortableNode> = Vec::new();
        let mut i: usize = 0;
        while i < graph.nodes.len()
            invariant
                i <= graph.nodes@.len(),
                keys@.len() == graph.nodes@.len(),
                forall|k: int| 0 <= k < keys@.len() ==> (#[trigger] keys@[k])@ == node_key(graph.nodes@, k),
                nodes@.len() == i,
                forall|k: int| 0 <= k < i ==> registry.lookup((#[trigger] graph.nodes@[k]).type_id) is Some,
                forall|k: int|
                    0 <= k < i ==> portable_node_view(#[trigger] nodes@[k]) == exported_node(
                        graph.nodes@,
                        k,
                        registry.lookup(graph.nodes@[k].type_id)->Some_0.params@,
                    ),
            decreases graph.nodes@.len() - i,
        {
            let n = graph.nodes.at(i);
            let reg = match registry.get(n.type_id.as_str()) {
                Some(reg) => reg,
                None => {
                    let head = concat3("node ", keys[i].as_str(), " has unknown type '");
                    return Err(concat3(head.as_str(), n.type_id.as_str(), "', cannot serialize"));
                },
            };
            let inputs = overrides_of(&n.params, &reg.params);
            let node = PortableNode { id: keys[i].clone(), type_id: n.type_id.clone(), comment: n.comment.clone(), inputs };
            nodes.push(node);
            i = i + 1;
        }
        let mut connections: Vec<PortableConnection> = Vec::new();
        let mut j: usize = 0;
        while j < graph.connections.len()
            invariant
                j <= graph.connections@.len(),
                keys@.len() == graph.nodes@.len(),
                forall|k: int| 0 <= k < keys@.len() ==> (#[trigger] keys@[k])@ == node_key(graph.nodes@, k),
                connections@.len() == j,
                forall|k: int|
                    0 <= k < j ==> connection_view(#[trigger] connections@[k]) == exported_connection(
                        graph.nodes@,
                        graph.connections@[k],
                    ),
            decreases graph.connections@.len() - j,
        {
            let c = &graph.connections[j];
            connections.push(
                PortableConnection {
                    from_node: key_for(graph, &keys, c.from.node),
                    from_port: c.from.port.clone(),
                    to_node: key_for(graph, &keys, c.to.node),
                    to_port: c.to.port.clone(),
                },
            );
            j = j + 1;
        }
        proof {
            assert(connections_view(connections@) =~= graph.connections@.map_values(
                |c: Connection| exported_connection(graph.nodes@, c),
            ));
        }
        let connections = sort_connections(connections);
        assert(nodes_view(nodes@) =~= exported_nodes(*graph, *registry));
        let nodes = sort_nodes(&nodes);
        proof {
            let ev = exported_nodes(*graph, *registry);
            lemma_sorted_nodes_sorted(ev);
            if distinct_keys(graph.nodes@) {
                assert forall|i: int, j: int| 0 <= i < ev.len() && 0 <= j < ev.len() && i != j implies (#[trigger] ev[i]).0
                    != (#[trigger] ev[j]).0 by {
                    assert(ev[i].0 == node_key(graph.nodes@, i) && ev[j].0 == node_key(graph.nodes@, j));
                }
            }
        }
        Ok(
            PortableBrush {
                name: String::new(),
                description: String::new(),
                author: String::new(),
                tags: Vec::new(),
                stabilizer: None,
                nodes,
                connections,
            },
        )
    }
}


/// A wire of a graph, as values: the ends' node ids and port names.
pub type WireView = (NodeId, Seq<char>, NodeId, Seq<char>);

/// The wire `c`, as values.
pub open spec fn wire_view(c: Connection) -> WireView {
    (c.from.node, c.from.port@, c.to.node, c.to.port@)
}

/// `ws` without the wires into input `port` of node `node`, order kept.
pub open spec fn drop_into_view(ws: Seq<WireView>, node: NodeId, port: Seq<char>) -> Seq<WireView>
    decreases ws.len(),
{
    if ws.len() == 0 {
        ws
    } else if ws.last().2 == node && ws.last().3 == port {
        drop_into_view(ws.drop_last(), node, port)
    } else {
        drop_into_view(ws.drop_last(), node, port).push(ws.last())
    }
}

/// Dropping wires and then taking values is taking values and then dropping.
proof fn lemma_drop_into_view(cs: Seq<Connection>, node: NodeId, port: Seq<char>)
    ensures
        drop_into(cs, node, port).map_values(|c: Connection| wire_view(c)) == drop_into_view(
            cs.map_values(|c: Connection| wire_view(c)),
            node,
            port,
        ),
    decreases cs.len(),
{
    if cs.len() > 0 {
        lemma_drop_into_view(cs.drop_last(), node, port);
        assert(cs.drop_last().map_values(|c: Connection| wire_view(c)) =~= cs.map_values(
            |c: Connection| wire_view(c),
        ).drop_last());
        let d = drop_into(cs.drop_last(), node, port);
        assert(d.push(cs.last()).map_values(|c: Connection| wire_view(c)) =~= d.map_values(
            |c: Connection| wire_view(c),
        ).push(wire_view(cs.last())));
    }
}

/// The position of the first of `defs` named `name`.
pub open spec fn param_index(defs: Seq<ParamDef>, name: Seq<char>) -> Option<int>
    decreases defs.len(),
{
    if defs.len() == 0 {
        None
    } else if defs[0].name@ == name {
        Some(0)
    } else {
        shifted(param_index(defs.drop_first(), name), 1)
    }
}

/// The position of the first of `ids` equal to `id`.
pub open spec fn id_index(ids: Seq<Seq<char>>, id: Seq<char>) -> Option<int>
    decreases ids.len(),
{
    if ids.len() == 0 {
        None
    } else if ids[0] == id {
        Some(0)
    } else {
        shifted(id_index(ids.drop_first(), id), 1)
    }
}

/// A position moved `d` further.
pub open spec fn shifted(o: Option<int>, d: int) -> Option<int> {
    match o {
        Some(k) => Some(k + d),
        None => None,
    }
}

/// The default values `defs` declares, in order.
pub open spec fn defaults(defs: Seq<ParamDef>) -> Seq<ParamValue> {
    defs.map_values(|d: ParamDef| d.default)
}

/// The error of an override naming no parameter of type `t`.
pub open spec fn unknown_input_error(name: Seq<char>, t: Seq<char>) -> Seq<char> {
    "unknown input '"@ + name + "' on '"@ + t + "'"@
}

/// `params` with the overrides `inputs` of a node of type `t` applied in
/// order, each to the first parameter `defs` declares under its name; the
/// first override naming none is an error.
pub open spec fn applied(params: Seq<ParamValue>, defs: Seq<ParamDef>, inputs: InputsView, t: Seq<char>) -> Result<
    Seq<ParamValue>,
    Seq<char>,
>
    decreases inputs.len(),
{
    if inputs.len() == 0 {
        Ok(params)
    } else {
        match applied(params, defs, inputs.drop_last(), t) {
            Err(e) => Err(e),
            Ok(ps) => match param_index(defs, inputs.last().0) {
                None => Err(unknown_input_error(inputs.last().0, t)),
                Some(k) => Ok(ps.update(k, inputs.last().1)),
            },
        }
    }
}

/// The ids of portable nodes, in order.
pub open spec fn node_ids(pn: Seq<PortableNodeView>) -> Seq<Seq<char>> {
    pn.map_values(|n: PortableNodeView| n.0)
}

/// The error of a second node under an id.
pub open spec fn duplicate_id_error(id: Seq<char>) -> Seq<char> {
    "duplicate node id '"@ + id + "'"@
}

/// The error of a node of an unregistered type.
pub open spec fn unknown_node_type_error(t: Seq<char>) -> Seq<char> {
    "unknown node type '"@ + t + "'"@
}

/// The graph nodes the portable nodes `pn` become, in order, under the ids
/// `0, 1, ...`: each with its type's registered ports and default
/// parameters, its overrides applied. The first node reusing an id, of an
/// unregistered type, or overriding an undeclared parameter is an error.
pub open spec fn imported_nodes(pn: Seq<PortableNodeView>, registry: BrushNodeRegistry) -> Result<
    Seq<NodeView<BrushWireType>>,
    Seq<char>,
>
    decreases pn.len(),
{
    if pn.len() == 0 {
        Ok(Seq::empty())
    } else {
        match imported_nodes(pn.drop_last(), registry) {
            Err(e) => Err(e),
            Ok(ns) => {
                let n = pn.last();
                if id_index(node_ids(pn.drop_last()), n.0) is Some {
                    Err(duplicate_id_error(n.0))
                } else {
                    match registry.lookup(n.1) {
                        None => Err(unknown_node_type_error(n.1)),
                        Some(reg) => match applied(defaults(reg.params@), reg.params@, n.2, n.1) {
                            Err(e) => Err(e),
                            Ok(ps) => Ok(
                                ns.push(
                                    NodeView { id: NodeId(ns.len() as u64), type_id: n.1, comment: n.3, ports: reg.ports@, params: ps },
                                ),
                            ),
                        },
                    }
                }
            },
        }
    }
}

/// The text of the refusal of a wire from port `fp` of node `from` to port
/// `tp` of node `to` on `nodes`, as [`Graph::connect`] gives it.
pub open spec fn connect_error_text(nodes: Seq<NodeView<BrushWireType>>, from: NodeId, fp: Seq<char>, to: NodeId, tp: Seq<char>) -> Seq<char> {
    if !holds_id(nodes, from) {
        "node "@ + decimal(from.0 as nat) + " not found"@
    } else if !has_port(node_with(nodes, from).ports, fp, PortDir::Output) {
        "port '"@ + fp + "' not found"@
    } else if !holds_id(nodes, to) {
        "node "@ + decimal(to.0 as nat) + " not found"@
    } else if !has_port(node_with(nodes, to).ports, tp, PortDir::Input) {
        "port '"@ + tp + "' not found"@
    } else if !spec_compatible(
        find_port(node_with(nodes, from).ports, fp, PortDir::Output).wire_type,
        find_port(node_with(nodes, to).ports, tp, PortDir::Input).wire_type,
    ) {
        "incompatible wire types"@
    } else {
        "the input takes no wire"@
    }
}

/// The error of a connection naming an id no node has.
pub open spec fn unknown_id_error(c: ConnectionView, id: Seq<char>) -> Seq<char> {
    "connection '"@ + connection_text(c) + "': unknown node id "@ + id
}

/// The wires the portable connections `pcs` become on the nodes `nodes`
/// whose portable ids are `ids`, wired in order as [`Graph::connect`] does
/// (a wire replaces the one already into its input). The first connection
/// naming an unknown id, or refused, is an error.
pub open spec fn wired(nodes: Seq<NodeView<BrushWireType>>, ids: Seq<Seq<char>>, pcs: Seq<ConnectionView>) -> Result<
    Seq<WireView>,
    Seq<char>,
>
    decreases pcs.len(),
{
    if pcs.len() == 0 {
        Ok(Seq::empty())
    } else {
        match wired(nodes, ids, pcs.drop_last()) {
            Err(e) => Err(e),
            Ok(ws) => {
                let c = pcs.last();
                match id_index(ids, c.0) {
                    None => Err(unknown_id_error(c, c.0)),
                    Some(a) => match id_index(ids, c.2) {
                        None => Err(unknown_id_error(c, c.2)),
                        Some(b) => {
                            let (f, t) = (NodeId(a as u64), NodeId(b as u64));
                            if wire_accepted(nodes, f, c.1, t, c.3) {
                                Ok(drop_into_view(ws, t, c.3).push((f, c.1, t, c.3)))
                            } else {
                                Err("connection '"@ + connection_text(c) + "': "@ + connect_error_text(nodes, f, c.1, t, c.3))
                            }
                        },
                    },
                }
            },
        }
    }
}

/// The position of the first of `defs` named `name`.
fn param_position(defs: &Vec<ParamDef>, name: &str) -> (r: Option<usize>)
    ensures
        match r {
            Some(k) => param_index(defs@, name@) == Some(k as int) && k < defs@.len(),
            None => param_index(defs@, name@) is None,
        },
{
    let mut i: usize = 0;
    assert(defs@.skip(0) =~= defs@);
    while i < defs.len()
        invariant
            i <= defs@.len(),
            param_index(defs@, name@) == shifted(param_index(defs@.skip(i as int), name@), i as int),
        decreases defs@.len() - i,
    {
        assert(defs@.skip(i as int)[0] == defs@[i as int]);
        if str_eq(defs[i].name, name) {
            return Some(i);
        }
        assert(defs@.skip(i as int).drop_first() =~= defs@.skip(i + 1));
        i = i + 1;
    }
    assert(defs@.skip(i as int).len() == 0);
    None
}

/// The position of the first of `ids` equal to `id`.
fn id_position(ids: &Vec<String>, id: &str) -> (r: Option<usize>)
    ensures
        match r {
            Some(k) => id_index(ids@.map_values(|s: String| s@), id@) == Some(k as int) && k < ids@.len(),
            None => id_index(ids@.map_values(|s: String| s@), id@) is None,
        },
{
    let ghost v = ids@.map_values(|s: String| s@);
    let mut i: usize = 0;
    assert(v.skip(0) =~= v);
    while i < ids.len()
        invariant
            i <= ids@.len(),
            v == ids@.map_values(|s: String| s@),
            id_index(v, id@) == shifted(id_index(v.skip(i as int), id@), i as int),
        decreases ids@.len() - i,
    {
        assert(v.skip(i as int)[0] == ids@[i as int]@);
        if str_eq(ids[i].as_str(), id) {
            return Some(i);
        }
        assert(v.skip(i as int).drop_first() =~= v.skip(i + 1));
        i = i + 1;
    }
    assert(v.skip(i as int).len() == 0);
    None
}


/// An error on a prefix of the overrides is the error on all of them.
proof fn lemma_applied_prefix(params: Seq<ParamValue>, defs: Seq<ParamDef>, inputs: InputsView, t: Seq<char>, j: int)
    requires
        0 <= j <= inputs.len(),
        applied(params, defs, inputs.take(j), t) is Err,
    ensures
        applied(params, defs, inputs, t) == applied(params, defs, inputs.take(j), t),
    decreases inputs.len() - j,
{
    if j == inputs.len() {
        assert(inputs.take(j) =~= inputs);
    } else {
        assert(inputs.take(j + 1).drop_last() =~= inputs.take(j));
        lemma_applied_prefix(params, defs, inputs, t, j + 1);
    }
}

/// An error on a prefix of the nodes is the error on all of them.
proof fn lemma_imported_prefix(pn: Seq<PortableNodeView>, registry: BrushNodeRegistry, j: int)
    requires
        0 <= j <= pn.len(),
        imported_nodes(pn.take(j), registry) is Err,
    ensures
        imported_nodes(pn, registry) == imported_nodes(pn.take(j), registry),
    decreases pn.len() - j,
{
    if j == pn.len() {
        assert(pn.take(j) =~= pn);
    } else {
        assert(pn.take(j + 1).drop_last() =~= pn.take(j));
        lemma_imported_prefix(pn, registry, j + 1);
    }
}

/// An error on a prefix of the connections is the error on all of them.
proof fn lemma_wired_prefix(nodes: Seq<NodeView<BrushWireType>>, ids: Seq<Seq<char>>, pcs: Seq<ConnectionView>, j: int)
    requires
        0 <= j <= pcs.len(),
        wired(nodes, ids, pcs.take(j)) is Err,
    ensures
        wired(nodes, ids, pcs) == wired(nodes, ids, pcs.take(j)),
    decreases pcs.len() - j,
{
    if j == pcs.len() {
        assert(pcs.take(j) =~= pcs);
    } else {
        assert(pcs.take(j + 1).drop_last() =~= pcs.take(j));
        lemma_wired_prefix(nodes, ids, pcs, j + 1);
    }
}

/// The parameters of a node of type `t` whose type declares `defs`: the
/// defaults with the overrides `inputs` applied.
fn applied_params(defs: &Vec<ParamDef>, inputs: &Vec<(String, ParamValue)>, t: &str) -> (r: Result<Vec<ParamValue>, String>)
    ensures
        match applied(defaults(defs@), defs@, inputs_view(inputs@), t@) {
            Ok(ps) => r matches Ok(v) && v@ == ps,
            Err(e) => r matches Err(m) && m@ == e,
        },
{
    let mut params: Vec<ParamValue> = Vec::new();
    let mut k: usize = 0;
    while k < defs.len()
        invariant
            k <= defs@.len(),
            params@ == defaults(defs@).take(k as int),
        decreases defs@.len() - k,
    {
        params.push(defs[k].default);
        assert(params@ =~= defaults(defs@).take(k + 1));
        k = k + 1;
    }
    assert(params@ =~= defaults(defs@));
    let ghost iv = inputs_view(inputs@);
    let mut j: usize = 0;
    assert(iv.take(0) =~= Seq::<(Seq<char>, ParamValue)>::empty());
    while j < inputs.len()
        invariant
            j <= inputs@.len(),
            iv == inputs_view(inputs@),
            params@.len() == defs@.len(),
            applied(defaults(defs@), defs@, iv.take(j as int), t@) == Ok::<Seq<ParamValue>, Seq<char>>(params@),
        decreases inputs@.len() - j,
    {
        let name = inputs[j].0.as_str();
        assert(iv.take(j + 1).drop_last() =~= iv.take(j as int));
        assert(iv.take(j + 1).last() == (inputs@[j as int].0@, inputs@[j as int].1));
        match param_position(defs, name) {
            None => {
                proof {
                    lemma_applied_prefix(defaults(defs@), defs@, iv, t@, j + 1);
                }
                return Err(concat5("unknown input '", name, "' on '", t, "'"));
            },
            Some(k) => {
                params.set(k, inputs[j].1);
            },
        }
        j = j + 1;
    }
    assert(iv.take(iv.len() as int) =~= iv);
    Ok(params)
}

impl PortableBrush {
    /// The graph this portable form describes: its nodes, in id order (the
    /// order a map keyed by id presents them in), added under fresh ids,
    /// each with its comment, its type's registered ports and default
    /// parameters and its overrides applied, then its connections wired in
    /// order through the portable ids and sorted by their portable form, so
    /// the graph lists them as an export would. Fails at the first node (in
    /// id order) reusing an id, of an unregistered type, or overriding an
    /// undeclared parameter, and then at the first connection naming an
    /// unknown id or refused by the graph.
    pub fn into_graph(&self, registry: &BrushNodeRegistry) -> (r: Result<Graph<BrushWireType>, String>)
        requires
            self.nodes@.len() < u64::MAX,
        ensures
            portable_import(*self, *registry) matches Err(e) ==> (r matches Err(m) && m@ == e),
            portable_import(*self, *registry) matches Ok(v) ==> (r matches Ok(g) && graph_is(g, v.0, v.1)),
    {
        let sorted = sort_nodes(&self.nodes);
        proof {
            lemma_sorted_nodes_len(nodes_view(self.nodes@));
        }
        graph_from_nodes(&sorted, &self.connections, registry)
    }

    /// The brush this portable form describes, under the id `id`: the graph
    /// [`PortableBrush::into_graph`] imports, with this form's name,
    /// description, author and tags, and its stabilizer, or the pass-through
    /// one where it names none. Fails where the import fails, with its error.
    pub fn into_brush(&self, registry: &BrushNodeRegistry, id: &str) -> (r: Result<BrushMetadata, String>)
        requires
            self.nodes@.len() < u64::MAX,
        ensures
            portable_import(*self, *registry) matches Err(e) ==> (r matches Err(m) && m@ == e),
            portable_import(*self, *registry) is Ok ==> r is Ok,
            r matches Ok(b) ==> imported_brush(*self, *registry, id@, b),
    {
        let graph = match self.into_graph(registry) {
            Ok(g) => g,
            Err(e) => return Err(e),
        };
        let mut b = BrushMetadata::from_graph(id, self.name.as_str(), graph);
        b.description = self.description.clone();
        b.author = self.author.clone();
        b.tags = clone_strings(&self.tags);
        match &self.stabilizer {
            Some(s) => {
                b.stabilizer = s.clone();
            },
            None => {},
        }
        Ok(b)
    }
}

/// Whether `p` is the portable form of `brush`: its graph's export, its
/// name, description, author and tags, and its stabilizer where that is not
/// the pass-through default.
pub open spec fn exported_brush(brush: BrushMetadata, registry: BrushNodeRegistry, p: PortableBrush) -> bool {
    &&& nodes_view(p.nodes@) == sorted_nodes(exported_nodes(brush.graph, registry))
    &&& connections_view(p.connections@) == sorted_connections(
        brush.graph.connections@.map_values(|c: Connection| exported_connection(brush.graph.nodes@, c)),
    )
    &&& p.name@ == brush.name@
    &&& p.description@ == brush.description@
    &&& p.author@ == brush.author@
    &&& strings_view(p.tags@) == strings_view(brush.tags@)
    &&& brush.stabilizer.is_default() ==> p.stabilizer is None
    &&& !brush.stabilizer.is_default() ==> (p.stabilizer matches Some(s) && s.algorithm@ == brush.stabilizer.algorithm@
        && s.params@ == brush.stabilizer.params@)
}

/// Whether `b` is the brush `p` imports to under the id `id`: the imported
/// graph, `p`'s name, description, author and tags, and its stabilizer or
/// the pass-through one.
pub open spec fn imported_brush(p: PortableBrush, registry: BrushNodeRegistry, id: Seq<char>, b: BrushMetadata) -> bool {
    &&& portable_import(p, registry) matches Ok(v) && graph_is(b.graph, v.0, v.1)
    &&& b.id@ == id
    &&& b.name@ == p.name@
    &&& b.description@ == p.description@
    &&& b.author@ == p.author@
    &&& strings_view(b.tags@) == strings_view(p.tags@)
    &&& match p.stabilizer {
        Some(s) => b.stabilizer.algorithm@ == s.algorithm@ && b.stabilizer.params@ == s.params@,
        None => b.stabilizer.is_default(),
    }
}

/// What importing `p` gives: the graph nodes its nodes become, taken in id
/// order, and the wires its connections make between them, sorted by their
/// portable form; or the first error.
pub open spec fn portable_import(p: PortableBrush, registry: BrushNodeRegistry) -> Result<
    (Seq<NodeView<BrushWireType>>, Seq<WireView>),
    Seq<char>,
> {
    let pn = sorted_nodes(nodes_view(p.nodes@));
    match imported_nodes(pn, registry) {
        Err(e) => Err(e),
        Ok(ns) => match wired(ns, node_ids(pn), connections_view(p.connections@)) {
            Err(e) => Err(e),
            Ok(ws) => Ok((ns, sorted_wires(ns, ws))),
        },
    }
}

/// Whether `g` is the well-formed graph of nodes `ns` and wires `ws`, its
/// id counter right after its nodes.
pub open spec fn graph_is(g: Graph<BrushWireType>, ns: Seq<NodeView<BrushWireType>>, ws: Seq<WireView>) -> bool {
    &&& g.wf()
    &&& g.nodes@ == ns
    &&& g.next_id() == ns.len()
    &&& g.connections@.map_values(|c: Connection| wire_view(c)) == ws
}


/// Whether no two of `defs` share a name.
pub open spec fn distinct_param_names(defs: Seq<ParamDef>) -> bool {
    forall|i: int, j: int| 0 <= i < defs.len() && 0 <= j < defs.len() && i != j ==> (#[trigger] defs[i]).name@ != (#[trigger] defs[j]).name@
}

/// The graph the portable nodes `nodes` (in this order) and connections
/// `connections` describe.
fn graph_from_nodes(nodes: &Vec<PortableNode>, connections: &Vec<PortableConnection>, registry: &BrushNodeRegistry) -> (r: Result<
    Graph<BrushWireType>,
    String,
>)
    requires
        nodes@.len() < u64::MAX,
    ensures
        imported_nodes(nodes_view(nodes@), *registry) matches Err(e) ==> (r matches Err(m) && m@ == e),
        imported_nodes(nodes_view(nodes@), *registry) matches Ok(ns) ==> match wired(
            ns,
            node_ids(nodes_view(nodes@)),
            connections_view(connections@),
        ) {
            Err(e) => r matches Err(m) && m@ == e,
            Ok(ws) => r matches Ok(g) && g.wf() && g.nodes@ == ns && g.next_id() == ns.len()
                && g.connections@.map_values(|c: Connection| wire_view(c)) == sorted_wires(ns, ws),
        },
{
    let ghost pn = nodes_view(nodes@);
    let mut g = Graph::new();
    let mut ids: Vec<String> = Vec::new();
    let mut k: usize = 0;
    assert(pn.take(0) =~= Seq::<PortableNodeView>::empty());
    assert(ids@.map_values(|s: String| s@) =~= node_ids(pn.take(0)));
    assert(g.nodes@ =~= Seq::<NodeView<BrushWireType>>::empty());
    assert(imported_nodes(pn.take(0), *registry) == Ok::<Seq<NodeView<BrushWireType>>, Seq<char>>(
        Seq::empty(),
    ));
    while k < nodes.len()
        invariant
            k <= nodes@.len(),
            nodes@.len() < u64::MAX,
            pn == nodes_view(nodes@),
            g.wf(),
            g.next_id() == k,
            g.nodes@.len() == k,
            g.connections@.len() == 0,
            imported_nodes(pn.take(k as int), *registry) == Ok::<Seq<NodeView<BrushWireType>>, Seq<char>>(g.nodes@),
            ids@.map_values(|s: String| s@) == node_ids(pn.take(k as int)),
        decreases nodes@.len() - k,
    {
        let n = &nodes[k];
        proof {
            assert(pn.take(k + 1).drop_last() =~= pn.take(k as int));
            assert(pn.take(k + 1).last() == portable_node_view(nodes@[k as int]));
        }
        if id_position(&ids, n.id.as_str()).is_some() {
            proof {
                lemma_imported_prefix(pn, *registry, k + 1);
            }
            return Err(concat3("duplicate node id '", n.id.as_str(), "'"));
        }
        let reg = match registry.get(n.type_id.as_str()) {
            Some(reg) => reg,
            None => {
                proof {
                    lemma_imported_prefix(pn, *registry, k + 1);
                }
                return Err(concat3("unknown node type '", n.type_id.as_str(), "'"));
            },
        };
        let params = match applied_params(&reg.params, &n.inputs, n.type_id.as_str()) {
            Ok(p) => p,
            Err(e) => {
                proof {
                    lemma_imported_prefix(pn, *registry, k + 1);
                }
                return Err(e);
            },
        };
        let ports = reg.ports.clone();
        assert(ports@ =~= reg.ports@);
        let ghost before = g.nodes@;
        let new_id = g.add_node(n.type_id.as_str(), ports, params);
        let ghost added = g.nodes@;
        let _ = g.set_node_comment(&new_id, n.comment.clone());
        proof {
            assert forall|i: int| 0 <= i < before.len() implies (#[trigger] before[i]).id != new_id by {
                assert(added[i] == before[i]);
            }
            assert forall|i: int| 0 <= i < before.len() implies #[trigger] g.nodes@[i] == before[i] by {
                assert(added[i] == before[i]);
            }
            assert(added.last().id == new_id);
            assert(g.nodes@ =~= before.push(
                NodeView { id: NodeId(before.len() as u64), type_id: n.type_id@, comment: n.comment@, ports: reg.ports@, params: params@ },
            ));
        }
        let ghost ids_before = ids@;
        let nid = n.id.clone();
        ids.push(nid);
        proof {
            assert(ids@ == ids_before.push(nid));
            assert(node_ids(pn.take(k + 1)) =~= node_ids(pn.take(k as int)).push(nodes@[k as int].id@));
            assert(ids@.map_values(|s: String| s@) =~= ids_before.map_values(|s: String| s@).push(nid@));
        }
        k = k + 1;
    }
    proof {
        assert(pn.take(pn.len() as int) =~= pn);
    }
    let ghost ns = g.nodes@;
    let ghost cv = connections_view(connections@);
    let ghost all_ids = node_ids(pn);
    let mut j: usize = 0;
    assert(cv.take(0) =~= Seq::<ConnectionView>::empty());
    assert(g.connections@.map_values(|c: Connection| wire_view(c)) =~= Seq::<WireView>::empty());
    while j < connections.len()
        invariant
            j <= connections@.len(),
            cv == connections_view(connections@),
            all_ids == node_ids(pn),
            pn == nodes_view(nodes@),
            imported_nodes(pn, *registry) == Ok::<Seq<NodeView<BrushWireType>>, Seq<char>>(ns),
            ids@.map_values(|s: String| s@) == all_ids,
            g.wf(),
            g.nodes@ == ns,
            g.next_id() == ns.len(),
            wired(ns, all_ids, cv.take(j as int)) == Ok::<Seq<WireView>, Seq<char>>(
                g.connections@.map_values(|c: Connection| wire_view(c)),
            ),
        decreases connections@.len() - j,
    {
        let c = &connections[j];
        proof {
            assert(cv.take(j + 1).drop_last() =~= cv.take(j as int));
            assert(cv.take(j + 1).last() == connection_view(connections@[j as int]));
        }
        let a = match id_position(&ids, c.from_node.as_str()) {
            Some(a) => a,
            None => {
                proof {
                    lemma_wired_prefix(ns, all_ids, cv, j + 1);
                }
                let text = c.to_text();
                return Err(concat4("connection '", text.as_str(), "': unknown node id ", c.from_node.as_str()));
            },
        };
        let b = match id_position(&ids, c.to_node.as_str()) {
            Some(b) => b,
            None => {
                proof {
                    lemma_wired_prefix(ns, all_ids, cv, j + 1);
                }
                let text = c.to_text();
                return Err(concat4("connection '", text.as_str(), "': unknown node id ", c.to_node.as_str()));
            },
        };
        let from = PortRef { node: NodeId(a as u64), port: c.from_port.clone() };
        let to = PortRef { node: NodeId(b as u64), port: c.to_port.clone() };
        let ghost (f, t) = (from, to);
        let ghost old_conns = g.connections@;
        match g.connect(from, to) {
            Ok(()) => {
                proof {
                    lemma_drop_into_view(old_conns, t.node, t.port@);
                    let d = drop_into(old_conns, t.node, t.port@);
                    assert(d.push(Connection { from: f, to: t }).map_values(|c: Connection| wire_view(c))
                        =~= d.map_values(|c: Connection| wire_view(c)).push(wire_view(Connection { from: f, to: t })));
                }
            },
            Err(e) => {
                proof {
                    lemma_wired_prefix(ns, all_ids, cv, j + 1);
                    assert(graph_error_text(e) == connect_error_text(ns, f.node, f.port@, t.node, t.port@));
                }
                let text = c.to_text();
                let m = e.message();
                return Err(concat4("connection '", text.as_str(), "': ", m.as_str()));
            },
        }
        j = j + 1;
    }
    proof {
        assert(cv.take(cv.len() as int) =~= cv);
    }
    let ghost wired_conns = g.connections@;
    let sorted = sort_wires(&g);
    proof {
        assert forall|k: int| 0 <= k < sorted@.len() implies holds_id(g.nodes@, (#[trigger] sorted@[k]).from.node) && holds_id(
            g.nodes@,
            sorted@[k].to.node,
        ) by {
            let m = choose|m: int| 0 <= m < wired_conns.len() && wired_conns[m] == sorted@[k];
            assert(holds_id(g.nodes@, wired_conns[m].from.node) && holds_id(g.nodes@, wired_conns[m].to.node));
        }
    }
    g.connections = sorted;
    Ok(g)
}


/// Whether no two wires of `conns` run into the same input.
pub open spec fn no_shared_inputs(conns: Seq<Connection>) -> bool {
    forall|a: int, b: int|
        0 <= a < b < conns.len() ==> !((#[trigger] conns[a]).to.node == (#[trigger] conns[b]).to.node && conns[a].to.port@
            == conns[b].to.port@)
}

/// Whether `g` has the shape an import gives a graph: nodes numbered from 0
/// in order with the id counter right after them, each of a registered type
/// (whose parameter names are distinct) with that type's ports and one value
/// per declared parameter, and wires the graph accepts, no two into the same
/// input, listed in the order export sorts them; nodes listed in the order
/// of their kind-derived ids, no two sharing one.
pub open spec fn import_shaped(g: Graph<BrushWireType>, registry: BrushNodeRegistry) -> bool {
    &&& in_id_order(exported_nodes(g, registry))
    &&& in_connection_order(g.connections@.map_values(|c: Connection| exported_connection(g.nodes@, c)))
    &&& g.next_id() == g.nodes@.len()
    &&& forall|i: int, j: int|
        0 <= i < g.nodes@.len() && 0 <= j < g.nodes@.len() && i != j ==> node_key(g.nodes@, i) != node_key(g.nodes@, j)
    &&& forall|i: int| 0 <= i < g.nodes@.len() ==> (#[trigger] g.nodes@[i]).id == NodeId(i as u64)
    &&& forall|i: int|
        0 <= i < g.nodes@.len() ==> (registry.lookup((#[trigger] g.nodes@[i]).type_id) matches Some(reg) && reg.ports@
            == g.nodes@[i].ports && reg.params@.len() == g.nodes@[i].params.len() && distinct_param_names(reg.params@))
    &&& forall|j: int|
        0 <= j < g.connections@.len() ==> wire_accepted(
            g.nodes@,
            (#[trigger] g.connections@[j]).from.node,
            g.connections@[j].from.port@,
            g.connections@[j].to.node,
            g.connections@[j].to.port@,
        )
    &&& no_shared_inputs(g.connections@)
}

/// The portable nodes a graph exports to.
pub open spec fn exported_nodes(g: Graph<BrushWireType>, registry: BrushNodeRegistry) -> Seq<PortableNodeView> {
    Seq::new(
        g.nodes@.len(),
        |i: int| exported_node(g.nodes@, i, registry.lookup(g.nodes@[i].type_id)->Some_0.params@),
    )
}

proof fn lemma_id_index_found(ids: Seq<Seq<char>>, id: Seq<char>, m: int)
    requires
        0 <= m < ids.len(),
        ids[m] == id,
        forall|i: int| 0 <= i < m ==> ids[i] != id,
    ensures
        id_index(ids, id) == Some(m),
    decreases m,
{
    if m > 0 {
        assert forall|i: int| 0 <= i < m - 1 implies ids.drop_first()[i] != id by {
            assert(ids.drop_first()[i] == ids[i + 1]);
        }
        lemma_id_index_found(ids.drop_first(), id, m - 1);
    }
}

proof fn lemma_id_index_absent(ids: Seq<Seq<char>>, id: Seq<char>)
    requires
        forall|i: int| 0 <= i < ids.len() ==> ids[i] != id,
    ensures
        id_index(ids, id) is None,
    decreases ids.len(),
{
    if ids.len() > 0 {
        assert(ids[0] != id);
        assert forall|i: int| 0 <= i < ids.len() - 1 implies ids.drop_first()[i] != id by {
            assert(ids.drop_first()[i] == ids[i + 1]);
        }
        lemma_id_index_absent(ids.drop_first(), id);
    }
}

proof fn lemma_param_index_found(defs: Seq<ParamDef>, m: int)
    requires
        0 <= m < defs.len(),
        distinct_param_names(defs),
    ensures
        param_index(defs, defs[m].name@) == Some(m),
    decreases m,
{
    if m > 0 {
        assert(defs[0].name@ != defs[m].name@);
        let rest = defs.drop_first();
        assert forall|i: int, j: int| 0 <= i < rest.len() && 0 <= j < rest.len() && i != j implies (#[trigger] rest[i]).name@
            != (#[trigger] rest[j]).name@ by {
            assert(rest[i] == defs[i + 1] && rest[j] == defs[j + 1]);
        }
        assert(rest[m - 1] == defs[m]);
        lemma_param_index_found(rest, m - 1);
    }
}

/// Applying the overrides of the first `m` parameters to the defaults gives
/// those parameters followed by the remaining defaults.
proof fn lemma_overrides_applied(params: Seq<ParamValue>, defs: Seq<ParamDef>, t: Seq<char>, m: int)
    requires
        params.len() == defs.len(),
        distinct_param_names(defs),
        0 <= m <= params.len(),
    ensures
        applied(defaults(defs), defs, overrides(params.take(m), defs), t) == Ok::<Seq<ParamValue>, Seq<char>>(
            params.take(m) + defaults(defs).skip(m),
        ),
    decreases m,
{
    if m == 0 {
        assert(params.take(0) =~= Seq::<ParamValue>::empty());
        assert(params.take(0) + defaults(defs).skip(0) =~= defaults(defs));
    } else {
        let k = m - 1;
        lemma_overrides_applied(params, defs, t, k);
        assert(params.take(m).drop_last() =~= params.take(k));
        let ov = overrides(params.take(k), defs);
        let prev = params.take(k) + defaults(defs).skip(k);
        if params[k] != defs[k].default {
            assert(overrides(params.take(m), defs) == ov.push((defs[k].name@, params[k])));
            assert(ov.push((defs[k].name@, params[k])).drop_last() =~= ov);
            lemma_param_index_found(defs, k);
            assert(prev.update(k, params[k]) =~= params.take(m) + defaults(defs).skip(m));
        } else {
            assert(overrides(params.take(m), defs) == ov);
            assert(prev =~= params.take(m) + defaults(defs).skip(m));
        }
    }
}

proof fn lemma_imported_exported(g: Graph<BrushWireType>, registry: BrushNodeRegistry, k: int)
    requires
        g.wf(),
        import_shaped(g, registry),
        0 <= k <= g.nodes@.len(),
    ensures
        imported_nodes(exported_nodes(g, registry).take(k), registry) == Ok::<Seq<NodeView<BrushWireType>>, Seq<char>>(
            g.nodes@.take(k),
        ),
    decreases k,
{
    let pn = exported_nodes(g, registry);
    if k == 0 {
        assert(pn.take(0) =~= Seq::<PortableNodeView>::empty());
        assert(g.nodes@.take(0) =~= Seq::<NodeView<BrushWireType>>::empty());
    } else {
        let m = k - 1;
        lemma_imported_exported(g, registry, m);
        assert(pn.take(k).drop_last() =~= pn.take(m));
        assert(pn.take(k).last() == pn[m]);
        let n = g.nodes@[m];
        assert(n.id == NodeId(m as u64));
        let reg = registry.lookup(n.type_id)->Some_0;
        let prior = node_ids(pn.take(m));
        assert forall|i: int| 0 <= i < prior.len() implies prior[i] != pn[m].0 by {
            assert(prior[i] == pn[i].0);
            assert(node_key(g.nodes@, i) != node_key(g.nodes@, m));
        }
        lemma_id_index_absent(prior, pn[m].0);
        lemma_overrides_applied(n.params, reg.params@, n.type_id, n.params.len() as int);
        assert(n.params.take(n.params.len() as int) =~= n.params);
        assert(n.params.take(n.params.len() as int) + defaults(reg.params@).skip(n.params.len() as int) =~= n.params);
        assert(g.nodes@.take(m).len() == m);
        assert(NodeView { id: NodeId(m as u64), type_id: n.type_id, comment: n.comment, ports: reg.ports@, params: n.params } == n);
        assert(g.nodes@.take(k) =~= g.nodes@.take(m).push(n));
    }
}

proof fn lemma_drop_into_view_none(ws: Seq<WireView>, node: NodeId, port: Seq<char>)
    requires
        forall|i: int| 0 <= i < ws.len() ==> !((#[trigger] ws[i]).2 == node && ws[i].3 == port),
    ensures
        drop_into_view(ws, node, port) == ws,
    decreases ws.len(),
{
    if ws.len() > 0 {
        assert(ws.last() == ws[ws.len() - 1]);
        lemma_drop_into_view_none(ws.drop_last(), node, port);
        assert(ws.drop_last().push(ws.last()) =~= ws);
    }
}

proof fn lemma_position_found(nodes: Seq<NodeView<BrushWireType>>, id: NodeId, m: int)
    requires
        0 <= m < nodes.len(),
        nodes[m].id == id,
        forall|k: int| 0 <= k < m ==> (#[trigger] nodes[k]).id != id,
    ensures
        position_of(nodes, id) == m,
    decreases m,
{
    if m > 0 {
        assert forall|k: int| 0 <= k < m - 1 implies (#[trigger] nodes.drop_first()[k]).id != id by {
            assert(nodes.drop_first()[k] == nodes[k + 1]);
        }
        lemma_position_found(nodes.drop_first(), id, m - 1);
    }
}

/// The id of a wire end of a graph in import shape is found at its number
/// among the exported ids.
proof fn lemma_end_found(g: Graph<BrushWireType>, registry: BrushNodeRegistry, id: NodeId)
    requires
        g.wf(),
        import_shaped(g, registry),
        holds_id(g.nodes@, id),
    ensures
        id.0 < g.nodes@.len(),
        id_index(node_ids(exported_nodes(g, registry)), key_of(g.nodes@, id)) == Some(id.0 as int),
{
    let pn = exported_nodes(g, registry);
    let ids = node_ids(pn);
    let i = choose|i: int| 0 <= i < g.nodes@.len() && (#[trigger] g.nodes@[i]).id == id;
    assert(g.nodes@[i].id == NodeId(i as u64));
    assert forall|k: int| 0 <= k < i implies (#[trigger] g.nodes@[k]).id != id by {
        assert(g.nodes@[k].id == NodeId(k as u64));
    }
    lemma_position_found(g.nodes@, id, i);
    assert(ids[i] == pn[i].0);
    assert forall|x: int| 0 <= x < i implies ids[x] != key_of(g.nodes@, id) by {
        assert(ids[x] == pn[x].0);
        assert(node_key(g.nodes@, x) != node_key(g.nodes@, i));
    }
    lemma_id_index_found(ids, key_of(g.nodes@, id), i);
}

proof fn lemma_wired_exported(g: Graph<BrushWireType>, registry: BrushNodeRegistry, j: int)
    requires
        g.wf(),
        import_shaped(g, registry),
        0 <= j <= g.connections@.len(),
    ensures
        wired(
            g.nodes@,
            node_ids(exported_nodes(g, registry)),
            g.connections@.map_values(|c: Connection| exported_connection(g.nodes@, c)).take(j),
        ) == Ok::<Seq<WireView>, Seq<char>>(g.connections@.take(j).map_values(|c: Connection| wire_view(c))),
    decreases j,
{
    let cs = g.connections@;
    let ev = cs.map_values(|c: Connection| exported_connection(g.nodes@, c));
    if j == 0 {
        assert(ev.take(0) =~= Seq::<ConnectionView>::empty());
        assert(cs.take(0).map_values(|c: Connection| wire_view(c)) =~= Seq::<WireView>::empty());
    } else {
        let m = j - 1;
        lemma_wired_exported(g, registry, m);
        assert(ev.take(j).drop_last() =~= ev.take(m));
        assert(ev.take(j).last() == exported_connection(g.nodes@, cs[m]));
        let c = cs[m];
        lemma_end_found(g, registry, c.from.node);
        lemma_end_found(g, registry, c.to.node);
        let ws = cs.take(m).map_values(|c: Connection| wire_view(c));
        assert forall|i: int| 0 <= i < ws.len() implies !((#[trigger] ws[i]).2 == c.to.node && ws[i].3 == c.to.port@) by {
            assert(ws[i] == wire_view(cs[i]));
        }
        lemma_drop_into_view_none(ws, c.to.node, c.to.port@);
        assert(cs.take(j).map_values(|c: Connection| wire_view(c)) =~= ws.push(wire_view(c)));
    }
}

/// A graph in the shape an import gives reads back from its portable form
/// as it was: importing the nodes it exports gives its nodes, and wiring
/// the connections it exports gives its wires, in order.
pub proof fn portable_round_trip(g: Graph<BrushWireType>, registry: BrushNodeRegistry)
    requires
        g.wf(),
        import_shaped(g, registry),
    ensures
        imported_nodes(sorted_nodes(exported_nodes(g, registry)), registry) == Ok::<Seq<NodeView<BrushWireType>>, Seq<char>>(g.nodes@),
        wired(
            g.nodes@,
            node_ids(sorted_nodes(exported_nodes(g, registry))),
            sorted_connections(g.connections@.map_values(|c: Connection| exported_connection(g.nodes@, c))),
        ) == Ok::<Seq<WireView>, Seq<char>>(g.connections@.map_values(|c: Connection| wire_view(c))),
        sorted_wires(g.nodes@, g.connections@.map_values(|c: Connection| wire_view(c))) == g.connections@.map_values(
            |c: Connection| wire_view(c),
        ),
{
    let wv = g.connections@.map_values(|c: Connection| wire_view(c));
    assert forall|i: int, j: int| 0 <= i < j < wv.len() implies conn_le(wire_key(g.nodes@, #[trigger] wv[i]), wire_key(g.nodes@, #[trigger] wv[j])) by {
        let ev = g.connections@.map_values(|c: Connection| exported_connection(g.nodes@, c));
        assert(ev[i] == wire_key(g.nodes@, wv[i]) && ev[j] == wire_key(g.nodes@, wv[j]));
    }
    lemma_sorted_wires_keep_order(g.nodes@, wv);
    lemma_sorted_nodes_keep_order(exported_nodes(g, registry));
    lemma_imported_exported(g, registry, g.nodes@.len() as int);
    assert(exported_nodes(g, registry).take(g.nodes@.len() as int) =~= exported_nodes(g, registry));
    assert(g.nodes@.take(g.nodes@.len() as int) =~= g.nodes@);
    let ev = g.connections@.map_values(|c: Connection| exported_connection(g.nodes@, c));
    lemma_sorted_connections_keep_order(ev);
    lemma_wired_exported(g, registry, g.connections@.len() as int);
    assert(ev.take(ev.len() as int) =~= ev);
    assert(g.connections@.take(g.connections@.len() as int) =~= g.connections@);
}

/// Exporting a graph in the shape an import gives, importing that export
/// and exporting again gives the first export: the portable form of such a
/// graph re-exports identically. `p` is the first export, `g2` the graph
/// [`PortableBrush::into_graph`] makes of it.
pub proof fn reexport_is_identical(g: Graph<BrushWireType>, registry: BrushNodeRegistry, p: PortableBrush, g2: Graph<BrushWireType>)
    requires
        g.wf(),
        import_shaped(g, registry),
        nodes_view(p.nodes@) == sorted_nodes(exported_nodes(g, registry)),
        connections_view(p.connections@) == sorted_connections(
            g.connections@.map_values(|c: Connection| exported_connection(g.nodes@, c)),
        ),
        graph_is(g2, portable_import(p, registry)->Ok_0.0, portable_import(p, registry)->Ok_0.1),
    ensures
        portable_import(p, registry) is Ok,
        sorted_nodes(exported_nodes(g2, registry)) == nodes_view(p.nodes@),
        sorted_connections(g2.connections@.map_values(|c: Connection| exported_connection(g2.nodes@, c)))
            == connections_view(p.connections@),
{
    let ev = exported_nodes(g, registry);
    lemma_sorted_nodes_sorted(ev);
    lemma_sorted_nodes_keep_order(sorted_nodes(ev));
    portable_round_trip(g, registry);
    let wv = g.connections@.map_values(|c: Connection| wire_view(c));
    assert(portable_import(p, registry) == Ok::<(Seq<NodeView<BrushWireType>>, Seq<WireView>), Seq<char>>((g.nodes@, wv)));
    assert(exported_nodes(g2, registry) =~= ev);
    let e1 = g.connections@.map_values(|c: Connection| exported_connection(g.nodes@, c));
    let e2 = g2.connections@.map_values(|c: Connection| exported_connection(g2.nodes@, c));
    let wv2 = g2.connections@.map_values(|c: Connection| wire_view(c));
    assert(wv2 == wv);
    assert forall|k: int| 0 <= k < e1.len() implies #[trigger] e2[k] == e1[k] by {
        assert(wv2[k] == wv[k]);
        assert(wire_view(g2.connections@[k]) == wire_view(g.connections@[k]));
    }
    assert(e2 =~= e1);
}

/// A brush survives a round trip through its portable form: the export of
/// a brush whose graph is in the shape an import gives imports again, and
/// the brush it imports to has the first brush's name, description, author,
/// tags and stabilizer, and its graph's nodes and wires.
pub proof fn brush_round_trip(brush: BrushMetadata, registry: BrushNodeRegistry, p: PortableBrush, id: Seq<char>, b: BrushMetadata)
    requires
        brush.graph.wf(),
        import_shaped(brush.graph, registry),
        exported_brush(brush, registry, p),
    ensures
        portable_import(p, registry) is Ok,
        imported_brush(p, registry, id, b) ==> {
            &&& b.name@ == brush.name@
            &&& b.description@ == brush.description@
            &&& b.author@ == brush.author@
            &&& strings_view(b.tags@) == strings_view(brush.tags@)
            &&& b.stabilizer.algorithm@ == brush.stabilizer.algorithm@
            &&& b.stabilizer.params@ == brush.stabilizer.params@
            &&& b.graph.nodes@ == brush.graph.nodes@
            &&& b.graph.connections@.map_values(|c: Connection| wire_view(c)) == brush.graph.connections@.map_values(
                |c: Connection| wire_view(c),
            )
        },
{
    let g = brush.graph;
    let ev = exported_nodes(g, registry);
    lemma_sorted_nodes_sorted(ev);
    lemma_sorted_nodes_keep_order(sorted_nodes(ev));
    portable_round_trip(g, registry);
    let wv = g.connections@.map_values(|c: Connection| wire_view(c));
    assert(portable_import(p, registry) == Ok::<(Seq<NodeView<BrushWireType>>, Seq<WireView>), Seq<char>>((g.nodes@, wv)));
    if imported_brush(p, registry, id, b) && brush.stabilizer.is_default() {
        assert(b.stabilizer.algorithm@ =~= brush.stabilizer.algorithm@);
        assert(b.stabilizer.params@ =~= brush.stabilizer.params@);
    }
}

} // verus!
