//! Per-node compile naming, the graph's texture-slot list, and the
//! shader-variant tag.

use vstd::prelude::*;

use crate::brush::texture_source::ResolvedSource;
use crate::nodegraph::NodeId;
use crate::text::{concat3, decimal, decimal_string, owned, str_eq};

verus! {

/// Which of the two compiled shader variants is being assembled.
///
/// The upstream graph contributes the same per-fragment expressions in both
/// modes; only the outer skeleton differs. `Stroke` is the instanced
/// quad-per-dab stage with the selection texture and terminal bindings;
/// `CursorPreview` is a single quad with the selection hard-coded to one and
/// no terminal bindings.
#[derive(Copy, Clone, Debug, Eq, PartialEq, Structural)]
pub enum ShaderMode {
    Stroke,
    CursorPreview,
}

/// `base` suffixed with node `id`, so per-node WGSL symbols of two
/// instances of one node type do not collide: `<base>_<id>`.
pub fn ident(id: NodeId, base: &str) -> (r: String)
    ensures
        r@ == base@ + "_"@ + decimal(id.0 as nat),
{
    concat3(base, "_", decimal_string(id.0).as_str())
}

/// The name of node `id`'s per-dab record field `base`: `n<id>_<base>`.
pub fn dab_field_name(id: NodeId, base: &str) -> (r: String)
    ensures
        r@ == "n"@ + decimal(id.0 as nat) + "_"@ + base@,
{
    let mut r = concat3("n", decimal_string(id.0).as_str(), "_");
    r.append(base);
    r
}

/// The name of node `id`'s uniform field `base`: `n<id>_<base>`.
pub fn uniform_field_name(id: NodeId, base: &str) -> (r: String)
    ensures
        r@ == "n"@ + decimal(id.0 as nat) + "_"@ + base@,
{
    dab_field_name(id, base)
}

/// Whether two slot sources are the same source: the same registry
/// texture name, or equal bake recipes.
pub open spec fn same_source(a: ResolvedSource, b: ResolvedSource) -> bool {
    match (a, b) {
        (ResolvedSource::Named(x), ResolvedSource::Named(y)) => x@ == y@,
        (ResolvedSource::Baked(p), ResolvedSource::Baked(q)) => p == q,
        _ => false,
    }
}

/// Whether `s` is the same source as `a` (executable).
fn same_source_exec(a: &ResolvedSource, b: &ResolvedSource) -> (r: bool)
    ensures
        r == same_source(*a, *b),
{
    match (a, b) {
        (ResolvedSource::Named(x), ResolvedSource::Named(y)) => str_eq(x.as_str(), y.as_str()),
        (ResolvedSource::Baked(p), ResolvedSource::Baked(q)) => p.kind == q.kind && p.channels == q.channels
            && p.resolution == q.resolution,
        _ => false,
    }
}

/// Whether `i` is the slot of the first source of `sources` that is the
/// same as `s`.
pub open spec fn first_slot(sources: Seq<ResolvedSource>, s: ResolvedSource, i: int) -> bool {
    &&& 0 <= i < sources.len()
    &&& same_source(sources[i], s)
    &&& forall|k: int| 0 <= k < i ==> !same_source(#[trigger] sources[k], s)
}

/// Whether some source of `sources` is the same as `s`.
pub open spec fn holds_source(sources: Seq<ResolvedSource>, s: ResolvedSource) -> bool {
    exists|i: int| 0 <= i < sources.len() && same_source(#[trigger] sources[i], s)
}

/// Whether requesting `s` on slot list `old` leaves `new` and returns slot
/// `slot`: the slot of the first equal source when one is held, else a new
/// slot at the end holding `s`.
pub open spec fn requested(old: Seq<ResolvedSource>, new: Seq<ResolvedSource>, s: ResolvedSource, slot: u32) -> bool {
    if holds_source(old, s) {
        &&& new == old
        &&& exists|i: int| first_slot(old, s, i) && slot == i as u32
    } else {
        &&& new == old.push(s)
        &&& slot == old.len() as u32
    }
}

/// The texture sources a graph's nodes request, each at the slot (binding
/// index) it was first requested at, each held once.
pub struct TextureSlots {
    sources: Vec<ResolvedSource>,
}

impl TextureSlots {
    /// The sources, by slot.
    pub closed spec fn view(&self) -> Seq<ResolvedSource> {
        self.sources@
    }

    /// No slot list at all yet.
    pub fn new() -> (t: Self)
        ensures
            t.view().len() == 0,
    {
        TextureSlots { sources: Vec::new() }
    }

    /// Reserve (or look up) the slot of `source`: a source equal to one
    /// already requested gets that one's slot, so a brush referencing a
    /// texture twice binds it once; a new source gets the next slot.
    pub fn request_source(&mut self, source: ResolvedSource) -> (slot: u32)
        ensures
            requested(old(self).view(), final(self).view(), source, slot),
    {
        let mut i: usize = 0;
        while i < self.sources.len()
            invariant
                i <= self.sources@.len(),
                self.sources@ == old(self).sources@,
                forall|k: int| 0 <= k < i ==> !same_source(#[trigger] self.sources@[k], source),
            decreases self.sources@.len() - i,
        {
            if same_source_exec(&self.sources[i], &source) {
                proof {
                    assert(first_slot(self.sources@, source, i as int));
                }
                return i as u32;
            }
            i = i + 1;
        }
        let slot = self.sources.len() as u32;
        self.sources.push(source);
        slot
    }

    /// Reserve (or look up) the slot of the registry texture `name`.
    pub fn request_texture(&mut self, name: &str) -> (slot: u32)
        ensures
            exists|s: ResolvedSource| s matches ResolvedSource::Named(n) && n@ == name@ && #[trigger] requested(
                old(self).view(),
                final(self).view(),
                s,
                slot,
            ),
    {
        let s = ResolvedSource::Named(owned(name));
        let ghost g = s;
        let slot = self.request_source(s);
        assert(requested(old(self).view(), self.view(), g, slot));
        slot
    }

    /// The sources, by slot.
    pub fn sources(&self) -> (r: &Vec<ResolvedSource>)
        ensures
            r@ == self.view(),
    {
        &self.sources
    }
}

/// Requesting a source twice gives the same slot and changes the list
/// only the first time.
pub proof fn requesting_again_reuses_the_slot(
    s0: Seq<ResolvedSource>,
    s1: Seq<ResolvedSource>,
    s2: Seq<ResolvedSource>,
    src: ResolvedSource,
    a: u32,
    b: u32,
)
    requires
        requested(s0, s1, src, a),
        requested(s1, s2, src, b),
    ensures
        s2 == s1,
        b == a,
        holds_source(s1, src),
{
    if holds_source(s0, src) {
        let i = choose|i: int| first_slot(s0, src, i) && a == i as u32;
        let j = choose|j: int| first_slot(s1, src, j) && b == j as u32;
        if i < j {
            assert(!same_source(s1[i], src));
        }
        if j < i {
            assert(!same_source(s0[j], src));
        }
    } else {
        let n = s0.len() as int;
        assert(same_source(s1[n], src)) by {
            match src {
                ResolvedSource::Named(x) => {},
                ResolvedSource::Baked(p) => {},
            }
        }
        assert(holds_source(s1, src));
        let j = choose|j: int| first_slot(s1, src, j) && b == j as u32;
        if j < n {
            assert(s1[j] == s0[j]);
            assert(holds_source(s0, src));
        }
    }
}

} // verus!
