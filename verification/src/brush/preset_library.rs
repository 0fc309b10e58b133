//! The in-memory library of brush presets, keyed by preset name.
//!
//! Each name is held at most once: inserting a preset under a name already
//! held replaces that preset. Listing gives one summary per preset, ordered
//! by name.

use vstd::prelude::*;

use crate::brush::preset::{BrushPreset, PresetBundle, archive_write_error, preset_entries};
use crate::archive::{distinct_paths, entries_fit, found, zip_lookup};
use crate::brush::wire::BrushWireType;
use crate::nodegraph::Graph;
use crate::text::{chars_of, concat2, concat3, lex_le, string_of_chars, lemma_lex_antisym, lemma_lex_total, lemma_lex_trans, str_eq, str_le};

verus! {

/// Summary of a preset, for listing without the graph.
#[derive(Clone, Debug)]
pub struct PresetInfo {
    pub name: String,
    pub category: String,
    pub author: String,
    pub description: String,
    pub tags: Vec<String>,
}

/// Whether `info` summarizes preset `p`.
pub open spec fn summarizes(info: PresetInfo, p: BrushPreset) -> bool {
    &&& info.name == p.name
    &&& info.category == p.category
    &&& info.author == p.author
    &&& info.description == p.description
    &&& info.tags@ == p.tags@
}

impl PresetInfo {
    /// The summary of `p`.
    pub fn from_preset(p: &BrushPreset) -> (r: Self)
        ensures
            summarizes(r, *p),
    {
        let tags = p.tags.clone();
        assert(tags@ =~= p.tags@);
        PresetInfo {
            name: p.name.clone(),
            category: p.category.clone(),
            author: p.author.clone(),
            description: p.description.clone(),
            tags,
        }
    }
}

/// Whether `a` orders strictly before `b`, by code point.
pub open spec fn lex_lt(a: Seq<char>, b: Seq<char>) -> bool {
    lex_le(a, b) && a != b
}

/// Whether no two of `bundles` share a preset name.
pub open spec fn distinct_names(bundles: Seq<PresetBundle>) -> bool {
    forall|i: int, j: int|
        0 <= i < bundles.len() && 0 <= j < bundles.len() && i != j ==> (#[trigger] bundles[i]).preset.name@
            != (#[trigger] bundles[j]).preset.name@
}

/// Whether one of `bundles` is named `name`.
pub open spec fn holds_name(bundles: Seq<PresetBundle>, name: Seq<char>) -> bool {
    exists|i: int| 0 <= i < bundles.len() && (#[trigger] bundles[i]).preset.name@ == name
}

/// The message for a preset the library does not hold.
pub open spec fn not_found_error(name: Seq<char>) -> Seq<char> {
    "preset '"@ + name + "' not found"@
}


/// Whether the summaries of `r` are in strictly increasing name order.
pub open spec fn sorted_by_name(r: Seq<PresetInfo>) -> bool {
    forall|a: int, b: int| 0 <= a < b < r.len() ==> lex_lt((#[trigger] r[a]).name@, (#[trigger] r[b]).name@)
}

/// Inserting `x` after every name before it and before every other name
/// keeps the order.
proof fn lemma_insert_sorted(before: Seq<PresetInfo>, p: int, x: PresetInfo)
    requires
        0 <= p <= before.len(),
        sorted_by_name(before),
        forall|a: int| 0 <= a < p ==> lex_lt((#[trigger] before[a]).name@, x.name@),
        forall|a: int| 0 <= a < before.len() ==> (#[trigger] before[a]).name@ != x.name@,
        p < before.len() ==> lex_le(x.name@, before[p].name@),
    ensures
        sorted_by_name(before.insert(p, x)),
{
    let r = before.insert(p, x);
    assert forall|a: int, b: int| 0 <= a < b < r.len() implies lex_lt((#[trigger] r[a]).name@, (#[trigger] r[b]).name@) by {
        if b < p {
            assert(r[a] == before[a] && r[b] == before[b]);
        } else if b == p {
            assert(r[a] == before[a]);
        } else if a < p {
            assert(r[a] == before[a] && r[b] == before[b - 1]);
            if b - 1 > p {
                assert(lex_lt(before[p].name@, before[b - 1].name@));
                lemma_lex_trans(x.name@, before[p].name@, before[b - 1].name@);
            }
            lemma_lex_trans(before[a].name@, x.name@, before[b - 1].name@);
            if before[a].name@ == before[b - 1].name@ {
                lemma_lex_antisym(before[a].name@, x.name@);
            }
        } else if a == p {
            assert(r[b] == before[b - 1]);
            if b - 1 > p {
                assert(lex_lt(before[p].name@, before[b - 1].name@));
                lemma_lex_trans(x.name@, before[p].name@, before[b - 1].name@);
                if x.name@ == before[b - 1].name@ {
                    lemma_lex_antisym(x.name@, before[p].name@);
                }
            }
        } else {
            assert(r[a] == before[a - 1] && r[b] == before[b - 1]);
        }
    }
}

/// Whether the summaries `r` are one for one with the presets of `es`:
/// each summarizes one of them, and each has one.
pub open spec fn covers(r: Seq<PresetInfo>, es: Seq<PresetBundle>) -> bool {
    &&& forall|a: int| 0 <= a < r.len() ==> exists|k: int| 0 <= k < es.len() && summarizes(#[trigger] r[a], es[k].preset)
    &&& forall|k: int| 0 <= k < es.len() ==> exists|a: int| 0 <= a < r.len() && summarizes(r[a], (#[trigger] es[k]).preset)
}

/// Inserting the summary of one more preset keeps the cover.
proof fn lemma_insert_covers(before: Seq<PresetInfo>, p: int, x: PresetInfo, es: Seq<PresetBundle>, e: PresetBundle)
    requires
        0 <= p <= before.len(),
        summarizes(x, e.preset),
        covers(before, es),
    ensures
        covers(before.insert(p, x), es.push(e)),
{
    let r = before.insert(p, x);
    let es2 = es.push(e);
    assert forall|a: int| 0 <= a < r.len() implies exists|k: int| 0 <= k < es2.len() && summarizes(#[trigger] r[a], es2[k].preset) by {
        if a < p {
            assert(r[a] == before[a]);
            let k = choose|k: int| 0 <= k < es.len() && summarizes(before[a], es[k].preset);
            assert(es2[k] == es[k]);
        } else if a == p {
            assert(es2[es.len() as int] == e);
        } else {
            assert(r[a] == before[a - 1]);
            let k = choose|k: int| 0 <= k < es.len() && summarizes(before[a - 1], es[k].preset);
            assert(es2[k] == es[k]);
        }
    }
    assert forall|k: int| 0 <= k < es2.len() implies exists|a: int| 0 <= a < r.len() && summarizes(r[a], (#[trigger] es2[k]).preset) by {
        if k < es.len() {
            assert(es2[k] == es[k]);
            let a = choose|a: int| 0 <= a < before.len() && summarizes(before[a], es[k].preset);
            if a < p {
                assert(r[a] == before[a]);
            } else {
                assert(r[a + 1] == before[a]);
            }
        } else {
            assert(r[p] == x);
        }
    }
}


/// `c`, or `_` when it is a path separator or a character file systems
/// refuse in names.
pub open spec fn safe_char(c: char) -> char {
    if c == '/' || c == '\\' || c == ':' || c == '*' || c == '?' || c == '"' || c == '<' || c == '>'
        || c == '|' {
        '_'
    } else {
        c
    }
}

/// `name` with every unsafe character replaced by `_`.
pub open spec fn sanitized(name: Seq<char>) -> Seq<char> {
    name.map_values(|c: char| safe_char(c))
}

/// The file name the preset `name` is saved under.
pub open spec fn preset_file_name(name: Seq<char>) -> Seq<char> {
    sanitized(name) + ".darkly-brush"@
}

/// `name` made safe to use as a file name.
pub fn sanitize_filename(name: &str) -> (r: String)
    ensures
        r@ == sanitized(name@),
{
    let chars = chars_of(name);
    let mut out: Vec<char> = Vec::new();
    let mut i: usize = 0;
    while i < chars.len()
        invariant
            i <= chars@.len(),
            chars@ == name@,
            out@ == sanitized(name@.take(i as int)),
        decreases chars@.len() - i,
    {
        let c = chars[i];
        let d = if c == '/' || c == '\\' || c == ':' || c == '*' || c == '?' || c == '"' || c == '<'
            || c == '>' || c == '|' {
            '_'
        } else {
            c
        };
        out.push(d);
        assert(sanitized(name@.take(i + 1)) =~= sanitized(name@.take(i as int)).push(safe_char(c)));
        i = i + 1;
    }
    assert(name@.take(name@.len() as int) =~= name@);
    string_of_chars(&out)
}


/// Whether `new` is `old` with `b` added: in place of the preset of the same
/// name when `old` holds one, else at the end.
pub open spec fn inserted(old: Seq<PresetBundle>, new: Seq<PresetBundle>, b: PresetBundle) -> bool {
    &&& holds_name(old, b.preset.name@) ==> exists|i: int|
        0 <= i < old.len() && old[i].preset.name@ == b.preset.name@ && new == old.update(i, b)
    &&& !holds_name(old, b.preset.name@) ==> new == old.push(b)
}

/// After an insertion the library holds exactly one preset of the inserted
/// name, the inserted one; presets of every other name are as they were,
/// at the same positions.
pub proof fn insert_then_lookup(old: Seq<PresetBundle>, new: Seq<PresetBundle>, b: PresetBundle)
    requires
        distinct_names(old),
        inserted(old, new, b),
    ensures
        distinct_names(new),
        holds_name(new, b.preset.name@),
        forall|i: int| 0 <= i < new.len() && (#[trigger] new[i]).preset.name@ == b.preset.name@ ==> new[i] == b,
        forall|i: int| 0 <= i < old.len() && (#[trigger] old[i]).preset.name@ != b.preset.name@ ==> new[i] == old[i],
        forall|n: Seq<char>| n != b.preset.name@ ==> (holds_name(new, n) <==> holds_name(old, n)),
        new.len() == if holds_name(old, b.preset.name@) { old.len() } else { old.len() + 1 },
{
    if holds_name(old, b.preset.name@) {
        let i = choose|i: int| 0 <= i < old.len() && old[i].preset.name@ == b.preset.name@ && new == old.update(i, b);
        assert(new[i] == b);
        assert forall|x: int, y: int| 0 <= x < new.len() && 0 <= y < new.len() && x != y implies (#[trigger] new[x]).preset.name@ != (#[trigger] new[y]).preset.name@ by {
            if x != i && y != i {
                assert(new[x] == old[x] && new[y] == old[y]);
            } else if x == i {
                assert(new[y] == old[y]);
            } else {
                assert(new[x] == old[x]);
            }
        }
        assert forall|k: int| 0 <= k < new.len() && (#[trigger] new[k]).preset.name@ == b.preset.name@ implies new[k] == b by {
            if k != i {
                assert(new[k] == old[k]);
            }
        }
        assert forall|n: Seq<char>| n != b.preset.name@ implies (holds_name(new, n) <==> holds_name(old, n)) by {
            if holds_name(new, n) {
                let k = choose|k: int| 0 <= k < new.len() && (#[trigger] new[k]).preset.name@ == n;
                assert(k != i);
                assert(old[k] == new[k]);
            }
            if holds_name(old, n) {
                let k = choose|k: int| 0 <= k < old.len() && (#[trigger] old[k]).preset.name@ == n;
                assert(k != i);
                assert(old[k] == new[k]);
            }
        }
    } else {
        assert(new[old.len() as int] == b);
        assert forall|x: int, y: int| 0 <= x < new.len() && 0 <= y < new.len() && x != y implies (#[trigger] new[x]).preset.name@ != (#[trigger] new[y]).preset.name@ by {
            if x < old.len() && y < old.len() {
                assert(new[x] == old[x] && new[y] == old[y]);
            } else if x < old.len() {
                assert(new[x] == old[x]);
            } else {
                assert(new[y] == old[y]);
            }
        }
        assert forall|k: int| 0 <= k < new.len() && (#[trigger] new[k]).preset.name@ == b.preset.name@ implies new[k] == b by {
            if k < old.len() {
                assert(new[k] == old[k]);
            }
        }
        assert forall|n: Seq<char>| n != b.preset.name@ implies (holds_name(new, n) <==> holds_name(old, n)) by {
            if holds_name(new, n) {
                let k = choose|k: int| 0 <= k < new.len() && (#[trigger] new[k]).preset.name@ == n;
                assert(k < old.len());
                assert(old[k] == new[k]);
            }
            if holds_name(old, n) {
                let k = choose|k: int| 0 <= k < old.len() && (#[trigger] old[k]).preset.name@ == n;
                assert(old[k] == new[k]);
            }
        }
    }
}

/// The in-memory library of presets.
pub struct PresetLibrary {
    presets: Vec<PresetBundle>,
}

impl PresetLibrary {
    /// The presets held, in the order they were first inserted.
    pub closed spec fn entries(&self) -> Seq<PresetBundle> {
        self.presets@
    }

    /// Well formed: no two presets share a name.
    pub open spec fn wf(&self) -> bool {
        distinct_names(self.entries())
    }

    /// An empty library.
    pub fn new() -> (lib: Self)
        ensures
            lib.wf(),
            lib.entries().len() == 0,
    {
        PresetLibrary { presets: Vec::new() }
    }

    /// Position of the preset named `name`, if held.
    fn index_of(&self, name: &str) -> (r: Option<usize>)
        ensures
            r is None <==> !holds_name(self.entries(), name@),
            r matches Some(i) ==> i < self.entries().len() && self.entries()[i as int].preset.name@ == name@,
    {
        let mut i: usize = 0;
        while i < self.presets.len()
            invariant
                i <= self.presets@.len(),
                forall|k: int| 0 <= k < i ==> (#[trigger] self.presets@[k]).preset.name@ != name@,
            decreases self.presets@.len() - i,
        {
            if str_eq(self.presets[i].preset.name.as_str(), name) {
                return Some(i);
            }
            i = i + 1;
        }
        None
    }

    /// A summary of every preset, ordered by name.
    #[verifier::rlimit(40)]
    #[verifier::spinoff_prover]
    pub fn list(&self) -> (r: Vec<PresetInfo>)
        requires
            self.wf(),
        ensures
            r@.len() == self.entries().len(),
            sorted_by_name(r@),
            covers(r@, self.entries()),
    {
        let es = &self.presets;
        let mut r: Vec<PresetInfo> = Vec::new();
        let mut j: usize = 0;
        while j < es.len()
            invariant
                j <= es@.len(),
                distinct_names(es@),
                es@ == self.presets@,
                r@.len() == j,
                sorted_by_name(r@),
                covers(r@, es@.take(j as int)),
            decreases es@.len() - j,
        {
            let info = PresetInfo::from_preset(&es[j].preset);
            // Every summary so far is of another preset, so of another name.
            proof {
                assert forall|a: int| 0 <= a < r@.len() implies (#[trigger] r@[a]).name@ != info.name@ by {
                    let k = choose|k: int| 0 <= k < es@.take(j as int).len() && summarizes(r@[a], es@.take(j as int)[k].preset);
                    assert(es@.take(j as int)[k] == es@[k]);
                    assert(es@[k].preset.name@ != es@[j as int].preset.name@);
                }
            }
            let mut p: usize = 0;
            while p < r.len() && !str_le(info.name.as_str(), r[p].name.as_str())
                invariant
                    p <= r@.len(),
                    forall|a: int| 0 <= a < p ==> lex_lt((#[trigger] r@[a]).name@, info.name@),
                    forall|a: int| 0 <= a < r@.len() ==> (#[trigger] r@[a]).name@ != info.name@,
                decreases r@.len() - p,
            {
                proof {
                    lemma_lex_total(info.name@, r@[p as int].name@);
                }
                p = p + 1;
            }
            let ghost before = r@;
            r.insert(p, info);
            proof {
                if p < before.len() {
                    assert(lex_le(info.name@, before[p as int].name@));
                }
                lemma_insert_sorted(before, p as int, info);
                lemma_insert_covers(before, p as int, info, es@.take(j as int), es@[j as int]);
                assert(es@.take(j + 1) =~= es@.take(j as int).push(es@[j as int]));
            }
            j = j + 1;
        }
        assert(es@.take(es@.len() as int) =~= es@);
        r
    }

    /// The preset named `name`, if held.
    pub fn get(&self, name: &str) -> (r: Option<&PresetBundle>)
        ensures
            r is None <==> !holds_name(self.entries(), name@),
            r matches Some(b) ==> exists|i: int|
                0 <= i < self.entries().len() && self.entries()[i] == *b && b.preset.name@ == name@,
    {
        match self.index_of(name) {
            Some(i) => Some(&self.presets[i]),
            None => None,
        }
    }

    /// The graph of the preset named `name`, if held.
    pub fn graph(&self, name: &str) -> (r: Option<&Graph<BrushWireType>>)
        ensures
            r is None <==> !holds_name(self.entries(), name@),
            r matches Some(g) ==> exists|i: int|
                0 <= i < self.entries().len() && self.entries()[i].preset.graph == *g
                    && self.entries()[i].preset.name@ == name@,
    {
        match self.index_of(name) {
            Some(i) => Some(&self.presets[i].preset.graph),
            None => None,
        }
    }

    /// Add `bundle`, replacing the preset of the same name if one is held.
    pub fn insert(&mut self, bundle: PresetBundle)
        requires
            old(self).wf(),
        ensures
            final(self).wf(),
            inserted(old(self).entries(), final(self).entries(), bundle),
    {
        let ghost b = bundle;
        match self.index_of(bundle.preset.name.as_str()) {
            Some(i) => {
                self.presets.set(i, bundle);
                proof {
                    assert forall|x: int, y: int|
                        0 <= x < self.presets@.len() && 0 <= y < self.presets@.len() && x != y implies (#[trigger] self.presets@[x]).preset.name@
                            != (#[trigger] self.presets@[y]).preset.name@ by {
                        if x != i && y != i {
                            assert(self.presets@[x] == old(self).presets@[x]);
                            assert(self.presets@[y] == old(self).presets@[y]);
                        } else if x == i {
                            assert(self.presets@[y] == old(self).presets@[y]);
                            assert(old(self).presets@[i as int].preset.name@ == b.preset.name@);
                        } else {
                            assert(self.presets@[x] == old(self).presets@[x]);
                            assert(old(self).presets@[i as int].preset.name@ == b.preset.name@);
                        }
                    }
                }
            },
            None => {
                self.presets.push(bundle);
                proof {
                    let n = old(self).presets@.len();
                    assert forall|x: int, y: int|
                        0 <= x < self.presets@.len() && 0 <= y < self.presets@.len() && x != y implies (#[trigger] self.presets@[x]).preset.name@
                            != (#[trigger] self.presets@[y]).preset.name@ by {
                        if x < n && y < n {
                            assert(self.presets@[x] == old(self).presets@[x]);
                            assert(self.presets@[y] == old(self).presets@[y]);
                        } else if x < n {
                            assert(self.presets@[x] == old(self).presets@[x]);
                        } else {
                            assert(self.presets@[y] == old(self).presets@[y]);
                        }
                    }
                }
            },
        }
    }

    /// Remove the preset named `name`; whether one was held.
    pub fn remove(&mut self, name: &str) -> (r: bool)
        requires
            old(self).wf(),
        ensures
            final(self).wf(),
            r == holds_name(old(self).entries(), name@),
            !holds_name(final(self).entries(), name@),
            !r ==> final(self).entries() == old(self).entries(),
            r ==> exists|i: int|
                0 <= i < old(self).entries().len() && old(self).entries()[i].preset.name@ == name@
                    && final(self).entries() == old(self).entries().remove(i),
    {
        match self.index_of(name) {
            Some(i) => {
                self.presets.remove(i);
                proof {
                    let o = old(self).presets@;
                    assert forall|x: int, y: int|
                        0 <= x < self.presets@.len() && 0 <= y < self.presets@.len() && x != y implies (#[trigger] self.presets@[x]).preset.name@
                            != (#[trigger] self.presets@[y]).preset.name@ by {
                        let ox = if x < i { x } else { x + 1 };
                        let oy = if y < i { y } else { y + 1 };
                        assert(self.presets@[x] == o[ox] && self.presets@[y] == o[oy]);
                    }
                    if holds_name(self.presets@, name@) {
                        let x = choose|x: int| 0 <= x < self.presets@.len() && (#[trigger] self.presets@[x]).preset.name@ == name@;
                        let ox = if x < i { x } else { x + 1 };
                        assert(self.presets@[x] == o[ox]);
                    }
                }
                true
            },
            None => false,
        }
    }

    /// Attach a baked preview image to the preset named `name`; whether one
    /// was held.
    pub fn set_thumbnail(&mut self, name: &str, png: Vec<u8>) -> (r: bool)
        requires
            old(self).wf(),
        ensures
            final(self).wf(),
            r == holds_name(old(self).entries(), name@),
            !r ==> final(self).entries() == old(self).entries(),
            r ==> exists|i: int|
                0 <= i < old(self).entries().len() && old(self).entries()[i].preset.name@ == name@
                    && final(self).entries().len() == old(self).entries().len()
                    && final(self).entries()[i].preset == old(self).entries()[i].preset
                    && final(self).entries()[i].resource_data == old(self).entries()[i].resource_data
                    && final(self).entries()[i].thumbnail_png == Some(png)
                    && forall|k: int| 0 <= k < old(self).entries().len() && k != i ==> #[trigger] final(self).entries()[k] == old(self).entries()[k],
    {
        match self.index_of(name) {
            Some(i) => {
                let mut bundle = self.presets.remove(i);
                bundle.thumbnail_png = Some(png);
                self.presets.insert(i, bundle);
                proof {
                    let o = old(self).presets@;
                    assert forall|k: int| 0 <= k < o.len() && k != i implies #[trigger] self.presets@[k] == o[k] by {
                    }
                    assert forall|x: int, y: int|
                        0 <= x < self.presets@.len() && 0 <= y < self.presets@.len() && x != y implies (#[trigger] self.presets@[x]).preset.name@
                            != (#[trigger] self.presets@[y]).preset.name@ by {
                        assert(self.presets@[x].preset.name@ == o[x].preset.name@);
                        assert(self.presets@[y].preset.name@ == o[y].preset.name@);
                    }
                }
                true
            },
            None => false,
        }
    }

    /// Add a preset read from an archive (the outcome of reading it): on
    /// success the preset is inserted and its name returned; a failed read
    /// is passed on unchanged.
    pub fn import_bytes(&mut self, loaded: Result<PresetBundle, String>) -> (r: Result<String, String>)
        requires
            old(self).wf(),
        ensures
            final(self).wf(),
            loaded is Err ==> (r matches Err(e) && e == loaded->Err_0) && final(self).entries() == old(self).entries(),
            loaded matches Ok(b) ==> (r matches Ok(n) && n == b.preset.name) && inserted(
                old(self).entries(),
                final(self).entries(),
                b,
            ),
    {
        match loaded {
            Ok(bundle) => {
                let name = bundle.preset.name.clone();
                self.insert(bundle);
                Ok(name)
            },
            Err(e) => Err(e),
        }
    }

    /// The archive of the preset named `name`, given the JSON its preset
    /// serializes to.
    pub fn export_bytes(&self, name: &str, preset_json: &str) -> (r: Result<Vec<u8>, String>)
        ensures
            !holds_name(self.entries(), name@) ==> (r matches Err(e) && e@ == not_found_error(name@)),
            holds_name(self.entries(), name@) ==> exists|i: int|
                0 <= i < self.entries().len() && self.entries()[i].preset.name@ == name@ && {
                    let b = self.entries()[i];
                    &&& (r is Ok ==> distinct_paths(preset_entries(b, preset_json@)))
                    &&& (distinct_paths(preset_entries(b, preset_json@)) && entries_fit(preset_entries(b, preset_json@))
                        ==> r is Ok)
                    &&& (r matches Ok(bytes) ==> forall|k: int|
                        0 <= k < preset_entries(b, preset_json@).len() ==> zip_lookup(
                            bytes@,
                            (#[trigger] preset_entries(b, preset_json@)[k]).0,
                        ) == found(preset_entries(b, preset_json@)[k].1))
                    &&& (r matches Err(e) ==> archive_write_error(e@))
                },
    {
        match self.index_of(name) {
            Some(i) => self.presets[i].to_bytes(preset_json),
            None => Err(concat3("preset '", name, "' not found")),
        }
    }

    /// What saving the preset named `name` to a directory writes: the file
    /// name (the sanitized preset name with the `.darkly-brush` extension)
    /// and the archive bytes, given the JSON the preset serializes to.
    pub fn save_to_directory(&self, name: &str, preset_json: &str) -> (r: Result<(String, Vec<u8>), String>)
        ensures
            !holds_name(self.entries(), name@) ==> (r matches Err(e) && e@ == not_found_error(name@)),
            r matches Ok(file) ==> file.0@ == preset_file_name(name@),
            holds_name(self.entries(), name@) ==> exists|i: int|
                0 <= i < self.entries().len() && self.entries()[i].preset.name@ == name@ && {
                    let b = self.entries()[i];
                    &&& (r is Ok ==> distinct_paths(preset_entries(b, preset_json@)))
                    &&& (distinct_paths(preset_entries(b, preset_json@)) && entries_fit(preset_entries(b, preset_json@))
                        ==> r is Ok)
                    &&& (r matches Ok(file) ==> forall|k: int|
                        0 <= k < preset_entries(b, preset_json@).len() ==> zip_lookup(
                            file.1@,
                            (#[trigger] preset_entries(b, preset_json@)[k]).0,
                        ) == found(preset_entries(b, preset_json@)[k].1))
                    &&& (r matches Err(e) ==> archive_write_error(e@))
                },
    {
        match self.index_of(name) {
            Some(i) => {
                let file = concat2(sanitize_filename(name).as_str(), ".darkly-brush");
                match self.presets[i].to_bytes(preset_json) {
                    Ok(bytes) => Ok((file, bytes)),
                    Err(e) => Err(e),
                }
            },
            None => Err(concat3("preset '", name, "' not found")),
        }
    }

    /// Number of presets held.
    pub fn len(&self) -> (n: usize)
        ensures
            n == self.entries().len(),
    {
        self.presets.len()
    }

    /// Whether no preset is held.
    pub fn is_empty(&self) -> (r: bool)
        ensures
            r == (self.entries().len() == 0),
    {
        self.presets.len() == 0
    }
}

impl Default for PresetLibrary {
    /// An empty library.
    fn default() -> (lib: Self)
        ensures
            lib.wf(),
            lib.entries().len() == 0,
    {
        PresetLibrary::new()
    }
}


} // verus!
