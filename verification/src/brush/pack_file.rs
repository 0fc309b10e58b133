//! The brush-pack archive: a pack, on disk and over the wire.
//!
//! Exporting a single brush produces a pack of one, so there is one format.
//! Layout:
//!
//! ```text
//! pack.json               manifest: pack identity and the entry list
//! brushes/<brushId>.json  one brush record per member, in member order
//! ```
//!
//! Entry paths are keyed by brush id, which is opaque and filename-safe by
//! construction. The JSON of the manifest and of each record is made and
//! parsed by the caller; this module frames and checks it.

use vstd::prelude::*;

use crate::archive::{
    distinct_paths, entries_fit, entry_views, found, read_entry, write_archive, zip_lookup, ArchiveErrorKind,
    ArchiveWriteError,
};
use crate::brush::pack::{pack_check, trims_to_empty, unit_result_view, validate_pack, BrushPack};
use crate::brush::stabilizer::StabilizerConfig;
use crate::brush::wire::BrushWireType;
use crate::nodegraph::Graph;
use crate::text::{all_whitespace, concat2, concat3, concat4, concat5, decimal, decimal_string, owned, str_eq};

verus! {

/// Tells a pack archive apart from any other zip that reaches the importer.
pub const FORMAT_TAG: &'static str = "darkly-brush";

/// Archive schema version. A mismatch is rejected, not upgraded.
pub const PACK_VERSION: u32 = 1;

/// Path of the manifest inside the archive.
pub const MANIFEST_PATH: &'static str = "pack.json";

/// A brush: its id, its describing metadata, its stabilizer and its graph.
#[derive(Debug)]
pub struct BrushMetadata {
    pub id: String,
    pub name: String,
    pub description: String,
    pub author: String,
    pub tags: Vec<String>,
    pub stabilizer: StabilizerConfig,
    pub graph: Graph<BrushWireType>,
}

impl BrushMetadata {
    /// The record of brush `id`, named `name`, drawn by `graph`, with no
    /// description, author or tags and the pass-through stabilizer.
    pub fn from_graph(id: &str, name: &str, graph: Graph<BrushWireType>) -> (m: Self)
        ensures
            m.id@ == id@,
            m.name@ == name@,
            m.graph == graph,
            m.description@.len() == 0,
            m.author@.len() == 0,
            m.tags@.len() == 0,
            m.stabilizer.is_default(),
    {
        BrushMetadata {
            id: owned(id),
            name: owned(name),
            description: String::new(),
            author: String::new(),
            tags: Vec::new(),
            stabilizer: StabilizerConfig::default(),
            graph,
        }
    }
}

/// The manifest at the root of a pack archive.
#[derive(Clone, Debug)]
pub struct PackManifest {
    pub format: String,
    pub version: u32,
    pub name: String,
    pub description: String,
    pub icon: String,
    pub primary: String,
    pub secondary: String,
    pub author: String,
    /// Entry paths of the member brushes, in the pack's member order.
    pub brushes: Vec<String>,
}

/// A pack and its brushes, as an archive carries them: no id (an importer
/// mints a fresh one) and no mutability (an imported pack is the painter's
/// own).
#[derive(Debug)]
pub struct PackFile {
    pub name: String,
    pub description: String,
    pub icon: String,
    pub primary: String,
    pub secondary: String,
    pub author: String,
    /// Member brushes, in the pack's member order.
    pub brushes: Vec<BrushMetadata>,
}

/// The archive path of the record of brush `id`.
pub open spec fn entry_path_of(id: Seq<char>) -> Seq<char> {
    "brushes/"@ + id + ".json"@
}

/// The entries of the archive of pack file `f` with manifest JSON
/// `manifest_json` and member records `records`: `pack.json`, then each
/// member's record at its path, in member order.
pub open spec fn pack_entries(f: PackFile, manifest_json: Seq<u8>, records: Seq<Vec<u8>>) -> Seq<(Seq<char>, Seq<u8>)> {
    seq![("pack.json"@, manifest_json)] + Seq::new(
        f.brushes@.len(),
        |k: int| (entry_path_of(f.brushes@[k].id@), records[k]@),
    )
}

/// The record paths of `brushes`, in order.
pub open spec fn record_paths(brushes: Seq<BrushMetadata>) -> Seq<Seq<char>> {
    brushes.map_values(|b: BrushMetadata| entry_path_of(b.id@))
}

/// What [`check_manifest`] decides, in the order it checks.
pub open spec fn manifest_check(m: PackManifest) -> Result<(), Seq<char>> {
    if m.format@ != FORMAT_TAG@ {
        Err("'"@ + m.name@ + "' is not a brush pack (format tag '"@ + m.format@ + "')"@)
    } else if m.version != PACK_VERSION {
        Err("brush pack '"@ + m.name@ + "' is version "@ + decimal(m.version as nat)
            + ", but this build reads version "@ + decimal(PACK_VERSION as nat))
    } else {
        pack_check(m.name@, m.icon@, m.primary@, m.secondary@)
    }
}

/// The message of a failed read of the manifest.
pub open spec fn manifest_read_error(f: (ArchiveErrorKind, Seq<char>)) -> Seq<char> {
    match f.0 {
        ArchiveErrorKind::Missing => "missing pack.json — not a brush pack"@,
        _ => "not a readable brush pack: "@ + f.1,
    }
}

/// The message of a failed read of the record at `path`.
pub open spec fn record_read_error(path: Seq<char>, f: (ArchiveErrorKind, Seq<char>)) -> Seq<char> {
    match f.0 {
        ArchiveErrorKind::Missing => "brush pack names '"@ + path + "', which the archive lacks"@,
        _ => "not a readable brush pack: "@ + f.1,
    }
}

/// What reading `pack.json` from the archive `archive` gives.
pub open spec fn manifest_read(archive: Seq<u8>) -> Result<Seq<u8>, Seq<char>> {
    match zip_lookup(archive, "pack.json"@) {
        Ok(data) => Ok(data),
        Err(f) => Err(manifest_read_error(f)),
    }
}

/// What reading the record at `path` from the archive `archive` gives.
pub open spec fn record_read(archive: Seq<u8>, path: Seq<char>) -> Result<Seq<u8>, Seq<char>> {
    match zip_lookup(archive, path) {
        Ok(data) => Ok(data),
        Err(f) => Err(record_read_error(path, f)),
    }
}

/// A read that gave `data`.
pub open spec fn read_ok(data: Seq<u8>) -> Result<Seq<u8>, Seq<char>> {
    Ok(data)
}

/// The view of a byte result.
pub open spec fn bytes_result(r: Result<Vec<u8>, String>) -> Result<Seq<u8>, Seq<char>> {
    match r {
        Ok(b) => Ok(b@),
        Err(e) => Err(e@),
    }
}

impl PackFile {
    /// The archive payload of `pack` and the brushes it names, already in
    /// member order (a member that could not be resolved is simply absent).
    pub fn new(pack: &BrushPack, brushes: Vec<BrushMetadata>) -> (f: Self)
        ensures
            f.name == pack.name,
            f.description == pack.description,
            f.icon == pack.icon,
            f.primary == pack.primary,
            f.secondary == pack.secondary,
            f.author@.len() == 0,
            f.brushes == brushes,
    {
        PackFile {
            name: pack.name.clone(),
            description: pack.description.clone(),
            icon: pack.icon.clone(),
            primary: pack.primary.clone(),
            secondary: pack.secondary.clone(),
            author: String::new(),
            brushes,
        }
    }

    /// The archive path of the record of brush `id`.
    pub fn entry_path(id: &str) -> (p: String)
        ensures
            p@ == entry_path_of(id@),
    {
        concat3("brushes/", id, ".json")
    }

    /// The manifest of this pack: format tag, version, identity, and the
    /// record paths in member order.
    pub fn manifest(&self) -> (m: PackManifest)
        ensures
            m.format@ == FORMAT_TAG@,
            m.version == PACK_VERSION,
            m.name == self.name,
            m.description == self.description,
            m.icon == self.icon,
            m.primary == self.primary,
            m.secondary == self.secondary,
            m.author == self.author,
            m.brushes@.map_values(|p: String| p@) == record_paths(self.brushes@),
    {
        let mut paths: Vec<String> = Vec::new();
        let mut i: usize = 0;
        while i < self.brushes.len()
            invariant
                i <= self.brushes@.len(),
                paths@.map_values(|p: String| p@) == record_paths(self.brushes@.take(i as int)),
            decreases self.brushes@.len() - i,
        {
            let ghost before = paths@;
            paths.push(PackFile::entry_path(self.brushes[i].id.as_str()));
            assert(paths@.map_values(|p: String| p@) =~= before.map_values(|p: String| p@).push(
                entry_path_of(self.brushes@[i as int].id@),
            ));
            assert(record_paths(self.brushes@.take(i + 1)) =~= record_paths(self.brushes@.take(i as int)).push(
                entry_path_of(self.brushes@[i as int].id@),
            ));
            i = i + 1;
        }
        assert(self.brushes@.take(self.brushes@.len() as int) =~= self.brushes@);
        PackManifest {
            format: owned(FORMAT_TAG),
            version: PACK_VERSION,
            name: self.name.clone(),
            description: self.description.clone(),
            icon: self.icon.clone(),
            primary: self.primary.clone(),
            secondary: self.secondary.clone(),
            author: self.author.clone(),
            brushes: paths,
        }
    }

    /// The archive of this pack, given the JSON of its manifest and of each
    /// brush record (in member order): the pack is validated first, then
    /// `pack.json` and each record at its path are written.
    pub fn to_bytes(&self, manifest_json: &[u8], records: &Vec<Vec<u8>>) -> (r: Result<Vec<u8>, String>)
        requires
            records@.len() == self.brushes@.len(),
        ensures
            pack_check(self.name@, self.icon@, self.primary@, self.secondary@) is Err ==> (r matches Err(e)
                && e@ == pack_check(self.name@, self.icon@, self.primary@, self.secondary@)->Err_0),
            r is Ok ==> pack_check(self.name@, self.icon@, self.primary@, self.secondary@) is Ok,
            r is Ok ==> zip_lookup(r->Ok_0@, "pack.json"@) == found(manifest_json@),
            r is Ok ==> forall|k: int|
                0 <= k < self.brushes@.len() ==> zip_lookup(
                    r->Ok_0@,
                    entry_path_of((#[trigger] self.brushes@[k]).id@),
                ) == found(records@[k]@),
            r matches Err(e) ==> pack_check(self.name@, self.icon@, self.primary@, self.secondary@) is Err
                || exists|m: Seq<char>| e@ == "failed to write pack archive: "@ + m,
            pack_check(self.name@, self.icon@, self.primary@, self.secondary@) is Ok && distinct_paths(
                pack_entries(*self, manifest_json@, records@),
            ) && entries_fit(pack_entries(*self, manifest_json@, records@)) ==> r is Ok,
    {
        if let Err(e) = validate_pack(
            self.name.as_str(),
            self.icon.as_str(),
            self.primary.as_str(),
            self.secondary.as_str(),
        ) {
            return Err(e);
        }
        let mut entries: Vec<(String, Vec<u8>)> = Vec::new();
        entries.push((owned(MANIFEST_PATH), vstd::slice::slice_to_vec(manifest_json)));
        let mut i: usize = 0;
        while i < self.brushes.len()
            invariant
                i <= self.brushes@.len(),
                records@.len() == self.brushes@.len(),
                entries@.len() == i + 1,
                entries@[0].0@ == "pack.json"@,
                entries@[0].1@ == manifest_json@,
                forall|k: int|
                    0 <= k < i ==> (#[trigger] entries@[k + 1]).0@ == entry_path_of(self.brushes@[k].id@)
                        && entries@[k + 1].1@ == records@[k]@,
            decreases self.brushes@.len() - i,
        {
            let path = PackFile::entry_path(self.brushes[i].id.as_str());
            let data = records[i].clone();
            assert(data@ =~= records@[i as int]@);
            entries.push((path, data));
            i = i + 1;
        }
        proof {
            let pe = pack_entries(*self, manifest_json@, records@);
            assert forall|k: int| 0 <= k < pe.len() implies entry_views(entries@)[k] == pe[k] by {
                if k > 0 {
                    assert(entries@[(k - 1) + 1] == entries@[k]);
                }
            }
            assert(entry_views(entries@) =~= pe);
        }
        match write_archive(&entries) {
            Ok(bytes) => {
                proof {
                    assert(zip_lookup(bytes@, entries@[0].0@) == found(entries@[0].1@));
                    assert forall|k: int| 0 <= k < self.brushes@.len() implies zip_lookup(
                        bytes@,
                        entry_path_of((#[trigger] self.brushes@[k]).id@),
                    ) == found(records@[k]@) by {
                        assert(zip_lookup(bytes@, entries@[k + 1].0@) == found(entries@[k + 1].1@));
                    }
                }
                Ok(bytes)
            },
            Err(ArchiveWriteError::Entry(e)) => Err(concat2("failed to write pack archive: ", e.as_str())),
            Err(ArchiveWriteError::Finish(e)) => Err(concat2("failed to write pack archive: ", e.as_str())),
        }
    }
}

/// The bytes of `pack.json` in the archive `archive`, to be parsed into a
/// [`PackManifest`].
pub fn read_pack_manifest(archive: &[u8]) -> (r: Result<Vec<u8>, String>)
    ensures
        bytes_result(r) == manifest_read(archive@),
{
    match read_entry(archive, MANIFEST_PATH) {
        Ok(data) => Ok(data),
        Err(e) => match e.kind {
            ArchiveErrorKind::Missing => Err(owned("missing pack.json — not a brush pack")),
            _ => Err(concat2("not a readable brush pack: ", e.message.as_str())),
        },
    }
}

/// Check a parsed manifest: the format tag, then the version, then the pack
/// identity as [`validate_pack`] checks it.
pub fn check_manifest(m: &PackManifest) -> (r: Result<(), String>)
    ensures
        unit_result_view(r) == manifest_check(*m),
{
    if !str_eq(m.format.as_str(), FORMAT_TAG) {
        return Err(concat5("'", m.name.as_str(), "' is not a brush pack (format tag '", m.format.as_str(), "')"));
    }
    if m.version != PACK_VERSION {
        let v = decimal_string(m.version as u64);
        let supported = decimal_string(PACK_VERSION as u64);
        let head = concat4("brush pack '", m.name.as_str(), "' is version ", v.as_str());
        return Err(concat3(head.as_str(), ", but this build reads version ", supported.as_str()));
    }
    validate_pack(m.name.as_str(), m.icon.as_str(), m.primary.as_str(), m.secondary.as_str())
}

/// The bytes of the brush record at `path` in the archive `archive`, to be
/// parsed into a [`BrushMetadata`]. A manifest naming an entry the archive
/// lacks is a truncated file, and is refused.
pub fn read_pack_record(archive: &[u8], path: &str) -> (r: Result<Vec<u8>, String>)
    ensures
        bytes_result(r) == record_read(archive@, path@),
{
    match read_entry(archive, path) {
        Ok(data) => Ok(data),
        Err(e) => match e.kind {
            ArchiveErrorKind::Missing => Err(concat3("brush pack names '", path, "', which the archive lacks")),
            _ => Err(concat2("not a readable brush pack: ", e.message.as_str())),
        },
    }
}

/// Refuse a brush record with a blank id.
pub fn check_record_id(path: &str, id: &str) -> (r: Result<(), String>)
    ensures
        all_whitespace(id@) ==> (r matches Err(e) && e@ == "brush record '"@ + path@ + "' has no id"@),
        !all_whitespace(id@) ==> r is Ok,
{
    if trims_to_empty(id) {
        return Err(concat3("brush record '", path, "' has no id"));
    }
    Ok(())
}

/// A pack read back from its archive: the manifest's identity and the
/// brushes parsed from its records, in manifest order.
pub fn from_manifest(m: PackManifest, brushes: Vec<BrushMetadata>) -> (f: PackFile)
    ensures
        f.name == m.name,
        f.description == m.description,
        f.icon == m.icon,
        f.primary == m.primary,
        f.secondary == m.secondary,
        f.author == m.author,
        f.brushes == brushes,
{
    PackFile {
        name: m.name,
        description: m.description,
        icon: m.icon,
        primary: m.primary,
        secondary: m.secondary,
        author: m.author,
        brushes,
    }
}


/// The first failure among the first `k` of `records`, the member records
/// at `paths` each as read and parsed: a record that could not be read or
/// parsed fails with its error, one with a blank id with that refusal.
pub open spec fn records_failure(paths: Seq<Seq<char>>, records: Seq<Result<BrushMetadata, String>>, k: nat) -> Option<
    Seq<char>,
>
    decreases k,
{
    if k == 0 {
        None
    } else {
        match records_failure(paths, records, (k - 1) as nat) {
            Some(e) => Some(e),
            None => match records[k - 1] {
                Err(e) => Some(e@),
                Ok(b) => if all_whitespace(b.id@) {
                    Some("brush record '"@ + paths[k - 1] + "' has no id"@)
                } else {
                    None
                },
            },
        }
    }
}

/// The paths `v`, as values.
pub open spec fn paths_view(v: Seq<String>) -> Seq<Seq<char>> {
    v.map_values(|s: String| s@)
}

impl PackFile {
    /// The pack an archive holds, from its parsed manifest and its member
    /// records, `records[k]` being the record at the manifest's `k`-th path
    /// as read and parsed (or why that failed). The manifest is checked
    /// first; then the records in member order, the first one that could not
    /// be read or parsed, or whose id is blank, failing the whole pack.
    pub fn from_parsed(manifest: PackManifest, records: Vec<Result<BrushMetadata, String>>) -> (r: Result<PackFile, String>)
        requires
            records@.len() == manifest.brushes@.len(),
        ensures
            manifest_check(manifest) matches Err(e) ==> (r matches Err(m) && m@ == e),
            manifest_check(manifest) is Ok ==> match records_failure(
                paths_view(manifest.brushes@),
                records@,
                records@.len(),
            ) {
                Some(e) => r matches Err(m) && m@ == e,
                None => r matches Ok(f) && f.name == manifest.name && f.description == manifest.description && f.icon
                    == manifest.icon && f.primary == manifest.primary && f.secondary == manifest.secondary && f.author
                    == manifest.author && f.brushes@.len() == records@.len() && forall|k: int|
                    0 <= k < records@.len() ==> records@[k] == Ok::<BrushMetadata, String>(#[trigger] f.brushes@[k]),
            },
    {
        match check_manifest(&manifest) {
            Ok(()) => {},
            Err(e) => return Err(e),
        }
        let ghost all = records@;
        let ghost paths = paths_view(manifest.brushes@);
        let mut rest = records;
        let mut brushes: Vec<BrushMetadata> = Vec::new();
        let mut i: usize = 0;
        while i < manifest.brushes.len()
            invariant
                i <= all.len(),
                all.len() == manifest.brushes@.len(),
                paths == paths_view(manifest.brushes@),
                rest@ == all.skip(i as int),
                brushes@.len() == i,
                forall|k: int| 0 <= k < i ==> all[k] == Ok::<BrushMetadata, String>(#[trigger] brushes@[k]),
                records_failure(paths, all, i as nat) is None,
                manifest_check(manifest) is Ok,
                all == records@,
            decreases all.len() - i,
        {
            assert(rest@[0] == all[i as int]);
            let rec = rest.remove(0);
            assert(rest@ =~= all.skip(i + 1));
            match rec {
                Err(e) => {
                    assert(records_failure(paths, all, (i + 1) as nat) == Some(e@));
                    proof {
                        lemma_failure_stays(paths, all, (i + 1) as nat, all.len());
                    }
                    return Err(e);
                },
                Ok(b) => {
                    if trims_to_empty(b.id.as_str()) {
                        let e = concat3("brush record '", manifest.brushes[i].as_str(), "' has no id");
                        assert(paths[i as int] == manifest.brushes@[i as int]@);
                        assert(records_failure(paths, all, (i + 1) as nat) == Some(e@));
                        proof {
                            lemma_failure_stays(paths, all, (i + 1) as nat, all.len());
                        }
                        return Err(e);
                    }
                    brushes.push(b);
                },
            }
            i = i + 1;
        }
        Ok(from_manifest(manifest, brushes))
    }
}

/// Once some prefix of the records has failed, every longer one fails the
/// same way.
proof fn lemma_failure_stays(paths: Seq<Seq<char>>, records: Seq<Result<BrushMetadata, String>>, k: nat, n: nat)
    requires
        k <= n,
        records_failure(paths, records, k) is Some,
    ensures
        records_failure(paths, records, n) == records_failure(paths, records, k),
    decreases n - k,
{
    if k < n {
        lemma_failure_stays(paths, records, k, (n - 1) as nat);
    }
}

/// A pack loads back from its own manifest and its own brushes as the
/// parsed records: the manifest passes its check and no record fails, so
/// [`PackFile::from_parsed`] gives the pack's identity and its brushes in
/// member order; provided the identity validates and no brush id is blank.
///
/// The manifest hypotheses are what [`PackFile::manifest`] promises.
pub proof fn pack_load_round_trip(f: PackFile, m: PackManifest, records: Seq<Result<BrushMetadata, String>>)
    requires
        pack_check(f.name@, f.icon@, f.primary@, f.secondary@) is Ok,
        forall|k: int| 0 <= k < f.brushes@.len() ==> !all_whitespace((#[trigger] f.brushes@[k]).id@),
        m.format@ == FORMAT_TAG@,
        m.version == PACK_VERSION,
        m.name == f.name,
        m.icon == f.icon,
        m.primary == f.primary,
        m.secondary == f.secondary,
        records.len() == f.brushes@.len(),
        forall|k: int| 0 <= k < records.len() ==> #[trigger] records[k] == Ok::<BrushMetadata, String>(f.brushes@[k]),
    ensures
        manifest_check(m) is Ok,
        records_failure(paths_view(m.brushes@), records, records.len()) is None,
{
    lemma_no_failure(f, paths_view(m.brushes@), records, records.len());
}

proof fn lemma_no_failure(f: PackFile, paths: Seq<Seq<char>>, records: Seq<Result<BrushMetadata, String>>, k: nat)
    requires
        k <= records.len(),
        records.len() == f.brushes@.len(),
        forall|i: int| 0 <= i < f.brushes@.len() ==> !all_whitespace((#[trigger] f.brushes@[i]).id@),
        forall|i: int| 0 <= i < records.len() ==> #[trigger] records[i] == Ok::<BrushMetadata, String>(f.brushes@[i]),
    ensures
        records_failure(paths, records, k) is None,
    decreases k,
{
    if k > 0 {
        lemma_no_failure(f, paths, records, (k - 1) as nat);
        assert(records[k - 1] == Ok::<BrushMetadata, String>(f.brushes@[k - 1]));
    }
}

/// Reading back an archive written by [`PackFile::to_bytes`] gives the
/// manifest JSON it was given and, at each member's record path, that
/// member's record JSON: the pack's members survive, in member order.
///
/// The hypotheses are what `to_bytes` promises of the bytes it returns.
pub proof fn pack_archive_round_trip(f: PackFile, manifest_json: Seq<u8>, records: Seq<Vec<u8>>, bytes: Seq<u8>)
    requires
        records.len() == f.brushes@.len(),
        zip_lookup(bytes, "pack.json"@) == found(manifest_json),
        forall|k: int|
            0 <= k < f.brushes@.len() ==> zip_lookup(bytes, entry_path_of((#[trigger] f.brushes@[k]).id@))
                == found(records[k]@),
    ensures
        manifest_read(bytes) == read_ok(manifest_json),
        forall|k: int|
            0 <= k < f.brushes@.len() ==> record_read(bytes, record_paths(f.brushes@)[k]) == read_ok((#[trigger] records[k])@),
{
    assert forall|k: int| 0 <= k < f.brushes@.len() implies record_read(bytes, record_paths(f.brushes@)[k]) == read_ok((#[trigger] records[k])@) by {
        assert(record_paths(f.brushes@)[k] == entry_path_of(f.brushes@[k].id@));
    }
}

} // verus!
