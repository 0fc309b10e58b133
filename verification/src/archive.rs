//! Zip archives held in memory: the container of presets and brush packs.
//!
//! The `zip` crate does the encoding; this module gives its calls the
//! contracts the rest of the library reasons with. An archive is read back
//! by entry path, and what reading gives is named by [`zip_lookup`]; an
//! archive being written is a list of entries, named by [`zip_written`].

use vstd::prelude::*;

use std::io::{Cursor, Read, Write};

use crate::text::{owned, utf8_len};

verus! {

/// An archive being written into an in-memory buffer. The zip crate's
/// writer is generic over `Write + Seek`, bounds Verus does not take, so it
/// is held here out of Verus's sight; [`zip_written`] names what it holds.
#[verifier::external_body]
pub struct ArchiveWriter {
    inner: zip::ZipWriter<Cursor<Vec<u8>>>,
}

/// Why an entry could not be read from an archive.
#[derive(Clone, Copy, Debug, PartialEq, Eq, Structural)]
pub enum ArchiveErrorKind {
    /// The bytes are not a readable zip archive.
    NotArchive,
    /// The entry at the path could not be opened: the archive has none
    /// there, or the zip crate cannot open the one it has (encrypted, or
    /// compressed by an unsupported method).
    Missing,
    /// The entry is there but its data could not be read.
    Unreadable,
}

/// A failed read of an archive entry, with the zip crate's description.
#[derive(Clone, Debug)]
pub struct ArchiveError {
    pub kind: ArchiveErrorKind,
    pub message: String,
}

/// What reading the entry at `path` from the archive bytes `archive` gives:
/// the entry's data, or why it could not be read and the zip crate's
/// description of it.
pub uninterp spec fn zip_lookup(archive: Seq<u8>, path: Seq<char>) -> Result<Seq<u8>, (ArchiveErrorKind, Seq<char>)>;

/// The entries an archive being written holds so far: path and data, in the
/// order they were started.
pub uninterp spec fn zip_written(w: ArchiveWriter) -> Seq<(Seq<char>, Seq<u8>)>;

/// Whether the writer has an entry open for data: one was started and
/// nothing has closed it since.
pub uninterp spec fn zip_open(w: ArchiveWriter) -> bool;

/// Whether an entry path is short enough for the zip format's 16-bit name
/// length: at most 65535 bytes of UTF-8.
pub open spec fn path_fits(path: Seq<char>) -> bool {
    utf8_len(path) <= 0xFFFF
}

/// Whether an entry of `len` bytes is written without the zip crate's
/// large-file mode whatever deflate makes of it: under 2 GiB, so that even
/// the compressed form stays under the 4 GiB mark.
pub open spec fn data_fits(len: int) -> bool {
    len < 0x8000_0000
}

/// Whether the last entry of `written`, if any, holds data that fits.
pub open spec fn last_fits(written: Seq<(Seq<char>, Seq<u8>)>) -> bool {
    written.len() > 0 ==> data_fits(written.last().1.len() as int)
}

/// Whether some entry of `written` is at `path`.
pub open spec fn holds_path(written: Seq<(Seq<char>, Seq<u8>)>, path: Seq<char>) -> bool {
    exists|i: int| 0 <= i < written.len() && (#[trigger] written[i]).0 == path
}

/// Whether every entry's path and data fit.
pub open spec fn entries_fit(entries: Seq<(Seq<char>, Seq<u8>)>) -> bool {
    forall|i: int| 0 <= i < entries.len() ==> path_fits((#[trigger] entries[i]).0) && data_fits(entries[i].1.len() as int)
}

/// A read that found `data`.
pub open spec fn found(data: Seq<u8>) -> Result<Seq<u8>, (ArchiveErrorKind, Seq<char>)> {
    Ok(data)
}

/// The view of the outcome of a read.
pub open spec fn lookup_view(r: Result<Vec<u8>, ArchiveError>) -> Result<Seq<u8>, (ArchiveErrorKind, Seq<char>)> {
    match r {
        Ok(v) => Ok(v@),
        Err(e) => Err((e.kind, e.message@)),
    }
}

/// Whether no two entries of `entries` share a path.
pub open spec fn distinct_paths(entries: Seq<(Seq<char>, Seq<u8>)>) -> bool {
    forall|i: int, j: int| 0 <= i < entries.len() && 0 <= j < entries.len() && i != j ==> (#[trigger] entries[i]).0 != (#[trigger] entries[j]).0
}

/// `ZipArchive::by_name` on the archive `archive`, with the entry's data read
/// out in full. Opening the archive (`ZipArchive::new`) and reading the entry
/// (`Read::read_to_end`) only turn the bytes into the archive the lookup
/// needs and the entry it finds into bytes. The contract says the outcome is
/// [`zip_lookup`] of the bytes and the path, and nothing more.
#[verifier::external_body]
pub(crate) fn read_entry(archive: &[u8], path: &str) -> (r: Result<Vec<u8>, ArchiveError>)
    ensures
        lookup_view(r) == zip_lookup(archive@, path@),
{
    let mut zip = match zip::ZipArchive::new(Cursor::new(archive)) {
        Ok(z) => z,
        Err(e) => return Err(ArchiveError { kind: ArchiveErrorKind::NotArchive, message: e.to_string() }),
    };
    let mut file = match zip.by_name(path) {
        Ok(f) => f,
        Err(e) => return Err(ArchiveError { kind: ArchiveErrorKind::Missing, message: e.to_string() }),
    };
    let mut data = Vec::new();
    match file.read_to_end(&mut data) {
        Ok(_) => Ok(data),
        Err(e) => Err(ArchiveError { kind: ArchiveErrorKind::Unreadable, message: e.to_string() }),
    }
}

/// `ZipWriter::new` over an empty in-memory buffer: an archive with no
/// entries yet, and none open.
#[verifier::external_body]
pub(crate) fn new_writer() -> (w: ArchiveWriter)
    ensures
        zip_written(w) == Seq::<(Seq<char>, Seq<u8>)>::empty(),
        !zip_open(w),
{
    ArchiveWriter { inner: zip::ZipWriter::new(Cursor::new(Vec::new())) }
}

/// `ZipWriter::start_file` with deflate compression: on success a new,
/// empty entry at `path` follows the ones already there and is open for
/// data. The crate refuses a path it already holds, so on success `path` is
/// new. Starting an entry first closes the open one, which fails only when
/// that entry's compressed data passed 4 GiB; writing the new header into the
/// in-memory buffer does not fail. So a new path succeeds when the last
/// entry's data fits. A path over 65535 bytes makes the crate panic, so it is
/// left out.
#[verifier::external_body]
pub(crate) fn start_entry(w: &mut ArchiveWriter, path: &str) -> (r: Result<(), String>)
    requires
        path_fits(path@),
    ensures
        r is Ok ==> zip_written(*final(w)) == zip_written(*old(w)).push((path@, Seq::<u8>::empty())),
        r is Ok ==> zip_open(*final(w)),
        r is Ok ==> !holds_path(zip_written(*old(w)), path@),
        !holds_path(zip_written(*old(w)), path@) && last_fits(zip_written(*old(w))) ==> r is Ok,
{
    let options = zip::write::SimpleFileOptions::default().compression_method(zip::CompressionMethod::Deflated);
    w.inner.start_file(path, options).map_err(|e| e.to_string())
}

/// `Write::write_all` on the writer: on success `data` is appended to the
/// open entry. Empty data is never written through, so it succeeds and
/// changes nothing. Non-empty data fails with no entry open, and fails once
/// the open entry's data passes 4 GiB; otherwise writing into the in-memory
/// buffer succeeds.
#[verifier::external_body]
pub(crate) fn write_data(w: &mut ArchiveWriter, data: &[u8]) -> (r: Result<(), String>)
    ensures
        data@.len() == 0 ==> r is Ok && zip_written(*final(w)) == zip_written(*old(w)) && zip_open(*final(w)) == zip_open(*old(w)),
        r is Ok && data@.len() > 0 ==> zip_open(*old(w)) && zip_written(*old(w)).len() > 0,
        r is Ok && data@.len() > 0 ==> zip_open(*final(w)) && zip_written(*final(w)) == zip_written(*old(w)).update(
            zip_written(*old(w)).len() - 1,
            (zip_written(*old(w)).last().0, zip_written(*old(w)).last().1 + data@),
        ),
        zip_open(*old(w)) && zip_written(*old(w)).len() > 0 && data_fits((zip_written(*old(w)).last().1.len() + data@.len()) as int) ==> r is Ok,
{
    w.inner.write_all(data).map_err(|e| e.to_string())
}

/// `ZipWriter::finish`, and the buffer it wrote into: on success, reading
/// any entry of the archive back by its path gives the data written to it.
/// Finishing closes the open entry, which fails only when its compressed
/// data passed 4 GiB, then writes the central directory (switching to ZIP64
/// records by itself where needed) into the in-memory buffer; so it
/// succeeds when the last entry's data fits.
#[verifier::external_body]
pub(crate) fn finish_archive(w: ArchiveWriter) -> (r: Result<Vec<u8>, String>)
    ensures
        last_fits(zip_written(w)) ==> r is Ok,
        r is Ok ==> forall|i: int|
            0 <= i < zip_written(w).len() ==> zip_lookup(r->Ok_0@, (#[trigger] zip_written(w)[i]).0) == found(zip_written(w)[i].1),
{
    w.inner.finish().map(|c| c.into_inner()).map_err(|e| e.to_string())
}

/// Why writing an archive failed, with the zip crate's description.
#[derive(Clone, Debug)]
pub enum ArchiveWriteError {
    /// Starting or filling an entry failed (two entries sharing a path is
    /// one such failure).
    Entry(String),
    /// Finishing the archive failed.
    Finish(String),
}

/// An archive holding `entries`, in order, each at its path. Fails with an
/// entry error when two entries share a path or a path is longer than the
/// zip format's 65535 bytes; succeeds when the paths are distinct and every
/// path and every entry's data fits.
pub fn write_archive(entries: &Vec<(String, Vec<u8>)>) -> (r: Result<Vec<u8>, ArchiveWriteError>)
    ensures
        r is Ok ==> distinct_paths(entry_views(entries@)),
        r is Ok ==> forall|i: int| 0 <= i < entries@.len() ==> path_fits((#[trigger] entries@[i]).0@),
        r matches Ok(bytes) ==> forall|i: int|
            0 <= i < entries@.len() ==> zip_lookup(bytes@, (#[trigger] entries@[i]).0@) == found(entries@[i].1@),
        !distinct_paths(entry_views(entries@)) ==> r matches Err(ArchiveWriteError::Entry(_)),
        (exists|i: int| 0 <= i < entries@.len() && !path_fits((#[trigger] entries@[i]).0@)) ==> r matches Err(
            ArchiveWriteError::Entry(_),
        ),
        distinct_paths(entry_views(entries@)) && entries_fit(entry_views(entries@)) ==> r is Ok,
{
    let ghost all_ok = distinct_paths(entry_views(entries@)) && entries_fit(entry_views(entries@));
    let mut w = new_writer();
    let mut i: usize = 0;
    while i < entries.len()
        invariant
            i <= entries@.len(),
            zip_written(w) == entry_views(entries@.take(i as int)),
            distinct_paths(zip_written(w)),
            forall|k: int| 0 <= k < i ==> path_fits((#[trigger] entries@[k]).0@),
            all_ok == (distinct_paths(entry_views(entries@)) && entries_fit(entry_views(entries@))),
        decreases entries@.len() - i,
    {
        let ghost before = zip_written(w);
        let path = entries[i].0.as_str();
        if path.as_bytes().len() > 0xFFFF {
            proof {
                assert(!path_fits(entries@[i as int].0@));
                assert(!entries_fit(entry_views(entries@))) by {
                    assert(entry_views(entries@)[i as int] == (entries@[i as int].0@, entries@[i as int].1@));
                }
            }
            return Err(ArchiveWriteError::Entry(owned("entry path is longer than 65535 bytes")));
        }
        proof {
            if all_ok {
                let ev = entry_views(entries@);
                assert forall|j: int| 0 <= j < before.len() implies (#[trigger] before[j]).0 != path@ by {
                    assert(before[j] == ev[j]);
                    assert(ev[i as int] == (entries@[i as int].0@, entries@[i as int].1@));
                    assert(ev[j].0 != ev[i as int].0);
                }
                if i > 0 {
                    assert(before.last() == ev[i - 1]);
                    assert(ev[i - 1] == (entries@[i - 1].0@, entries@[i - 1].1@));
                }
            }
        }
        if let Err(e) = start_entry(&mut w, path) {
            return Err(ArchiveWriteError::Entry(e));
        }
        proof {
            if all_ok {
                let ev = entry_views(entries@);
                assert(ev[i as int] == (entries@[i as int].0@, entries@[i as int].1@));
                assert(zip_written(w).last().1.len() == 0);
            }
        }
        if let Err(e) = write_data(&mut w, entries[i].1.as_slice()) {
            return Err(ArchiveWriteError::Entry(e));
        }
        proof {
            assert(entry_views(entries@.take(i + 1)) =~= entry_views(entries@.take(i as int)).push(
                (entries@[i as int].0@, entries@[i as int].1@),
            ));
            if entries@[i as int].1@.len() == 0 {
                assert(entries@[i as int].1@ =~= Seq::<u8>::empty());
            }
            assert(zip_written(w) =~= before.push((entries@[i as int].0@, entries@[i as int].1@)));
            assert forall|a: int, b: int|
                0 <= a < zip_written(w).len() && 0 <= b < zip_written(w).len() && a != b implies (#[trigger] zip_written(w)[a]).0
                    != (#[trigger] zip_written(w)[b]).0 by {
                if a < before.len() && b < before.len() {
                    assert(zip_written(w)[a] == before[a] && zip_written(w)[b] == before[b]);
                } else if a < before.len() {
                    assert(zip_written(w)[a] == before[a]);
                    assert(before[a].0 != entries@[i as int].0@);
                } else {
                    assert(zip_written(w)[b] == before[b]);
                    assert(before[b].0 != entries@[i as int].0@);
                }
            }
        }
        i = i + 1;
    }
    let ghost written = zip_written(w);
    proof {
        assert(entries@.take(entries@.len() as int) =~= entries@);
        if all_ok && written.len() > 0 {
            let ev = entry_views(entries@);
            assert(written.last() == ev[ev.len() - 1]);
        }
    }
    let bytes = match finish_archive(w) {
        Ok(b) => b,
        Err(e) => return Err(ArchiveWriteError::Finish(e)),
    };
    proof {
        assert forall|k: int| 0 <= k < entries@.len() implies zip_lookup(bytes@, (#[trigger] entries@[k]).0@) == found(entries@[k].1@) by {
            assert(written[k] == (entries@[k].0@, entries@[k].1@));
        }
    }
    Ok(bytes)
}

/// The entries of `entries`, as values.
pub open spec fn entry_views(entries: Seq<(String, Vec<u8>)>) -> Seq<(Seq<char>, Seq<u8>)> {
    entries.map_values(|e: (String, Vec<u8>)| (e.0@, e.1@))
}

} // verus!
