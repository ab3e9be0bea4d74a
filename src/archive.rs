//! Packing the files to send into one deflate-compressed zip archive, held
//! in memory.

use std::io::Write;
use vstd::prelude::*;
use crate::diff::paths_view;

verus! {

/// A zip archive being written into memory, held by `zip::ZipWriter`.
#[verifier::external_body]
pub struct ZipBuffer {
    writer: zip::ZipWriter<std::io::Cursor<Vec<u8>>>,
}

#[verifier::external_type_specification]
#[verifier::external_body]
pub struct ExZipError(zip::result::ZipError);

#[verifier::external_type_specification]
#[verifier::external_body]
pub struct ExIoError(std::io::Error);

/// The entries that a zip writer holds, in the order they were started:
/// each name with the bytes written to it so far.
pub uninterp spec fn zip_entries(w: ZipBuffer) -> Seq<(Seq<char>, Seq<u8>)>;

/// No call on the writer has failed, so no entry was abandoned half-written
/// and every entry started is still being written or complete.
pub uninterp spec fn zip_intact(w: ZipBuffer) -> bool;

/// The bytes of the finished zip archive whose entries are the given names
/// and contents, each deflate-compressed and written in one piece.
pub uninterp spec fn zip_archive_bytes(entries: Seq<(Seq<char>, Seq<u8>)>) -> Seq<u8>;

/// The longest entry name, in UTF-8 bytes, that a zip header can record.
pub const MAX_NAME_BYTES: usize = 65535;

/// The largest entry this library writes, in bytes. Entries without the
/// zip64 option must stay below 4 GiB both before and after compression,
/// and deflate can add a few bytes for every 64 KiB it cannot compress.
pub const MAX_ENTRY_BYTES: usize = 4000000000;

/// The names of a list of entries.
pub open spec fn entry_names(es: Seq<(Seq<char>, Seq<u8>)>) -> Seq<Seq<char>> {
    es.map_values(|e: (Seq<char>, Seq<u8>)| e.0)
}

/// Every entry is at most `MAX_ENTRY_BYTES` long.
pub open spec fn entries_fit(es: Seq<(Seq<char>, Seq<u8>)>) -> bool {
    forall|i: int| 0 <= i < es.len() ==> (#[trigger] es[i]).1.len() <= MAX_ENTRY_BYTES
}

/// Relies on `zip::ZipWriter::new`, which starts an archive with no entries.
#[verifier::external_body]
fn zip_new() -> (r: ZipBuffer)
    ensures
        zip_entries(r) == Seq::<(Seq<char>, Seq<u8>)>::empty(),
        zip_intact(r),
{
    ZipBuffer { writer: zip::ZipWriter::new(std::io::Cursor::new(Vec::new())) }
}

/// Relies on `zip::ZipWriter::start_file` with deflate compression. It
/// finishes the entry before, then adds an empty entry under `name`, which
/// takes what is written next. It refuses a name that the archive already
/// holds; writing into memory fails in no other way while the entries stay
/// within `MAX_ENTRY_BYTES`. A name over 65535 bytes would panic.
#[verifier::external_body]
fn zip_start_file(w: &mut ZipBuffer, name: &str) -> (r: Result<(), zip::result::ZipError>)
    requires
        vstd::utf8::encode_utf8(name@).len() <= MAX_NAME_BYTES,
    ensures
        r is Ok ==> zip_entries(*final(w)) == zip_entries(*old(w)).push((name@, Seq::empty())),
        r is Ok && zip_intact(*old(w)) ==> zip_intact(*final(w)),
        zip_intact(*old(w)) && entries_fit(zip_entries(*old(w))) && !entry_names(
            zip_entries(*old(w)),
        ).contains(name@) ==> r is Ok,
{
    let options = zip::write::SimpleFileOptions::default().compression_method(
        zip::CompressionMethod::Deflated,
    );
    w.writer.start_file(name, options)
}

/// Relies on `std::io::Write::write_all` as `zip::ZipWriter` implements
/// `write`: the bytes are appended to the entry last started. Writing into
/// memory fails only where no entry is being written, or where the entry
/// would pass 4 GiB.
#[verifier::external_body]
fn zip_write_all(w: &mut ZipBuffer, data: &[u8]) -> (r: Result<(), std::io::Error>)
    ensures
        r is Ok && zip_entries(*old(w)).len() > 0 ==> zip_entries(*final(w)) == zip_entries(
            *old(w),
        ).drop_last().push(
            (zip_entries(*old(w)).last().0, zip_entries(*old(w)).last().1 + data@),
        ),
        r is Ok && zip_intact(*old(w)) ==> zip_intact(*final(w)),
        zip_intact(*old(w)) && zip_entries(*old(w)).len() > 0 && zip_entries(*old(w)).last().1.len()
            + data@.len() <= MAX_ENTRY_BYTES ==> r is Ok,
{
    w.writer.write_all(data)
}

/// Relies on `zip::ZipWriter::finish`, which finishes the last entry, writes
/// the central directory and hands back the underlying buffer. Where no call
/// failed, the result is the archive of the entries written, and writing
/// into memory cannot fail while they stay within `MAX_ENTRY_BYTES`.
#[verifier::external_body]
fn zip_finish(w: ZipBuffer) -> (r: Result<Vec<u8>, zip::result::ZipError>)
    ensures
        zip_intact(w) && entries_fit(zip_entries(w)) ==> r is Ok,
        r matches Ok(b) ==> (zip_intact(w) ==> b@ == zip_archive_bytes(zip_entries(w))),
{
    w.writer.finish().map(|c| c.into_inner())
}

/// A file to pack: the name of its entry, and its bytes, or `None` where it
/// could not be read.
pub struct SourceFile {
    pub name: String,
    pub contents: Option<Vec<u8>>,
}

/// Whether a file goes into an archive after the entries `before`: it was
/// read, its name and size fit a zip entry, and no earlier entry has its
/// name.
pub open spec fn admitted(f: SourceFile, before: Seq<(Seq<char>, Seq<u8>)>) -> bool {
    &&& f.contents is Some
    &&& vstd::utf8::encode_utf8(f.name@).len() <= MAX_NAME_BYTES
    &&& f.contents->0@.len() <= MAX_ENTRY_BYTES
    &&& !entry_names(before).contains(f.name@)
}

/// The entries of an archive of `fs`, in order: every file admitted; files
/// that could not be read, that do not fit a zip entry, or whose name is
/// already taken are skipped.
pub open spec fn archived_entries(fs: Seq<SourceFile>) -> Seq<(Seq<char>, Seq<u8>)>
    decreases fs.len(),
{
    if fs.len() == 0 {
        Seq::empty()
    } else {
        let rest = archived_entries(fs.drop_last());
        let f = fs.last();
        if admitted(f, rest) {
            rest.push((f.name@, f.contents->0@))
        } else {
            rest
        }
    }
}

proof fn lemma_archived_fit(fs: Seq<SourceFile>)
    ensures
        entries_fit(archived_entries(fs)),
    decreases fs.len(),
{
    if fs.len() > 0 {
        lemma_archived_fit(fs.drop_last());
    }
}

/// Why no archive was produced.
pub enum ArchiveError {
    /// The archive could not be finished.
    Finish,
}

/// Whether `names` holds `name`.
fn has_name(names: &Vec<String>, name: &String) -> (r: bool)
    ensures
        r == paths_view(names@).contains(name@),
{
    let ghost v = paths_view(names@);
    let mut i: usize = 0;
    while i < names.len()
        invariant
            i <= names@.len(),
            v == paths_view(names@),
            forall|j: int| 0 <= j < i ==> v[j] != name@,
        decreases names@.len() - i,
    {
        if names[i].eq(name) {
            assert(v[i as int] == name@);
            return true;
        }
        i += 1;
    }
    false
}

/// The zip archive of the files admitted, each under its own name and in
/// order. A file that could not be read, whose name is over
/// `MAX_NAME_BYTES` bytes, whose contents are over `MAX_ENTRY_BYTES`, or
/// whose name an earlier entry already took, is skipped; the archive itself
/// is always produced.
pub fn archive(files: &Vec<SourceFile>) -> (r: Result<Vec<u8>, ArchiveError>)
    ensures
        r is Ok,
        r matches Ok(b) ==> b@ == zip_archive_bytes(archived_entries(files@)),
{
    let mut w = zip_new();
    let mut names: Vec<String> = Vec::new();
    let mut i: usize = 0;
    while i < files.len()
        invariant
            i <= files@.len(),
            zip_intact(w),
            zip_entries(w) == archived_entries(files@.subrange(0, i as int)),
            paths_view(names@) == entry_names(zip_entries(w)),
        decreases files@.len() - i,
    {
        let ghost prefix = files@.subrange(0, i + 1);
        let ghost before = zip_entries(w);
        proof {
            assert(prefix.drop_last() =~= files@.subrange(0, i as int));
            assert(prefix.last() == files@[i as int]);
            lemma_archived_fit(files@.subrange(0, i as int));
        }
        let f = &files[i];
        match &f.contents {
            Some(bytes) => {
                let name = f.name.as_str();
                if name.as_bytes().len() <= MAX_NAME_BYTES && bytes.len() <= MAX_ENTRY_BYTES && !has_name(
                    &names,
                    &f.name,
                ) {
                    if zip_start_file(&mut w, name).is_err() {
                        return Err(ArchiveError::Finish);
                    }
                    if zip_write_all(&mut w, bytes.as_slice()).is_err() {
                        return Err(ArchiveError::Finish);
                    }
                    let ghost n0 = names@;
                    names.push(f.name.clone());
                    proof {
                        assert(Seq::<u8>::empty() + bytes@ =~= bytes@);
                        assert(zip_entries(w) =~= before.push((f.name@, bytes@)));
                        assert(names@ == n0.push(f.name));
                        let nv = paths_view(names@);
                        let ev = entry_names(zip_entries(w));
                        assert(paths_view(n0).len() == n0.len());
                        assert(entry_names(before).len() == before.len());
                        assert(n0.len() == before.len());
                        assert(zip_entries(w).len() == before.len() + 1);
                        assert(nv.len() == ev.len());
                        assert forall|j: int| 0 <= j < nv.len() implies nv[j] == ev[j] by {
                            if j < n0.len() {
                                assert(names@[j] == n0[j]);
                                assert(paths_view(n0)[j] == entry_names(before)[j]);
                            }
                        }
                        assert(paths_view(names@) =~= entry_names(
                            zip_entries(w),
                        ));
                    }
                }
            },
            None => {},
        }
        i += 1;
    }
    proof {
        assert(files@.subrange(0, i as int) =~= files@);
        lemma_archived_fit(files@);
    }
    match zip_finish(w) {
        Ok(b) => Ok(b),
        Err(_) => Err(ArchiveError::Finish),
    }
}

} // verus!
