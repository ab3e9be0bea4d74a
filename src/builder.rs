//! Building a manifest from the files found under a root.
//!
//! The walk itself reads the file system; what it found is handed over as a
//! list of `FoundFile`s, each with its depth below the root (the root itself
//! at depth 0, its immediate children at depth 1) and its contents, or `None`
//! where the file could not be read.

use vstd::prelude::*;
use vstd::string::*;
use crate::fingerprint::{fingerprint, sha256_hex};
use crate::manifest::{Manifest, has_path, lemma_upsert_unique, paths_unique, upsert};

verus! {

/// A regular file met by a walk of the tree.
pub struct FoundFile {
    /// The path as the file system gave it.
    pub path: String,
    /// How many directory levels below the root the file lies.
    pub depth: u64,
    /// The file's bytes; `None` where reading failed.
    pub contents: Option<Vec<u8>>,
}

/// `s` with leading separators and leading `./` components removed.
pub open spec fn normalized(s: Seq<char>) -> Seq<char>
    decreases s.len(),
{
    if s.len() >= 1 && s[0] == '/' {
        normalized(s.subrange(1, s.len() as int))
    } else if s.len() >= 2 && s[0] == '.' && s[1] == '/' {
        normalized(s.subrange(2, s.len() as int))
    } else {
        s
    }
}

/// The manifest key of a path: the path relative to the root of the walk,
/// without leading separators or `./` components.
pub fn normalize_path(p: &str) -> (r: String)
    ensures
        r@ == normalized(p@),
{
    let n = p.unicode_len();
    let mut i: usize = 0;
    assert(p@.subrange(0, n as int) =~= p@);
    while i < n
        invariant
            i <= n,
            n == p@.len(),
            normalized(p@) == normalized(p@.subrange(i as int, n as int)),
        ensures
            i <= n,
            normalized(p@) == p@.subrange(i as int, n as int),
        decreases n - i,
    {
        let ghost t = p@.subrange(i as int, n as int);
        let c = p.get_char(i);
        assert(t[0] == c);
        if c == '/' {
            assert(t.subrange(1, t.len() as int) =~= p@.subrange(i + 1, n as int));
            i += 1;
        } else if c == '.' && n - i >= 2 && p.get_char(i + 1) == '/' {
            assert(t[1] == p@[i + 1]);
            assert(t.subrange(2, t.len() as int) =~= p@.subrange(i + 2, n as int));
            i += 2;
        } else {
            proof {
                if c == '.' && n - i >= 2 {
                    assert(t[1] == p@[i + 1]);
                }
                assert(normalized(t) == t);
            }
            break;
        }
    }
    String::from_str(p.substring_char(i, n))
}

/// Whether a walk lists the entries of a directory that lies `depth` levels
/// below the root: always for the root, and below it only when recursive.
pub fn lists_children(recursive: bool, depth: u64) -> (r: bool)
    ensures
        r == (recursive || depth == 0),
{
    recursive || depth == 0
}

/// Whether a found file gets an entry: it was read, and a flat build only
/// reaches files at depth 1 at most.
pub open spec fn included(f: FoundFile, recursive: bool) -> bool {
    f.contents is Some && (recursive || f.depth <= 1)
}

/// The entry of a found file that was read.
pub open spec fn entry_of(f: FoundFile) -> (Seq<char>, Seq<char>) {
    (normalized(f.path@), sha256_hex(f.contents->0@))
}

/// The manifest built from the files found, in the order found; a later file
/// whose key repeats an earlier one replaces its fingerprint.
pub open spec fn built(fs: Seq<FoundFile>, recursive: bool) -> Seq<(Seq<char>, Seq<char>)>
    decreases fs.len(),
{
    if fs.len() == 0 {
        Seq::empty()
    } else {
        let rest = built(fs.drop_last(), recursive);
        let f = fs.last();
        if included(f, recursive) {
            upsert(rest, entry_of(f).0, entry_of(f).1)
        } else {
            rest
        }
    }
}

proof fn lemma_built_wf(fs: Seq<FoundFile>, recursive: bool)
    ensures
        paths_unique(built(fs, recursive)),
        forall|q: Seq<char>|
            has_path(built(fs, recursive), q) ==> exists|j: int|
                0 <= j < fs.len() && included(#[trigger] fs[j], recursive) && normalized(
                    fs[j].path@,
                ) == q,
    decreases fs.len(),
{
    if fs.len() > 0 {
        let rest = built(fs.drop_last(), recursive);
        lemma_built_wf(fs.drop_last(), recursive);
        let f = fs.last();
        if included(f, recursive) {
            lemma_upsert_unique(rest, entry_of(f).0, entry_of(f).1);
        }
        assert forall|q: Seq<char>| has_path(built(fs, recursive), q) implies exists|j: int|
            0 <= j < fs.len() && included(#[trigger] fs[j], recursive) && normalized(fs[j].path@)
                == q by {
            if has_path(rest, q) {
                let j = choose|j: int|
                    0 <= j < fs.drop_last().len() && included(
                        #[trigger] fs.drop_last()[j],
                        recursive,
                    ) && normalized(fs.drop_last()[j].path@) == q;
                assert(fs[j] == fs.drop_last()[j]);
            } else {
                assert(included(fs[fs.len() - 1], recursive));
            }
        }
    }
}

/// The manifest of the files found: one entry for each file that was read
/// and that the build reaches, keyed by its normalized path.
pub fn build_manifest(found: &Vec<FoundFile>, recursive: bool) -> (r: Manifest)
    ensures
        r.wf(),
        r@ == built(found@, recursive),
{
    let mut m = Manifest::new();
    let mut i: usize = 0;
    while i < found.len()
        invariant
            i <= found@.len(),
            m.wf(),
            m@ == built(found@.subrange(0, i as int), recursive),
        decreases found@.len() - i,
    {
        let ghost prefix = found@.subrange(0, i + 1);
        assert(prefix.drop_last() =~= found@.subrange(0, i as int));
        assert(prefix.last() == found@[i as int]);
        if recursive || found[i].depth <= 1 {
            match &found[i].contents {
                Some(bytes) => {
                    let fp = fingerprint(bytes.as_slice());
                    let key = normalize_path(found[i].path.as_str());
                    m.insert(key, fp);
                },
                None => {},
            }
        }
        i += 1;
    }
    assert(found@.subrange(0, i as int) =~= found@);
    m
}

/// Two walks that found the same paths at the same depths with the same
/// bytes build the same manifest: fingerprints depend on the bytes alone.
pub proof fn law_build_deterministic(a: Seq<FoundFile>, b: Seq<FoundFile>, recursive: bool)
    requires
        a.len() == b.len(),
        forall|i: int|
            0 <= i < a.len() ==> (#[trigger] a[i]).path@ == b[i].path@ && a[i].depth == b[i].depth
                && (a[i].contents is Some <==> b[i].contents is Some) && (a[i].contents is Some
                ==> a[i].contents->0@ == b[i].contents->0@),
    ensures
        built(a, recursive) == built(b, recursive),
    decreases a.len(),
{
    if a.len() > 0 {
        assert forall|i: int| 0 <= i < a.drop_last().len() implies (#[trigger] a.drop_last()[i]).path@
            == b.drop_last()[i].path@ && a.drop_last()[i].depth == b.drop_last()[i].depth && (
        a.drop_last()[i].contents is Some <==> b.drop_last()[i].contents is Some) && (
        a.drop_last()[i].contents is Some ==> a.drop_last()[i].contents->0@ == b.drop_last()[
            i
        ].contents->0@) by {
            assert(a[i] == a.drop_last()[i]);
            assert(b[i] == b.drop_last()[i]);
        }
        law_build_deterministic(a.drop_last(), b.drop_last(), recursive);
        assert(a[a.len() - 1].path@ == b[b.len() - 1].path@);
    }
}

/// Distinct files found have distinct manifest keys.
pub open spec fn keys_distinct(fs: Seq<FoundFile>) -> bool {
    forall|i: int, j: int|
        0 <= i < j < fs.len() ==> normalized((#[trigger] fs[i]).path@) != normalized(
            (#[trigger] fs[j]).path@,
        )
}

proof fn lemma_built_exact(fs: Seq<FoundFile>, recursive: bool)
    requires
        keys_distinct(fs),
    ensures
        forall|e: (Seq<char>, Seq<char>)|
            built(fs, recursive).contains(e) <==> exists|j: int|
                0 <= j < fs.len() && included(#[trigger] fs[j], recursive) && e == entry_of(fs[j]),
    decreases fs.len(),
{
    if fs.len() > 0 {
        let init = fs.drop_last();
        let rest = built(init, recursive);
        let f = fs.last();
        let n = fs.len() - 1;
        assert forall|i: int, j: int| 0 <= i < j < init.len() implies normalized(
            (#[trigger] init[i]).path@,
        ) != normalized((#[trigger] init[j]).path@) by {
            assert(init[i] == fs[i] && init[j] == fs[j]);
        }
        lemma_built_exact(init, recursive);
        lemma_built_wf(init, recursive);
        if included(f, recursive) {
            if has_path(rest, entry_of(f).0) {
                let j = choose|j: int|
                    0 <= j < init.len() && included(#[trigger] init[j], recursive) && normalized(
                        init[j].path@,
                    ) == entry_of(f).0;
                assert(init[j] == fs[j]);
                assert(false);
            }
            assert(built(fs, recursive) == rest.push(entry_of(f)));
        }
        assert forall|e: (Seq<char>, Seq<char>)| built(fs, recursive).contains(e) implies exists|
            j: int,
        | 0 <= j < fs.len() && included(#[trigger] fs[j], recursive) && e == entry_of(fs[j]) by {
            let u = built(fs, recursive);
            let k = choose|k: int| 0 <= k < u.len() && u[k] == e;
            if k < rest.len() {
                assert(rest[k] == e);
                assert(rest.contains(e));
                let j = choose|j: int|
                    0 <= j < init.len() && included(#[trigger] init[j], recursive) && e
                        == entry_of(init[j]);
                assert(init[j] == fs[j]);
            } else {
                assert(included(fs[n], recursive));
            }
        }
        assert forall|e: (Seq<char>, Seq<char>)|
            (exists|j: int|
                0 <= j < fs.len() && included(#[trigger] fs[j], recursive) && e == entry_of(
                    fs[j],
                )) implies built(fs, recursive).contains(e) by {
            let j = choose|j: int|
                0 <= j < fs.len() && included(#[trigger] fs[j], recursive) && e == entry_of(fs[j]);
            let u = built(fs, recursive);
            if j < n {
                assert(init[j] == fs[j]);
                assert(rest.contains(e));
                let k = choose|k: int| 0 <= k < rest.len() && rest[k] == e;
                assert(u[k] == e);
            } else {
                assert(u[rest.len() as int] == e);
            }
        }
    }
}

proof fn lemma_built_keys(fs: Seq<FoundFile>, recursive: bool)
    ensures
        forall|q: Seq<char>|
            has_path(built(fs, recursive), q) <==> exists|j: int|
                0 <= j < fs.len() && included(#[trigger] fs[j], recursive) && normalized(
                    fs[j].path@,
                ) == q,
    decreases fs.len(),
{
    lemma_built_wf(fs, recursive);
    if fs.len() > 0 {
        let init = fs.drop_last();
        let rest = built(init, recursive);
        let f = fs.last();
        lemma_built_keys(init, recursive);
        lemma_built_wf(init, recursive);
        if included(f, recursive) {
            lemma_upsert_unique(rest, entry_of(f).0, entry_of(f).1);
        }
        assert forall|q: Seq<char>|
            (exists|j: int|
                0 <= j < fs.len() && included(#[trigger] fs[j], recursive) && normalized(
                    fs[j].path@,
                ) == q) implies has_path(built(fs, recursive), q) by {
            let j = choose|j: int|
                0 <= j < fs.len() && included(#[trigger] fs[j], recursive) && normalized(
                    fs[j].path@,
                ) == q;
            if j < fs.len() - 1 {
                assert(init[j] == fs[j]);
                assert(has_path(rest, q));
            }
        }
    }
}

/// What keys a build holds, whatever the files found: a flat build holds
/// exactly the keys of the files read at depth 1 at most, a recursive build
/// exactly the keys of all files read, so every key of the flat build is a
/// key of the recursive one.
pub proof fn law_build_keys(fs: Seq<FoundFile>)
    ensures
        forall|q: Seq<char>|
            has_path(built(fs, false), q) <==> exists|j: int|
                0 <= j < fs.len() && (#[trigger] fs[j]).contents is Some && fs[j].depth <= 1
                    && normalized(fs[j].path@) == q,
        forall|q: Seq<char>|
            has_path(built(fs, true), q) <==> exists|j: int|
                0 <= j < fs.len() && (#[trigger] fs[j]).contents is Some && normalized(
                    fs[j].path@,
                ) == q,
        forall|q: Seq<char>| has_path(built(fs, false), q) ==> has_path(built(fs, true), q),
{
    lemma_built_keys(fs, false);
    lemma_built_keys(fs, true);
    assert forall|q: Seq<char>| has_path(built(fs, false), q) implies has_path(
        built(fs, true),
        q,
    ) by {
        let j = choose|j: int|
            0 <= j < fs.len() && included(#[trigger] fs[j], false) && normalized(fs[j].path@)
                == q;
        assert(included(fs[j], true));
    }
}

/// A flat build only holds keys of files that lie directly under the root
/// (or of the root itself, where it is a file).
pub proof fn law_flat_build_is_shallow(fs: Seq<FoundFile>)
    ensures
        forall|q: Seq<char>|
            has_path(built(fs, false), q) ==> exists|j: int|
                0 <= j < fs.len() && (#[trigger] fs[j]).depth <= 1 && fs[j].contents is Some
                    && normalized(fs[j].path@) == q,
{
    lemma_built_wf(fs, false);
}

/// Where the files found have distinct keys, the flat build holds an entry
/// for every file read at depth 1 at most, and a recursive build holds every
/// entry of the flat build and an entry for every file that was read, at any
/// depth.
pub proof fn law_recursive_build_covers(fs: Seq<FoundFile>)
    requires
        keys_distinct(fs),
    ensures
        forall|j: int|
            0 <= j < fs.len() && (#[trigger] fs[j]).contents is Some && fs[j].depth <= 1
                ==> built(fs, false).contains(entry_of(fs[j])),
        forall|e: (Seq<char>, Seq<char>)|
            built(fs, false).contains(e) ==> built(fs, true).contains(e),
        forall|j: int|
            0 <= j < fs.len() && (#[trigger] fs[j]).contents is Some ==> built(fs, true).contains(
                entry_of(fs[j]),
            ),
{
    lemma_built_exact(fs, false);
    lemma_built_exact(fs, true);
    assert forall|e: (Seq<char>, Seq<char>)| built(fs, false).contains(e) implies built(
        fs,
        true,
    ).contains(e) by {
        let j = choose|j: int|
            0 <= j < fs.len() && included(#[trigger] fs[j], false) && e == entry_of(fs[j]);
        assert(included(fs[j], true));
    }
    assert forall|j: int|
        0 <= j < fs.len() && (#[trigger] fs[j]).contents is Some && fs[j].depth <= 1 implies built(
        fs,
        false,
    ).contains(entry_of(fs[j])) by {
        assert(included(fs[j], false));
    }
    assert forall|j: int| 0 <= j < fs.len() && (#[trigger] fs[j]).contents is Some implies built(
        fs,
        true,
    ).contains(entry_of(fs[j])) by {
        assert(included(fs[j], true));
    }
}

} // verus!
