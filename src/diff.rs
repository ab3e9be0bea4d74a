//! The paths that a server sends to bring a client's tree up to date.

use vstd::prelude::*;
use crate::manifest::{Manifest, entries_view, has_path, paths_unique};

verus! {

/// Paths of the client entries that the server does not hold with the same
/// fingerprint (stale or unknown to the server), in client order.
pub open spec fn stale_paths(c: Seq<(Seq<char>, Seq<char>)>, s: Seq<(Seq<char>, Seq<char>)>) -> Seq<
    Seq<char>,
>
    decreases c.len(),
{
    if c.len() == 0 {
        Seq::empty()
    } else {
        let rest = stale_paths(c.drop_last(), s);
        if s.contains(c.last()) {
            rest
        } else {
            rest.push(c.last().0)
        }
    }
}

/// Paths of the server entries that the client lacks, in server order.
pub open spec fn missing_paths(c: Seq<(Seq<char>, Seq<char>)>, s: Seq<(Seq<char>, Seq<char>)>) -> Seq<
    Seq<char>,
>
    decreases s.len(),
{
    if s.len() == 0 {
        Seq::empty()
    } else {
        let rest = missing_paths(c, s.drop_last());
        if has_path(c, s.last().0) {
            rest
        } else {
            rest.push(s.last().0)
        }
    }
}

/// The paths to send: the stale ones first, then those the client lacks.
pub open spec fn diff_paths(c: Seq<(Seq<char>, Seq<char>)>, s: Seq<(Seq<char>, Seq<char>)>) -> Seq<
    Seq<char>,
> {
    stale_paths(c, s) + missing_paths(c, s)
}

/// Whether `v` holds the entry `(p, f)`.
fn holds_entry(v: &Vec<(String, String)>, p: &String, f: &String) -> (r: bool)
    ensures
        r == entries_view(v@).contains((p@, f@)),
{
    let mut i: usize = 0;
    while i < v.len()
        invariant
            i <= v@.len(),
            forall|j: int| 0 <= j < i ==> entries_view(v@)[j] != (p@, f@),
        decreases v@.len() - i,
    {
        if v[i].0.eq(p) && v[i].1.eq(f) {
            assert(entries_view(v@)[i as int] == (p@, f@));
            return true;
        }
        i += 1;
    }
    false
}

/// Whether some entry of `v` has path `p`.
fn holds_path(v: &Vec<(String, String)>, p: &String) -> (r: bool)
    ensures
        r == has_path(entries_view(v@), p@),
{
    let mut i: usize = 0;
    while i < v.len()
        invariant
            i <= v@.len(),
            forall|j: int| 0 <= j < i ==> entries_view(v@)[j].0 != p@,
        decreases v@.len() - i,
    {
        if v[i].0.eq(p) {
            assert(entries_view(v@)[i as int].0 == p@);
            return true;
        }
        i += 1;
    }
    false
}

/// The text form of a list of paths.
pub open spec fn paths_view(v: Seq<String>) -> Seq<Seq<char>> {
    v.map_values(|p: String| p@)
}

proof fn lemma_paths_view_push(v: Seq<String>, p: String)
    ensures
        paths_view(v.push(p)) == paths_view(v).push(p@),
{
    assert(paths_view(v.push(p)) =~= paths_view(v).push(p@));
}

/// The paths that the server sends to a client holding `client`: every client
/// path that the server lacks or holds with another fingerprint, in client
/// order, then every server path that the client lacks, in server order.
pub fn diff(client: &Manifest, server: &Manifest) -> (r: Vec<String>)
    ensures
        paths_view(r@) == diff_paths(client@, server@),
{
    let c = client.entries();
    let s = server.entries();
    let ghost cv = client@;
    let ghost sv = server@;
    let mut out: Vec<String> = Vec::new();
    let mut i: usize = 0;
    while i < c.len()
        invariant
            i <= c@.len(),
            entries_view(c@) == cv,
            entries_view(s@) == sv,
            paths_view(out@) == stale_paths(cv.subrange(0, i as int), sv),
        decreases c@.len() - i,
    {
        assert(cv.subrange(0, i + 1).drop_last() =~= cv.subrange(0, i as int));
        assert(cv[i as int] == (c@[i as int].0@, c@[i as int].1@));
        if !holds_entry(&s, &c[i].0, &c[i].1) {
            let p = c[i].0.clone();
            proof {
                lemma_paths_view_push(out@, p);
            }
            out.push(p);
        }
        i += 1;
    }
    assert(cv.subrange(0, i as int) =~= cv);
    let ghost stale = out@;
    let mut j: usize = 0;
    while j < s.len()
        invariant
            j <= s@.len(),
            entries_view(c@) == cv,
            entries_view(s@) == sv,
            out@.len() >= stale.len(),
            out@.subrange(0, stale.len() as int) == stale,
            paths_view(stale) == stale_paths(cv, sv),
            paths_view(out@.subrange(stale.len() as int, out@.len() as int)) == missing_paths(
                cv,
                sv.subrange(0, j as int),
            ),
        decreases s@.len() - j,
    {
        assert(sv.subrange(0, j + 1).drop_last() =~= sv.subrange(0, j as int));
        assert(sv[j as int] == (s@[j as int].0@, s@[j as int].1@));
        if !holds_path(&c, &s[j].0) {
            let p = s[j].0.clone();
            let ghost before = out@;
            out.push(p);
            proof {
                assert(out@.subrange(stale.len() as int, out@.len() as int) =~= before.subrange(
                    stale.len() as int,
                    before.len() as int,
                ).push(p));
                lemma_paths_view_push(before.subrange(stale.len() as int, before.len() as int), p);
                assert(out@.subrange(0, stale.len() as int) =~= before.subrange(
                    0,
                    stale.len() as int,
                ));
            }
        }
        j += 1;
    }
    assert(sv.subrange(0, j as int) =~= sv);
    assert(out@ =~= stale + out@.subrange(stale.len() as int, out@.len() as int));
    assert(paths_view(out@) =~= paths_view(stale) + paths_view(
        out@.subrange(stale.len() as int, out@.len() as int),
    ));
    out
}

proof fn lemma_stale_none(c: Seq<(Seq<char>, Seq<char>)>, s: Seq<(Seq<char>, Seq<char>)>)
    requires
        forall|i: int| 0 <= i < c.len() ==> s.contains(#[trigger] c[i]),
    ensures
        stale_paths(c, s) == Seq::<Seq<char>>::empty(),
    decreases c.len(),
{
    if c.len() > 0 {
        lemma_stale_none(c.drop_last(), s);
        assert(s.contains(c[c.len() - 1]));
    }
}

proof fn lemma_stale_one(c: Seq<(Seq<char>, Seq<char>)>, s: Seq<(Seq<char>, Seq<char>)>, k: int)
    requires
        0 <= k < c.len(),
        !s.contains(c[k]),
        forall|i: int| 0 <= i < c.len() && i != k ==> s.contains(#[trigger] c[i]),
    ensures
        stale_paths(c, s) == seq![c[k].0],
    decreases c.len(),
{
    if k == c.len() - 1 {
        lemma_stale_none(c.drop_last(), s);
        assert(Seq::<Seq<char>>::empty().push(c[k].0) =~= seq![c[k].0]);
    } else {
        lemma_stale_one(c.drop_last(), s, k);
        assert(s.contains(c[c.len() - 1]));
    }
}

proof fn lemma_missing_none(c: Seq<(Seq<char>, Seq<char>)>, s: Seq<(Seq<char>, Seq<char>)>)
    requires
        forall|i: int| 0 <= i < s.len() ==> has_path(c, #[trigger] s[i].0),
    ensures
        missing_paths(c, s) == Seq::<Seq<char>>::empty(),
    decreases s.len(),
{
    if s.len() > 0 {
        lemma_missing_none(c, s.drop_last());
        assert(has_path(c, s[s.len() - 1].0));
    }
}

/// Diffing a manifest against itself yields no path to send.
pub proof fn law_diff_self_empty(m: Seq<(Seq<char>, Seq<char>)>)
    ensures
        diff_paths(m, m) == Seq::<Seq<char>>::empty(),
{
    assert forall|i: int| 0 <= i < m.len() implies m.contains(#[trigger] m[i]) by {}
    lemma_stale_none(m, m);
    assert forall|i: int| 0 <= i < m.len() implies has_path(m, #[trigger] m[i].0) by {}
    lemma_missing_none(m, m);
    assert(diff_paths(m, m) =~= Seq::<Seq<char>>::empty());
}

/// Where the server's manifest is the client's with the fingerprint of one
/// entry changed, the diff is exactly that entry's path.
pub proof fn law_diff_changed_entry(m: Seq<(Seq<char>, Seq<char>)>, k: int, f: Seq<char>)
    requires
        paths_unique(m),
        0 <= k < m.len(),
        f != m[k].1,
    ensures
        diff_paths(m, m.update(k, (m[k].0, f))) == seq![m[k].0],
{
    let s = m.update(k, (m[k].0, f));
    assert forall|i: int| 0 <= i < m.len() && i != k implies s.contains(#[trigger] m[i]) by {
        assert(s[i] == m[i]);
    }
    if s.contains(m[k]) {
        let j = choose|j: int| 0 <= j < s.len() && s[j] == m[k];
        if j != k {
            assert(m[j].0 == m[k].0);
        }
    }
    lemma_stale_one(m, s, k);
    assert forall|i: int| 0 <= i < s.len() implies has_path(m, #[trigger] s[i].0) by {
        assert(m[i].0 == s[i].0);
    }
    lemma_missing_none(m, s);
    assert(diff_paths(m, s) =~= seq![m[k].0]);
}

/// Where the server's manifest is the client's with one more path, the diff
/// is exactly that path.
pub proof fn law_diff_extra_path(m: Seq<(Seq<char>, Seq<char>)>, p: Seq<char>, f: Seq<char>)
    requires
        !has_path(m, p),
    ensures
        diff_paths(m, m.push((p, f))) == seq![p],
{
    let s = m.push((p, f));
    assert forall|i: int| 0 <= i < m.len() implies s.contains(#[trigger] m[i]) by {
        assert(s[i] == m[i]);
    }
    lemma_stale_none(m, s);
    assert forall|i: int| 0 <= i < m.len() implies has_path(m, #[trigger] m[i].0) by {}
    lemma_missing_none(m, m);
    assert(s.drop_last() =~= m);
    assert(diff_paths(m, s) =~= seq![p]);
}

} // verus!
