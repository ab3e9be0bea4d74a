//! Manifests: mappings from relative path to content fingerprint.
//!
//! A manifest keeps its entries in the order in which their paths were first
//! set; no two entries share a path.

use vstd::prelude::*;
use vstd::string::*;

verus! {

/// No two entries of `s` have the same path.
pub open spec fn paths_unique(s: Seq<(Seq<char>, Seq<char>)>) -> bool {
    forall|i: int, j: int| 0 <= i < j < s.len() ==> s[i].0 != s[j].0
}

/// Some entry of `s` has path `p`.
pub open spec fn has_path(s: Seq<(Seq<char>, Seq<char>)>, p: Seq<char>) -> bool {
    exists|i: int| 0 <= i < s.len() && s[i].0 == p
}

/// `s` with path `p` set to fingerprint `f`: the entry for `p` is replaced in
/// place where there is one, and a new entry is appended where there is none.
pub open spec fn upsert(s: Seq<(Seq<char>, Seq<char>)>, p: Seq<char>, f: Seq<char>) -> Seq<
    (Seq<char>, Seq<char>),
> {
    if has_path(s, p) {
        s.map_values(|e: (Seq<char>, Seq<char>)| if e.0 == p { (p, f) } else { e })
    } else {
        s.push((p, f))
    }
}

pub proof fn lemma_upsert_unique(s: Seq<(Seq<char>, Seq<char>)>, p: Seq<char>, f: Seq<char>)
    requires
        paths_unique(s),
    ensures
        paths_unique(upsert(s, p, f)),
        upsert(s, p, f).contains((p, f)),
        forall|e: (Seq<char>, Seq<char>)| #[trigger] s.contains(e) && e.0 != p ==> upsert(s, p, f).contains(e),
        forall|q: Seq<char>| has_path(upsert(s, p, f), q) <==> (q == p || has_path(s, q)),
{
    let u = upsert(s, p, f);
    if has_path(s, p) {
        let k = choose|k: int| 0 <= k < s.len() && s[k].0 == p;
        assert(u[k] == (p, f));
        assert forall|e: (Seq<char>, Seq<char>)| #[trigger] s.contains(e) && e.0 != p implies u.contains(e) by {
            let i = choose|i: int| 0 <= i < s.len() && s[i] == e;
            assert(u[i] == e);
        }
        assert forall|q: Seq<char>| has_path(u, q) <==> (q == p || has_path(s, q)) by {
            if has_path(u, q) {
                let i = choose|i: int| 0 <= i < u.len() && u[i].0 == q;
                assert(s[i].0 == q || q == p);
            }
            if has_path(s, q) {
                let i = choose|i: int| 0 <= i < s.len() && s[i].0 == q;
                assert(u[i].0 == q);
            }
            if q == p {
                assert(u[k].0 == q);
            }
        }
    } else {
        assert(u[s.len() as int] == (p, f));
        assert forall|e: (Seq<char>, Seq<char>)| #[trigger] s.contains(e) && e.0 != p implies u.contains(e) by {
            let i = choose|i: int| 0 <= i < s.len() && s[i] == e;
            assert(u[i] == e);
        }
        assert forall|q: Seq<char>| has_path(u, q) <==> (q == p || has_path(s, q)) by {
            if has_path(u, q) {
                let i = choose|i: int| 0 <= i < u.len() && u[i].0 == q;
                if i < s.len() {
                    assert(s[i].0 == q);
                }
            }
            if has_path(s, q) {
                let i = choose|i: int| 0 <= i < s.len() && s[i].0 == q;
                assert(u[i].0 == q);
            }
            if q == p {
                assert(u[s.len() as int].0 == q);
            }
        }
    }
}

/// The text form of an entry list.
pub open spec fn entries_view(v: Seq<(String, String)>) -> Seq<(Seq<char>, Seq<char>)> {
    v.map_values(|e: (String, String)| (e.0@, e.1@))
}

/// The index of the entry of `v` whose path is `path`, if any.
fn position(v: &Vec<(String, String)>, path: &String) -> (r: Option<usize>)
    ensures
        match r {
            Some(i) => i < v@.len() && v@[i as int].0@ == path@,
            None => !has_path(entries_view(v@), path@),
        },
{
    let mut i: usize = 0;
    while i < v.len()
        invariant
            i <= v@.len(),
            forall|j: int| 0 <= j < i ==> v@[j].0@ != path@,
        decreases v@.len() - i,
    {
        if v[i].0.eq(path) {
            return Some(i);
        }
        i += 1;
    }
    proof {
        if has_path(entries_view(v@), path@) {
            let j = choose|j: int|
                0 <= j < entries_view(v@).len() && entries_view(v@)[j].0 == path@;
            assert(v@[j].0@ == path@);
        }
    }
    None
}

/// A mapping from relative path to fingerprint.
pub struct Manifest {
    entries: Vec<(String, String)>,
}

impl View for Manifest {
    type V = Seq<(Seq<char>, Seq<char>)>;

    closed spec fn view(&self) -> Seq<(Seq<char>, Seq<char>)> {
        entries_view(self.entries@)
    }
}

impl Manifest {
    /// Every path occurs at most once.
    pub open spec fn wf(&self) -> bool {
        paths_unique(self@)
    }

    /// The empty manifest.
    pub fn new() -> (r: Manifest)
        ensures
            r@ == Seq::<(Seq<char>, Seq<char>)>::empty(),
            r.wf(),
    {
        let r = Manifest { entries: Vec::new() };
        assert(r@ =~= Seq::<(Seq<char>, Seq<char>)>::empty());
        r
    }

    /// The number of entries.
    pub fn len(&self) -> (r: usize)
        ensures
            r == self@.len(),
    {
        self.entries.len()
    }

    /// Sets the fingerprint of `path`, replacing the one it had.
    pub fn insert(&mut self, path: String, fingerprint: String)
        requires
            old(self).wf(),
        ensures
            final(self).wf(),
            final(self)@ == upsert(old(self)@, path@, fingerprint@),
    {
        proof {
            lemma_upsert_unique(self@, path@, fingerprint@);
        }
        let ghost p = path@;
        let ghost f = fingerprint@;
        let ghost s = self@;
        match position(&self.entries, &path) {
            Some(i) => {
                proof {
                    assert(s[i as int].0 == p);
                }
                self.entries.set(i, (path, fingerprint));
                proof {
                    assert forall|j: int| 0 <= j < s.len() implies #[trigger] self@[j] == (if s[j].0
                        == p {
                        (p, f)
                    } else {
                        s[j]
                    }) by {
                        if j != i {
                            assert(s[j].0 != s[i as int].0);
                        }
                    }
                    assert(self@ =~= upsert(s, p, f));
                }
            },
            None => {
                self.entries.push((path, fingerprint));
                assert(self@ =~= s.push((p, f)));
            },
        }
    }

    /// The fingerprint recorded for `path`, if any.
    pub fn get(&self, path: &str) -> (r: Option<String>)
        requires
            self.wf(),
        ensures
            r is Some <==> has_path(self@, path@),
            r matches Some(f) ==> self@.contains((path@, f@)),
    {
        let key = String::from_str(path);
        match position(&self.entries, &key) {
            Some(i) => {
                let f = self.entries[i].1.clone();
                assert(self@[i as int] == (path@, f@));
                Some(f)
            },
            None => None,
        }
    }

    /// The entries in order, as owned pairs of path and fingerprint.
    pub fn entries(&self) -> (r: Vec<(String, String)>)
        ensures
            entries_view(r@) == self@,
    {
        let mut r: Vec<(String, String)> = Vec::new();
        let mut i: usize = 0;
        while i < self.entries.len()
            invariant
                i <= self.entries@.len(),
                r@.len() == i,
                entries_view(r@) == self@.subrange(0, i as int),
            decreases self.entries@.len() - i,
        {
            let e = (self.entries[i].0.clone(), self.entries[i].1.clone());
            let ghost r0 = r@;
            r.push(e);
            assert(r@ == r0.push(e));
            assert(self@[i as int] == (e.0@, e.1@));
            assert(r0.len() == i);
            assert forall|j: int| 0 <= j < i implies #[trigger] entries_view(r@)[j] == entries_view(
                r0,
            )[j] by {
                assert(r@[j] == r0[j]);
            }
            assert(entries_view(r@) =~= self@.subrange(0, i + 1));
            i += 1;
        }
        assert(self@.subrange(0, i as int) =~= self@);
        r
    }
}

} // verus!
