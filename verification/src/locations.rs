//! The first location of each translation key across files: ordered by file
//! path (component by component, as `Path` orders them), then line.
use vstd::prelude::*;

use crate::paths::{
    component_views, components_equal, components_less, components_lt, file_components,
    lemma_components_irreflexive,
    lemma_components_transitive, lemma_components_trichotomy, path_components, path_lt,
};

verus! {

// ---------------------------------------------------------------------------
// Key locations
// ---------------------------------------------------------------------------
/// A key found in a file, with the line of its first occurrence there.
pub struct KeyAt {
    pub key: String,
    pub file: String,
    pub line: u32,
}

/// Where a key was first found.
pub struct KeyLocation {
    pub file: String,
    pub line: u32,
}

pub struct KeyAtView {
    pub key: Seq<char>,
    pub file: Seq<char>,
    pub line: u32,
}

impl View for KeyAt {
    type V = KeyAtView;

    open spec fn view(&self) -> KeyAtView {
        KeyAtView { key: self.key@, file: self.file@, line: self.line }
    }
}

pub open spec fn entries_view(v: Seq<KeyAt>) -> Seq<KeyAtView> {
    v.map_values(|e: KeyAt| e@)
}

/// `a` sorts before `b`: by file in path order, then by line.
pub open spec fn located_before(a: KeyAtView, b: KeyAtView) -> bool {
    path_lt(a.file, b.file) || (path_components(a.file) == path_components(b.file) && a.line
        < b.line)
}

/// Entry `j` is where its key is first found among the first `n` entries:
/// no entry of that key sorts before it, and it sorts before every earlier
/// entry of that key (of equal entries, the earliest is taken).
pub open spec fn first_location(o: Seq<KeyAtView>, n: int, j: int) -> bool {
    &&& 0 <= j < n <= o.len()
    &&& forall|i: int|
        0 <= i < n && #[trigger] o[i].key == o[j].key ==> !located_before(o[i], o[j])
    &&& forall|i: int|
        0 <= i < j && #[trigger] o[i].key == o[j].key ==> located_before(o[j], o[i])
}

proof fn lemma_located_order(a: KeyAtView, b: KeyAtView, c: KeyAtView)
    ensures
        !located_before(a, a),
        located_before(a, b) || located_before(b, a) || (path_components(a.file)
            == path_components(b.file) && a.line == b.line),
        located_before(a, b) && located_before(b, c) ==> located_before(a, c),
{
    let (pa, pb, pc) = (path_components(a.file), path_components(b.file), path_components(c.file));
    lemma_components_irreflexive(pa);
    lemma_components_trichotomy(pa, pb);
    lemma_components_trichotomy(pb, pc);
    lemma_components_trichotomy(pa, pc);
    if components_lt(pa, pb) && components_lt(pb, pc) {
        lemma_components_transitive(pa, pb, pc);
    }
}

/// The position of the key in the list, if it is there.
fn position_of(r: &Vec<(String, KeyLocation)>, key: &String) -> (p: Option<usize>)
    ensures
        match p {
            Some(i) => i < r@.len() && r@[i as int].0@ == key@,
            None => forall|i: int| 0 <= i < r@.len() ==> #[trigger] r@[i].0@ != key@,
        },
{
    let mut i: usize = 0;
    while i < r.len()
        invariant
            i <= r.len(),
            forall|j: int| 0 <= j < i ==> #[trigger] r@[j].0@ != key@,
        decreases r.len() - i,
    {
        if r[i].0 == *key {
            return Some(i);
        }
        i = i + 1;
    }
    None
}

/// Some entry of the list has the key.
pub open spec fn lists_key(r: Seq<(String, KeyLocation)>, k: Seq<char>) -> bool {
    exists|p: int| 0 <= p < r.len() && #[trigger] r[p].0@ == k
}

/// Some of the first `n` entries has the key.
pub open spec fn found_key(o: Seq<KeyAtView>, n: int, k: Seq<char>) -> bool {
    exists|i: int| 0 <= i < n && #[trigger] o[i].key == k
}

proof fn lemma_membership_step(
    b: Seq<(String, KeyLocation)>,
    a: Seq<(String, KeyLocation)>,
    o: Seq<KeyAtView>,
    n: int,
    k: Seq<char>,
)
    requires
        0 <= n < o.len(),
        forall|k2: Seq<char>| #[trigger] lists_key(b, k2) <==> found_key(o, n, k2),
        forall|p: int|
            0 <= p < a.len() ==> (#[trigger] a[p]).0@ == o[n].key || lists_key(b, a[p].0@),
        forall|p: int| 0 <= p < b.len() ==> lists_key(a, (#[trigger] b[p]).0@),
        lists_key(a, o[n].key),
    ensures
        lists_key(a, k) <==> found_key(o, n + 1, k),
{
    if lists_key(a, k) {
        let p = choose|p: int| 0 <= p < a.len() && #[trigger] a[p].0@ == k;
        if a[p].0@ == o[n].key {
            assert(o[n].key == k);
        } else {
            assert(lists_key(b, k));
            assert(found_key(o, n, k));
            let i = choose|i: int| 0 <= i < n && #[trigger] o[i].key == k;
            assert(o[i].key == k);
        }
    }
    if found_key(o, n + 1, k) {
        let i = choose|i: int| 0 <= i < n + 1 && #[trigger] o[i].key == k;
        if i < n {
            assert(found_key(o, n, k));
            assert(lists_key(b, k));
            let p = choose|p: int| 0 <= p < b.len() && #[trigger] b[p].0@ == k;
            assert(lists_key(a, b[p].0@));
        }
    }
}

/// The key's first location among all entries is this file and line.
pub open spec fn first_found_at(o: Seq<KeyAtView>, key: Seq<char>, file: Seq<char>, line: u32) -> bool {
    exists|j: int|
        first_location(o, o.len() as int, j) && #[trigger] o[j].key == key && o[j].file == file
            && o[j].line == line
}

/// Each key found, once, with its first location: of all the places it was
/// found, the one whose file comes first in path order and then whose line
/// is smallest (the earliest given, among equal ones).  Keys are listed in
/// the order they first appear in `entries`.
pub fn first_key_locations(entries: &Vec<KeyAt>) -> (r: Vec<(String, KeyLocation)>)
    ensures
        forall|p: int, q: int|
            0 <= p < q < r@.len() ==> #[trigger] r@[p].0@ != #[trigger] r@[q].0@,
        forall|k: Seq<char>|
            #[trigger] lists_key(r@, k) <==> found_key(
                entries_view(entries@),
                entries@.len() as int,
                k,
            ),
        forall|p: int|
            #![trigger r@[p]]
            0 <= p < r@.len() ==> first_found_at(
                entries_view(entries@),
                r@[p].0@,
                r@[p].1.file@,
                r@[p].1.line,
            ),
{
    let ghost o = entries_view(entries@);
    let mut r: Vec<(String, KeyLocation)> = Vec::new();
    let mut comps: Vec<Vec<Vec<char>>> = Vec::new();
    let ghost mut idx: Seq<int> = seq![];
    let mut n: usize = 0;
    while n < entries.len()
        invariant
            n <= entries.len(),
            o == entries_view(entries@),
            r@.len() == idx.len() == comps@.len(),
            forall|p: int|
                0 <= p < r@.len() ==> {
                    let j = #[trigger] idx[p];
                    &&& first_location(o, n as int, j)
                    &&& r@[p].0@ == o[j].key
                    &&& r@[p].1.file@ == o[j].file
                    &&& r@[p].1.line == o[j].line
                    &&& component_views(comps@[p]@) == path_components(o[j].file)
                },
            forall|p: int, q: int|
                0 <= p < q < r@.len() ==> #[trigger] r@[p].0@ != #[trigger] r@[q].0@,
            forall|k: Seq<char>|
                #[trigger] lists_key(r@, k) <==> found_key(o, (n) as int, k),
        decreases entries.len() - n,
    {
        let e = &entries[n];
        assert(o[n as int] == e@);
        let ec = file_components(&e.file);
        match position_of(&r, &e.key) {
            None => {
                let ghost before_r = r@;
                r.push((e.key.clone(), KeyLocation { file: e.file.clone(), line: e.line }));
                comps.push(ec);
                proof {
                    idx = idx.push(n as int);
                    assert forall|i: int| 0 <= i < n implies #[trigger] o[i].key != e.key@ by {
                        if o[i].key == e.key@ {
                            assert(found_key(o, n as int, o[i].key));
                            assert(lists_key(before_r, o[i].key));
                        }
                    }
                    lemma_located_order(e@, e@, e@);
                    assert(first_location(o, n + 1, n as int));
                    assert forall|p: int| 0 <= p < r@.len() implies {
                        let j = #[trigger] idx[p];
                        &&& first_location(o, n + 1, j)
                        &&& r@[p].0@ == o[j].key
                        &&& r@[p].1.file@ == o[j].file
                        &&& r@[p].1.line == o[j].line
                        &&& component_views(comps@[p]@) == path_components(o[j].file)
                    } by {
                        if p < before_r.len() {
                            assert(r@[p] == before_r[p]);
                        }
                    }
                    assert forall|q: int| 0 <= q < r@.len() implies (#[trigger] r@[q]).0@ == o[n as int].key
                        || lists_key(before_r, r@[q].0@) by {
                        if q < before_r.len() {
                            assert(r@[q] == before_r[q]);
                        }
                    }
                    assert forall|q: int| 0 <= q < before_r.len() implies lists_key(
                        r@,
                        (#[trigger] before_r[q]).0@,
                    ) by {
                        assert(r@[q] == before_r[q]);
                    }
                    assert(r@[before_r.len() as int].0@ == o[n as int].key);
                    assert forall|k: Seq<char>|
                        #[trigger] lists_key(r@, k) <==> found_key(o, (n + 1) as int, k) by {
                        lemma_membership_step(before_r, r@, o, n as int, k);
                    }
                }
            },
            Some(p) => {
                let ghost jb = idx[p as int];
                let better = components_less(&ec, &comps[p]) || (components_equal(&ec, &comps[p])
                    && e.line < r[p].1.line);
                assert(better == located_before(e@, o[jb]));
                if better {
                    let ghost before_r = r@;
                    r.set(p, (e.key.clone(), KeyLocation { file: e.file.clone(), line: e.line }));
                    comps.set(p, ec);
                    proof {
                        idx = idx.update(p as int, n as int);
                        assert forall|i: int|
                            0 <= i < n + 1 && #[trigger] o[i].key == o[n as int].key implies !located_before(
                            o[i],
                            o[n as int],
                        ) by {
                            lemma_located_order(o[i], o[n as int], o[jb]);
                            lemma_located_order(o[n as int], o[n as int], o[n as int]);
                        }
                        assert forall|i: int|
                            0 <= i < n && #[trigger] o[i].key == o[n as int].key implies located_before(
                            o[n as int],
                            o[i],
                        ) by {
                            lemma_located_order(o[jb], o[i], o[n as int]);
                            lemma_located_order(o[n as int], o[jb], o[i]);
                            if i == jb {
                            } else if i < jb {
                            } else {
                            }
                        }
                        assert(first_location(o, n + 1, n as int));
                        assert forall|q: int| 0 <= q < r@.len() implies {
                            let j = #[trigger] idx[q];
                            &&& first_location(o, n + 1, j)
                            &&& r@[q].0@ == o[j].key
                            &&& r@[q].1.file@ == o[j].file
                            &&& r@[q].1.line == o[j].line
                            &&& component_views(comps@[q]@) == path_components(o[j].file)
                        } by {
                            if q != p {
                                assert(r@[q] == before_r[q]);
                                assert(before_r[q].0@ != before_r[p as int].0@);
                            }
                        }
                        assert forall|q: int| 0 <= q < r@.len() implies (#[trigger] r@[q]).0@
                            == o[n as int].key || lists_key(before_r, r@[q].0@) by {
                            if q != p {
                                assert(r@[q] == before_r[q]);
                            }
                        }
                        assert forall|q: int| 0 <= q < before_r.len() implies lists_key(
                            r@,
                            (#[trigger] before_r[q]).0@,
                        ) by {
                            if q != p {
                                assert(r@[q] == before_r[q]);
                            } else {
                                assert(r@[q].0@ == before_r[q].0@);
                            }
                        }
                        assert(r@[p as int].0@ == o[n as int].key);
                        assert forall|k: Seq<char>|
                            #[trigger] lists_key(r@, k) <==> found_key(o, (n + 1) as int, k) by {
                            lemma_membership_step(before_r, r@, o, n as int, k);
                        }
                    }
                } else {
                    proof {
                        lemma_located_order(o[n as int], o[n as int], o[n as int]);
                        assert forall|q: int| 0 <= q < r@.len() implies {
                            let j = #[trigger] idx[q];
                            &&& first_location(o, n + 1, j)
                            &&& r@[q].0@ == o[j].key
                            &&& r@[q].1.file@ == o[j].file
                            &&& r@[q].1.line == o[j].line
                            &&& component_views(comps@[q]@) == path_components(o[j].file)
                        } by {
                            let j = idx[q];
                            assert forall|i: int|
                                0 <= i < n + 1 && #[trigger] o[i].key == o[j].key implies !located_before(
                                o[i],
                                o[j],
                            ) by {
                                if i == n && q != p {
                                    assert(r@[q].0@ != r@[p as int].0@);
                                }
                            }
                        }
                        assert forall|q: int| 0 <= q < r@.len() implies (#[trigger] r@[q]).0@
                            == o[n as int].key || lists_key(r@, r@[q].0@) by {}
                        assert forall|q: int| 0 <= q < r@.len() implies lists_key(
                            r@,
                            (#[trigger] r@[q]).0@,
                        ) by {}
                        assert(r@[p as int].0@ == o[n as int].key);
                        assert forall|k: Seq<char>|
                            #[trigger] lists_key(r@, k) <==> found_key(o, (n + 1) as int, k) by {
                            lemma_membership_step(r@, r@, o, n as int, k);
                        }
                    }
                }
            },
        }
        n = n + 1;
    }
    proof {
        assert forall|p: int| 0 <= p < r@.len() implies first_found_at(
            entries_view(entries@),
            r@[p].0@,
            r@[p].1.file@,
            r@[p].1.line,
        ) by {
            let j = idx[p];
            assert(o[j].key == r@[p].0@);
        }
        assert(o == entries_view(entries@));
    }
    r
}

} // verus!
