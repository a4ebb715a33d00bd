//! Which scanned files are checked.
use vstd::prelude::*;

use crate::names::texts;
use crate::paths::{
    component_views, components_equal, components_less, extension, extension_of, file_components,
    lemma_components_irreflexive, lemma_components_transitive, lemma_components_trichotomy,
    path_components, path_lt,
};
use crate::patterns::{
    build_glob_set, glob_set_compiles, glob_set_failure, glob_set_is_match, glob_set_matches,
    glob_set_patterns,
};
use crate::text::string_from_chars;

verus! {

/// The path's extension is one of the extensions.
pub open spec fn has_listed_extension(path: Seq<char>, exts: Seq<Seq<char>>) -> bool {
    match extension(path) {
        Some(e) => exts.contains(e),
        None => false,
    }
}

/// True when the path's extension (`Path::extension`) is one of the
/// extensions.
pub fn has_target_extension(path: &str, extensions: &Vec<String>) -> (r: bool)
    ensures
        r == has_listed_extension(path@, texts(extensions@)),
{
    match extension_of(path) {
        Some(e) => {
            let s = string_from_chars(&e);
            crate::analyzer::contains_text(extensions, &s)
        },
        None => false,
    }
}

/// A file found while walking the included directories: its path, and its
/// path relative to the project root (which exclusion globs are matched
/// against).
pub struct ScannedFile {
    pub path: String,
    pub rel: String,
}

/// A scanned file is checked when its extension is listed and its relative
/// path matches no exclusion glob.
pub open spec fn scanned_selected(
    f: ScannedFile,
    exts: Seq<Seq<char>>,
    exclude: Seq<Seq<char>>,
) -> bool {
    has_listed_extension(f.path@, exts) && !glob_set_matches(exclude, f.rel@)
}

/// Texts in strictly increasing path order (so no two have the same
/// components).
pub open spec fn path_sorted(s: Seq<Seq<char>>) -> bool {
    forall|i: int, j: int| 0 <= i < j < s.len() ==> path_lt(#[trigger] s[i], #[trigger] s[j])
}

/// Some text of `s` names the same path (the same components) as `p`.
pub open spec fn has_same_path(s: Seq<Seq<char>>, p: Seq<char>) -> bool {
    exists|i: int| 0 <= i < s.len() && path_components(#[trigger] s[i]) == path_components(p)
}

/// Found file `i` is checked, and no earlier checked file has the same
/// path.
pub open spec fn first_of_path(
    found: Seq<ScannedFile>,
    exts: Seq<Seq<char>>,
    exclude: Seq<Seq<char>>,
    i: int,
) -> bool {
    &&& scanned_selected(found[i], exts, exclude)
    &&& forall|j: int|
        0 <= j < i && scanned_selected(#[trigger] found[j], exts, exclude) ==> path_components(
            found[j].path@,
        ) != path_components(found[i].path@)
}

proof fn lemma_first_of_path_exists(
    found: Seq<ScannedFile>,
    exts: Seq<Seq<char>>,
    exclude: Seq<Seq<char>>,
    j: int,
)
    requires
        0 <= j < found.len(),
        scanned_selected(found[j], exts, exclude),
    ensures
        exists|k: int|
            0 <= k <= j && first_of_path(found, exts, exclude, k) && path_components(
                #[trigger] found[k].path@,
            ) == path_components(found[j].path@),
    decreases j,
{
    if !first_of_path(found, exts, exclude, j) {
        let k = choose|k: int|
            0 <= k < j && scanned_selected(#[trigger] found[k], exts, exclude) && path_components(
                found[k].path@,
            ) == path_components(found[j].path@);
        lemma_first_of_path_exists(found, exts, exclude, k);
        let k2 = choose|k2: int|
            0 <= k2 <= k && first_of_path(found, exts, exclude, k2) && path_components(
                #[trigger] found[k2].path@,
            ) == path_components(found[k].path@);
        assert(path_components(found[k2].path@) == path_components(found[j].path@));
    } else {
        assert(path_components(found[j].path@) == path_components(found[j].path@));
    }
}

/// Insert `d` in path order, unless a path with the same components is
/// already there.
fn insert_by_path(r: &mut Vec<String>, rc: &mut Vec<Vec<Vec<char>>>, d: &String)
    requires
        old(r)@.len() == old(rc)@.len(),
        forall|j: int|
            0 <= j < old(rc)@.len() ==> component_views(#[trigger] old(rc)@[j]@) == path_components(
                old(r)@[j]@,
            ),
        path_sorted(texts(old(r)@)),
    ensures
        final(r)@.len() == final(rc)@.len(),
        forall|j: int|
            0 <= j < final(rc)@.len() ==> component_views(#[trigger] final(rc)@[j]@)
                == path_components(final(r)@[j]@),
        path_sorted(texts(final(r)@)),
        forall|k: Seq<char>|
            texts(final(r)@).contains(k) <==> (texts(old(r)@).contains(k) || (k == d@
                && !has_same_path(texts(old(r)@), d@))),
{
    let dc = file_components(d);
    let ghost t = texts(r@);
    let ghost dp = path_components(d@);
    let mut lo: usize = 0;
    let mut hi: usize = r.len();
    while lo < hi
        invariant
            lo <= hi <= r@.len() == rc@.len(),
            t == texts(r@),
            r@ == old(r)@,
            rc@ == old(rc)@,
            component_views(dc@) == dp,
            dp == path_components(d@),
            forall|j: int|
                0 <= j < rc@.len() ==> component_views(#[trigger] rc@[j]@) == path_components(
                    r@[j]@,
                ),
            path_sorted(t),
            forall|j: int| 0 <= j < lo ==> path_lt(#[trigger] t[j], d@),
            forall|j: int| hi <= j < t.len() ==> !path_lt(#[trigger] t[j], d@),
        decreases hi - lo,
    {
        let mid = lo + (hi - lo) / 2;
        assert(component_views(rc@[mid as int]@) == path_components(t[mid as int]));
        if components_less(&rc[mid], &dc) {
            proof {
                assert forall|j: int| 0 <= j < mid + 1 implies path_lt(#[trigger] t[j], d@) by {
                    if j < mid {
                        lemma_components_transitive(
                            path_components(t[j]),
                            path_components(t[mid as int]),
                            dp,
                        );
                    }
                }
            }
            lo = mid + 1;
        } else {
            proof {
                assert forall|j: int| mid <= j < t.len() implies !path_lt(#[trigger] t[j], d@) by {
                    if j > mid && path_lt(t[j], d@) {
                        lemma_components_transitive(
                            path_components(t[mid as int]),
                            path_components(t[j]),
                            dp,
                        );
                    }
                }
            }
            hi = mid;
        }
    }
    let p = lo;
    if p < r.len() {
        assert(component_views(rc@[p as int]@) == path_components(t[p as int]));
        if components_equal(&rc[p], &dc) {
            assert(has_same_path(t, d@));
            return;
        }
    }
    proof {
        assert forall|j: int| 0 <= j < p implies path_components(#[trigger] t[j]) != dp by {
            lemma_components_irreflexive(dp);
        }
        if p < t.len() {
            lemma_components_trichotomy(path_components(t[p as int]), dp);
            assert(path_lt(d@, t[p as int]));
            assert forall|j: int| p <= j < t.len() implies path_lt(d@, #[trigger] t[j]) by {
                if j > p {
                    lemma_components_transitive(dp, path_components(t[p as int]), path_components(t[j]));
                }
            }
            assert forall|j: int| p <= j < t.len() implies path_components(#[trigger] t[j]) != dp by {
                assert(path_lt(d@, t[j]));
                lemma_components_irreflexive(dp);
            }
        }
        assert(!has_same_path(t, d@));
    }
    r.insert(p, d.clone());
    rc.insert(p, dc);
    proof {
        let nt = texts(r@);
        assert(nt =~= t.insert(p as int, d@));
        assert forall|j: int|
            0 <= j < rc@.len() implies component_views(#[trigger] rc@[j]@) == path_components(
                r@[j]@,
            ) by {
            if j < p {
                assert(rc@[j] == old(rc)@[j]);
            } else if j > p {
                assert(rc@[j] == old(rc)@[j - 1]);
            }
        }
        assert forall|i: int, j: int| 0 <= i < j < nt.len() implies path_lt(
            #[trigger] nt[i],
            #[trigger] nt[j],
        ) by {
            if j < p {
            } else if j == p {
                assert(nt[i] == t[i]);
            } else if i < p {
                assert(nt[j] == t[j - 1]);
                if j - 1 >= p as int {
                    lemma_components_transitive(path_components(t[i]), dp, path_components(t[j - 1]));
                }
            } else if i == p {
                assert(nt[j] == t[j - 1]);
            } else {
                assert(nt[i] == t[i - 1]);
                assert(nt[j] == t[j - 1]);
            }
        }
        assert forall|k: Seq<char>| nt.contains(k) <==> (t.contains(k) || k == d@) by {
            if nt.contains(k) {
                let i = choose|i: int| 0 <= i < nt.len() && nt[i] == k;
                if i < p {
                    assert(t[i] == k);
                } else if i > p {
                    assert(t[i - 1] == k);
                }
            }
            if t.contains(k) {
                let i = choose|i: int| 0 <= i < t.len() && t[i] == k;
                if i < p {
                    assert(nt[i] == k);
                } else {
                    assert(nt[i + 1] == k);
                }
            }
            if k == d@ {
                assert(nt[p as int] == k);
            }
        }
    }
}

/// The paths of the scanned files that are checked, in path order (as
/// `Path` compares them), each path once: of files with the same path
/// components, the first found is kept.  Invalid exclusion globs are an
/// error.
pub fn select_scanned_files(
    found: &Vec<ScannedFile>,
    file_extensions: &Vec<String>,
    exclude_patterns: &Vec<String>,
) -> (r: Result<Vec<String>, String>)
    ensures
        r is Err <==> !glob_set_compiles(texts(exclude_patterns@)),
        r matches Err(m) ==> glob_set_failure(texts(exclude_patterns@)) == Some(m@),
        r matches Ok(v) ==> {
            &&& path_sorted(texts(v@))
            &&& forall|k: Seq<char>|
                texts(v@).contains(k) <==> exists|i: int|
                    0 <= i < found@.len() && #[trigger] found@[i].path@ == k && first_of_path(
                        found@,
                        texts(file_extensions@),
                        texts(exclude_patterns@),
                        i,
                    )
        },
{
    let exclude_set = match build_glob_set(exclude_patterns) {
        Ok(set) => set,
        Err(e) => {
            return Err(e);
        },
    };
    let ghost ev = texts(file_extensions@);
    let ghost xv = texts(exclude_patterns@);
    let ghost fs = found@;
    let mut r: Vec<String> = Vec::new();
    let mut rc: Vec<Vec<Vec<char>>> = Vec::new();
    let mut i: usize = 0;
    while i < found.len()
        invariant
            i <= found.len(),
            fs == found@,
            ev == texts(file_extensions@),
            xv == texts(exclude_patterns@),
            glob_set_patterns(exclude_set) == xv,
            r@.len() == rc@.len(),
            forall|j: int|
                0 <= j < rc@.len() ==> component_views(#[trigger] rc@[j]@) == path_components(
                    r@[j]@,
                ),
            path_sorted(texts(r@)),
            forall|k: Seq<char>|
                texts(r@).contains(k) <==> exists|j: int|
                    0 <= j < i && #[trigger] fs[j].path@ == k && first_of_path(fs, ev, xv, j),
        decreases found.len() - i,
    {
        let f = &found[i];
        let ext_ok = has_target_extension(f.path.as_str(), file_extensions);
        let glob_ok = !glob_set_is_match(&exclude_set, f.rel.as_str());
        let keep = ext_ok && glob_ok;
        assert(keep == scanned_selected(fs[i as int], ev, xv));
        let ghost before = texts(r@);
        if keep {
            insert_by_path(&mut r, &mut rc, &f.path);
        }
        proof {
            // the new file is the first of its path exactly when it is kept
            // and no kept file so far has its path
            assert(first_of_path(fs, ev, xv, i as int) <==> (keep && !has_same_path(before, f.path@)))
                by {
                if keep && has_same_path(before, f.path@) {
                    let w = choose|w: int|
                        0 <= w < before.len() && path_components(#[trigger] before[w])
                            == path_components(f.path@);
                    assert(before.contains(before[w]));
                    let j = choose|j: int|
                        0 <= j < i && #[trigger] fs[j].path@ == before[w] && first_of_path(
                            fs,
                            ev,
                            xv,
                            j,
                        );
                    assert(scanned_selected(fs[j], ev, xv));
                }
                if keep && !first_of_path(fs, ev, xv, i as int) {
                    let j = choose|j: int|
                        0 <= j < i && scanned_selected(#[trigger] fs[j], ev, xv) && path_components(
                            fs[j].path@,
                        ) == path_components(fs[i as int].path@);
                    lemma_first_of_path_exists(fs, ev, xv, j);
                    let k = choose|k: int|
                        0 <= k <= j && first_of_path(fs, ev, xv, k) && path_components(
                            #[trigger] fs[k].path@,
                        ) == path_components(fs[j].path@);
                    assert(before.contains(fs[k].path@));
                    let w = choose|w: int| 0 <= w < before.len() && before[w] == fs[k].path@;
                    assert(path_components(before[w]) == path_components(f.path@));
                }
            }
            assert forall|k: Seq<char>| texts(r@).contains(k) <==> exists|j: int|
                0 <= j < i + 1 && #[trigger] fs[j].path@ == k && first_of_path(fs, ev, xv, j) by {
                if exists|j: int|
                    0 <= j < i + 1 && #[trigger] fs[j].path@ == k && first_of_path(fs, ev, xv, j) {
                    let j = choose|j: int|
                        0 <= j < i + 1 && #[trigger] fs[j].path@ == k && first_of_path(
                            fs,
                            ev,
                            xv,
                            j,
                        );
                    if j < i {
                        assert(before.contains(k));
                    }
                }
                if texts(r@).contains(k) && !(keep && k == f.path@ && !has_same_path(before, f.path@)) {
                    assert(before.contains(k));
                }
                if keep && k == f.path@ && !has_same_path(before, f.path@) {
                    assert(fs[i as int].path@ == k);
                }
            }
        }
        i = i + 1;
    }
    Ok(r)
}

} // verus!
