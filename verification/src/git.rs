//! Which git-changed files are checked.
use vstd::prelude::*;
use vstd::string::StringExecFns;

use crate::checker::strictly_sorted;
use crate::config::AppConfig;
use crate::names::{ends_with, ends_with_chars, texts};
use crate::paths::{path_starts_with, path_starts_with_of};
use crate::patterns::{
    build_glob_set, glob_set_compiles, glob_set_failure, glob_set_is_match, glob_set_matches,
    glob_set_patterns,
};
use crate::text::{chars_of, string_of};

verus! {

/// The file name ends with `.` and one of the extensions.
pub open spec fn has_extension_suffix(file: Seq<char>, exts: Seq<Seq<char>>) -> bool {
    exists|i: int| 0 <= i < exts.len() && ends_with(file, "."@ + #[trigger] exts[i])
}

/// True when the file name ends with `.` and one of the extensions.
pub fn has_target_extension(file: &str, extensions: &Vec<String>) -> (r: bool)
    ensures
        r == has_extension_suffix(file@, texts(extensions@)),
{
    let f = chars_of(file);
    let mut i: usize = 0;
    while i < extensions.len()
        invariant
            i <= extensions.len(),
            f@ == file@,
            forall|j: int| 0 <= j < i ==> !ends_with(file@, "."@ + #[trigger] texts(extensions@)[j]),
        decreases extensions.len() - i,
    {
        let mut suffix = string_of(".");
        suffix.append(extensions[i].as_str());
        let sc = chars_of(suffix.as_str());
        if ends_with_chars(&f, &sc) {
            assert(ends_with(file@, "."@ + texts(extensions@)[i as int]));
            return true;
        }
        i = i + 1;
    }
    false
}

/// True when the path lies under one of the directories.
pub open spec fn under_some_dir(f: Seq<char>, dirs: Seq<Seq<char>>) -> bool {
    exists|i: int| 0 <= i < dirs.len() && path_starts_with(f, #[trigger] dirs[i])
}

fn under_some_dir_of(f: &str, dirs: &Vec<String>) -> (r: bool)
    ensures
        r == under_some_dir(f@, texts(dirs@)),
{
    let mut i: usize = 0;
    while i < dirs.len()
        invariant
            i <= dirs.len(),
            forall|j: int| 0 <= j < i ==> !path_starts_with(f@, #[trigger] texts(dirs@)[j]),
        decreases dirs.len() - i,
    {
        if path_starts_with_of(f, dirs[i].as_str()) {
            assert(path_starts_with(f@, texts(dirs@)[i as int]));
            return true;
        }
        i = i + 1;
    }
    false
}

/// A file is checked when it has a target extension, lies under an
/// included directory and matches no exclusion glob.
pub open spec fn selected_file(
    f: Seq<char>,
    exts: Seq<Seq<char>>,
    dirs: Seq<Seq<char>>,
    exclude: Seq<Seq<char>>,
) -> bool {
    &&& has_extension_suffix(f, exts)
    &&& under_some_dir(f, dirs)
    &&& !glob_set_matches(exclude, f)
}

/// A changed file is checked when a full scan would check it.
pub open spec fn selected_change(f: Seq<char>, config: AppConfig) -> bool {
    selected_file(
        f,
        texts(config.file_extensions@),
        texts(config.include_dirs@),
        texts(config.lint.exclude_patterns@),
    )
}

/// The changed files (paths relative to the repository, as git reports
/// them) that a full scan would also check: sorted, each once.  Invalid
/// exclusion globs are an error.
pub fn changed_files(candidates: &Vec<String>, config: &AppConfig) -> (r: Result<
    Vec<String>,
    String,
>)
    ensures
        r is Err <==> !glob_set_compiles(texts(config.lint.exclude_patterns@)),
        r matches Err(m) ==> glob_set_failure(texts(config.lint.exclude_patterns@)) == Some(m@),
        r matches Ok(v) ==> {
            &&& strictly_sorted(texts(v@))
            &&& forall|k: Seq<char>|
                texts(v@).contains(k) <==> (texts(candidates@).contains(k) && selected_change(
                    k,
                    *config,
                ))
        },
{
    let exclude = &config.lint.exclude_patterns;
    let exclude_set = match build_glob_set(exclude) {
        Ok(set) => set,
        Err(e) => {
            return Err(e);
        },
    };
    let ghost ct = texts(candidates@);
    let ghost ev = texts(config.file_extensions@);
    let ghost dv = texts(config.include_dirs@);
    let ghost xv = texts(config.lint.exclude_patterns@);
    let mut r: Vec<String> = Vec::new();
    let mut rc: Vec<Vec<char>> = Vec::new();
    let mut i: usize = 0;
    while i < candidates.len()
        invariant
            i <= candidates.len(),
            ct == texts(candidates@),
            ev == texts(config.file_extensions@),
            dv == texts(config.include_dirs@),
            xv == texts(config.lint.exclude_patterns@),
            glob_set_compiles(xv),
            glob_set_patterns(exclude_set) == xv,
            r@.len() == rc@.len(),
            forall|j: int| 0 <= j < rc@.len() ==> #[trigger] rc@[j]@ == r@[j]@,
            strictly_sorted(texts(r@)),
            forall|k: Seq<char>|
                texts(r@).contains(k) <==> (ct.subrange(0, i as int).contains(k) && selected_file(k, ev, dv, xv)),
        decreases candidates.len() - i,
    {
        let f = &candidates[i];
        let ext_ok = has_target_extension(f.as_str(), &config.file_extensions);
        let dir_ok = under_some_dir_of(f.as_str(), &config.include_dirs);
        let glob_ok = !glob_set_is_match(&exclude_set, f.as_str());
        let keep = ext_ok && dir_ok && glob_ok;
        assert(keep == selected_file(f@, ev, dv, xv));
        let ghost before = texts(r@);
        if keep {
            crate::checker::insert_sorted(&mut r, &mut rc, f);
        }
        assert(forall|k: Seq<char>| texts(r@).contains(k) <==> (before.contains(k) || (keep && k == f@)));
        proof {
            assert forall|k: Seq<char>| texts(r@).contains(k) <==> (ct.subrange(0, i + 1).contains(k)
                && selected_file(k, ev, dv, xv)) by {
                let pre = ct.subrange(0, i as int);
                let now = ct.subrange(0, i + 1);
                assert(now =~= pre.push(f@));
                if now.contains(k) && !pre.contains(k) {
                    assert(k == f@);
                }
                if pre.contains(k) {
                    let j = choose|j: int| 0 <= j < pre.len() && pre[j] == k;
                    assert(now[j] == k);
                }
                if k == f@ {
                    assert(now[i as int] == k);
                }
                if before.contains(k) {
                    assert(pre.contains(k) && selected_file(k, ev, dv, xv));
                }
            }
        }
        i = i + 1;
    }
    assert(ct.subrange(0, i as int) =~= ct);
    assert(forall|k: Seq<char>| selected_file(k, ev, dv, xv) == selected_change(k, *config));
    Ok(r)
}

} // verus!
