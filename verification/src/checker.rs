//! Unused translation keys, and removing them from the dictionaries.
use vstd::prelude::*;
use vstd::string::StringExecFns;

use crate::analyzer::{contains_text, opt_text};
use crate::config::CheckKeysConfig;
use crate::edn::{distinct, remove_keys_from_dict, removal};
use crate::names::{copy_range, first_segment, first_segment_of, starts_with, starts_with_chars, texts};
use crate::order::{
    lemma_text_lt_irreflexive, lemma_text_lt_transitive, lemma_text_lt_trichotomy, text_less,
    text_lt,
};
use crate::parser::SExp;
use crate::patterns::{
    pattern_set_patterns, regex_set_compiles, regex_set_error, regex_set_is_match,
    regex_set_matches, regex_set_new, PatternSet,
};
use crate::text::{chars_of, string_from_chars, string_of};

verus! {

/// The outcome of the unused-key check.
pub struct CheckResult {
    pub unused_keys: Vec<String>,
    pub total_defined: usize,
    pub total_referenced: usize,
}

/// The namespace of a keyword text `:ns/name` (the part before the first
/// `/`), if it starts with `:`.
pub open spec fn key_namespace(key: Seq<char>) -> Option<Seq<char>> {
    if key.len() > 0 && key[0] == ':' {
        Some(first_segment(key.skip(1)))
    } else {
        None
    }
}

/// Extract the namespace part from a keyword string like `:ns/name`.
pub fn extract_key_namespace(key: &str) -> (r: Option<String>)
    ensures
        opt_text(r) == key_namespace(key@),
{
    let k = chars_of(key);
    if !(k.len() > 0 && k[0] == ':') {
        return None;
    }
    let rest = copy_range(&k, 1, k.len());
    assert(rest@ =~= key@.skip(1));
    let ns = first_segment_of(&rest);
    Some(string_from_chars(&ns))
}

/// A namespace is ignored when it is one of the ignored namespaces or lies
/// below one (`ignored.` followed by more).
pub open spec fn namespace_ignored(ns: Seq<char>, ignore: Seq<Seq<char>>) -> bool {
    exists|i: int|
        0 <= i < ignore.len() && (ns == #[trigger] ignore[i] || starts_with(ns, ignore[i] + "."@))
}

/// True when the namespace is ignored.
pub fn is_namespace_ignored(ns: &str, ignore: &Vec<String>) -> (r: bool)
    ensures
        r == namespace_ignored(ns@, texts(ignore@)),
{
    let n = chars_of(ns);
    let ns_string = string_of(ns);
    let mut i: usize = 0;
    while i < ignore.len()
        invariant
            i <= ignore.len(),
            n@ == ns@,
            ns_string@ == ns@,
            forall|j: int|
                0 <= j < i ==> !(ns@ == #[trigger] texts(ignore@)[j] || starts_with(
                    ns@,
                    texts(ignore@)[j] + "."@,
                )),
        decreases ignore.len() - i,
    {
        let mut p = ignore[i].clone();
        p.append(".");
        let pc = chars_of(p.as_str());
        if ignore[i] == ns_string || starts_with_chars(&n, &pc) {
            assert(ns@ == texts(ignore@)[i as int] || starts_with(ns@, texts(ignore@)[i as int] + "."@));
            return true;
        }
        i = i + 1;
    }
    false
}

/// A key is unused when it is defined, not referenced, not always used
/// (matched by the always-used patterns, when there are any), and not in an
/// ignored namespace.
pub open spec fn is_unused(
    key: Seq<char>,
    defined: Seq<Seq<char>>,
    referenced: Seq<Seq<char>>,
    always: Seq<Seq<char>>,
    ignore: Seq<Seq<char>>,
) -> bool {
    &&& defined.contains(key)
    &&& !referenced.contains(key)
    &&& !(always.len() > 0 && regex_set_matches(always, key))
    &&& !(match key_namespace(key) {
        Some(ns) => namespace_ignored(ns, ignore),
        None => false,
    })
}

/// The key survives the filters (it may still be referenced).
fn kept_by_filters(key: &String, always: &PatternSet, ignore: &Vec<String>) -> (r: bool)
    ensures
        r == (!(pattern_set_patterns(*always).len() > 0 && regex_set_matches(
            pattern_set_patterns(*always),
            key@,
        )) && !(match key_namespace(key@) {
            Some(ns) => namespace_ignored(ns, texts(ignore@)),
            None => false,
        })),
{
    if regex_set_is_match(always, key.as_str()) {
        return false;
    }
    match extract_key_namespace(key.as_str()) {
        Some(ns) => !is_namespace_ignored(ns.as_str(), ignore),
        None => true,
    }
}

pub open spec fn strictly_sorted(s: Seq<Seq<char>>) -> bool {
    forall|i: int, j: int| 0 <= i < j < s.len() ==> text_lt(#[trigger] s[i], #[trigger] s[j])
}

/// The number of different texts.
fn distinct_count(v: &Vec<String>) -> (r: usize)
    ensures
        r == distinct(texts(v@)).len(),
{
    let mut seen: Vec<String> = Vec::new();
    let mut i: usize = 0;
    assert(texts(seen@) =~= distinct(texts(v@).subrange(0, 0)));
    while i < v.len()
        invariant
            i <= v.len(),
            texts(seen@) == distinct(texts(v@).subrange(0, i as int)),
            seen@.len() <= i,
        decreases v.len() - i,
    {
        let ghost pre = texts(v@).subrange(0, i + 1);
        assert(pre.drop_last() =~= texts(v@).subrange(0, i as int));
        if !contains_text(&seen, &v[i]) {
            let ghost prev = seen@;
            seen.push(v[i].clone());
            assert(texts(seen@) =~= texts(prev).push(v@[i as int]@));
        }
        i = i + 1;
    }
    assert(texts(v@).subrange(0, i as int) =~= texts(v@));
    seen.len()
}

/// Insert `d` into the strictly sorted `r` (with `rc` holding the same
/// texts as characters) unless it is there already.
pub(crate) fn insert_sorted(r: &mut Vec<String>, rc: &mut Vec<Vec<char>>, d: &String)
    requires
        old(r)@.len() == old(rc)@.len(),
        forall|j: int| 0 <= j < old(rc)@.len() ==> #[trigger] old(rc)@[j]@ == old(r)@[j]@,
        strictly_sorted(texts(old(r)@)),
    ensures
        final(r)@.len() == final(rc)@.len(),
        forall|j: int| 0 <= j < final(rc)@.len() ==> #[trigger] final(rc)@[j]@ == final(r)@[j]@,
        strictly_sorted(texts(final(r)@)),
        forall|k: Seq<char>| texts(final(r)@).contains(k) <==> (texts(old(r)@).contains(k) || k == d@),
{
    let dc = chars_of(d.as_str());
    let ghost t = texts(r@);
    let mut lo: usize = 0;
    let mut hi: usize = r.len();
    while lo < hi
        invariant
            lo <= hi <= r@.len() == rc@.len(),
            t == texts(r@),
            r@ == old(r)@,
            rc@ == old(rc)@,
            dc@ == d@,
            forall|j: int| 0 <= j < rc@.len() ==> #[trigger] rc@[j]@ == r@[j]@,
            strictly_sorted(t),
            forall|j: int| 0 <= j < lo ==> text_lt(#[trigger] t[j], d@),
            forall|j: int| hi <= j < t.len() ==> !text_lt(#[trigger] t[j], d@),
        decreases hi - lo,
    {
        let mid = lo + (hi - lo) / 2;
        if text_less(&rc[mid], &dc) {
            proof {
                assert forall|j: int| 0 <= j < mid + 1 implies text_lt(#[trigger] t[j], d@) by {
                    if j < mid {
                        lemma_text_lt_transitive(t[j], t[mid as int], d@);
                    }
                }
            }
            lo = mid + 1;
        } else {
            proof {
                assert forall|j: int| mid <= j < t.len() implies !text_lt(#[trigger] t[j], d@) by {
                    if j > mid && text_lt(t[j], d@) {
                        lemma_text_lt_transitive(t[mid as int], t[j], d@);
                    }
                }
            }
            hi = mid;
        }
    }
    let p = lo;
    if p < r.len() && r[p] == *d {
        assert(t[p as int] == d@);
        assert(texts(r@).contains(d@));
        return;
    }
    proof {
        if p < t.len() {
            assert(!text_lt(t[p as int], d@));
            assert(t[p as int] != d@);
            lemma_text_lt_trichotomy(t[p as int], d@);
            assert forall|j: int| p <= j < t.len() implies text_lt(d@, #[trigger] t[j]) by {
                if j > p {
                    lemma_text_lt_transitive(d@, t[p as int], t[j]);
                }
            }
        }
    }
    r.insert(p, d.clone());
    rc.insert(p, dc);
    proof {
        let nt = texts(r@);
        assert(nt =~= t.insert(p as int, d@));
        assert forall|i: int, j: int| 0 <= i < j < nt.len() implies text_lt(
            #[trigger] nt[i],
            #[trigger] nt[j],
        ) by {
            if j < p {
            } else if j == p {
                assert(nt[i] == t[i]);
            } else if i < p {
                assert(nt[j] == t[j - 1]);
                if j - 1 >= p as int {
                    lemma_text_lt_transitive(t[i], d@, t[j - 1]);
                }
            } else if i == p {
                assert(nt[j] == t[j - 1]);
            } else {
                assert(nt[i] == t[i - 1]);
                assert(nt[j] == t[j - 1]);
            }
        }
        assert forall|k: Seq<char>| nt.contains(k) <==> (t.contains(k) || k == d@) by {
            if nt.contains(k) {
                let i = choose|i: int| 0 <= i < nt.len() && nt[i] == k;
                if i < p {
                    assert(t[i] == k);
                } else if i > p {
                    assert(t[i - 1] == k);
                }
            }
            if t.contains(k) {
                let i = choose|i: int| 0 <= i < t.len() && t[i] == k;
                if i < p {
                    assert(nt[i] == k);
                } else {
                    assert(nt[i + 1] == k);
                }
            }
            if k == d@ {
                assert(nt[p as int] == k);
            }
        }
    }
}

pub open spec fn always_message(always: Seq<Seq<char>>) -> Seq<char> {
    "invalid always_used_key_patterns regex: "@ + regex_set_error(always)->0
}

/// The unused keys of a dictionary: keys in `defined` that are not in
/// `referenced`, do not match the always-used patterns and are not in an
/// ignored namespace; sorted, each once.  Invalid always-used patterns are
/// an error.
pub fn check_unused_keys(
    defined: &Vec<String>,
    referenced: &Vec<String>,
    config: &CheckKeysConfig,
) -> (r: Result<CheckResult, String>)
    ensures
        r is Err <==> (config.always_used_key_patterns@.len() > 0 && !regex_set_compiles(
            texts(config.always_used_key_patterns@),
        )),
        r matches Err(m) ==> m@ == always_message(texts(config.always_used_key_patterns@)),
        r matches Ok(c) ==> {
            &&& strictly_sorted(texts(c.unused_keys@))
            &&& forall|k: Seq<char>|
                texts(c.unused_keys@).contains(k) <==> is_unused(
                    k,
                    texts(defined@),
                    texts(referenced@),
                    texts(config.always_used_key_patterns@),
                    texts(config.ignore_key_namespaces@),
                )
            &&& c.total_defined == distinct(texts(defined@)).len()
            &&& c.total_referenced == distinct(texts(referenced@)).len()
        },
{
    let always = &config.always_used_key_patterns;
    let ignore = &config.ignore_key_namespaces;
    let always_set = match regex_set_new(always) {
        Ok(set) => set,
        Err(e) => {
            let mut m = string_of("invalid always_used_key_patterns regex: ");
            m.append(e.as_str());
            return Err(m);
        },
    };
    let ghost dt = texts(defined@);
    let ghost rt = texts(referenced@);
    let ghost at = texts(always@);
    let ghost it = texts(ignore@);
    let mut r: Vec<String> = Vec::new();
    let mut rc: Vec<Vec<char>> = Vec::new();
    let mut i: usize = 0;
    while i < defined.len()
        invariant
            i <= defined.len(),
            dt == texts(defined@),
            rt == texts(referenced@),
            at == texts(always@),
            it == texts(ignore@),
            pattern_set_patterns(always_set) == at,
            r@.len() == rc@.len(),
            forall|j: int| 0 <= j < rc@.len() ==> #[trigger] rc@[j]@ == r@[j]@,
            strictly_sorted(texts(r@)),
            forall|k: Seq<char>|
                texts(r@).contains(k) <==> (dt.subrange(0, i as int).contains(k) && is_unused(
                    k,
                    dt,
                    rt,
                    at,
                    it,
                )),
        decreases defined.len() - i,
    {
        let d = &defined[i];
        let keep = !contains_text(referenced, d) && kept_by_filters(d, &always_set, ignore);
        let ghost before = texts(r@);
        if keep {
            insert_sorted(&mut r, &mut rc, d);
        }
        proof {
            assert forall|k: Seq<char>| texts(r@).contains(k) <==> (dt.subrange(0, i + 1).contains(k)
                && is_unused(k, dt, rt, at, it)) by {
                let pre = dt.subrange(0, i as int);
                let now = dt.subrange(0, i + 1);
                assert(now =~= pre.push(d@));
                if now.contains(k) && !pre.contains(k) {
                    assert(k == d@);
                }
                if pre.contains(k) {
                    let j = choose|j: int| 0 <= j < pre.len() && pre[j] == k;
                    assert(now[j] == k);
                }
                if k == d@ {
                    assert(dt[i as int] == k);
                    assert(now[i as int] == k);
                }
            }
        }
        i = i + 1;
    }
    assert(dt.subrange(0, i as int) =~= dt);
    let total_defined = distinct_count(defined);
    let total_referenced = distinct_count(referenced);
    Ok(CheckResult { unused_keys: r, total_defined, total_referenced })
}

/// A dictionary file: its path, text and parsed forms.
pub struct DictFile {
    pub path: String,
    pub content: String,
    pub forms: Vec<SExp>,
}

pub open spec fn outcome_view(o: Result<Option<String>, String>) -> Result<
    Option<Seq<char>>,
    Seq<char>,
> {
    match o {
        Ok(Some(t)) => Ok(Some(t@)),
        Ok(None) => Ok(None),
        Err(e) => Err(e@),
    }
}

/// Remove the unused keys from each dictionary, in order: for each file,
/// its new text (`Ok(Some(..))`), no change (`Ok(None)`), or an error, after
/// which no further file is handled.
pub fn fix_unused_keys(dicts: &Vec<DictFile>, unused: &Vec<String>) -> (r: Vec<
    Result<Option<String>, String>,
>)
    ensures
        r@.len() <= dicts@.len(),
        forall|i: int|
            0 <= i < r@.len() ==> outcome_view(#[trigger] r@[i]) == removal(
                dicts@[i].content@,
                dicts@[i].forms@,
                texts(unused@),
                dicts@[i].path@,
            ),
        forall|i: int| 0 <= i < r@.len() - 1 ==> #[trigger] r@[i] is Ok,
        r@.len() < dicts@.len() ==> r@.len() > 0 && r@.last() is Err,
{
    let mut r: Vec<Result<Option<String>, String>> = Vec::new();
    let mut i: usize = 0;
    while i < dicts.len()
        invariant
            i <= dicts.len(),
            r@.len() == i,
            forall|j: int|
                0 <= j < r@.len() ==> outcome_view(#[trigger] r@[j]) == removal(
                    dicts@[j].content@,
                    dicts@[j].forms@,
                    texts(unused@),
                    dicts@[j].path@,
                ),
            forall|j: int| 0 <= j < r@.len() ==> #[trigger] r@[j] is Ok,
        decreases dicts.len() - i,
    {
        let d = &dicts[i];
        let o = remove_keys_from_dict(d.content.as_str(), &d.forms, unused, d.path.as_str());
        let failed = o.is_err();
        assert(outcome_view(o) == removal(d.content@, d.forms@, texts(unused@), d.path@));
        r.push(o);
        if failed {
            return r;
        }
        i = i + 1;
    }
    r
}

} // verus!
