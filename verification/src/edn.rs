//! Dictionary files: their keys, and removing entries line by line.
use vstd::prelude::*;
use vstd::string::StringExecFns;

use crate::analyzer::contains_text;
use crate::key_collector::keyword_text;
use crate::key_model::kw;
use crate::names::{copy_range, lemma_prefix_before_split, prefix_before, texts};
use crate::parser::SExp;
use crate::text::{chars_of, string_from_chars, string_of, trim_chars, trim_text};

verus! {

// ---------------------------------------------------------------------------
// Dictionary keys
// ---------------------------------------------------------------------------
/// The keywords at even positions of a map's entries from index `i` on.
pub open spec fn entry_keys(e: Seq<SExp>, i: int) -> Seq<Seq<char>>
    decreases e.len() - i,
{
    if 0 <= i < e.len() {
        let here = if i % 2 == 0 {
            match e[i] {
                SExp::Keyword(k, _) => seq![kw(k@)],
                _ => seq![],
            }
        } else {
            seq![]
        };
        here + entry_keys(e, i + 1)
    } else {
        seq![]
    }
}

/// The keys of every top-level map, in order.
pub open spec fn dict_key_list(forms: Seq<SExp>) -> Seq<Seq<char>>
    decreases forms.len(),
{
    if forms.len() == 0 {
        seq![]
    } else {
        dict_key_list(forms.drop_last()) + match forms.last() {
            SExp::MapLiteral(e, _) => entry_keys(e@, 0),
            _ => seq![],
        }
    }
}

/// The texts, each once, in order of first occurrence.
pub open spec fn distinct(s: Seq<Seq<char>>) -> Seq<Seq<char>>
    decreases s.len(),
{
    if s.len() == 0 {
        seq![]
    } else {
        let prev = distinct(s.drop_last());
        if prev.contains(s.last()) {
            prev
        } else {
            prev.push(s.last())
        }
    }
}

/// The keys a parsed dictionary defines: the keyword keys of its top-level
/// maps, as `:ns/key`, each once.
pub fn dict_keys_from_forms(forms: &Vec<SExp>) -> (r: Vec<String>)
    ensures
        texts(r@) == distinct(dict_key_list(forms@)),
{
    let mut all: Vec<String> = Vec::new();
    let mut f: usize = 0;
    assert(texts(all@) =~= dict_key_list(forms@.subrange(0, 0)));
    while f < forms.len()
        invariant
            f <= forms.len(),
            texts(all@) == dict_key_list(forms@.subrange(0, f as int)),
        decreases forms.len() - f,
    {
        let ghost pre = forms@.subrange(0, f + 1);
        assert(pre.drop_last() =~= forms@.subrange(0, f as int));
        let ghost before = texts(all@);
        match &forms[f] {
            SExp::MapLiteral(e, _) => {
                let mut i: usize = 0;
                while i < e.len()
                    invariant
                        i <= e.len(),
                        texts(all@) + entry_keys(e@, i as int) == before + entry_keys(e@, 0),
                    decreases e.len() - i,
                {
                    let ghost here = texts(all@);
                    if i % 2 == 0 {
                        match &e[i] {
                            SExp::Keyword(k, _) => {
                                let t = keyword_text(k);
                                let ghost prev = all@;
                                all.push(t);
                                assert(texts(all@) =~= texts(prev).push(kw(k@)));
                                assert(texts(all@) =~= here + seq![kw(k@)]);
                                assert(here + seq![kw(k@)] + entry_keys(e@, i + 1) =~= here + (seq![
                                    kw(k@),
                                ] + entry_keys(e@, i + 1)));
                            },
                            _ => {
                                assert(here + entry_keys(e@, i + 1) =~= here + (Seq::<
                                    Seq<char>,
                                >::empty() + entry_keys(e@, i + 1)));
                            },
                        }
                    } else {
                        assert(here + entry_keys(e@, i + 1) =~= here + (Seq::<Seq<char>>::empty()
                            + entry_keys(e@, i + 1)));
                    }
                    i = i + 1;
                }
                assert(texts(all@) + Seq::<Seq<char>>::empty() =~= texts(all@));
            },
            _ => {
                assert(before + Seq::<Seq<char>>::empty() =~= before);
            },
        }
        f = f + 1;
    }
    assert(forms@.subrange(0, f as int) =~= forms@);
    let ghost src = texts(all@);
    let mut r: Vec<String> = Vec::new();
    let mut i: usize = 0;
    assert(texts(r@) =~= distinct(src.subrange(0, 0)));
    while i < all.len()
        invariant
            i <= all.len(),
            src == texts(all@),
            texts(r@) == distinct(src.subrange(0, i as int)),
        decreases all.len() - i,
    {
        let ghost pre = src.subrange(0, i + 1);
        assert(pre.drop_last() =~= src.subrange(0, i as int));
        if !contains_text(&r, &all[i]) {
            let ghost prev = r@;
            r.push(all[i].clone());
            assert(texts(r@) =~= texts(prev).push(src[i as int]));
        }
        i = i + 1;
    }
    assert(src.subrange(0, i as int) =~= src);
    r
}

// ---------------------------------------------------------------------------
// Lines
// ---------------------------------------------------------------------------
/// The text without one trailing carriage return.
pub open spec fn strip_cr(l: Seq<char>) -> Seq<char> {
    if l.len() > 0 && l.last() == '\r' {
        l.drop_last()
    } else {
        l
    }
}

/// The lines of a text (`str::lines`): split at `\n`, a `\r` before it
/// dropped; a final line ending is optional.
pub open spec fn text_lines(s: Seq<char>) -> Seq<Seq<char>>
    decreases s.len(),
{
    if s.len() == 0 {
        seq![]
    } else {
        let line = prefix_before(s, '\n');
        if line.len() >= s.len() {
            seq![line]
        } else {
            seq![strip_cr(line)] + text_lines(s.skip(line.len() + 1int))
        }
    }
}

/// The lines of a text.
pub fn lines_of(s: &Vec<char>) -> (r: Vec<Vec<char>>)
    ensures
        r@.len() == text_lines(s@).len(),
        forall|i: int| 0 <= i < r@.len() ==> #[trigger] r@[i]@ == text_lines(s@)[i],
{
    let mut r: Vec<Vec<char>> = Vec::new();
    let mut pos: usize = 0;
    let ghost target = text_lines(s@);
    assert(s@.skip(0) =~= s@);
    while pos < s.len()
        invariant
            pos <= s.len(),
            target == text_lines(s@),
            r@.len() + text_lines(s@.skip(pos as int)).len() == target.len(),
            forall|i: int| 0 <= i < r@.len() ==> #[trigger] r@[i]@ == target[i],
            forall|i: int|
                0 <= i < text_lines(s@.skip(pos as int)).len() ==> #[trigger] text_lines(
                    s@.skip(pos as int),
                )[i] == target[r@.len() + i],
        decreases s.len() - pos,
    {
        let mut j: usize = pos;
        while j < s.len() && s[j] != '\n'
            invariant
                pos <= j <= s.len(),
                forall|k: int| pos <= k < j ==> s@[k] != '\n',
            decreases s.len() - j,
        {
            j = j + 1;
        }
        let ghost rest = s@.skip(pos as int);
        proof {
            assert forall|k: int| 0 <= k < j - pos implies rest[k] != '\n' by {
                assert(rest[k] == s@[pos + k]);
            }
            lemma_prefix_before_split(rest, '\n', j - pos);
            let tail = rest.skip(j - pos);
            if j < s.len() {
                assert(tail[0] == '\n');
            }
            assert(prefix_before(tail, '\n') =~= Seq::<char>::empty());
            assert(rest.subrange(0, j - pos) =~= s@.subrange(pos as int, j as int));
            assert(s@.subrange(pos as int, j as int) + Seq::<char>::empty() =~= s@.subrange(
                pos as int,
                j as int,
            ));
        }
        let raw = copy_range(s, pos, j);
        let line = if j < s.len() && raw.len() > 0 && raw[raw.len() - 1] == '\r' {
            copy_range(&raw, 0, raw.len() - 1)
        } else {
            copy_range(&raw, 0, raw.len())
        };
        let ghost prev_len = r@.len();
        if j < s.len() {
            assert(line@ =~= strip_cr(raw@));
            assert(rest.skip(j - pos + 1) =~= s@.skip(j + 1));
            assert(text_lines(rest) == seq![strip_cr(raw@)] + text_lines(s@.skip(j + 1)));
            r.push(line);
            pos = j + 1;
            assert forall|i: int| 0 <= i < r@.len() implies #[trigger] r@[i]@ == target[i] by {
                if i == prev_len {
                    assert(text_lines(rest)[0] == strip_cr(raw@));
                }
            }
            assert forall|i: int|
                0 <= i < text_lines(s@.skip(pos as int)).len() implies #[trigger] text_lines(
                s@.skip(pos as int),
            )[i] == target[r@.len() + i] by {
                assert(text_lines(s@.skip(pos as int))[i] == text_lines(rest)[i + 1]);
            }
        } else {
            assert(line@ =~= raw@);
            assert(text_lines(rest) == seq![raw@]);
            r.push(line);
            pos = j;
            assert(s@.skip(pos as int) =~= Seq::<char>::empty());
            assert forall|i: int| 0 <= i < r@.len() implies #[trigger] r@[i]@ == target[i] by {
                if i == prev_len {
                    assert(text_lines(rest)[0] == raw@);
                }
            }
        }
    }
    assert(s@.skip(pos as int) =~= Seq::<char>::empty());
    r
}

// ---------------------------------------------------------------------------
// Removing entries
// ---------------------------------------------------------------------------
/// The entries of the first top-level map.
pub open spec fn first_map_entries(forms: Seq<SExp>, i: int) -> Option<Seq<SExp>>
    decreases forms.len() - i,
{
    if 0 <= i < forms.len() {
        match forms[i] {
            SExp::MapLiteral(e, _) => Some(e@),
            _ => first_map_entries(forms, i + 1),
        }
    } else {
        None
    }
}

/// A map entry's key: its 0-based start line and whether it is removed.
pub struct KeyLine {
    pub start: int,
    pub remove: bool,
}

/// The key lines of a map's entries from index `i` on: one per keyword at
/// an even position.
pub open spec fn key_lines(e: Seq<SExp>, remove: Seq<Seq<char>>, i: int) -> Seq<KeyLine>
    decreases e.len() - i,
{
    if 0 <= i < e.len() {
        let here = if i % 2 == 0 {
            match e[i] {
                SExp::Keyword(k, span) => seq![
                    KeyLine {
                        start: if span.line >= 1 {
                            span.line - 1
                        } else {
                            0
                        },
                        remove: remove.contains(kw(k@)),
                    },
                ],
                _ => seq![],
            }
        } else {
            seq![]
        };
        here + key_lines(e, remove, i + 1)
    } else {
        seq![]
    }
}

/// The last line that is `}` once trimmed.
pub open spec fn last_closing(lines: Seq<Seq<char>>, n: int) -> Option<int>
    decreases n,
{
    if n <= 0 || n > lines.len() {
        None
    } else if trim_text(lines[n - 1]) == "}"@ {
        Some(n - 1)
    } else {
        last_closing(lines, n - 1)
    }
}

/// The line of the closing brace: the last `}` line, or the last line.
pub open spec fn closing_line(lines: Seq<Seq<char>>) -> int {
    match last_closing(lines, lines.len() as int) {
        Some(i) => i,
        None => if lines.len() > 0 {
            lines.len() - 1
        } else {
            0
        },
    }
}

/// Where the lines of the entry at key index `k` end (exclusive): the next
/// entry's start line, or the closing brace.
pub open spec fn entry_end(kl: Seq<KeyLine>, k: int, closing: int) -> int {
    if k + 1 < kl.len() {
        kl[k + 1].start
    } else {
        closing
    }
}

/// Some removed entry starts on or after the line where it must end.
pub open spec fn has_compact_entry(kl: Seq<KeyLine>, closing: int) -> bool {
    exists|k: int| 0 <= k < kl.len() && #[trigger] kl[k].remove && kl[k].start >= entry_end(kl, k, closing)
}

/// Line `i` belongs to a removed entry.
pub open spec fn line_removed(kl: Seq<KeyLine>, closing: int, i: int) -> bool {
    exists|k: int|
        0 <= k < kl.len() && #[trigger] kl[k].remove && kl[k].start <= i < entry_end(kl, k, closing)
}

/// The kept lines, each followed by a newline, from line `i` on.
pub open spec fn kept_text(lines: Seq<Seq<char>>, kl: Seq<KeyLine>, closing: int, i: int) -> Seq<
    char,
>
    decreases lines.len() - i,
{
    if 0 <= i < lines.len() {
        (if line_removed(kl, closing, i) {
            seq![]
        } else {
            lines[i].push('\n')
        }) + kept_text(lines, kl, closing, i + 1)
    } else {
        seq![]
    }
}

pub open spec fn compact_message(path: Seq<char>) -> Seq<char> {
    "cannot remove key from '"@ + path
        + "': compact or single-line EDN format is not supported for --fix.  Reformat the file to use one key–value pair per line."@
}

/// Removing `remove` from a dictionary whose text is `content` and whose
/// parsed forms are `forms`: `Ok(None)` when no entry of the first map is to
/// be removed, `Ok(Some(text))` with the new text, or the compact-format
/// error.  The lines from each removed key up to the next key (or the
/// closing brace) are dropped; the text ends with a newline only if
/// `content` did.
pub open spec fn removal(
    content: Seq<char>,
    forms: Seq<SExp>,
    remove: Seq<Seq<char>>,
    path: Seq<char>,
) -> Result<Option<Seq<char>>, Seq<char>> {
    match first_map_entries(forms, 0) {
        None => Ok(None),
        Some(e) => if e.len() == 0 {
            Ok(None)
        } else {
            let kl = key_lines(e, remove, 0);
            if !(exists|k: int| 0 <= k < kl.len() && #[trigger] kl[k].remove) {
                Ok(None)
            } else {
                let lines = text_lines(content);
                let closing = closing_line(lines);
                if has_compact_entry(kl, closing) {
                    Err(compact_message(path))
                } else {
                    let out = kept_text(lines, kl, closing, 0);
                    if !(content.len() > 0 && content.last() == '\n') && out.len() > 0
                        && out.last() == '\n' {
                        Ok(Some(out.drop_last()))
                    } else {
                        Ok(Some(out))
                    }
                }
            }
        },
    }
}


pub open spec fn key_lines_view(v: Seq<(usize, bool)>) -> Seq<KeyLine> {
    v.map_values(|p: (usize, bool)| KeyLine { start: p.0 as int, remove: p.1 })
}

/// The key lines of a map's entries.
fn key_lines_of(e: &Vec<SExp>, keys: &Vec<String>) -> (r: Vec<(usize, bool)>)
    ensures
        key_lines_view(r@) == key_lines(e@, texts(keys@), 0),
{
    let ghost target = key_lines(e@, texts(keys@), 0);
    let mut r: Vec<(usize, bool)> = Vec::new();
    let mut i: usize = 0;
    while i < e.len()
        invariant
            i <= e.len(),
            target == key_lines(e@, texts(keys@), 0),
            key_lines_view(r@) + key_lines(e@, texts(keys@), i as int) == target,
        decreases e.len() - i,
    {
        let ghost before = key_lines_view(r@);
        let ghost rest = key_lines(e@, texts(keys@), i + 1);
        if i % 2 == 0 {
            match &e[i] {
                SExp::Keyword(k, span) => {
                    let start: usize = if span.line >= 1 {
                        (span.line - 1) as usize
                    } else {
                        0
                    };
                    let t = keyword_text(k);
                    let remove = contains_text(keys, &t);
                    let ghost prev = r@;
                    r.push((start, remove));
                    assert(key_lines_view(r@) =~= key_lines_view(prev).push(
                        KeyLine { start: start as int, remove },
                    ));
                    assert(before.push(KeyLine { start: start as int, remove }) + rest =~= before
                        + (seq![KeyLine { start: start as int, remove }] + rest));
                },
                _ => {
                    assert(before + rest =~= before + (Seq::<KeyLine>::empty() + rest));
                },
            }
        } else {
            assert(before + rest =~= before + (Seq::<KeyLine>::empty() + rest));
        }
        i = i + 1;
    }
    assert(key_lines_view(r@) + Seq::<KeyLine>::empty() =~= key_lines_view(r@));
    r
}

/// The entries of the first top-level map.
fn first_map_entries_of(forms: &Vec<SExp>) -> (r: Option<&Vec<SExp>>)
    ensures
        match r {
            Some(e) => first_map_entries(forms@, 0) == Some(e@),
            None => first_map_entries(forms@, 0) is None,
        },
{
    let mut f: usize = 0;
    while f < forms.len()
        invariant
            f <= forms.len(),
            first_map_entries(forms@, 0) == first_map_entries(forms@, f as int),
        decreases forms.len() - f,
    {
        match &forms[f] {
            SExp::MapLiteral(e, _) => {
                return Some(e);
            },
            _ => {},
        }
        f = f + 1;
    }
    None
}

/// The line of the closing brace.
fn closing_line_of(lines: &Vec<Vec<char>>, lv: Ghost<Seq<Seq<char>>>) -> (r: usize)
    requires
        lines@.len() == lv@.len(),
        forall|i: int| 0 <= i < lines@.len() ==> #[trigger] lines@[i]@ == lv@[i],
    ensures
        r as int == closing_line(lv@),
{
    let mut c: usize = lines.len();
    assert(last_closing(lv@, lv@.len() as int) == last_closing(lv@, c as int));
    while c > 0
        invariant
            c <= lines@.len() == lv@.len(),
            forall|i: int| 0 <= i < lines@.len() ==> #[trigger] lines@[i]@ == lv@[i],
            last_closing(lv@, lv@.len() as int) == last_closing(lv@, c as int),
        decreases c,
    {
        let t = trim_chars(&lines[c - 1]);
        let is_close = t.len() == 1 && t[0] == '}';
        proof {
            reveal_strlit("}");
            if is_close {
                assert(t@ =~= "}"@);
            } else {
                assert(t@ != "}"@);
            }
        }
        if is_close {
            return c - 1;
        }
        c = c - 1;
    }
    if lines.len() > 0 {
        lines.len() - 1
    } else {
        0
    }
}

/// Remove the entries of `keys_to_remove` from a dictionary whose text is
/// `content` and whose parsed forms are `forms` (`path` names the file in
/// the error).  `Ok(None)`: nothing to remove; `Ok(Some(text))`: the new
/// text.  A removed entry that shares its line with the next entry or the
/// closing brace is an error.
#[verifier::loop_isolation(false)]
pub fn remove_keys_from_dict(
    content: &str,
    forms: &Vec<SExp>,
    keys_to_remove: &Vec<String>,
    path: &str,
) -> (r: Result<Option<String>, String>)
    ensures
        match r {
            Ok(None) => removal(content@, forms@, texts(keys_to_remove@), path@) == Ok::<
                Option<Seq<char>>,
                Seq<char>,
            >(None),
            Ok(Some(t)) => removal(content@, forms@, texts(keys_to_remove@), path@) == Ok::<
                Option<Seq<char>>,
                Seq<char>,
            >(Some(t@)),
            Err(m) => removal(content@, forms@, texts(keys_to_remove@), path@) == Err::<
                Option<Seq<char>>,
                Seq<char>,
            >(m@),
        },
{
    let e = match first_map_entries_of(forms) {
        None => {
            return Ok(None);
        },
        Some(e) => e,
    };
    assert(first_map_entries(forms@, 0) == Some(e@));
    if e.len() == 0 {
        return Ok(None);
    }
    let kl = key_lines_of(e, keys_to_remove);
    let ghost klv = key_lines_view(kl@);
    let mut any = false;
    let mut k: usize = 0;
    while k < kl.len()
        invariant
            k <= kl.len(),
            klv == key_lines_view(kl@),
            any <==> exists|j: int| 0 <= j < k && #[trigger] klv[j].remove,
        decreases kl.len() - k,
    {
        if kl[k].1 {
            assert(klv[k as int].remove);
            any = true;
        }
        k = k + 1;
    }
    assert(klv.len() == kl@.len());
    if !any {
        return Ok(None);
    }
    assert(exists|j: int| 0 <= j < klv.len() && #[trigger] klv[j].remove);
    let chars = chars_of(content);
    let lines = lines_of(&chars);
    let ghost lv = text_lines(content@);
    let close = closing_line_of(&lines, Ghost(lv));
    assert(close as int == closing_line(lv));
    // compact entries
    let mut k: usize = 0;
    while k < kl.len()
        invariant
            k <= kl.len(),
            klv == key_lines_view(kl@),
            close as int == closing_line(lv),
            forall|j: int|
                0 <= j < k ==> !(#[trigger] klv[j].remove && klv[j].start >= entry_end(
                    klv,
                    j,
                    close as int,
                )),
        decreases kl.len() - k,
    {
        let end: usize = if k + 1 < kl.len() {
            kl[k + 1].0
        } else {
            close
        };
        if kl[k].1 && kl[k].0 >= end {
            assert(klv[k as int].remove && klv[k as int].start >= entry_end(klv, k as int, close as int));
            let mut m = string_of("cannot remove key from '");
            m.append(path);
            m.append(
                "': compact or single-line EDN format is not supported for --fix.  Reformat the file to use one key–value pair per line.",
            );
            assert(has_compact_entry(klv, close as int));
            return Err(m);
        }
        k = k + 1;
    }
    assert(!has_compact_entry(klv, close as int));
    // mark the removed lines
    let n = lines.len();
    let mut marks: Vec<bool> = Vec::new();
    let mut i: usize = 0;
    while i < n
        invariant
            i <= n,
            marks@.len() == i,
            forall|j: int| 0 <= j < i ==> !#[trigger] marks@[j],
        decreases n - i,
    {
        marks.push(false);
        i = i + 1;
    }
    let mut k: usize = 0;
    while k < kl.len()
        invariant
            k <= kl.len(),
            n == lines@.len() == lv.len(),
            klv == key_lines_view(kl@),
            marks@.len() == n,
            forall|j: int|
                0 <= j < n ==> (#[trigger] marks@[j] <==> exists|q: int|
                    0 <= q < k && #[trigger] klv[q].remove && klv[q].start <= j < entry_end(
                        klv,
                        q,
                        close as int,
                    )),
        decreases kl.len() - k,
    {
        if kl[k].1 {
            let end: usize = if k + 1 < kl.len() {
                kl[k + 1].0
            } else {
                close
            };
            let stop = if end < n {
                end
            } else {
                n
            };
            assert(end as int == entry_end(klv, k as int, close as int));
            let mut j: usize = kl[k].0;
            let ghost before = marks@;
            while j < stop
                invariant
                    k < kl@.len(),
                    before.len() == n,
                    kl@[k as int].0 <= j,
                    j <= stop || j == kl@[k as int].0,
                    stop <= n,
                    stop <= end,
                    marks@.len() == n,
                    forall|x: int|
                        0 <= x < n ==> (#[trigger] marks@[x] <==> (before[x] || (kl@[k as int].0 <= x
                            < j))),
                decreases stop - j,
            {
                marks.set(j, true);
                j = j + 1;
            }
            assert forall|x: int| 0 <= x < n implies (#[trigger] marks@[x] <==> exists|q: int|
                0 <= q < k + 1 && #[trigger] klv[q].remove && klv[q].start <= x < entry_end(
                    klv,
                    q,
                    close as int,
                )) by {
                if kl[k as int].0 <= x < j {
                    assert(klv[k as int].remove && klv[k as int].start <= x && x < entry_end(
                        klv,
                        k as int,
                        close as int,
                    ));
                }
                if klv[k as int].start <= x < entry_end(klv, k as int, close as int) {
                    assert(marks@[x]);
                }
            }
        } else {
            assert forall|x: int| 0 <= x < n implies (#[trigger] marks@[x] <==> exists|q: int|
                0 <= q < k + 1 && #[trigger] klv[q].remove && klv[q].start <= x < entry_end(
                    klv,
                    q,
                    close as int,
                )) by {
                if exists|q: int|
                    0 <= q < k + 1 && #[trigger] klv[q].remove && klv[q].start <= x < entry_end(
                        klv,
                        q,
                        close as int,
                    ) {
                    let q = choose|q: int|
                        0 <= q < k + 1 && #[trigger] klv[q].remove && klv[q].start <= x < entry_end(
                            klv,
                            q,
                            close as int,
                        );
                    assert(q != k);
                }
            }
        }
        k = k + 1;
    }
    // the kept lines
    let ghost target = kept_text(lv, klv, close as int, 0);
    let mut out: Vec<char> = Vec::new();
    let mut i: usize = 0;
    while i < n
        invariant
            i <= n == lines@.len() == lv.len() == marks@.len(),
            forall|j: int| 0 <= j < lines@.len() ==> #[trigger] lines@[j]@ == lv[j],
            forall|j: int| 0 <= j < n ==> (#[trigger] marks@[j] <==> line_removed(klv, close as int, j)),
            target == kept_text(lv, klv, close as int, 0),
            out@ + kept_text(lv, klv, close as int, i as int) == target,
        decreases n - i,
    {
        let ghost before = out@;
        let ghost rest = kept_text(lv, klv, close as int, i + 1);
        if !marks[i] {
            let line = &lines[i];
            let mut q: usize = 0;
            while q < line.len()
                invariant
                    q <= line@.len(),
                    out@ == before + line@.subrange(0, q as int),
                decreases line.len() - q,
            {
                out.push(line[q]);
                q = q + 1;
                assert(out@ =~= before + line@.subrange(0, q as int));
            }
            out.push('\n');
            assert(line@.subrange(0, q as int) =~= line@);
            assert(out@ =~= before + lv[i as int].push('\n'));
            assert(before + lv[i as int].push('\n') + rest =~= before + (lv[i as int].push('\n')
                + rest));
        } else {
            assert(before + rest =~= before + (Seq::<char>::empty() + rest));
        }
        i = i + 1;
    }
    assert(out@ + Seq::<char>::empty() =~= out@);
    assert(out@ == kept_text(lv, klv, close as int, 0));
    assert(klv == key_lines(e@, texts(keys_to_remove@), 0));
    assert(lv == text_lines(content@));
    assert(close as int == closing_line(lv));
    assert(first_map_entries(forms@, 0) == Some(e@));
    assert(!has_compact_entry(klv, close as int));
    if !(chars.len() > 0 && chars[chars.len() - 1] == '\n') && out.len() > 0 && out[out.len() - 1]
        == '\n' {
        let trimmed = copy_range(&out, 0, out.len() - 1);
        assert(trimmed@ =~= out@.drop_last());
        return Ok(Some(string_from_chars(&trimmed)));
    }
    Ok(Some(string_from_chars(&out)))
}

} // verus!
