//! What the reports show: previews, the table layout and the summary.
use vstd::prelude::*;
use vstd::string::StringExecFns;

use crate::analyzer::{kind_label, Diagnostic, DiagnosticKind};
use crate::names::copy_range;
use crate::text::{chars_of, decimal_string, string_from_chars, string_of};
use crate::read_model::decimal;

verus! {

/// The output format of the lint report.
#[derive(Debug, Clone, Copy, PartialEq, Eq, Structural)]
pub enum OutputFormat {
    Table,
    Compact,
}

impl OutputFormat {
    /// The format's name as it is displayed.
    pub fn to_string(&self) -> (r: String)
        ensures
            r@ == (match *self {
                OutputFormat::Table => "table"@,
                OutputFormat::Compact => "compact"@,
            }),
    {
        match self {
            OutputFormat::Table => string_of("table"),
            OutputFormat::Compact => string_of("compact"),
        }
    }
}

pub open spec fn is_line_break(c: char) -> bool {
    c == '\n' || c == '\r'
}

/// The text up to its first line break.
pub open spec fn first_line(s: Seq<char>) -> Seq<char>
    decreases s.len(),
{
    if s.len() == 0 {
        s
    } else if is_line_break(s[0]) {
        Seq::empty()
    } else {
        seq![s[0]] + first_line(s.skip(1))
    }
}

/// A preview of a text: its first line, cut to `max_len` characters; `...`
/// marks a cut or further lines.
pub open spec fn preview(s: Seq<char>, max_len: nat) -> Seq<char> {
    let line = first_line(s);
    if line.len() > max_len {
        line.subrange(0, max_len as int) + "..."@
    } else if exists|i: int| 0 <= i < s.len() && is_line_break(#[trigger] s[i]) {
        line + "..."@
    } else {
        line
    }
}

proof fn lemma_first_line_split(s: Seq<char>, k: int)
    requires
        0 <= k <= s.len(),
        forall|j: int| 0 <= j < k ==> !is_line_break(#[trigger] s[j]),
    ensures
        first_line(s) == s.subrange(0, k) + first_line(s.skip(k)),
    decreases k,
{
    if k > 0 {
        lemma_first_line_split(s.skip(1), k - 1);
        assert(s.skip(1).skip(k - 1) =~= s.skip(k));
        assert forall|j: int| 0 <= j < k - 1 implies !is_line_break(#[trigger] s.skip(1)[j]) by {
            assert(s.skip(1)[j] == s[j + 1]);
        }
        assert(seq![s[0]] + (s.skip(1).subrange(0, k - 1) + first_line(s.skip(k))) =~= s.subrange(
            0,
            k,
        ) + first_line(s.skip(k)));
    } else {
        assert(s.skip(0) =~= s);
        assert(s.subrange(0, 0) + first_line(s) =~= first_line(s));
    }
}

/// Shorten a text for display: its first line, at most `max_len`
/// characters, followed by `...` when it was cut or had more lines.
pub fn truncate_text(text: &str, max_len: usize) -> (r: String)
    ensures
        r@ == preview(text@, max_len as nat),
{
    let s = chars_of(text);
    let mut i: usize = 0;
    while i < s.len() && !(s[i] == '\n' || s[i] == '\r')
        invariant
            i <= s.len(),
            forall|j: int| 0 <= j < i ==> !is_line_break(#[trigger] s@[j]),
        decreases s.len() - i,
    {
        i = i + 1;
    }
    proof {
        lemma_first_line_split(s@, i as int);
        if i < s.len() {
            assert(is_line_break(s@.skip(i as int)[0]));
        }
        assert(first_line(s@.skip(i as int)) =~= Seq::<char>::empty());
        assert(s@.subrange(0, i as int) + Seq::<char>::empty() =~= s@.subrange(0, i as int));
    }
    let has_more = i < s.len();
    if i > max_len {
        let cut = copy_range(&s, 0, max_len);
        let mut r = string_from_chars(&cut);
        r.append("...");
        assert(cut@ =~= s@.subrange(0, i as int).subrange(0, max_len as int));
        r
    } else {
        let line = copy_range(&s, 0, i);
        let mut r = string_from_chars(&line);
        if has_more {
            r.append("...");
        }
        r
    }
}

/// The number of diagnostics of a kind.
pub open spec fn kind_count(d: Seq<Diagnostic>, k: DiagnosticKind) -> nat
    decreases d.len(),
{
    if d.len() == 0 {
        0
    } else {
        kind_count(d.drop_last(), k) + if d.last().kind == k {
            1nat
        } else {
            0nat
        }
    }
}

/// All kinds, in their order.
pub open spec fn all_kinds() -> Seq<DiagnosticKind> {
    seq![
        DiagnosticKind::HiccupText,
        DiagnosticKind::HiccupAttr,
        DiagnosticKind::AlertText,
        DiagnosticKind::StrConcat,
        DiagnosticKind::FormatString,
        DiagnosticKind::ConditionalText,
        DiagnosticKind::FnArgText,
        DiagnosticKind::DefText,
        DiagnosticKind::LetText,
    ]
}

/// The kinds with at least one diagnostic, in kind order, with their counts.
pub open spec fn kind_counts(d: Seq<Diagnostic>, kinds: Seq<DiagnosticKind>) -> Seq<
    (DiagnosticKind, nat),
>
    decreases kinds.len(),
{
    if kinds.len() == 0 {
        seq![]
    } else {
        let prev = kind_counts(d, kinds.drop_last());
        if kind_count(d, kinds.last()) > 0 {
            prev.push((kinds.last(), kind_count(d, kinds.last())))
        } else {
            prev
        }
    }
}

/// Count the diagnostics of one kind.
fn count_kind(d: &Vec<Diagnostic>, k: DiagnosticKind) -> (r: usize)
    ensures
        r == kind_count(d@, k),
{
    let mut n: usize = 0;
    let mut i: usize = 0;
    while i < d.len()
        invariant
            i <= d.len(),
            n == kind_count(d@.subrange(0, i as int), k),
            n <= i,
        decreases d.len() - i,
    {
        let ghost pre = d@.subrange(0, i + 1);
        assert(pre.drop_last() =~= d@.subrange(0, i as int));
        if d[i].kind == k {
            n = n + 1;
        }
        i = i + 1;
    }
    assert(d@.subrange(0, i as int) =~= d@);
    n
}

/// The number of diagnostics of each kind that occurs, in kind order.
pub fn summary_counts(d: &Vec<Diagnostic>) -> (r: Vec<(DiagnosticKind, usize)>)
    ensures
        r@.len() == kind_counts(d@, all_kinds()).len(),
        forall|i: int|
            0 <= i < r@.len() ==> r@[i].0 == kind_counts(d@, all_kinds())[i].0 && r@[i].1
                == kind_counts(d@, all_kinds())[i].1,
{
    let mut kinds: Vec<DiagnosticKind> = Vec::new();
    kinds.push(DiagnosticKind::HiccupText);
    kinds.push(DiagnosticKind::HiccupAttr);
    kinds.push(DiagnosticKind::AlertText);
    kinds.push(DiagnosticKind::StrConcat);
    kinds.push(DiagnosticKind::FormatString);
    kinds.push(DiagnosticKind::ConditionalText);
    kinds.push(DiagnosticKind::FnArgText);
    kinds.push(DiagnosticKind::DefText);
    kinds.push(DiagnosticKind::LetText);
    assert(kinds@ =~= all_kinds());
    let mut r: Vec<(DiagnosticKind, usize)> = Vec::new();
    let mut i: usize = 0;
    while i < kinds.len()
        invariant
            i <= kinds.len(),
            kinds@ == all_kinds(),
            r@.len() == kind_counts(d@, kinds@.subrange(0, i as int)).len(),
            forall|j: int|
                0 <= j < r@.len() ==> r@[j].0 == kind_counts(d@, kinds@.subrange(0, i as int))[j].0
                    && r@[j].1 == kind_counts(d@, kinds@.subrange(0, i as int))[j].1,
        decreases kinds.len() - i,
    {
        let ghost pre = kinds@.subrange(0, i + 1);
        assert(pre.drop_last() =~= kinds@.subrange(0, i as int));
        let n = count_kind(d, kinds[i]);
        if n > 0 {
            r.push((kinds[i], n));
        }
        i = i + 1;
    }
    assert(kinds@.subrange(0, i as int) =~= kinds@);
    r
}


/// The displayed width of a text in columns.
pub uninterp spec fn display_width(s: Seq<char>) -> usize;

/// `unicode_width::UnicodeWidthStr::width`: the displayed width of the text
/// in columns; the width rules are the crate's and are only named here.
#[verifier::external_body]
pub(crate) fn text_width(s: &str) -> (r: usize)
    ensures
        r == display_width(s@),
{
    unicode_width::UnicodeWidthStr::width(s)
}

/// The text with each backslash replaced by a slash.
pub open spec fn forward_slashes(s: Seq<char>) -> Seq<char> {
    s.map_values(|c: char| if c == '\\' { '/' } else { c })
}

fn forward_slashes_of(s: &str) -> (r: String)
    ensures
        r@ == forward_slashes(s@),
{
    let v = chars_of(s);
    let mut out: Vec<char> = Vec::new();
    let mut i: usize = 0;
    while i < v.len()
        invariant
            i <= v.len(),
            out@ == forward_slashes(v@.subrange(0, i as int)),
        decreases v.len() - i,
    {
        let c = v[i];
        out.push(if c == '\\' { '/' } else { c });
        i = i + 1;
        assert(out@ =~= forward_slashes(v@.subrange(0, i as int)));
    }
    assert(v@.subrange(0, i as int) =~= v@);
    string_from_chars(&out)
}

/// One row of the report table: the cells' texts and the spaces that pad
/// each cell to its column's width.
pub struct TableRow {
    pub kind: DiagnosticKind,
    pub kind_str: String,
    pub file_str: String,
    pub line_str: String,
    pub text_str: String,
    pub kind_pad: usize,
    pub file_pad: usize,
    pub line_pad: usize,
    pub text_pad: usize,
}

/// The report table: column widths, header paddings and rows.
pub struct TableLayout {
    pub type_w: usize,
    pub file_w: usize,
    pub line_w: usize,
    pub text_w: usize,
    pub header_pads: (usize, usize, usize, usize),
    pub rows: Vec<TableRow>,
}

/// The cells of the row for a diagnostic: kind, file, line and quoted
/// preview.
pub open spec fn row_cells(d: Diagnostic, rel_path: Seq<char>, preview_len: nat) -> (
    Seq<char>,
    Seq<char>,
    Seq<char>,
    Seq<char>,
) {
    (
        kind_label(d.kind),
        forward_slashes(rel_path),
        decimal(d.line as nat),
        "\""@ + preview(d.text@, preview_len) + "\""@,
    )
}

/// The widest of `init` and the widths of the texts.
pub open spec fn widest(init: usize, texts: Seq<Seq<char>>) -> usize
    decreases texts.len(),
{
    if texts.len() == 0 {
        init
    } else {
        let w = widest(init, texts.drop_last());
        let x = display_width(texts.last());
        if x > w {
            x
        } else {
            w
        }
    }
}

proof fn lemma_widest_init(init: usize, texts: Seq<Seq<char>>)
    ensures
        init <= widest(init, texts),
    decreases texts.len(),
{
    if texts.len() > 0 {
        lemma_widest_init(init, texts.drop_last());
    }
}

proof fn lemma_widest_bound(init: usize, texts: Seq<Seq<char>>, i: int)
    requires
        0 <= i < texts.len(),
    ensures
        display_width(texts[i]) <= widest(init, texts),
    decreases texts.len(),
{
    if i < texts.len() - 1 {
        lemma_widest_bound(init, texts.drop_last(), i);
    }
}

/// The cells of every row.
pub open spec fn table_cells(d: Seq<Diagnostic>, p: Seq<String>, n: nat) -> Seq<
    (Seq<char>, Seq<char>, Seq<char>, Seq<char>),
> {
    Seq::new(d.len(), |i: int| row_cells(d[i], p[i]@, n))
}

pub open spec fn column(
    c: Seq<(Seq<char>, Seq<char>, Seq<char>, Seq<char>)>,
    k: int,
) -> Seq<Seq<char>> {
    Seq::new(
        c.len(),
        |i: int|
            if k == 0 {
                c[i].0
            } else if k == 1 {
                c[i].1
            } else if k == 2 {
                c[i].2
            } else {
                c[i].3
            },
    )
}

/// Lay out the report table: one row per diagnostic (`rel_paths[i]` is the
/// path shown for diagnostic `i`); each column is as wide as its header and
/// its widest cell, and each cell is padded to its column's width, so every
/// row, and the header, has the same total width.
pub fn table_layout(diags: &Vec<Diagnostic>, rel_paths: &Vec<String>, preview_len: usize) -> (r:
    TableLayout)
    requires
        rel_paths@.len() == diags@.len(),
    ensures
        r.rows@.len() == diags@.len(),
        r.type_w == widest(display_width("Type"@), column(table_cells(diags@, rel_paths@, preview_len as nat), 0)),
        r.file_w == widest(display_width("File"@), column(table_cells(diags@, rel_paths@, preview_len as nat), 1)),
        r.line_w == widest(display_width("Line"@), column(table_cells(diags@, rel_paths@, preview_len as nat), 2)),
        r.text_w == widest(display_width("Text"@), column(table_cells(diags@, rel_paths@, preview_len as nat), 3)),
        r.header_pads == (
            (r.type_w - display_width("Type"@)) as usize,
            (r.file_w - display_width("File"@)) as usize,
            (r.line_w - display_width("Line"@)) as usize,
            (r.text_w - display_width("Text"@)) as usize,
        ),
        forall|i: int|
            #![trigger r.rows@[i]]
            0 <= i < diags@.len() ==> {
                let row = r.rows@[i];
                let cells = table_cells(diags@, rel_paths@, preview_len as nat)[i];
                &&& row.kind == diags@[i].kind
                &&& row.kind_str@ == cells.0
                &&& row.file_str@ == cells.1
                &&& row.line_str@ == cells.2
                &&& row.text_str@ == cells.3
                &&& row.kind_pad == r.type_w - display_width(cells.0)
                &&& row.file_pad == r.file_w - display_width(cells.1)
                &&& row.line_pad == r.line_w - display_width(cells.2)
                &&& row.text_pad == r.text_w - display_width(cells.3)
            },
        forall|i: int|
            #![trigger r.rows@[i]]
            0 <= i < r.rows@.len() ==> display_width(r.rows@[i].kind_str@) + r.rows@[i].kind_pad
                + display_width(r.rows@[i].file_str@) + r.rows@[i].file_pad + display_width(
                r.rows@[i].line_str@,
            ) + r.rows@[i].line_pad + display_width(r.rows@[i].text_str@) + r.rows@[i].text_pad
                == r.type_w + r.file_w + r.line_w + r.text_w,
        display_width("Type"@) + r.header_pads.0 + display_width("File"@) + r.header_pads.1
            + display_width("Line"@) + r.header_pads.2 + display_width("Text"@) + r.header_pads.3
            == r.type_w + r.file_w + r.line_w + r.text_w,
{
    let n = diags.len();
    let ghost cells = table_cells(diags@, rel_paths@, preview_len as nat);
    let h0 = text_width("Type");
    let h1 = text_width("File");
    let h2 = text_width("Line");
    let h3 = text_width("Text");
    let mut w0 = h0;
    let mut w1 = h1;
    let mut w2 = h2;
    let mut w3 = h3;
    let mut strs: Vec<(String, String, String, String)> = Vec::new();
    let mut ws: Vec<(usize, usize, usize, usize)> = Vec::new();
    let mut i: usize = 0;
    while i < n
        invariant
            i <= n == diags@.len() == rel_paths@.len(),
            cells == table_cells(diags@, rel_paths@, preview_len as nat),
            strs@.len() == i,
            ws@.len() == i,
            forall|j: int|
                #![trigger strs@[j]]
                0 <= j < i ==> strs@[j].0@ == cells[j].0 && strs@[j].1@ == cells[j].1
                    && strs@[j].2@ == cells[j].2 && strs@[j].3@ == cells[j].3,
            forall|j: int|
                #![trigger ws@[j]]
                0 <= j < i ==> ws@[j].0 == display_width(cells[j].0) && ws@[j].1 == display_width(
                    cells[j].1,
                ) && ws@[j].2 == display_width(cells[j].2) && ws@[j].3 == display_width(cells[j].3),
            w0 == widest(h0, column(cells, 0).subrange(0, i as int)),
            w1 == widest(h1, column(cells, 1).subrange(0, i as int)),
            w2 == widest(h2, column(cells, 2).subrange(0, i as int)),
            w3 == widest(h3, column(cells, 3).subrange(0, i as int)),
        decreases n - i,
    {
        let d = &diags[i];
        let kind_str = d.kind.to_string();
        let file_str = forward_slashes_of(rel_paths[i].as_str());
        let line_str = decimal_string(d.line);
        let mut text_str = string_of("\"");
        text_str.append(truncate_text(d.text.as_str(), preview_len).as_str());
        text_str.append("\"");
        let x0 = text_width(kind_str.as_str());
        let x1 = text_width(file_str.as_str());
        let x2 = text_width(line_str.as_str());
        let x3 = text_width(text_str.as_str());
        proof {
            assert(column(cells, 0).subrange(0, i + 1).drop_last() =~= column(cells, 0).subrange(0, i as int));
            assert(column(cells, 1).subrange(0, i + 1).drop_last() =~= column(cells, 1).subrange(0, i as int));
            assert(column(cells, 2).subrange(0, i + 1).drop_last() =~= column(cells, 2).subrange(0, i as int));
            assert(column(cells, 3).subrange(0, i + 1).drop_last() =~= column(cells, 3).subrange(0, i as int));
        }
        if x0 > w0 {
            w0 = x0;
        }
        if x1 > w1 {
            w1 = x1;
        }
        if x2 > w2 {
            w2 = x2;
        }
        if x3 > w3 {
            w3 = x3;
        }
        strs.push((kind_str, file_str, line_str, text_str));
        ws.push((x0, x1, x2, x3));
        i = i + 1;
    }
    proof {
        assert(column(cells, 0).subrange(0, n as int) =~= column(cells, 0));
        assert(column(cells, 1).subrange(0, n as int) =~= column(cells, 1));
        assert(column(cells, 2).subrange(0, n as int) =~= column(cells, 2));
        assert(column(cells, 3).subrange(0, n as int) =~= column(cells, 3));
        lemma_widest_init(h0, column(cells, 0));
        lemma_widest_init(h1, column(cells, 1));
        lemma_widest_init(h2, column(cells, 2));
        lemma_widest_init(h3, column(cells, 3));
    }
    let mut rows: Vec<TableRow> = Vec::new();
    let mut k: usize = 0;
    while k < n
        invariant
            k <= n == diags@.len() == rel_paths@.len() == strs@.len() == ws@.len(),
            cells == table_cells(diags@, rel_paths@, preview_len as nat),
            rows@.len() == k,
            forall|j: int|
                #![trigger strs@[j]]
                0 <= j < n ==> strs@[j].0@ == cells[j].0 && strs@[j].1@ == cells[j].1
                    && strs@[j].2@ == cells[j].2 && strs@[j].3@ == cells[j].3,
            forall|j: int|
                #![trigger ws@[j]]
                0 <= j < n ==> ws@[j].0 == display_width(cells[j].0) && ws@[j].1 == display_width(
                    cells[j].1,
                ) && ws@[j].2 == display_width(cells[j].2) && ws@[j].3 == display_width(cells[j].3),
            w0 == widest(h0, column(cells, 0)),
            w1 == widest(h1, column(cells, 1)),
            w2 == widest(h2, column(cells, 2)),
            w3 == widest(h3, column(cells, 3)),
            forall|j: int|
                #![trigger rows@[j]]
                0 <= j < k ==> {
                    let row = rows@[j];
                    &&& row.kind == diags@[j].kind
                    &&& row.kind_str@ == cells[j].0
                    &&& row.file_str@ == cells[j].1
                    &&& row.line_str@ == cells[j].2
                    &&& row.text_str@ == cells[j].3
                    &&& row.kind_pad == w0 - display_width(cells[j].0)
                    &&& row.file_pad == w1 - display_width(cells[j].1)
                    &&& row.line_pad == w2 - display_width(cells[j].2)
                    &&& row.text_pad == w3 - display_width(cells[j].3)
                },
        decreases n - k,
    {
        proof {
            lemma_widest_bound(h0, column(cells, 0), k as int);
            lemma_widest_bound(h1, column(cells, 1), k as int);
            lemma_widest_bound(h2, column(cells, 2), k as int);
            lemma_widest_bound(h3, column(cells, 3), k as int);
        }
        let (x0, x1, x2, x3) = ws[k];
        let cell = &strs[k];
        assert(ws@[k as int].0 == display_width(cells[k as int].0));
        assert(strs@[k as int].0@ == cells[k as int].0);
        let row = TableRow {
            kind: diags[k].kind,
            kind_str: cell.0.clone(),
            file_str: cell.1.clone(),
            line_str: cell.2.clone(),
            text_str: cell.3.clone(),
            kind_pad: w0 - x0,
            file_pad: w1 - x1,
            line_pad: w2 - x2,
            text_pad: w3 - x3,
        };
        rows.push(row);
        k = k + 1;
    }
    TableLayout {
        type_w: w0,
        file_w: w1,
        line_w: w2,
        text_w: w3,
        header_pads: (w0 - h0, w1 - h1, w2 - h2, w3 - h3),
        rows,
    }
}

} // verus!
