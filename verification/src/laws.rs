//! Properties of the analyzer that hold for every input.
use vstd::prelude::*;

use crate::analysis::{
    Rules,
    alert_diags,
    attr_key,
    binding_diags,
    binding_value_diags,
    branch_diags,
    call_diags,
    case_diags,
    case_item_diags,
    cond_diags,
    cond_pairs_diags,
    is_cond_result,
    def_diags,
    def_value_diags,
    def_value_start,
    def_values_diags,
    fn_body_diags,
    fn_like_body_start,
    form_diags,
    format_diags,
    forms_diags,
    hiccup_attr_diags,
    hiccup_attrs_diags,
    hiccup_child_diags,
    hiccup_children_diags,
    hiccup_diags,
    in_ignored,
    in_ui,
    is_branch_head,
    is_case_result,
    is_component_def,
    is_conditional_head,
    is_conditional_let,
    is_def_head,
    is_fn_like_def,
    is_hiccup,
    is_let_head,
    is_ns_form,
    is_pure_function,
    is_ui_attribute,
    is_ui_function,
    keyword_arg_diags,
    let_bindings_diags,
    let_body_diags,
    let_body_item_diags,
    let_diags,
    list_diags,
    map_diags,
    match_diags,
    match_pairs_diags,
    non_text_value_diags,
    rem,
    report,
    result_diags,
    seq_diags,
    skipped_text,
    str_arg_diags,
    str_args_diags,
    thread_diags,
    thread_item_diags,
    ui_args_diags,
    ui_map_diags,
    ui_map_pair_diags,
};
use crate::analyzer::{Diagnostic, DiagnosticKind, DiagnosticView, FrameKind};
use crate::key_model::{
    Env, KeyRules, Occurrence, call_keys, calls_any, first_occurrences, form_keys, is_let_like,
    key_arg, keys_from, kw,
};
use crate::read_model::{advance, advance_n, initial_state, ReadState};
use crate::reporter::{all_kinds, kind_count, kind_counts, preview};
use crate::checker::{is_unused, key_namespace, namespace_ignored};
use crate::edn::{
    KeyLine, dict_key_list, entry_end, entry_keys, first_map_entries, key_lines, line_removed, removal,
};
use crate::patterns::regex_set_matches;
use crate::names::{any_names_function, last_segment, lemma_last_segment_plain, strip_colon};
use crate::parser::{SExp, Span};
use crate::text::{trim_text, white_space};

verus! {

/// A diagnostic as the skip rules allow it: it names the analyzed file, its
/// text has no leading or trailing white space and is not skipped, and its
/// kind is not def-text (plain definitions are never reported).
pub open spec fn passes_filters(c: Rules, d: DiagnosticView) -> bool {
    &&& d.kind != DiagnosticKind::DefText
    &&& d.file_path == c.file_path
    &&& !skipped_text(c, d.text)
    &&& !white_space(d.text[0])
    &&& !white_space(d.text.last())
}

pub open spec fn all_pass(c: Rules, ds: Seq<DiagnosticView>) -> bool {
    forall|i: int| 0 <= i < ds.len() ==> passes_filters(c, #[trigger] ds[i])
}

/// Every diagnostic reported for a sequence of forms names the file, is not
/// of the def-text kind, and its text is trimmed and passes the skip filter:
/// it has at least two characters, one of them alphabetic, it is not purely
/// numeric, and it is neither an allowed string nor a match of the allowed
/// patterns in effect.
pub proof fn law_reports_pass_filters(c: Rules, forms: Seq<SExp>)
    ensures
        forall|i: int|
            0 <= i < forms_diags(c, forms).len() ==> passes_filters(
                c,
                #[trigger] forms_diags(c, forms)[i],
            ),
    decreases forms.len(),
{
    if forms.len() > 0 {
        law_reports_pass_filters(c, forms.drop_last());
        lemma_form(c, forms.last(), seq![]);
        lemma_concat(c, forms_diags(c, forms.drop_last()), form_diags(c, forms.last(), seq![]));
    }
}

/// Analyzing two runs of top-level forms one after the other gives the
/// diagnostics of the first run followed by those of the second.
pub proof fn law_forms_concat(c: Rules, a: Seq<SExp>, b: Seq<SExp>)
    ensures
        forms_diags(c, a + b) == forms_diags(c, a) + forms_diags(c, b),
    decreases b.len(),
{
    if b.len() == 0 {
        assert(a + b =~= a);
        assert(forms_diags(c, a) + forms_diags(c, b) =~= forms_diags(c, a));
    } else {
        law_forms_concat(c, a, b.drop_last());
        assert((a + b).drop_last() =~= a + b.drop_last());
        assert((a + b).last() == b.last());
        assert(forms_diags(c, a) + forms_diags(c, b.drop_last()) + form_diags(c, b.last(), seq![])
            =~= forms_diags(c, a) + (forms_diags(c, b.drop_last()) + form_diags(
            c,
            b.last(),
            seq![],
        )));
    }
}

/// A call of a translation function or of an ignore-context function, and a
/// namespace form (`ns`, `require`, `import`, `use`, `refer`, `comment`),
/// yield no diagnostics, whatever they hold and wherever they stand.
pub proof fn law_ignored_calls_report_nothing(c: Rules, f: SExp, st: Seq<FrameKind>)
    requires
        f matches SExp::List(items, _) && (items@.len() > 0 && (items@[0] matches SExp::Symbol(
            name,
            _,
        ) && (any_names_function(c.i18n_functions, name@) || any_names_function(
            c.ignore_context_functions,
            name@,
        ) || is_ns_form(name@)))),
    ensures
        form_diags(c, f, st) == Seq::<DiagnosticView>::empty(),
{
    match f {
        SExp::List(items, _) => {
            let name = match items@[0] {
                SExp::Symbol(n, _) => n@,
                _ => seq![],
            };
            if !in_ignored(st) {
                assert(list_diags(c, items@, st) == call_diags(c, items@, name, st));
                assert(call_diags(c, items@, name, st) =~= Seq::<DiagnosticView>::empty());
            }
        },
        _ => {},
    }
}

/// A call of an exception function yields no diagnostics, whatever it holds
/// and wherever it stands, unless the name is also one that an earlier rule
/// claims (a definition or binding form, `str`, a format or alert function).
pub proof fn law_exception_calls_report_nothing(c: Rules, f: SExp, st: Seq<FrameKind>)
    requires
        f matches SExp::List(items, _) && (items@.len() > 0 && (items@[0] matches SExp::Symbol(
            name,
            _,
        ) && (any_names_function(c.exception_functions, name@) && !is_def_head(name@)
            && !is_component_def(last_segment(name@)) && !is_let_head(name@) && name@
            != "str"@ && !any_names_function(c.format_functions, name@) && !any_names_function(
            c.alert_functions,
            name@,
        )))),
    ensures
        form_diags(c, f, st) == Seq::<DiagnosticView>::empty(),
{
    match f {
        SExp::List(items, _) => {
            let name = match items@[0] {
                SExp::Symbol(n, _) => n@,
                _ => seq![],
            };
            if !in_ignored(st) {
                assert(list_diags(c, items@, st) == call_diags(c, items@, name, st));
                assert(call_diags(c, items@, name, st) =~= Seq::<DiagnosticView>::empty());
            }
        },
        _ => {},
    }
}

/// An anonymous function body is a scope barrier: whatever encloses it, no
/// hiccup vector or UI call outside the function makes its body a UI
/// context.
pub proof fn law_fn_scope_barrier(st: Seq<FrameKind>)
    ensures
        !in_ui(st.push(FrameKind::FnScope)),
{
    assert(st.push(FrameKind::FnScope).last() == FrameKind::FnScope);
}

/// A `def` or `defonce` whose values are all string literals reports
/// nothing.
pub proof fn law_plain_def_strings_not_reported(c: Rules, f: SExp, st: Seq<FrameKind>)
    requires
        f matches SExp::List(items, _) && (items@.len() > 0 && (items@[0] matches SExp::Symbol(
            head,
            _,
        ) && ((head@ == "def"@ || head@ == "defonce"@) && forall|k: int|
            2 <= k < items@.len() ==> #[trigger] items@[k] is Str))),
    ensures
        form_diags(c, f, st) == Seq::<DiagnosticView>::empty(),
{
    reveal_strlit("def");
    reveal_strlit("defonce");
    reveal_strlit("defn");
    reveal_strlit("defn-");
    reveal_strlit("defmacro");
    reveal_strlit("defc");
    reveal_strlit("defcs");
    reveal_strlit("defcc");
    reveal_strlit("defrc");
    reveal_strlit("defsc");
    match f {
        SExp::List(items, _) => {
            let head = match items@[0] {
                SExp::Symbol(h, _) => h@,
                _ => seq![],
            };
            lemma_last_segment_plain(head);
            if !in_ignored(st) {
                let def_st = st.push(FrameKind::Def);
                lemma_string_values(c, items@, def_value_start(items@), def_st);
                assert(!is_fn_like_def(last_segment(head)));
                assert(list_diags(c, items@, st) == call_diags(c, items@, head, st));
                assert(call_diags(c, items@, head, st) =~= Seq::<DiagnosticView>::empty());
            }
        },
        _ => {},
    }
}

proof fn lemma_string_values(c: Rules, items: Seq<SExp>, i: int, st: Seq<FrameKind>)
    requires
        i >= 2,
        forall|k: int| 2 <= k < items.len() ==> #[trigger] items[k] is Str,
    ensures
        def_values_diags(c, items, i, st) == Seq::<DiagnosticView>::empty(),
    decreases rem(items.len(), i),
{
    if i < items.len() {
        lemma_string_values(c, items, i + 1, st);
        assert(def_value_diags(c, items[i], st) =~= Seq::<DiagnosticView>::empty());
        assert(def_values_diags(c, items, i, st) =~= Seq::<DiagnosticView>::empty() + Seq::<
            DiagnosticView,
        >::empty());
    }
}

proof fn lemma_trimmed(s: Seq<char>)
    ensures
        trim_text(s).len() > 0 ==> !white_space(trim_text(s)[0]) && !white_space(
            trim_text(s).last(),
        ),
    decreases s.len(),
{
    if s.len() > 0 && white_space(s[0]) {
        lemma_trimmed(s.skip(1));
    } else if s.len() > 0 && white_space(s.last()) {
        lemma_trimmed(s.drop_last());
    }
}

proof fn lemma_concat(c: Rules, a: Seq<DiagnosticView>, b: Seq<DiagnosticView>)
    requires
        all_pass(c, a),
        all_pass(c, b),
    ensures
        all_pass(c, a + b),
{
    assert forall|i: int| 0 <= i < (a + b).len() implies passes_filters(c, #[trigger] (a + b)[i]) by {
        if i < a.len() {
            assert((a + b)[i] == a[i]);
        } else {
            assert((a + b)[i] == b[i - a.len()]);
        }
    }
}

proof fn lemma_report(
    c: Rules,
    kind: DiagnosticKind,
    span: Span,
    text: Seq<char>,
    context: Option<Seq<char>>,
)
    requires
        kind != DiagnosticKind::DefText,
    ensures
        all_pass(c, report(c, kind, span, text, context)),
{
    lemma_trimmed(text);
}

proof fn lemma_form(c: Rules, f: SExp, st: Seq<FrameKind>)
    ensures
        all_pass(c, form_diags(c, f, st)),
    decreases f, 0nat,
{
    if !in_ignored(st) {
        match f {
            SExp::List(items, _) => lemma_list(c, items@, st),
            SExp::Vector(items, _) => if is_hiccup(items@) {
                lemma_hiccup(c, items@, st.push(FrameKind::Hiccup));
            } else {
                lemma_seq(c, items@, 0, st);
            },
            SExp::MapLiteral(items, _) => lemma_map(c, items@, 0, st),
            SExp::Meta(_, t, _) => lemma_form(c, *t, st),
            _ => {},
        }
    }
}

proof fn lemma_seq(c: Rules, items: Seq<SExp>, i: int, st: Seq<FrameKind>)
    ensures
        all_pass(c, seq_diags(c, items, i, st)),
    decreases items, rem(items.len(), i),
{
    if 0 <= i < items.len() {
        lemma_form(c, items[i], st);
        lemma_seq(c, items, i + 1, st);
        lemma_concat(c, form_diags(c, items[i], st), seq_diags(c, items, i + 1, st));
    }
}

proof fn lemma_list(c: Rules, items: Seq<SExp>, st: Seq<FrameKind>)
    ensures
        all_pass(c, list_diags(c, items, st)),
    decreases items, items.len() + 4,
{
    if items.len() > 0 {
        match items[0] {
            SExp::Symbol(name, _) => lemma_call(c, items, name@, st),
            _ => lemma_seq(c, items, 0, st),
        }
    }
}

proof fn lemma_call(c: Rules, items: Seq<SExp>, name: Seq<char>, st: Seq<FrameKind>)
    ensures
        all_pass(c, call_diags(c, items, name, st)),
    decreases items, items.len() + 3,
{
    if crate::names::any_names_function(c.ignore_context_functions, name) {
    } else if crate::names::any_names_function(c.i18n_functions, name) {
    } else if is_ns_form(name) {
    } else if is_def_head(name) || is_component_def(crate::names::last_segment(name)) {
        lemma_def(c, items, name, st);
    } else if is_let_head(name) {
        lemma_let(c, items, name, st);
    } else if name == "str"@ {
        lemma_str_args(c, items, 1, st);
    } else if crate::names::any_names_function(c.format_functions, name) {
        lemma_format(c, items, name, st);
    } else if crate::names::any_names_function(c.alert_functions, name) {
        lemma_alert(c, items, name, st);
    } else if crate::names::any_names_function(c.exception_functions, name) {
    } else if is_conditional_head(name) {
        lemma_cond(c, items, name, st);
    } else if name == "match"@ {
        lemma_match(c, items, st);
    } else if name == "cond->"@ || name == "cond->>"@ {
        lemma_thread(c, items, 1, st);
    } else if name == "do"@ {
        lemma_seq(c, items, 1, st);
    } else if name == "fn"@ || name == "fn*"@ {
        lemma_fn_body(c, items, 1, false, st.push(FrameKind::FnScope));
    } else if is_pure_function(c, name) {
        lemma_seq(c, items, 1, st.push(FrameKind::FnScope));
    } else if is_ui_function(c, name) {
        lemma_ui_args(c, items, 1, name, st.push(FrameKind::UiFnCall));
    } else {
        lemma_seq(c, items, 1, st);
    }
}

proof fn lemma_str_arg(c: Rules, x: SExp, st: Seq<FrameKind>)
    ensures
        all_pass(c, str_arg_diags(c, x, st)),
    decreases x, 1nat,
{
    match x {
        SExp::Str(s, span) => lemma_report(c, DiagnosticKind::StrConcat, span, s@, Some("str"@)),
        _ => lemma_form(c, x, st.push(FrameKind::StrCall)),
    }
}

proof fn lemma_str_args(c: Rules, items: Seq<SExp>, i: int, st: Seq<FrameKind>)
    ensures
        all_pass(c, str_args_diags(c, items, i, st)),
    decreases items, rem(items.len(), i),
{
    if 0 <= i < items.len() {
        lemma_str_arg(c, items[i], st);
        lemma_str_args(c, items, i + 1, st);
        lemma_concat(c, str_arg_diags(c, items[i], st), str_args_diags(c, items, i + 1, st));
    }
}

proof fn lemma_format(c: Rules, items: Seq<SExp>, name: Seq<char>, st: Seq<FrameKind>)
    ensures
        all_pass(c, format_diags(c, items, name, st)),
    decreases items, items.len() + 2,
{
    let first = if items.len() > 1 {
        match items[1] {
            SExp::Str(s, span) => if in_ui(st) {
                report(c, DiagnosticKind::FormatString, span, s@, Some(name))
            } else {
                seq![]
            },
            _ => form_diags(c, items[1], st),
        }
    } else {
        seq![]
    };
    if items.len() > 1 {
        match items[1] {
            SExp::Str(s, span) => lemma_report(
                c,
                DiagnosticKind::FormatString,
                span,
                s@,
                Some(name),
            ),
            _ => lemma_form(c, items[1], st),
        }
    }
    lemma_seq(c, items, 2, st);
    lemma_concat(c, first, seq_diags(c, items, 2, st));
}

proof fn lemma_alert(c: Rules, items: Seq<SExp>, name: Seq<char>, st: Seq<FrameKind>)
    ensures
        all_pass(c, alert_diags(c, items, name, st)),
    decreases items, items.len() + 2,
{
    if items.len() > 1 {
        match items[1] {
            SExp::Str(s, span) => lemma_report(c, DiagnosticKind::AlertText, span, s@, Some(name)),
            _ => lemma_form(c, items[1], st.push(FrameKind::UiFnCall)),
        }
    }
}

proof fn lemma_thread_item(c: Rules, x: SExp, i: int, st: Seq<FrameKind>)
    ensures
        all_pass(c, thread_item_diags(c, x, i, st)),
    decreases x, 1nat,
{
    let k = i - 1;
    if k == 0 || k % 2 == 1 {
        lemma_form(c, x, st.push(FrameKind::FnScope));
    } else {
        lemma_form(c, x, st);
    }
}

proof fn lemma_thread(c: Rules, items: Seq<SExp>, i: int, st: Seq<FrameKind>)
    ensures
        all_pass(c, thread_diags(c, items, i, st)),
    decreases items, rem(items.len(), i),
{
    if 1 <= i < items.len() {
        lemma_thread_item(c, items[i], i, st);
        lemma_thread(c, items, i + 1, st);
        lemma_concat(c, thread_item_diags(c, items[i], i, st), thread_diags(c, items, i + 1, st));
    }
}

proof fn lemma_fn_body(c: Rules, items: Seq<SExp>, i: int, saw_args: bool, st: Seq<FrameKind>)
    ensures
        all_pass(c, fn_body_diags(c, items, i, saw_args, st)),
    decreases items, rem(items.len(), i),
{
    if 0 <= i < items.len() {
        if !saw_args && items[i] is Symbol {
            lemma_fn_body(c, items, i + 1, saw_args, st);
        } else if !saw_args && items[i] is Vector {
            lemma_fn_body(c, items, i + 1, true, st);
        } else {
            lemma_form(c, items[i], st);
            lemma_fn_body(c, items, i + 1, saw_args, st);
            lemma_concat(
                c,
                form_diags(c, items[i], st),
                fn_body_diags(c, items, i + 1, saw_args, st),
            );
        }
    }
}

proof fn lemma_keyword_arg(c: Rules, key: Seq<char>, v: SExp, st: Seq<FrameKind>)
    ensures
        all_pass(c, keyword_arg_diags(c, key, v, st)),
    decreases v, 1nat,
{
    if is_ui_attribute(c, key) {
        match v {
            SExp::Str(s, span) => lemma_report(c, DiagnosticKind::FnArgText, span, s@, Some(key)),
            _ => lemma_form(c, v, st),
        }
    } else {
        lemma_form(c, v, st.push(FrameKind::FnScope));
    }
}

proof fn lemma_ui_args(c: Rules, items: Seq<SExp>, i: int, name: Seq<char>, st: Seq<FrameKind>)
    ensures
        all_pass(c, ui_args_diags(c, items, i, name, st)),
    decreases items, rem(items.len(), i),
{
    if 0 <= i < items.len() {
        match items[i] {
            SExp::Keyword(k, _) => if i + 1 < items.len() {
                lemma_keyword_arg(c, strip_colon(k@), items[i + 1], st);
                lemma_ui_args(c, items, i + 2, name, st);
                lemma_concat(
                    c,
                    keyword_arg_diags(c, strip_colon(k@), items[i + 1], st),
                    ui_args_diags(c, items, i + 2, name, st),
                );
            } else {
                lemma_form(c, items[i], st);
                lemma_ui_args(c, items, i + 1, name, st);
                lemma_concat(
                    c,
                    form_diags(c, items[i], st),
                    ui_args_diags(c, items, i + 1, name, st),
                );
            },
            SExp::Str(s, span) => {
                lemma_report(c, DiagnosticKind::FnArgText, span, s@, Some(name));
                lemma_ui_args(c, items, i + 1, name, st);
                lemma_concat(
                    c,
                    report(c, DiagnosticKind::FnArgText, span, s@, Some(name)),
                    ui_args_diags(c, items, i + 1, name, st),
                );
            },
            SExp::MapLiteral(kv, _) => {
                lemma_ui_map(c, kv@, 0, st);
                lemma_ui_args(c, items, i + 1, name, st);
                lemma_concat(
                    c,
                    ui_map_diags(c, kv@, 0, st),
                    ui_args_diags(c, items, i + 1, name, st),
                );
            },
            _ => {
                lemma_form(c, items[i], st);
                lemma_ui_args(c, items, i + 1, name, st);
                lemma_concat(
                    c,
                    form_diags(c, items[i], st),
                    ui_args_diags(c, items, i + 1, name, st),
                );
            },
        }
    }
}

proof fn lemma_def(c: Rules, items: Seq<SExp>, head: Seq<char>, st: Seq<FrameKind>)
    ensures
        all_pass(c, def_diags(c, items, head, st)),
    decreases items, items.len() + 2,
{
    let def_st = st.push(FrameKind::Def);
    if is_fn_like_def(crate::names::last_segment(head)) {
        lemma_seq(c, items, fn_like_body_start(items), def_st);
    } else {
        lemma_def_values(c, items, def_value_start(items), def_st);
    }
}

proof fn lemma_def_value(c: Rules, x: SExp, st: Seq<FrameKind>)
    ensures
        all_pass(c, def_value_diags(c, x, st)),
    decreases x, 1nat,
{
    if !(x is Str) {
        lemma_form(c, x, st);
    }
}

proof fn lemma_def_values(c: Rules, items: Seq<SExp>, i: int, st: Seq<FrameKind>)
    ensures
        all_pass(c, def_values_diags(c, items, i, st)),
    decreases items, rem(items.len(), i),
{
    if 0 <= i < items.len() {
        lemma_def_value(c, items[i], st);
        lemma_def_values(c, items, i + 1, st);
        lemma_concat(c, def_value_diags(c, items[i], st), def_values_diags(c, items, i + 1, st));
    }
}

proof fn lemma_let(c: Rules, items: Seq<SExp>, head: Seq<char>, st: Seq<FrameKind>)
    ensures
        all_pass(c, let_diags(c, items, head, st)),
    decreases items, items.len() + 2,
{
    let let_st = st.push(FrameKind::Let);
    let kind = if is_conditional_let(head) {
        DiagnosticKind::ConditionalText
    } else {
        DiagnosticKind::LetText
    };
    let bindings = if items.len() > 1 {
        let_bindings_diags(c, items[1], in_ui(st), let_st)
    } else {
        seq![]
    };
    if items.len() > 1 {
        lemma_let_bindings(c, items[1], in_ui(st), let_st);
    }
    lemma_let_body(c, items, 2, kind, head, in_ui(st), let_st);
    lemma_concat(c, bindings, let_body_diags(c, items, 2, kind, head, in_ui(st), let_st));
}

proof fn lemma_let_bindings(c: Rules, x: SExp, ui: bool, st: Seq<FrameKind>)
    ensures
        all_pass(c, let_bindings_diags(c, x, ui, st)),
    decreases x, 1nat,
{
    match x {
        SExp::Vector(b, _) => lemma_binding(c, b@, 0, ui, st),
        _ => {},
    }
}

proof fn lemma_binding_value(c: Rules, x: SExp, ui: bool, st: Seq<FrameKind>)
    ensures
        all_pass(c, binding_value_diags(c, x, ui, st)),
    decreases x, 1nat,
{
    match x {
        SExp::Str(s, span) => lemma_report(c, DiagnosticKind::LetText, span, s@, None),
        _ => lemma_form(c, x, st),
    }
}

proof fn lemma_binding(c: Rules, b: Seq<SExp>, j: int, ui: bool, st: Seq<FrameKind>)
    ensures
        all_pass(c, binding_diags(c, b, j, ui, st)),
    decreases b, rem(b.len(), j),
{
    if 0 <= j && j + 1 < b.len() {
        lemma_binding_value(c, b[j + 1], ui, st);
        lemma_binding(c, b, j + 2, ui, st);
        lemma_concat(
            c,
            binding_value_diags(c, b[j + 1], ui, st),
            binding_diags(c, b, j + 2, ui, st),
        );
    }
}

proof fn lemma_let_body_item(
    c: Rules,
    x: SExp,
    kind: DiagnosticKind,
    head: Seq<char>,
    ui: bool,
    st: Seq<FrameKind>,
)
    requires
        kind != DiagnosticKind::DefText,
    ensures
        all_pass(c, let_body_item_diags(c, x, kind, head, ui, st)),
    decreases x, 1nat,
{
    match x {
        SExp::Str(s, span) => if ui {
            lemma_report(c, kind, span, s@, Some(head));
        } else {
            lemma_form(c, x, st);
        },
        _ => lemma_form(c, x, st),
    }
}

proof fn lemma_let_body(
    c: Rules,
    items: Seq<SExp>,
    i: int,
    kind: DiagnosticKind,
    head: Seq<char>,
    ui: bool,
    st: Seq<FrameKind>,
)
    requires
        kind != DiagnosticKind::DefText,
    ensures
        all_pass(c, let_body_diags(c, items, i, kind, head, ui, st)),
    decreases items, rem(items.len(), i),
{
    if 0 <= i < items.len() {
        lemma_let_body_item(c, items[i], kind, head, ui, st);
        lemma_let_body(c, items, i + 1, kind, head, ui, st);
        lemma_concat(
            c,
            let_body_item_diags(c, items[i], kind, head, ui, st),
            let_body_diags(c, items, i + 1, kind, head, ui, st),
        );
    }
}

proof fn lemma_cond(c: Rules, items: Seq<SExp>, head: Seq<char>, st: Seq<FrameKind>)
    ensures
        all_pass(c, cond_diags(c, items, head, st)),
    decreases items, items.len() + 2,
{
    let cond_st = st.push(FrameKind::Conditional);
    if is_branch_head(head) {
        lemma_branch(c, items, 1, head, in_ui(st), cond_st);
    } else if head == "case"@ {
        if items.len() > 2 {
            lemma_form(c, items[1], cond_st);
            lemma_case(c, items, 2, in_ui(st), st);
            lemma_concat(c, form_diags(c, items[1], cond_st), case_diags(c, items, 2, in_ui(st), st));
        }
    } else if head == "cond"@ || head == "condp"@ {
        let start: int = if head == "condp"@ {
            3
        } else {
            1
        };
        lemma_cond_pairs(c, items, start, start, head, in_ui(st), cond_st);
    } else {
        lemma_seq(c, items, 1, cond_st);
    }
}

proof fn lemma_result(c: Rules, x: SExp, label: Seq<char>, ui: bool, st: Seq<FrameKind>)
    ensures
        all_pass(c, result_diags(c, x, label, ui, st)),
    decreases x, 1nat,
{
    match x {
        SExp::Str(s, span) => lemma_report(
            c,
            DiagnosticKind::ConditionalText,
            span,
            s@,
            Some(label),
        ),
        _ => lemma_form(c, x, st),
    }
}

proof fn lemma_branch(
    c: Rules,
    items: Seq<SExp>,
    i: int,
    head: Seq<char>,
    ui: bool,
    st: Seq<FrameKind>,
)
    ensures
        all_pass(c, branch_diags(c, items, i, head, ui, st)),
    decreases items, rem(items.len(), i),
{
    if 0 <= i < items.len() {
        lemma_result(c, items[i], head, ui, st);
        lemma_branch(c, items, i + 1, head, ui, st);
        lemma_concat(
            c,
            result_diags(c, items[i], head, ui, st),
            branch_diags(c, items, i + 1, head, ui, st),
        );
    }
}

proof fn lemma_case_item(c: Rules, x: SExp, result: bool, ui: bool, st: Seq<FrameKind>)
    ensures
        all_pass(c, case_item_diags(c, x, result, ui, st)),
    decreases x, 2nat,
{
    if result {
        lemma_result(c, x, "case"@, ui, st.push(FrameKind::Conditional));
    } else {
        lemma_form(c, x, st.push(FrameKind::FnScope));
    }
}

proof fn lemma_case(c: Rules, items: Seq<SExp>, i: int, ui: bool, st: Seq<FrameKind>)
    ensures
        all_pass(c, case_diags(c, items, i, ui, st)),
    decreases items, rem(items.len(), i),
{
    if 0 <= i < items.len() {
        lemma_case_item(c, items[i], is_case_result(items.len(), i), ui, st);
        lemma_case(c, items, i + 1, ui, st);
        lemma_concat(
            c,
            case_item_diags(c, items[i], is_case_result(items.len(), i), ui, st),
            case_diags(c, items, i + 1, ui, st),
        );
    }
}

proof fn lemma_cond_pairs(
    c: Rules,
    items: Seq<SExp>,
    start: int,
    i: int,
    head: Seq<char>,
    ui: bool,
    st: Seq<FrameKind>,
)
    ensures
        all_pass(c, cond_pairs_diags(c, items, start, i, head, ui, st)),
    decreases items, rem(items.len(), i),
{
    if 0 <= start <= i < items.len() {
        let here = if is_cond_result(head, items.len(), start, i) {
            result_diags(c, items[i], head, ui, st)
        } else {
            form_diags(c, items[i], st)
        };
        if is_cond_result(head, items.len(), start, i) {
            lemma_result(c, items[i], head, ui, st);
        } else {
            lemma_form(c, items[i], st);
        }
        lemma_cond_pairs(c, items, start, i + 1, head, ui, st);
        lemma_concat(c, here, cond_pairs_diags(c, items, start, i + 1, head, ui, st));
    }
}

proof fn lemma_match(c: Rules, items: Seq<SExp>, st: Seq<FrameKind>)
    ensures
        all_pass(c, match_diags(c, items, st)),
    decreases items, items.len() + 2,
{
    let subject = if items.len() > 1 {
        form_diags(c, items[1], st)
    } else {
        seq![]
    };
    if items.len() > 1 {
        lemma_form(c, items[1], st);
    }
    lemma_match_pairs(c, items, 2, in_ui(st), st);
    lemma_concat(c, subject, match_pairs_diags(c, items, 2, in_ui(st), st));
}

proof fn lemma_match_pairs(c: Rules, items: Seq<SExp>, i: int, ui: bool, st: Seq<FrameKind>)
    ensures
        all_pass(c, match_pairs_diags(c, items, i, ui, st)),
    decreases items, rem(items.len(), i),
{
    if 2 <= i < items.len() {
        let here = if (i - 2) % 2 == 0 {
            form_diags(c, items[i], st.push(FrameKind::FnScope))
        } else {
            result_diags(c, items[i], "match"@, ui, st.push(FrameKind::Conditional))
        };
        if (i - 2) % 2 == 0 {
            lemma_form(c, items[i], st.push(FrameKind::FnScope));
        } else {
            lemma_result(c, items[i], "match"@, ui, st.push(FrameKind::Conditional));
        }
        lemma_match_pairs(c, items, i + 1, ui, st);
        lemma_concat(c, here, match_pairs_diags(c, items, i + 1, ui, st));
    }
}

proof fn lemma_hiccup(c: Rules, items: Seq<SExp>, st: Seq<FrameKind>)
    ensures
        all_pass(c, hiccup_diags(c, items, st)),
    decreases items, items.len() + 2,
{
    if items.len() > 1 && items[1] is MapLiteral {
        match items[1] {
            SExp::MapLiteral(kv, _) => {
                lemma_hiccup_attrs(c, kv@, 0, st);
                lemma_hiccup_children(c, items, 2, st);
                lemma_concat(
                    c,
                    hiccup_attrs_diags(c, kv@, 0, st),
                    hiccup_children_diags(c, items, 2, st),
                );
            },
            _ => {},
        }
    } else {
        lemma_hiccup_children(c, items, 1, st);
    }
}

proof fn lemma_hiccup_child(c: Rules, x: SExp, st: Seq<FrameKind>)
    ensures
        all_pass(c, hiccup_child_diags(c, x, st)),
    decreases x, 1nat,
{
    match x {
        SExp::Str(s, span) => lemma_report(c, DiagnosticKind::HiccupText, span, s@, None),
        _ => lemma_form(c, x, st),
    }
}

proof fn lemma_hiccup_children(c: Rules, items: Seq<SExp>, i: int, st: Seq<FrameKind>)
    ensures
        all_pass(c, hiccup_children_diags(c, items, i, st)),
    decreases items, rem(items.len(), i),
{
    if 0 <= i < items.len() {
        lemma_hiccup_child(c, items[i], st);
        lemma_hiccup_children(c, items, i + 1, st);
        lemma_concat(
            c,
            hiccup_child_diags(c, items[i], st),
            hiccup_children_diags(c, items, i + 1, st),
        );
    }
}

proof fn lemma_hiccup_attr(c: Rules, k: SExp, v: SExp, st: Seq<FrameKind>)
    ensures
        all_pass(c, hiccup_attr_diags(c, k, v, st)),
    decreases v, 2nat,
{
    match attr_key(k) {
        Some(key) => if is_ui_attribute(c, key) {
            match v {
                SExp::Str(s, span) => lemma_report(
                    c,
                    DiagnosticKind::HiccupAttr,
                    span,
                    s@,
                    Some(key),
                ),
                _ => lemma_form(c, v, st),
            }
        } else {
            lemma_non_text_value(c, v, st);
        },
        None => {},
    }
}

proof fn lemma_non_text_value(c: Rules, v: SExp, st: Seq<FrameKind>)
    ensures
        all_pass(c, non_text_value_diags(c, v, st)),
    decreases v, 1nat,
{
    if !(v is Str) {
        lemma_form(c, v, st.push(FrameKind::FnScope));
    }
}

proof fn lemma_hiccup_attrs(c: Rules, kv: Seq<SExp>, j: int, st: Seq<FrameKind>)
    ensures
        all_pass(c, hiccup_attrs_diags(c, kv, j, st)),
    decreases kv, rem(kv.len(), j),
{
    if 0 <= j && j + 1 < kv.len() {
        lemma_hiccup_attr(c, kv[j], kv[j + 1], st);
        lemma_hiccup_attrs(c, kv, j + 2, st);
        lemma_concat(
            c,
            hiccup_attr_diags(c, kv[j], kv[j + 1], st),
            hiccup_attrs_diags(c, kv, j + 2, st),
        );
    }
}

proof fn lemma_ui_map_pair(c: Rules, k: SExp, v: SExp, st: Seq<FrameKind>)
    ensures
        all_pass(c, ui_map_pair_diags(c, k, v, st)),
    decreases v, 2nat,
{
    match k {
        SExp::Keyword(key, _) => if is_ui_attribute(c, key@) {
            match v {
                SExp::Str(s, span) => lemma_report(
                    c,
                    DiagnosticKind::FnArgText,
                    span,
                    s@,
                    Some(key@),
                ),
                _ => lemma_form(c, v, st),
            }
        } else {
            lemma_non_text_value(c, v, st);
        },
        _ => lemma_non_text_value(c, v, st),
    }
}

proof fn lemma_ui_map(c: Rules, kv: Seq<SExp>, j: int, st: Seq<FrameKind>)
    ensures
        all_pass(c, ui_map_diags(c, kv, j, st)),
    decreases kv, rem(kv.len(), j),
{
    if 0 <= j && j + 1 < kv.len() {
        lemma_ui_map_pair(c, kv[j], kv[j + 1], st);
        lemma_ui_map(c, kv, j + 2, st);
        lemma_concat(c, ui_map_pair_diags(c, kv[j], kv[j + 1], st), ui_map_diags(c, kv, j + 2, st));
    }
}

proof fn lemma_map(c: Rules, kv: Seq<SExp>, j: int, st: Seq<FrameKind>)
    ensures
        all_pass(c, map_diags(c, kv, j, st)),
    decreases kv, rem(kv.len(), j),
{
    if 0 <= j && j + 1 < kv.len() {
        lemma_non_text_value(c, kv[j + 1], st);
        lemma_map(c, kv, j + 2, st);
        lemma_concat(c, non_text_value_diags(c, kv[j + 1], st), map_diags(c, kv, j + 2, st));
    }
}

// ---------------------------------------------------------------------------
// Translation keys
// ---------------------------------------------------------------------------
/// A call of a translation function whose first argument is a keyword
/// references that key, on the keyword's line, before anything else the
/// call holds (unless the function's name is also a let-like head).
pub proof fn law_translation_call_references_key(r: KeyRules, env: Env, f: SExp)
    requires
        f matches SExp::List(items, _) && (items@.len() >= 2 && (items@[0] matches SExp::Symbol(
            h,
            _,
        ) && (calls_any(r.i18n_functions, h@) && !is_let_like(h@) && items@[1] is Keyword))),
    ensures
        match f {
            SExp::List(items, _) => match items@[1] {
                SExp::Keyword(k, span) => form_keys(r, env, f).len() > 0 && form_keys(r, env, f)[0]
                    == (Occurrence { key: kw(k@), line: span.line }),
                _ => false,
            },
            _ => false,
        },
{
    match f {
        SExp::List(items, _) => {
            assert(call_keys(r, env, items@) == key_arg(r, env, items@[1]));
            assert(form_keys(r, env, f) == call_keys(r, env, items@) + keys_from(
                r,
                env,
                items@,
                0,
            ));
        },
        _ => {},
    }
}

/// Some entry of `s` has the key.
pub open spec fn lists_key(s: Seq<Occurrence>, key: Seq<char>) -> bool {
    exists|i: int| 0 <= i < s.len() && #[trigger] s[i].key == key
}

/// `x` occurs in `o` with no earlier entry of the same key.
pub open spec fn first_of_key(o: Seq<Occurrence>, x: Occurrence) -> bool {
    exists|j: int| 0 <= j < o.len() && #[trigger] o[j] == x && !lists_key(o.take(j), x.key)
}

/// The keys of a file are listed once each: no key is listed twice, every
/// key found is listed, and each listed entry is the first occurrence of its
/// key, with that occurrence's line.
pub proof fn law_first_occurrences(o: Seq<Occurrence>)
    ensures
        forall|i: int, j: int|
            0 <= i < j < first_occurrences(o).len() ==> #[trigger] first_occurrences(o)[i].key
                != #[trigger] first_occurrences(o)[j].key,
        forall|j: int| 0 <= j < o.len() ==> lists_key(first_occurrences(o), #[trigger] o[j].key),
        forall|i: int|
            0 <= i < first_occurrences(o).len() ==> first_of_key(
                o,
                #[trigger] first_occurrences(o)[i],
            ),
{
    lemma_first_distinct(o);
    lemma_first_covers(o);
    lemma_first_is_first(o);
}

proof fn lemma_lists_push(s: Seq<Occurrence>, x: Occurrence, key: Seq<char>)
    ensures
        lists_key(s.push(x), key) <==> (lists_key(s, key) || x.key == key),
{
    if lists_key(s, key) {
        let i = choose|i: int| 0 <= i < s.len() && #[trigger] s[i].key == key;
        assert(s.push(x)[i] == s[i]);
    }
    if x.key == key {
        assert(s.push(x)[s.len() as int] == x);
    }
    if lists_key(s.push(x), key) {
        let i = choose|i: int| 0 <= i < s.push(x).len() && #[trigger] s.push(x)[i].key == key;
        if i < s.len() {
            assert(s.push(x)[i] == s[i]);
        }
    }
}

proof fn lemma_first_distinct(o: Seq<Occurrence>)
    ensures
        forall|i: int, j: int|
            0 <= i < j < first_occurrences(o).len() ==> #[trigger] first_occurrences(o)[i].key
                != #[trigger] first_occurrences(o)[j].key,
    decreases o.len(),
{
    if o.len() > 0 {
        let x = o.last();
        lemma_first_distinct(o.drop_last());
        let prev = first_occurrences(o.drop_last());
        if !lists_key(prev, x.key) {
            let out = prev.push(x);
            assert forall|i: int, j: int| 0 <= i < j < out.len() implies #[trigger] out[i].key
                != #[trigger] out[j].key by {
                assert(out[i] == prev[i]);
                if j < prev.len() {
                    assert(out[j] == prev[j]);
                }
            }
        }
    }
}

proof fn lemma_first_covers(o: Seq<Occurrence>)
    ensures
        forall|j: int| 0 <= j < o.len() ==> lists_key(first_occurrences(o), #[trigger] o[j].key),
    decreases o.len(),
{
    if o.len() > 0 {
        let p = o.drop_last();
        let x = o.last();
        lemma_first_covers(p);
        let prev = first_occurrences(p);
        let out = first_occurrences(o);
        assert forall|j: int| 0 <= j < o.len() implies lists_key(out, #[trigger] o[j].key) by {
            lemma_lists_push(prev, x, o[j].key);
            if j < p.len() {
                assert(o[j] == p[j]);
            }
        }
    }
}

proof fn lemma_first_is_first(o: Seq<Occurrence>)
    ensures
        forall|i: int|
            0 <= i < first_occurrences(o).len() ==> first_of_key(
                o,
                #[trigger] first_occurrences(o)[i],
            ),
    decreases o.len(),
{
    if o.len() > 0 {
        let p = o.drop_last();
        let x = o.last();
        lemma_first_is_first(p);
        lemma_first_covers(p);
        let prev = first_occurrences(p);
        let out = first_occurrences(o);
        assert forall|i: int| 0 <= i < out.len() implies first_of_key(o, #[trigger] out[i]) by {
            if i < prev.len() {
                assert(out[i] == prev[i]);
                assert(first_of_key(p, prev[i]));
                let j = choose|j: int|
                    0 <= j < p.len() && #[trigger] p[j] == prev[i] && !lists_key(
                        p.take(j),
                        prev[i].key,
                    );
                assert(o[j] == p[j]);
                assert(o.take(j) =~= p.take(j));
            } else {
                assert(!lists_key(prev, x.key));
                assert(out[i] == x);
                let j = p.len() as int;
                assert(o[j] == x);
                assert(o.take(j) =~= p);
                if lists_key(p, x.key) {
                    let k = choose|k: int| 0 <= k < p.len() && #[trigger] p[k].key == x.key;
                    assert(lists_key(prev, p[k].key));
                }
            }
        }
    }
}

// ---------------------------------------------------------------------------
// Reports
// ---------------------------------------------------------------------------
/// A preview is never longer than the limit plus the three characters of
/// `...`.
pub proof fn law_preview_length(s: Seq<char>, max_len: nat)
    ensures
        preview(s, max_len).len() <= max_len + 3,
{
    reveal_strlit("...");
}

/// The sum of a list of per-kind counts.
pub open spec fn counts_total(counts: Seq<(DiagnosticKind, nat)>) -> nat
    decreases counts.len(),
{
    if counts.len() == 0 {
        0
    } else {
        counts_total(counts.drop_last()) + counts.last().1
    }
}

/// The per-kind counts of the summary add up to the number of diagnostics.
pub proof fn law_summary_counts_total(d: Seq<Diagnostic>)
    ensures
        counts_total(kind_counts(d, all_kinds())) == d.len(),
    decreases d.len(),
{
    lemma_counts_total(d, all_kinds());
    if d.len() == 0 {
        lemma_sum_empty(d, all_kinds());
    } else {
        law_summary_counts_total(d.drop_last());
        lemma_counts_total(d.drop_last(), all_kinds());
        lemma_sum_push(d.drop_last(), d.last(), all_kinds());
        assert(d.drop_last().push(d.last()) =~= d);
        lemma_each_kind_once(d.last().kind);
    }
}

/// The sum over `kinds` of the number of diagnostics of each kind.
spec fn sum_over(d: Seq<Diagnostic>, kinds: Seq<DiagnosticKind>) -> nat
    decreases kinds.len(),
{
    if kinds.len() == 0 {
        0
    } else {
        sum_over(d, kinds.drop_last()) + kind_count(d, kinds.last())
    }
}

/// How often `k` is listed.
spec fn listed(kinds: Seq<DiagnosticKind>, k: DiagnosticKind) -> nat
    decreases kinds.len(),
{
    if kinds.len() == 0 {
        0
    } else {
        listed(kinds.drop_last(), k) + if kinds.last() == k {
            1nat
        } else {
            0nat
        }
    }
}

proof fn lemma_sum_empty(d: Seq<Diagnostic>, kinds: Seq<DiagnosticKind>)
    requires
        d.len() == 0,
    ensures
        sum_over(d, kinds) == 0,
    decreases kinds.len(),
{
    if kinds.len() > 0 {
        lemma_sum_empty(d, kinds.drop_last());
    }
}

proof fn lemma_counts_total(d: Seq<Diagnostic>, kinds: Seq<DiagnosticKind>)
    ensures
        counts_total(kind_counts(d, kinds)) == sum_over(d, kinds),
    decreases kinds.len(),
{
    if kinds.len() > 0 {
        lemma_counts_total(d, kinds.drop_last());
        let prev = kind_counts(d, kinds.drop_last());
        if kind_count(d, kinds.last()) > 0 {
            let next = prev.push((kinds.last(), kind_count(d, kinds.last())));
            assert(next.drop_last() =~= prev);
        }
    }
}

proof fn lemma_sum_push(d: Seq<Diagnostic>, x: Diagnostic, kinds: Seq<DiagnosticKind>)
    ensures
        sum_over(d.push(x), kinds) == sum_over(d, kinds) + listed(kinds, x.kind),
    decreases kinds.len(),
{
    assert(d.push(x).drop_last() =~= d);
    if kinds.len() > 0 {
        lemma_sum_push(d, x, kinds.drop_last());
    }
}

proof fn lemma_each_kind_once(k: DiagnosticKind)
    ensures
        listed(all_kinds(), k) == 1,
{
    reveal_with_fuel(listed, 10);
    let a = all_kinds();
    assert(a.drop_last() =~= a.subrange(0, 8));
    assert(a.subrange(0, 8).drop_last() =~= a.subrange(0, 7));
    assert(a.subrange(0, 7).drop_last() =~= a.subrange(0, 6));
    assert(a.subrange(0, 6).drop_last() =~= a.subrange(0, 5));
    assert(a.subrange(0, 5).drop_last() =~= a.subrange(0, 4));
    assert(a.subrange(0, 4).drop_last() =~= a.subrange(0, 3));
    assert(a.subrange(0, 3).drop_last() =~= a.subrange(0, 2));
    assert(a.subrange(0, 2).drop_last() =~= a.subrange(0, 1));
    assert(a.subrange(0, 1).drop_last() =~= a.subrange(0, 0));
}

// ---------------------------------------------------------------------------
// Unused keys and dictionaries
// ---------------------------------------------------------------------------
/// A key that source code references, that an always-used pattern matches,
/// or whose namespace is ignored is never reported as unused; nor is a key
/// the dictionary does not define.
pub proof fn law_filtered_keys_never_unused(
    key: Seq<char>,
    defined: Seq<Seq<char>>,
    referenced: Seq<Seq<char>>,
    always: Seq<Seq<char>>,
    ignore: Seq<Seq<char>>,
)
    requires
        referenced.contains(key) || !defined.contains(key) || (always.len() > 0
            && regex_set_matches(always, key)) || (match key_namespace(key) {
            Some(ns) => namespace_ignored(ns, ignore),
            None => false,
        }),
    ensures
        !is_unused(key, defined, referenced, always, ignore),
{
}

/// A check after the unused keys are removed finds none: when a dictionary
/// defines exactly the keys of `defined` that were not unused (the same
/// references and filters), no key of it is unused.
pub proof fn law_no_unused_keys_after_removing_them(
    defined: Seq<Seq<char>>,
    remaining: Seq<Seq<char>>,
    referenced: Seq<Seq<char>>,
    always: Seq<Seq<char>>,
    ignore: Seq<Seq<char>>,
)
    requires
        forall|k: Seq<char>|
            #[trigger] remaining.contains(k) <==> (defined.contains(k) && !is_unused(
                k,
                defined,
                referenced,
                always,
                ignore,
            )),
    ensures
        forall|k: Seq<char>| !#[trigger] is_unused(k, remaining, referenced, always, ignore),
{
    assert forall|k: Seq<char>| !#[trigger] is_unused(k, remaining, referenced, always, ignore) by {
        if remaining.contains(k) {
            assert(!is_unused(k, defined, referenced, always, ignore));
        }
    }
}

/// Removing only keys that a dictionary does not define leaves it as it is:
/// no new text is produced, and no error either.
pub proof fn law_removal_of_undefined_keys_changes_nothing(
    content: Seq<char>,
    forms: Seq<SExp>,
    remove: Seq<Seq<char>>,
    path: Seq<char>,
)
    requires
        forall|k: Seq<char>| remove.contains(k) ==> !dict_key_list(forms).contains(k),
    ensures
        removal(content, forms, remove, path) == Ok::<Option<Seq<char>>, Seq<char>>(None),
{
    match first_map_entries(forms, 0) {
        None => {},
        Some(e) => {
            lemma_first_map_listed(forms, 0);
            lemma_key_lines_kept(e, remove, 0);
        },
    }
}

proof fn lemma_map_keys_listed(forms: Seq<SExp>, j: int)
    requires
        0 <= j < forms.len(),
        forms[j] is MapLiteral,
    ensures
        match forms[j] {
            SExp::MapLiteral(e, _) => forall|m: int|
                0 <= m < entry_keys(e@, 0).len() ==> dict_key_list(forms).contains(
                    #[trigger] entry_keys(e@, 0)[m],
                ),
            _ => true,
        },
    decreases forms.len(),
{
    let prefix = dict_key_list(forms.drop_last());
    match forms[j] {
        SExp::MapLiteral(e, _) => {
            if j == forms.len() - 1 {
                let keys = entry_keys(e@, 0);
                assert(dict_key_list(forms) == prefix + keys);
                assert forall|m: int| 0 <= m < keys.len() implies dict_key_list(forms).contains(
                    #[trigger] keys[m],
                ) by {
                    assert((prefix + keys)[prefix.len() + m] == keys[m]);
                }
            } else {
                assert(forms.drop_last()[j] == forms[j]);
                lemma_map_keys_listed(forms.drop_last(), j);
                let tail = match forms.last() {
                    SExp::MapLiteral(e2, _) => entry_keys(e2@, 0),
                    _ => seq![],
                };
                assert(dict_key_list(forms) == prefix + tail);
                assert forall|m: int| 0 <= m < entry_keys(e@, 0).len() implies dict_key_list(
                    forms,
                ).contains(#[trigger] entry_keys(e@, 0)[m]) by {
                    let w = choose|w: int|
                        0 <= w < prefix.len() && prefix[w] == entry_keys(e@, 0)[m];
                    assert((prefix + tail)[w] == prefix[w]);
                }
            }
        },
        _ => {},
    }
}

proof fn lemma_first_map_listed(forms: Seq<SExp>, i: int)
    requires
        0 <= i,
    ensures
        match first_map_entries(forms, i) {
            Some(e) => forall|m: int|
                0 <= m < entry_keys(e, 0).len() ==> dict_key_list(forms).contains(
                    #[trigger] entry_keys(e, 0)[m],
                ),
            None => true,
        },
    decreases forms.len() - i,
{
    if i < forms.len() {
        match forms[i] {
            SExp::MapLiteral(_, _) => lemma_map_keys_listed(forms, i),
            _ => lemma_first_map_listed(forms, i + 1),
        }
    }
}

proof fn lemma_key_lines_kept(e: Seq<SExp>, remove: Seq<Seq<char>>, i: int)
    requires
        forall|m: int|
            0 <= m < entry_keys(e, i).len() ==> !remove.contains(#[trigger] entry_keys(e, i)[m]),
    ensures
        forall|k: int|
            0 <= k < key_lines(e, remove, i).len() ==> !(#[trigger] key_lines(e, remove, i)[k]).remove,
    decreases e.len() - i,
{
    if 0 <= i < e.len() {
        let here_keys = if i % 2 == 0 {
            match e[i] {
                SExp::Keyword(k, _) => seq![kw(k@)],
                _ => seq![],
            }
        } else {
            seq![]
        };
        let here_lines = if i % 2 == 0 {
            match e[i] {
                SExp::Keyword(k, span) => seq![
                    KeyLine {
                        start: if span.line >= 1 {
                            span.line - 1
                        } else {
                            0
                        },
                        remove: remove.contains(kw(k@)),
                    },
                ],
                _ => seq![],
            }
        } else {
            seq![]
        };
        let rest_keys = entry_keys(e, i + 1);
        assert(entry_keys(e, i) == here_keys + rest_keys);
        assert(key_lines(e, remove, i) == here_lines + key_lines(e, remove, i + 1));
        assert forall|m: int| 0 <= m < rest_keys.len() implies !remove.contains(
            #[trigger] rest_keys[m],
        ) by {
            assert((here_keys + rest_keys)[here_keys.len() + m] == rest_keys[m]);
        }
        lemma_key_lines_kept(e, remove, i + 1);
        if here_keys.len() > 0 {
            assert((here_keys + rest_keys)[0] == here_keys[0]);
        }
        let all = here_lines + key_lines(e, remove, i + 1);
        assert forall|k: int| 0 <= k < all.len() implies !(#[trigger] all[k]).remove by {
            if k >= here_lines.len() {
                assert(all[k] == key_lines(e, remove, i + 1)[k - here_lines.len()]);
            }
        }
    }
}

/// Fixing a dictionary drops exactly the removed entries' lines: when the
/// entries start on increasing lines before the closing brace, the line
/// where an entry starts is dropped if and only if its key is removed, and
/// the lines before the first entry and from the closing brace on are kept.
pub proof fn law_fix_drops_exactly_removed_entries(kl: Seq<KeyLine>, closing: int)
    requires
        forall|i: int, j: int| 0 <= i < j < kl.len() ==> (#[trigger] kl[i]).start < (#[trigger] kl[j]).start,
        forall|k: int| 0 <= k < kl.len() ==> (#[trigger] kl[k]).start < closing,
    ensures
        forall|k: int|
            0 <= k < kl.len() ==> (line_removed(kl, closing, (#[trigger] kl[k]).start) <==> kl[k].remove),
        forall|i: int|
            (kl.len() == 0 || i < kl[0].start || i >= closing) ==> !#[trigger] line_removed(kl, closing, i),
{
    assert forall|k: int| 0 <= k < kl.len() implies (line_removed(kl, closing, (#[trigger] kl[k]).start)
        <==> kl[k].remove) by {
        if kl[k].remove {
            assert(kl[k].start < entry_end(kl, k, closing));
        }
        if line_removed(kl, closing, kl[k].start) {
            let k2 = choose|k2: int|
                0 <= k2 < kl.len() && #[trigger] kl[k2].remove && kl[k2].start <= kl[k].start
                    < entry_end(kl, k2, closing);
            if k2 < k {
                assert(kl[k2 + 1].start <= kl[k].start);
            } else if k2 > k {
                assert(kl[k].start < kl[k2].start);
            }
        }
    }
    assert forall|i: int| (kl.len() == 0 || i < kl[0].start || i >= closing) implies !#[trigger] line_removed(
        kl,
        closing,
        i,
    ) by {
        if line_removed(kl, closing, i) {
            let k2 = choose|k2: int|
                0 <= k2 < kl.len() && #[trigger] kl[k2].remove && kl[k2].start <= i < entry_end(
                    kl,
                    k2,
                    closing,
                );
            if k2 > 0 {
                assert(kl[0].start < kl[k2].start);
            }
            if k2 + 1 < kl.len() {
                assert(kl[k2 + 1].start < closing);
            }
        }
    }
}

/// An item with a string literal replaced by `nil` at the same place; any
/// other item unchanged.
pub open spec fn as_nil(x: SExp) -> SExp {
    match x {
        SExp::Str(_, span) => SExp::Nil(span),
        _ => x,
    }
}

/// The items with each direct string literal replaced by `nil`.
pub open spec fn strings_as_nil(items: Seq<SExp>) -> Seq<SExp> {
    Seq::new(items.len(), |k: int| as_nil(items[k]))
}

/// Outside a UI context, the direct string literals of a conditional (`if`,
/// `if-not`, `when`, `when-not`, `or`, `case`, `cond`, `condp`) contribute
/// nothing, whatever its other tests and branches are: the conditional
/// reports exactly what the same form reports with each of its direct
/// strings replaced by `nil`, so only nested forms (hiccup vectors, UI or
/// alert calls, ...) can report there. This holds unless the head is also
/// configured as an alert function.
pub proof fn law_conditional_strings_outside_ui(c: Rules, f: SExp, g: SExp, st: Seq<FrameKind>)
    requires
        !in_ui(st),
        f matches SExp::List(items, _) && (items@.len() > 0 && (items@[0] matches SExp::Symbol(
            head,
            _,
        ) && (is_conditional_head(head@) && !any_names_function(c.alert_functions, head@)))),
        g matches SExp::List(others, _) && f matches SExp::List(items, _) && others@
            == strings_as_nil(items@),
    ensures
        form_diags(c, f, st) == form_diags(c, g, st),
{
    reveal_strlit("if");
    reveal_strlit("if-not");
    reveal_strlit("when");
    reveal_strlit("when-not");
    reveal_strlit("or");
    reveal_strlit("case");
    reveal_strlit("cond");
    reveal_strlit("condp");
    match (f, g) {
        (SExp::List(items, _), SExp::List(others, _)) => {
            let head = match items@[0] {
                SExp::Symbol(h, _) => h@,
                _ => seq![],
            };
            let is = items@;
            let os = others@;
            assert(os[0] == is[0]);
            assert forall|j: int| 0 <= j < head.len() implies head[j] != '/' by {
                if head == "if"@ || head == "if-not"@ || head == "when"@ || head == "when-not"@ {
                } else {
                }
            }
            lemma_last_segment_plain(head);
            lemma_conditional_head_unclaimed(head);
            if !in_ignored(st) {
                assert(list_diags(c, is, st) == call_diags(c, is, head, st));
                assert(list_diags(c, os, st) == call_diags(c, os, head, st));
                let cond_st = st.push(FrameKind::Conditional);
                lemma_nil_seq(c, is, 2, st);
                lemma_nil_seq(c, is, 1, cond_st);
                lemma_nil_branch(c, is, 1, head, cond_st);
                lemma_nil_case(c, is, 2, st);
                lemma_nil_cond_pairs(c, is, 1, 1, head, cond_st);
                lemma_nil_cond_pairs(c, is, 3, 3, head, cond_st);
                if is.len() > 1 {
                    lemma_item_as_nil(c, is[1], head, st);
                    lemma_item_as_nil(c, is[1], head, cond_st);
                    assert(format_diags(c, is, head, st) == format_diags(c, os, head, st));
                }
                assert(cond_diags(c, is, head, st) == cond_diags(c, os, head, st));
                assert(call_diags(c, is, head, st) == call_diags(c, os, head, st));
            }
        },
        _ => {},
    }
}

/// Outside a UI context a string literal and `nil` report the same: nothing.
proof fn lemma_item_as_nil(c: Rules, x: SExp, label: Seq<char>, st: Seq<FrameKind>)
    ensures
        form_diags(c, x, st) == form_diags(c, as_nil(x), st),
        result_diags(c, x, label, false, st) == result_diags(c, as_nil(x), label, false, st),
{
}

proof fn lemma_nil_seq(c: Rules, items: Seq<SExp>, i: int, st: Seq<FrameKind>)
    requires
        i >= 0,
    ensures
        seq_diags(c, items, i, st) == seq_diags(c, strings_as_nil(items), i, st),
    decreases rem(items.len(), i),
{
    if i < items.len() {
        lemma_nil_seq(c, items, i + 1, st);
        lemma_item_as_nil(c, items[i], seq![], st);
    }
}

proof fn lemma_nil_branch(c: Rules, items: Seq<SExp>, i: int, head: Seq<char>, st: Seq<FrameKind>)
    requires
        i >= 0,
    ensures
        branch_diags(c, items, i, head, false, st) == branch_diags(
            c,
            strings_as_nil(items),
            i,
            head,
            false,
            st,
        ),
    decreases rem(items.len(), i),
{
    if i < items.len() {
        lemma_nil_branch(c, items, i + 1, head, st);
        lemma_item_as_nil(c, items[i], head, st);
    }
}

proof fn lemma_nil_case(c: Rules, items: Seq<SExp>, i: int, st: Seq<FrameKind>)
    requires
        i >= 0,
    ensures
        case_diags(c, items, i, false, st) == case_diags(c, strings_as_nil(items), i, false, st),
    decreases rem(items.len(), i),
{
    if i < items.len() {
        lemma_nil_case(c, items, i + 1, st);
        let x = items[i];
        lemma_item_as_nil(c, x, "case"@, st.push(FrameKind::Conditional));
        lemma_item_as_nil(c, x, "case"@, st.push(FrameKind::FnScope));
        assert(case_item_diags(c, x, is_case_result(items.len(), i), false, st) == case_item_diags(
            c,
            as_nil(x),
            is_case_result(items.len(), i),
            false,
            st,
        ));
    }
}

proof fn lemma_nil_cond_pairs(
    c: Rules,
    items: Seq<SExp>,
    start: int,
    i: int,
    head: Seq<char>,
    st: Seq<FrameKind>,
)
    requires
        0 <= start <= i,
    ensures
        cond_pairs_diags(c, items, start, i, head, false, st) == cond_pairs_diags(
            c,
            strings_as_nil(items),
            start,
            i,
            head,
            false,
            st,
        ),
    decreases rem(items.len(), i),
{
    if i < items.len() {
        lemma_nil_cond_pairs(c, items, start, i + 1, head, st);
        lemma_item_as_nil(c, items[i], head, st);
    }
}

proof fn lemma_conditional_head_unclaimed(h: Seq<char>)
    requires
        is_conditional_head(h),
    ensures
        !is_def_head(h),
        !is_component_def(h),
        !is_let_head(h),
        !is_ns_form(h),
        h != "str"@,
        h != "match"@,
{
    if h == "if"@ {
        lemma_head_unclaimed_0(h);
    }
    if h == "if-not"@ {
        lemma_head_unclaimed_1(h);
    }
    if h == "when"@ {
        lemma_head_unclaimed_2(h);
    }
    if h == "when-not"@ {
        lemma_head_unclaimed_3(h);
    }
    if h == "or"@ {
        lemma_head_unclaimed_4(h);
    }
    if h == "case"@ {
        lemma_head_unclaimed_5(h);
    }
    if h == "cond"@ {
        lemma_head_unclaimed_6(h);
    }
    if h == "condp"@ {
        lemma_head_unclaimed_7(h);
    }
}

proof fn lemma_head_unclaimed_0(h: Seq<char>)
    requires
        h == "if"@,
    ensures
        !is_def_head(h),
        !is_component_def(h),
        !is_let_head(h),
        !is_ns_form(h),
        h != "str"@,
        h != "match"@,
{
    reveal_strlit("if");
    reveal_strlit("str");
    assert(h.len() != "str"@.len());
    reveal_strlit("match");
    assert(h.len() != "match"@.len());
    reveal_strlit("def");
    assert(h.len() != "def"@.len());
    reveal_strlit("defonce");
    assert(h.len() != "defonce"@.len());
    reveal_strlit("defn");
    assert(h.len() != "defn"@.len());
    reveal_strlit("defn-");
    assert(h.len() != "defn-"@.len());
    reveal_strlit("defmacro");
    assert(h.len() != "defmacro"@.len());
    reveal_strlit("defmethod");
    assert(h.len() != "defmethod"@.len());
    reveal_strlit("defmulti");
    assert(h.len() != "defmulti"@.len());
    reveal_strlit("defc");
    assert(h.len() != "defc"@.len());
    reveal_strlit("defcs");
    assert(h.len() != "defcs"@.len());
    reveal_strlit("defcc");
    assert(h.len() != "defcc"@.len());
    reveal_strlit("defrc");
    assert(h.len() != "defrc"@.len());
    reveal_strlit("defsc");
    assert(h.len() != "defsc"@.len());
    reveal_strlit("let");
    assert(h.len() != "let"@.len());
    reveal_strlit("let!");
    assert(h.len() != "let!"@.len());
    reveal_strlit("binding");
    assert(h.len() != "binding"@.len());
    reveal_strlit("loop");
    assert(h.len() != "loop"@.len());
    reveal_strlit("when-let");
    assert(h.len() != "when-let"@.len());
    reveal_strlit("when-some");
    assert(h.len() != "when-some"@.len());
    reveal_strlit("if-let");
    assert(h.len() != "if-let"@.len());
    reveal_strlit("if-some");
    assert(h.len() != "if-some"@.len());
    reveal_strlit("ns");
    assert(h[0] != "ns"@[0]);
    reveal_strlit("require");
    assert(h.len() != "require"@.len());
    reveal_strlit("import");
    assert(h.len() != "import"@.len());
    reveal_strlit("use");
    assert(h.len() != "use"@.len());
    reveal_strlit("refer");
    assert(h.len() != "refer"@.len());
    reveal_strlit("comment");
    assert(h.len() != "comment"@.len());
}

proof fn lemma_head_unclaimed_1(h: Seq<char>)
    requires
        h == "if-not"@,
    ensures
        !is_def_head(h),
        !is_component_def(h),
        !is_let_head(h),
        !is_ns_form(h),
        h != "str"@,
        h != "match"@,
{
    reveal_strlit("if-not");
    reveal_strlit("str");
    assert(h.len() != "str"@.len());
    reveal_strlit("match");
    assert(h.len() != "match"@.len());
    reveal_strlit("def");
    assert(h.len() != "def"@.len());
    reveal_strlit("defonce");
    assert(h.len() != "defonce"@.len());
    reveal_strlit("defn");
    assert(h.len() != "defn"@.len());
    reveal_strlit("defn-");
    assert(h.len() != "defn-"@.len());
    reveal_strlit("defmacro");
    assert(h.len() != "defmacro"@.len());
    reveal_strlit("defmethod");
    assert(h.len() != "defmethod"@.len());
    reveal_strlit("defmulti");
    assert(h.len() != "defmulti"@.len());
    reveal_strlit("defc");
    assert(h.len() != "defc"@.len());
    reveal_strlit("defcs");
    assert(h.len() != "defcs"@.len());
    reveal_strlit("defcc");
    assert(h.len() != "defcc"@.len());
    reveal_strlit("defrc");
    assert(h.len() != "defrc"@.len());
    reveal_strlit("defsc");
    assert(h.len() != "defsc"@.len());
    reveal_strlit("let");
    assert(h.len() != "let"@.len());
    reveal_strlit("let!");
    assert(h.len() != "let!"@.len());
    reveal_strlit("binding");
    assert(h.len() != "binding"@.len());
    reveal_strlit("loop");
    assert(h.len() != "loop"@.len());
    reveal_strlit("when-let");
    assert(h.len() != "when-let"@.len());
    reveal_strlit("when-some");
    assert(h.len() != "when-some"@.len());
    reveal_strlit("if-let");
    assert(h[3] != "if-let"@[3]);
    reveal_strlit("if-some");
    assert(h.len() != "if-some"@.len());
    reveal_strlit("ns");
    assert(h.len() != "ns"@.len());
    reveal_strlit("require");
    assert(h.len() != "require"@.len());
    reveal_strlit("import");
    assert(h[1] != "import"@[1]);
    reveal_strlit("use");
    assert(h.len() != "use"@.len());
    reveal_strlit("refer");
    assert(h.len() != "refer"@.len());
    reveal_strlit("comment");
    assert(h.len() != "comment"@.len());
}

proof fn lemma_head_unclaimed_2(h: Seq<char>)
    requires
        h == "when"@,
    ensures
        !is_def_head(h),
        !is_component_def(h),
        !is_let_head(h),
        !is_ns_form(h),
        h != "str"@,
        h != "match"@,
{
    reveal_strlit("when");
    reveal_strlit("str");
    assert(h.len() != "str"@.len());
    reveal_strlit("match");
    assert(h.len() != "match"@.len());
    reveal_strlit("def");
    assert(h.len() != "def"@.len());
    reveal_strlit("defonce");
    assert(h.len() != "defonce"@.len());
    reveal_strlit("defn");
    assert(h[0] != "defn"@[0]);
    reveal_strlit("defn-");
    assert(h.len() != "defn-"@.len());
    reveal_strlit("defmacro");
    assert(h.len() != "defmacro"@.len());
    reveal_strlit("defmethod");
    assert(h.len() != "defmethod"@.len());
    reveal_strlit("defmulti");
    assert(h.len() != "defmulti"@.len());
    reveal_strlit("defc");
    assert(h[0] != "defc"@[0]);
    reveal_strlit("defcs");
    assert(h.len() != "defcs"@.len());
    reveal_strlit("defcc");
    assert(h.len() != "defcc"@.len());
    reveal_strlit("defrc");
    assert(h.len() != "defrc"@.len());
    reveal_strlit("defsc");
    assert(h.len() != "defsc"@.len());
    reveal_strlit("let");
    assert(h.len() != "let"@.len());
    reveal_strlit("let!");
    assert(h[0] != "let!"@[0]);
    reveal_strlit("binding");
    assert(h.len() != "binding"@.len());
    reveal_strlit("loop");
    assert(h[0] != "loop"@[0]);
    reveal_strlit("when-let");
    assert(h.len() != "when-let"@.len());
    reveal_strlit("when-some");
    assert(h.len() != "when-some"@.len());
    reveal_strlit("if-let");
    assert(h.len() != "if-let"@.len());
    reveal_strlit("if-some");
    assert(h.len() != "if-some"@.len());
    reveal_strlit("ns");
    assert(h.len() != "ns"@.len());
    reveal_strlit("require");
    assert(h.len() != "require"@.len());
    reveal_strlit("import");
    assert(h.len() != "import"@.len());
    reveal_strlit("use");
    assert(h.len() != "use"@.len());
    reveal_strlit("refer");
    assert(h.len() != "refer"@.len());
    reveal_strlit("comment");
    assert(h.len() != "comment"@.len());
}

proof fn lemma_head_unclaimed_3(h: Seq<char>)
    requires
        h == "when-not"@,
    ensures
        !is_def_head(h),
        !is_component_def(h),
        !is_let_head(h),
        !is_ns_form(h),
        h != "str"@,
        h != "match"@,
{
    reveal_strlit("when-not");
    reveal_strlit("str");
    assert(h.len() != "str"@.len());
    reveal_strlit("match");
    assert(h.len() != "match"@.len());
    reveal_strlit("def");
    assert(h.len() != "def"@.len());
    reveal_strlit("defonce");
    assert(h.len() != "defonce"@.len());
    reveal_strlit("defn");
    assert(h.len() != "defn"@.len());
    reveal_strlit("defn-");
    assert(h.len() != "defn-"@.len());
    reveal_strlit("defmacro");
    assert(h[0] != "defmacro"@[0]);
    reveal_strlit("defmethod");
    assert(h.len() != "defmethod"@.len());
    reveal_strlit("defmulti");
    assert(h[0] != "defmulti"@[0]);
    reveal_strlit("defc");
    assert(h.len() != "defc"@.len());
    reveal_strlit("defcs");
    assert(h.len() != "defcs"@.len());
    reveal_strlit("defcc");
    assert(h.len() != "defcc"@.len());
    reveal_strlit("defrc");
    assert(h.len() != "defrc"@.len());
    reveal_strlit("defsc");
    assert(h.len() != "defsc"@.len());
    reveal_strlit("let");
    assert(h.len() != "let"@.len());
    reveal_strlit("let!");
    assert(h.len() != "let!"@.len());
    reveal_strlit("binding");
    assert(h.len() != "binding"@.len());
    reveal_strlit("loop");
    assert(h.len() != "loop"@.len());
    reveal_strlit("when-let");
    assert(h[5] != "when-let"@[5]);
    reveal_strlit("when-some");
    assert(h.len() != "when-some"@.len());
    reveal_strlit("if-let");
    assert(h.len() != "if-let"@.len());
    reveal_strlit("if-some");
    assert(h.len() != "if-some"@.len());
    reveal_strlit("ns");
    assert(h.len() != "ns"@.len());
    reveal_strlit("require");
    assert(h.len() != "require"@.len());
    reveal_strlit("import");
    assert(h.len() != "import"@.len());
    reveal_strlit("use");
    assert(h.len() != "use"@.len());
    reveal_strlit("refer");
    assert(h.len() != "refer"@.len());
    reveal_strlit("comment");
    assert(h.len() != "comment"@.len());
}

proof fn lemma_head_unclaimed_4(h: Seq<char>)
    requires
        h == "or"@,
    ensures
        !is_def_head(h),
        !is_component_def(h),
        !is_let_head(h),
        !is_ns_form(h),
        h != "str"@,
        h != "match"@,
{
    reveal_strlit("or");
    reveal_strlit("str");
    assert(h.len() != "str"@.len());
    reveal_strlit("match");
    assert(h.len() != "match"@.len());
    reveal_strlit("def");
    assert(h.len() != "def"@.len());
    reveal_strlit("defonce");
    assert(h.len() != "defonce"@.len());
    reveal_strlit("defn");
    assert(h.len() != "defn"@.len());
    reveal_strlit("defn-");
    assert(h.len() != "defn-"@.len());
    reveal_strlit("defmacro");
    assert(h.len() != "defmacro"@.len());
    reveal_strlit("defmethod");
    assert(h.len() != "defmethod"@.len());
    reveal_strlit("defmulti");
    assert(h.len() != "defmulti"@.len());
    reveal_strlit("defc");
    assert(h.len() != "defc"@.len());
    reveal_strlit("defcs");
    assert(h.len() != "defcs"@.len());
    reveal_strlit("defcc");
    assert(h.len() != "defcc"@.len());
    reveal_strlit("defrc");
    assert(h.len() != "defrc"@.len());
    reveal_strlit("defsc");
    assert(h.len() != "defsc"@.len());
    reveal_strlit("let");
    assert(h.len() != "let"@.len());
    reveal_strlit("let!");
    assert(h.len() != "let!"@.len());
    reveal_strlit("binding");
    assert(h.len() != "binding"@.len());
    reveal_strlit("loop");
    assert(h.len() != "loop"@.len());
    reveal_strlit("when-let");
    assert(h.len() != "when-let"@.len());
    reveal_strlit("when-some");
    assert(h.len() != "when-some"@.len());
    reveal_strlit("if-let");
    assert(h.len() != "if-let"@.len());
    reveal_strlit("if-some");
    assert(h.len() != "if-some"@.len());
    reveal_strlit("ns");
    assert(h[0] != "ns"@[0]);
    reveal_strlit("require");
    assert(h.len() != "require"@.len());
    reveal_strlit("import");
    assert(h.len() != "import"@.len());
    reveal_strlit("use");
    assert(h.len() != "use"@.len());
    reveal_strlit("refer");
    assert(h.len() != "refer"@.len());
    reveal_strlit("comment");
    assert(h.len() != "comment"@.len());
}

proof fn lemma_head_unclaimed_5(h: Seq<char>)
    requires
        h == "case"@,
    ensures
        !is_def_head(h),
        !is_component_def(h),
        !is_let_head(h),
        !is_ns_form(h),
        h != "str"@,
        h != "match"@,
{
    reveal_strlit("case");
    reveal_strlit("str");
    assert(h.len() != "str"@.len());
    reveal_strlit("match");
    assert(h.len() != "match"@.len());
    reveal_strlit("def");
    assert(h.len() != "def"@.len());
    reveal_strlit("defonce");
    assert(h.len() != "defonce"@.len());
    reveal_strlit("defn");
    assert(h[0] != "defn"@[0]);
    reveal_strlit("defn-");
    assert(h.len() != "defn-"@.len());
    reveal_strlit("defmacro");
    assert(h.len() != "defmacro"@.len());
    reveal_strlit("defmethod");
    assert(h.len() != "defmethod"@.len());
    reveal_strlit("defmulti");
    assert(h.len() != "defmulti"@.len());
    reveal_strlit("defc");
    assert(h[0] != "defc"@[0]);
    reveal_strlit("defcs");
    assert(h.len() != "defcs"@.len());
    reveal_strlit("defcc");
    assert(h.len() != "defcc"@.len());
    reveal_strlit("defrc");
    assert(h.len() != "defrc"@.len());
    reveal_strlit("defsc");
    assert(h.len() != "defsc"@.len());
    reveal_strlit("let");
    assert(h.len() != "let"@.len());
    reveal_strlit("let!");
    assert(h[0] != "let!"@[0]);
    reveal_strlit("binding");
    assert(h.len() != "binding"@.len());
    reveal_strlit("loop");
    assert(h[0] != "loop"@[0]);
    reveal_strlit("when-let");
    assert(h.len() != "when-let"@.len());
    reveal_strlit("when-some");
    assert(h.len() != "when-some"@.len());
    reveal_strlit("if-let");
    assert(h.len() != "if-let"@.len());
    reveal_strlit("if-some");
    assert(h.len() != "if-some"@.len());
    reveal_strlit("ns");
    assert(h.len() != "ns"@.len());
    reveal_strlit("require");
    assert(h.len() != "require"@.len());
    reveal_strlit("import");
    assert(h.len() != "import"@.len());
    reveal_strlit("use");
    assert(h.len() != "use"@.len());
    reveal_strlit("refer");
    assert(h.len() != "refer"@.len());
    reveal_strlit("comment");
    assert(h.len() != "comment"@.len());
}

proof fn lemma_head_unclaimed_6(h: Seq<char>)
    requires
        h == "cond"@,
    ensures
        !is_def_head(h),
        !is_component_def(h),
        !is_let_head(h),
        !is_ns_form(h),
        h != "str"@,
        h != "match"@,
{
    reveal_strlit("cond");
    reveal_strlit("str");
    assert(h.len() != "str"@.len());
    reveal_strlit("match");
    assert(h.len() != "match"@.len());
    reveal_strlit("def");
    assert(h.len() != "def"@.len());
    reveal_strlit("defonce");
    assert(h.len() != "defonce"@.len());
    reveal_strlit("defn");
    assert(h[0] != "defn"@[0]);
    reveal_strlit("defn-");
    assert(h.len() != "defn-"@.len());
    reveal_strlit("defmacro");
    assert(h.len() != "defmacro"@.len());
    reveal_strlit("defmethod");
    assert(h.len() != "defmethod"@.len());
    reveal_strlit("defmulti");
    assert(h.len() != "defmulti"@.len());
    reveal_strlit("defc");
    assert(h[0] != "defc"@[0]);
    reveal_strlit("defcs");
    assert(h.len() != "defcs"@.len());
    reveal_strlit("defcc");
    assert(h.len() != "defcc"@.len());
    reveal_strlit("defrc");
    assert(h.len() != "defrc"@.len());
    reveal_strlit("defsc");
    assert(h.len() != "defsc"@.len());
    reveal_strlit("let");
    assert(h.len() != "let"@.len());
    reveal_strlit("let!");
    assert(h[0] != "let!"@[0]);
    reveal_strlit("binding");
    assert(h.len() != "binding"@.len());
    reveal_strlit("loop");
    assert(h[0] != "loop"@[0]);
    reveal_strlit("when-let");
    assert(h.len() != "when-let"@.len());
    reveal_strlit("when-some");
    assert(h.len() != "when-some"@.len());
    reveal_strlit("if-let");
    assert(h.len() != "if-let"@.len());
    reveal_strlit("if-some");
    assert(h.len() != "if-some"@.len());
    reveal_strlit("ns");
    assert(h.len() != "ns"@.len());
    reveal_strlit("require");
    assert(h.len() != "require"@.len());
    reveal_strlit("import");
    assert(h.len() != "import"@.len());
    reveal_strlit("use");
    assert(h.len() != "use"@.len());
    reveal_strlit("refer");
    assert(h.len() != "refer"@.len());
    reveal_strlit("comment");
    assert(h.len() != "comment"@.len());
}

proof fn lemma_head_unclaimed_7(h: Seq<char>)
    requires
        h == "condp"@,
    ensures
        !is_def_head(h),
        !is_component_def(h),
        !is_let_head(h),
        !is_ns_form(h),
        h != "str"@,
        h != "match"@,
{
    reveal_strlit("condp");
    reveal_strlit("str");
    assert(h.len() != "str"@.len());
    reveal_strlit("match");
    assert(h[0] != "match"@[0]);
    reveal_strlit("def");
    assert(h.len() != "def"@.len());
    reveal_strlit("defonce");
    assert(h.len() != "defonce"@.len());
    reveal_strlit("defn");
    assert(h.len() != "defn"@.len());
    reveal_strlit("defn-");
    assert(h[0] != "defn-"@[0]);
    reveal_strlit("defmacro");
    assert(h.len() != "defmacro"@.len());
    reveal_strlit("defmethod");
    assert(h.len() != "defmethod"@.len());
    reveal_strlit("defmulti");
    assert(h.len() != "defmulti"@.len());
    reveal_strlit("defc");
    assert(h.len() != "defc"@.len());
    reveal_strlit("defcs");
    assert(h[0] != "defcs"@[0]);
    reveal_strlit("defcc");
    assert(h[0] != "defcc"@[0]);
    reveal_strlit("defrc");
    assert(h[0] != "defrc"@[0]);
    reveal_strlit("defsc");
    assert(h[0] != "defsc"@[0]);
    reveal_strlit("let");
    assert(h.len() != "let"@.len());
    reveal_strlit("let!");
    assert(h.len() != "let!"@.len());
    reveal_strlit("binding");
    assert(h.len() != "binding"@.len());
    reveal_strlit("loop");
    assert(h.len() != "loop"@.len());
    reveal_strlit("when-let");
    assert(h.len() != "when-let"@.len());
    reveal_strlit("when-some");
    assert(h.len() != "when-some"@.len());
    reveal_strlit("if-let");
    assert(h.len() != "if-let"@.len());
    reveal_strlit("if-some");
    assert(h.len() != "if-some"@.len());
    reveal_strlit("ns");
    assert(h.len() != "ns"@.len());
    reveal_strlit("require");
    assert(h.len() != "require"@.len());
    reveal_strlit("import");
    assert(h.len() != "import"@.len());
    reveal_strlit("use");
    assert(h.len() != "use"@.len());
    reveal_strlit("refer");
    assert(h[0] != "refer"@[0]);
    reveal_strlit("comment");
    assert(h.len() != "comment"@.len());
}


// ---------------------------------------------------------------------------
// Reader positions
// ---------------------------------------------------------------------------
/// The number of newline bytes among the first `n` bytes.
pub open spec fn newlines_before(b: Seq<u8>, n: int) -> nat
    decreases n,
{
    if n <= 0 || n > b.len() {
        0
    } else {
        newlines_before(b, n - 1) + if b[n - 1] == 10u8 {
            1nat
        } else {
            0nat
        }
    }
}

/// The offset where the line holding byte offset `n` starts: just after the
/// last newline before `n`, or 0.
pub open spec fn line_start(b: Seq<u8>, n: int) -> int
    decreases n,
{
    if n <= 0 || n > b.len() {
        0
    } else if b[n - 1] == 10u8 {
        n
    } else {
        line_start(b, n - 1)
    }
}

/// The reader's line and column are those of its byte offset.
pub open spec fn position_consistent(b: Seq<u8>, st: ReadState) -> bool {
    &&& st.pos <= b.len()
    &&& st.line == 1 + newlines_before(b, st.pos as int)
    &&& st.col == st.pos - line_start(b, st.pos as int) + 1
}

/// The line and column of the reader always agree with its byte offset: the
/// initial state is line 1, column 1 at offset 0, and each step keeps them in
/// agreement, so every span it records has a line and column consistent with
/// its offset.
pub proof fn law_positions_follow_offsets(b: Seq<u8>, st: ReadState, n: nat)
    ensures
        position_consistent(b, initial_state()),
        position_consistent(b, st) ==> position_consistent(b, advance(b, st)),
        position_consistent(b, st) ==> position_consistent(b, advance_n(b, st, n)),
    decreases n,
{
    if n > 0 {
        law_positions_follow_offsets(b, advance(b, st), (n - 1) as nat);
    }
}


// ---------------------------------------------------------------------------
// Allowing one more string
// ---------------------------------------------------------------------------
/// The rules with one more allowed string.
pub open spec fn with_allowed(c: Rules, extra: Seq<char>) -> Rules {
    Rules {
        file_path: c.file_path,
        allow_strings: c.allow_strings.push(extra),
        allow_patterns: c.allow_patterns,
        ui_functions: c.ui_functions,
        ui_namespaces: c.ui_namespaces,
        ui_attributes: c.ui_attributes,
        ignore_context_functions: c.ignore_context_functions,
        i18n_functions: c.i18n_functions,
        exception_functions: c.exception_functions,
        alert_functions: c.alert_functions,
        pure_functions: c.pure_functions,
        format_functions: c.format_functions,
    }
}

/// The diagnostics whose text is not `text`, in order.
pub open spec fn drop_text(ds: Seq<DiagnosticView>, text: Seq<char>) -> Seq<DiagnosticView>
    decreases ds.len(),
{
    if ds.len() == 0 {
        seq![]
    } else {
        drop_text(ds.drop_last(), text) + if ds.last().text == text {
            seq![]
        } else {
            seq![ds.last()]
        }
    }
}

/// Adding a string to the allowed strings removes exactly the diagnostics
/// with that text, and keeps all others, in order.
pub proof fn law_allowing_a_string(c: Rules, extra: Seq<char>, forms: Seq<SExp>)
    ensures
        forms_diags(with_allowed(c, extra), forms) == drop_text(forms_diags(c, forms), extra),
    decreases forms.len(),
{
    if forms.len() > 0 {
        law_allowing_a_string(c, extra, forms.drop_last());
        lemma_allow_form(c, extra, forms.last(), seq![]);
        lemma_drop_concat(
            extra,
            forms_diags(c, forms.drop_last()),
            form_diags(c, forms.last(), seq![]),
        );
    }
}

proof fn lemma_drop_concat(text: Seq<char>, a: Seq<DiagnosticView>, b: Seq<DiagnosticView>)
    ensures
        drop_text(a + b, text) == drop_text(a, text) + drop_text(b, text),
    decreases b.len(),
{
    if b.len() == 0 {
        assert(a + b =~= a);
        assert(drop_text(a, text) + drop_text(b, text) =~= drop_text(a, text));
    } else {
        lemma_drop_concat(text, a, b.drop_last());
        assert((a + b).drop_last() =~= a + b.drop_last());
        assert((a + b).last() == b.last());
        let tail = if b.last().text == text {
            seq![]
        } else {
            seq![b.last()]
        };
        assert(drop_text(a, text) + drop_text(b.drop_last(), text) + tail =~= drop_text(a, text)
            + (drop_text(b.drop_last(), text) + tail));
    }
}

proof fn lemma_allow_report(
    c: Rules,
    extra: Seq<char>,
    kind: DiagnosticKind,
    span: Span,
    text: Seq<char>,
    context: Option<Seq<char>>,
)
    ensures
        report(with_allowed(c, extra), kind, span, text, context) == drop_text(
            report(c, kind, span, text, context),
            extra,
        ),
{
    let t = trim_text(text);
    let c2 = with_allowed(c, extra);
    assert(c2.allow_strings.contains(t) <==> (c.allow_strings.contains(t) || t == extra)) by {
        if c2.allow_strings.contains(t) {
            let i = choose|i: int| 0 <= i < c2.allow_strings.len() && c2.allow_strings[i] == t;
            if i < c.allow_strings.len() {
                assert(c.allow_strings[i] == t);
            }
        }
        if c.allow_strings.contains(t) {
            let i = choose|i: int| 0 <= i < c.allow_strings.len() && c.allow_strings[i] == t;
            assert(c2.allow_strings[i] == t);
        }
        if t == extra {
            assert(c2.allow_strings[c.allow_strings.len() as int] == t);
        }
    }
    assert(skipped_text(c2, t) <==> (skipped_text(c, t) || t == extra));
    let r = report(c, kind, span, text, context);
    if skipped_text(c, t) {
        assert(r =~= Seq::<DiagnosticView>::empty());
        assert(drop_text(r, extra) =~= Seq::<DiagnosticView>::empty());
    } else {
        assert(r.len() == 1 && r[0].text == t);
        assert(r.drop_last() =~= Seq::<DiagnosticView>::empty());
        assert(drop_text(r.drop_last(), extra) =~= Seq::<DiagnosticView>::empty());
        if t == extra {
            assert(drop_text(r, extra) =~= Seq::<DiagnosticView>::empty());
        } else {
            assert(drop_text(r, extra) =~= r);
        }
    }
}

proof fn lemma_allow_form(c: Rules, extra: Seq<char>, f: SExp, st: Seq<FrameKind>)
    ensures
        form_diags(with_allowed(c, extra), f, st) == drop_text(form_diags(c, f, st), extra),
    decreases f, 0nat,
{
    if !in_ignored(st) {
        match f {
            SExp::List(items, _) => lemma_allow_list(c, extra, items@, st),
            SExp::Vector(items, _) => if is_hiccup(items@) {
                lemma_allow_hiccup(c, extra, items@, st.push(FrameKind::Hiccup));
            } else {
                lemma_allow_seq(c, extra, items@, 0, st);
            },
            SExp::MapLiteral(items, _) => lemma_allow_map(c, extra, items@, 0, st),
            SExp::Meta(_, t, _) => lemma_allow_form(c, extra, *t, st),
            _ => {},
        }
    }
}

proof fn lemma_allow_seq(c: Rules, extra: Seq<char>, items: Seq<SExp>, i: int, st: Seq<FrameKind>)
    ensures
        seq_diags(with_allowed(c, extra), items, i, st) == drop_text(seq_diags(c, items, i, st), extra),
    decreases items, rem(items.len(), i),
{
    if 0 <= i < items.len() {
        lemma_allow_form(c, extra, items[i], st);
        lemma_allow_seq(c, extra, items, i + 1, st);
        lemma_drop_concat(extra, form_diags(c, items[i], st), seq_diags(c, items, i + 1, st));
    }
}

proof fn lemma_allow_list(c: Rules, extra: Seq<char>, items: Seq<SExp>, st: Seq<FrameKind>)
    ensures
        list_diags(with_allowed(c, extra), items, st) == drop_text(list_diags(c, items, st), extra),
    decreases items, items.len() + 4,
{
    if items.len() > 0 {
        match items[0] {
            SExp::Symbol(name, _) => lemma_allow_call(c, extra, items, name@, st),
            _ => lemma_allow_seq(c, extra, items, 0, st),
        }
    }
}

proof fn lemma_allow_call(c: Rules, extra: Seq<char>, items: Seq<SExp>, name: Seq<char>, st: Seq<FrameKind>)
    ensures
        call_diags(with_allowed(c, extra), items, name, st) == drop_text(call_diags(c, items, name, st), extra),
    decreases items, items.len() + 3,
{
    if crate::names::any_names_function(c.ignore_context_functions, name) {
    } else if crate::names::any_names_function(c.i18n_functions, name) {
    } else if is_ns_form(name) {
    } else if is_def_head(name) || is_component_def(crate::names::last_segment(name)) {
        lemma_allow_def(c, extra, items, name, st);
    } else if is_let_head(name) {
        lemma_allow_let(c, extra, items, name, st);
    } else if name == "str"@ {
        lemma_allow_str_args(c, extra, items, 1, st);
    } else if crate::names::any_names_function(c.format_functions, name) {
        lemma_allow_format(c, extra, items, name, st);
    } else if crate::names::any_names_function(c.alert_functions, name) {
        lemma_allow_alert(c, extra, items, name, st);
    } else if crate::names::any_names_function(c.exception_functions, name) {
    } else if is_conditional_head(name) {
        lemma_allow_cond(c, extra, items, name, st);
    } else if name == "match"@ {
        lemma_allow_match(c, extra, items, st);
    } else if name == "cond->"@ || name == "cond->>"@ {
        lemma_allow_thread(c, extra, items, 1, st);
    } else if name == "do"@ {
        lemma_allow_seq(c, extra, items, 1, st);
    } else if name == "fn"@ || name == "fn*"@ {
        lemma_allow_fn_body(c, extra, items, 1, false, st.push(FrameKind::FnScope));
    } else if is_pure_function(c, name) {
        lemma_allow_seq(c, extra, items, 1, st.push(FrameKind::FnScope));
    } else if is_ui_function(c, name) {
        lemma_allow_ui_args(c, extra, items, 1, name, st.push(FrameKind::UiFnCall));
    } else {
        lemma_allow_seq(c, extra, items, 1, st);
    }
}

proof fn lemma_allow_str_arg(c: Rules, extra: Seq<char>, x: SExp, st: Seq<FrameKind>)
    ensures
        str_arg_diags(with_allowed(c, extra), x, st) == drop_text(str_arg_diags(c, x, st), extra),
    decreases x, 1nat,
{
    match x {
        SExp::Str(s, span) => lemma_allow_report(c, extra, DiagnosticKind::StrConcat, span, s@, Some("str"@)),
        _ => lemma_allow_form(c, extra, x, st.push(FrameKind::StrCall)),
    }
}

proof fn lemma_allow_str_args(c: Rules, extra: Seq<char>, items: Seq<SExp>, i: int, st: Seq<FrameKind>)
    ensures
        str_args_diags(with_allowed(c, extra), items, i, st) == drop_text(str_args_diags(c, items, i, st), extra),
    decreases items, rem(items.len(), i),
{
    if 0 <= i < items.len() {
        lemma_allow_str_arg(c, extra, items[i], st);
        lemma_allow_str_args(c, extra, items, i + 1, st);
        lemma_drop_concat(extra, str_arg_diags(c, items[i], st), str_args_diags(c, items, i + 1, st));
    }
}

proof fn lemma_allow_format(c: Rules, extra: Seq<char>, items: Seq<SExp>, name: Seq<char>, st: Seq<FrameKind>)
    ensures
        format_diags(with_allowed(c, extra), items, name, st) == drop_text(format_diags(c, items, name, st), extra),
    decreases items, items.len() + 2,
{
    let first = if items.len() > 1 {
        match items[1] {
            SExp::Str(s, span) => if in_ui(st) {
                report(c, DiagnosticKind::FormatString, span, s@, Some(name))
            } else {
                seq![]
            },
            _ => form_diags(c, items[1], st),
        }
    } else {
        seq![]
    };
    if items.len() > 1 {
        match items[1] {
            SExp::Str(s, span) => lemma_allow_report(
                c,
                extra,
                DiagnosticKind::FormatString,
                span,
                s@,
                Some(name),
            ),
            _ => lemma_allow_form(c, extra, items[1], st),
        }
    }
    lemma_allow_seq(c, extra, items, 2, st);
    lemma_drop_concat(extra, first, seq_diags(c, items, 2, st));
}

proof fn lemma_allow_alert(c: Rules, extra: Seq<char>, items: Seq<SExp>, name: Seq<char>, st: Seq<FrameKind>)
    ensures
        alert_diags(with_allowed(c, extra), items, name, st) == drop_text(alert_diags(c, items, name, st), extra),
    decreases items, items.len() + 2,
{
    if items.len() > 1 {
        match items[1] {
            SExp::Str(s, span) => lemma_allow_report(c, extra, DiagnosticKind::AlertText, span, s@, Some(name)),
            _ => lemma_allow_form(c, extra, items[1], st.push(FrameKind::UiFnCall)),
        }
    }
}

proof fn lemma_allow_thread_item(c: Rules, extra: Seq<char>, x: SExp, i: int, st: Seq<FrameKind>)
    ensures
        thread_item_diags(with_allowed(c, extra), x, i, st) == drop_text(thread_item_diags(c, x, i, st), extra),
    decreases x, 1nat,
{
    let k = i - 1;
    if k == 0 || k % 2 == 1 {
        lemma_allow_form(c, extra, x, st.push(FrameKind::FnScope));
    } else {
        lemma_allow_form(c, extra, x, st);
    }
}

proof fn lemma_allow_thread(c: Rules, extra: Seq<char>, items: Seq<SExp>, i: int, st: Seq<FrameKind>)
    ensures
        thread_diags(with_allowed(c, extra), items, i, st) == drop_text(thread_diags(c, items, i, st), extra),
    decreases items, rem(items.len(), i),
{
    if 1 <= i < items.len() {
        lemma_allow_thread_item(c, extra, items[i], i, st);
        lemma_allow_thread(c, extra, items, i + 1, st);
        lemma_drop_concat(extra, thread_item_diags(c, items[i], i, st), thread_diags(c, items, i + 1, st));
    }
}

proof fn lemma_allow_fn_body(c: Rules, extra: Seq<char>, items: Seq<SExp>, i: int, saw_args: bool, st: Seq<FrameKind>)
    ensures
        fn_body_diags(with_allowed(c, extra), items, i, saw_args, st) == drop_text(fn_body_diags(c, items, i, saw_args, st), extra),
    decreases items, rem(items.len(), i),
{
    if 0 <= i < items.len() {
        if !saw_args && items[i] is Symbol {
            lemma_allow_fn_body(c, extra, items, i + 1, saw_args, st);
        } else if !saw_args && items[i] is Vector {
            lemma_allow_fn_body(c, extra, items, i + 1, true, st);
        } else {
            lemma_allow_form(c, extra, items[i], st);
            lemma_allow_fn_body(c, extra, items, i + 1, saw_args, st);
            lemma_drop_concat(
                extra,
                form_diags(c, items[i], st),
                fn_body_diags(c, items, i + 1, saw_args, st),
            );
        }
    }
}

proof fn lemma_allow_keyword_arg(c: Rules, extra: Seq<char>, key: Seq<char>, v: SExp, st: Seq<FrameKind>)
    ensures
        keyword_arg_diags(with_allowed(c, extra), key, v, st) == drop_text(keyword_arg_diags(c, key, v, st), extra),
    decreases v, 1nat,
{
    if is_ui_attribute(c, key) {
        match v {
            SExp::Str(s, span) => lemma_allow_report(c, extra, DiagnosticKind::FnArgText, span, s@, Some(key)),
            _ => lemma_allow_form(c, extra, v, st),
        }
    } else {
        lemma_allow_form(c, extra, v, st.push(FrameKind::FnScope));
    }
}

proof fn lemma_allow_ui_args(c: Rules, extra: Seq<char>, items: Seq<SExp>, i: int, name: Seq<char>, st: Seq<FrameKind>)
    ensures
        ui_args_diags(with_allowed(c, extra), items, i, name, st) == drop_text(ui_args_diags(c, items, i, name, st), extra),
    decreases items, rem(items.len(), i),
{
    if 0 <= i < items.len() {
        match items[i] {
            SExp::Keyword(k, _) => if i + 1 < items.len() {
                lemma_allow_keyword_arg(c, extra, strip_colon(k@), items[i + 1], st);
                lemma_allow_ui_args(c, extra, items, i + 2, name, st);
                lemma_drop_concat(
                    extra,
                    keyword_arg_diags(c, strip_colon(k@), items[i + 1], st),
                    ui_args_diags(c, items, i + 2, name, st),
                );
            } else {
                lemma_allow_form(c, extra, items[i], st);
                lemma_allow_ui_args(c, extra, items, i + 1, name, st);
                lemma_drop_concat(
                    extra,
                    form_diags(c, items[i], st),
                    ui_args_diags(c, items, i + 1, name, st),
                );
            },
            SExp::Str(s, span) => {
                lemma_allow_report(c, extra, DiagnosticKind::FnArgText, span, s@, Some(name));
                lemma_allow_ui_args(c, extra, items, i + 1, name, st);
                lemma_drop_concat(
                    extra,
                    report(c, DiagnosticKind::FnArgText, span, s@, Some(name)),
                    ui_args_diags(c, items, i + 1, name, st),
                );
            },
            SExp::MapLiteral(kv, _) => {
                lemma_allow_ui_map(c, extra, kv@, 0, st);
                lemma_allow_ui_args(c, extra, items, i + 1, name, st);
                lemma_drop_concat(
                    extra,
                    ui_map_diags(c, kv@, 0, st),
                    ui_args_diags(c, items, i + 1, name, st),
                );
            },
            _ => {
                lemma_allow_form(c, extra, items[i], st);
                lemma_allow_ui_args(c, extra, items, i + 1, name, st);
                lemma_drop_concat(
                    extra,
                    form_diags(c, items[i], st),
                    ui_args_diags(c, items, i + 1, name, st),
                );
            },
        }
    }
}

proof fn lemma_allow_def(c: Rules, extra: Seq<char>, items: Seq<SExp>, head: Seq<char>, st: Seq<FrameKind>)
    ensures
        def_diags(with_allowed(c, extra), items, head, st) == drop_text(def_diags(c, items, head, st), extra),
    decreases items, items.len() + 2,
{
    let def_st = st.push(FrameKind::Def);
    if is_fn_like_def(crate::names::last_segment(head)) {
        lemma_allow_seq(c, extra, items, fn_like_body_start(items), def_st);
    } else {
        lemma_allow_def_values(c, extra, items, def_value_start(items), def_st);
    }
}

proof fn lemma_allow_def_value(c: Rules, extra: Seq<char>, x: SExp, st: Seq<FrameKind>)
    ensures
        def_value_diags(with_allowed(c, extra), x, st) == drop_text(def_value_diags(c, x, st), extra),
    decreases x, 1nat,
{
    if !(x is Str) {
        lemma_allow_form(c, extra, x, st);
    }
}

proof fn lemma_allow_def_values(c: Rules, extra: Seq<char>, items: Seq<SExp>, i: int, st: Seq<FrameKind>)
    ensures
        def_values_diags(with_allowed(c, extra), items, i, st) == drop_text(def_values_diags(c, items, i, st), extra),
    decreases items, rem(items.len(), i),
{
    if 0 <= i < items.len() {
        lemma_allow_def_value(c, extra, items[i], st);
        lemma_allow_def_values(c, extra, items, i + 1, st);
        lemma_drop_concat(extra, def_value_diags(c, items[i], st), def_values_diags(c, items, i + 1, st));
    }
}

proof fn lemma_allow_let(c: Rules, extra: Seq<char>, items: Seq<SExp>, head: Seq<char>, st: Seq<FrameKind>)
    ensures
        let_diags(with_allowed(c, extra), items, head, st) == drop_text(let_diags(c, items, head, st), extra),
    decreases items, items.len() + 2,
{
    let let_st = st.push(FrameKind::Let);
    let kind = if is_conditional_let(head) {
        DiagnosticKind::ConditionalText
    } else {
        DiagnosticKind::LetText
    };
    let bindings = if items.len() > 1 {
        let_bindings_diags(c, items[1], in_ui(st), let_st)
    } else {
        seq![]
    };
    if items.len() > 1 {
        lemma_allow_let_bindings(c, extra, items[1], in_ui(st), let_st);
    }
    lemma_allow_let_body(c, extra, items, 2, kind, head, in_ui(st), let_st);
    lemma_drop_concat(extra, bindings, let_body_diags(c, items, 2, kind, head, in_ui(st), let_st));
}

proof fn lemma_allow_let_bindings(c: Rules, extra: Seq<char>, x: SExp, ui: bool, st: Seq<FrameKind>)
    ensures
        let_bindings_diags(with_allowed(c, extra), x, ui, st) == drop_text(let_bindings_diags(c, x, ui, st), extra),
    decreases x, 1nat,
{
    match x {
        SExp::Vector(b, _) => lemma_allow_binding(c, extra, b@, 0, ui, st),
        _ => {},
    }
}

proof fn lemma_allow_binding_value(c: Rules, extra: Seq<char>, x: SExp, ui: bool, st: Seq<FrameKind>)
    ensures
        binding_value_diags(with_allowed(c, extra), x, ui, st) == drop_text(binding_value_diags(c, x, ui, st), extra),
    decreases x, 1nat,
{
    match x {
        SExp::Str(s, span) => lemma_allow_report(c, extra, DiagnosticKind::LetText, span, s@, None),
        _ => lemma_allow_form(c, extra, x, st),
    }
}

proof fn lemma_allow_binding(c: Rules, extra: Seq<char>, b: Seq<SExp>, j: int, ui: bool, st: Seq<FrameKind>)
    ensures
        binding_diags(with_allowed(c, extra), b, j, ui, st) == drop_text(binding_diags(c, b, j, ui, st), extra),
    decreases b, rem(b.len(), j),
{
    if 0 <= j && j + 1 < b.len() {
        lemma_allow_binding_value(c, extra, b[j + 1], ui, st);
        lemma_allow_binding(c, extra, b, j + 2, ui, st);
        lemma_drop_concat(
            extra,
            binding_value_diags(c, b[j + 1], ui, st),
            binding_diags(c, b, j + 2, ui, st),
        );
    }
}

proof fn lemma_allow_let_body_item(
    c: Rules,
    extra: Seq<char>,
    x: SExp,
    kind: DiagnosticKind,
    head: Seq<char>,
    ui: bool,
    st: Seq<FrameKind>,
)
        ensures
        let_body_item_diags(with_allowed(c, extra), x, kind, head, ui, st) == drop_text(let_body_item_diags(c, x, kind, head, ui, st), extra),
    decreases x, 1nat,
{
    match x {
        SExp::Str(s, span) => if ui {
            lemma_allow_report(c, extra, kind, span, s@, Some(head));
        } else {
            lemma_allow_form(c, extra, x, st);
        },
        _ => lemma_allow_form(c, extra, x, st),
    }
}

proof fn lemma_allow_let_body(
    c: Rules,
    extra: Seq<char>,
    items: Seq<SExp>,
    i: int,
    kind: DiagnosticKind,
    head: Seq<char>,
    ui: bool,
    st: Seq<FrameKind>,
)
        ensures
        let_body_diags(with_allowed(c, extra), items, i, kind, head, ui, st) == drop_text(let_body_diags(c, items, i, kind, head, ui, st), extra),
    decreases items, rem(items.len(), i),
{
    if 0 <= i < items.len() {
        lemma_allow_let_body_item(c, extra, items[i], kind, head, ui, st);
        lemma_allow_let_body(c, extra, items, i + 1, kind, head, ui, st);
        lemma_drop_concat(
            extra,
            let_body_item_diags(c, items[i], kind, head, ui, st),
            let_body_diags(c, items, i + 1, kind, head, ui, st),
        );
    }
}

proof fn lemma_allow_cond(c: Rules, extra: Seq<char>, items: Seq<SExp>, head: Seq<char>, st: Seq<FrameKind>)
    ensures
        cond_diags(with_allowed(c, extra), items, head, st) == drop_text(cond_diags(c, items, head, st), extra),
    decreases items, items.len() + 2,
{
    let cond_st = st.push(FrameKind::Conditional);
    if is_branch_head(head) {
        lemma_allow_branch(c, extra, items, 1, head, in_ui(st), cond_st);
    } else if head == "case"@ {
        if items.len() > 2 {
            lemma_allow_form(c, extra, items[1], cond_st);
            lemma_allow_case(c, extra, items, 2, in_ui(st), st);
            lemma_drop_concat(extra, form_diags(c, items[1], cond_st), case_diags(c, items, 2, in_ui(st), st));
        }
    } else if head == "cond"@ || head == "condp"@ {
        let start: int = if head == "condp"@ {
            3
        } else {
            1
        };
        lemma_allow_cond_pairs(c, extra, items, start, start, head, in_ui(st), cond_st);
    } else {
        lemma_allow_seq(c, extra, items, 1, cond_st);
    }
}

proof fn lemma_allow_result(c: Rules, extra: Seq<char>, x: SExp, label: Seq<char>, ui: bool, st: Seq<FrameKind>)
    ensures
        result_diags(with_allowed(c, extra), x, label, ui, st) == drop_text(result_diags(c, x, label, ui, st), extra),
    decreases x, 1nat,
{
    match x {
        SExp::Str(s, span) => lemma_allow_report(
            c,
            extra,
            DiagnosticKind::ConditionalText,
            span,
            s@,
            Some(label),
        ),
        _ => lemma_allow_form(c, extra, x, st),
    }
}

proof fn lemma_allow_branch(
    c: Rules,
    extra: Seq<char>,
    items: Seq<SExp>,
    i: int,
    head: Seq<char>,
    ui: bool,
    st: Seq<FrameKind>,
)
    ensures
        branch_diags(with_allowed(c, extra), items, i, head, ui, st) == drop_text(branch_diags(c, items, i, head, ui, st), extra),
    decreases items, rem(items.len(), i),
{
    if 0 <= i < items.len() {
        lemma_allow_result(c, extra, items[i], head, ui, st);
        lemma_allow_branch(c, extra, items, i + 1, head, ui, st);
        lemma_drop_concat(
            extra,
            result_diags(c, items[i], head, ui, st),
            branch_diags(c, items, i + 1, head, ui, st),
        );
    }
}

proof fn lemma_allow_case_item(c: Rules, extra: Seq<char>, x: SExp, result: bool, ui: bool, st: Seq<FrameKind>)
    ensures
        case_item_diags(with_allowed(c, extra), x, result, ui, st) == drop_text(case_item_diags(c, x, result, ui, st), extra),
    decreases x, 2nat,
{
    if result {
        lemma_allow_result(c, extra, x, "case"@, ui, st.push(FrameKind::Conditional));
    } else {
        lemma_allow_form(c, extra, x, st.push(FrameKind::FnScope));
    }
}

proof fn lemma_allow_case(c: Rules, extra: Seq<char>, items: Seq<SExp>, i: int, ui: bool, st: Seq<FrameKind>)
    ensures
        case_diags(with_allowed(c, extra), items, i, ui, st) == drop_text(case_diags(c, items, i, ui, st), extra),
    decreases items, rem(items.len(), i),
{
    if 0 <= i < items.len() {
        lemma_allow_case_item(c, extra, items[i], is_case_result(items.len(), i), ui, st);
        lemma_allow_case(c, extra, items, i + 1, ui, st);
        lemma_drop_concat(
            extra,
            case_item_diags(c, items[i], is_case_result(items.len(), i), ui, st),
            case_diags(c, items, i + 1, ui, st),
        );
    }
}

proof fn lemma_allow_cond_pairs(
    c: Rules,
    extra: Seq<char>,
    items: Seq<SExp>,
    start: int,
    i: int,
    head: Seq<char>,
    ui: bool,
    st: Seq<FrameKind>,
)
    ensures
        cond_pairs_diags(with_allowed(c, extra), items, start, i, head, ui, st) == drop_text(cond_pairs_diags(c, items, start, i, head, ui, st), extra),
    decreases items, rem(items.len(), i),
{
    if 0 <= start <= i < items.len() {
        let here = if is_cond_result(head, items.len(), start, i) {
            result_diags(c, items[i], head, ui, st)
        } else {
            form_diags(c, items[i], st)
        };
        if is_cond_result(head, items.len(), start, i) {
            lemma_allow_result(c, extra, items[i], head, ui, st);
        } else {
            lemma_allow_form(c, extra, items[i], st);
        }
        lemma_allow_cond_pairs(c, extra, items, start, i + 1, head, ui, st);
        lemma_drop_concat(extra, here, cond_pairs_diags(c, items, start, i + 1, head, ui, st));
    }
}

proof fn lemma_allow_match(c: Rules, extra: Seq<char>, items: Seq<SExp>, st: Seq<FrameKind>)
    ensures
        match_diags(with_allowed(c, extra), items, st) == drop_text(match_diags(c, items, st), extra),
    decreases items, items.len() + 2,
{
    let subject = if items.len() > 1 {
        form_diags(c, items[1], st)
    } else {
        seq![]
    };
    if items.len() > 1 {
        lemma_allow_form(c, extra, items[1], st);
    }
    lemma_allow_match_pairs(c, extra, items, 2, in_ui(st), st);
    lemma_drop_concat(extra, subject, match_pairs_diags(c, items, 2, in_ui(st), st));
}

proof fn lemma_allow_match_pairs(c: Rules, extra: Seq<char>, items: Seq<SExp>, i: int, ui: bool, st: Seq<FrameKind>)
    ensures
        match_pairs_diags(with_allowed(c, extra), items, i, ui, st) == drop_text(match_pairs_diags(c, items, i, ui, st), extra),
    decreases items, rem(items.len(), i),
{
    if 2 <= i < items.len() {
        let here = if (i - 2) % 2 == 0 {
            form_diags(c, items[i], st.push(FrameKind::FnScope))
        } else {
            result_diags(c, items[i], "match"@, ui, st.push(FrameKind::Conditional))
        };
        if (i - 2) % 2 == 0 {
            lemma_allow_form(c, extra, items[i], st.push(FrameKind::FnScope));
        } else {
            lemma_allow_result(c, extra, items[i], "match"@, ui, st.push(FrameKind::Conditional));
        }
        lemma_allow_match_pairs(c, extra, items, i + 1, ui, st);
        lemma_drop_concat(extra, here, match_pairs_diags(c, items, i + 1, ui, st));
    }
}

proof fn lemma_allow_hiccup(c: Rules, extra: Seq<char>, items: Seq<SExp>, st: Seq<FrameKind>)
    ensures
        hiccup_diags(with_allowed(c, extra), items, st) == drop_text(hiccup_diags(c, items, st), extra),
    decreases items, items.len() + 2,
{
    if items.len() > 1 && items[1] is MapLiteral {
        match items[1] {
            SExp::MapLiteral(kv, _) => {
                lemma_allow_hiccup_attrs(c, extra, kv@, 0, st);
                lemma_allow_hiccup_children(c, extra, items, 2, st);
                lemma_drop_concat(
                    extra,
                    hiccup_attrs_diags(c, kv@, 0, st),
                    hiccup_children_diags(c, items, 2, st),
                );
            },
            _ => {},
        }
    } else {
        lemma_allow_hiccup_children(c, extra, items, 1, st);
    }
}

proof fn lemma_allow_hiccup_child(c: Rules, extra: Seq<char>, x: SExp, st: Seq<FrameKind>)
    ensures
        hiccup_child_diags(with_allowed(c, extra), x, st) == drop_text(hiccup_child_diags(c, x, st), extra),
    decreases x, 1nat,
{
    match x {
        SExp::Str(s, span) => lemma_allow_report(c, extra, DiagnosticKind::HiccupText, span, s@, None),
        _ => lemma_allow_form(c, extra, x, st),
    }
}

proof fn lemma_allow_hiccup_children(c: Rules, extra: Seq<char>, items: Seq<SExp>, i: int, st: Seq<FrameKind>)
    ensures
        hiccup_children_diags(with_allowed(c, extra), items, i, st) == drop_text(hiccup_children_diags(c, items, i, st), extra),
    decreases items, rem(items.len(), i),
{
    if 0 <= i < items.len() {
        lemma_allow_hiccup_child(c, extra, items[i], st);
        lemma_allow_hiccup_children(c, extra, items, i + 1, st);
        lemma_drop_concat(
            extra,
            hiccup_child_diags(c, items[i], st),
            hiccup_children_diags(c, items, i + 1, st),
        );
    }
}

proof fn lemma_allow_hiccup_attr(c: Rules, extra: Seq<char>, k: SExp, v: SExp, st: Seq<FrameKind>)
    ensures
        hiccup_attr_diags(with_allowed(c, extra), k, v, st) == drop_text(hiccup_attr_diags(c, k, v, st), extra),
    decreases v, 2nat,
{
    match attr_key(k) {
        Some(key) => if is_ui_attribute(c, key) {
            match v {
                SExp::Str(s, span) => lemma_allow_report(
                    c,
                    extra,
                    DiagnosticKind::HiccupAttr,
                    span,
                    s@,
                    Some(key),
                ),
                _ => lemma_allow_form(c, extra, v, st),
            }
        } else {
            lemma_allow_non_text_value(c, extra, v, st);
        },
        None => {},
    }
}

proof fn lemma_allow_non_text_value(c: Rules, extra: Seq<char>, v: SExp, st: Seq<FrameKind>)
    ensures
        non_text_value_diags(with_allowed(c, extra), v, st) == drop_text(non_text_value_diags(c, v, st), extra),
    decreases v, 1nat,
{
    if !(v is Str) {
        lemma_allow_form(c, extra, v, st.push(FrameKind::FnScope));
    }
}

proof fn lemma_allow_hiccup_attrs(c: Rules, extra: Seq<char>, kv: Seq<SExp>, j: int, st: Seq<FrameKind>)
    ensures
        hiccup_attrs_diags(with_allowed(c, extra), kv, j, st) == drop_text(hiccup_attrs_diags(c, kv, j, st), extra),
    decreases kv, rem(kv.len(), j),
{
    if 0 <= j && j + 1 < kv.len() {
        lemma_allow_hiccup_attr(c, extra, kv[j], kv[j + 1], st);
        lemma_allow_hiccup_attrs(c, extra, kv, j + 2, st);
        lemma_drop_concat(
            extra,
            hiccup_attr_diags(c, kv[j], kv[j + 1], st),
            hiccup_attrs_diags(c, kv, j + 2, st),
        );
    }
}

proof fn lemma_allow_ui_map_pair(c: Rules, extra: Seq<char>, k: SExp, v: SExp, st: Seq<FrameKind>)
    ensures
        ui_map_pair_diags(with_allowed(c, extra), k, v, st) == drop_text(ui_map_pair_diags(c, k, v, st), extra),
    decreases v, 2nat,
{
    match k {
        SExp::Keyword(key, _) => if is_ui_attribute(c, key@) {
            match v {
                SExp::Str(s, span) => lemma_allow_report(
                    c,
                    extra,
                    DiagnosticKind::FnArgText,
                    span,
                    s@,
                    Some(key@),
                ),
                _ => lemma_allow_form(c, extra, v, st),
            }
        } else {
            lemma_allow_non_text_value(c, extra, v, st);
        },
        _ => lemma_allow_non_text_value(c, extra, v, st),
    }
}

proof fn lemma_allow_ui_map(c: Rules, extra: Seq<char>, kv: Seq<SExp>, j: int, st: Seq<FrameKind>)
    ensures
        ui_map_diags(with_allowed(c, extra), kv, j, st) == drop_text(ui_map_diags(c, kv, j, st), extra),
    decreases kv, rem(kv.len(), j),
{
    if 0 <= j && j + 1 < kv.len() {
        lemma_allow_ui_map_pair(c, extra, kv[j], kv[j + 1], st);
        lemma_allow_ui_map(c, extra, kv, j + 2, st);
        lemma_drop_concat(extra, ui_map_pair_diags(c, kv[j], kv[j + 1], st), ui_map_diags(c, kv, j + 2, st));
    }
}

proof fn lemma_allow_map(c: Rules, extra: Seq<char>, kv: Seq<SExp>, j: int, st: Seq<FrameKind>)
    ensures
        map_diags(with_allowed(c, extra), kv, j, st) == drop_text(map_diags(c, kv, j, st), extra),
    decreases kv, rem(kv.len(), j),
{
    if 0 <= j && j + 1 < kv.len() {
        lemma_allow_non_text_value(c, extra, kv[j + 1], st);
        lemma_allow_map(c, extra, kv, j + 2, st);
        lemma_drop_concat(extra, non_text_value_diags(c, kv[j + 1], st), map_diags(c, kv, j + 2, st));
    }
}

} // verus!
