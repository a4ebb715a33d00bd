//! What the analyzer reports, stated as functions of the syntax tree.
//!
//! Each function returns the diagnostics, in order, that one rule of the
//! analyzer produces for a form, a list of forms, or a part of a form, given
//! the stack of enclosing contexts (innermost last).
use vstd::prelude::*;

use crate::analyzer::{DiagnosticKind, DiagnosticView, FrameKind};
use crate::names::{
    any_names_function, first_segment, last_segment, strip_colon,
};
use crate::parser::{SExp, Span};
use crate::patterns::regex_set_matches;
use crate::text::{alphabetic, trim_text};

verus! {

/// The rules applied to one file: its path and the configured name lists.
pub struct Rules {
    pub file_path: Seq<char>,
    pub allow_strings: Seq<Seq<char>>,
    /// The allowed patterns in effect (none when the configured ones do not
    /// compile).
    pub allow_patterns: Seq<Seq<char>>,
    pub ui_functions: Seq<Seq<char>>,
    pub ui_namespaces: Seq<Seq<char>>,
    pub ui_attributes: Seq<Seq<char>>,
    pub ignore_context_functions: Seq<Seq<char>>,
    pub i18n_functions: Seq<Seq<char>>,
    pub exception_functions: Seq<Seq<char>>,
    pub alert_functions: Seq<Seq<char>>,
    pub pure_functions: Seq<Seq<char>>,
    pub format_functions: Seq<Seq<char>>,
}

// ---------------------------------------------------------------------------
// Context stack
// ---------------------------------------------------------------------------
/// True when `target` is on the stack, looking outwards from the innermost
/// frame; a function-scope frame hides hiccup and UI-call frames beyond it.
pub open spec fn stack_has(st: Seq<FrameKind>, target: FrameKind) -> bool
    decreases st.len(),
{
    if st.len() == 0 {
        false
    } else if st.last() == target {
        true
    } else if st.last() == FrameKind::FnScope && (target == FrameKind::Hiccup || target
        == FrameKind::UiFnCall) {
        false
    } else {
        stack_has(st.drop_last(), target)
    }
}

pub open spec fn in_ui(st: Seq<FrameKind>) -> bool {
    stack_has(st, FrameKind::Hiccup) || stack_has(st, FrameKind::UiFnCall)
}

pub open spec fn in_ignored(st: Seq<FrameKind>) -> bool {
    stack_has(st, FrameKind::IgnoreContext) || stack_has(st, FrameKind::NsOrRequire)
        || stack_has(st, FrameKind::Comment)
}

// ---------------------------------------------------------------------------
// Reporting a string
// ---------------------------------------------------------------------------
pub open spec fn numeric_char(ch: char) -> bool {
    ('0' <= ch && ch <= '9') || ch == '.' || ch == '-' || ch == '+'
}

/// Strings that are never reported: at most one character, only digits and
/// number signs, no alphabetic character, an allowed string, or a match of
/// the allowed patterns in effect.
pub open spec fn skipped_text(c: Rules, t: Seq<char>) -> bool {
    ||| t.len() <= 1
    ||| (forall|i: int| 0 <= i < t.len() ==> numeric_char(#[trigger] t[i]))
    ||| !(exists|i: int| 0 <= i < t.len() && alphabetic(#[trigger] t[i]))
    ||| c.allow_strings.contains(t)
    ||| (c.allow_patterns.len() > 0 && regex_set_matches(c.allow_patterns, t))
}

/// A diagnostic for the trimmed text, unless it is skipped.
pub open spec fn report(
    c: Rules,
    kind: DiagnosticKind,
    span: Span,
    text: Seq<char>,
    context: Option<Seq<char>>,
) -> Seq<DiagnosticView> {
    let t = trim_text(text);
    if skipped_text(c, t) {
        seq![]
    } else {
        seq![
            DiagnosticView {
                kind,
                file_path: c.file_path,
                line: span.line,
                col: span.col,
                text: t,
                context,
            },
        ]
    }
}

// ---------------------------------------------------------------------------
// Names
// ---------------------------------------------------------------------------
pub open spec fn is_ui_attribute(c: Rules, name: Seq<char>) -> bool {
    c.ui_attributes.contains(strip_colon(name))
}

pub open spec fn is_ui_function(c: Rules, name: Seq<char>) -> bool {
    any_names_function(c.ui_functions, name) || c.ui_namespaces.contains(
        first_segment(name),
    )
}

pub open spec fn is_builtin_predicate(n: Seq<char>) -> bool {
    n == "="@ || n == "not="@ || n == "=="@ || n == "identical?"@ || n == "<"@ || n == ">"@ || n
        == "<="@ || n == ">="@ || n == "compare"@ || n == "not"@
}

pub open spec fn is_string_predicate(base: Seq<char>) -> bool {
    base == "starts-with?"@ || base == "ends-with?"@ || base == "includes?"@ || base
        == "index-of"@ || base == "last-index-of"@ || base == "blank?"@ || base == "split"@
}

/// Comparison and predicate functions, and configured pure functions.
pub open spec fn is_pure_function(c: Rules, name: Seq<char>) -> bool {
    ||| is_builtin_predicate(name)
    ||| (name.len() > 0 && name.last() == '?')
    ||| is_string_predicate(last_segment(name))
    ||| any_names_function(c.pure_functions, name)
}

pub open spec fn is_ns_form(n: Seq<char>) -> bool {
    n == "ns"@ || n == "require"@ || n == "import"@ || n == "use"@ || n == "refer"@ || n
        == "comment"@
}

pub open spec fn is_def_head(n: Seq<char>) -> bool {
    n == "def"@ || n == "defonce"@ || n == "defn"@ || n == "defn-"@ || n == "defmacro"@ || n
        == "defmethod"@ || n == "defmulti"@
}

pub open spec fn is_component_def(base: Seq<char>) -> bool {
    base == "defc"@ || base == "defcs"@ || base == "defcc"@ || base == "defrc"@ || base
        == "defsc"@
}

pub open spec fn is_fn_like_def(base: Seq<char>) -> bool {
    base == "defn"@ || base == "defn-"@ || base == "defmacro"@ || is_component_def(base)
}

pub open spec fn is_let_head(n: Seq<char>) -> bool {
    n == "let"@ || n == "let!"@ || n == "binding"@ || n == "loop"@ || is_conditional_let(n)
}

pub open spec fn is_conditional_let(n: Seq<char>) -> bool {
    n == "when-let"@ || n == "when-some"@ || n == "if-let"@ || n == "if-some"@
}

pub open spec fn is_branch_head(n: Seq<char>) -> bool {
    n == "if"@ || n == "if-not"@ || n == "when"@ || n == "when-not"@ || n == "or"@
}

pub open spec fn is_conditional_head(n: Seq<char>) -> bool {
    is_branch_head(n) || n == "cond"@ || n == "condp"@ || n == "case"@
}

/// A vector is hiccup when it starts with a keyword without `/`.
pub open spec fn is_hiccup(items: Seq<SExp>) -> bool {
    items.len() > 0 && match items[0] {
        SExp::Keyword(k, _) => !k@.contains('/'),
        _ => false,
    }
}

pub open spec fn is_str(f: SExp) -> bool {
    f is Str
}

/// Items left from index `i` on.
pub open spec fn rem(len: nat, i: int) -> nat {
    if i < len {
        (len - i) as nat
    } else {
        0
    }
}

// ---------------------------------------------------------------------------
// Forms
// ---------------------------------------------------------------------------
/// Diagnostics for one form.
pub open spec fn form_diags(c: Rules, f: SExp, st: Seq<FrameKind>) -> Seq<
    DiagnosticView,
>
    decreases f, 0nat,
{
    if in_ignored(st) {
        seq![]
    } else {
        match f {
            SExp::List(items, _) => list_diags(c, items@, st),
            SExp::Vector(items, _) => if is_hiccup(items@) {
                hiccup_diags(c, items@, st.push(FrameKind::Hiccup))
            } else {
                seq_diags(c, items@, 0, st)
            },
            SExp::MapLiteral(items, _) => map_diags(c, items@, 0, st),
            SExp::Meta(_, t, _) => form_diags(c, *t, st),
            _ => seq![],
        }
    }
}

/// Diagnostics for the items from index `i` on, each as a form.
pub open spec fn seq_diags(c: Rules, items: Seq<SExp>, i: int, st: Seq<FrameKind>) -> Seq<
    DiagnosticView,
>
    decreases items, rem(items.len(), i),
{
    if 0 <= i < items.len() {
        form_diags(c, items[i], st) + seq_diags(c, items, i + 1, st)
    } else {
        seq![]
    }
}

/// A list form.
pub open spec fn list_diags(c: Rules, items: Seq<SExp>, st: Seq<FrameKind>) -> Seq<
    DiagnosticView,
>
    decreases items, items.len() + 4,
{
    if items.len() == 0 {
        seq![]
    } else {
        match items[0] {
            SExp::Symbol(name, _) => call_diags(c, items, name@, st),
            _ => seq_diags(c, items, 0, st),
        }
    }
}

/// A list whose head is the symbol `name`.
pub open spec fn call_diags(
    c: Rules,
    items: Seq<SExp>,
    name: Seq<char>,
    st: Seq<FrameKind>,
) -> Seq<DiagnosticView>
    decreases items, items.len() + 3,
{
    if any_names_function(c.ignore_context_functions, name) {
        seq![]
    } else if any_names_function(c.i18n_functions, name) {
        seq![]
    } else if is_ns_form(name) {
        seq![]
    } else if is_def_head(name) || is_component_def(last_segment(name)) {
        def_diags(c, items, name, st)
    } else if is_let_head(name) {
        let_diags(c, items, name, st)
    } else if name == "str"@ {
        str_args_diags(c, items, 1, st)
    } else if any_names_function(c.format_functions, name) {
        format_diags(c, items, name, st)
    } else if any_names_function(c.alert_functions, name) {
        alert_diags(c, items, name, st)
    } else if any_names_function(c.exception_functions, name) {
        seq![]
    } else if is_conditional_head(name) {
        cond_diags(c, items, name, st)
    } else if name == "match"@ {
        match_diags(c, items, st)
    } else if name == "cond->"@ || name == "cond->>"@ {
        thread_diags(c, items, 1, st)
    } else if name == "do"@ {
        seq_diags(c, items, 1, st)
    } else if name == "fn"@ || name == "fn*"@ {
        fn_body_diags(c, items, 1, false, st.push(FrameKind::FnScope))
    } else if is_pure_function(c, name) {
        seq_diags(c, items, 1, st.push(FrameKind::FnScope))
    } else if is_ui_function(c, name) {
        ui_args_diags(c, items, 1, name, st.push(FrameKind::UiFnCall))
    } else {
        seq_diags(c, items, 1, st)
    }
}

/// One argument of `(str ...)`: a string is a concatenation when in a UI
/// context; another argument is analyzed inside a `str` frame.
pub open spec fn str_arg_diags(c: Rules, x: SExp, st: Seq<FrameKind>) -> Seq<DiagnosticView>
    decreases x, 1nat,
{
    match x {
        SExp::Str(s, span) => if in_ui(st) {
            report(c, DiagnosticKind::StrConcat, span, s@, Some("str"@))
        } else {
            seq![]
        },
        _ => form_diags(c, x, st.push(FrameKind::StrCall)),
    }
}

/// The arguments of `(str ...)` from index `i` on.
pub open spec fn str_args_diags(
    c: Rules,
    items: Seq<SExp>,
    i: int,
    st: Seq<FrameKind>,
) -> Seq<DiagnosticView>
    decreases items, rem(items.len(), i),
{
    if 0 <= i < items.len() {
        str_arg_diags(c, items[i], st) + str_args_diags(c, items, i + 1, st)
    } else {
        seq![]
    }
}

/// A format call: a literal template is reported in a UI context; other
/// arguments are analyzed.
pub open spec fn format_diags(
    c: Rules,
    items: Seq<SExp>,
    name: Seq<char>,
    st: Seq<FrameKind>,
) -> Seq<DiagnosticView>
    decreases items, items.len() + 2,
{
    let first = if items.len() > 1 {
        match items[1] {
            SExp::Str(s, span) => if in_ui(st) {
                report(c, DiagnosticKind::FormatString, span, s@, Some(name))
            } else {
                seq![]
            },
            _ => form_diags(c, items[1], st),
        }
    } else {
        seq![]
    };
    first + seq_diags(c, items, 2, st)
}

/// An alert call: its first argument is user-visible text.
pub open spec fn alert_diags(
    c: Rules,
    items: Seq<SExp>,
    name: Seq<char>,
    st: Seq<FrameKind>,
) -> Seq<DiagnosticView>
    decreases items, items.len() + 2,
{
    if items.len() > 1 {
        match items[1] {
            SExp::Str(s, span) => report(c, DiagnosticKind::AlertText, span, s@, Some(name)),
            _ => form_diags(c, items[1], st.push(FrameKind::UiFnCall)),
        }
    } else {
        seq![]
    }
}

/// The item at index `i >= 1` of `(cond-> expr test form ...)`: the
/// expression and tests are analyzed in a function scope, the forms in the
/// current context.
pub open spec fn thread_item_diags(c: Rules, x: SExp, i: int, st: Seq<FrameKind>) -> Seq<
    DiagnosticView,
>
    decreases x, 1nat,
{
    let k = i - 1;
    if k == 0 || k % 2 == 1 {
        form_diags(c, x, st.push(FrameKind::FnScope))
    } else {
        form_diags(c, x, st)
    }
}

/// The items of `(cond-> ...)` from index `i` on.
pub open spec fn thread_diags(c: Rules, items: Seq<SExp>, i: int, st: Seq<FrameKind>) -> Seq<
    DiagnosticView,
>
    decreases items, rem(items.len(), i),
{
    if 1 <= i < items.len() {
        thread_item_diags(c, items[i], i, st) + thread_diags(c, items, i + 1, st)
    } else {
        seq![]
    }
}

/// The body of `(fn name? [args] body...)`: an optional name symbol and the
/// first argument vector are skipped.
pub open spec fn fn_body_diags(
    c: Rules,
    items: Seq<SExp>,
    i: int,
    saw_args: bool,
    st: Seq<FrameKind>,
) -> Seq<DiagnosticView>
    decreases items, rem(items.len(), i),
{
    if 0 <= i < items.len() {
        if !saw_args && items[i] is Symbol {
            fn_body_diags(c, items, i + 1, saw_args, st)
        } else if !saw_args && items[i] is Vector {
            fn_body_diags(c, items, i + 1, true, st)
        } else {
            form_diags(c, items[i], st) + fn_body_diags(c, items, i + 1, saw_args, st)
        }
    } else {
        seq![]
    }
}

/// The value of a keyword argument `key` of a UI function call.
pub open spec fn keyword_arg_diags(c: Rules, key: Seq<char>, v: SExp, st: Seq<FrameKind>) -> Seq<
    DiagnosticView,
>
    decreases v, 1nat,
{
    if is_ui_attribute(c, key) {
        match v {
            SExp::Str(s, span) => report(c, DiagnosticKind::FnArgText, span, s@, Some(key)),
            _ => form_diags(c, v, st),
        }
    } else {
        form_diags(c, v, st.push(FrameKind::FnScope))
    }
}

/// The arguments of a UI function call, from index `i` on.
pub open spec fn ui_args_diags(
    c: Rules,
    items: Seq<SExp>,
    i: int,
    name: Seq<char>,
    st: Seq<FrameKind>,
) -> Seq<DiagnosticView>
    decreases items, rem(items.len(), i),
{
    if 0 <= i < items.len() {
        match items[i] {
            SExp::Keyword(k, _) => if i + 1 < items.len() {
                keyword_arg_diags(c, strip_colon(k@), items[i + 1], st) + ui_args_diags(
                    c,
                    items,
                    i + 2,
                    name,
                    st,
                )
            } else {
                form_diags(c, items[i], st) + ui_args_diags(c, items, i + 1, name, st)
            },
            SExp::Str(s, span) => report(c, DiagnosticKind::FnArgText, span, s@, Some(name))
                + ui_args_diags(c, items, i + 1, name, st),
            SExp::MapLiteral(kv, _) => ui_map_diags(c, kv@, 0, st) + ui_args_diags(
                c,
                items,
                i + 1,
                name,
                st,
            ),
            _ => form_diags(c, items[i], st) + ui_args_diags(c, items, i + 1, name, st),
        }
    } else {
        seq![]
    }
}

// ---------------------------------------------------------------------------
// Definitions and bindings
// ---------------------------------------------------------------------------
pub open spec fn fn_like_body_start(items: Seq<SExp>) -> int {
    if items.len() > 3 && items[2] is Str && (items[3] is Vector || items[3] is List) {
        3
    } else {
        2
    }
}

pub open spec fn def_value_start(items: Seq<SExp>) -> int {
    if items.len() >= 4 && items[2] is Str && !(items[3] is Str) {
        3
    } else {
        2
    }
}

/// A definition form: the body of a function-like definition, or the values
/// of a plain definition other than literal strings.
pub open spec fn def_diags(
    c: Rules,
    items: Seq<SExp>,
    head: Seq<char>,
    st: Seq<FrameKind>,
) -> Seq<DiagnosticView>
    decreases items, items.len() + 2,
{
    let def_st = st.push(FrameKind::Def);
    if is_fn_like_def(last_segment(head)) {
        seq_diags(c, items, fn_like_body_start(items), def_st)
    } else {
        def_values_diags(c, items, def_value_start(items), def_st)
    }
}

/// A value of a plain definition: literal strings are left out.
pub open spec fn def_value_diags(c: Rules, x: SExp, st: Seq<FrameKind>) -> Seq<DiagnosticView>
    decreases x, 1nat,
{
    if x is Str {
        seq![]
    } else {
        form_diags(c, x, st)
    }
}

/// Items from index `i` on, literal strings left out.
pub open spec fn def_values_diags(
    c: Rules,
    items: Seq<SExp>,
    i: int,
    st: Seq<FrameKind>,
) -> Seq<DiagnosticView>
    decreases items, rem(items.len(), i),
{
    if 0 <= i < items.len() {
        def_value_diags(c, items[i], st) + def_values_diags(c, items, i + 1, st)
    } else {
        seq![]
    }
}

/// A let-like form: binding values and body.
pub open spec fn let_diags(
    c: Rules,
    items: Seq<SExp>,
    head: Seq<char>,
    st: Seq<FrameKind>,
) -> Seq<DiagnosticView>
    decreases items, items.len() + 2,
{
    let let_st = st.push(FrameKind::Let);
    let kind = if is_conditional_let(head) {
        DiagnosticKind::ConditionalText
    } else {
        DiagnosticKind::LetText
    };
    let bindings = if items.len() > 1 {
        let_bindings_diags(c, items[1], in_ui(st), let_st)
    } else {
        seq![]
    };
    bindings + let_body_diags(c, items, 2, kind, head, in_ui(st), let_st)
}

/// The binding vector of a let-like form (anything else yields nothing).
pub open spec fn let_bindings_diags(c: Rules, x: SExp, ui: bool, st: Seq<FrameKind>) -> Seq<
    DiagnosticView,
>
    decreases x, 1nat,
{
    match x {
        SExp::Vector(b, _) => binding_diags(c, b@, 0, ui, st),
        _ => seq![],
    }
}

/// A binding value: a literal string is let-text in a UI context; another
/// value is analyzed.
pub open spec fn binding_value_diags(c: Rules, x: SExp, ui: bool, st: Seq<FrameKind>) -> Seq<
    DiagnosticView,
>
    decreases x, 1nat,
{
    match x {
        SExp::Str(s, span) => if ui {
            report(c, DiagnosticKind::LetText, span, s@, None)
        } else {
            seq![]
        },
        _ => form_diags(c, x, st),
    }
}

/// Binding pairs from index `j` on.
pub open spec fn binding_diags(
    c: Rules,
    b: Seq<SExp>,
    j: int,
    ui: bool,
    st: Seq<FrameKind>,
) -> Seq<DiagnosticView>
    decreases b, rem(b.len(), j),
{
    if 0 <= j && j + 1 < b.len() {
        binding_value_diags(c, b[j + 1], ui, st) + binding_diags(c, b, j + 2, ui, st)
    } else {
        seq![]
    }
}

/// A body form of a let-like form: a literal string in a UI context is
/// reported with the given kind.
pub open spec fn let_body_item_diags(
    c: Rules,
    x: SExp,
    kind: DiagnosticKind,
    head: Seq<char>,
    ui: bool,
    st: Seq<FrameKind>,
) -> Seq<DiagnosticView>
    decreases x, 1nat,
{
    match x {
        SExp::Str(s, span) => if ui {
            report(c, kind, span, s@, Some(head))
        } else {
            form_diags(c, x, st)
        },
        _ => form_diags(c, x, st),
    }
}

/// Body forms of a let-like form from index `i` on.
pub open spec fn let_body_diags(
    c: Rules,
    items: Seq<SExp>,
    i: int,
    kind: DiagnosticKind,
    head: Seq<char>,
    ui: bool,
    st: Seq<FrameKind>,
) -> Seq<DiagnosticView>
    decreases items, rem(items.len(), i),
{
    if 0 <= i < items.len() {
        let_body_item_diags(c, items[i], kind, head, ui, st) + let_body_diags(
            c,
            items,
            i + 1,
            kind,
            head,
            ui,
            st,
        )
    } else {
        seq![]
    }
}

// ---------------------------------------------------------------------------
// Conditionals
// ---------------------------------------------------------------------------
pub open spec fn cond_diags(
    c: Rules,
    items: Seq<SExp>,
    head: Seq<char>,
    st: Seq<FrameKind>,
) -> Seq<DiagnosticView>
    decreases items, items.len() + 2,
{
    let cond_st = st.push(FrameKind::Conditional);
    if is_branch_head(head) {
        branch_diags(c, items, 1, head, in_ui(st), cond_st)
    } else if head == "case"@ {
        if items.len() > 2 {
            form_diags(c, items[1], cond_st) + case_diags(c, items, 2, in_ui(st), st)
        } else {
            seq![]
        }
    } else if head == "cond"@ || head == "condp"@ {
        let start: int = if head == "condp"@ {
            3
        } else {
            1
        };
        cond_pairs_diags(c, items, start, start, head, in_ui(st), cond_st)
    } else {
        seq_diags(c, items, 1, cond_st)
    }
}

/// A branch of `if`/`when`/`or`...: a literal string is conditional text
/// in a UI context.
pub open spec fn result_diags(
    c: Rules,
    x: SExp,
    label: Seq<char>,
    ui: bool,
    st: Seq<FrameKind>,
) -> Seq<DiagnosticView>
    decreases x, 1nat,
{
    match x {
        SExp::Str(s, span) => if ui {
            report(c, DiagnosticKind::ConditionalText, span, s@, Some(label))
        } else {
            seq![]
        },
        _ => form_diags(c, x, st),
    }
}

/// Branches from index `i` on.
pub open spec fn branch_diags(
    c: Rules,
    items: Seq<SExp>,
    i: int,
    head: Seq<char>,
    ui: bool,
    st: Seq<FrameKind>,
) -> Seq<DiagnosticView>
    decreases items, rem(items.len(), i),
{
    if 0 <= i < items.len() {
        result_diags(c, items[i], head, ui, st) + branch_diags(c, items, i + 1, head, ui, st)
    } else {
        seq![]
    }
}

/// Whether the item at index `i` of a `case` form is a result (else a test
/// value): odd positions after the expression, and a trailing default.
pub open spec fn is_case_result(len: nat, i: int) -> bool {
    let m = len - 2;
    let k = i - 2;
    if m % 2 == 0 {
        k % 2 == 1
    } else if k == m - 1 {
        true
    } else {
        k % 2 == 1
    }
}

/// An item of a `case` form after its expression; `st` is the stack
/// outside the `case`.
pub open spec fn case_item_diags(
    c: Rules,
    x: SExp,
    result: bool,
    ui: bool,
    st: Seq<FrameKind>,
) -> Seq<DiagnosticView>
    decreases x, 2nat,
{
    if result {
        result_diags(c, x, "case"@, ui, st.push(FrameKind::Conditional))
    } else {
        form_diags(c, x, st.push(FrameKind::FnScope))
    }
}

/// Test values and results of a `case` form from index `i` on.
pub open spec fn case_diags(
    c: Rules,
    items: Seq<SExp>,
    i: int,
    ui: bool,
    st: Seq<FrameKind>,
) -> Seq<DiagnosticView>
    decreases items, rem(items.len(), i),
{
    if 0 <= i < items.len() {
        case_item_diags(c, items[i], is_case_result(items.len(), i), ui, st) + case_diags(
            c,
            items,
            i + 1,
            ui,
            st,
        )
    } else {
        seq![]
    }
}

/// Whether the item at index `i` of a `cond`/`condp` form (pairs start at
/// `start`) is a result branch: the second of each pair, and for `condp`
/// also a trailing default that has no test.
pub open spec fn is_cond_result(head: Seq<char>, len: nat, start: int, i: int) -> bool {
    (i - start) % 2 == 1 || (head == "condp"@ && (len - start) % 2 == 1 && i == len - 1)
}

/// Test/result pairs of `cond`/`condp` from index `i` on (pairs start at
/// `start`): results are reported as conditional text, tests analyzed.
pub open spec fn cond_pairs_diags(
    c: Rules,
    items: Seq<SExp>,
    start: int,
    i: int,
    head: Seq<char>,
    ui: bool,
    st: Seq<FrameKind>,
) -> Seq<DiagnosticView>
    decreases items, rem(items.len(), i),
{
    if 0 <= start <= i < items.len() {
        let here = if is_cond_result(head, items.len(), start, i) {
            result_diags(c, items[i], head, ui, st)
        } else {
            form_diags(c, items[i], st)
        };
        here + cond_pairs_diags(c, items, start, i + 1, head, ui, st)
    } else {
        seq![]
    }
}

/// `(match subject pattern result ...)`.
pub open spec fn match_diags(c: Rules, items: Seq<SExp>, st: Seq<FrameKind>) -> Seq<
    DiagnosticView,
>
    decreases items, items.len() + 2,
{
    let subject = if items.len() > 1 {
        form_diags(c, items[1], st)
    } else {
        seq![]
    };
    subject + match_pairs_diags(c, items, 2, in_ui(st), st)
}

/// Patterns (in a function scope) and results of a `match` form from index
/// `i` on; `st` is the stack outside the `match`.
pub open spec fn match_pairs_diags(
    c: Rules,
    items: Seq<SExp>,
    i: int,
    ui: bool,
    st: Seq<FrameKind>,
) -> Seq<DiagnosticView>
    decreases items, rem(items.len(), i),
{
    if 2 <= i < items.len() {
        let here = if (i - 2) % 2 == 0 {
            form_diags(c, items[i], st.push(FrameKind::FnScope))
        } else {
            result_diags(c, items[i], "match"@, ui, st.push(FrameKind::Conditional))
        };
        here + match_pairs_diags(c, items, i + 1, ui, st)
    } else {
        seq![]
    }
}

// ---------------------------------------------------------------------------
// Hiccup and maps
// ---------------------------------------------------------------------------
/// A hiccup vector (the stack already holds its hiccup frame).
pub open spec fn hiccup_diags(c: Rules, items: Seq<SExp>, st: Seq<FrameKind>) -> Seq<
    DiagnosticView,
>
    decreases items, items.len() + 2,
{
    if items.len() > 1 && items[1] is MapLiteral {
        match items[1] {
            SExp::MapLiteral(kv, _) => hiccup_attrs_diags(c, kv@, 0, st) + hiccup_children_diags(
                c,
                items,
                2,
                st,
            ),
            _ => seq![],
        }
    } else {
        hiccup_children_diags(c, items, 1, st)
    }
}

/// A child of a hiccup vector: a literal string is hiccup text.
pub open spec fn hiccup_child_diags(c: Rules, x: SExp, st: Seq<FrameKind>) -> Seq<DiagnosticView>
    decreases x, 1nat,
{
    match x {
        SExp::Str(s, span) => report(c, DiagnosticKind::HiccupText, span, s@, None),
        _ => form_diags(c, x, st),
    }
}

/// Children of a hiccup vector from index `i` on.
pub open spec fn hiccup_children_diags(
    c: Rules,
    items: Seq<SExp>,
    i: int,
    st: Seq<FrameKind>,
) -> Seq<DiagnosticView>
    decreases items, rem(items.len(), i),
{
    if 0 <= i < items.len() {
        hiccup_child_diags(c, items[i], st) + hiccup_children_diags(c, items, i + 1, st)
    } else {
        seq![]
    }
}

/// The name of a hiccup attribute key: a keyword's or a string's text.
pub open spec fn attr_key(k: SExp) -> Option<Seq<char>> {
    match k {
        SExp::Keyword(s, _) => Some(s@),
        SExp::Str(s, _) => Some(s@),
        _ => None,
    }
}

/// One key/value pair of a hiccup attribute map.
pub open spec fn hiccup_attr_diags(c: Rules, k: SExp, v: SExp, st: Seq<FrameKind>) -> Seq<
    DiagnosticView,
>
    decreases v, 2nat,
{
    match attr_key(k) {
        Some(key) => if is_ui_attribute(c, key) {
            match v {
                SExp::Str(s, span) => report(c, DiagnosticKind::HiccupAttr, span, s@, Some(key)),
                _ => form_diags(c, v, st),
            }
        } else {
            non_text_value_diags(c, v, st)
        },
        None => seq![],
    }
}

/// A value that is not displayed: analyzed in a function scope unless it is
/// a literal string.
pub open spec fn non_text_value_diags(c: Rules, v: SExp, st: Seq<FrameKind>) -> Seq<
    DiagnosticView,
>
    decreases v, 1nat,
{
    if v is Str {
        seq![]
    } else {
        form_diags(c, v, st.push(FrameKind::FnScope))
    }
}

/// Key/value pairs of a hiccup attribute map from index `j` on.
pub open spec fn hiccup_attrs_diags(
    c: Rules,
    kv: Seq<SExp>,
    j: int,
    st: Seq<FrameKind>,
) -> Seq<DiagnosticView>
    decreases kv, rem(kv.len(), j),
{
    if 0 <= j && j + 1 < kv.len() {
        hiccup_attr_diags(c, kv[j], kv[j + 1], st) + hiccup_attrs_diags(c, kv, j + 2, st)
    } else {
        seq![]
    }
}

/// One key/value pair of a map argument of a UI function.
pub open spec fn ui_map_pair_diags(c: Rules, k: SExp, v: SExp, st: Seq<FrameKind>) -> Seq<
    DiagnosticView,
>
    decreases v, 2nat,
{
    match k {
        SExp::Keyword(key, _) => if is_ui_attribute(c, key@) {
            match v {
                SExp::Str(s, span) => report(c, DiagnosticKind::FnArgText, span, s@, Some(key@)),
                _ => form_diags(c, v, st),
            }
        } else {
            non_text_value_diags(c, v, st)
        },
        _ => non_text_value_diags(c, v, st),
    }
}

/// Key/value pairs of a map argument of a UI function from index `j` on.
pub open spec fn ui_map_diags(c: Rules, kv: Seq<SExp>, j: int, st: Seq<FrameKind>) -> Seq<
    DiagnosticView,
>
    decreases kv, rem(kv.len(), j),
{
    if 0 <= j && j + 1 < kv.len() {
        ui_map_pair_diags(c, kv[j], kv[j + 1], st) + ui_map_diags(c, kv, j + 2, st)
    } else {
        seq![]
    }
}

/// Key/value pairs of a map literal from index `j` on: values are not
/// displayed text.
pub open spec fn map_diags(c: Rules, kv: Seq<SExp>, j: int, st: Seq<FrameKind>) -> Seq<
    DiagnosticView,
>
    decreases kv, rem(kv.len(), j),
{
    if 0 <= j && j + 1 < kv.len() {
        non_text_value_diags(c, kv[j + 1], st) + map_diags(c, kv, j + 2, st)
    } else {
        seq![]
    }
}

/// Diagnostics for a sequence of top-level forms, in order.
pub open spec fn forms_diags(c: Rules, forms: Seq<SExp>) -> Seq<DiagnosticView>
    decreases forms.len(),
{
    if forms.len() == 0 {
        seq![]
    } else {
        forms_diags(c, forms.drop_last()) + form_diags(c, forms.last(), seq![])
    }
}

} // verus!
