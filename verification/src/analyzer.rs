//! Detection of hardcoded UI strings in a syntax tree.
use vstd::prelude::*;
use vstd::string::StringExecFns;

use crate::analysis::{
    Rules,
    stack_has,
    in_ui,
    in_ignored,
    numeric_char,
    skipped_text,
    report,
    is_ui_attribute,
    is_ui_function,
    is_builtin_predicate,
    is_string_predicate,
    is_pure_function,
    is_ns_form,
    is_def_head,
    is_component_def,
    is_fn_like_def,
    is_let_head,
    is_conditional_let,
    is_branch_head,
    is_conditional_head,
    is_hiccup,
    is_str,
    rem,
    form_diags,
    seq_diags,
    list_diags,
    call_diags,
    str_arg_diags,
    str_args_diags,
    format_diags,
    alert_diags,
    thread_item_diags,
    thread_diags,
    fn_body_diags,
    keyword_arg_diags,
    ui_args_diags,
    fn_like_body_start,
    def_value_start,
    def_diags,
    def_value_diags,
    def_values_diags,
    let_diags,
    let_bindings_diags,
    binding_value_diags,
    binding_diags,
    let_body_item_diags,
    let_body_diags,
    cond_diags,
    result_diags,
    branch_diags,
    is_case_result,
    case_item_diags,
    case_diags,
    cond_pairs_diags,
    is_cond_result,
    match_diags,
    match_pairs_diags,
    hiccup_diags,
    hiccup_child_diags,
    hiccup_children_diags,
    attr_key,
    hiccup_attr_diags,
    non_text_value_diags,
    hiccup_attrs_diags,
    ui_map_pair_diags,
    ui_map_diags,
    map_diags,
    forms_diags,
};
use crate::config::AppConfig;
use crate::names::{
    any_names_function, chars_equal, first_segment, first_segment_of, has_char_of,
    last_segment, last_segment_of, names_function, names_function_of, strip_colon,
    strip_colon_of, texts,
};
use crate::parser::{text_is, SExp, Span};
use crate::patterns::{
    pattern_set_patterns, regex_set_compiles, regex_set_empty, regex_set_error, regex_set_is_match,
    regex_set_new, PatternSet,
};
use crate::text::{
    alphabetic, chars_of, is_alphabetic, string_from_chars, string_of, trim_chars,
    trim_text,
};

verus! {

/// The category of a hardcoded string.
#[derive(Debug, Clone, Copy, PartialEq, Eq, Structural, PartialOrd, Ord, Hash)]
pub enum DiagnosticKind {
    HiccupText,
    HiccupAttr,
    AlertText,
    StrConcat,
    FormatString,
    ConditionalText,
    FnArgText,
    DefText,
    LetText,
}

pub open spec fn kind_label(k: DiagnosticKind) -> Seq<char> {
    match k {
        DiagnosticKind::HiccupText => "hiccup-text"@,
        DiagnosticKind::HiccupAttr => "hiccup-attr"@,
        DiagnosticKind::AlertText => "alert-text"@,
        DiagnosticKind::StrConcat => "str-concat"@,
        DiagnosticKind::FormatString => "format-string"@,
        DiagnosticKind::ConditionalText => "conditional-text"@,
        DiagnosticKind::FnArgText => "fn-arg-text"@,
        DiagnosticKind::DefText => "def-text"@,
        DiagnosticKind::LetText => "let-text"@,
    }
}

impl DiagnosticKind {
    /// The kind's name as it is displayed.
    pub fn to_string(&self) -> (r: String)
        ensures
            r@ == kind_label(*self),
    {
        match self {
            DiagnosticKind::HiccupText => string_of("hiccup-text"),
            DiagnosticKind::HiccupAttr => string_of("hiccup-attr"),
            DiagnosticKind::AlertText => string_of("alert-text"),
            DiagnosticKind::StrConcat => string_of("str-concat"),
            DiagnosticKind::FormatString => string_of("format-string"),
            DiagnosticKind::ConditionalText => string_of("conditional-text"),
            DiagnosticKind::FnArgText => string_of("fn-arg-text"),
            DiagnosticKind::DefText => string_of("def-text"),
            DiagnosticKind::LetText => string_of("let-text"),
        }
    }
}

/// A hardcoded string found in a file.
#[derive(Debug)]
pub struct Diagnostic {
    pub kind: DiagnosticKind,
    pub file_path: String,
    pub line: u32,
    pub col: u32,
    pub text: String,
    pub context: Option<String>,
}

/// The value of a diagnostic.
pub struct DiagnosticView {
    pub kind: DiagnosticKind,
    pub file_path: Seq<char>,
    pub line: u32,
    pub col: u32,
    pub text: Seq<char>,
    pub context: Option<Seq<char>>,
}

pub open spec fn opt_text(o: Option<String>) -> Option<Seq<char>> {
    match o {
        Some(s) => Some(s@),
        None => None,
    }
}

impl View for Diagnostic {
    type V = DiagnosticView;

    open spec fn view(&self) -> DiagnosticView {
        DiagnosticView {
            kind: self.kind,
            file_path: self.file_path@,
            line: self.line,
            col: self.col,
            text: self.text@,
            context: opt_text(self.context),
        }
    }
}

/// The values of a sequence of diagnostics.
pub open spec fn diags_view(v: Seq<Diagnostic>) -> Seq<DiagnosticView> {
    v.map_values(|d: Diagnostic| d@)
}

/// A frame of the context stack: what an enclosing form is.
#[derive(Clone, Copy, PartialEq, Eq, Structural)]
pub enum FrameKind {
    Hiccup,
    UiFnCall,
    StrCall,
    IgnoreContext,
    NsOrRequire,
    Comment,
    Def,
    Let,
    Conditional,
    /// The boundary of an inline function: hiccup and UI-call frames beyond it
    /// do not count.
    FnScope,
}

/// The enclosing contexts of a form, innermost last.
pub struct ContextStack {
    pub frames: Vec<FrameKind>,
}

/// The rules the analysis of one file applies.
pub struct AnalysisContext {
    pub file_path: String,
    pub allow_strings: Vec<String>,
    /// The allowed patterns compiled once; empty when they do not compile.
    pub allow_set: PatternSet,
    pub ui_functions: Vec<String>,
    pub ui_namespaces: Vec<String>,
    pub ui_attributes: Vec<String>,
    pub ignore_context_functions: Vec<String>,
    pub i18n_functions: Vec<String>,
    pub exception_functions: Vec<String>,
    pub alert_functions: Vec<String>,
    pub pure_functions: Vec<String>,
    pub format_functions: Vec<String>,
}


impl View for AnalysisContext {
    type V = Rules;

    open spec fn view(&self) -> Rules {
        Rules {
            file_path: self.file_path@,
            allow_strings: texts(self.allow_strings@),
            allow_patterns: pattern_set_patterns(self.allow_set),
            ui_functions: texts(self.ui_functions@),
            ui_namespaces: texts(self.ui_namespaces@),
            ui_attributes: texts(self.ui_attributes@),
            ignore_context_functions: texts(self.ignore_context_functions@),
            i18n_functions: texts(self.i18n_functions@),
            exception_functions: texts(self.exception_functions@),
            alert_functions: texts(self.alert_functions@),
            pure_functions: texts(self.pure_functions@),
            format_functions: texts(self.format_functions@),
        }
    }
}

/// The allowed patterns in effect: the configured ones when they compile as
/// a set, else none.
pub open spec fn patterns_in_effect(p: Seq<Seq<char>>) -> Seq<Seq<char>> {
    if regex_set_compiles(p) {
        p
    } else {
        seq![]
    }
}

/// The warning for configured allowed patterns that do not compile.
pub fn allow_patterns_warning(config: &AppConfig) -> (r: Option<String>)
    ensures
        match regex_set_error(texts(config.lint.allow_patterns@)) {
            None => r is None,
            Some(e) => r matches Some(m) && m@ == "invalid allow_patterns regex: "@ + e,
        },
{
    match regex_set_new(&config.lint.allow_patterns) {
        Ok(_) => None,
        Err(e) => {
            let mut m = string_of("invalid allow_patterns regex: ");
            m.append(e.as_str());
            Some(m)
        },
    }
}

/// The rules that analyzing the file at `path` with `config` applies.
pub open spec fn rules_of(path: Seq<char>, config: AppConfig) -> Rules {
    Rules {
        file_path: path,
        allow_strings: texts(config.lint.allow_strings@),
        allow_patterns: patterns_in_effect(texts(config.lint.allow_patterns@)),
        ui_functions: texts(config.ui_functions@),
        ui_namespaces: texts(config.ui_namespaces@),
        ui_attributes: texts(config.ui_attributes@),
        ignore_context_functions: texts(config.lint.ignore_context_functions@),
        i18n_functions: texts(config.i18n_functions@),
        exception_functions: texts(config.lint.exception_functions@),
        alert_functions: texts(config.alert_functions@),
        pure_functions: texts(config.lint.pure_functions@),
        format_functions: texts(config.lint.format_functions@),
    }
}

/// A copy of a list of strings.
pub fn clone_strings(v: &Vec<String>) -> (r: Vec<String>)
    ensures
        r@ == v@,
{
    let mut r: Vec<String> = Vec::new();
    let mut i: usize = 0;
    while i < v.len()
        invariant
            i <= v.len(),
            r@ == v@.subrange(0, i as int),
        decreases v.len() - i,
    {
        let s = v[i].clone();
        r.push(s);
        i = i + 1;
        assert(r@ =~= v@.subrange(0, i as int));
    }
    assert(v@.subrange(0, i as int) =~= v@);
    r
}

/// True when some string of the list equals `t`.
pub fn contains_text(list: &Vec<String>, t: &String) -> (r: bool)
    ensures
        r == texts(list@).contains(t@),
{
    let mut i: usize = 0;
    while i < list.len()
        invariant
            i <= list.len(),
            forall|j: int| 0 <= j < i ==> texts(list@)[j] != t@,
        decreases list.len() - i,
    {
        if list[i] == *t {
            assert(texts(list@)[i as int] == t@);
            return true;
        }
        i = i + 1;
    }
    false
}

/// True when some function name of the list names `name`.
pub fn any_names(list: &Vec<String>, name: &Vec<char>) -> (r: bool)
    ensures
        r == any_names_function(texts(list@), name@),
{
    let mut i: usize = 0;
    while i < list.len()
        invariant
            i <= list.len(),
            forall|j: int| 0 <= j < i ==> !names_function(#[trigger] texts(list@)[j], name@),
        decreases list.len() - i,
    {
        let f = chars_of(list[i].as_str());
        if names_function_of(&f, name) {
            assert(names_function(texts(list@)[i as int], name@));
            return true;
        }
        i = i + 1;
    }
    false
}

pub proof fn lemma_diags_push(v: Seq<Diagnostic>, d: Diagnostic)
    ensures
        diags_view(v.push(d)) == diags_view(v).push(d@),
{
    assert(diags_view(v.push(d)) =~= diags_view(v).push(d@));
}

pub proof fn lemma_assoc(a: Seq<DiagnosticView>, b: Seq<DiagnosticView>, c: Seq<DiagnosticView>)
    ensures
        (a + b) + c == a + (b + c),
{
    assert((a + b) + c =~= a + (b + c));
}

pub proof fn lemma_add_empty(a: Seq<DiagnosticView>)
    ensures
        a + Seq::<DiagnosticView>::empty() == a,
{
    assert(a + Seq::<DiagnosticView>::empty() =~= a);
}

impl ContextStack {
    /// The empty stack.
    pub fn new() -> (r: ContextStack)
        ensures
            r.frames@ == Seq::<FrameKind>::empty(),
    {
        ContextStack { frames: Vec::new() }
    }

    /// This stack with one more frame on top.
    pub fn push(&self, kind: FrameKind) -> (r: ContextStack)
        ensures
            r.frames@ == self.frames@.push(kind),
    {
        let mut frames: Vec<FrameKind> = Vec::new();
        let mut i: usize = 0;
        while i < self.frames.len()
            invariant
                i <= self.frames.len(),
                frames@ == self.frames@.subrange(0, i as int),
            decreases self.frames.len() - i,
        {
            frames.push(self.frames[i]);
            i = i + 1;
            assert(frames@ =~= self.frames@.subrange(0, i as int));
        }
        assert(self.frames@.subrange(0, i as int) =~= self.frames@);
        frames.push(kind);
        ContextStack { frames }
    }

    /// True when `target` is on the stack and not hidden by a function
    /// scope.
    pub fn has(&self, target: FrameKind) -> (r: bool)
        ensures
            r == stack_has(self.frames@, target),
    {
        let mut i: usize = self.frames.len();
        assert(self.frames@.subrange(0, i as int) =~= self.frames@);
        while i > 0
            invariant
                i <= self.frames.len(),
                stack_has(self.frames@, target) == stack_has(
                    self.frames@.subrange(0, i as int),
                    target,
                ),
            decreases i,
        {
            let ghost sub = self.frames@.subrange(0, i as int);
            let kind = self.frames[i - 1];
            assert(sub.last() == kind);
            if kind == target {
                return true;
            }
            if kind == FrameKind::FnScope && (target == FrameKind::Hiccup || target
                == FrameKind::UiFnCall) {
                return false;
            }
            assert(sub.drop_last() =~= self.frames@.subrange(0, i - 1));
            i = i - 1;
        }
        false
    }

    /// True inside a form whose contents are never checked.
    pub fn in_ignore_context(&self) -> (r: bool)
        ensures
            r == in_ignored(self.frames@),
    {
        self.has(FrameKind::IgnoreContext) || self.has(FrameKind::NsOrRequire) || self.has(
            FrameKind::Comment,
        )
    }

    /// True inside a hiccup vector or a UI function call.
    pub fn in_ui(&self) -> (r: bool)
        ensures
            r == in_ui(self.frames@),
    {
        self.has(FrameKind::Hiccup) || self.has(FrameKind::UiFnCall)
    }
}

/// True when every character is a digit, `.`, `-` or `+`.
fn all_numeric(t: &Vec<char>) -> (r: bool)
    ensures
        r == (forall|i: int| 0 <= i < t@.len() ==> numeric_char(#[trigger] t@[i])),
{
    let mut i: usize = 0;
    while i < t.len()
        invariant
            i <= t.len(),
            forall|j: int| 0 <= j < i ==> numeric_char(#[trigger] t@[j]),
        decreases t.len() - i,
    {
        let ch = t[i];
        if !(('0' <= ch && ch <= '9') || ch == '.' || ch == '-' || ch == '+') {
            assert(!numeric_char(t@[i as int]));
            return false;
        }
        i = i + 1;
    }
    true
}

/// True when some character is alphabetic.
fn any_alphabetic(t: &Vec<char>) -> (r: bool)
    ensures
        r == (exists|i: int| 0 <= i < t@.len() && alphabetic(#[trigger] t@[i])),
{
    let mut i: usize = 0;
    while i < t.len()
        invariant
            i <= t.len(),
            forall|j: int| 0 <= j < i ==> !alphabetic(#[trigger] t@[j]),
        decreases t.len() - i,
    {
        if is_alphabetic(t[i]) {
            return true;
        }
        i = i + 1;
    }
    false
}

impl AnalysisContext {
    /// The rules for the file at `file_path` under `config`.
    pub fn new(file_path: &str, config: &AppConfig) -> (r: AnalysisContext)
        ensures
            r@ == rules_of(file_path@, *config),
    {
        let allow_set = match regex_set_new(&config.lint.allow_patterns) {
            Ok(set) => set,
            Err(_) => regex_set_empty(),
        };
        AnalysisContext {
            file_path: string_of(file_path),
            allow_strings: clone_strings(&config.lint.allow_strings),
            allow_set,
            ui_functions: clone_strings(&config.ui_functions),
            ui_namespaces: clone_strings(&config.ui_namespaces),
            ui_attributes: clone_strings(&config.ui_attributes),
            ignore_context_functions: clone_strings(&config.lint.ignore_context_functions),
            i18n_functions: clone_strings(&config.i18n_functions),
            exception_functions: clone_strings(&config.lint.exception_functions),
            alert_functions: clone_strings(&config.alert_functions),
            pure_functions: clone_strings(&config.lint.pure_functions),
            format_functions: clone_strings(&config.lint.format_functions),
        }
    }

    /// True when the (trimmed) text `t` is never reported.
    pub fn should_skip_string(&self, text: &String) -> (r: bool)
        ensures
            r == skipped_text(self@, text@),
    {
        let chars = chars_of(text.as_str());
        let t = &chars;
        if t.len() <= 1 {
            return true;
        }
        if all_numeric(t) {
            return true;
        }
        if !any_alphabetic(t) {
            return true;
        }
        if contains_text(&self.allow_strings, text) {
            return true;
        }
        regex_set_is_match(&self.allow_set, text.as_str())
    }

    /// Record a diagnostic for the trimmed text unless it is skipped.
    pub fn report(
        &self,
        out: &mut Vec<Diagnostic>,
        kind: DiagnosticKind,
        span: Span,
        text: &String,
        context: Option<String>,
    )
        ensures
            diags_view(final(out)@) == diags_view(old(out)@) + report(
                self@,
                kind,
                span,
                text@,
                opt_text(context),
            ),
    {
        let chars = chars_of(text.as_str());
        let t = trim_chars(&chars);
        let trimmed = string_from_chars(&t);
        if self.should_skip_string(&trimmed) {
            proof {
                lemma_add_empty(diags_view(old(out)@));
            }
            return;
        }
        let d = Diagnostic {
            kind,
            file_path: self.file_path.clone(),
            line: span.line,
            col: span.col,
            text: trimmed,
            context,
        };
        proof {
            lemma_diags_push(out@, d);
        }
        out.push(d);
    }

    pub fn is_ui_attribute(&self, name: &Vec<char>) -> (r: bool)
        ensures
            r == is_ui_attribute(self@, name@),
    {
        let clean = strip_colon_of(name);
        let s = string_from_chars(&clean);
        contains_text(&self.ui_attributes, &s)
    }

    pub fn is_ui_function(&self, name: &Vec<char>) -> (r: bool)
        ensures
            r == is_ui_function(self@, name@),
    {
        if any_names(&self.ui_functions, name) {
            return true;
        }
        let ns = first_segment_of(name);
        let s = string_from_chars(&ns);
        contains_text(&self.ui_namespaces, &s)
    }

    pub fn is_pure_function(&self, name: &String) -> (r: bool)
        ensures
            r == is_pure_function(self@, name@),
    {
        let n = chars_of(name.as_str());
        if text_is(name, "=") || text_is(name, "not=") || text_is(name, "==") || text_is(
            name,
            "identical?",
        ) || text_is(name, "<") || text_is(name, ">") || text_is(name, "<=") || text_is(
            name,
            ">=",
        ) || text_is(name, "compare") || text_is(name, "not") {
            return true;
        }
        if n.len() > 0 && n[n.len() - 1] == '?' {
            return true;
        }
        let base = string_from_chars(&last_segment_of(&n));
        if text_is(&base, "starts-with?") || text_is(&base, "ends-with?") || text_is(
            &base,
            "includes?",
        ) || text_is(&base, "index-of") || text_is(&base, "last-index-of") || text_is(
            &base,
            "blank?",
        ) || text_is(&base, "split") {
            return true;
        }
        any_names(&self.pure_functions, &n)
    }
}

/// True when the items form a hiccup vector: a first keyword without `/`.
pub fn is_hiccup_vector(items: &Vec<SExp>) -> (r: bool)
    ensures
        r == is_hiccup(items@),
{
    if items.len() == 0 {
        return false;
    }
    match &items[0] {
        SExp::Keyword(k, _) => {
            let kc = chars_of(k.as_str());
            !has_char_of(&kc, '/')
        },
        _ => false,
    }
}


fn is_ns_form_name(n: &String) -> (r: bool)
    ensures
        r == is_ns_form(n@),
{
    text_is(n, "ns") || text_is(n, "require") || text_is(n, "import") || text_is(n, "use")
        || text_is(n, "refer") || text_is(n, "comment")
}

fn is_def_head_name(n: &String) -> (r: bool)
    ensures
        r == is_def_head(n@),
{
    text_is(n, "def") || text_is(n, "defonce") || text_is(n, "defn") || text_is(n, "defn-")
        || text_is(n, "defmacro") || text_is(n, "defmethod") || text_is(n, "defmulti")
}

fn is_component_def_name(base: &String) -> (r: bool)
    ensures
        r == is_component_def(base@),
{
    text_is(base, "defc") || text_is(base, "defcs") || text_is(base, "defcc") || text_is(
        base,
        "defrc",
    ) || text_is(base, "defsc")
}

fn is_fn_like_def_name(base: &String) -> (r: bool)
    ensures
        r == is_fn_like_def(base@),
{
    text_is(base, "defn") || text_is(base, "defn-") || text_is(base, "defmacro")
        || is_component_def_name(base)
}

fn is_conditional_let_name(n: &String) -> (r: bool)
    ensures
        r == is_conditional_let(n@),
{
    text_is(n, "when-let") || text_is(n, "when-some") || text_is(n, "if-let") || text_is(
        n,
        "if-some",
    )
}

fn is_let_head_name(n: &String) -> (r: bool)
    ensures
        r == is_let_head(n@),
{
    text_is(n, "let") || text_is(n, "let!") || text_is(n, "binding") || text_is(n, "loop")
        || is_conditional_let_name(n)
}

fn is_branch_head_name(n: &String) -> (r: bool)
    ensures
        r == is_branch_head(n@),
{
    text_is(n, "if") || text_is(n, "if-not") || text_is(n, "when") || text_is(n, "when-not")
        || text_is(n, "or")
}

fn is_conditional_head_name(n: &String) -> (r: bool)
    ensures
        r == is_conditional_head(n@),
{
    is_branch_head_name(n) || text_is(n, "cond") || text_is(n, "condp") || text_is(n, "case")
}

/// Analyze one form, appending its diagnostics.
pub fn analyze_form(c: &AnalysisContext, form: &SExp, st: &ContextStack, out: &mut Vec<Diagnostic>)
    ensures
        diags_view(final(out)@) == diags_view(old(out)@) + form_diags(c@, *form, st.frames@),
    decreases *form, 0nat,
{
    proof {
        lemma_add_empty(diags_view(out@));
    }
    if st.in_ignore_context() {
        return;
    }
    match form {
        SExp::List(items, _) => analyze_list_form(c, items, st, out),
        SExp::Vector(items, _) => {
            if is_hiccup_vector(items) {
                let h = st.push(FrameKind::Hiccup);
                analyze_hiccup_vector(c, items, &h, out);
            } else {
                analyze_items(c, items, 0, st, out);
            }
        },
        SExp::MapLiteral(items, _) => analyze_map(c, items, st, out),
        SExp::Meta(_, target, _) => analyze_form(c, target, st, out),
        _ => {},
    }
}

/// Analyze the items from index `start` on, each as a form.
fn analyze_items(
    c: &AnalysisContext,
    items: &Vec<SExp>,
    start: usize,
    st: &ContextStack,
    out: &mut Vec<Diagnostic>,
)
    ensures
        diags_view(final(out)@) == diags_view(old(out)@) + seq_diags(
            c@,
            items@,
            start as int,
            st.frames@,
        ),
    decreases items@, rem(items@.len(), start as int),
{
    let ghost target = diags_view(out@) + seq_diags(c@, items@, start as int, st.frames@);
    let mut i: usize = start;
    while i < items.len()
        invariant
            start <= i,
            target == diags_view(old(out)@) + seq_diags(c@, items@, start as int, st.frames@),
            target == diags_view(out@) + seq_diags(c@, items@, i as int, st.frames@),
        decreases items.len() - i,
    {
        let ghost before = diags_view(out@);
        analyze_form(c, &items[i], st, out);
        proof {
            lemma_assoc(
                before,
                form_diags(c@, items@[i as int], st.frames@),
                seq_diags(c@, items@, i + 1, st.frames@),
            );
        }
        i = i + 1;
    }
    proof {
        lemma_add_empty(diags_view(out@));
    }
}

/// Analyze a list form.
fn analyze_list_form(
    c: &AnalysisContext,
    items: &Vec<SExp>,
    st: &ContextStack,
    out: &mut Vec<Diagnostic>,
)
    ensures
        diags_view(final(out)@) == diags_view(old(out)@) + list_diags(c@, items@, st.frames@),
    decreases items@, items@.len() + 4,
{
    if items.len() == 0 {
        proof {
            lemma_add_empty(diags_view(out@));
        }
        return;
    }
    match &items[0] {
        SExp::Symbol(name, _) => analyze_call(c, items, name, st, out),
        _ => analyze_items(c, items, 0, st, out),
    }
}

/// Analyze a list whose head is the symbol `name`.
fn analyze_call(
    c: &AnalysisContext,
    items: &Vec<SExp>,
    name: &String,
    st: &ContextStack,
    out: &mut Vec<Diagnostic>,
)
    ensures
        diags_view(final(out)@) == diags_view(old(out)@) + call_diags(
            c@,
            items@,
            name@,
            st.frames@,
        ),
    decreases items@, items@.len() + 3,
{
    proof {
        lemma_add_empty(diags_view(out@));
    }
    let n = chars_of(name.as_str());
    if any_names(&c.ignore_context_functions, &n) {
        return;
    }
    if any_names(&c.i18n_functions, &n) {
        return;
    }
    if is_ns_form_name(name) {
        return;
    }
    let base = string_from_chars(&last_segment_of(&n));
    if is_def_head_name(name) || is_component_def_name(&base) {
        analyze_def_form(c, items, name, &base, st, out);
    } else if is_let_head_name(name) {
        analyze_let_form(c, items, name, st, out);
    } else if text_is(name, "str") {
        analyze_str_call(c, items, st, out);
    } else if any_names(&c.format_functions, &n) {
        analyze_format_call(c, items, name, st, out);
    } else if any_names(&c.alert_functions, &n) {
        analyze_alert_call(c, items, name, st, out);
    } else if any_names(&c.exception_functions, &n) {
    } else if is_conditional_head_name(name) {
        analyze_conditional_form(c, items, name, st, out);
    } else if text_is(name, "match") {
        analyze_match_form(c, items, st, out);
    } else if text_is(name, "cond->") || text_is(name, "cond->>") {
        analyze_thread_form(c, items, st, out);
    } else if text_is(name, "do") {
        analyze_items(c, items, 1, st, out);
    } else if text_is(name, "fn") || text_is(name, "fn*") {
        let fn_st = st.push(FrameKind::FnScope);
        analyze_fn_body(c, items, &fn_st, out);
    } else if c.is_pure_function(name) {
        let pure_st = st.push(FrameKind::FnScope);
        analyze_items(c, items, 1, &pure_st, out);
    } else if c.is_ui_function(&n) {
        let ui_st = st.push(FrameKind::UiFnCall);
        analyze_ui_call(c, items, name, &ui_st, out);
    } else {
        analyze_items(c, items, 1, st, out);
    }
}


/// `(str ...)`.
fn analyze_str_call(c: &AnalysisContext, items: &Vec<SExp>, st: &ContextStack, out: &mut Vec<Diagnostic>)
    ensures
        diags_view(final(out)@) == diags_view(old(out)@) + str_args_diags(
            c@,
            items@,
            1,
            st.frames@,
        ),
    decreases items@, rem(items@.len(), 1),
{
    let ghost target = diags_view(out@) + str_args_diags(c@, items@, 1, st.frames@);
    let str_st = st.push(FrameKind::StrCall);
    let ui = st.in_ui();
    let mut i: usize = 1;
    while i < items.len()
        invariant
            1 <= i,
            str_st.frames@ == st.frames@.push(FrameKind::StrCall),
            ui == in_ui(st.frames@),
            target == diags_view(old(out)@) + str_args_diags(c@, items@, 1, st.frames@),
            target == diags_view(out@) + str_args_diags(c@, items@, i as int, st.frames@),
        decreases items.len() - i,
    {
        let ghost before = diags_view(out@);
        analyze_str_arg(c, &items[i], st, ui, &str_st, out);
        proof {
            lemma_assoc(
                before,
                str_arg_diags(c@, items@[i as int], st.frames@),
                str_args_diags(c@, items@, i + 1, st.frames@),
            );
        }
        i = i + 1;
    }
    proof {
        lemma_add_empty(diags_view(out@));
    }
}

fn analyze_str_arg(
    c: &AnalysisContext,
    x: &SExp,
    st: &ContextStack,
    ui: bool,
    str_st: &ContextStack,
    out: &mut Vec<Diagnostic>,
)
    requires
        ui == in_ui(st.frames@),
        str_st.frames@ == st.frames@.push(FrameKind::StrCall),
    ensures
        diags_view(final(out)@) == diags_view(old(out)@) + str_arg_diags(c@, *x, st.frames@),
    decreases *x, 1nat,
{
    match x {
        SExp::Str(s, span) => {
            if ui {
                c.report(out, DiagnosticKind::StrConcat, *span, s, Some(string_of("str")));
            } else {
                proof {
                    lemma_add_empty(diags_view(out@));
                }
            }
        },
        _ => analyze_form(c, x, str_st, out),
    }
}

/// A format call: its first argument is the template.
fn analyze_format_call(
    c: &AnalysisContext,
    items: &Vec<SExp>,
    name: &String,
    st: &ContextStack,
    out: &mut Vec<Diagnostic>,
)
    ensures
        diags_view(final(out)@) == diags_view(old(out)@) + format_diags(
            c@,
            items@,
            name@,
            st.frames@,
        ),
    decreases items@, items@.len() + 2,
{
    let ghost before = diags_view(out@);
    let ghost first = if items@.len() > 1 {
        match items@[1] {
            SExp::Str(s, span) => if in_ui(st.frames@) {
                report(c@, DiagnosticKind::FormatString, span, s@, Some(name@))
            } else {
                seq![]
            },
            _ => form_diags(c@, items@[1], st.frames@),
        }
    } else {
        seq![]
    };
    if items.len() > 1 {
        match &items[1] {
            SExp::Str(s, span) => {
                if st.in_ui() {
                    c.report(out, DiagnosticKind::FormatString, *span, s, Some(name.clone()));
                } else {
                    proof {
                        lemma_add_empty(before);
                    }
                }
            },
            other => analyze_form(c, other, st, out),
        }
    } else {
        proof {
            lemma_add_empty(before);
        }
    }
    assert(diags_view(out@) == before + first);
    analyze_items(c, items, 2, st, out);
    proof {
        lemma_assoc(before, first, seq_diags(c@, items@, 2, st.frames@));
    }
}

/// An alert call: its first argument is user-visible text.
fn analyze_alert_call(
    c: &AnalysisContext,
    items: &Vec<SExp>,
    name: &String,
    st: &ContextStack,
    out: &mut Vec<Diagnostic>,
)
    ensures
        diags_view(final(out)@) == diags_view(old(out)@) + alert_diags(
            c@,
            items@,
            name@,
            st.frames@,
        ),
    decreases items@, items@.len() + 2,
{
    if items.len() > 1 {
        match &items[1] {
            SExp::Str(s, span) => {
                c.report(out, DiagnosticKind::AlertText, *span, s, Some(name.clone()));
            },
            other => {
                let ui_st = st.push(FrameKind::UiFnCall);
                analyze_form(c, other, &ui_st, out);
            },
        }
    } else {
        proof {
            lemma_add_empty(diags_view(out@));
        }
    }
}

/// `(cond-> expr test form ...)`.
fn analyze_thread_form(
    c: &AnalysisContext,
    items: &Vec<SExp>,
    st: &ContextStack,
    out: &mut Vec<Diagnostic>,
)
    ensures
        diags_view(final(out)@) == diags_view(old(out)@) + thread_diags(
            c@,
            items@,
            1,
            st.frames@,
        ),
    decreases items@, rem(items@.len(), 1),
{
    let ghost target = diags_view(out@) + thread_diags(c@, items@, 1, st.frames@);
    let fn_st = st.push(FrameKind::FnScope);
    let mut i: usize = 1;
    while i < items.len()
        invariant
            1 <= i,
            fn_st.frames@ == st.frames@.push(FrameKind::FnScope),
            target == diags_view(old(out)@) + thread_diags(c@, items@, 1, st.frames@),
            target == diags_view(out@) + thread_diags(c@, items@, i as int, st.frames@),
        decreases items.len() - i,
    {
        let ghost before = diags_view(out@);
        let k = i - 1;
        if k == 0 || k % 2 == 1 {
            analyze_form(c, &items[i], &fn_st, out);
        } else {
            analyze_form(c, &items[i], st, out);
        }
        proof {
            lemma_assoc(
                before,
                thread_item_diags(c@, items@[i as int], i as int, st.frames@),
                thread_diags(c@, items@, i + 1, st.frames@),
            );
        }
        i = i + 1;
    }
    proof {
        lemma_add_empty(diags_view(out@));
    }
}

/// The body of `(fn name? [args] body...)`.
fn analyze_fn_body(c: &AnalysisContext, items: &Vec<SExp>, st: &ContextStack, out: &mut Vec<Diagnostic>)
    ensures
        diags_view(final(out)@) == diags_view(old(out)@) + fn_body_diags(
            c@,
            items@,
            1,
            false,
            st.frames@,
        ),
    decreases items@, rem(items@.len(), 1),
{
    let ghost target = diags_view(out@) + fn_body_diags(c@, items@, 1, false, st.frames@);
    let mut saw_arg_vec = false;
    let mut i: usize = 1;
    while i < items.len()
        invariant
            1 <= i,
            target == diags_view(old(out)@) + fn_body_diags(c@, items@, 1, false, st.frames@),
            target == diags_view(out@) + fn_body_diags(
                c@,
                items@,
                i as int,
                saw_arg_vec,
                st.frames@,
            ),
        decreases items.len() - i,
    {
        let ghost before = diags_view(out@);
        let is_symbol = matches!(&items[i], SExp::Symbol(..));
        let is_vector = matches!(&items[i], SExp::Vector(..));
        if !saw_arg_vec && is_symbol {
        } else if !saw_arg_vec && is_vector {
            saw_arg_vec = true;
        } else {
            analyze_form(c, &items[i], st, out);
            proof {
                lemma_assoc(
                    before,
                    form_diags(c@, items@[i as int], st.frames@),
                    fn_body_diags(c@, items@, i + 1, saw_arg_vec, st.frames@),
                );
            }
        }
        i = i + 1;
    }
    proof {
        lemma_add_empty(diags_view(out@));
    }
}

/// The arguments of a UI function call (the stack holds its UI-call frame).
fn analyze_ui_call(
    c: &AnalysisContext,
    items: &Vec<SExp>,
    name: &String,
    st: &ContextStack,
    out: &mut Vec<Diagnostic>,
)
    ensures
        diags_view(final(out)@) == diags_view(old(out)@) + ui_args_diags(
            c@,
            items@,
            1,
            name@,
            st.frames@,
        ),
    decreases items@, rem(items@.len(), 1),
{
    let ghost target = diags_view(out@) + ui_args_diags(c@, items@, 1, name@, st.frames@);
    let mut i: usize = 1;
    while i < items.len()
        invariant
            1 <= i,
            target == diags_view(old(out)@) + ui_args_diags(c@, items@, 1, name@, st.frames@),
            target == diags_view(out@) + ui_args_diags(c@, items@, i as int, name@, st.frames@),
        decreases items.len() - i,
    {
        let ghost before = diags_view(out@);
        match &items[i] {
            SExp::Keyword(k, _) => {
                if i + 1 < items.len() {
                    let kc = chars_of(k.as_str());
                    let key = strip_colon_of(&kc);
                    analyze_keyword_arg(c, &key, &items[i + 1], st, out);
                    proof {
                        lemma_assoc(
                            before,
                            keyword_arg_diags(c@, strip_colon(k@), items@[i + 1], st.frames@),
                            ui_args_diags(c@, items@, i + 2, name@, st.frames@),
                        );
                    }
                    i = i + 2;
                } else {
                    analyze_form(c, &items[i], st, out);
                    proof {
                        lemma_assoc(
                            before,
                            form_diags(c@, items@[i as int], st.frames@),
                            ui_args_diags(c@, items@, i + 1, name@, st.frames@),
                        );
                    }
                    i = i + 1;
                }
            },
            SExp::Str(s, span) => {
                c.report(out, DiagnosticKind::FnArgText, *span, s, Some(name.clone()));
                proof {
                    lemma_assoc(
                        before,
                        report(c@, DiagnosticKind::FnArgText, *span, s@, Some(name@)),
                        ui_args_diags(c@, items@, i + 1, name@, st.frames@),
                    );
                }
                i = i + 1;
            },
            SExp::MapLiteral(kv, _) => {
                analyze_ui_fn_map_arg(c, kv, st, out);
                proof {
                    lemma_assoc(
                        before,
                        ui_map_diags(c@, kv@, 0, st.frames@),
                        ui_args_diags(c@, items@, i + 1, name@, st.frames@),
                    );
                }
                i = i + 1;
            },
            _ => {
                analyze_form(c, &items[i], st, out);
                proof {
                    lemma_assoc(
                        before,
                        form_diags(c@, items@[i as int], st.frames@),
                        ui_args_diags(c@, items@, i + 1, name@, st.frames@),
                    );
                }
                i = i + 1;
            },
        }
    }
    proof {
        lemma_add_empty(diags_view(out@));
    }
}

/// The value of a keyword argument of a UI function call.
fn analyze_keyword_arg(
    c: &AnalysisContext,
    key: &Vec<char>,
    v: &SExp,
    st: &ContextStack,
    out: &mut Vec<Diagnostic>,
)
    ensures
        diags_view(final(out)@) == diags_view(old(out)@) + keyword_arg_diags(
            c@,
            key@,
            *v,
            st.frames@,
        ),
    decreases *v, 1nat,
{
    if c.is_ui_attribute(key) {
        match v {
            SExp::Str(s, span) => {
                c.report(out, DiagnosticKind::FnArgText, *span, s, Some(string_from_chars(key)));
            },
            _ => analyze_form(c, v, st, out),
        }
    } else {
        let non_ui = st.push(FrameKind::FnScope);
        analyze_form(c, v, &non_ui, out);
    }
}


/// A definition form.
fn analyze_def_form(
    c: &AnalysisContext,
    items: &Vec<SExp>,
    head: &String,
    base: &String,
    st: &ContextStack,
    out: &mut Vec<Diagnostic>,
)
    requires
        base@ == last_segment(head@),
    ensures
        diags_view(final(out)@) == diags_view(old(out)@) + def_diags(
            c@,
            items@,
            head@,
            st.frames@,
        ),
    decreases items@, items@.len() + 2,
{
    let def_st = st.push(FrameKind::Def);
    if is_fn_like_def_name(base) {
        let start: usize = if items.len() > 3 && matches!(&items[2], SExp::Str(..)) && (matches!(
            &items[3],
            SExp::Vector(..)
        ) || matches!(&items[3], SExp::List(..))) {
            3
        } else {
            2
        };
        analyze_items(c, items, start, &def_st, out);
    } else {
        let start: usize = if items.len() >= 4 && matches!(&items[2], SExp::Str(..)) && !matches!(
            &items[3],
            SExp::Str(..)
        ) {
            3
        } else {
            2
        };
        analyze_def_values(c, items, start, &def_st, out);
    }
}

/// Values of a plain definition from index `start` on.
fn analyze_def_values(
    c: &AnalysisContext,
    items: &Vec<SExp>,
    start: usize,
    st: &ContextStack,
    out: &mut Vec<Diagnostic>,
)
    ensures
        diags_view(final(out)@) == diags_view(old(out)@) + def_values_diags(
            c@,
            items@,
            start as int,
            st.frames@,
        ),
    decreases items@, rem(items@.len(), start as int),
{
    let ghost target = diags_view(out@) + def_values_diags(c@, items@, start as int, st.frames@);
    let mut i: usize = start;
    while i < items.len()
        invariant
            start <= i,
            target == diags_view(old(out)@) + def_values_diags(
                c@,
                items@,
                start as int,
                st.frames@,
            ),
            target == diags_view(out@) + def_values_diags(c@, items@, i as int, st.frames@),
        decreases items.len() - i,
    {
        let ghost before = diags_view(out@);
        if matches!(&items[i], SExp::Str(..)) {
            proof {
                lemma_add_empty(before);
            }
        } else {
            analyze_form(c, &items[i], st, out);
        }
        proof {
            lemma_assoc(
                before,
                def_value_diags(c@, items@[i as int], st.frames@),
                def_values_diags(c@, items@, i + 1, st.frames@),
            );
        }
        i = i + 1;
    }
    proof {
        lemma_add_empty(diags_view(out@));
    }
}

/// A let-like form.
fn analyze_let_form(
    c: &AnalysisContext,
    items: &Vec<SExp>,
    head: &String,
    st: &ContextStack,
    out: &mut Vec<Diagnostic>,
)
    ensures
        diags_view(final(out)@) == diags_view(old(out)@) + let_diags(
            c@,
            items@,
            head@,
            st.frames@,
        ),
    decreases items@, items@.len() + 2,
{
    let let_st = st.push(FrameKind::Let);
    let kind = if is_conditional_let_name(head) {
        DiagnosticKind::ConditionalText
    } else {
        DiagnosticKind::LetText
    };
    let ui = st.in_ui();
    let ghost before = diags_view(out@);
    let ghost bindings = if items@.len() > 1 {
        let_bindings_diags(c@, items@[1], ui, let_st.frames@)
    } else {
        seq![]
    };
    if items.len() > 1 {
        analyze_let_bindings(c, &items[1], ui, &let_st, out);
    } else {
        proof {
            lemma_add_empty(before);
        }
    }
    analyze_let_body(c, items, kind, head, ui, &let_st, out);
    proof {
        lemma_assoc(
            before,
            bindings,
            let_body_diags(c@, items@, 2, kind, head@, ui, let_st.frames@),
        );
    }
}

/// The binding vector of a let-like form.
fn analyze_let_bindings(
    c: &AnalysisContext,
    x: &SExp,
    ui: bool,
    st: &ContextStack,
    out: &mut Vec<Diagnostic>,
)
    ensures
        diags_view(final(out)@) == diags_view(old(out)@) + let_bindings_diags(
            c@,
            *x,
            ui,
            st.frames@,
        ),
    decreases *x, 1nat,
{
    match x {
        SExp::Vector(b, _) => analyze_bindings(c, b, ui, st, out),
        _ => {
            proof {
                lemma_add_empty(diags_view(out@));
            }
        },
    }
}

/// Binding pairs.
fn analyze_bindings(
    c: &AnalysisContext,
    b: &Vec<SExp>,
    ui: bool,
    st: &ContextStack,
    out: &mut Vec<Diagnostic>,
)
    ensures
        diags_view(final(out)@) == diags_view(old(out)@) + binding_diags(
            c@,
            b@,
            0,
            ui,
            st.frames@,
        ),
    decreases b@, rem(b@.len(), 0),
{
    let ghost target = diags_view(out@) + binding_diags(c@, b@, 0, ui, st.frames@);
    let mut j: usize = 0;
    while j < b.len() && j + 1 < b.len()
        invariant
            j <= b.len(),
            target == diags_view(old(out)@) + binding_diags(c@, b@, 0, ui, st.frames@),
            target == diags_view(out@) + binding_diags(c@, b@, j as int, ui, st.frames@),
        decreases b.len() - j,
    {
        let ghost before = diags_view(out@);
        match &b[j + 1] {
            SExp::Str(s, span) => {
                if ui {
                    c.report(out, DiagnosticKind::LetText, *span, s, None);
                } else {
                    proof {
                        lemma_add_empty(before);
                    }
                }
            },
            other => analyze_form(c, other, st, out),
        }
        proof {
            lemma_assoc(
                before,
                binding_value_diags(c@, b@[j + 1], ui, st.frames@),
                binding_diags(c@, b@, j + 2, ui, st.frames@),
            );
        }
        j = j + 2;
    }
    proof {
        lemma_add_empty(diags_view(out@));
    }
}

/// Body forms of a let-like form.
fn analyze_let_body(
    c: &AnalysisContext,
    items: &Vec<SExp>,
    kind: DiagnosticKind,
    head: &String,
    ui: bool,
    st: &ContextStack,
    out: &mut Vec<Diagnostic>,
)
    ensures
        diags_view(final(out)@) == diags_view(old(out)@) + let_body_diags(
            c@,
            items@,
            2,
            kind,
            head@,
            ui,
            st.frames@,
        ),
    decreases items@, rem(items@.len(), 2),
{
    let ghost target = diags_view(out@) + let_body_diags(c@, items@, 2, kind, head@, ui, st.frames@);
    let mut i: usize = 2;
    while i < items.len()
        invariant
            2 <= i,
            target == diags_view(old(out)@) + let_body_diags(
                c@,
                items@,
                2,
                kind,
                head@,
                ui,
                st.frames@,
            ),
            target == diags_view(out@) + let_body_diags(
                c@,
                items@,
                i as int,
                kind,
                head@,
                ui,
                st.frames@,
            ),
        decreases items.len() - i,
    {
        let ghost before = diags_view(out@);
        match &items[i] {
            SExp::Str(s, span) => {
                if ui {
                    c.report(out, kind, *span, s, Some(head.clone()));
                } else {
                    analyze_form(c, &items[i], st, out);
                }
            },
            _ => analyze_form(c, &items[i], st, out),
        }
        proof {
            lemma_assoc(
                before,
                let_body_item_diags(c@, items@[i as int], kind, head@, ui, st.frames@),
                let_body_diags(c@, items@, i + 1, kind, head@, ui, st.frames@),
            );
        }
        i = i + 1;
    }
    proof {
        lemma_add_empty(diags_view(out@));
    }
}

/// A branch or result position: a literal string is conditional text in a
/// UI context.
fn analyze_result(
    c: &AnalysisContext,
    x: &SExp,
    label: &String,
    ui: bool,
    st: &ContextStack,
    out: &mut Vec<Diagnostic>,
)
    ensures
        diags_view(final(out)@) == diags_view(old(out)@) + result_diags(
            c@,
            *x,
            label@,
            ui,
            st.frames@,
        ),
    decreases *x, 1nat,
{
    match x {
        SExp::Str(s, span) => {
            if ui {
                c.report(out, DiagnosticKind::ConditionalText, *span, s, Some(label.clone()));
            } else {
                proof {
                    lemma_add_empty(diags_view(out@));
                }
            }
        },
        _ => analyze_form(c, x, st, out),
    }
}

/// A conditional form.
fn analyze_conditional_form(
    c: &AnalysisContext,
    items: &Vec<SExp>,
    head: &String,
    st: &ContextStack,
    out: &mut Vec<Diagnostic>,
)
    ensures
        diags_view(final(out)@) == diags_view(old(out)@) + cond_diags(
            c@,
            items@,
            head@,
            st.frames@,
        ),
    decreases items@, items@.len() + 2,
{
    let cond_st = st.push(FrameKind::Conditional);
    let ui = st.in_ui();
    if is_branch_head_name(head) {
        analyze_branches(c, items, head, ui, &cond_st, out);
    } else if text_is(head, "case") {
        if items.len() > 2 {
            let ghost before = diags_view(out@);
            analyze_form(c, &items[1], &cond_st, out);
            analyze_case(c, items, ui, st, out);
            proof {
                lemma_assoc(
                    before,
                    form_diags(c@, items@[1], cond_st.frames@),
                    case_diags(c@, items@, 2, ui, st.frames@),
                );
            }
        } else {
            proof {
                lemma_add_empty(diags_view(out@));
            }
        }
    } else if text_is(head, "cond") || text_is(head, "condp") {
        let start: usize = if text_is(head, "condp") {
            3
        } else {
            1
        };
        analyze_cond_pairs(c, items, start, head, ui, &cond_st, out);
    } else {
        analyze_items(c, items, 1, &cond_st, out);
    }
}

/// Branches of `if`/`when`/`or`....
fn analyze_branches(
    c: &AnalysisContext,
    items: &Vec<SExp>,
    head: &String,
    ui: bool,
    st: &ContextStack,
    out: &mut Vec<Diagnostic>,
)
    ensures
        diags_view(final(out)@) == diags_view(old(out)@) + branch_diags(
            c@,
            items@,
            1,
            head@,
            ui,
            st.frames@,
        ),
    decreases items@, rem(items@.len(), 1),
{
    let ghost target = diags_view(out@) + branch_diags(c@, items@, 1, head@, ui, st.frames@);
    let mut i: usize = 1;
    while i < items.len()
        invariant
            1 <= i,
            target == diags_view(old(out)@) + branch_diags(c@, items@, 1, head@, ui, st.frames@),
            target == diags_view(out@) + branch_diags(c@, items@, i as int, head@, ui, st.frames@),
        decreases items.len() - i,
    {
        let ghost before = diags_view(out@);
        analyze_result(c, &items[i], head, ui, st, out);
        proof {
            lemma_assoc(
                before,
                result_diags(c@, items@[i as int], head@, ui, st.frames@),
                branch_diags(c@, items@, i + 1, head@, ui, st.frames@),
            );
        }
        i = i + 1;
    }
    proof {
        lemma_add_empty(diags_view(out@));
    }
}

/// Whether the item at index `i` of a `case` form is a result.
fn case_result_at(len: usize, i: usize) -> (r: bool)
    requires
        2 <= i < len,
    ensures
        r == is_case_result(len as nat, i as int),
{
    let m = len - 2;
    let k = i - 2;
    if m % 2 == 0 {
        k % 2 == 1
    } else if k == m - 1 {
        true
    } else {
        k % 2 == 1
    }
}

/// Test values and results of a `case` form; `st` is the stack outside it.
fn analyze_case(
    c: &AnalysisContext,
    items: &Vec<SExp>,
    ui: bool,
    st: &ContextStack,
    out: &mut Vec<Diagnostic>,
)
    ensures
        diags_view(final(out)@) == diags_view(old(out)@) + case_diags(
            c@,
            items@,
            2,
            ui,
            st.frames@,
        ),
    decreases items@, rem(items@.len(), 2),
{
    let ghost target = diags_view(out@) + case_diags(c@, items@, 2, ui, st.frames@);
    let cond_st = st.push(FrameKind::Conditional);
    let test_st = st.push(FrameKind::FnScope);
    let label = string_of("case");
    let mut i: usize = 2;
    while i < items.len()
        invariant
            2 <= i,
            cond_st.frames@ == st.frames@.push(FrameKind::Conditional),
            test_st.frames@ == st.frames@.push(FrameKind::FnScope),
            label@ == "case"@,
            target == diags_view(old(out)@) + case_diags(c@, items@, 2, ui, st.frames@),
            target == diags_view(out@) + case_diags(c@, items@, i as int, ui, st.frames@),
        decreases items.len() - i,
    {
        let ghost before = diags_view(out@);
        if case_result_at(items.len(), i) {
            analyze_result(c, &items[i], &label, ui, &cond_st, out);
        } else {
            analyze_form(c, &items[i], &test_st, out);
        }
        proof {
            lemma_assoc(
                before,
                case_item_diags(
                    c@,
                    items@[i as int],
                    is_case_result(items@.len(), i as int),
                    ui,
                    st.frames@,
                ),
                case_diags(c@, items@, i + 1, ui, st.frames@),
            );
        }
        i = i + 1;
    }
    proof {
        lemma_add_empty(diags_view(out@));
    }
}

/// Test/result pairs of `cond`/`condp`, starting at `start`.
fn analyze_cond_pairs(
    c: &AnalysisContext,
    items: &Vec<SExp>,
    start: usize,
    head: &String,
    ui: bool,
    st: &ContextStack,
    out: &mut Vec<Diagnostic>,
)
    ensures
        diags_view(final(out)@) == diags_view(old(out)@) + cond_pairs_diags(
            c@,
            items@,
            start as int,
            start as int,
            head@,
            ui,
            st.frames@,
        ),
    decreases items@, rem(items@.len(), start as int),
{
    let ghost target = diags_view(out@) + cond_pairs_diags(
        c@,
        items@,
        start as int,
        start as int,
        head@,
        ui,
        st.frames@,
    );
    let is_condp = text_is(head, "condp");
    let odd_count = start <= items.len() && (items.len() - start) % 2 == 1;
    let mut i: usize = start;
    while i < items.len()
        invariant
            start <= i,
            is_condp == (head@ == "condp"@),
            odd_count == (start <= items@.len() && (items@.len() - start) % 2 == 1),
            target == diags_view(old(out)@) + cond_pairs_diags(
                c@,
                items@,
                start as int,
                start as int,
                head@,
                ui,
                st.frames@,
            ),
            target == diags_view(out@) + cond_pairs_diags(
                c@,
                items@,
                start as int,
                i as int,
                head@,
                ui,
                st.frames@,
            ),
        decreases items.len() - i,
    {
        let ghost before = diags_view(out@);
        let result = (i - start) % 2 == 1 || (is_condp && odd_count && i + 1 == items.len());
        assert(result == is_cond_result(head@, items@.len(), start as int, i as int));
        if result {
            analyze_result(c, &items[i], head, ui, st, out);
            proof {
                lemma_assoc(
                    before,
                    result_diags(c@, items@[i as int], head@, ui, st.frames@),
                    cond_pairs_diags(c@, items@, start as int, i + 1, head@, ui, st.frames@),
                );
            }
        } else {
            analyze_form(c, &items[i], st, out);
            proof {
                lemma_assoc(
                    before,
                    form_diags(c@, items@[i as int], st.frames@),
                    cond_pairs_diags(c@, items@, start as int, i + 1, head@, ui, st.frames@),
                );
            }
        }
        i = i + 1;
    }
    proof {
        lemma_add_empty(diags_view(out@));
    }
}

/// `(match subject pattern result ...)`.
fn analyze_match_form(
    c: &AnalysisContext,
    items: &Vec<SExp>,
    st: &ContextStack,
    out: &mut Vec<Diagnostic>,
)
    ensures
        diags_view(final(out)@) == diags_view(old(out)@) + match_diags(c@, items@, st.frames@),
    decreases items@, items@.len() + 2,
{
    let ghost before = diags_view(out@);
    let ghost subject = if items@.len() > 1 {
        form_diags(c@, items@[1], st.frames@)
    } else {
        seq![]
    };
    if items.len() > 1 {
        analyze_form(c, &items[1], st, out);
    } else {
        proof {
            lemma_add_empty(before);
        }
    }
    let ui = st.in_ui();
    analyze_match_pairs(c, items, ui, st, out);
    proof {
        lemma_assoc(before, subject, match_pairs_diags(c@, items@, 2, ui, st.frames@));
    }
}

/// Patterns and results of a `match` form; `st` is the stack outside it.
fn analyze_match_pairs(
    c: &AnalysisContext,
    items: &Vec<SExp>,
    ui: bool,
    st: &ContextStack,
    out: &mut Vec<Diagnostic>,
)
    ensures
        diags_view(final(out)@) == diags_view(old(out)@) + match_pairs_diags(
            c@,
            items@,
            2,
            ui,
            st.frames@,
        ),
    decreases items@, rem(items@.len(), 2),
{
    let ghost target = diags_view(out@) + match_pairs_diags(c@, items@, 2, ui, st.frames@);
    let cond_st = st.push(FrameKind::Conditional);
    let pat_st = st.push(FrameKind::FnScope);
    let label = string_of("match");
    let mut i: usize = 2;
    while i < items.len()
        invariant
            2 <= i,
            cond_st.frames@ == st.frames@.push(FrameKind::Conditional),
            pat_st.frames@ == st.frames@.push(FrameKind::FnScope),
            label@ == "match"@,
            target == diags_view(old(out)@) + match_pairs_diags(c@, items@, 2, ui, st.frames@),
            target == diags_view(out@) + match_pairs_diags(c@, items@, i as int, ui, st.frames@),
        decreases items.len() - i,
    {
        let ghost before = diags_view(out@);
        if (i - 2) % 2 == 0 {
            analyze_form(c, &items[i], &pat_st, out);
            proof {
                lemma_assoc(
                    before,
                    form_diags(c@, items@[i as int], pat_st.frames@),
                    match_pairs_diags(c@, items@, i + 1, ui, st.frames@),
                );
            }
        } else {
            analyze_result(c, &items[i], &label, ui, &cond_st, out);
            proof {
                lemma_assoc(
                    before,
                    result_diags(c@, items@[i as int], label@, ui, cond_st.frames@),
                    match_pairs_diags(c@, items@, i + 1, ui, st.frames@),
                );
            }
        }
        i = i + 1;
    }
    proof {
        lemma_add_empty(diags_view(out@));
    }
}

/// A hiccup vector (the stack holds its hiccup frame).
fn analyze_hiccup_vector(
    c: &AnalysisContext,
    items: &Vec<SExp>,
    st: &ContextStack,
    out: &mut Vec<Diagnostic>,
)
    ensures
        diags_view(final(out)@) == diags_view(old(out)@) + hiccup_diags(c@, items@, st.frames@),
    decreases items@, items@.len() + 2,
{
    if items.len() > 1 {
        match &items[1] {
            SExp::MapLiteral(kv, _) => {
                let ghost before = diags_view(out@);
                analyze_hiccup_attrs(c, kv, st, out);
                analyze_hiccup_children(c, items, 2, st, out);
                proof {
                    lemma_assoc(
                        before,
                        hiccup_attrs_diags(c@, kv@, 0, st.frames@),
                        hiccup_children_diags(c@, items@, 2, st.frames@),
                    );
                }
                return;
            },
            _ => {},
        }
    }
    analyze_hiccup_children(c, items, 1, st, out);
}

/// Children of a hiccup vector from index `start` on.
fn analyze_hiccup_children(
    c: &AnalysisContext,
    items: &Vec<SExp>,
    start: usize,
    st: &ContextStack,
    out: &mut Vec<Diagnostic>,
)
    ensures
        diags_view(final(out)@) == diags_view(old(out)@) + hiccup_children_diags(
            c@,
            items@,
            start as int,
            st.frames@,
        ),
    decreases items@, rem(items@.len(), start as int),
{
    let ghost target = diags_view(out@) + hiccup_children_diags(
        c@,
        items@,
        start as int,
        st.frames@,
    );
    let mut i: usize = start;
    while i < items.len()
        invariant
            start <= i,
            target == diags_view(old(out)@) + hiccup_children_diags(
                c@,
                items@,
                start as int,
                st.frames@,
            ),
            target == diags_view(out@) + hiccup_children_diags(c@, items@, i as int, st.frames@),
        decreases items.len() - i,
    {
        let ghost before = diags_view(out@);
        match &items[i] {
            SExp::Str(s, span) => {
                c.report(out, DiagnosticKind::HiccupText, *span, s, None);
            },
            other => analyze_form(c, other, st, out),
        }
        proof {
            lemma_assoc(
                before,
                hiccup_child_diags(c@, items@[i as int], st.frames@),
                hiccup_children_diags(c@, items@, i + 1, st.frames@),
            );
        }
        i = i + 1;
    }
    proof {
        lemma_add_empty(diags_view(out@));
    }
}

/// A value that is not displayed text.
fn analyze_non_text_value(
    c: &AnalysisContext,
    v: &SExp,
    st: &ContextStack,
    out: &mut Vec<Diagnostic>,
)
    ensures
        diags_view(final(out)@) == diags_view(old(out)@) + non_text_value_diags(
            c@,
            *v,
            st.frames@,
        ),
    decreases *v, 1nat,
{
    if matches!(v, SExp::Str(..)) {
        proof {
            lemma_add_empty(diags_view(out@));
        }
    } else {
        let val_st = st.push(FrameKind::FnScope);
        analyze_form(c, v, &val_st, out);
    }
}

/// One attribute of a hiccup vector.
fn analyze_hiccup_attr(
    c: &AnalysisContext,
    k: &SExp,
    v: &SExp,
    st: &ContextStack,
    out: &mut Vec<Diagnostic>,
)
    ensures
        diags_view(final(out)@) == diags_view(old(out)@) + hiccup_attr_diags(
            c@,
            *k,
            *v,
            st.frames@,
        ),
    decreases *v, 2nat,
{
    let key: Option<&String> = match k {
        SExp::Keyword(s, _) => Some(s),
        SExp::Str(s, _) => Some(s),
        _ => None,
    };
    match key {
        Some(name) => {
            let kc = chars_of(name.as_str());
            if c.is_ui_attribute(&kc) {
                match v {
                    SExp::Str(s, span) => {
                        c.report(out, DiagnosticKind::HiccupAttr, *span, s, Some(name.clone()));
                    },
                    _ => analyze_form(c, v, st, out),
                }
            } else {
                analyze_non_text_value(c, v, st, out);
            }
        },
        None => {
            proof {
                lemma_add_empty(diags_view(out@));
            }
        },
    }
}

/// The attribute map of a hiccup vector.
fn analyze_hiccup_attrs(
    c: &AnalysisContext,
    kv: &Vec<SExp>,
    st: &ContextStack,
    out: &mut Vec<Diagnostic>,
)
    ensures
        diags_view(final(out)@) == diags_view(old(out)@) + hiccup_attrs_diags(
            c@,
            kv@,
            0,
            st.frames@,
        ),
    decreases kv@, rem(kv@.len(), 0),
{
    let ghost target = diags_view(out@) + hiccup_attrs_diags(c@, kv@, 0, st.frames@);
    let mut j: usize = 0;
    while j < kv.len() && j + 1 < kv.len()
        invariant
            j <= kv.len(),
            target == diags_view(old(out)@) + hiccup_attrs_diags(c@, kv@, 0, st.frames@),
            target == diags_view(out@) + hiccup_attrs_diags(c@, kv@, j as int, st.frames@),
        decreases kv.len() - j,
    {
        let ghost before = diags_view(out@);
        analyze_hiccup_attr(c, &kv[j], &kv[j + 1], st, out);
        proof {
            lemma_assoc(
                before,
                hiccup_attr_diags(c@, kv@[j as int], kv@[j + 1], st.frames@),
                hiccup_attrs_diags(c@, kv@, j + 2, st.frames@),
            );
        }
        j = j + 2;
    }
    proof {
        lemma_add_empty(diags_view(out@));
    }
}

/// One key/value pair of a map argument of a UI function.
fn analyze_ui_map_pair(
    c: &AnalysisContext,
    k: &SExp,
    v: &SExp,
    st: &ContextStack,
    out: &mut Vec<Diagnostic>,
)
    ensures
        diags_view(final(out)@) == diags_view(old(out)@) + ui_map_pair_diags(
            c@,
            *k,
            *v,
            st.frames@,
        ),
    decreases *v, 2nat,
{
    match k {
        SExp::Keyword(key, _) => {
            let kc = chars_of(key.as_str());
            if c.is_ui_attribute(&kc) {
                match v {
                    SExp::Str(s, span) => {
                        c.report(out, DiagnosticKind::FnArgText, *span, s, Some(key.clone()));
                    },
                    _ => analyze_form(c, v, st, out),
                }
            } else {
                analyze_non_text_value(c, v, st, out);
            }
        },
        _ => analyze_non_text_value(c, v, st, out),
    }
}

/// A map argument of a UI function call.
fn analyze_ui_fn_map_arg(
    c: &AnalysisContext,
    kv: &Vec<SExp>,
    st: &ContextStack,
    out: &mut Vec<Diagnostic>,
)
    ensures
        diags_view(final(out)@) == diags_view(old(out)@) + ui_map_diags(c@, kv@, 0, st.frames@),
    decreases kv@, rem(kv@.len(), 0),
{
    let ghost target = diags_view(out@) + ui_map_diags(c@, kv@, 0, st.frames@);
    let mut j: usize = 0;
    while j < kv.len() && j + 1 < kv.len()
        invariant
            j <= kv.len(),
            target == diags_view(old(out)@) + ui_map_diags(c@, kv@, 0, st.frames@),
            target == diags_view(out@) + ui_map_diags(c@, kv@, j as int, st.frames@),
        decreases kv.len() - j,
    {
        let ghost before = diags_view(out@);
        analyze_ui_map_pair(c, &kv[j], &kv[j + 1], st, out);
        proof {
            lemma_assoc(
                before,
                ui_map_pair_diags(c@, kv@[j as int], kv@[j + 1], st.frames@),
                ui_map_diags(c@, kv@, j + 2, st.frames@),
            );
        }
        j = j + 2;
    }
    proof {
        lemma_add_empty(diags_view(out@));
    }
}

/// A map literal: its values are not displayed text.
fn analyze_map(c: &AnalysisContext, kv: &Vec<SExp>, st: &ContextStack, out: &mut Vec<Diagnostic>)
    ensures
        diags_view(final(out)@) == diags_view(old(out)@) + map_diags(c@, kv@, 0, st.frames@),
    decreases kv@, rem(kv@.len(), 0),
{
    let ghost target = diags_view(out@) + map_diags(c@, kv@, 0, st.frames@);
    let mut j: usize = 0;
    while j < kv.len() && j + 1 < kv.len()
        invariant
            j <= kv.len(),
            target == diags_view(old(out)@) + map_diags(c@, kv@, 0, st.frames@),
            target == diags_view(out@) + map_diags(c@, kv@, j as int, st.frames@),
        decreases kv.len() - j,
    {
        let ghost before = diags_view(out@);
        analyze_non_text_value(c, &kv[j + 1], st, out);
        proof {
            lemma_assoc(
                before,
                non_text_value_diags(c@, kv@[j + 1], st.frames@),
                map_diags(c@, kv@, j + 2, st.frames@),
            );
        }
        j = j + 2;
    }
    proof {
        lemma_add_empty(diags_view(out@));
    }
}

/// Analyze parsed top-level forms of the file at `path`: the diagnostics of
/// each form, in order.
pub fn analyze_source_with_config(forms: &Vec<SExp>, path: &str, config: &AppConfig) -> (r: Vec<
    Diagnostic,
>)
    ensures
        diags_view(r@) == forms_diags(rules_of(path@, *config), forms@),
{
    let c = AnalysisContext::new(path, config);
    let empty = ContextStack::new();
    let mut out: Vec<Diagnostic> = Vec::new();
    let mut i: usize = 0;
    assert(diags_view(out@) =~= Seq::<DiagnosticView>::empty());
    assert(forms@.subrange(0, 0) =~= Seq::<SExp>::empty());
    while i < forms.len()
        invariant
            i <= forms.len(),
            c@ == rules_of(path@, *config),
            empty.frames@ == Seq::<FrameKind>::empty(),
            diags_view(out@) == forms_diags(c@, forms@.subrange(0, i as int)),
        decreases forms.len() - i,
    {
        analyze_form(&c, &forms[i], &empty, &mut out);
        proof {
            let pre = forms@.subrange(0, i + 1);
            assert(pre.drop_last() =~= forms@.subrange(0, i as int));
            assert(pre.last() == forms@[i as int]);
        }
        i = i + 1;
    }
    assert(forms@.subrange(0, i as int) =~= forms@);
    out
}

} // verus!
