//! Which translation keys a syntax tree references, stated as functions of
//! the tree.
//!
//! A key occurrence is the key's text (with its leading `:`) and the line it
//! was found on.  Symbols are resolved through let scopes (innermost first)
//! and then the table of top-level definitions; in each, the entry entered
//! last for a name wins.
use vstd::prelude::*;

use crate::names::{ends_with, prefix_before, starts_with};
use crate::text::lowercase;
use crate::parser::SExp;

verus! {

/// The collector's configuration.
pub struct KeyRules {
    pub i18n_functions: Seq<Seq<char>>,
    pub alert_functions: Seq<Seq<char>>,
    pub ui_functions: Seq<Seq<char>>,
    pub ui_namespaces: Seq<Seq<char>>,
    /// Map attributes whose keyword values are translation keys.
    pub key_attributes: Seq<Seq<char>>,
    /// Only translation calls and key attributes count.
    pub strict: bool,
}

/// Names bound to the keywords of their values.
pub struct Binding {
    pub name: Seq<char>,
    pub keys: Seq<Seq<char>>,
}

/// Where symbols are looked up: let scopes (innermost last) and the table
/// of top-level definitions.
pub struct Env {
    pub table: Seq<Binding>,
    pub scopes: Seq<Seq<Binding>>,
}

/// A key found in the source, with its line.
pub struct Occurrence {
    pub key: Seq<char>,
    pub line: u32,
}

/// The keyword's text with its leading `:`.
pub open spec fn kw(k: Seq<char>) -> Seq<char> {
    seq![':'] + k
}

pub open spec fn occ(key: Seq<char>, line: u32) -> Seq<Occurrence> {
    seq![Occurrence { key, line }]
}

// ---------------------------------------------------------------------------
// Names
// ---------------------------------------------------------------------------
/// `f == name || name.ends_with("/" + f)`.
pub open spec fn calls_function(f: Seq<char>, name: Seq<char>) -> bool {
    f == name || ends_with(name, seq!['/'] + f)
}

pub open spec fn calls_any(list: Seq<Seq<char>>, name: Seq<char>) -> bool {
    exists|i: int| 0 <= i < list.len() && calls_function(#[trigger] list[i], name)
}

pub open spec fn is_ui_fn(r: KeyRules, name: Seq<char>) -> bool {
    calls_any(r.ui_functions, name) || exists|i: int|
        0 <= i < r.ui_namespaces.len() && starts_with(name, #[trigger] r.ui_namespaces[i] + seq!['/'])
}

pub open spec fn is_let_like(n: Seq<char>) -> bool {
    n == "let"@ || n == "when-let"@ || n == "if-let"@ || n == "loop"@
}

pub open spec fn is_branch_form(n: Seq<char>) -> bool {
    n == "if"@ || n == "if-not"@ || n == "when"@ || n == "when-not"@
}

// ---------------------------------------------------------------------------
// Symbol lookup
// ---------------------------------------------------------------------------
/// The keys of the last binding of `name`.
pub open spec fn bindings_lookup(b: Seq<Binding>, name: Seq<char>) -> Option<Seq<Seq<char>>>
    decreases b.len(),
{
    if b.len() == 0 {
        None
    } else if b.last().name == name {
        Some(b.last().keys)
    } else {
        bindings_lookup(b.drop_last(), name)
    }
}

pub open spec fn scopes_lookup(s: Seq<Seq<Binding>>, name: Seq<char>) -> Option<Seq<Seq<char>>>
    decreases s.len(),
{
    if s.len() == 0 {
        None
    } else {
        match bindings_lookup(s.last(), name) {
            Some(k) => Some(k),
            None => scopes_lookup(s.drop_last(), name),
        }
    }
}

pub open spec fn lookup(env: Env, name: Seq<char>) -> Option<Seq<Seq<char>>> {
    match scopes_lookup(env.scopes, name) {
        Some(k) => Some(k),
        None => bindings_lookup(env.table, name),
    }
}

/// Each key of a list, found on `line`.
pub open spec fn at_line(keys: Seq<Seq<char>>, line: u32) -> Seq<Occurrence> {
    keys.map_values(|k: Seq<char>| Occurrence { key: k, line })
}

/// The keys a symbol stands for, found on `line`.
pub open spec fn symbol_keys(env: Env, name: Seq<char>, line: u32) -> Seq<Occurrence> {
    match lookup(env, name) {
        Some(keys) => at_line(keys, line),
        None => seq![],
    }
}

/// Items left from index `i` on.
pub open spec fn left(len: nat, i: int) -> nat {
    if i < len {
        (len - i) as nat
    } else {
        0
    }
}

// ---------------------------------------------------------------------------
// Keywords of a value
// ---------------------------------------------------------------------------
/// The keywords of a value, skipping conditions and case test values.
pub open spec fn walk(e: SExp) -> Seq<Seq<char>>
    decreases e, 0nat,
{
    match e {
        SExp::Keyword(k, _) => seq![kw(k@)],
        SExp::List(items, _) => walk_list(items@),
        SExp::Vector(items, _) => walk_from(items@, 0, 1),
        SExp::SetLiteral(items, _) => walk_from(items@, 0, 1),
        SExp::MapLiteral(items, _) => walk_from(items@, 0, 1),
        SExp::AnonFn(items, _) => walk_from(items@, 0, 1),
        SExp::ReaderConditional(items, _) => walk_from(items@, 0, 1),
        SExp::ReaderConditionalSplicing(items, _) => walk_from(items@, 0, 1),
        SExp::Quote(x, _) => walk(*x),
        SExp::SyntaxQuote(x, _) => walk(*x),
        SExp::Unquote(x, _) => walk(*x),
        SExp::UnquoteSplicing(x, _) => walk(*x),
        SExp::Deref(x, _) => walk(*x),
        SExp::VarQuote(x, _) => walk(*x),
        SExp::Meta(_, x, _) => walk(*x),
        SExp::TaggedLiteral(_, x, _) => walk(*x),
        _ => seq![],
    }
}

/// Keywords of the items at indices `i`, `i + step`, ...
pub open spec fn walk_from(items: Seq<SExp>, i: int, step: int) -> Seq<Seq<char>>
    decreases items, left(items.len(), i),
{
    if step >= 1 && 0 <= i < items.len() {
        walk(items[i]) + walk_from(items, i + step, step)
    } else {
        seq![]
    }
}

/// Whether a `case` form with this many items has a default value.
pub open spec fn has_case_default(len: nat) -> bool {
    len >= 2 && (len - 2) % 2 == 1
}

pub open spec fn walk_list(items: Seq<SExp>) -> Seq<Seq<char>>
    decreases items, items.len() + 1,
{
    if items.len() > 0 && items[0] is Symbol {
        let head = match items[0] {
            SExp::Symbol(h, _) => h@,
            _ => seq![],
        };
        if is_branch_form(head) {
            walk_from(items, 2, 1)
        } else if head == "cond"@ {
            walk_from(items, 2, 2)
        } else if head == "case"@ {
            walk_from(items, 3, 2) + if has_case_default(items.len()) {
                walk(items.last())
            } else {
                seq![]
            }
        } else {
            walk_from(items, 0, 1)
        }
    } else {
        walk_from(items, 0, 1)
    }
}

/// Every keyword of a value, discarded forms included.
pub open spec fn all_keywords(e: SExp) -> Seq<Seq<char>>
    decreases e, 0nat,
{
    match e {
        SExp::Keyword(k, _) => seq![kw(k@)],
        SExp::List(items, _) => all_keywords_from(items@, 0),
        SExp::Vector(items, _) => all_keywords_from(items@, 0),
        SExp::SetLiteral(items, _) => all_keywords_from(items@, 0),
        SExp::MapLiteral(items, _) => all_keywords_from(items@, 0),
        SExp::AnonFn(items, _) => all_keywords_from(items@, 0),
        SExp::ReaderConditional(items, _) => all_keywords_from(items@, 0),
        SExp::ReaderConditionalSplicing(items, _) => all_keywords_from(items@, 0),
        SExp::Quote(x, _) => all_keywords(*x),
        SExp::SyntaxQuote(x, _) => all_keywords(*x),
        SExp::Unquote(x, _) => all_keywords(*x),
        SExp::UnquoteSplicing(x, _) => all_keywords(*x),
        SExp::Deref(x, _) => all_keywords(*x),
        SExp::VarQuote(x, _) => all_keywords(*x),
        SExp::Meta(_, x, _) => all_keywords(*x),
        SExp::TaggedLiteral(_, x, _) => all_keywords(*x),
        SExp::Discard(x, _) => all_keywords(*x),
        _ => seq![],
    }
}

pub open spec fn all_keywords_from(items: Seq<SExp>, i: int) -> Seq<Seq<char>>
    decreases items, left(items.len(), i),
{
    if 0 <= i < items.len() {
        all_keywords(items[i]) + all_keywords_from(items, i + 1)
    } else {
        seq![]
    }
}

// ---------------------------------------------------------------------------
// Pass 1: top-level definitions
// ---------------------------------------------------------------------------
/// The first index from `i` on, before the last item, holding a symbol.
pub open spec fn def_value_index(items: Seq<SExp>, i: int) -> Option<int>
    decreases left(items.len(), i),
{
    if 1 <= i && i + 1 < items.len() {
        if items[i] is Symbol {
            Some(i + 1)
        } else {
            def_value_index(items, i + 1)
        }
    } else {
        None
    }
}

pub open spec fn is_def_or_defonce(f: SExp) -> bool {
    match f {
        SExp::List(items, _) => items@.len() >= 3 && match items@[0] {
            SExp::Symbol(h, _) => h@ == "def"@ || h@ == "defonce"@,
            _ => false,
        },
        _ => false,
    }
}

/// The binding a top-level `(def name value)` form adds, if any.
pub open spec fn def_binding(f: SExp) -> Option<Binding> {
    match f {
        SExp::List(items, _) => if is_def_or_defonce(f) {
            match items@[1] {
                SExp::Symbol(name, _) => match def_value_index(items@, 1) {
                    Some(v) => if walk(items@[v]).len() > 0 {
                        Some(Binding { name: name@, keys: walk(items@[v]) })
                    } else {
                        None
                    },
                    None => None,
                },
                _ => None,
            }
        } else {
            None
        },
        _ => None,
    }
}

/// The table of top-level definitions, in order.
pub open spec fn def_table(forms: Seq<SExp>) -> Seq<Binding>
    decreases forms.len(),
{
    if forms.len() == 0 {
        seq![]
    } else {
        match def_binding(forms.last()) {
            Some(b) => def_table(forms.drop_last()).push(b),
            None => def_table(forms.drop_last()),
        }
    }
}

// ---------------------------------------------------------------------------
// Pass 2: key occurrences
// ---------------------------------------------------------------------------
/// Key occurrences in a form.
pub open spec fn form_keys(r: KeyRules, env: Env, f: SExp) -> Seq<Occurrence>
    decreases f, 0nat,
{
    match f {
        SExp::List(items, _) => if items@.len() > 0 && match items@[0] {
            SExp::Symbol(h, _) => is_let_like(h@),
            _ => false,
        } {
            let_keys(r, env, items@)
        } else {
            call_keys(r, env, items@) + keys_from(r, env, items@, 0)
        },
        SExp::Vector(items, _) => keys_from(r, env, items@, 0),
        SExp::SetLiteral(items, _) => keys_from(r, env, items@, 0),
        SExp::AnonFn(items, _) => keys_from(r, env, items@, 0),
        SExp::ReaderConditional(items, _) => keys_from(r, env, items@, 0),
        SExp::ReaderConditionalSplicing(items, _) => keys_from(r, env, items@, 0),
        SExp::MapLiteral(items, _) => map_keys(r, env, items@, 0) + keys_from(r, env, items@, 0),
        SExp::Quote(x, _) => form_keys(r, env, *x),
        SExp::SyntaxQuote(x, _) => form_keys(r, env, *x),
        SExp::Unquote(x, _) => form_keys(r, env, *x),
        SExp::UnquoteSplicing(x, _) => form_keys(r, env, *x),
        SExp::Deref(x, _) => form_keys(r, env, *x),
        SExp::VarQuote(x, _) => form_keys(r, env, *x),
        SExp::Meta(_, x, _) => form_keys(r, env, *x),
        SExp::Discard(x, _) => form_keys(r, env, *x),
        SExp::TaggedLiteral(_, x, _) => form_keys(r, env, *x),
        _ => seq![],
    }
}

/// Key occurrences in the items from index `i` on.
pub open spec fn keys_from(r: KeyRules, env: Env, items: Seq<SExp>, i: int) -> Seq<Occurrence>
    decreases items, left(items.len(), i),
{
    if 0 <= i < items.len() {
        form_keys(r, env, items[i]) + keys_from(r, env, items, i + 1)
    } else {
        seq![]
    }
}

/// The scope a binding vector opens: each symbol bound to a value with
/// keywords, from pair index `j` on.
pub open spec fn scope_of(b: Seq<SExp>, j: int) -> Seq<Binding>
    decreases left(b.len(), j),
{
    if 0 <= j && j + 1 < b.len() {
        let here = match b[j] {
            SExp::Symbol(name, _) => if walk(b[j + 1]).len() > 0 {
                seq![Binding { name: name@, keys: walk(b[j + 1]) }]
            } else {
                seq![]
            },
            _ => seq![],
        };
        here + scope_of(b, j + 2)
    } else {
        seq![]
    }
}

/// Key occurrences in the binding values from pair index `j` on.
pub open spec fn binding_value_keys(r: KeyRules, env: Env, b: Seq<SExp>, j: int) -> Seq<
    Occurrence,
>
    decreases b, left(b.len(), j),
{
    if 0 <= j && j + 1 < b.len() {
        form_keys(r, env, b[j + 1]) + binding_value_keys(r, env, b, j + 2)
    } else {
        seq![]
    }
}

pub open spec fn binding_vector(items: Seq<SExp>) -> Seq<SExp> {
    if items.len() > 1 {
        match items[1] {
            SExp::Vector(b, _) => b@,
            _ => seq![],
        }
    } else {
        seq![]
    }
}

/// A let-like form: binding values are read in the enclosing scope, the
/// body inside the new scope.
pub open spec fn let_keys(r: KeyRules, env: Env, items: Seq<SExp>) -> Seq<Occurrence>
    decreases items, items.len() + 3,
{
    let inner = Env { table: env.table, scopes: env.scopes.push(scope_of(binding_vector(items), 0)) };
    (if items.len() > 1 {
        binding_keys_of(r, env, items[1])
    } else {
        seq![]
    }) + keys_from(r, inner, items, 2)
}

pub open spec fn binding_keys_of(r: KeyRules, env: Env, x: SExp) -> Seq<Occurrence>
    decreases x, 1nat,
{
    match x {
        SExp::Vector(b, _) => binding_value_keys(r, env, b@, 0),
        _ => seq![],
    }
}

/// The first keyword argument from index `i` on.
pub open spec fn first_keyword(items: Seq<SExp>, i: int) -> Seq<Occurrence>
    decreases left(items.len(), i),
{
    if 0 <= i < items.len() {
        match items[i] {
            SExp::Keyword(k, span) => occ(kw(k@), span.line),
            _ => first_keyword(items, i + 1),
        }
    } else {
        seq![]
    }
}

/// Every keyword argument from index `i` on.
pub open spec fn keyword_args(items: Seq<SExp>, i: int) -> Seq<Occurrence>
    decreases left(items.len(), i),
{
    if 0 <= i < items.len() {
        let here = match items[i] {
            SExp::Keyword(k, span) => occ(kw(k@), span.line),
            _ => seq![],
        };
        here + keyword_args(items, i + 1)
    } else {
        seq![]
    }
}

/// A translation call's argument: a keyword, a symbol, or a conditional.
pub open spec fn key_arg(r: KeyRules, env: Env, x: SExp) -> Seq<Occurrence>
    decreases x, 1nat,
{
    match x {
        SExp::Keyword(k, span) => occ(kw(k@), span.line),
        SExp::Symbol(s, span) => symbol_keys(env, s@, span.line),
        SExp::List(inner, _) => cond_keys(r, env, inner@),
        _ => seq![],
    }
}

/// Keys a list contributes by its head: a translation call, an alert call
/// (its first keyword) or a UI call (its keywords).
pub open spec fn call_keys(r: KeyRules, env: Env, items: Seq<SExp>) -> Seq<Occurrence>
    decreases items, items.len() + 2,
{
    if items.len() > 0 {
        match items[0] {
            SExp::Symbol(h, _) => if calls_any(r.i18n_functions, h@) {
                if items.len() >= 2 {
                    key_arg(r, env, items[1])
                } else {
                    seq![]
                }
            } else if !r.strict && calls_any(r.alert_functions, h@) {
                first_keyword(items, 1)
            } else if !r.strict && is_ui_fn(r, h@) {
                keyword_args(items, 1)
            } else {
                seq![]
            },
            _ => seq![],
        }
    } else {
        seq![]
    }
}

/// Keys in the value positions of a conditional inside a translation call.
pub open spec fn cond_keys(r: KeyRules, env: Env, items: Seq<SExp>) -> Seq<Occurrence>
    decreases items, items.len() + 2,
{
    if items.len() > 0 && items[0] is Symbol {
        let head = match items[0] {
            SExp::Symbol(h, _) => h@,
            _ => seq![],
        };
        if is_branch_form(head) {
            args_keys(r, env, items, 2, 1)
        } else if head == "or"@ {
            args_keys(r, env, items, 1, 1)
        } else if head == "cond"@ {
            args_keys(r, env, items, 2, 2)
        } else if head == "case"@ {
            args_keys(r, env, items, 3, 2) + if has_case_default(items.len()) {
                key_arg(r, env, items.last())
            } else {
                seq![]
            }
        } else if head == "keyword"@ {
            keyword_call_keys(items)
        } else {
            seq![]
        }
    } else {
        seq![]
    }
}

/// `key_arg` of the items at indices `i`, `i + step`, ...
pub open spec fn args_keys(r: KeyRules, env: Env, items: Seq<SExp>, i: int, step: int) -> Seq<
    Occurrence,
>
    decreases items, left(items.len(), i),
{
    if step >= 1 && 0 <= i < items.len() {
        key_arg(r, env, items[i]) + args_keys(r, env, items, i + step, step)
    } else {
        seq![]
    }
}

/// `(keyword "ns" "name")` stands for the key `:ns/name`.
pub open spec fn keyword_call_keys(items: Seq<SExp>) -> Seq<Occurrence> {
    if items.len() >= 3 {
        match (items[1], items[2]) {
            (SExp::Str(ns, _), SExp::Str(name, _)) => {
                let line = match items[0] {
                    SExp::Symbol(_, span) => span.line,
                    _ => 0,
                };
                occ(kw(ns@ + seq!['/'] + name@), line)
            },
            _ => seq![],
        }
    } else {
        seq![]
    }
}

/// Key attributes of a map literal, pairs from index `i` on.
pub open spec fn map_keys(r: KeyRules, env: Env, items: Seq<SExp>, i: int) -> Seq<Occurrence>
    decreases items, left(items.len(), i),
{
    if 0 <= i && i + 1 < items.len() {
        let here = match items[i] {
            SExp::Keyword(k, _) => if r.key_attributes.contains(k@) {
                key_arg(r, env, items[i + 1])
            } else {
                seq![]
            },
            _ => seq![],
        };
        here + map_keys(r, env, items, i + 2)
    } else {
        seq![]
    }
}

/// Key occurrences in the top-level forms, in order.
pub open spec fn forms_keys(r: KeyRules, table: Seq<Binding>, forms: Seq<SExp>) -> Seq<Occurrence>
    decreases forms.len(),
{
    if forms.len() == 0 {
        seq![]
    } else {
        forms_keys(r, table, forms.drop_last()) + form_keys(
            r,
            Env { table, scopes: seq![] },
            forms.last(),
        )
    }
}

/// The keys of a file, each once, in order of first occurrence, with the
/// line of that occurrence.
pub open spec fn first_occurrences(o: Seq<Occurrence>) -> Seq<Occurrence>
    decreases o.len(),
{
    if o.len() == 0 {
        seq![]
    } else {
        let prev = first_occurrences(o.drop_last());
        if (exists|i: int| 0 <= i < prev.len() && #[trigger] prev[i].key == o.last().key) {
            prev
        } else {
            prev.push(o.last())
        }
    }
}


// ---------------------------------------------------------------------------
// Built-in db-ident keys
// ---------------------------------------------------------------------------
/// The text without one trailing `?`.
pub open spec fn strip_question(s: Seq<char>) -> Seq<char> {
    if s.len() > 0 && s.last() == '?' {
        s.drop_last()
    } else {
        s
    }
}

/// The translation key of a built-in db-ident keyword (`:ns/name`), if it
/// has one:
/// `:logseq.class/Name` gives `:class.built-in/name` (lowercased);
/// `:logseq.property/name?` gives `:property.built-in/name`;
/// `:logseq.property/status.doing` gives `:property.status/doing`;
/// `:logseq.property.sub/name` gives `:property.built-in/sub-name`;
/// `:logseq.property.sub/name.choice` gives `:property.sub-name/choice`;
/// `:block/name?` gives `:property.built-in/name`.
pub open spec fn db_ident_key(keyword: Seq<char>) -> Option<Seq<char>> {
    if !(keyword.len() > 0 && keyword[0] == ':') {
        None
    } else {
        let k = keyword.skip(1);
        if !k.contains('/') {
            None
        } else {
            let ns = prefix_before(k, '/');
            let name = k.skip(ns.len() + 1int);
            if ns == "logseq.class"@ {
                Some(":class.built-in/"@ + lowercase(name))
            } else if ns == "logseq.property"@ || starts_with(ns, "logseq.property."@) {
                let clean = strip_question(name);
                let sub: Option<Seq<char>> = if ns == "logseq.property"@ {
                    None
                } else {
                    Some(ns.skip(16))
                };
                if clean.contains('.') {
                    let prop = prefix_before(clean, '.');
                    let choice = clean.skip(prop.len() + 1int);
                    let subdomain = match sub {
                        Some(s) => s + "-"@ + prop,
                        None => prop,
                    };
                    Some(":property."@ + subdomain + "/"@ + choice)
                } else {
                    match sub {
                        Some(s) => Some(":property.built-in/"@ + s + "-"@ + clean),
                        None => Some(":property.built-in/"@ + clean),
                    }
                }
            } else if ns == "block"@ {
                Some(":property.built-in/"@ + strip_question(name))
            } else {
                None
            }
        }
    }
}

/// The keys of the keywords that have one, in order.
pub open spec fn db_ident_keys(kws: Seq<Seq<char>>) -> Seq<Seq<char>>
    decreases kws.len(),
{
    if kws.len() == 0 {
        seq![]
    } else {
        let prev = db_ident_keys(kws.drop_last());
        match db_ident_key(kws.last()) {
            Some(k) => prev.push(k),
            None => prev,
        }
    }
}

/// The name a definition's name position holds: a symbol, possibly under
/// metadata (`^:private name`).
pub open spec fn def_name_of(x: SExp) -> Option<Seq<char>>
    decreases x,
{
    match x {
        SExp::Symbol(n, _) => Some(n@),
        SExp::Meta(_, t, _) => def_name_of(*t),
        _ => None,
    }
}

/// The first index from `i` on holding a name (a symbol, possibly under
/// metadata).
pub open spec fn first_name_index(items: Seq<SExp>, i: int) -> Option<int>
    decreases left(items.len(), i),
{
    if 0 <= i < items.len() {
        if def_name_of(items[i]) is Some {
            Some(i)
        } else {
            first_name_index(items, i + 1)
        }
    } else {
        None
    }
}

/// Whether the form is `(def name ...)` or `(defonce name ...)` (with
/// metadata allowed before or on the name) for the given name.
pub open spec fn defines_name(f: SExp, name: Seq<char>) -> bool {
    is_def_or_defonce(f) && match f {
        SExp::List(items, _) => match first_name_index(items@, 1) {
            Some(j) => def_name_of(items@[j]) == Some(name),
            None => false,
        },
        _ => false,
    }
}

/// The value of the first top-level definition of `name` from form `i` on:
/// the item after its name, if there is one.
pub open spec fn named_def_value(forms: Seq<SExp>, name: Seq<char>, i: int) -> Option<SExp>
    decreases left(forms.len(), i),
{
    if 0 <= i < forms.len() {
        if defines_name(forms[i], name) {
            match forms[i] {
                SExp::List(items, _) => match first_name_index(items@, 1) {
                    Some(j) => if j + 1 < items@.len() {
                        Some(items@[j + 1])
                    } else {
                        None
                    },
                    None => None,
                },
                _ => None,
            }
        } else {
            named_def_value(forms, name, i + 1)
        }
    } else {
        None
    }
}

/// Every keyword of the forms from index `i` on.
pub open spec fn forms_all_keywords(forms: Seq<SExp>, i: int) -> Seq<Seq<char>>
    decreases left(forms.len(), i),
{
    if 0 <= i < forms.len() {
        all_keywords(forms[i]) + forms_all_keywords(forms, i + 1)
    } else {
        seq![]
    }
}

/// The keys derived from a db-ident definition: the keywords of the named
/// definition's value, or of the whole file when it has no such definition.
pub open spec fn db_ident_file_keys(forms: Seq<SExp>, def_name: Seq<char>) -> Seq<Seq<char>> {
    match named_def_value(forms, def_name, 0) {
        Some(v) => db_ident_keys(all_keywords(v)),
        None => db_ident_keys(forms_all_keywords(forms, 0)),
    }
}

} // verus!
