//! Collection of the translation keys a source file references.
use vstd::prelude::*;
use vstd::string::StringExecFns;

use crate::analyzer::clone_strings;
use crate::config::AppConfig;
use crate::key_model::{
    all_keywords, all_keywords_from, args_keys, at_line, binding_keys_of, binding_value_keys,
    binding_vector, bindings_lookup, call_keys, calls_any, calls_function, cond_keys,
    def_binding, def_table, def_value_index, first_keyword, first_occurrences, form_keys,
    forms_keys, has_case_default, is_branch_form, is_def_or_defonce, is_let_like, is_ui_fn,
    key_arg, keys_from, keyword_args, keyword_call_keys, kw, left, let_keys, lookup, map_keys,
    occ, scope_of, scopes_lookup, symbol_keys, walk, walk_from, walk_list, Binding, Env,
    KeyRules, Occurrence, db_ident_key, db_ident_keys, db_ident_file_keys, defines_name,
    def_name_of, first_name_index, forms_all_keywords, named_def_value, strip_question,
};
use crate::analyzer::opt_text;
use crate::names::{
    chars_equal, copy_range, ends_with, ends_with_chars, index_of_char, lemma_concat_assoc,
    lemma_concat_empty, prefix_before, starts_with, starts_with_chars, texts,
};
use crate::parser::{text_is, SExp};
use crate::text::{chars_of, string_from_chars, string_of, to_lowercase};

verus! {

/// A key found in a file and the line of its first occurrence.
#[derive(Debug)]
pub struct KeyOccurrence {
    pub key: String,
    pub line: u32,
}

impl View for KeyOccurrence {
    type V = Occurrence;

    open spec fn view(&self) -> Occurrence {
        Occurrence { key: self.key@, line: self.line }
    }
}

pub open spec fn occs_view(v: Seq<KeyOccurrence>) -> Seq<Occurrence> {
    v.map_values(|o: KeyOccurrence| o@)
}

/// A name bound to the keywords of its value.
pub struct BindingEntry {
    pub name: String,
    pub keys: Vec<String>,
}

impl View for BindingEntry {
    type V = Binding;

    open spec fn view(&self) -> Binding {
        Binding { name: self.name@, keys: texts(self.keys@) }
    }
}

pub open spec fn entries_view(v: Seq<BindingEntry>) -> Seq<Binding> {
    v.map_values(|e: BindingEntry| e@)
}

pub open spec fn scopes_view(s: Seq<Vec<BindingEntry>>) -> Seq<Seq<Binding>> {
    s.map_values(|v: Vec<BindingEntry>| entries_view(v@))
}

pub open spec fn env_of(table: Seq<BindingEntry>, scopes: Seq<Vec<BindingEntry>>) -> Env {
    Env { table: entries_view(table), scopes: scopes_view(scopes) }
}

/// The configured names the collector looks for.
pub struct KeyCollector {
    pub i18n_functions: Vec<String>,
    pub alert_functions: Vec<String>,
    pub ui_functions: Vec<String>,
    pub ui_namespaces: Vec<String>,
    /// Map attributes whose keyword values are translation keys.
    pub all_key_attributes: Vec<String>,
    /// Only translation calls and key attributes count.
    pub skip_ambient_collection: bool,
}

impl View for KeyCollector {
    type V = KeyRules;

    open spec fn view(&self) -> KeyRules {
        KeyRules {
            i18n_functions: texts(self.i18n_functions@),
            alert_functions: texts(self.alert_functions@),
            ui_functions: texts(self.ui_functions@),
            ui_namespaces: texts(self.ui_namespaces@),
            key_attributes: texts(self.all_key_attributes@),
            strict: self.skip_ambient_collection,
        }
    }
}

/// `acc` followed by each attribute of `more` it does not hold yet.
pub open spec fn merge_attributes(acc: Seq<Seq<char>>, more: Seq<Seq<char>>) -> Seq<Seq<char>>
    decreases more.len(),
{
    if more.len() == 0 {
        acc
    } else {
        let prev = merge_attributes(acc, more.drop_last());
        if prev.contains(more.last()) {
            prev
        } else {
            prev.push(more.last())
        }
    }
}

/// The collector's rules for `config`: in strict mode only translation
/// functions and translation key attributes count.
pub open spec fn key_rules_of(config: AppConfig, strict: bool) -> KeyRules {
    KeyRules {
        i18n_functions: texts(config.i18n_functions@),
        alert_functions: texts(config.alert_functions@),
        ui_functions: texts(config.ui_functions@),
        ui_namespaces: texts(config.ui_namespaces@),
        key_attributes: if strict {
            texts(config.check_keys.translation_key_attributes@)
        } else {
            merge_attributes(
                texts(config.check_keys.translation_key_attributes@),
                texts(config.ui_attributes@),
            )
        },
        strict,
    }
}

proof fn lemma_occs_push(v: Seq<KeyOccurrence>, o: KeyOccurrence)
    ensures
        occs_view(v.push(o)) == occs_view(v).push(o@),
{
    assert(occs_view(v.push(o)) =~= occs_view(v).push(o@));
}

/// True when the list holds the text.
fn holds_text(list: &Vec<String>, t: &String) -> (r: bool)
    ensures
        r == texts(list@).contains(t@),
{
    crate::analyzer::contains_text(list, t)
}

impl KeyCollector {
    /// The collector for `config`; `strict` limits it to translation calls
    /// and translation key attributes.
    pub fn new(config: &AppConfig, strict: bool) -> (r: KeyCollector)
        ensures
            r@ == key_rules_of(*config, strict),
    {
        let mut attrs = clone_strings(&config.check_keys.translation_key_attributes);
        if !strict {
            let extra = &config.ui_attributes;
            let mut i: usize = 0;
            while i < extra.len()
                invariant
                    i <= extra.len(),
                    texts(attrs@) == merge_attributes(
                        texts(config.check_keys.translation_key_attributes@),
                        texts(extra@.subrange(0, i as int)),
                    ),
                decreases extra.len() - i,
            {
                proof {
                    let sub = texts(extra@.subrange(0, i + 1));
                    assert(sub.drop_last() =~= texts(extra@.subrange(0, i as int)));
                    assert(sub.last() == extra@[i as int]@);
                }
                let ghost prev = attrs@;
                if !holds_text(&attrs, &extra[i]) {
                    let a = extra[i].clone();
                    attrs.push(a);
                    assert(texts(attrs@) =~= texts(prev).push(extra@[i as int]@));
                }
                i = i + 1;
            }
            assert(extra@.subrange(0, i as int) =~= extra@);
        }
        KeyCollector {
            i18n_functions: clone_strings(&config.i18n_functions),
            alert_functions: clone_strings(&config.alert_functions),
            ui_functions: clone_strings(&config.ui_functions),
            ui_namespaces: clone_strings(&config.ui_namespaces),
            all_key_attributes: attrs,
            skip_ambient_collection: strict,
        }
    }

    fn calls_any_of(list: &Vec<String>, name: &Vec<char>) -> (r: bool)
        ensures
            r == calls_any(texts(list@), name@),
    {
        let mut i: usize = 0;
        while i < list.len()
            invariant
                i <= list.len(),
                forall|j: int| 0 <= j < i ==> !calls_function(#[trigger] texts(list@)[j], name@),
            decreases list.len() - i,
        {
            let f = chars_of(list[i].as_str());
            let mut suffix: Vec<char> = Vec::new();
            suffix.push('/');
            let mut k: usize = 0;
            while k < f.len()
                invariant
                    k <= f.len(),
                    suffix@ == seq!['/'] + f@.subrange(0, k as int),
                decreases f.len() - k,
            {
                suffix.push(f[k]);
                k = k + 1;
                assert(suffix@ =~= seq!['/'] + f@.subrange(0, k as int));
            }
            assert(f@.subrange(0, k as int) =~= f@);
            if chars_equal(&f, name) || ends_with_chars(name, &suffix) {
                assert(calls_function(texts(list@)[i as int], name@));
                return true;
            }
            i = i + 1;
        }
        false
    }

    fn is_ui_fn(&self, name: &Vec<char>) -> (r: bool)
        ensures
            r == is_ui_fn(self@, name@),
    {
        if Self::calls_any_of(&self.ui_functions, name) {
            return true;
        }
        let mut i: usize = 0;
        while i < self.ui_namespaces.len()
            invariant
                i <= self.ui_namespaces.len(),
                forall|j: int|
                    0 <= j < i ==> !starts_with(
                        name@,
                        #[trigger] texts(self.ui_namespaces@)[j] + seq!['/'],
                    ),
            decreases self.ui_namespaces.len() - i,
        {
            let mut p = chars_of(self.ui_namespaces[i].as_str());
            p.push('/');
            if starts_with_chars(name, &p) {
                assert(texts(self.ui_namespaces@)[i as int] + seq!['/'] =~= p@);
                assert(starts_with(name@, self@.ui_namespaces[i as int] + seq!['/']));
                return true;
            }
            assert(texts(self.ui_namespaces@)[i as int] + seq!['/'] =~= p@);
            i = i + 1;
        }
        false
    }
}

/// The keyword's text with its leading `:`.
pub(crate) fn keyword_text(k: &String) -> (r: String)
    ensures
        r@ == kw(k@),
{
    let mut r = string_of(":");
    proof {
        reveal_strlit(":");
    }
    r.append(k.as_str());
    r
}

/// Append the keywords of a value, skipping conditions and case tests.
fn walk_keywords(e: &SExp, out: &mut Vec<String>)
    ensures
        texts(final(out)@) == texts(old(out)@) + walk(*e),
    decreases *e, 0nat,
{
    proof {
        lemma_concat_empty(texts(out@));
    }
    match e {
        SExp::Keyword(k, _) => {
            let t = keyword_text(k);
            out.push(t);
            assert(texts(out@) =~= texts(old(out)@) + seq![kw(k@)]);
        },
        SExp::List(items, _) => walk_list_keywords(items, out),
        SExp::Vector(items, _)
        | SExp::SetLiteral(items, _)
        | SExp::MapLiteral(items, _)
        | SExp::AnonFn(items, _)
        | SExp::ReaderConditional(items, _)
        | SExp::ReaderConditionalSplicing(items, _) => walk_keywords_from(items, 0, 1, out),
        SExp::Quote(x, _)
        | SExp::SyntaxQuote(x, _)
        | SExp::Unquote(x, _)
        | SExp::UnquoteSplicing(x, _)
        | SExp::Deref(x, _)
        | SExp::VarQuote(x, _)
        | SExp::Meta(_, x, _)
        | SExp::TaggedLiteral(_, x, _) => walk_keywords(x, out),
        _ => {},
    }
}

fn walk_keywords_from(items: &Vec<SExp>, start: usize, step: usize, out: &mut Vec<String>)
    requires
        step >= 1,
    ensures
        texts(final(out)@) == texts(old(out)@) + walk_from(items@, start as int, step as int),
    decreases items@, left(items@.len(), start as int),
{
    let ghost target = texts(out@) + walk_from(items@, start as int, step as int);
    let mut i: usize = start;
    while i < items.len()
        invariant
            step >= 1,
            start <= i,
            target == texts(old(out)@) + walk_from(items@, start as int, step as int),
            target == texts(out@) + walk_from(items@, i as int, step as int),
        decreases items.len() - i,
    {
        let ghost before = texts(out@);
        walk_keywords(&items[i], out);
        proof {
            lemma_concat_assoc(
                before,
                walk(items@[i as int]),
                walk_from(items@, i + step, step as int),
            );
        }
        if items.len() - i <= step {
            proof {
                lemma_concat_empty(texts(out@));
            }
            return;
        }
        i = i + step;
    }
    proof {
        lemma_concat_empty(texts(out@));
    }
}

fn walk_list_keywords(items: &Vec<SExp>, out: &mut Vec<String>)
    ensures
        texts(final(out)@) == texts(old(out)@) + walk_list(items@),
    decreases items@, items@.len() + 1,
{
    if items.len() > 0 {
        match &items[0] {
            SExp::Symbol(head, _) => {
                if text_is(head, "if") || text_is(head, "if-not") || text_is(head, "when")
                    || text_is(head, "when-not") {
                    walk_keywords_from(items, 2, 1, out);
                    return;
                } else if text_is(head, "cond") {
                    walk_keywords_from(items, 2, 2, out);
                    return;
                } else if text_is(head, "case") {
                    let ghost before = texts(out@);
                    walk_keywords_from(items, 3, 2, out);
                    if items.len() >= 2 && (items.len() - 2) % 2 == 1 {
                        let ghost mid = texts(out@);
                        walk_keywords(&items[items.len() - 1], out);
                        proof {
                            lemma_concat_assoc(
                                before,
                                walk_from(items@, 3, 2),
                                walk(items@.last()),
                            );
                        }
                    } else {
                        proof {
                            lemma_concat_empty(walk_from(items@, 3, 2));
                        }
                    }
                    return;
                }
            },
            _ => {},
        }
    }
    walk_keywords_from(items, 0, 1, out);
}

/// The keywords of a value (conditions and case tests skipped).
fn extract_keywords_from_expr(e: &SExp) -> (r: Vec<String>)
    ensures
        texts(r@) == walk(*e),
{
    let mut r: Vec<String> = Vec::new();
    assert(texts(r@) =~= Seq::<Seq<char>>::empty());
    walk_keywords(e, &mut r);
    r
}

/// Append every keyword of a value, discarded forms included.
fn extract_all_keywords(e: &SExp, out: &mut Vec<String>)
    ensures
        texts(final(out)@) == texts(old(out)@) + all_keywords(*e),
    decreases *e, 0nat,
{
    proof {
        lemma_concat_empty(texts(out@));
    }
    match e {
        SExp::Keyword(k, _) => {
            let t = keyword_text(k);
            out.push(t);
            assert(texts(out@) =~= texts(old(out)@) + seq![kw(k@)]);
        },
        SExp::List(items, _)
        | SExp::Vector(items, _)
        | SExp::SetLiteral(items, _)
        | SExp::MapLiteral(items, _)
        | SExp::AnonFn(items, _)
        | SExp::ReaderConditional(items, _)
        | SExp::ReaderConditionalSplicing(items, _) => extract_all_keywords_from(items, out),
        SExp::Quote(x, _)
        | SExp::SyntaxQuote(x, _)
        | SExp::Unquote(x, _)
        | SExp::UnquoteSplicing(x, _)
        | SExp::Deref(x, _)
        | SExp::VarQuote(x, _)
        | SExp::Meta(_, x, _)
        | SExp::TaggedLiteral(_, x, _)
        | SExp::Discard(x, _) => extract_all_keywords(x, out),
        _ => {},
    }
}

fn extract_all_keywords_from(items: &Vec<SExp>, out: &mut Vec<String>)
    ensures
        texts(final(out)@) == texts(old(out)@) + all_keywords_from(items@, 0),
    decreases items@, left(items@.len(), 0),
{
    let ghost target = texts(out@) + all_keywords_from(items@, 0);
    let mut i: usize = 0;
    while i < items.len()
        invariant
            target == texts(old(out)@) + all_keywords_from(items@, 0),
            target == texts(out@) + all_keywords_from(items@, i as int),
        decreases items.len() - i,
    {
        let ghost before = texts(out@);
        extract_all_keywords(&items[i], out);
        proof {
            lemma_concat_assoc(
                before,
                all_keywords(items@[i as int]),
                all_keywords_from(items@, i + 1),
            );
        }
        i = i + 1;
    }
    proof {
        lemma_concat_empty(texts(out@));
    }
}


/// The index of the last binding of `name`.
fn find_binding(b: &Vec<BindingEntry>, name: &String) -> (r: Option<usize>)
    ensures
        match r {
            Some(i) => i < b@.len() && bindings_lookup(entries_view(b@), name@) == Some(
                texts(b@[i as int].keys@),
            ),
            None => bindings_lookup(entries_view(b@), name@) is None,
        },
{
    let mut i: usize = b.len();
    assert(b@.subrange(0, i as int) =~= b@);
    while i > 0
        invariant
            i <= b.len(),
            bindings_lookup(entries_view(b@), name@) == bindings_lookup(
                entries_view(b@.subrange(0, i as int)),
                name@,
            ),
        decreases i,
    {
        let ghost sub = entries_view(b@.subrange(0, i as int));
        assert(sub.last() == b@[i - 1]@);
        if b[i - 1].name == *name {
            return Some(i - 1);
        }
        assert(sub.drop_last() =~= entries_view(b@.subrange(0, i - 1)));
        i = i - 1;
    }
    None
}

/// The keys a symbol stands for: in the let scopes, innermost first, then in
/// the table of definitions.
fn lookup_symbol(table: &Vec<BindingEntry>, scopes: &Vec<Vec<BindingEntry>>, name: &String) -> (r:
    Option<Vec<String>>)
    ensures
        match r {
            Some(k) => lookup(env_of(table@, scopes@), name@) == Some(texts(k@)),
            None => lookup(env_of(table@, scopes@), name@) is None,
        },
{
    let mut i: usize = scopes.len();
    assert(scopes@.subrange(0, i as int) =~= scopes@);
    while i > 0
        invariant
            i <= scopes.len(),
            scopes_lookup(scopes_view(scopes@), name@) == scopes_lookup(
                scopes_view(scopes@.subrange(0, i as int)),
                name@,
            ),
        decreases i,
    {
        let ghost sub = scopes_view(scopes@.subrange(0, i as int));
        assert(sub.last() == entries_view(scopes@[i - 1]@));
        match find_binding(&scopes[i - 1], name) {
            Some(j) => {
                return Some(clone_strings(&scopes[i - 1][j].keys));
            },
            None => {},
        }
        assert(sub.drop_last() =~= scopes_view(scopes@.subrange(0, i - 1)));
        i = i - 1;
    }
    assert(scopes_view(scopes@.subrange(0, 0)) =~= Seq::<Seq<Binding>>::empty());
    match find_binding(table, name) {
        Some(j) => Some(clone_strings(&table[j].keys)),
        None => None,
    }
}

/// Append each key, found on `line`.
fn push_at_line(keys: &Vec<String>, line: u32, out: &mut Vec<KeyOccurrence>)
    ensures
        occs_view(final(out)@) == occs_view(old(out)@) + at_line(texts(keys@), line),
{
    let mut i: usize = 0;
    while i < keys.len()
        invariant
            i <= keys.len(),
            occs_view(out@) == occs_view(old(out)@) + at_line(
                texts(keys@.subrange(0, i as int)),
                line,
            ),
        decreases keys.len() - i,
    {
        let o = KeyOccurrence { key: keys[i].clone(), line };
        proof {
            lemma_occs_push(out@, o);
        }
        out.push(o);
        i = i + 1;
        assert(at_line(texts(keys@.subrange(0, i as int)), line) =~= at_line(
            texts(keys@.subrange(0, i - 1)),
            line,
        ).push(o@));
    }
    assert(keys@.subrange(0, i as int) =~= keys@);
}

fn push_symbol_keys(
    table: &Vec<BindingEntry>,
    scopes: &Vec<Vec<BindingEntry>>,
    name: &String,
    line: u32,
    out: &mut Vec<KeyOccurrence>,
)
    ensures
        occs_view(final(out)@) == occs_view(old(out)@) + symbol_keys(
            env_of(table@, scopes@),
            name@,
            line,
        ),
{
    match lookup_symbol(table, scopes, name) {
        Some(keys) => push_at_line(&keys, line, out),
        None => {
            proof {
                lemma_concat_empty(occs_view(out@));
            }
        },
    }
}

fn push_keyword(k: &String, line: u32, out: &mut Vec<KeyOccurrence>)
    ensures
        occs_view(final(out)@) == occs_view(old(out)@) + occ(kw(k@), line),
{
    let o = KeyOccurrence { key: keyword_text(k), line };
    proof {
        lemma_occs_push(out@, o);
    }
    out.push(o);
}

/// The binding a top-level `(def name value)` form adds, if any.
fn def_binding_of(f: &SExp) -> (r: Option<BindingEntry>)
    ensures
        match r {
            Some(e) => def_binding(*f) == Some(e@),
            None => def_binding(*f) is None,
        },
{
    match f {
        SExp::List(items, _) => {
            if items.len() < 3 {
                return None;
            }
            let is_def = match &items[0] {
                SExp::Symbol(h, _) => text_is(h, "def") || text_is(h, "defonce"),
                _ => false,
            };
            if !is_def {
                return None;
            }
            match &items[1] {
                SExp::Symbol(name, _) => {
                    // the value follows the first symbol after the head
                    assert(def_value_index(items@, 1) == Some(2int));
                    let keys = extract_keywords_from_expr(&items[2]);
                    if keys.len() == 0 {
                        return None;
                    }
                    Some(BindingEntry { name: name.clone(), keys })
                },
                _ => None,
            }
        },
        _ => None,
    }
}

/// Pass one: the table of top-level definitions.
fn def_table_of(forms: &Vec<SExp>) -> (r: Vec<BindingEntry>)
    ensures
        entries_view(r@) == def_table(forms@),
{
    let mut table: Vec<BindingEntry> = Vec::new();
    let mut i: usize = 0;
    assert(entries_view(table@) =~= def_table(forms@.subrange(0, 0)));
    while i < forms.len()
        invariant
            i <= forms.len(),
            entries_view(table@) == def_table(forms@.subrange(0, i as int)),
        decreases forms.len() - i,
    {
        let ghost pre = forms@.subrange(0, i + 1);
        assert(pre.drop_last() =~= forms@.subrange(0, i as int));
        match def_binding_of(&forms[i]) {
            Some(e) => {
                assert(entries_view(table@.push(e)) =~= entries_view(table@).push(e@));
                table.push(e);
            },
            None => {},
        }
        i = i + 1;
    }
    assert(forms@.subrange(0, i as int) =~= forms@);
    table
}

/// The scope a binding vector opens.
fn scope_of_bindings(b: &Vec<SExp>) -> (r: Vec<BindingEntry>)
    ensures
        entries_view(r@) == scope_of(b@, 0),
{
    let ghost target = scope_of(b@, 0);
    let mut scope: Vec<BindingEntry> = Vec::new();
    let mut j: usize = 0;
    assert(entries_view(scope@) + scope_of(b@, 0) =~= target);
    while j < b.len() && j + 1 < b.len()
        invariant
            j <= b.len(),
            target == scope_of(b@, 0),
            entries_view(scope@) + scope_of(b@, j as int) == target,
        decreases b.len() - j,
    {
        let ghost before = entries_view(scope@);
        match &b[j] {
            SExp::Symbol(name, _) => {
                let keys = extract_keywords_from_expr(&b[j + 1]);
                if keys.len() > 0 {
                    let e = BindingEntry { name: name.clone(), keys };
                    assert(entries_view(scope@.push(e)) =~= entries_view(scope@).push(e@));
                    scope.push(e);
                    assert(before.push(e@) + scope_of(b@, j + 2) =~= before + (seq![e@]
                        + scope_of(b@, j + 2)));
                } else {
                    assert(before + scope_of(b@, j + 2) =~= before + (Seq::<Binding>::empty()
                        + scope_of(b@, j + 2)));
                }
            },
            _ => {
                assert(before + scope_of(b@, j + 2) =~= before + (Seq::<Binding>::empty()
                    + scope_of(b@, j + 2)));
            },
        }
        j = j + 2;
    }
    assert(entries_view(scope@) + Seq::<Binding>::empty() =~= entries_view(scope@));
    scope
}

/// The keys of a file, each once with the line of its first occurrence.
fn first_occurrences_of(o: &Vec<KeyOccurrence>) -> (r: Vec<KeyOccurrence>)
    ensures
        occs_view(r@) == first_occurrences(occs_view(o@)),
{
    let mut r: Vec<KeyOccurrence> = Vec::new();
    let mut i: usize = 0;
    assert(occs_view(o@.subrange(0, 0)) =~= Seq::<Occurrence>::empty());
    assert(occs_view(r@) =~= Seq::<Occurrence>::empty());
    while i < o.len()
        invariant
            i <= o.len(),
            occs_view(r@) == first_occurrences(occs_view(o@.subrange(0, i as int))),
        decreases o.len() - i,
    {
        let ghost pre = occs_view(o@.subrange(0, i + 1));
        assert(pre.drop_last() =~= occs_view(o@.subrange(0, i as int)));
        assert(pre.last() == o@[i as int]@);
        let mut found = false;
        let mut j: usize = 0;
        while j < r.len() && !found
            invariant
                i < o.len(),
                j <= r.len(),
                found ==> exists|k: int|
                    0 <= k < r@.len() && #[trigger] occs_view(r@)[k].key == o@[i as int].key@,
                !found ==> forall|k: int|
                    0 <= k < j ==> #[trigger] occs_view(r@)[k].key != o@[i as int].key@,
            decreases r.len() - j, if found { 0int } else { 1int },
        {
            if r[j].key == o[i].key {
                found = true;
                assert(occs_view(r@)[j as int].key == o@[i as int].key@);
            } else {
                j = j + 1;
            }
        }
        if !found {
            let k = KeyOccurrence { key: o[i].key.clone(), line: o[i].line };
            proof {
                lemma_occs_push(r@, k);
            }
            r.push(k);
        }
        i = i + 1;
    }
    assert(o@.subrange(0, i as int) =~= o@);
    r
}


/// Key occurrences in a form.
fn collect_form(
    c: &KeyCollector,
    table: &Vec<BindingEntry>,
    scopes: &mut Vec<Vec<BindingEntry>>,
    f: &SExp,
    out: &mut Vec<KeyOccurrence>,
)
    ensures
        final(scopes)@ == old(scopes)@,
        occs_view(final(out)@) == occs_view(old(out)@) + form_keys(
            c@,
            env_of(table@, old(scopes)@),
            *f,
        ),
    decreases *f, 0nat,
{
    proof {
        lemma_concat_empty(occs_view(out@));
    }
    match f {
        SExp::List(items, _) => {
            let is_let = items.len() > 0 && match &items[0] {
                SExp::Symbol(h, _) => text_is(h, "let") || text_is(h, "when-let") || text_is(
                    h,
                    "if-let",
                ) || text_is(h, "loop"),
                _ => false,
            };
            if is_let {
                collect_let(c, table, scopes, items, out);
            } else {
                let ghost before = occs_view(out@);
                collect_call(c, table, scopes, items, out);
                collect_items(c, table, scopes, items, 0, out);
                proof {
                    let env = env_of(table@, old(scopes)@);
                    lemma_concat_assoc(
                        before,
                        call_keys(c@, env, items@),
                        keys_from(c@, env, items@, 0),
                    );
                }
            }
        },
        SExp::Vector(items, _)
        | SExp::SetLiteral(items, _)
        | SExp::AnonFn(items, _)
        | SExp::ReaderConditional(items, _)
        | SExp::ReaderConditionalSplicing(items, _) => collect_items(c, table, scopes, items, 0, out),
        SExp::MapLiteral(items, _) => {
            let ghost before = occs_view(out@);
            collect_map(c, table, scopes, items, out);
            collect_items(c, table, scopes, items, 0, out);
            proof {
                let env = env_of(table@, old(scopes)@);
                lemma_concat_assoc(before, map_keys(c@, env, items@, 0), keys_from(c@, env, items@, 0));
            }
        },
        SExp::Quote(x, _)
        | SExp::SyntaxQuote(x, _)
        | SExp::Unquote(x, _)
        | SExp::UnquoteSplicing(x, _)
        | SExp::Deref(x, _)
        | SExp::VarQuote(x, _)
        | SExp::Meta(_, x, _)
        | SExp::Discard(x, _)
        | SExp::TaggedLiteral(_, x, _) => collect_form(c, table, scopes, x, out),
        _ => {},
    }
}

/// Key occurrences in the items from index `start` on.
fn collect_items(
    c: &KeyCollector,
    table: &Vec<BindingEntry>,
    scopes: &mut Vec<Vec<BindingEntry>>,
    items: &Vec<SExp>,
    start: usize,
    out: &mut Vec<KeyOccurrence>,
)
    ensures
        final(scopes)@ == old(scopes)@,
        occs_view(final(out)@) == occs_view(old(out)@) + keys_from(
            c@,
            env_of(table@, old(scopes)@),
            items@,
            start as int,
        ),
    decreases items@, left(items@.len(), start as int),
{
    let ghost env = env_of(table@, scopes@);
    let ghost target = occs_view(out@) + keys_from(c@, env, items@, start as int);
    let mut i: usize = start;
    while i < items.len()
        invariant
            start <= i,
            scopes@ == old(scopes)@,
            env == env_of(table@, old(scopes)@),
            target == occs_view(old(out)@) + keys_from(c@, env, items@, start as int),
            target == occs_view(out@) + keys_from(c@, env, items@, i as int),
        decreases items.len() - i,
    {
        let ghost before = occs_view(out@);
        collect_form(c, table, scopes, &items[i], out);
        proof {
            lemma_concat_assoc(
                before,
                form_keys(c@, env, items@[i as int]),
                keys_from(c@, env, items@, i + 1),
            );
        }
        i = i + 1;
    }
    proof {
        lemma_concat_empty(occs_view(out@));
    }
}

/// A let-like form: binding values in the enclosing scope, the body inside
/// the scope the bindings open.
fn collect_let(
    c: &KeyCollector,
    table: &Vec<BindingEntry>,
    scopes: &mut Vec<Vec<BindingEntry>>,
    items: &Vec<SExp>,
    out: &mut Vec<KeyOccurrence>,
)
    ensures
        final(scopes)@ == old(scopes)@,
        occs_view(final(out)@) == occs_view(old(out)@) + let_keys(
            c@,
            env_of(table@, old(scopes)@),
            items@,
        ),
    decreases items@, items@.len() + 3,
{
    let ghost env = env_of(table@, scopes@);
    let ghost before = occs_view(out@);
    let ghost bindings = if items@.len() > 1 {
        binding_keys_of(c@, env, items@[1])
    } else {
        seq![]
    };
    if items.len() > 1 {
        collect_binding_vector(c, table, scopes, &items[1], out);
    } else {
        proof {
            lemma_concat_empty(before);
        }
    }
    let scope: Vec<BindingEntry> = if items.len() > 1 {
        match &items[1] {
            SExp::Vector(b, _) => scope_of_bindings(b),
            _ => Vec::new(),
        }
    } else {
        Vec::new()
    };
    assert(entries_view(scope@) == scope_of(binding_vector(items@), 0)) by {
        if !(items@.len() > 1 && items@[1] is Vector) {
            assert(entries_view(scope@) =~= Seq::<Binding>::empty());
        }
    }
    let ghost inner = Env {
        table: env.table,
        scopes: env.scopes.push(scope_of(binding_vector(items@), 0)),
    };
    let ghost outer_scopes = scopes@;
    scopes.push(scope);
    assert(scopes_view(scopes@) =~= scopes_view(outer_scopes).push(
        scope_of(binding_vector(items@), 0),
    ));
    let ghost mid = occs_view(out@);
    collect_items(c, table, scopes, items, 2, out);
    scopes.pop();
    assert(scopes@ =~= outer_scopes);
    proof {
        lemma_concat_assoc(before, bindings, keys_from(c@, inner, items@, 2));
    }
}

fn collect_binding_vector(
    c: &KeyCollector,
    table: &Vec<BindingEntry>,
    scopes: &mut Vec<Vec<BindingEntry>>,
    x: &SExp,
    out: &mut Vec<KeyOccurrence>,
)
    ensures
        final(scopes)@ == old(scopes)@,
        occs_view(final(out)@) == occs_view(old(out)@) + binding_keys_of(
            c@,
            env_of(table@, old(scopes)@),
            *x,
        ),
    decreases *x, 1nat,
{
    match x {
        SExp::Vector(b, _) => collect_binding_values(c, table, scopes, b, out),
        _ => {
            proof {
                lemma_concat_empty(occs_view(out@));
            }
        },
    }
}

fn collect_binding_values(
    c: &KeyCollector,
    table: &Vec<BindingEntry>,
    scopes: &mut Vec<Vec<BindingEntry>>,
    b: &Vec<SExp>,
    out: &mut Vec<KeyOccurrence>,
)
    ensures
        final(scopes)@ == old(scopes)@,
        occs_view(final(out)@) == occs_view(old(out)@) + binding_value_keys(
            c@,
            env_of(table@, old(scopes)@),
            b@,
            0,
        ),
    decreases b@, left(b@.len(), 0),
{
    let ghost env = env_of(table@, scopes@);
    let ghost target = occs_view(out@) + binding_value_keys(c@, env, b@, 0);
    let mut j: usize = 0;
    while j < b.len() && j + 1 < b.len()
        invariant
            j <= b.len(),
            scopes@ == old(scopes)@,
            env == env_of(table@, old(scopes)@),
            target == occs_view(old(out)@) + binding_value_keys(c@, env, b@, 0),
            target == occs_view(out@) + binding_value_keys(c@, env, b@, j as int),
        decreases b.len() - j,
    {
        let ghost before = occs_view(out@);
        collect_form(c, table, scopes, &b[j + 1], out);
        proof {
            lemma_concat_assoc(
                before,
                form_keys(c@, env, b@[j + 1]),
                binding_value_keys(c@, env, b@, j + 2),
            );
        }
        j = j + 2;
    }
    proof {
        lemma_concat_empty(occs_view(out@));
    }
}

/// Keys a list contributes by its head.
fn collect_call(
    c: &KeyCollector,
    table: &Vec<BindingEntry>,
    scopes: &mut Vec<Vec<BindingEntry>>,
    items: &Vec<SExp>,
    out: &mut Vec<KeyOccurrence>,
)
    ensures
        final(scopes)@ == old(scopes)@,
        occs_view(final(out)@) == occs_view(old(out)@) + call_keys(
            c@,
            env_of(table@, old(scopes)@),
            items@,
        ),
    decreases items@, items@.len() + 2,
{
    proof {
        lemma_concat_empty(occs_view(out@));
    }
    if items.len() == 0 {
        return;
    }
    match &items[0] {
        SExp::Symbol(h, _) => {
            let hn = chars_of(h.as_str());
            if KeyCollector::calls_any_of(&c.i18n_functions, &hn) {
                if items.len() >= 2 {
                    collect_key_arg(c, table, scopes, &items[1], out);
                }
            } else if !c.skip_ambient_collection && KeyCollector::calls_any_of(
                &c.alert_functions,
                &hn,
            ) {
                push_first_keyword(items, out);
            } else if !c.skip_ambient_collection && c.is_ui_fn(&hn) {
                push_keyword_args(items, out);
            }
        },
        _ => {},
    }
}

/// A translation call's argument: a keyword, a symbol, or a conditional.
fn collect_key_arg(
    c: &KeyCollector,
    table: &Vec<BindingEntry>,
    scopes: &mut Vec<Vec<BindingEntry>>,
    x: &SExp,
    out: &mut Vec<KeyOccurrence>,
)
    ensures
        final(scopes)@ == old(scopes)@,
        occs_view(final(out)@) == occs_view(old(out)@) + key_arg(
            c@,
            env_of(table@, old(scopes)@),
            *x,
        ),
    decreases *x, 1nat,
{
    match x {
        SExp::Keyword(k, span) => push_keyword(k, span.line, out),
        SExp::Symbol(s, span) => push_symbol_keys(table, scopes, s, span.line, out),
        SExp::List(inner, _) => collect_cond(c, table, scopes, inner, out),
        _ => {
            proof {
                lemma_concat_empty(occs_view(out@));
            }
        },
    }
}

/// Keys in the value positions of a conditional inside a translation call.
fn collect_cond(
    c: &KeyCollector,
    table: &Vec<BindingEntry>,
    scopes: &mut Vec<Vec<BindingEntry>>,
    items: &Vec<SExp>,
    out: &mut Vec<KeyOccurrence>,
)
    ensures
        final(scopes)@ == old(scopes)@,
        occs_view(final(out)@) == occs_view(old(out)@) + cond_keys(
            c@,
            env_of(table@, old(scopes)@),
            items@,
        ),
    decreases items@, items@.len() + 2,
{
    proof {
        lemma_concat_empty(occs_view(out@));
    }
    if items.len() == 0 {
        return;
    }
    match &items[0] {
        SExp::Symbol(h, _) => {
            if text_is(h, "if") || text_is(h, "if-not") || text_is(h, "when") || text_is(
                h,
                "when-not",
            ) {
                collect_args(c, table, scopes, items, 2, 1, out);
            } else if text_is(h, "or") {
                collect_args(c, table, scopes, items, 1, 1, out);
            } else if text_is(h, "cond") {
                collect_args(c, table, scopes, items, 2, 2, out);
            } else if text_is(h, "case") {
                let ghost before = occs_view(out@);
                let ghost env = env_of(table@, scopes@);
                collect_args(c, table, scopes, items, 3, 2, out);
                if items.len() >= 2 && (items.len() - 2) % 2 == 1 {
                    collect_key_arg(c, table, scopes, &items[items.len() - 1], out);
                    proof {
                        lemma_concat_assoc(
                            before,
                            args_keys(c@, env, items@, 3, 2),
                            key_arg(c@, env, items@.last()),
                        );
                    }
                } else {
                    proof {
                        lemma_concat_empty(args_keys(c@, env, items@, 3, 2));
                    }
                }
            } else if text_is(h, "keyword") {
                push_keyword_call(items, out);
            }
        },
        _ => {},
    }
}

/// `key_arg` of the items at indices `start`, `start + step`, ...
fn collect_args(
    c: &KeyCollector,
    table: &Vec<BindingEntry>,
    scopes: &mut Vec<Vec<BindingEntry>>,
    items: &Vec<SExp>,
    start: usize,
    step: usize,
    out: &mut Vec<KeyOccurrence>,
)
    requires
        step >= 1,
    ensures
        final(scopes)@ == old(scopes)@,
        occs_view(final(out)@) == occs_view(old(out)@) + args_keys(
            c@,
            env_of(table@, old(scopes)@),
            items@,
            start as int,
            step as int,
        ),
    decreases items@, left(items@.len(), start as int),
{
    let ghost env = env_of(table@, scopes@);
    let ghost target = occs_view(out@) + args_keys(c@, env, items@, start as int, step as int);
    let mut i: usize = start;
    while i < items.len()
        invariant
            step >= 1,
            start <= i,
            scopes@ == old(scopes)@,
            env == env_of(table@, old(scopes)@),
            target == occs_view(old(out)@) + args_keys(
                c@,
                env,
                items@,
                start as int,
                step as int,
            ),
            target == occs_view(out@) + args_keys(c@, env, items@, i as int, step as int),
        decreases items.len() - i,
    {
        let ghost before = occs_view(out@);
        collect_key_arg(c, table, scopes, &items[i], out);
        proof {
            lemma_concat_assoc(
                before,
                key_arg(c@, env, items@[i as int]),
                args_keys(c@, env, items@, i + step, step as int),
            );
        }
        if items.len() - i <= step {
            proof {
                lemma_concat_empty(occs_view(out@));
            }
            return;
        }
        i = i + step;
    }
    proof {
        lemma_concat_empty(occs_view(out@));
    }
}

/// Key attributes of a map literal.
fn collect_map(
    c: &KeyCollector,
    table: &Vec<BindingEntry>,
    scopes: &mut Vec<Vec<BindingEntry>>,
    items: &Vec<SExp>,
    out: &mut Vec<KeyOccurrence>,
)
    ensures
        final(scopes)@ == old(scopes)@,
        occs_view(final(out)@) == occs_view(old(out)@) + map_keys(
            c@,
            env_of(table@, old(scopes)@),
            items@,
            0,
        ),
    decreases items@, left(items@.len(), 0),
{
    let ghost env = env_of(table@, scopes@);
    let ghost target = occs_view(out@) + map_keys(c@, env, items@, 0);
    let mut j: usize = 0;
    while j < items.len() && j + 1 < items.len()
        invariant
            j <= items.len(),
            scopes@ == old(scopes)@,
            env == env_of(table@, old(scopes)@),
            target == occs_view(old(out)@) + map_keys(c@, env, items@, 0),
            target == occs_view(out@) + map_keys(c@, env, items@, j as int),
        decreases items.len() - j,
    {
        let ghost before = occs_view(out@);
        let is_key_attr = match &items[j] {
            SExp::Keyword(k, _) => holds_text(&c.all_key_attributes, k),
            _ => false,
        };
        if is_key_attr {
            collect_key_arg(c, table, scopes, &items[j + 1], out);
            proof {
                lemma_concat_assoc(
                    before,
                    key_arg(c@, env, items@[j + 1]),
                    map_keys(c@, env, items@, j + 2),
                );
            }
        } else {
            proof {
                lemma_concat_assoc(before, Seq::<Occurrence>::empty(), map_keys(c@, env, items@, j + 2));
                lemma_concat_empty(before);
            }
        }
        j = j + 2;
    }
    proof {
        lemma_concat_empty(occs_view(out@));
    }
}

/// The first keyword argument of a call.
fn push_first_keyword(items: &Vec<SExp>, out: &mut Vec<KeyOccurrence>)
    ensures
        occs_view(final(out)@) == occs_view(old(out)@) + first_keyword(items@, 1),
{
    let mut i: usize = 1;
    while i < items.len()
        invariant
            1 <= i,
            first_keyword(items@, 1) == first_keyword(items@, i as int),
            out@ == old(out)@,
        decreases items.len() - i,
    {
        match &items[i] {
            SExp::Keyword(k, span) => {
                push_keyword(k, span.line, out);
                return;
            },
            _ => {},
        }
        i = i + 1;
    }
    proof {
        lemma_concat_empty(occs_view(out@));
    }
}

/// Every keyword argument of a call.
fn push_keyword_args(items: &Vec<SExp>, out: &mut Vec<KeyOccurrence>)
    ensures
        occs_view(final(out)@) == occs_view(old(out)@) + keyword_args(items@, 1),
{
    let ghost target = occs_view(out@) + keyword_args(items@, 1);
    let mut i: usize = 1;
    while i < items.len()
        invariant
            1 <= i,
            target == occs_view(old(out)@) + keyword_args(items@, 1),
            target == occs_view(out@) + keyword_args(items@, i as int),
        decreases items.len() - i,
    {
        let ghost before = occs_view(out@);
        match &items[i] {
            SExp::Keyword(k, span) => {
                push_keyword(k, span.line, out);
                proof {
                    lemma_concat_assoc(
                        before,
                        occ(kw(k@), span.line),
                        keyword_args(items@, i + 1),
                    );
                }
            },
            _ => {
                proof {
                    lemma_concat_assoc(
                        before,
                        Seq::<Occurrence>::empty(),
                        keyword_args(items@, i + 1),
                    );
                    lemma_concat_empty(before);
                }
            },
        }
        i = i + 1;
    }
    proof {
        lemma_concat_empty(occs_view(out@));
    }
}

/// `(keyword "ns" "name")`: the key `:ns/name`.
fn push_keyword_call(items: &Vec<SExp>, out: &mut Vec<KeyOccurrence>)
    ensures
        occs_view(final(out)@) == occs_view(old(out)@) + keyword_call_keys(items@),
{
    proof {
        lemma_concat_empty(occs_view(out@));
    }
    if items.len() < 3 {
        return;
    }
    match (&items[1], &items[2]) {
        (SExp::Str(ns, _), SExp::Str(name, _)) => {
            let line: u32 = match &items[0] {
                SExp::Symbol(_, span) => span.line,
                _ => 0,
            };
            let mut key = string_of(":");
            key.append(ns.as_str());
            key.append("/");
            key.append(name.as_str());
            proof {
                reveal_strlit(":");
                reveal_strlit("/");
                assert(key@ =~= kw(ns@ + seq!['/'] + name@));
            }
            let o = KeyOccurrence { key, line };
            proof {
                lemma_occs_push(out@, o);
            }
            out.push(o);
        },
        _ => {},
    }
}

/// The translation keys a parsed file references, each once, with the line
/// of its first occurrence.  Symbols in translation positions are resolved
/// through let scopes and the file's top-level definitions.
pub fn collect_file_keys(forms: &Vec<SExp>, config: &AppConfig, strict: bool) -> (r: Vec<
    KeyOccurrence,
>)
    ensures
        occs_view(r@) == first_occurrences(
            forms_keys(key_rules_of(*config, strict), def_table(forms@), forms@),
        ),
{
    let c = KeyCollector::new(config, strict);
    let table = def_table_of(forms);
    let mut scopes: Vec<Vec<BindingEntry>> = Vec::new();
    let mut all: Vec<KeyOccurrence> = Vec::new();
    assert(scopes_view(scopes@) =~= Seq::<Seq<Binding>>::empty());
    assert(occs_view(all@) =~= Seq::<Occurrence>::empty());
    assert(forms@.subrange(0, 0) =~= Seq::<SExp>::empty());
    let mut i: usize = 0;
    while i < forms.len()
        invariant
            i <= forms.len(),
            c@ == key_rules_of(*config, strict),
            entries_view(table@) == def_table(forms@),
            scopes@ == Seq::<Vec<BindingEntry>>::empty(),
            env_of(table@, scopes@) == (Env { table: def_table(forms@), scopes: seq![] }),
            occs_view(all@) == forms_keys(c@, def_table(forms@), forms@.subrange(0, i as int)),
        decreases forms.len() - i,
    {
        collect_form(&c, &table, &mut scopes, &forms[i], &mut all);
        proof {
            let pre = forms@.subrange(0, i + 1);
            assert(pre.drop_last() =~= forms@.subrange(0, i as int));
            assert(pre.last() == forms@[i as int]);
        }
        i = i + 1;
    }
    assert(forms@.subrange(0, i as int) =~= forms@);
    first_occurrences_of(&all)
}


/// The text without one trailing `?`.
fn strip_question_of(s: &Vec<char>) -> (r: Vec<char>)
    ensures
        r@ == strip_question(s@),
{
    if s.len() > 0 && s[s.len() - 1] == '?' {
        let r = copy_range(s, 0, s.len() - 1);
        assert(r@ =~= s@.drop_last());
        r
    } else {
        let r = copy_range(s, 0, s.len());
        assert(r@ =~= s@);
        r
    }
}

/// The translation key of a built-in db-ident keyword, if it has one.
pub fn db_ident_to_i18n_key(keyword: &str) -> (r: Option<String>)
    ensures
        opt_text(r) == db_ident_key(keyword@),
{
    let kc = chars_of(keyword);
    if !(kc.len() > 0 && kc[0] == ':') {
        return None;
    }
    let k = copy_range(&kc, 1, kc.len());
    assert(k@ =~= keyword@.skip(1));
    let slash = index_of_char(&k, '/');
    if slash == k.len() {
        return None;
    }
    let ns_v = copy_range(&k, 0, slash);
    let name_v = copy_range(&k, slash + 1, k.len());
    assert(name_v@ =~= k@.skip(slash + 1));
    let ns = string_from_chars(&ns_v);
    let name = string_from_chars(&name_v);
    if text_is(&ns, "logseq.class") {
        let mut r = string_of(":class.built-in/");
        let lower = to_lowercase(name.as_str());
        r.append(lower.as_str());
        return Some(r);
    }
    let prefix = chars_of("logseq.property.");
    let plain = text_is(&ns, "logseq.property");
    if plain || starts_with_chars(&ns_v, &prefix) {
        let clean_v = strip_question_of(&name_v);
        proof {
            reveal_strlit("logseq.property.");
        }
        let sub: Option<String> = if plain {
            None
        } else {
            let tail = copy_range(&ns_v, 16, ns_v.len());
            assert(tail@ =~= ns_v@.skip(16));
            Some(string_from_chars(&tail))
        };
        let dot = index_of_char(&clean_v, '.');
        if dot < clean_v.len() {
            let prop_v = copy_range(&clean_v, 0, dot);
            let choice_v = copy_range(&clean_v, dot + 1, clean_v.len());
            assert(choice_v@ =~= clean_v@.skip(dot + 1));
            let prop = string_from_chars(&prop_v);
            let choice = string_from_chars(&choice_v);
            let mut r = string_of(":property.");
            match &sub {
                Some(s) => {
                    r.append(s.as_str());
                    r.append("-");
                    r.append(prop.as_str());
                    assert(r@ =~= ":property."@ + (s@ + "-"@ + prop@));
                },
                None => {
                    r.append(prop.as_str());
                },
            }
            r.append("/");
            r.append(choice.as_str());
            return Some(r);
        }
        let clean = string_from_chars(&clean_v);
        let mut r = string_of(":property.built-in/");
        match &sub {
            Some(s) => {
                r.append(s.as_str());
                r.append("-");
            },
            None => {},
        }
        r.append(clean.as_str());
        return Some(r);
    }
    if text_is(&ns, "block") {
        let clean_v = strip_question_of(&name_v);
        let clean = string_from_chars(&clean_v);
        let mut r = string_of(":property.built-in/");
        r.append(clean.as_str());
        return Some(r);
    }
    None
}

/// The first index from `start` on holding a symbol.
/// The name held at a definition's name position, if any.
fn def_name_ref(x: &SExp) -> (r: Option<&String>)
    ensures
        match r {
            Some(n) => def_name_of(*x) == Some(n@),
            None => def_name_of(*x) is None,
        },
    decreases *x,
{
    match x {
        SExp::Symbol(n, _) => Some(n),
        SExp::Meta(_, t, _) => def_name_ref(t),
        _ => None,
    }
}

fn first_name_index_of(items: &Vec<SExp>, start: usize) -> (r: Option<usize>)
    ensures
        match r {
            Some(j) => first_name_index(items@, start as int) == Some(j as int) && j
                < items@.len(),
            None => first_name_index(items@, start as int) is None,
        },
{
    let mut i: usize = start;
    while i < items.len()
        invariant
            start <= i,
            first_name_index(items@, start as int) == first_name_index(items@, i as int),
        decreases items.len() - i,
    {
        if def_name_ref(&items[i]).is_some() {
            return Some(i);
        }
        i = i + 1;
    }
    None
}

/// The value of the first top-level `def`/`defonce` of `def_name` (metadata
/// may come before the name): the item after its name, if there is one.
pub fn find_named_def_value<'a>(forms: &'a Vec<SExp>, def_name: &String) -> (r: Option<&'a SExp>)
    ensures
        match r {
            Some(v) => named_def_value(forms@, def_name@, 0) == Some(*v),
            None => named_def_value(forms@, def_name@, 0) is None,
        },
{
    let mut i: usize = 0;
    while i < forms.len()
        invariant
            named_def_value(forms@, def_name@, 0) == named_def_value(forms@, def_name@, i as int),
        decreases forms.len() - i,
    {
        match &forms[i] {
            SExp::List(items, _) => {
                let is_def = items.len() >= 3 && match &items[0] {
                    SExp::Symbol(h, _) => text_is(h, "def") || text_is(h, "defonce"),
                    _ => false,
                };
                if is_def {
                    match first_name_index_of(items, 1) {
                        Some(j) => {
                            let named = match def_name_ref(&items[j]) {
                                Some(n) => *n == *def_name,
                                None => false,
                            };
                            if named {
                                assert(defines_name(forms@[i as int], def_name@));
                                if j + 1 < items.len() {
                                    return Some(&items[j + 1]);
                                }
                                return None;
                            }
                        },
                        None => {},
                    }
                }
            },
            _ => {},
        }
        assert(!defines_name(forms@[i as int], def_name@));
        i = i + 1;
    }
    None
}

/// The translation keys a db-ident definition file provides: the keywords of
/// the named definition's value (or of the whole file when it has no such
/// definition), each converted where it has a key.
pub fn db_ident_keys_from_forms(forms: &Vec<SExp>, def_name: &str) -> (r: Vec<String>)
    ensures
        texts(r@) == db_ident_file_keys(forms@, def_name@),
{
    let name = string_of(def_name);
    let mut kws: Vec<String> = Vec::new();
    assert(texts(kws@) =~= Seq::<Seq<char>>::empty());
    match find_named_def_value(forms, &name) {
        Some(v) => {
            extract_all_keywords(v, &mut kws);
            assert(texts(kws@) =~= crate::key_model::all_keywords(*v));
        },
        None => {
            let ghost target = forms_all_keywords(forms@, 0);
            let mut i: usize = 0;
            while i < forms.len()
                invariant
                    target == forms_all_keywords(forms@, 0),
                    target == texts(kws@) + forms_all_keywords(forms@, i as int),
                decreases forms.len() - i,
            {
                let ghost before = texts(kws@);
                extract_all_keywords(&forms[i], &mut kws);
                proof {
                    lemma_concat_assoc(
                        before,
                        crate::key_model::all_keywords(forms@[i as int]),
                        forms_all_keywords(forms@, i + 1),
                    );
                }
                i = i + 1;
            }
            proof {
                lemma_concat_empty(texts(kws@));
            }
        },
    }
    let ghost all = texts(kws@);
    let mut r: Vec<String> = Vec::new();
    let mut i: usize = 0;
    assert(texts(r@) =~= db_ident_keys(all.subrange(0, 0)));
    while i < kws.len()
        invariant
            i <= kws.len(),
            all == texts(kws@),
            texts(r@) == db_ident_keys(all.subrange(0, i as int)),
        decreases kws.len() - i,
    {
        let ghost pre = all.subrange(0, i + 1);
        assert(pre.drop_last() =~= all.subrange(0, i as int));
        assert(pre.last() == kws@[i as int]@);
        match db_ident_to_i18n_key(kws[i].as_str()) {
            Some(k) => {
                let ghost prev = r@;
                r.push(k);
                assert(texts(r@) =~= texts(prev).push(k@));
            },
            None => {},
        }
        i = i + 1;
    }
    assert(all.subrange(0, i as int) =~= all);
    r
}

} // verus!
