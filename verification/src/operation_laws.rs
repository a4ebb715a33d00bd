//! Properties of single operations that hold for every input: metadata in
//! the analysis, tag vectors, keys of `case` forms inside translation calls,
//! built-in property keys, and auto-resolved keywords.
use vstd::prelude::*;

use crate::analysis::{
    Rules, form_diags, hiccup_child_diags, hiccup_children_diags, hiccup_diags, in_ignored, is_hiccup, report,
    seq_diags,
};
use crate::analyzer::{DiagnosticKind, FrameKind};
use crate::key_model::{
    Env, KeyRules, Occurrence, args_keys, cond_keys, db_ident_key, is_branch_form, form_keys, has_case_default, key_arg,
};
use crate::names::{lemma_prefix_before_split, prefix_before, starts_with};
use crate::parser::SExp;
use crate::read_model::{
    Outcome, ReadState, advance, at_char_start, initial_state, peek, read_keyword, read_token,
    scan_token,
};
use crate::syntax::Syntax;
use crate::text::lowercase;

verus! {

// ---------------------------------------------------------------------------
// Metadata and tag vectors in the analysis
// ---------------------------------------------------------------------------
/// Metadata is transparent to the analysis: `^m x` reports exactly what `x`
/// reports, in every context.
pub proof fn law_metadata_is_transparent(c: Rules, f: SExp, st: Seq<FrameKind>)
    requires
        f is Meta,
    ensures
        f matches SExp::Meta(_, x, _) && form_diags(c, f, st) == form_diags(c, *x, st),
{
}

/// A child of a hiccup vector written behind metadata (`^{:key k} [:li "Text"]`)
/// reports what the bare child reports, unless the bare child is a string
/// literal (which is text only as a direct child).
pub proof fn law_metadata_hiccup_child(c: Rules, f: SExp, st: Seq<FrameKind>)
    requires
        f matches SExp::Meta(_, x, _) && !(*x is Str),
    ensures
        f matches SExp::Meta(_, x, _) && hiccup_child_diags(c, f, st) == hiccup_child_diags(
            c,
            *x,
            st,
        ),
{
}

/// A vector whose first item is a keyword is hiccup exactly when the keyword
/// has no `/`, whatever other characters it has (`:div.text-sm`, `:span#id`).
pub proof fn law_keyword_tag_is_hiccup(items: Seq<SExp>)
    requires
        items.len() > 0,
        items[0] is Keyword,
    ensures
        items[0] matches SExp::Keyword(k, _) && (is_hiccup(items) <==> !k@.contains('/')),
{
}

/// In a vector headed by a tag keyword without `/` (`[:div.flex "Text" ...]`),
/// a string right after the tag is reported as hiccup text before anything
/// else; with a `/` in the keyword the vector is plain data.
pub proof fn law_tag_vector_text(c: Rules, f: SExp, st: Seq<FrameKind>)
    requires
        !in_ignored(st),
        f matches SExp::Vector(items, _) && items@.len() >= 2 && items@[0] is Keyword
            && items@[1] is Str,
    ensures
        f matches SExp::Vector(items, _) && (items@[0] matches SExp::Keyword(k, _) && (items@[1] matches SExp::Str(
            s,
            span,
        ) && (!k@.contains('/') ==> form_diags(c, f, st) == report(
            c,
            DiagnosticKind::HiccupText,
            span,
            s@,
            None,
        ) + hiccup_children_diags(c, items@, 2, st.push(FrameKind::Hiccup))) && (k@.contains('/')
            ==> form_diags(c, f, st) == seq_diags(c, items@, 0, st)))),
{
    match f {
        SExp::Vector(items, _) => {
            let is = items@;
            let hst = st.push(FrameKind::Hiccup);
            assert(hiccup_children_diags(c, is, 1, hst) == hiccup_child_diags(c, is[1], hst)
                + hiccup_children_diags(c, is, 2, hst));
            assert(!(is[1] is MapLiteral));
            assert(hiccup_diags(c, is, hst) == hiccup_children_diags(c, is, 1, hst));
            match is[1] {
                SExp::Str(s, span) => {
                    assert(hiccup_child_diags(c, is[1], hst) == report(
                        c,
                        DiagnosticKind::HiccupText,
                        span,
                        s@,
                        None,
                    ));
                },
                _ => {},
            }
            match is[0] {
                SExp::Keyword(k, _) => {
                    if !k@.contains('/') {
                        assert(is_hiccup(is));
                        assert(form_diags(c, f, st) == hiccup_diags(c, is, hst));
                    } else {
                        assert(!is_hiccup(is));
                        assert(form_diags(c, f, st) == seq_diags(c, is, 0, st));
                    }
                },
                _ => {},
            }
        },
        _ => {},
    }
}

/// Metadata is transparent to key collection: `^m x` references exactly the
/// keys `x` references.
pub proof fn law_metadata_keys(r: KeyRules, env: Env, f: SExp)
    requires
        f is Meta,
    ensures
        f matches SExp::Meta(_, x, _) && form_keys(r, env, f) == form_keys(r, env, *x),
{
}

// ---------------------------------------------------------------------------
// `case` inside a translation call
// ---------------------------------------------------------------------------
/// Inside a translation call, a `case` form with a default (an odd number of
/// items after its head and expression) references the keys of that default:
/// they end the keys of the whole form, as in `(t (case x :a :k/a :k/d))`.
pub proof fn law_case_default_keys(r: KeyRules, env: Env, f: SExp)
    requires
        f matches SExp::List(items, _) && items@.len() >= 3 && (items@.len() - 2) % 2 == 1
            && (items@[0] matches SExp::Symbol(h, _) && h@ == "case"@),
    ensures
        f matches SExp::List(items, _) && ({
            let whole = key_arg(r, env, f);
            let d = key_arg(r, env, items@.last());
            d.len() <= whole.len() && whole.subrange(whole.len() - d.len(), whole.len() as int)
                == d
        }),
{
    reveal_strlit("case");
    reveal_strlit("if");
    reveal_strlit("if-not");
    reveal_strlit("when");
    reveal_strlit("when-not");
    reveal_strlit("or");
    reveal_strlit("cond");
    match f {
        SExp::List(items, _) => {
            let head = "case"@;
            assert(head.len() == 4);
            assert(head != "if"@ && head != "or"@);
            assert(head != "if-not"@ && head != "when-not"@ && head != "cond"@ && head
                != "when"@) by {
                assert(head[0] != "if-not"@[0]);
                assert(head[0] != "when-not"@[0]);
                assert(head[1] != "cond"@[1]);
                assert(head[0] != "when"@[0]);
            }
            let whole = key_arg(r, env, f);
            let d = key_arg(r, env, items@.last());
            assert(whole.subrange(whole.len() - d.len(), whole.len() as int) =~= d);
        },
        _ => {},
    }
}

proof fn lemma_args_keys_contain(
    r: KeyRules,
    env: Env,
    items: Seq<SExp>,
    i: int,
    step: int,
    j: int,
)
    requires
        step >= 1,
        0 <= i <= j < items.len(),
        (j - i) % step == 0,
    ensures
        forall|o: Occurrence| #[trigger] key_arg(r, env, items[j]).contains(o) ==> args_keys(
            r,
            env,
            items,
            i,
            step,
        ).contains(o),
    decreases j - i,
{
    let here = key_arg(r, env, items[i]);
    let rest = args_keys(r, env, items, i + step, step);
    assert(args_keys(r, env, items, i, step) == here + rest);
    if j == i {
        assert forall|o: Occurrence| #[trigger] here.contains(o) implies (here + rest).contains(o) by {
            let k = choose|k: int| 0 <= k < here.len() && here[k] == o;
            assert((here + rest)[k] == o);
        }
    } else {
        assert(j - (i + step) >= 0 && (j - (i + step)) % step == 0) by (nonlinear_arith)
            requires
                step >= 1,
                j > i,
                (j - i) % step == 0,
        {
            assert((j - i) >= step) by {
                if j - i < step {
                    assert((j - i) % step == j - i);
                }
            }
        }
        lemma_args_keys_contain(r, env, items, i + step, step, j);
        assert forall|o: Occurrence| #[trigger] key_arg(r, env, items[j]).contains(o) implies (here
            + rest).contains(o) by {
            assert(rest.contains(o));
            let k = choose|k: int| 0 <= k < rest.len() && rest[k] == o;
            assert((here + rest)[here.len() + k] == o);
        }
    }
}

/// Inside a translation call, every branch of a conditional references its
/// keys: the items after the test of `if`/`if-not`/`when`/`when-not`, every
/// item of `or`, the results of `cond` (second of each pair) and of `case`
/// (after each test value, and its default).
pub proof fn law_conditional_branch_keys(r: KeyRules, env: Env, f: SExp, j: int)
    requires
        f matches SExp::List(items, _) && items@.len() > 0 && items@[0] is Symbol && 0 <= j
            < items@.len(),
    ensures
        f matches SExp::List(items, _) && (items@[0] matches SExp::Symbol(h, _) && ({
            let branch = (((h@ == "if"@ || h@ == "if-not"@ || h@ == "when"@ || h@ == "when-not"@)
                && j >= 2) || (h@ == "or"@ && j >= 1) || (h@ == "cond"@ && j >= 2 && j % 2 == 0)
                || (h@ == "case"@ && j >= 3 && j % 2 == 1));
            branch ==> forall|o: Occurrence| #[trigger] key_arg(r, env, items@[j]).contains(o)
                ==> key_arg(r, env, f).contains(o)
        })),
{
    reveal_strlit("case");
    reveal_strlit("if");
    reveal_strlit("if-not");
    reveal_strlit("when");
    reveal_strlit("when-not");
    reveal_strlit("or");
    reveal_strlit("cond");
    match f {
        SExp::List(items, _) => {
            let is = items@;
            match is[0] {
                SExp::Symbol(h, _) => {
                    let head = h@;
                    assert(key_arg(r, env, f) == cond_keys(r, env, is));
                    assert("or"@ != "if"@) by {
                        assert("or"@[0] != "if"@[0]);
                    }
                    if head == "if"@ || head == "if-not"@ || head == "when"@ || head == "when-not"@ {
                        assert(is_branch_form(head));
                        assert(cond_keys(r, env, is) == args_keys(r, env, is, 2, 1));
                        if j >= 2 {
                            lemma_args_keys_contain(r, env, is, 2, 1, j);
                            assert(forall|o: Occurrence| #[trigger] key_arg(r, env, is[j]).contains(o)
                                ==> key_arg(r, env, f).contains(o));
                        }
                    } else if head == "or"@ {
                        assert(head != "if"@) by {
                            assert(head[0] != "if"@[0]);
                        }
                        assert(!is_branch_form(head));
                        assert(cond_keys(r, env, is) == args_keys(r, env, is, 1, 1));
                        if j >= 1 {
                            lemma_args_keys_contain(r, env, is, 1, 1, j);
                            assert(forall|o: Occurrence| #[trigger] key_arg(r, env, is[j]).contains(o)
                                ==> key_arg(r, env, f).contains(o));
                        }
                    } else if head == "cond"@ {
                        assert(head != "if"@ && head != "or"@ && head != "if-not"@ && head
                            != "when-not"@);
                        assert(head != "when"@) by {
                            assert(head[0] != "when"@[0]);
                        }
                        assert(!is_branch_form(head));
                        assert(cond_keys(r, env, is) == args_keys(r, env, is, 2, 2));
                        if j >= 2 && j % 2 == 0 {
                            lemma_args_keys_contain(r, env, is, 2, 2, j);
                            assert(forall|o: Occurrence| #[trigger] key_arg(r, env, is[j]).contains(o)
                                ==> key_arg(r, env, f).contains(o));
                        }
                    } else if head == "case"@ {
                        assert(head != "if"@ && head != "or"@ && head != "if-not"@ && head
                            != "when-not"@);
                        assert(head != "when"@ && head != "cond"@) by {
                            assert(head[0] != "when"@[0]);
                            assert(head[1] != "cond"@[1]);
                        }
                        assert(!is_branch_form(head));
                        if j >= 3 && j % 2 == 1 {
                            if j == is.len() - 1 && has_case_default(is.len()) {
                                assert(false);
                            }
                            lemma_args_keys_contain(r, env, is, 3, 2, j);
                            let a = args_keys(r, env, is, 3, 2);
                            let d = if has_case_default(is.len()) {
                                key_arg(r, env, is.last())
                            } else {
                                seq![]
                            };
                            assert forall|o: Occurrence| #[trigger] a.contains(o) implies (a
                                + d).contains(o) by {
                                let k = choose|k: int| 0 <= k < a.len() && a[k] == o;
                                assert((a + d)[k] == o);
                            }
                            assert(cond_keys(r, env, is) == a + d);
                            assert(forall|o: Occurrence| #[trigger] key_arg(r, env, is[j]).contains(o)
                                ==> key_arg(r, env, f).contains(o));
                        }
                    }
                    let branch = (((head == "if"@ || head == "if-not"@ || head == "when"@ || head
                        == "when-not"@) && j >= 2) || (head == "or"@ && j >= 1) || (head == "cond"@
                        && j >= 2 && j % 2 == 0) || (head == "case"@ && j >= 3 && j % 2 == 1));
                    assert(branch ==> forall|o: Occurrence| #[trigger] key_arg(r, env, is[j]).contains(o)
                        ==> key_arg(r, env, f).contains(o));
                },
                _ => {},
            }
        },
        _ => {},
    }
}

// ---------------------------------------------------------------------------
// Built-in property keys
// ---------------------------------------------------------------------------
/// The keyword `:ns/name`.
pub open spec fn ident(ns: Seq<char>, name: Seq<char>) -> Seq<char> {
    seq![':'] + ns + seq!['/'] + name
}

proof fn lemma_ident_parts(ns: Seq<char>, name: Seq<char>)
    requires
        !ns.contains('/'),
    ensures
        ident(ns, name).len() > 0 && ident(ns, name)[0] == ':',
        ident(ns, name).skip(1).contains('/'),
        prefix_before(ident(ns, name).skip(1), '/') == ns,
        ident(ns, name).skip(1).skip(ns.len() + 1int) == name,
{
    let k = ident(ns, name).skip(1);
    assert(k =~= ns + seq!['/'] + name);
    assert(k[ns.len() as int] == '/');
    assert forall|j: int| 0 <= j < ns.len() implies k[j] != '/' by {
        assert(k[j] == ns[j]);
        if ns[j] == '/' {
            assert(ns.contains('/'));
        }
    }
    lemma_prefix_before_split(k, '/', ns.len() as int);
    assert(k.subrange(0, ns.len() as int) =~= ns);
    assert(k.skip(ns.len() as int)[0] == '/');
    assert(prefix_before(k.skip(ns.len() as int), '/') =~= Seq::<char>::empty());
    assert(ns + Seq::<char>::empty() =~= ns);
    assert(k.skip(ns.len() + 1int) =~= name);
}

proof fn lemma_property_namespaces(sub: Seq<char>)
    ensures
        !"logseq.property"@.contains('/'),
        !("logseq.property."@ + sub).contains('/') <== !sub.contains('/'),
        starts_with("logseq.property."@ + sub, "logseq.property."@),
        ("logseq.property."@ + sub).skip(16) == sub,
        "logseq.property."@ + sub != "logseq.property"@,
        "logseq.property."@ + sub != "logseq.class"@,
        "logseq.property"@ != "logseq.class"@,
        "logseq.property"@ != "block"@,
{
    reveal_strlit("logseq.property");
    reveal_strlit("logseq.property.");
    reveal_strlit("logseq.class");
    reveal_strlit("block");
    let p = "logseq.property."@;
    let ns = p + sub;
    assert(ns.subrange(0, p.len() as int) =~= p);
    assert(ns.skip(16) =~= sub);
    assert(ns.len() != "logseq.property"@.len());
    assert(ns.len() != "logseq.class"@.len());
    assert("logseq.property"@.len() != "logseq.class"@.len());
    assert("logseq.property"@.len() != "block"@.len());
    assert forall|j: int| 0 <= j < "logseq.property"@.len() implies "logseq.property"@[j] != '/' by {}
    if !sub.contains('/') {
        assert forall|j: int| 0 <= j < ns.len() implies ns[j] != '/' by {
            if j >= p.len() {
                assert(ns[j] == sub[j - p.len()]);
                if sub[j - p.len()] == '/' {
                    assert(sub.contains('/'));
                }
            }
        }
    }
}

/// A trailing `?` never reaches the key of a `logseq.property` ident, with or
/// without a sub-namespace: `:ns/name?` and `:ns/name` give the same key.
pub proof fn law_property_question_mark_dropped(ns: Seq<char>, name: Seq<char>)
    requires
        ns == "logseq.property"@ || starts_with(ns, "logseq.property."@),
        !ns.contains('/'),
        !(name.len() > 0 && name.last() == '?'),
    ensures
        db_ident_key(ident(ns, name + seq!['?'])) == db_ident_key(ident(ns, name)),
        db_ident_key(ident(ns, name)) is Some,
{
    reveal_strlit("logseq.property");
    reveal_strlit("logseq.property.");
    reveal_strlit("logseq.class");
    lemma_ident_parts(ns, name);
    lemma_ident_parts(ns, name + seq!['?']);
    assert((name + seq!['?']).drop_last() =~= name);
    if ns != "logseq.property"@ {
        assert(ns.subrange(0, 16) == "logseq.property."@);
        assert(ns.len() != "logseq.class"@.len() || ns[7] != "logseq.class"@[7]);
    } else {
        assert(ns.len() != "logseq.class"@.len());
    }
}

/// Under `logseq.property.S`, a name without `.` becomes
/// `:property.built-in/S-name`, a trailing `?` dropped.
pub proof fn law_sub_property_key(sub: Seq<char>, name: Seq<char>)
    requires
        !sub.contains('/'),
        !name.contains('.'),
        !(name.len() > 0 && name.last() == '?'),
    ensures
        db_ident_key(ident("logseq.property."@ + sub, name)) == Some(
            ":property.built-in/"@ + sub + "-"@ + name,
        ),
        db_ident_key(ident("logseq.property."@ + sub, name + seq!['?'])) == Some(
            ":property.built-in/"@ + sub + "-"@ + name,
        ),
{
    let ns = "logseq.property."@ + sub;
    lemma_property_namespaces(sub);
    lemma_ident_parts(ns, name);
    lemma_ident_parts(ns, name + seq!['?']);
    assert((name + seq!['?']).drop_last() =~= name);
}

/// Under `logseq.property`, a name without `.` becomes
/// `:property.built-in/name`, a trailing `?` dropped.
pub proof fn law_property_key(name: Seq<char>)
    requires
        !name.contains('.'),
        !(name.len() > 0 && name.last() == '?'),
    ensures
        db_ident_key(ident("logseq.property"@, name)) == Some(":property.built-in/"@ + name),
        db_ident_key(ident("logseq.property"@, name + seq!['?'])) == Some(
            ":property.built-in/"@ + name,
        ),
{
    lemma_property_namespaces(seq![]);
    lemma_ident_parts("logseq.property"@, name);
    lemma_ident_parts("logseq.property"@, name + seq!['?']);
    assert((name + seq!['?']).drop_last() =~= name);
}

proof fn lemma_split_at_dot(prop: Seq<char>, choice: Seq<char>)
    requires
        !prop.contains('.'),
    ensures
        (prop + seq!['.'] + choice).contains('.'),
        prefix_before(prop + seq!['.'] + choice, '.') == prop,
        (prop + seq!['.'] + choice).skip(prop.len() + 1int) == choice,
{
    let n = prop + seq!['.'] + choice;
    assert(n[prop.len() as int] == '.');
    assert forall|j: int| 0 <= j < prop.len() implies n[j] != '.' by {
        assert(n[j] == prop[j]);
        if prop[j] == '.' {
            assert(prop.contains('.'));
        }
    }
    lemma_prefix_before_split(n, '.', prop.len() as int);
    assert(n.subrange(0, prop.len() as int) =~= prop);
    assert(n.skip(prop.len() as int)[0] == '.');
    assert(prefix_before(n.skip(prop.len() as int), '.') =~= Seq::<char>::empty());
    assert(prop + Seq::<char>::empty() =~= prop);
    assert(n.skip(prop.len() + 1int) =~= choice);
}

/// Under `logseq.property.S`, a name `prop.choice` (the first `.` splits it)
/// becomes `:property.S-prop/choice`, a trailing `?` dropped.
#[verifier::spinoff_prover]
pub proof fn law_sub_property_choice_key(sub: Seq<char>, prop: Seq<char>, choice: Seq<char>)
    requires
        !sub.contains('/'),
        !prop.contains('.'),
        !(choice.len() > 0 && choice.last() == '?'),
    ensures
        db_ident_key(ident("logseq.property."@ + sub, prop + seq!['.'] + choice)) == Some(
            ":property."@ + (sub + "-"@ + prop) + "/"@ + choice,
        ),
        db_ident_key(ident("logseq.property."@ + sub, prop + seq!['.'] + choice + seq!['?']))
            == Some(":property."@ + (sub + "-"@ + prop) + "/"@ + choice),
{
    let ns = "logseq.property."@ + sub;
    let n = prop + seq!['.'] + choice;
    lemma_property_namespaces(sub);
    lemma_ident_parts(ns, n);
    lemma_ident_parts(ns, n + seq!['?']);
    assert((n + seq!['?']).drop_last() =~= n);
    if choice.len() == 0 {
        assert(n.last() == '.');
    } else {
        assert(n.last() == choice.last());
    }
    lemma_split_at_dot(prop, choice);
}

/// Under `logseq.property`, a name `prop.choice` becomes
/// `:property.prop/choice`, a trailing `?` dropped.
pub proof fn law_property_choice_key(prop: Seq<char>, choice: Seq<char>)
    requires
        !prop.contains('.'),
        !(choice.len() > 0 && choice.last() == '?'),
    ensures
        db_ident_key(ident("logseq.property"@, prop + seq!['.'] + choice)) == Some(
            ":property."@ + prop + "/"@ + choice,
        ),
        db_ident_key(ident("logseq.property"@, prop + seq!['.'] + choice + seq!['?'])) == Some(
            ":property."@ + prop + "/"@ + choice,
        ),
{
    let n = prop + seq!['.'] + choice;
    lemma_property_namespaces(seq![]);
    lemma_ident_parts("logseq.property"@, n);
    lemma_ident_parts("logseq.property"@, n + seq!['?']);
    assert((n + seq!['?']).drop_last() =~= n);
    if choice.len() == 0 {
        assert(n.last() == '.');
    } else {
        assert(n.last() == choice.last());
    }
    lemma_split_at_dot(prop, choice);
}

/// `:block/name` and `:block/name?` both become `:property.built-in/name`.
pub proof fn law_block_key(name: Seq<char>)
    requires
        !(name.len() > 0 && name.last() == '?'),
    ensures
        db_ident_key(ident("block"@, name)) == Some(":property.built-in/"@ + name),
        db_ident_key(ident("block"@, name + seq!['?'])) == Some(":property.built-in/"@ + name),
{
    reveal_strlit("block");
    reveal_strlit("logseq.class");
    reveal_strlit("logseq.property");
    reveal_strlit("logseq.property.");
    let ns = "block"@;
    assert forall|j: int| 0 <= j < ns.len() implies ns[j] != '/' by {}
    lemma_ident_parts(ns, name);
    lemma_ident_parts(ns, name + seq!['?']);
    assert((name + seq!['?']).drop_last() =~= name);
    assert(ns.len() != "logseq.class"@.len());
    assert(ns.len() != "logseq.property"@.len());
    assert(!starts_with(ns, "logseq.property."@));
}

/// `:logseq.class/Name` becomes `:class.built-in/` followed by the name in
/// lower case, whatever the name holds.
pub proof fn law_class_key(name: Seq<char>)
    ensures
        db_ident_key(ident("logseq.class"@, name)) == Some(":class.built-in/"@ + lowercase(name)),
{
    reveal_strlit("logseq.class");
    let ns = "logseq.class"@;
    assert forall|j: int| 0 <= j < ns.len() implies ns[j] != '/' by {}
    lemma_ident_parts(ns, name);
}

// ---------------------------------------------------------------------------
// Auto-resolved keywords
// ---------------------------------------------------------------------------
/// The name a keyword reading yields, if it yields a keyword.
pub open spec fn keyword_name(o: Outcome<Option<Syntax>>) -> Option<Seq<char>> {
    match o {
        Outcome::Done(Some(Syntax::Keyword(n, _))) => Some(n),
        _ => None,
    }
}

/// Scanning a token depends only on the bytes from the position on.
proof fn lemma_scan_token_shift(b1: Seq<u8>, s1: ReadState, b2: Seq<u8>, s2: ReadState, d: nat)
    requires
        s1.pos <= b1.len(),
        s2.pos == s1.pos + d,
        b2.len() == b1.len() + d,
        forall|i: int| s1.pos <= i < b1.len() ==> #[trigger] b1[i] == b2[i + d],
    ensures
        scan_token(b2, s2).pos == scan_token(b1, s1).pos + d,
        scan_token(b1, s1).pos <= b1.len(),
        s1.pos <= scan_token(b1, s1).pos,
    decreases b1.len() - s1.pos,
{
    if s1.pos < b1.len() {
        assert(b1[s1.pos as int] == b2[(s1.pos + d) as int]);
        lemma_scan_token_shift(b1, advance(b1, s1), b2, advance(b2, s2), d);
    }
}

/// Reading a token depends only on the bytes from the position on.
proof fn lemma_read_token_shift(b1: Seq<u8>, s1: ReadState, b2: Seq<u8>, s2: ReadState, d: nat)
    requires
        s1.pos <= b1.len(),
        s2.pos == s1.pos + d,
        b2.len() == b1.len() + d,
        forall|i: int| s1.pos <= i < b1.len() ==> #[trigger] b1[i] == b2[i + d],
    ensures
        read_token(b2, s2).1 == read_token(b1, s1).1,
{
    lemma_scan_token_shift(b1, s1, b2, s2, d);
    let e1 = scan_token(b1, s1).pos;
    let e2 = scan_token(b2, s2).pos;
    if s1.pos < b1.len() {
        assert(b1[s1.pos as int] == b2[(s1.pos + d) as int]);
    }
    if e1 < b1.len() {
        assert(b1[e1 as int] == b2[(e1 + d) as int]);
    }
    assert(at_char_start(b1, s1.pos as int) == at_char_start(b2, s2.pos as int));
    assert(at_char_start(b1, e1 as int) == at_char_start(b2, e2 as int));
    assert(b1.subrange(s1.pos as int, e1 as int) =~= b2.subrange(s2.pos as int, e2 as int)) by {
        assert forall|i: int| 0 <= i < e1 - s1.pos implies b1.subrange(s1.pos as int, e1 as int)[i]
            == b2.subrange(s2.pos as int, e2 as int)[i] by {
            assert(b1[s1.pos + i] == b2[s1.pos + i + d]);
        }
    }
}

/// An auto-resolved keyword reads as the plain one: `::name` and `:name`
/// yield the same keyword name, and that name is the token after the colon
/// (so it never keeps the second colon).
pub proof fn law_double_colon_keyword(t: Seq<u8>)
    requires
        !(t.len() > 0 && t[0] == 58u8),
    ensures
        keyword_name(read_keyword(seq![58u8, 58u8] + t, initial_state()).1) == keyword_name(
            read_keyword(seq![58u8] + t, initial_state()).1,
        ),
        keyword_name(read_keyword(seq![58u8] + t, initial_state()).1) matches Some(n) ==> Some(n)
            == read_token(t, initial_state()).1,
{
    let b1 = seq![58u8] + t;
    let b2 = seq![58u8, 58u8] + t;
    let s0 = initial_state();
    let s1 = advance(b1, s0);
    let s2a = advance(b2, s0);
    let s2 = advance(b2, s2a);
    assert(s1.pos == 1);
    assert(s2a.pos == 1);
    assert(peek(b2, s2a) == Some(58u8));
    assert(s2.pos == 2);
    assert(peek(b1, s1) != Some(58u8)) by {
        if t.len() > 0 {
            assert(b1[1] == t[0]);
        }
    }
    lemma_read_token_shift(b1, s1, b2, s2, 1);
    assert forall|i: int| 0 <= i < t.len() implies #[trigger] t[i] == b1[i + 1] by {}
    lemma_read_token_shift(t, s0, b1, s1, 1);
}

} // verus!
