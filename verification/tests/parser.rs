use logseq_i18n_lint::parser::{parse, parse_checked, parse_collecting_errors, SExp};

#[test]
fn parse_simple_list() {
    let forms = parse("(a b c)").unwrap();
    assert_eq!(forms.len(), 1);
    if let SExp::List(items, _) = &forms[0] {
        assert_eq!(items.len(), 3);
    } else {
        panic!("expected list");
    }
}

#[test]
fn parse_string_literal() {
    let forms = parse(r#""hello world""#).unwrap();
    assert_eq!(forms.len(), 1);
    if let SExp::Str(s, _) = &forms[0] {
        assert_eq!(s, "hello world");
    } else {
        panic!("expected string");
    }
}

#[test]
fn parse_string_escapes() {
    let forms = parse(r#""line1\nline2\t\"quoted\"""#).unwrap();
    if let SExp::Str(s, _) = &forms[0] {
        assert_eq!(s, "line1\nline2\t\"quoted\"");
    } else {
        panic!("expected string");
    }
}

#[test]
fn parse_keyword() {
    let forms = parse(":foo").unwrap();
    if let SExp::Keyword(k, _) = &forms[0] {
        assert_eq!(k, "foo");
    } else {
        panic!("expected keyword");
    }
}

#[test]
fn parse_vector() {
    let forms = parse("[1 2 3]").unwrap();
    if let SExp::Vector(items, _) = &forms[0] {
        assert_eq!(items.len(), 3);
    } else {
        panic!("expected vector");
    }
}

#[test]
fn parse_map() {
    let forms = parse("{:a 1 :b 2}").unwrap();
    if let SExp::MapLiteral(items, _) = &forms[0] {
        assert_eq!(items.len(), 4);
    } else {
        panic!("expected map");
    }
}

#[test]
fn parse_set() {
    let forms = parse("#{1 2 3}").unwrap();
    if let SExp::SetLiteral(items, _) = &forms[0] {
        assert_eq!(items.len(), 3);
    } else {
        panic!("expected set");
    }
}

#[test]
fn parse_regex() {
    let forms = parse(r#"#"[a-z]+""#).unwrap();
    if let SExp::Regex(r, _) = &forms[0] {
        assert_eq!(r, "[a-z]+");
    } else {
        panic!("expected regex");
    }
}

#[test]
fn parse_quote() {
    let forms = parse("'foo").unwrap();
    if let SExp::Quote(inner, _) = &forms[0] {
        if let SExp::Symbol(s, _) = inner.as_ref() {
            assert_eq!(s, "foo");
        } else {
            panic!("expected symbol in quote");
        }
    } else {
        panic!("expected quote");
    }
}

#[test]
fn parse_deref() {
    let forms = parse("@atom").unwrap();
    if let SExp::Deref(inner, _) = &forms[0] {
        if let SExp::Symbol(s, _) = inner.as_ref() {
            assert_eq!(s, "atom");
        } else {
            panic!("expected symbol in deref");
        }
    } else {
        panic!("expected deref");
    }
}

#[test]
fn parse_discard() {
    let forms = parse("#_ foo bar").unwrap();
    // #_ discards foo, but we still store it as Discard node
    // bar is the next form
    assert_eq!(forms.len(), 2);
    assert!(matches!(&forms[0], SExp::Discard(_, _)));
    assert!(matches!(&forms[1], SExp::Symbol(_, _)));
}

#[test]
fn parse_anon_fn() {
    let forms = parse("#(+ %1 %2)").unwrap();
    if let SExp::AnonFn(items, _) = &forms[0] {
        assert_eq!(items.len(), 3);
    } else {
        panic!("expected anon fn");
    }
}

#[test]
fn parse_nested_hiccup() {
    let forms = parse(r#"[:div {:class "foo"} [:span "hello"]]"#).unwrap();
    if let SExp::Vector(items, _) = &forms[0] {
        assert_eq!(items.len(), 3);
        if let SExp::Vector(inner, _) = &items[2] {
            assert_eq!(inner.len(), 2);
        } else {
            panic!("expected nested vector");
        }
    } else {
        panic!("expected vector");
    }
}

#[test]
fn parse_line_tracking() {
    let forms = parse("(foo\n  bar\n  baz)").unwrap();
    if let SExp::List(items, span) = &forms[0] {
        assert_eq!(span.line, 1);
        assert_eq!(span.col, 1);
        if let SExp::Symbol(_, s) = &items[1] {
            assert_eq!(s.line, 2);
        }
        if let SExp::Symbol(_, s) = &items[2] {
            assert_eq!(s.line, 3);
        }
    }
}

#[test]
fn parse_nil_true_false() {
    let forms = parse("nil true false").unwrap();
    assert_eq!(forms.len(), 3);
    assert!(matches!(&forms[0], SExp::Nil(_)));
    assert!(matches!(&forms[1], SExp::Bool(true, _)));
    assert!(matches!(&forms[2], SExp::Bool(false, _)));
}

#[test]
fn parse_comment_line() {
    let forms = parse("; this is a comment\nfoo").unwrap();
    assert_eq!(forms.len(), 1);
    assert!(matches!(&forms[0], SExp::Symbol(_, _)));
}

#[test]
fn parse_metadata() {
    let forms = parse("^:private foo").unwrap();
    assert!(matches!(&forms[0], SExp::Meta(_, _, _)));
}

#[test]
fn parse_reader_conditional() {
    let forms = parse("#?(:clj 1 :cljs 2)").unwrap();
    if let SExp::ReaderConditional(items, _) = &forms[0] {
        assert_eq!(items.len(), 4);
    } else {
        panic!("expected reader conditional, got {:?}", forms[0]);
    }
}

#[test]
fn parse_unicode_escape() {
    let forms = parse(r#""\u0041""#).unwrap();
    if let SExp::Str(s, _) = &forms[0] {
        assert_eq!(s, "A");
    } else {
        panic!("expected string");
    }
}

#[test]
fn parse_checked_refuses_text_cut_inside_a_character() {
    // An escape before a multi-byte character leaves the reader inside it.
    assert!(parse_checked("(a \"\\é\")").is_none());
}

#[test]
fn parse_checked_reads_what_parse_reads() {
    let source = "(a \"é\" :k) ) [b]";
    let (forms, errors) = parse_checked(source).unwrap();
    let (forms2, errors2) = parse_collecting_errors(source);
    assert_eq!(forms, forms2);
    assert_eq!(errors.len(), 1);
    assert_eq!(errors2.len(), 1);
    assert_eq!(forms.len(), 2);
}
