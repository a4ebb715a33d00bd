use vstd::prelude::*;

use crate::parser::{SExp, Span};

verus! {

/// The mathematical value of an S-expression: the same tree as [`SExp`], with
/// text held as character sequences and children as sequences.
pub enum Syntax {
    List(Seq<Syntax>, Span),
    Vector(Seq<Syntax>, Span),
    MapLiteral(Seq<Syntax>, Span),
    SetLiteral(Seq<Syntax>, Span),
    Symbol(Seq<char>, Span),
    Keyword(Seq<char>, Span),
    Str(Seq<char>, Span),
    Number(Seq<char>, Span),
    Regex(Seq<char>, Span),
    Char(char, Span),
    Bool(bool, Span),
    Nil(Span),
    Quote(Box<Syntax>, Span),
    SyntaxQuote(Box<Syntax>, Span),
    Unquote(Box<Syntax>, Span),
    UnquoteSplicing(Box<Syntax>, Span),
    Deref(Box<Syntax>, Span),
    Meta(Box<Syntax>, Box<Syntax>, Span),
    Discard(Box<Syntax>, Span),
    VarQuote(Box<Syntax>, Span),
    AnonFn(Seq<Syntax>, Span),
    ReaderConditional(Seq<Syntax>, Span),
    ReaderConditionalSplicing(Seq<Syntax>, Span),
    TaggedLiteral(Seq<char>, Box<Syntax>, Span),
}

/// The value of a syntax tree.
pub open spec fn sexp_view(f: SExp) -> Syntax
    decreases f,
{
    match f {
        SExp::List(items, s) => Syntax::List(sexps_view(items@), s),
        SExp::Vector(items, s) => Syntax::Vector(sexps_view(items@), s),
        SExp::MapLiteral(items, s) => Syntax::MapLiteral(sexps_view(items@), s),
        SExp::SetLiteral(items, s) => Syntax::SetLiteral(sexps_view(items@), s),
        SExp::Symbol(t, s) => Syntax::Symbol(t@, s),
        SExp::Keyword(t, s) => Syntax::Keyword(t@, s),
        SExp::Str(t, s) => Syntax::Str(t@, s),
        SExp::Number(t, s) => Syntax::Number(t@, s),
        SExp::Regex(t, s) => Syntax::Regex(t@, s),
        SExp::Char(c, s) => Syntax::Char(c, s),
        SExp::Bool(b, s) => Syntax::Bool(b, s),
        SExp::Nil(s) => Syntax::Nil(s),
        SExp::Quote(x, s) => Syntax::Quote(Box::new(sexp_view(*x)), s),
        SExp::SyntaxQuote(x, s) => Syntax::SyntaxQuote(Box::new(sexp_view(*x)), s),
        SExp::Unquote(x, s) => Syntax::Unquote(Box::new(sexp_view(*x)), s),
        SExp::UnquoteSplicing(x, s) => Syntax::UnquoteSplicing(Box::new(sexp_view(*x)), s),
        SExp::Deref(x, s) => Syntax::Deref(Box::new(sexp_view(*x)), s),
        SExp::Meta(m, x, s) => Syntax::Meta(Box::new(sexp_view(*m)), Box::new(sexp_view(*x)), s),
        SExp::Discard(x, s) => Syntax::Discard(Box::new(sexp_view(*x)), s),
        SExp::VarQuote(x, s) => Syntax::VarQuote(Box::new(sexp_view(*x)), s),
        SExp::AnonFn(items, s) => Syntax::AnonFn(sexps_view(items@), s),
        SExp::ReaderConditional(items, s) => Syntax::ReaderConditional(sexps_view(items@), s),
        SExp::ReaderConditionalSplicing(items, s) => Syntax::ReaderConditionalSplicing(
            sexps_view(items@),
            s,
        ),
        SExp::TaggedLiteral(t, x, s) => Syntax::TaggedLiteral(t@, Box::new(sexp_view(*x)), s),
    }
}

/// The values of a sequence of syntax trees, element by element.
pub open spec fn sexps_view(s: Seq<SExp>) -> Seq<Syntax>
    decreases s,
{
    if s.len() == 0 {
        seq![]
    } else {
        sexps_view(s.drop_last()).push(sexp_view(s.last()))
    }
}

impl View for SExp {
    type V = Syntax;

    open spec fn view(&self) -> Syntax {
        sexp_view(*self)
    }
}

pub proof fn lemma_sexps_view_push(s: Seq<SExp>, x: SExp)
    ensures
        sexps_view(s.push(x)) == sexps_view(s).push(sexp_view(x)),
{
    assert(s.push(x).drop_last() =~= s);
}

pub proof fn lemma_sexps_view_index(s: Seq<SExp>, i: int)
    requires
        0 <= i < s.len(),
    ensures
        sexps_view(s).len() == s.len(),
        sexps_view(s)[i] == sexp_view(s[i]),
    decreases s.len(),
{
    if i < s.len() - 1 {
        lemma_sexps_view_index(s.drop_last(), i);
    } else {
        lemma_sexps_view_len(s.drop_last());
    }
}

pub proof fn lemma_sexps_view_len(s: Seq<SExp>)
    ensures
        sexps_view(s).len() == s.len(),
    decreases s.len(),
{
    if s.len() > 0 {
        lemma_sexps_view_len(s.drop_last());
    }
}

} // verus!
