use vstd::prelude::*;
use vstd::string::*;
use vstd::utf8::*;

use crate::read_model::{
    lemma_scan_token_mono,
    ends_token,
    advance, advance_n, at_char_start, char_of_scalar, char_token_value, closing_message,
    error_at, initial_state, is_ascii_ws, is_delimiter_byte, make_coll, parse_hex, parse_run,
    parse_source, peek, read_char_literal, read_coll_body, read_delimited, read_dispatch,
    read_form, read_keyword, read_metadata, read_n_chars, read_string, read_symbol_or_number,
    read_token, regex_body, scan_token, skip_comment, skip_ws, span_at, spec_is_number,
    string_after_high_surrogate, string_body, surrogate_pair_value, unicode_escape, utf8_len,
    with_depth, wrap_operand, CollKind, ErrorView, Outcome, ReadState, MAX_DEPTH, is_hex_digit,
    hex_digits_value, hex_digit_value, unsigned_digits, all_hex_digits,
};
use crate::syntax::{lemma_sexps_view_push, sexps_view, Syntax};
use crate::text::{char_from_u32, chars_of, decimal_string, string_from_chars, string_of, string_push};

verus! {

/// A position in source code: 1-based line and column, 0-based byte offset.
#[derive(Debug, Clone, Copy, PartialEq, Eq, Structural)]
pub struct Span {
    pub line: u32,
    pub col: u32,
    pub offset: u32,
}

/// S-expression syntax tree node.
#[derive(Debug, PartialEq)]
pub enum SExp {
    List(Vec<SExp>, Span),
    Vector(Vec<SExp>, Span),
    MapLiteral(Vec<SExp>, Span),
    SetLiteral(Vec<SExp>, Span),
    Symbol(String, Span),
    Keyword(String, Span),
    Str(String, Span),
    Number(String, Span),
    Regex(String, Span),
    Char(char, Span),
    Bool(bool, Span),
    Nil(Span),
    Quote(Box<SExp>, Span),
    SyntaxQuote(Box<SExp>, Span),
    Unquote(Box<SExp>, Span),
    UnquoteSplicing(Box<SExp>, Span),
    Deref(Box<SExp>, Span),
    Meta(Box<SExp>, Box<SExp>, Span),
    Discard(Box<SExp>, Span),
    VarQuote(Box<SExp>, Span),
    AnonFn(Vec<SExp>, Span),
    ReaderConditional(Vec<SExp>, Span),
    ReaderConditionalSplicing(Vec<SExp>, Span),
    TaggedLiteral(String, Box<SExp>, Span),
}


impl SExp {
    /// The span a node was read at.
    pub open spec fn spec_span(self) -> Span {
        match self {
            SExp::List(_, s) => s,
            SExp::Vector(_, s) => s,
            SExp::MapLiteral(_, s) => s,
            SExp::SetLiteral(_, s) => s,
            SExp::Symbol(_, s) => s,
            SExp::Keyword(_, s) => s,
            SExp::Str(_, s) => s,
            SExp::Number(_, s) => s,
            SExp::Regex(_, s) => s,
            SExp::Char(_, s) => s,
            SExp::Bool(_, s) => s,
            SExp::Nil(s) => s,
            SExp::Quote(_, s) => s,
            SExp::SyntaxQuote(_, s) => s,
            SExp::Unquote(_, s) => s,
            SExp::UnquoteSplicing(_, s) => s,
            SExp::Deref(_, s) => s,
            SExp::Meta(_, _, s) => s,
            SExp::Discard(_, s) => s,
            SExp::VarQuote(_, s) => s,
            SExp::AnonFn(_, s) => s,
            SExp::ReaderConditional(_, s) => s,
            SExp::ReaderConditionalSplicing(_, s) => s,
            SExp::TaggedLiteral(_, _, s) => s,
        }
    }

    /// The span this node was read at.
    pub fn span(&self) -> (s: Span)
        ensures
            s == self.spec_span(),
    {
        match self {
            SExp::List(_, s)
            | SExp::Vector(_, s)
            | SExp::MapLiteral(_, s)
            | SExp::SetLiteral(_, s)
            | SExp::Symbol(_, s)
            | SExp::Keyword(_, s)
            | SExp::Str(_, s)
            | SExp::Number(_, s)
            | SExp::Regex(_, s)
            | SExp::Char(_, s)
            | SExp::Bool(_, s)
            | SExp::Nil(s)
            | SExp::Quote(_, s)
            | SExp::SyntaxQuote(_, s)
            | SExp::Unquote(_, s)
            | SExp::UnquoteSplicing(_, s)
            | SExp::Deref(_, s)
            | SExp::Meta(_, _, s)
            | SExp::Discard(_, s)
            | SExp::VarQuote(_, s)
            | SExp::AnonFn(_, s)
            | SExp::ReaderConditional(_, s)
            | SExp::ReaderConditionalSplicing(_, s)
            | SExp::TaggedLiteral(_, _, s) => *s,
        }
    }
}

/// A parse error: what went wrong, and where.
#[derive(Debug)]
pub struct ParseError {
    pub message: String,
    pub span: Span,
}

impl View for ParseError {
    type V = ErrorView;

    open spec fn view(&self) -> ErrorView {
        ErrorView { message: self.message@, span: self.span }
    }
}

/// The outcome of reading a form, as a value.
pub open spec fn form_outcome(r: Result<Option<SExp>, ParseError>) -> Outcome<Option<Syntax>> {
    match r {
        Ok(Some(f)) => Outcome::Done(Some(f@)),
        Ok(None) => Outcome::Done(None),
        Err(e) => Outcome::Failed(e@),
    }
}

/// The outcome of reading the items of a collection, as a value.
pub open spec fn items_outcome(r: Result<Vec<SExp>, ParseError>) -> Outcome<Seq<Syntax>> {
    match r {
        Ok(v) => Outcome::Done(sexps_view(v@)),
        Err(e) => Outcome::Failed(e@),
    }
}

/// True when reading the whole text never slices it inside a character.
pub open spec fn reads_cleanly(source: &str) -> bool {
    &&& source.spec_bytes().len() < 0xFFFF_FFFFusize
    &&& !parse_source(source.spec_bytes()).panics
}

struct Reader<'src> {
    source: &'src str,
    bytes: &'src [u8],
    pos: usize,
    line: u32,
    col: u32,
    depth: usize,
    /// Set where the reader meets text it cannot slice (a character cut in
    /// two); reading stops there.
    aborted: bool,
}

impl<'src> Reader<'src> {
    spec fn st(&self) -> ReadState {
        ReadState {
            pos: self.pos as nat,
            line: self.line as nat,
            col: self.col as nat,
            depth: self.depth as nat,
        }
    }

    spec fn wf(&self) -> bool {
        &&& self.bytes@ == self.source.spec_bytes()
        &&& self.bytes@.len() < 0xFFFF_FFFFusize
        &&& self.pos <= self.bytes@.len()
        &&& 1 <= self.line <= self.pos + 1
        &&& 1 <= self.col <= self.pos + 1
        &&& self.depth <= self.pos
    }

    spec fn same_text(&self, other: &Self) -> bool {
        self.source == other.source && self.bytes == other.bytes
    }

    spec fn same_input(&self, other: &Self) -> bool {
        self.same_text(other) && self.aborted == other.aborted
    }

    fn new(source: &'src str) -> (r: Self)
        requires
            source.spec_bytes().len() < 0xFFFF_FFFFusize,
        ensures
            r.wf(),
            r.st() == initial_state(),
            r.source == source,
            !r.aborted,
    {
        Self { source, bytes: source.as_bytes(), pos: 0, line: 1, col: 1, depth: 0, aborted: false }
    }

    /// Whether a character's encoding begins at byte `i` (or `i` is the end).
    fn char_start(&self, i: usize) -> (r: bool)
        requires
            self.wf(),
            i <= self.bytes@.len(),
        ensures
            r == at_char_start(self.bytes@, i as int),
    {
        i == self.bytes.len() || !(0x80u8 <= self.bytes[i] && self.bytes[i] <= 0xBFu8)
    }

    /// Stop reading: the text cannot be sliced here.
    fn abort(&mut self) -> (e: ParseError)
        requires
            old(self).wf(),
        ensures
            final(self).wf(),
            final(self).same_text(old(self)),
            final(self).st() == old(self).st(),
            final(self).aborted,
    {
        self.aborted = true;
        self.error(string_of("text cut inside a character"))
    }

    fn span(&self) -> (s: Span)
        requires
            self.wf(),
        ensures
            s == span_at(self.st()),
    {
        Span { line: self.line, col: self.col, offset: self.pos as u32 }
    }

    fn is_eof(&self) -> (r: bool)
        requires
            self.wf(),
        ensures
            r == (self.pos >= self.bytes@.len()),
    {
        self.pos >= self.bytes.len()
    }

    fn peek(&self) -> (r: Option<u8>)
        requires
            self.wf(),
        ensures
            r == peek(self.bytes@, self.st()),
    {
        if self.pos < self.bytes.len() {
            Some(self.bytes[self.pos])
        } else {
            None
        }
    }

    fn advance(&mut self) -> (r: Option<u8>)
        requires
            old(self).wf(),
        ensures
            final(self).wf(),
            final(self).same_input(old(self)),
            final(self).st() == advance(old(self).bytes@, old(self).st()),
            r == peek(old(self).bytes@, old(self).st()),
            final(self).depth == old(self).depth,
    {
        if self.pos < self.bytes.len() {
            let b = self.bytes[self.pos];
            self.pos += 1;
            if b == 10u8 {
                self.line += 1;
                self.col = 1;
            } else {
                self.col += 1;
            }
            Some(b)
        } else {
            None
        }
    }

    fn skip_whitespace_and_comments(&mut self)
        requires
            old(self).wf(),
        ensures
            final(self).wf(),
            final(self).same_input(old(self)),
            final(self).st() == skip_ws(old(self).bytes@, old(self).st()),
            old(self).pos <= final(self).pos,
            final(self).depth == old(self).depth,
            peek(final(self).bytes@, final(self).st()) matches Some(c) ==> !(is_ascii_ws(c) || c
                == 44u8 || c == 59u8),
    {
        let ghost b = self.bytes@;
        let ghost target = skip_ws(b, self.st());
        loop
            invariant
                self.wf(),
                self.same_input(old(self)),
                self.bytes@ == b,
                skip_ws(b, self.st()) == target,
                old(self).pos <= self.pos,
                self.depth == old(self).depth,
            ensures
                self.wf(),
                self.same_input(old(self)),
                self.st() == target,
                old(self).pos <= self.pos,
                self.depth == old(self).depth,
                peek(b, self.st()) matches Some(c) ==> !(is_ascii_ws(c) || c == 44u8 || c == 59u8),
            decreases b.len() - self.pos,
        {
            let ghost start = self.st();
            let next = self.peek();
            if next.is_none() {
                break;
            }
            let c = next.unwrap();
            if is_ascii_whitespace(c) || c == 44u8 {
                self.advance();
            } else if c == 59u8 {
                assert(skip_ws(b, start) == skip_comment(b, start));
                loop
                    invariant
                        self.wf(),
                        self.same_input(old(self)),
                        self.bytes@ == b,
                        skip_comment(b, self.st()) == target,
                        start.pos <= self.pos,
                        self.pos == start.pos ==> peek(b, self.st()) == Some(59u8),
                        old(self).pos <= self.pos,
                        self.depth == old(self).depth,
                    ensures
                        self.wf(),
                        self.same_input(old(self)),
                        self.bytes@ == b,
                        skip_ws(b, self.st()) == target,
                        start.pos < self.pos,
                        old(self).pos <= self.pos,
                        self.depth == old(self).depth,
                    decreases b.len() - self.pos,
                {
                    let ghost here = self.st();
                    let d = self.peek();
                    if d.is_none() {
                        break;
                    }
                    if d.unwrap() == 10u8 {
                        assert(skip_comment(b, here) == skip_ws(b, advance(b, here)));
                        assert(skip_ws(b, here) == skip_ws(b, advance(b, here)));
                        break;
                    }
                    assert(skip_comment(b, here) == skip_comment(b, advance(b, here)));
                    self.advance();
                }
            } else {
                break;
            }
        }
    }

    fn error(&self, message: String) -> (e: ParseError)
        requires
            self.wf(),
        ensures
            e@ == error_at(self.st(), message@),
    {
        ParseError { message, span: self.span() }
    }
}

/// `u8::is_ascii_whitespace`.
fn is_ascii_whitespace(c: u8) -> (r: bool)
    ensures
        r == is_ascii_ws(c),
{
    c == 32u8 || c == 9u8 || c == 10u8 || c == 12u8 || c == 13u8
}

fn is_delimiter(b: u8) -> (r: bool)
    ensures
        r == is_delimiter_byte(b),
{
    b == 40u8 || b == 41u8 || b == 91u8 || b == 93u8 || b == 123u8 || b == 125u8 || b == 34u8
        || b == 59u8
}

/// True when the token starts with a digit, after an optional sign.
fn is_number(token: &str) -> (r: bool)
    ensures
        r == spec_is_number(token.spec_bytes()),
{
    let bytes = token.as_bytes();
    if bytes.len() == 0 {
        return false;
    }
    let start: usize = if bytes[0] == 43u8 || bytes[0] == 45u8 {
        if bytes.len() == 1 {
            return false;
        }
        1
    } else {
        0
    };
    48u8 <= bytes[start] && bytes[start] <= 57u8
}


/// Reading a UTF-8 text never yields more characters than bytes.
pub proof fn lemma_decode_len(bytes: Seq<u8>)
    requires
        valid_utf8(bytes),
    ensures
        decode_utf8(bytes).len() <= bytes.len(),
    decreases bytes.len(),
{
    if bytes.len() > 0 {
        let rest = pop_first_scalar(bytes);
        assert(rest.len() < bytes.len());
        lemma_decode_len(rest);
    }
}

proof fn lemma_char_start_boundary(b: Seq<u8>, i: int)
    requires
        valid_utf8(b),
        at_char_start(b, i),
    ensures
        is_char_boundary(b, i),
{
    if i == b.len() {
        is_char_boundary_start_end_of_seq(b);
    } else {
        is_char_boundary_iff_not_is_continuation_byte(b, i);
    }
}

/// The first scalar of valid UTF-8 is a Unicode scalar value.
proof fn lemma_first_scalar_is_scalar(bytes: Seq<u8>)
    requires
        valid_first_scalar(bytes),
    ensures
        is_scalar(decode_first_scalar(bytes)),
{
    let b0 = bytes[0];
    if is_leading_byte_width_1(b0) {
        assert((b0 & 0x7F) as u32 <= 0x7F) by (bit_vector);
    } else if is_leading_byte_width_2(b0) {
        let b1 = bytes[1];
        assert((((b0 & 0x1F) as u32) << 6) | ((b1 & 0x3F) as u32) <= 0x7FF) by (bit_vector);
    } else if is_leading_byte_width_3(b0) {
        let b1 = bytes[1];
        let b2 = bytes[2];
        assert((((b0 & 0x0F) as u32) << 12) | (((b1 & 0x3F) as u32) << 6) | ((b2 & 0x3F) as u32)
            <= 0xFFFF) by (bit_vector);
    }
}

impl<'src> Reader<'src> {
    /// The text between two character starts.
    fn slice(&self, start: usize, end: usize) -> (r: String)
        requires
            self.wf(),
            start <= end <= self.bytes@.len(),
            at_char_start(self.bytes@, start as int),
            at_char_start(self.bytes@, end as int),
        ensures
            r@ == decode_utf8(self.bytes@.subrange(start as int, end as int)),
            encode_utf8(r@) == self.bytes@.subrange(start as int, end as int),
            valid_utf8(self.bytes@.subrange(start as int, end as int)),
    {
        let ghost b = self.bytes@;
        proof {
            encode_utf8_valid_utf8(self.source@);
            lemma_char_start_boundary(b, start as int);
        }
        let (_, tail) = self.source.split_at(start);
        proof {
            encode_utf8_valid_utf8(tail@);
            let tb = tail.spec_bytes();
            assert(tb =~= b.subrange(start as int, b.len() as int));
            assert(at_char_start(tb, end - start));
            lemma_char_start_boundary(tb, end - start);
        }
        let (tok, _) = tail.split_at(end - start);
        proof {
            assert(tok.spec_bytes() =~= b.subrange(start as int, end as int));
            encode_utf8_decode_utf8(tok@);
            encode_utf8_valid_utf8(tok@);
        }
        string_of(tok)
    }

    /// The character whose encoding starts at `i`.
    fn char_at(&self, i: usize) -> (c: char)
        requires
            self.wf(),
            i < self.bytes@.len(),
            at_char_start(self.bytes@, i as int),
        ensures
            decode_utf8(self.bytes@.subrange(i as int, self.bytes@.len() as int)).len() > 0,
            c == decode_utf8(self.bytes@.subrange(i as int, self.bytes@.len() as int))[0],
    {
        let ghost b = self.bytes@;
        let ghost sub = b.subrange(i as int, b.len() as int);
        proof {
            encode_utf8_valid_utf8(self.source@);
            lemma_char_start_boundary(b, i as int);
            valid_utf8_split(b, i as int);
            assert(valid_first_scalar(sub));
            lemma_first_scalar_is_scalar(sub);
        }
        let b0 = self.bytes[i];
        let code: u32 = if b0 <= 0x7F {
            (b0 & 0x7F) as u32
        } else if 0xC0 <= b0 && b0 <= 0xDF {
            let b1 = self.bytes[i + 1];
            (((b0 & 0x1F) as u32) << 6) | ((b1 & 0x3F) as u32)
        } else if 0xE0 <= b0 && b0 <= 0xEF {
            let b1 = self.bytes[i + 1];
            let b2 = self.bytes[i + 2];
            (((b0 & 0x0F) as u32) << 12) | (((b1 & 0x3F) as u32) << 6) | ((b2 & 0x3F) as u32)
        } else {
            let b1 = self.bytes[i + 1];
            let b2 = self.bytes[i + 2];
            let b3 = self.bytes[i + 3];
            (((b0 & 0x07) as u32) << 18) | (((b1 & 0x3F) as u32) << 12) | (((b2 & 0x3F) as u32)
                << 6) | ((b3 & 0x3F) as u32)
        };
        assert(code == decode_first_scalar(sub));
        let c = char_from_u32(code).unwrap();
        c
    }

    fn read_token(&mut self) -> (r: Option<String>)
        requires
            old(self).wf(),
        ensures
            final(self).wf(),
            final(self).same_input(old(self)),
            final(self).st() == read_token(old(self).bytes@, old(self).st()).0,
            r is Some <==> read_token(old(self).bytes@, old(self).st()).1 is Some,
            r matches Some(t) ==> t@ == read_token(old(self).bytes@, old(self).st()).1->0
                && encode_utf8(t@) == old(self).bytes@.subrange(
                old(self).pos as int,
                final(self).pos as int,
            ),
            old(self).pos <= final(self).pos,
            final(self).depth == old(self).depth,
            peek(old(self).bytes@, old(self).st()) matches Some(c) && !ends_token(c) ==> old(
                self,
            ).pos < final(self).pos && (r matches Some(t) ==> t@.len() > 0),
    {
        let ghost b = self.bytes@;
        let ghost target = scan_token(b, self.st());
        assert(peek(b, self.st()) matches Some(c) && !ends_token(c) ==> target == scan_token(b, advance(b, self.st())));
        proof {
            lemma_scan_token_mono(b, advance(b, self.st()));
        }
        let start = self.pos;
        loop
            invariant
                self.wf(),
                self.same_input(old(self)),
                self.bytes@ == b,
                scan_token(b, self.st()) == target,
                old(self).pos <= self.pos,
                self.depth == old(self).depth,
                peek(b, old(self).st()) matches Some(c) && !ends_token(c) ==> old(self).pos < target.pos,
            ensures
                self.wf(),
                self.same_input(old(self)),
                self.st() == target,
                old(self).pos <= self.pos,
                self.depth == old(self).depth,
                peek(b, old(self).st()) matches Some(c) && !ends_token(c) ==> old(self).pos < target.pos,
            decreases b.len() - self.pos,
        {
            match self.peek() {
                Some(c) => {
                    if is_ascii_whitespace(c) || is_delimiter(c) || c == 44u8 {
                        break;
                    }
                    self.advance();
                },
                None => break,
            }
        }
        if !(self.char_start(start) && self.char_start(self.pos)) {
            return None;
        }
        let r = self.slice(start, self.pos);
        proof {
            if self.pos > start {
                let sub = b.subrange(start as int, self.pos as int);
                assert(decode_utf8(sub).len() > 0);
            }
        }
        Some(r)
    }

    /// Read `n` bytes, one character per byte.
    fn read_n_chars(&mut self, n: usize) -> (r: Result<Vec<char>, ParseError>)
        requires
            old(self).wf(),
        ensures
            final(self).wf(),
            final(self).same_input(old(self)),
            final(self).st() == read_n_chars(old(self).bytes@, old(self).st(), n as nat, seq![]).0,
            match r {
                Ok(v) => read_n_chars(old(self).bytes@, old(self).st(), n as nat, seq![]).1 == Some(
                    v@,
                ),
                Err(e) => read_n_chars(old(self).bytes@, old(self).st(), n as nat, seq![]).1 is None
                    && e@ == error_at(final(self).st(), "unexpected EOF reading escape sequence"@),
            },
            old(self).pos <= final(self).pos,
            final(self).depth == old(self).depth,
    {
        let ghost b = self.bytes@;
        let ghost target = read_n_chars(b, self.st(), n as nat, seq![]);
        let mut s: Vec<char> = Vec::new();
        let mut i: usize = 0;
        while i < n
            invariant
                self.wf(),
                self.same_input(old(self)),
                self.bytes@ == b,
                i <= n,
                b == old(self).bytes@,
                target == read_n_chars(b, old(self).st(), n as nat, seq![]),
                read_n_chars(b, self.st(), (n - i) as nat, s@) == target,
                old(self).pos <= self.pos,
                self.depth == old(self).depth,
            decreases n - i,
        {
            match self.advance() {
                Some(c) => s.push(c as char),
                None => {
                    assert(read_n_chars(b, self.st(), (n - i) as nat, s@) == (
                        self.st(),
                        None::<Seq<char>>,
                    ));
                    assert(self.st() == target.0);
                    assert(target.1 is None);
                    return Err(self.error(string_of("unexpected EOF reading escape sequence")));
                },
            }
            i += 1;
        }
        Ok(s)
    }

    /// After `\u` and its four characters `hex`: the character the escape
    /// stands for.
    fn read_unicode_escape(&mut self, hex: &Vec<char>) -> (r: Result<char, ParseError>)
        requires
            old(self).wf(),
            hex@.len() == 4,
        ensures
            final(self).wf(),
            final(self).same_input(old(self)),
            final(self).st() == unicode_escape(old(self).bytes@, old(self).st(), hex@).0,
            match r {
                Ok(c) => unicode_escape(old(self).bytes@, old(self).st(), hex@).2 is None
                    && unicode_escape(old(self).bytes@, old(self).st(), hex@).1 == seq![c],
                Err(e) => unicode_escape(old(self).bytes@, old(self).st(), hex@).2 == Some(e@),
            },
            old(self).pos <= final(self).pos,
            final(self).depth == old(self).depth,
    {
        let ghost b = self.bytes@;
        let ghost st = self.st();
        match parse_hex_chars(hex, 0) {
            None => {
                let mut m = string_of("invalid unicode escape: \\u");
                m.append(string_from_chars(hex).as_str());
                assert(hex@.skip(0) =~= hex@);
                Err(self.error(m))
            },
            Some(code) => {
                assert(hex@.skip(0) =~= hex@);
                if 0xD800 <= code && code <= 0xDBFF {
                    if self.pos < self.bytes.len() && self.bytes[self.pos] == 92u8 && self.pos + 1
                        < self.bytes.len() && self.bytes[self.pos + 1] == 117u8 {
                        self.advance();
                        self.advance();
                        let hex2 = self.read_n_chars(4)?;
                        proof {
                            lemma_read_n_chars_len(b, advance(b, advance(b, st)), 4, seq![]);
                        }
                        assert(hex2@.skip(0) =~= hex2@);
                        match parse_hex_chars(&hex2, 0) {
                            Some(low) => {
                                if 0xDC00 <= low && low <= 0xDFFF {
                                    let scalar = 0x10000 + (code - 0xD800) * 0x400 + (low - 0xDC00);
                                    assert(scalar == surrogate_pair_value(code, low));
                                    match char_from_u32(scalar) {
                                        Some(c) => Ok(c),
                                        None => Ok('\u{FFFD}'),
                                    }
                                } else {
                                    Ok('\u{FFFD}')
                                }
                            },
                            None => Ok('\u{FFFD}'),
                        }
                    } else {
                        Ok('\u{FFFD}')
                    }
                } else {
                    match char_from_u32(code) {
                        Some(c) => Ok(c),
                        None => {
                            let mut m = string_of("invalid unicode code point: ");
                            m.append(decimal_string(code).as_str());
                            Err(self.error(m))
                        },
                    }
                }
            },
        }
    }
}

proof fn lemma_read_n_chars_len(b: Seq<u8>, st: ReadState, n: nat, acc: Seq<char>)
    ensures
        read_n_chars(b, st, n, acc).1 matches Some(v) ==> v.len() == acc.len() + n,
    decreases n,
{
    if n > 0 {
        lemma_read_n_chars_len(b, advance(b, st), (n - 1) as nat, acc.push(b[st.pos as int] as char));
    }
}

/// `u32::from_str_radix(s, 16)` on the characters from `from` on (at most four).
fn parse_hex_chars(s: &Vec<char>, from: usize) -> (r: Option<u32>)
    requires
        from <= s@.len(),
        s@.len() - from <= 4,
    ensures
        r == parse_hex(s@.skip(from as int)),
{
    let ghost t = s@.skip(from as int);
    let start: usize = if from < s.len() && s[from] == '+' {
        from + 1
    } else {
        from
    };
    let ghost digits = s@.skip(start as int);
    assert(digits =~= unsigned_digits(t));
    if start >= s.len() {
        return None;
    }
    let mut value: u32 = 0;
    let mut i: usize = start;
    while i < s.len()
        invariant
            start <= i <= s@.len(),
            s@.len() - start <= 4,
            digits == s@.skip(start as int),
            t == s@.skip(from as int),
            digits == unsigned_digits(t),
            digits.len() > 0,
            forall|k: int| 0 <= k < i - start ==> is_hex_digit(#[trigger] digits[k]),
            value as nat == hex_digits_value(digits.subrange(0, i - start)),
            value < pow16(i - start),
        decreases s.len() - i,
    {
        let c = s[i];
        let d: u32 = if '0' <= c && c <= '9' {
            (c as u32) - ('0' as u32)
        } else if 'a' <= c && c <= 'f' {
            (c as u32) - ('a' as u32) + 10
        } else if 'A' <= c && c <= 'F' {
            (c as u32) - ('A' as u32) + 10
        } else {
            assert(!is_hex_digit(digits[i - start]));
            assert(!all_hex_digits(digits));
            return None;
        };
        assert(digits[i - start] == c);
        assert(d as nat == hex_digit_value(c));
        assert(digits.subrange(0, i - start + 1).drop_last() =~= digits.subrange(0, i - start));
        proof {
            lemma_pow16_step(i - start);
        }
        value = value * 16 + d;
        i += 1;
    }
    assert(digits.subrange(0, digits.len() as int) =~= digits);
    Some(value)
}

pub open spec fn pow16(n: int) -> nat
    decreases n,
{
    if n <= 0 {
        1
    } else {
        16 * pow16(n - 1)
    }
}

proof fn lemma_pow16_step(n: int)
    requires
        0 <= n < 4,
    ensures
        pow16(n + 1) == 16 * pow16(n),
        pow16(n + 1) <= 65536,
{
    reveal_with_fuel(pow16, 5);
}


/// Number of bytes in the UTF-8 encoding of a character (`char::len_utf8`).
fn len_utf8(c: char) -> (n: usize)
    ensures
        n == utf8_len(c),
        1 <= n <= 4,
{
    let code = c as u32;
    if code < 0x80 {
        1
    } else if code < 0x800 {
        2
    } else if code < 0x10000 {
        3
    } else {
        4
    }
}

/// True when the string holds exactly the literal text.
pub fn text_is(s: &String, lit: &str) -> (r: bool)
    ensures
        r == (s@ == lit@),
{
    let other = string_of(lit);
    *s == other
}

impl<'src> Reader<'src> {
    #[verifier::rlimit(40)]
    fn read_string(&mut self) -> (r: Result<Option<SExp>, ParseError>)
        requires
            old(self).wf(),
            peek(old(self).bytes@, old(self).st()) == Some(34u8),
            !old(self).aborted,
        ensures
            final(self).wf(),
            final(self).same_text(old(self)),
            final(self).aborted == (read_string(old(self).bytes@, old(self).st()).1 is Panics),
            final(self).aborted ==> r is Err,
            !final(self).aborted ==> (final(self).st(), form_outcome(r)) == read_string(
                old(self).bytes@,
                old(self).st(),
            ),
            old(self).pos < final(self).pos,
            final(self).depth == old(self).depth,
    {
        let ghost b = self.bytes@;
        let span = self.span();
        self.advance();
        let ghost body_start = self.st();
        let ghost target = string_body(b, body_start, seq![]);
        let mut s = String::new();
        loop
            invariant
                self.wf(),
                self.same_input(old(self)),
                self.bytes@ == b,
                b == old(self).bytes@,
                body_start == advance(b, old(self).st()),
                target == string_body(b, body_start, seq![]),
                string_body(b, self.st(), s@) == target,
                !self.aborted,
                old(self).pos < self.pos,
                self.depth == old(self).depth,
                span == span_at(old(self).st()),
            decreases b.len() - self.pos,
        {
            let ghost here = self.st();
            let ghost acc = s@;
            let here_pos = self.pos;
            let next = self.advance();
            if next.is_none() {
                return Err(self.error(string_of("unexpected EOF in string literal")));
            }
            let c = next.unwrap();
            if c == 34u8 {
                return Ok(Some(SExp::Str(s, span)));
            } else if c == 92u8 {
                let esc = self.advance();
                if esc.is_none() {
                    return Err(self.error(string_of("unexpected EOF in string escape")));
                }
                let e = esc.unwrap();
                if e == 110u8 {
                    string_push(&mut s, '\n');
                } else if e == 116u8 {
                    string_push(&mut s, '\t');
                } else if e == 114u8 {
                    string_push(&mut s, '\r');
                } else if e == 92u8 {
                    string_push(&mut s, '\\');
                } else if e == 34u8 {
                    string_push(&mut s, '"');
                } else if e == 117u8 {
                    let hex = self.read_n_chars(4)?;
                    proof {
                        lemma_read_n_chars_len(b, advance(b, advance(b, here)), 4, seq![]);
                    }
                    let ch = self.read_unicode_escape(&hex)?;
                    if self.pos <= here_pos {
                        return Err(self.abort());
                    }
                    assert(acc + seq![ch] =~= acc.push(ch));
                    string_push(&mut s, ch);
                } else {
                    string_push(&mut s, '\\');
                    string_push(&mut s, e as char);
                }
            } else if c < 0x80u8 {
                string_push(&mut s, c as char);
            } else {
                let char_start = self.pos - 1;
                if !self.char_start(char_start) {
                    return Err(self.abort());
                }
                let ch = self.char_at(char_start);
                string_push(&mut s, ch);
                let extra = len_utf8(ch) - 1;
                let ghost after = self.st();
                let mut k: usize = 0;
                while k < extra
                    invariant
                        self.wf(),
                        self.same_input(old(self)),
                        self.bytes@ == b,
                        k <= extra,
                        advance_n(b, self.st(), (extra - k) as nat) == advance_n(
                            b,
                            after,
                            extra as nat,
                        ),
                        after.pos <= self.pos,
                        self.depth == old(self).depth,
                    decreases extra - k,
                {
                    self.advance();
                    k += 1;
                }
                if self.pos <= here_pos {
                    return Err(self.abort());
                }
            }
        }
    }

    fn read_keyword(&mut self) -> (r: Result<Option<SExp>, ParseError>)
        requires
            old(self).wf(),
            peek(old(self).bytes@, old(self).st()) == Some(58u8),
            !old(self).aborted,
        ensures
            final(self).wf(),
            final(self).same_text(old(self)),
            final(self).aborted == (read_keyword(old(self).bytes@, old(self).st()).1 is Panics),
            final(self).aborted ==> r is Err,
            !final(self).aborted ==> (final(self).st(), form_outcome(r)) == read_keyword(
                old(self).bytes@,
                old(self).st(),
            ),
            old(self).pos < final(self).pos,
            final(self).depth == old(self).depth,
    {
        let span = self.span();
        self.advance();
        match self.peek() {
            Some(c) => {
                if c == 58u8 {
                    self.advance();
                }
            },
            None => {},
        }
        let name = match self.read_token() {
            Some(t) => t,
            None => return Err(self.abort()),
        };
        if name.as_str().is_empty() {
            return Err(self.error(string_of("empty keyword")));
        }
        Ok(Some(SExp::Keyword(name, span)))
    }

    fn read_symbol_or_number(&mut self) -> (r: Result<Option<SExp>, ParseError>)
        requires
            old(self).wf(),
            !old(self).aborted,
        ensures
            final(self).wf(),
            final(self).same_text(old(self)),
            final(self).aborted == (read_symbol_or_number(old(self).bytes@, old(self).st()).1 is Panics),
            final(self).aborted ==> r is Err,
            !final(self).aborted ==> (final(self).st(), form_outcome(r)) == read_symbol_or_number(
                old(self).bytes@,
                old(self).st(),
            ),
            old(self).pos <= final(self).pos,
            final(self).depth == old(self).depth,
            r matches Ok(Some(_)) ==> old(self).pos < final(self).pos,
            peek(old(self).bytes@, old(self).st()) matches Some(c) && !ends_token(c) ==> !(r matches Ok(None)),
    {
        let span = self.span();
        let token = match self.read_token() {
            Some(t) => t,
            None => return Err(self.abort()),
        };
        if token.as_str().is_empty() {
            return Ok(None);
        }
        if text_is(&token, "nil") {
            Ok(Some(SExp::Nil(span)))
        } else if text_is(&token, "true") {
            Ok(Some(SExp::Bool(true, span)))
        } else if text_is(&token, "false") {
            Ok(Some(SExp::Bool(false, span)))
        } else if is_number(token.as_str()) {
            Ok(Some(SExp::Number(token, span)))
        } else {
            Ok(Some(SExp::Symbol(token, span)))
        }
    }

    fn read_char_literal(&mut self) -> (r: Result<Option<SExp>, ParseError>)
        requires
            old(self).wf(),
            peek(old(self).bytes@, old(self).st()) == Some(92u8),
            !old(self).aborted,
        ensures
            final(self).wf(),
            final(self).same_text(old(self)),
            final(self).aborted == (read_char_literal(old(self).bytes@, old(self).st()).1 is Panics),
            final(self).aborted ==> r is Err,
            !final(self).aborted ==> (final(self).st(), form_outcome(r)) == read_char_literal(
                old(self).bytes@,
                old(self).st(),
            ),
            old(self).pos < final(self).pos,
            final(self).depth == old(self).depth,
    {
        let ghost b = self.bytes@;
        let span = self.span();
        self.advance();
        let start = self.pos;
        let first = self.peek();
        if first.is_none() {
            return Err(self.error(string_of("unexpected EOF in char literal")));
        }
        let c = first.unwrap();
        if is_delimiter(c) || c == 44u8 || is_ascii_whitespace(c) {
            self.advance();
            return Ok(Some(SExp::Char(c as char, span)));
        }
        let token = match self.read_token() {
            Some(t) => t,
            None => return Err(self.abort()),
        };
        let ghost tok = token@;
        let tlen = self.pos - start;
        let tchars = chars_of(token.as_str());
        proof {
            let sub = b.subrange(start as int, self.pos as int);
            encode_utf8_valid_utf8(tok);
            encode_utf8_decode_utf8(tok);
            lemma_decode_len(sub);
        }
        let ch = if text_is(&token, "newline") {
            '\n'
        } else if text_is(&token, "return") {
            '\r'
        } else if text_is(&token, "space") {
            ' '
        } else if text_is(&token, "tab") {
            '\t'
        } else if text_is(&token, "backspace") {
            '\u{8}'
        } else if text_is(&token, "formfeed") {
            '\u{C}'
        } else if tchars.len() > 0 && tchars[0] == 'u' && tlen == 5 {
            match parse_hex_chars(&tchars, 1) {
                None => {
                    let mut m = string_of("invalid char unicode: \\");
                    m.append(token.as_str());
                    return Err(self.error(m));
                },
                Some(code) => match char_from_u32(code) {
                    Some(c) => c,
                    None => {
                        let mut m = string_of("invalid char code: ");
                        m.append(decimal_string(code).as_str());
                        return Err(self.error(m));
                    },
                },
            }
        } else if tlen == 1 {
            tchars[0]
        } else {
            let mut m = string_of("invalid char literal: \\");
            m.append(token.as_str());
            return Err(self.error(m));
        };
        Ok(Some(SExp::Char(ch, span)))
    }

    fn read_list(&mut self) -> (r: Result<Option<SExp>, ParseError>)
        requires
            old(self).wf(),
            old(self).pos < old(self).bytes@.len(),
            !old(self).aborted,
        ensures
            final(self).wf(),
            final(self).same_text(old(self)),
            final(self).aborted == (read_coll_body(
                old(self).bytes@,
                advance(old(self).bytes@, old(self).st()),
                41u8,
                CollKind::List,
                span_at(old(self).st()),
            ).1 is Panics),
            final(self).aborted ==> r is Err,
            !final(self).aborted ==> (final(self).st(), form_outcome(r)) == read_coll_body(
                old(self).bytes@,
                advance(old(self).bytes@, old(self).st()),
                41u8,
                CollKind::List,
                span_at(old(self).st()),
            ),
            old(self).pos < final(self).pos,
            r is Ok ==> final(self).depth == old(self).depth,
        decreases (old(self).bytes@.len() - old(self).pos) as nat, 2int,
    {
        let span = self.span();
        self.advance();
        self.depth += 1;
        let items = self.read_delimited(41u8)?;
        self.depth -= 1;
        Ok(Some(SExp::List(items, span)))
    }

    fn read_vector(&mut self) -> (r: Result<Option<SExp>, ParseError>)
        requires
            old(self).wf(),
            old(self).pos < old(self).bytes@.len(),
            !old(self).aborted,
        ensures
            final(self).wf(),
            final(self).same_text(old(self)),
            final(self).aborted == (read_coll_body(
                old(self).bytes@,
                advance(old(self).bytes@, old(self).st()),
                93u8,
                CollKind::Vector,
                span_at(old(self).st()),
            ).1 is Panics),
            final(self).aborted ==> r is Err,
            !final(self).aborted ==> (final(self).st(), form_outcome(r)) == read_coll_body(
                old(self).bytes@,
                advance(old(self).bytes@, old(self).st()),
                93u8,
                CollKind::Vector,
                span_at(old(self).st()),
            ),
            old(self).pos < final(self).pos,
            r is Ok ==> final(self).depth == old(self).depth,
        decreases (old(self).bytes@.len() - old(self).pos) as nat, 2int,
    {
        let span = self.span();
        self.advance();
        self.depth += 1;
        let items = self.read_delimited(93u8)?;
        self.depth -= 1;
        Ok(Some(SExp::Vector(items, span)))
    }

    fn read_map(&mut self) -> (r: Result<Option<SExp>, ParseError>)
        requires
            old(self).wf(),
            old(self).pos < old(self).bytes@.len(),
            !old(self).aborted,
        ensures
            final(self).wf(),
            final(self).same_text(old(self)),
            final(self).aborted == (read_coll_body(
                old(self).bytes@,
                advance(old(self).bytes@, old(self).st()),
                125u8,
                CollKind::MapLiteral,
                span_at(old(self).st()),
            ).1 is Panics),
            final(self).aborted ==> r is Err,
            !final(self).aborted ==> (final(self).st(), form_outcome(r)) == read_coll_body(
                old(self).bytes@,
                advance(old(self).bytes@, old(self).st()),
                125u8,
                CollKind::MapLiteral,
                span_at(old(self).st()),
            ),
            old(self).pos < final(self).pos,
            r is Ok ==> final(self).depth == old(self).depth,
        decreases (old(self).bytes@.len() - old(self).pos) as nat, 2int,
    {
        let span = self.span();
        self.advance();
        self.depth += 1;
        let items = self.read_delimited(125u8)?;
        self.depth -= 1;
        Ok(Some(SExp::MapLiteral(items, span)))
    }

    /// Items up to the closing delimiter, which is consumed.
    fn read_delimited(&mut self, closing: u8) -> (r: Result<Vec<SExp>, ParseError>)
        requires
            old(self).wf(),
            !old(self).aborted,
        ensures
            final(self).wf(),
            final(self).same_text(old(self)),
            final(self).aborted == (read_delimited(old(self).bytes@, old(self).st(), closing, seq![]).1 is Panics),
            final(self).aborted ==> r is Err,
            !final(self).aborted ==> (final(self).st(), items_outcome(r)) == read_delimited(
                old(self).bytes@,
                old(self).st(),
                closing,
                seq![],
            ),
            old(self).pos <= final(self).pos,
            r is Ok ==> final(self).depth == old(self).depth && old(self).pos < final(self).pos,
        decreases (old(self).bytes@.len() - old(self).pos) as nat, 4int,
    {
        let ghost b = self.bytes@;
        let ghost target = read_delimited(b, self.st(), closing, seq![]);
        let mut items: Vec<SExp> = Vec::new();
        loop
            invariant
                self.wf(),
                self.same_input(old(self)),
                self.bytes@ == b,
                b == old(self).bytes@,
                target == read_delimited(b, old(self).st(), closing, seq![]),
                read_delimited(b, self.st(), closing, sexps_view(items@)) == target,
                !self.aborted,
                old(self).pos <= self.pos,
                self.depth == old(self).depth,
            decreases b.len() - self.pos,
        {
            let ghost here = self.st();
            self.skip_whitespace_and_comments();
            match self.peek() {
                Some(c) => {
                    if c == closing {
                        self.advance();
                        return Ok(items);
                    }
                },
                None => {
                    let mut m = string_of("unexpected EOF, expected '");
                    string_push(&mut m, closing as char);
                    string_push(&mut m, '\'');
                    return Err(self.error(m));
                },
            }
            let ghost before = self.st();
            let before_pos = self.pos;
            let form = self.read_form()?;
            if self.pos <= before_pos {
                return Err(self.abort());
            }
            match form {
                Some(f) => {
                    proof {
                        lemma_sexps_view_push(items@, f);
                    }
                    items.push(f);
                },
                None => {},
            }
        }
    }

    /// `^meta target`: consumes the byte at the current position first.
    fn read_metadata(&mut self, span: Span) -> (r: Result<Option<SExp>, ParseError>)
        requires
            old(self).wf(),
            !old(self).aborted,
        ensures
            final(self).wf(),
            final(self).same_text(old(self)),
            final(self).aborted == (read_metadata(old(self).bytes@, old(self).st(), span).1 is Panics),
            final(self).aborted ==> r is Err,
            !final(self).aborted ==> (final(self).st(), form_outcome(r)) == read_metadata(
                old(self).bytes@,
                old(self).st(),
                span,
            ),
            old(self).pos <= final(self).pos,
            r is Ok ==> final(self).depth == old(self).depth && old(self).pos < final(self).pos,
        decreases (old(self).bytes@.len() - old(self).pos) as nat, if old(self).pos < old(
            self,
        ).bytes@.len() {
            2int
        } else {
            6int
        },
    {
        self.advance();
        let meta_pos = self.pos;
        let meta = match self.read_form()? {
            Some(m) => m,
            None => return Err(self.error(string_of("expected metadata form"))),
        };
        if self.pos <= meta_pos {
            return Err(self.abort());
        }
        let target = match self.read_form()? {
            Some(t) => t,
            None => return Err(self.error(string_of("expected form after metadata"))),
        };
        Ok(Some(SExp::Meta(Box::new(meta), Box::new(target), span)))
    }
}


impl<'src> Reader<'src> {
    /// The body of a regex literal, after `#"`, up to and including the
    /// closing quote.
    fn read_regex_body(&mut self) -> (r: Result<String, ParseError>)
        requires
            old(self).wf(),
        ensures
            final(self).wf(),
            final(self).same_input(old(self)),
            final(self).st() == regex_body(old(self).bytes@, old(self).st(), seq![]).0,
            match r {
                Ok(s) => regex_body(old(self).bytes@, old(self).st(), seq![]).1 == Outcome::Done(
                    s@,
                ),
                Err(e) => regex_body(old(self).bytes@, old(self).st(), seq![]).1
                    == Outcome::<Seq<char>>::Failed(e@),
            },
            old(self).pos <= final(self).pos,
            final(self).depth == old(self).depth,
    {
        let ghost b = self.bytes@;
        let ghost target = regex_body(b, self.st(), seq![]);
        let mut s = String::new();
        loop
            invariant
                self.wf(),
                self.same_input(old(self)),
                self.bytes@ == b,
                b == old(self).bytes@,
                target == regex_body(b, old(self).st(), seq![]),
                regex_body(b, self.st(), s@) == target,
                old(self).pos <= self.pos,
                self.depth == old(self).depth,
            decreases b.len() - self.pos,
        {
            let next = self.advance();
            match next {
                None => {
                    return Err(self.error(string_of("unexpected EOF in regex literal")));
                },
                Some(c) => {
                    if c == 34u8 {
                        return Ok(s);
                    } else if c == 92u8 {
                        string_push(&mut s, '\\');
                        match self.advance() {
                            Some(n) => string_push(&mut s, n as char),
                            None => {},
                        }
                    } else {
                        string_push(&mut s, c as char);
                    }
                },
            }
        }
    }

    /// True when the next byte is `c`.
    fn next_is(&self, c: u8) -> (r: bool)
        requires
            self.wf(),
        ensures
            r == (peek(self.bytes@, self.st()) == Some(c)),
    {
        self.pos < self.bytes.len() && self.bytes[self.pos] == c
    }

    /// A form starting with `#`.
    #[verifier::rlimit(50)]
    fn read_dispatch(&mut self) -> (r: Result<Option<SExp>, ParseError>)
        requires
            old(self).wf(),
            old(self).pos < old(self).bytes@.len(),
            !old(self).aborted,
        ensures
            final(self).wf(),
            final(self).same_text(old(self)),
            final(self).aborted == (read_dispatch(old(self).bytes@, old(self).st()).1 is Panics),
            final(self).aborted ==> r is Err,
            !final(self).aborted ==> (final(self).st(), form_outcome(r)) == read_dispatch(
                old(self).bytes@,
                old(self).st(),
            ),
            old(self).pos < final(self).pos,
            r is Ok ==> final(self).depth == old(self).depth,
        decreases (old(self).bytes@.len() - old(self).pos) as nat, 2int,
    {
        let span = self.span();
        self.advance();
        let next = self.peek();
        if next.is_none() {
            return Err(self.error(string_of("unexpected EOF after #")));
        }
        let c = next.unwrap();
        if c == 123u8 {
            self.advance();
            self.depth += 1;
            let items = self.read_delimited(125u8)?;
            self.depth -= 1;
            Ok(Some(SExp::SetLiteral(items, span)))
        } else if c == 40u8 {
            self.advance();
            self.depth += 1;
            let items = self.read_delimited(41u8)?;
            self.depth -= 1;
            Ok(Some(SExp::AnonFn(items, span)))
        } else if c == 34u8 {
            self.advance();
            let s = self.read_regex_body()?;
            Ok(Some(SExp::Regex(s, span)))
        } else if c == 39u8 {
            self.advance();
            match self.read_form()? {
                Some(x) => Ok(Some(SExp::VarQuote(Box::new(x), span))),
                None => Err(self.error(string_of("expected form after #'"))),
            }
        } else if c == 95u8 {
            self.advance();
            match self.read_form()? {
                Some(x) => Ok(Some(SExp::Discard(Box::new(x), span))),
                None => Err(self.error(string_of("expected form after #_"))),
            }
        } else if c == 94u8 {
            self.advance();
            self.read_metadata(span)
        } else if c == 63u8 {
            self.advance();
            if self.next_is(64u8) {
                self.advance();
                if self.next_is(40u8) {
                    self.advance();
                    self.depth += 1;
                    let items = self.read_delimited(41u8)?;
                    self.depth -= 1;
                    Ok(Some(SExp::ReaderConditionalSplicing(items, span)))
                } else {
                    Err(self.error(string_of("expected '(' after #?@")))
                }
            } else if self.next_is(40u8) {
                self.advance();
                self.depth += 1;
                let items = self.read_delimited(41u8)?;
                self.depth -= 1;
                Ok(Some(SExp::ReaderConditional(items, span)))
            } else {
                Err(self.error(string_of("expected '(' after #?")))
            }
        } else {
            let tag = match self.read_token() {
                Some(t) => t,
                None => return Err(self.abort()),
            };
            if tag.as_str().is_empty() {
                return Err(self.error(string_of("empty tagged literal")));
            }
            self.skip_whitespace_and_comments();
            match self.read_form()? {
                Some(v) => Ok(Some(SExp::TaggedLiteral(tag, Box::new(v), span))),
                None => Err(self.error(string_of("expected form after tagged literal"))),
            }
        }
    }

    /// One form, after skipping whitespace and comments; `None` at the end of
    /// the input.
    fn read_form(&mut self) -> (r: Result<Option<SExp>, ParseError>)
        requires
            old(self).wf(),
            !old(self).aborted,
        ensures
            final(self).wf(),
            final(self).same_text(old(self)),
            final(self).aborted == (read_form(old(self).bytes@, old(self).st()).1 is Panics),
            final(self).aborted ==> r is Err,
            !final(self).aborted ==> (final(self).st(), form_outcome(r)) == read_form(
                old(self).bytes@,
                old(self).st(),
            ),
            old(self).pos <= final(self).pos,
            r is Ok ==> final(self).depth == old(self).depth,
        decreases (old(self).bytes@.len() - old(self).pos) as nat, 3int,
    {
        self.skip_whitespace_and_comments();
        if self.is_eof() {
            return Ok(None);
        }
        if self.depth > MAX_DEPTH {
            return Err(self.error(string_of("maximum nesting depth exceeded")));
        }
        let span = self.span();
        let c = self.bytes[self.pos];
        if c == 40u8 {
            self.read_list()
        } else if c == 91u8 {
            self.read_vector()
        } else if c == 123u8 {
            self.read_map()
        } else if c == 34u8 {
            self.read_string()
        } else if c == 58u8 {
            self.read_keyword()
        } else if c == 92u8 {
            self.read_char_literal()
        } else if c == 39u8 {
            self.advance();
            match self.read_form()? {
                Some(x) => Ok(Some(SExp::Quote(Box::new(x), span))),
                None => Err(self.error(string_of("expected form after '"))),
            }
        } else if c == 96u8 {
            self.advance();
            match self.read_form()? {
                Some(x) => Ok(Some(SExp::SyntaxQuote(Box::new(x), span))),
                None => Err(self.error(string_of("expected form after `"))),
            }
        } else if c == 126u8 {
            self.advance();
            if self.next_is(64u8) {
                self.advance();
                match self.read_form()? {
                    Some(x) => Ok(Some(SExp::UnquoteSplicing(Box::new(x), span))),
                    None => Err(self.error(string_of("expected form after ~@"))),
                }
            } else {
                match self.read_form()? {
                    Some(x) => Ok(Some(SExp::Unquote(Box::new(x), span))),
                    None => Err(self.error(string_of("expected form after ~"))),
                }
            }
        } else if c == 64u8 {
            self.advance();
            match self.read_form()? {
                Some(x) => Ok(Some(SExp::Deref(Box::new(x), span))),
                None => Err(self.error(string_of("expected form after @"))),
            }
        } else if c == 94u8 {
            self.read_metadata(span)
        } else if c == 35u8 {
            self.read_dispatch()
        } else if c == 41u8 || c == 93u8 || c == 125u8 {
            Err(self.error(string_of("unexpected closing delimiter")))
        } else {
            self.read_symbol_or_number()
        }
    }
}

/// The values of a sequence of parse errors.
pub open spec fn errors_view(v: Seq<ParseError>) -> Seq<ErrorView> {
    v.map_values(|e: ParseError| e@)
}

/// Read all top-level forms of a source text.  Each error is recorded, one
/// byte is skipped, and reading goes on.  The result is `None` exactly where
/// the text cannot be read through ([`reads_cleanly`] fails): a character
/// would be cut in two, or the text is too long to be measured in `u32`.
pub fn parse_checked(source: &str) -> (r: Option<(Vec<SExp>, Vec<ParseError>)>)
    ensures
        r is Some <==> reads_cleanly(source),
        r matches Some(p) ==> sexps_view(p.0@) == parse_source(source.spec_bytes()).forms
            && errors_view(p.1@) == parse_source(source.spec_bytes()).errors,
{
    if source.as_bytes().len() >= 0xFFFF_FFFFusize {
        return None;
    }
    let mut reader = Reader::new(source);
    let mut forms: Vec<SExp> = Vec::new();
    let mut errors: Vec<ParseError> = Vec::new();
    let ghost b = source.spec_bytes();
    let ghost target = parse_source(b);
    assert(errors_view(errors@) =~= Seq::<ErrorView>::empty());
    assert(sexps_view(forms@) =~= Seq::<Syntax>::empty());
    loop
        invariant
            reader.wf(),
            reader.bytes@ == b,
            reader.source == source,
            !reader.aborted,
            b.len() < 0xFFFF_FFFFusize,
            target == parse_source(b),
            target == parse_run(b, reader.st(), sexps_view(forms@), errors_view(errors@)),
        decreases b.len() - reader.pos,
    {
        let start = reader.pos;
        reader.skip_whitespace_and_comments();
        if reader.is_eof() {
            return Some((forms, errors));
        }
        match reader.read_form() {
            Ok(Some(form)) => {
                if reader.pos <= start {
                    return None;
                }
                proof {
                    lemma_sexps_view_push(forms@, form);
                }
                forms.push(form);
            },
            Ok(None) => {
                return Some((forms, errors));
            },
            Err(e) => {
                if reader.aborted {
                    return None;
                }
                reader.advance();
                if reader.pos <= start {
                    return None;
                }
                proof {
                    assert(errors_view(errors@.push(e)) =~= errors_view(errors@).push(e@));
                }
                errors.push(e);
            },
        }
    }
}

/// Read all top-level forms of a source text.  Each error is recorded, one
/// byte is skipped, and reading goes on.
pub fn parse_collecting_errors(source: &str) -> (r: (Vec<SExp>, Vec<ParseError>))
    requires
        reads_cleanly(source),
    ensures
        sexps_view(r.0@) == parse_source(source.spec_bytes()).forms,
        errors_view(r.1@) == parse_source(source.spec_bytes()).errors,
{
    match parse_checked(source) {
        Some(p) => p,
        None => (Vec::new(), Vec::new()),
    }
}

/// Parse all top-level forms from Clojure source code.  Errors are skipped
/// over; the result is always `Ok`.
pub fn parse(source: &str) -> (r: Result<Vec<SExp>, ParseError>)
    requires
        reads_cleanly(source),
    ensures
        r matches Ok(forms) && sexps_view(forms@) == parse_source(source.spec_bytes()).forms,
{
    let (forms, _errors) = parse_collecting_errors(source);
    Ok(forms)
}


} // verus!
