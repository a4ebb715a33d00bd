//! What the reader computes, stated over the UTF-8 bytes of the source.
//!
//! Each function below takes the bytes and a reader state and returns the
//! state the reader is left in together with the outcome of the step.  A step
//! whose outcome is `Panics` is one where the reader would slice the source
//! text at a byte that does not begin a character.
use vstd::prelude::*;
use vstd::utf8::*;

use crate::parser::Span;
use crate::syntax::Syntax;

verus! {

/// The reader's position: byte offset, 1-based line and column, nesting depth.
pub struct ReadState {
    pub pos: nat,
    pub line: nat,
    pub col: nat,
    pub depth: nat,
}

/// A parse error as a value.
pub struct ErrorView {
    pub message: Seq<char>,
    pub span: Span,
}

/// The outcome of one reading step.
pub enum Outcome<T> {
    Done(T),
    Failed(ErrorView),
    Panics,
}

pub const MAX_DEPTH: usize = 256;

pub open spec fn initial_state() -> ReadState {
    ReadState { pos: 0, line: 1, col: 1, depth: 0 }
}

pub open spec fn span_at(st: ReadState) -> Span {
    Span { line: st.line as u32, col: st.col as u32, offset: st.pos as u32 }
}

pub open spec fn error_at(st: ReadState, message: Seq<char>) -> ErrorView {
    ErrorView { message, span: span_at(st) }
}

pub open spec fn peek(b: Seq<u8>, st: ReadState) -> Option<u8> {
    if 0 <= st.pos < b.len() {
        Some(b[st.pos as int])
    } else {
        None
    }
}

/// Consume one byte, moving to the next line after a newline.
pub open spec fn advance(b: Seq<u8>, st: ReadState) -> ReadState {
    if 0 <= st.pos < b.len() {
        if b[st.pos as int] == 10u8 {
            ReadState { pos: st.pos + 1, line: st.line + 1, col: 1, depth: st.depth }
        } else {
            ReadState { pos: st.pos + 1, line: st.line, col: st.col + 1, depth: st.depth }
        }
    } else {
        st
    }
}

pub open spec fn advance_n(b: Seq<u8>, st: ReadState, n: nat) -> ReadState
    decreases n,
{
    if n == 0 {
        st
    } else {
        advance_n(b, advance(b, st), (n - 1) as nat)
    }
}

pub open spec fn with_depth(st: ReadState, depth: nat) -> ReadState {
    ReadState { pos: st.pos, line: st.line, col: st.col, depth }
}

/// ASCII whitespace as `u8::is_ascii_whitespace` defines it.
pub open spec fn is_ascii_ws(c: u8) -> bool {
    c == 32u8 || c == 9u8 || c == 10u8 || c == 12u8 || c == 13u8
}

pub open spec fn is_delimiter_byte(c: u8) -> bool {
    c == 40u8 || c == 41u8 || c == 91u8 || c == 93u8 || c == 123u8 || c == 125u8 || c == 34u8
        || c == 59u8
}

/// A byte that ends a token: whitespace, a delimiter or a comma.
pub open spec fn ends_token(c: u8) -> bool {
    is_ascii_ws(c) || is_delimiter_byte(c) || c == 44u8
}

/// True where a character's encoding begins (or at the end of the bytes).
pub open spec fn at_char_start(b: Seq<u8>, i: int) -> bool {
    i == b.len() || (0 <= i < b.len() && !is_continuation_byte(b[i]))
}

/// Number of bytes in the UTF-8 encoding of a character.
pub open spec fn utf8_len(c: char) -> nat {
    if (c as u32) < 0x80 {
        1
    } else if (c as u32) < 0x800 {
        2
    } else if (c as u32) < 0x10000 {
        3
    } else {
        4
    }
}

pub open spec fn is_hex_digit(c: char) -> bool {
    ('0' <= c && c <= '9') || ('a' <= c && c <= 'f') || ('A' <= c && c <= 'F')
}

pub open spec fn hex_digit_value(c: char) -> nat {
    if '0' <= c && c <= '9' {
        (c as nat - '0' as nat) as nat
    } else if 'a' <= c && c <= 'f' {
        (c as nat - 'a' as nat + 10) as nat
    } else {
        (c as nat - 'A' as nat + 10) as nat
    }
}

pub open spec fn hex_digits_value(s: Seq<char>) -> nat
    decreases s.len(),
{
    if s.len() == 0 {
        0
    } else {
        hex_digits_value(s.drop_last()) * 16 + hex_digit_value(s.last())
    }
}

/// The digits part of a number text: without a leading `+`.
pub open spec fn unsigned_digits(s: Seq<char>) -> Seq<char> {
    if s.len() > 0 && s[0] == '+' {
        s.skip(1)
    } else {
        s
    }
}

pub open spec fn all_hex_digits(d: Seq<char>) -> bool {
    forall|i: int| 0 <= i < d.len() ==> is_hex_digit(#[trigger] d[i])
}

/// `u32::from_str_radix(s, 16)` on a string of at most four characters: an
/// optional `+`, then at least one hexadecimal digit and nothing else.
pub open spec fn parse_hex(s: Seq<char>) -> Option<u32> {
    let digits = unsigned_digits(s);
    if digits.len() > 0 && all_hex_digits(digits) {
        Some(hex_digits_value(digits) as u32)
    } else {
        None
    }
}

/// Decimal digits of a number, as `{}` formats it.
pub open spec fn decimal(n: nat) -> Seq<char>
    decreases n,
{
    if n < 10 {
        seq![(n + 48) as char]
    } else {
        decimal(n / 10).push(((n % 10) + 48) as char)
    }
}

pub open spec fn char_of_scalar(code: u32) -> Option<char> {
    if is_scalar(code) {
        Some(code as char)
    } else {
        None
    }
}

// ---------------------------------------------------------------------------
// Whitespace and comments
// ---------------------------------------------------------------------------
/// Skip whitespace, commas and `;` line comments.
pub open spec fn skip_ws(b: Seq<u8>, st: ReadState) -> ReadState
    decreases (b.len() - st.pos) as nat, 1int,
{
    match peek(b, st) {
        Some(c) => if is_ascii_ws(c) || c == 44u8 {
            skip_ws(b, advance(b, st))
        } else if c == 59u8 {
            skip_comment(b, st)
        } else {
            st
        },
        None => st,
    }
}

/// Inside a comment: consume up to the newline, then go on skipping.
pub open spec fn skip_comment(b: Seq<u8>, st: ReadState) -> ReadState
    decreases (b.len() - st.pos) as nat, 0int,
{
    match peek(b, st) {
        Some(c) => if c == 10u8 {
            skip_ws(b, advance(b, st))
        } else {
            skip_comment(b, advance(b, st))
        },
        None => st,
    }
}

/// Advance over the bytes of a token.
pub open spec fn scan_token(b: Seq<u8>, st: ReadState) -> ReadState
    decreases (b.len() - st.pos) as nat,
{
    match peek(b, st) {
        Some(c) => if ends_token(c) {
            st
        } else {
            scan_token(b, advance(b, st))
        },
        None => st,
    }
}

/// Read a token: the text up to whitespace or a delimiter.  `None` when the
/// slice does not begin and end on character boundaries.
pub open spec fn read_token(b: Seq<u8>, st: ReadState) -> (ReadState, Option<Seq<char>>) {
    let end = scan_token(b, st);
    if at_char_start(b, st.pos as int) && at_char_start(b, end.pos as int) {
        (end, Some(decode_utf8(b.subrange(st.pos as int, end.pos as int))))
    } else {
        (end, None)
    }
}

/// Read `n` bytes as characters, one character per byte.
pub open spec fn read_n_chars(b: Seq<u8>, st: ReadState, n: nat, acc: Seq<char>) -> (
    ReadState,
    Option<Seq<char>>,
)
    decreases n,
{
    if n == 0 {
        (st, Some(acc))
    } else {
        match peek(b, st) {
            Some(c) => read_n_chars(b, advance(b, st), (n - 1) as nat, acc.push(c as char)),
            None => (st, None),
        }
    }
}

// ---------------------------------------------------------------------------
// String literals
// ---------------------------------------------------------------------------
/// The value of a surrogate pair.
pub open spec fn surrogate_pair_value(high: u32, low: u32) -> u32 {
    (0x10000 + (high - 0xD800) * 0x400 + (low - 0xDC00)) as u32
}

/// Continue a string literal after `\u` and a high surrogate whose four hex
/// digits end at `st`.
pub open spec fn string_after_high_surrogate(b: Seq<u8>, st: ReadState, code: u32) -> (
    ReadState,
    Seq<char>,
    Option<ErrorView>,
) {
    if peek(b, st) == Some(92u8) && peek(b, advance(b, st)) == Some(117u8) {
        let st2 = advance(b, advance(b, st));
        let (st3, hex2) = read_n_chars(b, st2, 4, seq![]);
        match hex2 {
            None => (st3, seq![], Some(error_at(st3, "unexpected EOF reading escape sequence"@))),
            Some(h) => match parse_hex(h) {
                Some(low) => if 0xDC00 <= low && low <= 0xDFFF {
                    match char_of_scalar(surrogate_pair_value(code, low)) {
                        Some(c) => (st3, seq![c], None),
                        None => (st3, seq!['\u{FFFD}'], None),
                    }
                } else {
                    (st3, seq!['\u{FFFD}'], None)
                },
                None => (st3, seq!['\u{FFFD}'], None),
            },
        }
    } else {
        (st, seq!['\u{FFFD}'], None)
    }
}

/// The text of a `\u` escape whose four characters `hex` end at `st`: the
/// characters it adds, or an error.
pub open spec fn unicode_escape(b: Seq<u8>, st: ReadState, hex: Seq<char>) -> (
    ReadState,
    Seq<char>,
    Option<ErrorView>,
) {
    match parse_hex(hex) {
        None => (st, seq![], Some(error_at(st, "invalid unicode escape: \\u"@ + hex))),
        Some(code) => if 0xD800 <= code && code <= 0xDBFF {
            string_after_high_surrogate(b, st, code)
        } else {
            match char_of_scalar(code) {
                Some(c) => (st, seq![c], None),
                None => (
                    st,
                    seq![],
                    Some(error_at(st, "invalid unicode code point: "@ + decimal(code as nat))),
                ),
            }
        },
    }
}

/// The body of a string literal after its opening quote; `acc` holds the
/// characters read so far.
pub open spec fn string_body(b: Seq<u8>, st: ReadState, acc: Seq<char>) -> (
    ReadState,
    Outcome<Seq<char>>,
)
    decreases (b.len() - st.pos) as nat,
{
    match peek(b, st) {
        None => (st, Outcome::Failed(error_at(st, "unexpected EOF in string literal"@))),
        Some(c) => {
            let st1 = advance(b, st);
            if c == 34u8 {
                (st1, Outcome::Done(acc))
            } else if c == 92u8 {
                match peek(b, st1) {
                    None => (
                        st1,
                        Outcome::Failed(error_at(st1, "unexpected EOF in string escape"@)),
                    ),
                    Some(e) => {
                        let st2 = advance(b, st1);
                        if e == 110u8 {
                            string_body(b, st2, acc.push('\n'))
                        } else if e == 116u8 {
                            string_body(b, st2, acc.push('\t'))
                        } else if e == 114u8 {
                            string_body(b, st2, acc.push('\r'))
                        } else if e == 92u8 {
                            string_body(b, st2, acc.push('\\'))
                        } else if e == 34u8 {
                            string_body(b, st2, acc.push('"'))
                        } else if e == 117u8 {
                            let (st3, hex) = read_n_chars(b, st2, 4, seq![]);
                            match hex {
                                None => (
                                    st3,
                                    Outcome::Failed(
                                        error_at(st3, "unexpected EOF reading escape sequence"@),
                                    ),
                                ),
                                Some(h) => {
                                    let (st4, added, err) = unicode_escape(b, st3, h);
                                    match err {
                                        Some(e) => (st4, Outcome::Failed(e)),
                                        None => if st.pos < st4.pos <= b.len() {
                                            string_body(b, st4, acc + added)
                                        } else {
                                            (st4, Outcome::Panics)
                                        },
                                    }
                                },
                            }
                        } else {
                            string_body(b, st2, acc.push('\\').push(e as char))
                        }
                    },
                }
            } else if c < 0x80u8 {
                string_body(b, st1, acc.push(c as char))
            } else if !at_char_start(b, st.pos as int) {
                (st1, Outcome::Panics)
            } else {
                let rest = decode_utf8(b.subrange(st.pos as int, b.len() as int));
                if rest.len() > 0 {
                    let ch = rest[0];
                    let st2 = advance_n(b, st1, (utf8_len(ch) - 1) as nat);
                    if st.pos < st2.pos <= b.len() {
                        string_body(b, st2, acc.push(ch))
                    } else {
                        (st2, Outcome::Panics)
                    }
                } else {
                    string_body(b, st1, acc.push('\u{FFFD}'))
                }
            }
        },
    }
}

/// A string literal starting at its opening quote.
pub open spec fn read_string(b: Seq<u8>, st: ReadState) -> (ReadState, Outcome<Option<Syntax>>) {
    let span = span_at(st);
    let (st2, r) = string_body(b, advance(b, st), seq![]);
    match r {
        Outcome::Done(s) => (st2, Outcome::Done(Some(Syntax::Str(s, span)))),
        Outcome::Failed(e) => (st2, Outcome::Failed(e)),
        Outcome::Panics => (st2, Outcome::Panics),
    }
}

// ---------------------------------------------------------------------------
// Regex literals
// ---------------------------------------------------------------------------
/// The body of a regex literal after `#"`: bytes are taken one character per
/// byte; a backslash keeps the byte after it.
pub open spec fn regex_body(b: Seq<u8>, st: ReadState, acc: Seq<char>) -> (
    ReadState,
    Outcome<Seq<char>>,
)
    decreases (b.len() - st.pos) as nat,
{
    match peek(b, st) {
        None => (st, Outcome::Failed(error_at(st, "unexpected EOF in regex literal"@))),
        Some(c) => {
            let st1 = advance(b, st);
            if c == 34u8 {
                (st1, Outcome::Done(acc))
            } else if c == 92u8 {
                match peek(b, st1) {
                    Some(n) => regex_body(b, advance(b, st1), acc.push('\\').push(n as char)),
                    None => regex_body(b, st1, acc.push('\\')),
                }
            } else {
                regex_body(b, st1, acc.push(c as char))
            }
        },
    }
}

// ---------------------------------------------------------------------------
// Keywords, characters, symbols and numbers
// ---------------------------------------------------------------------------
pub open spec fn read_keyword(b: Seq<u8>, st: ReadState) -> (ReadState, Outcome<Option<Syntax>>) {
    let span = span_at(st);
    let st1 = advance(b, st);
    let st2 = if peek(b, st1) == Some(58u8) {
        advance(b, st1)
    } else {
        st1
    };
    let (st3, name) = read_token(b, st2);
    match name {
        None => (st3, Outcome::Panics),
        Some(n) => if n.len() == 0 {
            (st3, Outcome::Failed(error_at(st3, "empty keyword"@)))
        } else {
            (st3, Outcome::Done(Some(Syntax::Keyword(n, span))))
        },
    }
}

/// `is_number`: an optional sign, then a digit.
pub open spec fn spec_is_number(t: Seq<u8>) -> bool {
    if t.len() == 0 {
        false
    } else if t[0] == 43u8 || t[0] == 45u8 {
        t.len() > 1 && 48u8 <= t[1] <= 57u8
    } else {
        48u8 <= t[0] <= 57u8
    }
}

pub open spec fn read_symbol_or_number(b: Seq<u8>, st: ReadState) -> (
    ReadState,
    Outcome<Option<Syntax>>,
) {
    let span = span_at(st);
    let (st2, tok) = read_token(b, st);
    match tok {
        None => (st2, Outcome::Panics),
        Some(t) => if t.len() == 0 {
            (st2, Outcome::Done(None))
        } else if t == "nil"@ {
            (st2, Outcome::Done(Some(Syntax::Nil(span))))
        } else if t == "true"@ {
            (st2, Outcome::Done(Some(Syntax::Bool(true, span))))
        } else if t == "false"@ {
            (st2, Outcome::Done(Some(Syntax::Bool(false, span))))
        } else if spec_is_number(b.subrange(st.pos as int, st2.pos as int)) {
            (st2, Outcome::Done(Some(Syntax::Number(t, span))))
        } else {
            (st2, Outcome::Done(Some(Syntax::Symbol(t, span))))
        },
    }
}

/// The character a character-literal token names, or the error message.
pub open spec fn char_token_value(tok: Seq<char>, tok_bytes: nat) -> Result<char, Seq<char>> {
    if tok == "newline"@ {
        Ok('\n')
    } else if tok == "return"@ {
        Ok('\r')
    } else if tok == "space"@ {
        Ok(' ')
    } else if tok == "tab"@ {
        Ok('\t')
    } else if tok == "backspace"@ {
        Ok('\u{8}')
    } else if tok == "formfeed"@ {
        Ok('\u{C}')
    } else if tok.len() > 0 && tok[0] == 'u' && tok_bytes == 5 {
        match parse_hex(tok.skip(1)) {
            None => Err("invalid char unicode: \\"@ + tok),
            Some(code) => match char_of_scalar(code) {
                Some(c) => Ok(c),
                None => Err("invalid char code: "@ + decimal(code as nat)),
            },
        }
    } else if tok_bytes == 1 {
        Ok(tok[0])
    } else {
        Err("invalid char literal: \\"@ + tok)
    }
}

pub open spec fn read_char_literal(b: Seq<u8>, st: ReadState) -> (
    ReadState,
    Outcome<Option<Syntax>>,
) {
    let span = span_at(st);
    let st1 = advance(b, st);
    match peek(b, st1) {
        None => (st1, Outcome::Failed(error_at(st1, "unexpected EOF in char literal"@))),
        Some(c) => if is_delimiter_byte(c) || c == 44u8 || is_ascii_ws(c) {
            (advance(b, st1), Outcome::Done(Some(Syntax::Char(c as char, span))))
        } else {
            let (st2, tok) = read_token(b, st1);
            match tok {
                None => (st2, Outcome::Panics),
                Some(t) => match char_token_value(t, (st2.pos - st1.pos) as nat) {
                    Ok(ch) => (st2, Outcome::Done(Some(Syntax::Char(ch, span)))),
                    Err(m) => (st2, Outcome::Failed(error_at(st2, m))),
                },
            }
        },
    }
}

// ---------------------------------------------------------------------------
// Forms
// ---------------------------------------------------------------------------
/// A form introduced by a one-byte prefix (`'` `` ` `` `~` `@`, or a
/// dispatch), read after the prefix: its operand is required.
pub open spec fn wrap_operand(
    st2: ReadState,
    r: Outcome<Option<Syntax>>,
    missing: Seq<char>,
    make: spec_fn(Syntax) -> Syntax,
) -> (ReadState, Outcome<Option<Syntax>>) {
    match r {
        Outcome::Done(Some(f)) => (st2, Outcome::Done(Some(make(f)))),
        Outcome::Done(None) => (st2, Outcome::Failed(error_at(st2, missing))),
        Outcome::Failed(e) => (st2, Outcome::Failed(e)),
        Outcome::Panics => (st2, Outcome::Panics),
    }
}

pub open spec fn closing_message(closing: u8) -> Seq<char> {
    "unexpected EOF, expected '"@.push(closing as char).push('\'')
}

/// Which kind of collection a delimited form builds.
pub enum CollKind {
    List,
    Vector,
    MapLiteral,
    SetLiteral,
    AnonFn,
    Cond,
    CondSplicing,
}

pub open spec fn make_coll(kind: CollKind, items: Seq<Syntax>, span: Span) -> Syntax {
    match kind {
        CollKind::List => Syntax::List(items, span),
        CollKind::Vector => Syntax::Vector(items, span),
        CollKind::MapLiteral => Syntax::MapLiteral(items, span),
        CollKind::SetLiteral => Syntax::SetLiteral(items, span),
        CollKind::AnonFn => Syntax::AnonFn(items, span),
        CollKind::Cond => Syntax::ReaderConditional(items, span),
        CollKind::CondSplicing => Syntax::ReaderConditionalSplicing(items, span),
    }
}

/// A collection whose opening delimiter has just been consumed (state `st`):
/// the depth goes up by one while its items are read, and comes back down
/// only when they were read without error.
pub open spec fn read_coll_body(
    b: Seq<u8>,
    st: ReadState,
    closing: u8,
    kind: CollKind,
    span: Span,
) -> (ReadState, Outcome<Option<Syntax>>)
    decreases (b.len() - st.pos) as nat, 5int,
{
    let inner = with_depth(st, st.depth + 1);
    let (st2, r) = read_delimited(b, inner, closing, seq![]);
    match r {
        Outcome::Done(items) => (
            with_depth(st2, (st2.depth - 1) as nat),
            Outcome::Done(Some(make_coll(kind, items, span))),
        ),
        Outcome::Failed(e) => (st2, Outcome::Failed(e)),
        Outcome::Panics => (st2, Outcome::Panics),
    }
}

/// Items up to the closing delimiter; `acc` holds those read so far.
pub open spec fn read_delimited(b: Seq<u8>, st: ReadState, closing: u8, acc: Seq<Syntax>) -> (
    ReadState,
    Outcome<Seq<Syntax>>,
)
    decreases (b.len() - st.pos) as nat, 4int,
{
    let st1 = skip_ws(b, st);
    match peek(b, st1) {
        None => (st1, Outcome::Failed(error_at(st1, closing_message(closing)))),
        Some(c) => if c == closing {
            (advance(b, st1), Outcome::Done(acc))
        } else if st.pos <= st1.pos <= b.len() {
            let (st2, r) = read_form(b, st1);
            match r {
                Outcome::Done(f) => if st1.pos < st2.pos <= b.len() {
                    match f {
                        Some(x) => read_delimited(b, st2, closing, acc.push(x)),
                        None => read_delimited(b, st2, closing, acc),
                    }
                } else {
                    (st2, Outcome::Panics)
                },
                Outcome::Failed(e) => (st2, Outcome::Failed(e)),
                Outcome::Panics => (st2, Outcome::Panics),
            }
        } else {
            (st1, Outcome::Panics)
        },
    }
}

/// `^meta target`, starting at the `^` (which is consumed first).
pub open spec fn read_metadata(b: Seq<u8>, st: ReadState, span: Span) -> (
    ReadState,
    Outcome<Option<Syntax>>,
)
    decreases (b.len() - st.pos) as nat, if st.pos < b.len() { 2int } else { 6int },
{
    let st1 = advance(b, st);
    let (st2, r1) = read_form(b, st1);
    match r1 {
        Outcome::Done(Some(meta)) => if st1.pos < st2.pos <= b.len() {
            let (st3, r2) = read_form(b, st2);
            wrap_operand(
                st3,
                r2,
                "expected form after metadata"@,
                |t: Syntax| Syntax::Meta(Box::new(meta), Box::new(t), span),
            )
        } else {
            (st2, Outcome::Panics)
        },
        Outcome::Done(None) => (st2, Outcome::Failed(error_at(st2, "expected metadata form"@))),
        Outcome::Failed(e) => (st2, Outcome::Failed(e)),
        Outcome::Panics => (st2, Outcome::Panics),
    }
}

/// A form starting with `#`.
pub open spec fn read_dispatch(b: Seq<u8>, st: ReadState) -> (ReadState, Outcome<Option<Syntax>>)
    decreases (b.len() - st.pos) as nat, 2int,
{
    let span = span_at(st);
    let st1 = advance(b, st);
    if !(st.pos < st1.pos <= b.len()) {
        (st1, Outcome::Panics)
    } else {
        match peek(b, st1) {
            None => (st1, Outcome::Failed(error_at(st1, "unexpected EOF after #"@))),
            Some(c) => {
                let st2 = advance(b, st1);
                if c == 123u8 {
                    read_coll_body(b, st2, 125u8, CollKind::SetLiteral, span)
                } else if c == 40u8 {
                    read_coll_body(b, st2, 41u8, CollKind::AnonFn, span)
                } else if c == 34u8 {
                    let (st3, r) = regex_body(b, st2, seq![]);
                    match r {
                        Outcome::Done(s) => (st3, Outcome::Done(Some(Syntax::Regex(s, span)))),
                        Outcome::Failed(e) => (st3, Outcome::Failed(e)),
                        Outcome::Panics => (st3, Outcome::Panics),
                    }
                } else if c == 39u8 {
                    let (st3, r) = read_form(b, st2);
                    wrap_operand(
                        st3,
                        r,
                        "expected form after #'"@,
                        |t: Syntax| Syntax::VarQuote(Box::new(t), span),
                    )
                } else if c == 95u8 {
                    let (st3, r) = read_form(b, st2);
                    wrap_operand(
                        st3,
                        r,
                        "expected form after #_"@,
                        |t: Syntax| Syntax::Discard(Box::new(t), span),
                    )
                } else if c == 94u8 {
                    read_metadata(b, st2, span)
                } else if c == 63u8 {
                    if peek(b, st2) == Some(64u8) {
                        let st3 = advance(b, st2);
                        if peek(b, st3) == Some(40u8) {
                            read_coll_body(b, advance(b, st3), 41u8, CollKind::CondSplicing, span)
                        } else {
                            (st3, Outcome::Failed(error_at(st3, "expected '(' after #?@"@)))
                        }
                    } else if peek(b, st2) == Some(40u8) {
                        read_coll_body(b, advance(b, st2), 41u8, CollKind::Cond, span)
                    } else {
                        (st2, Outcome::Failed(error_at(st2, "expected '(' after #?"@)))
                    }
                } else {
                    let (st3, tag) = read_token(b, st1);
                    match tag {
                        None => (st3, Outcome::Panics),
                        Some(t) => if t.len() == 0 {
                            (st3, Outcome::Failed(error_at(st3, "empty tagged literal"@)))
                        } else {
                            let st4 = skip_ws(b, st3);
                            if st1.pos <= st4.pos <= b.len() {
                                let (st5, r) = read_form(b, st4);
                                wrap_operand(
                                    st5,
                                    r,
                                    "expected form after tagged literal"@,
                                    |v: Syntax| Syntax::TaggedLiteral(t, Box::new(v), span),
                                )
                            } else {
                                (st4, Outcome::Panics)
                            }
                        },
                    }
                }
            },
        }
    }
}

/// One form, after skipping whitespace and comments.  `Done(None)` at the
/// end of the input.
pub open spec fn read_form(b: Seq<u8>, st0: ReadState) -> (ReadState, Outcome<Option<Syntax>>)
    decreases (b.len() - st0.pos) as nat, 3int,
{
    let st = skip_ws(b, st0);
    if !(st0.pos <= st.pos <= b.len()) {
        (st, Outcome::Panics)
    } else if st.pos >= b.len() {
        (st, Outcome::Done(None))
    } else if st.depth > MAX_DEPTH {
        (st, Outcome::Failed(error_at(st, "maximum nesting depth exceeded"@)))
    } else {
        let span = span_at(st);
        let c = b[st.pos as int];
        let st1 = advance(b, st);
        if c == 40u8 {
            read_coll_body(b, st1, 41u8, CollKind::List, span)
        } else if c == 91u8 {
            read_coll_body(b, st1, 93u8, CollKind::Vector, span)
        } else if c == 123u8 {
            read_coll_body(b, st1, 125u8, CollKind::MapLiteral, span)
        } else if c == 34u8 {
            read_string(b, st)
        } else if c == 58u8 {
            read_keyword(b, st)
        } else if c == 92u8 {
            read_char_literal(b, st)
        } else if c == 39u8 {
            let (st2, r) = read_form(b, st1);
            wrap_operand(
                st2,
                r,
                "expected form after '"@,
                |t: Syntax| Syntax::Quote(Box::new(t), span),
            )
        } else if c == 96u8 {
            let (st2, r) = read_form(b, st1);
            wrap_operand(
                st2,
                r,
                "expected form after `"@,
                |t: Syntax| Syntax::SyntaxQuote(Box::new(t), span),
            )
        } else if c == 126u8 {
            if peek(b, st1) == Some(64u8) {
                let (st2, r) = read_form(b, advance(b, st1));
                wrap_operand(
                    st2,
                    r,
                    "expected form after ~@"@,
                    |t: Syntax| Syntax::UnquoteSplicing(Box::new(t), span),
                )
            } else {
                let (st2, r) = read_form(b, st1);
                wrap_operand(
                    st2,
                    r,
                    "expected form after ~"@,
                    |t: Syntax| Syntax::Unquote(Box::new(t), span),
                )
            }
        } else if c == 64u8 {
            let (st2, r) = read_form(b, st1);
            wrap_operand(
                st2,
                r,
                "expected form after @"@,
                |t: Syntax| Syntax::Deref(Box::new(t), span),
            )
        } else if c == 94u8 {
            read_metadata(b, st, span)
        } else if c == 35u8 {
            read_dispatch(b, st)
        } else if c == 41u8 || c == 93u8 || c == 125u8 {
            (st, Outcome::Failed(error_at(st, "unexpected closing delimiter"@)))
        } else {
            read_symbol_or_number(b, st)
        }
    }
}

// ---------------------------------------------------------------------------
// Whole input
// ---------------------------------------------------------------------------
/// What reading all top-level forms yields.
pub struct ParseRun {
    pub forms: Seq<Syntax>,
    pub errors: Seq<ErrorView>,
    pub panics: bool,
}

/// Read forms until the end of the input; after an error, skip one byte and
/// go on.
pub open spec fn parse_run(b: Seq<u8>, st: ReadState, forms: Seq<Syntax>, errors: Seq<ErrorView>) -> ParseRun
    decreases (b.len() - st.pos) as nat,
{
    let st1 = skip_ws(b, st);
    if !(st.pos <= st1.pos <= b.len()) {
        ParseRun { forms, errors, panics: true }
    } else if st1.pos >= b.len() {
        ParseRun { forms, errors, panics: false }
    } else {
        let (st2, r) = read_form(b, st1);
        match r {
            Outcome::Done(Some(f)) => if st.pos < st2.pos <= b.len() {
                parse_run(b, st2, forms.push(f), errors)
            } else {
                ParseRun { forms, errors, panics: true }
            },
            Outcome::Done(None) => ParseRun { forms, errors, panics: false },
            Outcome::Failed(e) => {
                let st3 = advance(b, st2);
                if st.pos < st3.pos <= b.len() {
                    parse_run(b, st3, forms, errors.push(e))
                } else {
                    ParseRun { forms, errors, panics: true }
                }
            },
            Outcome::Panics => ParseRun { forms, errors, panics: true },
        }
    }
}

/// Reading a whole source text.
pub open spec fn parse_source(b: Seq<u8>) -> ParseRun {
    parse_run(b, initial_state(), seq![], seq![])
}

} // verus!

verus! {

pub proof fn lemma_scan_token_mono(b: Seq<u8>, st: ReadState)
    ensures
        scan_token(b, st).pos >= st.pos,
        st.pos <= b.len() ==> scan_token(b, st).pos <= b.len(),
    decreases (b.len() - st.pos) as nat,
{
    if let Some(c) = peek(b, st) {
        if !ends_token(c) {
            lemma_scan_token_mono(b, advance(b, st));
        }
    }
}

} // verus!
