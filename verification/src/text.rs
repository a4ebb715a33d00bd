//! Small string utilities over character sequences.
use vstd::prelude::*;
use vstd::string::*;

use crate::read_model::decimal;

verus! {

/// `String::push`: appends one character.
#[verifier::external_body]
pub(crate) fn string_push(s: &mut String, c: char)
    ensures
        final(s)@ == old(s)@.push(c),
{
    s.push(c);
}

/// The characters of the text, in order.
pub fn chars_of(s: &str) -> (r: Vec<char>)
    ensures
        r@ == s@,
{
    proof {
        broadcast use vstd::string::axiom_spec_iter;
    }
    let mut out: Vec<char> = Vec::new();
    for c in it: s.chars()
        invariant
            out@.len() == it.index(),
            forall|i: int| 0 <= i < out@.len() ==> out@[i] == it.seq()[i],
    {
        out.push(c);
    }
    assert(out@ =~= s@);
    out
}

/// A `String` holding the given characters.
pub fn string_from_chars(v: &Vec<char>) -> (r: String)
    ensures
        r@ == v@,
{
    let mut out = String::new();
    let mut i: usize = 0;
    while i < v.len()
        invariant
            i <= v.len(),
            out@ == v@.subrange(0, i as int),
        decreases v.len() - i,
    {
        string_push(&mut out, v[i]);
        assert(v@.subrange(0, i + 1) =~= v@.subrange(0, i as int).push(v@[i as int]));
        i = i + 1;
    }
    assert(v@.subrange(0, v.len() as int) =~= v@);
    out
}

/// `char::from_u32`: the character with the given scalar value, if it is one.
#[verifier::external_body]
pub(crate) fn char_from_u32(code: u32) -> (r: Option<char>)
    ensures
        r == crate::read_model::char_of_scalar(code),
        r matches Some(c) ==> c as u32 == code,
{
    char::from_u32(code)
}

/// A string holding the literal text.
pub fn string_of(s: &str) -> (r: String)
    ensures
        r@ == s@,
{
    String::from_str(s)
}

/// Decimal digits of a number.
pub fn decimal_string(n: u32) -> (r: String)
    ensures
        r@ == decimal(n as nat),
{
    let mut digits: Vec<char> = Vec::new();
    let mut m: u32 = n;
    // digits are produced least significant first
    let ghost mut rest: nat = n as nat;
    loop
        invariant
            m as nat == rest,
            rest <= n,
            decimal(n as nat) == decimal_tail(rest, digits@),
        decreases m,
    {
        let d = m % 10;
        let c = if d == 0 { '0' } else if d == 1 { '1' } else if d == 2 { '2' } else if d == 3 {
            '3'
        } else if d == 4 { '4' } else if d == 5 { '5' } else if d == 6 { '6' } else if d == 7 {
            '7'
        } else if d == 8 { '8' } else { '9' };
        assert(c == ((d as nat) + 48) as char);
        if m < 10 {
            proof {
                assert(decimal(rest) == seq![c]);
            }
            let mut out: Vec<char> = Vec::new();
            out.push(c);
            let mut i: usize = digits.len();
            assert(digits@.subrange(0, i as int) =~= digits@);
            while i > 0
                invariant
                    i <= digits.len(),
                    decimal(n as nat) == out@ + reverse_of(digits@.subrange(0, i as int)),
                decreases i,
            {
                i = i - 1;
                proof {
                    lemma_reverse_step(digits@, i as int);
                }
                out.push(digits[i]);
                assert(decimal(n as nat) == out@ + reverse_of(digits@.subrange(0, i as int)));
            }
            assert(digits@.subrange(0, 0) =~= Seq::<char>::empty());
            assert(reverse_of(Seq::<char>::empty()) =~= Seq::<char>::empty());
            assert(out@ + Seq::<char>::empty() =~= out@);
            return string_from_chars(&out);
        }
        proof {
            assert(decimal(rest) == decimal(rest / 10).push(c));
            lemma_decimal_tail_step(rest, digits@, c);
        }
        digits.push(c);
        m = m / 10;
        proof {
            rest = rest / 10;
        }
    }
}

/// The digits of `rest`, followed by the already produced low digits
/// (stored least significant first).
pub open spec fn decimal_tail(rest: nat, low: Seq<char>) -> Seq<char> {
    decimal(rest) + reverse_of(low)
}

pub open spec fn reverse_of(s: Seq<char>) -> Seq<char>
    decreases s.len(),
{
    if s.len() == 0 {
        s
    } else {
        seq![s.last()] + reverse_of(s.drop_last())
    }
}

proof fn lemma_decimal_tail_step(rest: nat, low: Seq<char>, c: char)
    requires
        rest >= 10,
        decimal(rest) == decimal(rest / 10).push(c),
    ensures
        decimal_tail(rest, low) == decimal_tail(rest / 10, low.push(c)),
{
    assert(low.push(c).drop_last() =~= low);
    assert(reverse_of(low.push(c)) == seq![c] + reverse_of(low));
    assert(decimal(rest / 10).push(c) + reverse_of(low) =~= decimal(rest / 10) + (seq![c]
        + reverse_of(low)));
}

proof fn lemma_reverse_step(s: Seq<char>, i: int)
    requires
        0 <= i < s.len(),
    ensures
        reverse_of(s.subrange(0, i + 1)) == seq![s[i]] + reverse_of(s.subrange(0, i)),
{
    assert(s.subrange(0, i + 1).drop_last() =~= s.subrange(0, i));
}


/// Whether a character has the Unicode `White_Space` property, which
/// `char::is_whitespace` tests: U+0009 to U+000D, U+0020, U+0085, U+00A0,
/// U+1680, U+2000 to U+200A, U+2028, U+2029, U+202F, U+205F and U+3000.
pub open spec fn white_space(c: char) -> bool {
    let u = c as u32;
    ||| 0x9 <= u <= 0xD
    ||| u == 0x20
    ||| u == 0x85
    ||| u == 0xA0
    ||| u == 0x1680
    ||| 0x2000 <= u <= 0x200A
    ||| u == 0x2028
    ||| u == 0x2029
    ||| u == 0x202F
    ||| u == 0x205F
    ||| u == 0x3000
}

/// Whether a character has the Unicode `White_Space` property.
pub fn is_whitespace(c: char) -> (r: bool)
    ensures
        r == white_space(c),
{
    let u = c as u32;
    (0x9 <= u && u <= 0xD) || u == 0x20 || u == 0x85 || u == 0xA0 || u == 0x1680 || (0x2000 <= u
        && u <= 0x200A) || u == 0x2028 || u == 0x2029 || u == 0x202F || u == 0x205F || u == 0x3000
}

/// Whether a character has the Unicode `Alphabetic` property.
pub uninterp spec fn alphabetic(c: char) -> bool;

/// An ASCII letter.
pub open spec fn ascii_letter(c: char) -> bool {
    ('a' <= c && c <= 'z') || ('A' <= c && c <= 'Z')
}

/// `char::is_alphabetic`: true when the character has the `Alphabetic`
/// property.  Stated beyond the name: among ASCII characters exactly the
/// letters have it (std documents `is_alphabetic` by that property, whose
/// ASCII members are the letters); for other characters the property is
/// left unstated.
#[verifier::external_body]
pub(crate) fn is_alphabetic(c: char) -> (r: bool)
    ensures
        r == alphabetic(c),
        (c as u32) < 0x80 ==> (r <==> ascii_letter(c)),
{
    c.is_alphabetic()
}

/// The text without leading and trailing white space (`str::trim`).
pub open spec fn trim_text(s: Seq<char>) -> Seq<char>
    decreases s.len(),
{
    if s.len() > 0 && white_space(s[0]) {
        trim_text(s.skip(1))
    } else if s.len() > 0 && white_space(s.last()) {
        trim_text(s.drop_last())
    } else {
        s
    }
}

proof fn lemma_trim_front(s: Seq<char>, i: int)
    requires
        0 <= i <= s.len(),
        forall|k: int| 0 <= k < i ==> white_space(#[trigger] s[k]),
    ensures
        trim_text(s) == trim_text(s.skip(i)),
    decreases i,
{
    if i > 0 {
        lemma_trim_front(s.skip(1), i - 1);
        assert(s.skip(1).skip(i - 1) =~= s.skip(i));
        assert forall|k: int| 0 <= k < i - 1 implies white_space(#[trigger] s.skip(1)[k]) by {
            assert(s.skip(1)[k] == s[k + 1]);
        }
    } else {
        assert(s.skip(0) =~= s);
    }
}

proof fn lemma_trim_back(t: Seq<char>, j: int)
    requires
        0 < j <= t.len(),
        !white_space(t[0]),
        forall|k: int| j <= k < t.len() ==> white_space(#[trigger] t[k]),
    ensures
        trim_text(t) == trim_text(t.subrange(0, j)),
    decreases t.len() - j,
{
    if j < t.len() {
        assert(t.drop_last().subrange(0, j) =~= t.subrange(0, j));
        lemma_trim_back(t.drop_last(), j);
    } else {
        assert(t.subrange(0, j) =~= t);
    }
}

/// The characters without leading and trailing white space.
pub fn trim_chars(s: &Vec<char>) -> (r: Vec<char>)
    ensures
        r@ == trim_text(s@),
{
    let n = s.len();
    let mut i: usize = 0;
    while i < n && is_whitespace(s[i])
        invariant
            i <= n == s.len(),
            forall|k: int| 0 <= k < i ==> white_space(#[trigger] s@[k]),
        decreases n - i,
    {
        i = i + 1;
    }
    let mut j: usize = n;
    while j > i && is_whitespace(s[j - 1])
        invariant
            i <= j <= n == s.len(),
            forall|k: int| j <= k < n ==> white_space(#[trigger] s@[k]),
        decreases j,
    {
        j = j - 1;
    }
    proof {
        lemma_trim_front(s@, i as int);
        let t = s@.skip(i as int);
        if i < j {
            assert(t[0] == s@[i as int]);
            assert forall|k: int| j - i <= k < t.len() implies white_space(#[trigger] t[k]) by {
                assert(t[k] == s@[k + i]);
            }
            lemma_trim_back(t, j - i);
            let u = t.subrange(0, j - i);
            assert(u =~= s@.subrange(i as int, j as int));
            assert(u[0] == s@[i as int]);
            assert(u.last() == s@[j - 1]);
        } else {
            assert(i == n);
            assert(t =~= Seq::<char>::empty());
            assert(s@.subrange(i as int, j as int) =~= Seq::<char>::empty());
        }
    }
    crate::names::copy_range(s, i, j)
}


/// The lowercase mapping of a text, as `str::to_lowercase` computes it.
pub uninterp spec fn lowercase(s: Seq<char>) -> Seq<char>;

/// The text with each ASCII capital letter replaced by its small letter.
pub open spec fn ascii_lowercase(s: Seq<char>) -> Seq<char> {
    s.map_values(|c: char| if 'A' <= c && c <= 'Z' { ((c as u32) + 32) as char } else { c })
}

/// `str::to_lowercase`: the text with each character replaced by its
/// Unicode lowercase mapping.  Stated beyond the name: an ASCII text is
/// mapped letter by letter, `A`-`Z` to `a`-`z`, everything else kept (the
/// Unicode lowercase mapping of an ASCII character, as std documents it for
/// `to_ascii_lowercase`); for other texts the mapping is left unstated.
#[verifier::external_body]
pub(crate) fn to_lowercase(s: &str) -> (r: String)
    ensures
        r@ == lowercase(s@),
        (forall|i: int| 0 <= i < s@.len() ==> (#[trigger] s@[i] as u32) < 0x80) ==> r@
            == ascii_lowercase(s@),
{
    s.to_lowercase()
}

} // verus!
