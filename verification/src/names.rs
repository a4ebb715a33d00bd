//! Text operations on names and keywords, over character sequences.
use vstd::prelude::*;

verus! {

/// The part after the last `/`, or the whole text when it holds none
/// (`str::rsplit('/').next()`).
pub open spec fn last_segment(s: Seq<char>) -> Seq<char>
    decreases s.len(),
{
    if s.len() == 0 {
        s
    } else if s.last() == '/' {
        Seq::empty()
    } else {
        last_segment(s.drop_last()).push(s.last())
    }
}

/// The part before the first `/`, or the whole text when it holds none
/// (`str::split('/').next()`).
pub open spec fn first_segment(s: Seq<char>) -> Seq<char>
    decreases s.len(),
{
    if s.len() == 0 {
        s
    } else if s[0] == '/' {
        Seq::empty()
    } else {
        seq![s[0]] + first_segment(s.skip(1))
    }
}

pub open spec fn starts_with(s: Seq<char>, p: Seq<char>) -> bool {
    p.len() <= s.len() && s.subrange(0, p.len() as int) == p
}

pub open spec fn ends_with(s: Seq<char>, p: Seq<char>) -> bool {
    p.len() <= s.len() && s.subrange(s.len() - p.len(), s.len() as int) == p
}

/// The text without one leading `:`.
pub open spec fn strip_colon(s: Seq<char>) -> Seq<char> {
    if s.len() > 0 && s[0] == ':' {
        s.skip(1)
    } else {
        s
    }
}

/// A configured function name `f` names the called function `name` when they
/// are equal, or when `name` ends with `/` and the last segment of `f`.
pub open spec fn names_function(f: Seq<char>, name: Seq<char>) -> bool {
    f == name || ends_with(name, seq!['/'] + last_segment(f))
}

/// The texts of a sequence of strings.
pub open spec fn texts(v: Seq<String>) -> Seq<Seq<char>> {
    v.map_values(|s: String| s@)
}

pub open spec fn any_names_function(list: Seq<Seq<char>>, name: Seq<char>) -> bool {
    exists|i: int| 0 <= i < list.len() && names_function(#[trigger] list[i], name)
}

/// A name without `/` is its own last segment.
pub proof fn lemma_last_segment_plain(s: Seq<char>)
    requires
        forall|j: int| 0 <= j < s.len() ==> s[j] != '/',
    ensures
        last_segment(s) == s,
{
    lemma_last_segment_split(s, 0);
    assert(s.subrange(0, 0) =~= Seq::<char>::empty());
    assert(s.subrange(0, s.len() as int) =~= s);
    assert(Seq::<char>::empty() + s =~= s);
}

proof fn lemma_last_segment_split(s: Seq<char>, k: int)
    requires
        0 <= k <= s.len(),
        forall|j: int| k <= j < s.len() ==> s[j] != '/',
    ensures
        last_segment(s) == last_segment(s.subrange(0, k)) + s.subrange(k, s.len() as int),
    decreases s.len() - k,
{
    if k < s.len() {
        lemma_last_segment_split(s, k + 1);
        let p = s.subrange(0, k + 1);
        assert(p.drop_last() =~= s.subrange(0, k));
        assert(last_segment(p) == last_segment(s.subrange(0, k)).push(s[k]));
        assert(last_segment(s.subrange(0, k)).push(s[k]) + s.subrange(k + 1, s.len() as int)
            =~= last_segment(s.subrange(0, k)) + s.subrange(k, s.len() as int));
    } else {
        assert(s.subrange(0, k) =~= s);
        assert(s.subrange(k, s.len() as int) =~= Seq::<char>::empty());
        assert(last_segment(s) + Seq::<char>::empty() =~= last_segment(s));
    }
}

/// The part after the last `/`.
pub fn last_segment_of(s: &Vec<char>) -> (r: Vec<char>)
    ensures
        r@ == last_segment(s@),
{
    let mut i: usize = s.len();
    while i > 0 && s[i - 1] != '/'
        invariant
            i <= s.len(),
            forall|j: int| i <= j < s.len() ==> s@[j] != '/',
        decreases i,
    {
        i = i - 1;
    }
    proof {
        lemma_last_segment_split(s@, i as int);
        if i > 0 {
            assert(s@.subrange(0, i as int).last() == '/');
        } else {
            assert(s@.subrange(0, 0) =~= Seq::<char>::empty());
        }
        assert(Seq::<char>::empty() + s@.subrange(i as int, s@.len() as int) =~= s@.subrange(
            i as int,
            s@.len() as int,
        ));
    }
    copy_range(s, i, s.len())
}

proof fn lemma_first_segment_split(s: Seq<char>, k: int)
    requires
        0 <= k <= s.len(),
        forall|j: int| 0 <= j < k ==> s[j] != '/',
    ensures
        first_segment(s) == s.subrange(0, k) + first_segment(s.skip(k)),
    decreases k,
{
    if k > 0 {
        lemma_first_segment_split(s.skip(1), k - 1);
        assert(s.skip(1).skip(k - 1) =~= s.skip(k));
        assert(seq![s[0]] + s.skip(1).subrange(0, k - 1) =~= s.subrange(0, k));
        assert(seq![s[0]] + (s.skip(1).subrange(0, k - 1) + first_segment(s.skip(k))) =~= s.subrange(
            0,
            k,
        ) + first_segment(s.skip(k)));
    } else {
        assert(s.skip(0) =~= s);
        assert(s.subrange(0, 0) + first_segment(s) =~= first_segment(s));
    }
}

/// The part before the first `/`.
pub fn first_segment_of(s: &Vec<char>) -> (r: Vec<char>)
    ensures
        r@ == first_segment(s@),
{
    let mut i: usize = 0;
    while i < s.len() && s[i] != '/'
        invariant
            i <= s.len(),
            forall|j: int| 0 <= j < i ==> s@[j] != '/',
        decreases s.len() - i,
    {
        i = i + 1;
    }
    proof {
        lemma_first_segment_split(s@, i as int);
        let rest = s@.skip(i as int);
        if i < s.len() {
            assert(rest[0] == '/');
        }
        assert(first_segment(rest) =~= Seq::<char>::empty());
        assert(s@.subrange(0, i as int) + Seq::<char>::empty() =~= s@.subrange(0, i as int));
    }
    copy_range(s, 0, i)
}

/// The characters from `start` up to `end`.
pub fn copy_range(s: &Vec<char>, start: usize, end: usize) -> (r: Vec<char>)
    requires
        start <= end <= s.len(),
    ensures
        r@ == s@.subrange(start as int, end as int),
{
    let mut r: Vec<char> = Vec::new();
    let mut i: usize = start;
    while i < end
        invariant
            start <= i <= end <= s.len(),
            r@ == s@.subrange(start as int, i as int),
        decreases end - i,
    {
        r.push(s[i]);
        i = i + 1;
        assert(r@ =~= s@.subrange(start as int, i as int));
    }
    r
}

/// True when the two character sequences are equal.
pub fn chars_equal(a: &Vec<char>, b: &Vec<char>) -> (r: bool)
    ensures
        r == (a@ == b@),
{
    if a.len() != b.len() {
        return false;
    }
    let mut i: usize = 0;
    while i < a.len()
        invariant
            i <= a.len() == b.len(),
            a@.subrange(0, i as int) == b@.subrange(0, i as int),
        decreases a.len() - i,
    {
        if a[i] != b[i] {
            assert(a@[i as int] != b@[i as int]);
            return false;
        }
        i = i + 1;
        assert(a@.subrange(0, i as int) =~= a@.subrange(0, i - 1).push(a@[i - 1]));
        assert(b@.subrange(0, i as int) =~= b@.subrange(0, i - 1).push(b@[i - 1]));
    }
    assert(a@ =~= a@.subrange(0, i as int));
    assert(b@ =~= b@.subrange(0, i as int));
    true
}

/// True when `s` ends with `p`.
pub fn ends_with_chars(s: &Vec<char>, p: &Vec<char>) -> (r: bool)
    ensures
        r == ends_with(s@, p@),
{
    if p.len() > s.len() {
        return false;
    }
    let off = s.len() - p.len();
    let tail = copy_range(s, off, s.len());
    chars_equal(&tail, p)
}

/// True when `s` starts with `p`.
pub fn starts_with_chars(s: &Vec<char>, p: &Vec<char>) -> (r: bool)
    ensures
        r == starts_with(s@, p@),
{
    if p.len() > s.len() {
        return false;
    }
    let head = copy_range(s, 0, p.len());
    chars_equal(&head, p)
}

/// The text without one leading `:`.
pub fn strip_colon_of(s: &Vec<char>) -> (r: Vec<char>)
    ensures
        r@ == strip_colon(s@),
{
    if s.len() > 0 && s[0] == ':' {
        copy_range(s, 1, s.len())
    } else {
        copy_range(s, 0, s.len())
    }
}

/// True when `s` holds the character `c`.
pub fn has_char_of(s: &Vec<char>, c: char) -> (r: bool)
    ensures
        r == s@.contains(c),
{
    let mut i: usize = 0;
    while i < s.len()
        invariant
            i <= s.len(),
            forall|j: int| 0 <= j < i ==> s@[j] != c,
        decreases s.len() - i,
    {
        if s[i] == c {
            return true;
        }
        i = i + 1;
    }
    false
}

/// `names_function(f, name)`.
pub fn names_function_of(f: &Vec<char>, name: &Vec<char>) -> (r: bool)
    ensures
        r == names_function(f@, name@),
{
    if chars_equal(f, name) {
        return true;
    }
    let seg = last_segment_of(f);
    let mut suffix: Vec<char> = Vec::new();
    suffix.push('/');
    let mut i: usize = 0;
    while i < seg.len()
        invariant
            i <= seg.len(),
            suffix@ == seq!['/'] + seg@.subrange(0, i as int),
        decreases seg.len() - i,
    {
        suffix.push(seg[i]);
        i = i + 1;
        assert(suffix@ =~= seq!['/'] + seg@.subrange(0, i as int));
    }
    assert(seg@.subrange(0, i as int) =~= seg@);
    ends_with_chars(name, &suffix)
}


pub proof fn lemma_concat_assoc<A>(a: Seq<A>, b: Seq<A>, c: Seq<A>)
    ensures
        (a + b) + c == a + (b + c),
{
    assert((a + b) + c =~= a + (b + c));
}

pub proof fn lemma_concat_empty<A>(a: Seq<A>)
    ensures
        a + Seq::<A>::empty() == a,
{
    assert(a + Seq::<A>::empty() =~= a);
}


/// The part before the first `c`, or the whole text when it holds none.
pub open spec fn prefix_before(s: Seq<char>, c: char) -> Seq<char>
    decreases s.len(),
{
    if s.len() == 0 {
        s
    } else if s[0] == c {
        Seq::empty()
    } else {
        seq![s[0]] + prefix_before(s.skip(1), c)
    }
}

pub proof fn lemma_prefix_before_split(s: Seq<char>, c: char, k: int)
    requires
        0 <= k <= s.len(),
        forall|j: int| 0 <= j < k ==> s[j] != c,
    ensures
        prefix_before(s, c) == s.subrange(0, k) + prefix_before(s.skip(k), c),
    decreases k,
{
    if k > 0 {
        lemma_prefix_before_split(s.skip(1), c, k - 1);
        assert(s.skip(1).skip(k - 1) =~= s.skip(k));
        assert(seq![s[0]] + (s.skip(1).subrange(0, k - 1) + prefix_before(s.skip(k), c)) =~= s.subrange(
            0,
            k,
        ) + prefix_before(s.skip(k), c));
    } else {
        assert(s.skip(0) =~= s);
        assert(s.subrange(0, 0) + prefix_before(s, c) =~= prefix_before(s, c));
    }
}

/// The index of the first `c`, or the length when there is none; the text
/// before it is `prefix_before(s, c)`.
pub fn index_of_char(s: &Vec<char>, c: char) -> (r: usize)
    ensures
        r <= s@.len(),
        s@.subrange(0, r as int) == prefix_before(s@, c),
        r < s@.len() ==> s@[r as int] == c,
        r == s@.len() ==> !s@.contains(c),
        r < s@.len() ==> s@.contains(c),
{
    let mut i: usize = 0;
    while i < s.len() && s[i] != c
        invariant
            i <= s.len(),
            forall|j: int| 0 <= j < i ==> s@[j] != c,
        decreases s.len() - i,
    {
        i = i + 1;
    }
    proof {
        lemma_prefix_before_split(s@, c, i as int);
        let rest = s@.skip(i as int);
        if i < s.len() {
            assert(rest[0] == c);
        }
        assert(prefix_before(rest, c) =~= Seq::<char>::empty());
        assert(s@.subrange(0, i as int) + Seq::<char>::empty() =~= s@.subrange(0, i as int));
    }
    i
}

} // verus!
