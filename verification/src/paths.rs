//! File paths as `/`-separated texts: their components, file names,
//! extensions, and the order `Path` gives them.
use vstd::prelude::*;

use crate::names::{chars_equal, copy_range, lemma_prefix_before_split, prefix_before};
use crate::order::{
    lemma_text_lt_irreflexive, lemma_text_lt_transitive, lemma_text_lt_trichotomy, text_less, text_lt,
};
use crate::text::chars_of;

verus! {

/// The `/`-separated segments of a text (the last one possibly empty).
pub open spec fn segments(p: Seq<char>) -> Seq<Seq<char>>
    decreases p.len(),
{
    let seg = prefix_before(p, '/');
    if seg.len() >= p.len() {
        seq![seg]
    } else {
        seq![seg] + segments(p.skip(seg.len() + 1int))
    }
}

/// Whether the segment at index `i` is a component: not empty, and not `.`
/// unless it starts a relative path.
pub open spec fn is_component(seg: Seq<char>, i: int, rooted: bool) -> bool {
    seg.len() > 0 && (seg != "."@ || (i == 0 && !rooted))
}

/// The components among the segments from index `i` on.
pub open spec fn components_from(segs: Seq<Seq<char>>, i: int, rooted: bool) -> Seq<Seq<char>>
    decreases segs.len() - i,
{
    if 0 <= i < segs.len() {
        (if is_component(segs[i], i, rooted) {
            seq![segs[i]]
        } else {
            seq![]
        }) + components_from(segs, i + 1, rooted)
    } else {
        seq![]
    }
}

/// The components of a path (`Path::components` on `/`-separated paths): a
/// leading `/` is the root; empty segments and `.` segments other than a
/// leading one are dropped.
pub open spec fn path_components(p: Seq<char>) -> Seq<Seq<char>> {
    let rooted = p.len() > 0 && p[0] == '/';
    (if rooted {
        seq!["/"@]
    } else {
        seq![]
    }) + components_from(segments(p), 0, rooted)
}

/// `Path::starts_with`: the components of `base` begin those of `p`.
pub open spec fn path_starts_with(p: Seq<char>, base: Seq<char>) -> bool {
    let a = path_components(p);
    let b = path_components(base);
    b.len() <= a.len() && a.subrange(0, b.len() as int) == b
}

/// The segments of a text.
pub fn segments_of(s: &Vec<char>) -> (r: Vec<Vec<char>>)
    ensures
        r@.len() == segments(s@).len(),
        forall|i: int| 0 <= i < r@.len() ==> #[trigger] r@[i]@ == segments(s@)[i],
{
    let mut r: Vec<Vec<char>> = Vec::new();
    let mut pos: usize = 0;
    let ghost target = segments(s@);
    assert(s@.skip(0) =~= s@);
    loop
        invariant
            pos <= s.len(),
            target == segments(s@),
            r@.len() + segments(s@.skip(pos as int)).len() == target.len(),
            forall|i: int| 0 <= i < r@.len() ==> #[trigger] r@[i]@ == target[i],
            forall|i: int|
                0 <= i < segments(s@.skip(pos as int)).len() ==> #[trigger] segments(
                    s@.skip(pos as int),
                )[i] == target[r@.len() + i],
        decreases s.len() - pos,
    {
        let mut j: usize = pos;
        while j < s.len() && s[j] != '/'
            invariant
                pos <= j <= s.len(),
                forall|k: int| pos <= k < j ==> s@[k] != '/',
            decreases s.len() - j,
        {
            j = j + 1;
        }
        let ghost rest = s@.skip(pos as int);
        proof {
            assert forall|k: int| 0 <= k < j - pos implies rest[k] != '/' by {
                assert(rest[k] == s@[pos + k]);
            }
            lemma_prefix_before_split(rest, '/', j - pos);
            let tail = rest.skip(j - pos);
            if j < s.len() {
                assert(tail[0] == '/');
            }
            assert(prefix_before(tail, '/') =~= Seq::<char>::empty());
            assert(rest.subrange(0, j - pos) =~= s@.subrange(pos as int, j as int));
            assert(s@.subrange(pos as int, j as int) + Seq::<char>::empty() =~= s@.subrange(
                pos as int,
                j as int,
            ));
        }
        let seg = copy_range(s, pos, j);
        let ghost prev_len = r@.len();
        r.push(seg);
        if j < s.len() {
            assert(rest.skip(j - pos + 1) =~= s@.skip(j + 1));
            assert(segments(rest) == seq![seg@] + segments(s@.skip(j + 1)));
            pos = j + 1;
            assert forall|i: int| 0 <= i < r@.len() implies #[trigger] r@[i]@ == target[i] by {
                if i == prev_len {
                    assert(segments(rest)[0] == seg@);
                }
            }
            assert forall|i: int|
                0 <= i < segments(s@.skip(pos as int)).len() implies #[trigger] segments(
                s@.skip(pos as int),
            )[i] == target[r@.len() + i] by {
                assert(segments(s@.skip(pos as int))[i] == segments(rest)[i + 1]);
            }
        } else {
            assert(segments(rest) == seq![seg@]);
            assert forall|i: int| 0 <= i < r@.len() implies #[trigger] r@[i]@ == target[i] by {
                if i == prev_len {
                    assert(segments(rest)[0] == seg@);
                }
            }
            return r;
        }
    }
}

fn is_dot(seg: &Vec<char>) -> (r: bool)
    ensures
        r == (seg@ == "."@),
{
    proof {
        reveal_strlit(".");
    }
    let r = seg.len() == 1 && seg[0] == '.';
    if r {
        assert(seg@ =~= "."@);
    }
    r
}

/// The components of a path.
pub fn path_components_of(p: &Vec<char>) -> (r: Vec<Vec<char>>)
    ensures
        r@.len() == path_components(p@).len(),
        forall|i: int| 0 <= i < r@.len() ==> #[trigger] r@[i]@ == path_components(p@)[i],
{
    let rooted = p.len() > 0 && p[0] == '/';
    let segs = segments_of(p);
    let ghost sv = segments(p@);
    let mut r: Vec<Vec<char>> = Vec::new();
    if rooted {
        let mut root: Vec<char> = Vec::new();
        root.push('/');
        proof {
            reveal_strlit("/");
        }
        assert(root@ =~= "/"@);
        r.push(root);
    }
    let ghost head = if rooted {
        seq!["/"@]
    } else {
        Seq::<Seq<char>>::empty()
    };
    let ghost target = path_components(p@);
    let mut i: usize = 0;
    while i < segs.len()
        invariant
            i <= segs@.len() == sv.len(),
            sv == segments(p@),
            rooted == (p@.len() > 0 && p@[0] == '/'),
            target == head + components_from(sv, 0, rooted),
            forall|k: int| 0 <= k < segs@.len() ==> #[trigger] segs@[k]@ == sv[k],
            r@.len() + components_from(sv, i as int, rooted).len() == target.len(),
            forall|k: int| 0 <= k < r@.len() ==> #[trigger] r@[k]@ == target[k],
            forall|k: int|
                0 <= k < components_from(sv, i as int, rooted).len() ==> #[trigger] components_from(
                    sv,
                    i as int,
                    rooted,
                )[k] == target[r@.len() + k],
        decreases segs.len() - i,
    {
        let seg = &segs[i];
        let keep = seg.len() > 0 && (!is_dot(seg) || (i == 0 && !rooted));
        let ghost prev = r@.len();
        if keep {
            assert(is_component(sv[i as int], i as int, rooted));
            r.push(copy_range(seg, 0, seg.len()));
            assert(r@[prev as int]@ =~= seg@);
            assert forall|k: int|
                0 <= k < components_from(sv, i + 1, rooted).len() implies #[trigger] components_from(
                sv,
                i + 1,
                rooted,
            )[k] == target[r@.len() + k] by {
                assert(components_from(sv, i as int, rooted)[k + 1] == components_from(
                    sv,
                    i + 1,
                    rooted,
                )[k]);
            }
            assert forall|k: int| 0 <= k < r@.len() implies #[trigger] r@[k]@ == target[k] by {
                if k == prev {
                    assert(components_from(sv, i as int, rooted)[0] == sv[i as int]);
                }
            }
        } else {
            assert(!is_component(sv[i as int], i as int, rooted));
            assert(components_from(sv, i as int, rooted) =~= components_from(sv, i + 1, rooted));
        }
        i = i + 1;
    }
    r
}

/// `Path::starts_with`: true when the components of `base` begin those of
/// `p`.
pub fn path_starts_with_of(p: &str, base: &str) -> (r: bool)
    ensures
        r == path_starts_with(p@, base@),
{
    let pc = crate::text::chars_of(p);
    let bc = crate::text::chars_of(base);
    let a = path_components_of(&pc);
    let b = path_components_of(&bc);
    if b.len() > a.len() {
        return false;
    }
    let ghost av = path_components(p@);
    let ghost bv = path_components(base@);
    let mut i: usize = 0;
    while i < b.len()
        invariant
            i <= b@.len() <= a@.len(),
            av == path_components(p@),
            bv == path_components(base@),
            a@.len() == av.len(),
            b@.len() == bv.len(),
            forall|k: int| 0 <= k < a@.len() ==> #[trigger] a@[k]@ == av[k],
            forall|k: int| 0 <= k < b@.len() ==> #[trigger] b@[k]@ == bv[k],
            forall|k: int| 0 <= k < i ==> av[k] == bv[k],
        decreases b.len() - i,
    {
        if !crate::names::chars_equal(&a[i], &b[i]) {
            assert(av[i as int] != bv[i as int]);
            assert(av.subrange(0, bv.len() as int)[i as int] != bv[i as int]);
            assert(av.subrange(0, bv.len() as int) != bv);
            return false;
        }
        i = i + 1;
    }
    assert(av.subrange(0, bv.len() as int) =~= bv);
    true
}

/// The file name of a path: its last component unless that is `..`, `.`
/// or the root.
pub open spec fn file_name(p: Seq<char>) -> Option<Seq<char>> {
    let c = path_components(p);
    if c.len() == 0 {
        None
    } else {
        let last = c.last();
        if last == ".."@ || last == "."@ || (c.len() == 1 && p.len() > 0 && p[0] == '/') {
            None
        } else {
            Some(last)
        }
    }
}

/// The index of the last `.` in a text, if any.
pub open spec fn last_dot(s: Seq<char>) -> Option<int>
    decreases s.len(),
{
    if s.len() == 0 {
        None
    } else if s.last() == '.' {
        Some(s.len() - 1)
    } else {
        last_dot(s.drop_last())
    }
}

/// `Path::extension`: the part of the file name after its last `.`, unless
/// that dot starts the name.
pub open spec fn extension(p: Seq<char>) -> Option<Seq<char>> {
    match file_name(p) {
        None => None,
        Some(name) => match last_dot(name) {
            Some(d) => if d > 0 {
                Some(name.skip(d + 1))
            } else {
                None
            },
            None => None,
        },
    }
}

/// The file name of a path.
pub fn file_name_of(p: &str) -> (r: Option<Vec<char>>)
    ensures
        match r {
            Some(n) => file_name(p@) == Some(n@),
            None => file_name(p@) is None,
        },
{
    let pc = crate::text::chars_of(p);
    let comps = path_components_of(&pc);
    let ghost cv = path_components(p@);
    if comps.len() == 0 {
        return None;
    }
    let last = &comps[comps.len() - 1];
    assert(last@ == cv.last());
    proof {
        reveal_strlit("..");
        reveal_strlit(".");
    }
    let is_dotdot = last.len() == 2 && last[0] == '.' && last[1] == '.';
    let is_dot = last.len() == 1 && last[0] == '.';
    if is_dotdot {
        assert(last@ =~= ".."@);
        return None;
    }
    if is_dot {
        assert(last@ =~= "."@);
        return None;
    }
    assert(last@ != ".."@ && last@ != "."@);
    if comps.len() == 1 && pc.len() > 0 && pc[0] == '/' {
        return None;
    }
    Some(copy_range(last, 0, last.len()))
}

/// The index of the last `.` of a text.
fn last_dot_of(s: &Vec<char>) -> (r: Option<usize>)
    ensures
        match r {
            Some(d) => last_dot(s@) == Some(d as int) && d < s@.len(),
            None => last_dot(s@) is None,
        },
{
    let mut i: usize = s.len();
    assert(s@.subrange(0, i as int) =~= s@);
    while i > 0 && s[i - 1] != '.'
        invariant
            i <= s@.len(),
            last_dot(s@) == last_dot(s@.subrange(0, i as int)),
        decreases i,
    {
        assert(s@.subrange(0, i as int).drop_last() =~= s@.subrange(0, i - 1));
        i = i - 1;
    }
    if i == 0 {
        assert(s@.subrange(0, 0) =~= Seq::<char>::empty());
        None
    } else {
        Some(i - 1)
    }
}

/// The extension of a path.
pub fn extension_of(p: &str) -> (r: Option<Vec<char>>)
    ensures
        match r {
            Some(e) => extension(p@) == Some(e@),
            None => extension(p@) is None,
        },
{
    match file_name_of(p) {
        None => None,
        Some(name) => match last_dot_of(&name) {
            Some(d) => {
                let n = name.len();
                assert(d < n);
                if d > 0 {
                    let e = copy_range(&name, d + 1, n);
                    assert(e@ =~= name@.skip(d + 1));
                    Some(e)
                } else {
                    None
                }
            },
            None => None,
        },
    }
}

// ---------------------------------------------------------------------------
// The order of paths
// ---------------------------------------------------------------------------
/// The kind of a path component in `Path`'s order: the root, `.`, `..`, and
/// then names.
pub open spec fn component_rank(c: Seq<char>) -> int {
    if c == "/"@ {
        1
    } else if c == "."@ {
        2
    } else if c == ".."@ {
        3
    } else {
        4
    }
}

/// Components are ordered by kind, names by their text.
pub open spec fn component_lt(a: Seq<char>, b: Seq<char>) -> bool {
    component_rank(a) < component_rank(b) || (component_rank(a) == 4 && component_rank(b) == 4
        && text_lt(a, b))
}

/// Sequences of components in lexicographic order, a prefix first.
pub open spec fn components_lt(a: Seq<Seq<char>>, b: Seq<Seq<char>>) -> bool
    decreases a.len(),
{
    if a.len() == 0 {
        b.len() > 0
    } else if b.len() == 0 {
        false
    } else if a[0] != b[0] {
        component_lt(a[0], b[0])
    } else {
        components_lt(a.skip(1), b.skip(1))
    }
}

/// `Path`'s order on `/`-separated paths.
pub open spec fn path_lt(a: Seq<char>, b: Seq<char>) -> bool {
    components_lt(path_components(a), path_components(b))
}

pub proof fn lemma_component_order(a: Seq<char>, b: Seq<char>, c: Seq<char>)
    ensures
        !component_lt(a, a),
        a == b || component_lt(a, b) || component_lt(b, a),
        !(component_lt(a, b) && component_lt(b, a)),
        component_lt(a, b) && component_lt(b, c) ==> component_lt(a, c),
{
    lemma_text_lt_irreflexive(a);
    lemma_text_lt_trichotomy(a, b);
    if text_lt(a, b) && text_lt(b, c) {
        lemma_text_lt_transitive(a, b, c);
    }
}

pub proof fn lemma_components_irreflexive(a: Seq<Seq<char>>)
    ensures
        !components_lt(a, a),
    decreases a.len(),
{
    if a.len() > 0 {
        lemma_components_irreflexive(a.skip(1));
    }
}

pub proof fn lemma_components_trichotomy(a: Seq<Seq<char>>, b: Seq<Seq<char>>)
    ensures
        a == b || components_lt(a, b) || components_lt(b, a),
        !(components_lt(a, b) && components_lt(b, a)),
    decreases a.len(),
{
    if a.len() > 0 && b.len() > 0 {
        lemma_component_order(a[0], b[0], b[0]);
        if a[0] == b[0] {
            lemma_components_trichotomy(a.skip(1), b.skip(1));
            if a.skip(1) == b.skip(1) {
                assert(a =~= seq![a[0]] + a.skip(1));
                assert(b =~= seq![b[0]] + b.skip(1));
            }
        }
    } else if a.len() == 0 && b.len() == 0 {
        assert(a =~= b);
    }
}

pub proof fn lemma_components_transitive(a: Seq<Seq<char>>, b: Seq<Seq<char>>, c: Seq<Seq<char>>)
    requires
        components_lt(a, b),
        components_lt(b, c),
    ensures
        components_lt(a, c),
    decreases a.len(),
{
    if a.len() > 0 && b.len() > 0 && c.len() > 0 {
        lemma_component_order(a[0], b[0], c[0]);
        lemma_component_order(b[0], c[0], a[0]);
        lemma_component_order(a[0], c[0], b[0]);
        if a[0] == b[0] && b[0] == c[0] {
            lemma_components_transitive(a.skip(1), b.skip(1), c.skip(1));
        }
    }
}

// ---------------------------------------------------------------------------
// Comparing paths
// ---------------------------------------------------------------------------
pub open spec fn component_views(v: Seq<Vec<char>>) -> Seq<Seq<char>> {
    v.map_values(|c: Vec<char>| c@)
}

fn rank_of(c: &Vec<char>) -> (r: u8)
    ensures
        r == component_rank(c@),
{
    proof {
        reveal_strlit("/");
        reveal_strlit(".");
        reveal_strlit("..");
    }
    if c.len() == 1 && c[0] == '/' {
        assert(c@ =~= "/"@);
        1
    } else if c.len() == 1 && c[0] == '.' {
        assert(c@ =~= "."@);
        2
    } else if c.len() == 2 && c[0] == '.' && c[1] == '.' {
        assert(c@ =~= ".."@);
        3
    } else {
        4
    }
}

fn component_less(a: &Vec<char>, b: &Vec<char>) -> (r: bool)
    ensures
        r == component_lt(a@, b@),
{
    let ra = rank_of(a);
    let rb = rank_of(b);
    if ra != rb {
        ra < rb
    } else if ra == 4 {
        text_less(a, b)
    } else {
        false
    }
}

pub fn components_less(a: &Vec<Vec<char>>, b: &Vec<Vec<char>>) -> (r: bool)
    ensures
        r == components_lt(component_views(a@), component_views(b@)),
{
    let ghost av = component_views(a@);
    let ghost bv = component_views(b@);
    let mut i: usize = 0;
    assert(av.skip(0) =~= av);
    assert(bv.skip(0) =~= bv);
    while i < a.len() && i < b.len() && chars_equal(&a[i], &b[i])
        invariant
            i <= a.len(),
            i <= b.len(),
            av == component_views(a@),
            bv == component_views(b@),
            components_lt(av, bv) == components_lt(av.skip(i as int), bv.skip(i as int)),
        decreases a.len() - i,
    {
        proof {
            assert(av.skip(i as int)[0] == a@[i as int]@);
            assert(bv.skip(i as int)[0] == b@[i as int]@);
            assert(av.skip(i as int).skip(1) =~= av.skip(i + 1));
            assert(bv.skip(i as int).skip(1) =~= bv.skip(i + 1));
        }
        i = i + 1;
    }
    if i == a.len() {
        i < b.len()
    } else if i == b.len() {
        false
    } else {
        assert(av.skip(i as int)[0] == a@[i as int]@);
        assert(bv.skip(i as int)[0] == b@[i as int]@);
        component_less(&a[i], &b[i])
    }
}

pub fn components_equal(a: &Vec<Vec<char>>, b: &Vec<Vec<char>>) -> (r: bool)
    ensures
        r == (component_views(a@) == component_views(b@)),
{
    if a.len() != b.len() {
        assert(component_views(a@).len() != component_views(b@).len());
        return false;
    }
    let mut i: usize = 0;
    while i < a.len()
        invariant
            i <= a.len() == b.len(),
            forall|j: int| 0 <= j < i ==> #[trigger] a@[j]@ == b@[j]@,
        decreases a.len() - i,
    {
        if !chars_equal(&a[i], &b[i]) {
            assert(component_views(a@)[i as int] != component_views(b@)[i as int]);
            return false;
        }
        i = i + 1;
    }
    assert(component_views(a@) =~= component_views(b@));
    true
}

/// The components of a file path.
pub fn file_components(file: &String) -> (r: Vec<Vec<char>>)
    ensures
        component_views(r@) == path_components(file@),
{
    let c = chars_of(file.as_str());
    let r = path_components_of(&c);
    assert(component_views(r@) =~= path_components(file@));
    r
}

} // verus!
