//! Regular-expression sets (`regex`) and glob sets (`globset`): the calls into
//! those crates, and building a glob set from a list of patterns.
use vstd::prelude::*;

use crate::names::texts;

verus! {

// ---------------------------------------------------------------------------
// Regex sets
// ---------------------------------------------------------------------------
#[verifier::external_type_specification]
#[verifier::external_body]
pub struct ExRegexSet(regex::RegexSet);

/// A regex set compiled by `regex::RegexSet::new`, with the default
/// options, from a list of patterns.  Its field is private: only
/// `regex_set_new` and `regex_set_empty` make one.
#[derive(Debug)]
pub struct PatternSet {
    set: regex::RegexSet,
}

/// The text of the error `regex::RegexSet::new` reports for the patterns, or
/// `None` when they compile.
pub uninterp spec fn regex_set_error(patterns: Seq<Seq<char>>) -> Option<Seq<char>>;

/// The patterns a pattern set was compiled from (`RegexSet::patterns`).
pub uninterp spec fn pattern_set_patterns(s: PatternSet) -> Seq<Seq<char>>;

/// Whether a set compiled by `RegexSet::new` from the patterns matches
/// somewhere in the text (`RegexSet::is_match`).
pub uninterp spec fn regex_set_matches(patterns: Seq<Seq<char>>, text: Seq<char>) -> bool;

pub open spec fn regex_set_compiles(patterns: Seq<Seq<char>>) -> bool {
    regex_set_error(patterns) is None
}

/// `regex::RegexSet::new`: compiles the patterns into a set that holds them,
/// or gives the error's text.  Stated: the outcome is a function of the
/// patterns, and no patterns compile (the crate builds `RegexSet::empty`
/// this way and unwraps the result).  Which patterns compile is left to the
/// crate.
#[verifier::external_body]
pub(crate) fn regex_set_new(patterns: &Vec<String>) -> (r: Result<PatternSet, String>)
    ensures
        match r {
            Ok(s) => regex_set_error(texts(patterns@)) is None && pattern_set_patterns(s)
                == texts(patterns@),
            Err(e) => regex_set_error(texts(patterns@)) == Some(e@),
        },
        patterns@.len() == 0 ==> r is Ok,
{
    match regex::RegexSet::new(patterns) {
        Ok(set) => Ok(PatternSet { set }),
        Err(e) => Err(e.to_string()),
    }
}

/// `regex::RegexSet::empty`: a set of no patterns.
#[verifier::external_body]
pub(crate) fn regex_set_empty() -> (r: PatternSet)
    ensures
        pattern_set_patterns(r) == Seq::<Seq<char>>::empty(),
{
    PatternSet { set: regex::RegexSet::empty() }
}

/// `regex::RegexSet::is_match`: whether one of the set's patterns matches
/// somewhere in the text.  Stated: since every pattern set was compiled by
/// `RegexSet::new` with the default options, the answer is a function of its
/// patterns and the text; a set of no patterns matches nothing (as the crate
/// documents for `RegexSet::empty`).  What a pattern matches is left to the
/// crate.
#[verifier::external_body]
pub(crate) fn regex_set_is_match(s: &PatternSet, text: &str) -> (r: bool)
    ensures
        r == regex_set_matches(pattern_set_patterns(*s), text@),
        pattern_set_patterns(*s).len() == 0 ==> !r,
{
    s.set.is_match(text)
}

// ---------------------------------------------------------------------------
// Glob sets
// ---------------------------------------------------------------------------
#[verifier::external_type_specification]
#[verifier::external_body]
pub struct ExGlob(globset::Glob);

#[verifier::external_type_specification]
#[verifier::external_body]
pub struct ExGlobSetBuilder(globset::GlobSetBuilder);

#[verifier::external_type_specification]
#[verifier::external_body]
pub struct ExGlobSet(globset::GlobSet);

/// A glob compiled by `globset::Glob::new` (default options).  Its field is
/// private: only `glob_new` makes one.
pub struct CompiledGlob {
    glob: globset::Glob,
}

/// A `globset::GlobSetBuilder` holding compiled globs.  Its field is
/// private: only `builder_new` makes one and only `builder_add` adds to it.
pub struct GlobListBuilder {
    builder: globset::GlobSetBuilder,
}

/// A glob set built from compiled globs.  Its field is private: only
/// `builder_build` makes one.
#[derive(Debug)]
pub struct GlobMatcher {
    set: globset::GlobSet,
}

/// The text of the error `globset::Glob::new` reports for the pattern, or
/// `None` when it is a valid glob.
pub uninterp spec fn glob_error(pattern: Seq<char>) -> Option<Seq<char>>;

/// The pattern a compiled glob holds (`Glob::glob`).
pub uninterp spec fn glob_pattern(g: CompiledGlob) -> Seq<char>;

/// The patterns of the globs added to a builder, in order.
pub uninterp spec fn builder_patterns(b: GlobListBuilder) -> Seq<Seq<char>>;

/// The patterns of the globs a glob set was built from, in order.
pub uninterp spec fn glob_set_patterns(s: GlobMatcher) -> Seq<Seq<char>>;

/// The text of the error `globset::GlobSetBuilder::build` reports for valid
/// globs with these patterns, or `None` when the set builds.
pub uninterp spec fn glob_set_build_error(patterns: Seq<Seq<char>>) -> Option<Seq<char>>;

/// Whether a set built from globs compiled by `Glob::new` from the patterns
/// matches the path (`GlobSet::is_match`).
pub uninterp spec fn glob_set_matches(patterns: Seq<Seq<char>>, path: Seq<char>) -> bool;

/// `globset::Glob::new`: compiles a pattern into a glob that holds it, or
/// gives the error's text.  Which patterns are valid is left to the crate.
#[verifier::external_body]
pub(crate) fn glob_new(pattern: &str) -> (r: Result<CompiledGlob, String>)
    ensures
        match r {
            Ok(g) => glob_error(pattern@) is None && glob_pattern(g) == pattern@,
            Err(e) => glob_error(pattern@) == Some(e@),
        },
{
    match globset::Glob::new(pattern) {
        Ok(glob) => Ok(CompiledGlob { glob }),
        Err(e) => Err(e.to_string()),
    }
}

/// `globset::GlobSetBuilder::new`: a builder holding no globs.
#[verifier::external_body]
pub(crate) fn builder_new() -> (r: GlobListBuilder)
    ensures
        builder_patterns(r) == Seq::<Seq<char>>::empty(),
{
    GlobListBuilder { builder: globset::GlobSetBuilder::new() }
}

/// `globset::GlobSetBuilder::add`: appends the glob to the builder's list.
#[verifier::external_body]
pub(crate) fn builder_add(b: &mut GlobListBuilder, g: CompiledGlob)
    ensures
        builder_patterns(*final(b)) == builder_patterns(*old(b)).push(glob_pattern(g)),
{
    b.builder.add(g.glob);
}

/// `globset::GlobSetBuilder::build`: a set of the builder's globs, or the
/// error's text.  Stated: the outcome is a function of the globs' patterns
/// (every glob was compiled by `Glob::new`), and a builder of no globs
/// builds (the crate's `GlobSet::new` returns the empty set for no globs).
#[verifier::external_body]
pub(crate) fn builder_build(b: &GlobListBuilder) -> (r: Result<GlobMatcher, String>)
    ensures
        match r {
            Ok(s) => glob_set_build_error(builder_patterns(*b)) is None && glob_set_patterns(s)
                == builder_patterns(*b),
            Err(e) => glob_set_build_error(builder_patterns(*b)) == Some(e@),
        },
        builder_patterns(*b).len() == 0 ==> r is Ok,
{
    match b.builder.build() {
        Ok(set) => Ok(GlobMatcher { set }),
        Err(e) => Err(e.to_string()),
    }
}

/// `globset::GlobSet::is_match`: whether one of the set's globs matches the
/// path.  Stated: since every glob was compiled by `Glob::new` with the
/// default options, the answer is a function of the globs' patterns and the
/// path; a set of no globs matches nothing (as the crate documents for the
/// empty set).  What a glob matches is left to the crate.
#[verifier::external_body]
pub(crate) fn glob_set_is_match(s: &GlobMatcher, path: &str) -> (r: bool)
    ensures
        r == glob_set_matches(glob_set_patterns(*s), path@),
        glob_set_patterns(*s).len() == 0 ==> !r,
{
    s.set.is_match(path)
}

impl GlobMatcher {
    /// Whether one of the set's globs matches the path.
    pub fn is_match(&self, path: &str) -> (r: bool)
        ensures
            r == glob_set_matches(glob_set_patterns(*self), path@),
            glob_set_patterns(*self).len() == 0 ==> !r,
    {
        glob_set_is_match(self, path)
    }
}

/// The error of the first pattern from index `i` on that is not a valid
/// glob.
pub open spec fn first_glob_error(patterns: Seq<Seq<char>>, i: int) -> Option<Seq<char>>
    decreases patterns.len() - i,
{
    if 0 <= i < patterns.len() {
        match glob_error(patterns[i]) {
            Some(e) => Some(e),
            None => first_glob_error(patterns, i + 1),
        }
    } else {
        None
    }
}

/// Why a glob set cannot be built from the patterns: the first invalid
/// pattern's error, else the error building the set; `None` when it builds.
pub open spec fn glob_set_failure(patterns: Seq<Seq<char>>) -> Option<Seq<char>> {
    match first_glob_error(patterns, 0) {
        Some(e) => Some(e),
        None => glob_set_build_error(patterns),
    }
}

pub open spec fn glob_set_compiles(patterns: Seq<Seq<char>>) -> bool {
    glob_set_failure(patterns) is None
}

proof fn lemma_first_glob_error_skip(patterns: Seq<Seq<char>>, i: int)
    requires
        0 <= i <= patterns.len(),
        forall|j: int| 0 <= j < i ==> glob_error(#[trigger] patterns[j]) is None,
    ensures
        first_glob_error(patterns, 0) == first_glob_error(patterns, i),
    decreases i,
{
    if i > 0 {
        lemma_first_glob_error_skip(patterns, i - 1);
    }
}

/// A glob set of the patterns, or the error of the first invalid pattern,
/// or the error building the set.
pub fn build_glob_set(patterns: &Vec<String>) -> (r: Result<GlobMatcher, String>)
    ensures
        match r {
            Ok(s) => glob_set_compiles(texts(patterns@)) && glob_set_patterns(s) == texts(
                patterns@,
            ),
            Err(e) => glob_set_failure(texts(patterns@)) == Some(e@),
        },
{
    let ghost ps = texts(patterns@);
    let mut builder = builder_new();
    let mut i: usize = 0;
    while i < patterns.len()
        invariant
            i <= patterns.len(),
            ps == texts(patterns@),
            builder_patterns(builder) == ps.subrange(0, i as int),
            forall|j: int| 0 <= j < i ==> glob_error(#[trigger] ps[j]) is None,
        decreases patterns.len() - i,
    {
        assert(ps[i as int] == patterns@[i as int]@);
        match glob_new(patterns[i].as_str()) {
            Ok(g) => {
                builder_add(&mut builder, g);
                assert(ps.subrange(0, i + 1) =~= ps.subrange(0, i as int).push(ps[i as int]));
            },
            Err(e) => {
                proof {
                    lemma_first_glob_error_skip(ps, i as int);
                }
                return Err(e);
            },
        }
        i = i + 1;
    }
    proof {
        lemma_first_glob_error_skip(ps, i as int);
        assert(ps.subrange(0, i as int) =~= ps);
    }
    builder_build(&builder)
}

} // verus!
