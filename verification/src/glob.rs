//! Glob patterns (globset) matched against object identifiers.
use vstd::prelude::*;

use globset::{Glob, GlobSet, GlobSetBuilder};

verus! {

#[verifier::external_type_specification]
#[verifier::external_body]
pub struct ExGlob(Glob);

#[verifier::external_type_specification]
#[verifier::external_body]
pub struct ExGlobSet(GlobSet);

#[verifier::external_type_specification]
#[verifier::external_body]
pub struct ExGlobSetBuilder(GlobSetBuilder);

#[verifier::external_type_specification]
#[verifier::external_body]
pub struct ExGlobError(globset::Error);

/// Whether `Glob::new` accepts the pattern.
pub uninterp spec fn glob_parses(pattern: Seq<char>) -> bool;

/// The pattern text that a `Glob` was built from (what `Glob::glob` returns).
pub uninterp spec fn glob_text(g: Glob) -> Seq<char>;

/// The patterns added to a `GlobSetBuilder`, in order.
pub uninterp spec fn builder_patterns(b: GlobSetBuilder) -> Seq<Seq<char>>;

/// Whether `GlobSetBuilder::build` succeeds on these patterns.
pub uninterp spec fn glob_set_builds(patterns: Seq<Seq<char>>) -> bool;

/// The patterns held by a built `GlobSet`, in order.
pub uninterp spec fn glob_set_patterns(s: GlobSet) -> Seq<Seq<char>>;

/// Whether the glob `pattern` (default options) matches `candidate`.
pub uninterp spec fn glob_matches(pattern: Seq<char>, candidate: Seq<char>) -> bool;

/// The pattern `*`.
pub open spec fn star_pattern() -> Seq<char> {
    seq!['*']
}

/// Calls `Glob::new`. Besides naming its success, claims what the source shows:
/// the glob keeps its pattern text, and `*` is a valid pattern.
#[verifier::external_body]
pub(crate) fn glob_new(pattern: &str) -> (r: Result<Glob, globset::Error>)
    ensures
        r is Ok <==> glob_parses(pattern@),
        r matches Ok(g) ==> glob_text(g) == pattern@,
        pattern@ == star_pattern() ==> r is Ok,
{
    Glob::new(pattern)
}

/// Calls `GlobSetBuilder::new`, which holds no pattern.
#[verifier::external_body]
pub(crate) fn glob_set_builder_new() -> (r: GlobSetBuilder)
    ensures
        builder_patterns(r) == Seq::<Seq<char>>::empty(),
{
    GlobSetBuilder::new()
}

/// Calls `GlobSetBuilder::add`, which appends the glob to the builder's patterns.
#[verifier::external_body]
pub(crate) fn glob_set_builder_add(b: &mut GlobSetBuilder, g: Glob)
    ensures
        builder_patterns(*final(b)) == builder_patterns(*old(b)).push(glob_text(g)),
{
    b.add(g);
}

/// Calls `GlobSetBuilder::build`. The built set holds the builder's patterns;
/// a set of the single pattern `*` always builds.
#[verifier::external_body]
pub(crate) fn glob_set_build(b: &GlobSetBuilder) -> (r: Result<GlobSet, globset::Error>)
    ensures
        r is Ok <==> glob_set_builds(builder_patterns(*b)),
        r matches Ok(s) ==> glob_set_patterns(s) == builder_patterns(*b),
        builder_patterns(*b) == seq![star_pattern()] ==> r is Ok,
{
    b.build()
}

/// Calls `GlobSet::is_match`, documented as "true if any glob in this set
/// matches the path"; the pattern `*` matches every candidate.
#[verifier::external_body]
pub(crate) fn glob_set_is_match(s: &GlobSet, candidate: &str) -> (r: bool)
    ensures
        r == glob_set_patterns(*s).any(|p: Seq<char>| glob_matches(p, candidate@)),
        glob_set_patterns(*s).contains(star_pattern()) ==> r,
{
    s.is_match(candidate)
}

} // verus!
