//! Glob patterns, compiled and matched by the `globset` crate.
//!
//! A glob, a set builder and a set are opaque values of `globset`; the library
//! follows the patterns each holds through the names below.

use vstd::prelude::*;
use globset::{Glob, GlobSet, GlobSetBuilder};

verus! {

#[verifier::external_type_specification]
#[verifier::external_body]
pub struct ExGlob(globset::Glob);

#[verifier::external_type_specification]
#[verifier::external_body]
pub struct ExGlobSet(globset::GlobSet);

#[verifier::external_type_specification]
#[verifier::external_body]
pub struct ExGlobSetBuilder(globset::GlobSetBuilder);

#[verifier::external_type_specification]
#[verifier::external_body]
pub struct ExGlobError(globset::Error);

/// Whether `Glob::new` accepts a pattern (default options).
pub uninterp spec fn glob_parses(pattern: Seq<char>) -> bool;

/// The pattern text that a glob was made from.
pub uninterp spec fn glob_source(glob: Glob) -> Seq<char>;

/// The patterns added to a set builder, in order.
pub uninterp spec fn builder_globs(builder: GlobSetBuilder) -> Seq<Seq<char>>;

/// The patterns that a set was built from, in order.
pub uninterp spec fn set_globs(set: GlobSet) -> Seq<Seq<char>>;

/// Whether `GlobSetBuilder::build` succeeds on the given (parsed) patterns.
pub uninterp spec fn globs_compile(patterns: Seq<Seq<char>>) -> bool;

/// Whether the glob of a pattern matches a path (`GlobMatcher::is_match`).
pub uninterp spec fn glob_matches(pattern: Seq<char>, path: Seq<char>) -> bool;

/// Whether any of the patterns matches the path.
pub open spec fn set_matches(patterns: Seq<Seq<char>>, path: Seq<char>) -> bool {
    exists|i: int| 0 <= i < patterns.len() && glob_matches(#[trigger] patterns[i], path)
}

/// Trusted: `Glob::new` with default options. It succeeds exactly on the patterns
/// that parse, and the glob it returns remembers its pattern text.
#[verifier::external_body]
pub(crate) fn new_glob(pattern: &str) -> (res: Result<Glob, globset::Error>)
    ensures
        res is Ok <==> glob_parses(pattern@),
        res matches Ok(glob) ==> glob_source(glob) == pattern@,
{
    Glob::new(pattern)
}

/// Trusted: `GlobSetBuilder::new`, which holds no pattern.
#[verifier::external_body]
pub(crate) fn new_builder() -> (res: GlobSetBuilder)
    ensures
        builder_globs(res) == Seq::<Seq<char>>::empty(),
{
    GlobSetBuilder::new()
}

/// Trusted: `GlobSetBuilder::add`, which appends the glob to the builder's patterns.
#[verifier::external_body]
pub(crate) fn builder_add(builder: &mut GlobSetBuilder, glob: Glob)
    ensures
        builder_globs(*final(builder)) == builder_globs(*old(builder)).push(glob_source(glob)),
{
    builder.add(glob);
}

/// Trusted: `GlobSetBuilder::build`. It succeeds exactly when the patterns compile,
/// always on an empty builder, and the set holds the builder's patterns.
#[verifier::external_body]
pub(crate) fn builder_build(builder: &GlobSetBuilder) -> (res: Result<GlobSet, globset::Error>)
    ensures
        res is Ok <==> globs_compile(builder_globs(*builder)),
        builder_globs(*builder).len() == 0 ==> res is Ok,
        res matches Ok(set) ==> set_globs(set) == builder_globs(*builder),
{
    builder.build()
}

/// Trusted: `GlobSet::is_match`, true when any glob of the set matches the path.
#[verifier::external_body]
pub(crate) fn set_is_match(set: &GlobSet, path: &str) -> (res: bool)
    ensures
        res == (exists|i: int| 0 <= i < set_globs(*set).len() && glob_matches(#[trigger] set_globs(*set)[i], path@)),
{
    set.is_match(path)
}

/// Trusted: `GlobSet::is_empty`, true when the set holds no glob.
#[verifier::external_body]
pub(crate) fn set_is_empty(set: &GlobSet) -> (res: bool)
    ensures
        res == (set_globs(*set).len() == 0),
{
    set.is_empty()
}

} // verus!
