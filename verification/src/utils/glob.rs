//! What this crate relies on from the `globset` crate. Nothing in this file
//! is proved: each item states what `globset` documents.
//!
//! Every glob in this crate is made by `Glob::new`, that is with the
//! options that `globset` sets by default for the platform the crate is
//! built for (a backslash escapes only where it is no path separator). What
//! is said here of parsing and matching is said of such globs, on that
//! platform. No public function takes a glob, a builder or a set from its
//! caller, so no glob with other options comes in.

use vstd::prelude::*;

verus! {

/// `globset::Glob`, one parsed pattern.
#[verifier::external_type_specification]
#[verifier::external_body]
pub struct ExGlob(globset::Glob);

/// `globset::GlobSetBuilder`, the list of patterns a set is built from.
#[verifier::external_type_specification]
#[verifier::external_body]
pub struct ExGlobSetBuilder(globset::GlobSetBuilder);

/// `globset::GlobSet`, patterns compiled to be matched together.
#[verifier::external_type_specification]
#[verifier::external_body]
pub struct ExGlobSet(globset::GlobSet);

/// `globset::Error`, why a pattern or a set was refused.
#[verifier::external_type_specification]
#[verifier::external_body]
pub struct ExGlobError(globset::Error);

/// Whether `globset::Glob::new` accepts the pattern text, with the default
/// options of the platform the crate is built for.
pub uninterp spec fn glob_parses(pattern: Seq<char>) -> bool;

/// The pattern text a glob was parsed from, as `globset::Glob::glob` returns it.
pub uninterp spec fn glob_source(glob: globset::Glob) -> Seq<char>;

/// Whether the glob that `globset::Glob::new` makes of `pattern` matches
/// `path`, as `globset::GlobMatcher::is_match` decides it. Like the parsing,
/// this is a function of the two texts on one platform; the default options
/// differ between platforms.
pub uninterp spec fn glob_matches(pattern: Seq<char>, path: Seq<char>) -> bool;

/// The pattern texts of the globs added to a builder, in the order added.
pub uninterp spec fn builder_patterns(builder: globset::GlobSetBuilder) -> Seq<Seq<char>>;

/// The pattern texts of the globs a set was built from, in order.
pub uninterp spec fn set_patterns(set: globset::GlobSet) -> Seq<Seq<char>>;

/// Whether `globset::GlobSetBuilder::build` succeeds on a builder that holds
/// globs made by `Glob::new` of these pattern texts.
pub uninterp spec fn glob_set_builds(patterns: Seq<Seq<char>>) -> bool;

/// Whether at least one of `patterns` matches `path`.
pub open spec fn any_glob_matches(patterns: Seq<Seq<char>>, path: Seq<char>) -> bool {
    exists|i: int| 0 <= i < patterns.len() && glob_matches(#[trigger] patterns[i], path)
}

/// `globset::Glob::new` parses a pattern with the default options. Whether it
/// succeeds depends on the pattern text alone, and the glob it returns keeps
/// that text.
pub assume_specification[ globset::Glob::new ](glob: &str) -> (r: Result<
    globset::Glob,
    globset::Error,
>)
    ensures
        r is Ok <==> glob_parses(glob@),
        r matches Ok(parsed) ==> glob_source(parsed) == glob@,
;

/// `globset::GlobSetBuilder::new` returns a builder without any pattern.
pub assume_specification[ globset::GlobSetBuilder::new ]() -> (builder: globset::GlobSetBuilder)
    ensures
        builder_patterns(builder) == Seq::<Seq<char>>::empty(),
;

/// `globset::GlobSetBuilder::add` puts the glob at the end of the builder's
/// list.
#[verifier::external_body]
pub(crate) fn builder_add(builder: &mut globset::GlobSetBuilder, glob: globset::Glob)
    ensures
        builder_patterns(*final(builder)) == builder_patterns(*old(builder)).push(
            glob_source(glob),
        ),
{
    builder.add(glob);
}

/// `globset::GlobSetBuilder::build` compiles the patterns added so far.
/// Whether it succeeds depends on those patterns alone, and the set it
/// returns is made of exactly them.
pub assume_specification[ globset::GlobSetBuilder::build ](
    builder: &globset::GlobSetBuilder,
) -> (r: Result<globset::GlobSet, globset::Error>)
    ensures
        r is Ok <==> glob_set_builds(builder_patterns(*builder)),
        r matches Ok(set) ==> set_patterns(set) == builder_patterns(*builder),
;

/// `globset::GlobSet::is_match` is true exactly when some glob of the set
/// matches the path. The set is one of globs made by `Glob::new`, so each of
/// them matches as `glob_matches` says of its pattern text.
#[verifier::external_body]
pub(crate) fn set_is_match(set: &globset::GlobSet, path: &str) -> (matched: bool)
    ensures
        matched == (exists|i: int|
            0 <= i < set_patterns(*set).len() && glob_matches(
                #[trigger] set_patterns(*set)[i],
                path@,
            )),
{
    set.is_match(path)
}

/// The text that `globset::Error` shows through `Display`. Nothing is
/// claimed of it.
#[verifier::external_body]
pub(crate) fn glob_error_text(error: &globset::Error) -> String {
    error.to_string()
}

} // verus!
