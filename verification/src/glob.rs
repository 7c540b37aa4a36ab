//! Glob patterns, parsed and matched by the `globset` crate.
//!
//! What `globset` makes of a pattern and a path is not modelled here. Its
//! answers are given names, and the rest of the library is proved against
//! those names: whatever the crate answers, the library selects, prunes and
//! reports accordingly.
//!
//! Patterns are read with the crate's default options: `*` and `?` match
//! the separator too, and matching is case sensitive. The crate reads `\`
//! as an escape where it is no path separator.

use globset::Glob;
use globset::GlobMatcher;
use vstd::prelude::*;
use vstd::string::*;

verus! {

/// A parsed pattern, `globset::Glob`.
#[verifier::external_type_specification]
#[verifier::external_body]
pub struct ExGlob(Glob);

/// A compiled pattern, `globset::GlobMatcher`.
#[verifier::external_type_specification]
#[verifier::external_body]
pub struct ExGlobMatcher(GlobMatcher);

/// The longest pattern, in characters, that the library compiles.
///
/// `globset` turns a pattern into a regular expression in which every
/// brace of the pattern opens a group, and it takes for granted that the
/// expression compiles. The regular expression engine refuses expressions
/// that nest too deep or grow too large. A pattern within this length
/// nests and grows far less than that; a longer one is refused like a
/// malformed one.
pub const MAX_PATTERN_CHARS: usize = 256;

/// Whether `globset::Glob::new` accepts the pattern.
pub uninterp spec fn glob_parses(pattern: Seq<char>) -> bool;

/// The text that a parsed pattern was read from, as `Glob::glob` gives it.
pub uninterp spec fn glob_source(glob: Glob) -> Seq<char>;

/// The text that a compiled pattern was read from, as `GlobMatcher::glob`
/// gives it.
pub uninterp spec fn matcher_pattern(matcher: GlobMatcher) -> Seq<char>;

/// Whether the matcher of `pattern` accepts `path`, as
/// `GlobMatcher::is_match` answers.
pub uninterp spec fn glob_accepts(pattern: Seq<char>, path: Seq<char>) -> bool;

/// A pattern that the library can match with: short enough, and well formed.
pub open spec fn usable(pattern: Seq<char>) -> bool {
    pattern.len() <= MAX_PATTERN_CHARS && glob_parses(pattern)
}

/// Some path of `paths` is accepted by the pattern.
pub open spec fn accepts_any(pattern: Seq<char>, paths: Seq<Seq<char>>) -> bool {
    exists|i: int| 0 <= i < paths.len() && glob_accepts(pattern, #[trigger] paths[i])
}

/// Calls `globset::Glob::new`.
///
/// Taken on trust: whether a pattern is accepted depends on the pattern
/// alone, and an accepted pattern remembers its text.
#[verifier::external_body]
fn parse(pattern: &str) -> (glob: Option<Glob>)
    ensures
        glob.is_some() == glob_parses(pattern@),
        glob matches Some(parsed) ==> glob_source(parsed) == pattern@,
{
    Glob::new(pattern).ok()
}

/// Calls `globset::Glob::compile_matcher`.
///
/// Taken on trust: the matcher is that of the pattern it was made from.
/// The call does not return for a pattern whose regular expression the
/// engine refuses, which the bound on the length rules out.
#[verifier::external_body]
fn compile_matcher(glob: &Glob) -> (matcher: GlobMatcher)
    requires
        glob_source(*glob).len() <= MAX_PATTERN_CHARS,
    ensures
        matcher_pattern(matcher) == glob_source(*glob),
{
    glob.compile_matcher()
}

/// Calls `globset::GlobMatcher::is_match`.
///
/// Taken on trust: the answer depends on nothing but the pattern that the
/// matcher was made from and the path.
#[verifier::external_body]
pub(crate) fn matcher_accepts(matcher: &GlobMatcher, path: &str) -> (accepted: bool)
    ensures
        accepted == glob_accepts(matcher_pattern(*matcher), path@),
{
    matcher.is_match(path)
}

/// Compiles a pattern; `None` when it is too long or malformed.
pub fn compile(pattern: &str) -> (matcher: Option<GlobMatcher>)
    ensures
        matcher.is_some() == usable(pattern@),
        matcher matches Some(m) ==> matcher_pattern(m) == pattern@,
{
    if pattern.unicode_len() > MAX_PATTERN_CHARS {
        return None;
    }
    match parse(pattern) {
        Some(glob) => Some(compile_matcher(&glob)),
        None => None,
    }
}

/// Whether a pattern is short enough and well formed.
pub fn is_usable(pattern: &str) -> (r: bool)
    ensures
        r == usable(pattern@),
{
    pattern.unicode_len() <= MAX_PATTERN_CHARS && parse(pattern).is_some()
}

/// Whether a pattern accepts a path; a pattern that is too long or
/// malformed accepts nothing.
pub fn pattern_accepts(pattern: &str, path: &str) -> (accepted: bool)
    ensures
        accepted == (usable(pattern@) && glob_accepts(pattern@, path@)),
{
    match compile(pattern) {
        Some(matcher) => matcher_accepts(&matcher, path),
        None => false,
    }
}

} // verus!
