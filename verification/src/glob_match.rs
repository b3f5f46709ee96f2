//! Shell-style glob matching through the `glob` crate.
use vstd::prelude::*;
use crate::text::to_owned_string;

verus! {

#[verifier::external_type_specification]
#[verifier::external_body]
pub struct ExGlobPattern(glob::Pattern);

#[verifier::external_type_specification]
#[verifier::external_body]
pub struct ExGlobPatternError(glob::PatternError);

/// Whether `glob::Pattern::new` accepts the pattern text.
pub uninterp spec fn glob_pattern_valid(pattern: Seq<char>) -> bool;

/// Result of `glob::Pattern::matches` (default match options) for the
/// pattern compiled from `pattern` on the candidate text.
pub uninterp spec fn glob_match_result(pattern: Seq<char>, candidate: Seq<char>) -> bool;

/// `glob::Pattern::new`: `Ok` exactly when the pattern text is valid.
#[verifier::external_body]
fn glob_pattern_new(pattern: &str) -> (r: Result<glob::Pattern, glob::PatternError>)
    ensures
        r is Ok <==> glob_pattern_valid(pattern@),
{
    glob::Pattern::new(pattern)
}

/// A compiled glob pattern together with the text it was compiled from.
pub struct GlobPattern {
    source: String,
    compiled: glob::Pattern,
}

/// `glob::Pattern::matches` on a pattern built by `GlobPattern::new`, whose
/// `compiled` field always comes from `glob::Pattern::new(source)`.
#[verifier::external_body]
fn glob_pattern_matches(pattern: &GlobPattern, candidate: &str) -> (r: bool)
    ensures
        r == glob_match_result(pattern.source@, candidate@),
{
    pattern.compiled.matches(candidate)
}

impl GlobPattern {
    /// The pattern text.
    pub closed spec fn text(&self) -> Seq<char> {
        self.source@
    }

    /// Compiles `pattern`; `None` when the glob crate rejects it.
    pub fn new(pattern: &str) -> (r: Option<GlobPattern>)
        ensures
            r is Some <==> glob_pattern_valid(pattern@),
            r matches Some(g) ==> g.text() == pattern@,
    {
        match glob_pattern_new(pattern) {
            Ok(compiled) => Some(GlobPattern { source: to_owned_string(pattern), compiled }),
            Err(_) => None,
        }
    }

    /// Whether `candidate` matches this pattern.
    pub fn matches(&self, candidate: &str) -> (r: bool)
        ensures
            r == glob_match_result(self.text(), candidate@),
    {
        glob_pattern_matches(self, candidate)
    }
}

} // verus!
