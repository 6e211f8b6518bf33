use vstd::prelude::*;
use regex::Regex;

verus! {

#[verifier::external_type_specification]
#[verifier::external_body]
pub struct ExRegex(Regex);

#[verifier::external_type_specification]
#[verifier::external_body]
pub struct ExRegexError(regex::Error);

/// Whether `regex::Regex::new` accepts the pattern source.
pub uninterp spec fn pattern_compiles(source: Seq<char>) -> bool;

/// Whether the regex compiled from `source` matches somewhere in `text`.
pub uninterp spec fn pattern_matches(source: Seq<char>, text: Seq<char>) -> bool;

/// Relies on regex::Regex::new: it returns `Ok` exactly when the source
/// compiles, which depends on the source alone.
#[verifier::external_body]
fn compile(source: &str) -> (r: Result<Regex, regex::Error>)
    ensures
        r.is_ok() == pattern_compiles(source@),
{
    Regex::new(source)
}

/// The pattern source that a `Pattern` was built from was not a valid regex.
#[derive(Debug, PartialEq, Eq)]
pub struct PatternError {
    pub source: String,
}

/// A compiled path-matching regular expression, kept with its source text.
#[derive(Debug)]
pub struct Pattern {
    source: String,
    re: Regex,
}

impl Pattern {
    /// The source text this pattern was compiled from.
    pub closed spec fn source_text(&self) -> Seq<char> {
        self.source@
    }

    pub fn new(source: &str) -> (r: Result<Pattern, PatternError>)
        ensures
            r.is_ok() == pattern_compiles(source@),
            r matches Ok(p) ==> p.source_text() == source@,
            r matches Err(e) ==> e.source@ == source@,
    {
        match compile(source) {
            Ok(re) => Ok(Pattern { source: source.to_string(), re }),
            Err(_) => Err(PatternError { source: source.to_string() }),
        }
    }

    /// Whether the pattern matches somewhere in `text`.
    pub fn is_match(&self, text: &str) -> (r: bool)
        ensures
            r == pattern_matches(self.source_text(), text@),
    {
        regex_is_match(self, text)
    }

    pub fn as_str(&self) -> (r: &str)
        ensures
            r@ == self.source_text(),
    {
        self.source.as_str()
    }
}

/// Relies on regex::Regex::is_match: true iff the regex matches anywhere in
/// `text`. `p.re` is only ever built by `Pattern::new` from `p.source`.
#[verifier::external_body]
fn regex_is_match(p: &Pattern, text: &str) -> (r: bool)
    ensures
        r == pattern_matches(p.source_text(), text@),
{
    p.re.is_match(text)
}

/// The pattern used when no artifact pattern is given: a path ending in an
/// object (`.o`) or archive (`.a`) extension.
pub const DEFAULT_ARTIFACT_PATTERN: &'static str = r"\.(a|o)$";

/// Whether `path` looks like a build artifact: it matches `pattern`, or the
/// default artifact pattern when none is given. Should the default pattern not
/// compile, no path counts as an artifact.
pub fn is_artifact(path: &str, pattern: Option<&Pattern>) -> (r: bool)
    ensures
        pattern matches Some(p) ==> r == pattern_matches(p.source_text(), path@),
        pattern is None ==> r == (pattern_compiles(DEFAULT_ARTIFACT_PATTERN@)
            && pattern_matches(DEFAULT_ARTIFACT_PATTERN@, path@)),
{
    match pattern {
        Some(p) => p.is_match(path),
        None => match Pattern::new(DEFAULT_ARTIFACT_PATTERN) {
            Ok(p) => p.is_match(path),
            Err(_) => false,
        },
    }
}

} // verus!
