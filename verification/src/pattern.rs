//! Regular expressions: compiling a pattern and asking whether it matches.

use regex::RegexBuilder;
use vstd::prelude::*;
use vstd::string::StringExecFns;

verus! {

/// A compiled pattern of the `regex` crate, `regex::Regex`. Nothing is
/// known of its inside; it is compiled once and asked for matches.
#[verifier::external_type_specification]
#[verifier::external_body]
pub struct ExRegex(regex::Regex);

/// The reason why the `regex` crate did not compile a pattern,
/// `regex::Error`. It is mapped to a message without being read.
#[verifier::external_type_specification]
#[verifier::external_body]
pub struct ExRegexError(regex::Error);

/// Whether the pattern has a match anywhere in `text`.
pub uninterp spec fn has_match(pattern: regex::Regex, text: Seq<char>) -> bool;

/// Trusted: `Regex::is_match` says whether the pattern has a match anywhere
/// in the text, which the pattern and the text determine.
pub assume_specification[ regex::Regex::is_match ](pattern: &regex::Regex, haystack: &str) -> (b:
    bool)
    ensures
        b == has_match(*pattern, haystack@),
;

/// Whether `pattern`, read as a regular expression, and without regard to
/// case where `insensitive` is set, has a match anywhere in `text`.
pub uninterp spec fn pattern_matches(pattern: Seq<char>, insensitive: bool, text: Seq<char>) -> bool;

/// `compiled` is the compiled form of `pattern`: it has a match in a text
/// exactly when the pattern, with or without regard to case, has one there.
pub open spec fn compiled_from(compiled: regex::Regex, pattern: Seq<char>, insensitive: bool) -> bool {
    forall|text: Seq<char>| #[trigger]
        has_match(compiled, text) == pattern_matches(pattern, insensitive, text)
}

/// Compiles a pattern, to match without regard to case where `insensitive`
/// is set.
///
/// Trusted: `RegexBuilder::new`, `case_insensitive` and `build` return a
/// compiled pattern or an error. Where they return a compiled pattern, what
/// it matches is what the pattern and the case setting say. Nothing is
/// claimed of when they fail: that a pattern is too big to compile is a
/// matter of the machine too.
#[verifier::external_body]
pub(crate) fn build_regex(pattern: &str, insensitive: bool) -> (r: Result<
    regex::Regex,
    regex::Error,
>)
    ensures
        r is Ok ==> forall|text: Seq<char>| #[trigger]
            has_match(r->Ok_0, text) == pattern_matches(pattern@, insensitive, text),
{
    RegexBuilder::new(pattern).case_insensitive(insensitive).build()
}

/// The message for a pattern that does not compile: what it was given as,
/// and the pattern in quotes.
pub open spec fn invalid_pattern_text(given_as: Seq<char>, pattern: Seq<char>) -> Seq<char> {
    "Invalid "@ + given_as + " \""@ + pattern + "\""@
}

/// Formats the message for a pattern that does not compile.
pub fn invalid_pattern_message(given_as: &str, pattern: &str) -> (s: String)
    ensures
        s@ == invalid_pattern_text(given_as@, pattern@),
{
    let mut s = String::from_str("Invalid ");
    s.append(given_as);
    s.append(" \"");
    s.append(pattern);
    s.append("\"");
    s
}

/// What becomes of the outcome of compiling `pattern`: the compiled pattern
/// itself, or the message that names the pattern and what it was given as.
pub fn compiled_or_message(
    outcome: Result<regex::Regex, regex::Error>,
    given_as: &str,
    pattern: &str,
) -> (r: Result<regex::Regex, String>)
    ensures
        match outcome {
            Ok(compiled) => r == Ok::<regex::Regex, String>(compiled),
            Err(_) => r is Err && r->Err_0@ == invalid_pattern_text(given_as@, pattern@),
        },
{
    match outcome {
        Ok(compiled) => Ok(compiled),
        Err(_) => Err(invalid_pattern_message(given_as, pattern)),
    }
}

/// Compiles a pattern, to match without regard to case where `insensitive`
/// is set. What comes back on success is the compiled form of this pattern
/// under this setting. Where the pattern does not compile, the error is the
/// message that names the pattern and what it was given as.
pub fn compile(pattern: &str, insensitive: bool, given_as: &str) -> (r: Result<
    regex::Regex,
    String,
>)
    ensures
        r is Ok ==> compiled_from(r->Ok_0, pattern@, insensitive),
        r is Err ==> r->Err_0@ == invalid_pattern_text(given_as@, pattern@),
{
    compiled_or_message(build_regex(pattern, insensitive), given_as, pattern)
}

/// Whether any of the patterns has a match in `text`.
pub open spec fn any_match(patterns: Seq<regex::Regex>, text: Seq<char>) -> bool {
    exists|i: int| 0 <= i < patterns.len() && has_match(#[trigger] patterns[i], text)
}

/// Whether any of the patterns has a match in `text`.
pub fn matches_any(patterns: &[regex::Regex], text: &str) -> (b: bool)
    ensures
        b == any_match(patterns@, text@),
{
    let mut i: usize = 0;
    while i < patterns.len()
        invariant
            i <= patterns.len(),
            forall|j: int| 0 <= j < i ==> !has_match(#[trigger] patterns@[j], text@),
        decreases patterns.len() - i,
    {
        if patterns[i].is_match(text) {
            return true;
        }
        i += 1;
    }
    false
}

} // verus!
