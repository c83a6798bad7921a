//! Regular expressions, as the `regex` crate compiles and runs them.

use vstd::prelude::*;

verus! {

/// `regex::Regex`, a compiled expression. The library passes it on unopened.
#[verifier::external_type_specification]
#[verifier::external_body]
pub struct ExRegex(regex::Regex);

/// `regex::Error`, the reason why a pattern does not compile.
#[verifier::external_type_specification]
#[verifier::external_body]
pub struct ExRegexError(regex::Error);

/// What `regex::Regex::new` makes of `pattern`: the compiled expression, or
/// `None` where the crate rejects the pattern.
pub uninterp spec fn compiled_regex(pattern: Seq<char>) -> Option<regex::Regex>;

/// What `regex::Regex::is_match` answers: whether `re` matches anywhere in `text`.
pub uninterp spec fn regex_matches(re: regex::Regex, text: Seq<char>) -> bool;

/// `Clone` for `regex::Regex` hands back the same compiled expression.
pub assume_specification[ <regex::Regex as Clone>::clone ](re: &regex::Regex) -> (r: regex::Regex)
    ensures
        r == *re,
;

/// `regex::Regex::new`. The outcome depends on the pattern text alone, so it
/// is named by `compiled_regex`; nothing is claimed about which patterns compile.
#[verifier::external_body]
pub(crate) fn compile_regex(pattern: &str) -> (r: Result<regex::Regex, regex::Error>)
    ensures
        match r {
            Ok(re) => compiled_regex(pattern@) == Some(re),
            Err(_) => compiled_regex(pattern@) is None,
        },
{
    regex::Regex::new(pattern)
}

/// `regex::Regex::is_match`. The answer depends on the expression and the
/// text alone, so it is named by `regex_matches`.
#[verifier::external_body]
pub(crate) fn regex_is_match(re: &regex::Regex, text: &str) -> (r: bool)
    ensures
        r == regex_matches(*re, text@),
{
    re.is_match(text)
}

/// The message that `regex::Error` displays. Nothing is claimed about its wording.
#[verifier::external_body]
pub(crate) fn regex_error_text(err: &regex::Error) -> String {
    err.to_string()
}

} // verus!
