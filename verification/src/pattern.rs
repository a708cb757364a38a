//! Regular expressions of the `regex` crate, as far as a search uses them.

use vstd::prelude::*;

verus! {

/// `regex::Regex`, a compiled expression. Where it comes from is
/// `compiled_from`.
#[verifier::external_type_specification]
#[verifier::external_body]
pub struct ExRegex(regex::Regex);

/// `regex::Error`, why a pattern was rejected. Nothing is said of it.
#[verifier::external_type_specification]
#[verifier::external_body]
pub struct ExRegexError(regex::Error);

/// Whether `regex::Regex::new` accepts a text as a pattern.
pub uninterp spec fn pattern_compiles(pattern: Seq<char>) -> bool;

/// The pattern of which `regex::Regex::new` made a compiled expression;
/// `None` for an expression that was made in another way.
pub uninterp spec fn compiled_from(regex: regex::Regex) -> Option<Seq<char>>;

/// For each successive match in a text of the expression that
/// `regex::Regex::new` makes of a pattern, no match overlapping an earlier
/// one, what the first capture group holds: `None` where the pattern has no
/// such group or the group took no part in the match.
pub uninterp spec fn first_groups(pattern: Seq<char>, haystack: Seq<char>) -> Seq<Option<Seq<char>>>;

/// `regex::Regex::new` compiles exactly the patterns that the crate
/// accepts, and the expression it hands back is made of the pattern given.
pub assume_specification[ regex::Regex::new ](re: &str) -> (r: Result<regex::Regex, regex::Error>)
    ensures
        match r {
            Ok(regex) => pattern_compiles(re@) && compiled_from(regex) == Some(re@),
            Err(_) => !pattern_compiles(re@),
        },
;

/// Walks `regex::Regex::captures_iter` over the text and takes group 1 of
/// each match with `regex::Captures::get`. Trusted, for an expression that
/// `regex::Regex::new` made: the result lists, match by match, the text of
/// that group, `None` where the group is absent.
#[verifier::external_body]
pub(crate) fn capture_first_groups(regex: &regex::Regex, haystack: &str) -> (r: Vec<Option<String>>)
    requires
        compiled_from(*regex) is Some,
    ensures
        r.deep_view() == first_groups(compiled_from(*regex)->0, haystack@),
{
    regex.captures_iter(haystack).map(|found| found.get(1).map(|group| group.as_str().to_string())).collect()
}

} // verus!
