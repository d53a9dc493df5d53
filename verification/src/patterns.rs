//! The one place where the library calls the `regex` crate. Nothing here is
//! proved: the contract of [`capture_groups`] is taken on trust, and
//! everything that reads its result is verified for every value of it.

use vstd::prelude::*;

verus! {

/// The `regex` crate's error type: why a pattern was rejected.
#[verifier::external_type_specification]
#[verifier::external_body]
pub struct ExRegexError(regex::Error);

/// What the `regex` crate finds when `pattern` is searched for in `haystack`:
/// `None` where it rejects the pattern; otherwise the successive
/// non-overlapping matches from left to right, each as the text of its
/// capture groups in the order of their opening parentheses (group 0 is the
/// whole match), with `None` for a group that took no part in the match.
pub uninterp spec fn regex_captures(pattern: Seq<char>, haystack: Seq<char>) -> Option<
    Seq<Seq<Option<Seq<char>>>>,
>;

/// Compiles `pattern` with `regex::Regex::new` and collects what
/// `Regex::captures_iter` yields for `haystack`, copying each group's text
/// out of the haystack. The contract claims only that the outcome is the one
/// that [`regex_captures`] names for this pattern and this haystack: an error
/// exactly where the pattern is rejected, the groups of every match
/// otherwise.
#[verifier::external_body]
pub(crate) fn capture_groups(pattern: &str, haystack: &str) -> (found: Result<
    Vec<Vec<Option<String>>>,
    regex::Error,
>)
    ensures
        match found {
            Ok(all) => regex_captures(pattern@, haystack@) == Some(all.deep_view()),
            Err(_) => regex_captures(pattern@, haystack@) is None,
        },
{
    let re = regex::Regex::new(pattern)?;
    Ok(
        re.captures_iter(haystack).map(
            |caps| caps.iter().map(|group| group.map(|m| m.as_str().to_string())).collect(),
        ).collect(),
    )
}

} // verus!
