//! Regular expressions, as far as the library needs them: one capture group
//! of the first match.

use vstd::prelude::*;

verus! {

/// What capture group `group` of the leftmost match of the regular
/// expression `pattern` in `haystack` holds. `None` where `pattern` is no
/// valid expression, where it matches nowhere in `haystack`, and where the
/// group takes no part in the match.
pub uninterp spec fn regex_group(pattern: Seq<char>, haystack: Seq<char>, group: int) -> Option<
    Seq<char>,
>;

/// Compiles `pattern` with `regex::Regex::new`, searches `haystack` with
/// `Regex::captures` and takes the text (`Match::as_str`) of the group that
/// `Captures::get` gives for `group`. Trusted: the result depends on the
/// three arguments alone.
#[verifier::external_body]
pub(crate) fn capture_group(pattern: &str, haystack: &str, group: usize) -> (found: Option<String>)
    ensures
        match found {
            Some(text) => regex_group(pattern@, haystack@, group as int) == Some(text@),
            None => regex_group(pattern@, haystack@, group as int) is None,
        },
{
    match regex::Regex::new(pattern) {
        Ok(expression) => match expression.captures(haystack) {
            Some(captures) => match captures.get(group) {
                Some(part) => Some(part.as_str().to_string()),
                None => None,
            },
            None => None,
        },
        Err(_) => None,
    }
}

} // verus!
