//! Regular-expression captures, through the `regex` crate.

use vstd::prelude::*;

verus! {

/// The text captured by group `group` of the leftmost-first match of the
/// regular expression `pattern` in `text`; `None` when `pattern` does not
/// compile, does not match, or the group does not take part in the match.
pub uninterp spec fn regex_capture(pattern: Seq<char>, text: Seq<char>, group: nat) -> Option<Seq<char>>;

/// `Regex::new(pattern)`, then `captures(text)`, then `get(group)`.
///
/// The captured text is named (`regex_capture`) and not stated: the
/// contract claims only that the call is a function of its arguments.
#[verifier::external_body]
pub(crate) fn capture_group(pattern: &str, text: &str, group: usize) -> (r: Option<String>)
    ensures
        match r {
            Some(s) => regex_capture(pattern@, text@, group as nat) == Some(s@),
            None => regex_capture(pattern@, text@, group as nat) is None,
        },
{
    match regex::Regex::new(pattern) {
        Ok(re) => re.captures(text).and_then(|c| c.get(group)).map(|m| m.as_str().to_string()),
        Err(_) => None,
    }
}

} // verus!
