//! Regular expressions, as the `regex` crate evaluates them.
//!
//! What an expression finds in a text is a function of the two alone; the names below stand for
//! it. A pattern that does not compile finds nothing.

use vstd::prelude::*;

verus! {

/// What group 1 of the first match of `pattern` in `text` holds, where the pattern matches and
/// the group takes part.
pub uninterp spec fn regex_first_group(pattern: Seq<char>, text: Seq<char>) -> Option<Seq<char>>;

/// For each match of `pattern` in `text`, in order, what group 1 holds, where it takes part.
pub uninterp spec fn regex_groups(pattern: Seq<char>, text: Seq<char>) -> Seq<Option<Seq<char>>>;

/// The matches of `pattern` in `text`, in order.
pub uninterp spec fn regex_matches(pattern: Seq<char>, text: Seq<char>) -> Seq<Seq<char>>;

/// `text` with every match of `pattern` replaced by a space.
pub uninterp spec fn regex_blanked(pattern: Seq<char>, text: Seq<char>) -> Seq<char>;

/// `regex::Regex::captures`: group 1 of the leftmost match, named by the pattern and the text.
#[verifier::external_body]
pub(crate) fn first_group(pattern: &str, text: &str) -> (r: Option<String>)
    ensures
        r.deep_view() == regex_first_group(pattern@, text@),
{
    let found = regex::Regex::new(pattern).ok()?;
    let groups = found.captures(text)?;
    groups.get(1).map(|m| m.as_str().to_string())
}

/// `regex::Regex::captures_iter`: group 1 of each successive non-overlapping match, named by
/// the pattern and the text.
#[verifier::external_body]
pub(crate) fn all_groups(pattern: &str, text: &str) -> (r: Vec<Option<String>>)
    ensures
        r.deep_view() == regex_groups(pattern@, text@),
{
    match regex::Regex::new(pattern) {
        Ok(found) => found
            .captures_iter(text)
            .map(|groups| groups.get(1).map(|m| m.as_str().to_string()))
            .collect(),
        Err(_) => Vec::new(),
    }
}

/// `regex::Regex::find_iter`: each successive non-overlapping match, named by the pattern and
/// the text.
#[verifier::external_body]
pub(crate) fn all_matches(pattern: &str, text: &str) -> (r: Vec<String>)
    ensures
        r.deep_view() == regex_matches(pattern@, text@),
{
    match regex::Regex::new(pattern) {
        Ok(found) => found.find_iter(text).map(|m| m.as_str().to_string()).collect(),
        Err(_) => Vec::new(),
    }
}

/// `regex::Regex::replace_all` with a single space: the text with every non-overlapping match
/// replaced, named by the pattern and the text.
#[verifier::external_body]
pub(crate) fn blank_matches(pattern: &str, text: &str) -> (r: String)
    ensures
        r@ == regex_blanked(pattern@, text@),
{
    match regex::Regex::new(pattern) {
        Ok(found) => found.replace_all(text, " ").into_owned(),
        Err(_) => text.to_string(),
    }
}

} // verus!
