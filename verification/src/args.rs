//! Argument structs shared across command categories.

use vstd::prelude::*;
use vstd::string::*;
use crate::text::{
    chars_of, contains, drop_leading, drop_trailing, holds, string_of, without_first, without_last,
};

verus! {

/// An empty argument set, for commands that take no arguments.
pub struct NoArgs {}

/// Paths to leave out of a walk.
pub struct SkipArgs {
    /// The patterns that the user asked to skip.
    pub skip_pattern: Vec<String>,
    /// Whether the set of well-known bulky directories is skipped too.
    pub lean: bool,
}

/// A path or a pattern between slashes, without those it already has at its ends.
pub open spec fn between_slashes(s: Seq<char>) -> Seq<char> {
    "/"@ + without_last(without_first(s, '/'), '/') + "/"@
}

/// Whether a path runs through one of the patterns: the pieces of a pattern stand in it, in a row
/// and whole.
pub open spec fn runs_through(path: Seq<char>, skips: Seq<Seq<char>>) -> bool {
    exists|k: int|
        0 <= k < skips.len() && contains(between_slashes(path), between_slashes(#[trigger] skips[k]))
}

/// A path or a pattern between slashes.
fn enclosed(s: &str) -> (r: String)
    ensures
        r@ == between_slashes(s@),
{
    let cs: Vec<char> = chars_of(s);
    let bare: String = string_of(drop_trailing(drop_leading(cs.as_slice(), '/'), '/'));
    let mut out: String = "/".to_owned();
    out.append(bare.as_str());
    out.append("/");
    out
}

/// Whether a path of a walk is left out of it.
pub fn is_skipped(path: &str, skips: &Vec<String>) -> (r: bool)
    ensures
        r == runs_through(path@, skips.deep_view()),
{
    let whole: String = enclosed(path);
    let mut k: usize = 0;
    while k < skips.len()
        invariant
            k <= skips.len(),
            whole@ == between_slashes(path@),
            forall|j: int|
                0 <= j < k ==> !contains(
                    whole@,
                    between_slashes(#[trigger] skips.deep_view()[j]),
                ),
        decreases skips.len() - k,
    {
        assert(skips.deep_view()[k as int] == skips@[k as int]@);
        if holds(whole.as_str(), enclosed(skips[k].as_str()).as_str()) {
            return true;
        }
        k += 1;
    }
    false
}

/// What a styled echo takes.
pub struct EchoArgs {
    /// The words to print.
    pub words: Vec<String>,
}

/// What a search of one stream takes, the lines of context aside.
pub struct GrepBase {
    /// Term to match, whatever its case.
    pub pattern: String,
    /// File to read, or standard input.
    pub source: Option<String>,
    /// Put each line's number before it.
    pub line_number: bool,
}

/// What a search of one stream takes.
pub struct GrepArgs {
    pub base: GrepBase,
    /// Lines to show around each match.
    pub context: usize,
}

/// What a search of a tree takes, the lines of context aside.
pub struct GgBase {
    /// What to look for; any of them matches.
    pub expressions: Vec<String>,
    /// Directory to search.
    pub directory: String,
    /// Leave out the line numbers.
    pub no_line_number: bool,
    /// Also look inside binaries that can be decoded.
    pub delve: bool,
}

/// What a search of a tree takes.
pub struct GgArgs {
    pub base: GgBase,
    /// Lines to show around each match.
    pub context: usize,
}

} // verus!
