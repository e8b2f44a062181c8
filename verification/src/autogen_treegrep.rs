//! The `gg` family of recursive searches that leave out very long lines.

use vstd::prelude::*;
use crate::text::copy_texts;

verus! {

/// What a search takes.
pub struct GgArgs {
    /// What to look for; any of them matches.
    pub expressions: Vec<String>,
    /// Directory to search.
    pub directory: String,
    /// Leave out matches on lines longer than this.
    pub text_limit: u64,
    /// Leave out matches on lines longer than 500.
    pub short: bool,
    /// Leave out no line for its length.
    pub unlimited: bool,
    /// Leave out the line numbers.
    pub no_line_number: bool,
}

/// A search.
pub struct LimitedRequest {
    pub expressions: Vec<String>,
    pub root: String,
    pub text_limit: Option<u64>,
    pub line_number: bool,
    pub context: usize,
}

/// A search.
pub struct LimitedRequestView {
    pub expressions: Seq<Seq<char>>,
    pub root: Seq<char>,
    pub text_limit: Option<u64>,
    pub line_number: bool,
    pub context: usize,
}

impl View for LimitedRequest {
    type V = LimitedRequestView;

    open spec fn view(&self) -> LimitedRequestView {
        LimitedRequestView {
            expressions: self.expressions.deep_view(),
            root: self.root@,
            text_limit: self.text_limit,
            line_number: self.line_number,
            context: self.context,
        }
    }
}

/// The longest line that is searched: having no limit wins over the short one, which wins over the
/// number.
pub open spec fn line_limit(args: GgArgs) -> Option<u64> {
    if args.unlimited {
        None
    } else if args.short {
        Some(500)
    } else {
        Some(args.text_limit)
    }
}

/// The search that arguments ask for.
pub open spec fn limited_request(args: GgArgs, context: usize) -> LimitedRequestView {
    LimitedRequestView {
        expressions: args.expressions.deep_view(),
        root: args.directory@,
        text_limit: line_limit(args),
        line_number: !args.no_line_number,
        context,
    }
}

/// The search that arguments ask for, with lines around each match.
pub fn limited(args: &GgArgs, context: usize) -> (r: LimitedRequest)
    ensures
        r@ == limited_request(*args, context),
{
    let text_limit: Option<u64> = if args.unlimited {
        None
    } else if args.short {
        Some(500)
    } else {
        Some(args.text_limit)
    };
    LimitedRequest {
        expressions: copy_texts(&args.expressions),
        root: args.directory.clone(),
        text_limit,
        line_number: !args.no_line_number,
        context,
    }
}

/// Search a tree: names of files, then their contents.
pub fn gg(args: &GgArgs) -> (r: LimitedRequest)
    ensures
        r@ == limited_request(*args, 0),
{
    limited(args, 0)
}

/// Search a tree, showing 2 lines around each match in a file.
pub fn gg2(args: &GgArgs) -> (r: LimitedRequest)
    ensures
        r@ == limited_request(*args, 2),
{
    limited(args, 2)
}

/// Search a tree, showing 3 lines around each match in a file.
pub fn gg3(args: &GgArgs) -> (r: LimitedRequest)
    ensures
        r@ == limited_request(*args, 3),
{
    limited(args, 3)
}

/// Search a tree, showing 5 lines around each match in a file.
pub fn gg5(args: &GgArgs) -> (r: LimitedRequest)
    ensures
        r@ == limited_request(*args, 5),
{
    limited(args, 5)
}

/// Search a tree, showing 10 lines around each match in a file.
pub fn gg10(args: &GgArgs) -> (r: LimitedRequest)
    ensures
        r@ == limited_request(*args, 10),
{
    limited(args, 10)
}

} // verus!
