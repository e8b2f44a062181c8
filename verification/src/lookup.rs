//! Text-lookup commands: the shell-history search, the recursive search that also looks inside
//! binaries, and what the shortcut families forward to.

use vstd::prelude::*;
use vstd::string::*;
use crate::args::{GgArgs, GgBase, GrepArgs};
use crate::sequences::lemma_flat_map_last;
use crate::text::{
    ascii_lower, chars_of, copy_texts, decimal, push_decimal, same_ignoring_case, string_of, trim,
    trimmed,
};

verus! {

// --- one stream -----------------------------------------------------------------------------

/// A search of one stream: what to match, where to read, how many lines to show around a match,
/// and whether lines are numbered.
pub struct GrepRequest {
    pub pattern: String,
    pub source: Option<String>,
    pub context: usize,
    pub line_number: bool,
}

/// A search of one stream.
pub struct GrepRequestView {
    pub pattern: Seq<char>,
    pub source: Option<Seq<char>>,
    pub context: usize,
    pub line_number: bool,
}

impl View for GrepRequest {
    type V = GrepRequestView;

    open spec fn view(&self) -> GrepRequestView {
        GrepRequestView {
            pattern: self.pattern@,
            source: self.source.deep_view(),
            context: self.context,
            line_number: self.line_number,
        }
    }
}

/// The search that arguments ask for.
pub open spec fn grep_request(args: GrepArgs) -> GrepRequestView {
    GrepRequestView {
        pattern: args.base.pattern@,
        source: args.base.source.deep_view(),
        context: args.context,
        line_number: args.base.line_number,
    }
}

/// The search that arguments ask for: what the stream family forwards to.
pub fn grep(args: &GrepArgs) -> (r: GrepRequest)
    ensures
        r@ == grep_request(*args),
{
    GrepRequest {
        pattern: args.base.pattern.clone(),
        source: match &args.base.source {
            Some(path) => Some(path.clone()),
            None => None,
        },
        context: args.context,
        line_number: args.base.line_number,
    }
}

/// The term to find in the shell history.
pub struct HgArgs {
    /// Term to match, whatever its case.
    pub pattern: String,
}

/// Search the shell history, which the shell itself pipes in: no context, no numbers.
pub fn hg(args: &HgArgs) -> (r: GrepRequest)
    ensures
        r@ == (GrepRequestView {
            pattern: args.pattern@,
            source: None,
            context: 0,
            line_number: false,
        }),
{
    GrepRequest { pattern: args.pattern.clone(), source: None, context: 0, line_number: false }
}

// --- a tree ---------------------------------------------------------------------------------

/// A search of a tree.
pub struct TreeRequest {
    pub expressions: Vec<String>,
    pub root: String,
    pub line_number: bool,
    pub context: usize,
    pub delve: bool,
}

/// A search of a tree.
pub struct TreeRequestView {
    pub expressions: Seq<Seq<char>>,
    pub root: Seq<char>,
    pub line_number: bool,
    pub context: usize,
    pub delve: bool,
}

impl View for TreeRequest {
    type V = TreeRequestView;

    open spec fn view(&self) -> TreeRequestView {
        TreeRequestView {
            expressions: self.expressions.deep_view(),
            root: self.root@,
            line_number: self.line_number,
            context: self.context,
            delve: self.delve,
        }
    }
}

/// The search that arguments ask for. Lines are numbered unless that is declined.
pub open spec fn tree_request(args: GgArgs) -> TreeRequestView {
    TreeRequestView {
        expressions: args.base.expressions.deep_view(),
        root: args.base.directory@,
        line_number: !args.base.no_line_number,
        context: args.context,
        delve: args.base.delve,
    }
}

/// The search that arguments ask for: what the tree family forwards to.
pub fn gg(args: &GgArgs) -> (r: TreeRequest)
    ensures
        r@ == tree_request(*args),
{
    TreeRequest {
        expressions: copy_texts(&args.base.expressions),
        root: args.base.directory.clone(),
        line_number: !args.base.no_line_number,
        context: args.context,
        delve: args.base.delve,
    }
}

/// Search a tree and always look inside binaries that can be decoded.
pub fn gg_delve(args: GgBase) -> (r: TreeRequest)
    ensures
        r@ == (TreeRequestView { delve: true, ..tree_request((GgArgs { base: args, context: 0 })) }),
{
    gg(&GgArgs { base: GgBase { delve: true, ..args }, context: 0 })
}

// --- what could not be read -----------------------------------------------------------------

/// What is done about paths that could not be read.
pub enum Rescan {
    Nothing,
    /// What is said where nobody can be asked.
    Note(String),
    /// The question.
    Ask(String),
}

/// How many of the paths are shown: all of ten, and nine of more.
pub open spec fn shown_paths(count: nat) -> nat {
    if count > 10 {
        9
    } else {
        count
    }
}

/// The lines of the first `n` paths.
pub open spec fn path_lines(paths: Seq<Seq<char>>, n: nat) -> Seq<char>
    decreases n,
{
    if n == 0 {
        seq![]
    } else {
        path_lines(paths, (n - 1) as nat) + ("  "@ + paths[n - 1] + "\n"@)
    }
}

/// Every path that is shown has its line, in order.
pub proof fn law_every_shown_path_has_its_line(paths: Seq<Seq<char>>, n: nat)
    requires
        n <= paths.len(),
    ensures
        path_lines(paths, n) == paths.take(n as int).flat_map(
            |path: Seq<char>| "  "@ + path + "\n"@,
        ),
    decreases n,
{
    if n > 0 {
        law_every_shown_path_has_its_line(paths, (n - 1) as nat);
        lemma_flat_map_last(
            paths,
            |path: Seq<char>| "  "@ + path + "\n"@,
            n,
        );
    }
}

/// The question whether the paths are searched again as root.
pub open spec fn rescan_question(paths: Seq<Seq<char>>) -> Seq<char> {
    let shown = shown_paths(paths.len());
    "\n"@ + decimal(paths.len()) + " path(s) were unreadable (permission denied):\n"@ + path_lines(
        paths,
        shown,
    ) + (if paths.len() > shown {
        "  ["@ + decimal((paths.len() - shown) as nat) + " more paths omitted]\n"@
    } else {
        seq![]
    }) + "Re-scan them as root? [y/N] "@
}

/// What is said where nobody can be asked.
pub open spec fn rescan_note(count: nat) -> Seq<char> {
    "\n"@ + decimal(count)
        + " path(s) skipped (permission denied); run interactively to re-scan as root."@
}

/// Offer to search again, as root, just what could not be read. The list is capped, so that a huge
/// one cannot scroll the question away.
pub fn offer_root_rescan(denied: &Vec<String>, interactive: bool) -> (r: Rescan)
    ensures
        if denied@.len() == 0 {
            r is Nothing
        } else if !interactive {
            r matches Rescan::Note(text) && text@ == rescan_note(denied@.len())
        } else {
            r matches Rescan::Ask(text) && text@ == rescan_question(denied.deep_view())
        },
{
    assert(denied.deep_view().len() == denied@.len());
    if denied.len() == 0 {
        return Rescan::Nothing;
    }
    let mut out: String = "\n".to_owned();
    push_decimal(&mut out, denied.len() as u128);
    if !interactive {
        out.append(" path(s) skipped (permission denied); run interactively to re-scan as root.");
        return Rescan::Note(out);
    }
    out.append(" path(s) were unreadable (permission denied):\n");
    let shown: usize = if denied.len() > 10 {
        9
    } else {
        denied.len()
    };
    let mut list: String = String::new();
    let mut i: usize = 0;
    while i < shown
        invariant
            i <= shown <= denied.len(),
            list@ == path_lines(denied.deep_view(), i as nat),
        decreases shown - i,
    {
        assert(denied.deep_view()[i as int] == denied@[i as int]@);
        let mut line: String = "  ".to_owned();
        line.append(denied[i].as_str());
        line.append("\n");
        list.append(line.as_str());
        i += 1;
    }
    out.append(list.as_str());
    let ghost before = out@;
    if denied.len() > shown {
        let mut more: String = "  [".to_owned();
        push_decimal(&mut more, (denied.len() - shown) as u128);
        more.append(" more paths omitted]\n");
        out.append(more.as_str());
    } else {
        assert(before + seq![] =~= before);
    }
    out.append("Re-scan them as root? [y/N] ");
    Rescan::Ask(out)
}

/// Whether an answer is a yes: only `y` is, whatever its case.
pub fn agrees(answer: &str) -> (r: bool)
    ensures
        r == is_yes(answer@),
{
    let cs: Vec<char> = chars_of(answer);
    same_ignoring_case(string_of(trimmed(cs.as_slice())).as_str(), "y")
}

/// A search as root of what could not be read.
pub struct RescanRequest {
    pub expressions: Vec<String>,
    pub paths: Vec<String>,
    pub line_number: bool,
    pub context: usize,
    pub delve: bool,
}

/// A search as root of what could not be read.
pub struct RescanRequestView {
    pub expressions: Seq<Seq<char>>,
    pub paths: Seq<Seq<char>>,
    pub line_number: bool,
    pub context: usize,
    pub delve: bool,
}

impl View for RescanRequest {
    type V = RescanRequestView;

    open spec fn view(&self) -> RescanRequestView {
        RescanRequestView {
            expressions: self.expressions.deep_view(),
            paths: self.paths.deep_view(),
            line_number: self.line_number,
            context: self.context,
            delve: self.delve,
        }
    }
}

impl DeepView for RescanRequest {
    type V = RescanRequestView;

    open spec fn deep_view(&self) -> RescanRequestView {
        self@
    }
}

/// Whether an answer is a yes.
pub open spec fn is_yes(answer: Seq<char>) -> bool {
    ascii_lower(trim(answer)) == ascii_lower("y"@)
}

/// The search as root that follows a search: it covers exactly the paths that could not be read,
/// with the expressions and the options of that search. There is none where there is no such
/// path, where nobody can be asked, or where the answer is missing or not a yes.
pub fn root_rescan(
    request: &TreeRequest,
    denied: &Vec<String>,
    interactive: bool,
    answer: Option<&str>,
) -> (r: Option<RescanRequest>)
    ensures
        r is Some <==> denied@.len() > 0 && interactive && answer is Some && is_yes(answer->0@),
        r matches Some(again) ==> again@ == (RescanRequestView {
            expressions: request@.expressions,
            paths: denied.deep_view(),
            line_number: request@.line_number,
            context: request@.context,
            delve: request@.delve,
        }),
{
    if denied.len() == 0 || !interactive {
        return None;
    }
    match answer {
        None => None,
        Some(said) => if agrees(said) {
            Some(
                RescanRequest {
                    expressions: copy_texts(&request.expressions),
                    paths: copy_texts(denied),
                    line_number: request.line_number,
                    context: request.context,
                    delve: request.delve,
                },
            )
        } else {
            None
        },
    }
}

/// The question never grows beyond ten lines of paths, and accounts for every path: what is not
/// shown is counted.
pub proof fn law_the_list_of_paths_is_capped(count: nat)
    ensures
        shown_paths(count) <= 10,
        shown_paths(count) <= count,
        count <= 10 ==> shown_paths(count) == count,
        count > shown_paths(count) ==> shown_paths(count) + 1 <= 10,
{
}

} // verus!
