//! Git helpers (`git_*`): the command lines that they run.

use vstd::prelude::*;
use crate::args::NoArgs;
use crate::text::{push_texts, push_words};

verus! {

/// The format of the commit graph.
pub const TREE_FORMAT: &'static str = "--format=tformat:%C(bold blue)%h%C(reset) %C(bold green)(%ar)%C(reset) %C(white)%s%C(reset) %C(dim white)— %an%C(reset)%C(auto)%d%C(reset)";

/// What is run in each repository: say where, then pull.
pub const REC_PULL_SH: &'static str = "echo \"Updating $(pwd)\"; git pull";

/// Extra arguments for the commit graph.
pub struct TreeArgs {
    pub rest: Vec<String>,
}

/// The arguments of `git` for a pretty commit graph across all branches.
pub fn tree(args: &TreeArgs) -> (r: Vec<String>)
    ensures
        r.deep_view() == seq![
            "log"@,
            "--all"@,
            "--graph"@,
            "--decorate"@,
            "--abbrev-commit"@,
            TREE_FORMAT@,
        ] + args.rest.deep_view(),
{
    let mut out: Vec<String> = Vec::new();
    push_words(
        &mut out,
        vec!["log", "--all", "--graph", "--decorate", "--abbrev-commit", TREE_FORMAT],
    );
    assert(out.deep_view() =~= seq![
        "log"@,
        "--all"@,
        "--graph"@,
        "--decorate"@,
        "--abbrev-commit"@,
        TREE_FORMAT@,
    ]);
    push_texts(&mut out, &args.rest);
    out
}

/// The arguments of `find` that pull every repository below here, each from its own directory.
pub fn rec_pull(_args: &NoArgs) -> (r: Vec<&'static str>)
    ensures
        r.deep_view() == seq![
            "."@,
            "-type"@,
            "d"@,
            "-name"@,
            ".git"@,
            "-execdir"@,
            "sh"@,
            "-c"@,
            REC_PULL_SH@,
            ";"@,
        ],
{
    let argv: Vec<&'static str> = vec![
        ".",
        "-type",
        "d",
        "-name",
        ".git",
        "-execdir",
        "sh",
        "-c",
        REC_PULL_SH,
        ";",
    ];
    assert(argv.deep_view() =~= seq![
        "."@,
        "-type"@,
        "d"@,
        "-name"@,
        ".git"@,
        "-execdir"@,
        "sh"@,
        "-c"@,
        REC_PULL_SH@,
        ";"@,
    ]);
    argv
}

/// A command that shows something, and the heading above what it shows.
pub struct Probe {
    pub heading: &'static str,
    pub program: &'static str,
    pub argv: Vec<&'static str>,
}

impl View for Probe {
    type V = (Seq<char>, Seq<char>, Seq<Seq<char>>);

    open spec fn view(&self) -> (Seq<char>, Seq<char>, Seq<Seq<char>>) {
        (self.heading@, self.program@, self.argv.deep_view())
    }
}

impl DeepView for Probe {
    type V = (Seq<char>, Seq<char>, Seq<Seq<char>>);

    open spec fn deep_view(&self) -> (Seq<char>, Seq<char>, Seq<Seq<char>>) {
        self@
    }
}

/// What shows the identity in effect.
pub open spec fn profile_probes() -> Seq<(Seq<char>, Seq<char>, Seq<Seq<char>>)> {
    seq![
        ("previous commit:"@, "git"@, seq!["log"@, "-1"@, "--format=%an <%ae>"@]),
        ("currently using:"@, "git"@, seq!["config"@, "--show-origin"@, "user.email"@]),
        ("GitHub identified user:"@, "ssh"@, seq!["-T"@, "git@github.com"@]),
        ("Owner/Repo:"@, "git"@, seq!["remote"@, "-v"@]),
    ]
}

/// Show the identity in effect: the last commit's author, the configured address and where it is
/// set, who GitHub takes the user for, and the remotes.
pub fn profile(_args: &NoArgs) -> (r: Vec<Probe>)
    ensures
        r.deep_view() == profile_probes(),
{
    let rows: Vec<Probe> = vec![
        Probe {
            heading: "previous commit:",
            program: "git",
            argv: vec!["log", "-1", "--format=%an <%ae>"],
        },
        Probe {
            heading: "currently using:",
            program: "git",
            argv: vec!["config", "--show-origin", "user.email"],
        },
        Probe {
            heading: "GitHub identified user:",
            program: "ssh",
            argv: vec!["-T", "git@github.com"],
        },
        Probe { heading: "Owner/Repo:", program: "git", argv: vec!["remote", "-v"] },
    ];
    assert(rows@[0]@.2 =~= profile_probes()[0].2);
    assert(rows@[1]@.2 =~= profile_probes()[1].2);
    assert(rows@[2]@.2 =~= profile_probes()[2].2);
    assert(rows@[3]@.2 =~= profile_probes()[3].2);
    assert(rows.deep_view() =~= profile_probes());
    rows
}

} // verus!
