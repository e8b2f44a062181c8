//! Keeping the system's package managers and development toolchains current.

use vstd::prelude::*;
use vstd::string::*;
use crate::args::NoArgs;
use crate::sequences::{lemma_filter_map_last, lemma_flat_map_holds, lemma_flat_map_last};
use crate::text::{
    chars_of, holds_text, holds_word, indented, lines, lines_of, push_text,
};

verus! {

/// A command of a tool: a program and its arguments, and whether it runs as root.
pub struct Step {
    pub elevated: bool,
    pub words: Vec<&'static str>,
}

impl View for Step {
    type V = (bool, Seq<Seq<char>>);

    open spec fn view(&self) -> (bool, Seq<Seq<char>>) {
        (self.elevated, self.words.deep_view())
    }
}

impl DeepView for Step {
    type V = (bool, Seq<Seq<char>>);

    open spec fn deep_view(&self) -> (bool, Seq<Seq<char>>) {
        self@
    }
}

/// A tool: how it is detected, and what updates and lists it.
pub struct Manager {
    /// The program that shows it is there.
    pub probe: &'static str,
    /// A further check: the tool is skipped unless it succeeds.
    pub precheck: Option<Vec<&'static str>>,
    /// The tools that this one makes redundant.
    pub supersedes: Vec<&'static str>,
    /// What updates it, in order.
    pub steps: Vec<Step>,
    /// What lists what is installed; toolchains have none.
    pub list: Option<Vec<&'static str>>,
}

/// A tool.
pub struct ManagerView {
    pub probe: Seq<char>,
    pub precheck: Option<Seq<Seq<char>>>,
    pub supersedes: Seq<Seq<char>>,
    pub steps: Seq<(bool, Seq<Seq<char>>)>,
    pub list: Option<Seq<Seq<char>>>,
}

impl View for Manager {
    type V = ManagerView;

    open spec fn view(&self) -> ManagerView {
        ManagerView {
            probe: self.probe@,
            precheck: self.precheck.deep_view(),
            supersedes: self.supersedes.deep_view(),
            steps: self.steps.deep_view(),
            list: self.list.deep_view(),
        }
    }
}

impl DeepView for Manager {
    type V = ManagerView;

    open spec fn deep_view(&self) -> ManagerView {
        self@
    }
}

/// The package managers.
pub open spec fn manager_rows() -> Seq<ManagerView> {
    seq![
        ManagerView {
            probe: "apt"@,
            precheck: None,
            supersedes: seq![],
            steps: seq![(true, seq!["apt"@, "update"@]), (true, seq!["apt"@, "full-upgrade"@, "-y"@]), (true, seq!["apt"@, "autoremove"@, "-y"@])],
            list: Some(seq!["dpkg-query"@, "-W"@]),
        },
        ManagerView {
            probe: "dnf"@,
            precheck: None,
            supersedes: seq![],
            steps: seq![(true, seq!["dnf"@, "upgrade"@, "--refresh"@, "-y"@]), (true, seq!["dnf"@, "autoremove"@, "-y"@])],
            list: Some(seq!["rpm"@, "-qa"@]),
        },
        ManagerView {
            probe: "yay"@,
            precheck: None,
            supersedes: seq!["pacman"@],
            steps: seq![(false, seq!["yay"@, "-Syu"@, "--noconfirm"@])],
            list: Some(seq!["yay"@, "-Q"@]),
        },
        ManagerView {
            probe: "pacman"@,
            precheck: None,
            supersedes: seq![],
            steps: seq![(true, seq!["pacman"@, "-Syu"@, "--noconfirm"@])],
            list: Some(seq!["pacman"@, "-Q"@]),
        },
        ManagerView {
            probe: "zypper"@,
            precheck: None,
            supersedes: seq![],
            steps: seq![(true, seq!["zypper"@, "refresh"@]), (true, seq!["zypper"@, "update"@, "-y"@])],
            list: Some(seq!["rpm"@, "-qa"@]),
        },
        ManagerView {
            probe: "apk"@,
            precheck: None,
            supersedes: seq![],
            steps: seq![(true, seq!["apk"@, "update"@]), (true, seq!["apk"@, "upgrade"@])],
            list: Some(seq!["apk"@, "info"@]),
        },
        ManagerView {
            probe: "guix"@,
            precheck: None,
            supersedes: seq![],
            steps: seq![(false, seq!["guix"@, "pull"@]), (false, seq!["guix"@, "upgrade"@])],
            list: Some(seq!["guix"@, "package"@, "--list-installed"@]),
        },
        ManagerView {
            probe: "nix-env"@,
            precheck: None,
            supersedes: seq![],
            steps: seq![(false, seq!["nix-channel"@, "--update"@]), (false, seq!["nix-env"@, "--upgrade"@])],
            list: Some(seq!["nix-env"@, "-q"@]),
        },
        ManagerView {
            probe: "nix"@,
            precheck: Some(seq!["nix"@, "profile"@, "list"@]),
            supersedes: seq![],
            steps: seq![(false, seq!["nix"@, "profile"@, "upgrade"@])],
            list: Some(seq!["nix"@, "profile"@, "list"@]),
        },
        ManagerView {
            probe: "snap"@,
            precheck: None,
            supersedes: seq![],
            steps: seq![(true, seq!["snap"@, "refresh"@])],
            list: Some(seq!["snap"@, "list"@]),
        },
        ManagerView {
            probe: "flatpak"@,
            precheck: None,
            supersedes: seq![],
            steps: seq![(false, seq!["flatpak"@, "upgrade"@, "--assumeyes"@])],
            list: Some(seq!["flatpak"@, "list"@]),
        },
        ManagerView {
            probe: "brew"@,
            precheck: None,
            supersedes: seq![],
            steps: seq![(false, seq!["brew"@, "update"@]), (false, seq!["brew"@, "upgrade"@])],
            list: Some(seq!["brew"@, "list"@]),
        },
    ]
}

/// The package managers; another is one more row. Upgrades prune what is no longer needed.
pub fn managers() -> (r: Vec<Manager>)
    ensures
        r.deep_view() == manager_rows(),
{
    let rows: Vec<Manager> = vec![
        Manager {
            probe: "apt",
            precheck: None,
            supersedes: vec![],
            steps: vec![Step { elevated: true, words: vec!["apt", "update"] }, Step { elevated: true, words: vec!["apt", "full-upgrade", "-y"] }, Step { elevated: true, words: vec!["apt", "autoremove", "-y"] }],
            list: Some(vec!["dpkg-query", "-W"]),
        },
        Manager {
            probe: "dnf",
            precheck: None,
            supersedes: vec![],
            steps: vec![Step { elevated: true, words: vec!["dnf", "upgrade", "--refresh", "-y"] }, Step { elevated: true, words: vec!["dnf", "autoremove", "-y"] }],
            list: Some(vec!["rpm", "-qa"]),
        },
        Manager {
            probe: "yay",
            precheck: None,
            supersedes: vec!["pacman"],
            steps: vec![Step { elevated: false, words: vec!["yay", "-Syu", "--noconfirm"] }],
            list: Some(vec!["yay", "-Q"]),
        },
        Manager {
            probe: "pacman",
            precheck: None,
            supersedes: vec![],
            steps: vec![Step { elevated: true, words: vec!["pacman", "-Syu", "--noconfirm"] }],
            list: Some(vec!["pacman", "-Q"]),
        },
        Manager {
            probe: "zypper",
            precheck: None,
            supersedes: vec![],
            steps: vec![Step { elevated: true, words: vec!["zypper", "refresh"] }, Step { elevated: true, words: vec!["zypper", "update", "-y"] }],
            list: Some(vec!["rpm", "-qa"]),
        },
        Manager {
            probe: "apk",
            precheck: None,
            supersedes: vec![],
            steps: vec![Step { elevated: true, words: vec!["apk", "update"] }, Step { elevated: true, words: vec!["apk", "upgrade"] }],
            list: Some(vec!["apk", "info"]),
        },
        Manager {
            probe: "guix",
            precheck: None,
            supersedes: vec![],
            steps: vec![Step { elevated: false, words: vec!["guix", "pull"] }, Step { elevated: false, words: vec!["guix", "upgrade"] }],
            list: Some(vec!["guix", "package", "--list-installed"]),
        },
        Manager {
            probe: "nix-env",
            precheck: None,
            supersedes: vec![],
            steps: vec![Step { elevated: false, words: vec!["nix-channel", "--update"] }, Step { elevated: false, words: vec!["nix-env", "--upgrade"] }],
            list: Some(vec!["nix-env", "-q"]),
        },
        Manager {
            probe: "nix",
            precheck: Some(vec!["nix", "profile", "list"]),
            supersedes: vec![],
            steps: vec![Step { elevated: false, words: vec!["nix", "profile", "upgrade"] }],
            list: Some(vec!["nix", "profile", "list"]),
        },
        Manager {
            probe: "snap",
            precheck: None,
            supersedes: vec![],
            steps: vec![Step { elevated: true, words: vec!["snap", "refresh"] }],
            list: Some(vec!["snap", "list"]),
        },
        Manager {
            probe: "flatpak",
            precheck: None,
            supersedes: vec![],
            steps: vec![Step { elevated: false, words: vec!["flatpak", "upgrade", "--assumeyes"] }],
            list: Some(vec!["flatpak", "list"]),
        },
        Manager {
            probe: "brew",
            precheck: None,
            supersedes: vec![],
            steps: vec![Step { elevated: false, words: vec!["brew", "update"] }, Step { elevated: false, words: vec!["brew", "upgrade"] }],
            list: Some(vec!["brew", "list"]),
        },
    ];
    assert(rows@[0]@.supersedes =~= manager_rows()[0].supersedes);
    assert(rows@[0]@.list->0 =~= manager_rows()[0].list->0);
    assert(rows@[0].steps@[0]@.1 =~= manager_rows()[0].steps[0].1);
    assert(rows@[0].steps@[1]@.1 =~= manager_rows()[0].steps[1].1);
    assert(rows@[0].steps@[2]@.1 =~= manager_rows()[0].steps[2].1);
    assert(rows@[0]@.steps =~= manager_rows()[0].steps);
    assert(rows@[1]@.supersedes =~= manager_rows()[1].supersedes);
    assert(rows@[1]@.list->0 =~= manager_rows()[1].list->0);
    assert(rows@[1].steps@[0]@.1 =~= manager_rows()[1].steps[0].1);
    assert(rows@[1].steps@[1]@.1 =~= manager_rows()[1].steps[1].1);
    assert(rows@[1]@.steps =~= manager_rows()[1].steps);
    assert(rows@[2]@.supersedes =~= manager_rows()[2].supersedes);
    assert(rows@[2]@.list->0 =~= manager_rows()[2].list->0);
    assert(rows@[2].steps@[0]@.1 =~= manager_rows()[2].steps[0].1);
    assert(rows@[2]@.steps =~= manager_rows()[2].steps);
    assert(rows@[3]@.supersedes =~= manager_rows()[3].supersedes);
    assert(rows@[3]@.list->0 =~= manager_rows()[3].list->0);
    assert(rows@[3].steps@[0]@.1 =~= manager_rows()[3].steps[0].1);
    assert(rows@[3]@.steps =~= manager_rows()[3].steps);
    assert(rows@[4]@.supersedes =~= manager_rows()[4].supersedes);
    assert(rows@[4]@.list->0 =~= manager_rows()[4].list->0);
    assert(rows@[4].steps@[0]@.1 =~= manager_rows()[4].steps[0].1);
    assert(rows@[4].steps@[1]@.1 =~= manager_rows()[4].steps[1].1);
    assert(rows@[4]@.steps =~= manager_rows()[4].steps);
    assert(rows@[5]@.supersedes =~= manager_rows()[5].supersedes);
    assert(rows@[5]@.list->0 =~= manager_rows()[5].list->0);
    assert(rows@[5].steps@[0]@.1 =~= manager_rows()[5].steps[0].1);
    assert(rows@[5].steps@[1]@.1 =~= manager_rows()[5].steps[1].1);
    assert(rows@[5]@.steps =~= manager_rows()[5].steps);
    assert(rows@[6]@.supersedes =~= manager_rows()[6].supersedes);
    assert(rows@[6]@.list->0 =~= manager_rows()[6].list->0);
    assert(rows@[6].steps@[0]@.1 =~= manager_rows()[6].steps[0].1);
    assert(rows@[6].steps@[1]@.1 =~= manager_rows()[6].steps[1].1);
    assert(rows@[6]@.steps =~= manager_rows()[6].steps);
    assert(rows@[7]@.supersedes =~= manager_rows()[7].supersedes);
    assert(rows@[7]@.list->0 =~= manager_rows()[7].list->0);
    assert(rows@[7].steps@[0]@.1 =~= manager_rows()[7].steps[0].1);
    assert(rows@[7].steps@[1]@.1 =~= manager_rows()[7].steps[1].1);
    assert(rows@[7]@.steps =~= manager_rows()[7].steps);
    assert(rows@[8]@.supersedes =~= manager_rows()[8].supersedes);
    assert(rows@[8]@.precheck->0 =~= manager_rows()[8].precheck->0);
    assert(rows@[8]@.list->0 =~= manager_rows()[8].list->0);
    assert(rows@[8].steps@[0]@.1 =~= manager_rows()[8].steps[0].1);
    assert(rows@[8]@.steps =~= manager_rows()[8].steps);
    assert(rows@[9]@.supersedes =~= manager_rows()[9].supersedes);
    assert(rows@[9]@.list->0 =~= manager_rows()[9].list->0);
    assert(rows@[9].steps@[0]@.1 =~= manager_rows()[9].steps[0].1);
    assert(rows@[9]@.steps =~= manager_rows()[9].steps);
    assert(rows@[10]@.supersedes =~= manager_rows()[10].supersedes);
    assert(rows@[10]@.list->0 =~= manager_rows()[10].list->0);
    assert(rows@[10].steps@[0]@.1 =~= manager_rows()[10].steps[0].1);
    assert(rows@[10]@.steps =~= manager_rows()[10].steps);
    assert(rows@[11]@.supersedes =~= manager_rows()[11].supersedes);
    assert(rows@[11]@.list->0 =~= manager_rows()[11].list->0);
    assert(rows@[11].steps@[0]@.1 =~= manager_rows()[11].steps[0].1);
    assert(rows@[11].steps@[1]@.1 =~= manager_rows()[11].steps[1].1);
    assert(rows@[11]@.steps =~= manager_rows()[11].steps);
    assert(rows.deep_view() =~= manager_rows());
    rows
}

/// The development toolchains.
pub open spec fn toolchain_rows() -> Seq<ManagerView> {
    seq![
        ManagerView {
            probe: "rustup"@,
            precheck: None,
            supersedes: seq![],
            steps: seq![(false, seq!["rustup"@, "update"@])],
            list: None,
        },
        ManagerView {
            probe: "ghcup"@,
            precheck: None,
            supersedes: seq![],
            steps: seq![(false, seq!["ghcup"@, "upgrade"@])],
            list: None,
        },
        ManagerView {
            probe: "poetry"@,
            precheck: None,
            supersedes: seq![],
            steps: seq![(false, seq!["poetry"@, "self"@, "update"@])],
            list: None,
        },
        ManagerView {
            probe: "pnpm"@,
            precheck: None,
            supersedes: seq![],
            steps: seq![(false, seq!["pnpm"@, "self-update"@])],
            list: None,
        },
        ManagerView {
            probe: "stack"@,
            precheck: None,
            supersedes: seq![],
            steps: seq![(false, seq!["stack"@, "upgrade"@])],
            list: None,
        },
        ManagerView {
            probe: "cpanm"@,
            precheck: None,
            supersedes: seq![],
            steps: seq![(false, seq!["cpanm"@, "--self-upgrade"@])],
            list: None,
        },
    ]
}

/// The development toolchains: each updates itself.
pub fn toolchains() -> (r: Vec<Manager>)
    ensures
        r.deep_view() == toolchain_rows(),
{
    let rows: Vec<Manager> = vec![
        Manager {
            probe: "rustup",
            precheck: None,
            supersedes: vec![],
            steps: vec![Step { elevated: false, words: vec!["rustup", "update"] }],
            list: None,
        },
        Manager {
            probe: "ghcup",
            precheck: None,
            supersedes: vec![],
            steps: vec![Step { elevated: false, words: vec!["ghcup", "upgrade"] }],
            list: None,
        },
        Manager {
            probe: "poetry",
            precheck: None,
            supersedes: vec![],
            steps: vec![Step { elevated: false, words: vec!["poetry", "self", "update"] }],
            list: None,
        },
        Manager {
            probe: "pnpm",
            precheck: None,
            supersedes: vec![],
            steps: vec![Step { elevated: false, words: vec!["pnpm", "self-update"] }],
            list: None,
        },
        Manager {
            probe: "stack",
            precheck: None,
            supersedes: vec![],
            steps: vec![Step { elevated: false, words: vec!["stack", "upgrade"] }],
            list: None,
        },
        Manager {
            probe: "cpanm",
            precheck: None,
            supersedes: vec![],
            steps: vec![Step { elevated: false, words: vec!["cpanm", "--self-upgrade"] }],
            list: None,
        },
    ];
    assert(rows@[0]@.supersedes =~= toolchain_rows()[0].supersedes);
    assert(rows@[0].steps@[0]@.1 =~= toolchain_rows()[0].steps[0].1);
    assert(rows@[0]@.steps =~= toolchain_rows()[0].steps);
    assert(rows@[1]@.supersedes =~= toolchain_rows()[1].supersedes);
    assert(rows@[1].steps@[0]@.1 =~= toolchain_rows()[1].steps[0].1);
    assert(rows@[1]@.steps =~= toolchain_rows()[1].steps);
    assert(rows@[2]@.supersedes =~= toolchain_rows()[2].supersedes);
    assert(rows@[2].steps@[0]@.1 =~= toolchain_rows()[2].steps[0].1);
    assert(rows@[2]@.steps =~= toolchain_rows()[2].steps);
    assert(rows@[3]@.supersedes =~= toolchain_rows()[3].supersedes);
    assert(rows@[3].steps@[0]@.1 =~= toolchain_rows()[3].steps[0].1);
    assert(rows@[3]@.steps =~= toolchain_rows()[3].steps);
    assert(rows@[4]@.supersedes =~= toolchain_rows()[4].supersedes);
    assert(rows@[4].steps@[0]@.1 =~= toolchain_rows()[4].steps[0].1);
    assert(rows@[4]@.steps =~= toolchain_rows()[4].steps);
    assert(rows@[5]@.supersedes =~= toolchain_rows()[5].supersedes);
    assert(rows@[5].steps@[0]@.1 =~= toolchain_rows()[5].steps[0].1);
    assert(rows@[5]@.steps =~= toolchain_rows()[5].steps);
    assert(rows.deep_view() =~= toolchain_rows());
    rows
}

// --- which tools are acted on ---------------------------------------------------------------

/// Whether a tool that is there makes another redundant.
pub open spec fn is_superseded(
    table: Seq<ManagerView>,
    present: Seq<Seq<char>>,
    probe: Seq<char>,
) -> bool {
    exists|j: int|
        0 <= j < table.len() && present.contains((#[trigger] table[j]).probe)
            && table[j].supersedes.contains(probe)
}

/// Whether a tool is acted on: it is there, no other tool that is there makes it redundant, and it
/// passes its check, where it has one. `passed` names the tools whose check succeeded.
pub open spec fn is_active(
    table: Seq<ManagerView>,
    present: Seq<Seq<char>>,
    passed: Seq<Seq<char>>,
    i: int,
) -> bool {
    present.contains(table[i].probe) && !is_superseded(table, present, table[i].probe) && (
    table[i].precheck is None || passed.contains(table[i].probe))
}

/// The positions, below `n`, of the tools that are acted on.
pub open spec fn active_rows(
    table: Seq<ManagerView>,
    present: Seq<Seq<char>>,
    passed: Seq<Seq<char>>,
    n: nat,
) -> Seq<usize>
    decreases n,
{
    if n == 0 {
        seq![]
    } else if is_active(table, present, passed, n - 1) {
        active_rows(table, present, passed, (n - 1) as nat).push((n - 1) as usize)
    } else {
        active_rows(table, present, passed, (n - 1) as nat)
    }
}

/// The tools that are acted on are those that are there, are not made redundant by another that is
/// there, and pass their check where they have one: each once, in the order of the table.
pub proof fn law_the_active_tools_are_all_acted_on(
    table: Seq<ManagerView>,
    present: Seq<Seq<char>>,
    passed: Seq<Seq<char>>,
    n: nat,
)
    requires
        n <= table.len() <= usize::MAX,
    ensures
        ({
            let rows = active_rows(table, present, passed, n);
            &&& forall|a: int, b: int| 0 <= a < b < rows.len() ==> #[trigger] rows[a] < #[trigger] rows[b]
            &&& forall|a: int| 0 <= a < rows.len() ==> #[trigger] rows[a] < n
            &&& forall|i: int|
                0 <= i < n ==> (rows.contains(i as usize) <==> present.contains(
                    (#[trigger] table[i]).probe,
                ) && (table[i].precheck is None || passed.contains(table[i].probe)) && !exists|j: int|
                    0 <= j < table.len() && present.contains((#[trigger] table[j]).probe)
                        && table[j].supersedes.contains(table[i].probe))
        }),
    decreases n,
{
    if n > 0 {
        law_the_active_tools_are_all_acted_on(table, present, passed, (n - 1) as nat);
        let before = active_rows(table, present, passed, (n - 1) as nat);
        let rows = active_rows(table, present, passed, n);
        assert forall|i: int| 0 <= i < n implies (rows.contains(i as usize) <==> present.contains(
            (#[trigger] table[i]).probe,
        ) && (table[i].precheck is None || passed.contains(table[i].probe)) && !exists|j: int|
            0 <= j < table.len() && present.contains((#[trigger] table[j]).probe)
                && table[j].supersedes.contains(table[i].probe)) by {
            if rows.len() > before.len() {
                assert(rows.last() == (n - 1) as usize);
                assert(rows =~= before.push((n - 1) as usize));
                if i < n - 1 && before.contains(i as usize) {
                    let k = choose|k: int| 0 <= k < before.len() && before[k] == i as usize;
                    assert(rows[k] == i as usize);
                }
                if i < n - 1 && rows.contains(i as usize) {
                    let k = choose|k: int| 0 <= k < rows.len() && rows[k] == i as usize;
                    assert(before[k] == i as usize);
                }
            } else if i == n - 1 && rows.contains(i as usize) {
                let k = choose|k: int| 0 <= k < rows.len() && rows[k] == i as usize;
                assert(before[k] < n - 1);
            }
        }
    }
}

/// Whether a tool that is there makes another redundant.
fn made_redundant(table: &Vec<Manager>, present: &Vec<String>, probe: &str) -> (r: bool)
    ensures
        r == is_superseded(table.deep_view(), present.deep_view(), probe@),
{
    let mut j: usize = 0;
    while j < table.len()
        invariant
            j <= table.len(),
            forall|k: int|
                0 <= k < j ==> !(present.deep_view().contains(
                    (#[trigger] table.deep_view()[k]).probe,
                ) && table.deep_view()[k].supersedes.contains(probe@)),
        decreases table.len() - j,
    {
        assert(table.deep_view()[j as int] == table@[j as int]@);
        if holds_text(present, table[j].probe) && holds_word(&table[j].supersedes, probe) {
            return true;
        }
        j += 1;
    }
    assert(table.deep_view().len() == table@.len());
    false
}

/// The positions of the tools that are acted on.
pub fn active(table: &Vec<Manager>, present: &Vec<String>, passed: &Vec<String>) -> (r: Vec<usize>)
    ensures
        r@ == active_rows(
            table.deep_view(),
            present.deep_view(),
            passed.deep_view(),
            table@.len(),
        ),
        forall|i: int| 0 <= i < r@.len() ==> #[trigger] r@[i] < table@.len(),
{
    let mut out: Vec<usize> = Vec::new();
    let mut i: usize = 0;
    while i < table.len()
        invariant
            i <= table.len(),
            out@ == active_rows(
                table.deep_view(),
                present.deep_view(),
                passed.deep_view(),
                i as nat,
            ),
            forall|j: int| 0 <= j < out@.len() ==> #[trigger] out@[j] < i,
        decreases table.len() - i,
    {
        assert(table.deep_view()[i as int] == table@[i as int]@);
        let tool: &Manager = &table[i];
        if holds_text(present, tool.probe) && !made_redundant(table, present, tool.probe) && (
        tool.precheck.is_none() || holds_text(passed, tool.probe)) {
            out.push(i);
        }
        i += 1;
    }
    out
}

/// Of two tools that are there, where one makes the other redundant, the other is never acted on.
pub proof fn law_superseded_tools_are_left_alone(
    table: Seq<ManagerView>,
    present: Seq<Seq<char>>,
    passed: Seq<Seq<char>>,
    i: int,
    j: int,
)
    requires
        0 <= i < table.len(),
        0 <= j < table.len(),
        present.contains(table[j].probe),
        table[j].supersedes.contains(table[i].probe),
    ensures
        !is_active(table, present, passed, i),
{
}

// --- what is run ----------------------------------------------------------------------------

/// One thing that is done. The next one follows even where a command fails.
pub enum Doing {
    /// Print a line.
    Say(String),
    /// Run a command line.
    Run(Vec<String>),
    /// Drop the elevation that this run earned, by whether a ticket was held before it.
    RevokeOurs { had_ticket: bool },
    /// Install the bundled tools and the companion repositories, in the way the flag says.
    InstallStainless(bool),
}

/// One thing that is done.
pub enum DoingView {
    Say(Seq<char>),
    Run(Seq<Seq<char>>),
    RevokeOurs { had_ticket: bool },
    InstallStainless(bool),
}

impl View for Doing {
    type V = DoingView;

    open spec fn view(&self) -> DoingView {
        match self {
            Doing::Say(text) => DoingView::Say(text@),
            Doing::Run(words) => DoingView::Run(words.deep_view()),
            Doing::RevokeOurs { had_ticket } => DoingView::RevokeOurs { had_ticket: *had_ticket },
            Doing::InstallStainless(flag) => DoingView::InstallStainless(*flag),
        }
    }
}

impl DeepView for Doing {
    type V = DoingView;

    open spec fn deep_view(&self) -> DoingView {
        self@
    }
}

/// The command line of a step: behind the superuser program where it runs as root.
pub open spec fn step_line(step: (bool, Seq<Seq<char>>), superuser: Seq<char>) -> Seq<Seq<char>> {
    if step.0 {
        seq![superuser] + step.1
    } else {
        step.1
    }
}

/// The heading of a tool.
pub open spec fn heading(probe: Seq<char>) -> Seq<char> {
    "== "@ + probe + " =="@
}

/// What the first `n` steps of a tool do.
pub open spec fn steps_done(steps: Seq<(bool, Seq<Seq<char>>)>, superuser: Seq<char>, n: nat) -> Seq<
    DoingView,
>
    decreases n,
{
    if n == 0 {
        seq![]
    } else {
        steps_done(steps, superuser, (n - 1) as nat).push(
            DoingView::Run(step_line(steps[n - 1], superuser)),
        )
    }
}

/// Every step of a tool is run, once and in order: as many commands as steps, and each is the
/// step's own words, behind the superuser program exactly where the step runs as root.
pub proof fn law_every_step_is_run(
    steps: Seq<(bool, Seq<Seq<char>>)>,
    superuser: Seq<char>,
    n: nat,
)
    requires
        n <= steps.len(),
    ensures
        steps_done(steps, superuser, n).len() == n,
        forall|s: int|
            0 <= s < n ==> (#[trigger] steps_done(steps, superuser, n)[s]) == DoingView::Run(
                if steps[s].0 {
                    seq![superuser] + steps[s].1
                } else {
                    steps[s].1
                },
            ),
    decreases n,
{
    if n > 0 {
        law_every_step_is_run(steps, superuser, (n - 1) as nat);
    }
}

/// What is done for the first `n` of some tools.
pub open spec fn upgrades(
    table: Seq<ManagerView>,
    rows: Seq<usize>,
    superuser: Seq<char>,
    n: nat,
) -> Seq<DoingView>
    decreases n,
{
    if n == 0 {
        seq![]
    } else {
        let tool = table[rows[n - 1] as int];
        upgrades(table, rows, superuser, (n - 1) as nat).push(
            DoingView::Say(heading(tool.probe)),
        ) + steps_done(tool.steps, superuser, tool.steps.len())
    }
}

/// Every tool has its heading and behind it all of its steps, tool after tool.
pub proof fn law_every_tool_is_upgraded(
    table: Seq<ManagerView>,
    rows: Seq<usize>,
    superuser: Seq<char>,
    n: nat,
)
    requires
        n <= rows.len(),
    ensures
        upgrades(table, rows, superuser, n) == rows.take(n as int).flat_map(
            |row: usize|
                seq![DoingView::Say("== "@ + table[row as int].probe + " =="@)] + Seq::new(
                    table[row as int].steps.len(),
                    |s: int|
                        DoingView::Run(
                            if table[row as int].steps[s].0 {
                                seq![superuser] + table[row as int].steps[s].1
                            } else {
                                table[row as int].steps[s].1
                            },
                        ),
                ),
        ),
    decreases n,
{
    if n > 0 {
        law_every_tool_is_upgraded(table, rows, superuser, (n - 1) as nat);
        lemma_flat_map_last(
            rows,
            |row: usize|
                seq![DoingView::Say("== "@ + table[row as int].probe + " =="@)] + Seq::new(
                    table[row as int].steps.len(),
                    |s: int|
                        DoingView::Run(
                            if table[row as int].steps[s].0 {
                                seq![superuser] + table[row as int].steps[s].1
                            } else {
                                table[row as int].steps[s].1
                            },
                        ),
                ),
            n,
        );
        let tool = table[rows[n - 1] as int];
        let before = upgrades(table, rows, superuser, (n - 1) as nat);
        let done = steps_done(tool.steps, superuser, tool.steps.len());
        law_every_step_is_run(tool.steps, superuser, tool.steps.len());
        assert(done =~= Seq::new(
            tool.steps.len(),
            |s: int|
                DoingView::Run(
                    if tool.steps[s].0 {
                        seq![superuser] + tool.steps[s].1
                    } else {
                        tool.steps[s].1
                    },
                ),
        ));
        assert(before.push(DoingView::Say("== "@ + tool.probe + " =="@)) + done =~= before + (seq![
            DoingView::Say("== "@ + tool.probe + " =="@),
        ] + done));
    }
}

/// The heading of a tool.
fn headed(probe: &str) -> (r: String)
    ensures
        r@ == heading(probe@),
{
    let mut out: String = "== ".to_owned();
    out.append(probe);
    out.append(" ==");
    out
}

/// The command line of a step.
pub fn run_line(step: &Step, superuser: &str) -> (r: Vec<String>)
    ensures
        r.deep_view() == step_line(step@, superuser@),
{
    let mut out: Vec<String> = Vec::new();
    assert(out.deep_view() =~= seq![]);
    if step.elevated {
        push_text(&mut out, superuser);
    }
    let ghost head = out.deep_view();
    let mut i: usize = 0;
    assert(out.deep_view() =~= head + step@.1.take(0));
    while i < step.words.len()
        invariant
            i <= step.words.len(),
            out.deep_view() == head + step@.1.take(i as int),
        decreases step.words.len() - i,
    {
        push_text(&mut out, step.words[i]);
        i += 1;
        assert(out.deep_view() =~= head + step@.1.take(i as int));
    }
    assert(step@.1.take(i as int) =~= step@.1);
    assert(out.deep_view() =~= step_line(step@, superuser@));
    out
}

/// Run each tool's steps under a heading.
pub fn upgrade(table: &Vec<Manager>, rows: &Vec<usize>, superuser: &str) -> (r: Vec<Doing>)
    requires
        forall|i: int| 0 <= i < rows@.len() ==> #[trigger] rows@[i] < table@.len(),
    ensures
        r.deep_view() == upgrades(table.deep_view(), rows@, superuser@, rows@.len()),
{
    let mut out: Vec<Doing> = Vec::new();
    assert(out.deep_view() =~= seq![]);
    let mut i: usize = 0;
    while i < rows.len()
        invariant
            i <= rows.len(),
            forall|j: int| 0 <= j < rows@.len() ==> #[trigger] rows@[j] < table@.len(),
            out.deep_view() == upgrades(table.deep_view(), rows@, superuser@, i as nat),
        decreases rows.len() - i,
    {
        let k: usize = rows[i];
        assert(rows@[i as int] == k);
        let tool: &Manager = &table[k];
        assert(table.deep_view()[k as int] == tool@);
        let ghost before = out.deep_view();
        out.push(Doing::Say(headed(tool.probe)));
        let ghost head = before.push(DoingView::Say(heading(tool@.probe)));
        assert(out.deep_view() =~= head);
        let mut s: usize = 0;
        assert(out.deep_view() =~= head + steps_done(tool@.steps, superuser@, 0));
        while s < tool.steps.len()
            invariant
                s <= tool.steps.len(),
                out.deep_view() == head + steps_done(tool@.steps, superuser@, s as nat),
            decreases tool.steps.len() - s,
        {
            assert(tool@.steps[s as int] == tool.steps@[s as int]@);
            let ghost earlier = out.deep_view();
            let line: Vec<String> = run_line(&tool.steps[s], superuser);
            let ghost added = line.deep_view();
            out.push(Doing::Run(line));
            assert(out.deep_view() =~= earlier.push(DoingView::Run(added)));
            s += 1;
            assert(out.deep_view() =~= head + steps_done(tool@.steps, superuser@, s as nat));
        }
        assert(tool.steps.deep_view().len() == tool.steps@.len());
        i += 1;
    }
    out
}

/// What was found out about the tools: those that are there, and those whose check succeeded.
pub struct Found {
    pub present: Vec<String>,
    pub passed: Vec<String>,
}

/// What is done for the tools of a table.
pub open spec fn table_upgrades(table: Seq<ManagerView>, found: Found, superuser: Seq<char>) -> Seq<
    DoingView,
> {
    let rows = active_rows(
        table,
        found.present.deep_view(),
        found.passed.deep_view(),
        table.len(),
    );
    upgrades(table, rows, superuser, rows.len())
}

/// Every tool of a table that is there, is not made redundant and passes its check, is upgraded in
/// full: its heading, and right behind it all of its steps, in order.
pub proof fn law_every_active_tool_is_upgraded_in_full(
    table: Seq<ManagerView>,
    found: Found,
    superuser: Seq<char>,
    i: int,
)
    requires
        table.len() <= usize::MAX,
        0 <= i < table.len(),
        found.present.deep_view().contains(table[i].probe),
        table[i].precheck is None || found.passed.deep_view().contains(table[i].probe),
        !exists|j: int|
            0 <= j < table.len() && found.present.deep_view().contains((#[trigger] table[j]).probe)
                && table[j].supersedes.contains(table[i].probe),
    ensures
        ({
            let own = seq![DoingView::Say("== "@ + table[i].probe + " =="@)] + Seq::new(
                table[i].steps.len(),
                |s: int|
                    DoingView::Run(
                        if table[i].steps[s].0 {
                            seq![superuser] + table[i].steps[s].1
                        } else {
                            table[i].steps[s].1
                        },
                    ),
            );
            exists|at: int|
                0 <= at && at + own.len() <= table_upgrades(table, found, superuser).len()
                    && #[trigger] table_upgrades(table, found, superuser).subrange(
                    at,
                    at + own.len(),
                ) == own
        }),
{
    let present = found.present.deep_view();
    let passed = found.passed.deep_view();
    let rows = active_rows(table, present, passed, table.len());
    law_the_active_tools_are_all_acted_on(table, present, passed, table.len());
    assert(table[i] == table[i]);
    assert(rows.contains(i as usize));
    let r = choose|r: int| 0 <= r < rows.len() && rows[r] == i as usize;
    law_every_tool_is_upgraded(table, rows, superuser, rows.len());
    assert(rows.take(rows.len() as int) =~= rows);
    let f = |row: usize|
        seq![DoingView::Say("== "@ + table[row as int].probe + " =="@)] + Seq::new(
            table[row as int].steps.len(),
            |s: int|
                DoingView::Run(
                    if table[row as int].steps[s].0 {
                        seq![superuser] + table[row as int].steps[s].1
                    } else {
                        table[row as int].steps[s].1
                    },
                ),
        );
    let at = lemma_flat_map_holds(rows, f, r);
    let own = seq![DoingView::Say("== "@ + table[i].probe + " =="@)] + Seq::new(
        table[i].steps.len(),
        |s: int|
            DoingView::Run(
                if table[i].steps[s].0 {
                    seq![superuser] + table[i].steps[s].1
                } else {
                    table[i].steps[s].1
                },
            ),
    );
    assert(f(rows[r]) =~= own);
    assert(table_upgrades(table, found, superuser).subrange(at, at + own.len()) == own);
}

/// What updating the package managers does: their steps, then the elevation is dropped, by whether
/// a ticket was held before the first of them.
pub open spec fn upup_done(found: Found, had_ticket: bool, superuser: Seq<char>) -> Seq<DoingView> {
    table_upgrades(manager_rows(), found, superuser).push(DoingView::RevokeOurs { had_ticket })
}

/// Updating the package managers does all that their steps do, and drops the elevation behind the
/// last of them and nowhere else.
pub proof fn law_the_elevation_is_dropped_last(found: Found, had_ticket: bool, superuser: Seq<char>)
    ensures
        upup_done(found, had_ticket, superuser).last() == (DoingView::RevokeOurs { had_ticket }),
        upup_done(found, had_ticket, superuser).drop_last() == table_upgrades(
            manager_rows(),
            found,
            superuser,
        ),
{
    let steps = table_upgrades(manager_rows(), found, superuser);
    assert(steps.push(DoingView::RevokeOurs { had_ticket }).drop_last() =~= steps);
}

/// Update and upgrade every package manager of the system. A ticket that the user held going in,
/// `had_ticket`, is theirs to keep.
pub fn upup(_args: &NoArgs, found: &Found, had_ticket: bool, superuser: &str) -> (r: Vec<Doing>)
    ensures
        r.deep_view() == upup_done(*found, had_ticket, superuser@),
{
    let table: Vec<Manager> = managers();
    assert(table.deep_view().len() == table@.len());
    let rows: Vec<usize> = active(&table, &found.present, &found.passed);
    let mut out: Vec<Doing> = upgrade(&table, &rows, superuser);
    let ghost steps = out.deep_view();
    out.push(Doing::RevokeOurs { had_ticket });
    assert(out.deep_view() =~= steps.push(DoingView::RevokeOurs { had_ticket }));
    out
}

/// Update the development toolchains that are installed.
pub fn update_toolchains(_args: &NoArgs, found: &Found, superuser: &str) -> (r: Vec<Doing>)
    ensures
        r.deep_view() == table_upgrades(toolchain_rows(), *found, superuser@),
{
    let table: Vec<Manager> = toolchains();
    assert(table.deep_view().len() == table@.len());
    let rows: Vec<usize> = active(&table, &found.present, &found.passed);
    upgrade(&table, &rows, superuser)
}

/// Update everything: the package managers, then the toolchains, then what is bundled.
pub fn upgrade_all(
    args: &NoArgs,
    managers: &Found,
    had_ticket: bool,
    toolchains: &Found,
    superuser: &str,
) -> (r: Vec<Doing>)
    ensures
        r.deep_view() == (upup_done(*managers, had_ticket, superuser@) + table_upgrades(
            toolchain_rows(),
            *toolchains,
            superuser@,
        )).push(DoingView::InstallStainless(false)),
{
    let mut out: Vec<Doing> = upup(args, managers, had_ticket, superuser);
    let mut more: Vec<Doing> = update_toolchains(args, toolchains, superuser);
    let ghost first = out.deep_view();
    let ghost second = more.deep_view();
    out.append(&mut more);
    assert(out.deep_view() =~= first + second);
    out.push(Doing::InstallStainless(false));
    assert(out.deep_view() =~= (first + second).push(DoingView::InstallStainless(false)));
    out
}

/// Whether an elevation that a run earned is dropped behind it: one that the user held before is
/// theirs to keep.
pub fn revokes(had_ticket: bool) -> (r: bool)
    ensures
        r == !had_ticket,
{
    !had_ticket
}

/// A tool whose packages are listed: its heading, and the command line that lists them.
pub struct Listing {
    pub heading: String,
    pub words: Vec<&'static str>,
}

impl View for Listing {
    type V = (Seq<char>, Seq<Seq<char>>);

    open spec fn view(&self) -> (Seq<char>, Seq<Seq<char>>) {
        (self.heading@, self.words.deep_view())
    }
}

impl DeepView for Listing {
    type V = (Seq<char>, Seq<Seq<char>>);

    open spec fn deep_view(&self) -> (Seq<char>, Seq<Seq<char>>) {
        self@
    }
}

/// The listings of the first `n` of some tools.
pub open spec fn listings(table: Seq<ManagerView>, rows: Seq<usize>, n: nat) -> Seq<
    (Seq<char>, Seq<Seq<char>>),
>
    decreases n,
{
    if n == 0 {
        seq![]
    } else {
        let tool = table[rows[n - 1] as int];
        match tool.list {
            Some(words) => listings(table, rows, (n - 1) as nat).push(
                (heading(tool.probe), words),
            ),
            None => listings(table, rows, (n - 1) as nat),
        }
    }
}

/// Every tool that can list what is installed is listed under its heading, in order, and no
/// other.
pub proof fn law_every_tool_that_lists_is_listed(table: Seq<ManagerView>, rows: Seq<usize>, n: nat)
    requires
        n <= rows.len(),
    ensures
        listings(table, rows, n) == rows.take(n as int).filter_map(
            |row: usize|
                match table[row as int].list {
                    Some(words) => Some(("== "@ + table[row as int].probe + " =="@, words)),
                    None => None,
                },
        ),
    decreases n,
{
    if n > 0 {
        law_every_tool_that_lists_is_listed(table, rows, (n - 1) as nat);
        lemma_filter_map_last(
            rows,
            |row: usize|
                match table[row as int].list {
                    Some(words) => Some(("== "@ + table[row as int].probe + " =="@, words)),
                    None => None,
                },
            n,
        );
    }
}

/// A copy of fixed words.
fn copy_words(list: &Vec<&'static str>) -> (r: Vec<&'static str>)
    ensures
        r.deep_view() == list.deep_view(),
{
    let mut out: Vec<&'static str> = Vec::new();
    let mut i: usize = 0;
    while i < list.len()
        invariant
            i <= list.len(),
            out@ == list@.take(i as int),
        decreases list.len() - i,
    {
        out.push(list[i]);
        i += 1;
        assert(out@ =~= list@.take(i as int));
    }
    assert(out@ =~= list@);
    assert(out.deep_view() =~= list.deep_view());
    out
}

/// List the installed packages under their package managers: the command lines that do.
pub fn print(_args: &NoArgs, found: &Found) -> (r: Vec<Listing>)
    ensures
        ({
            let rows = active_rows(
                manager_rows(),
                found.present.deep_view(),
                found.passed.deep_view(),
                manager_rows().len(),
            );
            r.deep_view() == listings(manager_rows(), rows, rows.len())
        }),
{
    let table: Vec<Manager> = managers();
    assert(table.deep_view().len() == table@.len());
    let rows: Vec<usize> = active(&table, &found.present, &found.passed);
    let mut out: Vec<Listing> = Vec::new();
    assert(out.deep_view() =~= seq![]);
    let mut i: usize = 0;
    while i < rows.len()
        invariant
            i <= rows.len(),
            table.deep_view() == manager_rows(),
            forall|j: int| 0 <= j < rows@.len() ==> #[trigger] rows@[j] < table@.len(),
            out.deep_view() == listings(manager_rows(), rows@, i as nat),
        decreases rows.len() - i,
    {
        let k: usize = rows[i];
        assert(rows@[i as int] == k);
        assert(table.deep_view()[k as int] == table@[k as int]@);
        if let Some(words) = &table[k].list {
            let ghost before = out.deep_view();
            out.push(Listing { heading: headed(table[k].probe), words: copy_words(words) });
            assert(out.deep_view() =~= before.push(
                (heading(table@[k as int]@.probe), words.deep_view()),
            ));
        }
        i += 1;
    }
    out
}

/// What a listing command printed, indented under its heading.
pub fn print_listing(printed: &str) -> (r: String)
    ensures
        r@ == indented(lines(printed@), lines(printed@).len()),
{
    let cs: Vec<char> = chars_of(printed);
    let list: Vec<String> = lines_of(cs.as_slice());
    let mut out: String = String::new();
    let mut i: usize = 0;
    while i < list.len()
        invariant
            i <= list.len(),
            out@ == indented(list.deep_view(), i as nat),
        decreases list.len() - i,
    {
        assert(list.deep_view()[i as int] == list@[i as int]@);
        let mut line: String = "  ".to_owned();
        line.append(list[i].as_str());
        line.append("\n");
        out.append(line.as_str());
        i += 1;
    }
    assert(list.deep_view().len() == list@.len());
    out
}

} // verus!
