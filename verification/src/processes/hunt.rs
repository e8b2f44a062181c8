//! The hunt as a whole: what is asked for, what is said when nothing matches, and what is done
//! with the matches.

use vstd::prelude::*;
use vstd::string::*;
use crate::processes::matching::{
    owned_by, owned_windows, OwnedWindowView, OwnedWindows, OwnedWindowsView, Window,
};
use crate::processes::report::{is_report, render, TreePalette};
use crate::processes::stat::{
    cmdline, command_line, ppid, real_uid, rss_kib, stat_number, status_number, user_label, user_of,
};
use crate::processes::tree::{all_marked, found_pids, in_pid_order, related, survey};
use crate::processes::{Process, ProcessView, Relation};
use crate::bytes::lossy_text;
use crate::sequences::lemma_flat_map_last;
use crate::text::{chars_of, decimal, join, joined, push_decimal, push_text, quoted, quoted_text, string_of, trim_end, trimmed_end};

verus! {

/// The arguments of `murder`.
pub struct MurderArgs {
    /// What to look for: a process must match every one of them.
    pub patterns: Vec<String>,
    /// Hunt windows with this in their title instead of processes.
    pub window: Option<String>,
    /// Cut each command at the window's edge.
    pub short: bool,
    /// Choose which of the matches to act on.
    pub choose: bool,
}

/// What a hunt is after.
#[derive(Clone, Copy, PartialEq, Eq, Structural, Debug)]
pub enum Hunt {
    /// Nothing was asked for: offer the heaviest processes.
    Hogs,
    /// Windows, by title.
    Windows,
    /// Processes, by text.
    Processes,
}

/// What is done with the matches: a text hunt names processes, so they get signals; a window
/// hunt names windows, so they get close requests.
#[derive(Clone, Copy, PartialEq, Eq, Structural, Debug)]
pub enum Action {
    CloseWindows,
    Choose,
    Kill,
}

impl MurderArgs {
    /// What the hunt is after.
    pub fn hunt(&self) -> (r: Hunt)
        ensures
            r == if self.window is Some {
                Hunt::Windows
            } else if self.patterns@.len() == 0 {
                Hunt::Hogs
            } else {
                Hunt::Processes
            },
    {
        if self.window.is_some() {
            Hunt::Windows
        } else if self.patterns.len() == 0 {
            Hunt::Hogs
        } else {
            Hunt::Processes
        }
    }

    /// What is done with the matches.
    pub fn action(&self) -> (r: Action)
        ensures
            r == if self.window is Some {
                Action::CloseWindows
            } else if self.choose {
                Action::Choose
            } else {
                Action::Kill
            },
    {
        if self.window.is_some() {
            Action::CloseWindows
        } else if self.choose {
            Action::Choose
        } else {
            Action::Kill
        }
    }

    /// Whether the tree is printed: with a choice to make, the form is the tree.
    pub fn prints_tree(&self) -> (r: bool)
        ensures
            r == !self.choose,
    {
        !self.choose
    }

    /// Everything that glows: the patterns, and the title that was hunted.
    pub open spec fn needle_texts(self) -> Seq<Seq<char>> {
        match self.window {
            Some(w) => self.patterns.deep_view().push(w@),
            None => self.patterns.deep_view(),
        }
    }

    /// Everything that glows: the patterns in the text they hit, the window needle in the title.
    pub fn needles(&self) -> (r: Vec<String>)
        ensures
            r.deep_view() == self.needle_texts(),
    {
        let mut out: Vec<String> = crate::text::copy_texts(&self.patterns);
        if let Some(w) = &self.window {
            push_text(&mut out, w.as_str());
        }
        out
    }
}

/// A list of texts between quotes and brackets.
pub open spec fn quoted_list(parts: Seq<Seq<char>>) -> Seq<char> {
    "["@ + join(parts.map_values(|s: Seq<char>| quoted_text(s)), ", "@) + "]"@
}

/// What was asked for, as it is said back.
pub open spec fn asked(args: MurderArgs) -> Seq<Seq<char>> {
    match args.window {
        Some(w) => args.patterns.deep_view().push("window~"@ + w@),
        None => args.patterns.deep_view(),
    }
}

/// What is said when nothing matches.
pub open spec fn no_match(parts: Seq<Seq<char>>) -> Seq<char> {
    if parts.len() == 1 {
        "murder: nothing matches "@ + quoted_text(parts[0])
    } else {
        "murder: nothing matches all "@ + decimal(parts.len()) + " of "@ + quoted_list(parts)
    }
}

/// What is said when nothing matches.
pub fn no_match_text(args: &MurderArgs) -> (r: String)
    ensures
        r@ == no_match(asked(*args)),
{
    let mut parts: Vec<String> = crate::text::copy_texts(&args.patterns);
    if let Some(w) = &args.window {
        let mut part: String = "window~".to_owned();
        part.append(w.as_str());
        push_text(&mut parts, part.as_str());
    }
    assert(parts.deep_view() =~= asked(*args));
    assert(parts.deep_view().len() == parts@.len());
    if parts.len() == 1 {
        assert(parts.deep_view()[0] == parts@[0]@);
        let mut out: String = "murder: nothing matches ".to_owned();
        out.append(quoted(parts[0].as_str()).as_str());
        return out;
    }
    let mut quotes: Vec<String> = Vec::new();
    let mut i: usize = 0;
    while i < parts.len()
        invariant
            i <= parts.len(),
            quotes.len() == i,
            forall|j: int| 0 <= j < i ==> (#[trigger] quotes@[j])@ == quoted_text(parts@[j]@),
        decreases parts.len() - i,
    {
        quotes.push(quoted(parts[i].as_str()));
        i += 1;
    }
    assert(quotes.deep_view() =~= parts.deep_view().map_values(|s: Seq<char>| quoted_text(s)));
    let mut list: String = "[".to_owned();
    list.append(joined(&quotes, ", ").as_str());
    list.append("]");
    let mut out: String = "murder: nothing matches all ".to_owned();
    push_decimal(&mut out, parts.len() as u128);
    out.append(" of ");
    out.append(list.as_str());
    out
}

/// What is said when no window has the title.
pub fn no_window_text(needle: &str) -> (r: String)
    ensures
        r@ == "murder: no window title contains "@ + quoted_text(needle@),
{
    let mut out: String = "murder: no window title contains ".to_owned();
    out.append(quoted(needle).as_str());
    out
}

/// Which process a window belongs to, as it is said when no process qualified.
pub fn window_owner_text(title: &str, pid: u32) -> (r: String)
    ensures
        r@ == "  (window "@ + quoted_text(title@) + " maps to pid "@ + decimal(pid as nat) + ")"@,
{
    let mut out: String = "  (window ".to_owned();
    out.append(quoted(title).as_str());
    out.append(" maps to pid ");
    push_decimal(&mut out, pid as u128);
    out.append(")");
    out
}

// --- reading processes ----------------------------------------------------------------------

/// How far the walk up the parents goes at most.
pub const MAX_ANCESTRY: usize = 64;

/// Every process between this one and the top, as far as it was walked.
pub struct Ancestry {
    pub chain: Vec<u32>,
}

/// Whether a PID is among some.
pub open spec fn holds_pid(chain: Seq<u32>, pid: nat) -> bool {
    exists|i: int| 0 <= i < chain.len() && #[trigger] chain[i] as nat == pid
}

impl Ancestry {
    /// No PID is twice in the chain, and it is not longer than the limit.
    pub open spec fn wf(self) -> bool {
        self.chain@.no_duplicates() && self.chain@.len() <= MAX_ANCESTRY
    }

    /// Nothing walked yet.
    pub fn new() -> (r: Ancestry)
        ensures
            r.wf(),
            r.chain@ == Seq::<u32>::empty(),
    {
        Ancestry { chain: Vec::new() }
    }

    /// Whether a process is in the chain.
    pub fn contains(&self, pid: u32) -> (r: bool)
        ensures
            r == holds_pid(self.chain@, pid as nat),
    {
        let mut i: usize = 0;
        while i < self.chain.len()
            invariant
                i <= self.chain.len(),
                forall|j: int| 0 <= j < i ==> #[trigger] self.chain@[j] as nat != pid as nat,
            decreases self.chain.len() - i,
        {
            if self.chain[i] == pid {
                return true;
            }
            i += 1;
        }
        false
    }

    /// The parent that a `stat` line leads to, unless it is none, was seen before, or the limit is
    /// reached.
    pub open spec fn next(self, stat: Seq<char>) -> Option<nat> {
        match stat_number(stat, 1, u32::MAX as nat) {
            Some(parent) => if parent > 0 && !holds_pid(self.chain@, parent) && self.chain@.len()
                < MAX_ANCESTRY {
                Some(parent)
            } else {
                None
            },
            None => None,
        }
    }

    /// One step up: from the `stat` line of the process reached to its parent, which is read next.
    /// A cycle or a chain beyond the limit ends the walk.
    pub fn step(&mut self, stat: &str) -> (r: Option<u32>)
        requires
            old(self).wf(),
        ensures
            final(self).wf(),
            match old(self).next(stat@) {
                Some(parent) => r == Some(parent as u32) && final(self).chain@ == old(
                    self,
                ).chain@.push(parent as u32),
                None => r is None && final(self).chain@ == old(self).chain@,
            },
    {
        match ppid(stat) {
            Some(parent) => {
                if parent > 0 && !self.contains(parent) && self.chain.len() < MAX_ANCESTRY {
                    proof {
                        assert(self.chain@.push(parent).no_duplicates()) by {
                            assert forall|i: int, j: int|
                                0 <= i < self.chain@.len() + 1 && 0 <= j < self.chain@.len() + 1 && i
                                    != j implies self.chain@.push(parent)[i] != self.chain@.push(
                                parent,
                            )[j] by {
                                if i == self.chain@.len() {
                                    assert(self.chain@[j] as nat != parent as nat);
                                }
                                if j == self.chain@.len() {
                                    assert(self.chain@[i] as nat != parent as nat);
                                }
                            }
                        }
                    }
                    self.chain.push(parent);
                    Some(parent)
                } else {
                    None
                }
            },
            None => None,
        }
    }
}

/// What was read of a process under `/proc`, with its age and CPU share as they were computed.
pub struct RawProcess {
    pub pid: u32,
    pub comm: String,
    pub cmdline: Vec<u8>,
    pub stat: String,
    pub status: String,
    pub exe: Option<String>,
    pub age: u64,
    pub cpu_order: i64,
    pub cpu_label: String,
}

/// A process from what was read of it. A user that the password file does not name is shown by
/// number; one that cannot be read at all by the greatest.
pub open spec fn assembled(raw: RawProcess, passwd: Seq<char>, chain: Seq<u32>) -> ProcessView {
    ProcessView {
        pid: raw.pid as int,
        ppid: match stat_number(raw.stat@, 1, u32::MAX as nat) {
            Some(n) => n as int,
            None => 0,
        },
        user: user_label(
            passwd,
            match status_number(raw.status@, "Uid:"@, u32::MAX as nat) {
                Some(n) => n,
                None => u32::MAX as nat,
            },
        ),
        name: trim_end(raw.comm@),
        cmdline: command_line(lossy_text(raw.cmdline@)),
        exe: raw.exe.deep_view(),
        age: raw.age as nat,
        matched: seq![],
        cpu_order: raw.cpu_order as int,
        cpu_label: raw.cpu_label@,
        rss_kib: status_number(raw.status@, "VmRSS:"@, u64::MAX as nat),
        window: None,
        protected: holds_pid(chain, raw.pid as nat),
        relation: Relation::Ancestor,
    }
}

/// A process from what was read of it.
pub fn assemble(raw: &RawProcess, passwd: &str, ancestry: &Ancestry) -> (r: Process)
    ensures
        r@ == assembled(*raw, passwd@, ancestry.chain@),
{
    let uid: u32 = match real_uid(raw.status.as_str()) {
        Some(n) => n,
        None => u32::MAX,
    };
    let comm: Vec<char> = chars_of(raw.comm.as_str());
    let p: Process = Process {
        pid: raw.pid,
        ppid: match ppid(raw.stat.as_str()) {
            Some(n) => n,
            None => 0,
        },
        user: user_of(passwd, uid),
        name: string_of(trimmed_end(comm.as_slice())),
        cmdline: cmdline(raw.cmdline.as_slice()),
        exe: match &raw.exe {
            Some(s) => Some(s.clone()),
            None => None,
        },
        age: raw.age,
        matched: Vec::new(),
        cpu_order: raw.cpu_order,
        cpu_label: raw.cpu_label.clone(),
        rss_kib: rss_kib(raw.status.as_str()),
        window: None,
        protected: ancestry.contains(raw.pid),
        relation: Relation::Ancestor,
    };
    assert(p.matched@ =~= seq![]);
    p
}

// --- the whole hunt -------------------------------------------------------------------------

/// What a hunt comes to.
pub enum Murder {
    /// Nothing was asked for: offer the heaviest processes.
    PickHogs,
    /// No window has the title; the text says so.
    NoWindow(String),
    /// No process matches; the lines say so.
    NoMatch(Vec<String>),
    /// The relevant processes, the report of them, and what is done with the matches.
    Found { relevant: Vec<Process>, lines: Vec<String>, action: Action },
}

/// The matched windows of a window hunt.
pub open spec fn hunted_windows(args: MurderArgs, windows: Seq<Window>) -> Option<
    Seq<OwnedWindowsView>,
> {
    match args.window {
        Some(needle) => Some(owned_by(windows, needle@, windows.len())),
        None => None,
    }
}

/// Which process each of the first `n` windows of a process belongs to.
pub open spec fn owner_lines(pid: int, windows: Seq<OwnedWindowView>, n: nat) -> Seq<Seq<char>>
    decreases n,
{
    if n == 0 {
        seq![]
    } else {
        owner_lines(pid, windows, (n - 1) as nat).push(
            "  (window "@ + quoted_text(windows[n - 1].title) + " maps to pid "@ + decimal(pid as nat)
                + ")"@,
        )
    }
}

/// Every window of a process has its line, in order, with its title and the process.
pub proof fn law_every_window_names_its_process(pid: int, windows: Seq<OwnedWindowView>, n: nat)
    requires
        n <= windows.len(),
    ensures
        owner_lines(pid, windows, n).len() == n,
        forall|i: int|
            0 <= i < n ==> (#[trigger] owner_lines(pid, windows, n)[i]) == "  (window "@ + quoted_text(
                windows[i].title,
            ) + " maps to pid "@ + decimal(pid as nat) + ")"@,
    decreases n,
{
    if n > 0 {
        law_every_window_names_its_process(pid, windows, (n - 1) as nat);
    }
}

/// Which process each window of the first `n` processes belongs to.
pub open spec fn all_owner_lines(owned: Seq<OwnedWindowsView>, n: nat) -> Seq<Seq<char>>
    decreases n,
{
    if n == 0 {
        seq![]
    } else {
        let o = owned[n - 1];
        all_owner_lines(owned, (n - 1) as nat) + owner_lines(o.pid, o.windows, o.windows.len())
    }
}

/// The windows of every process are named, process by process.
pub proof fn law_the_windows_of_every_process_are_named(owned: Seq<OwnedWindowsView>, n: nat)
    requires
        n <= owned.len(),
    ensures
        all_owner_lines(owned, n) == owned.take(n as int).flat_map(
            |o: OwnedWindowsView| owner_lines(o.pid, o.windows, o.windows.len()),
        ),
    decreases n,
{
    if n > 0 {
        law_the_windows_of_every_process_are_named(owned, (n - 1) as nat);
        lemma_flat_map_last(
            owned,
            |o: OwnedWindowsView| owner_lines(o.pid, o.windows, o.windows.len()),
            n,
        );
    }
}

/// Append which process each window belongs to.
fn add_owner_lines(out: &mut Vec<String>, owned: &Vec<OwnedWindows>)
    ensures
        final(out).deep_view() == old(out).deep_view() + all_owner_lines(
            owned.deep_view(),
            owned.deep_view().len(),
        ),
{
    let ghost had = out.deep_view();
    let mut i: usize = 0;
    assert(had + seq![] =~= had);
    while i < owned.len()
        invariant
            i <= owned.len(),
            out.deep_view() == had + all_owner_lines(owned.deep_view(), i as nat),
        decreases owned.len() - i,
    {
        assert(owned.deep_view()[i as int] == owned@[i as int]@);
        let ghost before = out.deep_view();
        let ghost ws = owned@[i as int].windows.deep_view();
        let mut j: usize = 0;
        assert(before + seq![] =~= before);
        while j < owned[i as usize].windows.len()
            invariant
                i < owned.len(),
                j <= owned@[i as int].windows.len(),
                ws == owned@[i as int].windows.deep_view(),
                out.deep_view() == before + owner_lines(owned@[i as int].pid as int, ws, j as nat),
            decreases owned@[i as int].windows.len() - j,
        {
            assert(ws[j as int] == owned@[i as int].windows@[j as int]@);
            let line: String = window_owner_text(owned[i].windows[j].title.as_str(), owned[i].pid);
            push_text(out, line.as_str());
            assert(out.deep_view() =~= before + owner_lines(
                owned@[i as int].pid as int,
                ws,
                (j + 1) as nat,
            ));
            j += 1;
        }
        assert(ws.len() == owned@[i as int].windows@.len());
        assert(out.deep_view() =~= had + all_owner_lines(owned.deep_view(), (i + 1) as nat));
        i += 1;
    }
    assert(owned.deep_view().len() == owned@.len());
}

/// The whole hunt, over the processes running and the windows on the screen: what matches every
/// pattern, its lineage, the report of it, and what is done with the matches.
pub fn murder(
    args: &MurderArgs,
    all: &Vec<Process>,
    windows: &Vec<Window>,
    width: usize,
    palette: &TreePalette,
) -> (r: Murder)
    requires
        in_pid_order(all.deep_view()),
    ensures
        ({
            let owned = hunted_windows(*args, windows@);
            let after = all_marked(all.deep_view(), args.patterns.deep_view(), owned);
            let found = found_pids(after, after.len());
            if args.window is None && args.patterns@.len() == 0 {
                r is PickHogs
            } else if owned matches Some(list) && list.len() == 0 {
                r matches Murder::NoWindow(text) && text@ == "murder: no window title contains "@
                    + quoted_text(args.window->0@)
            } else if found.len() == 0 {
                r matches Murder::NoMatch(lines) && lines.deep_view() == seq![no_match(asked(*args))]
                    + match owned {
                    Some(list) => all_owner_lines(list, list.len()),
                    None => seq![],
                }
            } else {
                r matches Murder::Found { relevant, lines, action } && {
                    &&& relevant.deep_view() == related(after, found, after.len())
                    &&& in_pid_order(relevant.deep_view())
                    &&& action == if args.window is Some {
                        Action::CloseWindows
                    } else if args.choose {
                        Action::Choose
                    } else {
                        Action::Kill
                    }
                    &&& args.choose ==> lines@.len() == 0
                    &&& !args.choose ==> is_report(
                        lines.deep_view(),
                        relevant.deep_view(),
                        args.needle_texts(),
                        args.short,
                        width as nat,
                        *palette,
                    )
                }
            }
        }),
{
    if args.hunt() == Hunt::Hogs {
        return Murder::PickHogs;
    }
    let mut by_window: Option<Vec<OwnedWindows>> = None;
    if let Some(needle) = &args.window {
        let owned: Vec<OwnedWindows> = owned_windows(windows, needle.as_str());
        assert(owned.deep_view().len() == owned@.len());
        if owned.len() == 0 {
            return Murder::NoWindow(no_window_text(needle.as_str()));
        }
        by_window = Some(owned);
    }
    let (relevant, n) = match &by_window {
        Some(owned) => survey(all, &args.patterns, Some(owned)),
        None => survey(all, &args.patterns, None),
    };
    if n == 0 {
        let mut lines: Vec<String> = Vec::new();
        push_text(&mut lines, no_match_text(args).as_str());
        assert(lines.deep_view() =~= seq![no_match(asked(*args))]);
        match &by_window {
            Some(owned) => {
                add_owner_lines(&mut lines, owned);
            },
            None => {
                assert(lines.deep_view() + seq![] =~= lines.deep_view());
            },
        }
        return Murder::NoMatch(lines);
    }
    let action: Action = args.action();
    if !args.prints_tree() {
        return Murder::Found { relevant, lines: Vec::new(), action };
    }
    let needles: Vec<String> = args.needles();
    let lines: Vec<String> = render(&relevant, &needles, args.short, width, palette);
    Murder::Found { relevant, lines, action }
}

} // verus!
