//! Process commands (`proc_*`), over what `/proc` says.
//!
//! A process is found by any part of it, shown in its process-tree, and terminated on request:
//! SIGTERM first, SIGKILL only for whatever ignores it. What is read, signalled and printed is
//! the caller's; what matches, who is related to whom, what is said and what is done next is
//! decided here.

pub mod hogs;
pub mod hunt;
pub mod ladder;
pub mod matching;
pub mod report;
pub mod stat;
pub mod tree;

use vstd::prelude::*;

verus! {

/// Why a process is in the report at all.
#[derive(Clone, Copy, PartialEq, Eq, Structural, Debug)]
pub enum Relation {
    /// The pattern found it: the row the run is about.
    Match,
    /// Below a match: not searched for, but killing its parent takes it too.
    Descendant,
    /// Above a match: context only. Never touched.
    Ancestor,
}

/// A field of a process that a pattern was found in.
#[derive(Clone, Copy, PartialEq, Eq, Structural, Debug)]
pub enum Field {
    Pid,
    Name,
    Cmdline,
    Exe,
    Window,
}

/// A running process, as much of it as `/proc` will show.
pub struct Process {
    pub pid: u32,
    pub ppid: u32,
    pub user: String,
    /// The executable's name, which is all a kernel thread has.
    pub name: String,
    /// The full command line; empty for a kernel thread.
    pub cmdline: String,
    /// Where the binary lives, where that can be read.
    pub exe: Option<String>,
    /// Seconds since it started.
    pub age: u64,
    /// Which fields the patterns were found in.
    pub matched: Vec<Field>,
    /// Where its lifetime-average CPU share stands: the greater, the more it used.
    pub cpu_order: i64,
    /// That share as a percentage with one decimal.
    pub cpu_label: String,
    /// Resident memory in KiB; none for a kernel thread.
    pub rss_kib: Option<u64>,
    /// The matched window titles, when the hunt was for windows.
    pub window: Option<String>,
    /// This command's own ancestry: shown when relevant, never killed.
    pub protected: bool,
    pub relation: Relation,
}

/// A process, by what it says.
pub struct ProcessView {
    pub pid: int,
    pub ppid: int,
    pub user: Seq<char>,
    pub name: Seq<char>,
    pub cmdline: Seq<char>,
    pub exe: Option<Seq<char>>,
    pub age: nat,
    pub matched: Seq<Field>,
    pub cpu_order: int,
    pub cpu_label: Seq<char>,
    pub rss_kib: Option<nat>,
    pub window: Option<Seq<char>>,
    pub protected: bool,
    pub relation: Relation,
}

impl View for Process {
    type V = ProcessView;

    open spec fn view(&self) -> ProcessView {
        ProcessView {
            pid: self.pid as int,
            ppid: self.ppid as int,
            user: self.user@,
            name: self.name@,
            cmdline: self.cmdline@,
            exe: self.exe.deep_view(),
            age: self.age as nat,
            matched: self.matched@,
            cpu_order: self.cpu_order as int,
            cpu_label: self.cpu_label@,
            rss_kib: match self.rss_kib {
                Some(n) => Some(n as nat),
                None => None,
            },
            window: self.window.deep_view(),
            protected: self.protected,
            relation: self.relation,
        }
    }
}

impl DeepView for Process {
    type V = ProcessView;

    open spec fn deep_view(&self) -> ProcessView {
        self@
    }
}

} // verus!
