//! Terminating processes and closing windows: what is spared, what is asked, what is said, and
//! when the next rung is due.

use vstd::prelude::*;
use vstd::string::*;
use crate::processes::matching::{find_owner, owner_at, OwnedWindow, OwnedWindowView, OwnedWindows, OwnedWindowsView};
use crate::processes::report::{
    count, counted, picked_in, submitted, Form, FormEnd, FormItem, FormItemView, TickedGroup,
};
use crate::processes::tree::{as_ints, free_roots, is_matched, tree_count};
use crate::processes::{Process, ProcessView, Relation};
use crate::sequences::{lemma_filter_last, lemma_filter_map_last, lemma_flat_map_last};
use crate::style::{painted, Paint};
use crate::text::{decimal, join, joined, push_decimal, push_text};

verus! {

// --- triage ---------------------------------------------------------------------------------

/// Why a process must not be signalled, if so.
pub open spec fn refusal(p: ProcessView) -> Option<Seq<char>> {
    if p.pid == 1 {
        Some("PID 1: killing init takes the machine down with it"@)
    } else if p.protected {
        Some("this shell's own ancestry (the starred rows)"@)
    } else if p.cmdline.len() == 0 {
        Some("a kernel thread — not something a signal can reach"@)
    } else {
        None
    }
}

/// A signal is refused to the first process, to this shell's own ancestry and to what has no
/// command line, and to nothing else.
pub proof fn law_what_is_spared(p: ProcessView)
    ensures
        refusal(p) is Some <==> p.pid == 1 || p.protected || p.cmdline.len() == 0,
{
}

/// A process that is spared, and why.
pub struct Refusal {
    pub pid: u32,
    pub why: &'static str,
}

/// A process that is spared, by what it says.
pub struct RefusalView {
    pub pid: int,
    pub why: Seq<char>,
}

impl View for Refusal {
    type V = RefusalView;

    open spec fn view(&self) -> RefusalView {
        RefusalView { pid: self.pid as int, why: self.why@ }
    }
}

impl DeepView for Refusal {
    type V = RefusalView;

    open spec fn deep_view(&self) -> RefusalView {
        self@
    }
}

/// What may be signalled, and what must not.
pub struct Triage {
    pub killable: Vec<u32>,
    pub refused: Vec<Refusal>,
}

/// The processes among the first `n` that may be signalled.
pub open spec fn killable(ps: Seq<ProcessView>, n: nat) -> Seq<u32>
    decreases n,
{
    if n == 0 {
        seq![]
    } else if refusal(ps[n - 1]) is None {
        killable(ps, (n - 1) as nat).push(ps[n - 1].pid as u32)
    } else {
        killable(ps, (n - 1) as nat)
    }
}

/// Every process is signalled, in order, but for the first of the system, those of this shell's
/// own ancestry, and those of the kernel, which have no command line.
pub proof fn law_all_but_the_spared_are_signalled(ps: Seq<ProcessView>, n: nat)
    requires
        n <= ps.len(),
    ensures
        killable(ps, n) == ps.take(n as int).filter_map(
            |p: ProcessView|
                if p.pid != 1 && !p.protected && p.cmdline.len() > 0 {
                    Some(p.pid as u32)
                } else {
                    None
                },
        ),
    decreases n,
{
    if n > 0 {
        law_all_but_the_spared_are_signalled(ps, (n - 1) as nat);
        lemma_filter_map_last(
            ps,
            |p: ProcessView|
                if p.pid != 1 && !p.protected && p.cmdline.len() > 0 {
                    Some(p.pid as u32)
                } else {
                    None
                },
            n,
        );
    }
}

/// The processes among the first `n` that are spared, each with its reason.
pub open spec fn refused(ps: Seq<ProcessView>, n: nat) -> Seq<RefusalView>
    decreases n,
{
    if n == 0 {
        seq![]
    } else {
        match refusal(ps[n - 1]) {
            Some(why) => refused(ps, (n - 1) as nat).push(RefusalView { pid: ps[n - 1].pid, why }),
            None => refused(ps, (n - 1) as nat),
        }
    }
}

/// Every process that is spared is named, in order, with its reason.
pub proof fn law_every_spared_process_has_its_reason(ps: Seq<ProcessView>, n: nat)
    requires
        n <= ps.len(),
    ensures
        refused(ps, n) == ps.take(n as int).filter_map(
            |p: ProcessView|
                if p.pid == 1 {
                    Some(
                        RefusalView {
                            pid: p.pid,
                            why: "PID 1: killing init takes the machine down with it"@,
                        },
                    )
                } else if p.protected {
                    Some(RefusalView { pid: p.pid, why: "this shell's own ancestry (the starred rows)"@ })
                } else if p.cmdline.len() == 0 {
                    Some(
                        RefusalView {
                            pid: p.pid,
                            why: "a kernel thread — not something a signal can reach"@,
                        },
                    )
                } else {
                    None
                },
        ),
    decreases n,
{
    if n > 0 {
        law_every_spared_process_has_its_reason(ps, (n - 1) as nat);
        lemma_filter_map_last(
            ps,
            |p: ProcessView|
                if p.pid == 1 {
                    Some(
                        RefusalView {
                            pid: p.pid,
                            why: "PID 1: killing init takes the machine down with it"@,
                        },
                    )
                } else if p.protected {
                    Some(RefusalView { pid: p.pid, why: "this shell's own ancestry (the starred rows)"@ })
                } else if p.cmdline.len() == 0 {
                    Some(
                        RefusalView {
                            pid: p.pid,
                            why: "a kernel thread — not something a signal can reach"@,
                        },
                    )
                } else {
                    None
                },
            n,
        );
    }
}

/// Why a process must not be signalled, if so.
fn refusal_of(p: &Process) -> (r: Option<&'static str>)
    ensures
        r.deep_view() == refusal(p@),
{
    if p.pid == 1 {
        Some("PID 1: killing init takes the machine down with it")
    } else if p.protected {
        Some("this shell's own ancestry (the starred rows)")
    } else if p.cmdline.as_str().is_empty() {
        Some("a kernel thread — not something a signal can reach")
    } else {
        None
    }
}

/// Split the matches into what may be signalled and what must not, each refusal carrying its
/// reason.
pub fn triage(targets: &Vec<Process>) -> (r: Triage)
    ensures
        r.killable@ == killable(targets.deep_view(), targets.deep_view().len()),
        r.refused.deep_view() == refused(targets.deep_view(), targets.deep_view().len()),
{
    let mut t: Triage = Triage { killable: Vec::new(), refused: Vec::new() };
    let mut i: usize = 0;
    assert(t.refused.deep_view() =~= seq![]);
    while i < targets.len()
        invariant
            i <= targets.len(),
            t.killable@ == killable(targets.deep_view(), i as nat),
            t.refused.deep_view() == refused(targets.deep_view(), i as nat),
        decreases targets.len() - i,
    {
        assert(targets.deep_view()[i as int] == targets@[i as int]@);
        let ghost before = t.refused.deep_view();
        match refusal_of(&targets[i]) {
            Some(why) => {
                t.refused.push(Refusal { pid: targets[i].pid, why });
                assert(t.refused.deep_view() =~= refused(targets.deep_view(), (i + 1) as nat));
            },
            None => {
                t.killable.push(targets[i].pid);
            },
        }
        i += 1;
    }
    assert(targets.deep_view().len() == targets@.len());
    t
}

/// A process is signalled or spared, never both and never neither.
pub proof fn law_triage_covers_every_target(ps: Seq<ProcessView>, n: nat)
    ensures
        killable(ps, n).len() + refused(ps, n).len() == n,
    decreases n,
{
    if n > 0 {
        law_triage_covers_every_target(ps, (n - 1) as nat);
    }
}

/// The matches among the first `n` processes.
pub open spec fn matches_in(rel: Seq<ProcessView>, n: nat) -> Seq<ProcessView>
    decreases n,
{
    if n == 0 {
        seq![]
    } else if rel[n - 1].relation == Relation::Match {
        matches_in(rel, (n - 1) as nat).push(rel[n - 1])
    } else {
        matches_in(rel, (n - 1) as nat)
    }
}

/// Every match is a target, in order, and no process is that only belongs to one.
pub proof fn law_every_match_is_a_target(rel: Seq<ProcessView>, n: nat)
    requires
        n <= rel.len(),
    ensures
        matches_in(rel, n) == rel.take(n as int).filter(
            |p: ProcessView| p.relation == Relation::Match,
        ),
    decreases n,
{
    if n == 0 {
        reveal(Seq::filter);
    } else {
        law_every_match_is_a_target(rel, (n - 1) as nat);
        lemma_filter_last(
            rel,
            |p: ProcessView| p.relation == Relation::Match,
            n,
        );
    }
}

/// How many of the first `n` processes go down with a match.
pub open spec fn heirs_in(rel: Seq<ProcessView>, n: nat) -> nat
    decreases n,
{
    if n == 0 {
        0
    } else {
        heirs_in(rel, (n - 1) as nat) + if rel[n - 1].relation == Relation::Descendant {
            1nat
        } else {
            0nat
        }
    }
}

/// Every process below a match is counted among those that go with it, once.
pub proof fn law_every_descendant_is_counted(rel: Seq<ProcessView>, n: nat)
    requires
        n <= rel.len(),
    ensures
        heirs_in(rel, n) == rel.take(n as int).filter(
            |p: ProcessView| p.relation == Relation::Descendant,
        ).len(),
    decreases n,
{
    if n == 0 {
        reveal(Seq::filter);
    } else {
        law_every_descendant_is_counted(rel, (n - 1) as nat);
        lemma_filter_last(rel, |p: ProcessView| p.relation == Relation::Descendant, n);
    }
}

/// The matches.
fn matches_of(rel: &Vec<Process>) -> (r: Vec<Process>)
    ensures
        r.deep_view() == matches_in(rel.deep_view(), rel.deep_view().len()),
{
    let mut out: Vec<Process> = Vec::new();
    let mut i: usize = 0;
    assert(out.deep_view() =~= seq![]);
    while i < rel.len()
        invariant
            i <= rel.len(),
            out.deep_view() == matches_in(rel.deep_view(), i as nat),
        decreases rel.len() - i,
    {
        assert(rel.deep_view()[i as int] == rel@[i as int]@);
        let ghost before = out.deep_view();
        if rel[i].relation == Relation::Match {
            let p: Process = crate::processes::tree::copy_process(&rel[i]);
            let ghost pv = p@;
            out.push(p);
            assert(out.deep_view() =~= before.push(pv));
        }
        i += 1;
    }
    assert(rel.deep_view().len() == rel@.len());
    out
}

/// How many processes go down with a match.
fn heirs_of(rel: &Vec<Process>) -> (r: usize)
    ensures
        r == heirs_in(rel.deep_view(), rel.deep_view().len()),
{
    let mut n: usize = 0;
    let mut i: usize = 0;
    while i < rel.len()
        invariant
            i <= rel.len(),
            n <= i,
            n == heirs_in(rel.deep_view(), i as nat),
        decreases rel.len() - i,
    {
        assert(rel.deep_view()[i as int] == rel@[i as int]@);
        if rel[i].relation == Relation::Descendant {
            n += 1;
        }
        i += 1;
    }
    assert(rel.deep_view().len() == rel@.len());
    n
}

// --- the opening ----------------------------------------------------------------------------

/// What a termination begins with.
pub enum KillStep {
    /// Nothing will be signalled; the text says why.
    Stop(String),
    /// Ask this, and signal the targets on a yes.
    Ask { question: String, targets: Vec<u32> },
    /// Already confirmed: say this, and signal the targets.
    Go { announcement: String, targets: Vec<u32> },
}

/// What a termination begins with, by what it says.
pub enum KillStepView {
    Stop(Seq<char>),
    Ask { question: Seq<char>, targets: Seq<u32> },
    Go { announcement: Seq<char>, targets: Seq<u32> },
}

impl View for KillStep {
    type V = KillStepView;

    open spec fn view(&self) -> KillStepView {
        match self {
            KillStep::Stop(s) => KillStepView::Stop(s@),
            KillStep::Ask { question, targets } => KillStepView::Ask {
                question: question@,
                targets: targets@,
            },
            KillStep::Go { announcement, targets } => KillStepView::Go {
                announcement: announcement@,
                targets: targets@,
            },
        }
    }
}

/// The start of a termination: what is said of the spared, and the first step.
pub struct KillOpening {
    pub notices: Vec<String>,
    pub step: KillStep,
}

/// What is said of the spared.
pub open spec fn sparing(rs: Seq<RefusalView>, notice: Paint) -> Seq<Seq<char>> {
    rs.map_values(
        |r: RefusalView|
            painted(notice, "murder: sparing PID '"@ + decimal(r.pid as nat) + "' — "@ + r.why),
    )
}

/// What goes down with the targets.
pub open spec fn blast(heirs: nat) -> Seq<char> {
    if heirs == 0 {
        seq![]
    } else if heirs == 1 {
        " (the 1 descendant beneath them goes too)"@
    } else {
        " (the "@ + decimal(heirs) + " descendants beneath them go too)"@
    }
}

/// How many trees several targets span.
pub open spec fn span(targets: nat, trees: nat) -> Seq<char> {
    if targets <= 1 {
        seq![]
    } else {
        " across "@ + counted(trees, "process-tree"@, "process-trees"@)
    }
}

/// The first step of a termination: refused where nothing is left or nobody can be asked, else
/// asked for, or announced where the form was the confirmation.
pub open spec fn first_step(rel: Seq<ProcessView>, interactive: bool, ask: bool) -> KillStepView {
    let targets = killable(matches_in(rel, rel.len()), matches_in(rel, rel.len()).len());
    let scope = counted(targets.len(), "process"@, "processes"@) + span(
        targets.len(),
        free_roots(rel, targets, targets.len()),
    ) + blast(heirs_in(rel, rel.len()));
    if targets.len() == 0 {
        KillStepView::Stop("murder: nothing left to signal"@)
    } else if !interactive {
        KillStepView::Stop("murder: refusing to kill non-interactively — run it from a terminal"@)
    } else if ask {
        KillStepView::Ask { question: "Terminate "@ + scope + "?"@, targets }
    } else {
        KillStepView::Go { announcement: "murder: as chosen — "@ + scope, targets }
    }
}

/// What is signalled, asked for or announced, is every match that is not spared, in order, and
/// nothing else; and nothing at all where nobody can be asked.
pub proof fn law_the_signal_reaches_every_match_that_is_not_spared(
    rel: Seq<ProcessView>,
    interactive: bool,
    ask: bool,
)
    ensures
        ({
            let targets = rel.filter(|p: ProcessView| p.relation == Relation::Match).filter_map(
                |p: ProcessView|
                    if p.pid != 1 && !p.protected && p.cmdline.len() > 0 {
                        Some(p.pid as u32)
                    } else {
                        None
                    },
            );
            match first_step(rel, interactive, ask) {
                KillStepView::Stop(_) => targets.len() == 0 || !interactive,
                KillStepView::Ask { question, targets: t } => t == targets && t.len() > 0
                    && interactive && ask,
                KillStepView::Go { announcement, targets: t } => t == targets && t.len() > 0
                    && interactive && !ask,
            }
        }),
{
    let matches = matches_in(rel, rel.len());
    law_every_match_is_a_target(rel, rel.len());
    law_all_but_the_spared_are_signalled(matches, matches.len());
    assert(rel.take(rel.len() as int) =~= rel);
    assert(matches.take(matches.len() as int) =~= matches);
}

/// What goes down with the targets.
fn blast_text(heirs: usize) -> (r: String)
    ensures
        r@ == blast(heirs as nat),
{
    if heirs == 0 {
        String::new()
    } else if heirs == 1 {
        " (the 1 descendant beneath them goes too)".to_owned()
    } else {
        let mut out: String = " (the ".to_owned();
        push_decimal(&mut out, heirs as u128);
        out.append(" descendants beneath them go too)");
        out
    }
}

/// How many trees several targets span.
fn span_text(rel: &Vec<Process>, targets: &Vec<u32>) -> (r: String)
    ensures
        r@ == span(targets@.len(), free_roots(rel.deep_view(), targets@, targets@.len())),
{
    if targets.len() <= 1 {
        String::new()
    } else {
        let mut out: String = " across ".to_owned();
        out.append(count(tree_count(rel, targets), "process-tree", "process-trees").as_str());
        out
    }
}

/// What is said of the spared.
fn sparing_lines(rs: &Vec<Refusal>, notice: &Paint) -> (r: Vec<String>)
    ensures
        r.deep_view() == sparing(rs.deep_view(), *notice),
{
    let mut out: Vec<String> = Vec::new();
    let mut i: usize = 0;
    while i < rs.len()
        invariant
            i <= rs.len(),
            out.len() == i,
            forall|j: int|
                0 <= j < i ==> (#[trigger] out@[j])@ == painted(
                    *notice,
                    "murder: sparing PID '"@ + decimal(rs@[j].pid as nat) + "' — "@ + rs@[j].why@,
                ),
        decreases rs.len() - i,
    {
        let mut line: String = "murder: sparing PID '".to_owned();
        push_decimal(&mut line, rs[i].pid as u128);
        line.append("' — ");
        line.append(rs[i].why);
        out.push(notice.paint(line.as_str()));
        i += 1;
    }
    assert(out.deep_view() =~= sparing(rs.deep_view(), *notice));
    out
}

/// The start of a termination. The matches get the signal, unless they are spared; refusals are
/// said aloud. Without a terminal there is nobody to ask, and a pipe must not answer for a
/// person.
pub fn kill_opening(rel: &Vec<Process>, interactive: bool, ask: bool, notice: &Paint) -> (r: KillOpening)
    ensures
        r.step@ == first_step(rel.deep_view(), interactive, ask),
        r.notices.deep_view() == sparing(
            refused(
                matches_in(rel.deep_view(), rel.deep_view().len()),
                matches_in(rel.deep_view(), rel.deep_view().len()).len(),
            ),
            *notice,
        ),
{
    let t: Triage = triage(&matches_of(rel));
    let notices: Vec<String> = sparing_lines(&t.refused, notice);
    let targets: Vec<u32> = t.killable;
    if targets.len() == 0 {
        return KillOpening { notices, step: KillStep::Stop("murder: nothing left to signal".to_owned()) };
    }
    if !interactive {
        return KillOpening {
            notices,
            step: KillStep::Stop(
                "murder: refusing to kill non-interactively — run it from a terminal".to_owned(),
            ),
        };
    }
    let mut scope: String = count(targets.len(), "process", "processes");
    scope.append(span_text(rel, &targets).as_str());
    scope.append(blast_text(heirs_of(rel)).as_str());
    if ask {
        let mut question: String = "Terminate ".to_owned();
        question.append(scope.as_str());
        question.append("?");
        KillOpening { notices, step: KillStep::Ask { question, targets } }
    } else {
        let mut announcement: String = "murder: as chosen — ".to_owned();
        announcement.append(scope.as_str());
        KillOpening { notices, step: KillStep::Go { announcement, targets } }
    }
}

/// What is said of a signal that the system refused.
pub open spec fn refused_signal(pid: nat, error: Seq<char>, denied: bool) -> Seq<char> {
    "murder: "@ + decimal(pid) + " refused the signal: "@ + error + if denied {
        " (not yours — sudo?)"@
    } else {
        ""@
    }
}

/// What is said of a signal that the system refused.
pub fn refused_signal_text(pid: u32, error: &str, denied: bool, problematic: &Paint) -> (r: String)
    ensures
        r@ == painted(*problematic, refused_signal(pid as nat, error@, denied)),
{
    let mut line: String = "murder: ".to_owned();
    push_decimal(&mut line, pid as u128);
    line.append(" refused the signal: ");
    line.append(error);
    line.append(
        if denied {
            " (not yours — sudo?)"
        } else {
            ""
        },
    );
    problematic.paint(line.as_str())
}

// --- the ladder -----------------------------------------------------------------------------

/// How many times the targets are looked at before SIGKILL is due.
pub const GRACE_POLLS: u32 = 20;

/// How many milliseconds lie between two looks.
pub const GRACE_POLL_MILLIS: u64 = 100;

/// The looks before SIGKILL span two seconds.
pub proof fn law_the_grace_period_is_two_seconds()
    ensures
        GRACE_POLLS * GRACE_POLL_MILLIS == 2000,
{
}

/// What is due after a look at the targets.
#[derive(Clone, Copy, PartialEq, Eq, Structural, Debug)]
pub enum Rung {
    /// All are gone: report.
    Done,
    /// Some are left: wait and look again.
    Wait,
    /// The grace period is over: SIGKILL what is left, and report.
    Kill,
}

/// The targets that took SIGTERM and are still there.
pub struct Ladder {
    pub asked: usize,
    pub waiting: Vec<u32>,
    pub polls: u32,
}

/// Of the first `n` targets those still alive.
pub open spec fn survivors(waiting: Seq<u32>, alive: Seq<bool>, n: nat) -> Seq<u32>
    decreases n,
{
    if n == 0 {
        seq![]
    } else if alive[n - 1] {
        survivors(waiting, alive, (n - 1) as nat).push(waiting[n - 1])
    } else {
        survivors(waiting, alive, (n - 1) as nat)
    }
}

proof fn lemma_survivors_len(waiting: Seq<u32>, alive: Seq<bool>, n: nat)
    ensures
        survivors(waiting, alive, n).len() <= n,
    decreases n,
{
    if n > 0 {
        lemma_survivors_len(waiting, alive, (n - 1) as nat);
    }
}

/// PIDs with commas between.
pub open spec fn listed_pids(pids: Seq<u32>) -> Seq<Seq<char>> {
    pids.map_values(|p: u32| decimal(p as nat))
}

/// Every PID is named, in its place.
pub proof fn law_every_pid_is_named(pids: Seq<u32>, i: int)
    requires
        0 <= i < pids.len(),
    ensures
        listed_pids(pids).len() == pids.len(),
        listed_pids(pids)[i] == decimal(pids[i] as nat),
{
}

impl Ladder {
    /// No more are left than took the signal, and the looks are counted.
    pub open spec fn wf(self) -> bool {
        self.waiting@.len() <= self.asked && self.polls <= GRACE_POLLS
    }

    /// The targets just after SIGTERM.
    pub fn new(signalled: Vec<u32>) -> (r: Ladder)
        ensures
            r.wf(),
            r.asked == signalled@.len(),
            r.waiting@ == signalled@,
            r.polls == 0,
    {
        Ladder { asked: signalled.len(), waiting: signalled, polls: 0 }
    }

    /// A look at the targets: `alive` says of each whether it is still there. A prompt exit ends
    /// the wait early; after twenty waits the hammer is due.
    pub fn poll(&mut self, alive: &Vec<bool>) -> (r: Rung)
        requires
            old(self).wf(),
            alive@.len() == old(self).waiting@.len(),
        ensures
            final(self).wf(),
            final(self).asked == old(self).asked,
            final(self).waiting@ == survivors(old(self).waiting@, alive@, alive@.len()),
            r == if final(self).waiting@.len() == 0 {
                Rung::Done
            } else if old(self).polls < GRACE_POLLS {
                Rung::Wait
            } else {
                Rung::Kill
            },
            final(self).polls == if r == Rung::Wait {
                old(self).polls + 1
            } else {
                old(self).polls as int
            },
    {
        let mut left: Vec<u32> = Vec::new();
        let mut i: usize = 0;
        while i < alive.len()
            invariant
                i <= alive.len(),
                alive@.len() == self.waiting@.len(),
                *self == *old(self),
                left@ == survivors(self.waiting@, alive@, i as nat),
            decreases alive.len() - i,
        {
            if alive[i] {
                left.push(self.waiting[i]);
            }
            i += 1;
        }
        proof {
            lemma_survivors_len(self.waiting@, alive@, alive@.len());
        }
        self.waiting = left;
        if self.waiting.len() == 0 {
            Rung::Done
        } else if self.polls < GRACE_POLLS {
            self.polls = self.polls + 1;
            Rung::Wait
        } else {
            Rung::Kill
        }
    }

    /// What is said at the end.
    pub open spec fn report_text(self, notice: Paint) -> Seq<char> {
        if self.waiting@.len() == 0 {
            "murder: "@ + counted(self.asked as nat, "process"@, "processes"@) + " terminated"@
        } else {
            painted(
                notice,
                "murder: "@ + decimal((self.asked - self.waiting@.len()) as nat)
                    + " went on SIGTERM; "@ + decimal(self.waiting@.len())
                    + " ignored it and got SIGKILL: "@ + join(listed_pids(self.waiting@), ", "@),
            )
        }
    }

    /// What is said at the end. Those that ignored SIGTERM are named: it is a fact about a program
    /// worth knowing.
    pub fn report(&self, notice: &Paint) -> (r: String)
        requires
            self.wf(),
        ensures
            r@ == self.report_text(*notice),
    {
        if self.waiting.len() == 0 {
            let mut out: String = "murder: ".to_owned();
            out.append(count(self.asked, "process", "processes").as_str());
            out.append(" terminated");
            return out;
        }
        let mut pids: Vec<String> = Vec::new();
        let mut i: usize = 0;
        while i < self.waiting.len()
            invariant
                i <= self.waiting.len(),
                pids.len() == i,
                forall|j: int|
                    0 <= j < i ==> (#[trigger] pids@[j])@ == decimal(self.waiting@[j] as nat),
            decreases self.waiting.len() - i,
        {
            pids.push(crate::text::decimal_of(self.waiting[i] as u64));
            i += 1;
        }
        assert(pids.deep_view() =~= listed_pids(self.waiting@));
        let mut line: String = "murder: ".to_owned();
        push_decimal(&mut line, (self.asked - self.waiting.len()) as u128);
        line.append(" went on SIGTERM; ");
        push_decimal(&mut line, self.waiting.len() as u128);
        line.append(" ignored it and got SIGKILL: ");
        line.append(joined(&pids, ", ").as_str());
        notice.paint(line.as_str())
    }
}

/// A look drops exactly the targets that are gone: every one that was waiting and is alive waits
/// on, so that the hammer reaches it, in the order in which they waited.
pub proof fn law_every_living_target_waits_on(waiting: Seq<u32>, alive: Seq<bool>, n: nat)
    requires
        n <= waiting.len(),
        waiting.len() == alive.len(),
    ensures
        survivors(waiting, alive, n) == waiting.zip_with(alive).take(n as int).filter_map(
            |p: (u32, bool)|
                if p.1 {
                    Some(p.0)
                } else {
                    None
                },
        ),
        survivors(waiting, alive, n).len() == alive.take(n as int).filter(|a: bool| a).len(),
        forall|j: int| 0 <= j < n && #[trigger] alive[j] ==> survivors(waiting, alive, n).contains(waiting[j]),
    decreases n,
{
    let all = survivors(waiting, alive, n);
    if n == 0 {
        reveal(Seq::filter);
    } else {
        law_every_living_target_waits_on(waiting, alive, (n - 1) as nat);
        let before = survivors(waiting, alive, (n - 1) as nat);
        lemma_filter_map_last(
            waiting.zip_with(alive),
            |p: (u32, bool)|
                if p.1 {
                    Some(p.0)
                } else {
                    None
                },
            n,
        );
        lemma_filter_last(alive, |a: bool| a, n);
        assert forall|j: int| 0 <= j < n && #[trigger] alive[j] implies all.contains(waiting[j]) by {
            if j < n - 1 {
                assert(before.contains(waiting[j]));
                let k = choose|k: int| 0 <= k < before.len() && before[k] == waiting[j];
                assert(all[k] == waiting[j]);
            } else {
                assert(all.last() == waiting[j]);
            }
        }
    }
}

/// The hammer only ever reaches a target that took SIGTERM and is still alive.
pub proof fn law_only_the_living_are_left(waiting: Seq<u32>, alive: Seq<bool>, n: nat, i: int)
    requires
        n <= waiting.len(),
        n <= alive.len(),
        0 <= i < survivors(waiting, alive, n).len(),
    ensures
        exists|j: int|
            0 <= j < n && #[trigger] alive[j] && waiting[j] == survivors(waiting, alive, n)[i],
    decreases n,
{
    if n > 0 {
        let before = survivors(waiting, alive, (n - 1) as nat);
        if i < before.len() {
            law_only_the_living_are_left(waiting, alive, (n - 1) as nat, i);
            let j = choose|j: int| 0 <= j < n - 1 && #[trigger] alive[j] && waiting[j] == before[i];
            assert(alive[j]);
        } else {
            assert(alive[n - 1]);
        }
    }
}

// --- windows --------------------------------------------------------------------------------

/// What is said of a window that is spared.
pub open spec fn spared_window(pid: int, notice: Paint) -> Seq<char> {
    painted(
        notice,
        "murder: sparing "@ + decimal(pid as nat) + "'s window — this shell's own ancestry"@,
    )
}

/// What closing windows comes to over the first `n` processes: the windows to close, how many
/// applications own them, and what is said of the spared.
pub struct CloseView {
    pub targets: Seq<OwnedWindowView>,
    pub apps: nat,
    pub notices: Seq<Seq<char>>,
}

/// The windows of the matches, but for those of this shell's own ancestry: closing the terminal
/// this runs in is still self-harm, just politer.
pub open spec fn close_plan(
    rel: Seq<ProcessView>,
    owned: Seq<OwnedWindowsView>,
    n: nat,
    notice: Paint,
) -> CloseView
    decreases n,
{
    if n == 0 {
        CloseView { targets: seq![], apps: 0, notices: seq![] }
    } else {
        let before = close_plan(rel, owned, (n - 1) as nat, notice);
        let p = rel[n - 1];
        match owner_at(owned, p.pid, 0) {
            Some(k) => if p.relation != Relation::Match {
                before
            } else if p.protected {
                CloseView { notices: before.notices.push(spared_window(p.pid, notice)), ..before }
            } else {
                CloseView {
                    targets: before.targets + owned[k].windows,
                    apps: before.apps + 1,
                    ..before
                }
            },
            None => before,
        }
    }
}

/// The windows to close are all those of every match that owns some and is not of this shell's
/// own ancestry, in order; each such match is one application, and each that is spared is named.
pub proof fn law_every_window_of_a_match_is_a_target(
    rel: Seq<ProcessView>,
    owned: Seq<OwnedWindowsView>,
    n: nat,
    notice: Paint,
)
    requires
        n <= rel.len(),
    ensures
        close_plan(rel, owned, n, notice).targets == rel.take(n as int).flat_map(
            |p: ProcessView|
                if p.relation == Relation::Match && !p.protected && owner_at(owned, p.pid, 0) is Some {
                    owned[owner_at(owned, p.pid, 0)->0].windows
                } else {
                    seq![]
                },
        ),
        close_plan(rel, owned, n, notice).apps == rel.take(n as int).filter(
            |p: ProcessView|
                p.relation == Relation::Match && !p.protected && owner_at(owned, p.pid, 0) is Some,
        ).len(),
        close_plan(rel, owned, n, notice).notices == rel.take(n as int).filter_map(
            |p: ProcessView|
                if p.relation == Relation::Match && p.protected && owner_at(owned, p.pid, 0) is Some {
                    Some(
                        painted(
                            notice,
                            "murder: sparing "@ + decimal(p.pid as nat)
                                + "'s window — this shell's own ancestry"@,
                        ),
                    )
                } else {
                    None
                },
        ),
    decreases n,
{
    if n == 0 {
        reveal(Seq::filter);
    } else {
        law_every_window_of_a_match_is_a_target(rel, owned, (n - 1) as nat, notice);
        let before = close_plan(rel, owned, (n - 1) as nat, notice);
        assert(before.targets + seq![] =~= before.targets);
        lemma_flat_map_last(
            rel,
            |p: ProcessView|
                if p.relation == Relation::Match && !p.protected && owner_at(owned, p.pid, 0) is Some {
                    owned[owner_at(owned, p.pid, 0)->0].windows
                } else {
                    seq![]
                },
            n,
        );
        lemma_filter_last(
            rel,
            |p: ProcessView|
                p.relation == Relation::Match && !p.protected && owner_at(owned, p.pid, 0) is Some,
            n,
        );
        lemma_filter_map_last(
            rel,
            |p: ProcessView|
                if p.relation == Relation::Match && p.protected && owner_at(owned, p.pid, 0) is Some {
                    Some(
                        painted(
                            notice,
                            "murder: sparing "@ + decimal(p.pid as nat)
                                + "'s window — this shell's own ancestry"@,
                        ),
                    )
                } else {
                    None
                },
            n,
        );
    }
}

/// The start of closing windows.
pub struct CloseOpening {
    pub notices: Vec<String>,
    pub targets: Vec<OwnedWindow>,
    /// How many applications own the targets.
    pub apps: usize,
    /// Why nothing will be closed, if so.
    pub stop: Option<&'static str>,
}

/// Append copies of windows.
fn add_windows(out: &mut Vec<OwnedWindow>, more: &Vec<OwnedWindow>)
    ensures
        final(out).deep_view() == old(out).deep_view() + more.deep_view(),
{
    let ghost had = out.deep_view();
    let mut i: usize = 0;
    assert(had + more.deep_view().take(0) =~= had);
    while i < more.len()
        invariant
            i <= more.len(),
            out.deep_view() == had + more.deep_view().take(i as int),
        decreases more.len() - i,
    {
        let ghost before = out.deep_view();
        assert(more.deep_view()[i as int] == more@[i as int]@);
        out.push(OwnedWindow { id: more[i].id, title: more[i].title.clone() });
        assert(out.deep_view() =~= before.push(more@[i as int]@));
        assert(out.deep_view() =~= had + more.deep_view().take(i + 1));
        i += 1;
    }
    assert(more.deep_view().take(i as int) =~= more.deep_view());
}

/// The start of closing the matched windows: only windows of processes that survived the whole
/// hunt, and none of this shell's own ancestry.
pub fn close_opening(
    rel: &Vec<Process>,
    owned: &Vec<OwnedWindows>,
    interactive: bool,
    notice: &Paint,
) -> (r: CloseOpening)
    ensures
        ({
            let plan = close_plan(rel.deep_view(), owned.deep_view(), rel.deep_view().len(), *notice);
            &&& r.targets.deep_view() == plan.targets
            &&& r.apps == plan.apps
            &&& r.notices.deep_view() == plan.notices
            &&& r.stop.deep_view() == if plan.targets.len() == 0 {
                Some("murder: nothing left to close"@)
            } else if !interactive {
                Some("murder: refusing to close windows non-interactively — run it from a terminal"@)
            } else {
                None
            }
        }),
{
    let mut targets: Vec<OwnedWindow> = Vec::new();
    let mut notices: Vec<String> = Vec::new();
    let mut apps: usize = 0;
    let mut i: usize = 0;
    assert(targets.deep_view() =~= seq![]);
    assert(notices.deep_view() =~= seq![]);
    while i < rel.len()
        invariant
            i <= rel.len(),
            apps <= i,
            targets.deep_view() == close_plan(
                rel.deep_view(),
                owned.deep_view(),
                i as nat,
                *notice,
            ).targets,
            notices.deep_view() == close_plan(
                rel.deep_view(),
                owned.deep_view(),
                i as nat,
                *notice,
            ).notices,
            apps == close_plan(rel.deep_view(), owned.deep_view(), i as nat, *notice).apps,
        decreases rel.len() - i,
    {
        assert(rel.deep_view()[i as int] == rel@[i as int]@);
        let p: &Process = &rel[i];
        if let Some(k) = find_owner(owned, p.pid) {
            assert(owned.deep_view()[k as int] == owned@[k as int]@);
            if p.relation == Relation::Match {
                if p.protected {
                    let mut line: String = "murder: sparing ".to_owned();
                    push_decimal(&mut line, p.pid as u128);
                    line.append("'s window — this shell's own ancestry");
                    push_text(&mut notices, notice.paint(line.as_str()).as_str());
                } else {
                    add_windows(&mut targets, &owned[k].windows);
                    apps += 1;
                }
            }
        }
        i += 1;
    }
    assert(rel.deep_view().len() == rel@.len());
    assert(targets.deep_view().len() == targets@.len());
    let stop: Option<&'static str> = if targets.len() == 0 {
        Some("murder: nothing left to close")
    } else if !interactive {
        Some("murder: refusing to close windows non-interactively — run it from a terminal")
    } else {
        None
    };
    CloseOpening { notices, targets, apps, stop }
}

/// The lines that windows are offered as.
pub open spec fn window_options(targets: Seq<OwnedWindowView>) -> Seq<Seq<char>> {
    targets.map_values(|t: OwnedWindowView| decimal(t.id as nat) + " · "@ + t.title)
}

/// Every window is offered, in its place, by its number and title.
pub proof fn law_every_window_is_offered(targets: Seq<OwnedWindowView>, i: int)
    requires
        0 <= i < targets.len(),
    ensures
        window_options(targets).len() == targets.len(),
        window_options(targets)[i] == decimal(targets[i].id as nat) + " · "@ + targets[i].title,
        window_ids(targets).len() == targets.len(),
        window_ids(targets)[i] == targets[i].id,
{
}

/// The lines that windows are offered as: the number leads.
pub fn window_lines(targets: &Vec<OwnedWindow>) -> (r: Vec<String>)
    ensures
        r.deep_view() == window_options(targets.deep_view()),
{
    let mut out: Vec<String> = Vec::new();
    let mut i: usize = 0;
    while i < targets.len()
        invariant
            i <= targets.len(),
            out.len() == i,
            forall|j: int|
                0 <= j < i ==> (#[trigger] out@[j])@ == decimal(targets@[j].id as nat) + " · "@
                    + targets@[j].title@,
        decreases targets.len() - i,
    {
        let mut line: String = String::new();
        push_decimal(&mut line, targets[i].id as u128);
        assert(line@ =~= decimal(targets@[i as int].id as nat));
        line.append(" · ");
        line.append(targets[i].title.as_str());
        out.push(line);
        i += 1;
    }
    assert(out.deep_view() =~= window_options(targets.deep_view()));
    out
}

/// Of the first `n` windows those whose number is among some.
pub open spec fn windows_among(targets: Seq<OwnedWindowView>, ids: Seq<u32>, n: nat) -> Seq<
    OwnedWindowView,
>
    decreases n,
{
    if n == 0 {
        seq![]
    } else if is_matched(ids, targets[n - 1].id) {
        windows_among(targets, ids, (n - 1) as nat).push(targets[n - 1])
    } else {
        windows_among(targets, ids, (n - 1) as nat)
    }
}

/// Every window whose number was ticked is chosen, in order, and no other.
pub proof fn law_every_ticked_window_is_chosen(targets: Seq<OwnedWindowView>, ids: Seq<u32>, n: nat)
    requires
        n <= targets.len(),
    ensures
        windows_among(targets, ids, n) == targets.take(n as int).filter(
            |t: OwnedWindowView|
                exists|m: int| 0 <= m < ids.len() && #[trigger] ids[m] as int == t.id,
        ),
    decreases n,
{
    if n == 0 {
        reveal(Seq::filter);
    } else {
        law_every_ticked_window_is_chosen(targets, ids, (n - 1) as nat);
        lemma_filter_last(
            targets,
            |t: OwnedWindowView|
                exists|m: int| 0 <= m < ids.len() && #[trigger] ids[m] as int == t.id,
            n,
        );
    }
}

/// The windows whose number is among some.
pub fn chosen_windows(targets: &Vec<OwnedWindow>, ids: &Vec<u32>) -> (r: Vec<OwnedWindow>)
    ensures
        r.deep_view() == windows_among(targets.deep_view(), ids@, targets.deep_view().len()),
{
    let mut out: Vec<OwnedWindow> = Vec::new();
    let mut i: usize = 0;
    assert(out.deep_view() =~= seq![]);
    while i < targets.len()
        invariant
            i <= targets.len(),
            out.deep_view() == windows_among(targets.deep_view(), ids@, i as nat),
        decreases targets.len() - i,
    {
        assert(targets.deep_view()[i as int] == targets@[i as int]@);
        let ghost before = out.deep_view();
        if crate::processes::tree::among(ids, targets[i].id) {
            out.push(OwnedWindow { id: targets[i].id, title: targets[i].title.clone() });
            assert(out.deep_view() =~= before.push(targets@[i as int]@));
        }
        i += 1;
    }
    assert(targets.deep_view().len() == targets@.len());
    out
}

/// The title above the windows.
pub const CLOSE_TITLE: &'static str = "murder — tick the windows to close";

/// The form that offers windows.
pub fn close_form(targets: &Vec<OwnedWindow>) -> (r: Form)
    ensures
        r.title@ == CLOSE_TITLE@,
        !r.aligned,
        !r.mirrored,
        r.items.deep_view() == seq![
            FormItemView::Checkboxes {
                label: seq![],
                options: window_options(targets.deep_view()),
            },
        ],
{
    let options: Vec<String> = window_lines(targets);
    let mut items: Vec<FormItem> = Vec::new();
    items.push(FormItem::Checkboxes { label: String::new(), options });
    assert(items.deep_view() =~= seq![
        FormItemView::Checkboxes { label: seq![], options: window_options(targets.deep_view()) },
    ]);
    Form { title: CLOSE_TITLE, aligned: false, mirrored: false, items }
}

/// The windows that a form chose, or what is said where it chose none.
pub fn ticked_windows(end: &FormEnd, groups: &Vec<TickedGroup>, targets: &Vec<OwnedWindow>) -> (r:
    Result<Vec<OwnedWindow>, String>)
    ensures
        match picked_in(*end, groups@) {
            Err(why) => r matches Err(said) && said@ == why,
            Ok(ids) => if windows_among(targets.deep_view(), ids, targets.deep_view().len()).len()
                == 0 {
                r matches Err(said) && said@ == "murder: nothing ticked — nothing to close"@
            } else {
                r matches Ok(chosen) && chosen.deep_view() == windows_among(
                    targets.deep_view(),
                    ids,
                    targets.deep_view().len(),
                )
            },
        },
{
    match submitted(end, groups) {
        Ok(ids) => {
            let chosen: Vec<OwnedWindow> = chosen_windows(targets, &ids);
            assert(chosen.deep_view().len() == chosen@.len());
            if chosen.len() == 0 {
                Err("murder: nothing ticked — nothing to close".to_owned())
            } else {
                Ok(chosen)
            }
        },
        Err(said) => Err(said),
    }
}

/// What is asked before windows are closed.
pub open spec fn close_question_text(windows: nat, apps: nat) -> Seq<char> {
    "Close "@ + counted(windows, "window"@, "windows"@) + "? The owning "@ + (if apps == 1 {
        "app keeps"@
    } else {
        "apps keep"@
    }) + " running, other windows included"@
}

/// What is asked before windows are closed.
pub fn close_question(windows: usize, apps: usize) -> (r: String)
    ensures
        r@ == close_question_text(windows as nat, apps as nat),
{
    let mut out: String = "Close ".to_owned();
    out.append(count(windows, "window", "windows").as_str());
    out.append("? The owning ");
    out.append(
        if apps == 1 {
            "app keeps"
        } else {
            "apps keep"
        },
    );
    out.append(" running, other windows included");
    out
}

/// The numbers of windows.
pub open spec fn window_ids(targets: Seq<OwnedWindowView>) -> Seq<int> {
    targets.map_values(|t: OwnedWindowView| t.id)
}

/// What is said where the last question is not answered with a yes.
pub const CLOSE_ABORTED: &'static str = "murder: aborted — nothing closed";

/// The numbers of windows, in order.
fn ids_of(targets: &Vec<OwnedWindow>) -> (r: Vec<u32>)
    ensures
        as_ints(r@) == window_ids(targets.deep_view()),
{
    let mut ids: Vec<u32> = Vec::new();
    let mut i: usize = 0;
    while i < targets.len()
        invariant
            i <= targets.len(),
            ids.len() == i,
            forall|j: int| 0 <= j < i ==> #[trigger] ids@[j] == targets@[j].id,
        decreases targets.len() - i,
    {
        ids.push(targets[i].id);
        i += 1;
    }
    assert(as_ints(ids@) =~= window_ids(targets.deep_view()));
    ids
}

/// The windows that are asked to close, by the answer to the last question: all of the targets, or
/// none.
pub fn close_confirmed(targets: &Vec<OwnedWindow>, agreed: bool) -> (r: Vec<u32>)
    ensures
        as_ints(r@) == if agreed {
            window_ids(targets.deep_view())
        } else {
            seq![]
        },
{
    if agreed {
        ids_of(targets)
    } else {
        let none: Vec<u32> = Vec::new();
        assert(as_ints(none@) =~= seq![]);
        none
    }
}

/// A window is closed only for a match that is not of this shell's own ancestry, and that owns it.
pub proof fn law_no_window_of_the_ancestry_is_closed(
    rel: Seq<ProcessView>,
    owned: Seq<OwnedWindowsView>,
    n: nat,
    notice: Paint,
    t: int,
)
    requires
        n <= rel.len(),
        0 <= t < close_plan(rel, owned, n, notice).targets.len(),
    ensures
        exists|i: int|
            0 <= i < n && (#[trigger] rel[i]).relation == Relation::Match && !rel[i].protected
                && owner_at(owned, rel[i].pid, 0) is Some && owned[owner_at(
                owned,
                rel[i].pid,
                0,
            )->0].windows.contains(close_plan(rel, owned, n, notice).targets[t]),
    decreases n,
{
    let all = close_plan(rel, owned, n, notice).targets;
    let before = close_plan(rel, owned, (n - 1) as nat, notice).targets;
    if t < before.len() {
        law_no_window_of_the_ancestry_is_closed(rel, owned, (n - 1) as nat, notice, t);
        assert(all[t] == before[t]);
        let i = choose|i: int|
            0 <= i < n - 1 && (#[trigger] rel[i]).relation == Relation::Match && !rel[i].protected
                && owner_at(owned, rel[i].pid, 0) is Some && owned[owner_at(
                owned,
                rel[i].pid,
                0,
            )->0].windows.contains(before[t]);
        assert(rel[i].relation == Relation::Match);
    } else {
        let k = owner_at(owned, rel[n - 1].pid, 0)->0;
        assert(all[t] == owned[k].windows[t - before.len()]);
        assert(owned[k].windows.contains(all[t]));
        assert(rel[n - 1].relation == Relation::Match);
    }
}

/// What is said where the windows cannot be asked to close.
pub open spec fn close_failure(why: Seq<char>, broken: Paint) -> Seq<char> {
    painted(broken, "murder: "@ + why)
}

/// What is said where the windows cannot be asked to close.
pub fn close_failed_text(why: &str, broken: &Paint) -> (r: String)
    ensures
        r@ == close_failure(why@, *broken),
{
    let mut line: String = "murder: ".to_owned();
    line.append(why);
    broken.paint(line.as_str())
}

/// Of the first `n` numbers those that are among some.
pub open spec fn ids_among(ids: Seq<u32>, still: Seq<u32>, n: nat) -> Seq<u32>
    decreases n,
{
    if n == 0 {
        seq![]
    } else if is_matched(still, ids[n - 1] as int) {
        ids_among(ids, still, (n - 1) as nat).push(ids[n - 1])
    } else {
        ids_among(ids, still, (n - 1) as nat)
    }
}

/// Every window that is still there is waited for, in order, and no other.
pub proof fn law_every_open_window_is_waited_for(ids: Seq<u32>, still: Seq<u32>, n: nat)
    requires
        n <= ids.len(),
    ensures
        ids_among(ids, still, n) == ids.take(n as int).filter(
            |id: u32|
                exists|m: int| 0 <= m < still.len() && #[trigger] still[m] as int == id as int,
        ),
    decreases n,
{
    if n == 0 {
        reveal(Seq::filter);
    } else {
        law_every_open_window_is_waited_for(ids, still, (n - 1) as nat);
        lemma_filter_last(
            ids,
            |id: u32|
                exists|m: int| 0 <= m < still.len() && #[trigger] still[m] as int == id as int,
            n,
        );
    }
}

proof fn lemma_ids_among_len(ids: Seq<u32>, still: Seq<u32>, n: nat)
    ensures
        ids_among(ids, still, n).len() <= n,
    decreases n,
{
    if n > 0 {
        lemma_ids_among_len(ids, still, (n - 1) as nat);
    }
}

/// The windows that were asked to close and are still there. There is no hammer on this ladder:
/// the only harder verb is against the whole application.
pub struct CloseWait {
    pub asked: usize,
    pub open: Vec<u32>,
    pub polls: u32,
}

impl CloseWait {
    /// No more are open than were asked, and the looks are counted.
    pub open spec fn wf(self) -> bool {
        self.open@.len() <= self.asked && self.polls <= GRACE_POLLS
    }

    /// The windows just after the request.
    pub fn new(targets: &Vec<OwnedWindow>) -> (r: CloseWait)
        ensures
            r.wf(),
            r.asked == targets.deep_view().len(),
            as_ints(r.open@) == window_ids(targets.deep_view()),
            r.polls == 0,
    {
        let open: Vec<u32> = ids_of(targets);
        assert(open@.len() == as_ints(open@).len());
        CloseWait { asked: targets.len(), open, polls: 0 }
    }

    /// A look at the windows: `still` holds those still open. Says whether to wait and look again.
    pub fn poll(&mut self, still: &Vec<u32>) -> (again: bool)
        requires
            old(self).wf(),
        ensures
            final(self).wf(),
            final(self).asked == old(self).asked,
            final(self).open@ == ids_among(old(self).open@, still@, old(self).open@.len()),
            again == (final(self).open@.len() > 0 && old(self).polls < GRACE_POLLS),
            final(self).polls == if again {
                old(self).polls + 1
            } else {
                old(self).polls as int
            },
    {
        let mut left: Vec<u32> = Vec::new();
        let mut i: usize = 0;
        while i < self.open.len()
            invariant
                i <= self.open.len(),
                *self == *old(self),
                left@ == ids_among(self.open@, still@, i as nat),
            decreases self.open.len() - i,
        {
            if crate::processes::tree::among(still, self.open[i]) {
                left.push(self.open[i]);
            }
            i += 1;
        }
        proof {
            lemma_ids_among_len(self.open@, still@, self.open@.len());
        }
        self.open = left;
        if self.open.len() > 0 && self.polls < GRACE_POLLS {
            self.polls = self.polls + 1;
            true
        } else {
            false
        }
    }

    /// What is said at the end.
    pub open spec fn report_text(self, targets: Seq<OwnedWindowView>, notice: Paint) -> Seq<char> {
        if self.open@.len() == 0 {
            "murder: "@ + counted(self.asked as nat, "window"@, "windows"@) + " closed"@
        } else {
            painted(
                notice,
                "murder: "@ + counted(
                    (self.asked - self.open@.len()) as nat,
                    "window"@,
                    "windows"@,
                ) + " closed; still open: "@ + join(
                    crate::processes::matching::titles(
                        windows_among(targets, self.open@, targets.len()),
                    ),
                    ", "@,
                )
                    + " — the app may be asking to confirm (unsaved work?), or is hung. To kill the whole process instead, hunt it by text: murder <name>"@,
            )
        }
    }

    /// What is said at the end: a window that stayed is named.
    pub fn report(&self, targets: &Vec<OwnedWindow>, notice: &Paint) -> (r: String)
        requires
            self.wf(),
        ensures
            r@ == self.report_text(targets.deep_view(), *notice),
    {
        if self.open.len() == 0 {
            let mut out: String = "murder: ".to_owned();
            out.append(count(self.asked, "window", "windows").as_str());
            out.append(" closed");
            return out;
        }
        let stubborn: Vec<OwnedWindow> = chosen_windows(targets, &self.open);
        let mut line: String = "murder: ".to_owned();
        line.append(count(self.asked - self.open.len(), "window", "windows").as_str());
        line.append(" closed; still open: ");
        line.append(joined(&crate::processes::matching::titles_of(&stubborn), ", ").as_str());
        line.append(
            " — the app may be asking to confirm (unsaved work?), or is hung. To kill the whole process instead, hunt it by text: murder <name>",
        );
        notice.paint(line.as_str())
    }
}

} // verus!
