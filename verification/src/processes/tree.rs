//! Who is related to whom: the lineage of the matches, and the tree it is drawn as.

use vstd::prelude::*;
use vstd::string::*;
use crate::processes::matching::{mark_matches, marked, OwnedWindows, OwnedWindowsView};
use crate::processes::{Process, ProcessView, Relation};
use crate::sequences::{lemma_filter_last, lemma_filter_map_last};

verus! {

// --- tables ---------------------------------------------------------------------------------

/// Whether processes stand in order of PID, each PID once.
pub open spec fn in_pid_order(ps: Seq<ProcessView>) -> bool {
    forall|i: int, j: int| 0 <= i < j < ps.len() ==> ps[i].pid < ps[j].pid
}

/// Whether a process has the PID.
pub open spec fn has_pid(ps: Seq<ProcessView>, pid: int) -> bool {
    exists|i: int| 0 <= i < ps.len() && (#[trigger] ps[i]).pid == pid
}

/// The position, from `k` on, of the process with the PID.
pub open spec fn position(ps: Seq<ProcessView>, pid: int, k: int) -> Option<int>
    decreases ps.len() - k,
{
    if k >= ps.len() {
        None
    } else if ps[k].pid == pid {
        Some(k)
    } else {
        position(ps, pid, k + 1)
    }
}

/// `position` finds a process where there is one.
pub proof fn lemma_position(ps: Seq<ProcessView>, pid: int, k: int)
    requires
        0 <= k <= ps.len(),
    ensures
        match position(ps, pid, k) {
            Some(i) => k <= i < ps.len() && ps[i].pid == pid,
            None => forall|j: int| k <= j < ps.len() ==> (#[trigger] ps[j]).pid != pid,
        },
    decreases ps.len() - k,
{
    if k < ps.len() && ps[k].pid != pid {
        lemma_position(ps, pid, k + 1);
    }
}

/// The position of the process with the PID.
pub fn find_process(ps: &Vec<Process>, pid: u32) -> (r: Option<usize>)
    ensures
        match r {
            Some(i) => position(ps.deep_view(), pid as int, 0) == Some(i as int) && i < ps.len()
                && ps@[i as int]@.pid == pid,
            None => position(ps.deep_view(), pid as int, 0) is None && !has_pid(
                ps.deep_view(),
                pid as int,
            ),
        },
{
    let mut k: usize = 0;
    while k < ps.len()
        invariant
            k <= ps.len(),
            position(ps.deep_view(), pid as int, 0) == position(ps.deep_view(), pid as int, k as int),
            forall|j: int| 0 <= j < k ==> (#[trigger] ps.deep_view()[j]).pid != pid,
        decreases ps.len() - k,
    {
        assert(ps.deep_view()[k as int] == ps@[k as int]@);
        if ps[k].pid == pid {
            return Some(k);
        }
        k += 1;
    }
    assert(ps.deep_view().len() == ps@.len());
    None
}

/// Where a process with the PID belongs in a table in order of PID.
pub open spec fn pid_place(ps: Seq<ProcessView>, pid: int, from: int) -> int
    decreases ps.len() - from,
{
    if from >= ps.len() || ps[from].pid >= pid {
        from
    } else {
        pid_place(ps, pid, from + 1)
    }
}

/// A table in order of PID with one process more, in place of one with its PID.
pub open spec fn with_process(ps: Seq<ProcessView>, p: ProcessView) -> Seq<ProcessView> {
    let k = pid_place(ps, p.pid, 0);
    if k < ps.len() && ps[k].pid == p.pid {
        ps.update(k, p)
    } else {
        ps.insert(k, p)
    }
}

/// A process that is added to a table in order of PID is in it, in place of the one of its PID
/// where there was one; every other stays, and the order is kept.
pub proof fn law_a_process_is_added_in_its_place(ps: Seq<ProcessView>, p: ProcessView)
    requires
        forall|i: int, j: int| 0 <= i < j < ps.len() ==> ps[i].pid < ps[j].pid,
    ensures
        ({
            let all = with_process(ps, p);
            &&& forall|i: int, j: int| 0 <= i < j < all.len() ==> all[i].pid < all[j].pid
            &&& all.contains(p)
            &&& forall|i: int|
                0 <= i < ps.len() && (#[trigger] ps[i]).pid != p.pid ==> all.contains(ps[i])
            &&& forall|j: int|
                0 <= j < all.len() ==> (#[trigger] all[j]) == p || ps.contains(all[j])
        }),
{
    lemma_place_of_pid(ps, p.pid, 0);
    let k = pid_place(ps, p.pid, 0);
    let all = with_process(ps, p);
    assert(all[k] == p);
    let there = k < ps.len() && ps[k].pid == p.pid;
    assert forall|i: int| 0 <= i < ps.len() && (#[trigger] ps[i]).pid != p.pid implies all.contains(
        ps[i],
    ) by {
        if there || i < k {
            assert(all[i] == ps[i]);
        } else {
            assert(all[i + 1] == ps[i]);
        }
    }
    assert forall|j: int| 0 <= j < all.len() implies (#[trigger] all[j]) == p || ps.contains(all[j]) by {
        if j != k {
            assert(all[j] == ps[if there || j < k {
                j
            } else {
                j - 1
            }]);
        }
    }
}

proof fn lemma_place_of_pid(ps: Seq<ProcessView>, pid: int, from: int)
    requires
        0 <= from <= ps.len(),
    ensures
        from <= pid_place(ps, pid, from) <= ps.len(),
        forall|i: int| from <= i < pid_place(ps, pid, from) ==> (#[trigger] ps[i]).pid < pid,
        pid_place(ps, pid, from) < ps.len() ==> ps[pid_place(ps, pid, from)].pid >= pid,
    decreases ps.len() - from,
{
    if from < ps.len() && ps[from].pid < pid {
        lemma_place_of_pid(ps, pid, from + 1);
    }
}

proof fn lemma_pid_place(ps: Seq<ProcessView>, pid: int, from: int)
    requires
        0 <= from <= ps.len(),
        in_pid_order(ps),
        forall|j: int| 0 <= j < from ==> ps[j].pid < pid,
    ensures
        from <= pid_place(ps, pid, from) <= ps.len(),
        forall|j: int| 0 <= j < pid_place(ps, pid, from) ==> ps[j].pid < pid,
        forall|j: int| pid_place(ps, pid, from) <= j < ps.len() ==> ps[j].pid >= pid,
    decreases ps.len() - from,
{
    if from < ps.len() && ps[from].pid < pid {
        lemma_pid_place(ps, pid, from + 1);
    }
}

/// Add a process to a table in order of PID.
pub fn insert_process(ps: &mut Vec<Process>, p: Process)
    requires
        in_pid_order(old(ps).deep_view()),
    ensures
        final(ps).deep_view() == with_process(old(ps).deep_view(), p@),
        in_pid_order(final(ps).deep_view()),
{
    let ghost before = ps.deep_view();
    let ghost pv = p@;
    let mut k: usize = 0;
    while k < ps.len() && ps[k].pid < p.pid
        invariant
            k <= ps.len(),
            ps.deep_view() == before,
            pid_place(before, p.pid as int, 0) == pid_place(before, p.pid as int, k as int),
        decreases ps.len() - k,
    {
        assert(ps.deep_view()[k as int] == ps@[k as int]@);
        k += 1;
    }
    proof {
        lemma_pid_place(before, p.pid as int, 0);
        if k < ps@.len() {
            assert(ps.deep_view()[k as int] == ps@[k as int]@);
        }
    }
    if k < ps.len() && ps[k].pid == p.pid {
        let _old: Process = ps.remove(k);
        ps.insert(k, p);
        assert(ps.deep_view() =~= before.update(k as int, pv));
    } else {
        ps.insert(k, p);
        assert(ps.deep_view() =~= before.insert(k as int, pv));
    }
}

// --- lineage --------------------------------------------------------------------------------

/// Whether `n` parent steps lead from the process `from` up to `to`, which a match reaches: every
/// step from a process of the table to a parent above zero that is in the table too.
pub open spec fn climbs(all: Seq<ProcessView>, from: int, to: int, n: nat) -> bool
    decreases n,
{
    if n == 0 {
        from == to
    } else {
        exists|i: int|
            0 <= i < all.len() && (#[trigger] all[i]).pid == from && all[i].ppid > 0 && has_pid(
                all,
                all[i].ppid,
            ) && climbs(all, all[i].ppid, to, (n - 1) as nat)
    }
}

/// Whether a process stands above a match.
pub open spec fn is_above(all: Seq<ProcessView>, matched: Seq<u32>, pid: int) -> bool {
    exists|m: int, n: nat|
        0 <= m < matched.len() && n > 0 && #[trigger] climbs(all, matched[m] as int, pid, n)
}

/// Whether `n` parent steps lead from the process `pid` to a match: every step but the last to a
/// process of the table.
pub open spec fn falls(all: Seq<ProcessView>, matched: Seq<u32>, pid: int, n: nat) -> bool
    decreases n,
{
    n > 0 && exists|i: int|
        0 <= i < all.len() && (#[trigger] all[i]).pid == pid && (is_matched(matched, all[i].ppid)
            || falls(all, matched, all[i].ppid, (n - 1) as nat))
}

/// Whether a PID is one of the matched.
pub open spec fn is_matched(matched: Seq<u32>, pid: int) -> bool {
    exists|m: int| 0 <= m < matched.len() && #[trigger] matched[m] as int == pid
}

/// Whether a process stands below a match.
pub open spec fn is_below(all: Seq<ProcessView>, matched: Seq<u32>, pid: int) -> bool {
    exists|n: nat| #[trigger] falls(all, matched, pid, n)
}

/// What a process of the table is to the matches: a match stays a match, and one between two
/// matches dies with the upper one.
pub open spec fn relation_of(all: Seq<ProcessView>, matched: Seq<u32>, pid: int) -> Option<Relation> {
    if is_matched(matched, pid) {
        Some(Relation::Match)
    } else if is_below(all, matched, pid) {
        Some(Relation::Descendant)
    } else if is_above(all, matched, pid) {
        Some(Relation::Ancestor)
    } else {
        None
    }
}

/// Of the first `n` processes those related to a match, each with its relation.
pub open spec fn related(all: Seq<ProcessView>, matched: Seq<u32>, n: nat) -> Seq<ProcessView>
    decreases n,
{
    if n == 0 {
        seq![]
    } else {
        let before = related(all, matched, (n - 1) as nat);
        match relation_of(all, matched, all[n - 1].pid) {
            Some(relation) => before.push(ProcessView { relation, ..all[n - 1] }),
            None => before,
        }
    }
}

/// Every process that is a match or belongs to one is shown, in order, as what it is to it and
/// else unchanged.
pub proof fn law_every_relative_is_shown(all: Seq<ProcessView>, matched: Seq<u32>, n: nat)
    requires
        n <= all.len(),
    ensures
        related(all, matched, n) == all.take(n as int).filter_map(
            |p: ProcessView|
                match relation_of(all, matched, p.pid) {
                    Some(relation) => Some(ProcessView { relation, ..p }),
                    None => None,
                },
        ),
    decreases n,
{
    if n > 0 {
        law_every_relative_is_shown(all, matched, (n - 1) as nat);
        lemma_filter_map_last(
            all,
            |p: ProcessView|
                match relation_of(all, matched, p.pid) {
                    Some(relation) => Some(ProcessView { relation, ..p }),
                    None => None,
                },
            n,
        );
    }
}

/// Whether a PID is one of the matched.
pub fn among(matched: &Vec<u32>, pid: u32) -> (r: bool)
    ensures
        r == is_matched(matched@, pid as int),
{
    let mut m: usize = 0;
    while m < matched.len()
        invariant
            m <= matched.len(),
            forall|j: int| 0 <= j < m ==> #[trigger] matched@[j] as int != pid,
        decreases matched.len() - m,
    {
        if matched[m] == pid {
            return true;
        }
        m += 1;
    }
    false
}

/// Whether the marks below are sound: a marked process stands below a match.
spec fn below_sound(all: Seq<ProcessView>, matched: Seq<u32>, marks: Seq<bool>) -> bool {
    forall|i: int|
        0 <= i < marks.len() && #[trigger] marks[i] ==> is_below(all, matched, all[i].pid)
}

/// Whether the marks below are complete: the child of a match or of a marked process is marked.
spec fn below_closed(all: Seq<ProcessView>, matched: Seq<u32>, marks: Seq<bool>) -> bool {
    forall|i: int|
        0 <= i < marks.len() && !(#[trigger] marks[i]) ==> !is_matched(matched, all[i].ppid) && !(
        exists|j: int| 0 <= j < marks.len() && #[trigger] all[j].pid == all[i].ppid && marks[j])
}

/// How many marks are set.
spec fn unset(marks: Seq<bool>) -> nat
    decreases marks.len(),
{
    if marks.len() == 0 {
        0
    } else {
        unset(marks.drop_last()) + if marks.last() {
            0nat
        } else {
            1nat
        }
    }
}

proof fn lemma_unset_update(marks: Seq<bool>, i: int)
    requires
        0 <= i < marks.len(),
        !marks[i],
    ensures
        unset(marks.update(i, true)) + 1 == unset(marks),
    decreases marks.len(),
{
    let more = marks.update(i, true);
    if i == marks.len() - 1 {
        assert(more.drop_last() =~= marks.drop_last());
    } else {
        lemma_unset_update(marks.drop_last(), i);
        assert(more.drop_last() =~= marks.drop_last().update(i, true));
        assert(more.last() == marks.last());
    }
}

proof fn lemma_below_complete(
    all: Seq<ProcessView>,
    matched: Seq<u32>,
    marks: Seq<bool>,
    i: int,
    n: nat,
)
    requires
        in_pid_order(all),
        marks.len() == all.len(),
        below_closed(all, matched, marks),
        0 <= i < all.len(),
        falls(all, matched, all[i].pid, n),
    ensures
        marks[i],
    decreases n,
{
    let k = choose|k: int|
        0 <= k < all.len() && (#[trigger] all[k]).pid == all[i].pid && (is_matched(
            matched,
            all[k].ppid,
        ) || falls(all, matched, all[k].ppid, (n - 1) as nat));
    assert(k == i);
    if !is_matched(matched, all[i].ppid) {
        let p = all[i].ppid;
        assert(falls(all, matched, p, (n - 1) as nat));
        let j = choose|j: int|
            0 <= j < all.len() && (#[trigger] all[j]).pid == p && (is_matched(matched, all[j].ppid)
                || falls(all, matched, all[j].ppid, (n - 2) as nat));
        lemma_below_complete(all, matched, marks, j, (n - 1) as nat);
        assert(all[j].pid == all[i].ppid && marks[j]);
    }
    if !marks[i] {
        assert(false);
    }
}

/// For each process, whether it stands below a match.
fn mark_below(all: &Vec<Process>, matched: &Vec<u32>) -> (r: Vec<bool>)
    requires
        in_pid_order(all.deep_view()),
    ensures
        r.len() == all.len(),
        forall|i: int|
            0 <= i < r.len() ==> #[trigger] r@[i] == is_below(
                all.deep_view(),
                matched@,
                all@[i]@.pid,
            ),
{
    let ghost av = all.deep_view();
    let mut marks: Vec<bool> = Vec::new();
    while marks.len() < all.len()
        invariant
            marks.len() <= all.len(),
            forall|i: int| 0 <= i < marks.len() ==> !(#[trigger] marks@[i]),
        decreases all.len() - marks.len(),
    {
        marks.push(false);
    }
    let mut changed: bool = true;
    while changed
        invariant
            av == all.deep_view(),
            in_pid_order(av),
            marks.len() == all.len(),
            below_sound(av, matched@, marks@),
            !changed ==> below_closed(av, matched@, marks@),
        decreases
            unset(marks@),
            if changed {
                1int
            } else {
                0int
            },
    {
        changed = false;
        let ghost before = marks@;
        let mut i: usize = 0;
        while i < all.len()
            invariant
                i <= all.len(),
                av == all.deep_view(),
                in_pid_order(av),
                marks.len() == all.len(),
                before.len() == all.len(),
                below_sound(av, matched@, marks@),
                unset(marks@) <= unset(before),
                changed ==> unset(marks@) < unset(before),
                !changed ==> marks@ == before,
                !changed ==> forall|x: int|
                    0 <= x < i && !(#[trigger] marks@[x]) ==> !is_matched(matched@, av[x].ppid) && !(
                    exists|j: int|
                        0 <= j < marks.len() && #[trigger] av[j].pid == av[x].ppid && marks@[j]),
            decreases all.len() - i,
        {
            assert(av[i as int] == all@[i as int]@);
            if !marks[i] {
                let parent: u32 = all[i].ppid;
                let direct: bool = among(matched, parent);
                let mut through: bool = false;
                let above: Option<usize> = find_process(all, parent);
                match above {
                    Some(j) => {
                        through = marks[j];
                        proof {
                            assert(av[j as int] == all@[j as int]@);
                            if through {
                                let n = choose|n: nat| #[trigger]
                                    falls(av, matched@, av[j as int].pid, n);
                                assert(falls(av, matched@, av[i as int].pid, n + 1)) by {
                                    assert(av[i as int].ppid == av[j as int].pid);
                                }
                            }
                        }
                    },
                    None => {},
                }
                if direct {
                    assert(falls(av, matched@, av[i as int].pid, 1));
                }
                if direct || through {
                    proof {
                        lemma_unset_update(marks@, i as int);
                    }
                    marks.set(i, true);
                    changed = true;
                } else {
                    proof {
                        if !changed {
                            assert(!(exists|j: int|
                                0 <= j < marks.len() && #[trigger] av[j].pid == av[i as int].ppid
                                    && marks@[j])) by {
                                if exists|j: int|
                                    0 <= j < marks.len() && #[trigger] av[j].pid
                                        == av[i as int].ppid && marks@[j] {
                                    let j = choose|j: int|
                                        0 <= j < marks.len() && #[trigger] av[j].pid
                                            == av[i as int].ppid && marks@[j];
                                    assert(has_pid(av, parent as int));
                                    assert(av[above->0 as int] == all@[above->0 as int]@);
                                    assert(j == above->0);
                                }
                            }
                        }
                    }
                }
            }
            i += 1;
        }
    }
    proof {
        assert forall|i: int| 0 <= i < marks.len() implies #[trigger] marks@[i] == is_below(
            av,
            matched@,
            all@[i]@.pid,
        ) by {
            assert(av[i] == all@[i]@);
            if is_below(av, matched@, av[i].pid) {
                let n = choose|n: nat| #[trigger] falls(av, matched@, av[i].pid, n);
                lemma_below_complete(av, matched@, marks@, i, n);
            }
        }
    }
    marks
}

proof fn lemma_climbs_more(all: Seq<ProcessView>, from: int, n: nat, i: int)
    requires
        0 <= i < all.len(),
        all[i].ppid > 0,
        has_pid(all, all[i].ppid),
        climbs(all, from, all[i].pid, n),
    ensures
        climbs(all, from, all[i].ppid, n + 1),
    decreases n,
{
    if n == 0 {
        assert(climbs(all, all[i].ppid, all[i].ppid, 0));
    } else {
        let k = choose|k: int|
            0 <= k < all.len() && (#[trigger] all[k]).pid == from && all[k].ppid > 0 && has_pid(
                all,
                all[k].ppid,
            ) && climbs(all, all[k].ppid, all[i].pid, (n - 1) as nat);
        lemma_climbs_more(all, all[k].ppid, (n - 1) as nat, i);
    }
}

/// Whether the marks above are sound: a marked process stands above a match.
spec fn above_sound(all: Seq<ProcessView>, matched: Seq<u32>, marks: Seq<bool>) -> bool {
    forall|i: int|
        0 <= i < marks.len() && #[trigger] marks[i] ==> is_above(all, matched, all[i].pid)
}

/// Whether the process at `j` passes its mark, or being a match, on to its parent.
spec fn passes_up(all: Seq<ProcessView>, matched: Seq<u32>, marks: Seq<bool>, j: int) -> bool {
    is_matched(matched, all[j].pid) || marks[j]
}

/// Whether the marks above are complete: the parent of a match or of a marked process is marked.
spec fn above_closed(all: Seq<ProcessView>, matched: Seq<u32>, marks: Seq<bool>) -> bool {
    forall|j: int, i: int|
        #![trigger all[j].ppid, marks[i]]
        0 <= j < all.len() && 0 <= i < marks.len() && all[j].ppid > 0 && all[j].ppid == all[i].pid
            && passes_up(all, matched, marks, j) ==> marks[i]
}

proof fn lemma_above_complete(
    all: Seq<ProcessView>,
    matched: Seq<u32>,
    marks: Seq<bool>,
    k: int,
    i: int,
    n: nat,
)
    requires
        in_pid_order(all),
        marks.len() == all.len(),
        above_closed(all, matched, marks),
        0 <= k < all.len(),
        0 <= i < all.len(),
        passes_up(all, matched, marks, k),
        n > 0,
        climbs(all, all[k].pid, all[i].pid, n),
    ensures
        marks[i],
    decreases n,
{
    let x = choose|x: int|
        0 <= x < all.len() && (#[trigger] all[x]).pid == all[k].pid && all[x].ppid > 0 && has_pid(
            all,
            all[x].ppid,
        ) && climbs(all, all[x].ppid, all[i].pid, (n - 1) as nat);
    assert(x == k);
    let j = choose|j: int| 0 <= j < all.len() && (#[trigger] all[j]).pid == all[k].ppid;
    assert(all[k].ppid == all[j].pid);
    assert(marks[j]) by {
        let _ = all[k].ppid;
        assert(marks[j] || !marks[j]);
    }
    if n == 1 {
        assert(all[j].pid == all[i].pid);
        assert(j == i);
    } else {
        lemma_above_complete(all, matched, marks, j, i, (n - 1) as nat);
    }
}

/// For each process, whether it stands above a match.
fn mark_above(all: &Vec<Process>, matched: &Vec<u32>) -> (r: Vec<bool>)
    requires
        in_pid_order(all.deep_view()),
    ensures
        r.len() == all.len(),
        forall|i: int|
            0 <= i < r.len() ==> #[trigger] r@[i] == is_above(
                all.deep_view(),
                matched@,
                all@[i]@.pid,
            ),
{
    let ghost av = all.deep_view();
    let mut marks: Vec<bool> = Vec::new();
    while marks.len() < all.len()
        invariant
            marks.len() <= all.len(),
            forall|i: int| 0 <= i < marks.len() ==> !(#[trigger] marks@[i]),
        decreases all.len() - marks.len(),
    {
        marks.push(false);
    }
    let mut changed: bool = true;
    while changed
        invariant
            av == all.deep_view(),
            in_pid_order(av),
            marks.len() == all.len(),
            above_sound(av, matched@, marks@),
            !changed ==> above_closed(av, matched@, marks@),
        decreases
            unset(marks@),
            if changed {
                1int
            } else {
                0int
            },
    {
        changed = false;
        let ghost before = marks@;
        let mut j: usize = 0;
        while j < all.len()
            invariant
                j <= all.len(),
                av == all.deep_view(),
                in_pid_order(av),
                marks.len() == all.len(),
                before.len() == all.len(),
                above_sound(av, matched@, marks@),
                unset(marks@) <= unset(before),
                changed ==> unset(marks@) < unset(before),
                !changed ==> marks@ == before,
                !changed ==> forall|x: int, i: int|
                    #![trigger av[x].ppid, marks@[i]]
                    0 <= x < j && 0 <= i < marks.len() && av[x].ppid > 0 && av[x].ppid == av[i].pid
                        && passes_up(av, matched@, marks@, x) ==> marks@[i],
            decreases all.len() - j,
        {
            assert(av[j as int] == all@[j as int]@);
            let parent: u32 = all[j].ppid;
            if parent > 0 && (marks[j] || among(matched, all[j].pid)) {
                let at: Option<usize> = find_process(all, parent);
                match at {
                    Some(i) => {
                        assert(av[i as int] == all@[i as int]@);
                        if !marks[i] {
                            proof {
                                assert(has_pid(av, av[j as int].ppid));
                                if is_matched(matched@, av[j as int].pid) {
                                    let m = choose|m: int|
                                        0 <= m < matched@.len() && #[trigger] matched@[m] as int
                                            == av[j as int].pid;
                                    assert(climbs(av, matched@[m] as int, av[j as int].pid, 0));
                                    lemma_climbs_more(av, matched@[m] as int, 0, j as int);
                                    assert(is_above(av, matched@, av[i as int].pid));
                                } else {
                                    let (m, n) = choose|m: int, n: nat|
                                        0 <= m < matched@.len() && n > 0 && #[trigger] climbs(
                                            av,
                                            matched@[m] as int,
                                            av[j as int].pid,
                                            n,
                                        );
                                    lemma_climbs_more(av, matched@[m] as int, n, j as int);
                                    assert(is_above(av, matched@, av[i as int].pid));
                                }
                                lemma_unset_update(marks@, i as int);
                            }
                            marks.set(i, true);
                            changed = true;
                        }
                    },
                    None => {},
                }
                proof {
                    if !changed {
                        assert forall|i: int|
                            0 <= i < marks.len() && av[j as int].ppid == av[i].pid implies #[trigger] marks@[i] by {
                            assert(av[i].pid == parent);
                            assert(has_pid(av, parent as int));
                            assert(av[at->0 as int] == all@[at->0 as int]@);
                            assert(i == at->0);
                        }
                    }
                }
            }
            j += 1;
        }
    }
    proof {
        assert forall|i: int| 0 <= i < marks.len() implies #[trigger] marks@[i] == is_above(
            av,
            matched@,
            all@[i]@.pid,
        ) by {
            assert(av[i] == all@[i]@);
            if is_above(av, matched@, av[i].pid) {
                let (m, n) = choose|m: int, n: nat|
                    0 <= m < matched@.len() && n > 0 && #[trigger] climbs(
                        av,
                        matched@[m] as int,
                        av[i].pid,
                        n,
                    );
                let k = choose|k: int|
                    0 <= k < av.len() && (#[trigger] av[k]).pid == matched@[m] as int && av[k].ppid > 0
                        && has_pid(av, av[k].ppid) && climbs(av, av[k].ppid, av[i].pid, (n - 1) as nat);
                assert(is_matched(matched@, av[k].pid));
                lemma_above_complete(av, matched@, marks@, k, i, n);
            }
        }
    }
    marks
}

/// A copy of a process.
pub fn copy_process(p: &Process) -> (r: Process)
    ensures
        r@ == p@,
{
    let mut matched: Vec<crate::processes::Field> = Vec::new();
    let mut i: usize = 0;
    while i < p.matched.len()
        invariant
            i <= p.matched.len(),
            matched@ == p.matched@.take(i as int),
        decreases p.matched.len() - i,
    {
        matched.push(p.matched[i]);
        i += 1;
    }
    assert(p.matched@.take(i as int) =~= p.matched@);
    Process {
        pid: p.pid,
        ppid: p.ppid,
        user: p.user.clone(),
        name: p.name.clone(),
        cmdline: p.cmdline.clone(),
        exe: match &p.exe {
            Some(s) => Some(s.clone()),
            None => None,
        },
        age: p.age,
        matched,
        cpu_order: p.cpu_order,
        cpu_label: p.cpu_label.clone(),
        rss_kib: p.rss_kib,
        window: match &p.window {
            Some(s) => Some(s.clone()),
            None => None,
        },
        protected: p.protected,
        relation: p.relation,
    }
}

proof fn lemma_related_order(all: Seq<ProcessView>, matched: Seq<u32>, n: nat)
    requires
        in_pid_order(all),
        n <= all.len(),
    ensures
        in_pid_order(related(all, matched, n)),
        forall|i: int|
            0 <= i < related(all, matched, n).len() ==> exists|j: int|
                0 <= j < n && (#[trigger] related(all, matched, n)[i]).pid == all[j].pid,
    decreases n,
{
    if n > 0 {
        lemma_related_order(all, matched, (n - 1) as nat);
        let before = related(all, matched, (n - 1) as nat);
        let more = related(all, matched, n);
        match relation_of(all, matched, all[n - 1].pid) {
            Some(relation) => {
                assert forall|i: int| 0 <= i < more.len() implies exists|j: int|
                    0 <= j < n && (#[trigger] more[i]).pid == all[j].pid by {
                    if i < before.len() {
                        assert(more[i] == before[i]);
                        let j = choose|j: int| 0 <= j < n - 1 && before[i].pid == all[j].pid;
                        assert(more[i].pid == all[j].pid);
                    } else {
                        assert(more[i].pid == all[n - 1].pid);
                    }
                }
                assert forall|i: int, j: int| 0 <= i < j < more.len() implies more[i].pid
                    < more[j].pid by {
                    if j == more.len() - 1 {
                        assert(more[i] == before[i]);
                        let k = choose|k: int| 0 <= k < n - 1 && before[i].pid == all[k].pid;
                        assert(all[k].pid < all[n - 1].pid);
                    }
                }
            },
            None => {
                assert forall|i: int| 0 <= i < more.len() implies exists|j: int|
                    0 <= j < n && (#[trigger] more[i]).pid == all[j].pid by {
                    let j = choose|j: int| 0 <= j < n - 1 && before[i].pid == all[j].pid;
                    assert(more[i].pid == all[j].pid);
                }
            },
        }
    }
}

/// The relevant lineage of the matched processes, each with its relation: ancestors up to the
/// root for ownership, descendants all the way down for what goes with a match.
pub fn relate(all: &Vec<Process>, matched: &Vec<u32>) -> (r: Vec<Process>)
    requires
        in_pid_order(all.deep_view()),
    ensures
        r.deep_view() == related(all.deep_view(), matched@, all.deep_view().len()),
        in_pid_order(r.deep_view()),
{
    let below: Vec<bool> = mark_below(all, matched);
    let above: Vec<bool> = mark_above(all, matched);
    let mut out: Vec<Process> = Vec::new();
    let mut i: usize = 0;
    assert(out.deep_view() =~= seq![]);
    while i < all.len()
        invariant
            i <= all.len(),
            below.len() == all.len(),
            above.len() == all.len(),
            forall|k: int|
                0 <= k < below.len() ==> #[trigger] below@[k] == is_below(
                    all.deep_view(),
                    matched@,
                    all@[k]@.pid,
                ),
            forall|k: int|
                0 <= k < above.len() ==> #[trigger] above@[k] == is_above(
                    all.deep_view(),
                    matched@,
                    all@[k]@.pid,
                ),
            out.deep_view() == related(all.deep_view(), matched@, i as nat),
        decreases all.len() - i,
    {
        assert(all.deep_view()[i as int] == all@[i as int]@);
        let relation: Option<Relation> = if among(matched, all[i].pid) {
            Some(Relation::Match)
        } else if below[i] {
            Some(Relation::Descendant)
        } else if above[i] {
            Some(Relation::Ancestor)
        } else {
            None
        };
        let ghost before = out.deep_view();
        if let Some(label) = relation {
            let mut p: Process = copy_process(&all[i]);
            p.relation = label;
            let ghost pv = p@;
            out.push(p);
            assert(out.deep_view() =~= before.push(pv));
        }
        i += 1;
    }
    assert(all.deep_view().len() == all@.len());
    proof {
        lemma_related_order(all.deep_view(), matched@, all.deep_view().len());
    }
    out
}

// --- the hunt -------------------------------------------------------------------------------

/// Every process once the hunt has marked it.
pub open spec fn all_marked(
    all: Seq<ProcessView>,
    patterns: Seq<Seq<char>>,
    owned: Option<Seq<OwnedWindowsView>>,
) -> Seq<ProcessView> {
    all.map_values(|p: ProcessView| marked(p, patterns, owned))
}

/// The PIDs among the first `n` processes that something was found in.
pub open spec fn found_pids(all: Seq<ProcessView>, n: nat) -> Seq<u32>
    decreases n,
{
    if n == 0 {
        seq![]
    } else if all[n - 1].matched.len() > 0 {
        found_pids(all, (n - 1) as nat).push(all[n - 1].pid as u32)
    } else {
        found_pids(all, (n - 1) as nat)
    }
}

/// Every process in which something was found is a match, in order, and no other.
pub proof fn law_every_hit_is_a_match(all: Seq<ProcessView>, n: nat)
    requires
        n <= all.len(),
    ensures
        found_pids(all, n) == all.take(n as int).filter_map(
            |p: ProcessView|
                if p.matched.len() > 0 {
                    Some(p.pid as u32)
                } else {
                    None
                },
        ),
    decreases n,
{
    if n > 0 {
        law_every_hit_is_a_match(all, (n - 1) as nat);
        lemma_filter_map_last(
            all,
            |p: ProcessView|
                if p.matched.len() > 0 {
                    Some(p.pid as u32)
                } else {
                    None
                },
            n,
        );
    }
}

/// Find every match, and pull in each match's whole lineage. Returns the relevant processes, and
/// how many of them are actual matches.
pub fn survey(
    all: &Vec<Process>,
    patterns: &Vec<String>,
    by_window: Option<&Vec<OwnedWindows>>,
) -> (r: (Vec<Process>, usize))
    requires
        in_pid_order(all.deep_view()),
    ensures
        ({
            let owned = match by_window {
                Some(list) => Some(list.deep_view()),
                None => None,
            };
            let after = all_marked(all.deep_view(), patterns.deep_view(), owned);
            let found = found_pids(after, after.len());
            r.0.deep_view() == related(after, found, after.len()) && r.1 == found.len()
        }),
        in_pid_order(r.0.deep_view()),
{
    let ghost owned = match by_window {
        Some(list) => Some(list.deep_view()),
        None => None,
    };
    let ghost want = all_marked(all.deep_view(), patterns.deep_view(), owned);
    let mut after: Vec<Process> = Vec::new();
    let mut found: Vec<u32> = Vec::new();
    let mut i: usize = 0;
    while i < all.len()
        invariant
            i <= all.len(),
            want == all_marked(all.deep_view(), patterns.deep_view(), owned),
            owned == (match by_window {
                Some(list) => Some(list.deep_view()),
                None => None,
            }),
            after.len() == i,
            forall|k: int| 0 <= k < i ==> (#[trigger] after@[k])@ == want[k],
            found@ == found_pids(want, i as nat),
            found.len() <= i,
        decreases all.len() - i,
    {
        assert(all.deep_view()[i as int] == all@[i as int]@);
        let mut p: Process = copy_process(&all[i]);
        mark_matches(&mut p, patterns, by_window);
        assert(p@ == want[i as int]);
        if p.matched.len() > 0 {
            found.push(p.pid);
        }
        after.push(p);
        i += 1;
    }
    assert(after.deep_view() =~= want);
    assert(in_pid_order(want)) by {
        assert forall|a: int, b: int| 0 <= a < b < want.len() implies want[a].pid < want[b].pid by {
            assert(all.deep_view()[a].pid < all.deep_view()[b].pid);
        }
    }
    let n: usize = found.len();
    (relate(&after, &found), n)
}

/// What dies with its parent dies in the report too: the child of a match or of a descendant is
/// itself one of the two.
pub proof fn law_children_share_their_parents_fate(
    all: Seq<ProcessView>,
    matched: Seq<u32>,
    parent: int,
    i: int,
)
    requires
        0 <= i < all.len(),
        all[i].ppid == parent,
        is_matched(matched, parent) || is_below(all, matched, parent),
    ensures
        relation_of(all, matched, all[i].pid) == Some(Relation::Match) || relation_of(
            all,
            matched,
            all[i].pid,
        ) == Some(Relation::Descendant),
{
    if is_matched(matched, parent) {
        assert(falls(all, matched, all[i].pid, 1));
    } else {
        let n = choose|n: nat| #[trigger] falls(all, matched, parent, n);
        assert(falls(all, matched, all[i].pid, n + 1));
    }
}

/// Who owns a match is shown: the parent of a match is in the report where the table has it.
pub proof fn law_owners_are_shown(all: Seq<ProcessView>, matched: Seq<u32>, i: int)
    requires
        0 <= i < all.len(),
        is_matched(matched, all[i].pid),
        all[i].ppid > 0,
        has_pid(all, all[i].ppid),
    ensures
        relation_of(all, matched, all[i].ppid) is Some,
{
    let m = choose|m: int| 0 <= m < matched.len() && #[trigger] matched[m] as int == all[i].pid;
    assert(climbs(all, all[i].ppid, all[i].ppid, 0));
    assert(climbs(all, matched[m] as int, all[i].ppid, 1));
}

/// A process goes down with a match exactly where its parent is one or goes down with one.
pub proof fn law_a_descendant_hangs_by_its_parent(all: Seq<ProcessView>, matched: Seq<u32>, pid: int)
    ensures
        is_below(all, matched, pid) <==> exists|i: int|
            0 <= i < all.len() && (#[trigger] all[i]).pid == pid && ((exists|m: int|
                0 <= m < matched.len() && #[trigger] matched[m] as int == all[i].ppid) || is_below(
                all,
                matched,
                all[i].ppid,
            )),
{
    if is_below(all, matched, pid) {
        let n = choose|n: nat| #[trigger] falls(all, matched, pid, n);
        let i = choose|i: int|
            0 <= i < all.len() && (#[trigger] all[i]).pid == pid && (is_matched(
                matched,
                all[i].ppid,
            ) || falls(all, matched, all[i].ppid, (n - 1) as nat));
        assert(all[i].pid == pid);
    }
    if exists|i: int|
        0 <= i < all.len() && (#[trigger] all[i]).pid == pid && ((exists|m: int|
            0 <= m < matched.len() && #[trigger] matched[m] as int == all[i].ppid) || is_below(
            all,
            matched,
            all[i].ppid,
        )) {
        let i = choose|i: int|
            0 <= i < all.len() && (#[trigger] all[i]).pid == pid && ((exists|m: int|
                0 <= m < matched.len() && #[trigger] matched[m] as int == all[i].ppid) || is_below(
                all,
                matched,
                all[i].ppid,
            ));
        if is_matched(matched, all[i].ppid) {
            assert(falls(all, matched, pid, 1));
        } else {
            let n = choose|n: nat| #[trigger] falls(all, matched, all[i].ppid, n);
            assert(falls(all, matched, pid, n + 1));
        }
    }
}

proof fn lemma_climb_on(all: Seq<ProcessView>, from: int, mid: int, to: int, n: nat)
    requires
        climbs(all, from, mid, n),
        climbs(all, mid, to, 1),
    ensures
        climbs(all, from, to, n + 1),
    decreases n,
{
    if n > 0 {
        let i = choose|i: int|
            0 <= i < all.len() && (#[trigger] all[i]).pid == from && all[i].ppid > 0 && has_pid(
                all,
                all[i].ppid,
            ) && climbs(all, all[i].ppid, mid, (n - 1) as nat);
        lemma_climb_on(all, all[i].ppid, mid, to, (n - 1) as nat);
        assert(all[i].pid == from);
    }
}

/// Who owns a match is shown all the way up: the parent of a match, and of everyone above one, is
/// above it too, where the table has it.
pub proof fn law_owners_are_shown_all_the_way_up(all: Seq<ProcessView>, matched: Seq<u32>, i: int)
    requires
        0 <= i < all.len(),
        all[i].ppid > 0,
        has_pid(all, all[i].ppid),
        is_matched(matched, all[i].pid) || is_above(all, matched, all[i].pid),
    ensures
        is_above(all, matched, all[i].ppid),
        relation_of(all, matched, all[i].ppid) is Some,
{
    assert(climbs(all, all[i].ppid, all[i].ppid, 0));
    assert(climbs(all, all[i].pid, all[i].ppid, 1));
    if is_matched(matched, all[i].pid) {
        let m = choose|m: int| 0 <= m < matched.len() && #[trigger] matched[m] as int == all[i].pid;
        assert(climbs(all, matched[m] as int, all[i].ppid, 1));
    } else {
        let (m, n) = choose|m: int, n: nat|
            0 <= m < matched.len() && n > 0 && #[trigger] climbs(
                all,
                matched[m] as int,
                all[i].pid,
                n,
            );
        lemma_climb_on(all, matched[m] as int, all[i].pid, all[i].ppid, n);
        assert(climbs(all, matched[m] as int, all[i].ppid, n + 1));
    }
}

/// A match is a match whatever stands round it; what stands below one goes with it, even where it
/// stands above another; and only then is one that stands above an owner.
pub proof fn law_what_a_process_is_to_a_match(all: Seq<ProcessView>, matched: Seq<u32>, pid: int)
    ensures
        relation_of(all, matched, pid) == Some(Relation::Match) <==> exists|m: int|
            0 <= m < matched.len() && #[trigger] matched[m] as int == pid,
        relation_of(all, matched, pid) == Some(Relation::Descendant) <==> !is_matched(matched, pid)
            && is_below(all, matched, pid),
        relation_of(all, matched, pid) == Some(Relation::Ancestor) <==> !is_matched(matched, pid)
            && !is_below(all, matched, pid) && is_above(all, matched, pid),
        relation_of(all, matched, pid) is None <==> !is_matched(matched, pid) && !is_below(
            all,
            matched,
            pid,
        ) && !is_above(all, matched, pid),
{
}

// --- the drawn tree -------------------------------------------------------------------------

/// One row of the drawn tree: a process, and the branches that lead to it.
pub struct TreeRow {
    pub pid: u32,
    pub branch: String,
}

/// A row of the drawn tree, by what it says.
pub struct TreeRowView {
    pub pid: int,
    pub branch: Seq<char>,
}

impl View for TreeRow {
    type V = TreeRowView;

    open spec fn view(&self) -> TreeRowView {
        TreeRowView { pid: self.pid as int, branch: self.branch@ }
    }
}

impl DeepView for TreeRow {
    type V = TreeRowView;

    open spec fn deep_view(&self) -> TreeRowView {
        self@
    }
}

/// The children of a process among the first `n`, in order of PID.
pub open spec fn kids(rel: Seq<ProcessView>, pid: int, n: nat) -> Seq<int>
    decreases n,
{
    if n == 0 {
        seq![]
    } else if rel[n - 1].ppid == pid {
        kids(rel, pid, (n - 1) as nat).push(rel[n - 1].pid)
    } else {
        kids(rel, pid, (n - 1) as nat)
    }
}

/// Every process hangs under its parent, in order, and under no other.
pub proof fn law_every_child_hangs_under_its_parent(rel: Seq<ProcessView>, pid: int, n: nat)
    requires
        n <= rel.len(),
    ensures
        kids(rel, pid, n) == rel.take(n as int).filter_map(
            |p: ProcessView|
                if p.ppid == pid {
                    Some(p.pid)
                } else {
                    None
                },
        ),
    decreases n,
{
    if n > 0 {
        law_every_child_hangs_under_its_parent(rel, pid, (n - 1) as nat);
        lemma_filter_map_last(
            rel,
            |p: ProcessView|
                if p.ppid == pid {
                    Some(p.pid)
                } else {
                    None
                },
            n,
        );
    }
}

/// The processes among the first `n` whose parent is not in the table, in order of PID.
pub open spec fn roots(rel: Seq<ProcessView>, n: nat) -> Seq<int>
    decreases n,
{
    if n == 0 {
        seq![]
    } else if has_pid(rel, rel[n - 1].ppid) {
        roots(rel, (n - 1) as nat)
    } else {
        roots(rel, (n - 1) as nat).push(rel[n - 1].pid)
    }
}

/// Every process whose parent is not in the table begins a tree, in order, and no other.
pub proof fn law_a_process_without_its_parent_is_a_root(rel: Seq<ProcessView>, n: nat)
    requires
        n <= rel.len(),
    ensures
        roots(rel, n) == rel.take(n as int).filter_map(
            |p: ProcessView|
                if has_pid(rel, p.ppid) {
                    None
                } else {
                    Some(p.pid)
                },
        ),
    decreases n,
{
    if n > 0 {
        law_a_process_without_its_parent_is_a_root(rel, (n - 1) as nat);
        lemma_filter_map_last(
            rel,
            |p: ProcessView|
                if has_pid(rel, p.ppid) {
                    None
                } else {
                    Some(p.pid)
                },
            n,
        );
    }
}

/// A process and everything beneath it, at most `fuel` levels deep.
pub open spec fn subtree(
    rel: Seq<ProcessView>,
    pid: int,
    branch: Seq<char>,
    descend: Seq<char>,
    fuel: nat,
) -> Seq<TreeRowView>
    decreases fuel, 0int,
{
    if fuel == 0 {
        seq![]
    } else {
        seq![TreeRowView { pid, branch }] + limbs(
            rel,
            kids(rel, pid, rel.len()),
            0,
            descend,
            (fuel - 1) as nat,
        )
    }
}

/// A tree begins with its own process, under the branch that leads to it, and goes on with those of
/// its children.
pub proof fn law_a_tree_begins_with_its_process(
    rel: Seq<ProcessView>,
    pid: int,
    branch: Seq<char>,
    descend: Seq<char>,
    fuel: nat,
)
    requires
        fuel > 0,
    ensures
        subtree(rel, pid, branch, descend, fuel)[0] == (TreeRowView { pid, branch }),
        subtree(rel, pid, branch, descend, fuel).skip(1) == limbs(
            rel,
            rel.filter_map(
                |p: ProcessView|
                    if p.ppid == pid {
                        Some(p.pid)
                    } else {
                        None
                    },
            ),
            0,
            descend,
            (fuel - 1) as nat,
        ),
{
    law_every_child_hangs_under_its_parent(rel, pid, rel.len());
    assert(rel.take(rel.len() as int) =~= rel);
    let rest = limbs(rel, kids(rel, pid, rel.len()), 0, descend, (fuel - 1) as nat);
    assert(subtree(rel, pid, branch, descend, fuel).skip(1) =~= rest);
}

/// The children from number `k` on with everything beneath them: the last hangs on `└─`, the
/// others on `├─` with a `│` that goes on beside what is beneath them.
pub open spec fn limbs(
    rel: Seq<ProcessView>,
    ks: Seq<int>,
    k: int,
    descend: Seq<char>,
    fuel: nat,
) -> Seq<TreeRowView>
    decreases fuel, ks.len() - k,
{
    if k >= ks.len() {
        seq![]
    } else {
        let last = k == ks.len() - 1;
        let twig = if last {
            "└─ "@
        } else {
            "├─ "@
        };
        let carry = if last {
            "   "@
        } else {
            "│  "@
        };
        subtree(rel, ks[k], descend + twig, descend + carry, fuel) + limbs(
            rel,
            ks,
            k + 1,
            descend,
            fuel,
        )
    }
}

/// Every child has its branch, in order: the last one ends the trunk, and those before carry it on.
pub proof fn law_every_child_has_its_branch(
    rel: Seq<ProcessView>,
    ks: Seq<int>,
    k: int,
    descend: Seq<char>,
    fuel: nat,
)
    requires
        0 <= k <= ks.len(),
    ensures
        limbs(rel, ks, k, descend, fuel) == Seq::new(
            (ks.len() - k) as nat,
            |i: int|
                if k + i == ks.len() - 1 {
                    subtree(rel, ks[k + i], descend + "└─ "@, descend + "   "@, fuel)
                } else {
                    subtree(rel, ks[k + i], descend + "├─ "@, descend + "│  "@, fuel)
                },
        ).flatten(),
    decreases ks.len() - k,
{
    let all = Seq::new(
        (ks.len() - k) as nat,
        |i: int|
            if k + i == ks.len() - 1 {
                subtree(rel, ks[k + i], descend + "└─ "@, descend + "   "@, fuel)
            } else {
                subtree(rel, ks[k + i], descend + "├─ "@, descend + "│  "@, fuel)
            },
    );
    if k < ks.len() {
        law_every_child_has_its_branch(rel, ks, k + 1, descend, fuel);
        assert(all.drop_first() =~= Seq::new(
            (ks.len() - (k + 1)) as nat,
            |i: int|
                if k + 1 + i == ks.len() - 1 {
                    subtree(rel, ks[k + 1 + i], descend + "└─ "@, descend + "   "@, fuel)
                } else {
                    subtree(rel, ks[k + 1 + i], descend + "├─ "@, descend + "│  "@, fuel)
                },
        ));
    } else {
        assert(all.len() == 0);
    }
}

/// The roots from number `k` on with everything beneath them.
pub open spec fn trees(rel: Seq<ProcessView>, rs: Seq<int>, k: int) -> Seq<TreeRowView>
    decreases rs.len() - k,
{
    if k >= rs.len() {
        seq![]
    } else {
        subtree(rel, rs[k], seq![], seq![], rel.len()) + trees(rel, rs, k + 1)
    }
}

/// Every root has its tree, in order, with nothing before it.
pub proof fn law_every_root_has_its_tree(rel: Seq<ProcessView>, rs: Seq<int>, k: int)
    requires
        0 <= k <= rs.len(),
    ensures
        trees(rel, rs, k) == Seq::new(
            (rs.len() - k) as nat,
            |i: int| subtree(rel, rs[k + i], seq![], seq![], rel.len()),
        ).flatten(),
    decreases rs.len() - k,
{
    let all = Seq::new(
        (rs.len() - k) as nat,
        |i: int| subtree(rel, rs[k + i], seq![], seq![], rel.len()),
    );
    if k < rs.len() {
        law_every_root_has_its_tree(rel, rs, k + 1);
        assert(all.drop_first() =~= Seq::new(
            (rs.len() - (k + 1)) as nat,
            |i: int| subtree(rel, rs[k + 1 + i], seq![], seq![], rel.len()),
        ));
    } else {
        assert(all.len() == 0);
    }
}

/// Every process in display order with its branches. No tree is deeper than there are processes.
pub open spec fn drawn(rel: Seq<ProcessView>) -> Seq<TreeRowView> {
    trees(rel, roots(rel, rel.len()), 0)
}

/// PIDs as numbers.
pub open spec fn as_ints(pids: Seq<u32>) -> Seq<int> {
    pids.map_values(|p: u32| p as int)
}

/// The children of a process, in order of PID.
fn kids_of(rel: &Vec<Process>, pid: u32) -> (r: Vec<u32>)
    ensures
        as_ints(r@) == kids(rel.deep_view(), pid as int, rel.deep_view().len()),
{
    let mut out: Vec<u32> = Vec::new();
    let mut i: usize = 0;
    assert(as_ints(out@) =~= seq![]);
    while i < rel.len()
        invariant
            i <= rel.len(),
            as_ints(out@) == kids(rel.deep_view(), pid as int, i as nat),
        decreases rel.len() - i,
    {
        assert(rel.deep_view()[i as int] == rel@[i as int]@);
        let ghost before = as_ints(out@);
        if rel[i].ppid == pid {
            out.push(rel[i].pid);
            assert(as_ints(out@) =~= before.push(rel@[i as int]@.pid));
        }
        i += 1;
    }
    assert(rel.deep_view().len() == rel@.len());
    out
}

/// The processes whose parent is not in the table, in order of PID.
fn roots_of(rel: &Vec<Process>) -> (r: Vec<u32>)
    ensures
        as_ints(r@) == roots(rel.deep_view(), rel.deep_view().len()),
{
    let mut out: Vec<u32> = Vec::new();
    let mut i: usize = 0;
    assert(as_ints(out@) =~= seq![]);
    while i < rel.len()
        invariant
            i <= rel.len(),
            as_ints(out@) == roots(rel.deep_view(), i as nat),
        decreases rel.len() - i,
    {
        assert(rel.deep_view()[i as int] == rel@[i as int]@);
        let ghost before = as_ints(out@);
        let at: Option<usize> = find_process(rel, rel[i].ppid);
        if at.is_none() {
            out.push(rel[i].pid);
            assert(as_ints(out@) =~= before.push(rel@[i as int]@.pid));
        } else {
            assert(rel.deep_view()[at->0 as int] == rel@[at->0 as int]@);
        }
        i += 1;
    }
    assert(rel.deep_view().len() == rel@.len());
    out
}

/// `a` then `b`.
fn both(a: &str, b: &str) -> (r: String)
    ensures
        r@ == a@ + b@,
{
    let mut out: String = a.to_owned();
    out.append(b);
    out
}

/// Append a process and everything beneath it, at most `fuel` levels deep.
fn grow(rel: &Vec<Process>, pid: u32, branch: String, descend: &str, fuel: usize, out: &mut Vec<TreeRow>)
    ensures
        final(out).deep_view() == old(out).deep_view() + subtree(
            rel.deep_view(),
            pid as int,
            branch@,
            descend@,
            fuel as nat,
        ),
    decreases fuel,
{
    let ghost before = out.deep_view();
    let ghost bv = branch@;
    if fuel == 0 {
        assert(before + seq![] =~= before);
        return;
    }
    out.push(TreeRow { pid, branch });
    let ghost head = seq![TreeRowView { pid: pid as int, branch: bv }];
    assert(out.deep_view() =~= before + head);
    let ks: Vec<u32> = kids_of(rel, pid);
    let ghost kv = as_ints(ks@);
    let mut k: usize = 0;
    assert(out.deep_view() + limbs(rel.deep_view(), kv, 0, descend@, (fuel - 1) as nat) =~= before
        + subtree(rel.deep_view(), pid as int, bv, descend@, fuel as nat));
    while k < ks.len()
        invariant
            k <= ks.len(),
            fuel > 0,
            kv == as_ints(ks@),
            out.deep_view() + limbs(rel.deep_view(), kv, k as int, descend@, (fuel - 1) as nat)
                == before + subtree(rel.deep_view(), pid as int, bv, descend@, fuel as nat),
        decreases ks.len() - k,
    {
        let ghost now = out.deep_view();
        assert(kv[k as int] == ks@[k as int] as int);
        if k == ks.len() - 1 {
            grow(rel, ks[k], both(descend, "└─ "), both(descend, "   ").as_str(), fuel - 1, out);
        } else {
            grow(rel, ks[k], both(descend, "├─ "), both(descend, "│  ").as_str(), fuel - 1, out);
        }
        assert(out.deep_view() + limbs(rel.deep_view(), kv, k + 1, descend@, (fuel - 1) as nat)
            =~= now + limbs(rel.deep_view(), kv, k as int, descend@, (fuel - 1) as nat));
        k += 1;
    }
    assert(out.deep_view() + seq![] =~= out.deep_view());
}

/// Every relevant process in display order with its branches: the one tree walk, shared by every
/// view of the tree.
pub fn tree_order(rel: &Vec<Process>) -> (r: Vec<TreeRow>)
    ensures
        r.deep_view() == drawn(rel.deep_view()),
{
    let rs: Vec<u32> = roots_of(rel);
    let ghost rv = as_ints(rs@);
    let mut out: Vec<TreeRow> = Vec::new();
    let mut k: usize = 0;
    assert(rel.deep_view().len() == rel@.len());
    assert(out.deep_view() + drawn(rel.deep_view()) =~= drawn(rel.deep_view()));
    while k < rs.len()
        invariant
            k <= rs.len(),
            rv == as_ints(rs@),
            rel.deep_view().len() == rel.len(),
            out.deep_view() + trees(rel.deep_view(), rv, k as int) == drawn(rel.deep_view()),
        decreases rs.len() - k,
    {
        let ghost now = out.deep_view();
        assert(rv[k as int] == rs@[k as int] as int);
        grow(rel, rs[k], String::new(), "", rel.len(), &mut out);
        proof {
            reveal_strlit("");
            assert(""@ =~= seq![]);
        }
        assert(out.deep_view() + trees(rel.deep_view(), rv, k + 1) =~= now + trees(
            rel.deep_view(),
            rv,
            k as int,
        ));
        k += 1;
    }
    assert(out.deep_view() + seq![] =~= out.deep_view());
    out
}

// --- independent trees ----------------------------------------------------------------------

/// Whether one of the `fuel` nearest ancestors of a process is in a set.
pub open spec fn claimed(rel: Seq<ProcessView>, set: Seq<u32>, pid: int, fuel: nat) -> bool
    decreases fuel,
{
    if fuel == 0 {
        false
    } else {
        match position(rel, pid, 0) {
            Some(i) => is_matched(set, rel[i].ppid) || (has_pid(rel, rel[i].ppid) && claimed(
                rel,
                set,
                rel[i].ppid,
                (fuel - 1) as nat,
            )),
            None => false,
        }
    }
}

/// A process is claimed where its parent is one of the set, and else where its parent is in the
/// table and is claimed itself; one whose parent is neither is not.
pub proof fn law_a_claim_runs_from_parent_to_child(
    rel: Seq<ProcessView>,
    set: Seq<u32>,
    i: int,
    fuel: nat,
)
    requires
        in_pid_order(rel),
        0 <= i < rel.len(),
    ensures
        (exists|m: int| 0 <= m < set.len() && #[trigger] set[m] as int == rel[i].ppid) ==> claimed(
            rel,
            set,
            rel[i].pid,
            fuel + 1,
        ),
        !is_matched(set, rel[i].ppid) ==> claimed(rel, set, rel[i].pid, fuel + 1) == (has_pid(
            rel,
            rel[i].ppid,
        ) && claimed(rel, set, rel[i].ppid, fuel)),
{
    lemma_position(rel, rel[i].pid, 0);
    let k = position(rel, rel[i].pid, 0)->0;
    assert(position(rel, rel[i].pid, 0) is Some);
    assert(k == i);
}

/// How many of the first `n` of a set have no ancestor in it: each roots a tree of its own.
pub open spec fn free_roots(rel: Seq<ProcessView>, set: Seq<u32>, n: nat) -> nat
    decreases n,
{
    if n == 0 {
        0
    } else {
        free_roots(rel, set, (n - 1) as nat) + if claimed(rel, set, set[n - 1] as int, rel.len() + 1) {
            0nat
        } else {
            1nat
        }
    }
}

/// The trees that some processes span are counted by those that no other of them stands above.
pub proof fn law_every_tree_is_counted_once(rel: Seq<ProcessView>, set: Seq<u32>, n: nat)
    requires
        n <= set.len(),
    ensures
        free_roots(rel, set, n) == set.take(n as int).filter(
            |pid: u32| !claimed(rel, set, pid as int, rel.len() + 1),
        ).len(),
    decreases n,
{
    if n == 0 {
        reveal(Seq::filter);
    } else {
        law_every_tree_is_counted_once(rel, set, (n - 1) as nat);
        lemma_filter_last(set, |pid: u32| !claimed(rel, set, pid as int, rel.len() + 1), n);
    }
}

/// Whether one of a process's ancestors is in a set. Bounded by the table's size, so that a
/// corrupt chain of parents cannot turn this into a loop.
fn is_claimed(rel: &Vec<Process>, set: &Vec<u32>, pid: u32) -> (r: bool)
    ensures
        r == claimed(rel.deep_view(), set@, pid as int, rel.deep_view().len() + 1),
{
    let mut current: u32 = pid;
    let mut steps: usize = 0;
    assert(rel.deep_view().len() == rel@.len());
    while steps <= rel.len()
        invariant
            steps <= rel.len() + 1,
            rel.deep_view().len() == rel.len(),
            claimed(rel.deep_view(), set@, pid as int, rel.deep_view().len() + 1) == claimed(
                rel.deep_view(),
                set@,
                current as int,
                (rel.deep_view().len() + 1 - steps) as nat,
            ),
        decreases rel.len() + 1 - steps,
    {
        match find_process(rel, current) {
            Some(i) => {
                assert(rel.deep_view()[i as int] == rel@[i as int]@);
                let parent: u32 = rel[i].ppid;
                if among(set, parent) {
                    return true;
                }
                let above: Option<usize> = find_process(rel, parent);
                if above.is_none() {
                    return false;
                }
                assert(rel.deep_view()[above->0 as int] == rel@[above->0 as int]@);
                assert(has_pid(rel.deep_view(), parent as int));
                current = parent;
            },
            None => {
                return false;
            },
        }
        if steps == rel.len() {
            assert(!claimed(rel.deep_view(), set@, current as int, 0));
            return false;
        }
        steps += 1;
    }
    false
}

/// How many independent subtrees a set of processes spans: two workers under a matched service
/// are one tree, two unrelated daemons are two.
pub fn tree_count(rel: &Vec<Process>, set: &Vec<u32>) -> (r: usize)
    ensures
        r == free_roots(rel.deep_view(), set@, set@.len()),
{
    let mut n: usize = 0;
    let mut i: usize = 0;
    while i < set.len()
        invariant
            i <= set.len(),
            n <= i,
            n == free_roots(rel.deep_view(), set@, i as nat),
        decreases set.len() - i,
    {
        if !is_claimed(rel, set, set[i]) {
            n += 1;
        }
        i += 1;
    }
    n
}

// --- each process once ----------------------------------------------------------------------

/// The process `n` parent steps above a process, where the table has every step.
pub open spec fn ancestor(rel: Seq<ProcessView>, pid: int, n: nat) -> Option<int>
    decreases n,
{
    match position(rel, pid, 0) {
        None => None,
        Some(i) => if n == 0 {
            Some(pid)
        } else {
            ancestor(rel, rel[i].ppid, (n - 1) as nat)
        },
    }
}

/// Whether a process has no parent in the table.
pub open spec fn is_root(rel: Seq<ProcessView>, pid: int) -> bool {
    ancestor(rel, pid, 0) is Some && ancestor(rel, pid, 1) is None
}

/// Whether a root stands above a process, or it is one: whether its parents form no circle.
pub open spec fn is_rooted(rel: Seq<ProcessView>, pid: int) -> bool {
    exists|n: nat| is_rooted_at(rel, pid, n)
}

/// Whether a root stands `n` steps above a process.
pub open spec fn is_rooted_at(rel: Seq<ProcessView>, pid: int, n: nat) -> bool {
    ancestor(rel, pid, n) is Some && is_root(rel, ancestor(rel, pid, n)->0)
}

/// The PIDs of rows.
pub open spec fn pids_of(rows: Seq<TreeRowView>) -> Seq<int> {
    rows.map_values(|r: TreeRowView| r.pid)
}

/// Climbing `m` steps and then `n` is climbing them at once.
proof fn lemma_ancestor_sum(rel: Seq<ProcessView>, pid: int, m: nat, n: nat)
    requires
        ancestor(rel, pid, m) is Some,
    ensures
        ancestor(rel, ancestor(rel, pid, m)->0, n) == ancestor(rel, pid, m + n),
    decreases m,
{
    if m > 0 {
        let i = position(rel, pid, 0)->0;
        lemma_ancestor_sum(rel, rel[i].ppid, (m - 1) as nat, n);
    }
}

proof fn lemma_ancestor_prefix(rel: Seq<ProcessView>, pid: int, m: nat, n: nat)
    requires
        m <= n,
        ancestor(rel, pid, n) is Some,
    ensures
        ancestor(rel, pid, m) is Some,
    decreases m,
{
    if m > 0 {
        let i = position(rel, pid, 0)->0;
        lemma_ancestor_prefix(rel, rel[i].ppid, (m - 1) as nat, (n - 1) as nat);
    }
}

/// A process with a root above it is not its own ancestor.
proof fn lemma_no_circle(rel: Seq<ProcessView>, pid: int, d: nat, m: nat)
    requires
        is_rooted_at(rel, pid, d),
        m > 0,
    ensures
        ancestor(rel, pid, m) != Some(pid),
    decreases d,
{
    if ancestor(rel, pid, m) == Some(pid) {
        let r = ancestor(rel, pid, d)->0;
        if d < m {
            lemma_ancestor_sum(rel, pid, d, (m - d) as nat);
            lemma_ancestor_prefix(rel, r, 1, (m - d) as nat);
        } else {
            lemma_ancestor_sum(rel, pid, m, (d - m) as nat);
            lemma_no_circle(rel, pid, (d - m) as nat, m);
        }
    }
}

/// Whether a child of a process stands among the first `n` of the table.
spec fn is_child(rel: Seq<ProcessView>, pid: int, child: int, n: nat) -> bool {
    exists|i: int| 0 <= i < n && (#[trigger] rel[i]).pid == child && rel[i].ppid == pid
}

proof fn lemma_kids(rel: Seq<ProcessView>, pid: int, n: nat)
    requires
        in_pid_order(rel),
        n <= rel.len(),
    ensures
        kids(rel, pid, n).no_duplicates(),
        forall|k: int|
            0 <= k < kids(rel, pid, n).len() ==> is_child(
                rel,
                pid,
                #[trigger] kids(rel, pid, n)[k],
                n,
            ),
        forall|i: int|
            0 <= i < n && (#[trigger] rel[i]).ppid == pid ==> kids(rel, pid, n).contains(
                rel[i].pid,
            ),
    decreases n,
{
    if n > 0 {
        lemma_kids(rel, pid, (n - 1) as nat);
        let before = kids(rel, pid, (n - 1) as nat);
        let after = kids(rel, pid, n);
        assert forall|k: int| 0 <= k < after.len() implies is_child(
            rel,
            pid,
            #[trigger] after[k],
            n,
        ) by {
            if k < before.len() {
                assert(after[k] == before[k]);
                assert(is_child(rel, pid, before[k], (n - 1) as nat));
                let i = choose|i: int|
                    0 <= i < n - 1 && (#[trigger] rel[i]).pid == before[k] && rel[i].ppid == pid;
                assert(rel[i].pid == after[k]);
            } else {
                assert(rel[n - 1].pid == after[k]);
            }
        }
        if rel[n - 1].ppid == pid {
            assert(after.no_duplicates()) by {
                assert forall|a: int, b: int|
                    0 <= a < after.len() && 0 <= b < after.len() && a != b implies after[a]
                    != after[b] by {
                    let c = if a < b {
                        a
                    } else {
                        b
                    };
                    assert(after[c] == before[c]);
                    assert(is_child(rel, pid, before[c], (n - 1) as nat));
                    let i = choose|i: int|
                        0 <= i < n - 1 && (#[trigger] rel[i]).pid == before[c] && rel[i].ppid == pid;
                    assert(rel[i].pid < rel[n - 1].pid);
                }
            }
            assert forall|i: int| 0 <= i < n && (#[trigger] rel[i]).ppid == pid implies after.contains(
                rel[i].pid,
            ) by {
                if i < n - 1 {
                    let k = choose|k: int| 0 <= k < before.len() && before[k] == rel[i].pid;
                    assert(after[k] == rel[i].pid);
                } else {
                    assert(after[after.len() - 1] == rel[i].pid);
                }
            }
        }
    }
}

proof fn lemma_position_is(rel: Seq<ProcessView>, i: int)
    requires
        in_pid_order(rel),
        0 <= i < rel.len(),
    ensures
        position(rel, rel[i].pid, 0) == Some(i),
{
    lemma_position(rel, rel[i].pid, 0);
    let found = position(rel, rel[i].pid, 0);
    assert(rel[i].pid == rel[i].pid);
    if found is Some && found->0 < i {
        assert(rel[found->0].pid < rel[i].pid);
    }
    if found is Some && found->0 > i {
        assert(rel[i].pid < rel[found->0].pid);
    }
}

/// A kid's parent is the process it is a kid of.
proof fn lemma_kid_climbs(rel: Seq<ProcessView>, pid: int, k: int)
    requires
        in_pid_order(rel),
        0 <= k < kids(rel, pid, rel.len()).len(),
        has_pid(rel, pid),
    ensures
        ancestor(rel, kids(rel, pid, rel.len())[k], 0) is Some,
        ancestor(rel, kids(rel, pid, rel.len())[k], 1) == Some(pid),
{
    lemma_kids(rel, pid, rel.len());
    let c = kids(rel, pid, rel.len())[k];
    assert(is_child(rel, pid, c, rel.len()));
    let i = choose|i: int| 0 <= i < rel.len() && (#[trigger] rel[i]).pid == c && rel[i].ppid == pid;
    lemma_position_is(rel, i);
    lemma_position(rel, pid, 0);
    assert(ancestor(rel, c, 1) == ancestor(rel, pid, 0));
}

/// What stands in a subtree has its top above it, and nothing stands in it twice.
proof fn lemma_subtree_once(
    rel: Seq<ProcessView>,
    pid: int,
    branch: Seq<char>,
    descend: Seq<char>,
    fuel: nat,
    d: nat,
)
    requires
        in_pid_order(rel),
        is_rooted_at(rel, pid, d),
    ensures
        pids_of(subtree(rel, pid, branch, descend, fuel)).no_duplicates(),
        forall|q: int| #[trigger]
            pids_of(subtree(rel, pid, branch, descend, fuel)).contains(q) ==> exists|n: nat|
                #[trigger] ancestor(rel, q, n) == Some(pid),
    decreases fuel, 0int,
{
    let rows = subtree(rel, pid, branch, descend, fuel);
    if fuel > 0 {
        let ks = kids(rel, pid, rel.len());
        let rest = limbs(rel, ks, 0, descend, (fuel - 1) as nat);
        lemma_ancestor_prefix(rel, pid, 0, d);
        lemma_position(rel, pid, 0);
        lemma_limbs_once(rel, pid, 0, descend, (fuel - 1) as nat, d);
        assert(pids_of(rows) =~= seq![pid] + pids_of(rest));
        assert forall|q: int| #[trigger] pids_of(rows).contains(q) implies exists|n: nat| #[trigger]
            ancestor(rel, q, n) == Some(pid) by {
            let at = choose|at: int| 0 <= at < pids_of(rows).len() && pids_of(rows)[at] == q;
            if at == 0 {
                assert(ancestor(rel, q, 0) == Some(pid));
            } else {
                assert(pids_of(rest)[at - 1] == q);
                assert(pids_of(rest).contains(q));
                let (k, n) = choose|k: int, n: nat|
                    0 <= k < ks.len() && #[trigger] ancestor(rel, q, n) == Some(#[trigger] ks[k]);
                lemma_kid_climbs(rel, pid, k);
                lemma_ancestor_sum(rel, q, n, 1);
                assert(ancestor(rel, q, n + 1) == Some(pid));
            }
        }
        assert(!pids_of(rest).contains(pid)) by {
            if pids_of(rest).contains(pid) {
                let (k, n) = choose|k: int, n: nat|
                    0 <= k < ks.len() && #[trigger] ancestor(rel, pid, n) == Some(#[trigger] ks[k]);
                lemma_kid_climbs(rel, pid, k);
                lemma_ancestor_sum(rel, pid, n, 1);
                lemma_no_circle(rel, pid, d, n + 1);
            }
        }
        assert(pids_of(rows).no_duplicates()) by {
            assert forall|a: int, b: int|
                0 <= a < pids_of(rows).len() && 0 <= b < pids_of(rows).len() && a != b implies pids_of(
                rows,
            )[a] != pids_of(rows)[b] by {
                if a == 0 {
                    assert(pids_of(rest)[b - 1] == pids_of(rows)[b]);
                } else if b == 0 {
                    assert(pids_of(rest)[a - 1] == pids_of(rows)[a]);
                } else {
                    assert(pids_of(rest)[a - 1] == pids_of(rows)[a]);
                    assert(pids_of(rest)[b - 1] == pids_of(rows)[b]);
                }
            }
        }
    }
}

/// What stands in the limbs of a process has one of its children above it, and nothing stands in
/// them twice.
proof fn lemma_limbs_once(
    rel: Seq<ProcessView>,
    pid: int,
    k: int,
    descend: Seq<char>,
    fuel: nat,
    d: nat,
)
    requires
        in_pid_order(rel),
        is_rooted_at(rel, pid, d),
        has_pid(rel, pid),
        0 <= k <= kids(rel, pid, rel.len()).len(),
    ensures
        pids_of(limbs(rel, kids(rel, pid, rel.len()), k, descend, fuel)).no_duplicates(),
        forall|q: int| #[trigger]
            pids_of(limbs(rel, kids(rel, pid, rel.len()), k, descend, fuel)).contains(q)
                ==> exists|j: int, n: nat|
                k <= j < kids(rel, pid, rel.len()).len() && #[trigger] ancestor(rel, q, n) == Some(
                    #[trigger] kids(rel, pid, rel.len())[j],
                ),
    decreases fuel, 1 + kids(rel, pid, rel.len()).len() - k,
{
    let ks = kids(rel, pid, rel.len());
    let rows = limbs(rel, ks, k, descend, fuel);
    if k < ks.len() {
        let last = k == ks.len() - 1;
        let twig = if last {
            "└─ "@
        } else {
            "├─ "@
        };
        let carry = if last {
            "   "@
        } else {
            "│  "@
        };
        let first = subtree(rel, ks[k], descend + twig, descend + carry, fuel);
        let rest = limbs(rel, ks, k + 1, descend, fuel);
        lemma_kid_climbs(rel, pid, k);
        lemma_ancestor_sum(rel, ks[k], 1, d);
        assert(is_rooted_at(rel, ks[k], d + 1));
        lemma_subtree_once(rel, ks[k], descend + twig, descend + carry, fuel, d + 1);
        lemma_limbs_once(rel, pid, k + 1, descend, fuel, d);
        assert(pids_of(rows) =~= pids_of(first) + pids_of(rest));
        assert forall|q: int| #[trigger] pids_of(rows).contains(q) implies exists|j: int, n: nat|
            k <= j < ks.len() && #[trigger] ancestor(rel, q, n) == Some(#[trigger] ks[j]) by {
            let at = choose|at: int| 0 <= at < pids_of(rows).len() && pids_of(rows)[at] == q;
            if at < pids_of(first).len() {
                assert(pids_of(first)[at] == q);
                assert(pids_of(first).contains(q));
                let n = choose|n: nat| #[trigger] ancestor(rel, q, n) == Some(ks[k]);
                assert(ancestor(rel, q, n) == Some(ks[k]));
            } else {
                assert(pids_of(rest)[at - pids_of(first).len()] == q);
                assert(pids_of(rest).contains(q));
            }
        }
        assert forall|q: int| pids_of(first).contains(q) && pids_of(rest).contains(q) implies false by {
            let n1 = choose|n: nat| #[trigger] ancestor(rel, q, n) == Some(ks[k]);
            let (j, n2) = choose|j: int, n: nat|
                k + 1 <= j < ks.len() && #[trigger] ancestor(rel, q, n) == Some(#[trigger] ks[j]);
            lemma_kids(rel, pid, rel.len());
            lemma_kid_climbs(rel, pid, k);
            lemma_kid_climbs(rel, pid, j);
            lemma_ancestor_sum(rel, q, n1, 1);
            lemma_ancestor_sum(rel, q, n2, 1);
            if n1 < n2 {
                lemma_ancestor_sum(rel, q, n1 + 1, (n2 - n1) as nat);
                lemma_no_circle(rel, pid, d, (n2 - n1) as nat);
            } else if n2 < n1 {
                lemma_ancestor_sum(rel, q, n2 + 1, (n1 - n2) as nat);
                lemma_no_circle(rel, pid, d, (n1 - n2) as nat);
            } else {
                assert(ks[k] == ks[j]);
            }
        }
        lemma_concat_once(pids_of(first), pids_of(rest));
    }
}

proof fn lemma_concat_once(a: Seq<int>, b: Seq<int>)
    requires
        a.no_duplicates(),
        b.no_duplicates(),
        forall|q: int| !(#[trigger] a.contains(q) && b.contains(q)),
    ensures
        (a + b).no_duplicates(),
{
    assert forall|i: int, j: int| 0 <= i < (a + b).len() && 0 <= j < (a + b).len() && i != j implies (a
        + b)[i] != (a + b)[j] by {
        if i < a.len() && j >= a.len() {
            assert(a.contains(a[i]));
            assert(b.contains(b[j - a.len()]));
            assert(!b.contains(a[i]));
        } else if j < a.len() && i >= a.len() {
            assert(a.contains(a[j]));
            assert(b.contains(b[i - a.len()]));
            assert(!b.contains(a[j]));
        }
    }
}

proof fn lemma_roots(rel: Seq<ProcessView>, n: nat)
    requires
        in_pid_order(rel),
        n <= rel.len(),
    ensures
        roots(rel, n).no_duplicates(),
        forall|k: int|
            0 <= k < roots(rel, n).len() ==> is_root(rel, #[trigger] roots(rel, n)[k]) && exists|i: int|
                0 <= i < n && (#[trigger] rel[i]).pid == roots(rel, n)[k],
        forall|i: int|
            0 <= i < n && is_root(rel, (#[trigger] rel[i]).pid) ==> roots(rel, n).contains(
                rel[i].pid,
            ),
    decreases n,
{
    if n > 0 {
        lemma_roots(rel, (n - 1) as nat);
        lemma_position_is(rel, n - 1);
        lemma_position(rel, rel[n - 1].ppid, 0);
        let before = roots(rel, (n - 1) as nat);
        let after = roots(rel, n);
        let top = rel[n - 1];
        assert(ancestor(rel, top.pid, 0) is Some);
        assert(ancestor(rel, top.pid, 1) == ancestor(rel, top.ppid, 0));
        if has_pid(rel, top.ppid) {
            let j = choose|j: int| 0 <= j < rel.len() && (#[trigger] rel[j]).pid == top.ppid;
            lemma_position_is(rel, j);
            assert(!is_root(rel, top.pid));
        } else {
            assert(position(rel, top.ppid, 0) is None) by {
                if position(rel, top.ppid, 0) is Some {
                    assert(rel[position(rel, top.ppid, 0)->0].pid == top.ppid);
                }
            }
            assert(is_root(rel, top.pid));
            assert forall|k: int| 0 <= k < after.len() implies is_root(rel, #[trigger] after[k])
                && exists|i: int| 0 <= i < n && (#[trigger] rel[i]).pid == after[k] by {
                if k < before.len() {
                    assert(after[k] == before[k]);
                } else {
                    assert(rel[n - 1].pid == after[k]);
                }
            }
            assert(after.no_duplicates()) by {
                assert forall|a: int, b: int|
                    0 <= a < after.len() && 0 <= b < after.len() && a != b implies after[a]
                    != after[b] by {
                    let c = if a < b {
                        a
                    } else {
                        b
                    };
                    assert(after[c] == before[c]);
                    let i = choose|i: int| 0 <= i < n - 1 && (#[trigger] rel[i]).pid == before[c];
                    assert(rel[i].pid < rel[n - 1].pid);
                }
            }
            assert forall|i: int| 0 <= i < n && is_root(rel, (#[trigger] rel[i]).pid) implies after.contains(
                rel[i].pid,
            ) by {
                if i < n - 1 {
                    let k = choose|k: int| 0 <= k < before.len() && before[k] == rel[i].pid;
                    assert(after[k] == rel[i].pid);
                } else {
                    assert(after[after.len() - 1] == rel[i].pid);
                }
            }
        }
    }
}

proof fn lemma_trees_once(rel: Seq<ProcessView>, k: int)
    requires
        in_pid_order(rel),
        0 <= k <= roots(rel, rel.len()).len(),
    ensures
        pids_of(trees(rel, roots(rel, rel.len()), k)).no_duplicates(),
        forall|q: int| #[trigger]
            pids_of(trees(rel, roots(rel, rel.len()), k)).contains(q) ==> exists|j: int, n: nat|
                k <= j < roots(rel, rel.len()).len() && #[trigger] ancestor(rel, q, n) == Some(
                    #[trigger] roots(rel, rel.len())[j],
                ),
    decreases roots(rel, rel.len()).len() - k,
{
    let rs = roots(rel, rel.len());
    let rows = trees(rel, rs, k);
    if k < rs.len() {
        let first = subtree(rel, rs[k], seq![], seq![], rel.len());
        let rest = trees(rel, rs, k + 1);
        lemma_roots(rel, rel.len());
        assert(is_root(rel, rs[k]));
        assert(is_rooted_at(rel, rs[k], 0));
        lemma_subtree_once(rel, rs[k], seq![], seq![], rel.len(), 0);
        lemma_trees_once(rel, k + 1);
        assert(pids_of(rows) =~= pids_of(first) + pids_of(rest));
        assert forall|q: int| #[trigger] pids_of(rows).contains(q) implies exists|j: int, n: nat|
            k <= j < rs.len() && #[trigger] ancestor(rel, q, n) == Some(#[trigger] rs[j]) by {
            let at = choose|at: int| 0 <= at < pids_of(rows).len() && pids_of(rows)[at] == q;
            if at < pids_of(first).len() {
                assert(pids_of(first)[at] == q);
                assert(pids_of(first).contains(q));
                let n = choose|n: nat| #[trigger] ancestor(rel, q, n) == Some(rs[k]);
                assert(ancestor(rel, q, n) == Some(rs[k]));
            } else {
                assert(pids_of(rest)[at - pids_of(first).len()] == q);
                assert(pids_of(rest).contains(q));
            }
        }
        assert forall|q: int| pids_of(first).contains(q) && pids_of(rest).contains(q) implies false by {
            let n1 = choose|n: nat| #[trigger] ancestor(rel, q, n) == Some(rs[k]);
            let (j, n2) = choose|j: int, n: nat|
                k + 1 <= j < rs.len() && #[trigger] ancestor(rel, q, n) == Some(#[trigger] rs[j]);
            assert(is_root(rel, rs[k]));
            assert(is_root(rel, rs[j]));
            if n1 < n2 {
                lemma_ancestor_sum(rel, q, n1, (n2 - n1) as nat);
                lemma_ancestor_prefix(rel, rs[k], 1, (n2 - n1) as nat);
            } else if n2 < n1 {
                lemma_ancestor_sum(rel, q, n2, (n1 - n2) as nat);
                lemma_ancestor_prefix(rel, rs[j], 1, (n1 - n2) as nat);
            } else {
                assert(rs[k] == rs[j]);
            }
        }
        lemma_concat_once(pids_of(first), pids_of(rest));
    }
}

/// What stands near enough below a process stands in its subtree.
proof fn lemma_subtree_holds(
    rel: Seq<ProcessView>,
    pid: int,
    branch: Seq<char>,
    descend: Seq<char>,
    fuel: nat,
    q: int,
    n: nat,
)
    requires
        in_pid_order(rel),
        n < fuel,
        ancestor(rel, q, n) == Some(pid),
    ensures
        pids_of(subtree(rel, pid, branch, descend, fuel)).contains(q),
    decreases fuel, 0int,
{
    let rows = subtree(rel, pid, branch, descend, fuel);
    if n == 0 {
        assert(pids_of(rows)[0] == pid);
        assert(ancestor(rel, q, 0) == Some(q));
    } else {
        let ks = kids(rel, pid, rel.len());
        let rest = limbs(rel, ks, 0, descend, (fuel - 1) as nat);
        lemma_ancestor_prefix(rel, q, (n - 1) as nat, n);
        let c = ancestor(rel, q, (n - 1) as nat)->0;
        lemma_ancestor_sum(rel, q, (n - 1) as nat, 1);
        lemma_ancestor_sum(rel, q, (n - 1) as nat, 0);
        assert(ancestor(rel, c, 1) == Some(pid));
        assert(ancestor(rel, c, 0) is Some);
        let i = position(rel, c, 0)->0;
        lemma_position(rel, c, 0);
        assert(ancestor(rel, rel[i].ppid, 0) == Some(pid));
        lemma_kids(rel, pid, rel.len());
        assert(rel[i].ppid == pid);
        assert(ks.contains(rel[i].pid));
        let k = choose|k: int| 0 <= k < ks.len() && ks[k] == c;
        lemma_limbs_hold(rel, ks, 0, k, descend, (fuel - 1) as nat, q, (n - 1) as nat);
        let at = choose|at: int| 0 <= at < pids_of(rest).len() && pids_of(rest)[at] == q;
        assert(pids_of(rows)[at + 1] == q) by {
            assert(rows[at + 1] == rest[at]);
        }
    }
}

proof fn lemma_limbs_hold(
    rel: Seq<ProcessView>,
    ks: Seq<int>,
    k: int,
    which: int,
    descend: Seq<char>,
    fuel: nat,
    q: int,
    n: nat,
)
    requires
        in_pid_order(rel),
        0 <= k <= which < ks.len(),
        n < fuel,
        ancestor(rel, q, n) == Some(ks[which]),
    ensures
        pids_of(limbs(rel, ks, k, descend, fuel)).contains(q),
    decreases fuel, 1 + ks.len() - k,
{
    let rows = limbs(rel, ks, k, descend, fuel);
    let last = k == ks.len() - 1;
    let twig = if last {
        "└─ "@
    } else {
        "├─ "@
    };
    let carry = if last {
        "   "@
    } else {
        "│  "@
    };
    let first = subtree(rel, ks[k], descend + twig, descend + carry, fuel);
    let rest = limbs(rel, ks, k + 1, descend, fuel);
    if k == which {
        lemma_subtree_holds(rel, ks[k], descend + twig, descend + carry, fuel, q, n);
        let at = choose|at: int| 0 <= at < pids_of(first).len() && pids_of(first)[at] == q;
        assert(pids_of(rows)[at] == q) by {
            assert(rows[at] == first[at]);
        }
    } else {
        lemma_limbs_hold(rel, ks, k + 1, which, descend, fuel, q, n);
        let at = choose|at: int| 0 <= at < pids_of(rest).len() && pids_of(rest)[at] == q;
        assert(pids_of(rows)[first.len() + at] == q) by {
            assert(rows[first.len() + at] == rest[at]);
        }
    }
}

proof fn lemma_trees_hold(rel: Seq<ProcessView>, rs: Seq<int>, k: int, which: int, q: int, n: nat)
    requires
        in_pid_order(rel),
        0 <= k <= which < rs.len(),
        n < rel.len(),
        ancestor(rel, q, n) == Some(rs[which]),
    ensures
        pids_of(trees(rel, rs, k)).contains(q),
    decreases rs.len() - k,
{
    let rows = trees(rel, rs, k);
    let first = subtree(rel, rs[k], seq![], seq![], rel.len());
    let rest = trees(rel, rs, k + 1);
    if k == which {
        lemma_subtree_holds(rel, rs[k], seq![], seq![], rel.len(), q, n);
        let at = choose|at: int| 0 <= at < pids_of(first).len() && pids_of(first)[at] == q;
        assert(pids_of(rows)[at] == q) by {
            assert(rows[at] == first[at]);
        }
    } else {
        lemma_trees_hold(rel, rs, k + 1, which, q, n);
        let at = choose|at: int| 0 <= at < pids_of(rest).len() && pids_of(rest)[at] == q;
        assert(pids_of(rows)[first.len() + at] == q) by {
            assert(rows[first.len() + at] == rest[at]);
        }
    }
}

/// The positions of a process and its ancestors up to `n` steps, nearest first.
spec fn chain(rel: Seq<ProcessView>, pid: int, n: nat) -> Seq<int> {
    Seq::new(n + 1, |m: int| position(rel, ancestor(rel, pid, m as nat)->0, 0)->0)
}

/// A root is never further above a process than there are other processes.
proof fn lemma_rooted_near(rel: Seq<ProcessView>, pid: int, n: nat)
    requires
        in_pid_order(rel),
        is_rooted_at(rel, pid, n),
    ensures
        n < rel.len(),
{
    let ch = chain(rel, pid, n);
    assert forall|m: int| 0 <= m <= n implies 0 <= #[trigger] ch[m] < rel.len()
        && rel[ch[m]].pid == ancestor(rel, pid, m as nat)->0 by {
        lemma_ancestor_prefix(rel, pid, m as nat, n);
        lemma_ancestor_sum(rel, pid, m as nat, 0);
        lemma_position(rel, ancestor(rel, pid, m as nat)->0, 0);
    }
    assert(ch.no_duplicates()) by {
        assert forall|a: int, b: int| 0 <= a < ch.len() && 0 <= b < ch.len() && a != b implies ch[a]
            != ch[b] by {
            let x = if a < b {
                a
            } else {
                b
            };
            let y = if a < b {
                b
            } else {
                a
            };
            if ch[a] == ch[b] {
                let p = ancestor(rel, pid, x as nat)->0;
                lemma_ancestor_prefix(rel, pid, x as nat, n);
                lemma_ancestor_prefix(rel, pid, y as nat, n);
                lemma_ancestor_sum(rel, pid, x as nat, (y - x) as nat);
                lemma_ancestor_sum(rel, pid, x as nat, (n - x) as nat);
                assert(rel[ch[x]].pid == rel[ch[y]].pid);
                assert(is_rooted_at(rel, p, (n - x) as nat));
                lemma_no_circle(rel, p, (n - x) as nat, (y - x) as nat);
            }
        }
    }
    ch.unique_seq_to_set();
    let all = vstd::set_lib::set_int_range(0, rel.len() as int);
    vstd::set_lib::lemma_int_range(0, rel.len() as int);
    assert(ch.to_set().subset_of(all)) by {
        assert forall|x: int| ch.to_set().contains(x) implies all.contains(x) by {
            let m = choose|m: int| 0 <= m < ch.len() && ch[m] == x;
            assert(0 <= ch[m] < rel.len());
        }
    }
    vstd::set_lib::lemma_len_subset(ch.to_set(), all);
}

/// Each process is drawn once: no PID stands in the tree twice, and every process stands in it
/// whose parents form no circle.
pub proof fn law_every_process_is_drawn_once(rel: Seq<ProcessView>)
    requires
        in_pid_order(rel),
    ensures
        pids_of(drawn(rel)).no_duplicates(),
        forall|i: int|
            0 <= i < rel.len() && is_rooted(rel, (#[trigger] rel[i]).pid) ==> pids_of(
                drawn(rel),
            ).contains(rel[i].pid),
{
    lemma_trees_once(rel, 0);
    assert forall|i: int| 0 <= i < rel.len() && is_rooted(rel, (#[trigger] rel[i]).pid) implies pids_of(
        drawn(rel),
    ).contains(rel[i].pid) by {
        let q = rel[i].pid;
        let n = choose|n: nat| is_rooted_at(rel, q, n);
        let r = ancestor(rel, q, n)->0;
        lemma_rooted_near(rel, q, n);
        lemma_roots(rel, rel.len());
        lemma_position(rel, r, 0);
        let at = position(rel, r, 0)->0;
        assert(is_root(rel, rel[at].pid));
        let rs = roots(rel, rel.len());
        assert(rs.contains(r));
        let which = choose|which: int| 0 <= which < rs.len() && rs[which] == r;
        lemma_trees_hold(rel, rs, 0, which, q, n);
    }
}

} // verus!
