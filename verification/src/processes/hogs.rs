//! Where the machine is going: the heaviest processes, offered as a checklist.

use vstd::prelude::*;
use vstd::string::*;
use crate::processes::report::{
    column_widths, command_plain, head_of, plain_command, row_head, widths_header, Form, FormItem,
    FormItemView, Widths,
};
use crate::processes::tree::in_pid_order;
use crate::processes::{Process, ProcessView};

verus! {

/// How many of each kind of hog the picker offers at most.
pub const TOP_HOGS: usize = 7;

/// The heading of the heaviest CPU users.
pub const CPU_GROUP: &'static str = "Top CPU consumers";

/// The heading of the heaviest memory users.
pub const MEMORY_GROUP: &'static str = "Top memory consumers";

/// Whether a process can be offered: nothing that would be refused anyway.
pub open spec fn offerable(p: ProcessView) -> bool {
    !p.protected && p.pid != 1 && p.cmdline.len() > 0
}

/// What processes are ranked by.
#[derive(Clone, Copy, PartialEq, Eq, Structural, Debug)]
pub enum Ranking {
    Cpu,
    Memory,
}

/// How much of the ranked resource a process uses.
pub open spec fn weight(p: ProcessView, ranking: Ranking) -> int {
    match ranking {
        Ranking::Cpu => p.cpu_order,
        Ranking::Memory => match p.rss_kib {
            Some(kib) => kib as int,
            None => 0,
        },
    }
}

/// Whether a process is listed before another: the heavier first, of equals the lower PID.
pub open spec fn before(a: ProcessView, b: ProcessView, ranking: Ranking) -> bool {
    weight(a, ranking) > weight(b, ranking) || (weight(a, ranking) == weight(b, ranking) && a.pid
        < b.pid)
}

/// Whether position `i` of the table is in a shortlist.
pub open spec fn listed(list: Seq<usize>, i: int) -> bool {
    exists|k: int| 0 <= k < list.len() && #[trigger] list[k] as int == i
}

/// Whether a list of positions is the shortlist of a table: the offerable processes in order,
/// and where one is left out, enough of the others are listed and before it.
pub open spec fn is_shortlist(list: Seq<usize>, all: Seq<ProcessView>, ranking: Ranking) -> bool {
    &&& list.len() <= TOP_HOGS
    &&& forall|k: int|
        0 <= k < list.len() ==> (#[trigger] list[k]) < all.len() && offerable(all[list[k] as int])
    &&& forall|j: int, k: int|
        0 <= j < k < list.len() ==> before(
            all[(#[trigger] list[j]) as int],
            all[(#[trigger] list[k]) as int],
            ranking,
        )
    &&& forall|i: int|
        0 <= i < all.len() && offerable(#[trigger] all[i]) && !listed(list, i) ==> list.len()
            == TOP_HOGS && forall|k: int|
            0 <= k < list.len() ==> before(all[(#[trigger] list[k]) as int], all[i], ranking)
}

/// A process is offered exactly where it could be ended: it is neither the first of the system, nor
/// of this shell's own ancestry, nor of the kernel. Of those the heaviest seven are, the heavier
/// first, and all where there are no more.
pub proof fn law_the_heaviest_are_offered(
    list: Seq<usize>,
    all: Seq<ProcessView>,
    ranking: Ranking,
    i: int,
)
    requires
        is_shortlist(list, all, ranking),
        0 <= i < all.len(),
    ensures
        list.len() <= 7,
        listed(list, i) ==> all[i].pid != 1 && !all[i].protected && all[i].cmdline.len() > 0,
        all[i].pid != 1 && !all[i].protected && all[i].cmdline.len() > 0 && !listed(list, i)
            ==> list.len() == 7 && forall|k: int|
            0 <= k < 7 ==> weight(all[(#[trigger] list[k]) as int], ranking) >= weight(
                all[i],
                ranking,
            ),
        forall|j: int, k: int|
            0 <= j < k < list.len() ==> weight(all[(#[trigger] list[j]) as int], ranking) >= weight(
                all[(#[trigger] list[k]) as int],
                ranking,
            ),
{
    if listed(list, i) {
        let k = choose|k: int| 0 <= k < list.len() && #[trigger] list[k] as int == i;
        assert(offerable(all[list[k] as int]));
    }
    if offerable(all[i]) && !listed(list, i) {
        assert forall|k: int| 0 <= k < 7 implies weight(all[(#[trigger] list[k]) as int], ranking)
            >= weight(all[i], ranking) by {
            assert(before(all[list[k] as int], all[i], ranking));
        }
    }
    assert forall|j: int, k: int| 0 <= j < k < list.len() implies weight(
        all[(#[trigger] list[j]) as int],
        ranking,
    ) >= weight(all[(#[trigger] list[k]) as int], ranking) by {
        assert(before(all[list[j] as int], all[list[k] as int], ranking));
    }
}

/// Whether a process can be offered.
fn can_offer(p: &Process) -> (r: bool)
    ensures
        r == offerable(p@),
{
    !p.protected && p.pid != 1 && !p.cmdline.as_str().is_empty()
}

/// Whether a process is listed before another.
fn comes_first(a: &Process, b: &Process, ranking: Ranking) -> (r: bool)
    ensures
        r == before(a@, b@, ranking),
{
    match ranking {
        Ranking::Cpu => a.cpu_order > b.cpu_order || (a.cpu_order == b.cpu_order && a.pid < b.pid),
        Ranking::Memory => {
            let x: u64 = match a.rss_kib {
                Some(kib) => kib,
                None => 0,
            };
            let y: u64 = match b.rss_kib {
                Some(kib) => kib,
                None => 0,
            };
            x > y || (x == y && a.pid < b.pid)
        },
    }
}

/// Whether a list of positions is the shortlist of the first `n` processes.
spec fn shortlist_of(list: Seq<usize>, all: Seq<ProcessView>, n: int, ranking: Ranking) -> bool {
    &&& list.len() <= TOP_HOGS
    &&& forall|k: int|
        0 <= k < list.len() ==> (#[trigger] list[k]) < n && offerable(all[list[k] as int])
    &&& forall|j: int, k: int|
        0 <= j < k < list.len() ==> before(
            all[(#[trigger] list[j]) as int],
            all[(#[trigger] list[k]) as int],
            ranking,
        )
    &&& forall|i: int|
        0 <= i < n && offerable(#[trigger] all[i]) && !listed(list, i) ==> list.len() == TOP_HOGS
            && forall|k: int|
            0 <= k < list.len() ==> before(all[(#[trigger] list[k]) as int], all[i], ranking)
}

/// Put position `i` into a shortlist of the positions before it.
fn enlist(list: &mut Vec<usize>, all: &Vec<Process>, i: usize, ranking: Ranking)
    requires
        in_pid_order(all.deep_view()),
        i < all.len(),
        offerable(all@[i as int]@),
        shortlist_of(old(list)@, all.deep_view(), i as int, ranking),
    ensures
        shortlist_of(final(list)@, all.deep_view(), i + 1, ranking),
{
    let ghost av = all.deep_view();
    let ghost had = list@;
    assert(av[i as int] == all@[i as int]@);
    let mut p: usize = 0;
    while p < list.len() && comes_first(&all[list[p]], &all[i], ranking)
        invariant
            p <= list.len(),
            list@ == had,
            av == all.deep_view(),
            i < all.len(),
            shortlist_of(had, av, i as int, ranking),
            forall|k: int| 0 <= k < p ==> before(av[(#[trigger] had[k]) as int], av[i as int], ranking),
        decreases list.len() - p,
    {
        assert(av[had[p as int] as int] == all@[had[p as int] as int]@);
        assert(av[i as int] == all@[i as int]@);
        p += 1;
    }
    proof {
        if p < had.len() {
            assert(av[had[p as int] as int] == all@[had[p as int] as int]@);
            assert(!before(av[had[p as int] as int], av[i as int], ranking));
            assert(av[had[p as int] as int].pid < av[i as int].pid);
        }
        assert forall|k: int| p <= k < had.len() implies before(
            av[i as int],
            av[(#[trigger] had[k]) as int],
            ranking,
        ) by {
            assert(before(av[i as int], av[had[p as int] as int], ranking));
            if k > p {
                assert(before(av[had[p as int] as int], av[had[k] as int], ranking));
            }
        }
    }
    if p == TOP_HOGS {
        assert forall|x: int|
            0 <= x < i + 1 && offerable(#[trigger] av[x]) && !listed(list@, x) implies list@.len()
            == TOP_HOGS && forall|k: int|
            0 <= k < list@.len() ==> before(av[(#[trigger] list@[k]) as int], av[x], ranking) by {}
        return;
    }
    list.insert(p, i);
    let ghost more = had.insert(p as int, i);
    proof {
        assert(list@ == more);
        assert forall|k: int| 0 <= k < had.len() implies listed(more, (#[trigger] had[k]) as int) by {
            if k < p {
                assert(more[k] == had[k]);
            } else {
                assert(more[k + 1] == had[k]);
            }
        }
        assert(more[p as int] == i);
        assert forall|j: int, k: int| 0 <= j < k < more.len() implies before(
            av[(#[trigger] more[j]) as int],
            av[(#[trigger] more[k]) as int],
            ranking,
        ) by {
            if j < p && k > p {
                assert(more[j] == had[j] && more[k] == had[k - 1]);
            } else if j > p {
                assert(more[j] == had[j - 1] && more[k] == had[k - 1]);
            } else if k < p {
                assert(more[j] == had[j] && more[k] == had[k]);
            } else if j == p {
                assert(more[k] == had[k - 1]);
            } else {
                assert(more[j] == had[j]);
            }
        }
        assert forall|k: int| 0 <= k < more.len() implies (#[trigger] more[k]) < i + 1 && offerable(
            av[more[k] as int],
        ) by {
            if k < p {
                assert(more[k] == had[k]);
            } else if k > p {
                assert(more[k] == had[k - 1]);
            }
        }
    }
    if list.len() > TOP_HOGS {
        let out: Option<usize> = list.pop();
        let ghost kept = list@;
        proof {
            assert(kept == more.drop_last());
            assert forall|x: int|
                0 <= x < i + 1 && offerable(#[trigger] av[x]) && !listed(kept, x) implies kept.len()
                == TOP_HOGS && forall|k: int|
                0 <= k < kept.len() ==> before(av[(#[trigger] kept[k]) as int], av[x], ranking) by {
                assert forall|k: int| 0 <= k < kept.len() implies before(
                    av[(#[trigger] kept[k]) as int],
                    av[x],
                    ranking,
                ) by {
                    assert(kept[k] == more[k]);
                    if x == more.last() as int {
                        assert(before(av[more[k] as int], av[more[more.len() - 1] as int], ranking));
                    } else {
                        assert(!listed(had, x)) by {
                            if listed(had, x) {
                                let q = choose|q: int|
                                    0 <= q < had.len() && #[trigger] had[q] as int == x;
                                assert(listed(more, had[q] as int));
                                let z = choose|z: int|
                                    0 <= z < more.len() && #[trigger] more[z] as int == x;
                                assert(z < kept.len());
                                assert(kept[z] == more[z]);
                            }
                        }
                        assert(x != i) by {
                            if x == i {
                                assert(p < kept.len());
                                assert(kept[p as int] == i);
                            }
                        }
                        assert(before(av[had[had.len() - 1] as int], av[x], ranking));
                        if k < p {
                            assert(more[k] == had[k]);
                        } else if k > p {
                            assert(more[k] == had[k - 1]);
                        } else {
                            assert(before(av[i as int], av[had[had.len() - 1] as int], ranking));
                        }
                    }
                }
            }
        }
    } else {
        proof {
            assert forall|x: int|
                0 <= x < i + 1 && offerable(#[trigger] av[x]) && !listed(more, x) implies more.len()
                == TOP_HOGS && forall|k: int|
                0 <= k < more.len() ==> before(av[(#[trigger] more[k]) as int], av[x], ranking) by {
                assert(x != i);
                if listed(had, x) {
                    let q = choose|q: int| 0 <= q < had.len() && #[trigger] had[q] as int == x;
                    assert(listed(more, had[q] as int));
                }
            }
        }
    }
}

/// The heaviest offerable processes of a table, as positions in it: up to seven, the heaviest
/// first.
pub fn shortlist(all: &Vec<Process>, ranking: Ranking) -> (r: Vec<usize>)
    requires
        in_pid_order(all.deep_view()),
    ensures
        is_shortlist(r@, all.deep_view(), ranking),
{
    let mut list: Vec<usize> = Vec::new();
    let mut i: usize = 0;
    while i < all.len()
        invariant
            i <= all.len(),
            in_pid_order(all.deep_view()),
            shortlist_of(list@, all.deep_view(), i as int, ranking),
        decreases all.len() - i,
    {
        assert(all.deep_view()[i as int] == all@[i as int]@);
        if can_offer(&all[i]) {
            enlist(&mut list, all, i, ranking);
        }
        i += 1;
    }
    assert(all.deep_view().len() == all@.len());
    list
}

/// The two shortlists, each honestly its own top: a process that leads both charts is in both.
pub fn hog_shortlists(all: &Vec<Process>) -> (r: (Vec<usize>, Vec<usize>))
    requires
        in_pid_order(all.deep_view()),
    ensures
        is_shortlist(r.0@, all.deep_view(), Ranking::Cpu),
        is_shortlist(r.1@, all.deep_view(), Ranking::Memory),
{
    (shortlist(all, Ranking::Cpu), shortlist(all, Ranking::Memory))
}

/// One line of the checklist, in the standard columns.
pub open spec fn hog_text(p: ProcessView, w: Widths) -> Seq<char> {
    row_head(p, w) + plain_command(p, seq![], None)
}

/// One line of the checklist: the PID leads, the full command ends it.
pub fn hog_row(p: &Process, w: Widths) -> (r: String)
    ensures
        r@ == hog_text(p@, w),
{
    let mut out: String = head_of(p, w);
    let none: Vec<String> = Vec::new();
    assert(none.deep_view() =~= seq![]);
    out.append(command_plain(p, &none, None).as_str());
    out
}

/// The processes at the positions of a list.
pub open spec fn at_positions(all: Seq<ProcessView>, list: Seq<usize>) -> Seq<ProcessView> {
    list.map_values(|i: usize| all[i as int])
}

/// The lines of processes in the checklist.
pub open spec fn hog_texts(ps: Seq<ProcessView>, w: Widths) -> Seq<Seq<char>> {
    ps.map_values(|p: ProcessView| hog_text(p, w))
}

/// A group of boxes, where there is something to tick.
pub open spec fn hog_group(label: Seq<char>, ps: Seq<ProcessView>, w: Widths) -> Seq<FormItemView> {
    if ps.len() == 0 {
        seq![]
    } else {
        seq![FormItemView::Checkboxes { label, options: hog_texts(ps, w) }]
    }
}

/// The title of the checklist.
pub const HOG_TITLE: &'static str = "murder — pick what would die";

/// What opens the checklist.
pub const HOG_COMMENT: &'static str =
    "Tick what to terminate — Submit is the trigger; Esc leaves everything running.";

/// The checklist: what to do, the heading, and the two groups. The widths are those over
/// everything offered, so that a process in both groups has the same line in both.
pub open spec fn hog_items(
    by_cpu: Seq<ProcessView>,
    by_memory: Seq<ProcessView>,
    w: Widths,
) -> Seq<FormItemView> {
    seq![
        FormItemView::Comment(HOG_COMMENT@),
        FormItemView::Comment(crate::processes::report::header_text(w)),
    ] + hog_group(CPU_GROUP@, by_cpu, w) + hog_group(MEMORY_GROUP@, by_memory, w)
}

/// Every process that is offered has its line, in the group it is offered in and in its place
/// there; a group with nothing to tick is left out.
pub proof fn law_every_hog_has_its_box(
    by_cpu: Seq<ProcessView>,
    by_memory: Seq<ProcessView>,
    w: Widths,
)
    ensures
        ({
            let items = hog_items(by_cpu, by_memory, w);
            &&& items.len() == 2 + (if by_cpu.len() > 0 {
                1int
            } else {
                0
            }) + (if by_memory.len() > 0 {
                1int
            } else {
                0
            })
            &&& by_cpu.len() > 0 ==> items[2] == (FormItemView::Checkboxes {
                label: CPU_GROUP@,
                options: by_cpu.map_values(
                    |p: ProcessView| row_head(p, w) + plain_command(p, seq![], None),
                ),
            })
            &&& by_memory.len() > 0 ==> items.last() == (FormItemView::Checkboxes {
                label: MEMORY_GROUP@,
                options: by_memory.map_values(
                    |p: ProcessView| row_head(p, w) + plain_command(p, seq![], None),
                ),
            })
        }),
{
    assert(hog_texts(by_cpu, w) =~= by_cpu.map_values(
        |p: ProcessView| row_head(p, w) + plain_command(p, seq![], None),
    ));
    assert(hog_texts(by_memory, w) =~= by_memory.map_values(
        |p: ProcessView| row_head(p, w) + plain_command(p, seq![], None),
    ));
}

/// Copies of the processes at the positions of a list, behind those already there.
fn gather(out: &mut Vec<Process>, all: &Vec<Process>, list: &Vec<usize>)
    requires
        forall|k: int| 0 <= k < list@.len() ==> (#[trigger] list@[k]) < all@.len(),
    ensures
        final(out).deep_view() == old(out).deep_view() + at_positions(all.deep_view(), list@),
{
    let ghost had = out.deep_view();
    let mut k: usize = 0;
    assert(had + at_positions(all.deep_view(), list@.take(0)) =~= had);
    while k < list.len()
        invariant
            k <= list.len(),
            forall|j: int| 0 <= j < list@.len() ==> (#[trigger] list@[j]) < all@.len(),
            out.deep_view() == had + at_positions(all.deep_view(), list@.take(k as int)),
        decreases list.len() - k,
    {
        let i: usize = list[k];
        let ghost before = out.deep_view();
        assert(all.deep_view()[i as int] == all@[i as int]@);
        let p: Process = crate::processes::tree::copy_process(&all[i]);
        let ghost pv = p@;
        out.push(p);
        assert(out.deep_view() =~= before.push(pv));
        assert(out.deep_view() =~= had + at_positions(all.deep_view(), list@.take(k + 1)));
        k += 1;
    }
    assert(list@.take(k as int) =~= list@);
}

/// A group of boxes, where there is something to tick.
fn add_group(items: &mut Vec<FormItem>, label: &str, ps: &Vec<Process>, w: Widths)
    ensures
        final(items).deep_view() == old(items).deep_view() + hog_group(label@, ps.deep_view(), w),
{
    let ghost before = items.deep_view();
    let mut options: Vec<String> = Vec::new();
    let mut k: usize = 0;
    while k < ps.len()
        invariant
            k <= ps.len(),
            options.len() == k,
            forall|j: int| 0 <= j < k ==> (#[trigger] options@[j])@ == hog_text(ps@[j]@, w),
        decreases ps.len() - k,
    {
        options.push(hog_row(&ps[k], w));
        k += 1;
    }
    assert(options.deep_view() =~= hog_texts(ps.deep_view(), w));
    assert(ps.deep_view().len() == ps@.len());
    if ps.len() > 0 {
        items.push(FormItem::Checkboxes { label: label.to_owned(), options });
        assert(items.deep_view() =~= before + hog_group(label@, ps.deep_view(), w));
    } else {
        assert(items.deep_view() =~= before + hog_group(label@, ps.deep_view(), w));
    }
}

/// Whether anything offerable is running.
pub open spec fn any_offerable(all: Seq<ProcessView>) -> bool {
    exists|i: int| 0 <= i < all.len() && offerable(#[trigger] all[i])
}

/// One process that can be offered is enough, wherever it stands.
pub proof fn law_one_hog_is_enough(all: Seq<ProcessView>, i: int)
    requires
        0 <= i < all.len(),
        !all[i].protected,
        all[i].pid != 1,
        all[i].cmdline.len() > 0,
    ensures
        any_offerable(all),
{
    assert(offerable(all[i]));
}

/// What is said where nothing offerable is running.
pub const NOTHING_OFFERABLE: &'static str =
    "murder: nothing offerable is running (kernel threads and this shell's own ancestry are never offered)";

/// The checklist of the heaviest processes, or `None` where nothing offerable is running. A
/// process heavy in both ways has a box in both groups, and the two are one box.
pub fn hog_form(all: &Vec<Process>) -> (r: Option<Form>)
    requires
        in_pid_order(all.deep_view()),
    ensures
        r is Some <==> any_offerable(all.deep_view()),
        match r {
            Some(form) => form.title@ == HOG_TITLE@ && form.aligned && form.mirrored && exists|
                c: Seq<usize>,
                m: Seq<usize>,
                w: Widths,
            |
                {
                    &&& is_shortlist(c, all.deep_view(), Ranking::Cpu)
                    &&& is_shortlist(m, all.deep_view(), Ranking::Memory)
                    &&& w.fit(
                        at_positions(all.deep_view(), c) + at_positions(all.deep_view(), m),
                        c.len() + m.len(),
                    )
                    &&& form.items.deep_view() == #[trigger] hog_items(
                        at_positions(all.deep_view(), c),
                        at_positions(all.deep_view(), m),
                        w,
                    )
                },
            None => !any_offerable(all.deep_view()),
        },
{
    let (cpu, memory) = hog_shortlists(all);
    assert(all.deep_view().len() == all@.len());
    if cpu.len() == 0 && memory.len() == 0 {
        assert forall|i: int| 0 <= i < all.deep_view().len() implies !offerable(
            #[trigger] all.deep_view()[i],
        ) by {
            assert(!listed(cpu@, i));
        }
        return None;
    }
    assert(any_offerable(all.deep_view())) by {
        if cpu.len() > 0 {
            assert(offerable(all.deep_view()[cpu@[0] as int]));
        } else {
            assert(offerable(all.deep_view()[memory@[0] as int]));
        }
    }
    let ghost cv = at_positions(all.deep_view(), cpu@);
    let ghost mv = at_positions(all.deep_view(), memory@);
    let mut both: Vec<Process> = Vec::new();
    gather(&mut both, all, &cpu);
    gather(&mut both, all, &memory);
    assert(both.deep_view() =~= cv + mv);
    let w: Widths = column_widths(&both);
    let mut by_cpu: Vec<Process> = Vec::new();
    gather(&mut by_cpu, all, &cpu);
    assert(by_cpu.deep_view() =~= cv);
    let mut by_memory: Vec<Process> = Vec::new();
    gather(&mut by_memory, all, &memory);
    assert(by_memory.deep_view() =~= mv);
    let mut items: Vec<FormItem> = Vec::new();
    items.push(FormItem::Comment(HOG_COMMENT.to_owned()));
    items.push(FormItem::Comment(widths_header(w)));
    assert(items.deep_view() =~= seq![
        FormItemView::Comment(HOG_COMMENT@),
        FormItemView::Comment(crate::processes::report::header_text(w)),
    ]);
    add_group(&mut items, CPU_GROUP, &by_cpu, w);
    add_group(&mut items, MEMORY_GROUP, &by_memory, w);
    assert(items.deep_view() == hog_items(cv, mv, w));
    Some(Form { title: HOG_TITLE, aligned: true, mirrored: true, items })
}

/// There is one shortlist of a table: two lists that are one agree on every place.
pub proof fn law_the_shortlist_is_unique(
    a: Seq<usize>,
    b: Seq<usize>,
    all: Seq<ProcessView>,
    ranking: Ranking,
    k: int,
)
    requires
        is_shortlist(a, all, ranking),
        is_shortlist(b, all, ranking),
        0 <= k < a.len(),
        k < b.len(),
        forall|j: int| 0 <= j < k ==> a[j] == b[j],
    ensures
        a[k] == b[k],
{
    let x = a[k] as int;
    let y = b[k] as int;
    if x != y {
        if !listed(b, x) {
            assert(before(all[b[k] as int], all[x], ranking));
            assert(!listed(a, y)) by {
                if listed(a, y) {
                    let q = choose|q: int| 0 <= q < a.len() && #[trigger] a[q] as int == y;
                    if q < k {
                        assert(b[q] as int == y);
                        assert(before(all[b[q] as int], all[b[k] as int], ranking));
                    } else {
                        assert(before(all[a[k] as int], all[a[q] as int], ranking));
                    }
                }
            }
            assert(before(all[a[k] as int], all[y], ranking));
        } else {
            let q = choose|q: int| 0 <= q < b.len() && #[trigger] b[q] as int == x;
            if q < k {
                assert(a[q] as int == x);
                assert(before(all[a[q] as int], all[a[k] as int], ranking));
            } else {
                assert(before(all[b[k] as int], all[b[q] as int], ranking));
                if listed(a, y) {
                    let z = choose|z: int| 0 <= z < a.len() && #[trigger] a[z] as int == y;
                    if z < k {
                        assert(b[z] as int == y);
                        assert(before(all[b[z] as int], all[b[k] as int], ranking));
                    } else {
                        assert(before(all[a[k] as int], all[a[z] as int], ranking));
                    }
                } else {
                    assert(before(all[a[k] as int], all[y], ranking));
                }
            }
        }
    }
}

} // verus!
