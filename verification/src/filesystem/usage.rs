//! Disk usage: what each entry of a directory takes, the largest first, with a total. Like `du`,
//! hardlinked twins count once.

use std::collections::HashSet;
use vstd::prelude::*;
use vstd::std_specs::hash::group_hash_axioms;
use vstd::string::*;
use crate::numbers::{divide_half_even, half_even, nearest_double, one_decimal, push_one_decimal, to_double};
use crate::paths::{file_name, file_name_of};
use crate::style::{painted, Paint};
use crate::text::{chars_of, comes_before, decimal, lemma_precedes_order, precedes, push_decimal};

verus! {

broadcast use group_hash_axioms;

/// The arguments of `usage`.
pub struct UsageArgs {
    /// Directory, each entry of which becomes a row, or a single file to size up.
    pub path: String,
    /// Print only the recursive count of regular files.
    pub count: bool,
}

/// Tallies of one subtree.
#[derive(Clone, Copy)]
pub struct Stats {
    /// Allocated bytes, not the apparent length.
    pub bytes: u64,
    /// Regular files.
    pub files: u64,
    /// Every entry, hardlinked twins once.
    pub inodes: u64,
}

/// Tallies of one subtree.
pub struct StatsView {
    pub bytes: nat,
    pub files: nat,
    pub inodes: nat,
}

impl View for Stats {
    type V = StatsView;

    open spec fn view(&self) -> StatsView {
        StatsView {
            bytes: self.bytes as nat,
            files: self.files as nat,
            inodes: self.inodes as nat,
        }
    }
}

/// One entry met on the walk of a subtree: its device and inode, its allocated blocks, and
/// whether it is a regular file. Symlinks are met and never followed.
#[derive(Clone, Copy)]
pub struct Met {
    pub dev: u64,
    pub ino: u64,
    pub blocks: u64,
    pub is_file: bool,
}

/// What tells an entry from another: its device and its inode.
pub open spec fn identity(m: Met) -> u128 {
    (m.dev as int * 0x1_0000_0000_0000_0000 + m.ino as int) as u128
}

/// Nothing tallied.
pub open spec fn no_stats() -> StatsView {
    StatsView { bytes: 0, files: 0, inodes: 0 }
}

/// Two tallies together.
pub open spec fn both(a: StatsView, b: StatsView) -> StatsView {
    StatsView {
        bytes: a.bytes + b.bytes,
        files: a.files + b.files,
        inodes: a.inodes + b.inodes,
    }
}

/// What one entry adds where it is new.
pub open spec fn one_entry(m: Met) -> StatsView {
    StatsView {
        bytes: m.blocks as nat * 512,
        files: if m.is_file {
            1
        } else {
            0
        },
        inodes: 1,
    }
}

/// What the first `n` entries of a walk tally, and what is seen then: an entry that was seen
/// before, on this walk or an earlier one, adds nothing.
pub open spec fn tallied(walk: Seq<Met>, seen: Set<u128>, n: nat) -> (StatsView, Set<u128>)
    decreases n,
{
    if n == 0 {
        (no_stats(), seen)
    } else {
        let (before, known) = tallied(walk, seen, (n - 1) as nat);
        let id = identity(walk[n - 1]);
        if known.contains(id) {
            (before, known)
        } else {
            (both(before, one_entry(walk[n - 1])), known.insert(id))
        }
    }
}

/// An entry that no walk has met before adds its blocks, at 512 bytes each, itself as a file where
/// it is one, and itself as an entry; one that was met adds nothing.
pub proof fn law_every_new_entry_is_tallied(walk: Seq<Met>, seen: Set<u128>, n: nat)
    requires
        n < walk.len(),
    ensures
        ({
            let before = tallied(walk, seen, n).0;
            let now = tallied(walk, seen, n + 1).0;
            let m = walk[n as int];
            let met = seen.contains(identity(m)) || exists|i: int|
                0 <= i < n && (#[trigger] walk[i]).dev == m.dev && walk[i].ino == m.ino;
            &&& met ==> now == before
            &&& !met ==> now.bytes == before.bytes + m.blocks * 512 && now.inodes == before.inodes + 1
                && now.files == before.files + if m.is_file {
                1nat
            } else {
                0
            }
        }),
        tallied(walk, seen, 0).0 == (StatsView { bytes: 0, files: 0, inodes: 0 }),
{
    lemma_known(walk, seen, n);
    let m = walk[n as int];
    let known = tallied(walk, seen, n).1;
    if known.contains(identity(m)) && !seen.contains(identity(m)) {
        let i = choose|i: int| 0 <= i < n && identity(#[trigger] walk[i]) == identity(m);
        law_entries_are_told_apart(walk[i], m);
        assert(walk[i].dev == m.dev && walk[i].ino == m.ino);
    }
    if exists|i: int| 0 <= i < n && (#[trigger] walk[i]).dev == m.dev && walk[i].ino == m.ino {
        let i = choose|i: int| 0 <= i < n && (#[trigger] walk[i]).dev == m.dev && walk[i].ino == m.ino;
        assert(identity(walk[i]) == identity(m));
    }
}

proof fn lemma_known(walk: Seq<Met>, seen: Set<u128>, n: nat)
    requires
        n <= walk.len(),
    ensures
        forall|id: u128| #[trigger]
            tallied(walk, seen, n).1.contains(id) <==> seen.contains(id) || exists|i: int|
                0 <= i < n && identity(#[trigger] walk[i]) == id,
    decreases n,
{
    if n > 0 {
        lemma_known(walk, seen, (n - 1) as nat);
        let known = tallied(walk, seen, (n - 1) as nat).1;
        let all = tallied(walk, seen, n).1;
        assert forall|id: u128| #[trigger] all.contains(id) <==> seen.contains(id) || exists|i: int|
            0 <= i < n && identity(#[trigger] walk[i]) == id by {
            if known.contains(id) && !seen.contains(id) {
                let i = choose|i: int| 0 <= i < n - 1 && identity(#[trigger] walk[i]) == id;
                assert(identity(walk[i]) == id);
            }
            if all.contains(id) && !known.contains(id) {
                assert(identity(walk[n - 1]) == id);
            }
        }
    }
}

/// Two different entries are told apart.
pub proof fn law_entries_are_told_apart(a: Met, b: Met)
    ensures
        identity(a) == identity(b) <==> a.dev == b.dev && a.ino == b.ino,
{
}

proof fn lemma_tally_grows(walk: Seq<Met>, seen: Set<u128>, n: nat, m: nat)
    requires
        n <= m <= walk.len(),
    ensures
        tallied(walk, seen, n).0.bytes <= tallied(walk, seen, m).0.bytes,
        tallied(walk, seen, n).0.files <= tallied(walk, seen, m).0.files,
        tallied(walk, seen, n).0.inodes <= tallied(walk, seen, m).0.inodes,
    decreases m,
{
    if n < m {
        lemma_tally_grows(walk, seen, n, (m - 1) as nat);
    }
}

proof fn lemma_tally_counts(walk: Seq<Met>, seen: Set<u128>, n: nat)
    requires
        n <= walk.len(),
    ensures
        tallied(walk, seen, n).0.files <= n,
        tallied(walk, seen, n).0.inodes <= n,
    decreases n,
{
    if n > 0 {
        lemma_tally_counts(walk, seen, (n - 1) as nat);
    }
}

/// Tally the entries met on a walk. `seen` carries what earlier walks met.
pub fn scan(walk: &Vec<Met>, seen: &mut HashSet<u128>) -> (r: Stats)
    requires
        tallied(walk@, old(seen)@, walk@.len()).0.bytes <= u64::MAX,
    ensures
        r@ == tallied(walk@, old(seen)@, walk@.len()).0,
        final(seen)@ == tallied(walk@, old(seen)@, walk@.len()).1,
{
    let mut stats: Stats = Stats { bytes: 0, files: 0, inodes: 0 };
    let ghost start = seen@;
    let mut i: usize = 0;
    while i < walk.len()
        invariant
            i <= walk.len(),
            tallied(walk@, start, walk@.len()).0.bytes <= u64::MAX,
            (stats@, seen@) == tallied(walk@, start, i as nat),
        decreases walk.len() - i,
    {
        let m: Met = walk[i];
        proof {
            lemma_tally_grows(walk@, start, (i + 1) as nat, walk@.len());
            lemma_tally_counts(walk@, start, i as nat);
            assert(m.dev as int * 0x1_0000_0000_0000_0000 + m.ino as int <= u128::MAX);
        }
        let id: u128 = m.dev as u128 * 0x1_0000_0000_0000_0000 + m.ino as u128;
        assert(id == identity(m));
        if seen.insert(id) {
            stats.inodes = stats.inodes + 1;
            stats.bytes = stats.bytes + m.blocks * 512;
            if m.is_file {
                stats.files = stats.files + 1;
            }
        } else {
            assert(seen@ =~= tallied(walk@, start, i as nat).1);
        }
        i += 1;
    }
    stats
}

/// Hardlinked twins count once: as many inodes are tallied as there are entries newly seen.
pub proof fn law_twins_count_once(walk: Seq<Met>, seen: Set<u128>, n: nat)
    requires
        n <= walk.len(),
        seen.finite(),
    ensures
        tallied(walk, seen, n).1.finite(),
        tallied(walk, seen, n).1.len() == seen.len() + tallied(walk, seen, n).0.inodes,
        forall|id: u128| #[trigger]
            tallied(walk, seen, n).1.contains(id) <==> seen.contains(id) || exists|i: int|
                0 <= i < n && identity(#[trigger] walk[i]) == id,
    decreases n,
{
    if n > 0 {
        law_twins_count_once(walk, seen, (n - 1) as nat);
        let known = tallied(walk, seen, (n - 1) as nat).1;
        assert forall|id: u128| #[trigger] tallied(walk, seen, n).1.contains(id) <==> seen.contains(
            id,
        ) || exists|i: int| 0 <= i < n && identity(#[trigger] walk[i]) == id by {
            if tallied(walk, seen, n).1.contains(id) && !known.contains(id) {
                assert(identity(walk[n - 1]) == id);
            }
            if exists|i: int| 0 <= i < n && identity(#[trigger] walk[i]) == id {
                let i = choose|i: int| 0 <= i < n && identity(#[trigger] walk[i]) == id;
                if i < n - 1 {
                    assert(known.contains(id));
                }
            }
        }
    }
}

/// Walking the same entries once more adds nothing.
pub proof fn law_a_second_walk_adds_nothing(walk: Seq<Met>, seen: Set<u128>, n: nat)
    requires
        n <= walk.len(),
        forall|i: int| 0 <= i < walk.len() ==> seen.contains(identity(#[trigger] walk[i])),
    ensures
        tallied(walk, seen, n) == (no_stats(), seen),
    decreases n,
{
    if n > 0 {
        law_a_second_walk_adds_nothing(walk, seen, (n - 1) as nat);
        assert(seen.contains(identity(walk[n - 1])));
    }
}

// --- sizes ----------------------------------------------------------------------------------

/// The unit of a size.
pub open spec fn unit_of(value: nat) -> (nat, Seq<char>) {
    if value < 0x100000 {
        (1024, "K"@)
    } else if value < 0x40000000 {
        (0x100000, "M"@)
    } else if value < 0x10000000000 {
        (0x40000000, "G"@)
    } else {
        (0x10000000000, "T"@)
    }
}

/// A size is told in the unit that it reaches and whose next it does not.
pub proof fn law_the_unit_suits_the_size(value: nat)
    requires
        value >= 1024,
    ensures
        unit_of(value).0 <= value,
        value < 1024 * unit_of(value).0 || unit_of(value).1 == "T"@,
        unit_of(value).1 == "K"@ ==> unit_of(value).0 == 1024,
        unit_of(value).1 == "M"@ ==> unit_of(value).0 == 1024 * 1024,
        unit_of(value).1 == "G"@ ==> unit_of(value).0 == 1024 * 1024 * 1024,
        unit_of(value).1 == "T"@ ==> unit_of(value).0 == 1024 * 1024 * 1024 * 1024,
{
    reveal_strlit("K");
    reveal_strlit("M");
    reveal_strlit("G");
    reveal_strlit("T");
    assert("K"@[0] == 'K' && "M"@[0] == 'M' && "G"@[0] == 'G' && "T"@[0] == 'T');
}

/// A size like that of `du -h`: one decimal under ten, a bare number above.
pub open spec fn size_text(bytes: nat) -> Seq<char> {
    if bytes < 1024 {
        decimal(bytes) + "B"@
    } else {
        let value = nearest_double(bytes);
        let (unit, name) = unit_of(value);
        (if value < 10 * unit {
            one_decimal(value, unit)
        } else {
            decimal(half_even(value, unit))
        }) + name
    }
}

/// A size like that of `du -h`.
pub fn human_size(bytes: u64) -> (r: String)
    ensures
        r@ == size_text(bytes as nat),
{
    let mut out: String = String::new();
    if bytes < 1024 {
        push_decimal(&mut out, bytes as u128);
        out.append("B");
        assert(out@ =~= size_text(bytes as nat));
        return out;
    }
    let value: u128 = to_double(bytes);
    let (unit, name): (u128, &'static str) = if value < 0x100000 {
        (1024, "K")
    } else if value < 0x40000000 {
        (0x100000, "M")
    } else if value < 0x10000000000 {
        (0x40000000, "G")
    } else {
        (0x10000000000, "T")
    };
    if value < 10 * unit {
        push_one_decimal(&mut out, value, unit);
    } else {
        push_decimal(&mut out, divide_half_even(value, unit));
    }
    out.append(name);
    assert(out@ =~= size_text(bytes as nat));
    out
}

// --- the table ------------------------------------------------------------------------------

/// A row: what an entry takes, and its name.
pub struct UsageRow {
    pub stats: Stats,
    pub name: String,
}

impl View for UsageRow {
    type V = (StatsView, Seq<char>);

    open spec fn view(&self) -> (StatsView, Seq<char>) {
        (self.stats@, self.name@)
    }
}

impl DeepView for UsageRow {
    type V = (StatsView, Seq<char>);

    open spec fn deep_view(&self) -> (StatsView, Seq<char>) {
        self@
    }
}

/// A row as text, its cells two spaces apart.
pub open spec fn row_text(row: (StatsView, Seq<char>)) -> Seq<char> {
    size_text(row.0.bytes) + "  "@ + decimal(row.0.files) + "  "@ + decimal(row.0.inodes) + "  "@
        + row.1
}

/// A row as text.
pub fn usage_row(stats: &Stats, name: &str) -> (r: String)
    ensures
        r@ == row_text((stats@, name@)),
{
    let mut out: String = human_size(stats.bytes);
    out.append("  ");
    push_decimal(&mut out, stats.files as u128);
    out.append("  ");
    push_decimal(&mut out, stats.inodes as u128);
    out.append("  ");
    out.append(name);
    out
}

/// The name of an entry as it is shown: marked where it is a directory.
pub fn entry_name(path: &str, is_dir: bool) -> (r: String)
    ensures
        r@ == (match file_name(path@) {
            Some(name) => name,
            None => path@,
        }) + (if is_dir {
            "/"@
        } else {
            ""@
        }),
{
    let mut out: String = match file_name_of(path) {
        Some(name) => name,
        None => path.to_owned(),
    };
    out.append(
        if is_dir {
            "/"
        } else {
            ""
        },
    );
    out
}

/// Whether one row stands above another: it takes more, or as much and its name comes first.
pub open spec fn above(a: (StatsView, Seq<char>), b: (StatsView, Seq<char>)) -> bool {
    a.0.bytes > b.0.bytes || (a.0.bytes == b.0.bytes && precedes(a.1, b.1))
}

/// Where a row goes among rows in order: before the first that it stands above.
pub open spec fn place(rows: Seq<(StatsView, Seq<char>)>, row: (StatsView, Seq<char>), k: int) -> int
    decreases rows.len() - k,
{
    if k >= rows.len() {
        rows.len() as int
    } else if above(row, rows[k]) {
        k
    } else {
        place(rows, row, k + 1)
    }
}

/// The first `n` rows in order; rows that rank the same keep their order.
pub open spec fn ordered(rows: Seq<(StatsView, Seq<char>)>, n: nat) -> Seq<(StatsView, Seq<char>)>
    decreases n,
{
    if n == 0 {
        seq![]
    } else {
        let before = ordered(rows, (n - 1) as nat);
        before.insert(place(before, rows[n - 1], 0), rows[n - 1])
    }
}

proof fn lemma_place(rows: Seq<(StatsView, Seq<char>)>, row: (StatsView, Seq<char>), k: int)
    requires
        0 <= k <= rows.len(),
    ensures
        k <= place(rows, row, k) <= rows.len(),
        forall|j: int| k <= j < place(rows, row, k) ==> !above(row, #[trigger] rows[j]),
        place(rows, row, k) < rows.len() ==> above(row, rows[place(rows, row, k)]),
    decreases rows.len() - k,
{
    if k < rows.len() && !above(row, rows[k]) {
        lemma_place(rows, row, k + 1);
    }
}

/// Whether one row stands above another.
fn stands_above(a: &UsageRow, b: &UsageRow) -> (r: bool)
    ensures
        r == above(a@, b@),
{
    if a.stats.bytes != b.stats.bytes {
        return a.stats.bytes > b.stats.bytes;
    }
    let x: Vec<char> = chars_of(a.name.as_str());
    let y: Vec<char> = chars_of(b.name.as_str());
    comes_before(x.as_slice(), y.as_slice())
}

/// The rows in order: the largest first, and by name where they take the same.
pub fn in_order(rows: Vec<UsageRow>) -> (r: Vec<UsageRow>)
    ensures
        r.deep_view() == ordered(rows.deep_view(), rows@.len()),
{
    let mut out: Vec<UsageRow> = Vec::new();
    assert(out.deep_view() =~= seq![]);
    let mut i: usize = 0;
    while i < rows.len()
        invariant
            i <= rows.len(),
            out.deep_view() == ordered(rows.deep_view(), i as nat),
        decreases rows.len() - i,
    {
        assert(rows.deep_view()[i as int] == rows@[i as int]@);
        let ghost before = out.deep_view();
        assert(before.len() == out@.len());
        let row: UsageRow = UsageRow { stats: rows[i].stats, name: rows[i].name.clone() };
        let mut k: usize = 0;
        while k < out.len() && !stands_above(&row, &out[k])
            invariant
                k <= out.len(),
                out.deep_view() == before,
                before.len() == out@.len(),
                place(before, row@, 0) == place(before, row@, k as int),
            decreases out.len() - k,
        {
            assert(before[k as int] == out@[k as int]@);
            k += 1;
        }
        proof {
            if k < out@.len() {
                assert(before[k as int] == out@[k as int]@);
            }
        }
        let ghost added = row@;
        out.insert(k, row);
        assert(out.deep_view() =~= before.insert(k as int, added));
        i += 1;
    }
    out
}

/// Whether no row stands above one before it.
pub open spec fn is_ordered(rows: Seq<(StatsView, Seq<char>)>) -> bool {
    forall|i: int, j: int| 0 <= i < j < rows.len() ==> !above(#[trigger] rows[j], #[trigger] rows[i])
}

/// In a table in order the larger come first, and of two as large the one whose name comes first.
pub proof fn law_the_largest_comes_first(rows: Seq<(StatsView, Seq<char>)>, n: nat, i: int, j: int)
    requires
        n <= rows.len(),
        0 <= i < j < ordered(rows, n).len(),
    ensures
        ordered(rows, n)[i].0.bytes >= ordered(rows, n)[j].0.bytes,
        ordered(rows, n)[i].0.bytes == ordered(rows, n)[j].0.bytes ==> !precedes(
            ordered(rows, n)[j].1,
            ordered(rows, n)[i].1,
        ),
{
    law_the_table_is_ordered(rows, n);
    assert(!above(ordered(rows, n)[j], ordered(rows, n)[i]));
}

/// The rows come out in order, and they are the same rows.
pub proof fn law_the_table_is_ordered(rows: Seq<(StatsView, Seq<char>)>, n: nat)
    requires
        n <= rows.len(),
    ensures
        is_ordered(ordered(rows, n)),
        ordered(rows, n).to_multiset() == rows.take(n as int).to_multiset(),
    decreases n,
{
    broadcast use vstd::seq_lib::group_to_multiset_ensures;

    if n > 0 {
        law_the_table_is_ordered(rows, (n - 1) as nat);
        let before = ordered(rows, (n - 1) as nat);
        let row = rows[n - 1];
        let k = place(before, row, 0);
        lemma_place(before, row, 0);
        let after = before.insert(k, row);
        assert forall|i: int, j: int| 0 <= i < j < after.len() implies !above(
            #[trigger] after[j],
            #[trigger] after[i],
        ) by {
            let x = after[i];
            let y = after[j];
            if j == k {
                assert(x == before[i]);
                if above(row, before[i]) {
                    assert(false);
                }
            } else if i == k {
                assert(y == before[j - 1]);
                let first = before[k];
                assert(above(row, first));
                if k < j - 1 {
                    assert(!above(before[j - 1], before[k]));
                }
                lemma_precedes_order(row.1, first.1, y.1);
                lemma_precedes_order(y.1, row.1, first.1);
            } else {
                let p = if i < k {
                    i
                } else {
                    i - 1
                };
                let q = if j < k {
                    j
                } else {
                    j - 1
                };
                assert(x == before[p] && y == before[q]);
            }
        }
        assert(rows.take(n as int) =~= rows.take(n - 1).push(row));
        vstd::seq_lib::to_multiset_insert(before, k, row);
    } else {
        assert(rows.take(0) =~= seq![]);
    }
}

/// What the first `n` rows and the directory itself take together.
pub open spec fn total_of(own: StatsView, rows: Seq<(StatsView, Seq<char>)>, n: nat) -> StatsView
    decreases n,
{
    if n == 0 {
        own
    } else {
        both(total_of(own, rows, (n - 1) as nat), rows[n - 1].0)
    }
}

/// The total is the sum over all rows and the directory itself, in bytes, in files and in entries.
pub proof fn law_the_total_adds_up(own: StatsView, rows: Seq<(StatsView, Seq<char>)>, n: nat)
    requires
        n <= rows.len(),
    ensures
        total_of(own, rows, n).bytes == rows.take(n as int).fold_left(
            own.bytes,
            |sum: nat, row: (StatsView, Seq<char>)| sum + row.0.bytes,
        ),
        total_of(own, rows, n).files == rows.take(n as int).fold_left(
            own.files,
            |sum: nat, row: (StatsView, Seq<char>)| sum + row.0.files,
        ),
        total_of(own, rows, n).inodes == rows.take(n as int).fold_left(
            own.inodes,
            |sum: nat, row: (StatsView, Seq<char>)| sum + row.0.inodes,
        ),
    decreases n,
{
    if n > 0 {
        law_the_total_adds_up(own, rows, (n - 1) as nat);
        assert(rows.take(n as int).drop_last() =~= rows.take(n - 1));
        assert(rows.take(n as int).last() == rows[n - 1]);
    }
}

/// The first `n` rows as text.
pub open spec fn row_texts(rows: Seq<(StatsView, Seq<char>)>, n: nat) -> Seq<Seq<char>> {
    rows.take(n as int).map_values(|row: (StatsView, Seq<char>)| row_text(row))
}

/// The table: the header, the rows in order, and the total where a directory is sized up.
pub open spec fn usage_lines(
    rows: Seq<(StatsView, Seq<char>)>,
    own: Option<StatsView>,
    header: Paint,
) -> Seq<Seq<char>> {
    let sorted = ordered(rows, rows.len());
    seq![painted(header, "Size  Files  Inodes  Name"@)] + row_texts(sorted, sorted.len()) + (
    match own {
        Some(stats) => seq![row_text((total_of(stats, rows, rows.len()), "(total)"@))],
        None => seq![],
    })
}

/// The table has its heading, a line for every row in order, and the total of all of them where
/// there is one to give.
pub proof fn law_every_row_is_in_the_table(
    rows: Seq<(StatsView, Seq<char>)>,
    own: Option<StatsView>,
    header: Paint,
)
    ensures
        ({
            let lines = usage_lines(rows, own, header);
            &&& lines[0] == painted(header, "Size  Files  Inodes  Name"@)
            &&& lines.len() == 1 + rows.len() + if own is Some {
                1int
            } else {
                0
            }
            &&& forall|i: int|
                0 <= i < rows.len() ==> #[trigger] lines[i + 1] == size_text(
                    ordered(rows, rows.len())[i].0.bytes,
                ) + "  "@ + decimal(ordered(rows, rows.len())[i].0.files) + "  "@ + decimal(
                    ordered(rows, rows.len())[i].0.inodes,
                ) + "  "@ + ordered(rows, rows.len())[i].1
            &&& own matches Some(stats) ==> lines.last() == size_text(
                total_of(stats, rows, rows.len()).bytes,
            ) + "  "@ + decimal(total_of(stats, rows, rows.len()).files) + "  "@ + decimal(
                total_of(stats, rows, rows.len()).inodes,
            ) + "  "@ + "(total)"@
        }),
{
    law_the_total_is_of_all_rows(StatsView { bytes: 0, files: 0, inodes: 0 }, rows, rows.len());
}

proof fn lemma_total_grows(own: StatsView, rows: Seq<(StatsView, Seq<char>)>, n: nat, m: nat)
    requires
        n <= m <= rows.len(),
    ensures
        total_of(own, rows, n).bytes <= total_of(own, rows, m).bytes,
        total_of(own, rows, n).files <= total_of(own, rows, m).files,
        total_of(own, rows, n).inodes <= total_of(own, rows, m).inodes,
    decreases m,
{
    if n < m {
        lemma_total_grows(own, rows, n, (m - 1) as nat);
    }
}

proof fn lemma_total_insert(
    own: StatsView,
    rows: Seq<(StatsView, Seq<char>)>,
    k: int,
    row: (StatsView, Seq<char>),
    n: nat,
)
    requires
        0 <= k <= rows.len(),
        n <= rows.len() + 1,
    ensures
        n <= k ==> total_of(own, rows.insert(k, row), n) == total_of(own, rows, n),
        n > k ==> total_of(own, rows.insert(k, row), n) == both(
            total_of(own, rows, (n - 1) as nat),
            row.0,
        ),
    decreases n,
{
    if n > 0 {
        lemma_total_insert(own, rows, k, row, (n - 1) as nat);
    }
}

/// The total does not depend on the order of the rows.
pub proof fn law_the_total_is_of_all_rows(own: StatsView, rows: Seq<(StatsView, Seq<char>)>, n: nat)
    requires
        n <= rows.len(),
    ensures
        ordered(rows, n).len() == n,
        total_of(own, ordered(rows, n), n) == total_of(own, rows, n),
    decreases n,
{
    if n > 0 {
        law_the_total_is_of_all_rows(own, rows, (n - 1) as nat);
        let before = ordered(rows, (n - 1) as nat);
        lemma_place(before, rows[n - 1], 0);
        lemma_total_insert(own, before, place(before, rows[n - 1], 0), rows[n - 1], n);
    }
}

/// Whether a tally fits its numbers.
pub open spec fn fits(s: StatsView) -> bool {
    s.bytes <= u64::MAX && s.files <= u64::MAX && s.inodes <= u64::MAX
}

/// The table of an overview: `own` is what the directory itself takes, where a directory is sized
/// up.
pub fn usage(rows: Vec<UsageRow>, own: Option<Stats>, header: &Paint) -> (r: Vec<String>)
    requires
        own matches Some(stats) ==> fits(total_of(stats@, rows.deep_view(), rows@.len())),
    ensures
        r.deep_view() == usage_lines(
            rows.deep_view(),
            match own {
                Some(stats) => Some(stats@),
                None => None,
            },
            *header,
        ),
{
    assert(rows.deep_view().len() == rows@.len());
    proof {
        if let Some(stats) = own {
            law_the_total_is_of_all_rows(stats@, rows.deep_view(), rows@.len());
        }
    }
    let sorted: Vec<UsageRow> = in_order(rows);
    let ghost all = sorted.deep_view();
    assert(all.len() == sorted@.len());
    let mut out: Vec<String> = Vec::new();
    out.push(header.paint("Size  Files  Inodes  Name"));
    let ghost head = seq![painted(*header, "Size  Files  Inodes  Name"@)];
    assert(out.deep_view() =~= head + row_texts(all, 0));
    let mut i: usize = 0;
    while i < sorted.len()
        invariant
            i <= sorted.len(),
            all == sorted.deep_view(),
            out.deep_view() == head + row_texts(all, i as nat),
        decreases sorted.len() - i,
    {
        assert(all[i as int] == sorted@[i as int]@);
        let ghost before = out.deep_view();
        out.push(usage_row(&sorted[i].stats, sorted[i].name.as_str()));
        assert(out.deep_view() =~= before.push(row_text(all[i as int])));
        i += 1;
        assert(row_texts(all, i as nat) =~= row_texts(all, (i - 1) as nat).push(
            row_text(all[i - 1]),
        ));
        assert(out.deep_view() =~= head + row_texts(all, i as nat));
    }
    if let Some(stats) = own {
        let mut total: Stats = stats;
        let mut k: usize = 0;
        while k < sorted.len()
            invariant
                k <= sorted.len(),
                all == sorted.deep_view(),
                all.len() == sorted@.len(),
                fits(total_of(stats@, all, all.len())),
                total@ == total_of(stats@, all, k as nat),
            decreases sorted.len() - k,
        {
            assert(all[k as int] == sorted@[k as int]@);
            proof {
                lemma_total_grows(stats@, all, (k + 1) as nat, all.len());
            }
            total.bytes = total.bytes + sorted[k].stats.bytes;
            total.files = total.files + sorted[k].stats.files;
            total.inodes = total.inodes + sorted[k].stats.inodes;
            k += 1;
        }
        let ghost before = out.deep_view();
        out.push(usage_row(&total, "(total)"));
        assert(out.deep_view() =~= before + seq![row_text((total@, "(total)"@))]);
    } else {
        assert(out.deep_view() + seq![] =~= out.deep_view());
    }
    out
}

/// What is said of a path that is not there.
pub fn missing(path: &str) -> (r: String)
    ensures
        r@ == "fs_usage: no such path: "@ + path@,
{
    let mut out: String = "fs_usage: no such path: ".to_owned();
    out.append(path);
    out
}

} // verus!
