//! Showing processes: cells, rows, the tree, and the form that is made of it.

use vstd::prelude::*;
use vstd::slice::slice_subrange;
use vstd::string::*;
use crate::numbers::{nearest_double, one_decimal, push_one_decimal, to_double};
use crate::processes::matching::{glow, glowing, has_field, highlight, highlighted, is_found, occurs};
use crate::processes::tree::{
    drawn, find_process, has_pid, kids, limbs, position, roots, subtree, tree_order, trees, TreeRow,
    TreeRowView,
};
use crate::processes::{Field, Process, ProcessView, Relation};
use crate::sequences::{lemma_flat_map_last, lemma_parts_last};
use crate::style::{Paint, painted, strip_escapes, without_escapes};
use crate::text::{
    chars_of, decimal, join, joined, padded, parse_decimal, parse_number, push_decimal, push_padded, push_repeat,
    push_text, repeat, string_of, words, words_of,
};

verus! {

// --- cells ----------------------------------------------------------------------------------

/// A duration as the two largest units that apply.
pub open spec fn age_text(seconds: nat) -> Seq<char> {
    let days = seconds / 86400;
    let hours = (seconds % 86400) / 3600;
    let minutes = (seconds % 3600) / 60;
    let secs = seconds % 60;
    if days > 0 {
        decimal(days) + "d"@ + decimal(hours) + "h"@
    } else if hours > 0 {
        decimal(hours) + "h"@ + decimal(minutes) + "m"@
    } else if minutes > 0 {
        decimal(minutes) + "m"@ + decimal(secs) + "s"@
    } else {
        decimal(secs) + "s"@
    }
}

/// An age is told in its two largest units, and what is left below the smaller of them is not told.
pub proof fn law_an_age_is_told_in_two_units(a: nat, b: nat, rest: nat)
    ensures
        a > 0 && b < 24 && rest < 3600 ==> age_text(a * 86400 + b * 3600 + rest) == decimal(a) + "d"@
            + decimal(b) + "h"@,
        0 < a < 24 && b < 60 && rest < 60 ==> age_text(a * 3600 + b * 60 + rest) == decimal(a) + "h"@
            + decimal(b) + "m"@,
        0 < a < 60 && b < 60 ==> age_text(a * 60 + b) == decimal(a) + "m"@ + decimal(b) + "s"@,
        a < 60 ==> age_text(a) == decimal(a) + "s"@,
{
    if a > 0 && b < 24 && rest < 3600 {
        let s = a * 86400 + b * 3600 + rest;
        assert(s / 86400 == a);
        assert(s % 86400 == b * 3600 + rest);
        assert((b * 3600 + rest) / 3600 == b);
    }
    if 0 < a < 24 && b < 60 && rest < 60 {
        let s = a * 3600 + b * 60 + rest;
        assert(s / 86400 == 0);
        assert(s % 86400 == s);
        assert(s / 3600 == a);
        assert(s % 3600 == b * 60 + rest);
        assert((b * 60 + rest) / 60 == b);
    }
    if 0 < a < 60 && b < 60 {
        let s = a * 60 + b;
        assert(s / 86400 == 0);
        assert((s % 86400) / 3600 == 0);
        assert(s % 3600 == s);
        assert(s / 60 == a);
        assert(s % 60 == b);
    }
    if a < 60 {
        assert(a / 86400 == 0);
        assert((a % 86400) / 3600 == 0);
        assert((a % 3600) / 60 == 0);
        assert(a % 60 == a);
    }
}

/// A duration a person can read at a glance: the two largest units that apply.
pub fn age_label(seconds: u64) -> (r: String)
    ensures
        r@ == age_text(seconds as nat),
{
    let days: u64 = seconds / 86400;
    let hours: u64 = (seconds % 86400) / 3600;
    let minutes: u64 = (seconds % 3600) / 60;
    let secs: u64 = seconds % 60;
    let mut out: String = String::new();
    if days > 0 {
        push_decimal(&mut out, days as u128);
        assert(out@ =~= decimal(days as nat));
        out.append("d");
        push_decimal(&mut out, hours as u128);
        out.append("h");
    } else if hours > 0 {
        push_decimal(&mut out, hours as u128);
        assert(out@ =~= decimal(hours as nat));
        out.append("h");
        push_decimal(&mut out, minutes as u128);
        out.append("m");
    } else if minutes > 0 {
        push_decimal(&mut out, minutes as u128);
        assert(out@ =~= decimal(minutes as nat));
        out.append("m");
        push_decimal(&mut out, secs as u128);
        out.append("s");
    } else {
        push_decimal(&mut out, secs as u128);
        assert(out@ =~= decimal(secs as nat));
        out.append("s");
    }
    out
}

/// Resident memory: KB as counted, one decimal from MB up.
pub open spec fn memory_text(kib: nat) -> Seq<char> {
    let x = nearest_double(kib);
    if kib < 1024 {
        decimal(kib) + "KB"@
    } else if x < 1048576 {
        one_decimal(x, 1024) + "MB"@
    } else {
        one_decimal(x, 1048576) + "GB"@
    }
}

/// Resident memory for eyes: KB as counted, one decimal from MB up.
pub fn mem_label(kib: u64) -> (r: String)
    ensures
        r@ == memory_text(kib as nat),
{
    let mut out: String = String::new();
    let x: u128 = to_double(kib);
    if kib < 1024 {
        push_decimal(&mut out, kib as u128);
        assert(out@ =~= decimal(kib as nat));
        out.append("KB");
    } else if x < 1048576 {
        push_one_decimal(&mut out, x, 1024);
        assert(out@ =~= one_decimal(x as nat, 1024));
        out.append("MB");
    } else {
        push_one_decimal(&mut out, x, 1048576);
        assert(out@ =~= one_decimal(x as nat, 1048576));
        out.append("GB");
    }
    out
}

/// A count with its noun properly declined.
pub open spec fn counted(n: nat, one: Seq<char>, many: Seq<char>) -> Seq<char> {
    decimal(n) + " "@ + if n == 1 {
        one
    } else {
        many
    }
}

/// `3 processes`, `1 process`: a count with its noun properly declined.
pub fn count(n: usize, one: &str, many: &str) -> (r: String)
    ensures
        r@ == counted(n as nat, one@, many@),
{
    let mut out: String = String::new();
    push_decimal(&mut out, n as u128);
    assert(out@ =~= decimal(n as nat));
    out.append(" ");
    out.append(
        if n == 1 {
            one
        } else {
            many
        },
    );
    out
}

/// The PID column's text: starred when it is this shell's own ancestry.
pub open spec fn pid_text(p: ProcessView) -> Seq<char> {
    if p.protected {
        decimal(p.pid as nat) + "*"@
    } else {
        decimal(p.pid as nat)
    }
}

/// The MEM column's text: `-` for a kernel thread, which owns no user memory.
pub open spec fn mem_text(p: ProcessView) -> Seq<char> {
    match p.rss_kib {
        Some(kib) => memory_text(kib),
        None => "-"@,
    }
}

/// What a process is called: its command line, or its name in brackets when it has none.
pub open spec fn command_text(p: ProcessView) -> Seq<char> {
    if p.cmdline.len() == 0 {
        "["@ + p.name + "]"@
    } else {
        p.cmdline
    }
}

/// The PID column's text.
pub fn pid_cell(p: &Process) -> (r: String)
    ensures
        r@ == pid_text(p@),
{
    let mut out: String = String::new();
    push_decimal(&mut out, p.pid as u128);
    assert(out@ =~= decimal(p.pid as nat));
    if p.protected {
        out.append("*");
    }
    out
}

/// The MEM column's text.
pub fn mem_cell(p: &Process) -> (r: String)
    ensures
        r@ == mem_text(p@),
{
    match p.rss_kib {
        Some(kib) => mem_label(kib),
        None => "-".to_owned(),
    }
}

/// What a process is called in the report.
pub fn command_label(p: &Process) -> (r: String)
    ensures
        r@ == command_text(p@),
{
    if p.cmdline.as_str().is_empty() {
        let mut out: String = "[".to_owned();
        out.append(p.name.as_str());
        out.append("]");
        out
    } else {
        p.cmdline.clone()
    }
}

// --- commands -------------------------------------------------------------------------------

/// Whether the command text leaves some needle unexplained.
pub open spec fn some_needle_hidden(text: Seq<char>, needles: Seq<Seq<char>>) -> bool {
    exists|i: int|
        0 <= i < needles.len() && (#[trigger] needles[i]).len() > 0 && !occurs(text, needles[i])
}

/// The matched fields that a command text does not show.
pub open spec fn hidden_fields(p: ProcessView) -> Seq<Seq<char>> {
    let by_name = if p.matched.contains(Field::Name) {
        seq!["name: "@ + p.name]
    } else {
        seq![]
    };
    let by_exe = match p.exe {
        Some(exe) => if p.matched.contains(Field::Exe) {
            seq!["exe: "@ + exe]
        } else {
            seq![]
        },
        None => seq![],
    };
    let by_window = match p.window {
        Some(title) => if p.matched.contains(Field::Window) {
            seq!["window: "@ + title]
        } else {
            seq![]
        },
        None => seq![],
    };
    by_name + by_exe + by_window
}

/// Where a match is not to be seen in the command, every other field that it was found in is named:
/// the name, the path of the program and the title of the window.
pub proof fn law_every_hidden_match_is_named(p: ProcessView)
    ensures
        hidden_fields(p).contains("name: "@ + p.name) <==> p.matched.contains(Field::Name) || (
        p.exe is Some && p.matched.contains(Field::Exe) && "exe: "@ + p.exe->0 == "name: "@ + p.name)
            || (p.window is Some && p.matched.contains(Field::Window) && "window: "@ + p.window->0
            == "name: "@ + p.name),
        p.exe is Some && p.matched.contains(Field::Exe) ==> hidden_fields(p).contains(
            "exe: "@ + p.exe->0,
        ),
        p.window is Some && p.matched.contains(Field::Window) ==> hidden_fields(p).contains(
            "window: "@ + p.window->0,
        ),
        hidden_fields(p).len() == (if p.matched.contains(Field::Name) {
            1int
        } else {
            0
        }) + (if p.exe is Some && p.matched.contains(Field::Exe) {
            1int
        } else {
            0
        }) + (if p.window is Some && p.matched.contains(Field::Window) {
            1int
        } else {
            0
        }),
{
    let all = hidden_fields(p);
    let a = if p.matched.contains(Field::Name) {
        1int
    } else {
        0
    };
    let b = if p.exe is Some && p.matched.contains(Field::Exe) {
        1int
    } else {
        0
    };
    if a == 1 {
        assert(all[0] == "name: "@ + p.name);
    }
    if b == 1 {
        assert(all[a] == "exe: "@ + p.exe->0);
    }
    if p.window is Some && p.matched.contains(Field::Window) {
        assert(all[a + b] == "window: "@ + p.window->0);
    }
}

/// `text` cut to `room` columns, marking that something was removed.
pub open spec fn clipped(text: Seq<char>, room: nat) -> Seq<char> {
    if text.len() > room {
        text.take(
            if room == 0 {
                0
            } else {
                room - 1
            },
        ) + "…"@
    } else {
        text
    }
}

/// A text that is cut fits the room, and is the front of it with a mark; one that fits is not cut.
pub proof fn law_a_cut_text_fits_its_room(text: Seq<char>, room: nat)
    ensures
        text.len() <= room ==> clipped(text, room) == text,
        text.len() > room && room > 0 ==> clipped(text, room) == text.take(room - 1) + "…"@
            && clipped(text, room).len() == room,
{
    reveal_strlit("…");
}

/// A command with what the match hides behind it.
pub open spec fn explained(p: ProcessView, needles: Seq<Seq<char>>) -> Seq<char> {
    let text = command_text(p);
    if p.relation == Relation::Match && some_needle_hidden(text, needles) && hidden_fields(p).len()
        > 0 {
        text + "  ("@ + join(hidden_fields(p), ", "@) + ")"@
    } else {
        text
    }
}

/// A command is shown whole; what a match by something else was found in stands behind it, and
/// only there.
pub proof fn law_what_a_command_is_explained_by(p: ProcessView, needles: Seq<Seq<char>>, i: int)
    requires
        0 <= i < needles.len(),
    ensures
        command_text(p).is_prefix_of(explained(p, needles)),
        p.relation != Relation::Match ==> explained(p, needles) == command_text(p),
        p.relation == Relation::Match && needles[i].len() > 0 && !occurs(command_text(p), needles[i])
            && hidden_fields(p).len() > 0 ==> explained(p, needles) == command_text(p) + "  ("@ + join(
            hidden_fields(p),
            ", "@,
        ) + ")"@,
        p.cmdline.len() > 0 ==> command_text(p) == p.cmdline,
        p.cmdline.len() == 0 ==> command_text(p) == "["@ + p.name + "]"@,
{
    let text = command_text(p);
    let more = join(hidden_fields(p), ", "@);
    assert(text + "  ("@ + more + ")"@ =~= text + ("  ("@ + more + ")"@));
    assert(text.is_prefix_of(text + ("  ("@ + more + ")"@))) by {
        assert((text + ("  ("@ + more + ")"@)).subrange(0, text.len() as int) =~= text);
    }
    assert(text.subrange(0, text.len() as int) =~= text);
}

/// The command column without colours.
pub open spec fn plain_command(p: ProcessView, needles: Seq<Seq<char>>, room: Option<nat>) -> Seq<
    char,
> {
    match room {
        Some(n) => clipped(explained(p, needles), n),
        None => explained(p, needles),
    }
}

/// The command column: matches glow, context does not.
pub open spec fn styled_command(p: ProcessView, needles: Seq<Seq<char>>, room: Option<nat>) -> Seq<
    char,
> {
    if p.relation == Relation::Match {
        highlighted(plain_command(p, needles, room), needles)
    } else {
        plain_command(p, needles, room)
    }
}

/// A room as a number.
pub open spec fn room_of(room: Option<usize>) -> Option<nat> {
    match room {
        Some(n) => Some(n as nat),
        None => None,
    }
}

/// Cut `text` to `room` columns, counting characters, marking that something was removed.
pub fn clip(text: &str, room: usize) -> (r: String)
    ensures
        r@ == clipped(text@, room as nat),
{
    let cs: Vec<char> = chars_of(text);
    if cs.len() > room {
        let keep: usize = if room == 0 {
            0
        } else {
            room - 1
        };
        let mut out: String = string_of(slice_subrange(cs.as_slice(), 0, keep));
        out.append("…");
        out
    } else {
        text.to_owned()
    }
}

/// `label` then `value`.
fn labelled(label: &str, value: &str) -> (r: String)
    ensures
        r@ == label@ + value@,
{
    let mut out: String = label.to_owned();
    out.append(value);
    out
}

/// The matched fields that a command text does not show.
fn hidden_of(p: &Process) -> (r: Vec<String>)
    ensures
        r.deep_view() == hidden_fields(p@),
{
    let mut out: Vec<String> = Vec::new();
    if has_field(&p.matched, Field::Name) {
        out.push(labelled("name: ", p.name.as_str()));
    }
    if has_field(&p.matched, Field::Exe) {
        if let Some(exe) = &p.exe {
            out.push(labelled("exe: ", exe.as_str()));
        }
    }
    if has_field(&p.matched, Field::Window) {
        if let Some(title) = &p.window {
            out.push(labelled("window: ", title.as_str()));
        }
    }
    assert(out.deep_view() =~= hidden_fields(p@));
    out
}

/// Whether the command text leaves some needle unexplained.
fn hides_a_needle(text: &str, needles: &Vec<String>) -> (r: bool)
    ensures
        r == some_needle_hidden(text@, needles.deep_view()),
{
    let mut i: usize = 0;
    while i < needles.len()
        invariant
            i <= needles.len(),
            forall|j: int|
                0 <= j < i ==> !((#[trigger] needles.deep_view()[j]).len() > 0 && !occurs(
                    text@,
                    needles.deep_view()[j],
                )),
        decreases needles.len() - i,
    {
        assert(needles.deep_view()[i as int] == needles@[i as int]@);
        if !needles[i].as_str().is_empty() && !is_found(text, needles[i].as_str()) {
            return true;
        }
        i += 1;
    }
    assert(needles.deep_view().len() == needles@.len());
    false
}

/// The command column without colours: the full command, with the matched fields it does not
/// show behind it, so that no row leaves the reader guessing why it qualified.
pub fn command_plain(p: &Process, needles: &Vec<String>, room: Option<usize>) -> (r: String)
    ensures
        r@ == plain_command(p@, needles.deep_view(), room_of(room)),
{
    let mut plain: String = command_label(p);
    if p.relation == Relation::Match && hides_a_needle(plain.as_str(), needles) {
        let hidden: Vec<String> = hidden_of(p);
        assert(hidden.deep_view().len() == hidden@.len());
        if hidden.len() > 0 {
            plain.append("  (");
            plain.append(joined(&hidden, ", ").as_str());
            plain.append(")");
        }
    }
    match room {
        Some(n) => clip(plain.as_str(), n),
        None => plain,
    }
}

/// The command column: composed plain, clipped, then highlighted in one pass.
pub fn command_cell(p: &Process, needles: &Vec<String>, room: Option<usize>) -> (r: String)
    ensures
        r@ == styled_command(p@, needles.deep_view(), room_of(room)),
{
    let plain: String = command_plain(p, needles, room);
    if p.relation == Relation::Match {
        highlight(plain.as_str(), needles)
    } else {
        plain
    }
}

// --- columns --------------------------------------------------------------------------------

/// The fixed columns of the report.
pub enum Column {
    Pid,
    User,
    Age,
    Cpu,
    Mem,
}

/// The text of a process in a column.
pub open spec fn cell(p: ProcessView, column: Column) -> Seq<char> {
    match column {
        Column::Pid => pid_text(p),
        Column::User => p.user,
        Column::Age => age_text(p.age),
        Column::Cpu => p.cpu_label,
        Column::Mem => mem_text(p),
    }
}

/// The width that a column has at least: that of its heading.
pub open spec fn floor(column: Column) -> nat {
    match column {
        Column::User | Column::Cpu => 4,
        _ => 3,
    }
}

/// The width of a column over the first `n` rows.
pub open spec fn width(rows: Seq<ProcessView>, n: nat, column: Column) -> nat
    decreases n,
{
    if n == 0 {
        floor(column)
    } else {
        let before = width(rows, (n - 1) as nat, column);
        let here = cell(rows[n - 1], column).len();
        if here > before {
            here
        } else {
            before
        }
    }
}

/// A column is as wide as its widest cell, and no wider but for its heading.
pub proof fn law_a_column_holds_every_cell(rows: Seq<ProcessView>, n: nat, column: Column)
    requires
        n <= rows.len(),
    ensures
        floor(column) <= width(rows, n, column),
        forall|i: int| 0 <= i < n ==> cell(#[trigger] rows[i], column).len() <= width(rows, n, column),
        width(rows, n, column) == floor(column) || exists|i: int|
            0 <= i < n && cell(#[trigger] rows[i], column).len() == width(rows, n, column),
    decreases n,
{
    if n > 0 {
        law_a_column_holds_every_cell(rows, (n - 1) as nat, column);
        let before = width(rows, (n - 1) as nat, column);
        if width(rows, n, column) == before && before != floor(column) {
            let i = choose|i: int|
                0 <= i < n - 1 && cell(#[trigger] rows[i], column).len() == before;
            assert(cell(rows[i], column).len() == before);
        } else if width(rows, n, column) != before {
            assert(cell(rows[n - 1], column).len() == width(rows, n, column));
        }
    }
}

/// The widths of the fixed columns.
#[derive(Clone, Copy)]
pub struct Widths {
    pub pid: usize,
    pub user: usize,
    pub age: usize,
    pub cpu: usize,
    pub mem: usize,
}

impl Widths {
    /// Whether these are the widths over the first `n` rows.
    pub open spec fn fit(self, rows: Seq<ProcessView>, n: nat) -> bool {
        &&& self.pid == width(rows, n, Column::Pid)
        &&& self.user == width(rows, n, Column::User)
        &&& self.age == width(rows, n, Column::Age)
        &&& self.cpu == width(rows, n, Column::Cpu)
        &&& self.mem == width(rows, n, Column::Mem)
    }
}

/// The greater of `w` and the length of `text`.
fn widen(w: usize, text: &str) -> (r: usize)
    ensures
        r == if text@.len() > w {
            text@.len()
        } else {
            w as nat
        },
{
    let n: usize = chars_of(text).len();
    if n > w {
        n
    } else {
        w
    }
}

/// Column widths over every row: shared by every view, so that they always agree.
pub fn column_widths(rows: &Vec<Process>) -> (r: Widths)
    ensures
        r.fit(rows.deep_view(), rows.deep_view().len()),
{
    let mut w: Widths = Widths { pid: 3, user: 4, age: 3, cpu: 4, mem: 3 };
    let mut i: usize = 0;
    while i < rows.len()
        invariant
            i <= rows.len(),
            w.fit(rows.deep_view(), i as nat),
        decreases rows.len() - i,
    {
        assert(rows.deep_view()[i as int] == rows@[i as int]@);
        let p: &Process = &rows[i];
        w = Widths {
            pid: widen(w.pid, pid_cell(p).as_str()),
            user: widen(w.user, p.user.as_str()),
            age: widen(w.age, age_label(p.age).as_str()),
            cpu: widen(w.cpu, p.cpu_label.as_str()),
            mem: widen(w.mem, mem_cell(p).as_str()),
        };
        i += 1;
    }
    assert(rows.deep_view().len() == rows@.len());
    w
}

/// The fixed columns behind the first one, up to the command.
pub open spec fn middle_columns(
    user: Seq<char>,
    age: Seq<char>,
    cpu: Seq<char>,
    mem: Seq<char>,
    w: Widths,
) -> Seq<char> {
    "  "@ + padded(user, w.user as nat) + "  "@ + padded(age, w.age as nat) + "  "@ + padded(
        cpu,
        w.cpu as nat,
    ) + "  "@ + padded(mem, w.mem as nat) + "  "@
}

/// The heading of the report.
pub open spec fn header_text(w: Widths) -> Seq<char> {
    padded("PID"@, w.pid as nat) + middle_columns("USER"@, "AGE"@, "%CPU"@, "MEM"@, w) + "COMMAND"@
}

/// The columns of a process behind the first one.
pub open spec fn columns_of(p: ProcessView, w: Widths) -> Seq<char> {
    middle_columns(p.user, age_text(p.age), p.cpu_label, mem_text(p), w)
}

/// The columns of a process up to the command.
pub open spec fn row_head(p: ProcessView, w: Widths) -> Seq<char> {
    padded(pid_text(p), w.pid as nat) + columns_of(p, w)
}

/// The fixed columns behind the first one, up to the command.
fn middle(user: &str, age: &str, cpu: &str, mem: &str, w: Widths) -> (r: String)
    ensures
        r@ == middle_columns(user@, age@, cpu@, mem@, w),
{
    let mut out: String = "  ".to_owned();
    push_padded(&mut out, user, w.user);
    out.append("  ");
    push_padded(&mut out, age, w.age);
    out.append("  ");
    push_padded(&mut out, cpu, w.cpu);
    out.append("  ");
    push_padded(&mut out, mem, w.mem);
    out.append("  ");
    out
}

/// The `PID USER AGE %CPU MEM COMMAND` heading for a given set of widths.
pub fn widths_header(w: Widths) -> (r: String)
    ensures
        r@ == header_text(w),
{
    let mut out: String = String::new();
    push_padded(&mut out, "PID", w.pid);
    assert(out@ =~= padded("PID"@, w.pid as nat));
    out.append(middle("USER", "AGE", "%CPU", "MEM", w).as_str());
    out.append("COMMAND");
    out
}

/// The columns of a process behind the first one.
fn columns(p: &Process, w: Widths) -> (r: String)
    ensures
        r@ == columns_of(p@, w),
{
    middle(
        p.user.as_str(),
        age_label(p.age).as_str(),
        p.cpu_label.as_str(),
        mem_cell(p).as_str(),
        w,
    )
}

/// The columns of a process up to the command.
pub fn head_of(p: &Process, w: Widths) -> (r: String)
    ensures
        r@ == row_head(p@, w),
{
    let mut out: String = String::new();
    push_padded(&mut out, pid_cell(p).as_str(), w.pid);
    assert(out@ =~= padded(pid_text(p@), w.pid as nat));
    out.append(columns(p, w).as_str());
    out
}

// --- rows -----------------------------------------------------------------------------------

/// A clipped command is never squeezed below this, however narrow the window.
pub const MIN_COMMAND: usize = 20;

/// What a form adds in front of every row: focus mark and checkbox.
pub const CHOOSE_LEAD: usize = 6;

/// What the fixed columns, the branches and `lead` leave of a window for the command.
pub open spec fn command_room(window: nat, w: Widths, branch: nat, lead: nat) -> nat {
    let used = w.pid + w.user + w.age + w.cpu + w.mem + 10 + branch + lead;
    if window > used + MIN_COMMAND {
        (window - used) as nat
    } else {
        MIN_COMMAND as nat
    }
}

/// A command has all the room that the columns, the branches and what leads leave of the window,
/// and never less than it needs to be told apart.
pub proof fn law_a_row_fills_the_window(window: nat, w: Widths, branch: nat, lead: nat)
    ensures
        ({
            let room = command_room(window, w, branch, lead);
            let used = w.pid + w.user + w.age + w.cpu + w.mem + 10 + branch + lead;
            &&& room >= 20
            &&& room == 20 || used + room == window
            &&& window >= used + 20 ==> used + room == window
        }),
{
}

/// What is left of `n` after taking `k`.
fn less(n: usize, k: usize) -> (r: usize)
    ensures
        r == if n > k {
            n - k
        } else {
            0
        },
{
    if n > k {
        n - k
    } else {
        0
    }
}

/// The room for a command where commands are cut at the window's edge.
fn room_for(short: bool, window: usize, w: Widths, branch: &str, lead: usize) -> (r: Option<usize>)
    ensures
        room_of(r) == if short {
            Some(command_room(window as nat, w, branch@.len(), lead as nat))
        } else {
            None
        },
{
    if !short {
        return None;
    }
    let n: usize = chars_of(branch).len();
    let left: usize = less(
        less(less(less(less(less(less(less(window, w.pid), w.user), w.age), w.cpu), w.mem), 10), n),
        lead,
    );
    Some(
        if left > MIN_COMMAND {
            left
        } else {
            MIN_COMMAND
        },
    )
}

proof fn lemma_kids_in_table(rel: Seq<ProcessView>, pid: int, n: nat, k: int)
    requires
        n <= rel.len(),
        0 <= k < kids(rel, pid, n).len(),
    ensures
        has_pid(rel, kids(rel, pid, n)[k]),
    decreases n,
{
    if n > 0 {
        let before = kids(rel, pid, (n - 1) as nat);
        if k < before.len() {
            lemma_kids_in_table(rel, pid, (n - 1) as nat, k);
        } else {
            assert(rel[n - 1].pid == kids(rel, pid, n)[k]);
        }
    }
}

proof fn lemma_roots_in_table(rel: Seq<ProcessView>, n: nat, k: int)
    requires
        n <= rel.len(),
        0 <= k < roots(rel, n).len(),
    ensures
        has_pid(rel, roots(rel, n)[k]),
    decreases n,
{
    if n > 0 {
        let before = roots(rel, (n - 1) as nat);
        if k < before.len() {
            lemma_roots_in_table(rel, (n - 1) as nat, k);
        } else {
            assert(rel[n - 1].pid == roots(rel, n)[k]);
        }
    }
}

proof fn lemma_subtree_in_table(
    rel: Seq<ProcessView>,
    pid: int,
    branch: Seq<char>,
    descend: Seq<char>,
    fuel: nat,
    i: int,
)
    requires
        has_pid(rel, pid),
        0 <= i < subtree(rel, pid, branch, descend, fuel).len(),
    ensures
        has_pid(rel, subtree(rel, pid, branch, descend, fuel)[i].pid),
    decreases fuel, 0int,
{
    if fuel > 0 && i > 0 {
        let ks = kids(rel, pid, rel.len());
        lemma_limbs_in_table(rel, pid, 0, descend, (fuel - 1) as nat, i - 1);
        assert(subtree(rel, pid, branch, descend, fuel)[i] == limbs(
            rel,
            ks,
            0,
            descend,
            (fuel - 1) as nat,
        )[i - 1]);
    }
}

proof fn lemma_limbs_in_table(
    rel: Seq<ProcessView>,
    pid: int,
    k: int,
    descend: Seq<char>,
    fuel: nat,
    i: int,
)
    requires
        0 <= k,
        0 <= i < limbs(rel, kids(rel, pid, rel.len()), k, descend, fuel).len(),
    ensures
        has_pid(rel, limbs(rel, kids(rel, pid, rel.len()), k, descend, fuel)[i].pid),
    decreases fuel, kids(rel, pid, rel.len()).len() - k,
{
    let ks = kids(rel, pid, rel.len());
    if k < ks.len() {
        let last = k == ks.len() - 1;
        let twig = if last {
            "└─ "@
        } else {
            "├─ "@
        };
        let carry = if last {
            "   "@
        } else {
            "│  "@
        };
        let first = subtree(rel, ks[k], descend + twig, descend + carry, fuel);
        let rest = limbs(rel, ks, k + 1, descend, fuel);
        lemma_kids_in_table(rel, pid, rel.len(), k);
        if i < first.len() {
            lemma_subtree_in_table(rel, ks[k], descend + twig, descend + carry, fuel, i);
            assert((first + rest)[i] == first[i]);
        } else {
            lemma_limbs_in_table(rel, pid, k + 1, descend, fuel, i - first.len());
            assert((first + rest)[i] == rest[i - first.len()]);
        }
    }
}

proof fn lemma_trees_in_table(rel: Seq<ProcessView>, k: int, i: int)
    requires
        0 <= k,
        0 <= i < trees(rel, roots(rel, rel.len()), k).len(),
    ensures
        has_pid(rel, trees(rel, roots(rel, rel.len()), k)[i].pid),
    decreases roots(rel, rel.len()).len() - k,
{
    let rs = roots(rel, rel.len());
    if k < rs.len() {
        let first = subtree(rel, rs[k], seq![], seq![], rel.len());
        let rest = trees(rel, rs, k + 1);
        lemma_roots_in_table(rel, rel.len(), k);
        if i < first.len() {
            lemma_subtree_in_table(rel, rs[k], seq![], seq![], rel.len(), i);
            assert((first + rest)[i] == first[i]);
        } else {
            lemma_trees_in_table(rel, k + 1, i - first.len());
            assert((first + rest)[i] == rest[i - first.len()]);
        }
    }
}

/// The drawn tree shows no process that the table does not have.
pub proof fn law_drawn_processes_are_in_the_table(rel: Seq<ProcessView>, i: int)
    requires
        0 <= i < drawn(rel).len(),
    ensures
        has_pid(rel, drawn(rel)[i].pid),
{
    lemma_trees_in_table(rel, 0, i);
}

/// The process that a row of the drawn tree shows.
pub open spec fn shown(rel: Seq<ProcessView>, pid: int) -> ProcessView {
    match position(rel, pid, 0) {
        Some(i) => rel[i],
        None => arbitrary(),
    }
}

/// The position of the process that a row of the drawn tree shows.
fn process_of(rel: &Vec<Process>, rows: &Vec<TreeRow>, i: usize) -> (r: usize)
    requires
        rows.deep_view() == drawn(rel.deep_view()),
        i < rows.len(),
    ensures
        r < rel.len(),
        rel@[r as int]@ == shown(rel.deep_view(), rows@[i as int]@.pid),
{
    assert(rows.deep_view()[i as int] == rows@[i as int]@);
    proof {
        law_drawn_processes_are_in_the_table(rel.deep_view(), i as int);
    }
    let at: Option<usize> = find_process(rel, rows[i].pid);
    match at {
        Some(k) => {
            assert(rel.deep_view()[k as int] == rel@[k as int]@);
            k
        },
        None => {
            assert(false);
            0
        },
    }
}

/// The PID column in the report: a match found by its PID glows there.
pub open spec fn pid_shown(p: ProcessView) -> Seq<char> {
    if p.relation == Relation::Match && p.matched.contains(Field::Pid) {
        glow(decimal(p.pid as nat)) + if p.protected {
            "*"@
        } else {
            seq![]
        }
    } else {
        pid_text(p)
    }
}

/// The colours of the tree.
pub struct TreePalette {
    /// The heading.
    pub header: Paint,
    /// Context, which explains ownership and does not change.
    pub dark: Paint,
    /// The remark beneath the tree.
    pub notice: Paint,
}

/// One row of the report. Padding is measured on the plain cell: the glow adds no width.
pub open spec fn report_row(
    p: ProcessView,
    w: Widths,
    branch: Seq<char>,
    needles: Seq<Seq<char>>,
    room: Option<nat>,
) -> Seq<char> {
    pid_shown(p) + repeat(
        ' ',
        if pid_text(p).len() < w.pid {
            (w.pid - pid_text(p).len()) as nat
        } else {
            0
        },
    ) + columns_of(p, w) + branch + styled_command(p, needles, room)
}

/// A row shows the columns of its process in order, each as it is written, and the command last.
pub proof fn law_every_column_is_in_the_row(
    p: ProcessView,
    w: Widths,
    branch: Seq<char>,
    needles: Seq<Seq<char>>,
    room: Option<nat>,
)
    requires
        !(p.relation == Relation::Match && p.matched.contains(Field::Pid)),
        !p.protected,
    ensures
        report_row(p, w, branch, needles, room) == decimal(p.pid as nat) + repeat(
            ' ',
            if decimal(p.pid as nat).len() < w.pid {
                (w.pid - decimal(p.pid as nat).len()) as nat
            } else {
                0
            },
        ) + ("  "@ + padded(p.user, w.user as nat) + "  "@ + padded(age_text(p.age), w.age as nat)
            + "  "@ + padded(p.cpu_label, w.cpu as nat) + "  "@ + padded(
            match p.rss_kib {
                Some(kib) => memory_text(kib),
                None => "-"@,
            },
            w.mem as nat,
        ) + "  "@) + branch + (if p.relation == Relation::Match {
            highlighted(plain_command(p, needles, room), needles)
        } else {
            plain_command(p, needles, room)
        }),
{
}

/// One line of the report: context is dimmed whole.
pub open spec fn report_line(
    p: ProcessView,
    w: Widths,
    branch: Seq<char>,
    needles: Seq<Seq<char>>,
    room: Option<nat>,
    dark: Paint,
) -> Seq<char> {
    if p.relation == Relation::Ancestor {
        painted(dark, report_row(p, w, branch, needles, room))
    } else {
        report_row(p, w, branch, needles, room)
    }
}

/// The room of a row where commands are cut at the window's edge.
pub open spec fn row_room(short: bool, window: nat, w: Widths, branch: Seq<char>, lead: nat) -> Option<
    nat,
> {
    if short {
        Some(command_room(window, w, branch.len(), lead))
    } else {
        None
    }
}

/// The lines of the first `n` rows of the tree.
pub open spec fn tree_lines(
    rel: Seq<ProcessView>,
    rows: Seq<TreeRowView>,
    n: nat,
    w: Widths,
    needles: Seq<Seq<char>>,
    short: bool,
    window: nat,
    dark: Paint,
) -> Seq<Seq<char>>
    decreases n,
{
    if n == 0 {
        seq![]
    } else {
        let row = rows[n - 1];
        tree_lines(rel, rows, (n - 1) as nat, w, needles, short, window, dark).push(
            report_line(
                shown(rel, row.pid),
                w,
                row.branch,
                needles,
                row_room(short, window, w, row.branch, 0),
                dark,
            ),
        )
    }
}

/// Every row of the tree has its line, in order, with the process that it is about.
pub proof fn law_every_row_has_its_line(
    rel: Seq<ProcessView>,
    rows: Seq<TreeRowView>,
    n: nat,
    w: Widths,
    needles: Seq<Seq<char>>,
    short: bool,
    window: nat,
    dark: Paint,
)
    requires
        n <= rows.len(),
    ensures
        tree_lines(rel, rows, n, w, needles, short, window, dark).len() == n,
        forall|i: int|
            0 <= i < n ==> (#[trigger] tree_lines(
                rel,
                rows,
                n,
                w,
                needles,
                short,
                window,
                dark,
            )[i]) == report_line(
                shown(rel, rows[i].pid),
                w,
                rows[i].branch,
                needles,
                row_room(short, window, w, rows[i].branch, 0),
                dark,
            ),
    decreases n,
{
    if n > 0 {
        law_every_row_has_its_line(rel, rows, (n - 1) as nat, w, needles, short, window, dark);
    }
}

/// Whether a process of this shell's own ancestry is among them.
pub open spec fn any_protected(rel: Seq<ProcessView>) -> bool {
    exists|i: int| 0 <= i < rel.len() && (#[trigger] rel[i]).protected
}

/// The report: a heading, each process at its place in the tree, and a remark where this shell's
/// own ancestry is shown.
pub open spec fn rendered(
    rel: Seq<ProcessView>,
    w: Widths,
    needles: Seq<Seq<char>>,
    short: bool,
    window: nat,
    palette: TreePalette,
) -> Seq<Seq<char>> {
    let lines = seq![painted(palette.header, header_text(w))] + tree_lines(
        rel,
        drawn(rel),
        drawn(rel).len(),
        w,
        needles,
        short,
        window,
        palette.dark,
    );
    if any_protected(rel) {
        lines.push(
            painted(
                palette.notice,
                "* this shell's own ancestry — murder will refuse to signal these"@,
            ),
        )
    } else {
        lines
    }
}

/// The report is the heading, a line for every row of the tree, and the note on the starred rows
/// where any process of the tree, whichever it is, is of this shell's own ancestry.
pub proof fn law_the_report_holds_every_row(
    rel: Seq<ProcessView>,
    w: Widths,
    needles: Seq<Seq<char>>,
    short: bool,
    window: nat,
    palette: TreePalette,
)
    ensures
        ({
            let lines = rendered(rel, w, needles, short, window, palette);
            let rows = drawn(rel);
            let starred = exists|i: int| 0 <= i < rel.len() && (#[trigger] rel[i]).protected;
            &&& lines.len() == 1 + rows.len() + if starred {
                1int
            } else {
                0
            }
            &&& lines[0] == painted(palette.header, header_text(w))
            &&& forall|i: int|
                0 <= i < rows.len() ==> #[trigger] lines[i + 1] == report_line(
                    shown(rel, rows[i].pid),
                    w,
                    rows[i].branch,
                    needles,
                    row_room(short, window, w, rows[i].branch, 0),
                    palette.dark,
                )
            &&& starred ==> lines.last() == painted(
                palette.notice,
                "* this shell's own ancestry — murder will refuse to signal these"@,
            )
        }),
{
    let rows = drawn(rel);
    law_every_row_has_its_line(rel, rows, rows.len(), w, needles, short, window, palette.dark);
    let inner = tree_lines(rel, rows, rows.len(), w, needles, short, window, palette.dark);
    let lines = rendered(rel, w, needles, short, window, palette);
    assert forall|i: int| 0 <= i < rows.len() implies #[trigger] lines[i + 1] == inner[i] by {}
}

/// Whether lines are the report of a table, in columns as wide as the table needs.
pub open spec fn is_report(
    lines: Seq<Seq<char>>,
    rel: Seq<ProcessView>,
    needles: Seq<Seq<char>>,
    short: bool,
    window: nat,
    palette: TreePalette,
) -> bool {
    exists|w: Widths|
        w.fit(rel, rel.len()) && lines == #[trigger] rendered(
            rel,
            w,
            needles,
            short,
            window,
            palette,
        )
}

/// The PID column in the report.
fn show_pid(p: &Process) -> (r: String)
    ensures
        r@ == pid_shown(p@),
{
    if p.relation == Relation::Match && has_field(&p.matched, Field::Pid) {
        let mut pid: String = String::new();
        push_decimal(&mut pid, p.pid as u128);
        assert(pid@ =~= decimal(p.pid as nat));
        let mut out: String = glowing(pid.as_str());
        let ghost before = out@;
        if p.protected {
            out.append("*");
        } else {
            assert(before + seq![] =~= before);
        }
        out
    } else {
        pid_cell(p)
    }
}

/// One line of the report.
fn line_of(
    p: &Process,
    w: Widths,
    branch: &str,
    needles: &Vec<String>,
    room: Option<usize>,
    dark: &Paint,
) -> (r: String)
    ensures
        r@ == report_line(p@, w, branch@, needles.deep_view(), room_of(room), *dark),
{
    let n: usize = chars_of(pid_cell(p).as_str()).len();
    let mut row: String = show_pid(p);
    push_repeat(
        &mut row,
        ' ',
        if n < w.pid {
            w.pid - n
        } else {
            0
        },
    );
    row.append(columns(p, w).as_str());
    row.append(branch);
    row.append(command_cell(p, needles, room).as_str());
    if p.relation == Relation::Ancestor {
        dark.paint(row.as_str())
    } else {
        row
    }
}

/// Whether a process of this shell's own ancestry is among them.
fn has_protected(rel: &Vec<Process>) -> (r: bool)
    ensures
        r == any_protected(rel.deep_view()),
{
    let mut i: usize = 0;
    while i < rel.len()
        invariant
            i <= rel.len(),
            forall|j: int| 0 <= j < i ==> !(#[trigger] rel.deep_view()[j]).protected,
        decreases rel.len() - i,
    {
        assert(rel.deep_view()[i as int] == rel@[i as int]@);
        if rel[i].protected {
            return true;
        }
        i += 1;
    }
    assert(rel.deep_view().len() == rel@.len());
    false
}

/// The report: aligned columns, then each process at its place in the tree, the branches sharing
/// the command column. Commands are complete unless `short` cuts them at the edge of a window
/// `window` columns wide.
pub fn render(
    rel: &Vec<Process>,
    needles: &Vec<String>,
    short: bool,
    window: usize,
    palette: &TreePalette,
) -> (r: Vec<String>)
    ensures
        is_report(
            r.deep_view(),
            rel.deep_view(),
            needles.deep_view(),
            short,
            window as nat,
            *palette,
        ),
{
    let w: Widths = column_widths(rel);
    let rows: Vec<TreeRow> = tree_order(rel);
    let mut lines: Vec<String> = Vec::new();
    lines.push(palette.header.paint(widths_header(w).as_str()));
    let ghost head = seq![painted(palette.header, header_text(w))];
    assert(lines.deep_view() =~= head);
    let mut i: usize = 0;
    assert(head + seq![] =~= head);
    while i < rows.len()
        invariant
            i <= rows.len(),
            rows.deep_view() == drawn(rel.deep_view()),
            lines.deep_view() == head + tree_lines(
                rel.deep_view(),
                rows.deep_view(),
                i as nat,
                w,
                needles.deep_view(),
                short,
                window as nat,
                palette.dark,
            ),
        decreases rows.len() - i,
    {
        assert(rows.deep_view()[i as int] == rows@[i as int]@);
        let ghost before = lines.deep_view();
        let k: usize = process_of(rel, &rows, i);
        let branch: &str = rows[i].branch.as_str();
        let room: Option<usize> = room_for(short, window, w, branch, 0);
        let line: String = line_of(&rel[k], w, branch, needles, room, &palette.dark);
        let ghost lv = line@;
        lines.push(line);
        assert(lines.deep_view() =~= before.push(lv));
        assert(lines.deep_view() =~= head + tree_lines(
            rel.deep_view(),
            rows.deep_view(),
            (i + 1) as nat,
            w,
            needles.deep_view(),
            short,
            window as nat,
            palette.dark,
        ));
        i += 1;
    }
    assert(rows.deep_view().len() == rows@.len());
    if has_protected(rel) {
        let ghost before = lines.deep_view();
        lines.push(
            palette.notice.paint("* this shell's own ancestry — murder will refuse to signal these"),
        );
        assert(lines.deep_view() =~= before.push(
            painted(
                palette.notice,
                "* this shell's own ancestry — murder will refuse to signal these"@,
            ),
        ));
    }
    assert(lines.deep_view() == rendered(
        rel.deep_view(),
        w,
        needles.deep_view(),
        short,
        window as nat,
        *palette,
    ));
    lines
}

// --- the form -------------------------------------------------------------------------------

/// One row of the tree as a form shows it.
pub open spec fn form_row(
    p: ProcessView,
    w: Widths,
    branch: Seq<char>,
    needles: Seq<Seq<char>>,
    room: Option<nat>,
    styled: bool,
) -> Seq<char> {
    row_head(p, w) + branch + if styled {
        styled_command(p, needles, room)
    } else {
        plain_command(p, needles, room)
    }
}

/// The first `n` rows of the tree as a form shows them.
pub open spec fn form_rows(
    rel: Seq<ProcessView>,
    rows: Seq<TreeRowView>,
    n: nat,
    w: Widths,
    needles: Seq<Seq<char>>,
    short: bool,
    styled: bool,
    window: nat,
) -> Seq<Seq<char>>
    decreases n,
{
    if n == 0 {
        seq![]
    } else {
        let row = rows[n - 1];
        form_rows(rel, rows, (n - 1) as nat, w, needles, short, styled, window).push(
            form_row(
                shown(rel, row.pid),
                w,
                row.branch,
                needles,
                row_room(short, window, w, row.branch, CHOOSE_LEAD as nat),
                styled,
            ),
        )
    }
}

/// Every row of the tree has its line in the form, in order, with the process that it is about.
pub proof fn law_every_row_is_in_the_form(
    rel: Seq<ProcessView>,
    rows: Seq<TreeRowView>,
    n: nat,
    w: Widths,
    needles: Seq<Seq<char>>,
    short: bool,
    styled: bool,
    window: nat,
)
    requires
        n <= rows.len(),
    ensures
        form_rows(rel, rows, n, w, needles, short, styled, window).len() == n,
        forall|i: int|
            0 <= i < n ==> (#[trigger] form_rows(
                rel,
                rows,
                n,
                w,
                needles,
                short,
                styled,
                window,
            )[i]) == form_row(
                shown(rel, rows[i].pid),
                w,
                rows[i].branch,
                needles,
                row_room(short, window, w, rows[i].branch, CHOOSE_LEAD as nat),
                styled,
            ),
    decreases n,
{
    if n > 0 {
        law_every_row_is_in_the_form(rel, rows, (n - 1) as nat, w, needles, short, styled, window);
    }
}

/// A row of the tree: its process, and its text.
pub struct FormRow {
    pub pid: u32,
    pub text: String,
}

/// The texts of rows.
pub open spec fn row_texts(rows: Seq<FormRow>) -> Seq<Seq<char>> {
    rows.map_values(|r: FormRow| r.text@)
}

/// Whether rows are the tree as a form shows it.
pub open spec fn are_tree_rows(
    r: Seq<FormRow>,
    rel: Seq<ProcessView>,
    needles: Seq<Seq<char>>,
    short: bool,
    styled: bool,
    window: nat,
) -> bool {
    &&& r.len() == drawn(rel).len()
    &&& forall|i: int| 0 <= i < r.len() ==> (#[trigger] r[i]).pid == drawn(rel)[i].pid
    &&& exists|w: Widths|
        w.fit(rel, rel.len()) && row_texts(r) == #[trigger] form_rows(
            rel,
            drawn(rel),
            drawn(rel).len(),
            w,
            needles,
            short,
            styled,
            window,
        )
}

/// The tree as rows, in display order: same columns, same walk, same command cell as the report.
pub fn tree_rows(
    rel: &Vec<Process>,
    needles: &Vec<String>,
    short: bool,
    styled: bool,
    window: usize,
) -> (r: Vec<FormRow>)
    ensures
        are_tree_rows(r@, rel.deep_view(), needles.deep_view(), short, styled, window as nat),
{
    let w: Widths = column_widths(rel);
    let rows: Vec<TreeRow> = tree_order(rel);
    let mut out: Vec<FormRow> = Vec::new();
    let mut i: usize = 0;
    assert(row_texts(out@) =~= seq![]);
    assert(rows.deep_view().len() == rows@.len());
    while i < rows.len()
        invariant
            i <= rows.len(),
            rows.deep_view() == drawn(rel.deep_view()),
            rows.deep_view().len() == rows.len(),
            out.len() == i,
            forall|j: int| 0 <= j < i ==> (#[trigger] out@[j]).pid == rows.deep_view()[j].pid,
            row_texts(out@) == form_rows(
                rel.deep_view(),
                rows.deep_view(),
                i as nat,
                w,
                needles.deep_view(),
                short,
                styled,
                window as nat,
            ),
        decreases rows.len() - i,
    {
        assert(rows.deep_view()[i as int] == rows@[i as int]@);
        let ghost before = row_texts(out@);
        let k: usize = process_of(rel, &rows, i);
        let branch: &str = rows[i].branch.as_str();
        let room: Option<usize> = room_for(short, window, w, branch, CHOOSE_LEAD);
        let mut text: String = head_of(&rel[k], w);
        text.append(branch);
        if styled {
            text.append(command_cell(&rel[k], needles, room).as_str());
        } else {
            text.append(command_plain(&rel[k], needles, room).as_str());
        }
        let ghost tv = text@;
        out.push(FormRow { pid: rows[i].pid, text });
        assert(row_texts(out@) =~= before.push(tv));
        i += 1;
    }
    out
}

/// One item of a form: a fixed line, or a group of boxes under a heading.
pub enum FormItem {
    Comment(String),
    Checkboxes { label: String, options: Vec<String> },
}

/// An item of a form, by what it says.
pub enum FormItemView {
    Comment(Seq<char>),
    Checkboxes { label: Seq<char>, options: Seq<Seq<char>> },
}

impl View for FormItem {
    type V = FormItemView;

    open spec fn view(&self) -> FormItemView {
        match self {
            FormItem::Comment(s) => FormItemView::Comment(s@),
            FormItem::Checkboxes { label, options } => FormItemView::Checkboxes {
                label: label@,
                options: options.deep_view(),
            },
        }
    }
}

impl DeepView for FormItem {
    type V = FormItemView;

    open spec fn deep_view(&self) -> FormItemView {
        self@
    }
}

/// A form: its title, its items, whether fixed lines stand in line with the boxes, and whether
/// boxes of the same wording are one box in two places.
pub struct Form {
    pub title: &'static str,
    pub aligned: bool,
    pub mirrored: bool,
    pub items: Vec<FormItem>,
}

/// The title above the tree of the matches.
pub const CHOOSE_TITLE: &'static str = "murder — tick what dies (context rows are fixed)";

/// Whether a process can be ticked: a match, and not this shell's own ancestry.
pub open spec fn tickable(p: ProcessView) -> bool {
    p.relation == Relation::Match && !p.protected
}

/// Items with the boxes still waiting behind them as one group.
pub open spec fn flushed(items: Seq<FormItemView>, pending: Seq<Seq<char>>) -> Seq<FormItemView> {
    if pending.len() == 0 {
        items
    } else {
        items.push(FormItemView::Checkboxes { label: seq![], options: pending })
    }
}

/// The items that the heading and the first `n` rows make, and the boxes still waiting for a
/// group: a row that cannot be ticked closes the group before it.
pub open spec fn form_state(
    header: Seq<char>,
    rel: Seq<ProcessView>,
    pids: Seq<int>,
    texts: Seq<Seq<char>>,
    n: nat,
) -> (Seq<FormItemView>, Seq<Seq<char>>)
    decreases n,
{
    if n == 0 {
        (seq![FormItemView::Comment(header)], seq![])
    } else {
        let before = form_state(header, rel, pids, texts, (n - 1) as nat);
        if tickable(shown(rel, pids[n - 1])) {
            (before.0, before.1.push(texts[n - 1]))
        } else {
            (flushed(before.0, before.1).push(FormItemView::Comment(texts[n - 1])), seq![])
        }
    }
}

/// The items of the form: the heading, then every match a box and every context row a fixed
/// line, in tree order.
pub open spec fn form_items(
    header: Seq<char>,
    rel: Seq<ProcessView>,
    pids: Seq<int>,
    texts: Seq<Seq<char>>,
) -> Seq<FormItemView> {
    let end = form_state(header, rel, pids, texts, texts.len());
    let items = flushed(end.0, end.1);
    if any_protected(rel) {
        items.push(FormItemView::Comment("* this shell's own ancestry — never offered"@))
    } else {
        items
    }
}

proof fn lemma_form_holds(
    header: Seq<char>,
    rel: Seq<ProcessView>,
    pids: Seq<int>,
    texts: Seq<Seq<char>>,
    n: nat,
)
    requires
        n <= texts.len(),
    ensures
        ({
            let state = form_state(header, rel, pids, texts, n);
            state.0.flat_map(
                |item: FormItemView|
                    match item {
                        FormItemView::Comment(text) => seq![text],
                        FormItemView::Checkboxes { label, options } => options,
                    },
            ) + state.1 == seq![header] + texts.take(n as int)
        }),
    decreases n,
{
    let f = |item: FormItemView|
        match item {
            FormItemView::Comment(text) => seq![text],
            FormItemView::Checkboxes { label, options } => options,
        };
    let state = form_state(header, rel, pids, texts, n);
    if n == 0 {
        lemma_flat_map_last(state.0, f, 1);
        assert(state.0.take(1) =~= state.0);
        assert(state.0.take(0).map_values(f) =~= seq![]);
        assert(state.0.flat_map(f) + state.1 =~= seq![header] + texts.take(0));
    } else {
        lemma_form_holds(header, rel, pids, texts, (n - 1) as nat);
        let before = form_state(header, rel, pids, texts, (n - 1) as nat);
        let so_far = before.0.flat_map(f);
        let text = texts[n - 1];
        assert(seq![header] + texts.take(n as int) =~= (seq![header] + texts.take(n - 1)).push(text));
        if tickable(shown(rel, pids[n - 1])) {
            assert(so_far + before.1.push(text) =~= (so_far + before.1).push(text));
        } else {
            let closed = flushed(before.0, before.1);
            if before.1.len() > 0 {
                lemma_flat_map_last(closed, f, closed.len());
                assert(closed.take(closed.len() as int) =~= closed);
                assert(closed.take(closed.len() - 1) =~= before.0);
            } else {
                assert(so_far + before.1 =~= so_far);
            }
            assert(closed.flat_map(f) == so_far + before.1);
            lemma_flat_map_last(state.0, f, state.0.len());
            assert(state.0.take(state.0.len() as int) =~= state.0);
            assert(state.0.take(state.0.len() - 1) =~= closed);
            assert(state.0.flat_map(f) + state.1 =~= closed.flat_map(f).push(text));
        }
    }
}

/// The form says, line by line and in order, what the tree does: the heading, every row as it is,
/// and the note on this shell's own ancestry where some of it is in the tree.
pub proof fn law_the_form_holds_every_row(
    header: Seq<char>,
    rel: Seq<ProcessView>,
    pids: Seq<int>,
    texts: Seq<Seq<char>>,
)
    ensures
        form_items(header, rel, pids, texts).flat_map(
            |item: FormItemView|
                match item {
                    FormItemView::Comment(text) => seq![text],
                    FormItemView::Checkboxes { label, options } => options,
                },
        ) == seq![header] + texts + (if any_protected(rel) {
            seq!["* this shell's own ancestry — never offered"@]
        } else {
            seq![]
        }),
{
    let f = |item: FormItemView|
        match item {
            FormItemView::Comment(text) => seq![text],
            FormItemView::Checkboxes { label, options } => options,
        };
    lemma_form_holds(header, rel, pids, texts, texts.len());
    assert(texts.take(texts.len() as int) =~= texts);
    let end = form_state(header, rel, pids, texts, texts.len());
    let closed = flushed(end.0, end.1);
    if end.1.len() > 0 {
        lemma_flat_map_last(closed, f, closed.len());
        assert(closed.take(closed.len() as int) =~= closed);
        assert(closed.take(closed.len() - 1) =~= end.0);
    } else {
        assert(end.0.flat_map(f) + end.1 =~= end.0.flat_map(f));
    }
    let items = form_items(header, rel, pids, texts);
    if any_protected(rel) {
        lemma_flat_map_last(items, f, items.len());
        assert(items.take(items.len() as int) =~= items);
        assert(items.take(items.len() - 1) =~= closed);
    } else {
        assert(seq![header] + texts + seq![] =~= seq![header] + texts);
    }
}

/// The boxes of a form, in order.
pub open spec fn boxes(items: Seq<FormItemView>, n: nat) -> Seq<Seq<char>>
    decreases n,
{
    if n == 0 {
        seq![]
    } else {
        boxes(items, (n - 1) as nat) + match items[n - 1] {
            FormItemView::Comment(_) => seq![],
            FormItemView::Checkboxes { label, options } => options,
        }
    }
}

/// Of the first `n` rows those that can be ticked.
pub open spec fn tickable_rows(
    rel: Seq<ProcessView>,
    pids: Seq<int>,
    texts: Seq<Seq<char>>,
    n: nat,
) -> Seq<Seq<char>>
    decreases n,
{
    if n == 0 {
        seq![]
    } else if tickable(shown(rel, pids[n - 1])) {
        tickable_rows(rel, pids, texts, (n - 1) as nat).push(texts[n - 1])
    } else {
        tickable_rows(rel, pids, texts, (n - 1) as nat)
    }
}

/// Every row of a match that is not of this shell's own ancestry can be ticked, in order, and no
/// other.
pub proof fn law_every_match_can_be_ticked(
    rel: Seq<ProcessView>,
    pids: Seq<int>,
    texts: Seq<Seq<char>>,
    n: nat,
)
    requires
        n <= texts.len(),
    ensures
        tickable_rows(rel, pids, texts, n) == Seq::new(
            n,
            |i: int|
                if shown(rel, pids[i]).relation == Relation::Match && !shown(rel, pids[i]).protected {
                    seq![texts[i]]
                } else {
                    seq![]
                },
        ).flatten(),
    decreases n,
{
    if n > 0 {
        law_every_match_can_be_ticked(rel, pids, texts, (n - 1) as nat);
        lemma_parts_last(
            |i: int|
                if shown(rel, pids[i]).relation == Relation::Match && !shown(rel, pids[i]).protected {
                    seq![texts[i]]
                } else {
                    seq![]
                },
            n,
        );
        let before = tickable_rows(rel, pids, texts, (n - 1) as nat);
        assert(before + seq![texts[n - 1]] =~= before.push(texts[n - 1]));
        assert(before + seq![] =~= before);
    }
}

proof fn lemma_boxes_prefix(items: Seq<FormItemView>, x: FormItemView, n: nat)
    requires
        n <= items.len(),
    ensures
        boxes(items.push(x), n) == boxes(items, n),
    decreases n,
{
    if n > 0 {
        lemma_boxes_prefix(items, x, (n - 1) as nat);
    }
}

proof fn lemma_boxes_flushed(items: Seq<FormItemView>, pending: Seq<Seq<char>>)
    ensures
        boxes(flushed(items, pending), flushed(items, pending).len()) == boxes(items, items.len())
            + pending,
{
    if pending.len() == 0 {
        assert(boxes(items, items.len()) + pending =~= boxes(items, items.len()));
    } else {
        let x = FormItemView::Checkboxes { label: seq![], options: pending };
        lemma_boxes_prefix(items, x, items.len());
    }
}

proof fn lemma_form_state(
    header: Seq<char>,
    rel: Seq<ProcessView>,
    pids: Seq<int>,
    texts: Seq<Seq<char>>,
    n: nat,
)
    ensures
        ({
            let s = form_state(header, rel, pids, texts, n);
            boxes(s.0, s.0.len()) + s.1 == tickable_rows(rel, pids, texts, n)
        }),
    decreases n,
{
    if n == 0 {
        let opening = seq![FormItemView::Comment(header)];
        assert(boxes(opening, 0) =~= seq![]);
        assert(boxes(opening, 1) + Seq::<Seq<char>>::empty() =~= seq![]);
    } else {
        lemma_form_state(header, rel, pids, texts, (n - 1) as nat);
        let before = form_state(header, rel, pids, texts, (n - 1) as nat);
        if tickable(shown(rel, pids[n - 1])) {
            assert(boxes(before.0, before.0.len()) + before.1.push(texts[n - 1]) =~= (boxes(
                before.0,
                before.0.len(),
            ) + before.1).push(texts[n - 1]));
        } else {
            let f = flushed(before.0, before.1);
            let x = FormItemView::Comment(texts[n - 1]);
            lemma_boxes_flushed(before.0, before.1);
            lemma_boxes_prefix(f, x, f.len());
            let s = form_state(header, rel, pids, texts, n);
            assert(boxes(s.0, s.0.len()) + s.1 =~= boxes(f, f.len()));
        }
    }
}

/// Exactly the matches are tickable, in tree order: a descendant is what goes with one, not a
/// choice.
pub proof fn law_the_boxes_are_the_matches(
    header: Seq<char>,
    rel: Seq<ProcessView>,
    pids: Seq<int>,
    texts: Seq<Seq<char>>,
)
    ensures
        boxes(form_items(header, rel, pids, texts), form_items(header, rel, pids, texts).len()) == tickable_rows(
            rel,
            pids,
            texts,
            texts.len(),
        ),
{
    let end = form_state(header, rel, pids, texts, texts.len());
    lemma_form_state(header, rel, pids, texts, texts.len());
    lemma_boxes_flushed(end.0, end.1);
    let f = flushed(end.0, end.1);
    let x = FormItemView::Comment("* this shell's own ancestry — never offered"@);
    lemma_boxes_prefix(f, x, f.len());
    assert(boxes(f, f.len()) + seq![] =~= boxes(f, f.len()));
}

/// The PIDs of rows.
pub open spec fn row_pids(rows: Seq<FormRow>) -> Seq<int> {
    rows.map_values(|r: FormRow| r.pid as int)
}

/// Close the group of boxes that is waiting.
fn flush(items: &mut Vec<FormItem>, pending: Vec<String>)
    ensures
        final(items).deep_view() == flushed(old(items).deep_view(), pending.deep_view()),
{
    let ghost before = items.deep_view();
    let ghost pv = pending.deep_view();
    assert(pending.deep_view().len() == pending@.len());
    if pending.len() > 0 {
        items.push(FormItem::Checkboxes { label: String::new(), options: pending });
        assert(items.deep_view() =~= before.push(
            FormItemView::Checkboxes { label: seq![], options: pv },
        ));
    }
}

/// The form of the tree: the heading opens it, consecutive matches pool into one group of boxes,
/// any context row between closes it.
pub fn choose_form(rel: &Vec<Process>, rows: &Vec<FormRow>) -> (r: Form)
    requires
        forall|i: int| 0 <= i < rows@.len() ==> has_pid(rel.deep_view(), (#[trigger] rows@[i]).pid as int),
    ensures
        r.title@ == CHOOSE_TITLE@,
        r.aligned,
        !r.mirrored,
        exists|w: Widths|
            w.fit(rel.deep_view(), rel.deep_view().len()) && r.items.deep_view()
                == #[trigger] form_items(
                header_text(w),
                rel.deep_view(),
                row_pids(rows@),
                row_texts(rows@),
            ),
{
    let w: Widths = column_widths(rel);
    let mut items: Vec<FormItem> = Vec::new();
    items.push(FormItem::Comment(widths_header(w)));
    let mut pending: Vec<String> = Vec::new();
    let mut i: usize = 0;
    assert(items.deep_view() =~= seq![FormItemView::Comment(header_text(w))]);
    assert(pending.deep_view() =~= seq![]);
    while i < rows.len()
        invariant
            i <= rows.len(),
            forall|j: int|
                0 <= j < rows@.len() ==> has_pid(rel.deep_view(), (#[trigger] rows@[j]).pid as int),
            (items.deep_view(), pending.deep_view()) == form_state(
                header_text(w),
                rel.deep_view(),
                row_pids(rows@),
                row_texts(rows@),
                i as nat,
            ),
        decreases rows.len() - i,
    {
        assert(row_pids(rows@)[i as int] == rows@[i as int].pid as int);
        assert(row_texts(rows@)[i as int] == rows@[i as int].text@);
        let at: Option<usize> = find_process(rel, rows[i].pid);
        assert(at is Some);
        let k: usize = at.unwrap();
        assert(rel.deep_view()[k as int] == rel@[k as int]@);
        if rel[k].relation == Relation::Match && !rel[k].protected {
            push_text(&mut pending, rows[i].text.as_str());
        } else {
            flush(&mut items, pending);
            let ghost before = items.deep_view();
            items.push(FormItem::Comment(rows[i].text.clone()));
            assert(items.deep_view() =~= before.push(FormItemView::Comment(rows@[i as int].text@)));
            pending = Vec::new();
            assert(pending.deep_view() =~= seq![]);
        }
        i += 1;
    }
    flush(&mut items, pending);
    if has_protected(rel) {
        let ghost before = items.deep_view();
        items.push(FormItem::Comment("* this shell's own ancestry — never offered".to_owned()));
        assert(items.deep_view() =~= before.push(
            FormItemView::Comment("* this shell's own ancestry — never offered"@),
        ));
    }
    assert(items.deep_view() == form_items(
        header_text(w),
        rel.deep_view(),
        row_pids(rows@),
        row_texts(rows@),
    ));
    Form { title: CHOOSE_TITLE, aligned: true, mirrored: false, items }
}

// --- reading a choice back ------------------------------------------------------------------

/// `s` without the stars behind it.
pub open spec fn unstarred(s: Seq<char>) -> Seq<char>
    decreases s.len(),
{
    if s.len() > 0 && s.last() == '*' {
        unstarred(s.drop_last())
    } else {
        s
    }
}

/// Only the stars at the end are taken off, and all of them.
pub proof fn law_only_stars_are_taken_off(s: Seq<char>)
    ensures
        unstarred(s).len() <= s.len(),
        unstarred(s) == s.take(unstarred(s).len() as int),
        forall|i: int| unstarred(s).len() <= i < s.len() ==> #[trigger] s[i] == '*',
        unstarred(s).len() > 0 ==> unstarred(s).last() != '*',
    decreases s.len(),
{
    if s.len() > 0 && s.last() == '*' {
        let t = s.drop_last();
        law_only_stars_are_taken_off(t);
        assert(t.take(unstarred(t).len() as int) =~= s.take(unstarred(s).len() as int));
        assert forall|i: int| unstarred(s).len() <= i < s.len() implies #[trigger] s[i] == '*' by {
            if i < s.len() - 1 {
                assert(t[i] == s[i]);
            }
        }
    } else {
        assert(s.take(s.len() as int) =~= s);
    }
}

/// The number that leads a line, with a star behind it tolerated.
pub open spec fn leading_number(plain: Seq<char>) -> Option<nat> {
    if words(plain).len() > 0 {
        parse_decimal(unstarred(words(plain)[0]), u32::MAX as nat)
    } else {
        None
    }
}

/// The number that leads a line without escapes.
pub fn pid_in(plain: &str) -> (r: Option<u32>)
    ensures
        match r {
            Some(n) => leading_number(plain@) == Some(n as nat),
            None => leading_number(plain@) is None,
        },
{
    let cs: Vec<char> = chars_of(plain);
    let ws: Vec<String> = words_of(cs.as_slice());
    assert(ws.deep_view().len() == ws@.len());
    if ws.len() == 0 {
        return None;
    }
    assert(ws.deep_view()[0] == ws@[0]@);
    let word: Vec<char> = chars_of(ws[0].as_str());
    let mut n: usize = word.len();
    assert(word@.take(n as int) =~= word@);
    while n > 0 && word[n - 1] == '*'
        invariant
            n <= word.len(),
            unstarred(word@) == unstarred(word@.take(n as int)),
        decreases n,
    {
        assert(word@.take(n as int).drop_last() =~= word@.take(n - 1));
        n -= 1;
    }
    match parse_number(slice_subrange(word.as_slice(), 0, n), u32::MAX as u64) {
        Some(v) => Some(v as u32),
        None => None,
    }
}

/// The PID or window number back out of a ticked line: always the first token. Colours are
/// stripped first, since a PID matched by PID glows in this very token.
pub fn picked_pid(option: &str) -> (r: Option<u32>)
    ensures
        match r {
            Some(n) => leading_number(without_escapes(option@)) == Some(n as nat),
            None => leading_number(without_escapes(option@)) is None,
        },
{
    pid_in(strip_escapes(option).as_str())
}

/// The numbers that lead the ticked ones among the first `n` options.
pub open spec fn ticked(options: Seq<Seq<char>>, checked: Seq<bool>, n: nat) -> Seq<u32>
    decreases n,
{
    if n == 0 {
        seq![]
    } else {
        let before = ticked(options, checked, (n - 1) as nat);
        match leading_number(without_escapes(options[n - 1])) {
            Some(pid) => if checked[n - 1] {
                before.push(pid as u32)
            } else {
                before
            },
            None => before,
        }
    }
}

/// Every box that is ticked and that a number leads is read, in order, and no other.
pub proof fn law_every_ticked_box_is_read(options: Seq<Seq<char>>, checked: Seq<bool>, n: nat)
    requires
        n <= options.len(),
    ensures
        ticked(options, checked, n) == Seq::new(
            n,
            |i: int|
                if checked[i] && leading_number(without_escapes(options[i])) is Some {
                    seq![leading_number(without_escapes(options[i]))->0 as u32]
                } else {
                    seq![]
                },
        ).flatten(),
    decreases n,
{
    if n > 0 {
        law_every_ticked_box_is_read(options, checked, (n - 1) as nat);
        lemma_parts_last(
            |i: int|
                if checked[i] && leading_number(without_escapes(options[i])) is Some {
                    seq![leading_number(without_escapes(options[i]))->0 as u32]
                } else {
                    seq![]
                },
            n,
        );
        let before = ticked(options, checked, (n - 1) as nat);
        let pid = leading_number(without_escapes(options[n - 1]))->0 as u32;
        assert(before + seq![pid] =~= before.push(pid));
        assert(before + seq![] =~= before);
    }
}

/// The PIDs of the ticked options.
pub fn ticked_pids(options: &Vec<String>, checked: &Vec<bool>) -> (r: Vec<u32>)
    ensures
        r@ == ticked(
            options.deep_view(),
            checked@,
            if options.deep_view().len() < checked@.len() {
                options.deep_view().len()
            } else {
                checked@.len()
            },
        ),
{
    let mut out: Vec<u32> = Vec::new();
    let mut i: usize = 0;
    assert(options.deep_view().len() == options@.len());
    while i < options.len() && i < checked.len()
        invariant
            i <= options.len(),
            i <= checked.len(),
            out@ == ticked(options.deep_view(), checked@, i as nat),
        decreases options.len() - i,
    {
        assert(options.deep_view()[i as int] == options@[i as int]@);
        if let Some(pid) = picked_pid(options[i].as_str()) {
            if checked[i] {
                out.push(pid);
            }
        }
        i += 1;
    }
    out
}

/// How a form ended.
pub enum FormEnd {
    /// It could not be shown, and why.
    Failed(String),
    Cancelled,
    Submitted,
}

/// A group of boxes of a form, as it was left.
pub struct TickedGroup {
    pub options: Vec<String>,
    pub checked: Vec<bool>,
}

/// The PIDs of what is ticked in the first `n` groups.
pub open spec fn ticked_in(groups: Seq<TickedGroup>, n: nat) -> Seq<u32>
    decreases n,
{
    if n == 0 {
        seq![]
    } else {
        let group = groups[n - 1];
        ticked_in(groups, (n - 1) as nat) + ticked(
            group.options.deep_view(),
            group.checked@,
            if group.options.deep_view().len() < group.checked@.len() {
                group.options.deep_view().len()
            } else {
                group.checked@.len()
            },
        )
    }
}

/// The boxes of every group are read, group by group.
pub proof fn law_every_group_is_read(groups: Seq<TickedGroup>, n: nat)
    requires
        n <= groups.len(),
    ensures
        ticked_in(groups, n) == groups.take(n as int).flat_map(
            |group: TickedGroup|
                ticked(
                    group.options.deep_view(),
                    group.checked@,
                    if group.options.deep_view().len() < group.checked@.len() {
                        group.options.deep_view().len()
                    } else {
                        group.checked@.len()
                    },
                ),
        ),
    decreases n,
{
    if n > 0 {
        law_every_group_is_read(groups, (n - 1) as nat);
        lemma_flat_map_last(
            groups,
            |group: TickedGroup|
                ticked(
                    group.options.deep_view(),
                    group.checked@,
                    if group.options.deep_view().len() < group.checked@.len() {
                        group.options.deep_view().len()
                    } else {
                        group.checked@.len()
                    },
                ),
            n,
        );
    }
}

/// What is ticked in a form that was submitted, or what is said of one that was not.
pub open spec fn picked_in(end: FormEnd, groups: Seq<TickedGroup>) -> Result<Seq<u32>, Seq<char>> {
    match end {
        FormEnd::Failed(why) => Err("murder: "@ + why@),
        FormEnd::Cancelled => Err("murder: aborted — nothing chosen"@),
        FormEnd::Submitted => Ok(ticked_in(groups, groups.len())),
    }
}

/// What is chosen in a form that was submitted is what is ticked in all of its groups; a form that
/// was not submitted chooses nothing.
pub proof fn law_all_that_is_ticked_is_chosen(groups: Seq<TickedGroup>)
    ensures
        picked_in(FormEnd::Submitted, groups) == Ok::<Seq<u32>, Seq<char>>(
            groups.flat_map(
                |group: TickedGroup|
                    ticked(
                        group.options.deep_view(),
                        group.checked@,
                        if group.options.deep_view().len() < group.checked@.len() {
                            group.options.deep_view().len()
                        } else {
                            group.checked@.len()
                        },
                    ),
            ),
        ),
        picked_in(FormEnd::Cancelled, groups) is Err,
{
    law_every_group_is_read(groups, groups.len());
    assert(groups.take(groups.len() as int) =~= groups);
}

/// What is ticked in a form that was submitted, or what is said of one that was not.
pub fn submitted(end: &FormEnd, groups: &Vec<TickedGroup>) -> (r: Result<Vec<u32>, String>)
    ensures
        match r {
            Ok(pids) => picked_in(*end, groups@) == Ok::<Seq<u32>, Seq<char>>(pids@),
            Err(said) => picked_in(*end, groups@) == Err::<Seq<u32>, Seq<char>>(said@),
        },
{
    match end {
        FormEnd::Failed(why) => {
            let mut said: String = "murder: ".to_owned();
            said.append(why.as_str());
            Err(said)
        },
        FormEnd::Cancelled => Err("murder: aborted — nothing chosen".to_owned()),
        FormEnd::Submitted => {
            let mut out: Vec<u32> = Vec::new();
            let mut i: usize = 0;
            while i < groups.len()
                invariant
                    i <= groups.len(),
                    out@ == ticked_in(groups@, i as nat),
                decreases groups.len() - i,
            {
                let ghost before = out@;
                let mut more: Vec<u32> = ticked_pids(&groups[i].options, &groups[i].checked);
                let ghost added = more@;
                out.append(&mut more);
                assert(out@ =~= before + added);
                i += 1;
            }
            Ok(out)
        },
    }
}

/// What a form chose to signal, or what is said where it chose nothing. Submitting it is the
/// confirmation.
pub fn chosen_pids(end: &FormEnd, groups: &Vec<TickedGroup>) -> (r: Result<Vec<u32>, String>)
    ensures
        match picked_in(*end, groups@) {
            Err(why) => r matches Err(said) && said@ == why,
            Ok(picked) => if picked.len() == 0 {
                r matches Err(said) && said@ == "murder: nothing ticked — nothing to signal"@
            } else {
                r matches Ok(pids) && pids@ == picked
            },
        },
{
    match submitted(end, groups) {
        Ok(pids) => if pids.len() == 0 {
            Err("murder: nothing ticked — nothing to signal".to_owned())
        } else {
            Ok(pids)
        },
        Err(said) => Err(said),
    }
}

proof fn lemma_unstarred_digits(s: Seq<char>)
    requires
        s.len() > 0,
        crate::text::all_digits(s),
    ensures
        unstarred(s) == s,
        unstarred(s + "*"@) == s,
{
    reveal_strlit("*");
    assert(crate::text::is_digit(s[s.len() - 1]));
    assert((s + "*"@).last() == '*');
    assert((s + "*"@).drop_last() =~= s);
}

/// The whole selection rests on it: a line that begins with the columns of a process reads back
/// to its PID, star and all.
pub proof fn law_a_row_reads_back_to_its_pid(p: ProcessView, w: Widths, rest: Seq<char>)
    requires
        0 <= p.pid <= u32::MAX,
    ensures
        leading_number(row_head(p, w) + rest) == Some(p.pid as nat),
{
    let n = p.pid as nat;
    let d = decimal(n);
    let a = pid_text(p);
    crate::text::law_decimal_reads_back(n);
    reveal_strlit("*");
    reveal_strlit("  ");
    assert forall|i: int| 0 <= i < a.len() implies !crate::text::is_white(#[trigger] a[i]) by {
        if i < d.len() {
            assert(a[i] == d[i]);
            assert(crate::text::is_digit(d[i]));
        } else {
            assert(a[i] == '*');
        }
    }
    let pad = repeat(
        ' ',
        if a.len() < w.pid {
            (w.pid - a.len()) as nat
        } else {
            0
        },
    );
    let b = pad + columns_of(p, w) + rest;
    assert(row_head(p, w) + rest =~= a + b);
    assert("  "@[0] == ' ');
    assert(columns_of(p, w)[0] == ' ');
    assert(b[0] == ' ');
    crate::text::lemma_first_word(a, b);
    lemma_unstarred_digits(d);
}

} // verus!
