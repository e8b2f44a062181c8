//! Filesystem commands (`fs_*`): a long listing under a header, in which Windows shortcuts, which
//! cannot work here, are flagged like broken links; and an overview of disk usage.

pub mod usage;

use vstd::prelude::*;
use vstd::slice::slice_subrange;
use vstd::string::*;
use crate::bytes::{byte_from, find_byte, lemma_byte_from, lossy_text, read_lossy};
use crate::paths::{file_name, file_name_of};
use crate::sequences::{lemma_filter_last, lemma_filter_map_last};
use crate::style::{painted, strip_escapes, without_escapes, Paint};
use crate::text::{
    begins_with, chars_of, contains, find_char, finishes_with, holds, is_white, join, join_n, joined,
    lemma_char_from, lemma_trim_start_len, lemma_word_end, lines, lines_of, push_text, push_texts,
    push_words, same_text, string_of, trim_start, word_end, words, words_of,
};

verus! {

/// A command that is shell text: the one name it goes by, and its body.
pub struct ShellCommand {
    pub name: &'static str,
    pub body: &'static str,
}

/// Hop one directory up: it goes by `..` and by no other name.
pub fn dir_up() -> (r: ShellCommand)
    ensures
        r.name@ == ".."@,
        r.body@ == "cd .. \"$@\""@,
{
    ShellCommand { name: "..", body: "cd .. \"$@\"" }
}

/// The arguments of `lll`: whatever was typed, handed to `ls` untouched.
pub struct LllArgs {
    pub passthrough: Vec<String>,
}

/// The arguments of `ls`: those that define the listing, then whatever was typed.
pub fn ls_args(args: &LllArgs) -> (r: Vec<String>)
    ensures
        r.deep_view() == seq![
            "-tarlushFN"@,
            "--color=always"@,
            "--time-style=+%F_%T"@,
            "--group-directories-first"@,
        ] + args.passthrough.deep_view(),
{
    let mut out: Vec<String> = Vec::new();
    push_words(
        &mut out,
        vec![
            "-tarlushFN",
            "--color=always",
            "--time-style=+%F_%T",
            "--group-directories-first",
        ],
    );
    assert(out.deep_view() =~= seq![
        "-tarlushFN"@,
        "--color=always"@,
        "--time-style=+%F_%T"@,
        "--group-directories-first"@,
    ]);
    push_texts(&mut out, &args.passthrough);
    out
}

// --- shortcuts ------------------------------------------------------------------------------

/// A shortcut and where it leads.
pub struct Shortcut {
    pub name: String,
    pub target: String,
}

impl View for Shortcut {
    type V = (Seq<char>, Seq<char>);

    open spec fn view(&self) -> (Seq<char>, Seq<char>) {
        (self.name@, self.target@)
    }
}

impl DeepView for Shortcut {
    type V = (Seq<char>, Seq<char>);

    open spec fn deep_view(&self) -> (Seq<char>, Seq<char>) {
        self@
    }
}

/// Where a shortcut leads: the last of the first `n` entries of that name says it.
pub open spec fn target_of(list: Seq<(Seq<char>, Seq<char>)>, name: Seq<char>, n: nat) -> Option<
    Seq<char>,
>
    decreases n,
{
    if n == 0 {
        None
    } else if list[n - 1].0 == name {
        Some(list[n - 1].1)
    } else {
        target_of(list, name, (n - 1) as nat)
    }
}

/// The last entry of a name says where it leads; there is none only where no entry has the name.
pub proof fn law_the_last_entry_says_where_it_leads(
    list: Seq<(Seq<char>, Seq<char>)>,
    name: Seq<char>,
    n: nat,
)
    requires
        n <= list.len(),
    ensures
        match target_of(list, name, n) {
            Some(target) => exists|i: int|
                0 <= i < n && #[trigger] list[i] == (name, target) && forall|j: int|
                    i < j < n ==> (#[trigger] list[j]).0 != name,
            None => forall|j: int| 0 <= j < n ==> (#[trigger] list[j]).0 != name,
        },
    decreases n,
{
    if n > 0 {
        law_the_last_entry_says_where_it_leads(list, name, (n - 1) as nat);
        if list[n - 1].0 == name {
            assert(list[n - 1] == (name, list[n - 1].1));
        } else if let Some(target) = target_of(list, name, (n - 1) as nat) {
            let i = choose|i: int|
                0 <= i < n - 1 && #[trigger] list[i] == (name, target) && forall|j: int|
                    i < j < n - 1 ==> (#[trigger] list[j]).0 != name;
            assert(list[i] == (name, target));
        }
    }
}

/// Where a shortcut leads.
fn find_target<'a>(list: &'a Vec<Shortcut>, name: &str) -> (r: Option<&'a str>)
    ensures
        match r {
            Some(target) => target_of(list.deep_view(), name@, list@.len()) == Some(target@),
            None => target_of(list.deep_view(), name@, list@.len()) is None,
        },
{
    let mut n: usize = list.len();
    while n > 0
        invariant
            n <= list.len(),
            target_of(list.deep_view(), name@, list@.len()) == target_of(
                list.deep_view(),
                name@,
                n as nat,
            ),
        decreases n,
    {
        assert(list.deep_view()[n - 1] == list@[n - 1]@);
        if same_text(list[n - 1].name.as_str(), name) {
            return Some(list[n - 1].target.as_str());
        }
        n -= 1;
    }
    None
}

/// Four bytes at an offset, the lowest first; nothing where there are none.
pub open spec fn u32_at(bytes: Seq<u8>, off: int) -> Option<nat> {
    if 0 <= off && off + 4 <= bytes.len() {
        Some(
            (bytes[off] + 0x100 * bytes[off + 1] + 0x10000 * bytes[off + 2] + 0x1000000 * bytes[off
                + 3]) as nat,
        )
    } else {
        None
    }
}

/// Two bytes at an offset, the lowest first; nothing where there are none.
pub open spec fn u16_at(bytes: Seq<u8>, off: int) -> Option<nat> {
    if 0 <= off && off + 2 <= bytes.len() {
        Some((bytes[off] + 0x100 * bytes[off + 1]) as nat)
    } else {
        None
    }
}

/// The text from an offset up to the next zero byte, or to the end; nothing where it is empty or
/// the offset is beyond the end.
pub open spec fn cstr_at(bytes: Seq<u8>, start: int) -> Option<Seq<char>> {
    if 0 <= start < bytes.len() && bytes[start] != 0 {
        Some(lossy_text(bytes.subrange(start, byte_from(bytes, 0, start))))
    } else {
        None
    }
}

/// Whether bit `k` of a number is set.
pub open spec fn bit(n: nat, k: nat) -> bool {
    (n / k) % 2 == 1
}

/// Where the link information of a shortcut begins: behind the header, and behind the list of
/// item identifiers where there is one.
pub open spec fn link_info(bytes: Seq<u8>, flags: nat) -> Option<int> {
    if bit(flags, 1) {
        match u16_at(bytes, 76) {
            Some(size) => Some(78 + size as int),
            None => None,
        }
    } else {
        Some(76)
    }
}

/// Where the local path of a shortcut stands: nothing where the bytes are no shortcut, or hold no
/// local path.
pub open spec fn local_path_at(bytes: Seq<u8>) -> Option<int> {
    if u32_at(bytes, 0) != Some(0x4Cnat) || u32_at(bytes, 20) is None {
        None
    } else {
        let flags = u32_at(bytes, 20)->0;
        if !bit(flags, 2) {
            None
        } else {
            match link_info(bytes, flags) {
                None => None,
                Some(info) => match u32_at(bytes, info + 8) {
                    None => None,
                    Some(info_flags) => if !bit(info_flags, 1) {
                        None
                    } else {
                        match u32_at(bytes, info + 16) {
                            None => None,
                            Some(offset) => Some(info + offset),
                        }
                    },
                },
            }
        }
    }
}

/// Where a shortcut leads, read from its bytes.
pub open spec fn shortcut_target(bytes: Seq<u8>) -> Option<Seq<char>> {
    match local_path_at(bytes) {
        Some(start) => cstr_at(bytes, start),
        None => None,
    }
}

/// Four bytes at an offset, the lowest first.
pub fn read_u32(bytes: &[u8], off: u64) -> (r: Option<u32>)
    ensures
        match r {
            Some(n) => u32_at(bytes@, off as int) == Some(n as nat),
            None => u32_at(bytes@, off as int) is None,
        },
{
    let total: u64 = bytes.len() as u64;
    if off > total || total - off < 4 {
        return None;
    }
    let at: usize = off as usize;
    let a: u32 = bytes[at] as u32;
    let b: u32 = bytes[at + 1] as u32;
    let c: u32 = bytes[at + 2] as u32;
    let d: u32 = bytes[at + 3] as u32;
    Some(a + 0x100 * b + 0x10000 * c + 0x1000000 * d)
}

/// Two bytes at an offset, the lowest first.
pub fn read_u16(bytes: &[u8], off: u64) -> (r: Option<u16>)
    ensures
        match r {
            Some(n) => u16_at(bytes@, off as int) == Some(n as nat),
            None => u16_at(bytes@, off as int) is None,
        },
{
    let total: u64 = bytes.len() as u64;
    if off > total || total - off < 2 {
        return None;
    }
    let at: usize = off as usize;
    let a: u16 = bytes[at] as u16;
    let b: u16 = bytes[at + 1] as u16;
    Some(a + 0x100 * b)
}

/// The text from an offset up to the next zero byte.
pub fn read_cstr(bytes: &[u8], start: u64) -> (r: Option<String>)
    ensures
        r.deep_view() == cstr_at(bytes@, start as int),
{
    if start >= bytes.len() as u64 {
        return None;
    }
    let from: usize = start as usize;
    if bytes[from] == 0 {
        return None;
    }
    let end: usize = find_byte(bytes, 0, from);
    proof {
        lemma_byte_from(bytes@, 0, from as int);
    }
    Some(read_lossy(slice_subrange(bytes, from, end)))
}

/// Where a Windows shortcut leads, read from its bytes: nothing where they are no shortcut, or
/// hold no local path. The path is read byte for byte, which is right for plain ones.
pub fn lnk_target(bytes: &[u8]) -> (r: Option<String>)
    ensures
        r.deep_view() == shortcut_target(bytes@),
{
    match read_u32(bytes, 0) {
        Some(size) => if size != 0x4C {
            return None;
        },
        None => return None,
    }
    let flags: u32 = match read_u32(bytes, 20) {
        Some(flags) => flags,
        None => return None,
    };
    if (flags / 2) % 2 == 0 {
        return None;
    }
    let info: u64 = if flags % 2 == 1 {
        match read_u16(bytes, 76) {
            Some(size) => 78 + size as u64,
            None => return None,
        }
    } else {
        76
    };
    match read_u32(bytes, info + 8) {
        Some(info_flags) => if info_flags % 2 == 0 {
            return None;
        },
        None => return None,
    }
    match read_u32(bytes, info + 16) {
        Some(offset) => read_cstr(bytes, info + offset as u64),
        None => None,
    }
}

/// Where shortcuts are looked for.
pub enum LnkSearch {
    /// Nowhere: a name could stand for several files.
    Nowhere,
    /// Every entry of a directory.
    Directory(String),
    /// One file.
    Single(String),
}

/// Whether an argument of `ls` asks for a recursive listing.
pub open spec fn asks_recursion(arg: Seq<char>) -> bool {
    arg == "--recursive"@ || ("-"@.is_prefix_of(arg) && !"--"@.is_prefix_of(arg) && arg.contains('R'))
}

/// Whether an argument of `ls` asks for a recursive listing.
pub fn is_recursive_flag(arg: &str) -> (r: bool)
    ensures
        r == asks_recursion(arg@),
{
    if same_text(arg, "--recursive") {
        return true;
    }
    let cs: Vec<char> = chars_of(arg);
    let k: usize = find_char(cs.as_slice(), 'R', 0);
    proof {
        lemma_char_from(arg@, 'R', 0);
        if k < arg@.len() {
            assert(arg@[k as int] == 'R');
        }
    }
    begins_with(cs.as_slice(), "-") && !begins_with(cs.as_slice(), "--") && k < cs.len()
}

/// Whether any of the arguments asks for a recursive listing.
pub open spec fn any_recursion(args: Seq<Seq<char>>) -> bool {
    exists|i: int| 0 <= i < args.len() && asks_recursion(#[trigger] args[i])
}

/// Any argument can ask for a recursive listing, wherever it stands: in full, or by the letter
/// among the short ones.
pub proof fn law_any_argument_asks_for_recursion(args: Seq<Seq<char>>, i: int)
    requires
        0 <= i < args.len(),
        args[i] == "--recursive"@ || ("-"@.is_prefix_of(args[i]) && !"--"@.is_prefix_of(args[i])
            && args[i].contains('R')),
    ensures
        any_recursion(args),
{
    assert(asks_recursion(args[i]));
}

/// The paths among the first `n` arguments.
pub open spec fn paths_among(args: Seq<Seq<char>>, n: nat) -> Seq<Seq<char>>
    decreases n,
{
    if n == 0 {
        seq![]
    } else if "-"@.is_prefix_of(args[n - 1]) {
        paths_among(args, (n - 1) as nat)
    } else {
        paths_among(args, (n - 1) as nat).push(args[n - 1])
    }
}

/// Every argument that is no flag is a path, in order.
pub proof fn law_every_path_is_taken(args: Seq<Seq<char>>, n: nat)
    requires
        n <= args.len(),
    ensures
        paths_among(args, n) == args.take(n as int).filter(
            |arg: Seq<char>| !"-"@.is_prefix_of(arg),
        ),
    decreases n,
{
    if n == 0 {
        reveal(Seq::filter);
    } else {
        law_every_path_is_taken(args, (n - 1) as nat);
        lemma_filter_last(
            args,
            |arg: Seq<char>| !"-"@.is_prefix_of(arg),
            n,
        );
    }
}

/// The paths among the arguments.
fn listed_paths(args: &Vec<String>) -> (r: Vec<String>)
    ensures
        r.deep_view() == paths_among(args.deep_view(), args@.len()),
{
    let mut out: Vec<String> = Vec::new();
    assert(out.deep_view() =~= seq![]);
    let mut i: usize = 0;
    while i < args.len()
        invariant
            i <= args.len(),
            out.deep_view() == paths_among(args.deep_view(), i as nat),
        decreases args.len() - i,
    {
        let cs: Vec<char> = chars_of(args[i].as_str());
        assert(args.deep_view()[i as int] == cs@);
        if !begins_with(cs.as_slice(), "-") {
            let ghost before = out.deep_view();
            push_text(&mut out, args[i].as_str());
            assert(out.deep_view() =~= before.push(cs@));
        }
        i += 1;
    }
    out
}

/// Where the shortcuts of a listing are looked for: only where each name stands for one file, that
/// is in one directory and not recursively. `is_dir` is whether the first path is a directory.
pub fn lnk_targets(args: &LllArgs, is_dir: bool) -> (r: LnkSearch)
    ensures
        ({
            let typed = args.passthrough.deep_view();
            let paths = paths_among(typed, typed.len());
            if any_recursion(typed) || paths.len() > 1 {
                r is Nowhere
            } else if paths.len() == 0 {
                r matches LnkSearch::Directory(dir) && dir@ == "."@
            } else if is_dir {
                r matches LnkSearch::Directory(dir) && dir@ == paths[0]
            } else {
                r matches LnkSearch::Single(path) && path@ == paths[0]
            }
        }),
{
    let typed: &Vec<String> = &args.passthrough;
    assert(typed.deep_view().len() == typed@.len());
    let mut i: usize = 0;
    while i < typed.len()
        invariant
            i <= typed.len(),
            *typed == args.passthrough,
            forall|j: int| 0 <= j < i ==> !asks_recursion(#[trigger] typed.deep_view()[j]),
        decreases typed.len() - i,
    {
        assert(typed.deep_view()[i as int] == typed@[i as int]@);
        if is_recursive_flag(typed[i].as_str()) {
            assert(any_recursion(typed.deep_view()));
            return LnkSearch::Nowhere;
        }
        i += 1;
    }
    assert(!any_recursion(typed.deep_view()));
    let paths: Vec<String> = listed_paths(typed);
    assert(paths.deep_view().len() == paths@.len());
    if paths.len() > 1 {
        return LnkSearch::Nowhere;
    }
    if paths.len() == 0 {
        return LnkSearch::Directory(".".to_owned());
    }
    assert(paths.deep_view()[0] == paths@[0]@);
    if is_dir {
        LnkSearch::Directory(paths[0].clone())
    } else {
        LnkSearch::Single(paths[0].clone())
    }
}

/// A list of shortcuts, longer by one where the file is a shortcut that leads somewhere.
pub open spec fn with_shortcut(
    list: Seq<(Seq<char>, Seq<char>)>,
    path: Seq<char>,
    bytes: Option<Seq<u8>>,
) -> Seq<(Seq<char>, Seq<char>)> {
    if file_name(path) is Some && ".lnk"@.is_suffix_of(file_name(path)->0) && bytes is Some
        && shortcut_target(bytes->0) is Some {
        list.push((file_name(path)->0, shortcut_target(bytes->0)->0))
    } else {
        list
    }
}

/// A shortcut is known by its name and where it leads where the file is one and can be read;
/// anything else changes nothing, and what was known stays.
pub proof fn law_a_readable_shortcut_is_known(
    list: Seq<(Seq<char>, Seq<char>)>,
    path: Seq<char>,
    bytes: Option<Seq<u8>>,
)
    ensures
        list.is_prefix_of(with_shortcut(list, path, bytes)),
        with_shortcut(list, path, bytes).len() > list.len() <==> file_name(path) is Some
            && ".lnk"@.is_suffix_of(file_name(path)->0) && bytes is Some && shortcut_target(
            bytes->0,
        ) is Some,
        with_shortcut(list, path, bytes).len() > list.len() ==> with_shortcut(list, path, bytes)
            == list + seq![(file_name(path)->0, shortcut_target(bytes->0)->0)],
{
    let all = with_shortcut(list, path, bytes);
    assert(all.take(list.len() as int) =~= list);
    if all.len() > list.len() {
        assert(all =~= list + seq![all.last()]);
    }
}

/// Add a file, where it is a shortcut that leads somewhere. `bytes` is what could be read of it.
pub fn add_lnk(list: &mut Vec<Shortcut>, path: &str, bytes: &Option<Vec<u8>>)
    ensures
        final(list).deep_view() == with_shortcut(
            old(list).deep_view(),
            path@,
            match *bytes {
                Some(b) => Some(b@),
                None => None,
            },
        ),
{
    let name: String = match file_name_of(path) {
        Some(name) => name,
        None => return ,
    };
    let cs: Vec<char> = chars_of(name.as_str());
    if !finishes_with(cs.as_slice(), ".lnk") {
        return ;
    }
    if let Some(b) = bytes {
        if let Some(target) = lnk_target(b.as_slice()) {
            let ghost before = list.deep_view();
            let ghost added = (name@, target@);
            list.push(Shortcut { name, target });
            assert(list.deep_view() =~= before.push(added));
        }
    }
}

// --- the listing ----------------------------------------------------------------------------

/// A name without the mark of its type behind it.
pub open spec fn without_indicator(s: Seq<char>) -> Seq<char> {
    if s.len() > 0 && "*/=>@|"@.contains(s.last()) {
        s.drop_last()
    } else {
        s
    }
}

/// One mark of a type is taken off the end of a name, and nothing else.
pub proof fn law_only_one_mark_is_taken_off(s: Seq<char>, mark: char)
    ensures
        without_indicator(s).is_prefix_of(s),
        s.len() <= without_indicator(s).len() + 1,
        mark == '*' || mark == '/' || mark == '=' || mark == '>' || mark == '@' || mark == '|'
            ==> without_indicator(s.push(mark)) == s,
        mark != '*' && mark != '/' && mark != '=' && mark != '>' && mark != '@' && mark != '|'
            ==> without_indicator(s.push(mark)) == s.push(mark),
{
    reveal_strlit("*/=>@|");
    let marks = "*/=>@|"@;
    assert(marks =~= seq!['*', '/', '=', '>', '@', '|']);
    assert(marks[0] == '*' && marks[1] == '/' && marks[2] == '=' && marks[3] == '>' && marks[4] == '@'
        && marks[5] == '|');
    assert(s.push(mark).drop_last() =~= s);
}

/// The cell of a name, given the name without escape codes.
pub open spec fn name_text(
    name: Seq<char>,
    bare: Seq<char>,
    targets: Seq<(Seq<char>, Seq<char>)>,
    red: Paint,
) -> Seq<char> {
    let plain = without_indicator(bare);
    if contains(name, ".lnk"@) && ".lnk"@.is_suffix_of(plain) {
        painted(red, plain) + " (Windows)-> "@ + painted(
            red,
            match target_of(targets, plain, targets.len()) {
                Some(target) => join(words(target), " "@),
                None => "?"@,
            },
        )
    } else {
        name
    }
}

/// The cell of a name, given the name without escape codes.
pub fn plain_name_cell(name: &str, bare: &str, targets: &Vec<Shortcut>, red: &Paint) -> (r: String)
    ensures
        r@ == name_text(name@, bare@, targets.deep_view(), *red),
{
    if !holds(name, ".lnk") {
        return name.to_owned();
    }
    let cs: Vec<char> = chars_of(bare);
    let marks: Vec<char> = chars_of("*/=>@|");
    let mut n: usize = cs.len();
    if n > 0 {
        let k: usize = find_char(marks.as_slice(), cs[n - 1], 0);
        proof {
            lemma_char_from(marks@, cs@[n - 1], 0);
            if k < marks@.len() {
                assert(marks@[k as int] == cs@[n - 1]);
            }
        }
        if k < marks.len() {
            n -= 1;
        }
    }
    let plain: &[char] = slice_subrange(cs.as_slice(), 0, n);
    assert(plain@ =~= without_indicator(bare@));
    if !finishes_with(plain, ".lnk") {
        return name.to_owned();
    }
    let text: String = string_of(plain);
    assert(targets.deep_view().len() == targets@.len());
    let target: String = match find_target(targets, text.as_str()) {
        Some(target) => {
            let ts: Vec<char> = chars_of(target);
            joined(&words_of(ts.as_slice()), " ")
        },
        None => "?".to_owned(),
    };
    let mut out: String = red.paint(text.as_str());
    out.append(" (Windows)-> ");
    out.append(red.paint(target.as_str()).as_str());
    out
}

/// The cell of a name. A shortcut is shown as a broken Windows link with its target, or `?`; any
/// other name keeps the colours `ls` gave it.
pub fn name_cell(name: &str, targets: &Vec<Shortcut>, red: &Paint) -> (r: String)
    ensures
        r@ == name_text(name@, without_escapes(name@), targets.deep_view(), *red),
{
    plain_name_cell(name, strip_escapes(name).as_str(), targets, red)
}

/// How many fields stand before the name.
pub const META_COLS: usize = 7;

/// The first fields of a line.
pub open spec fn meta_of(line: Seq<char>) -> Seq<Seq<char>> {
    if words(line).len() > META_COLS {
        words(line).take(META_COLS as int)
    } else {
        words(line)
    }
}

/// The name in a line: all fields behind the first ones, with single spaces.
pub open spec fn name_of_line(line: Seq<char>) -> Seq<char> {
    if words(line).len() > META_COLS {
        join(words(line).skip(META_COLS as int), " "@)
    } else {
        seq![]
    }
}

/// A row of the listing: the first fields between tabs, then the name as one column.
pub open spec fn row_text(line: Seq<char>, targets: Seq<(Seq<char>, Seq<char>)>, red: Paint) -> Seq<
    char,
> {
    let name = name_of_line(line);
    if name.len() == 0 {
        join(meta_of(line), "\t"@)
    } else {
        join(meta_of(line), "\t"@) + "\t"@ + name_text(name, without_escapes(name), targets, red)
    }
}

/// A row keeps every word of its line: the first seven in a column each, and all the others
/// together as the name.
pub proof fn law_a_row_keeps_every_word(line: Seq<char>)
    ensures
        words(line).len() <= 7 ==> meta_of(line) == words(line) && name_of_line(line).len() == 0,
        words(line).len() > 7 ==> meta_of(line) == words(line).take(7) && name_of_line(line) == join(
            words(line).skip(7),
            " "@,
        ),
{
}

/// A row of the listing.
pub fn row(line: &str, targets: &Vec<Shortcut>, red: &Paint) -> (r: String)
    ensures
        r@ == row_text(line@, targets.deep_view(), *red),
{
    let cs: Vec<char> = chars_of(line);
    let fields: Vec<String> = words_of(cs.as_slice());
    assert(fields.deep_view().len() == fields@.len());
    let mut meta: Vec<String> = Vec::new();
    let mut rest: Vec<String> = Vec::new();
    let mut i: usize = 0;
    assert(meta.deep_view() =~= fields.deep_view().take(0));
    while i < fields.len() && i < META_COLS
        invariant
            i <= fields.len(),
            i <= META_COLS,
            meta.deep_view() == fields.deep_view().take(i as int),
        decreases fields.len() - i,
    {
        push_text(&mut meta, fields[i].as_str());
        i += 1;
        assert(meta.deep_view() =~= fields.deep_view().take(i as int));
    }
    let ghost cut = i as int;
    assert(rest.deep_view() =~= fields.deep_view().subrange(cut, cut));
    while i < fields.len()
        invariant
            0 <= cut <= i <= fields.len(),
            rest.deep_view() == fields.deep_view().subrange(cut, i as int),
        decreases fields.len() - i,
    {
        push_text(&mut rest, fields[i].as_str());
        i += 1;
        assert(rest.deep_view() =~= fields.deep_view().subrange(cut, i as int));
    }
    let mut out: String = joined(&meta, "\t");
    let name: String = joined(&rest, " ");
    assert(meta.deep_view() =~= meta_of(line@));
    assert(name@ == name_of_line(line@)) by {
        if words(line@).len() > META_COLS {
            assert(rest.deep_view() =~= words(line@).skip(META_COLS as int));
        } else {
            assert(rest.deep_view() =~= seq![]);
        }
    }
    if !name.as_str().is_empty() {
        out.append("\t");
        out.append(name_cell(name.as_str(), targets, red).as_str());
    }
    out
}

/// The header of the listing.
pub open spec fn listing_header(header: Paint) -> Seq<char> {
    painted(
        header,
        "Blocks\tPermissions\tHard-Links\tOwner\tGroup\tSize\tDate_Modified\tFilename"@,
    )
}

/// The rows of the first `n` lines, without the line of the total.
pub open spec fn listing_rows(
    list: Seq<Seq<char>>,
    targets: Seq<(Seq<char>, Seq<char>)>,
    red: Paint,
    n: nat,
) -> Seq<Seq<char>>
    decreases n,
{
    if n == 0 {
        seq![]
    } else if "total "@.is_prefix_of(list[n - 1]) {
        listing_rows(list, targets, red, (n - 1) as nat)
    } else {
        listing_rows(list, targets, red, (n - 1) as nat).push(row_text(list[n - 1], targets, red))
    }
}

/// Every line of a listing but that of the total has its row, in order.
pub proof fn law_every_entry_has_its_row(
    list: Seq<Seq<char>>,
    targets: Seq<(Seq<char>, Seq<char>)>,
    red: Paint,
    n: nat,
)
    requires
        n <= list.len(),
    ensures
        listing_rows(list, targets, red, n) == list.take(n as int).filter_map(
            |line: Seq<char>|
                if "total "@.is_prefix_of(line) {
                    None
                } else {
                    Some(row_text(line, targets, red))
                },
        ),
    decreases n,
{
    if n > 0 {
        law_every_entry_has_its_row(list, targets, red, (n - 1) as nat);
        lemma_filter_map_last(
            list,
            |line: Seq<char>|
                if "total "@.is_prefix_of(line) {
                    None
                } else {
                    Some(row_text(line, targets, red))
                },
            n,
        );
    }
}

/// The rows of the listing under their header, the columns between tabs.
pub fn format_listing(listed: &str, targets: &Vec<Shortcut>, header: &Paint, red: &Paint) -> (r: Vec<
    String,
>)
    ensures
        r.deep_view() == seq![listing_header(*header)] + listing_rows(
            lines(listed@),
            targets.deep_view(),
            *red,
            lines(listed@).len(),
        ),
{
    let cs: Vec<char> = chars_of(listed);
    let list: Vec<String> = lines_of(cs.as_slice());
    let mut out: Vec<String> = Vec::new();
    out.push(
        header.paint(
            "Blocks\tPermissions\tHard-Links\tOwner\tGroup\tSize\tDate_Modified\tFilename",
        ),
    );
    let mut i: usize = 0;
    assert(out.deep_view() =~= seq![listing_header(*header)] + listing_rows(
        list.deep_view(),
        targets.deep_view(),
        *red,
        0,
    ));
    while i < list.len()
        invariant
            i <= list.len(),
            out.deep_view() == seq![listing_header(*header)] + listing_rows(
                list.deep_view(),
                targets.deep_view(),
                *red,
                i as nat,
            ),
        decreases list.len() - i,
    {
        let line: Vec<char> = chars_of(list[i].as_str());
        assert(list.deep_view()[i as int] == line@);
        let ghost before = out.deep_view();
        if !begins_with(line.as_slice(), "total ") {
            out.push(row(list[i].as_str(), targets, red));
            assert(out.deep_view() =~= before.push(row_text(line@, targets.deep_view(), *red)));
        }
        i += 1;
        assert(out.deep_view() =~= seq![listing_header(*header)] + listing_rows(
            list.deep_view(),
            targets.deep_view(),
            *red,
            i as nat,
        ));
    }
    assert(list.deep_view().len() == list@.len());
    out
}

/// Whether the targets of shortcuts are needed at all for a listing.
pub fn needs_targets(listed: &str) -> (r: bool)
    ensures
        r == contains(listed@, ".lnk"@),
{
    holds(listed, ".lnk")
}

/// A name without `.lnk` in it keeps the colours that `ls` gave it.
pub proof fn law_only_shortcuts_are_rewritten(
    name: Seq<char>,
    bare: Seq<char>,
    targets: Seq<(Seq<char>, Seq<char>)>,
    red: Paint,
)
    requires
        !contains(name, ".lnk"@),
    ensures
        name_text(name, bare, targets, red) == name,
{
}

proof fn lemma_words_hold_no_white(s: Seq<char>)
    ensures
        forall|i: int, j: int|
            0 <= i < words(s).len() && 0 <= j < words(s)[i].len() ==> !is_white(
                #[trigger] words(s)[i][j],
            ),
    decreases s.len(),
{
    let t = trim_start(s);
    lemma_trim_start_len(s);
    lemma_word_end(t, 0);
    if t.len() > 0 {
        let k = word_end(t, 0);
        lemma_word_holds_no_white(t, 0);
        lemma_words_hold_no_white(t.skip(k));
        let rest = words(t.skip(k));
        assert forall|i: int, j: int|
            0 <= i < words(s).len() && 0 <= j < words(s)[i].len() implies !is_white(
            #[trigger] words(s)[i][j],
        ) by {
            if i == 0 {
                assert(words(s)[0] == t.take(k));
                assert(t.take(k)[j] == t[j]);
            } else {
                assert(words(s)[i] == rest[i - 1]);
                assert(!is_white(rest[i - 1][j]));
            }
        }
    }
}

proof fn lemma_word_holds_no_white(s: Seq<char>, from: int)
    requires
        0 <= from <= s.len(),
    ensures
        forall|j: int| from <= j < word_end(s, from) ==> !is_white(#[trigger] s[j]),
    decreases s.len() - from,
{
    if from < s.len() && !is_white(s[from]) {
        lemma_word_holds_no_white(s, from + 1);
    }
}

proof fn lemma_join_holds_no_tab(parts: Seq<Seq<char>>, n: nat)
    requires
        n <= parts.len(),
        forall|i: int, j: int|
            0 <= i < parts.len() && 0 <= j < parts[i].len() ==> !is_white(#[trigger] parts[i][j]),
    ensures
        !join_n(parts, " "@, n).contains('\t'),
    decreases n,
{
    let all = join_n(parts, " "@, n);
    reveal_strlit(" ");
    if n > 1 {
        lemma_join_holds_no_tab(parts, (n - 1) as nat);
        let before = join_n(parts, " "@, (n - 1) as nat);
        if all.contains('\t') {
            let j = choose|j: int| 0 <= j < all.len() && all[j] == '\t';
            if j < before.len() {
                assert(before[j] == '\t');
            } else if j >= before.len() + 1 {
                assert(parts[n - 1][j - before.len() - 1] == '\t');
                assert(is_white(parts[n - 1][j - before.len() - 1]));
            } else {
                assert(all[j] == " "@[0]);
            }
        }
    } else if n == 1 {
        if all.contains('\t') {
            let j = choose|j: int| 0 <= j < all.len() && all[j] == '\t';
            assert(is_white(parts[0][j]));
        }
    }
}

/// A name is one column, whatever white space it holds: there is no tab in it.
pub proof fn law_a_name_is_one_column(line: Seq<char>)
    ensures
        !name_of_line(line).contains('\t'),
{
    lemma_words_hold_no_white(line);
    if words(line).len() > META_COLS {
        let rest = words(line).skip(META_COLS as int);
        assert forall|i: int, j: int|
            0 <= i < rest.len() && 0 <= j < rest[i].len() implies !is_white(#[trigger] rest[i][j]) by {
            assert(rest[i] == words(line)[i + META_COLS]);
            assert(!is_white(words(line)[i + META_COLS][j]));
        }
        lemma_join_holds_no_tab(rest, rest.len());
    }
}

} // verus!
