//! Reading the files under `/proc/<pid>/`, and `/etc/passwd`.

use vstd::prelude::*;
use vstd::slice::slice_subrange;
use vstd::string::*;
use crate::bytes::{lossy_text, read_lossy};
use crate::paths::{find_last, last_char};
use crate::sequences::lemma_filter_last;
use crate::text::{
    begins_with, char_at, chars_of, code_of, join, joined, lines, lines_of, parse_decimal,
    parse_number, split_chars, split_on, words, words_of,
};

verus! {

/// What follows the last `)` of a `stat` line: the name before it is in parentheses and may hold
/// spaces and parentheses of its own.
pub open spec fn past_name(stat: Seq<char>) -> Option<Seq<char>> {
    let k = last_char(stat, ')', stat.len() as int);
    if k < 0 {
        None
    } else {
        Some(stat.skip(k + 1))
    }
}

/// What stands behind the last closing parenthesis is read, whatever the name before it holds.
pub proof fn law_a_name_cannot_hide_the_fields(name: Seq<char>, rest: Seq<char>)
    requires
        !rest.contains(')'),
    ensures
        past_name(name + seq![')'] + rest) == Some(rest),
{
    let stat = name + seq![')'] + rest;
    let at = name.len() as int;
    assert forall|j: int| at < j < stat.len() implies #[trigger] stat[j] != ')' by {
        assert(rest.contains(rest[j - at - 1]));
        assert(stat[j] == rest[j - at - 1]);
    }
    lemma_last_parenthesis(stat, at, stat.len() as int);
    assert(stat.skip(at + 1) =~= rest);
}

proof fn lemma_last_parenthesis(s: Seq<char>, at: int, n: int)
    requires
        0 <= at < n <= s.len(),
        s[at] == ')',
        forall|j: int| at < j < n ==> #[trigger] s[j] != ')',
    ensures
        last_char(s, ')', n) == at,
    decreases n,
{
    if n - 1 > at {
        assert(s[n - 1] != ')');
        lemma_last_parenthesis(s, at, n - 1);
    }
}

/// Word number `n`, from zero, past the name.
pub open spec fn stat_word(stat: Seq<char>, n: int) -> Option<Seq<char>> {
    match past_name(stat) {
        Some(tail) => if 0 <= n < words(tail).len() {
            Some(words(tail)[n])
        } else {
            None
        },
        None => None,
    }
}

/// Word number `n` past the name, read as a number of at most `max`.
pub open spec fn stat_number(stat: Seq<char>, n: int, max: nat) -> Option<nat> {
    match stat_word(stat, n) {
        Some(w) => parse_decimal(w, max),
        None => None,
    }
}

/// The words past the name.
fn words_past_name(stat: &str) -> (r: Option<Vec<String>>)
    ensures
        match r {
            Some(ws) => past_name(stat@) matches Some(tail) && ws.deep_view() == words(tail),
            None => past_name(stat@) is None,
        },
{
    let cs: Vec<char> = chars_of(stat);
    match find_last(cs.as_slice(), ')') {
        Some(k) => {
            let tail: &[char] = slice_subrange(cs.as_slice(), k + 1, cs.len());
            assert(tail@ =~= stat@.skip(k + 1));
            Some(words_of(tail))
        },
        None => None,
    }
}

/// Word number `n` of `ws`, read as a number of at most `max`.
fn number_at(ws: &Vec<String>, n: usize, max: u64) -> (r: Option<u64>)
    ensures
        match r {
            Some(v) => n < ws.deep_view().len() && parse_decimal(ws.deep_view()[n as int], max as nat)
                == Some(v as nat),
            None => n < ws.deep_view().len() ==> parse_decimal(ws.deep_view()[n as int], max as nat)
                is None,
        },
{
    assert(ws.deep_view().len() == ws@.len());
    if n < ws.len() {
        assert(ws.deep_view()[n as int] == ws@[n as int]@);
        let cs: Vec<char> = chars_of(ws[n].as_str());
        parse_number(cs.as_slice(), max)
    } else {
        None
    }
}

/// Fields 14 and 15 of a `stat` line together: user plus kernel CPU time, in clock ticks.
pub fn cpu_ticks(stat: &str) -> (r: Option<u128>)
    ensures
        match (stat_number(stat@, 11, u64::MAX as nat), stat_number(stat@, 12, u64::MAX as nat)) {
            (Some(utime), Some(stime)) => r == Some((utime + stime) as u128) && utime + stime
                <= u128::MAX,
            _ => r is None,
        },
{
    match words_past_name(stat) {
        Some(ws) => match (number_at(&ws, 11, u64::MAX), number_at(&ws, 12, u64::MAX)) {
            (Some(utime), Some(stime)) => Some(utime as u128 + stime as u128),
            _ => None,
        },
        None => None,
    }
}

/// Field 22 of a `stat` line: when the process started, in clock ticks since boot.
pub fn start_ticks(stat: &str) -> (r: Option<u64>)
    ensures
        match r {
            Some(n) => stat_number(stat@, 19, u64::MAX as nat) == Some(n as nat),
            None => stat_number(stat@, 19, u64::MAX as nat) is None,
        },
{
    match words_past_name(stat) {
        Some(ws) => number_at(&ws, 19, u64::MAX),
        None => None,
    }
}

/// Field 4 of a `stat` line: the parent's PID.
pub fn ppid(stat: &str) -> (r: Option<u32>)
    ensures
        match r {
            Some(n) => stat_number(stat@, 1, u32::MAX as nat) == Some(n as nat),
            None => stat_number(stat@, 1, u32::MAX as nat) is None,
        },
{
    match words_past_name(stat) {
        Some(ws) => match number_at(&ws, 1, u32::MAX as u64) {
            Some(n) => Some(n as u32),
            None => None,
        },
        None => None,
    }
}

/// Field 3 of a `stat` line: the state letter.
pub fn state(stat: &str) -> (r: Option<char>)
    ensures
        match stat_word(stat@, 0) {
            Some(w) => if w.len() > 0 {
                r == Some(w[0])
            } else {
                r is None
            },
            None => r is None,
        },
{
    match words_past_name(stat) {
        Some(ws) => {
            assert(ws.deep_view().len() == ws@.len());
            if ws.len() == 0 {
                return None;
            }
            assert(ws.deep_view()[0] == ws@[0]@);
            let cs: Vec<char> = chars_of(ws[0].as_str());
            if cs.len() == 0 {
                None
            } else {
                Some(char_at(cs.as_slice(), 0))
            }
        },
        None => None,
    }
}

/// Whether a process with this `stat` line is still something a signal could act on. A zombie is
/// done: its exit only awaits the parent's acknowledgement.
pub fn is_alive(stat: &str) -> (r: bool)
    ensures
        r == !(stat_word(stat@, 0) matches Some(w) && w.len() > 0 && (w[0] == 'Z' || w[0] == 'X')),
{
    match state(stat) {
        Some(c) => c != 'Z' && c != 'X',
        None => true,
    }
}

/// What follows `prefix` on the first line, from number `k` on, that begins with it.
pub open spec fn after_prefix(ls: Seq<Seq<char>>, prefix: Seq<char>, k: int) -> Option<Seq<char>>
    decreases ls.len() - k,
{
    if k >= ls.len() {
        None
    } else if prefix.is_prefix_of(ls[k]) {
        Some(ls[k].skip(prefix.len() as int))
    } else {
        after_prefix(ls, prefix, k + 1)
    }
}

/// The first line that begins with the prefix is the one that is read; nothing is read only where
/// none does.
pub proof fn law_the_first_line_with_the_prefix_is_read(
    ls: Seq<Seq<char>>,
    prefix: Seq<char>,
    k: int,
    i: int,
)
    requires
        0 <= k <= i < ls.len(),
        prefix.is_prefix_of(ls[i]),
        forall|j: int| k <= j < i ==> !prefix.is_prefix_of(#[trigger] ls[j]),
    ensures
        after_prefix(ls, prefix, k) == Some(ls[i].skip(prefix.len() as int)),
    decreases i - k,
{
    if k < i {
        assert(!prefix.is_prefix_of(ls[k]));
        law_the_first_line_with_the_prefix_is_read(ls, prefix, k + 1, i);
    }
}

/// The number that stands first on the line of `status` that begins with `prefix`.
pub open spec fn status_number(status: Seq<char>, prefix: Seq<char>, max: nat) -> Option<nat> {
    match after_prefix(lines(status), prefix, 0) {
        Some(rest) => if words(rest).len() > 0 {
            parse_decimal(words(rest)[0], max)
        } else {
            None
        },
        None => None,
    }
}

/// The first line with the prefix gives the number, wherever it stands; the lines around it do not
/// matter.
pub proof fn law_a_status_is_read_off_its_line(
    status: Seq<char>,
    prefix: Seq<char>,
    max: nat,
    i: int,
)
    requires
        0 <= i < lines(status).len(),
        prefix.is_prefix_of(lines(status)[i]),
        forall|j: int| 0 <= j < i ==> !prefix.is_prefix_of(#[trigger] lines(status)[j]),
        words(lines(status)[i].skip(prefix.len() as int)).len() > 0,
    ensures
        status_number(status, prefix, max) == parse_decimal(
            words(lines(status)[i].skip(prefix.len() as int))[0],
            max,
        ),
{
    law_the_first_line_with_the_prefix_is_read(lines(status), prefix, 0, i);
}

/// The number that stands first on the line of `status` that begins with `prefix`.
fn read_status(status: &str, prefix: &str, max: u64) -> (r: Option<u64>)
    ensures
        match r {
            Some(n) => status_number(status@, prefix@, max as nat) == Some(n as nat),
            None => status_number(status@, prefix@, max as nat) is None,
        },
{
    let cs: Vec<char> = chars_of(status);
    let ls: Vec<String> = lines_of(cs.as_slice());
    let mut k: usize = 0;
    while k < ls.len()
        invariant
            k <= ls.len(),
            ls.deep_view() == lines(status@),
            after_prefix(lines(status@), prefix@, 0) == after_prefix(
                lines(status@),
                prefix@,
                k as int,
            ),
        decreases ls.len() - k,
    {
        assert(ls.deep_view()[k as int] == ls@[k as int]@);
        let line: Vec<char> = chars_of(ls[k].as_str());
        if begins_with(line.as_slice(), prefix) {
            let n: usize = chars_of(prefix).len();
            let rest: &[char] = slice_subrange(line.as_slice(), n, line.len());
            assert(rest@ =~= line@.skip(n as int));
            return number_at(&words_of(rest), 0, max);
        }
        k += 1;
    }
    None
}

/// `VmRSS:` out of a `status` file, in KiB; absent for a kernel thread, which owns no user
/// memory.
pub fn rss_kib(status: &str) -> (r: Option<u64>)
    ensures
        match r {
            Some(n) => status_number(status@, "VmRSS:"@, u64::MAX as nat) == Some(n as nat),
            None => status_number(status@, "VmRSS:"@, u64::MAX as nat) is None,
        },
{
    read_status(status, "VmRSS:", u64::MAX)
}

/// The real UID out of a `status` file, whose `Uid:` line is real, effective, saved and
/// filesystem.
pub fn real_uid(status: &str) -> (r: Option<u32>)
    ensures
        match r {
            Some(n) => status_number(status@, "Uid:"@, u32::MAX as nat) == Some(n as nat),
            None => status_number(status@, "Uid:"@, u32::MAX as nat) is None,
        },
{
    match read_status(status, "Uid:", u32::MAX as u64) {
        Some(n) => Some(n as u32),
        None => None,
    }
}

// --- command lines --------------------------------------------------------------------------

/// Whether a character is a control character.
pub open spec fn is_control(c: char) -> bool {
    (c as u32) < 0x20 || (0x7f <= (c as u32) < 0xa0)
}

/// A character, or `?` for a control character.
pub open spec fn defanged(c: char) -> char {
    if is_control(c) {
        '?'
    } else {
        c
    }
}

/// The pieces among the first `n` that are not empty.
pub open spec fn filled(parts: Seq<Seq<char>>, n: nat) -> Seq<Seq<char>>
    decreases n,
{
    if n == 0 {
        seq![]
    } else if parts[n - 1].len() == 0 {
        filled(parts, (n - 1) as nat)
    } else {
        filled(parts, (n - 1) as nat).push(parts[n - 1])
    }
}

/// Every argument that is not empty is kept, in order.
pub proof fn law_every_argument_is_kept(parts: Seq<Seq<char>>, n: nat)
    requires
        n <= parts.len(),
    ensures
        filled(parts, n) == parts.take(n as int).filter(
            |part: Seq<char>| part.len() > 0,
        ),
    decreases n,
{
    if n == 0 {
        reveal(Seq::filter);
    } else {
        law_every_argument_is_kept(parts, (n - 1) as nat);
        lemma_filter_last(
            parts,
            |part: Seq<char>| part.len() > 0,
            n,
        );
    }
}

/// A command line from its NUL-separated parts: the filled ones with spaces between, and `?` in
/// place of control characters.
pub open spec fn command_line(text: Seq<char>) -> Seq<char> {
    let parts = split_on(text, '\0');
    join(filled(parts, parts.len()), " "@).map_values(|c: char| defanged(c))
}

/// A command line is its arguments, all that are not empty, in order and with spaces between; what
/// would control the terminal is a question mark, and nothing else is changed.
pub proof fn law_a_command_line_keeps_every_argument(text: Seq<char>, i: int)
    requires
        0 <= i < command_line(text).len(),
    ensures
        ({
            let whole = join(split_on(text, '\0').filter(|part: Seq<char>| part.len() > 0), " "@);
            let c = whole[i];
            &&& command_line(text).len() == whole.len()
            &&& command_line(text)[i] == if (c as u32) < 0x20 || (0x7f <= (c as u32) < 0xa0) {
                '?'
            } else {
                c
            }
        }),
{
    let parts = split_on(text, '\0');
    law_every_argument_is_kept(parts, parts.len());
    assert(parts.take(parts.len() as int) =~= parts);
}

/// A command line from the text of its NUL-separated parts.
pub fn cmdline_of(text: &str) -> (r: String)
    ensures
        r@ == command_line(text@),
{
    let cs: Vec<char> = chars_of(text);
    let parts: Vec<String> = split_chars(cs.as_slice(), '\0');
    let mut kept: Vec<String> = Vec::new();
    let mut i: usize = 0;
    assert(kept.deep_view() =~= seq![]);
    while i < parts.len()
        invariant
            i <= parts.len(),
            kept.deep_view() == filled(parts.deep_view(), i as nat),
        decreases parts.len() - i,
    {
        assert(parts.deep_view()[i as int] == parts@[i as int]@);
        let ghost before = kept.deep_view();
        if !parts[i].as_str().is_empty() {
            kept.push(parts[i].clone());
            assert(kept.deep_view() =~= before.push(parts@[i as int]@));
        }
        i += 1;
    }
    assert(parts.deep_view().len() == parts@.len());
    let line: Vec<char> = chars_of(joined(&kept, " ").as_str());
    let mut out: String = String::new();
    let mut j: usize = 0;
    while j < line.len()
        invariant
            j <= line.len(),
            out@ == line@.take(j as int).map_values(|c: char| defanged(c)),
        decreases line.len() - j,
    {
        let c: char = char_at(line.as_slice(), j);
        let n: u32 = code_of(c);
        if n < 0x20 || (0x7f <= n && n < 0xa0) {
            out.push('?');
        } else {
            out.push(c);
        }
        assert(out@ =~= line@.take(j + 1).map_values(|c: char| defanged(c)));
        j += 1;
    }
    assert(line@.take(j as int) =~= line@);
    out
}

/// A process's command line from its raw bytes. An argument can hold newlines, which would break
/// the tree apart, or escapes, which could forge rows: control characters become `?`.
pub fn cmdline(raw: &[u8]) -> (r: String)
    ensures
        r@ == command_line(lossy_text(raw@)),
{
    cmdline_of(read_lossy(raw).as_str())
}

// --- users ----------------------------------------------------------------------------------

/// One line of `/etc/passwd` as user and name.
pub open spec fn passwd_pair(line: Seq<char>) -> Option<(nat, Seq<char>)> {
    let fields = split_on(line, ':');
    if fields.len() > 2 && fields[0].len() > 0 {
        match parse_decimal(fields[2], u32::MAX as nat) {
            Some(uid) => Some((uid, fields[0])),
            None => None,
        }
    } else {
        None
    }
}

/// One `/etc/passwd` line as `(uid, name)`. Fields are `name:password:uid:gid:…`.
pub fn passwd_entry(line: &str) -> (r: Option<(u32, String)>)
    ensures
        match r {
            Some(pair) => passwd_pair(line@) == Some((pair.0 as nat, pair.1@)),
            None => passwd_pair(line@) is None,
        },
{
    let cs: Vec<char> = chars_of(line);
    let fields: Vec<String> = split_chars(cs.as_slice(), ':');
    assert(fields.deep_view().len() == fields@.len());
    if fields.len() <= 2 {
        return None;
    }
    assert(fields.deep_view()[0] == fields@[0]@);
    if fields[0].as_str().is_empty() {
        return None;
    }
    match number_at(&fields, 2, u32::MAX as u64) {
        Some(uid) => Some((uid as u32, fields[0].clone())),
        None => None,
    }
}

/// The name of a user among the first `n` lines of `/etc/passwd`; of two lines for one user the
/// later counts.
pub open spec fn user_in(ls: Seq<Seq<char>>, n: nat, uid: nat) -> Option<Seq<char>>
    decreases n,
{
    if n == 0 {
        None
    } else if passwd_pair(ls[n - 1]) matches Some(pair) && pair.0 == uid {
        Some((passwd_pair(ls[n - 1])->0).1)
    } else {
        user_in(ls, (n - 1) as nat, uid)
    }
}

/// The last line for a user gives the name; there is none only where no line is for that user.
pub proof fn law_the_last_line_names_the_user(ls: Seq<Seq<char>>, n: nat, uid: nat)
    requires
        n <= ls.len(),
    ensures
        match user_in(ls, n, uid) {
            Some(name) => exists|i: int|
                0 <= i < n && passwd_pair(#[trigger] ls[i]) == Some((uid, name)) && forall|j: int|
                    i < j < n ==> !(passwd_pair(#[trigger] ls[j]) matches Some(pair) && pair.0 == uid),
            None => forall|j: int|
                0 <= j < n ==> !(passwd_pair(#[trigger] ls[j]) matches Some(pair) && pair.0 == uid),
        },
    decreases n,
{
    if n > 0 {
        law_the_last_line_names_the_user(ls, (n - 1) as nat, uid);
        let here = passwd_pair(ls[n - 1]) matches Some(pair) && pair.0 == uid;
        if here {
            assert(passwd_pair(ls[n - 1]) == Some((uid, user_in(ls, n, uid)->0)));
        } else if let Some(name) = user_in(ls, (n - 1) as nat, uid) {
            let i = choose|i: int|
                0 <= i < n - 1 && passwd_pair(#[trigger] ls[i]) == Some((uid, name)) && forall|j: int|
                    i < j < n - 1 ==> !(passwd_pair(#[trigger] ls[j]) matches Some(pair) && pair.0
                        == uid);
            assert(passwd_pair(ls[i]) == Some((uid, name)));
        }
    }
}

/// The name of a user, or the number where the file names none.
pub open spec fn user_label(passwd: Seq<char>, uid: nat) -> Seq<char> {
    match user_in(lines(passwd), lines(passwd).len(), uid) {
        Some(name) => name,
        None => crate::text::decimal(uid),
    }
}

/// A user is called by the name on the last line of the file with their number; by the number
/// where no line has it.
pub proof fn law_a_user_is_called_by_name(passwd: Seq<char>, uid: nat, name: Seq<char>, i: int)
    ensures
        0 <= i < lines(passwd).len() && passwd_pair(lines(passwd)[i]) == Some((uid, name)) && (forall|
            j: int,
        |
            i < j < lines(passwd).len() ==> !(passwd_pair(#[trigger] lines(passwd)[j]) matches Some(
                pair,
            ) && pair.0 == uid)) ==> user_label(passwd, uid) == name,
        (forall|j: int|
            0 <= j < lines(passwd).len() ==> !(passwd_pair(#[trigger] lines(passwd)[j]) matches Some(
                pair,
            ) && pair.0 == uid)) ==> user_label(passwd, uid) == crate::text::decimal(uid),
{
    let ls = lines(passwd);
    law_the_last_line_names_the_user(ls, ls.len(), uid);
    if 0 <= i < ls.len() && passwd_pair(ls[i]) == Some((uid, name)) && (forall|j: int|
        i < j < ls.len() ==> !(passwd_pair(#[trigger] ls[j]) matches Some(pair) && pair.0 == uid)) {
        assert(user_in(ls, ls.len(), uid) is Some);
        let found = user_in(ls, ls.len(), uid)->0;
        let at = choose|at: int|
            0 <= at < ls.len() && passwd_pair(#[trigger] ls[at]) == Some((uid, found)) && forall|j: int|
                at < j < ls.len() ==> !(passwd_pair(#[trigger] ls[j]) matches Some(pair) && pair.0
                    == uid);
        assert(at == i);
    }
}

/// The name of a user out of `/etc/passwd`, or the number where the file names none.
pub fn user_of(passwd: &str, uid: u32) -> (r: String)
    ensures
        r@ == user_label(passwd@, uid as nat),
{
    let cs: Vec<char> = chars_of(passwd);
    let ls: Vec<String> = lines_of(cs.as_slice());
    let mut n: usize = ls.len();
    assert(ls.deep_view().len() == ls@.len());
    while n > 0
        invariant
            n <= ls.len(),
            ls.deep_view() == lines(passwd@),
            user_in(lines(passwd@), lines(passwd@).len(), uid as nat) == user_in(
                lines(passwd@),
                n as nat,
                uid as nat,
            ),
        decreases n,
    {
        assert(ls.deep_view()[n - 1] == ls@[n - 1]@);
        if let Some(pair) = passwd_entry(ls[n - 1].as_str()) {
            if pair.0 == uid {
                return pair.1;
            }
        }
        n -= 1;
    }
    crate::text::decimal_of(uid as u64)
}

} // verus!
