//! Text as sequences of characters: the small operations every command builds on.
//!
//! The view of a `String` or a `&str` is the sequence of its characters. Functions that work
//! inside a text take it as a slice of characters, so that a piece of a text is a subslice.

use vstd::prelude::*;
use vstd::slice::slice_subrange;
use vstd::string::*;
use crate::sequences::{lemma_flat_map_last, lemma_parts_last};

verus! {

/// `String::push` appends one character to the end of the string.
pub assume_specification[ String::push ](s: &mut String, c: char)
    ensures
        final(s)@ == old(s)@.push(c),
;

/// What `str::to_lowercase` makes of a text: the Unicode lowercase mapping, which may change the
/// length, and for a sigma depends on whether it ends a word.
pub uninterp spec fn lowercase(s: Seq<char>) -> Seq<char>;

/// `str::to_lowercase` returns the lowercase equivalent of the text, a function of the text
/// alone. Which text that is is left to the name `lowercase`.
pub assume_specification[ str::to_lowercase ](s: &str) -> (r: String)
    ensures
        r@ == lowercase(s@),
;

/// A text between quotes, with what does not print escaped.
pub uninterp spec fn quoted_text(s: Seq<char>) -> Seq<char>;

/// The `Debug` format of `str`: the text between quotes with escapes, a function of the text
/// alone, left to the name `quoted_text`.
#[verifier::external_body]
pub(crate) fn quoted(s: &str) -> (r: String)
    ensures
        r@ == quoted_text(s@),
{
    format!("{s:?}")
}

// --- conversions ----------------------------------------------------------------------------

/// The characters of `s`, in order.
pub fn chars_of(s: &str) -> (r: Vec<char>)
    ensures
        r@ == s@,
{
    let mut out: Vec<char> = Vec::new();
    for c in it: s.chars()
        invariant
            out@ == it.seq().take(it.index()),
    {
        out.push(c);
    }
    out
}

/// The character at `i`.
pub fn char_at(cs: &[char], i: usize) -> (r: char)
    requires
        i < cs.len(),
    ensures
        r == cs@[i as int],
{
    cs[i]
}

/// The code point of `c`.
pub fn code_of(c: char) -> (r: u32)
    ensures
        r as int == c as int,
{
    c as u32
}

/// The text spelled by `cs`.
pub fn string_of(cs: &[char]) -> (r: String)
    ensures
        r@ == cs@,
{
    let mut out: String = String::new();
    let mut i: usize = 0;
    while i < cs.len()
        invariant
            i <= cs.len(),
            out@ == cs@.take(i as int),
        decreases cs.len() - i,
    {
        out.push(cs[i]);
        i += 1;
    }
    out
}

/// Append a copy of `s` to a list of texts.
pub fn push_text(list: &mut Vec<String>, s: &str)
    ensures
        final(list).deep_view() == old(list).deep_view().push(s@),
{
    list.push(s.to_owned());
}

/// A list of texts with the same contents.
pub fn copy_texts(list: &Vec<String>) -> (r: Vec<String>)
    ensures
        r.deep_view() == list.deep_view(),
{
    let mut out: Vec<String> = Vec::new();
    let mut i: usize = 0;
    while i < list.len()
        invariant
            i <= list.len(),
            out.deep_view() == list.deep_view().take(i as int),
        decreases list.len() - i,
    {
        push_text(&mut out, list[i].as_str());
        i += 1;
    }
    out
}

// --- comparison -----------------------------------------------------------------------------

/// Whether two character slices spell the same text.
pub fn same_chars(a: &[char], b: &[char]) -> (r: bool)
    ensures
        r == (a@ == b@),
{
    if a.len() != b.len() {
        return false;
    }
    let mut i: usize = 0;
    while i < a.len()
        invariant
            i <= a.len(),
            a.len() == b.len(),
            forall|j: int| 0 <= j < i ==> a@[j] == b@[j],
        decreases a.len() - i,
    {
        if a[i] != b[i] {
            return false;
        }
        i += 1;
    }
    assert(a@ =~= b@);
    true
}

/// Whether the characters `a` spell the text `b`.
pub fn spells(a: &[char], b: &str) -> (r: bool)
    ensures
        r == (a@ == b@),
{
    let b: Vec<char> = chars_of(b);
    same_chars(a, b.as_slice())
}

/// Whether two texts are equal.
pub fn same_text(a: &str, b: &str) -> (r: bool)
    ensures
        r == (a@ == b@),
{
    let a: Vec<char> = chars_of(a);
    spells(a.as_slice(), b)
}

/// The ASCII lowercase of a character; every other character is itself.
pub open spec fn lower_char(c: char) -> char {
    if 'A' <= c && c <= 'Z' {
        (c as u32 + 32) as char
    } else {
        c
    }
}

/// A text with its ASCII letters lowered.
pub open spec fn ascii_lower(s: Seq<char>) -> Seq<char> {
    s.map_values(|c: char| lower_char(c))
}

/// The ASCII lowercase of `c`.
pub fn to_lower_char(c: char) -> (r: char)
    ensures
        r == lower_char(c),
{
    if 'A' <= c && c <= 'Z' {
        let n: u8 = c as u8;
        (n + 32) as char
    } else {
        c
    }
}

/// `s` with its ASCII letters lowered, character by character.
pub fn to_ascii_lower(s: &str) -> (r: String)
    ensures
        r@ == ascii_lower(s@),
{
    let cs: Vec<char> = chars_of(s);
    let mut out: String = String::new();
    let mut i: usize = 0;
    while i < cs.len()
        invariant
            i <= cs.len(),
            out@ == ascii_lower(cs@.take(i as int)),
        decreases cs.len() - i,
    {
        out.push(to_lower_char(cs[i]));
        assert(cs@.take(i + 1).drop_last() =~= cs@.take(i as int));
        i += 1;
    }
    assert(cs@.take(cs@.len() as int) =~= cs@);
    out
}

/// Whether two texts differ at most in the case of their ASCII letters.
pub fn same_ignoring_case(a: &str, b: &str) -> (r: bool)
    ensures
        r == (ascii_lower(a@) == ascii_lower(b@)),
{
    let a: String = to_ascii_lower(a);
    let b: String = to_ascii_lower(b);
    same_text(a.as_str(), b.as_str())
}

// --- searching ------------------------------------------------------------------------------

/// Whether `needle` stands in `s` at position `i`.
pub open spec fn occurs_at(s: Seq<char>, needle: Seq<char>, i: int) -> bool {
    0 <= i && i + needle.len() <= s.len() && s.subrange(i, i + needle.len()) == needle
}

/// Whether `needle` stands anywhere in `s`.
pub open spec fn contains(s: Seq<char>, needle: Seq<char>) -> bool {
    exists|i: int| occurs_at(s, needle, i)
}

/// The first position at or after `from` where `needle` stands in `s`.
pub open spec fn find_from(s: Seq<char>, needle: Seq<char>, from: int) -> Option<int>
    decreases s.len() + 1 - from,
{
    if from < 0 || from + needle.len() > s.len() {
        None
    } else if occurs_at(s, needle, from) {
        Some(from)
    } else {
        find_from(s, needle, from + 1)
    }
}

/// The first position at or after `from` that holds `c`, or the length of `s`.
pub open spec fn char_from(s: Seq<char>, c: char, from: int) -> int
    decreases s.len() - from,
{
    if from >= s.len() {
        s.len() as int
    } else if s[from] == c {
        from
    } else {
        char_from(s, c, from + 1)
    }
}

/// `find_from` reports an occurrence, and the first one.
pub proof fn lemma_find_from(s: Seq<char>, needle: Seq<char>, from: int)
    requires
        0 <= from,
    ensures
        match find_from(s, needle, from) {
            Some(k) => from <= k && occurs_at(s, needle, k) && forall|j: int|
                from <= j < k ==> !occurs_at(s, needle, j),
            None => forall|j: int| from <= j ==> !occurs_at(s, needle, j),
        },
    decreases s.len() + 1 - from,
{
    if from + needle.len() <= s.len() && !occurs_at(s, needle, from) {
        lemma_find_from(s, needle, from + 1);
    }
}

/// `char_from` stays in range, holds `c` there, and passes no earlier `c`.
pub proof fn lemma_char_from(s: Seq<char>, c: char, from: int)
    requires
        0 <= from <= s.len(),
    ensures
        from <= char_from(s, c, from) <= s.len(),
        char_from(s, c, from) < s.len() ==> s[char_from(s, c, from)] == c,
        forall|j: int| from <= j < char_from(s, c, from) ==> s[j] != c,
    decreases s.len() - from,
{
    if from < s.len() && s[from] != c {
        lemma_char_from(s, c, from + 1);
    }
}

/// Whether `needle` stands in `s` at position `i`.
pub fn stands_at(s: &[char], needle: &[char], i: usize) -> (r: bool)
    ensures
        r == occurs_at(s@, needle@, i as int),
{
    if i > s.len() || needle.len() > s.len() - i {
        return false;
    }
    same_chars(slice_subrange(s, i, i + needle.len()), needle)
}

/// The first position at or after `from` where `needle` stands in `s`.
pub fn find_chars(s: &[char], needle: &[char], from: usize) -> (r: Option<usize>)
    ensures
        match r {
            Some(k) => find_from(s@, needle@, from as int) == Some(k as int),
            None => find_from(s@, needle@, from as int) is None,
        },
{
    if from > s.len() {
        return None;
    }
    let mut i: usize = from;
    while i <= s.len() && needle.len() <= s.len() - i
        invariant
            from <= i <= s.len() + 1,
            s@.len() == s.len(),
            find_from(s@, needle@, from as int) == find_from(s@, needle@, i as int),
        decreases s.len() + 1 - i,
    {
        if stands_at(s, needle, i) {
            return Some(i);
        }
        if i == s.len() {
            assert(s@.subrange(i as int, i as int) =~= needle@);
            return None;
        }
        i += 1;
    }
    None
}

/// Whether `needle` stands anywhere in `s`.
pub fn holds(s: &str, needle: &str) -> (r: bool)
    ensures
        r == contains(s@, needle@),
{
    let s: Vec<char> = chars_of(s);
    let needle: Vec<char> = chars_of(needle);
    proof {
        lemma_find_from(s@, needle@, 0);
    }
    match find_chars(s.as_slice(), needle.as_slice(), 0) {
        Some(_k) => true,
        None => false,
    }
}

/// The first position at or after `from` that holds `c`, or the length of `s`.
pub fn find_char(s: &[char], c: char, from: usize) -> (r: usize)
    requires
        from <= s.len(),
    ensures
        r == char_from(s@, c, from as int),
        from <= r <= s.len(),
{
    let mut i: usize = from;
    while i < s.len()
        invariant
            from <= i <= s.len(),
            char_from(s@, c, from as int) == char_from(s@, c, i as int),
        decreases s.len() - i,
    {
        if s[i] == c {
            return i;
        }
        i += 1;
    }
    i
}

/// Whether `s` begins with `p`.
pub fn begins_with(s: &[char], p: &str) -> (r: bool)
    ensures
        r == p@.is_prefix_of(s@),
{
    let p: Vec<char> = chars_of(p);
    stands_at(s, p.as_slice(), 0)
}

/// Whether `s` ends with `p`.
pub fn finishes_with(s: &[char], p: &str) -> (r: bool)
    ensures
        r == p@.is_suffix_of(s@),
{
    let p: Vec<char> = chars_of(p);
    if p.len() > s.len() {
        return false;
    }
    same_chars(slice_subrange(s, s.len() - p.len(), s.len()), p.as_slice())
}

// --- white space ----------------------------------------------------------------------------

/// The Unicode `White_Space` characters.
pub open spec fn is_white(c: char) -> bool {
    ('\u{9}' <= c && c <= '\u{d}') || c == ' ' || c == '\u{85}' || c == '\u{a0}' || c == '\u{1680}'
        || ('\u{2000}' <= c && c <= '\u{200a}') || c == '\u{2028}' || c == '\u{2029}' || c
        == '\u{202f}' || c == '\u{205f}' || c == '\u{3000}'
}

/// Whether `c` is a Unicode `White_Space` character.
pub fn white(c: char) -> (r: bool)
    ensures
        r == is_white(c),
{
    ('\u{9}' <= c && c <= '\u{d}') || c == ' ' || c == '\u{85}' || c == '\u{a0}' || c == '\u{1680}'
        || ('\u{2000}' <= c && c <= '\u{200a}') || c == '\u{2028}' || c == '\u{2029}' || c
        == '\u{202f}' || c == '\u{205f}' || c == '\u{3000}'
}

/// `s` without its leading white space.
pub open spec fn trim_start(s: Seq<char>) -> Seq<char>
    decreases s.len(),
{
    if s.len() > 0 && is_white(s[0]) {
        trim_start(s.drop_first())
    } else {
        s
    }
}

/// `s` without its trailing white space.
pub open spec fn trim_end(s: Seq<char>) -> Seq<char>
    decreases s.len(),
{
    if s.len() > 0 && is_white(s.last()) {
        trim_end(s.drop_last())
    } else {
        s
    }
}

/// `s` without the white space around it.
pub open spec fn trim(s: Seq<char>) -> Seq<char> {
    trim_end(trim_start(s))
}

/// What is taken off the front of a text is white space, all of it, and nothing else is.
pub proof fn law_only_white_space_is_taken_off_the_front(s: Seq<char>)
    ensures
        trim_start(s).len() <= s.len(),
        trim_start(s) == s.skip(s.len() - trim_start(s).len()),
        forall|i: int| 0 <= i < s.len() - trim_start(s).len() ==> is_white(#[trigger] s[i]),
        trim_start(s).len() > 0 ==> !is_white(trim_start(s)[0]),
    decreases s.len(),
{
    if s.len() > 0 && is_white(s[0]) {
        let t = s.drop_first();
        law_only_white_space_is_taken_off_the_front(t);
        assert(t.skip(t.len() - trim_start(t).len()) =~= s.skip(s.len() - trim_start(s).len()));
        assert forall|i: int| 0 <= i < s.len() - trim_start(s).len() implies is_white(
            #[trigger] s[i],
        ) by {
            if i > 0 {
                assert(t[i - 1] == s[i]);
            }
        }
    } else {
        assert(s.skip(0) =~= s);
    }
}

/// What is taken off the end of a text is white space, all of it, and nothing else is.
pub proof fn law_only_white_space_is_taken_off_the_end(s: Seq<char>)
    ensures
        trim_end(s).len() <= s.len(),
        trim_end(s) == s.take(trim_end(s).len() as int),
        forall|i: int| trim_end(s).len() <= i < s.len() ==> is_white(#[trigger] s[i]),
        trim_end(s).len() > 0 ==> !is_white(trim_end(s).last()),
    decreases s.len(),
{
    if s.len() > 0 && is_white(s.last()) {
        let t = s.drop_last();
        law_only_white_space_is_taken_off_the_end(t);
        assert(t.take(trim_end(t).len() as int) =~= s.take(trim_end(s).len() as int));
        assert forall|i: int| trim_end(s).len() <= i < s.len() implies is_white(#[trigger] s[i]) by {
            if i < s.len() - 1 {
                assert(t[i] == s[i]);
            }
        }
    } else {
        assert(s.take(s.len() as int) =~= s);
    }
}

/// A text with no white space at either end is not changed by taking it off.
pub proof fn lemma_trim_keeps(s: Seq<char>)
    requires
        s.len() > 0,
        !is_white(s[0]),
        !is_white(s.last()),
    ensures
        trim(s) == s,
{
}

/// `s` without its leading white space.
pub fn trimmed_start(s: &[char]) -> (r: &[char])
    ensures
        r@ == trim_start(s@),
{
    let mut i: usize = 0;
    assert(s@.skip(0) =~= s@);
    while i < s.len() && white(s[i])
        invariant
            i <= s.len(),
            trim_start(s@) == trim_start(s@.skip(i as int)),
        decreases s.len() - i,
    {
        assert(s@.skip(i as int).drop_first() =~= s@.skip(i + 1));
        i += 1;
    }
    slice_subrange(s, i, s.len())
}

/// `s` without its trailing white space.
pub fn trimmed_end(s: &[char]) -> (r: &[char])
    ensures
        r@ == trim_end(s@),
{
    let mut n: usize = s.len();
    assert(s@.take(n as int) =~= s@);
    while n > 0 && white(s[n - 1])
        invariant
            n <= s.len(),
            trim_end(s@) == trim_end(s@.take(n as int)),
        decreases n,
    {
        assert(s@.take(n as int).drop_last() =~= s@.take(n - 1));
        n -= 1;
    }
    slice_subrange(s, 0, n)
}

/// `s` without the white space around it.
pub fn trimmed(s: &[char]) -> (r: &[char])
    ensures
        r@ == trim(s@),
{
    trimmed_end(trimmed_start(s))
}

// --- splitting ------------------------------------------------------------------------------

/// The pieces of `s` between the occurrences of `c`: always one more than there are.
pub open spec fn split_on(s: Seq<char>, c: char) -> Seq<Seq<char>>
    decreases s.len(),
{
    let k = char_from(s, c, 0);
    if 0 <= k < s.len() {
        seq![s.take(k)] + split_on(s.skip(k + 1), c)
    } else {
        seq![s]
    }
}

/// A text is split at every separator: what stands before the first is the first piece, and what
/// stands behind it is split in the same way; without a separator the text is the one piece.
pub proof fn law_a_text_is_split_at_every_separator(a: Seq<char>, c: char, b: Seq<char>)
    requires
        !a.contains(c),
    ensures
        split_on(a, c) == seq![a],
        split_on(a + seq![c] + b, c) == seq![a] + split_on(b, c),
{
    let s = a + seq![c] + b;
    lemma_char_from(a, c, 0);
    lemma_char_from(s, c, 0);
    let k = char_from(s, c, 0);
    if char_from(a, c, 0) < a.len() {
        assert(a.contains(a[char_from(a, c, 0)]));
    }
    if k < a.len() {
        assert(a.contains(a[k]));
    }
    assert(s[a.len() as int] == c);
    assert(s.take(k) =~= a);
    assert(s.skip(k + 1) =~= b);
}

/// A line without the carriage return that may end it.
pub open spec fn without_return(s: Seq<char>) -> Seq<char> {
    if s.len() > 0 && s.last() == '\r' {
        s.drop_last()
    } else {
        s
    }
}

/// The lines of `s`: each ends at a line feed, with a carriage return before that dropped; a
/// text that ends in a line feed has no empty last line.
pub open spec fn lines(s: Seq<char>) -> Seq<Seq<char>>
    decreases s.len(),
{
    if s.len() == 0 {
        seq![]
    } else {
        let k = char_from(s, '\n', 0);
        if 0 <= k < s.len() {
            seq![without_return(s.take(k))] + lines(s.skip(k + 1))
        } else {
            seq![s]
        }
    }
}

/// A line ends at every line feed, with a carriage return before that dropped, and what stands
/// behind it is cut in the same way; a rest without a line feed is the last line.
pub proof fn law_a_line_ends_at_every_line_feed(a: Seq<char>, b: Seq<char>)
    requires
        !a.contains('\n'),
    ensures
        lines(a + seq!['\n'] + b) == seq![
            if a.len() > 0 && a.last() == '\r' {
                a.drop_last()
            } else {
                a
            },
        ] + lines(b),
        a.len() > 0 ==> lines(a) == seq![a],
        lines(seq![]) == Seq::<Seq<char>>::empty(),
{
    let s = a + seq!['\n'] + b;
    lemma_char_from(a, '\n', 0);
    lemma_char_from(s, '\n', 0);
    let k = char_from(s, '\n', 0);
    if char_from(a, '\n', 0) < a.len() {
        assert(a.contains(a[char_from(a, '\n', 0)]));
    }
    if k < a.len() {
        assert(a.contains(a[k]));
    }
    assert(s[a.len() as int] == '\n');
    assert(s.take(k) =~= a);
    assert(s.skip(k + 1) =~= b);
}

/// The number of leading characters of `s` that are not white.
pub open spec fn word_end(s: Seq<char>, from: int) -> int
    decreases s.len() - from,
{
    if from >= s.len() {
        s.len() as int
    } else if is_white(s[from]) {
        from
    } else {
        word_end(s, from + 1)
    }
}

pub proof fn lemma_word_end(s: Seq<char>, from: int)
    requires
        0 <= from <= s.len(),
    ensures
        from <= word_end(s, from) <= s.len(),
        from < s.len() && !is_white(s[from]) ==> from < word_end(s, from),
    decreases s.len() - from,
{
    if from < s.len() && !is_white(s[from]) {
        lemma_word_end(s, from + 1);
    }
}

pub proof fn lemma_trim_start_len(s: Seq<char>)
    ensures
        trim_start(s).len() <= s.len(),
        trim_start(s).len() > 0 ==> !is_white(trim_start(s)[0]),
    decreases s.len(),
{
    if s.len() > 0 && is_white(s[0]) {
        lemma_trim_start_len(s.drop_first());
    }
}

/// The words of `s`: its maximal runs of characters that are not white.
pub open spec fn words(s: Seq<char>) -> Seq<Seq<char>>
    decreases s.len(),
    via words_decreases
{
    let t = trim_start(s);
    if t.len() == 0 {
        seq![]
    } else {
        let k = word_end(t, 0);
        seq![t.take(k)] + words(t.skip(k))
    }
}

#[via_fn]
proof fn words_decreases(s: Seq<char>) {
    lemma_trim_start_len(s);
    lemma_word_end(trim_start(s), 0);
}

proof fn lemma_word_reaches(w: Seq<char>, rest: Seq<char>, from: int)
    requires
        0 <= from <= w.len(),
        forall|i: int| 0 <= i < w.len() ==> !is_white(#[trigger] w[i]),
        rest.len() > 0 ==> is_white(rest[0]),
    ensures
        word_end(w + rest, from) == w.len(),
    decreases w.len() - from,
{
    let s = w + rest;
    if from < w.len() {
        assert(s[from] == w[from]);
        lemma_word_reaches(w, rest, from + 1);
    } else if rest.len() > 0 {
        assert(s[from] == rest[0]);
    }
}

/// The words of a text are its runs without white space, all of them, whole and in order: one in
/// front is the first, and white space in front changes nothing.
pub proof fn law_every_word_is_told_apart(w: Seq<char>, rest: Seq<char>, blank: char)
    requires
        w.len() > 0,
        forall|i: int| 0 <= i < w.len() ==> !is_white(#[trigger] w[i]),
        rest.len() > 0 ==> is_white(rest[0]),
        is_white(blank),
    ensures
        words(w + rest) == seq![w] + words(rest),
        words(seq![blank] + rest) == words(rest),
        words(seq![]) == Seq::<Seq<char>>::empty(),
{
    let s = w + rest;
    assert(s[0] == w[0]);
    assert(trim_start(s) == s);
    lemma_word_reaches(w, rest, 0);
    assert(s.take(w.len() as int) =~= w);
    assert(s.skip(w.len() as int) =~= rest);
    let t = seq![blank] + rest;
    assert(t.drop_first() =~= rest);
    assert(trim_start(t) == trim_start(rest));
}

/// The pieces of `s` between the occurrences of `c`.
pub fn split_chars(s: &[char], c: char) -> (r: Vec<String>)
    ensures
        r.deep_view() == split_on(s@, c),
{
    let mut out: Vec<String> = Vec::new();
    let mut start: usize = 0;
    assert(s@.skip(0) =~= s@);
    assert(out.deep_view() + split_on(s@, c) =~= split_on(s@, c));
    loop
        invariant
            start <= s.len(),
            out.deep_view() + split_on(s@.skip(start as int), c) == split_on(s@, c),
        decreases s.len() - start,
    {
        let rest: &[char] = slice_subrange(s, start, s.len());
        let ghost before = out.deep_view();
        let k: usize = find_char(rest, c, 0);
        out.push(string_of(slice_subrange(rest, 0, k)));
        assert(rest@ =~= s@.skip(start as int));
        assert(out.deep_view() =~= before.push(rest@.take(k as int)));
        if k == rest.len() {
            assert(rest@.take(k as int) =~= rest@);
            assert(out.deep_view() =~= before + seq![rest@]);
            return out;
        }
        assert(rest@.skip(k + 1) =~= s@.skip(start + k + 1));
        assert(out.deep_view() + split_on(rest@.skip(k + 1), c) =~= before + split_on(rest@, c));
        start = start + k + 1;
    }
}

/// The lines of `s`.
pub fn lines_of(s: &[char]) -> (r: Vec<String>)
    ensures
        r.deep_view() == lines(s@),
{
    let mut out: Vec<String> = Vec::new();
    let mut start: usize = 0;
    assert(s@.skip(0) =~= s@);
    assert(out.deep_view() + lines(s@) =~= lines(s@));
    while start < s.len()
        invariant
            start <= s.len(),
            out.deep_view() + lines(s@.skip(start as int)) == lines(s@),
        decreases s.len() - start,
    {
        let rest: &[char] = slice_subrange(s, start, s.len());
        let ghost before = out.deep_view();
        let k: usize = find_char(rest, '\n', 0);
        assert(rest@ =~= s@.skip(start as int));
        if k == rest.len() {
            out.push(string_of(rest));
            assert(out.deep_view() =~= before + seq![rest@]);
            return out;
        }
        if k > 0 && rest[k - 1] == '\r' {
            out.push(string_of(slice_subrange(rest, 0, k - 1)));
            assert(rest@.take(k as int).drop_last() =~= rest@.subrange(0, k - 1));
        } else {
            out.push(string_of(slice_subrange(rest, 0, k)));
        }
        assert(out.deep_view() =~= before.push(without_return(rest@.take(k as int))));
        assert(rest@.skip(k + 1) =~= s@.skip(start + k + 1));
        assert(out.deep_view() + lines(rest@.skip(k + 1)) =~= before + lines(rest@));
        start = start + k + 1;
    }
    assert(s@.skip(start as int) =~= seq![]);
    assert(out.deep_view() + lines(seq![]) =~= out.deep_view());
    out
}

/// The words of `s`.
pub fn words_of(s: &[char]) -> (r: Vec<String>)
    ensures
        r.deep_view() == words(s@),
{
    let mut out: Vec<String> = Vec::new();
    let mut rest: &[char] = s;
    assert(out.deep_view() + words(s@) =~= words(s@));
    loop
        invariant
            out.deep_view() + words(rest@) == words(s@),
        decreases rest@.len(),
    {
        let t: &[char] = trimmed_start(rest);
        proof {
            lemma_trim_start_len(rest@);
        }
        if t.len() == 0 {
            assert(out.deep_view() + seq![] =~= out.deep_view());
            return out;
        }
        let mut k: usize = 0;
        while k < t.len() && !white(t[k])
            invariant
                k <= t.len(),
                word_end(t@, 0) == word_end(t@, k as int),
            decreases t.len() - k,
        {
            k += 1;
        }
        let ghost before = out.deep_view();
        proof {
            lemma_word_end(t@, 0);
        }
        out.push(string_of(slice_subrange(t, 0, k)));
        assert(out.deep_view() =~= before.push(t@.take(k as int)));
        assert(out.deep_view() + words(t@.skip(k as int)) =~= before + words(rest@));
        rest = slice_subrange(t, k, t.len());
        assert(rest@ =~= t@.skip(k as int));
    }
}

// --- joining --------------------------------------------------------------------------------

/// The first `n` texts of `parts`, with `sep` between neighbours.
pub open spec fn join_n(parts: Seq<Seq<char>>, sep: Seq<char>, n: nat) -> Seq<char>
    decreases n,
{
    if n == 0 {
        seq![]
    } else if n == 1 {
        parts[0]
    } else {
        join_n(parts, sep, (n - 1) as nat) + sep + parts[n - 1]
    }
}

/// Joined, every text stands in order, and the separator before each but the first.
pub proof fn law_every_text_is_joined(parts: Seq<Seq<char>>, sep: Seq<char>, n: nat)
    requires
        0 < n <= parts.len(),
    ensures
        join_n(parts, sep, n) == parts[0] + Seq::new(
            (n - 1) as nat,
            |i: int| sep + parts[i + 1],
        ).flatten(),
    decreases n,
{
    if n == 1 {
        assert(Seq::new(0, |i: int| sep + parts[i + 1]).flatten() =~= seq![]);
        assert(parts[0] + seq![] =~= parts[0]);
    } else {
        law_every_text_is_joined(parts, sep, (n - 1) as nat);
        lemma_parts_last(|i: int| sep + parts[i + 1], (n - 1) as nat);
        let before = Seq::new((n - 2) as nat, |i: int| sep + parts[i + 1]).flatten();
        assert(parts[0] + before + sep + parts[n - 1] =~= parts[0] + (before + (sep + parts[n - 1])));
    }
}

/// The texts of `parts`, with `sep` between neighbours.
pub open spec fn join(parts: Seq<Seq<char>>, sep: Seq<char>) -> Seq<char> {
    join_n(parts, sep, parts.len())
}

/// The texts of `parts`, with `sep` between neighbours.
pub fn joined(parts: &Vec<String>, sep: &str) -> (r: String)
    ensures
        r@ == join(parts.deep_view(), sep@),
{
    if parts.len() == 0 {
        return String::new();
    }
    let mut out: String = parts[0].clone();
    let mut i: usize = 1;
    while i < parts.len()
        invariant
            1 <= i <= parts.len(),
            out@ == join_n(parts.deep_view(), sep@, i as nat),
        decreases parts.len() - i,
    {
        out.append(sep);
        out.append(parts[i].as_str());
        i += 1;
    }
    out
}

/// `n` copies of `c`.
pub open spec fn repeat(c: char, n: nat) -> Seq<char> {
    Seq::new(n, |i: int| c)
}

/// Append `n` copies of `c`.
pub fn push_repeat(out: &mut String, c: char, n: usize)
    ensures
        final(out)@ == old(out)@ + repeat(c, n as nat),
{
    let mut i: usize = 0;
    assert(out@ + repeat(c, 0) =~= out@);
    while i < n
        invariant
            i <= n,
            out@ == old(out)@ + repeat(c, i as nat),
        decreases n - i,
    {
        let ghost before = out@;
        out.push(c);
        assert(out@ =~= old(out)@ + repeat(c, (i + 1) as nat));
        i += 1;
    }
}

/// `text` with spaces behind it up to a width.
pub open spec fn padded(text: Seq<char>, w: nat) -> Seq<char> {
    text + repeat(
        ' ',
        if text.len() < w {
            (w - text.len()) as nat
        } else {
            0
        },
    )
}

/// A padded text is the text with spaces behind it, as many as the width wants and no more.
pub proof fn law_padding_keeps_the_text(text: Seq<char>, w: nat)
    ensures
        text.is_prefix_of(padded(text, w)),
        padded(text, w).len() == if text.len() < w {
            w
        } else {
            text.len()
        },
        forall|i: int| text.len() <= i < padded(text, w).len() ==> #[trigger] padded(text, w)[i] == ' ',
{
    assert(padded(text, w).take(text.len() as int) =~= text);
}

/// Append `text` with spaces behind it up to a width.
pub fn push_padded(out: &mut String, text: &str, w: usize)
    ensures
        final(out)@ == old(out)@ + padded(text@, w as nat),
{
    let n: usize = chars_of(text).len();
    out.append(text);
    push_repeat(
        out,
        ' ',
        if n < w {
            w - n
        } else {
            0
        },
    );
    assert(out@ =~= old(out)@ + padded(text@, w as nat));
}

// --- numbers --------------------------------------------------------------------------------

/// The character of a decimal digit.
pub open spec fn digit_char(d: nat) -> char {
    (48 + d) as char
}

/// `n` in decimal, without leading zeros.
pub open spec fn decimal(n: nat) -> Seq<char>
    decreases n,
{
    if n < 10 {
        seq![digit_char(n)]
    } else {
        decimal(n / 10).push(digit_char(n % 10))
    }
}

/// Append `n` in decimal.
pub fn push_decimal(out: &mut String, n: u128)
    ensures
        final(out)@ == old(out)@ + decimal(n as nat),
    decreases n,
{
    if n >= 10 {
        push_decimal(out, n / 10);
    }
    let ghost before = out@;
    let d: u8 = (n % 10) as u8;
    out.push((48 + d) as char);
    if n >= 10 {
        assert(out@ =~= old(out)@ + decimal(n as nat));
    } else {
        assert(out@ =~= old(out)@ + decimal(n as nat));
    }
}

/// `n` in decimal.
pub fn decimal_of(n: u64) -> (r: String)
    ensures
        r@ == decimal(n as nat),
{
    let mut out: String = String::new();
    push_decimal(&mut out, n as u128);
    assert(out@ =~= decimal(n as nat));
    out
}

/// The character of a hexadecimal digit, in upper case.
pub open spec fn hex_char(d: nat) -> char {
    if d < 10 {
        (48 + d) as char
    } else {
        (55 + d) as char
    }
}

/// `n` in upper-case hexadecimal, with at least `width` digits.
pub open spec fn hex(n: nat, width: nat) -> Seq<char>
    decreases n, width,
{
    if n < 16 && width <= 1 {
        seq![hex_char(n)]
    } else {
        hex(
            n / 16,
            if width == 0 {
                0
            } else {
                (width - 1) as nat
            },
        ).push(hex_char(n % 16))
    }
}

/// A number in hexadecimal has at least the digits asked for, and each digit is the upper-case one
/// of its place.
pub proof fn law_hexadecimal_digit_by_digit(n: nat, width: nat)
    ensures
        hex(n, width).len() >= width,
        hex(n, width).len() >= 1,
        hex(n, width).last() == "0123456789ABCDEF"@[(n % 16) as int],
        n >= 16 || width > 1 ==> hex(n, width).drop_last() == hex(
            n / 16,
            if width == 0 {
                0
            } else {
                (width - 1) as nat
            },
        ),
        n < 16 && width <= 1 ==> hex(n, width).len() == 1,
    decreases n, width,
{
    reveal_strlit("0123456789ABCDEF");
    if n < 16 && width <= 1 {
    } else {
        let w = if width == 0 {
            0
        } else {
            (width - 1) as nat
        };
        law_hexadecimal_digit_by_digit(n / 16, w);
        assert(hex(n, width).drop_last() =~= hex(n / 16, w));
    }
}

/// Append `n` in upper-case hexadecimal, with at least `width` digits.
pub fn push_hex(out: &mut String, n: u32, width: u32)
    ensures
        final(out)@ == old(out)@ + hex(n as nat, width as nat),
    decreases n, width,
{
    if n >= 16 || width > 1 {
        push_hex(
            out,
            n / 16,
            if width == 0 {
                0
            } else {
                width - 1
            },
        );
    }
    let d: u8 = (n % 16) as u8;
    let c: char = if d < 10 {
        (48 + d) as char
    } else {
        (55 + d) as char
    };
    out.push(c);
    assert(out@ =~= old(out)@ + hex(n as nat, width as nat));
}

/// Whether `c` is an ASCII digit.
pub open spec fn is_digit(c: char) -> bool {
    '0' <= c && c <= '9'
}

/// The number that a run of digits denotes.
pub open spec fn digits_value(s: Seq<char>) -> nat
    decreases s.len(),
{
    if s.len() == 0 {
        0
    } else {
        digits_value(s.drop_last()) * 10 + (s.last() as nat - 48) as nat
    }
}

/// Whether `s` holds digits only.
pub open spec fn all_digits(s: Seq<char>) -> bool {
    forall|i: int| 0 <= i < s.len() ==> is_digit(#[trigger] s[i])
}

/// `s` without the `+` that may lead a number.
pub open spec fn without_plus(s: Seq<char>) -> Seq<char> {
    if s.len() > 0 && s[0] == '+' {
        s.drop_first()
    } else {
        s
    }
}

/// `s` read as an unsigned decimal number of at most `max`: an optional `+`, then one or more
/// digits.
pub open spec fn parse_decimal(s: Seq<char>, max: nat) -> Option<nat> {
    let digits = without_plus(s);
    if digits.len() > 0 && all_digits(digits) && digits_value(digits) <= max {
        Some(digits_value(digits))
    } else {
        None
    }
}

proof fn lemma_digits_value_grows(s: Seq<char>, n: int)
    requires
        0 <= n <= s.len(),
    ensures
        digits_value(s.take(n)) <= digits_value(s),
    decreases s.len(),
{
    if n < s.len() {
        lemma_digits_value_grows(s.drop_last(), n);
        assert(s.drop_last().take(n) =~= s.take(n));
    } else {
        assert(s.take(n) =~= s);
    }
}

/// `s` read as an unsigned decimal number of at most `max`.
pub fn parse_number(s: &[char], max: u64) -> (r: Option<u64>)
    ensures
        match r {
            Some(n) => parse_decimal(s@, max as nat) == Some(n as nat),
            None => parse_decimal(s@, max as nat) is None,
        },
{
    let digits: &[char] = if s.len() > 0 && s[0] == '+' {
        slice_subrange(s, 1, s.len())
    } else {
        s
    };
    assert(digits@ =~= without_plus(s@));
    if digits.len() == 0 {
        return None;
    }
    let mut k: usize = 0;
    while k < digits.len()
        invariant
            k <= digits.len(),
            forall|i: int| 0 <= i < k ==> is_digit(#[trigger] digits@[i]),
            digits@ == without_plus(s@),
        decreases digits.len() - k,
    {
        if !('0' <= digits[k] && digits[k] <= '9') {
            assert(!is_digit(without_plus(s@)[k as int]));
            return None;
        }
        k += 1;
    }
    let mut n: u64 = 0;
    let mut i: usize = 0;
    while i < digits.len()
        invariant
            i <= digits.len(),
            n <= max,
            n == digits_value(digits@.take(i as int)),
            all_digits(digits@),
            digits@ == without_plus(s@),
        decreases digits.len() - i,
    {
        let d: u64 = (digits[i] as u32 - 48) as u64;
        proof {
            assert(is_digit(digits@[i as int]));
            assert(digits@.take(i + 1).drop_last() =~= digits@.take(i as int));
            assert(digits_value(digits@.take(i + 1)) == n * 10 + d);
            lemma_digits_value_grows(digits@, i + 1);
        }
        if d > max || n > (max - d) / 10 {
            return None;
        }
        n = n * 10 + d;
        i += 1;
    }
    assert(digits@.take(i as int) =~= digits@);
    Some(n)
}

/// The digits of a number read back as the number.
pub proof fn law_decimal_reads_back(n: nat)
    ensures
        decimal(n).len() > 0,
        all_digits(decimal(n)),
        digits_value(decimal(n)) == n,
        forall|max: nat| n <= max ==> #[trigger] parse_decimal(decimal(n), max) == Some(n),
    decreases n,
{
    let d = decimal(n);
    if n < 10 {
        assert(d =~= seq![digit_char(n)]);
        assert(d.drop_last() =~= seq![]);
        assert(is_digit(d[0]));
        assert(d.last() as nat == 48 + n);
        assert(digits_value(d.drop_last()) == 0);
    } else {
        law_decimal_reads_back(n / 10);
        let h = decimal(n / 10);
        assert(d.drop_last() =~= h);
        assert(d.last() == digit_char(n % 10));
        assert(d.last() as nat == 48 + n % 10);
        assert forall|i: int| 0 <= i < d.len() implies is_digit(#[trigger] d[i]) by {
            if i < h.len() {
                assert(d[i] == h[i]);
            }
        }
    }
    assert(is_digit(d[0]));
    assert(without_plus(d) == d);
}

proof fn lemma_word_end_at(a: Seq<char>, b: Seq<char>, from: int)
    requires
        0 <= from <= a.len(),
        forall|i: int| 0 <= i < a.len() ==> !is_white(#[trigger] a[i]),
        b.len() > 0,
        is_white(b[0]),
    ensures
        word_end(a + b, from) == a.len(),
    decreases a.len() - from,
{
    if from < a.len() {
        assert((a + b)[from] == a[from]);
        lemma_word_end_at(a, b, from + 1);
    } else {
        assert((a + b)[from] == b[0]);
    }
}

/// The first word of a text that begins with a word and goes on with white space is that word.
pub proof fn lemma_first_word(a: Seq<char>, b: Seq<char>)
    requires
        a.len() > 0,
        forall|i: int| 0 <= i < a.len() ==> !is_white(#[trigger] a[i]),
        b.len() > 0,
        is_white(b[0]),
    ensures
        words(a + b).len() > 0,
        words(a + b)[0] == a,
{
    let s = a + b;
    assert(s[0] == a[0]);
    assert(trim_start(s) == s);
    lemma_word_end_at(a, b, 0);
    assert(s.take(a.len() as int) =~= a);
}

// --- trimming one character -----------------------------------------------------------------

/// `s` without the characters `c` in front.
pub open spec fn without_first(s: Seq<char>, c: char) -> Seq<char>
    decreases s.len(),
{
    if s.len() > 0 && s[0] == c {
        without_first(s.drop_first(), c)
    } else {
        s
    }
}

/// `s` without the characters `c` at its end.
pub open spec fn without_last(s: Seq<char>, c: char) -> Seq<char>
    decreases s.len(),
{
    if s.len() > 0 && s.last() == c {
        without_last(s.drop_last(), c)
    } else {
        s
    }
}

/// Only the characters `c` in front are taken off, and all of them.
pub proof fn law_only_leading_ones_are_taken_off(s: Seq<char>, c: char)
    ensures
        without_first(s, c).len() <= s.len(),
        without_first(s, c) == s.skip(s.len() - without_first(s, c).len()),
        forall|i: int| 0 <= i < s.len() - without_first(s, c).len() ==> #[trigger] s[i] == c,
        without_first(s, c).len() > 0 ==> without_first(s, c)[0] != c,
    decreases s.len(),
{
    if s.len() > 0 && s[0] == c {
        let t = s.drop_first();
        law_only_leading_ones_are_taken_off(t, c);
        assert(t.skip(t.len() - without_first(t, c).len()) =~= s.skip(
            s.len() - without_first(s, c).len(),
        ));
        assert forall|i: int| 0 <= i < s.len() - without_first(s, c).len() implies #[trigger] s[i]
            == c by {
            if i > 0 {
                assert(t[i - 1] == s[i]);
            }
        }
    } else {
        assert(s.skip(0) =~= s);
    }
}

/// Only the characters `c` at the end are taken off, and all of them.
pub proof fn law_only_trailing_ones_are_taken_off(s: Seq<char>, c: char)
    ensures
        without_last(s, c).len() <= s.len(),
        without_last(s, c) == s.take(without_last(s, c).len() as int),
        forall|i: int| without_last(s, c).len() <= i < s.len() ==> #[trigger] s[i] == c,
        without_last(s, c).len() > 0 ==> without_last(s, c).last() != c,
    decreases s.len(),
{
    if s.len() > 0 && s.last() == c {
        let t = s.drop_last();
        law_only_trailing_ones_are_taken_off(t, c);
        assert(t.take(without_last(t, c).len() as int) =~= s.take(without_last(s, c).len() as int));
        assert forall|i: int| without_last(s, c).len() <= i < s.len() implies #[trigger] s[i] == c by {
            if i < s.len() - 1 {
                assert(t[i] == s[i]);
            }
        }
    } else {
        assert(s.take(s.len() as int) =~= s);
    }
}

/// `s` without the characters `c` in front.
pub fn drop_leading(s: &[char], c: char) -> (r: &[char])
    ensures
        r@ == without_first(s@, c),
{
    let mut k: usize = 0;
    assert(s@.skip(0) =~= s@);
    while k < s.len() && s[k] == c
        invariant
            k <= s.len(),
            without_first(s@, c) == without_first(s@.skip(k as int), c),
        decreases s.len() - k,
    {
        assert(s@.skip(k as int).drop_first() =~= s@.skip(k + 1));
        k += 1;
    }
    let r: &[char] = slice_subrange(s, k, s.len());
    assert(r@ =~= s@.skip(k as int));
    r
}

/// `s` without the characters `c` at its end.
pub fn drop_trailing(s: &[char], c: char) -> (r: &[char])
    ensures
        r@ == without_last(s@, c),
{
    let mut n: usize = s.len();
    assert(s@.take(n as int) =~= s@);
    while n > 0 && s[n - 1] == c
        invariant
            n <= s.len(),
            without_last(s@, c) == without_last(s@.take(n as int), c),
        decreases n,
    {
        assert(s@.take(n as int).drop_last() =~= s@.take(n - 1));
        n -= 1;
    }
    let r: &[char] = slice_subrange(s, 0, n);
    assert(r@ =~= s@.take(n as int));
    r
}

// --- lists of texts -------------------------------------------------------------------------

/// Whether a list holds a text.
pub fn holds_text(list: &Vec<String>, s: &str) -> (r: bool)
    ensures
        r == list.deep_view().contains(s@),
{
    let mut i: usize = 0;
    while i < list.len()
        invariant
            i <= list.len(),
            forall|j: int| 0 <= j < i ==> #[trigger] list.deep_view()[j] != s@,
        decreases list.len() - i,
    {
        assert(list.deep_view()[i as int] == list@[i as int]@);
        if same_text(list[i].as_str(), s) {
            return true;
        }
        i += 1;
    }
    assert(list.deep_view().len() == list@.len());
    false
}

/// Whether a list of fixed words holds a text.
pub fn holds_word(list: &Vec<&'static str>, s: &str) -> (r: bool)
    ensures
        r == list.deep_view().contains(s@),
{
    let mut i: usize = 0;
    while i < list.len()
        invariant
            i <= list.len(),
            forall|j: int| 0 <= j < i ==> #[trigger] list.deep_view()[j] != s@,
        decreases list.len() - i,
    {
        assert(list.deep_view()[i as int] == list@[i as int]@);
        if same_text(list[i], s) {
            return true;
        }
        i += 1;
    }
    assert(list.deep_view().len() == list@.len());
    false
}

/// Append fixed words to a list of texts.
pub fn push_words(out: &mut Vec<String>, list: Vec<&'static str>)
    ensures
        final(out).deep_view() == old(out).deep_view() + list.deep_view(),
{
    let ghost before = out.deep_view();
    let mut i: usize = 0;
    assert(out.deep_view() =~= before + list.deep_view().take(0));
    while i < list.len()
        invariant
            i <= list.len(),
            out.deep_view() == before + list.deep_view().take(i as int),
        decreases list.len() - i,
    {
        push_text(out, list[i]);
        i += 1;
        assert(out.deep_view() =~= before + list.deep_view().take(i as int));
    }
    assert(list.deep_view().take(i as int) =~= list.deep_view());
}

/// Append texts to a list of texts.
pub fn push_texts(out: &mut Vec<String>, list: &Vec<String>)
    ensures
        final(out).deep_view() == old(out).deep_view() + list.deep_view(),
{
    let ghost before = out.deep_view();
    let mut i: usize = 0;
    assert(out.deep_view() =~= before + list.deep_view().take(0));
    while i < list.len()
        invariant
            i <= list.len(),
            out.deep_view() == before + list.deep_view().take(i as int),
        decreases list.len() - i,
    {
        push_text(out, list[i].as_str());
        i += 1;
        assert(out.deep_view() =~= before + list.deep_view().take(i as int));
    }
    assert(list.deep_view().take(i as int) =~= list.deep_view());
}

// --- order -------------------------------------------------------------------------------

/// Whether `a` comes before `b`, by the code points of the characters.
pub open spec fn precedes(a: Seq<char>, b: Seq<char>) -> bool
    decreases a.len(),
{
    if b.len() == 0 {
        false
    } else if a.len() == 0 {
        true
    } else if a[0] == b[0] {
        precedes(a.drop_first(), b.drop_first())
    } else {
        (a[0] as int) < (b[0] as int)
    }
}

/// Texts are ordered by the first character in which they differ, and one that another begins
/// with comes before it.
pub proof fn law_the_first_difference_orders(
    p: Seq<char>,
    x: char,
    a: Seq<char>,
    y: char,
    b: Seq<char>,
)
    requires
        x != y,
    ensures
        precedes(p + seq![x] + a, p + seq![y] + b) == ((x as int) < (y as int)),
        precedes(p, p + seq![x] + a),
        !precedes(p + seq![x] + a, p),
        !precedes(p, p),
    decreases p.len(),
{
    let s = p + seq![x] + a;
    let t = p + seq![y] + b;
    if p.len() > 0 {
        law_the_first_difference_orders(p.drop_first(), x, a, y, b);
        assert(s.drop_first() =~= p.drop_first() + seq![x] + a);
        assert(t.drop_first() =~= p.drop_first() + seq![y] + b);
    } else {
        assert(s[0] == x);
        assert(t[0] == y);
    }
}

/// Whether `a` comes before `b`.
pub fn comes_before(a: &[char], b: &[char]) -> (r: bool)
    ensures
        r == precedes(a@, b@),
{
    let mut i: usize = 0;
    assert(a@.skip(0) =~= a@);
    assert(b@.skip(0) =~= b@);
    loop
        invariant
            i <= a.len(),
            i <= b.len(),
            precedes(a@, b@) == precedes(a@.skip(i as int), b@.skip(i as int)),
        decreases a.len() - i,
    {
        if i == b.len() {
            return false;
        }
        if i == a.len() {
            return true;
        }
        let x: char = char_at(a, i);
        let y: char = char_at(b, i);
        if x != y {
            return code_of(x) < code_of(y);
        }
        assert(a@.skip(i as int).drop_first() =~= a@.skip(i + 1));
        assert(b@.skip(i as int).drop_first() =~= b@.skip(i + 1));
        i += 1;
    }
}

/// Where a text goes among texts in order: before the first that it precedes.
pub open spec fn text_place(list: Seq<Seq<char>>, s: Seq<char>, k: int) -> int
    decreases list.len() - k,
{
    if k >= list.len() {
        list.len() as int
    } else if precedes(s, list[k]) {
        k
    } else {
        text_place(list, s, k + 1)
    }
}

/// The first `n` texts in order.
pub open spec fn sorted_texts(list: Seq<Seq<char>>, n: nat) -> Seq<Seq<char>>
    decreases n,
{
    if n == 0 {
        seq![]
    } else {
        let before = sorted_texts(list, (n - 1) as nat);
        before.insert(text_place(before, list[n - 1], 0), list[n - 1])
    }
}

/// The texts in order.
pub fn sort_texts(list: &Vec<String>) -> (r: Vec<String>)
    ensures
        r.deep_view() == sorted_texts(list.deep_view(), list@.len()),
{
    let mut out: Vec<String> = Vec::new();
    assert(out.deep_view() =~= seq![]);
    let mut i: usize = 0;
    while i < list.len()
        invariant
            i <= list.len(),
            out.deep_view() == sorted_texts(list.deep_view(), i as nat),
        decreases list.len() - i,
    {
        assert(list.deep_view()[i as int] == list@[i as int]@);
        let ghost before = out.deep_view();
        assert(before.len() == out@.len());
        let x: Vec<char> = chars_of(list[i].as_str());
        let mut k: usize = 0;
        let mut found: bool = false;
        while k < out.len() && !found
            invariant
                k <= out.len(),
                x@ == list@[i as int]@,
                out.deep_view() == before,
                before.len() == out@.len(),
                !found ==> text_place(before, x@, 0) == text_place(before, x@, k as int),
                found ==> text_place(before, x@, 0) == k,
            decreases
                    out.len() - k,
                    if found {
                        0int
                    } else {
                        1
                    },
        {
            assert(before[k as int] == out@[k as int]@);
            let y: Vec<char> = chars_of(out[k].as_str());
            if comes_before(x.as_slice(), y.as_slice()) {
                found = true;
            } else {
                k += 1;
            }
        }
        out.insert(k, list[i].clone());
        assert(out.deep_view() =~= before.insert(k as int, x@));
        i += 1;
    }
    out
}

/// A text that precedes one precedes whatever does not come before that one, and never both ways.
pub proof fn lemma_precedes_order(a: Seq<char>, b: Seq<char>, c: Seq<char>)
    ensures
        precedes(a, b) && !precedes(c, b) ==> precedes(a, c),
        !(precedes(a, b) && precedes(b, a)),
    decreases a.len() + b.len() + c.len(),
{
    if a.len() > 0 && b.len() > 0 && c.len() > 0 {
        lemma_precedes_order(a.drop_first(), b.drop_first(), c.drop_first());
    }
    if a.len() > 0 && b.len() > 0 && c.len() == 0 {
        lemma_precedes_order(a.drop_first(), b.drop_first(), c);
    }
}

proof fn lemma_text_place(list: Seq<Seq<char>>, s: Seq<char>, k: int)
    requires
        0 <= k <= list.len(),
    ensures
        k <= text_place(list, s, k) <= list.len(),
        forall|j: int| k <= j < text_place(list, s, k) ==> !precedes(s, #[trigger] list[j]),
        text_place(list, s, k) < list.len() ==> precedes(s, list[text_place(list, s, k)]),
    decreases list.len() - k,
{
    if k < list.len() && !precedes(s, list[k]) {
        lemma_text_place(list, s, k + 1);
    }
}

/// Sorted texts are the same texts, and none precedes one before it.
pub proof fn law_sorted_texts_are_in_order(list: Seq<Seq<char>>, n: nat)
    requires
        n <= list.len(),
    ensures
        sorted_texts(list, n).to_multiset() == list.take(n as int).to_multiset(),
        forall|i: int, j: int|
            0 <= i < j < sorted_texts(list, n).len() ==> !precedes(
                #[trigger] sorted_texts(list, n)[j],
                #[trigger] sorted_texts(list, n)[i],
            ),
    decreases n,
{
    broadcast use vstd::seq_lib::group_to_multiset_ensures;

    if n > 0 {
        law_sorted_texts_are_in_order(list, (n - 1) as nat);
        let before = sorted_texts(list, (n - 1) as nat);
        let s = list[n - 1];
        let k = text_place(before, s, 0);
        lemma_text_place(before, s, 0);
        let after = before.insert(k, s);
        assert forall|i: int, j: int| 0 <= i < j < after.len() implies !precedes(
            #[trigger] after[j],
            #[trigger] after[i],
        ) by {
            if j == k {
                assert(after[i] == before[i]);
            } else if i == k {
                let y = before[j - 1];
                assert(after[j] == y);
                let first = before[k];
                if k < j - 1 {
                    assert(!precedes(before[j - 1], before[k]));
                }
                lemma_precedes_order(s, first, y);
                lemma_precedes_order(y, s, first);
            } else {
                let p = if i < k {
                    i
                } else {
                    i - 1
                };
                let q = if j < k {
                    j
                } else {
                    j - 1
                };
                assert(after[i] == before[p] && after[j] == before[q]);
            }
        }
        assert(list.take(n as int) =~= list.take(n - 1).push(s));
        vstd::seq_lib::to_multiset_insert(before, k, s);
    } else {
        assert(list.take(0) =~= seq![]);
    }
}

/// The first `n` lines of a list, each set in by two spaces and ended.
pub open spec fn indented(list: Seq<Seq<char>>, n: nat) -> Seq<char>
    decreases n,
{
    if n == 0 {
        seq![]
    } else {
        indented(list, (n - 1) as nat) + ("  "@ + list[n - 1] + "\n"@)
    }
}

/// Every line stands in what is set in, in order, behind two spaces.
pub proof fn law_every_line_is_set_in(list: Seq<Seq<char>>, n: nat)
    requires
        n <= list.len(),
    ensures
        indented(list, n) == list.take(n as int).flat_map(
            |line: Seq<char>| "  "@ + line + "\n"@,
        ),
    decreases n,
{
    if n > 0 {
        law_every_line_is_set_in(list, (n - 1) as nat);
        lemma_flat_map_last(
            list,
            |line: Seq<char>| "  "@ + line + "\n"@,
            n,
        );
    }
}

} // verus!
