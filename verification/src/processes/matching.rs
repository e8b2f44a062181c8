//! Finding patterns in processes, whatever their case.
//!
//! Two texts are compared character by character through the lowercase mapping of each side,
//! rather than by lowering the whole text and searching that: lowering can change a text's
//! length, and a place found in a lowered copy need not exist in the original.

use vstd::prelude::*;
use vstd::slice::slice_subrange;
use vstd::string::*;
use vstd::utf8::{encode_scalar, encode_utf8};
use crate::processes::{Field, Process, ProcessView};
use crate::sequences::{lemma_filter_map_last, lemma_flat_map_last};
use crate::text::{char_at, chars_of, code_of, join, joined, parse_decimal, parse_number, same_chars, string_of};

verus! {

/// The lowercase mapping of a character: one or more characters.
pub uninterp spec fn lower_fold(c: char) -> Seq<char>;

/// `char::to_lowercase` yields the lowercase mapping of a character as one or more characters, a
/// function of the character alone. Which ones is left to the name `lower_fold`.
#[verifier::external_body]
pub(crate) fn fold_char(c: char) -> (r: Vec<char>)
    ensures
        r@ == lower_fold(c),
        r@.len() >= 1,
{
    c.to_lowercase().collect()
}

/// A text through the lowercase mapping of each character.
pub open spec fn fold_all(s: Seq<char>) -> Seq<char>
    decreases s.len(),
{
    if s.len() == 0 {
        seq![]
    } else {
        fold_all(s.drop_last()) + lower_fold(s.last())
    }
}

/// Whether the first `k` characters of `h` fold to `f`.
pub open spec fn fits(h: Seq<char>, f: Seq<char>, k: int) -> bool {
    0 <= k <= h.len() && fold_all(h.take(k)) == f
}

/// The least number of characters of `h`, from `from` on, that fold to `f`.
pub open spec fn first_fit(h: Seq<char>, f: Seq<char>, from: int) -> Option<int>
    decreases h.len() + 1 - from,
{
    if from > h.len() {
        None
    } else if fits(h, f, from) {
        Some(from)
    } else {
        first_fit(h, f, from + 1)
    }
}

/// The first place at or after `from` where `h` folds to `f`, and over how many characters.
pub open spec fn find_fold(h: Seq<char>, f: Seq<char>, from: int) -> Option<(int, int)>
    decreases h.len() - from,
{
    if from >= h.len() {
        None
    } else {
        match first_fit(h.skip(from), f, 0) {
            Some(k) => Some((from, k)),
            None => find_fold(h, f, from + 1),
        }
    }
}

/// The first occurrence of `needle` in `h`, whatever the case; an empty needle is nowhere.
pub open spec fn occurrence(h: Seq<char>, needle: Seq<char>) -> Option<(int, int)> {
    if needle.len() == 0 {
        None
    } else {
        find_fold(h, fold_all(needle), 0)
    }
}

/// Whether `needle` occurs in `h`, whatever the case.
pub open spec fn occurs(h: Seq<char>, needle: Seq<char>) -> bool {
    occurrence(h, needle) is Some
}

proof fn lemma_fold_step(h: Seq<char>, i: int)
    requires
        0 <= i < h.len(),
    ensures
        fold_all(h.take(i + 1)) == fold_all(h.take(i)) + lower_fold(h[i]),
{
    assert(h.take(i + 1).drop_last() =~= h.take(i));
    assert(h.take(i + 1).last() == h[i]);
}

proof fn lemma_fold_prefix(h: Seq<char>, i: int, k: int)
    requires
        0 <= i <= k <= h.len(),
    ensures
        fold_all(h.take(i)).is_prefix_of(fold_all(h.take(k))),
    decreases k,
{
    if i < k {
        lemma_fold_prefix(h, i, k - 1);
        lemma_fold_step(h, k - 1);
    }
}

proof fn lemma_no_fit(h: Seq<char>, f: Seq<char>, i: int, from: int)
    requires
        0 <= i <= from,
        i <= h.len(),
        !fold_all(h.take(i)).is_prefix_of(f),
    ensures
        first_fit(h, f, from) is None,
    decreases h.len() + 1 - from,
{
    if from <= h.len() {
        lemma_fold_prefix(h, i, from);
        lemma_no_fit(h, f, i, from + 1);
    }
}

proof fn lemma_first_fit(h: Seq<char>, f: Seq<char>, from: int)
    requires
        0 <= from,
    ensures
        first_fit(h, f, from) matches Some(k) ==> from <= k <= h.len() && fits(h, f, k),
    decreases h.len() + 1 - from,
{
    if from <= h.len() && !fits(h, f, from) {
        lemma_first_fit(h, f, from + 1);
    }
}

/// A text folds character by character.
pub proof fn law_every_character_is_folded(s: Seq<char>)
    ensures
        fold_all(s) == s.flat_map(|c: char| lower_fold(c)),
    decreases s.len(),
{
    let f = |c: char| lower_fold(c);
    if s.len() > 0 {
        law_every_character_is_folded(s.drop_last());
        lemma_flat_map_last(s, f, s.len());
        assert(s.take(s.len() as int) =~= s);
        assert(s.take(s.len() - 1) =~= s.drop_last());
    }
}

proof fn lemma_fits_somewhere(h: Seq<char>, f: Seq<char>, from: int, k: int)
    requires
        0 <= from <= k,
        fits(h, f, k),
    ensures
        first_fit(h, f, from) is Some,
    decreases k - from,
{
    if from < k && !fits(h, f, from) {
        lemma_fits_somewhere(h, f, from + 1, k);
    }
}

/// What is found of a text in another, letter case aside, is the first place where it stands, and
/// nothing is found only where it stands nowhere.
pub proof fn law_the_first_occurrence_is_found(h: Seq<char>, f: Seq<char>, from: int)
    requires
        0 <= from,
    ensures
        match find_fold(h, f, from) {
            Some((s, k)) => from <= s < h.len() && 0 <= k && s + k <= h.len() && fold_all(
                h.subrange(s, s + k),
            ) == f && forall|t: int, j: int|
                from <= t < s && t <= j <= h.len() ==> fold_all(#[trigger] h.subrange(t, j)) != f,
            None => forall|t: int, j: int|
                from <= t < h.len() && t <= j <= h.len() ==> fold_all(#[trigger] h.subrange(t, j))
                    != f,
        },
    decreases h.len() - from,
{
    if from < h.len() {
        lemma_first_fit(h.skip(from), f, 0);
        match first_fit(h.skip(from), f, 0) {
            Some(k) => {
                assert(h.skip(from).take(k) =~= h.subrange(from, from + k));
            },
            None => {
                law_the_first_occurrence_is_found(h, f, from + 1);
                assert forall|j: int| from <= j <= h.len() implies fold_all(
                    #[trigger] h.subrange(from, j),
                ) != f by {
                    if fold_all(h.subrange(from, j)) == f {
                        assert(h.skip(from).take(j - from) =~= h.subrange(from, j));
                        lemma_fits_somewhere(h.skip(from), f, 0, j - from);
                    }
                }
            },
        }
    }
}

/// A text occurs in another exactly where some piece of that, letter case aside, is the text; an
/// empty one occurs nowhere.
pub proof fn law_a_needle_occurs_wherever_it_stands(h: Seq<char>, needle: Seq<char>)
    ensures
        occurs(h, needle) <==> needle.len() > 0 && exists|s: int, j: int|
            0 <= s < h.len() && s <= j <= h.len() && fold_all(#[trigger] h.subrange(s, j))
                == fold_all(needle),
{
    let f = fold_all(needle);
    law_the_first_occurrence_is_found(h, f, 0);
    if let Some((s, k)) = find_fold(h, f, 0) {
        assert(fold_all(h.subrange(s, s + k)) == f);
    }
}

/// A text through the lowercase mapping of each character.
fn fold_text(cs: &[char]) -> (r: Vec<char>)
    ensures
        r@ == fold_all(cs@),
        r@.len() >= cs@.len(),
{
    let mut out: Vec<char> = Vec::new();
    let mut i: usize = 0;
    while i < cs.len()
        invariant
            i <= cs.len(),
            out@ == fold_all(cs@.take(i as int)),
            out@.len() >= i,
        decreases cs.len() - i,
    {
        let mut more: Vec<char> = fold_char(char_at(cs, i));
        proof {
            lemma_fold_step(cs@, i as int);
        }
        out.append(&mut more);
        i += 1;
    }
    assert(cs@.take(i as int) =~= cs@);
    out
}

/// The least number of characters of `h` that fold to `f`.
fn starts_folded(h: &[char], f: &[char]) -> (r: Option<usize>)
    ensures
        match r {
            Some(k) => first_fit(h@, f@, 0) == Some(k as int) && k <= h.len(),
            None => first_fit(h@, f@, 0) is None,
        },
{
    let mut i: usize = 0;
    let mut j: usize = 0;
    assert(h@.take(0) =~= seq![]);
    assert(f@.take(0) =~= seq![]);
    loop
        invariant
            i <= h.len(),
            j <= f.len(),
            fold_all(h@.take(i as int)) == f@.take(j as int),
            first_fit(h@, f@, 0) == first_fit(h@, f@, i as int),
        decreases h.len() - i,
    {
        if j == f.len() {
            assert(f@.take(j as int) =~= f@);
            return Some(i);
        }
        assert(!fits(h@, f@, i as int)) by {
            assert(f@.take(j as int).len() < f@.len());
        }
        if i == h.len() {
            assert(first_fit(h@, f@, i + 1) is None);
            return None;
        }
        let g: Vec<char> = fold_char(char_at(h, i));
        proof {
            lemma_fold_step(h@, i as int);
        }
        let ghost next = fold_all(h@.take(i + 1));
        if g.len() > f.len() - j || !same_chars(slice_subrange(f, j, j + g.len()), g.as_slice()) {
            proof {
                assert(!next.is_prefix_of(f@)) by {
                    if next.is_prefix_of(f@) {
                        assert(next.len() == j + g@.len());
                        assert(f@.subrange(j as int, j + g@.len()) =~= g@) by {
                            assert forall|x: int| 0 <= x < g@.len() implies f@[j + x] == g@[x] by {
                                assert(next[j + x] == g@[x]);
                                assert(f@.subrange(0, next.len() as int)[j + x] == next[j + x]);
                            }
                        }
                    }
                }
                lemma_no_fit(h@, f@, i + 1, i + 1);
            }
            return None;
        }
        assert(next =~= f@.take(j + g@.len()));
        j = j + g.len();
        i += 1;
    }
}

/// The first place at or after `from` where `h` folds to `f`, and over how many characters.
fn find_folded(h: &[char], f: &[char], from: usize) -> (r: Option<(usize, usize)>)
    requires
        from <= h.len(),
    ensures
        match r {
            Some(p) => find_fold(h@, f@, from as int) == Some((p.0 as int, p.1 as int)) && from <= p.0
                && p.0 + p.1 <= h.len() && (f@.len() > 0 ==> p.1 > 0),
            None => find_fold(h@, f@, from as int) is None,
        },
{
    let mut s: usize = from;
    while s < h.len()
        invariant
            from <= s <= h.len(),
            find_fold(h@, f@, from as int) == find_fold(h@, f@, s as int),
        decreases h.len() - s,
    {
        let rest: &[char] = slice_subrange(h, s, h.len());
        assert(rest@ =~= h@.skip(s as int));
        if let Some(k) = starts_folded(rest, f) {
            proof {
                lemma_first_fit(rest@, f@, 0);
                assert(rest@.take(0) =~= seq![]);
            }
            return Some((s, k));
        }
        s += 1;
    }
    None
}

/// Whether `needle` occurs in `h`, whatever the case.
pub fn is_found(h: &str, needle: &str) -> (r: bool)
    ensures
        r == occurs(h@, needle@),
{
    let h: Vec<char> = chars_of(h);
    let needle: Vec<char> = chars_of(needle);
    if needle.len() == 0 {
        return false;
    }
    let f: Vec<char> = fold_text(needle.as_slice());
    find_folded(h.as_slice(), f.as_slice(), 0).is_some()
}

// --- byte offsets ---------------------------------------------------------------------------

proof fn lemma_encode_step(s: Seq<char>, i: int)
    requires
        0 <= i < s.len(),
    ensures
        encode_utf8(s.take(i + 1)) == encode_utf8(s.take(i)) + encode_scalar(s[i] as u32),
    decreases i,
{
    if i == 0 {
        assert(s.take(1).drop_first() =~= seq![]);
        assert(s.take(0) =~= seq![]);
        assert(encode_utf8(s.take(1)) =~= encode_scalar(s[0] as u32) + encode_utf8(seq![]));
        assert(encode_utf8(s.take(1)) =~= encode_utf8(s.take(0)) + encode_scalar(s[0] as u32));
    } else {
        let t = s.drop_first();
        lemma_encode_step(t, i - 1);
        assert(s.take(i + 1).drop_first() =~= t.take(i));
        assert(s.take(i).drop_first() =~= t.take(i - 1));
        assert(encode_utf8(s.take(i + 1)) =~= encode_utf8(s.take(i)) + encode_scalar(s[i] as u32));
    }
}

proof fn lemma_encode_grows(s: Seq<char>, i: int, k: int)
    requires
        0 <= i <= k <= s.len(),
    ensures
        encode_utf8(s.take(i)).len() <= encode_utf8(s.take(k)).len(),
    decreases k,
{
    if i < k {
        lemma_encode_grows(s, i, k - 1);
        lemma_encode_step(s, k - 1);
    }
}

/// How many bytes the first `n` characters of `s` take.
fn byte_offset(s: &str, n: usize) -> (r: usize)
    requires
        n <= s@.len(),
    ensures
        r == encode_utf8(s@.take(n as int)).len(),
{
    let cs: Vec<char> = chars_of(s);
    let total: usize = s.as_bytes().len();
    assert(s@.take(s@.len() as int) =~= s@);
    let mut out: usize = 0;
    let mut i: usize = 0;
    while i < n
        invariant
            i <= n,
            n <= cs.len(),
            cs@ == s@,
            total == encode_utf8(s@).len(),
            s@.take(s@.len() as int) == s@,
            out == encode_utf8(s@.take(i as int)).len(),
        decreases n - i,
    {
        let c: u32 = code_of(char_at(cs.as_slice(), i));
        let width: usize = if c <= 0x7f {
            1
        } else if c <= 0x7ff {
            2
        } else if c <= 0xffff {
            3
        } else {
            4
        };
        proof {
            lemma_encode_step(s@, i as int);
            lemma_encode_grows(s@, i + 1, s@.len() as int);
            vstd::utf8::char_is_scalar(cs@[i as int]);
            assert(encode_scalar(s@[i as int] as u32).len() == width);
        }
        out = out + width;
        i += 1;
    }
    out
}

/// The first occurrence of `needle` in `haystack`, whatever the case, as byte offset and byte
/// length; the length is that of the spelling in the haystack.
pub fn find_ci(haystack: &str, needle: &str) -> (r: Option<(usize, usize)>)
    ensures
        match occurrence(haystack@, needle@) {
            Some((s, k)) => r matches Some(p) && p.0 == encode_utf8(haystack@.take(s)).len() && p.0
                + p.1 == encode_utf8(haystack@.take(s + k)).len(),
            None => r is None,
        },
{
    let h: Vec<char> = chars_of(haystack);
    let n: Vec<char> = chars_of(needle);
    if n.len() == 0 {
        return None;
    }
    let f: Vec<char> = fold_text(n.as_slice());
    match find_folded(h.as_slice(), f.as_slice(), 0) {
        Some((s, k)) => {
            proof {
                lemma_encode_grows(haystack@, s as int, s + k);
            }
            let start: usize = byte_offset(haystack, s);
            let end: usize = byte_offset(haystack, s + k);
            Some((start, end - start))
        },
        None => None,
    }
}

// --- highlighting ---------------------------------------------------------------------------

/// What opens the block that a match glows in: black on red.
pub const GLOW_OPEN: &'static str = "\u{1b}[30;41m";

/// What closes the block that a match glows in.
pub const GLOW_CLOSE: &'static str = "\u{1b}[0m";

/// A text in the colours of a match.
pub open spec fn glow(s: Seq<char>) -> Seq<char> {
    GLOW_OPEN@ + s + GLOW_CLOSE@
}

/// A text in the colours of a match.
pub fn glowing(s: &str) -> (r: String)
    ensures
        r@ == glow(s@),
{
    let mut out: String = GLOW_OPEN.to_owned();
    out.append(s);
    out.append(GLOW_CLOSE);
    out
}

/// The occurrences of `f` in `h` from `from` on, each behind the one before.
pub open spec fn spans_from(h: Seq<char>, f: Seq<char>, from: int) -> Seq<(int, int)>
    decreases h.len() - from,
{
    match find_fold(h, f, from) {
        Some((s, k)) => if from <= s && k > 0 && s + k <= h.len() {
            seq![(s, k)] + spans_from(h, f, s + k)
        } else {
            seq![]
        },
        None => seq![],
    }
}

/// The occurrences of `needle` in `h`, whatever the case.
pub open spec fn spans(h: Seq<char>, needle: Seq<char>) -> Seq<(int, int)> {
    if needle.len() == 0 {
        seq![]
    } else {
        spans_from(h, fold_all(needle), 0)
    }
}

/// Whether position `i` lies in one of the spans.
pub open spec fn covered(ss: Seq<(int, int)>, i: int) -> bool {
    exists|j: int| 0 <= j < ss.len() && (#[trigger] ss[j]).0 <= i < ss[j].0 + ss[j].1
}

/// Each span is an occurrence behind the one before it, and wherever the text begins, the place
/// lies in a span.
pub proof fn law_every_occurrence_begins_in_a_span(h: Seq<char>, f: Seq<char>, from: int)
    requires
        0 <= from,
        f.len() > 0,
    ensures
        ({
            let ss = spans_from(h, f, from);
            &&& forall|i: int|
                0 <= i < ss.len() ==> from <= (#[trigger] ss[i]).0 && ss[i].1 > 0 && ss[i].0 + ss[i].1
                    <= h.len() && fold_all(h.subrange(ss[i].0, ss[i].0 + ss[i].1)) == f
            &&& forall|i: int, j: int|
                0 <= i < j < ss.len() ==> (#[trigger] ss[i]).0 + ss[i].1 <= (#[trigger] ss[j]).0
            &&& forall|t: int, j: int|
                from <= t < h.len() && t <= j <= h.len() && fold_all(#[trigger] h.subrange(t, j)) == f
                    ==> covered(ss, t)
        }),
    decreases h.len() - from,
{
    law_the_first_occurrence_is_found(h, f, from);
    let ss = spans_from(h, f, from);
    match find_fold(h, f, from) {
        Some((s, k)) => {
            if k == 0 {
                assert(h.subrange(s, s + k) =~= seq![]);
                assert(fold_all(seq![]) =~= seq![]);
            }
            law_every_occurrence_begins_in_a_span(h, f, s + k);
            let rest = spans_from(h, f, s + k);
            assert(ss == seq![(s, k)] + rest);
            assert forall|i: int| 0 <= i < ss.len() implies from <= (#[trigger] ss[i]).0 && ss[i].1 > 0
                && ss[i].0 + ss[i].1 <= h.len() && fold_all(h.subrange(ss[i].0, ss[i].0 + ss[i].1))
                == f by {
                if i > 0 {
                    assert(ss[i] == rest[i - 1]);
                }
            }
            assert forall|i: int, j: int| 0 <= i < j < ss.len() implies (#[trigger] ss[i]).0 + ss[i].1
                <= (#[trigger] ss[j]).0 by {
                assert(ss[j] == rest[j - 1]);
                if i > 0 {
                    assert(ss[i] == rest[i - 1]);
                }
            }
            assert forall|t: int, j: int|
                from <= t < h.len() && t <= j <= h.len() && fold_all(#[trigger] h.subrange(t, j))
                    == f implies covered(ss, t) by {
                if t < s + k {
                    assert(ss[0] == (s, k));
                } else {
                    assert(covered(rest, t));
                    let i = choose|i: int|
                        0 <= i < rest.len() && (#[trigger] rest[i]).0 <= t < rest[i].0 + rest[i].1;
                    assert(ss[i + 1] == rest[i]);
                }
            }
        },
        None => {},
    }
}

/// Whether one of the first `n` needles occurs across position `i`.
pub open spec fn lit(h: Seq<char>, needles: Seq<Seq<char>>, n: nat, i: int) -> bool
    decreases n,
{
    n > 0 && (covered(spans(h, needles[n - 1]), i) || lit(h, needles, (n - 1) as nat, i))
}

/// A place glows exactly where it lies in an occurrence of one of the needles, whichever it is.
pub proof fn law_every_needle_glows(h: Seq<char>, needles: Seq<Seq<char>>, n: nat, i: int)
    requires
        n <= needles.len(),
    ensures
        lit(h, needles, n, i) <==> exists|m: int|
            0 <= m < n && covered(spans(h, #[trigger] needles[m]), i),
    decreases n,
{
    if n > 0 {
        law_every_needle_glows(h, needles, (n - 1) as nat, i);
        if covered(spans(h, needles[n - 1]), i) {
            assert(lit(h, needles, n, i));
        }
        if lit(h, needles, (n - 1) as nat, i) {
            let m = choose|m: int| 0 <= m < n - 1 && covered(spans(h, #[trigger] needles[m]), i);
            assert(covered(spans(h, needles[m]), i));
        }
    }
}

/// For each position of `h`, whether a needle occurs across it.
pub open spec fn lights(h: Seq<char>, needles: Seq<Seq<char>>) -> Seq<bool> {
    Seq::new(h.len(), |i: int| lit(h, needles, needles.len(), i))
}

/// Every place of a text that lies in an occurrence of any needle glows, and no other does.
pub proof fn law_what_glows(h: Seq<char>, needles: Seq<Seq<char>>, i: int)
    requires
        0 <= i < h.len(),
    ensures
        lights(h, needles).len() == h.len(),
        lights(h, needles)[i] <==> exists|m: int|
            0 <= m < needles.len() && (#[trigger] needles[m]).len() > 0 && covered(
                spans_from(h, fold_all(needles[m]), 0),
                i,
            ),
{
    law_every_needle_glows(h, needles, needles.len(), i);
    if lit(h, needles, needles.len(), i) {
        let m = choose|m: int| 0 <= m < needles.len() && covered(spans(h, #[trigger] needles[m]), i);
        assert(needles[m].len() > 0);
        assert(covered(spans_from(h, fold_all(needles[m]), 0), i));
    }
    if exists|m: int|
        0 <= m < needles.len() && (#[trigger] needles[m]).len() > 0 && covered(
            spans_from(h, fold_all(needles[m]), 0),
            i,
        ) {
        let m = choose|m: int|
            0 <= m < needles.len() && (#[trigger] needles[m]).len() > 0 && covered(
                spans_from(h, fold_all(needles[m]), 0),
                i,
            );
        assert(covered(spans(h, needles[m]), i));
    }
}

/// The first position at or after `from` that is not lit.
pub open spec fn lit_end(ls: Seq<bool>, from: int) -> int
    decreases ls.len() - from,
{
    if from >= ls.len() || !ls[from] {
        from
    } else {
        lit_end(ls, from + 1)
    }
}

/// A lit stretch runs on over every lit place and ends before the first that is not.
pub proof fn law_a_lit_stretch_runs_on(ls: Seq<bool>, from: int)
    requires
        0 <= from <= ls.len(),
    ensures
        from <= lit_end(ls, from) <= ls.len(),
        forall|i: int| from <= i < lit_end(ls, from) ==> #[trigger] ls[i],
        lit_end(ls, from) < ls.len() ==> !ls[lit_end(ls, from)],
    decreases ls.len() - from,
{
    if from < ls.len() && ls[from] {
        law_a_lit_stretch_runs_on(ls, from + 1);
    }
}

proof fn lemma_lit_end(ls: Seq<bool>, from: int)
    requires
        0 <= from <= ls.len(),
    ensures
        from <= lit_end(ls, from) <= ls.len(),
        from < ls.len() && ls[from] ==> from < lit_end(ls, from),
    decreases ls.len() - from,
{
    if from < ls.len() && ls[from] {
        lemma_lit_end(ls, from + 1);
    }
}

/// `h` from `from` on, with each maximal run of lit characters in one glowing block.
pub open spec fn glow_from(h: Seq<char>, ls: Seq<bool>, from: int) -> Seq<char>
    decreases h.len() - from,
    via glow_from_decreases
{
    if from >= h.len() || from < 0 || ls.len() != h.len() {
        seq![]
    } else if ls[from] {
        glow(h.subrange(from, lit_end(ls, from))) + glow_from(h, ls, lit_end(ls, from))
    } else {
        seq![h[from]] + glow_from(h, ls, from + 1)
    }
}

#[via_fn]
proof fn glow_from_decreases(h: Seq<char>, ls: Seq<bool>, from: int) {
    if !(from >= h.len() || from < 0 || ls.len() != h.len()) {
        lemma_lit_end(ls, from);
    }
}

proof fn lemma_lit_run(ls: Seq<bool>, from: int, end: int)
    requires
        0 <= from <= end <= ls.len(),
        forall|i: int| from <= i < end ==> #[trigger] ls[i],
        end < ls.len() ==> !ls[end],
    ensures
        lit_end(ls, from) == end,
    decreases end - from,
{
    if from < end {
        assert(ls[from]);
        lemma_lit_run(ls, from + 1, end);
    }
}

/// Every character of a text is there: a whole run of lit ones stands, as it is, in one block of
/// black on red, and one that is not lit stands as it is.
pub proof fn law_glowing_keeps_every_character(h: Seq<char>, ls: Seq<bool>, from: int, end: int)
    requires
        h.len() == ls.len(),
        0 <= from < end <= h.len(),
        forall|i: int| from <= i < end ==> #[trigger] ls[i],
        end < ls.len() ==> !ls[end],
    ensures
        glow_from(h, ls, from) == "\u{1b}[30;41m"@ + h.subrange(from, end) + "\u{1b}[0m"@ + glow_from(
            h,
            ls,
            end,
        ),
        end < h.len() ==> glow_from(h, ls, end) == seq![h[end]] + glow_from(h, ls, end + 1),
        glow_from(h, ls, h.len() as int) == Seq::<char>::empty(),
{
    lemma_lit_run(ls, from, end);
    assert(ls[from]);
}

/// A text with every occurrence of every needle glowing: overlapping and touching occurrences
/// share one block.
pub open spec fn highlighted(h: Seq<char>, needles: Seq<Seq<char>>) -> Seq<char> {
    glow_from(h, lights(h, needles), 0)
}

/// Light the characters from `s` up to `s + k`.
fn light(flags: &mut Vec<bool>, s: usize, k: usize)
    requires
        s + k <= old(flags).len(),
    ensures
        final(flags).len() == old(flags).len(),
        forall|i: int|
            0 <= i < old(flags).len() ==> #[trigger] final(flags)@[i] == (old(flags)@[i] || (s <= i < s
                + k)),
{
    let mut j: usize = s;
    while j < s + k
        invariant
            s <= j <= s + k,
            s + k <= flags.len(),
            flags.len() == old(flags).len(),
            forall|i: int|
                0 <= i < old(flags).len() ==> #[trigger] flags@[i] == (old(flags)@[i] || (s <= i < j)),
        decreases s + k - j,
    {
        flags.set(j, true);
        j += 1;
    }
}

proof fn lemma_covered_front(a: (int, int), b: Seq<(int, int)>, i: int)
    ensures
        covered(seq![a] + b, i) <==> (a.0 <= i < a.0 + a.1) || covered(b, i),
{
    let all = seq![a] + b;
    if covered(all, i) {
        let j = choose|j: int| 0 <= j < all.len() && (#[trigger] all[j]).0 <= i < all[j].0 + all[j].1;
        if j > 0 {
            assert(all[j] == b[j - 1]);
        }
    }
    if a.0 <= i < a.0 + a.1 {
        assert(all[0] == a);
    }
    if covered(b, i) {
        let j = choose|j: int| 0 <= j < b.len() && (#[trigger] b[j]).0 <= i < b[j].0 + b[j].1;
        assert(all[j + 1] == b[j]);
    }
}

/// Whether position `i` is lit, or will be by the spans still to come.
spec fn done(flag: bool, ss: Seq<(int, int)>, i: int) -> bool {
    flag || covered(ss, i)
}

/// Light every occurrence of a needle.
fn light_needle(flags: &mut Vec<bool>, h: &[char], needle: &str)
    requires
        old(flags).len() == h.len(),
    ensures
        final(flags).len() == old(flags).len(),
        forall|i: int|
            0 <= i < old(flags).len() ==> #[trigger] final(flags)@[i] == (old(flags)@[i] || covered(
                spans(h@, needle@),
                i,
            )),
{
    let n: Vec<char> = chars_of(needle);
    if n.len() == 0 {
        return;
    }
    let f: Vec<char> = fold_text(n.as_slice());
    let mut from: usize = 0;
    loop
        invariant
            from <= h.len(),
            f@.len() > 0,
            flags.len() == h.len(),
            flags.len() == old(flags).len(),
            n@ == needle@,
            n@.len() > 0,
            f@ == fold_all(needle@),
            forall|i: int|
                0 <= i < flags.len() ==> done(
                    #[trigger] flags@[i],
                    spans_from(h@, f@, from as int),
                    i,
                ) == done(old(flags)@[i], spans(h@, needle@), i),
        decreases h.len() - from,
    {
        match find_folded(h, f.as_slice(), from) {
            Some((s, k)) => {
                let ghost before = flags@;
                let ghost start = spans_from(h@, f@, from as int);
                let ghost rest = spans_from(h@, f@, s + k);
                light(flags, s, k);
                proof {
                    assert(start == seq![(s as int, k as int)] + rest);
                    assert forall|i: int| 0 <= i < flags.len() implies done(
                        #[trigger] flags@[i],
                        rest,
                        i,
                    ) == done(old(flags)@[i], spans(h@, needle@), i) by {
                        lemma_covered_front((s as int, k as int), rest, i);
                        assert(flags@[i] == (before[i] || (s <= i < s + k)));
                        assert(done(before[i], start, i) == done(old(flags)@[i], spans(h@, needle@), i));
                        assert(covered(start, i) == ((s <= i < s + k) || covered(rest, i)));
                    }
                }
                from = s + k;
            },
            None => {
                return;
            },
        }
    }
}

/// Wrap every occurrence of any needle in the match colours. All the needles are located on the
/// plain text first, so that none can match inside the inserted colour codes.
pub fn highlight(text: &str, needles: &Vec<String>) -> (r: String)
    ensures
        r@ == highlighted(text@, needles.deep_view()),
{
    let h: Vec<char> = chars_of(text);
    let mut flags: Vec<bool> = Vec::new();
    while flags.len() < h.len()
        invariant
            flags.len() <= h.len(),
            forall|i: int| 0 <= i < flags.len() ==> !(#[trigger] flags@[i]),
        decreases h.len() - flags.len(),
    {
        flags.push(false);
    }
    let mut m: usize = 0;
    while m < needles.len()
        invariant
            m <= needles.len(),
            flags.len() == h.len(),
            h@ == text@,
            forall|i: int|
                0 <= i < flags.len() ==> #[trigger] flags@[i] == lit(
                    text@,
                    needles.deep_view(),
                    m as nat,
                    i,
                ),
        decreases needles.len() - m,
    {
        assert(needles.deep_view()[m as int] == needles@[m as int]@);
        light_needle(&mut flags, h.as_slice(), needles[m].as_str());
        m += 1;
    }
    assert(needles.deep_view().len() == needles@.len());
    assert(flags@ =~= lights(text@, needles.deep_view()));
    let mut out: String = String::new();
    let mut i: usize = 0;
    assert(out@ + highlighted(text@, needles.deep_view()) =~= highlighted(
        text@,
        needles.deep_view(),
    ));
    while i < h.len()
        invariant
            i <= h.len(),
            flags.len() == h.len(),
            h@ == text@,
            out@ + glow_from(text@, flags@, i as int) == highlighted(text@, needles.deep_view()),
        decreases h.len() - i,
    {
        let ghost before = out@;
        if flags[i] {
            let mut e: usize = i;
            while e < h.len() && flags[e]
                invariant
                    i <= e <= h.len(),
                    flags.len() == h.len(),
                    lit_end(flags@, i as int) == lit_end(flags@, e as int),
                decreases h.len() - e,
            {
                e += 1;
            }
            proof {
                lemma_lit_end(flags@, i as int);
            }
            let block: String = string_of(slice_subrange(h.as_slice(), i, e));
            out.append(glowing(block.as_str()).as_str());
            assert(out@ + glow_from(text@, flags@, e as int) =~= before + glow_from(
                text@,
                flags@,
                i as int,
            ));
            i = e;
        } else {
            let c: char = char_at(h.as_slice(), i);
            out.push(c);
            assert(out@ + glow_from(text@, flags@, i + 1) =~= before + glow_from(
                text@,
                flags@,
                i as int,
            ));
            i += 1;
        }
    }
    assert(out@ + seq![] =~= out@);
    out
}

proof fn lemma_nothing_lit(h: Seq<char>, needles: Seq<Seq<char>>, n: nat, i: int)
    requires
        n <= needles.len(),
        forall|m: int| 0 <= m < needles.len() ==> !occurs(h, #[trigger] needles[m]),
    ensures
        !lit(h, needles, n, i),
    decreases n,
{
    if n > 0 {
        lemma_nothing_lit(h, needles, (n - 1) as nat, i);
        assert(!occurs(h, needles[n - 1]));
        assert(spans(h, needles[n - 1]).len() == 0);
    }
}

proof fn lemma_glow_nothing(h: Seq<char>, ls: Seq<bool>, from: int)
    requires
        0 <= from <= h.len(),
        ls.len() == h.len(),
        forall|i: int| 0 <= i < ls.len() ==> !(#[trigger] ls[i]),
    ensures
        glow_from(h, ls, from) == h.skip(from),
    decreases h.len() - from,
{
    if from < h.len() {
        assert(!ls[from]);
        lemma_glow_nothing(h, ls, from + 1);
        assert(seq![h[from]] + h.skip(from + 1) =~= h.skip(from));
    } else {
        assert(h.skip(from) =~= seq![]);
    }
}

/// A text in which no needle occurs is left as it is.
pub proof fn law_untouched_where_nothing_occurs(h: Seq<char>, needles: Seq<Seq<char>>)
    requires
        forall|m: int| 0 <= m < needles.len() ==> !occurs(h, #[trigger] needles[m]),
    ensures
        highlighted(h, needles) == h,
{
    let ls = lights(h, needles);
    assert forall|i: int| 0 <= i < ls.len() implies !(#[trigger] ls[i]) by {
        lemma_nothing_lit(h, needles, needles.len(), i);
    }
    lemma_glow_nothing(h, ls, 0);
    assert(h.skip(0) =~= h);
}

// --- windows --------------------------------------------------------------------------------

/// A window on the screen: its number, the process that owns it, its title.
pub struct Window {
    pub id: u32,
    pub pid: u32,
    pub title: String,
}

/// A window of a process: its number and its title.
pub struct OwnedWindow {
    pub id: u32,
    pub title: String,
}

/// The matched windows of one process.
pub struct OwnedWindows {
    pub pid: u32,
    pub windows: Vec<OwnedWindow>,
}

/// A window of a process, by what it says.
pub struct OwnedWindowView {
    pub id: int,
    pub title: Seq<char>,
}

/// The matched windows of one process, by what they say.
pub struct OwnedWindowsView {
    pub pid: int,
    pub windows: Seq<OwnedWindowView>,
}

impl View for OwnedWindow {
    type V = OwnedWindowView;

    open spec fn view(&self) -> OwnedWindowView {
        OwnedWindowView { id: self.id as int, title: self.title@ }
    }
}

impl DeepView for OwnedWindow {
    type V = OwnedWindowView;

    open spec fn deep_view(&self) -> OwnedWindowView {
        self@
    }
}

impl View for OwnedWindows {
    type V = OwnedWindowsView;

    open spec fn view(&self) -> OwnedWindowsView {
        OwnedWindowsView { pid: self.pid as int, windows: self.windows.deep_view() }
    }
}

impl DeepView for OwnedWindows {
    type V = OwnedWindowsView;

    open spec fn deep_view(&self) -> OwnedWindowsView {
        self@
    }
}

/// Where the process `pid` belongs in a list in order of PID.
pub open spec fn owner_place(list: Seq<OwnedWindowsView>, pid: int, from: int) -> int
    decreases list.len() - from,
{
    if from >= list.len() || list[from].pid >= pid {
        from
    } else {
        owner_place(list, pid, from + 1)
    }
}

/// A list in order of PID with one window more, behind the other windows of its process.
pub open spec fn with_window(
    list: Seq<OwnedWindowsView>,
    pid: int,
    window: OwnedWindowView,
) -> Seq<OwnedWindowsView> {
    let p = owner_place(list, pid, 0);
    if p < list.len() && list[p].pid == pid {
        list.update(p, OwnedWindowsView { pid, windows: list[p].windows.push(window) })
    } else {
        list.insert(p, OwnedWindowsView { pid, windows: seq![window] })
    }
}

/// Of the first `n` windows those whose title holds `needle`, by owning process.
pub open spec fn owned_by(windows: Seq<Window>, needle: Seq<char>, n: nat) -> Seq<OwnedWindowsView>
    decreases n,
{
    if n == 0 {
        seq![]
    } else {
        let before = owned_by(windows, needle, (n - 1) as nat);
        let w = windows[n - 1];
        if occurs(w.title@, needle) {
            with_window(
                before,
                w.pid as int,
                OwnedWindowView { id: w.id as int, title: w.title@ },
            )
        } else {
            before
        }
    }
}

proof fn lemma_owner_place(list: Seq<OwnedWindowsView>, pid: int, from: int)
    requires
        0 <= from <= list.len(),
    ensures
        from <= owner_place(list, pid, from) <= list.len(),
        forall|i: int| from <= i < owner_place(list, pid, from) ==> (#[trigger] list[i]).pid < pid,
        owner_place(list, pid, from) < list.len() ==> list[owner_place(list, pid, from)].pid >= pid,
    decreases list.len() - from,
{
    if from < list.len() && list[from].pid < pid {
        lemma_owner_place(list, pid, from + 1);
    }
}

/// The windows of a process are all those that belong to it and whose title holds the needle, in
/// order; the processes are listed each once and in order, and only where they have one.
#[verifier::spinoff_prover]
#[verifier::rlimit(60)]
pub proof fn law_every_window_goes_to_its_process(
    windows: Seq<Window>,
    needle: Seq<char>,
    n: nat,
    pid: int,
)
    requires
        n <= windows.len(),
    ensures
        ({
            let owned = owned_by(windows, needle, n);
            let own = windows.take(n as int).filter_map(
                |w: Window|
                    if w.pid as int == pid && occurs(w.title@, needle) {
                        Some(OwnedWindowView { id: w.id as int, title: w.title@ })
                    } else {
                        None
                    },
            );
            &&& forall|i: int, j: int|
                0 <= i < j < owned.len() ==> (#[trigger] owned[i]).pid < (#[trigger] owned[j]).pid
            &&& forall|i: int|
                0 <= i < owned.len() && (#[trigger] owned[i]).pid == pid ==> owned[i].windows == own
            &&& own.len() > 0 <==> exists|i: int|
                0 <= i < owned.len() && (#[trigger] owned[i]).pid == pid
        }),
    decreases n,
{
    if n > 0 {
        law_every_window_goes_to_its_process(windows, needle, (n - 1) as nat, pid);
        lemma_filter_map_last(
            windows,
            |w: Window|
                if w.pid as int == pid && occurs(w.title@, needle) {
                    Some(OwnedWindowView { id: w.id as int, title: w.title@ })
                } else {
                    None
                },
            n,
        );
        let before = owned_by(windows, needle, (n - 1) as nat);
        let owned = owned_by(windows, needle, n);
        let w = windows[n - 1];
        let q = w.pid as int;
        if occurs(w.title@, needle) {
            lemma_owner_place(before, q, 0);
            let p = owner_place(before, q, 0);
            if p < before.len() && before[p].pid == q {
                assert(owned[p].pid == q);
                assert forall|i: int| 0 <= i < owned.len() && i != p implies owned[i] == before[i] by {}
                if exists|i: int| 0 <= i < before.len() && (#[trigger] before[i]).pid == pid {
                    let i = choose|i: int| 0 <= i < before.len() && (#[trigger] before[i]).pid == pid;
                    assert(owned[i].pid == pid);
                }
                if exists|i: int| 0 <= i < owned.len() && (#[trigger] owned[i]).pid == pid {
                    let i = choose|i: int| 0 <= i < owned.len() && (#[trigger] owned[i]).pid == pid;
                    assert(before[i].pid == pid);
                }
            } else {
                assert(owned[p].pid == q);
                assert forall|i: int| 0 <= i < before.len() implies #[trigger] before[i] == owned[
                if i < p {
                    i
                } else {
                    i + 1
                }] by {}
                assert forall|i: int| p <= i < before.len() implies (#[trigger] before[i]).pid > q by {}
                if exists|i: int| 0 <= i < before.len() && (#[trigger] before[i]).pid == pid {
                    let i = choose|i: int| 0 <= i < before.len() && (#[trigger] before[i]).pid == pid;
                    assert(owned[if i < p {
                        i
                    } else {
                        i + 1
                    }].pid == pid);
                }
                if q != pid && exists|i: int| 0 <= i < owned.len() && (#[trigger] owned[i]).pid == pid {
                    let i = choose|i: int| 0 <= i < owned.len() && (#[trigger] owned[i]).pid == pid;
                    assert(before[if i < p {
                        i
                    } else {
                        i - 1
                    }].pid == pid);
                }
                assert forall|i: int, j: int| 0 <= i < j < owned.len() implies (#[trigger] owned[i]).pid
                    < (#[trigger] owned[j]).pid by {
                    let a = if i < p {
                        i
                    } else {
                        i - 1
                    };
                    let b = if j < p {
                        j
                    } else {
                        j - 1
                    };
                    if i != p {
                        assert(owned[i] == before[a]);
                    }
                    if j != p {
                        assert(owned[j] == before[b]);
                    }
                }
                assert forall|i: int|
                    0 <= i < owned.len() && (#[trigger] owned[i]).pid == pid implies owned[i].windows
                    == windows.take(n as int).filter_map(
                    |w: Window|
                        if w.pid as int == pid && occurs(w.title@, needle) {
                            Some(OwnedWindowView { id: w.id as int, title: w.title@ })
                        } else {
                            None
                        },
                ) by {
                    if i != p {
                        let a = if i < p {
                            i
                        } else {
                            i - 1
                        };
                        assert(owned[i] == before[a]);
                    } else {
                        assert(!exists|i: int| 0 <= i < before.len() && (#[trigger] before[i]).pid == pid);
                        assert(owned[i].windows =~= seq![].push(
                            OwnedWindowView { id: w.id as int, title: w.title@ },
                        ));
                    }
                }
            }
        }
    }
}

/// Add a window to a list in order of PID.
fn add_window(list: &mut Vec<OwnedWindows>, pid: u32, window: OwnedWindow)
    ensures
        final(list).deep_view() == with_window(old(list).deep_view(), pid as int, window@),
{
    let ghost before = list.deep_view();
    let ghost wv = window@;
    let mut p: usize = 0;
    while p < list.len() && list[p].pid < pid
        invariant
            p <= list.len(),
            list.deep_view() == before,
            owner_place(before, pid as int, 0) == owner_place(before, pid as int, p as int),
        decreases list.len() - p,
    {
        assert(list.deep_view()[p as int] == list@[p as int]@);
        p += 1;
    }
    proof {
        if p < list@.len() {
            assert(list.deep_view()[p as int] == list@[p as int]@);
        }
    }
    if p < list.len() && list[p].pid == pid {
        let mut entry: OwnedWindows = list.remove(p);
        let ghost had = entry.windows.deep_view();
        entry.windows.push(window);
        assert(entry.windows.deep_view() =~= had.push(wv));
        let ghost ev = entry@;
        list.insert(p, entry);
        assert(list.deep_view() =~= before.update(
            p as int,
            OwnedWindowsView { pid: pid as int, windows: before[p as int].windows.push(wv) },
        ));
    } else {
        let mut windows: Vec<OwnedWindow> = Vec::new();
        windows.push(window);
        assert(windows.deep_view() =~= seq![wv]);
        list.insert(p, OwnedWindows { pid, windows });
        assert(list.deep_view() =~= before.insert(
            p as int,
            OwnedWindowsView { pid: pid as int, windows: seq![wv] },
        ));
    }
}

/// The windows whose title holds `needle`, whatever the case, by owning process.
pub fn owned_windows(windows: &Vec<Window>, needle: &str) -> (r: Vec<OwnedWindows>)
    ensures
        r.deep_view() == owned_by(windows@, needle@, windows@.len()),
{
    let mut owned: Vec<OwnedWindows> = Vec::new();
    let mut i: usize = 0;
    assert(owned.deep_view() =~= seq![]);
    while i < windows.len()
        invariant
            i <= windows.len(),
            owned.deep_view() == owned_by(windows@, needle@, i as nat),
        decreases windows.len() - i,
    {
        let w: &Window = &windows[i];
        if is_found(w.title.as_str(), needle) {
            add_window(&mut owned, w.pid, OwnedWindow { id: w.id, title: w.title.clone() });
        }
        i += 1;
    }
    owned
}

/// The position, from `k` on, of the windows of the process `pid`.
pub open spec fn owner_at(list: Seq<OwnedWindowsView>, pid: int, k: int) -> Option<int>
    decreases list.len() - k,
{
    if k >= list.len() {
        None
    } else if list[k].pid == pid {
        Some(k)
    } else {
        owner_at(list, pid, k + 1)
    }
}

/// The windows of a process are found where the process is listed, and not found only where it is
/// not.
pub proof fn law_a_listed_owner_is_found(list: Seq<OwnedWindowsView>, pid: int, k: int)
    requires
        0 <= k <= list.len(),
    ensures
        match owner_at(list, pid, k) {
            Some(i) => k <= i < list.len() && list[i].pid == pid,
            None => forall|i: int| k <= i < list.len() ==> (#[trigger] list[i]).pid != pid,
        },
    decreases list.len() - k,
{
    if k < list.len() && list[k].pid != pid {
        law_a_listed_owner_is_found(list, pid, k + 1);
    }
}

/// The position of the windows of the process `pid`.
pub fn find_owner(list: &Vec<OwnedWindows>, pid: u32) -> (r: Option<usize>)
    ensures
        match r {
            Some(k) => owner_at(list.deep_view(), pid as int, 0) == Some(k as int) && k < list.len(),
            None => owner_at(list.deep_view(), pid as int, 0) is None,
        },
{
    let mut k: usize = 0;
    while k < list.len()
        invariant
            k <= list.len(),
            owner_at(list.deep_view(), pid as int, 0) == owner_at(list.deep_view(), pid as int, k as int),
        decreases list.len() - k,
    {
        assert(list.deep_view()[k as int] == list@[k as int]@);
        if list[k].pid == pid {
            return Some(k);
        }
        k += 1;
    }
    assert(list.deep_view().len() == list@.len());
    None
}

// --- matching -------------------------------------------------------------------------------

/// The fields of a process that a pattern is found in. A PID is matched whole, everything else
/// in part. The command line of this command's own ancestry holds the patterns themselves, so it
/// is not searched.
pub open spec fn pattern_fields(p: ProcessView, pattern: Seq<char>) -> Seq<Field> {
    let by_pid = if parse_decimal(pattern, u32::MAX as nat) == Some(p.pid as nat) {
        seq![Field::Pid]
    } else {
        seq![]
    };
    let by_name = if occurs(p.name, pattern) {
        seq![Field::Name]
    } else {
        seq![]
    };
    let by_cmdline = if !p.protected && occurs(p.cmdline, pattern) {
        seq![Field::Cmdline]
    } else {
        seq![]
    };
    let by_exe = if p.exe matches Some(exe) && occurs(exe, pattern) {
        seq![Field::Exe]
    } else {
        seq![]
    };
    by_pid + by_name + by_cmdline + by_exe
}

/// A pattern is found by the whole PID, and in any part of the name, of the path of the program,
/// and of the command line, but for that of this shell's own ancestry.
pub proof fn law_where_a_pattern_is_found(p: ProcessView, pattern: Seq<char>)
    ensures
        pattern_fields(p, pattern).contains(Field::Pid) <==> parse_decimal(
            pattern,
            u32::MAX as nat,
        ) == Some(p.pid as nat),
        pattern_fields(p, pattern).contains(Field::Name) <==> occurs(p.name, pattern),
        pattern_fields(p, pattern).contains(Field::Cmdline) <==> !p.protected && occurs(
            p.cmdline,
            pattern,
        ),
        pattern_fields(p, pattern).contains(Field::Exe) <==> p.exe is Some && occurs(
            p.exe->0,
            pattern,
        ),
{
    let by_pid = if parse_decimal(pattern, u32::MAX as nat) == Some(p.pid as nat) {
        seq![Field::Pid]
    } else {
        seq![]
    };
    let by_name = if occurs(p.name, pattern) {
        seq![Field::Name]
    } else {
        seq![]
    };
    let by_cmdline = if !p.protected && occurs(p.cmdline, pattern) {
        seq![Field::Cmdline]
    } else {
        seq![]
    };
    let by_exe = if p.exe is Some && occurs(p.exe->0, pattern) {
        seq![Field::Exe]
    } else {
        seq![]
    };
    let all = pattern_fields(p, pattern);
    assert(all =~= by_pid + by_name + by_cmdline + by_exe);
    let a = by_pid.len();
    let b = a + by_name.len();
    let c = b + by_cmdline.len();
    if by_pid.len() > 0 {
        assert(all[0] == Field::Pid);
    }
    if by_name.len() > 0 {
        assert(all[a as int] == Field::Name);
    }
    if by_cmdline.len() > 0 {
        assert(all[b as int] == Field::Cmdline);
    }
    if by_exe.len() > 0 {
        assert(all[c as int] == Field::Exe);
    }
}

/// The fields that the first `n` patterns are found in, pattern by pattern.
pub open spec fn all_fields(p: ProcessView, patterns: Seq<Seq<char>>, n: nat) -> Seq<Field>
    decreases n,
{
    if n == 0 {
        seq![]
    } else {
        all_fields(p, patterns, (n - 1) as nat) + pattern_fields(p, patterns[n - 1])
    }
}

/// Every pattern is looked for in every field, pattern by pattern.
pub proof fn law_every_pattern_is_looked_for(p: ProcessView, patterns: Seq<Seq<char>>, n: nat)
    requires
        n <= patterns.len(),
    ensures
        all_fields(p, patterns, n) == patterns.take(n as int).flat_map(
            |pattern: Seq<char>| pattern_fields(p, pattern),
        ),
    decreases n,
{
    if n > 0 {
        law_every_pattern_is_looked_for(p, patterns, (n - 1) as nat);
        lemma_flat_map_last(
            patterns,
            |pattern: Seq<char>| pattern_fields(p, pattern),
            n,
        );
    }
}

/// Whether every pattern is found somewhere.
pub open spec fn every_pattern_hits(p: ProcessView, patterns: Seq<Seq<char>>) -> bool {
    forall|i: int|
        0 <= i < patterns.len() ==> pattern_fields(p, #[trigger] patterns[i]).len() > 0
}

/// The first `n` fields, each only where it comes first.
pub open spec fn each_once(fields: Seq<Field>, n: nat) -> Seq<Field>
    decreases n,
{
    if n == 0 {
        seq![]
    } else {
        let before = each_once(fields, (n - 1) as nat);
        if before.contains(fields[n - 1]) {
            before
        } else {
            before.push(fields[n - 1])
        }
    }
}

/// Each field stands once, and every field that was found does.
pub proof fn law_every_field_stands_once(fields: Seq<Field>, n: nat)
    requires
        n <= fields.len(),
    ensures
        each_once(fields, n).no_duplicates(),
        forall|i: int| 0 <= i < n ==> each_once(fields, n).contains(#[trigger] fields[i]),
        forall|j: int|
            0 <= j < each_once(fields, n).len() ==> fields.contains(#[trigger] each_once(fields, n)[j]),
    decreases n,
{
    if n > 0 {
        law_every_field_stands_once(fields, (n - 1) as nat);
        let before = each_once(fields, (n - 1) as nat);
        let all = each_once(fields, n);
        assert forall|i: int| 0 <= i < n implies all.contains(#[trigger] fields[i]) by {
            if i < n - 1 {
                assert(before.contains(fields[i]));
                let k = choose|k: int| 0 <= k < before.len() && before[k] == fields[i];
                assert(all[k] == fields[i]);
            } else if !before.contains(fields[i]) {
                assert(all.last() == fields[i]);
            }
        }
    }
}

/// The titles of windows.
pub open spec fn titles(windows: Seq<OwnedWindowView>) -> Seq<Seq<char>> {
    windows.map_values(|w: OwnedWindowView| w.title)
}

/// A process once the window hunt has marked it: with the titles of its matched windows.
pub open spec fn window_marked(p: ProcessView, windows: Seq<OwnedWindowView>) -> ProcessView {
    ProcessView {
        window: Some(join(titles(windows), "; "@)),
        matched: p.matched.push(Field::Window),
        ..p
    }
}

/// A process once the patterns have marked it: every pattern must be found somewhere, or nothing
/// is marked at all.
pub open spec fn pattern_marked(p: ProcessView, patterns: Seq<Seq<char>>) -> ProcessView {
    let fields = p.matched + all_fields(p, patterns, patterns.len());
    ProcessView {
        matched: if every_pattern_hits(p, patterns) {
            each_once(fields, fields.len())
        } else {
            seq![]
        },
        ..p
    }
}

/// A process once the hunt has marked it. With a window hunt, owning a matched window is one
/// more condition.
pub open spec fn marked(
    p: ProcessView,
    patterns: Seq<Seq<char>>,
    owned: Option<Seq<OwnedWindowsView>>,
) -> ProcessView {
    match owned {
        None => pattern_marked(p, patterns),
        Some(list) => match owner_at(list, p.pid, 0) {
            None => p,
            Some(k) => pattern_marked(window_marked(p, list[k].windows), patterns),
        },
    }
}

/// A process is found exactly where every pattern hits it, each by its whole PID or in part of its
/// name, its command line or its program's path; and, where windows are hunted, where it owns one.
pub proof fn law_a_process_is_found_by_every_pattern(
    p: ProcessView,
    patterns: Seq<Seq<char>>,
    owned: Option<Seq<OwnedWindowsView>>,
)
    requires
        p.matched.len() == 0,
        patterns.len() > 0 || owned is Some,
    ensures
        marked(p, patterns, owned).matched.len() > 0 <==> (forall|i: int|
            0 <= i < patterns.len() ==> (parse_decimal(#[trigger] patterns[i], u32::MAX as nat)
                == Some(p.pid as nat) || occurs(p.name, patterns[i]) || (!p.protected && occurs(
                p.cmdline,
                patterns[i],
            )) || (p.exe is Some && occurs(p.exe->0, patterns[i])))) && (owned matches Some(list)
            ==> exists|k: int| 0 <= k < list.len() && (#[trigger] list[k]).pid == p.pid),
{
    let start = match owned {
        None => p,
        Some(list) => match owner_at(list, p.pid, 0) {
            Some(k) => window_marked(p, list[k].windows),
            None => p,
        },
    };
    if let Some(list) = owned {
        law_a_listed_owner_is_found(list, p.pid, 0);
        if let Some(k) = owner_at(list, p.pid, 0) {
            assert(list[k].pid == p.pid);
        }
    }
    assert forall|i: int| 0 <= i < patterns.len() implies (pattern_fields(
        start,
        #[trigger] patterns[i],
    ).len() > 0 <==> (parse_decimal(patterns[i], u32::MAX as nat) == Some(p.pid as nat) || occurs(
        p.name,
        patterns[i],
    ) || (!p.protected && occurs(p.cmdline, patterns[i])) || (p.exe is Some && occurs(
        p.exe->0,
        patterns[i],
    )))) by {}
    let fields = start.matched + all_fields(start, patterns, patterns.len());
    if every_pattern_hits(start, patterns) {
        if patterns.len() > 0 {
            lemma_fields_grow(start, patterns, patterns.len());
        }
        if fields.len() > 0 {
            lemma_each_once_filled(fields, fields.len());
        }
    }
    if forall|i: int|
        0 <= i < patterns.len() ==> (parse_decimal(#[trigger] patterns[i], u32::MAX as nat) == Some(
            p.pid as nat,
        ) || occurs(p.name, patterns[i]) || (!p.protected && occurs(p.cmdline, patterns[i])) || (
        p.exe is Some && occurs(p.exe->0, patterns[i]))) {
        assert forall|i: int| 0 <= i < patterns.len() implies pattern_fields(
            start,
            #[trigger] patterns[i],
        ).len() > 0 by {}
    }
    if every_pattern_hits(start, patterns) {
        assert forall|i: int| 0 <= i < patterns.len() implies (parse_decimal(
            #[trigger] patterns[i],
            u32::MAX as nat,
        ) == Some(p.pid as nat) || occurs(p.name, patterns[i]) || (!p.protected && occurs(
            p.cmdline,
            patterns[i],
        )) || (p.exe is Some && occurs(p.exe->0, patterns[i]))) by {
            assert(pattern_fields(start, patterns[i]).len() > 0);
        }
    }
}

/// The fields of a process that a pattern is found in.
fn fields_of(p: &Process, pattern: &str) -> (r: Vec<Field>)
    ensures
        r@ == pattern_fields(p@, pattern@),
{
    let mut fields: Vec<Field> = Vec::new();
    let cs: Vec<char> = chars_of(pattern);
    let by_pid: bool = match parse_number(cs.as_slice(), u32::MAX as u64) {
        Some(n) => n == p.pid as u64,
        None => false,
    };
    if by_pid {
        fields.push(Field::Pid);
    }
    let by_name: bool = is_found(p.name.as_str(), pattern);
    if by_name {
        fields.push(Field::Name);
    }
    let by_cmdline: bool = !p.protected && is_found(p.cmdline.as_str(), pattern);
    if by_cmdline {
        fields.push(Field::Cmdline);
    }
    let by_exe: bool = match &p.exe {
        Some(exe) => is_found(exe.as_str(), pattern),
        None => false,
    };
    if by_exe {
        fields.push(Field::Exe);
    }
    assert(fields@ =~= pattern_fields(p@, pattern@));
    fields
}

/// Whether a list of fields holds one.
pub fn has_field(fields: &Vec<Field>, field: Field) -> (r: bool)
    ensures
        r == fields@.contains(field),
{
    let mut i: usize = 0;
    while i < fields.len()
        invariant
            i <= fields.len(),
            forall|j: int| 0 <= j < i ==> fields@[j] != field,
        decreases fields.len() - i,
    {
        if fields[i] == field {
            return true;
        }
        i += 1;
    }
    false
}

/// The fields, each only where it comes first.
fn once_each(fields: &Vec<Field>) -> (r: Vec<Field>)
    ensures
        r@ == each_once(fields@, fields@.len()),
{
    let mut out: Vec<Field> = Vec::new();
    let mut i: usize = 0;
    while i < fields.len()
        invariant
            i <= fields.len(),
            out@ == each_once(fields@, i as nat),
        decreases fields.len() - i,
    {
        if !has_field(&out, fields[i]) {
            out.push(fields[i]);
        }
        i += 1;
    }
    out
}

/// The titles of windows.
pub fn titles_of(windows: &Vec<OwnedWindow>) -> (r: Vec<String>)
    ensures
        r.deep_view() == titles(windows.deep_view()),
{
    let mut out: Vec<String> = Vec::new();
    let mut i: usize = 0;
    while i < windows.len()
        invariant
            i <= windows.len(),
            out.len() == i,
            forall|j: int| 0 <= j < i ==> (#[trigger] out@[j])@ == windows@[j].title@,
        decreases windows.len() - i,
    {
        out.push(windows[i].title.clone());
        i += 1;
    }
    assert(out.deep_view() =~= titles(windows.deep_view()));
    out
}

/// Record every field the patterns appear in, or nothing at all unless every pattern lands
/// somewhere: extra patterns narrow the hunt.
pub fn mark_matches(
    process: &mut Process,
    patterns: &Vec<String>,
    by_window: Option<&Vec<OwnedWindows>>,
)
    ensures
        final(process)@ == marked(
            old(process)@,
            patterns.deep_view(),
            match by_window {
                Some(owned) => Some(owned.deep_view()),
                None => None,
            },
        ),
{
    if let Some(owned) = by_window {
        match find_owner(owned, process.pid) {
            None => {
                return;
            },
            Some(k) => {
                assert(owned.deep_view()[k as int] == owned@[k as int]@);
                process.window = Some(joined(&titles_of(&owned[k].windows), "; "));
                process.matched.push(Field::Window);
                assert(process@ == window_marked(old(process)@, owned@[k as int]@.windows));
            },
        }
    }
    let ghost start = process@;
    let mut fields: Vec<Field> = Vec::new();
    let mut i: usize = 0;
    while i < patterns.len()
        invariant
            i <= patterns.len(),
            process@ == start,
            fields@ == all_fields(start, patterns.deep_view(), i as nat),
            forall|j: int|
                0 <= j < i ==> pattern_fields(start, #[trigger] patterns.deep_view()[j]).len() > 0,
            (match by_window {
                Some(owned) => owner_at(owned.deep_view(), old(process)@.pid, 0) matches Some(k)
                    && start == window_marked(old(process)@, owned.deep_view()[k].windows),
                None => start == old(process)@,
            }),
        decreases patterns.len() - i,
    {
        assert(patterns.deep_view()[i as int] == patterns@[i as int]@);
        let mut more: Vec<Field> = fields_of(process, patterns[i].as_str());
        if more.len() == 0 {
            process.matched.clear();
            assert(!every_pattern_hits(start, patterns.deep_view()));
            return;
        }
        fields.append(&mut more);
        i += 1;
    }
    assert(patterns.deep_view().len() == patterns@.len());
    process.matched.append(&mut fields);
    process.matched = once_each(&process.matched);
}

proof fn lemma_each_once_filled(fields: Seq<Field>, n: nat)
    requires
        0 < n <= fields.len(),
    ensures
        each_once(fields, n).len() > 0,
    decreases n,
{
    if n > 1 {
        lemma_each_once_filled(fields, (n - 1) as nat);
    } else {
        assert(each_once(fields, 0).len() == 0);
    }
}

proof fn lemma_fields_grow(p: ProcessView, patterns: Seq<Seq<char>>, n: nat)
    requires
        0 < n <= patterns.len(),
        every_pattern_hits(p, patterns),
    ensures
        all_fields(p, patterns, n).len() > 0,
{
    assert(pattern_fields(p, patterns[n - 1]).len() > 0);
}

/// Extra patterns narrow the hunt: a process that one more pattern still finds was found without
/// it.
pub proof fn law_extra_patterns_narrow(
    p: ProcessView,
    patterns: Seq<Seq<char>>,
    extra: Seq<char>,
    owned: Option<Seq<OwnedWindowsView>>,
)
    requires
        p.matched.len() == 0,
        patterns.len() > 0 || owned is Some,
        marked(p, patterns.push(extra), owned).matched.len() > 0,
    ensures
        marked(p, patterns, owned).matched.len() > 0,
{
    let more = patterns.push(extra);
    let start = match owned {
        None => p,
        Some(list) => match owner_at(list, p.pid, 0) {
            None => p,
            Some(k) => window_marked(p, list[k].windows),
        },
    };
    assert(every_pattern_hits(start, patterns)) by {
        assert forall|i: int| 0 <= i < patterns.len() implies pattern_fields(
            start,
            #[trigger] patterns[i],
        ).len() > 0 by {
            assert(more[i] == patterns[i]);
        }
    }
    let fields = start.matched + all_fields(start, patterns, patterns.len());
    if patterns.len() > 0 {
        lemma_fields_grow(start, patterns, patterns.len());
    }
    lemma_each_once_filled(fields, fields.len());
}

} // verus!
