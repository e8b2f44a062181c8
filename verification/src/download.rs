//! Download commands (`dl_*`): pulling files off the web.

pub mod cookies;

use vstd::prelude::*;
use vstd::slice::slice_subrange;
use vstd::string::*;
use crate::paths::{find_last, last_char};
use crate::sequences::lemma_parts_last;
use crate::text::{
    ascii_lower, begins_with, char_from, chars_of, contains, drop_leading, find_char, find_chars, find_from, finishes_with, holds,
    is_white, join, joined, lemma_char_from, lemma_find_from, lowercase, push_text, push_words,
    same_text, split_chars, split_on, string_of, to_ascii_lower, white, without_first,
};

verus! {

// --- resolving links ------------------------------------------------------------------------

/// The segments that remain of the first `n`: `.` and empty ones drop out, and `..` takes back the
/// one before it, but never the first.
pub open spec fn climbed(segments: Seq<Seq<char>>, n: nat) -> Seq<Seq<char>>
    decreases n,
{
    if n == 0 {
        seq![]
    } else {
        let stack = climbed(segments, (n - 1) as nat);
        let segment = segments[n - 1];
        if segment.len() == 0 || segment == "."@ {
            stack
        } else if segment == ".."@ {
            if stack.len() > 1 {
                stack.drop_last()
            } else {
                stack
            }
        } else {
            stack.push(segment)
        }
    }
}

/// A path of plain names is kept as it is; a step up takes back the name before it, but never the
/// first; and an empty step or a dot changes nothing.
pub proof fn law_a_step_up_takes_back_one_name(segments: Seq<Seq<char>>, n: nat)
    requires
        n < segments.len(),
    ensures
        (forall|i: int|
            0 <= i <= n ==> (#[trigger] segments[i]).len() > 0 && segments[i] != "."@ && segments[i]
                != ".."@) ==> climbed(segments, n + 1) == segments.take(n as int + 1),
        segments[n as int].len() == 0 || segments[n as int] == "."@ ==> climbed(segments, n + 1)
            == climbed(segments, n),
        segments[n as int] == ".."@ ==> climbed(segments, n + 1) == if climbed(segments, n).len() > 1 {
            climbed(segments, n).take(climbed(segments, n).len() - 1)
        } else {
            climbed(segments, n)
        },
        segments[n as int].len() > 0 && segments[n as int] != "."@ && segments[n as int] != ".."@
            ==> climbed(segments, n + 1) == climbed(segments, n) + seq![segments[n as int]],
    decreases n,
{
    reveal_strlit(".");
    reveal_strlit("..");
    let stack = climbed(segments, n);
    let segment = segments[n as int];
    assert(stack.push(segment) =~= stack + seq![segment]);
    if stack.len() > 1 {
        assert(stack.drop_last() =~= stack.take(stack.len() - 1));
    }
    if forall|i: int|
        0 <= i <= n ==> (#[trigger] segments[i]).len() > 0 && segments[i] != "."@ && segments[i]
            != ".."@ {
        if n > 0 {
            law_a_step_up_takes_back_one_name(segments, (n - 1) as nat);
            assert(segments.take(n as int + 1) =~= segments.take(n as int).push(segment));
        } else {
            assert(segments.take(1) =~= seq![segment]);
            assert(climbed(segments, 0).push(segment) =~= seq![segment]);
        }
        assert(segments[n as int].len() > 0);
    }
}

/// A path with `.`, empty and `segment/..` steps collapsed.
pub open spec fn squashed(path: Seq<char>) -> Seq<char> {
    let segments = split_on(path, '/');
    let joined = join(climbed(segments, segments.len()), "/"@);
    if "/"@.is_prefix_of(path) {
        "/"@ + joined
    } else {
        joined
    }
}

/// Collapse `.`, empty and `segment/..` steps of a path, never taking back the leading segment,
/// which is the host.
pub fn squash(path: &str) -> (r: String)
    ensures
        r@ == squashed(path@),
{
    let cs: Vec<char> = chars_of(path);
    let segments: Vec<String> = split_chars(cs.as_slice(), '/');
    let mut stack: Vec<String> = Vec::new();
    assert(stack.deep_view() =~= seq![]);
    let mut i: usize = 0;
    while i < segments.len()
        invariant
            i <= segments.len(),
            stack.deep_view() == climbed(segments.deep_view(), i as nat),
        decreases segments.len() - i,
    {
        let segment: &str = segments[i].as_str();
        assert(segments.deep_view()[i as int] == segment@);
        let ghost before = stack.deep_view();
        assert(before.len() == stack@.len());
        if segment.is_empty() || same_text(segment, ".") {
            assert(segment@.len() == 0 || segment@ == "."@);
        } else if same_text(segment, "..") {
            if stack.len() > 1 {
                let _ = stack.pop();
                assert(stack.deep_view() =~= before.drop_last());
            }
        } else {
            push_text(&mut stack, segment);
            assert(stack.deep_view() =~= before.push(segment@));
        }
        i += 1;
    }
    assert(segments.deep_view().len() == segments@.len());
    let rest: String = joined(&stack, "/");
    if begins_with(cs.as_slice(), "/") {
        let mut out: String = "/".to_owned();
        out.append(rest.as_str());
        out
    } else {
        rest
    }
}

/// Whether a segment names something.
pub open spec fn is_segment(s: Seq<char>) -> bool {
    s.len() > 0 && s != "."@ && s != ".."@
}

/// However many `..` a path holds, they never climb above its first segment: a path that begins
/// with a host still begins with that host once it is collapsed.
pub proof fn law_dots_never_climb_above_the_host(segments: Seq<Seq<char>>, n: nat)
    requires
        0 < n <= segments.len(),
        is_segment(segments[0]),
    ensures
        climbed(segments, n).len() > 0,
        climbed(segments, n)[0] == segments[0],
    decreases n,
{
    if n == 1 {
        assert(climbed(segments, 0) =~= seq![]);
    } else {
        law_dots_never_climb_above_the_host(segments, (n - 1) as nat);
    }
}

/// Collapsing leaves only segments that name something.
pub proof fn law_a_collapsed_path_holds_names_only(segments: Seq<Seq<char>>, n: nat)
    requires
        n <= segments.len(),
    ensures
        forall|i: int| 0 <= i < climbed(segments, n).len() ==> is_segment(#[trigger] climbed(
            segments,
            n,
        )[i]),
    decreases n,
{
    if n > 0 {
        law_a_collapsed_path_holds_names_only(segments, (n - 1) as nat);
        let before = climbed(segments, (n - 1) as nat);
        let after = climbed(segments, n);
        assert forall|i: int| 0 <= i < after.len() implies is_segment(#[trigger] after[i]) by {
            if i < before.len() {
                assert(after[i] == before[i]);
            }
        }
    }
}

/// The scheme of a page's address, and what follows it.
pub open spec fn scheme_of(page: Seq<char>) -> (Seq<char>, Seq<char>) {
    match find_from(page, "://"@, 0) {
        Some(k) => (page.take(k), page.skip(k + 3)),
        None => ("https"@, page),
    }
}

/// The host at the front of an address without its scheme.
pub open spec fn host_part(rest: Seq<char>) -> Seq<char> {
    rest.take(char_from(rest, '/', 0))
}

/// The directory of an address without its scheme.
pub open spec fn dir_part(rest: Seq<char>) -> Seq<char> {
    let k = last_char(rest, '/', rest.len() as int);
    if k >= 0 {
        rest.take(k)
    } else {
        rest
    }
}

/// Where a link on a page leads: absolute links pass through, `//host/…` borrows the page's
/// scheme, `/rooted` starts at the page's host, and anything else is relative to the page's
/// directory.
pub open spec fn resolved(page: Seq<char>, link: Seq<char>) -> Seq<char> {
    let (scheme, rest) = scheme_of(page);
    if contains(link, "://"@) {
        link
    } else if "//"@.is_prefix_of(link) {
        scheme + "://"@ + link.skip(2)
    } else if "/"@.is_prefix_of(link) {
        scheme + "://"@ + host_part(rest) + link
    } else {
        scheme + "://"@ + squashed(dir_part(rest) + "/"@ + link)
    }
}

/// A link leads where a browser would go: a whole one where it says; one that opens with two
/// slashes by the page's scheme; one that opens with one from the page's host on; and any other
/// from the page's directory on.
pub proof fn law_where_a_link_leads(
    scheme: Seq<char>,
    host: Seq<char>,
    dir: Seq<char>,
    name: Seq<char>,
    link: Seq<char>,
)
    requires
        !contains(scheme, "://"@),
        !scheme.contains(':'),
        !host.contains('/'),
        !name.contains('/'),
    ensures
        ({
            let page = scheme + "://"@ + host + dir + "/"@ + name;
            &&& contains(link, "://"@) ==> resolved(page, link) == link
            &&& !contains(link, "://"@) && "//"@.is_prefix_of(link) ==> resolved(page, link) == scheme
                + "://"@ + link.skip(2)
            &&& !contains(link, "://"@) && !"//"@.is_prefix_of(link) && "/"@.is_prefix_of(link) && (
            dir.len() == 0 || dir[0] == '/') ==> resolved(page, link) == scheme + "://"@ + host + link
            &&& !contains(link, "://"@) && !"/"@.is_prefix_of(link) ==> resolved(page, link) == scheme
                + "://"@ + squashed(host + dir + "/"@ + link)
        }),
{
    reveal_strlit("://");
    reveal_strlit("//");
    reveal_strlit("/");
    let rest = host + dir + "/"@ + name;
    let page = scheme + "://"@ + host + dir + "/"@ + name;
    assert(page =~= scheme + "://"@ + rest);
    lemma_find_from(page, "://"@, 0);
    let n = scheme.len() as int;
    assert(page.subrange(n, n + 3) =~= "://"@);
    assert(crate::text::occurs_at(page, "://"@, n));
    let k = find_from(page, "://"@, 0)->0;
    if k < n {
        assert(page.subrange(k, k + 3)[0] == page[k]);
        assert(scheme.contains(scheme[k]));
    }
    assert(page.take(n) =~= scheme);
    assert(page.skip(n + 3) =~= rest);
    assert(scheme_of(page) == (scheme, rest));
    lemma_char_from(rest, '/', 0);
    let c = char_from(rest, '/', 0);
    if c < host.len() {
        assert(host.contains(host[c]));
    }
    if dir.len() == 0 || dir[0] == '/' {
        assert(rest[host.len() as int] == '/');
        assert(rest.take(c) =~= host);
    }
    let at = (host + dir).len() as int;
    assert(rest[at] == '/');
    assert forall|j: int| at < j < rest.len() implies #[trigger] rest[j] != '/' by {
        assert(name.contains(name[j - at - 1]));
        assert(rest[j] == name[j - at - 1]);
    }
    lemma_last_slash(rest, at, rest.len() as int);
    assert(rest.take(at) =~= host + dir);
    if "/"@.is_prefix_of(link) {
        assert(link.take(1)[0] == link[0]);
    }
    if "//"@.is_prefix_of(link) {
        assert(link.take(2)[0] == link[0]);
        assert(link.take(1) =~= "/"@);
    }
}

proof fn lemma_last_slash(s: Seq<char>, at: int, n: int)
    requires
        0 <= at < n <= s.len(),
        s[at] == '/',
        forall|j: int| at < j < n ==> #[trigger] s[j] != '/',
    ensures
        last_char(s, '/', n) == at,
    decreases n,
{
    if n - 1 > at {
        assert(s[n - 1] != '/');
        lemma_last_slash(s, at, n - 1);
    }
}

/// Where a link on a page leads, as a browser would have it.
pub fn resolve_link(page: &str, link: &str) -> (r: String)
    ensures
        r@ == resolved(page@, link@),
{
    if holds(link, "://") {
        return link.to_owned();
    }
    let ps: Vec<char> = chars_of(page);
    let mark: Vec<char> = chars_of("://");
    let ls: Vec<char> = chars_of(link);
    let mut out: String = "https".to_owned();
    let mut rest: &[char] = ps.as_slice();
    proof {
        lemma_find_from(page@, "://"@, 0);
        reveal_strlit("://");
    }
    if let Some(k) = find_chars(ps.as_slice(), mark.as_slice(), 0) {
        let total: usize = ps.len();
        assert(k + 3 <= total);
        let head: &[char] = slice_subrange(ps.as_slice(), 0, k);
        assert(head@ =~= page@.take(k as int));
        out = string_of(head);
        rest = slice_subrange(ps.as_slice(), k + 3, total);
        assert(rest@ =~= page@.skip(k + 3));
    }
    assert((out@, rest@) == scheme_of(page@));
    out.append("://");
    if begins_with(ls.as_slice(), "//") {
        proof {
            reveal_strlit("//");
        }
        let tail: &[char] = slice_subrange(ls.as_slice(), 2, ls.len());
        assert(tail@ =~= link@.skip(2));
        out.append(string_of(tail).as_str());
        return out;
    }
    if begins_with(ls.as_slice(), "/") {
        let k: usize = find_char(rest, '/', 0);
        let host: &[char] = slice_subrange(rest, 0, k);
        assert(host@ =~= host_part(rest@));
        out.append(string_of(host).as_str());
        out.append(link);
        return out;
    }
    let dir: &[char] = match find_last(rest, '/') {
        Some(k) => slice_subrange(rest, 0, k),
        None => rest,
    };
    assert(dir@ =~= dir_part(rest@));
    let mut path: String = string_of(dir);
    path.append("/");
    path.append(link);
    out.append(squash(path.as_str()).as_str());
    out
}

// --- links on a page ------------------------------------------------------------------------

/// The arguments of `page_links`.
pub struct PageLinksArgs {
    /// The webpage to scan.
    pub page: String,
    /// File types to fetch.
    pub types: Vec<String>,
    /// Only print the resolved links.
    pub list: bool,
}

/// A file type as a bare extension in lower case: `.PNG` and `png` both mean `png`.
pub fn normalize_ext(ext: &str) -> (r: String)
    ensures
        r@ == lowercase(without_first(ext@, '.')),
{
    let cs: Vec<char> = chars_of(ext);
    let rest: &[char] = drop_leading(cs.as_slice(), '.');
    string_of(rest).as_str().to_lowercase()
}

/// Whether a token between quotes can be a link: it is not empty and holds no white space.
pub open spec fn is_candidate(token: Seq<char>) -> bool {
    token.len() > 0 && forall|i: int| 0 <= i < token.len() ==> !is_white(#[trigger] token[i])
}

/// The first type, from position `k` on, that a token in lower case ends with.
pub open spec fn type_from(lower: Seq<char>, exts: Seq<Seq<char>>, k: int) -> Option<int>
    decreases exts.len() - k,
{
    if k >= exts.len() {
        None
    } else if ("."@ + exts[k]).is_suffix_of(lower) {
        Some(k)
    } else {
        type_from(lower, exts, k + 1)
    }
}

/// A link counts for the first of the types that it ends with, and for none only where it ends
/// with none of them.
pub proof fn law_a_link_counts_for_its_first_type(lower: Seq<char>, exts: Seq<Seq<char>>, k: int)
    requires
        0 <= k <= exts.len(),
    ensures
        match type_from(lower, exts, k) {
            Some(t) => k <= t < exts.len() && ("."@ + exts[t]).is_suffix_of(lower) && forall|i: int|
                k <= i < t ==> !("."@ + #[trigger] exts[i]).is_suffix_of(lower),
            None => forall|i: int|
                k <= i < exts.len() ==> !("."@ + #[trigger] exts[i]).is_suffix_of(lower),
        },
    decreases exts.len() - k,
{
    if k < exts.len() && !("."@ + exts[k]).is_suffix_of(lower) {
        law_a_link_counts_for_its_first_type(lower, exts, k + 1);
    }
}

/// The type that a token counts for, given its lower case.
pub open spec fn link_type(token: Seq<char>, lower: Seq<char>, exts: Seq<Seq<char>>) -> Option<int> {
    if is_candidate(token) {
        type_from(lower, exts, 0)
    } else {
        None
    }
}

/// The links of one type among the first `n` tokens, each once, in the order in which they were
/// met.
pub open spec fn links_of(
    tokens: Seq<Seq<char>>,
    lowers: Seq<Seq<char>>,
    exts: Seq<Seq<char>>,
    which: int,
    n: nat,
) -> Seq<Seq<char>>
    decreases n,
{
    if n == 0 {
        seq![]
    } else {
        let before = links_of(tokens, lowers, exts, which, (n - 1) as nat);
        if link_type(tokens[n - 1], lowers[n - 1], exts) == Some(which) && !before.contains(
            tokens[n - 1],
        ) {
            before.push(tokens[n - 1])
        } else {
            before
        }
    }
}

/// Every token that counts for a type is among the links of that type, each once and in the order
/// in which they were met, and no other is.
pub proof fn law_every_link_is_listed(
    tokens: Seq<Seq<char>>,
    lowers: Seq<Seq<char>>,
    exts: Seq<Seq<char>>,
    which: int,
    n: nat,
)
    requires
        n <= tokens.len(),
    ensures
        ({
            let links = links_of(tokens, lowers, exts, which, n);
            &&& links.no_duplicates()
            &&& forall|i: int|
                0 <= i < n && link_type(#[trigger] tokens[i], lowers[i], exts) == Some(which)
                    ==> links.contains(tokens[i])
            &&& forall|j: int|
                0 <= j < links.len() ==> exists|i: int|
                    0 <= i < n && #[trigger] tokens[i] == #[trigger] links[j] && link_type(
                        tokens[i],
                        lowers[i],
                        exts,
                    ) == Some(which)
        }),
        n > 0 ==> links_of(tokens, lowers, exts, which, (n - 1) as nat).is_prefix_of(
            links_of(tokens, lowers, exts, which, n),
        ),
    decreases n,
{
    if n > 0 {
        law_every_link_is_listed(tokens, lowers, exts, which, (n - 1) as nat);
        let before = links_of(tokens, lowers, exts, which, (n - 1) as nat);
        let links = links_of(tokens, lowers, exts, which, n);
        assert(links.take(before.len() as int) =~= before);
        assert forall|i: int|
            0 <= i < n && link_type(#[trigger] tokens[i], lowers[i], exts) == Some(
                which,
            ) implies links.contains(tokens[i]) by {
            if before.contains(tokens[i]) {
                let k = choose|k: int| 0 <= k < before.len() && before[k] == tokens[i];
                assert(links[k] == tokens[i]);
            } else {
                assert(links.last() == tokens[i]);
            }
        }
        assert forall|j: int| 0 <= j < links.len() implies exists|i: int|
            0 <= i < n && #[trigger] tokens[i] == #[trigger] links[j] && link_type(
                tokens[i],
                lowers[i],
                exts,
            ) == Some(which) by {
            if j < before.len() {
                assert(links[j] == before[j]);
                let i = choose|i: int|
                    0 <= i < n - 1 && #[trigger] tokens[i] == before[j] && link_type(
                        tokens[i],
                        lowers[i],
                        exts,
                    ) == Some(which);
                assert(tokens[i] == links[j]);
            } else {
                assert(tokens[n - 1] == links[j]);
            }
        }
    }
}

/// The links by type.
pub open spec fn grouped(
    tokens: Seq<Seq<char>>,
    lowers: Seq<Seq<char>>,
    exts: Seq<Seq<char>>,
    n: nat,
) -> Seq<Seq<Seq<char>>> {
    Seq::new(exts.len(), |which: int| links_of(tokens, lowers, exts, which, n))
}

/// Whether a token between quotes can be a link.
fn can_link(token: &str) -> (r: bool)
    ensures
        r == is_candidate(token@),
{
    let cs: Vec<char> = chars_of(token);
    if cs.len() == 0 {
        return false;
    }
    let mut i: usize = 0;
    while i < cs.len()
        invariant
            i <= cs.len(),
            cs@ == token@,
            forall|j: int| 0 <= j < i ==> !is_white(#[trigger] token@[j]),
        decreases cs.len() - i,
    {
        if white(cs[i]) {
            assert(is_white(token@[i as int]));
            return false;
        }
        i += 1;
    }
    true
}

/// The first type that a token in lower case ends with.
fn find_type(lower: &str, exts: &Vec<String>) -> (r: Option<usize>)
    ensures
        match r {
            Some(k) => type_from(lower@, exts.deep_view(), 0) == Some(k as int) && k < exts@.len(),
            None => type_from(lower@, exts.deep_view(), 0) is None,
        },
{
    let cs: Vec<char> = chars_of(lower);
    let mut k: usize = 0;
    while k < exts.len()
        invariant
            k <= exts.len(),
            cs@ == lower@,
            type_from(lower@, exts.deep_view(), 0) == type_from(
                lower@,
                exts.deep_view(),
                k as int,
            ),
        decreases exts.len() - k,
    {
        assert(exts.deep_view()[k as int] == exts@[k as int]@);
        let mut suffix: String = ".".to_owned();
        suffix.append(exts[k].as_str());
        if finishes_with(cs.as_slice(), suffix.as_str()) {
            return Some(k);
        }
        k += 1;
    }
    assert(exts.deep_view().len() == exts@.len());
    None
}

/// The links by type, given the tokens between quotes and their lower case.
pub fn group_links(tokens: &Vec<String>, lowers: &Vec<String>, exts: &Vec<String>) -> (r: Vec<
    Vec<String>,
>)
    requires
        lowers@.len() == tokens@.len(),
    ensures
        r.deep_view() == grouped(
            tokens.deep_view(),
            lowers.deep_view(),
            exts.deep_view(),
            tokens@.len(),
        ),
{
    let ghost ts = tokens.deep_view();
    let ghost ls = lowers.deep_view();
    let ghost es = exts.deep_view();
    let mut groups: Vec<Vec<String>> = Vec::new();
    let mut g: usize = 0;
    while g < exts.len()
        invariant
            g <= exts.len(),
            groups@.len() == g,
            forall|w: int| 0 <= w < g ==> (#[trigger] groups@[w]).deep_view() == links_of(
                ts,
                ls,
                es,
                w,
                0,
            ),
        decreases exts.len() - g,
    {
        let empty: Vec<String> = Vec::new();
        assert(empty.deep_view() =~= seq![]);
        groups.push(empty);
        g += 1;
    }
    let mut i: usize = 0;
    while i < tokens.len()
        invariant
            i <= tokens.len(),
            ts == tokens.deep_view(),
            ls == lowers.deep_view(),
            es == exts.deep_view(),
            lowers@.len() == tokens@.len(),
            groups@.len() == exts@.len(),
            forall|w: int| 0 <= w < groups@.len() ==> (#[trigger] groups@[w]).deep_view() == links_of(
                ts,
                ls,
                es,
                w,
                i as nat,
            ),
        decreases tokens.len() - i,
    {
        assert(ts[i as int] == tokens@[i as int]@);
        assert(ls[i as int] == lowers@[i as int]@);
        let ghost before = groups@;
        if can_link(tokens[i].as_str()) {
            if let Some(k) = find_type(lowers[i].as_str(), exts) {
                assert(before[k as int].deep_view() == links_of(ts, ls, es, k as int, i as nat));
                if !crate::text::holds_text(&groups[k], tokens[i].as_str()) {
                    let mut group: Vec<String> = crate::text::copy_texts(&groups[k]);
                    let ghost earlier = group.deep_view();
                    push_text(&mut group, tokens[i].as_str());
                    assert(group.deep_view() =~= earlier.push(ts[i as int]));
                    groups.set(k, group);
                }
            }
        }
        assert forall|w: int| 0 <= w < groups@.len() implies (#[trigger] groups@[w]).deep_view()
            == links_of(ts, ls, es, w, (i + 1) as nat) by {
            assert(before[w].deep_view() == links_of(ts, ls, es, w, i as nat));
        }
        i += 1;
    }
    assert(es.len() == exts@.len());
    assert(groups.deep_view() =~= grouped(ts, ls, es, tokens@.len()));
    groups
}

/// The lower case of each text.
pub open spec fn lowered(tokens: Seq<Seq<char>>) -> Seq<Seq<char>> {
    tokens.map_values(|t: Seq<char>| lowercase(t))
}

/// The links of a page by type, in one pass: what stands between quotes is where links are, each
/// counts for the first type that it matches, whatever its case, and once.
pub fn links_by_type(html: &str, exts: &Vec<String>) -> (r: Vec<Vec<String>>)
    ensures
        r.deep_view() == grouped(
            split_on(html@, '"'),
            lowered(split_on(html@, '"')),
            exts.deep_view(),
            split_on(html@, '"').len(),
        ),
{
    let cs: Vec<char> = chars_of(html);
    let tokens: Vec<String> = split_chars(cs.as_slice(), '"');
    let mut lowers: Vec<String> = Vec::new();
    let mut i: usize = 0;
    while i < tokens.len()
        invariant
            i <= tokens.len(),
            lowers@.len() == i,
            forall|j: int| 0 <= j < i ==> (#[trigger] lowers@[j])@ == lowercase(tokens@[j]@),
        decreases tokens.len() - i,
    {
        lowers.push(tokens[i].as_str().to_lowercase());
        i += 1;
    }
    assert(tokens.deep_view().len() == tokens@.len());
    assert(lowers.deep_view() =~= lowered(tokens.deep_view()));
    group_links(&tokens, &lowers, exts)
}

proof fn lemma_type_from(lower: Seq<char>, exts: Seq<Seq<char>>, k: int)
    requires
        0 <= k,
    ensures
        type_from(lower, exts, k) matches Some(w) ==> k <= w < exts.len() && ("."@
            + exts[w]).is_suffix_of(lower) && forall|j: int|
            k <= j < w ==> !("."@ + #[trigger] exts[j]).is_suffix_of(lower),
    decreases exts.len() - k,
{
    if k < exts.len() && !("."@ + exts[k]).is_suffix_of(lower) {
        lemma_type_from(lower, exts, k + 1);
    }
}

/// No link is listed twice, and what is listed under a type is a token of the page without white
/// space whose lower case ends with that type.
pub proof fn law_links_are_listed_once(
    tokens: Seq<Seq<char>>,
    lowers: Seq<Seq<char>>,
    exts: Seq<Seq<char>>,
    which: int,
    n: nat,
)
    requires
        lowers.len() == tokens.len(),
        n <= tokens.len(),
        0 <= which < exts.len(),
    ensures
        links_of(tokens, lowers, exts, which, n).no_duplicates(),
        forall|i: int|
            0 <= i < links_of(tokens, lowers, exts, which, n).len() ==> exists|j: int|
                0 <= j < n && is_candidate(tokens[j]) && #[trigger] tokens[j] == (
                #[trigger] links_of(tokens, lowers, exts, which, n)[i]) && ("."@
                    + exts[which]).is_suffix_of(lowers[j]),
    decreases n,
{
    if n > 0 {
        law_links_are_listed_once(tokens, lowers, exts, which, (n - 1) as nat);
        lemma_type_from(lowers[n - 1], exts, 0);
        let before = links_of(tokens, lowers, exts, which, (n - 1) as nat);
        let after = links_of(tokens, lowers, exts, which, n);
        assert forall|i: int| 0 <= i < after.len() implies exists|j: int|
            0 <= j < n && is_candidate(tokens[j]) && #[trigger] tokens[j] == (#[trigger] after[i])
                && ("."@ + exts[which]).is_suffix_of(lowers[j]) by {
            if i < before.len() {
                assert(after[i] == before[i]);
                let j = choose|j: int|
                    0 <= j < n - 1 && is_candidate(tokens[j]) && #[trigger] tokens[j] == before[i]
                        && ("."@ + exts[which]).is_suffix_of(lowers[j]);
                assert(tokens[j] == after[i]);
            } else {
                assert(tokens[n - 1] == after[i]);
            }
        }
    }
}

proof fn lemma_listed_type(
    tokens: Seq<Seq<char>>,
    exts: Seq<Seq<char>>,
    which: int,
    n: nat,
    token: Seq<char>,
)
    requires
        n <= tokens.len(),
        links_of(tokens, lowered(tokens), exts, which, n).contains(token),
    ensures
        link_type(token, lowercase(token), exts) == Some(which),
    decreases n,
{
    if n > 0 {
        let before = links_of(tokens, lowered(tokens), exts, which, (n - 1) as nat);
        if before.contains(token) {
            lemma_listed_type(tokens, exts, which, (n - 1) as nat, token);
        } else {
            let after = links_of(tokens, lowered(tokens), exts, which, n);
            let i = choose|i: int| 0 <= i < after.len() && after[i] == token;
            assert(i == before.len()) by {
                if i < before.len() {
                    assert(before[i] == token);
                }
            }
        }
    }
}

/// No link is listed under two types.
pub proof fn law_a_link_is_of_one_type(
    tokens: Seq<Seq<char>>,
    exts: Seq<Seq<char>>,
    a: int,
    b: int,
    token: Seq<char>,
)
    requires
        links_of(tokens, lowered(tokens), exts, a, tokens.len()).contains(token),
        links_of(tokens, lowered(tokens), exts, b, tokens.len()).contains(token),
    ensures
        a == b,
{
    lemma_listed_type(tokens, exts, a, tokens.len(), token);
    lemma_listed_type(tokens, exts, b, tokens.len(), token);
}

/// What is done for a page, in order.
pub enum LinkStep {
    /// There is no link of a type.
    Missing(String),
    /// The link is printed.
    Print(String),
    /// The link is downloaded.
    Fetch(String),
}

/// What is done for a page.
pub enum LinkStepView {
    Missing(Seq<char>),
    Print(Seq<char>),
    Fetch(Seq<char>),
}

impl View for LinkStep {
    type V = LinkStepView;

    open spec fn view(&self) -> LinkStepView {
        match self {
            LinkStep::Missing(text) => LinkStepView::Missing(text@),
            LinkStep::Print(url) => LinkStepView::Print(url@),
            LinkStep::Fetch(url) => LinkStepView::Fetch(url@),
        }
    }
}

impl DeepView for LinkStep {
    type V = LinkStepView;

    open spec fn deep_view(&self) -> LinkStepView {
        self@
    }
}

/// The steps for the links of one type.
pub open spec fn type_steps(page: Seq<char>, ext: Seq<char>, links: Seq<Seq<char>>, list: bool) -> Seq<
    LinkStepView,
> {
    if links.len() == 0 {
        seq![LinkStepView::Missing("no ."@ + ext + " links in "@ + page)]
    } else {
        links.map_values(
            |link: Seq<char>|
                if list {
                    LinkStepView::Print(resolved(page, link))
                } else {
                    LinkStepView::Fetch(resolved(page, link))
                },
        )
    }
}

/// The steps for the first `n` types.
pub open spec fn page_steps(
    page: Seq<char>,
    exts: Seq<Seq<char>>,
    groups: Seq<Seq<Seq<char>>>,
    list: bool,
    n: nat,
) -> Seq<LinkStepView>
    decreases n,
{
    if n == 0 {
        seq![]
    } else {
        page_steps(page, exts, groups, list, (n - 1) as nat) + type_steps(
            page,
            exts[n - 1],
            groups[n - 1],
            list,
        )
    }
}

/// Type by type, every link is printed or downloaded, as it was asked for, and a type without one
/// is named.
pub proof fn law_every_link_of_every_type_is_taken(
    page: Seq<char>,
    exts: Seq<Seq<char>>,
    groups: Seq<Seq<Seq<char>>>,
    list: bool,
    n: nat,
)
    requires
        n <= exts.len(),
    ensures
        page_steps(page, exts, groups, list, n) == Seq::new(
            n,
            |i: int|
                if groups[i].len() == 0 {
                    seq![LinkStepView::Missing("no ."@ + exts[i] + " links in "@ + page)]
                } else {
                    groups[i].map_values(
                        |link: Seq<char>|
                            if list {
                                LinkStepView::Print(resolved(page, link))
                            } else {
                                LinkStepView::Fetch(resolved(page, link))
                            },
                    )
                },
        ).flatten(),
    decreases n,
{
    if n > 0 {
        law_every_link_of_every_type_is_taken(page, exts, groups, list, (n - 1) as nat);
        lemma_parts_last(
            |i: int|
                if groups[i].len() == 0 {
                    seq![LinkStepView::Missing("no ."@ + exts[i] + " links in "@ + page)]
                } else {
                    groups[i].map_values(
                        |link: Seq<char>|
                            if list {
                                LinkStepView::Print(resolved(page, link))
                            } else {
                                LinkStepView::Fetch(resolved(page, link))
                            },
                    )
                },
            n,
        );
    }
}

/// The steps for the links of one type.
fn steps_of_type(page: &str, ext: &str, links: &Vec<String>, list: bool) -> (r: Vec<LinkStep>)
    ensures
        r.deep_view() == type_steps(page@, ext@, links.deep_view(), list),
{
    let mut out: Vec<LinkStep> = Vec::new();
    assert(links.deep_view().len() == links@.len());
    if links.len() == 0 {
        let mut text: String = "no .".to_owned();
        text.append(ext);
        text.append(" links in ");
        text.append(page);
        out.push(LinkStep::Missing(text));
        assert(out.deep_view() =~= type_steps(page@, ext@, links.deep_view(), list));
        return out;
    }
    let mut i: usize = 0;
    while i < links.len()
        invariant
            i <= links.len(),
            links@.len() > 0,
            out@.len() == i,
            forall|j: int|
                0 <= j < i ==> (#[trigger] out@[j])@ == (if list {
                    LinkStepView::Print(resolved(page@, links.deep_view()[j]))
                } else {
                    LinkStepView::Fetch(resolved(page@, links.deep_view()[j]))
                }),
        decreases links.len() - i,
    {
        assert(links.deep_view()[i as int] == links@[i as int]@);
        let url: String = resolve_link(page, links[i].as_str());
        out.push(
            if list {
                LinkStep::Print(url)
            } else {
                LinkStep::Fetch(url)
            },
        );
        i += 1;
    }
    assert(out.deep_view() =~= type_steps(page@, ext@, links.deep_view(), list));
    out
}

/// The steps for the links of a page by type.
pub fn steps_of_page(page: &str, exts: &Vec<String>, groups: &Vec<Vec<String>>, list: bool) -> (r: Vec<
    LinkStep,
>)
    requires
        groups@.len() == exts@.len(),
    ensures
        r.deep_view() == page_steps(
            page@,
            exts.deep_view(),
            groups.deep_view(),
            list,
            exts@.len(),
        ),
{
    let mut out: Vec<LinkStep> = Vec::new();
    assert(out.deep_view() =~= seq![]);
    let mut i: usize = 0;
    while i < exts.len()
        invariant
            i <= exts.len(),
            groups@.len() == exts@.len(),
            out.deep_view() == page_steps(
                page@,
                exts.deep_view(),
                groups.deep_view(),
                list,
                i as nat,
            ),
        decreases exts.len() - i,
    {
        assert(exts.deep_view()[i as int] == exts@[i as int]@);
        assert(groups.deep_view()[i as int] == groups@[i as int].deep_view());
        let ghost before = out.deep_view();
        let mut more: Vec<LinkStep> = steps_of_type(
            page,
            exts[i].as_str(),
            &groups[i],
            list,
        );
        let ghost added = more.deep_view();
        out.append(&mut more);
        assert(out.deep_view() =~= before + added);
        i += 1;
    }
    out
}

/// The bare extensions that were asked for.
pub open spec fn wanted(types: Seq<Seq<char>>) -> Seq<Seq<char>> {
    types.map_values(|t: Seq<char>| lowercase(without_first(t, '.')))
}

/// Download every link of the given file types found in a webpage: the steps.
pub fn page_links(args: &PageLinksArgs, html: &str) -> (r: Vec<LinkStep>)
    ensures
        ({
            let exts = wanted(args.types.deep_view());
            let tokens = split_on(html@, '"');
            r.deep_view() == page_steps(
                args.page@,
                exts,
                grouped(tokens, lowered(tokens), exts, tokens.len()),
                args.list,
                exts.len(),
            )
        }),
{
    let mut exts: Vec<String> = Vec::new();
    let mut i: usize = 0;
    while i < args.types.len()
        invariant
            i <= args.types.len(),
            exts@.len() == i,
            forall|j: int|
                0 <= j < i ==> (#[trigger] exts@[j])@ == lowercase(without_first(args.types@[j]@, '.')),
        decreases args.types.len() - i,
    {
        exts.push(normalize_ext(args.types[i].as_str()));
        i += 1;
    }
    assert(args.types.deep_view().len() == args.types@.len());
    assert(exts.deep_view() =~= wanted(args.types.deep_view()));
    let groups: Vec<Vec<String>> = links_by_type(html, &exts);
    assert(groups.deep_view().len() == groups@.len());
    assert(exts.deep_view().len() == exts@.len());
    steps_of_page(args.page.as_str(), &exts, &groups, args.list)
}

/// The arguments of the program that fetches one link: errors are shown, progress is not.
pub fn fetch_argv(url: &str) -> (r: Vec<String>)
    ensures
        r.deep_view() == seq!["-fSLO"@, "--retry"@, "2"@, "--no-progress-meter"@, url@],
{
    let mut argv: Vec<String> = Vec::new();
    push_words(&mut argv, vec!["-fSLO", "--retry", "2", "--no-progress-meter"]);
    push_text(&mut argv, url);
    assert(argv.deep_view() =~= seq!["-fSLO"@, "--retry"@, "2"@, "--no-progress-meter"@, url@]);
    argv
}

/// The exit code of `page_links`: nothing found and anything failed are failures.
pub fn page_links_code(found: u32, failed: u32) -> (r: i32)
    ensures
        r == (if found == 0 || failed > 0 {
            1int
        } else {
            0
        }),
{
    if found == 0 || failed > 0 {
        1
    } else {
        0
    }
}

// --- videos ---------------------------------------------------------------------------------

/// Where a character of `stops` first stands, from position `k` on.
pub open spec fn stop_from(s: Seq<char>, stops: Seq<char>, k: int) -> int
    decreases s.len() - k,
{
    if k >= s.len() {
        s.len() as int
    } else if stops.contains(s[k]) {
        k
    } else {
        stop_from(s, stops, k + 1)
    }
}

/// A stop is the first of the characters that end a host, and there is none only where none
/// stands.
pub proof fn law_the_first_stop_ends_the_host(s: Seq<char>, stops: Seq<char>, k: int)
    requires
        0 <= k <= s.len(),
    ensures
        k <= stop_from(s, stops, k) <= s.len(),
        stop_from(s, stops, k) < s.len() ==> stops.contains(s[stop_from(s, stops, k)]),
        forall|i: int| k <= i < stop_from(s, stops, k) ==> !stops.contains(#[trigger] s[i]),
    decreases s.len() - k,
{
    if k < s.len() && !stops.contains(s[k]) {
        law_the_first_stop_ends_the_host(s, stops, k + 1);
    }
}

/// The host of an address, in lower case: without the scheme, the path, the user before an `@`,
/// the port, and a leading `www.`.
pub open spec fn host_in(url: Seq<char>) -> Seq<char> {
    let (_, rest) = scheme_of(url);
    let authority = rest.take(stop_from(rest, "/?#"@, 0));
    let k = last_char(authority, '@', authority.len() as int);
    let server = authority.skip(k + 1);
    let host = ascii_lower(server.take(char_from(server, ':', 0)));
    if "www."@.is_prefix_of(host) {
        host.skip(4)
    } else {
        host
    }
}

/// Whether a host is a site or below it.
pub open spec fn belongs_to(host: Seq<char>, site: Seq<char>) -> bool {
    host == site || ("."@ + site).is_suffix_of(host)
}

/// A host belongs to a site that it is, or that it stands below with a dot between, and to no other.
pub proof fn law_a_site_holds_what_stands_below_it(below: Seq<char>, site: Seq<char>)
    ensures
        belongs_to(site, site),
        belongs_to(below + "."@ + site, site),
        below.len() > 0 && below.last() != '.' ==> !belongs_to(below + site, site),
{
    reveal_strlit(".");
    let host = below + "."@ + site;
    assert(host.subrange(host.len() - ("."@ + site).len(), host.len() as int) =~= "."@ + site);
    let other = below + site;
    if below.len() > 0 && below.last() != '.' {
        let tail = other.subrange(other.len() - ("."@ + site).len(), other.len() as int);
        assert(tail[0] == below.last());
        assert(("."@ + site)[0] == '.');
        assert(other.len() != site.len());
    }
}

/// Whether a host is YouTube's.
pub open spec fn is_youtube_host(host: Seq<char>) -> bool {
    host == "youtu.be"@ || belongs_to(host, "youtube.com"@) || belongs_to(
        host,
        "youtube-nocookie.com"@,
    )
}

/// The host of an address.
pub fn host_of(url: &str) -> (r: String)
    ensures
        r@ == host_in(url@),
{
    let cs: Vec<char> = chars_of(url);
    let mark: Vec<char> = chars_of("://");
    let stops: Vec<char> = chars_of("/?#");
    proof {
        lemma_find_from(url@, "://"@, 0);
        reveal_strlit("://");
    }
    let mut from: usize = 0;
    if let Some(k) = find_chars(cs.as_slice(), mark.as_slice(), 0) {
        let total: usize = cs.len();
        assert(k + 3 <= total);
        from = k + 3;
    }
    let rest: &[char] = slice_subrange(cs.as_slice(), from, cs.len());
    assert(rest@ =~= scheme_of(url@).1);
    let mut end: usize = 0;
    let mut open: bool = true;
    while end < rest.len() && open
        invariant
            end <= rest.len(),
            stops@ == "/?#"@,
            open ==> stop_from(rest@, "/?#"@, 0) == stop_from(rest@, "/?#"@, end as int),
            !open ==> stop_from(rest@, "/?#"@, 0) == end,
        decreases rest.len() - end,
                if open {
                    1int
                } else {
                    0
                },
    {
        let k: usize = find_char(stops.as_slice(), rest[end], 0);
        proof {
            lemma_char_from(stops@, rest@[end as int], 0);
            if k < stops@.len() {
                assert(stops@[k as int] == rest@[end as int]);
            }
        }
        if k < stops.len() {
            open = false;
        } else {
            assert(!stops@.contains(rest@[end as int]));
            end += 1;
        }
    }
    let authority: &[char] = slice_subrange(rest, 0, end);
    assert(authority@ =~= rest@.take(stop_from(rest@, "/?#"@, 0)));
    let start: usize = match find_last(authority, '@') {
        Some(k) => k + 1,
        None => 0,
    };
    let server: &[char] = slice_subrange(authority, start, authority.len());
    assert(server@ =~= authority@.skip(start as int));
    let colon: usize = find_char(server, ':', 0);
    let name: &[char] = slice_subrange(server, 0, colon);
    assert(name@ =~= server@.take(colon as int));
    let host: String = to_ascii_lower(string_of(name).as_str());
    let hs: Vec<char> = chars_of(host.as_str());
    if begins_with(hs.as_slice(), "www.") {
        proof {
            reveal_strlit("www.");
        }
        let bare: &[char] = slice_subrange(hs.as_slice(), 4, hs.len());
        assert(bare@ =~= host@.skip(4));
        return string_of(bare);
    }
    host
}

/// Whether a host is a site or below it.
fn is_of_site(host: &str, site: &str) -> (r: bool)
    ensures
        r == belongs_to(host@, site@),
{
    if same_text(host, site) {
        return true;
    }
    let mut below: String = ".".to_owned();
    below.append(site);
    let hs: Vec<char> = chars_of(host);
    finishes_with(hs.as_slice(), below.as_str())
}

/// Whether the host of an address is YouTube's: what decides which way a download goes.
pub fn is_youtube(url: &str) -> (r: bool)
    ensures
        r == is_youtube_host(host_in(url@)),
{
    let host: String = host_of(url);
    same_text(host.as_str(), "youtu.be") || is_of_site(host.as_str(), "youtube.com")
        || is_of_site(host.as_str(), "youtube-nocookie.com")
}

/// The arguments of `dl`.
pub struct DlArgs {
    /// A video's address.
    pub url: Option<String>,
    /// Destination root.
    pub into: String,
    /// Take just the video of a link that also names a playlist.
    pub single: bool,
    /// A cookies file.
    pub cookies: Option<String>,
    /// Ignore stored cookies.
    pub no_cookies: bool,
    /// Audio only.
    pub audio: bool,
    /// Cap the video height.
    pub res: Option<u32>,
    /// Let the download use IPv6.
    pub allow_ipv6: bool,
    /// Embed a cover.
    pub thumbnail: bool,
    /// Scan for subtitles.
    pub subtitles: bool,
    /// Import a browser's cookies for a site.
    pub cookie_import: Option<String>,
    /// Print the notable flags of the download program.
    pub taglist: bool,
    /// Print the kinds of sites that tend to work.
    pub compatibility_help: bool,
    /// Handed to the download program.
    pub extra: Vec<String>,
}

/// What `dl` begins with.
pub enum DlStart {
    /// Print the coverage of sites.
    Help,
    /// Print the flags.
    Taglist,
    /// Import cookies for a target; then stop, or go on.
    Import(String, bool),
    /// Download.
    Download,
}

/// Which way a download goes.
#[derive(Clone, Copy, Debug, PartialEq, Eq, Structural)]
pub enum Route {
    Youtube,
    Generic,
}

/// What `dl` begins with. An import without an address is a step of setup: the run stops behind
/// it; with one, the download follows.
pub fn dl(args: &DlArgs) -> (r: DlStart)
    ensures
        if args.compatibility_help {
            r is Help
        } else if args.taglist {
            r is Taglist
        } else {
            match args.cookie_import {
                Some(target) => r matches DlStart::Import(t, stops) && t@ == target@ && stops == (
                args.url is None),
                None => r is Download,
            }
        },
{
    if args.compatibility_help {
        return DlStart::Help;
    }
    if args.taglist {
        return DlStart::Taglist;
    }
    match &args.cookie_import {
        Some(target) => DlStart::Import(target.clone(), args.url.is_none()),
        None => DlStart::Download,
    }
}

/// The exit code of an import that the run stops behind.
pub fn import_code(imported: bool) -> (r: i32)
    ensures
        r == (if imported {
            0int
        } else {
            1
        }),
{
    if imported {
        0
    } else {
        1
    }
}

/// Whether the cookies stored for the site are used: an explicit file wins, and they can be
/// declined.
pub fn uses_stored_cookies(args: &DlArgs) -> (r: bool)
    ensures
        r == (!args.no_cookies && args.cookies is None),
{
    !args.no_cookies && args.cookies.is_none()
}

/// Which way a download goes.
pub fn route(args: &DlArgs) -> (r: Route)
    ensures
        r == (if args.url matches Some(url) && is_youtube_host(host_in(url@)) {
            Route::Youtube
        } else {
            Route::Generic
        }),
{
    match &args.url {
        Some(url) => if is_youtube(url.as_str()) {
            Route::Youtube
        } else {
            Route::Generic
        },
        None => {
            Route::Generic
        },
    }
}

} // verus!
