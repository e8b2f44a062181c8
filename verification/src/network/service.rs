//! What a host serves: its certificate, where HTTP leads, the ports that answer, and the route.

use vstd::prelude::*;
use vstd::slice::slice_subrange;
use vstd::string::*;
use vstd::utf8::encode_utf8;
use super::excavate::{open_section, section, ExcavatePalette};
use crate::sequences::{lemma_flat_map_last, lemma_parts_last};
use crate::style::{painted, Paint, Palette};
use crate::text::{
    ascii_lower, begins_with, chars_of, decimal, finishes_with, join, join_n, joined, padded,
    push_decimal, push_padded, push_text, same_text, string_of, to_ascii_lower,
};

verus! {

// --- packing --------------------------------------------------------------------------------

/// How many bytes a text takes.
pub open spec fn weight(s: Seq<char>) -> nat {
    encode_utf8(s).len()
}

/// The finished lines and the line being filled once the first `n` items are packed.
pub open spec fn packing(items: Seq<Seq<char>>, width: nat, n: nat) -> (
    Seq<Seq<char>>,
    Seq<char>,
)
    decreases n,
{
    if n == 0 {
        (seq![], seq![])
    } else {
        let (lines, current) = packing(items, width, (n - 1) as nat);
        let item = items[n - 1];
        if current.len() == 0 {
            (lines, item)
        } else if weight(current) + 2 + weight(item) > width {
            (lines.push(current), item)
        } else {
            (lines, current + ", "@ + item)
        }
    }
}

/// The items, packed into comma-separated lines.
pub open spec fn pack(items: Seq<Seq<char>>, width: nat) -> Seq<Seq<char>> {
    let (lines, current) = packing(items, width, items.len());
    if current.len() > 0 {
        lines.push(current)
    } else {
        lines
    }
}

/// Pack `items` into comma-separated lines of at most `width` columns: the compact form of a long
/// list that would otherwise be one unreadable line.
pub fn packed(items: &Vec<String>, width: usize) -> (r: Vec<String>)
    ensures
        r.deep_view() == pack(items.deep_view(), width as nat),
{
    let mut lines: Vec<String> = Vec::new();
    let mut current: String = String::new();
    assert(lines.deep_view() =~= seq![]);
    let mut i: usize = 0;
    while i < items.len()
        invariant
            i <= items.len(),
            (lines.deep_view(), current@) == packing(items.deep_view(), width as nat, i as nat),
        decreases items.len() - i,
    {
        let item: &str = items[i].as_str();
        assert(items.deep_view()[i as int] == item@);
        if current.as_str().is_empty() {
            current = item.to_owned();
        } else {
            let have: usize = current.as_str().as_bytes().len();
            let more: usize = item.as_bytes().len();
            if have <= width && 2 <= width - have && more <= width - have - 2 {
                current.append(", ");
                current.append(item);
            } else {
                let ghost before = lines.deep_view();
                let ghost full = current@;
                lines.push(current);
                assert(lines.deep_view() =~= before.push(full));
                current = item.to_owned();
            }
        }
        i += 1;
    }
    assert(items.deep_view().len() == items@.len());
    if !current.as_str().is_empty() {
        let ghost before = lines.deep_view();
        let ghost full = current@;
        lines.push(current);
        assert(lines.deep_view() =~= before.push(full));
    }
    lines
}

proof fn lemma_join_prefix(a: Seq<Seq<char>>, b: Seq<Seq<char>>, sep: Seq<char>, n: nat)
    requires
        n <= a.len(),
        n <= b.len(),
        forall|i: int| 0 <= i < n ==> a[i] == b[i],
    ensures
        join_n(a, sep, n) == join_n(b, sep, n),
    decreases n,
{
    if n > 1 {
        lemma_join_prefix(a, b, sep, (n - 1) as nat);
    }
}

proof fn lemma_packing_joins(items: Seq<Seq<char>>, width: nat, n: nat)
    requires
        0 < n <= items.len(),
        forall|i: int| 0 <= i < items.len() ==> (#[trigger] items[i]).len() > 0,
    ensures
        packing(items, width, n).1.len() > 0,
        join(packing(items, width, n).0.push(packing(items, width, n).1), ", "@) == join_n(
            items,
            ", "@,
            n,
        ),
    decreases n,
{
    let sep = ", "@;
    let (lines, current) = packing(items, width, n);
    if n == 1 {
        assert(packing(items, width, 0) == (Seq::<Seq<char>>::empty(), Seq::<char>::empty()));
        assert(items[0].len() > 0);
        assert(lines.push(current)[0] == items[0]);
    } else {
        lemma_packing_joins(items, width, (n - 1) as nat);
        let (before, filling) = packing(items, width, (n - 1) as nat);
        let item = items[n - 1];
        assert(items[n - 1].len() > 0);
        if weight(filling) + 2 + weight(item) > width {
            let all = before.push(filling).push(item);
            lemma_join_prefix(all, before.push(filling), sep, (all.len() - 1) as nat);
        } else {
            let old_lines = before.push(filling);
            let new_lines = before.push(filling + sep + item);
            if before.len() > 0 {
                lemma_join_prefix(old_lines, new_lines, sep, before.len());
                assert(join(new_lines, sep) =~= join(old_lines, sep) + sep + item);
            } else {
                assert(join(new_lines, sep) =~= join(old_lines, sep) + sep + item);
            }
        }
    }
}

/// Packing neither loses nor reorders a name: the lines, joined, are the names, joined.
pub proof fn law_packing_keeps_every_name(items: Seq<Seq<char>>, width: nat)
    requires
        forall|i: int| 0 <= i < items.len() ==> (#[trigger] items[i]).len() > 0,
    ensures
        join(pack(items, width), ", "@) == join(items, ", "@),
{
    if items.len() > 0 {
        lemma_packing_joins(items, width, items.len());
    } else {
        assert(packing(items, width, 0) == (Seq::<Seq<char>>::empty(), Seq::<char>::empty()));
    }
}

proof fn lemma_encode_concat(a: Seq<char>, b: Seq<char>)
    ensures
        encode_utf8(a + b) == encode_utf8(a) + encode_utf8(b),
    decreases a.len(),
{
    if a.len() == 0 {
        assert(a + b =~= b);
        assert(encode_utf8(a) =~= seq![]);
        assert(encode_utf8(a) + encode_utf8(b) =~= encode_utf8(b));
    } else {
        lemma_encode_concat(a.drop_first(), b);
        assert((a + b).drop_first() =~= a.drop_first() + b);
        assert(encode_utf8(a + b) =~= encode_utf8(a) + encode_utf8(b));
    }
}

/// Whether a line keeps to the width, or is a single item.
pub open spec fn keeps_to(line: Seq<char>, items: Seq<Seq<char>>, width: nat) -> bool {
    weight(line) <= width || items.contains(line)
}

proof fn lemma_packing_fits(items: Seq<Seq<char>>, width: nat, n: nat)
    requires
        n <= items.len(),
    ensures
        forall|i: int|
            0 <= i < packing(items, width, n).0.len() ==> keeps_to(
                #[trigger] packing(items, width, n).0[i],
                items,
                width,
            ),
        packing(items, width, n).1.len() > 0 ==> keeps_to(packing(items, width, n).1, items, width),
    decreases n,
{
    if n > 0 {
        lemma_packing_fits(items, width, (n - 1) as nat);
        let (lines, current) = packing(items, width, (n - 1) as nat);
        let item = items[n - 1];
        assert(items.contains(item));
        lemma_encode_concat(current, ", "@);
        lemma_encode_concat(current + ", "@, item);
        reveal_strlit(", ");
        assert(vstd::utf8::is_ascii_chars(", "@));
        vstd::utf8::is_ascii_chars_encode_utf8(", "@);
    }
}

/// No packed line exceeds the width, except where a single item does.
pub proof fn law_packed_lines_keep_to_the_width(items: Seq<Seq<char>>, width: nat)
    ensures
        forall|i: int|
            0 <= i < pack(items, width).len() ==> keeps_to(
                #[trigger] pack(items, width)[i],
                items,
                width,
            ),
{
    lemma_packing_fits(items, width, items.len());
}

/// Whether item number `k` is what closed `line`: the line was being filled when its turn came, it
/// would not have fitted behind it, and it opened the next line.
pub open spec fn closed_by(items: Seq<Seq<char>>, width: nat, line: Seq<char>, k: int) -> bool {
    &&& packing(items, width, k as nat).1 == line
    &&& weight(line) + 2 + weight(items[k]) > width
    &&& packing(items, width, (k + 1) as nat) == (
        packing(items, width, k as nat).0.push(line),
        items[k],
    )
}

/// A line closes only when the next item would not fit.
pub proof fn law_a_line_closes_only_when_it_is_full(
    items: Seq<Seq<char>>,
    width: nat,
    n: nat,
    i: int,
)
    requires
        n <= items.len(),
        0 <= i < packing(items, width, n).0.len(),
    ensures
        exists|k: int|
            0 <= k < n && #[trigger] closed_by(items, width, packing(items, width, n).0[i], k),
    decreases n,
{
    let lines = packing(items, width, n).0;
    let (before, current) = packing(items, width, (n - 1) as nat);
    if i < before.len() {
        law_a_line_closes_only_when_it_is_full(items, width, (n - 1) as nat, i);
        assert(lines[i] == before[i]);
        let k = choose|k: int| 0 <= k < n - 1 && #[trigger] closed_by(items, width, before[i], k);
        assert(closed_by(items, width, lines[i], k));
    } else {
        assert(lines == before.push(current));
        assert(closed_by(items, width, lines[i], n - 1));
    }
}

// --- certificate names ----------------------------------------------------------------------

/// Whether `head` is one label, which is not empty, with its dot.
pub open spec fn is_label(head: Seq<char>) -> bool {
    head.len() >= 2 && head.last() == '.' && !head.drop_last().contains('.')
}

/// Whether a certificate name covers a host: letter case aside the same, or a wildcard that
/// stands for one label.
pub open spec fn covers(cert_name: Seq<char>, host: Seq<char>) -> bool {
    let name = ascii_lower(cert_name);
    let host = ascii_lower(host);
    if "*."@.is_prefix_of(name) {
        let suffix = name.skip(2);
        suffix.is_suffix_of(host) && is_label(host.take(host.len() - suffix.len()))
    } else {
        name == host
    }
}

/// A name without a wildcard covers the host of that name, letter case aside, and no other.
pub proof fn law_a_plain_name_covers_itself(cert_name: Seq<char>, host: Seq<char>)
    requires
        !"*."@.is_prefix_of(cert_name),
    ensures
        covers(cert_name, host) <==> ascii_lower(cert_name) == ascii_lower(host),
{
    reveal_strlit("*.");
    let name = ascii_lower(cert_name);
    if "*."@.is_prefix_of(name) {
        assert(name[0] == "*."@[0]) by {
            assert(name.take(2)[0] == name[0]);
        }
        assert(name[1] == "*."@[1]) by {
            assert(name.take(2)[1] == name[1]);
        }
        assert(cert_name[0] == '*');
        assert(cert_name[1] == '.');
        assert(cert_name.take(2) =~= "*."@);
    }
}

/// Whether a certificate name covers `host`, a leading wildcard included, which stands for
/// exactly one label.
pub fn name_matches(cert_name: &str, host: &str) -> (r: bool)
    ensures
        r == covers(cert_name@, host@),
{
    let name_text: String = to_ascii_lower(cert_name);
    let host_text: String = to_ascii_lower(host);
    let name: Vec<char> = chars_of(name_text.as_str());
    let h: Vec<char> = chars_of(host_text.as_str());
    if !begins_with(name.as_slice(), "*.") {
        return same_text(name_text.as_str(), host_text.as_str());
    }
    proof {
        reveal_strlit("*.");
    }
    let suffix: String = string_of(slice_subrange(name.as_slice(), 2, name.len()));
    assert(suffix@ =~= name@.skip(2));
    if !finishes_with(h.as_slice(), suffix.as_str()) {
        return false;
    }
    let n: usize = h.len() - (name.len() - 2);
    let head: &[char] = slice_subrange(h.as_slice(), 0, n);
    assert(head@ =~= h@.take(n as int));
    if n < 2 || head[n - 1] != '.' {
        return false;
    }
    let bare: &[char] = slice_subrange(head, 0, n - 1);
    assert(bare@ =~= head@.drop_last());
    let dot: usize = crate::text::find_char(bare, '.', 0);
    proof {
        crate::text::lemma_char_from(bare@, '.', 0);
        if dot < bare@.len() {
            assert(bare@[dot as int] == '.');
        }
    }
    dot == bare.len()
}

/// A wildcard covers a host exactly where the host is one label, a dot, and the rest of the
/// certificate's name.
pub proof fn law_a_wildcard_covers_one_label(rest: Seq<char>, host: Seq<char>)
    ensures
        covers("*."@ + rest, host) <==> exists|label: Seq<char>|
            label.len() > 0 && !label.contains('.') && ascii_lower(host) == #[trigger] (label
                + "."@ + ascii_lower(rest)),
{
    reveal_strlit("*.");
    reveal_strlit(".");
    let name = ascii_lower("*."@ + rest);
    let h = ascii_lower(host);
    let suffix = name.skip(2);
    assert(suffix =~= ascii_lower(rest));
    assert("*."@ =~= name.take(2));
    assert("*."@.is_prefix_of(name));
    if covers("*."@ + rest, host) {
        let label = h.take(h.len() - suffix.len()).drop_last();
        assert(h =~= label + "."@ + ascii_lower(rest));
    }
    if exists|label: Seq<char>|
        label.len() > 0 && !label.contains('.') && h == #[trigger] (label + "."@ + ascii_lower(
            rest,
        )) {
        let label = choose|label: Seq<char>|
            label.len() > 0 && !label.contains('.') && h == #[trigger] (label + "."@ + ascii_lower(
                rest,
            ));
        let head = h.take(h.len() - suffix.len());
        assert(head =~= label + "."@);
        assert(head.drop_last() =~= label);
        assert(suffix =~= h.skip(h.len() - suffix.len()));
        assert(suffix.is_suffix_of(h));
    }
}

// --- certificate ----------------------------------------------------------------------------

/// A row of a section: a label in its column, and what is said.
pub open spec fn row(label: Seq<char>, width: nat, value: Seq<char>) -> Seq<char> {
    "  "@ + padded(label, width) + " "@ + value + "\n"@
}

/// A line of a section that is a remark.
pub open spec fn remark(text: Seq<char>) -> Seq<char> {
    "  "@ + text + "\n"@
}

/// A row of a section.
fn push_row(out: &mut String, label: &str, width: usize, value: &str)
    ensures
        final(out)@ == old(out)@ + row(label@, width as nat, value@),
{
    let mut line: String = "  ".to_owned();
    push_padded(&mut line, label, width);
    line.append(" ");
    line.append(value);
    line.append("\n");
    out.append(line.as_str());
}

/// A line of a section that is a remark.
fn push_remark(out: &mut String, text: &str)
    ensures
        final(out)@ == old(out)@ + remark(text@),
{
    let mut line: String = "  ".to_owned();
    line.append(text);
    line.append("\n");
    out.append(line.as_str());
}

/// One certificate of the chain, as sent.
pub struct ChainLink {
    pub subject: String,
    pub issuer: String,
}

/// What a handshake on port 443 showed.
pub struct Tls {
    pub protocol: Option<String>,
    pub cipher: Option<String>,
    pub subject: Option<String>,
    pub issuer: Option<String>,
    pub key: Option<String>,
    pub signature: Option<String>,
    pub serial: Option<String>,
    /// The names the certificate is for.
    pub names: Vec<String>,
    pub not_before: Option<String>,
    pub not_after: Option<String>,
    /// Days until it expires, negative where it has.
    pub days_left: Option<i64>,
    pub chain: Vec<ChainLink>,
    /// The verdict on the chain.
    pub verify: Option<String>,
}

/// How asking for a certificate ended.
pub enum Handshake {
    /// There is no tool to ask with.
    NoTool,
    /// No certificate came: why not, and whether the port is open.
    Nothing(String, bool),
    Shown(Tls),
}

/// A row that is there where its value is.
pub open spec fn optional_row(label: Seq<char>, value: Option<String>) -> Seq<char> {
    match value {
        Some(v) => row(label, 10, v@),
        None => seq![],
    }
}

/// The rows of what was negotiated and of the certificate's own fields.
pub open spec fn tls_fields(tls: Tls) -> Seq<char> {
    optional_row("protocol"@, tls.protocol) + optional_row("cipher"@, tls.cipher) + optional_row(
        "subject"@,
        tls.subject,
    ) + optional_row("issuer"@, tls.issuer) + optional_row("key"@, tls.key) + optional_row(
        "signature"@,
        tls.signature,
    ) + optional_row("serial"@, tls.serial)
}

/// Whatever the handshake showed has its row, in order, and what it did not show has none.
pub proof fn law_every_field_of_the_handshake_is_shown(tls: Tls)
    ensures
        tls_fields(tls) == seq![
            ("protocol"@, tls.protocol),
            ("cipher"@, tls.cipher),
            ("subject"@, tls.subject),
            ("issuer"@, tls.issuer),
            ("key"@, tls.key),
            ("signature"@, tls.signature),
            ("serial"@, tls.serial),
        ].flat_map(
            |field: (Seq<char>, Option<String>)|
                match field.1 {
                    Some(value) => "  "@ + padded(field.0, 10) + " "@ + value@ + "\n"@,
                    None => seq![],
                },
        ),
{
    let f = |field: (Seq<char>, Option<String>)|
        match field.1 {
            Some(value) => "  "@ + padded(field.0, 10) + " "@ + value@ + "\n"@,
            None => seq![],
        };
    let all = seq![
        ("protocol"@, tls.protocol),
        ("cipher"@, tls.cipher),
        ("subject"@, tls.subject),
        ("issuer"@, tls.issuer),
        ("key"@, tls.key),
        ("signature"@, tls.signature),
        ("serial"@, tls.serial),
    ];
    lemma_flat_map_last(all, f, 7);
    lemma_flat_map_last(all, f, 6);
    lemma_flat_map_last(all, f, 5);
    lemma_flat_map_last(all, f, 4);
    lemma_flat_map_last(all, f, 3);
    lemma_flat_map_last(all, f, 2);
    lemma_flat_map_last(all, f, 1);
    assert(all.take(7) =~= all);
    assert(all.take(0).map_values(f) =~= seq![]);
    assert(all.take(0).flat_map(f) =~= seq![]);
    assert(all.take(1).flat_map(f) =~= optional_row("protocol"@, tls.protocol));
}

/// The rows of the first `n` packed lines of names.
pub open spec fn name_rows(lines: Seq<Seq<char>>, n: nat) -> Seq<char>
    decreases n,
{
    if n == 0 {
        seq![]
    } else {
        name_rows(lines, (n - 1) as nat) + row(
            if n == 1 {
                "valid for"@
            } else {
                ""@
            },
            10,
            lines[n - 1],
        )
    }
}

/// Every line of names is shown, in order, the first under its label.
pub proof fn law_every_packed_line_is_shown(lines: Seq<Seq<char>>, n: nat)
    requires
        n <= lines.len(),
    ensures
        name_rows(lines, n) == Seq::new(
            n,
            |i: int|
                "  "@ + padded(
                    if i == 0 {
                        "valid for"@
                    } else {
                        ""@
                    },
                    10,
                ) + " "@ + lines[i] + "\n"@,
        ).flatten(),
    decreases n,
{
    if n > 0 {
        law_every_packed_line_is_shown(lines, (n - 1) as nat);
        lemma_parts_last(
            |i: int|
                "  "@ + padded(
                    if i == 0 {
                        "valid for"@
                    } else {
                        ""@
                    },
                    10,
                ) + " "@ + lines[i] + "\n"@,
            n,
        );
    }
}

/// Whether some name of the certificate covers the host.
pub open spec fn covered(names: Seq<Seq<char>>, host: Seq<char>) -> bool {
    exists|i: int| 0 <= i < names.len() && covers(#[trigger] names[i], host)
}

/// How many columns the names may take in a window of `width`.
pub open spec fn names_width(width: nat) -> nat {
    if width < 40 {
        27
    } else {
        (width - 13) as nat
    }
}

/// The rows of the names, and of the host not being among them.
pub open spec fn names_text(
    names: Seq<Seq<char>>,
    host: Seq<char>,
    width: nat,
    problematic: Paint,
) -> Seq<char> {
    if names.len() == 0 {
        seq![]
    } else {
        let lines = pack(names, names_width(width));
        name_rows(lines, lines.len()) + (if covered(names, host) {
            seq![]
        } else {
            row(""@, 10, painted(problematic, "does NOT cover "@ + host))
        })
    }
}

/// Every name is shown, and a host that none of them covers is told of.
pub proof fn law_an_uncovered_host_is_told_of(
    names: Seq<Seq<char>>,
    host: Seq<char>,
    width: nat,
    problematic: Paint,
)
    requires
        names.len() > 0,
    ensures
        ({
            let lines = pack(names, names_width(width));
            names_text(names, host, width, problematic) == name_rows(lines, lines.len()) + (
            if covered(names, host) {
                ""@
            } else {
                "  "@ + padded(""@, 10) + " "@ + painted(problematic, "does NOT cover "@ + host) + "\n"@
            })
        }),
{
    reveal_strlit("");
    assert(""@ =~= seq![]);
}

/// A host that no name of the certificate covers is said not to be covered; where any name does,
/// whichever it is, it is not said.
pub proof fn law_any_name_can_cover_the_host(
    names: Seq<Seq<char>>,
    host: Seq<char>,
    width: nat,
    problematic: Paint,
)
    requires
        names.len() > 0,
    ensures
        ({
            let lines = pack(names, names_width(width));
            &&& (exists|i: int| 0 <= i < names.len() && covers(#[trigger] names[i], host))
                ==> names_text(names, host, width, problematic) == name_rows(lines, lines.len())
            &&& (forall|i: int| 0 <= i < names.len() ==> !covers(#[trigger] names[i], host))
                ==> names_text(names, host, width, problematic) == name_rows(lines, lines.len()) + (
            "  "@ + padded(""@, 10) + " "@ + painted(problematic, "does NOT cover "@ + host) + "\n"@)
        }),
{
    let lines = pack(names, names_width(width));
    assert(name_rows(lines, lines.len()) + seq![] =~= name_rows(lines, lines.len()));
}

/// How long the certificate has left, in the colour of the urgency.
pub open spec fn countdown(days: Option<i64>, marks: Palette) -> Seq<char> {
    match days {
        Some(d) => if d < 0 {
            painted(marks.problematic, "EXPIRED "@ + decimal((-d) as nat) + " days ago"@)
        } else if d <= 14 {
            painted(marks.problematic, "expires in "@ + decimal(d as nat) + " days"@)
        } else if d <= 30 {
            painted(marks.notice, "expires in "@ + decimal(d as nat) + " days"@)
        } else {
            painted(marks.approved, decimal(d as nat) + " days left"@)
        },
        None => seq![],
    }
}

/// A certificate that has run out or will within two weeks is a problem, one that will within a
/// month is worth a notice, and any other is in order.
pub proof fn law_the_nearer_the_end_the_louder(days: i64, marks: Palette)
    ensures
        countdown(Some(days), marks) == if days < 0 {
            painted(marks.problematic, "EXPIRED "@ + decimal((-days) as nat) + " days ago"@)
        } else if days < 15 {
            painted(marks.problematic, "expires in "@ + decimal(days as nat) + " days"@)
        } else if days < 31 {
            painted(marks.notice, "expires in "@ + decimal(days as nat) + " days"@)
        } else {
            painted(marks.approved, decimal(days as nat) + " days left"@)
        },
{
}

/// The row of the day it expires.
pub open spec fn expiry_row(tls: Tls, marks: Palette) -> Seq<char> {
    match tls.not_after {
        Some(day) => row("expires"@, 10, day@ + "  "@ + countdown(tls.days_left, marks)),
        None => seq![],
    }
}

/// The rows of one certificate of the chain.
pub open spec fn link_rows(link: ChainLink, depth: nat) -> Seq<char> {
    row(
        if depth == 0 {
            "chain"@
        } else {
            ""@
        },
        10,
        decimal(depth) + ": "@ + link.subject@,
    ) + (if link.issuer@.len() > 0 {
        row(""@, 10, "   ← issued by "@ + link.issuer@)
    } else {
        seq![]
    })
}

/// The rows of the first `n` certificates of the chain.
pub open spec fn chain_rows(chain: Seq<ChainLink>, n: nat) -> Seq<char>
    decreases n,
{
    if n == 0 {
        seq![]
    } else {
        chain_rows(chain, (n - 1) as nat) + link_rows(chain[n - 1], (n - 1) as nat)
    }
}

/// Every certificate of the chain is shown, in order, with its depth.
pub proof fn law_every_certificate_of_the_chain_is_shown(chain: Seq<ChainLink>, n: nat)
    requires
        n <= chain.len(),
    ensures
        chain_rows(chain, n) == Seq::new(
            n,
            |i: int| link_rows(chain[i], i as nat),
        ).flatten(),
    decreases n,
{
    if n > 0 {
        law_every_certificate_of_the_chain_is_shown(chain, (n - 1) as nat);
        lemma_parts_last(
            |i: int| link_rows(chain[i], i as nat),
            n,
        );
    }
}

/// The chain as it was sent. A server that leaves its intermediate out still validates for
/// clients that remember one, and fails for the others.
pub open spec fn chain_text(chain: Seq<ChainLink>, notice: Paint) -> Seq<char> {
    if chain.len() > 1 {
        chain_rows(chain, chain.len())
    } else if chain.len() == 1 {
        row(
            "chain"@,
            10,
            painted(notice, "leaf only — the server sent no intermediate certificate"@),
        )
    } else {
        seq![]
    }
}

/// A chain of several certificates is shown whole; one without an intermediate is said to be.
pub proof fn law_the_whole_chain_is_shown(chain: Seq<ChainLink>, notice: Paint)
    ensures
        chain.len() > 1 ==> chain_text(chain, notice) == Seq::new(
            chain.len(),
            |i: int| link_rows(chain[i], i as nat),
        ).flatten(),
        chain.len() == 1 ==> chain_text(chain, notice) == "  "@ + padded("chain"@, 10) + " "@ + painted(
            notice,
            "leaf only — the server sent no intermediate certificate"@,
        ) + "\n"@,
        chain.len() == 0 ==> chain_text(chain, notice) == Seq::<char>::empty(),
{
    if chain.len() > 1 {
        law_every_certificate_of_the_chain_is_shown(chain, chain.len());
    }
}

/// The row of the verdict on the chain.
pub open spec fn verdict_row(verify: Option<String>, marks: Palette) -> Seq<char> {
    match verify {
        Some(v) => row(
            "chain"@,
            10,
            if "0 "@.is_prefix_of(v@) || v@ == "ok"@ {
                painted(marks.approved, "verified"@)
            } else {
                painted(marks.problematic, v@)
            },
        ),
        None => seq![],
    }
}

/// The section on the certificate.
pub open spec fn tls_text(
    host: Seq<char>,
    handshake: Handshake,
    width: nat,
    palette: ExcavatePalette,
) -> Seq<char> {
    let marks = palette.marks;
    section("TLS (443)"@, palette.header) + match handshake {
        Handshake::NoTool => remark(
            painted(marks.problematic, "`openssl` isn't installed — skipping"@),
        ),
        Handshake::Nothing(why, open) => remark(painted(marks.notice, why@)) + (if open {
            remark(
                painted(
                    marks.notice,
                    "port is open but presented no certificate — not a TLS service"@,
                ),
            )
        } else {
            seq![]
        }),
        Handshake::Shown(tls) => tls_fields(tls) + names_text(
            tls.names.deep_view(),
            host,
            width,
            marks.problematic,
        ) + optional_row("issued"@, tls.not_before) + expiry_row(tls, marks) + chain_text(
            tls.chain@,
            marks.notice,
        ) + verdict_row(tls.verify, marks),
    }
}

/// A certificate is shown whole: its fields, the names it covers, from when and until when it is
/// good, its chain, and the verdict on that.
pub proof fn law_the_whole_certificate_is_shown(
    host: Seq<char>,
    tls: Tls,
    width: nat,
    palette: ExcavatePalette,
)
    ensures
        tls_text(host, Handshake::Shown(tls), width, palette) == "\n"@ + painted(
            palette.header,
            "TLS (443)"@,
        ) + "\n"@ + (tls_fields(tls) + names_text(
            tls.names.deep_view(),
            host,
            width,
            palette.marks.problematic,
        ) + (match tls.not_before {
            Some(v) => "  "@ + padded("issued"@, 10) + " "@ + v@ + "\n"@,
            None => seq![],
        }) + expiry_row(tls, palette.marks) + chain_text(tls.chain@, palette.marks.notice) + (
        match tls.verify {
            Some(v) => "  "@ + padded("chain"@, 10) + " "@ + (if "0 "@.is_prefix_of(v@) || v@ == "ok"@ {
                painted(palette.marks.approved, "verified"@)
            } else {
                painted(palette.marks.problematic, v@)
            }) + "\n"@,
            None => seq![],
        })),
{
}

/// A row that is there where its value is.
fn push_optional(out: &mut String, label: &str, value: &Option<String>)
    ensures
        final(out)@ == old(out)@ + optional_row(label@, *value),
{
    match value {
        Some(v) => push_row(out, label, 10, v.as_str()),
        None => {
            assert(old(out)@ + seq![] =~= old(out)@);
        },
    }
}

/// The rows of the names.
fn names_part(names: &Vec<String>, host: &str, width: usize, problematic: &Paint) -> (r: String)
    ensures
        r@ == names_text(names.deep_view(), host@, width as nat, *problematic),
{
    assert(names.deep_view().len() == names@.len());
    if names.len() == 0 {
        return String::new();
    }
    let room: usize = if width < 40 {
        27
    } else {
        width - 13
    };
    let lines: Vec<String> = packed(names, room);
    let mut out: String = String::new();
    let mut i: usize = 0;
    while i < lines.len()
        invariant
            i <= lines.len(),
            out@ == name_rows(lines.deep_view(), i as nat),
        decreases lines.len() - i,
    {
        assert(lines.deep_view()[i as int] == lines@[i as int]@);
        push_row(
            &mut out,
            if i == 0 {
                "valid for"
            } else {
                ""
            },
            10,
            lines[i].as_str(),
        );
        i += 1;
    }
    assert(lines.deep_view().len() == lines@.len());
    let mut k: usize = 0;
    let mut found: bool = false;
    while k < names.len() && !found
        invariant
            k <= names.len(),
            found ==> covered(names.deep_view(), host@),
            !found ==> forall|j: int|
                0 <= j < k ==> !covers(#[trigger] names.deep_view()[j], host@),
        decreases names.len() - k,
    {
        assert(names.deep_view()[k as int] == names@[k as int]@);
        found = name_matches(names[k].as_str(), host);
        k += 1;
    }
    let ghost before = out@;
    if !found {
        let mut text: String = "does NOT cover ".to_owned();
        text.append(host);
        push_row(&mut out, "", 10, problematic.paint(text.as_str()).as_str());
    } else {
        assert(before + seq![] =~= before);
    }
    out
}

/// How long the certificate has left.
fn time_left(days: Option<i64>, marks: &Palette) -> (r: String)
    ensures
        r@ == countdown(days, *marks),
{
    match days {
        None => String::new(),
        Some(d) => if d < 0 {
            let gone: i128 = -(d as i128);
            let mut text: String = "EXPIRED ".to_owned();
            push_decimal(&mut text, gone as u128);
            text.append(" days ago");
            marks.problematic.paint(text.as_str())
        } else if d <= 30 {
            let mut text: String = "expires in ".to_owned();
            push_decimal(&mut text, d as u128);
            text.append(" days");
            if d <= 14 {
                marks.problematic.paint(text.as_str())
            } else {
                marks.notice.paint(text.as_str())
            }
        } else {
            let mut text: String = String::new();
            push_decimal(&mut text, d as u128);
            assert(text@ =~= decimal(d as nat));
            text.append(" days left");
            marks.approved.paint(text.as_str())
        },
    }
}

/// The chain as it was sent.
fn chain_part(chain: &Vec<ChainLink>, notice: &Paint) -> (r: String)
    ensures
        r@ == chain_text(chain@, *notice),
{
    let mut out: String = String::new();
    if chain.len() > 1 {
        let mut i: usize = 0;
        while i < chain.len()
            invariant
                i <= chain.len(),
                out@ == chain_rows(chain@, i as nat),
            decreases chain.len() - i,
        {
            let mut text: String = String::new();
            push_decimal(&mut text, i as u128);
            assert(text@ =~= decimal(i as nat));
            text.append(": ");
            text.append(chain[i].subject.as_str());
            let mut rows: String = String::new();
            push_row(
                &mut rows,
                if i == 0 {
                    "chain"
                } else {
                    ""
                },
                10,
                text.as_str(),
            );
            let ghost first = rows@;
            if !chain[i].issuer.as_str().is_empty() {
                let mut by: String = "   ← issued by ".to_owned();
                by.append(chain[i].issuer.as_str());
                push_row(&mut rows, "", 10, by.as_str());
            }
            assert(rows@ =~= link_rows(chain@[i as int], i as nat));
            out.append(rows.as_str());
            i += 1;
        }
    } else if chain.len() == 1 {
        push_row(
            &mut out,
            "chain",
            10,
            notice.paint("leaf only — the server sent no intermediate certificate").as_str(),
        );
        assert(out@ =~= chain_text(chain@, *notice));
    }
    out
}

/// The section on the certificate: who it is for, who signed it, when it dies.
pub fn tls_section(host: &str, handshake: &Handshake, width: usize, palette: &ExcavatePalette) -> (r:
    String)
    ensures
        r@ == tls_text(host@, *handshake, width as nat, *palette),
{
    let mut out: String = open_section("TLS (443)", &palette.header);
    let marks: &Palette = &palette.marks;
    let mut body: String = String::new();
    match handshake {
        Handshake::NoTool => {
            push_remark(
                &mut body,
                marks.problematic.paint("`openssl` isn't installed — skipping").as_str(),
            );
            assert(body@ =~= remark(
                painted(marks.problematic, "`openssl` isn't installed — skipping"@),
            ));
        },
        Handshake::Nothing(why, open) => {
            push_remark(&mut body, marks.notice.paint(why.as_str()).as_str());
            assert(body@ =~= remark(painted(marks.notice, why@)));
            let ghost before = body@;
            if *open {
                push_remark(
                    &mut body,
                    marks.notice.paint(
                        "port is open but presented no certificate — not a TLS service",
                    ).as_str(),
                );
            } else {
                assert(before + seq![] =~= before);
            }
        },
        Handshake::Shown(tls) => {
            push_optional(&mut body, "protocol", &tls.protocol);
            assert(body@ =~= optional_row("protocol"@, tls.protocol));
            push_optional(&mut body, "cipher", &tls.cipher);
            push_optional(&mut body, "subject", &tls.subject);
            push_optional(&mut body, "issuer", &tls.issuer);
            push_optional(&mut body, "key", &tls.key);
            push_optional(&mut body, "signature", &tls.signature);
            push_optional(&mut body, "serial", &tls.serial);
            body.append(names_part(&tls.names, host, width, &marks.problematic).as_str());
            push_optional(&mut body, "issued", &tls.not_before);
            let ghost before = body@;
            match &tls.not_after {
                Some(day) => {
                    let mut text: String = day.clone();
                    text.append("  ");
                    text.append(time_left(tls.days_left, marks).as_str());
                    push_row(&mut body, "expires", 10, text.as_str());
                },
                None => {
                    assert(before + seq![] =~= before);
                },
            }
            body.append(chain_part(&tls.chain, &marks.notice).as_str());
            let ghost checked = body@;
            match &tls.verify {
                Some(v) => {
                    let vs: Vec<char> = chars_of(v.as_str());
                    let text: String = if begins_with(vs.as_slice(), "0 ") || same_text(
                        v.as_str(),
                        "ok",
                    ) {
                        marks.approved.paint("verified")
                    } else {
                        marks.problematic.paint(v.as_str())
                    };
                    push_row(&mut body, "chain", 10, text.as_str());
                },
                None => {
                    assert(checked + seq![] =~= checked);
                },
            }
        },
    }
    out.append(body.as_str());
    out
}

// --- HTTP -----------------------------------------------------------------------------------

/// One response on the way to where the address leads.
pub struct Hop {
    pub status: String,
    pub location: Option<String>,
}

/// A response header.
pub struct Header {
    pub name: String,
    pub value: String,
}

/// How asking over HTTP ended.
pub enum Fetch {
    /// There is no tool to ask with.
    NoTool,
    /// Neither scheme answered: what is said of port 443, and of port 80.
    Nothing(String, String),
    /// The scheme that answered, the responses, the last one's headers, and the timings as they
    /// are shown.
    Answered(String, Vec<Hop>, Vec<Header>, Option<String>),
}

/// The lines of the first `n` responses.
pub open spec fn hop_lines(hops: Seq<Hop>, n: nat) -> Seq<char>
    decreases n,
{
    if n == 0 {
        seq![]
    } else {
        hop_lines(hops, (n - 1) as nat) + remark(
            decimal(n) + ". "@ + hops[n - 1].status@ + match hops[n - 1].location {
                Some(to) => " → "@ + to@,
                None => seq![],
            },
        )
    }
}

/// Every response is shown, in order and numbered, with where it leads.
pub proof fn law_every_hop_is_shown(hops: Seq<Hop>, n: nat)
    requires
        n <= hops.len(),
    ensures
        hop_lines(hops, n) == Seq::new(
            n,
            |i: int|
                "  "@ + (decimal((i + 1) as nat) + ". "@ + hops[i].status@ + match hops[i].location {
                    Some(to) => " → "@ + to@,
                    None => seq![],
                }) + "\n"@,
        ).flatten(),
    decreases n,
{
    if n > 0 {
        law_every_hop_is_shown(hops, (n - 1) as nat);
        lemma_parts_last(
            |i: int|
                "  "@ + (decimal((i + 1) as nat) + ". "@ + hops[i].status@ + match hops[i].location {
                    Some(to) => " → "@ + to@,
                    None => seq![],
                }) + "\n"@,
            n,
        );
    }
}

/// The rows of the first `n` headers.
pub open spec fn header_rows(headers: Seq<Header>, n: nat) -> Seq<char>
    decreases n,
{
    if n == 0 {
        seq![]
    } else {
        header_rows(headers, (n - 1) as nat) + row(
            headers[n - 1].name@,
            26,
            headers[n - 1].value@,
        )
    }
}

/// Every header is shown, in order.
pub proof fn law_every_header_is_shown(headers: Seq<Header>, n: nat)
    requires
        n <= headers.len(),
    ensures
        header_rows(headers, n) == headers.take(n as int).flat_map(
            |h: Header|
                "  "@ + padded(h.name@, 26) + " "@ + h.value@ + "\n"@,
        ),
    decreases n,
{
    if n > 0 {
        law_every_header_is_shown(headers, (n - 1) as nat);
        lemma_flat_map_last(
            headers,
            |h: Header|
                "  "@ + padded(h.name@, 26) + " "@ + h.value@ + "\n"@,
            n,
        );
    }
}

/// Whether a header is there.
pub open spec fn is_set(headers: Seq<Header>, name: Seq<char>) -> bool {
    exists|i: int| 0 <= i < headers.len() && (#[trigger] headers[i]).name@ == name
}

/// Those of the expected headers that are not there. Absent protections are the finding: nobody
/// is expected to send the headers that only inform.
pub open spec fn unset(expected: Seq<Seq<char>>, headers: Seq<Header>) -> Seq<Seq<char>> {
    expected.filter(|name: Seq<char>| !is_set(headers, name))
}

/// A header that is expected is named as not set exactly where no header of the response, whichever
/// it is, has its name.
pub proof fn law_every_missing_header_is_named(expected: Seq<Seq<char>>, headers: Seq<Header>, i: int)
    requires
        0 <= i < expected.len(),
    ensures
        unset(expected, headers).contains(expected[i]) <==> forall|j: int|
            0 <= j < headers.len() ==> (#[trigger] headers[j]).name@ != expected[i],
{
    let f = |name: Seq<char>| !is_set(headers, name);
    let kept = expected.filter(f);
    if !is_set(headers, expected[i]) {
        expected.lemma_filter_contains(f, i);
    }
    if kept.contains(expected[i]) {
        let k = choose|k: int| 0 <= k < kept.len() && kept[k] == expected[i];
        expected.lemma_filter_pred(f, k);
    }
}

/// The section on HTTP.
pub open spec fn http_text(
    host: Seq<char>,
    fetch: Fetch,
    expected: Seq<Seq<char>>,
    palette: ExcavatePalette,
) -> Seq<char> {
    let marks = palette.marks;
    section("HTTP"@, palette.header) + match fetch {
        Fetch::NoTool => remark(painted(marks.problematic, "`curl` isn't installed — skipping"@)),
        Fetch::Nothing(secure, plain) => remark(painted(marks.notice, secure@)) + remark(
            painted(marks.notice, plain@),
        ),
        Fetch::Answered(scheme, hops, headers, timing) => row(
            "requested"@,
            26,
            scheme@ + "://"@ + host,
        ) + hop_lines(hops@, hops@.len()) + header_rows(headers@, headers@.len()) + (match timing {
            Some(t) => row("negotiated"@, 26, t@),
            None => seq![],
        }) + (if unset(expected, headers@).len() > 0 {
            row("not set"@, 26, painted(marks.notice, join(unset(expected, headers@), ", "@)))
        } else {
            seq![]
        }),
    }
}

/// What was asked for over HTTP is shown whole: the request, every response on the way, every
/// header of the last, the timings, and what is not set.
pub proof fn law_the_whole_answer_is_shown(
    host: Seq<char>,
    scheme: String,
    hops: Vec<Hop>,
    headers: Vec<Header>,
    timing: Option<String>,
    expected: Seq<Seq<char>>,
    palette: ExcavatePalette,
)
    ensures
        http_text(
            host,
            Fetch::Answered(scheme, hops, headers, timing),
            expected,
            palette,
        ) == "\n"@ + painted(palette.header, "HTTP"@) + "\n"@ + ("  "@ + padded("requested"@, 26) + " "@
            + (scheme@ + "://"@ + host) + "\n"@ + Seq::new(
            hops@.len(),
            |i: int|
                "  "@ + (decimal((i + 1) as nat) + ". "@ + hops@[i].status@ + match hops@[i].location {
                    Some(to) => " → "@ + to@,
                    None => seq![],
                }) + "\n"@,
        ).flatten() + headers@.flat_map(
            |h: Header| "  "@ + padded(h.name@, 26) + " "@ + h.value@ + "\n"@,
        ) + (match timing {
            Some(t) => "  "@ + padded("negotiated"@, 26) + " "@ + t@ + "\n"@,
            None => seq![],
        }) + (if unset(expected, headers@).len() > 0 {
            "  "@ + padded("not set"@, 26) + " "@ + painted(
                palette.marks.notice,
                join(unset(expected, headers@), ", "@),
            ) + "\n"@
        } else {
            seq![]
        })),
{
    law_every_hop_is_shown(hops@, hops@.len());
    law_every_header_is_shown(headers@, headers@.len());
    assert(headers@.take(headers@.len() as int) =~= headers@);
}

/// The expected headers that are not there.
fn missing_headers(expected: &Vec<String>, headers: &Vec<Header>) -> (r: Vec<String>)
    ensures
        r.deep_view() == unset(expected.deep_view(), headers@),
{
    let ghost absent = |name: Seq<char>| !is_set(headers@, name);
    let mut out: Vec<String> = Vec::new();
    assert(expected.deep_view().take(0) =~= seq![]);
    assert(expected.deep_view().take(0).filter(absent) =~= seq![]) by {
        reveal(Seq::filter);
    }
    assert(out.deep_view() =~= seq![]);
    let mut i: usize = 0;
    while i < expected.len()
        invariant
            i <= expected.len(),
            absent == (|name: Seq<char>| !is_set(headers@, name)),
            out.deep_view() == expected.deep_view().take(i as int).filter(absent),
        decreases expected.len() - i,
    {
        let name: &str = expected[i].as_str();
        assert(expected.deep_view()[i as int] == name@);
        let mut found: bool = false;
        let mut k: usize = 0;
        while k < headers.len() && !found
            invariant
                k <= headers.len(),
                found ==> is_set(headers@, name@),
                !found ==> forall|j: int| 0 <= j < k ==> (#[trigger] headers@[j]).name@ != name@,
            decreases headers.len() - k,
        {
            found = same_text(headers[k].name.as_str(), name);
            k += 1;
        }
        let ghost before = out.deep_view();
        let ghost seen = expected.deep_view().take(i as int);
        assert(expected.deep_view().take(i + 1) =~= seen.push(name@));
        proof {
            reveal(Seq::filter);
            assert(seen.push(name@).drop_last() =~= seen);
        }
        if !found {
            push_text(&mut out, name);
            assert(out.deep_view() =~= before.push(name@));
        }
        i += 1;
    }
    assert(expected.deep_view().take(i as int) =~= expected.deep_view());
    out
}

/// The section on HTTP: where the address leads, and what the last server says of itself.
pub fn http_section(
    host: &str,
    fetch: &Fetch,
    expected: &Vec<String>,
    palette: &ExcavatePalette,
) -> (r: String)
    ensures
        r@ == http_text(host@, *fetch, expected.deep_view(), *palette),
{
    let mut out: String = open_section("HTTP", &palette.header);
    let marks: &Palette = &palette.marks;
    let mut body: String = String::new();
    match fetch {
        Fetch::NoTool => {
            push_remark(
                &mut body,
                marks.problematic.paint("`curl` isn't installed — skipping").as_str(),
            );
            assert(body@ =~= remark(
                painted(marks.problematic, "`curl` isn't installed — skipping"@),
            ));
        },
        Fetch::Nothing(secure, plain) => {
            push_remark(&mut body, marks.notice.paint(secure.as_str()).as_str());
            assert(body@ =~= remark(painted(marks.notice, secure@)));
            push_remark(&mut body, marks.notice.paint(plain.as_str()).as_str());
        },
        Fetch::Answered(scheme, hops, headers, timing) => {
            let mut asked: String = scheme.clone();
            asked.append("://");
            asked.append(host);
            push_row(&mut body, "requested", 26, asked.as_str());
            let ghost head = row("requested"@, 26, scheme@ + "://"@ + host@);
            assert(body@ =~= head);
            let mut lines: String = String::new();
            let mut i: usize = 0;
            while i < hops.len()
                invariant
                    i <= hops.len(),
                    lines@ == hop_lines(hops@, i as nat),
                decreases hops.len() - i,
            {
                let mut text: String = String::new();
                push_decimal(&mut text, i as u128 + 1);
                assert(text@ =~= decimal((i + 1) as nat));
                text.append(". ");
                text.append(hops[i].status.as_str());
                let ghost before = text@;
                match &hops[i].location {
                    Some(to) => {
                        let mut arrow: String = " → ".to_owned();
                        arrow.append(to.as_str());
                        text.append(arrow.as_str());
                    },
                    None => {
                        assert(before + seq![] =~= before);
                    },
                }
                push_remark(&mut lines, text.as_str());
                i += 1;
            }
            body.append(lines.as_str());
            let mut rows: String = String::new();
            let mut k: usize = 0;
            while k < headers.len()
                invariant
                    k <= headers.len(),
                    rows@ == header_rows(headers@, k as nat),
                decreases headers.len() - k,
            {
                push_row(&mut rows, headers[k].name.as_str(), 26, headers[k].value.as_str());
                k += 1;
            }
            body.append(rows.as_str());
            let ghost before = body@;
            match timing {
                Some(t) => push_row(&mut body, "negotiated", 26, t.as_str()),
                None => {
                    assert(before + seq![] =~= before);
                },
            }
            let ghost timed = body@;
            let missing: Vec<String> = missing_headers(expected, headers);
            assert(missing.deep_view().len() == missing@.len());
            if missing.len() > 0 {
                push_row(
                    &mut body,
                    "not set",
                    26,
                    marks.notice.paint(joined(&missing, ", ").as_str()).as_str(),
                );
            } else {
                assert(timed + seq![] =~= timed);
            }
        },
    }
    out.append(body.as_str());
    out
}

// --- ports and route ------------------------------------------------------------------------

/// A port that answered, and what usually listens there.
pub struct OpenPort {
    pub port: u16,
    pub service: String,
}

/// The rows of the first `n` open ports.
pub open spec fn port_rows(open: Seq<OpenPort>, n: nat) -> Seq<char>
    decreases n,
{
    if n == 0 {
        seq![]
    } else {
        port_rows(open, (n - 1) as nat) + row(
            decimal(open[n - 1].port as nat),
            6,
            open[n - 1].service@,
        )
    }
}

/// Every open port is shown, in order, with its service.
pub proof fn law_every_open_port_is_shown(open: Seq<OpenPort>, n: nat)
    requires
        n <= open.len(),
    ensures
        port_rows(open, n) == open.take(n as int).flat_map(
            |p: OpenPort|
                "  "@ + padded(decimal(p.port as nat), 6) + " "@ + p.service@ + "\n"@,
        ),
    decreases n,
{
    if n > 0 {
        law_every_open_port_is_shown(open, (n - 1) as nat);
        lemma_flat_map_last(
            open,
            |p: OpenPort|
                "  "@ + padded(decimal(p.port as nat), 6) + " "@ + p.service@ + "\n"@,
            n,
        );
    }
}

/// The section on the open ports of the first address.
pub open spec fn ports_text(
    first: Option<Seq<char>>,
    open: Seq<OpenPort>,
    swept: nat,
    palette: ExcavatePalette,
) -> Seq<char> {
    section("Open ports"@, palette.header) + match first {
        None => remark(painted(palette.marks.notice, "no address to scan"@)),
        Some(ip) => if open.len() == 0 {
            remark("none of the "@ + decimal(swept) + " common ports answered on "@ + ip)
        } else {
            port_rows(open, open.len())
        },
    }
}

/// Every port that answered is shown; where none did, how many were tried is said.
pub proof fn law_the_whole_sweep_is_shown(
    ip: Seq<char>,
    open: Seq<OpenPort>,
    swept: nat,
    palette: ExcavatePalette,
)
    ensures
        open.len() > 0 ==> ports_text(Some(ip), open, swept, palette) == "\n"@ + painted(
            palette.header,
            "Open ports"@,
        ) + "\n"@ + open.flat_map(
            |p: OpenPort|
                "  "@ + padded(decimal(p.port as nat), 6) + " "@ + p.service@ + "\n"@,
        ),
        open.len() == 0 ==> ports_text(Some(ip), open, swept, palette) == "\n"@ + painted(
            palette.header,
            "Open ports"@,
        ) + "\n"@ + ("  "@ + ("none of the "@ + decimal(swept) + " common ports answered on "@ + ip)
            + "\n"@),
{
    law_every_open_port_is_shown(open, open.len());
    assert(open.take(open.len() as int) =~= open);
}

/// The section on the open ports. Only the first address is swept: the ports are a property of
/// the host, and every front end of it would repeat the same answer.
pub fn ports_section(
    addresses: &Vec<String>,
    open: &Vec<OpenPort>,
    swept: usize,
    palette: &ExcavatePalette,
) -> (r: String)
    ensures
        r@ == ports_text(
            if addresses@.len() > 0 {
                Some(addresses@[0]@)
            } else {
                None
            },
            open@,
            swept as nat,
            *palette,
        ),
{
    let mut out: String = open_section("Open ports", &palette.header);
    let mut body: String = String::new();
    if addresses.len() == 0 {
        push_remark(&mut body, palette.marks.notice.paint("no address to scan").as_str());
        assert(body@ =~= remark(painted(palette.marks.notice, "no address to scan"@)));
    } else if open.len() == 0 {
        let mut text: String = "none of the ".to_owned();
        push_decimal(&mut text, swept as u128);
        text.append(" common ports answered on ");
        text.append(addresses[0].as_str());
        push_remark(&mut body, text.as_str());
        assert(body@ =~= remark(text@));
    } else {
        let mut i: usize = 0;
        while i < open.len()
            invariant
                i <= open.len(),
                body@ == port_rows(open@, i as nat),
            decreases open.len() - i,
        {
            let mut number: String = String::new();
            push_decimal(&mut number, open[i].port as u128);
            assert(number@ =~= decimal(open@[i as int].port as nat));
            push_row(&mut body, number.as_str(), 6, open[i].service.as_str());
            i += 1;
        }
    }
    out.append(body.as_str());
    out
}

/// The section on the route, up to what the tracing program prints, and the program's arguments
/// where it is there.
pub fn trace_section(host: &str, installed: bool, palette: &ExcavatePalette) -> (r: (
    String,
    Option<Vec<String>>,
))
    ensures
        r.0@ == section("Route"@, palette.header) + (if installed {
            seq![]
        } else {
            remark(painted(palette.marks.notice, "`traceroute` isn't installed"@))
        }),
        r.1 is Some == installed,
        r.1 matches Some(argv) ==> argv.deep_view() == seq![
            "-n"@,
            "-w"@,
            "2"@,
            "-q"@,
            "1"@,
            "-m"@,
            "20"@,
            host@,
        ],
{
    let mut out: String = open_section("Route", &palette.header);
    let ghost before = out@;
    if !installed {
        push_remark(&mut out, palette.marks.notice.paint("`traceroute` isn't installed").as_str());
        return (out, None);
    }
    assert(before + seq![] =~= before);
    let mut argv: Vec<String> = Vec::new();
    assert(argv.deep_view() =~= seq![]);
    push_text(&mut argv, "-n");
    push_text(&mut argv, "-w");
    push_text(&mut argv, "2");
    push_text(&mut argv, "-q");
    push_text(&mut argv, "1");
    push_text(&mut argv, "-m");
    push_text(&mut argv, "20");
    push_text(&mut argv, host);
    (out, Some(argv))
}

} // verus!
