//! Finding hidden characters in text, and AI provenance in metadata (`anti_ai_*`).
//!
//! Deliberately detect only: reporting where something is is a different act from altering a
//! file. The codepoints are printed by name, so that a reader can judge whether a given one is a
//! carrier, an emoji joiner, or ordinary orthography.

use vstd::prelude::*;
use vstd::slice::slice_subrange;
use vstd::string::*;
use crate::args::SkipArgs;
use crate::bytes::{read_utf8, utf8_text};
use crate::metadata::{extract, extracted, file_format, handles, Finding, FindingView, Why, WhyView};
use crate::sequences::{lemma_filter_last, lemma_flat_map_last, lemma_parts_last};
use crate::style::{painted, Paint, Palette};
use crate::text::{
    char_at, chars_of, code_of, decimal, hex, join, joined, lines, lines_of, parse_decimal,
    parse_number, push_decimal, push_hex, push_text, string_of, trim, trimmed,
};

verus! {

// --- hidden characters ----------------------------------------------------------------------

/// The class of exotic spaces.
pub const SPACE: &'static str = "space";

/// What class of hidden character this is, or `None` if it is ordinary text.
pub open spec fn kind(ch: char) -> Option<Seq<char>> {
    let c = ch as u32;
    if c == 0x200b || c == 0x200c || c == 0x200d || c == 0x2060 || c == 0xfeff {
        Some("zero-width"@)
    } else if c == 0x200e || c == 0x200f || 0x202a <= c <= 0x202e || 0x2066 <= c <= 0x2069 || c
        == 0x061c {
        Some("bidi"@)
    } else if 0xe0000 <= c <= 0xe007f {
        Some("tag-char"@)
    } else if 0xfe00 <= c <= 0xfe0f || 0xe0100 <= c <= 0xe01ef {
        Some("variation-selector"@)
    } else if c == 0x00ad || c == 0x034f || 0x180b <= c <= 0x180e || 0x2061 <= c <= 0x2064 || 0x206a
        <= c <= 0x206f {
        Some("format-control"@)
    } else if 0xfff9 <= c <= 0xfffb {
        Some("annotation"@)
    } else if c == 0x2028 || c == 0x2029 {
        Some("line-separator"@)
    } else if c == 0x00a0 || c == 0x1680 || 0x2000 <= c <= 0x200a || c == 0x202f || c == 0x205f || c
        == 0x3000 {
        Some(SPACE@)
    } else {
        None
    }
}

/// What class of hidden character this is, or `None` if it is ordinary text: an explicit table
/// of the format and invisible blocks that are used as carriers. Line separators hide inside
/// what counts as one line here; the spaces are the whole Zs category but for U+0020.
pub fn kind_of(ch: char) -> (r: Option<&'static str>)
    ensures
        r.deep_view() == kind(ch),
{
    let c: u32 = ch as u32;
    if c == 0x200b || c == 0x200c || c == 0x200d || c == 0x2060 || c == 0xfeff {
        Some("zero-width")
    } else if c == 0x200e || c == 0x200f || (0x202a <= c && c <= 0x202e) || (0x2066 <= c && c
        <= 0x2069) || c == 0x061c {
        Some("bidi")
    } else if 0xe0000 <= c && c <= 0xe007f {
        Some("tag-char")
    } else if (0xfe00 <= c && c <= 0xfe0f) || (0xe0100 <= c && c <= 0xe01ef) {
        Some("variation-selector")
    } else if c == 0x00ad || c == 0x034f || (0x180b <= c && c <= 0x180e) || (0x2061 <= c && c
        <= 0x2064) || (0x206a <= c && c <= 0x206f) {
        Some("format-control")
    } else if 0xfff9 <= c && c <= 0xfffb {
        Some("annotation")
    } else if c == 0x2028 || c == 0x2029 {
        Some("line-separator")
    } else if c == 0x00a0 || c == 0x1680 || (0x2000 <= c && c <= 0x200a) || c == 0x202f || c == 0x205f
        || c == 0x3000 {
        Some(SPACE)
    } else {
        None
    }
}

/// Whether this character is here to build an emoji rather than to hide a payload.
pub open spec fn emoji_use(ch: char, previous: Option<char>) -> bool {
    let c = ch as u32;
    if 0xfe00 <= c <= 0xfe0f || 0xe0100 <= c <= 0xe01ef || 0xe0000 <= c <= 0xe007f {
        true
    } else if c == 0x200c || c == 0x200d {
        previous matches Some(prev) && prev as u32 >= 0x80
    } else {
        false
    }
}

/// Whether this character is here to build an emoji rather than to hide a payload. Variation
/// selectors and tag characters are emoji machinery; a joiner is where it follows a non-ASCII
/// character.
pub fn is_emoji_use(ch: char, previous: Option<char>) -> (r: bool)
    ensures
        r == emoji_use(ch, previous),
{
    let c: u32 = ch as u32;
    if (0xfe00 <= c && c <= 0xfe0f) || (0xe0100 <= c && c <= 0xe01ef) || (0xe0000 <= c && c
        <= 0xe007f) {
        true
    } else if c == 0x200c || c == 0x200d {
        match previous {
            Some(prev) => code_of(prev) >= 0x80,
            None => false,
        }
    } else {
        false
    }
}

/// One hidden character: its column from one, itself, and its class.
pub struct Hit {
    pub column: usize,
    pub ch: char,
    pub kind: &'static str,
}

/// Every hidden character on one line.
pub struct LineHits {
    /// The number of the line, from one.
    pub number: usize,
    pub text: String,
    pub chars: Vec<Hit>,
}

/// A hidden character, by what it says.
pub struct HitView {
    pub column: nat,
    /// The code point of the character.
    pub code: int,
    pub kind: Seq<char>,
}

/// The hidden characters of a line, by what they say.
pub struct LineView {
    pub number: nat,
    pub text: Seq<char>,
    pub chars: Seq<HitView>,
}

impl View for Hit {
    type V = HitView;

    open spec fn view(&self) -> HitView {
        HitView { column: self.column as nat, code: self.ch as int, kind: self.kind@ }
    }
}

impl DeepView for Hit {
    type V = HitView;

    open spec fn deep_view(&self) -> HitView {
        self@
    }
}

impl View for LineHits {
    type V = LineView;

    open spec fn view(&self) -> LineView {
        LineView { number: self.number as nat, text: self.text@, chars: self.chars.deep_view() }
    }
}

impl DeepView for LineHits {
    type V = LineView;

    open spec fn deep_view(&self) -> LineView {
        self@
    }
}

/// Whether the character at `i` in a line is reported: it is hidden, and neither a silenced
/// space nor silenced emoji machinery.
pub open spec fn reported(line: Seq<char>, i: int, spaces: bool, emoji: bool) -> bool {
    match kind(line[i]) {
        Some(k) => if k == SPACE@ {
            spaces
        } else {
            emoji || !emoji_use(
                line[i],
                if i > 0 {
                    Some(line[i - 1])
                } else {
                    None
                },
            )
        },
        None => false,
    }
}

/// A hidden character is reported unless it is an exotic space and those are silenced, or it builds
/// an emoji and those are not asked for: a variation selector or a tag, or a joiner behind a
/// character beyond ASCII.
pub proof fn law_what_is_reported(line: Seq<char>, i: int, spaces: bool, emoji: bool)
    requires
        0 <= i < line.len(),
    ensures
        ({
            let c = line[i] as u32;
            let builds = 0xfe00 <= c <= 0xfe0f || 0xe0100 <= c <= 0xe01ef || 0xe0000 <= c <= 0xe007f
                || ((c == 0x200c || c == 0x200d) && i > 0 && line[i - 1] as u32 >= 0x80);
            reported(line, i, spaces, emoji) <==> kind(line[i]) is Some && (if kind(line[i])
                == Some("space"@) {
                spaces
            } else {
                emoji || !builds
            })
        }),
{
}

/// The reported characters among the first `n` of a line.
pub open spec fn line_hits(line: Seq<char>, n: nat, spaces: bool, emoji: bool) -> Seq<HitView>
    decreases n,
{
    if n == 0 {
        seq![]
    } else {
        let before = line_hits(line, (n - 1) as nat, spaces, emoji);
        if reported(line, n - 1, spaces, emoji) {
            before.push(HitView { column: n, code: line[n - 1] as int, kind: kind(line[n - 1])->0 })
        } else {
            before
        }
    }
}

/// The lines among the first `n` that have something to report.
pub open spec fn scanned(ls: Seq<Seq<char>>, n: nat, spaces: bool, emoji: bool) -> Seq<LineView>
    decreases n,
{
    if n == 0 {
        seq![]
    } else {
        let before = scanned(ls, (n - 1) as nat, spaces, emoji);
        let line = ls[n - 1];
        let hits = line_hits(line, line.len(), spaces, emoji);
        if hits.len() > 0 {
            before.push(LineView { number: n, text: line, chars: hits })
        } else {
            before
        }
    }
}

/// Every line of a text that has something to report.
pub open spec fn scan_of(text: Seq<char>, spaces: bool, emoji: bool) -> Seq<LineView> {
    scanned(lines(text), lines(text).len(), spaces, emoji)
}

/// The reported characters of a line.
fn scan_line(line: &str, spaces: bool, emoji: bool) -> (r: Vec<Hit>)
    ensures
        r.deep_view() == line_hits(line@, line@.len(), spaces, emoji),
{
    let cs: Vec<char> = chars_of(line);
    let mut hits: Vec<Hit> = Vec::new();
    let mut i: usize = 0;
    assert(hits.deep_view() =~= seq![]);
    while i < cs.len()
        invariant
            i <= cs.len(),
            cs@ == line@,
            hits.deep_view() == line_hits(line@, i as nat, spaces, emoji),
        decreases cs.len() - i,
    {
        let ch: char = char_at(cs.as_slice(), i);
        match kind_of(ch) {
            Some(k) => {
                let previous: Option<char> = if i > 0 {
                    Some(cs[i - 1])
                } else {
                    None
                };
                let wanted: bool = if crate::text::same_text(k, SPACE) {
                    spaces
                } else {
                    emoji || !is_emoji_use(ch, previous)
                };
                if wanted {
                    hits.push(Hit { column: i + 1, ch, kind: k });
                    assert(hits.deep_view() =~= line_hits(line@, (i + 1) as nat, spaces, emoji));
                }
            },
            None => {},
        }
        i += 1;
    }
    hits
}

/// Scan `text` line by line. `spaces` says whether exotic spaces are reported, `emoji` whether
/// the characters that build emoji are.
pub fn scan(text: &str, spaces: bool, emoji: bool) -> (r: Vec<LineHits>)
    ensures
        r.deep_view() == scan_of(text@, spaces, emoji),
{
    let cs: Vec<char> = chars_of(text);
    let ls: Vec<String> = lines_of(cs.as_slice());
    let mut found: Vec<LineHits> = Vec::new();
    let mut i: usize = 0;
    assert(found.deep_view() =~= seq![]);
    while i < ls.len()
        invariant
            i <= ls.len(),
            ls.deep_view() == lines(text@),
            found.deep_view() == scanned(lines(text@), i as nat, spaces, emoji),
        decreases ls.len() - i,
    {
        assert(ls@[i as int]@ == ls.deep_view()[i as int]);
        let chars: Vec<Hit> = scan_line(ls[i].as_str(), spaces, emoji);
        let ghost before = found.deep_view();
        assert(chars.deep_view().len() == chars@.len());
        if chars.len() > 0 {
            found.push(LineHits { number: i + 1, text: ls[i].clone(), chars });
            assert(found.deep_view() =~= scanned(lines(text@), (i + 1) as nat, spaces, emoji));
        }
        i += 1;
    }
    found
}

// --- rendering ------------------------------------------------------------------------------

/// Whether a hit stands at a column.
pub open spec fn hit_at(hits: Seq<HitView>, column: nat) -> bool {
    exists|j: int| 0 <= j < hits.len() && (#[trigger] hits[j]).column == column
}

/// The first `n` characters of a line, every one with a hit replaced by its codepoint.
pub open spec fn visible_line(line: Seq<char>, hits: Seq<HitView>, n: nat, paint: Paint) -> Seq<char>
    decreases n,
{
    if n == 0 {
        seq![]
    } else {
        let before = visible_line(line, hits, (n - 1) as nat, paint);
        if hit_at(hits, n) {
            before + painted(paint, "<U+"@ + hex(line[n - 1] as nat, 4) + ">"@)
        } else {
            before + seq![line[n - 1]]
        }
    }
}

/// A rendered line is the line, character by character: one that has a hit stands as its code
/// point in angle brackets, any other as itself.
pub proof fn law_a_rendered_line_keeps_its_characters(
    line: Seq<char>,
    hits: Seq<HitView>,
    n: nat,
    paint: Paint,
)
    requires
        n <= line.len(),
    ensures
        visible_line(line, hits, n, paint) == Seq::new(
            n,
            |i: int|
                if exists|j: int| 0 <= j < hits.len() && (#[trigger] hits[j]).column == i + 1 {
                    painted(paint, "<U+"@ + hex(line[i] as nat, 4) + ">"@)
                } else {
                    seq![line[i]]
                },
        ).flatten(),
    decreases n,
{
    if n > 0 {
        law_a_rendered_line_keeps_its_characters(line, hits, (n - 1) as nat, paint);
        lemma_parts_last(
            |i: int|
                if exists|j: int| 0 <= j < hits.len() && (#[trigger] hits[j]).column == i + 1 {
                    painted(paint, "<U+"@ + hex(line[i] as nat, 4) + ">"@)
                } else {
                    seq![line[i]]
                },
            n,
        );
    }
}

/// Whether a hit stands at a column.
fn has_hit(hits: &Vec<Hit>, column: usize) -> (r: bool)
    ensures
        r == hit_at(hits.deep_view(), column as nat),
{
    let mut j: usize = 0;
    while j < hits.len()
        invariant
            j <= hits.len(),
            forall|k: int| 0 <= k < j ==> (#[trigger] hits.deep_view()[k]).column != column,
        decreases hits.len() - j,
    {
        assert(hits.deep_view()[j as int] == hits@[j as int]@);
        if hits[j].column == column {
            return true;
        }
        j += 1;
    }
    assert(hits.deep_view().len() == hits@.len());
    false
}

/// The line with every *reported* hidden character replaced by its codepoint in angle brackets.
/// Driven by the hit list, so the markers and the list above them never disagree.
pub fn visible(line: &str, hits: &Vec<Hit>, paint: &Paint) -> (r: String)
    ensures
        r@ == visible_line(line@, hits.deep_view(), line@.len(), *paint),
{
    let cs: Vec<char> = chars_of(line);
    let mut out: String = String::new();
    let mut i: usize = 0;
    while i < cs.len()
        invariant
            i <= cs.len(),
            cs@ == line@,
            out@ == visible_line(line@, hits.deep_view(), i as nat, *paint),
        decreases cs.len() - i,
    {
        let ch: char = char_at(cs.as_slice(), i);
        let ghost before = out@;
        if has_hit(hits, i + 1) {
            let mut code: String = "<U+".to_owned();
            push_hex(&mut code, code_of(ch), 4);
            code.append(">");
            out.append(paint.paint(code.as_str()).as_str());
        } else {
            out.push(ch);
            assert(out@ =~= before + seq![ch]);
        }
        i += 1;
    }
    out
}

/// A hidden character by name: its column, its codepoint and its class.
pub open spec fn hit_name(h: HitView) -> Seq<char> {
    "col "@ + decimal(h.column) + ": U+"@ + hex(h.code as nat, 4) + " ["@ + h.kind + "]"@
}

/// The names of hidden characters.
pub open spec fn hit_names(hits: Seq<HitView>) -> Seq<Seq<char>> {
    hits.map_values(|h: HitView| hit_name(h))
}

/// The report of one line: the hidden characters by name, then the line with them made visible.
pub open spec fn line_report(line: LineView, paint: Paint) -> Seq<char> {
    "  "@ + decimal(line.number) + ": "@ + join(hit_names(line.chars), ", "@) + "\n     "@
        + visible_line(line.text, line.chars, line.text.len(), paint) + "\n"@
}

/// The report of the first `n` lines.
pub open spec fn hits_report(hits: Seq<LineView>, n: nat, paint: Paint) -> Seq<char>
    decreases n,
{
    if n == 0 {
        seq![]
    } else {
        hits_report(hits, (n - 1) as nat, paint) + line_report(hits[n - 1], paint)
    }
}

/// Each line with a hidden character is reported, in order: its number, its hits by name, and the
/// line itself.
pub proof fn law_every_line_is_reported(hits: Seq<LineView>, n: nat, paint: Paint)
    requires
        n <= hits.len(),
    ensures
        hits_report(hits, n, paint) == hits.take(n as int).flat_map(
            |line: LineView|
                "  "@ + decimal(line.number) + ": "@ + join(hit_names(line.chars), ", "@) + "\n     "@
                    + visible_line(line.text, line.chars, line.text.len(), paint) + "\n"@,
        ),
    decreases n,
{
    if n > 0 {
        law_every_line_is_reported(hits, (n - 1) as nat, paint);
        lemma_flat_map_last(
            hits,
            |line: LineView|
                "  "@ + decimal(line.number) + ": "@ + join(hit_names(line.chars), ", "@) + "\n     "@
                    + visible_line(line.text, line.chars, line.text.len(), paint) + "\n"@,
            n,
        );
    }
}

/// A hidden character by name.
fn name_hit(h: &Hit) -> (r: String)
    ensures
        r@ == hit_name(h@),
{
    let mut out: String = "col ".to_owned();
    push_decimal(&mut out, h.column as u128);
    out.append(": U+");
    push_hex(&mut out, code_of(h.ch), 4);
    out.append(" [");
    out.append(h.kind);
    out.append("]");
    out
}

/// The names of hidden characters.
fn name_hits(hits: &Vec<Hit>) -> (r: Vec<String>)
    ensures
        r.deep_view() == hit_names(hits.deep_view()),
{
    let mut out: Vec<String> = Vec::new();
    let mut i: usize = 0;
    while i < hits.len()
        invariant
            i <= hits.len(),
            out.len() == i,
            forall|j: int| 0 <= j < i ==> (#[trigger] out@[j])@ == hit_name(hits@[j]@),
        decreases hits.len() - i,
    {
        out.push(name_hit(&hits[i]));
        i += 1;
    }
    assert(out.deep_view() =~= hit_names(hits.deep_view()));
    out
}

/// The report of one line.
fn report_line(line: &LineHits, paint: &Paint) -> (r: String)
    ensures
        r@ == line_report(line@, *paint),
{
    let mut out: String = "  ".to_owned();
    push_decimal(&mut out, line.number as u128);
    out.append(": ");
    out.append(joined(&name_hits(&line.chars), ", ").as_str());
    out.append("\n     ");
    out.append(visible(line.text.as_str(), &line.chars, paint).as_str());
    out.append("\n");
    out
}

/// One file's hidden characters: each offending line's by name, then the line itself.
pub fn report_file(hits: &Vec<LineHits>, paint: &Paint) -> (r: String)
    ensures
        r@ == hits_report(hits.deep_view(), hits.deep_view().len(), *paint),
{
    let mut out: String = String::new();
    let mut i: usize = 0;
    while i < hits.len()
        invariant
            i <= hits.len(),
            out@ == hits_report(hits.deep_view(), i as nat, *paint),
        decreases hits.len() - i,
    {
        assert(hits.deep_view()[i as int] == hits@[i as int]@);
        out.append(report_line(&hits[i], paint).as_str());
        i += 1;
    }
    assert(hits.deep_view().len() == hits@.len());
    out
}

/// How many characters of a value a report line shows.
pub const DISPLAY_LIMIT: usize = 160;

/// A value as a report line shows it: cut after the limit, with its length.
pub open spec fn displayed(value: Seq<char>) -> Seq<char> {
    if value.len() <= DISPLAY_LIMIT {
        value
    } else {
        value.take(DISPLAY_LIMIT as int) + "… ("@ + decimal(value.len()) + " chars)"@
    }
}

/// A value is shown whole up to its limit; of a longer one the front is shown, and how long it is.
pub proof fn law_a_shown_value_is_the_front_of_it(value: Seq<char>)
    ensures
        value.len() <= 160 ==> displayed(value) == value,
        value.len() > 160 ==> displayed(value) == value.take(160) + "… ("@ + decimal(value.len())
            + " chars)"@,
{
}

/// Values fit on a report line: past a screenful the reader has the field name and the file to
/// go look.
pub fn display_value(value: &str) -> (r: String)
    ensures
        r@ == displayed(value@),
{
    let cs: Vec<char> = chars_of(value);
    if cs.len() <= DISPLAY_LIMIT {
        value.to_owned()
    } else {
        let mut out: String = string_of(slice_subrange(cs.as_slice(), 0, DISPLAY_LIMIT));
        out.append("… (");
        push_decimal(&mut out, cs.len() as u128);
        out.append(" chars)");
        out
    }
}

/// The tag that says why a finding made the report; inventory has none.
pub open spec fn why_tag(why: WhyView, palette: Palette) -> Seq<char> {
    match why {
        WhyView::Marker(m) => "  "@ + painted(palette.problematic, "[marker: "@ + m + "]"@),
        WhyView::ProvenanceField => "  "@ + painted(palette.notice, "[provenance field]"@),
        WhyView::Everything => seq![],
    }
}

/// The report of one finding.
pub open spec fn finding_report(f: FindingView, palette: Palette) -> Seq<char> {
    "  "@ + f.field + ": "@ + displayed(f.value) + why_tag(f.why, palette) + "\n"@
}

/// The report of the first `n` findings.
pub open spec fn findings_report(fs: Seq<FindingView>, n: nat, palette: Palette) -> Seq<char>
    decreases n,
{
    if n == 0 {
        seq![]
    } else {
        findings_report(fs, (n - 1) as nat, palette) + finding_report(fs[n - 1], palette)
    }
}

/// Each finding is reported, in order: its field, its value cut for display, and why it is there.
pub proof fn law_every_finding_is_reported(fs: Seq<FindingView>, n: nat, palette: Palette)
    requires
        n <= fs.len(),
    ensures
        findings_report(fs, n, palette) == fs.take(n as int).flat_map(
            |f: FindingView|
                "  "@ + f.field + ": "@ + displayed(f.value) + why_tag(f.why, palette) + "\n"@,
        ),
    decreases n,
{
    if n > 0 {
        law_every_finding_is_reported(fs, (n - 1) as nat, palette);
        lemma_flat_map_last(
            fs,
            |f: FindingView|
                "  "@ + f.field + ": "@ + displayed(f.value) + why_tag(f.why, palette) + "\n"@,
            n,
        );
    }
}

/// The tag that says why a finding made the report.
fn tag_of(why: &Why, palette: &Palette) -> (r: String)
    ensures
        r@ == why_tag(why@, *palette),
{
    match why {
        Why::Marker(m) => {
            let mut tag: String = "[marker: ".to_owned();
            tag.append(m.as_str());
            tag.append("]");
            let mut out: String = "  ".to_owned();
            out.append(palette.problematic.paint(tag.as_str()).as_str());
            out
        },
        Why::ProvenanceField => {
            let mut out: String = "  ".to_owned();
            out.append(palette.notice.paint("[provenance field]").as_str());
            out
        },
        Why::Everything => String::new(),
    }
}

/// One file's metadata findings: the field, the value cut for display, and why it made the
/// report.
pub fn report_metadata(findings: &Vec<Finding>, palette: &Palette) -> (r: String)
    ensures
        r@ == findings_report(findings.deep_view(), findings.deep_view().len(), *palette),
{
    let mut out: String = String::new();
    let mut i: usize = 0;
    while i < findings.len()
        invariant
            i <= findings.len(),
            out@ == findings_report(findings.deep_view(), i as nat, *palette),
        decreases findings.len() - i,
    {
        assert(findings.deep_view()[i as int] == findings@[i as int]@);
        let f: &Finding = &findings[i];
        let mut line: String = "  ".to_owned();
        line.append(f.field.as_str());
        line.append(": ");
        line.append(display_value(f.value.as_str()).as_str());
        line.append(tag_of(&f.why, palette).as_str());
        line.append("\n");
        out.append(line.as_str());
        i += 1;
    }
    assert(findings.deep_view().len() == findings@.len());
    out
}

// --- scope and sizes ------------------------------------------------------------------------

/// What a walk was allowed to skip: the lean set by referral, the user's patterns by name.
pub open spec fn skip_parts(skip: SkipArgs) -> Seq<Seq<char>> {
    if skip.lean {
        seq!["--lean set (see _arg_lean_spec)"@] + skip.skip_pattern.deep_view()
    } else {
        skip.skip_pattern.deep_view()
    }
}

/// How the summary describes what the walk was allowed to miss.
pub open spec fn scope(skip: SkipArgs) -> Seq<char> {
    if skip_parts(skip).len() == 0 {
        seq![]
    } else {
        " (skipped: "@ + join(skip_parts(skip), ", "@) + ")"@
    }
}

/// What a walk may skip is named, every pattern of it, in order; a walk that may skip nothing says
/// nothing.
pub proof fn law_every_skip_is_named(skip: SkipArgs)
    ensures
        !skip.lean && skip.skip_pattern.deep_view().len() == 0 ==> scope(skip)
            == Seq::<char>::empty(),
        !skip.lean && skip.skip_pattern.deep_view().len() > 0 ==> scope(skip) == " (skipped: "@ + join(
            skip.skip_pattern.deep_view(),
            ", "@,
        ) + ")"@,
        skip.lean ==> scope(skip) == " (skipped: "@ + join(
            seq!["--lean set (see _arg_lean_spec)"@] + skip.skip_pattern.deep_view(),
            ", "@,
        ) + ")"@,
{
}

/// How the summary describes what the walk was allowed to miss: nothing where it missed nothing.
pub fn scope_note(skip: &SkipArgs) -> (r: String)
    ensures
        r@ == scope(*skip),
{
    let mut parts: Vec<String> = Vec::new();
    if skip.lean {
        push_text(&mut parts, "--lean set (see _arg_lean_spec)");
    }
    let ghost head = parts.deep_view();
    let mut i: usize = 0;
    while i < skip.skip_pattern.len()
        invariant
            i <= skip.skip_pattern.len(),
            parts.deep_view() == head + skip.skip_pattern.deep_view().take(i as int),
        decreases skip.skip_pattern.len() - i,
    {
        push_text(&mut parts, skip.skip_pattern[i].as_str());
        assert(parts.deep_view() =~= head + skip.skip_pattern.deep_view().take(i + 1));
        i += 1;
    }
    assert(parts.deep_view() =~= skip_parts(*skip));
    assert(parts.deep_view().len() == parts@.len());
    if parts.len() == 0 {
        String::new()
    } else {
        let mut out: String = " (skipped: ".to_owned();
        out.append(joined(&parts, ", ").as_str());
        out.append(")");
        out
    }
}

/// Whether a character is an ASCII letter.
pub open spec fn is_letter(c: char) -> bool {
    ('a' <= c && c <= 'z') || ('A' <= c && c <= 'Z')
}

/// An ASCII letter in upper case.
pub open spec fn upper_letter(c: char) -> char {
    if 'a' <= c && c <= 'z' {
        (c as u32 - 32) as char
    } else {
        c
    }
}

/// How many bytes one unit of a size suffix is; 0 for a letter that is no suffix.
pub open spec fn suffix_scale(c: char) -> nat {
    if upper_letter(c) == 'K' {
        1024
    } else if upper_letter(c) == 'M' {
        1048576
    } else if upper_letter(c) == 'G' {
        1073741824
    } else {
        0
    }
}

/// A size: bytes, or a number with a `K`, `M` or `G` suffix in either case, in binary multiples.
/// The error says what is wrong.
pub open spec fn size_of_text(raw: Seq<char>) -> Result<nat, Seq<char>> {
    let t = trim(raw);
    if t.len() > 0 && is_letter(t.last()) && suffix_scale(t.last()) == 0 {
        Err("unknown size suffix `"@ + seq![upper_letter(t.last())] + "` (use K, M or G)"@)
    } else {
        let suffixed = t.len() > 0 && is_letter(t.last());
        let digits = if suffixed {
            trim(t.drop_last())
        } else {
            trim(t)
        };
        let scale = if suffixed {
            suffix_scale(t.last())
        } else {
            1
        };
        match parse_decimal(digits, u64::MAX as nat) {
            None => Err("`"@ + raw + "` is not a size (try 512K, 16M, 1G, or a byte count)"@),
            Some(value) => if value * scale > u64::MAX {
                Err("`"@ + raw + "` is larger than this machine can address"@)
            } else {
                Ok(value * scale)
            },
        }
    }
}

/// A size is a number of bytes, or of the unit that the letter behind it stands for, in either case.
pub proof fn law_a_size_counts_its_unit(n: nat, unit: char)
    requires
        n <= u64::MAX,
        unit == 'K' || unit == 'k' || unit == 'M' || unit == 'm' || unit == 'G' || unit == 'g',
    ensures
        size_of_text(decimal(n)) == Ok::<nat, Seq<char>>(n),
        ({
            let scale: nat = if unit == 'K' || unit == 'k' {
                1024
            } else if unit == 'M' || unit == 'm' {
                1024 * 1024
            } else {
                1024 * 1024 * 1024
            };
            n * scale <= u64::MAX ==> size_of_text(decimal(n).push(unit)) == Ok::<nat, Seq<char>>(
                n * scale,
            )
        }),
{
    let d = decimal(n);
    crate::text::law_decimal_reads_back(n);
    assert(crate::text::is_digit(d[0]));
    assert(crate::text::is_digit(d[d.len() - 1]));
    crate::text::lemma_trim_keeps(d);
    let t = d.push(unit);
    crate::text::lemma_trim_keeps(t);
    assert(t.drop_last() =~= d);
    assert(parse_decimal(d, u64::MAX as nat) == Some(n));
}

/// `before`, `raw` and `after` in one text.
fn wrapped(before: &str, raw: &str, after: &str) -> (r: String)
    ensures
        r@ == before@ + raw@ + after@,
{
    let mut out: String = before.to_owned();
    out.append(raw);
    out.append(after);
    out
}

/// A `--max-file-size` value: bytes, or a number with a `K`/`M`/`G` suffix.
pub fn parse_size(raw: &str) -> (r: Result<u64, String>)
    ensures
        match r {
            Ok(n) => size_of_text(raw@) == Ok::<nat, Seq<char>>(n as nat),
            Err(e) => size_of_text(raw@) == Err::<nat, Seq<char>>(e@),
        },
{
    let cs: Vec<char> = chars_of(raw);
    let t: &[char] = trimmed(cs.as_slice());
    let mut digits: &[char] = t;
    let mut scale: u64 = 1;
    if t.len() > 0 {
        let last: char = char_at(t, t.len() - 1);
        if ('a' <= last && last <= 'z') || ('A' <= last && last <= 'Z') {
            let upper: char = if 'a' <= last && last <= 'z' {
                let n: u8 = last as u8;
                (n - 32) as char
            } else {
                last
            };
            if upper == 'K' {
                scale = 1024;
            } else if upper == 'M' {
                scale = 1048576;
            } else if upper == 'G' {
                scale = 1073741824;
            } else {
                let mut e: String = "unknown size suffix `".to_owned();
                let ghost before = e@;
                e.push(upper);
                assert(e@ =~= before + seq![upper]);
                e.append("` (use K, M or G)");
                return Err(e);
            }
            digits = slice_subrange(t, 0, t.len() - 1);
            assert(digits@ =~= t@.drop_last());
        }
    }
    match parse_number(trimmed(digits), u64::MAX) {
        None => Err(wrapped("`", raw, "` is not a size (try 512K, 16M, 1G, or a byte count)")),
        Some(value) => match value.checked_mul(scale) {
            Some(n) => Ok(n),
            None => Err(wrapped("`", raw, "` is larger than this machine can address")),
        },
    }
}

// --- reading --------------------------------------------------------------------------------

/// How much of a file decides whether it is text.
pub const SNIFF_BYTES: u64 = 8192;

/// What a file's first bytes and its size say about reading it.
#[derive(Clone, Copy, PartialEq, Eq, Structural, Debug)]
pub enum ReadPlan {
    /// Binary: only a container that can be decoded has text worth scanning.
    Embedded,
    /// Text, but too big to hold: named and skipped.
    TooBig,
    /// Text to be read whole.
    Whole,
}

/// How many bytes to read before deciding.
pub fn sniff_length(size: u64) -> (r: u64)
    ensures
        r == if size < SNIFF_BYTES {
            size
        } else {
            SNIFF_BYTES
        },
{
    if size < SNIFF_BYTES {
        size
    } else {
        SNIFF_BYTES
    }
}

/// What to do with a file, given its first bytes. A NUL in them means binary, whatever the
/// size; settling that from a prefix is what bounds the cost of a binary file.
pub fn read_plan(head: &[u8], size: u64, max_bytes: u64) -> (r: ReadPlan)
    ensures
        r == if head@.contains(0u8) {
            ReadPlan::Embedded
        } else if size > max_bytes {
            ReadPlan::TooBig
        } else {
            ReadPlan::Whole
        },
{
    let k: usize = crate::bytes::find_byte(head, 0, 0);
    proof {
        crate::bytes::lemma_byte_from(head@, 0, 0);
        if k < head@.len() {
            assert(head@[k as int] == 0u8);
        }
    }
    if k < head.len() {
        ReadPlan::Embedded
    } else if size > max_bytes {
        ReadPlan::TooBig
    } else {
        ReadPlan::Whole
    }
}

/// The text of a file read whole: never a lossy decoding of raw binary.
pub fn whole_text(bytes: &[u8]) -> (r: Option<String>)
    ensures
        r.deep_view() == utf8_text(bytes@),
{
    read_utf8(bytes)
}

/// The text section that a container's decoder handed out, unless it is empty.
pub fn embedded_text(bytes: &[u8]) -> (r: Option<String>)
    ensures
        r.deep_view() == match utf8_text(bytes@) {
            Some(text) => if text.len() == 0 {
                None
            } else {
                Some(text)
            },
            None => None,
        },
{
    match read_utf8(bytes) {
        Some(text) => if text.as_str().is_empty() {
            None
        } else {
            Some(text)
        },
        None => None,
    }
}

/// What is said of a file that is too big to read.
pub open spec fn skipping(command: Seq<char>, path: Seq<char>, size: nat, max_bytes: nat) -> Seq<char> {
    command + ": skipping "@ + path + " ("@ + decimal(size) + " bytes > --max-file-size "@ + decimal(
        max_bytes,
    ) + ")"@
}

/// What is said of a file that is too big to read: a file silently missed is the failure a
/// detector must not have.
pub fn skip_notice(command: &str, path: &str, size: u64, max_bytes: u64) -> (r: String)
    ensures
        r@ == skipping(command@, path@, size as nat, max_bytes as nat),
{
    let mut out: String = command.to_owned();
    out.append(": skipping ");
    out.append(path);
    out.append(" (");
    push_decimal(&mut out, size as u128);
    out.append(" bytes > --max-file-size ");
    push_decimal(&mut out, max_bytes as u128);
    out.append(")");
    out
}

/// The complaint about a file that is over the limit, nothing where it can be read whole.
pub fn oversize(command: &str, path: &str, size: u64, max_bytes: u64) -> (r: Option<String>)
    ensures
        r.deep_view() == if size > max_bytes {
            Some(skipping(command@, path@, size as nat, max_bytes as nat))
        } else {
            None
        },
{
    if size > max_bytes {
        Some(skip_notice(command, path, size, max_bytes))
    } else {
        None
    }
}

// --- the whole scan -------------------------------------------------------------------------

/// The arguments of the watermark scan.
pub struct WatermarkDetectArgs {
    /// File or directory to scan; a directory is walked recursively.
    pub target: String,
    /// Paths to leave out of the walk.
    pub skip: SkipArgs,
    /// Whether exotic spaces go unreported.
    pub skip_spaces: bool,
    /// Whether metadata goes unscanned.
    pub skip_metadata: bool,
    /// Whether the characters that build emoji are reported too.
    pub emoji: bool,
    /// Largest file to read, in bytes.
    pub max_file_size: u64,
}

/// One file of the walk: its path, its text where it has some, its bytes where they were read.
pub struct ScannedFile {
    pub path: String,
    pub text: Option<String>,
    pub bytes: Option<Vec<u8>>,
}

/// The hidden characters of a file.
pub open spec fn file_hits(text: Option<Seq<char>>, skip_spaces: bool, emoji: bool) -> Seq<LineView> {
    match text {
        Some(t) => scan_of(t, !skip_spaces, emoji),
        None => seq![],
    }
}

/// The metadata of a file, inventoried in full.
pub open spec fn file_findings(
    path: Seq<char>,
    bytes: Option<Seq<u8>>,
    skip_metadata: bool,
) -> Seq<FindingView> {
    match (file_format(path), bytes) {
        (Some(f), Some(b)) => if skip_metadata {
            seq![]
        } else {
            extracted(f, b, true)
        },
        _ => seq![],
    }
}

/// The hidden characters of a file with text.
pub fn hits_of(text: &Option<String>, skip_spaces: bool, emoji: bool) -> (r: Vec<LineHits>)
    ensures
        r.deep_view() == file_hits(text.deep_view(), skip_spaces, emoji),
{
    match text {
        Some(t) => scan(t.as_str(), !skip_spaces, emoji),
        None => {
            let none: Vec<LineHits> = Vec::new();
            assert(none.deep_view() =~= seq![]);
            none
        },
    }
}

/// The metadata of a file whose format is understood and whose bytes were read.
pub fn findings_of(path: &str, bytes: &Option<Vec<u8>>, skip_metadata: bool) -> (r: Vec<Finding>)
    ensures
        r.deep_view() == file_findings(
            path@,
            match bytes {
                Some(b) => Some(b@),
                None => None,
            },
            skip_metadata,
        ),
{
    let none: Vec<Finding> = Vec::new();
    assert(none.deep_view() =~= seq![]);
    if skip_metadata || !handles(path) {
        return none;
    }
    match bytes {
        Some(b) => match extract(path, b.as_slice(), true) {
            Some(found) => found,
            None => none,
        },
        None => none,
    }
}

/// How many hidden characters the first `n` lines hold.
pub open spec fn hit_total(hits: Seq<LineView>, n: nat) -> nat
    decreases n,
{
    if n == 0 {
        0
    } else {
        hit_total(hits, (n - 1) as nat) + hits[n - 1].chars.len()
    }
}

/// The hidden characters of some lines are counted line by line, none left out and none twice.
pub proof fn law_every_hit_counts(hits: Seq<LineView>, n: nat)
    requires
        n <= hits.len(),
    ensures
        hit_total(hits, n) == hits.take(n as int).flat_map(|l: LineView| l.chars).len(),
    decreases n,
{
    if n > 0 {
        law_every_hit_counts(hits, (n - 1) as nat);
        lemma_flat_map_last(hits, |l: LineView| l.chars, n);
    }
}

/// How long the first `n` lines are together.
pub open spec fn length_total(ls: Seq<Seq<char>>, n: nat) -> nat
    decreases n,
{
    if n == 0 {
        0
    } else {
        length_total(ls, (n - 1) as nat) + ls[n - 1].len()
    }
}

proof fn lemma_length_total_front(a: Seq<char>, b: Seq<Seq<char>>, n: nat)
    requires
        n <= b.len(),
    ensures
        length_total(seq![a] + b, n + 1) == a.len() + length_total(b, n),
    decreases n,
{
    if n == 0 {
        assert(length_total(seq![a] + b, 0) == 0);
        assert((seq![a] + b)[0] == a);
    } else {
        lemma_length_total_front(a, b, (n - 1) as nat);
        assert((seq![a] + b)[n as int] == b[n - 1]);
    }
}

proof fn lemma_lines_length(s: Seq<char>)
    ensures
        length_total(lines(s), lines(s).len()) <= s.len(),
    decreases s.len(),
{
    if s.len() > 0 {
        let k = crate::text::char_from(s, '\n', 0);
        crate::text::lemma_char_from(s, '\n', 0);
        if k < s.len() {
            let first = crate::text::without_return(s.take(k));
            let rest = s.skip(k + 1);
            lemma_lines_length(rest);
            lemma_length_total_front(first, lines(rest), lines(rest).len());
        } else {
            assert(length_total(seq![s], 0) == 0);
            assert(length_total(seq![s], 1) == s.len());
        }
    }
}

proof fn lemma_line_hits_len(line: Seq<char>, n: nat, spaces: bool, emoji: bool)
    ensures
        line_hits(line, n, spaces, emoji).len() <= n,
    decreases n,
{
    if n > 0 {
        lemma_line_hits_len(line, (n - 1) as nat, spaces, emoji);
    }
}

proof fn lemma_hit_total_prefix(a: Seq<LineView>, x: LineView, n: nat)
    requires
        n <= a.len(),
    ensures
        hit_total(a.push(x), n) == hit_total(a, n),
    decreases n,
{
    if n > 0 {
        lemma_hit_total_prefix(a, x, (n - 1) as nat);
    }
}

proof fn lemma_scanned_total(ls: Seq<Seq<char>>, n: nat, spaces: bool, emoji: bool)
    requires
        n <= ls.len(),
    ensures
        hit_total(scanned(ls, n, spaces, emoji), scanned(ls, n, spaces, emoji).len())
            <= length_total(ls, n),
    decreases n,
{
    if n > 0 {
        lemma_scanned_total(ls, (n - 1) as nat, spaces, emoji);
        let line = ls[n - 1];
        let before = scanned(ls, (n - 1) as nat, spaces, emoji);
        let hits = line_hits(line, line.len(), spaces, emoji);
        lemma_line_hits_len(line, line.len(), spaces, emoji);
        if hits.len() > 0 {
            lemma_hit_total_prefix(
                before,
                LineView { number: n, text: line, chars: hits },
                before.len(),
            );
        }
    }
}

/// A scan never reports more hidden characters than the text has characters.
pub proof fn law_no_more_hits_than_characters(text: Seq<char>, spaces: bool, emoji: bool)
    ensures
        hit_total(scan_of(text, spaces, emoji), scan_of(text, spaces, emoji).len()) <= text.len(),
{
    lemma_lines_length(text);
    lemma_scanned_total(lines(text), lines(text).len(), spaces, emoji);
}

/// How many hidden characters a file's lines hold.
pub fn count_hits(text: &Option<String>, hits: &Vec<LineHits>, skip_spaces: bool, emoji: bool) -> (r:
    usize)
    requires
        hits.deep_view() == file_hits(text.deep_view(), skip_spaces, emoji),
    ensures
        r == hit_total(hits.deep_view(), hits.deep_view().len()),
{
    let bound: usize = match text {
        Some(t) => chars_of(t.as_str()).len(),
        None => 0,
    };
    proof {
        if let Some(t) = text {
            law_no_more_hits_than_characters(t@, !skip_spaces, emoji);
        }
    }
    assert(hits.deep_view().len() == hits@.len());
    let mut total: usize = 0;
    let mut i: usize = 0;
    while i < hits.len()
        invariant
            i <= hits.len(),
            hits.deep_view().len() == hits.len(),
            total == hit_total(hits.deep_view(), i as nat),
            hit_total(hits.deep_view(), hits.deep_view().len()) <= bound,
        decreases hits.len() - i,
    {
        proof {
            lemma_hit_total_grows(hits.deep_view(), (i + 1) as nat, hits.deep_view().len());
            assert(hits.deep_view()[i as int] == hits@[i as int]@);
        }
        total = total + hits[i].chars.len();
        i += 1;
    }
    total
}

proof fn lemma_hit_total_grows(hits: Seq<LineView>, a: nat, b: nat)
    requires
        a <= b,
    ensures
        hit_total(hits, a) <= hit_total(hits, b),
    decreases b,
{
    if a < b {
        lemma_hit_total_grows(hits, a, (b - 1) as nat);
    }
}

/// What the files seen so far amount to.
pub struct Tally {
    pub files: u64,
    pub files_with_hits: u64,
    pub total_hidden: u128,
    pub total_meta: u128,
}

/// What a scan ends with: its report, what it complains of instead, and the exit code.
pub struct Outcome {
    pub report: String,
    pub complaint: Option<String>,
    pub exit_code: i32,
}

/// The name that the watermark scan speaks under.
pub const WATERMARK_COMMAND: &'static str = "anti_ai_textual_watermark_detect";

/// What is said of a target that is not there.
pub open spec fn no_such_path(command: Seq<char>, target: Seq<char>) -> Seq<char> {
    command + ": no such path: "@ + target
}

/// The end of a scan whose target is not there: the complaint and exit code 1.
pub fn missing_target(command: &str, target: &str) -> (r: Outcome)
    ensures
        r.report@ == Seq::<char>::empty(),
        r.complaint.deep_view() == Some(no_such_path(command@, target@)),
        r.exit_code == 1,
{
    let mut said: String = command.to_owned();
    said.append(": no such path: ");
    said.append(target);
    Outcome { report: String::new(), complaint: Some(said), exit_code: 1 }
}

/// The hidden characters of a file of the walk.
pub open spec fn hits_in(file: ScannedFile, args: WatermarkDetectArgs) -> Seq<LineView> {
    file_hits(file.text.deep_view(), args.skip_spaces, args.emoji)
}

/// The bytes of a file of the walk, where they were read.
pub open spec fn bytes_in(file: ScannedFile) -> Option<Seq<u8>> {
    match file.bytes {
        Some(b) => Some(b@),
        None => None,
    }
}

/// The metadata of a file of the walk.
pub open spec fn findings_in(file: ScannedFile, args: WatermarkDetectArgs) -> Seq<FindingView> {
    file_findings(file.path@, bytes_in(file), args.skip_metadata)
}

/// Whether a file of the walk has anything to report.
pub open spec fn is_marked(file: ScannedFile, args: WatermarkDetectArgs) -> bool {
    hits_in(file, args).len() > 0 || findings_in(file, args).len() > 0
}

/// The report of one file: nothing for a file without a mark.
pub open spec fn file_report(file: ScannedFile, args: WatermarkDetectArgs, palette: Palette) -> Seq<
    char,
> {
    if is_marked(file, args) {
        "\n"@ + painted(palette.notice, file.path@) + "\n"@ + hits_report(
            hits_in(file, args),
            hits_in(file, args).len(),
            palette.problematic,
        ) + findings_report(findings_in(file, args), findings_in(file, args).len(), palette)
    } else {
        seq![]
    }
}

/// A file is reported exactly where it has a hidden character or a finding: its path, then all its
/// lines with hidden characters, then all its findings.
pub proof fn law_a_marked_file_is_reported(
    file: ScannedFile,
    args: WatermarkDetectArgs,
    palette: Palette,
)
    ensures
        hits_in(file, args).len() == 0 && findings_in(file, args).len() == 0 ==> file_report(
            file,
            args,
            palette,
        ) == Seq::<char>::empty(),
        hits_in(file, args).len() > 0 || findings_in(file, args).len() > 0 ==> file_report(
            file,
            args,
            palette,
        ) == "\n"@ + painted(palette.notice, file.path@) + "\n"@ + hits_in(file, args).flat_map(
            |line: LineView|
                "  "@ + decimal(line.number) + ": "@ + join(hit_names(line.chars), ", "@)
                    + "\n     "@ + visible_line(
                    line.text,
                    line.chars,
                    line.text.len(),
                    palette.problematic,
                ) + "\n"@,
        ) + findings_in(file, args).flat_map(
            |f: FindingView|
                "  "@ + f.field + ": "@ + displayed(f.value) + why_tag(f.why, palette) + "\n"@,
        ),
{
    let hits = hits_in(file, args);
    let findings = findings_in(file, args);
    law_every_line_is_reported(hits, hits.len(), palette.problematic);
    law_every_finding_is_reported(findings, findings.len(), palette);
    assert(hits.take(hits.len() as int) =~= hits);
    assert(findings.take(findings.len() as int) =~= findings);
}

/// A file is looked at for hidden characters where it has text, and for metadata where its format
/// has an extractor, unless metadata is skipped; and then all of it is listed.
pub proof fn law_what_is_looked_at(file: ScannedFile, args: WatermarkDetectArgs)
    ensures
        hits_in(file, args) == match file.text {
            Some(text) => scan_of(text@, !args.skip_spaces, args.emoji),
            None => seq![],
        },
        findings_in(file, args) == if args.skip_metadata || file.bytes is None || file_format(
            file.path@,
        ) is None {
            seq![]
        } else {
            extracted(file_format(file.path@)->0, file.bytes->0@, true)
        },
{
}

impl Tally {
    /// The totals stay within what the files seen can hold.
    pub open spec fn wf(self) -> bool {
        &&& self.files_with_hits <= self.files
        &&& self.total_hidden <= self.files * u64::MAX
        &&& self.total_meta <= self.files * u64::MAX
    }

    /// The tally after one more file.
    pub open spec fn after(self, file: ScannedFile, args: WatermarkDetectArgs) -> Tally {
        Tally {
            files: (self.files + 1) as u64,
            files_with_hits: (self.files_with_hits + if is_marked(file, args) {
                1int
            } else {
                0
            }) as u64,
            total_hidden: (self.total_hidden + hit_total(
                hits_in(file, args),
                hits_in(file, args).len(),
            )) as u128,
            total_meta: (self.total_meta + findings_in(file, args).len()) as u128,
        }
    }

    /// Nothing seen yet.
    pub fn new() -> (r: Tally)
        ensures
            r == (Tally { files: 0, files_with_hits: 0, total_hidden: 0, total_meta: 0 }),
            r.wf(),
    {
        Tally { files: 0, files_with_hits: 0, total_hidden: 0, total_meta: 0 }
    }

    /// Count one more file, and say what its part of the report is.
    pub fn note_file(
        &mut self,
        file: &ScannedFile,
        args: &WatermarkDetectArgs,
        palette: &Palette,
    ) -> (r: String)
        requires
            old(self).wf(),
            old(self).files < u64::MAX,
        ensures
            final(self).wf(),
            *final(self) == old(self).after(*file, *args),
            final(self).total_hidden == old(self).total_hidden + hit_total(
                hits_in(*file, *args),
                hits_in(*file, *args).len(),
            ),
            final(self).total_meta == old(self).total_meta + findings_in(*file, *args).len(),
            r@ == file_report(*file, *args, *palette),
    {
        let hits: Vec<LineHits> = hits_of(&file.text, args.skip_spaces, args.emoji);
        let findings: Vec<Finding> = findings_of(file.path.as_str(), &file.bytes, args.skip_metadata);
        let hidden: usize = count_hits(&file.text, &hits, args.skip_spaces, args.emoji);
        assert(hits.deep_view().len() == hits@.len());
        assert(findings.deep_view().len() == findings@.len());
        self.files = self.files + 1;
        self.total_hidden = self.total_hidden + hidden as u128;
        self.total_meta = self.total_meta + findings.len() as u128;
        if hits.len() == 0 && findings.len() == 0 {
            return String::new();
        }
        self.files_with_hits = self.files_with_hits + 1;
        let mut out: String = "\n".to_owned();
        out.append(palette.notice.paint(file.path.as_str()).as_str());
        out.append("\n");
        out.append(report_file(&hits, &palette.problematic).as_str());
        out.append(report_metadata(&findings, palette).as_str());
        out
    }

    /// The last lines of the report.
    pub open spec fn summary_text(self, skip: SkipArgs, palette: Palette) -> Seq<char> {
        if self.files_with_hits == 0 {
            painted(palette.approved, "no hidden characters or AI metadata found"@) + scope(skip) + "\n"@
        } else {
            "\n"@ + painted(
                palette.problematic,
                decimal(self.total_hidden as nat) + " hidden character(s), "@ + decimal(
                    self.total_meta as nat,
                ) + " metadata finding(s) across "@ + decimal(self.files_with_hits as nat)
                    + " file(s)"@ + scope(skip),
            ) + "\n"@
        }
    }

    /// The last lines of the report. What was skipped is named on both paths: "nothing found"
    /// means something different when the walk was allowed to skip files.
    pub fn summary(&self, skip: &SkipArgs, palette: &Palette) -> (r: String)
        ensures
            r@ == self.summary_text(*skip, *palette),
    {
        let note: String = scope_note(skip);
        if self.files_with_hits == 0 {
            let mut out: String = palette.approved.paint("no hidden characters or AI metadata found");
            out.append(note.as_str());
            out.append("\n");
            out
        } else {
            let mut line: String = String::new();
            push_decimal(&mut line, self.total_hidden);
            assert(line@ =~= decimal(self.total_hidden as nat));
            line.append(" hidden character(s), ");
            push_decimal(&mut line, self.total_meta);
            line.append(" metadata finding(s) across ");
            push_decimal(&mut line, self.files_with_hits as u128);
            line.append(" file(s)");
            line.append(note.as_str());
            let mut out: String = "\n".to_owned();
            out.append(palette.problematic.paint(line.as_str()).as_str());
            out.append("\n");
            out
        }
    }

    /// Nonzero where anything was found, so that a chained command does not run past a find.
    pub fn exit_code(&self) -> (r: i32)
        ensures
            r == if self.files_with_hits > 0 {
                1i32
            } else {
                0
            },
    {
        if self.files_with_hits > 0 {
            1
        } else {
            0
        }
    }
}

/// The tally after the first `n` files.
pub open spec fn tally_of(files: Seq<ScannedFile>, n: nat, args: WatermarkDetectArgs) -> Tally
    decreases n,
{
    if n == 0 {
        Tally { files: 0, files_with_hits: 0, total_hidden: 0, total_meta: 0 }
    } else {
        tally_of(files, (n - 1) as nat, args).after(files[n - 1], args)
    }
}

/// Every file of a walk is counted: those with a mark, and all their hits and findings.
pub proof fn law_every_file_is_tallied(files: Seq<ScannedFile>, n: nat, args: WatermarkDetectArgs)
    requires
        n <= files.len() <= u64::MAX,
        forall|i: int|
            0 <= i < files.len() ==> hit_total(
                hits_in(#[trigger] files[i], args),
                hits_in(files[i], args).len(),
            ) <= u64::MAX && findings_in(files[i], args).len() <= u64::MAX,
    ensures
        tally_of(files, n, args).files == n,
        tally_of(files, n, args).files_with_hits == files.take(n as int).filter(
            |f: ScannedFile|
                hits_in(f, args).len() > 0 || findings_in(f, args).len() > 0,
        ).len(),
        tally_of(files, n, args).total_hidden == files.take(n as int).flat_map(
            |f: ScannedFile| hits_in(f, args).flat_map(|l: LineView| l.chars),
        ).len(),
        tally_of(files, n, args).total_meta == files.take(n as int).flat_map(
            |f: ScannedFile| findings_in(f, args),
        ).len(),
        tally_of(files, n, args).total_hidden <= n * u64::MAX,
        tally_of(files, n, args).total_meta <= n * u64::MAX,
    decreases n,
{
    if n == 0 {
        reveal(Seq::filter);
    } else {
        law_every_file_is_tallied(files, (n - 1) as nat, args);
        let f = files[n - 1];
        lemma_filter_last(
            files,
            |f: ScannedFile| hits_in(f, args).len() > 0 || findings_in(f, args).len() > 0,
            n,
        );
        lemma_flat_map_last(
            files,
            |f: ScannedFile| hits_in(f, args).flat_map(|l: LineView| l.chars),
            n,
        );
        lemma_flat_map_last(files, |f: ScannedFile| findings_in(f, args), n);
        law_every_hit_counts(hits_in(f, args), hits_in(f, args).len());
        assert(hits_in(f, args).take(hits_in(f, args).len() as int) =~= hits_in(f, args));
        files.take(n as int).lemma_filter_len(
            |f: ScannedFile| hits_in(f, args).len() > 0 || findings_in(f, args).len() > 0,
        );
        let max = u64::MAX as int;
        assert((n - 1) * max + max == n * max) by (nonlinear_arith);
        assert(n * max <= max * max) by (nonlinear_arith)
            requires
                n <= max,
                max > 0,
        ;
        assert(max * max <= u128::MAX) by (nonlinear_arith)
            requires
                max == u64::MAX as int,
        ;
    }
}

/// The reports of the first `n` files.
pub open spec fn reports_of(
    files: Seq<ScannedFile>,
    n: nat,
    args: WatermarkDetectArgs,
    palette: Palette,
) -> Seq<char>
    decreases n,
{
    if n == 0 {
        seq![]
    } else {
        reports_of(files, (n - 1) as nat, args, palette) + file_report(files[n - 1], args, palette)
    }
}

/// The report goes through the files in order: each that has a mark is reported, whatever the
/// others hold.
pub proof fn law_every_file_is_reported(
    files: Seq<ScannedFile>,
    n: nat,
    args: WatermarkDetectArgs,
    palette: Palette,
)
    requires
        n <= files.len(),
    ensures
        reports_of(files, n, args, palette) == files.take(n as int).flat_map(
            |file: ScannedFile| file_report(file, args, palette),
        ),
    decreases n,
{
    if n > 0 {
        law_every_file_is_reported(files, (n - 1) as nat, args, palette);
        lemma_flat_map_last(
            files,
            |file: ScannedFile| file_report(file, args, palette),
            n,
        );
    }
}

/// Find verifiable AI marks in the files of a walk: hidden characters in text, and AI provenance
/// in metadata. Changes nothing; the exit code says whether anything was found. `walk` holds the
/// files below the target, nothing where the target does not exist.
pub fn textual_watermark_detect(
    args: &WatermarkDetectArgs,
    walk: &Option<Vec<ScannedFile>>,
    palette: &Palette,
) -> (r: Outcome)
    ensures
        match *walk {
            Some(files) => r.report@ == reports_of(files@, files@.len(), *args, *palette)
                + tally_of(files@, files@.len(), *args).summary_text(args.skip, *palette)
                && r.complaint is None,
            None => r.report@ == Seq::<char>::empty() && r.complaint.deep_view() == Some(
                no_such_path(WATERMARK_COMMAND@, args.target@),
            ),
        },
        r.exit_code == 0 <==> (*walk matches Some(files) && forall|i: int|
            0 <= i < files@.len() ==> !is_marked(#[trigger] files@[i], *args)),
        r.exit_code == 0 || r.exit_code == 1,
{
    let files: &Vec<ScannedFile> = match walk {
        Some(files) => files,
        None => return missing_target(WATERMARK_COMMAND, args.target.as_str()),
    };
    let mut tally: Tally = Tally::new();
    let mut report: String = String::new();
    let mut i: usize = 0;
    while i < files.len()
        invariant
            i <= files.len(),
            tally.wf(),
            tally.files == i,
            tally == tally_of(files@, i as nat, *args),
            report@ == reports_of(files@, i as nat, *args, *palette),
            tally.files_with_hits == 0 <==> (forall|j: int|
                0 <= j < i ==> !is_marked(#[trigger] files@[j], *args)),
        decreases files.len() - i,
    {
        let part: String = tally.note_file(&files[i], args, palette);
        report.append(part.as_str());
        assert(is_marked(files@[i as int], *args) || !is_marked(files@[i as int], *args));
        i += 1;
    }
    report.append(tally.summary(&args.skip, palette).as_str());
    Outcome { report, complaint: None, exit_code: tally.exit_code() }
}

// --- laws -----------------------------------------------------------------------------------

/// A character is hidden exactly where its code point is one of those that carry what does not
/// show.
pub proof fn law_hidden_by_code_point(ch: char)
    ensures
        kind(ch) is Some <==> ({
            let c = ch as u32;
            ||| c == 0xad || c == 0xa0 || c == 0x34f || c == 0x61c || c == 0x1680
            ||| 0x180b <= c <= 0x180e
            ||| 0x2000 <= c <= 0x200f
            ||| 0x2028 <= c <= 0x202f
            ||| 0x205f <= c <= 0x2064
            ||| 0x2066 <= c <= 0x206f
            ||| c == 0x3000 || c == 0xfeff
            ||| 0xfe00 <= c <= 0xfe0f
            ||| 0xfff9 <= c <= 0xfffb
            ||| 0xe0000 <= c <= 0xe007f
            ||| 0xe0100 <= c <= 0xe01ef
        }),
{
}

/// The hits of a line are in order of their columns, each names the character in its column and
/// the class that it is of, and every character that is to be reported has one.
pub proof fn law_every_reportable_character_is_a_hit(
    line: Seq<char>,
    n: nat,
    spaces: bool,
    emoji: bool,
)
    requires
        n <= line.len(),
    ensures
        ({
            let hits = line_hits(line, n, spaces, emoji);
            &&& forall|a: int, b: int|
                0 <= a < b < hits.len() ==> (#[trigger] hits[a]).column < (#[trigger] hits[b]).column
            &&& forall|a: int|
                0 <= a < hits.len() ==> 1 <= (#[trigger] hits[a]).column <= n && hits[a].code
                    == line[hits[a].column - 1] as int && kind(line[hits[a].column - 1]) == Some(
                    hits[a].kind,
                ) && reported(line, hits[a].column - 1, spaces, emoji)
            &&& forall|i: int|
                0 <= i < n && #[trigger] reported(line, i, spaces, emoji) ==> exists|a: int|
                    0 <= a < hits.len() && (#[trigger] hits[a]).column == i + 1
        }),
    decreases n,
{
    if n > 0 {
        law_every_reportable_character_is_a_hit(line, (n - 1) as nat, spaces, emoji);
        let before = line_hits(line, (n - 1) as nat, spaces, emoji);
        let hits = line_hits(line, n, spaces, emoji);
        assert forall|i: int| 0 <= i < n && #[trigger] reported(line, i, spaces, emoji) implies exists|
            a: int,
        | 0 <= a < hits.len() && (#[trigger] hits[a]).column == i + 1 by {
            if i < n - 1 {
                let a = choose|a: int| 0 <= a < before.len() && (#[trigger] before[a]).column == i + 1;
                assert(hits[a].column == i + 1);
            } else {
                assert(hits[hits.len() - 1].column == i + 1);
            }
        }
    }
}

proof fn lemma_scanned_complete(ls: Seq<Seq<char>>, n: nat, spaces: bool, emoji: bool)
    requires
        n <= ls.len(),
    ensures
        ({
            let found = scanned(ls, n, spaces, emoji);
            &&& forall|a: int, b: int|
                0 <= a < b < found.len() ==> (#[trigger] found[a]).number < (#[trigger] found[b]).number
            &&& forall|a: int|
                0 <= a < found.len() ==> 1 <= (#[trigger] found[a]).number <= n && found[a].text
                    == ls[found[a].number - 1] && found[a].chars.len() > 0 && found[a].chars
                    == line_hits(found[a].text, found[a].text.len(), spaces, emoji)
            &&& forall|k: int|
                0 <= k < n && line_hits(#[trigger] ls[k], ls[k].len(), spaces, emoji).len() > 0
                    ==> exists|a: int| 0 <= a < found.len() && (#[trigger] found[a]).number == k + 1
        }),
    decreases n,
{
    if n > 0 {
        lemma_scanned_complete(ls, (n - 1) as nat, spaces, emoji);
        let before = scanned(ls, (n - 1) as nat, spaces, emoji);
        let found = scanned(ls, n, spaces, emoji);
        assert forall|k: int|
            0 <= k < n && line_hits(#[trigger] ls[k], ls[k].len(), spaces, emoji).len()
                > 0 implies exists|a: int|
            0 <= a < found.len() && (#[trigger] found[a]).number == k + 1 by {
            if k < n - 1 {
                let a = choose|a: int| 0 <= a < before.len() && (#[trigger] before[a]).number == k + 1;
                assert(found[a].number == k + 1);
            } else {
                assert(found[found.len() - 1].number == k + 1);
            }
        }
    }
}

/// The scan is complete: the lines that hold a character to be reported are listed, each once and
/// in order, and no other line is; and every such character is a hit of its line, in its column.
pub proof fn law_the_scan_is_complete(text: Seq<char>, spaces: bool, emoji: bool)
    ensures
        ({
            let ls = lines(text);
            let found = scan_of(text, spaces, emoji);
            &&& forall|a: int, b: int|
                0 <= a < b < found.len() ==> (#[trigger] found[a]).number < (#[trigger] found[b]).number
            &&& forall|a: int|
                0 <= a < found.len() ==> 1 <= (#[trigger] found[a]).number <= ls.len()
                    && found[a].text == ls[found[a].number - 1] && exists|i: int|
                    0 <= i < found[a].text.len() && #[trigger] reported(
                        found[a].text,
                        i,
                        spaces,
                        emoji,
                    )
            &&& forall|k: int, i: int|
                0 <= k < ls.len() && 0 <= i < ls[k].len() && #[trigger] reported(
                    ls[k],
                    i,
                    spaces,
                    emoji,
                ) ==> exists|a: int, h: int|
                    0 <= a < found.len() && found[a].number == k + 1 && 0 <= h
                        < found[a].chars.len() && (#[trigger] found[a].chars[h]).column == i + 1
                        && found[a].chars[h].code == ls[k][i] as int
        }),
{
    let ls = lines(text);
    let found = scan_of(text, spaces, emoji);
    lemma_scanned_complete(ls, ls.len(), spaces, emoji);
    assert forall|a: int| 0 <= a < found.len() implies exists|i: int|
        0 <= i < (#[trigger] found[a]).text.len() && #[trigger] reported(
            found[a].text,
            i,
            spaces,
            emoji,
        ) by {
        law_every_reportable_character_is_a_hit(found[a].text, found[a].text.len(), spaces, emoji);
        let h = found[a].chars[0];
        assert(reported(found[a].text, h.column - 1, spaces, emoji));
    }
    assert forall|k: int, i: int|
        0 <= k < ls.len() && 0 <= i < ls[k].len() && #[trigger] reported(
            ls[k],
            i,
            spaces,
            emoji,
        ) implies exists|a: int, h: int|
        0 <= a < found.len() && found[a].number == k + 1 && 0 <= h < found[a].chars.len() && (
        #[trigger] found[a].chars[h]).column == i + 1 && found[a].chars[h].code == ls[k][i] as int by {
        law_every_reportable_character_is_a_hit(ls[k], ls[k].len(), spaces, emoji);
        let hits = line_hits(ls[k], ls[k].len(), spaces, emoji);
        let h = choose|h: int| 0 <= h < hits.len() && (#[trigger] hits[h]).column == i + 1;
        assert(hits[h].column == i + 1);
        let a = choose|a: int| 0 <= a < found.len() && (#[trigger] found[a]).number == k + 1;
        assert(found[a].chars[h].column == i + 1);
    }
}

/// A scan takes a text line by line: what it finds on a line rests on that line alone.
pub proof fn law_lines_are_scanned_each_for_itself(
    ls: Seq<Seq<char>>,
    other: Seq<Seq<char>>,
    n: nat,
    spaces: bool,
    emoji: bool,
)
    requires
        n <= ls.len(),
        n <= other.len(),
        forall|k: int| 0 <= k < n ==> #[trigger] ls[k] == other[k],
    ensures
        scanned(ls, n, spaces, emoji) == scanned(other, n, spaces, emoji),
    decreases n,
{
    if n > 0 {
        law_lines_are_scanned_each_for_itself(ls, other, (n - 1) as nat, spaces, emoji);
        assert(ls[n - 1] == other[n - 1]);
    }
}

/// What is marked in a rendered line is what was reported of it, no more and no less.
pub proof fn law_rendering_marks_what_was_reported(
    line: Seq<char>,
    n: nat,
    i: int,
    spaces: bool,
    emoji: bool,
)
    requires
        0 <= i,
    ensures
        hit_at(line_hits(line, n, spaces, emoji), (i + 1) as nat) <==> i < n && reported(
            line,
            i,
            spaces,
            emoji,
        ),
    decreases n,
{
    if n > 0 {
        let before = line_hits(line, (n - 1) as nat, spaces, emoji);
        let all = line_hits(line, n, spaces, emoji);
        law_rendering_marks_what_was_reported(line, (n - 1) as nat, i, spaces, emoji);
        if reported(line, n - 1, spaces, emoji) {
            assert(all.last().column == n);
            if hit_at(before, (i + 1) as nat) {
                let j = choose|j: int|
                    0 <= j < before.len() && (#[trigger] before[j]).column == (i + 1) as nat;
                assert(all[j] == before[j]);
            }
            if i == n - 1 {
                assert(all[all.len() - 1].column == (i + 1) as nat);
            }
            if hit_at(all, (i + 1) as nat) && i != n - 1 {
                let j = choose|j: int|
                    0 <= j < all.len() && (#[trigger] all[j]).column == (i + 1) as nat;
                assert(j < before.len());
                assert(before[j] == all[j]);
            }
        }
    }
}

/// Line and paragraph separators are reported whatever is silenced.
pub proof fn law_separators_are_always_reported(line: Seq<char>, i: int, spaces: bool, emoji: bool)
    requires
        0 <= i < line.len(),
        line[i] == '\u{2028}' || line[i] == '\u{2029}',
    ensures
        reported(line, i, spaces, emoji),
{
    reveal_strlit("line-separator");
    reveal_strlit("space");
    assert("line-separator"@.len() != "space"@.len());
}

/// Asking for spaces or for emoji machinery only adds to a report.
pub proof fn law_flags_only_add(line: Seq<char>, i: int, spaces: bool, emoji: bool)
    requires
        reported(line, i, spaces, emoji),
    ensures
        reported(line, i, true, emoji),
        reported(line, i, spaces, true),
        reported(line, i, true, true),
{
}

/// Ordinary ASCII text is never reported.
pub proof fn law_ascii_is_ordinary(line: Seq<char>, i: int, spaces: bool, emoji: bool)
    requires
        0 <= i < line.len(),
        (line[i] as u32) < 0x80,
    ensures
        !reported(line, i, spaces, emoji),
{
}

} // verus!
