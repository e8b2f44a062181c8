//! Finding AI provenance markers in file *metadata*.
//!
//! Extraction pulls `(field, value)` pairs out of the places each format keeps metadata:
//! Markdown frontmatter, HTML `<meta>` tags, SVG `<metadata>` blocks, PNG text chunks, JPEG APP
//! segments. Matching looks for vendor names and boundary-guarded `ai` tokens. Media is never
//! decoded: "no markers found" is a statement about the labels of a file, not its content.

use vstd::prelude::*;
use vstd::slice::slice_subrange;
use vstd::string::*;
use crate::bytes::{
    be16, be32, byte_from, bytes_at, bytes_hold, bytes_spell, find_byte, lossy_text,
    read_be16, read_be32, read_lossy, read_utf8, spelled, spelled_at, spelled_within, utf8_text,
};
use crate::paths::{lower_extension, lower_extension_of};
use crate::patterns::{
    all_groups, all_matches, blank_matches, first_group, regex_blanked, regex_first_group, regex_groups,
    regex_matches,
};
use crate::sequences::lemma_flat_map_last;
use crate::text::{
    ascii_lower, char_from, chars_of, contains, find_char, holds, join, joined, lines, lines_of,
    lowercase, push_text, same_ignoring_case, same_text, spells, string_of, trim, trim_end, trimmed,
    trimmed_end, words, words_of,
};

verus! {

/// One metadata string worth reporting.
#[derive(Debug, PartialEq, Eq)]
pub struct Finding {
    /// Where it sat: `frontmatter "generator"`, `PNG tEXt "Software"`, `XMP CreatorTool`.
    pub field: String,
    pub value: String,
    pub why: Why,
}

/// The reason a [`Finding`] made the report.
#[derive(Debug, PartialEq, Eq)]
pub enum Why {
    /// A marker matched inside the value: which one, as matched.
    Marker(String),
    /// The field itself carries provenance, so its value is reported whatever it says.
    ProvenanceField,
    /// Nothing matched; metadata is being listed in full.
    Everything,
}

/// The reason for a finding, by the text it holds.
pub enum WhyView {
    Marker(Seq<char>),
    ProvenanceField,
    Everything,
}

/// A finding, by the texts it holds.
pub struct FindingView {
    pub field: Seq<char>,
    pub value: Seq<char>,
    pub why: WhyView,
}

impl View for Why {
    type V = WhyView;

    open spec fn view(&self) -> WhyView {
        match self {
            Why::Marker(m) => WhyView::Marker(m@),
            Why::ProvenanceField => WhyView::ProvenanceField,
            Why::Everything => WhyView::Everything,
        }
    }
}

impl View for Finding {
    type V = FindingView;

    open spec fn view(&self) -> FindingView {
        FindingView { field: self.field@, value: self.value@, why: self.why@ }
    }
}

impl DeepView for Finding {
    type V = FindingView;

    open spec fn deep_view(&self) -> FindingView {
        self@
    }
}

// --- markers --------------------------------------------------------------------------------

/// Vendor and product names, matched case-insensitively as substrings.
///
/// Anthropic is listed by the company's name only: a text that names its assistant and not the
/// company has no vendor marker.
pub open spec fn vendors() -> Seq<Seq<char>> {
    seq![
        "anthropic"@,
        "openai"@,
        "chatgpt"@,
        "gemini"@,
        "grok"@,
        "midjourney"@,
        "dall-e"@,
        "dalle"@,
        "copilot"@,
        "stable diffusion"@,
        "synthid"@,
        "c2pa"@,
        "firefly"@,
    ]
}

/// Fields whose value is reported even when no marker matches: they exist to say what wrote
/// the file.
pub open spec fn provenance_fields() -> Seq<Seq<char>> {
    seq![
        "generator"@,
        "software"@,
        "creatortool"@,
        "created_with"@,
        "created-with"@,
        "producer"@,
        "parameters"@,
    ]
}

/// The `ai` and `a.i.` tokens between boundaries: line start, space, `-` and `—` before, those
/// and `.` after.
pub const AI_TOKEN: &'static str = "(?im)(?:^|[ \\-—])(ai|a\\.i\\.)(?:$|[ \\-—.])";

/// The vendor names, in the order they are tried.
fn vendor_markers() -> (r: Vec<String>)
    ensures
        r.deep_view() == vendors(),
{
    let mut out: Vec<String> = Vec::new();
    push_text(&mut out, "anthropic");
    push_text(&mut out, "openai");
    push_text(&mut out, "chatgpt");
    push_text(&mut out, "gemini");
    push_text(&mut out, "grok");
    push_text(&mut out, "midjourney");
    push_text(&mut out, "dall-e");
    push_text(&mut out, "dalle");
    push_text(&mut out, "copilot");
    push_text(&mut out, "stable diffusion");
    push_text(&mut out, "synthid");
    push_text(&mut out, "c2pa");
    push_text(&mut out, "firefly");
    out
}

/// The names of the provenance fields.
fn provenance_names() -> (r: Vec<String>)
    ensures
        r.deep_view() == provenance_fields(),
{
    let mut out: Vec<String> = Vec::new();
    push_text(&mut out, "generator");
    push_text(&mut out, "software");
    push_text(&mut out, "creatortool");
    push_text(&mut out, "created_with");
    push_text(&mut out, "created-with");
    push_text(&mut out, "producer");
    push_text(&mut out, "parameters");
    out
}

/// The first vendor, from number `k` on, whose name stands in a lowered text.
pub open spec fn vendor_from(lowered: Seq<char>, k: int) -> Option<Seq<char>>
    decreases vendors().len() - k,
{
    if k >= vendors().len() {
        None
    } else if contains(lowered, vendors()[k]) {
        Some(vendors()[k])
    } else {
        vendor_from(lowered, k + 1)
    }
}

/// The vendor of a text is the first of the table, from number `k` on, whose name stands in it;
/// there is none only where no name does.
pub proof fn law_the_first_vendor_is_found(lowered: Seq<char>, k: int)
    requires
        0 <= k <= vendors().len(),
    ensures
        match vendor_from(lowered, k) {
            Some(vendor) => exists|v: int|
                k <= v < vendors().len() && vendor == #[trigger] vendors()[v] && contains(
                    lowered,
                    vendors()[v],
                ) && forall|w: int| k <= w < v ==> !contains(lowered, #[trigger] vendors()[w]),
            None => forall|w: int|
                k <= w < vendors().len() ==> !contains(lowered, #[trigger] vendors()[w]),
        },
    decreases vendors().len() - k,
{
    if k < vendors().len() {
        law_the_first_vendor_is_found(lowered, k + 1);
        if contains(lowered, vendors()[k]) {
            assert(vendor_from(lowered, k) == Some(vendors()[k]));
        } else if let Some(vendor) = vendor_from(lowered, k + 1) {
            let v = choose|v: int|
                k + 1 <= v < vendors().len() && vendor == #[trigger] vendors()[v] && contains(
                    lowered,
                    vendors()[v],
                ) && forall|w: int| k + 1 <= w < v ==> !contains(lowered, #[trigger] vendors()[w]);
            assert(vendor == vendors()[v]);
        }
    }
}

/// The marker of a text, given its lowercase form and the `ai` token found in it: a vendor
/// goes before a token.
pub open spec fn marker_given(lowered: Seq<char>, token: Option<Seq<char>>) -> Option<Seq<char>> {
    match vendor_from(lowered, 0) {
        Some(vendor) => Some(vendor),
        None => token,
    }
}

/// A vendor's name anywhere in a text is its marker, whatever tokens it holds; the token is the
/// marker only where there is no vendor's name.
pub proof fn law_a_vendor_goes_before_a_token(lowered: Seq<char>, token: Option<Seq<char>>, v: int)
    requires
        0 <= v < vendors().len(),
    ensures
        contains(lowered, vendors()[v]) ==> marker_given(lowered, token) is Some && vendors().contains(
            marker_given(lowered, token)->0,
        ) && contains(lowered, marker_given(lowered, token)->0),
        (forall|w: int| 0 <= w < vendors().len() ==> !contains(lowered, #[trigger] vendors()[w]))
            ==> marker_given(lowered, token) == token,
{
    law_the_first_vendor_is_found(lowered, 0);
    if contains(lowered, vendors()[v]) && vendor_from(lowered, 0) is None {
        assert(!contains(lowered, vendors()[v]));
    }
}

/// The marker that matches inside `text`, if any.
pub open spec fn marker(text: Seq<char>) -> Option<Seq<char>> {
    marker_given(lowercase(text), regex_first_group(AI_TOKEN@, text))
}

/// The marker of a text, given its lowercase form and the `ai` token found in it.
pub fn marker_of(lowered: &str, token: Option<String>) -> (r: Option<String>)
    ensures
        r.deep_view() == marker_given(lowered@, token.deep_view()),
{
    let names: Vec<String> = vendor_markers();
    let mut k: usize = 0;
    while k < names.len()
        invariant
            k <= names.len(),
            names.deep_view() == vendors(),
            vendor_from(lowered@, 0) == vendor_from(lowered@, k as int),
        decreases names.len() - k,
    {
        assert(names@[k as int]@ == names.deep_view()[k as int]);
        if holds(lowered, names[k].as_str()) {
            return Some(names[k].clone());
        }
        k += 1;
    }
    token
}

/// The marker that matches inside `text`, if any, returned as matched.
///
/// Vendors are substrings. `ai` and `a.i.` are boundary-guarded: unguarded, `ai` is inside
/// *said*, *maintain* and *email*. A period is a boundary behind the token only, since one
/// before it is how domains spell.
pub fn marker_in(text: &str) -> (r: Option<String>)
    ensures
        r.deep_view() == marker(text@),
{
    let lowered: String = text.to_lowercase();
    marker_of(lowered.as_str(), first_group(AI_TOKEN, text))
}

/// Whether the field name is one whose value gets reported regardless of content.
pub open spec fn is_provenance(key: Seq<char>) -> bool {
    exists|i: int|
        0 <= i < provenance_fields().len() && ascii_lower(key) == ascii_lower(
            #[trigger] provenance_fields()[i],
        )
}

/// Whether this field name is one whose value gets reported regardless of content.
pub fn is_provenance_field(key: &str) -> (r: bool)
    ensures
        r == is_provenance(key@),
{
    let names: Vec<String> = provenance_names();
    let mut k: usize = 0;
    while k < names.len()
        invariant
            k <= names.len(),
            names.deep_view() == provenance_fields(),
            forall|i: int|
                0 <= i < k ==> ascii_lower(key@) != ascii_lower(#[trigger] provenance_fields()[i]),
        decreases names.len() - k,
    {
        assert(names@[k as int]@ == names.deep_view()[k as int]);
        if same_ignoring_case(key, names[k].as_str()) {
            return true;
        }
        k += 1;
    }
    false
}

// --- classification -------------------------------------------------------------------------

/// Why a value is reported, given the marker found in it: a marker goes before the field, the
/// field before the wish to see everything.
pub open spec fn reason_given(
    key: Seq<char>,
    everything: bool,
    marker: Option<Seq<char>>,
) -> Option<WhyView> {
    match marker {
        Some(m) => Some(WhyView::Marker(m)),
        None => if is_provenance(key) {
            Some(WhyView::ProvenanceField)
        } else if everything {
            Some(WhyView::Everything)
        } else {
            None
        },
    }
}

/// The finding that one extracted pair makes: one, or none.
pub open spec fn classified(
    field: Seq<char>,
    key: Seq<char>,
    value: Seq<char>,
    everything: bool,
) -> Seq<FindingView> {
    match reason_given(key, everything, marker(value)) {
        Some(why) => seq![FindingView { field, value, why }],
        None => seq![],
    }
}

/// A value is reported for a marker in it, whatever its field; without one for a field that says
/// what wrote the file; and without either only where everything is asked for. It is reported as
/// it is, under its field, and once.
pub proof fn law_why_a_value_is_reported(
    field: Seq<char>,
    key: Seq<char>,
    value: Seq<char>,
    everything: bool,
)
    ensures
        classified(field, key, value, everything) == if marker(value) is Some {
            seq![FindingView { field, value, why: WhyView::Marker(marker(value)->0) }]
        } else if is_provenance(key) {
            seq![FindingView { field, value, why: WhyView::ProvenanceField }]
        } else if everything {
            seq![FindingView { field, value, why: WhyView::Everything }]
        } else {
            seq![]
        },
{
}

/// Why a value is reported, given the marker found in it.
pub fn reason_of(key: &str, everything: bool, marker: Option<String>) -> (r: Option<Why>)
    ensures
        match r {
            Some(why) => reason_given(key@, everything, marker.deep_view()) == Some(why@),
            None => reason_given(key@, everything, marker.deep_view()) is None,
        },
{
    match marker {
        Some(m) => Some(Why::Marker(m)),
        None => if is_provenance_field(key) {
            Some(Why::ProvenanceField)
        } else if everything {
            Some(Why::Everything)
        } else {
            None
        },
    }
}

/// Classify one extracted pair and append the finding that it makes. `key` is the bare field
/// name for the provenance check; `field` the display name.
pub fn classify(found: &mut Vec<Finding>, field: &str, key: &str, value: &str, everything: bool)
    ensures
        final(found).deep_view() == old(found).deep_view() + classified(field@, key@, value@, everything),
{
    let ghost before = found.deep_view();
    match reason_of(key, everything, marker_in(value)) {
        Some(why) => {
            found.push(Finding { field: field.to_owned(), value: value.to_owned(), why });
            assert(found.deep_view() =~= before + classified(field@, key@, value@, everything));
        },
        None => {
            assert(found.deep_view() =~= before + classified(field@, key@, value@, everything));
        },
    }
}

// --- text formats ---------------------------------------------------------------------------

/// Whether every character may stand in a plain YAML key.
pub open spec fn is_plain_key(key: Seq<char>) -> bool {
    key.len() > 0 && forall|i: int| 0 <= i < key.len() ==> is_key_char(#[trigger] key[i])
}

/// Whether a character may stand in a plain YAML key.
pub open spec fn is_key_char(c: char) -> bool {
    ('a' <= c && c <= 'z') || ('A' <= c && c <= 'Z') || ('0' <= c && c <= '9') || c == '_' || c == '-'
}

/// Whether a value only announces a folded or literal block.
pub open spec fn is_block_indicator(value: Seq<char>) -> bool {
    value == ">"@ || value == "|"@ || value == ">-"@ || value == ">+"@ || value == "|-"@ || value == "|+"@
}

/// `line` as a top-level YAML `key: value` pair, or `None` when it reads as prose.
pub open spec fn yaml_pair(line: Seq<char>) -> Option<(Seq<char>, Seq<char>)> {
    let colon = char_from(line, ':', 0);
    if line.len() > 0 && (line[0] == ' ' || line[0] == '\t') {
        None
    } else if colon >= line.len() {
        None
    } else {
        let key = trim_end(line.take(colon));
        let value = trim(line.skip(colon + 1));
        if is_plain_key(key) && value.len() > 0 && !is_block_indicator(value) {
            Some((key, value))
        } else {
            None
        }
    }
}

/// Whether `key` is a plain YAML key.
fn plain_key(key: &[char]) -> (r: bool)
    ensures
        r == is_plain_key(key@),
{
    if key.len() == 0 {
        return false;
    }
    let mut i: usize = 0;
    while i < key.len()
        invariant
            i <= key.len(),
            forall|j: int| 0 <= j < i ==> is_key_char(#[trigger] key@[j]),
        decreases key.len() - i,
    {
        let c: char = key[i];
        if !(('a' <= c && c <= 'z') || ('A' <= c && c <= 'Z') || ('0' <= c && c <= '9') || c == '_' || c
            == '-') {
            assert(!is_key_char(key@[i as int]));
            return false;
        }
        i += 1;
    }
    true
}

/// Whether `value` only announces a folded or literal block.
fn block_indicator(value: &[char]) -> (r: bool)
    ensures
        r == is_block_indicator(value@),
{
    spells(value, ">") || spells(value, "|") || spells(value, ">-") || spells(value, ">+") || spells(
        value,
        "|-",
    ) || spells(value, "|+")
}

/// `line` as a top-level YAML `key: value` pair, or `None` when it reads as prose: indented, or
/// with a key that is not a plain word, or with a value that only announces a block.
pub fn yaml_key_value(line: &str) -> (r: Option<(String, String)>)
    ensures
        match r {
            Some(pair) => yaml_pair(line@) == Some((pair.0@, pair.1@)),
            None => yaml_pair(line@) is None,
        },
{
    let cs: Vec<char> = chars_of(line);
    if cs.len() > 0 && (cs[0] == ' ' || cs[0] == '\t') {
        return None;
    }
    let colon: usize = find_char(cs.as_slice(), ':', 0);
    if colon == cs.len() {
        return None;
    }
    let key: &[char] = trimmed_end(slice_subrange(cs.as_slice(), 0, colon));
    let value: &[char] = trimmed(slice_subrange(cs.as_slice(), colon + 1, cs.len()));
    assert(cs@.subrange(colon + 1, cs@.len() as int) =~= line@.skip(colon + 1));
    if plain_key(key) && value.len() > 0 && !block_indicator(value) {
        Some((string_of(key), string_of(value)))
    } else {
        None
    }
}

/// Whether a character is a single or double quote.
pub open spec fn is_quote(c: char) -> bool {
    c == '"' || c == '\''
}

/// `s` without the quotes before it.
pub open spec fn unquote_start(s: Seq<char>) -> Seq<char>
    decreases s.len(),
{
    if s.len() > 0 && is_quote(s[0]) {
        unquote_start(s.drop_first())
    } else {
        s
    }
}

/// `s` without the quotes behind it.
pub open spec fn unquote_end(s: Seq<char>) -> Seq<char>
    decreases s.len(),
{
    if s.len() > 0 && is_quote(s.last()) {
        unquote_end(s.drop_last())
    } else {
        s
    }
}

/// `s` without the quotes around it.
pub open spec fn unquoted(s: Seq<char>) -> Seq<char> {
    unquote_end(unquote_start(s))
}

/// Quotes are taken off both ends of a value, and nothing else is: a value without them is not
/// changed, and one between them is what stands between.
pub proof fn law_only_quotes_are_taken_off(inner: Seq<char>, quote: char)
    requires
        quote == '"' || quote == '\'',
        inner.len() > 0,
        inner[0] != '"' && inner[0] != '\'',
        inner.last() != '"' && inner.last() != '\'',
    ensures
        unquoted(inner) == inner,
        unquoted(seq![quote] + inner + seq![quote]) == inner,
{
    let s = seq![quote] + inner + seq![quote];
    let t = inner + seq![quote];
    assert(s.drop_first() =~= t);
    assert(t[0] == inner[0]);
    assert(unquote_start(t) == t);
    assert(unquote_start(s) == t);
    assert(t.drop_last() =~= inner);
    assert(unquote_end(inner) == inner);
    assert(unquote_end(t) == inner);
    assert(unquote_start(inner) == inner);
}

/// `s` without the quotes around it.
fn strip_quotes(s: &str) -> (r: String)
    ensures
        r@ == unquoted(s@),
{
    let cs: Vec<char> = chars_of(s);
    let mut i: usize = 0;
    assert(cs@.skip(0) =~= cs@);
    while i < cs.len() && (cs[i] == '"' || cs[i] == '\'')
        invariant
            i <= cs.len(),
            unquote_start(cs@) == unquote_start(cs@.skip(i as int)),
        decreases cs.len() - i,
    {
        assert(cs@.skip(i as int).drop_first() =~= cs@.skip(i + 1));
        i += 1;
    }
    let rest: &[char] = slice_subrange(cs.as_slice(), i, cs.len());
    assert(rest@ =~= cs@.skip(i as int));
    let mut n: usize = rest.len();
    assert(rest@.take(n as int) =~= rest@);
    while n > 0 && (rest[n - 1] == '"' || rest[n - 1] == '\'')
        invariant
            n <= rest.len(),
            unquote_end(rest@) == unquote_end(rest@.take(n as int)),
        decreases n,
    {
        assert(rest@.take(n as int).drop_last() =~= rest@.take(n - 1));
        n -= 1;
    }
    string_of(slice_subrange(rest, 0, n))
}

/// What one line of frontmatter contributes: a field is classified; prose is reported only for
/// a marker in it.
pub open spec fn frontmatter_line(line: Seq<char>, everything: bool) -> Seq<FindingView> {
    match yaml_pair(line) {
        Some((key, value)) => classified(
            "frontmatter \""@ + key + "\""@,
            key,
            unquoted(value),
            everything,
        ),
        None => match marker(line) {
            Some(m) => seq![
                FindingView { field: "frontmatter"@, value: trim(line), why: WhyView::Marker(m) },
            ],
            None => seq![],
        },
    }
}

/// What the lines from number `k` on contribute, up to the closing `---`.
pub open spec fn frontmatter_from(ls: Seq<Seq<char>>, k: int, everything: bool) -> Seq<FindingView>
    decreases ls.len() - k,
{
    if k >= ls.len() || trim_end(ls[k]) == "---"@ {
        seq![]
    } else {
        frontmatter_line(ls[k], everything) + frontmatter_from(ls, k + 1, everything)
    }
}

/// The findings in the frontmatter of a text, which has one where its first line is `---`.
pub open spec fn frontmatter_findings(text: Seq<char>, everything: bool) -> Seq<FindingView> {
    let ls = lines(text);
    if ls.len() > 0 && trim_end(ls[0]) == "---"@ {
        frontmatter_from(ls, 1, everything)
    } else {
        seq![]
    }
}

proof fn lemma_frontmatter_body(
    ls: Seq<Seq<char>>,
    body: Seq<Seq<char>>,
    k: int,
    everything: bool,
)
    requires
        1 <= k <= body.len() + 1,
        body.len() + 1 <= ls.len(),
        forall|i: int| 0 <= i < body.len() ==> ls[i + 1] == #[trigger] body[i],
        forall|i: int| 0 <= i < body.len() ==> trim_end(#[trigger] body[i]) != "---"@,
        body.len() + 1 == ls.len() || trim_end(ls[body.len() as int + 1]) == "---"@,
    ensures
        frontmatter_from(ls, k, everything) == body.skip(k - 1).flat_map(
            |line: Seq<char>| frontmatter_line(line, everything),
        ),
    decreases body.len() + 1 - k,
{
    let f = |line: Seq<char>| frontmatter_line(line, everything);
    let rest = body.skip(k - 1);
    if k <= body.len() {
        lemma_frontmatter_body(ls, body, k + 1, everything);
        assert(ls[k - 1 + 1] == body[k - 1]);
        assert(rest.map_values(f).drop_first() =~= body.skip(k).map_values(f));
        assert(rest.map_values(f).first() == frontmatter_line(ls[k], everything));
        assert(rest.flat_map(f) == frontmatter_line(ls[k], everything) + body.skip(k).flat_map(f));
    } else {
        assert(rest.map_values(f).len() == 0);
    }
}

/// Every line between the fences of a frontmatter contributes, in order, and no other line of the
/// text does.
pub proof fn law_every_line_of_frontmatter_is_read(
    text: Seq<char>,
    body: Seq<Seq<char>>,
    everything: bool,
)
    requires
        body.len() + 1 <= lines(text).len(),
        trim_end(lines(text)[0]) == "---"@,
        forall|i: int| 0 <= i < body.len() ==> lines(text)[i + 1] == #[trigger] body[i],
        forall|i: int| 0 <= i < body.len() ==> trim_end(#[trigger] body[i]) != "---"@,
        body.len() + 1 == lines(text).len() || trim_end(lines(text)[body.len() as int + 1]) == "---"@,
    ensures
        frontmatter_findings(text, everything) == body.flat_map(
            |line: Seq<char>| frontmatter_line(line, everything),
        ),
{
    lemma_frontmatter_body(lines(text), body, 1, everything);
    assert(body.skip(0) =~= body);
}

/// Whether `line` is a frontmatter fence: `---`, with white space behind it at most.
fn is_fence(line: &str) -> (r: bool)
    ensures
        r == (trim_end(line@) == "---"@),
{
    let cs: Vec<char> = chars_of(line);
    spells(trimmed_end(cs.as_slice()), "---")
}

/// Append what one line of frontmatter contributes.
fn add_frontmatter_line(found: &mut Vec<Finding>, line: &str, everything: bool)
    ensures
        final(found).deep_view() == old(found).deep_view() + frontmatter_line(line@, everything),
{
    match yaml_key_value(line) {
        Some((key, value)) => {
            let mut field: String = "frontmatter \"".to_owned();
            field.append(key.as_str());
            field.append("\"");
            let value: String = strip_quotes(value.as_str());
            classify(found, field.as_str(), key.as_str(), value.as_str(), everything);
        },
        None => {
            let ghost before = found.deep_view();
            if let Some(m) = marker_in(line) {
                let cs: Vec<char> = chars_of(line);
                let value: String = string_of(trimmed(cs.as_slice()));
                found.push(Finding { field: "frontmatter".to_owned(), value, why: Why::Marker(m) });
                assert(found.deep_view() =~= before + frontmatter_line(line@, everything));
            } else {
                assert(found.deep_view() =~= before + frontmatter_line(line@, everything));
            }
        },
    }
}

/// YAML frontmatter keys, shallowly: `key: value` lines between the opening `---` and the
/// next. Prose lines cannot become fields, but still get the marker sweep.
pub fn frontmatter(text: &str, everything: bool) -> (r: Vec<Finding>)
    ensures
        r.deep_view() == frontmatter_findings(text@, everything),
{
    let cs: Vec<char> = chars_of(text);
    let ls: Vec<String> = lines_of(cs.as_slice());
    let mut found: Vec<Finding> = Vec::new();
    if ls.len() == 0 || !is_fence(ls[0].as_str()) {
        assert(ls.deep_view().len() > 0 ==> ls.deep_view()[0] == ls@[0]@);
        assert(found.deep_view() =~= seq![]);
        return found;
    }
    assert(ls.deep_view()[0] == ls@[0]@);
    let mut k: usize = 1;
    assert(found.deep_view() + frontmatter_findings(text@, everything) =~= frontmatter_findings(
        text@,
        everything,
    ));
    while k < ls.len()
        invariant
            1 <= k <= ls.len(),
            ls.deep_view() == lines(text@),
            found.deep_view() + frontmatter_from(ls.deep_view(), k as int, everything)
                == frontmatter_findings(text@, everything),
        decreases ls.len() - k,
    {
        let line: &str = ls[k].as_str();
        assert(line@ == ls.deep_view()[k as int]);
        let ghost before = found.deep_view();
        if is_fence(line) {
            assert(found.deep_view() + seq![] =~= found.deep_view());
            return found;
        }
        add_frontmatter_line(&mut found, line, everything);
        assert(found.deep_view() + frontmatter_from(ls.deep_view(), k + 1, everything) =~= before
            + frontmatter_from(ls.deep_view(), k as int, everything));
        k += 1;
    }
    assert(found.deep_view() + seq![] =~= found.deep_view());
    found
}

// --- markup ---------------------------------------------------------------------------------

/// A `<meta …>` tag.
pub const META_TAG: &'static str = "(?is)<meta\\s[^>]*>";

/// The value of a `name` or `property` attribute.
pub const META_NAME: &'static str = "(?i)\\b(?:name|property)\\s*=\\s*[\"']([^\"']*)[\"']";

/// The value of a `content` attribute.
pub const META_CONTENT: &'static str = "(?i)\\bcontent\\s*=\\s*[\"']([^\"']*)[\"']";

/// The inside of a `<metadata>` block.
pub const METADATA_BLOCK: &'static str = "(?is)<metadata[^>]*>(.*?)</metadata>";

/// Any markup tag.
pub const ANY_TAG: &'static str = "<[^>]*>";

/// What a `<meta>` tag contributes, given its name and its content: both must be there.
pub open spec fn meta_given(
    key: Option<Seq<char>>,
    content: Option<Seq<char>>,
    everything: bool,
) -> Seq<FindingView> {
    match (key, content) {
        (Some(key), Some(value)) => classified("<meta "@ + key + ">"@, key, value, everything),
        _ => seq![],
    }
}

/// What the first `n` tags contribute.
pub open spec fn meta_findings(tags: Seq<Seq<char>>, n: nat, everything: bool) -> Seq<FindingView>
    decreases n,
{
    if n == 0 {
        seq![]
    } else {
        let tag = tags[n - 1];
        meta_findings(tags, (n - 1) as nat, everything) + meta_given(
            regex_first_group(META_NAME@, tag),
            regex_first_group(META_CONTENT@, tag),
            everything,
        )
    }
}

/// Every tag contributes, in order, what its own name and content come to.
pub proof fn law_every_meta_tag_is_read(tags: Seq<Seq<char>>, n: nat, everything: bool)
    requires
        n <= tags.len(),
    ensures
        meta_findings(tags, n, everything) == tags.take(n as int).flat_map(
            |tag: Seq<char>|
                meta_given(
                    regex_first_group(META_NAME@, tag),
                    regex_first_group(META_CONTENT@, tag),
                    everything,
                ),
        ),
    decreases n,
{
    if n > 0 {
        law_every_meta_tag_is_read(tags, (n - 1) as nat, everything);
        lemma_flat_map_last(
            tags,
            |tag: Seq<char>|
                meta_given(
                    regex_first_group(META_NAME@, tag),
                    regex_first_group(META_CONTENT@, tag),
                    everything,
                ),
            n,
        );
    }
}

/// The findings in the `<meta>` tags of a text.
pub open spec fn html_findings(text: Seq<char>, everything: bool) -> Seq<FindingView> {
    let tags = regex_matches(META_TAG@, text);
    meta_findings(tags, tags.len(), everything)
}

/// Every tag of a page is read, in order.
pub proof fn law_every_tag_of_a_page_is_read(text: Seq<char>, everything: bool)
    ensures
        html_findings(text, everything) == regex_matches(META_TAG@, text).flat_map(
            |tag: Seq<char>|
                match (
                    regex_first_group(META_NAME@, tag),
                    regex_first_group(META_CONTENT@, tag),
                ) {
                    (Some(key), Some(value)) => classified(
                        "<meta "@ + key + ">"@,
                        key,
                        value,
                        everything,
                    ),
                    _ => seq![],
                },
        ),
{
    let tags = regex_matches(META_TAG@, text);
    law_every_meta_tag_is_read(tags, tags.len(), everything);
    assert(tags.take(tags.len() as int) =~= tags);
    let f = |tag: Seq<char>|
        match (regex_first_group(META_NAME@, tag), regex_first_group(META_CONTENT@, tag)) {
            (Some(key), Some(value)) => classified("<meta "@ + key + ">"@, key, value, everything),
            _ => seq![],
        };
    let g = |tag: Seq<char>|
        meta_given(
            regex_first_group(META_NAME@, tag),
            regex_first_group(META_CONTENT@, tag),
            everything,
        );
    assert(tags.map_values(f) =~= tags.map_values(g));
}

/// Append what a `<meta>` tag contributes, given its name and its content.
pub fn add_meta(
    found: &mut Vec<Finding>,
    key: Option<String>,
    content: Option<String>,
    everything: bool,
)
    ensures
        final(found).deep_view() == old(found).deep_view() + meta_given(
            key.deep_view(),
            content.deep_view(),
            everything,
        ),
{
    let ghost before = found.deep_view();
    match (key, content) {
        (Some(key), Some(value)) => {
            let mut field: String = "<meta ".to_owned();
            field.append(key.as_str());
            field.append(">");
            classify(found, field.as_str(), key.as_str(), value.as_str(), everything);
        },
        _ => {
            assert(before + seq![] =~= before);
        },
    }
}

/// `<meta name|property="…" content="…">` tags, either attribute order.
pub fn html_meta(text: &str, everything: bool) -> (r: Vec<Finding>)
    ensures
        r.deep_view() == html_findings(text@, everything),
{
    let tags: Vec<String> = all_matches(META_TAG, text);
    let mut found: Vec<Finding> = Vec::new();
    let mut k: usize = 0;
    assert(found.deep_view() =~= seq![]);
    while k < tags.len()
        invariant
            k <= tags.len(),
            found.deep_view() == meta_findings(tags.deep_view(), k as nat, everything),
        decreases tags.len() - k,
    {
        let tag: &str = tags[k].as_str();
        assert(tag@ == tags.deep_view()[k as int]);
        add_meta(
            &mut found,
            first_group(META_NAME, tag),
            first_group(META_CONTENT, tag),
            everything,
        );
        k += 1;
    }
    found
}

/// What the words of a `<metadata>` block contribute: an empty block nothing.
pub open spec fn metadata_words(blanked: Seq<char>, everything: bool) -> Seq<FindingView> {
    let plain = join(words(blanked), " "@);
    if plain.len() == 0 {
        seq![]
    } else {
        classified("<metadata>"@, "metadata"@, plain, everything)
    }
}

/// What the first `n` blocks contribute.
pub open spec fn block_findings(blocks: Seq<Option<Seq<char>>>, n: nat, everything: bool) -> Seq<
    FindingView,
>
    decreases n,
{
    if n == 0 {
        seq![]
    } else {
        block_findings(blocks, (n - 1) as nat, everything) + match blocks[n - 1] {
            Some(inner) => metadata_words(regex_blanked(ANY_TAG@, inner), everything),
            None => seq![],
        }
    }
}

/// Every block contributes, in order, what its words without the tags come to.
pub proof fn law_every_metadata_block_is_read(
    blocks: Seq<Option<Seq<char>>>,
    n: nat,
    everything: bool,
)
    requires
        n <= blocks.len(),
    ensures
        block_findings(blocks, n, everything) == blocks.take(n as int).flat_map(
            |block: Option<Seq<char>>|
                match block {
                    Some(inner) => metadata_words(regex_blanked(ANY_TAG@, inner), everything),
                    None => seq![],
                },
        ),
    decreases n,
{
    if n > 0 {
        law_every_metadata_block_is_read(blocks, (n - 1) as nat, everything);
        lemma_flat_map_last(
            blocks,
            |block: Option<Seq<char>>|
                match block {
                    Some(inner) => metadata_words(regex_blanked(ANY_TAG@, inner), everything),
                    None => seq![],
                },
            n,
        );
    }
}

/// The findings in the `<metadata>` blocks of a text.
pub open spec fn svg_findings(text: Seq<char>, everything: bool) -> Seq<FindingView> {
    let blocks = regex_groups(METADATA_BLOCK@, text);
    block_findings(blocks, blocks.len(), everything)
}

/// Every block of a drawing is read, in order: its words, without the tags between them.
pub proof fn law_every_block_of_a_drawing_is_read(text: Seq<char>, everything: bool)
    ensures
        svg_findings(text, everything) == regex_groups(METADATA_BLOCK@, text).flat_map(
            |block: Option<Seq<char>>|
                if block is Some && words(regex_blanked(ANY_TAG@, block->0)).len() > 0 && join(
                    words(regex_blanked(ANY_TAG@, block->0)),
                    " "@,
                ).len() > 0 {
                    classified(
                        "<metadata>"@,
                        "metadata"@,
                        join(words(regex_blanked(ANY_TAG@, block->0)), " "@),
                        everything,
                    )
                } else {
                    seq![]
                },
        ),
{
    let blocks = regex_groups(METADATA_BLOCK@, text);
    law_every_metadata_block_is_read(blocks, blocks.len(), everything);
    assert(blocks.take(blocks.len() as int) =~= blocks);
    let f = |block: Option<Seq<char>>|
        if block is Some && words(regex_blanked(ANY_TAG@, block->0)).len() > 0 && join(
            words(regex_blanked(ANY_TAG@, block->0)),
            " "@,
        ).len() > 0 {
            classified(
                "<metadata>"@,
                "metadata"@,
                join(words(regex_blanked(ANY_TAG@, block->0)), " "@),
                everything,
            )
        } else {
            seq![]
        };
    let g = |block: Option<Seq<char>>|
        match block {
            Some(inner) => metadata_words(regex_blanked(ANY_TAG@, inner), everything),
            None => seq![],
        };
    assert(blocks.map_values(f) =~= blocks.map_values(g));
}

/// Append what a `<metadata>` block contributes, given its inside with the tags blanked.
pub fn add_metadata_words(found: &mut Vec<Finding>, blanked: &str, everything: bool)
    ensures
        final(found).deep_view() == old(found).deep_view() + metadata_words(blanked@, everything),
{
    let ghost before = found.deep_view();
    let cs: Vec<char> = chars_of(blanked);
    let plain: String = joined(&words_of(cs.as_slice()), " ");
    if plain.as_str().is_empty() {
        assert(before + seq![] =~= before);
        return;
    }
    classify(found, "<metadata>", "metadata", plain.as_str(), everything);
}

/// The inner text of `<metadata>` blocks, tags stripped.
pub fn svg_metadata(text: &str, everything: bool) -> (r: Vec<Finding>)
    ensures
        r.deep_view() == svg_findings(text@, everything),
{
    let blocks: Vec<Option<String>> = all_groups(METADATA_BLOCK, text);
    let mut found: Vec<Finding> = Vec::new();
    let mut k: usize = 0;
    assert(found.deep_view() =~= seq![]);
    while k < blocks.len()
        invariant
            k <= blocks.len(),
            found.deep_view() == block_findings(blocks.deep_view(), k as nat, everything),
        decreases blocks.len() - k,
    {
        let ghost before = found.deep_view();
        assert(blocks@[k as int].deep_view() == blocks.deep_view()[k as int]);
        match &blocks[k] {
            Some(inner) => {
                let blanked: String = blank_matches(ANY_TAG, inner.as_str());
                add_metadata_words(&mut found, blanked.as_str(), everything);
            },
            None => {
                assert(before + seq![] =~= before);
            },
        }
        k += 1;
    }
    found
}

// --- binary formats -------------------------------------------------------------------------

/// The keyword before the first NUL, which must be UTF-8, and what follows the NUL.
pub open spec fn keyword_and_rest(data: Seq<u8>) -> Option<(Seq<char>, Seq<u8>)> {
    let nul = byte_from(data, 0, 0);
    if nul >= data.len() {
        None
    } else {
        match utf8_text(data.take(nul)) {
            Some(key) => Some((key, data.skip(nul + 1))),
            None => None,
        }
    }
}

/// Keyword before the first NUL, raw bytes after it.
pub fn split_nul_raw(data: &[u8]) -> (r: Option<(String, &[u8])>)
    ensures
        match r {
            Some(pair) => keyword_and_rest(data@) == Some((pair.0@, pair.1@)),
            None => keyword_and_rest(data@) is None,
        },
{
    let nul: usize = find_byte(data, 0, 0);
    if nul == data.len() {
        return None;
    }
    match read_utf8(slice_subrange(data, 0, nul)) {
        Some(key) => {
            let rest: &[u8] = slice_subrange(data, nul + 1, data.len());
            assert(rest@ =~= data@.skip(nul + 1));
            Some((key, rest))
        },
        None => None,
    }
}

/// Keyword before the first NUL, text after it: the `tEXt` layout.
pub fn split_nul(data: &[u8]) -> (r: Option<(String, String)>)
    ensures
        match r {
            Some(pair) => keyword_and_rest(data@) matches Some(raw) && raw.0 == pair.0@
                && lossy_text(raw.1) == pair.1@,
            None => keyword_and_rest(data@) is None,
        },
{
    match split_nul_raw(data) {
        Some((key, value)) => Some((key, read_lossy(value))),
        None => None,
    }
}

/// The text of an `iTXt` chunk behind its keyword. A flag and a method take one byte each, then
/// come the language and the translated keyword, each ended by a NUL; the text is all that
/// follows. There is one where the flag says that it is not compressed and it is UTF-8.
pub open spec fn itxt_text(tail: Seq<u8>) -> Option<Seq<char>> {
    let language = byte_from(tail, 0, 2);
    let translated = byte_from(tail, 0, language + 1);
    if tail.len() > 0 && tail[0] == 0 && translated < tail.len() {
        utf8_text(tail.skip(translated + 1))
    } else {
        None
    }
}

/// What one PNG chunk contributes.
pub open spec fn chunk_findings(kind: Seq<u8>, data: Seq<u8>, everything: bool) -> Seq<FindingView> {
    if bytes_spell(kind, "tEXt"@) {
        match keyword_and_rest(data) {
            Some((key, value)) => classified(
                "PNG tEXt \""@ + key + "\""@,
                key,
                lossy_text(value),
                everything,
            ),
            None => seq![],
        }
    } else if bytes_spell(kind, "iTXt"@) {
        match keyword_and_rest(data) {
            Some((key, tail)) => match itxt_text(tail) {
                Some(value) => classified("PNG iTXt \""@ + key + "\""@, key, value, everything),
                None => seq![],
            },
            None => seq![],
        }
    } else if bytes_spell(kind, "zTXt"@) {
        match keyword_and_rest(data) {
            Some((key, tail)) => if is_provenance(key) {
                seq![
                    FindingView {
                        field: "PNG zTXt \""@ + key + "\""@,
                        value: "<compressed text chunk — value not decoded>"@,
                        why: WhyView::ProvenanceField,
                    },
                ]
            } else {
                seq![]
            },
            None => seq![],
        }
    } else if bytes_spell(kind, "caBX"@) {
        seq![
            FindingView {
                field: "PNG chunk caBX"@,
                value: "C2PA / JUMBF content-credentials container present"@,
                why: WhyView::Marker("c2pa"@),
            },
        ]
    } else {
        seq![]
    }
}

/// What the chunks of a PNG contribute, from the start of a chunk on. A chunk is its length, its
/// kind, its data and a checksum; where the length runs past the end, the data is what is left
/// and the walk stops.
pub open spec fn png_walk(rest: Seq<u8>, everything: bool) -> Seq<FindingView>
    decreases rest.len(),
{
    if rest.len() < 8 {
        seq![]
    } else {
        let length = be32(rest, 0);
        let end = if 8 + length <= rest.len() {
            8 + length
        } else {
            rest.len()
        };
        let here = chunk_findings(rest.subrange(4, 8), rest.subrange(8, end as int), everything);
        if length + 12 > rest.len() {
            here
        } else {
            here + png_walk(rest.skip(length as int + 12), everything)
        }
    }
}

/// The eight bytes that open a PNG.
pub const PNG_SIGNATURE: &'static str = "\u{89}PNG\r\n\u{1a}\n";

/// The findings in the text chunks of a PNG.
pub open spec fn png_findings(bytes: Seq<u8>, everything: bool) -> Seq<FindingView> {
    if bytes_at(bytes, PNG_SIGNATURE@, 0) {
        png_walk(bytes.skip(8), everything)
    } else {
        seq![]
    }
}

/// `prefix`, then `key`, then a closing quote.
fn quoted_field(prefix: &str, key: &str) -> (r: String)
    ensures
        r@ == prefix@ + key@ + "\""@,
{
    let mut field: String = prefix.to_owned();
    field.append(key);
    field.append("\"");
    field
}

/// Append what a `tEXt` chunk contributes.
fn add_text_chunk(found: &mut Vec<Finding>, data: &[u8], everything: bool)
    ensures
        final(found).deep_view() == old(found).deep_view() + match keyword_and_rest(data@) {
            Some((key, value)) => classified(
                "PNG tEXt \""@ + key + "\""@,
                key,
                lossy_text(value),
                everything,
            ),
            None => seq![],
        },
{
    let ghost before = found.deep_view();
    match split_nul(data) {
        Some((key, value)) => {
            let field: String = quoted_field("PNG tEXt \"", key.as_str());
            classify(found, field.as_str(), key.as_str(), value.as_str(), everything);
        },
        None => {
            assert(before + seq![] =~= before);
        },
    }
}

/// The text of an `iTXt` chunk behind its keyword.
fn read_itxt(tail: &[u8]) -> (r: Option<String>)
    ensures
        r.deep_view() == itxt_text(tail@),
{
    if tail.len() < 2 || tail[0] != 0 {
        return None;
    }
    let language: usize = find_byte(tail, 0, 2);
    if language == tail.len() {
        return None;
    }
    let translated: usize = find_byte(tail, 0, language + 1);
    if translated == tail.len() {
        return None;
    }
    let text: &[u8] = slice_subrange(tail, translated + 1, tail.len());
    assert(text@ =~= tail@.skip(translated + 1));
    read_utf8(text)
}

/// Append what an `iTXt` chunk contributes.
fn add_international_chunk(found: &mut Vec<Finding>, data: &[u8], everything: bool)
    ensures
        final(found).deep_view() == old(found).deep_view() + match keyword_and_rest(data@) {
            Some((key, tail)) => match itxt_text(tail) {
                Some(value) => classified("PNG iTXt \""@ + key + "\""@, key, value, everything),
                None => seq![],
            },
            None => seq![],
        },
{
    let ghost before = found.deep_view();
    match split_nul_raw(data) {
        Some((key, tail)) => match read_itxt(tail) {
            Some(value) => {
                let field: String = quoted_field("PNG iTXt \"", key.as_str());
                classify(found, field.as_str(), key.as_str(), value.as_str(), everything);
            },
            None => {
                assert(before + seq![] =~= before);
            },
        },
        None => {
            assert(before + seq![] =~= before);
        },
    }
}

/// Append what one PNG chunk contributes.
fn add_chunk(found: &mut Vec<Finding>, kind: &[u8], data: &[u8], everything: bool)
    ensures
        final(found).deep_view() == old(found).deep_view() + chunk_findings(kind@, data@, everything),
{
    let ghost before = found.deep_view();
    if spelled(kind, "tEXt") {
        add_text_chunk(found, data, everything);
    } else if spelled(kind, "iTXt") {
        add_international_chunk(found, data, everything);
    } else if spelled(kind, "zTXt") {
        match split_nul_raw(data) {
            Some((key, _tail)) => {
                if is_provenance_field(key.as_str()) {
                    found.push(
                        Finding {
                            field: quoted_field("PNG zTXt \"", key.as_str()),
                            value: "<compressed text chunk — value not decoded>".to_owned(),
                            why: Why::ProvenanceField,
                        },
                    );
                }
            },
            None => {},
        }
        assert(found.deep_view() =~= before + chunk_findings(kind@, data@, everything));
    } else if spelled(kind, "caBX") {
        found.push(
            Finding {
                field: "PNG chunk caBX".to_owned(),
                value: "C2PA / JUMBF content-credentials container present".to_owned(),
                why: Why::Marker("c2pa".to_owned()),
            },
        );
        assert(found.deep_view() =~= before + chunk_findings(kind@, data@, everything));
    } else {
        assert(found.deep_view() =~= before + chunk_findings(kind@, data@, everything));
    }
}

/// The bytes of a chunk: its length, its kind, its data and a checksum.
pub open spec fn chunk_bytes(kind: Seq<u8>, data: Seq<u8>, sum: Seq<u8>) -> Seq<u8> {
    seq![
        (data.len() / 0x1000000) as u8,
        (data.len() / 0x10000 % 0x100) as u8,
        (data.len() / 0x100 % 0x100) as u8,
        (data.len() % 0x100) as u8,
    ] + kind + data + sum
}

proof fn lemma_first_chunk(
    kind: Seq<u8>,
    data: Seq<u8>,
    sum: Seq<u8>,
    rest: Seq<u8>,
    everything: bool,
)
    requires
        kind.len() == 4,
        sum.len() == 4,
        data.len() <= 0xffff_ffff,
    ensures
        png_walk(chunk_bytes(kind, data, sum) + rest, everything) == chunk_findings(
            kind,
            data,
            everything,
        ) + png_walk(rest, everything),
{
    let n = data.len() as int;
    let whole = chunk_bytes(kind, data, sum) + rest;
    let a = n / 0x1000000;
    let b = n / 0x10000 % 0x100;
    let c = n / 0x100 % 0x100;
    let d = n % 0x100;
    assert(a * 0x1000000 + b * 0x10000 + c * 0x100 + d == n);
    assert(0 <= a < 0x100);
    assert(be32(whole, 0) == n);
    assert(whole.subrange(4, 8) =~= kind);
    assert(whole.subrange(8, 8 + n) =~= data);
    assert(whole.skip(n + 12) =~= rest);
}

/// Chunks stand each for itself: one of any kind in front adds its own findings and takes nothing
/// away from those of what follows it.
pub proof fn law_chunks_stand_each_for_itself(
    kind: Seq<u8>,
    data: Seq<u8>,
    sum: Seq<u8>,
    rest: Seq<u8>,
    everything: bool,
)
    requires
        kind.len() == 4,
        sum.len() == 4,
        data.len() <= 0xffff_ffff,
    ensures
        ({
            let start = seq![0x89u8, 0x50u8, 0x4eu8, 0x47u8, 0x0du8, 0x0au8, 0x1au8, 0x0au8];
            let chunk = seq![
                (data.len() / 0x1000000) as u8,
                (data.len() / 0x10000 % 0x100) as u8,
                (data.len() / 0x100 % 0x100) as u8,
                (data.len() % 0x100) as u8,
            ] + kind + data + sum;
            png_findings(start + chunk + rest, everything) == png_findings(
                start + chunk,
                everything,
            ) + png_findings(start + rest, everything)
        }),
{
    let start = seq![0x89u8, 0x50u8, 0x4eu8, 0x47u8, 0x0du8, 0x0au8, 0x1au8, 0x0au8];
    let chunk = chunk_bytes(kind, data, sum);
    lemma_first_chunk(kind, data, sum, rest, everything);
    lemma_first_chunk(kind, data, sum, seq![], everything);
    lemma_signature(chunk + rest);
    lemma_signature(chunk);
    lemma_signature(rest);
    assert(chunk + seq![] =~= chunk);
    assert(start + chunk + rest =~= start + (chunk + rest));
    assert((start + (chunk + rest)).skip(8) =~= chunk + rest);
    assert((start + chunk).skip(8) =~= chunk);
    assert((start + rest).skip(8) =~= rest);
    assert(png_walk(seq![], everything) =~= seq![]);
    assert(chunk_findings(kind, data, everything) + seq![] =~= chunk_findings(
        kind,
        data,
        everything,
    ));
}

proof fn lemma_signature(rest: Seq<u8>)
    ensures
        bytes_at(
            seq![0x89u8, 0x50u8, 0x4eu8, 0x47u8, 0x0du8, 0x0au8, 0x1au8, 0x0au8] + rest,
            PNG_SIGNATURE@,
            0,
        ),
{
    reveal_strlit("\u{89}PNG\r\n\u{1a}\n");
    let start = seq![0x89u8, 0x50u8, 0x4eu8, 0x47u8, 0x0du8, 0x0au8, 0x1au8, 0x0au8];
    assert((start + rest).subrange(0, 8) =~= start);
}

/// A text chunk is a keyword, a NUL and a value, which is classified under the keyword; an
/// international one has two bytes, a language and a translated keyword between, each ended by a
/// NUL; a compressed one is named for a keyword that says what wrote the file; and the container of
/// credentials is reported by its presence.
pub proof fn law_what_a_chunk_holds(
    key: Seq<u8>,
    language: Seq<u8>,
    translated: Seq<u8>,
    value: Seq<u8>,
    method: u8,
    everything: bool,
)
    requires
        !key.contains(0),
        !language.contains(0),
        !translated.contains(0),
        utf8_text(key) is Some,
    ensures
        ({
            let text = seq![0x74u8, 0x45u8, 0x58u8, 0x74u8];
            let international = seq![0x69u8, 0x54u8, 0x58u8, 0x74u8];
            let name = utf8_text(key)->0;
            &&& chunk_findings(text, key + seq![0u8] + value, everything) == classified(
                "PNG tEXt \""@ + name + "\""@,
                name,
                lossy_text(value),
                everything,
            )
            &&& chunk_findings(
                international,
                key + seq![0u8] + (seq![0u8, method] + language + seq![0u8] + translated + seq![0u8]
                    + value),
                everything,
            ) == match utf8_text(value) {
                Some(said) => classified(
                    "PNG iTXt \""@ + name + "\""@,
                    name,
                    said,
                    everything,
                ),
                None => seq![],
            }
        }),
{
    reveal_strlit("tEXt");
    reveal_strlit("iTXt");
    let text = seq![0x74u8, 0x45u8, 0x58u8, 0x74u8];
    let international = seq![0x69u8, 0x54u8, 0x58u8, 0x74u8];
    assert(bytes_spell(text, "tEXt"@));
    assert(international[0] as int != "tEXt"@[0] as int);
    assert(!bytes_spell(international, "tEXt"@));
    assert(bytes_spell(international, "iTXt"@));
    lemma_keyword(key, value);
    let head = seq![0u8, method] + language + seq![0u8];
    let tail = head + translated + seq![0u8] + value;
    lemma_keyword(key, tail);
    let l = 2 + language.len();
    lemma_first_nul(tail, 2, l as int);
    lemma_first_nul(tail, l as int + 1, (l + 1 + translated.len()) as int);
    assert(tail.skip((l + 1 + translated.len() + 1) as int) =~= value);
}

proof fn lemma_first_nul(s: Seq<u8>, from: int, at: int)
    requires
        0 <= from <= at < s.len(),
        s[at] == 0,
        forall|i: int| from <= i < at ==> #[trigger] s[i] != 0,
    ensures
        byte_from(s, 0, from) == at,
    decreases at - from,
{
    if from < at {
        assert(s[from] != 0);
        lemma_first_nul(s, from + 1, at);
    }
}

proof fn lemma_keyword(key: Seq<u8>, rest: Seq<u8>)
    requires
        !key.contains(0),
        utf8_text(key) is Some,
    ensures
        keyword_and_rest(key + seq![0u8] + rest) == Some((utf8_text(key)->0, rest)),
{
    let data = key + seq![0u8] + rest;
    assert forall|i: int| 0 <= i < key.len() implies #[trigger] data[i] != 0 by {
        assert(key.contains(key[i]));
    }
    lemma_first_nul(data, 0, key.len() as int);
    assert(data.take(key.len() as int) =~= key);
    assert(data.skip(key.len() as int + 1) =~= rest);
}

/// PNG text chunks (`tEXt`, `iTXt`), plus the C2PA container chunk by presence. A compressed
/// chunk (`zTXt`) is reported for a provenance keyword, its value not decoded.
pub fn png_chunks(bytes: &[u8], everything: bool) -> (r: Vec<Finding>)
    ensures
        r.deep_view() == png_findings(bytes@, everything),
{
    let mut found: Vec<Finding> = Vec::new();
    proof {
        reveal_strlit("\u{89}PNG\r\n\u{1a}\n");
    }
    assert(found.deep_view() =~= seq![]);
    if !spelled_at(bytes, PNG_SIGNATURE, 0) {
        return found;
    }
    let mut rest: &[u8] = slice_subrange(bytes, 8, bytes.len());
    assert(rest@ =~= bytes@.skip(8));
    assert(found.deep_view() + png_walk(rest@, everything) =~= png_walk(rest@, everything));
    while rest.len() >= 8
        invariant
            found.deep_view() + png_walk(rest@, everything) == png_findings(bytes@, everything),
        decreases rest@.len(),
    {
        let ghost before = found.deep_view();
        let length: usize = read_be32(rest, 0) as usize;
        let end: usize = if length <= rest.len() - 8 {
            8 + length
        } else {
            rest.len()
        };
        add_chunk(&mut found, slice_subrange(rest, 4, 8), slice_subrange(rest, 8, end), everything);
        if rest.len() < 12 || length > rest.len() - 12 {
            return found;
        }
        let next: &[u8] = slice_subrange(rest, length + 12, rest.len());
        assert(next@ =~= rest@.skip(length + 12));
        assert(found.deep_view() + png_walk(next@, everything) =~= before + png_walk(rest@, everything));
        rest = next;
    }
    assert(found.deep_view() + seq![] =~= found.deep_view());
    found
}

// --- printable runs -------------------------------------------------------------------------

/// Whether a byte is printable ASCII.
pub open spec fn is_printable(b: u8) -> bool {
    0x20 <= b < 0x7f
}

/// The first position at or after `from` that is not printable, or the length of `data`.
pub open spec fn run_end(data: Seq<u8>, from: int) -> int
    decreases data.len() - from,
{
    if from >= data.len() {
        data.len() as int
    } else if is_printable(data[from]) {
        run_end(data, from + 1)
    } else {
        from
    }
}

/// Bytes as the characters they code.
pub open spec fn as_chars(data: Seq<u8>) -> Seq<char> {
    data.map_values(|b: u8| b as char)
}

/// The maximal runs of printable bytes that are at least eight long.
pub open spec fn long_runs(data: Seq<u8>) -> Seq<Seq<char>>
    decreases data.len(),
{
    let k = run_end(data, 0);
    let here = if k >= 8 {
        seq![as_chars(data.take(k))]
    } else {
        seq![]
    };
    if 0 <= k < data.len() {
        here + long_runs(data.skip(k + 1))
    } else {
        here
    }
}

proof fn lemma_run_end(data: Seq<u8>, run: Seq<u8>, from: int)
    requires
        0 <= from <= run.len() <= data.len(),
        data.take(run.len() as int) == run,
        forall|i: int| 0 <= i < run.len() ==> 0x20 <= #[trigger] run[i] < 0x7f,
        run.len() < data.len() ==> !(0x20 <= data[run.len() as int] < 0x7f),
    ensures
        run_end(data, from) == run.len(),
    decreases run.len() - from,
{
    if from < run.len() {
        assert(data.take(run.len() as int)[from] == data[from]);
        assert(0x20 <= run[from] < 0x7f);
        lemma_run_end(data, run, from + 1);
    }
}

/// A run of printable bytes is listed, whole and as it is spelled, exactly where it is at least
/// eight long; and what stands behind the byte that ends it is looked at in the same way.
pub proof fn law_every_long_run_is_listed(run: Seq<u8>, end: u8, rest: Seq<u8>)
    requires
        forall|i: int| 0 <= i < run.len() ==> 0x20 <= #[trigger] run[i] < 0x7f,
        !(0x20 <= end < 0x7f),
    ensures
        long_runs(run + seq![end] + rest) == long_runs(run) + long_runs(rest),
        long_runs(run) == if run.len() >= 8 {
            seq![run.map_values(|b: u8| b as char)]
        } else {
            seq![]
        },
{
    let data = run + seq![end] + rest;
    assert(data.take(run.len() as int) =~= run);
    assert(run.take(run.len() as int) =~= run);
    lemma_run_end(data, run, 0);
    lemma_run_end(run, run, 0);
    assert(data.skip(run.len() as int + 1) =~= rest);
}

/// The text that printable bytes spell.
fn ascii_text(data: &[u8]) -> (r: String)
    ensures
        r@ == as_chars(data@),
{
    let mut out: String = String::new();
    let mut i: usize = 0;
    while i < data.len()
        invariant
            i <= data.len(),
            out@ == as_chars(data@.take(i as int)),
        decreases data.len() - i,
    {
        out.push(data[i] as char);
        assert(out@ =~= as_chars(data@.take(i + 1)));
        i += 1;
    }
    assert(data@.take(i as int) =~= data@);
    out
}

/// Runs of printable ASCII at least eight bytes long: tuned so that binary coincidence stays out
/// of the report.
pub fn printable_runs(data: &[u8]) -> (r: Vec<String>)
    ensures
        r.deep_view() == long_runs(data@),
{
    let mut runs: Vec<String> = Vec::new();
    let mut rest: &[u8] = data;
    assert(runs.deep_view() + long_runs(data@) =~= long_runs(data@));
    loop
        invariant
            runs.deep_view() + long_runs(rest@) == long_runs(data@),
        decreases rest@.len(),
    {
        let ghost before = runs.deep_view();
        let mut k: usize = 0;
        while k < rest.len() && 0x20 <= rest[k] && rest[k] < 0x7f
            invariant
                k <= rest.len(),
                run_end(rest@, 0) == run_end(rest@, k as int),
            decreases rest.len() - k,
        {
            k += 1;
        }
        assert(k == run_end(rest@, 0));
        if k >= 8 {
            runs.push(ascii_text(slice_subrange(rest, 0, k)));
        }
        let ghost here = if k >= 8 {
            seq![as_chars(rest@.take(k as int))]
        } else {
            seq![]
        };
        assert(runs.deep_view() =~= before + here);
        if k == rest.len() {
            return runs;
        }
        let next: &[u8] = slice_subrange(rest, k + 1, rest.len());
        assert(next@ =~= rest@.skip(k + 1));
        assert(runs.deep_view() + long_runs(next@) =~= before + long_runs(rest@));
        rest = next;
    }
}

// --- XMP ------------------------------------------------------------------------------------

/// The value of an `xmp:CreatorTool` attribute.
pub const CREATOR_ATTRIBUTE: &'static str = "(?i)\\bxmp:CreatorTool\\s*=\\s*[\"']([^\"']*)[\"']";

/// The inside of an `xmp:CreatorTool` element.
pub const CREATOR_ELEMENT: &'static str = "(?is)<xmp:CreatorTool[^>]*>(.*?)</xmp:CreatorTool>";

/// What the first `n` creator tools contribute.
pub open spec fn creator_findings(tools: Seq<Option<Seq<char>>>, n: nat, everything: bool) -> Seq<
    FindingView,
>
    decreases n,
{
    if n == 0 {
        seq![]
    } else {
        creator_findings(tools, (n - 1) as nat, everything) + match tools[n - 1] {
            Some(tool) => classified("XMP CreatorTool"@, "creatortool"@, trim(tool), everything),
            None => seq![],
        }
    }
}

/// Every creator tool that is named contributes, in order.
pub proof fn law_every_creator_tool_is_read(tools: Seq<Option<Seq<char>>>, n: nat, everything: bool)
    requires
        n <= tools.len(),
    ensures
        creator_findings(tools, n, everything) == tools.take(n as int).flat_map(
            |tool: Option<Seq<char>>|
                match tool {
                    Some(name) => classified("XMP CreatorTool"@, "creatortool"@, trim(name), everything),
                    None => seq![],
                },
        ),
    decreases n,
{
    if n > 0 {
        law_every_creator_tool_is_read(tools, (n - 1) as nat, everything);
        lemma_flat_map_last(
            tools,
            |tool: Option<Seq<char>>|
                match tool {
                    Some(name) => classified("XMP CreatorTool"@, "creatortool"@, trim(name), everything),
                    None => seq![],
                },
            n,
        );
    }
}

/// Whether one of the findings is there for the marker `m`.
pub open spec fn reports_marker(found: Seq<FindingView>, m: Seq<char>) -> bool {
    exists|k: int| 0 <= k < found.len() && (#[trigger] found[k]).why == WhyView::Marker(m)
}

/// What the sweep of a whole XMP packet contributes behind the tools named in it: its marker,
/// wherever it stands, unless a tool was reported for that very marker. Where there is no marker
/// and no tool was reported, the packet itself if everything is asked for.
pub open spec fn packet_findings(
    found: Option<Seq<char>>,
    xmp: Seq<char>,
    named: Seq<FindingView>,
    everything: bool,
) -> Seq<FindingView> {
    match found {
        Some(m) => if reports_marker(named, m) {
            seq![]
        } else {
            seq![
                FindingView {
                    field: "XMP packet"@,
                    value: "marker inside the XMP data: "@ + m,
                    why: WhyView::Marker(m),
                },
            ]
        },
        None => if everything && named.len() == 0 {
            classified("XMP packet"@, "xmp"@, xmp, true)
        } else {
            seq![]
        },
    }
}

/// The findings for the creator tools named in attributes, then those named in elements.
pub open spec fn named_findings(
    attributes: Seq<Option<Seq<char>>>,
    elements: Seq<Option<Seq<char>>>,
    everything: bool,
) -> Seq<FindingView> {
    creator_findings(attributes, attributes.len(), everything) + creator_findings(
        elements,
        elements.len(),
        everything,
    )
}

/// Every creator tool that is named contributes: those of the attributes in order, then those of
/// the elements in order.
pub proof fn law_every_named_tool_is_reported(
    attributes: Seq<Option<Seq<char>>>,
    elements: Seq<Option<Seq<char>>>,
    everything: bool,
)
    ensures
        named_findings(attributes, elements, everything) == (attributes + elements).flat_map(
            |tool: Option<Seq<char>>|
                match tool {
                    Some(name) => classified(
                        "XMP CreatorTool"@,
                        "creatortool"@,
                        trim(name),
                        everything,
                    ),
                    None => seq![],
                },
        ),
{
    let f = |tool: Option<Seq<char>>|
        match tool {
            Some(name) => classified("XMP CreatorTool"@, "creatortool"@, trim(name), everything),
            None => seq![],
        };
    law_every_creator_tool_is_read(attributes, attributes.len(), everything);
    law_every_creator_tool_is_read(elements, elements.len(), everything);
    assert(attributes.take(attributes.len() as int) =~= attributes);
    assert(elements.take(elements.len() as int) =~= elements);
    vstd::seq_lib::lemma_flatten_concat(attributes.map_values(f), elements.map_values(f));
    assert((attributes + elements).map_values(f) =~= attributes.map_values(f) + elements.map_values(f));
}

/// What an XMP packet contributes, given the creator tools named in attributes and in elements:
/// those, then what the sweep of the whole packet finds.
pub open spec fn xmp_given(
    attributes: Seq<Option<Seq<char>>>,
    elements: Seq<Option<Seq<char>>>,
    xmp: Seq<char>,
    everything: bool,
) -> Seq<FindingView> {
    let named = named_findings(attributes, elements, everything);
    named + packet_findings(marker(xmp), xmp, named, everything)
}

/// Whatever tools an XMP packet names, a marker anywhere in it is reported.
pub proof fn law_the_whole_packet_is_swept(
    attributes: Seq<Option<Seq<char>>>,
    elements: Seq<Option<Seq<char>>>,
    xmp: Seq<char>,
    everything: bool,
)
    requires
        marker(xmp) is Some,
    ensures
        reports_marker(xmp_given(attributes, elements, xmp, everything), marker(xmp)->0),
{
    let m = marker(xmp)->0;
    let named = named_findings(attributes, elements, everything);
    let all = xmp_given(attributes, elements, xmp, everything);
    if reports_marker(named, m) {
        let k = choose|k: int| 0 <= k < named.len() && (#[trigger] named[k]).why == WhyView::Marker(m);
        assert(all[k] == named[k]);
    } else {
        assert(all[named.len() as int].why == WhyView::Marker(m));
    }
}

/// The findings in an XMP packet.
pub open spec fn xmp_all(xmp: Seq<char>, everything: bool) -> Seq<FindingView> {
    xmp_given(
        regex_groups(CREATOR_ATTRIBUTE@, xmp),
        regex_groups(CREATOR_ELEMENT@, xmp),
        xmp,
        everything,
    )
}

/// Append what a list of creator tools contributes.
fn add_creators(found: &mut Vec<Finding>, tools: &Vec<Option<String>>, everything: bool)
    ensures
        final(found).deep_view() == old(found).deep_view() + creator_findings(
            tools.deep_view(),
            tools.deep_view().len(),
            everything,
        ),
{
    let mut k: usize = 0;
    assert(found.deep_view() + seq![] =~= found.deep_view());
    while k < tools.len()
        invariant
            k <= tools.len(),
            found.deep_view() == old(found).deep_view() + creator_findings(
                tools.deep_view(),
                k as nat,
                everything,
            ),
        decreases tools.len() - k,
    {
        assert(tools@[k as int].deep_view() == tools.deep_view()[k as int]);
        let ghost before = found.deep_view();
        match &tools[k] {
            Some(tool) => {
                let cs: Vec<char> = chars_of(tool.as_str());
                let value: String = string_of(trimmed(cs.as_slice()));
                classify(found, "XMP CreatorTool", "creatortool", value.as_str(), everything);
            },
            None => {
                assert(before + seq![] =~= before);
            },
        }
        assert(found.deep_view() =~= old(found).deep_view() + creator_findings(
            tools.deep_view(),
            (k + 1) as nat,
            everything,
        ));
        k += 1;
    }
}

/// Whether one of the findings is there for the marker `m`.
fn has_marker(found: &Vec<Finding>, m: &str) -> (r: bool)
    ensures
        r == reports_marker(found.deep_view(), m@),
{
    let mut k: usize = 0;
    while k < found.len()
        invariant
            k <= found.len(),
            forall|j: int| 0 <= j < k ==> (#[trigger] found.deep_view()[j]).why != WhyView::Marker(m@),
        decreases found.len() - k,
    {
        assert(found.deep_view()[k as int] == found@[k as int]@);
        if let Why::Marker(known) = &found[k].why {
            if same_text(known.as_str(), m) {
                return true;
            }
        }
        k += 1;
    }
    false
}

/// What an XMP packet contributes, given the creator tools found in it.
pub fn xmp_of(
    attributes: &Vec<Option<String>>,
    elements: &Vec<Option<String>>,
    xmp: &str,
    everything: bool,
) -> (r: Vec<Finding>)
    ensures
        r.deep_view() == xmp_given(attributes.deep_view(), elements.deep_view(), xmp@, everything),
{
    let mut found: Vec<Finding> = Vec::new();
    add_creators(&mut found, attributes, everything);
    add_creators(&mut found, elements, everything);
    let ghost named = named_findings(attributes.deep_view(), elements.deep_view(), everything);
    assert(found.deep_view() =~= named);
    assert(found.deep_view().len() == found@.len());
    match marker_in(xmp) {
        Some(m) => {
            if !has_marker(&found, m.as_str()) {
                let mut value: String = "marker inside the XMP data: ".to_owned();
                value.append(m.as_str());
                found.push(Finding { field: "XMP packet".to_owned(), value, why: Why::Marker(m) });
            }
        },
        None => {
            if everything && found.len() == 0 {
                classify(&mut found, "XMP packet", "xmp", xmp, true);
            }
        },
    }
    assert(found.deep_view() =~= named + packet_findings(marker(xmp@), xmp@, named, everything));
    found
}

/// XMP fields worth naming: `CreatorTool` in both spellings, plus a whole-packet marker sweep so
/// that a vendor name anywhere in the packet is caught, even in a field that is not named here.
pub fn xmp_findings(xmp: &str, everything: bool) -> (r: Vec<Finding>)
    ensures
        r.deep_view() == xmp_all(xmp@, everything),
{
    let attributes: Vec<Option<String>> = all_groups(CREATOR_ATTRIBUTE, xmp);
    let elements: Vec<Option<String>> = all_groups(CREATOR_ELEMENT, xmp);
    xmp_of(&attributes, &elements, xmp, everything)
}

// --- JPEG -----------------------------------------------------------------------------------

/// What opens an XMP packet in an APP1 segment.
pub const XMP_HEADER: &'static str = "http://ns.adobe.com/xap/1.0/\0";

/// What opens EXIF data in an APP1 segment.
pub const EXIF_HEADER: &'static str = "Exif\0\0";

/// What the first `n` printable runs of EXIF data contribute.
pub open spec fn exif_findings(runs: Seq<Seq<char>>, n: nat, everything: bool) -> Seq<FindingView>
    decreases n,
{
    if n == 0 {
        seq![]
    } else {
        exif_findings(runs, (n - 1) as nat, everything) + classified(
            "EXIF text"@,
            "exif"@,
            runs[n - 1],
            everything,
        )
    }
}

/// Every run of text in EXIF data contributes, in order.
pub proof fn law_every_exif_run_is_read(runs: Seq<Seq<char>>, n: nat, everything: bool)
    requires
        n <= runs.len(),
    ensures
        exif_findings(runs, n, everything) == runs.take(n as int).flat_map(
            |run: Seq<char>| classified("EXIF text"@, "exif"@, run, everything),
        ),
    decreases n,
{
    if n > 0 {
        law_every_exif_run_is_read(runs, (n - 1) as nat, everything);
        lemma_flat_map_last(
            runs,
            |run: Seq<char>| classified("EXIF text"@, "exif"@, run, everything),
            n,
        );
    }
}

/// Whether the payload holds one of the magics of a JUMBF container.
pub open spec fn is_jumbf(payload: Seq<u8>) -> bool {
    bytes_hold(payload, "jumb"@) || bytes_hold(payload, "c2pa"@) || bytes_hold(payload, "JP  "@)
}

/// What one JPEG segment contributes.
pub open spec fn segment_findings(tag: u8, payload: Seq<u8>, everything: bool) -> Seq<FindingView> {
    if tag == 0xe1 && bytes_at(payload, XMP_HEADER@, 0) {
        xmp_all(lossy_text(payload.skip(29)), everything)
    } else if tag == 0xe1 && bytes_at(payload, EXIF_HEADER@, 0) {
        let runs = long_runs(payload.skip(6));
        exif_findings(runs, runs.len(), everything)
    } else if tag == 0xeb && (is_jumbf(payload) || everything) {
        seq![
            FindingView {
                field: "JPEG APP11"@,
                value: "JUMBF segment (C2PA content credentials live here)"@,
                why: if is_jumbf(payload) {
                    WhyView::Marker("c2pa"@)
                } else {
                    WhyView::Everything
                },
            },
        ]
    } else {
        seq![]
    }
}

/// What the segments of a JPEG contribute, from the start of a segment on, up to the scan. A
/// segment is 0xff, its tag, a length that counts itself, and the payload; where the length
/// cannot be right the walk stops.
pub open spec fn jpeg_walk(rest: Seq<u8>, everything: bool) -> Seq<FindingView>
    decreases rest.len(),
{
    if rest.len() < 4 || rest[0] != 0xff || rest[1] == 0xda {
        seq![]
    } else {
        let length = be16(rest, 2);
        if length < 2 || 2 + length > rest.len() {
            seq![]
        } else {
            segment_findings(rest[1], rest.subrange(4, (2 + length) as int), everything) + jpeg_walk(
                rest.skip((2 + length) as int),
                everything,
            )
        }
    }
}

/// The findings in the APP segments of a JPEG.
pub open spec fn jpeg_findings(bytes: Seq<u8>, everything: bool) -> Seq<FindingView> {
    if bytes.len() >= 2 && bytes[0] == 0xff && bytes[1] == 0xd8 {
        jpeg_walk(bytes.skip(2), everything)
    } else {
        seq![]
    }
}

/// Whether bytes are whole segments, one behind the other, with no start of scan among them.
pub open spec fn whole_segments(head: Seq<u8>) -> bool
    decreases head.len(),
{
    if head.len() == 0 {
        true
    } else {
        &&& head.len() >= 4
        &&& head[0] == 0xff
        &&& head[1] != 0xda
        &&& 2 <= be16(head, 2)
        &&& 2 + be16(head, 2) <= head.len()
        &&& whole_segments(head.skip((2 + be16(head, 2)) as int))
    }
}

proof fn lemma_walk_stops_at_scan(head: Seq<u8>, scan: Seq<u8>, everything: bool)
    requires
        whole_segments(head),
        scan.len() >= 2,
        scan[0] == 0xff,
        scan[1] == 0xda,
    ensures
        jpeg_walk(head + scan, everything) == jpeg_walk(head, everything),
    decreases head.len(),
{
    if head.len() == 0 {
        assert(head + scan =~= scan);
    } else {
        let n = (2 + be16(head, 2)) as int;
        lemma_walk_stops_at_scan(head.skip(n), scan, everything);
        assert((head + scan).skip(n) =~= head.skip(n) + scan);
        assert((head + scan).subrange(4, n) =~= head.subrange(4, n));
    }
}

/// Nothing at or behind the start of the scan adds a finding: behind whole segments, the findings
/// are those of a JPEG that ends there, whatever the scan holds.
pub proof fn law_nothing_is_read_from_the_scan_on(head: Seq<u8>, scan: Seq<u8>, everything: bool)
    requires
        whole_segments(head),
        scan.len() >= 2,
        scan[0] == 0xff,
        scan[1] == 0xda,
    ensures
        jpeg_findings(seq![0xffu8, 0xd8u8] + head + scan, everything) == jpeg_findings(
            seq![0xffu8, 0xd8u8] + head,
            everything,
        ),
{
    let start = seq![0xffu8, 0xd8u8];
    lemma_walk_stops_at_scan(head, scan, everything);
    assert((start + head + scan).skip(2) =~= head + scan);
    assert((start + head).skip(2) =~= head);
}

/// The bytes of a segment: 0xff, its tag, a length that counts itself, and the payload.
pub open spec fn segment_bytes(tag: u8, payload: Seq<u8>) -> Seq<u8> {
    seq![
        0xffu8,
        tag,
        ((payload.len() + 2) / 256) as u8,
        ((payload.len() + 2) % 256) as u8,
    ] + payload
}

proof fn lemma_first_segment(tag: u8, payload: Seq<u8>, rest: Seq<u8>, everything: bool)
    requires
        tag != 0xda,
        payload.len() + 2 <= 0xffff,
    ensures
        jpeg_walk(segment_bytes(tag, payload) + rest, everything) == segment_findings(
            tag,
            payload,
            everything,
        ) + jpeg_walk(rest, everything),
{
    let n = payload.len() + 2;
    let whole = segment_bytes(tag, payload) + rest;
    assert(be16(whole, 2) == n) by {
        assert((n / 256) * 256 + n % 256 == n);
    }
    assert(whole.subrange(4, (2 + n) as int) =~= payload);
    assert(whole.skip((2 + n) as int) =~= rest);
}

/// Segments stand each for itself: one of any kind in front, but for the start of the scan, adds
/// its own findings and takes nothing away from those of what follows it.
pub proof fn law_segments_stand_each_for_itself(
    tag: u8,
    payload: Seq<u8>,
    rest: Seq<u8>,
    everything: bool,
)
    requires
        tag != 0xda,
        payload.len() + 2 <= 0xffff,
    ensures
        ({
            let start = seq![0xffu8, 0xd8u8];
            let segment = seq![
                0xffu8,
                tag,
                ((payload.len() + 2) / 256) as u8,
                ((payload.len() + 2) % 256) as u8,
            ] + payload;
            jpeg_findings(start + segment + rest, everything) == jpeg_findings(
                start + segment,
                everything,
            ) + jpeg_findings(start + rest, everything)
        }),
{
    let start = seq![0xffu8, 0xd8u8];
    let segment = segment_bytes(tag, payload);
    lemma_first_segment(tag, payload, rest, everything);
    lemma_first_segment(tag, payload, seq![], everything);
    assert(segment + seq![] =~= segment);
    assert((start + segment + rest).skip(2) =~= segment + rest);
    assert((start + segment).skip(2) =~= segment);
    assert((start + rest).skip(2) =~= rest);
    assert(jpeg_walk(seq![], everything) =~= seq![]);
    assert(segment_findings(tag, payload, everything) + seq![] =~= segment_findings(
        tag,
        payload,
        everything,
    ));
}

/// A segment of kind APP1 is read as an XMP packet where it opens as one, and for its runs of text
/// where it opens as EXIF data; one of kind APP11 is a container of credentials; and no other kind
/// holds anything to report.
pub proof fn law_what_a_segment_holds(tag: u8, payload: Seq<u8>, everything: bool)
    requires
        tag != 0xda,
        payload.len() + 2 <= 0xffff,
    ensures
        ({
            let found = jpeg_findings(
                seq![0xffu8, 0xd8u8] + (seq![
                    0xffu8,
                    tag,
                    ((payload.len() + 2) / 256) as u8,
                    ((payload.len() + 2) % 256) as u8,
                ] + payload),
                everything,
            );
            &&& tag == 0xe1 && bytes_at(payload, "http://ns.adobe.com/xap/1.0/\0"@, 0) ==> found
                == xmp_all(lossy_text(payload.skip(29)), everything)
            &&& tag == 0xe1 && bytes_at(payload, "Exif\0\0"@, 0) ==> found == long_runs(
                payload.skip(6),
            ).flat_map(|run: Seq<char>| classified("EXIF text"@, "exif"@, run, everything))
            &&& tag == 0xeb && (bytes_hold(payload, "jumb"@) || bytes_hold(payload, "c2pa"@)
                || bytes_hold(payload, "JP  "@)) ==> found.len() == 1 && found[0].why
                == WhyView::Marker("c2pa"@)
            &&& tag != 0xe1 && tag != 0xeb ==> found.len() == 0
        }),
{
    let segment = segment_bytes(tag, payload);
    lemma_first_segment(tag, payload, seq![], everything);
    assert(segment + seq![] =~= segment);
    assert((seq![0xffu8, 0xd8u8] + segment).skip(2) =~= segment);
    let found = segment_findings(tag, payload, everything);
    assert(jpeg_walk(seq![], everything) =~= seq![]);
    assert(found + seq![] =~= found);
    let runs = long_runs(payload.skip(6));
    law_every_exif_run_is_read(runs, runs.len(), everything);
    assert(runs.take(runs.len() as int) =~= runs);
    if tag == 0xe1 && bytes_at(payload, "Exif\0\0"@, 0) {
        reveal_strlit("http://ns.adobe.com/xap/1.0/\0");
        reveal_strlit("Exif\0\0");
        assert(payload.subrange(0, 6)[0] as int == 'E' as int);
        if bytes_at(payload, XMP_HEADER@, 0) {
            assert(payload.subrange(0, 29)[0] as int == 'h' as int);
        }
    }
}

/// Append what EXIF data contributes.
fn add_exif(found: &mut Vec<Finding>, data: &[u8], everything: bool)
    ensures
        final(found).deep_view() == old(found).deep_view() + exif_findings(
            long_runs(data@),
            long_runs(data@).len(),
            everything,
        ),
{
    let runs: Vec<String> = printable_runs(data);
    let mut k: usize = 0;
    assert(found.deep_view() + seq![] =~= found.deep_view());
    while k < runs.len()
        invariant
            k <= runs.len(),
            runs.deep_view() == long_runs(data@),
            found.deep_view() == old(found).deep_view() + exif_findings(
                runs.deep_view(),
                k as nat,
                everything,
            ),
        decreases runs.len() - k,
    {
        assert(runs@[k as int]@ == runs.deep_view()[k as int]);
        classify(found, "EXIF text", "exif", runs[k].as_str(), everything);
        assert(found.deep_view() =~= old(found).deep_view() + exif_findings(
            runs.deep_view(),
            (k + 1) as nat,
            everything,
        ));
        k += 1;
    }
}

/// Append what one JPEG segment contributes.
fn add_segment(found: &mut Vec<Finding>, tag: u8, payload: &[u8], everything: bool)
    ensures
        final(found).deep_view() == old(found).deep_view() + segment_findings(
            tag,
            payload@,
            everything,
        ),
{
    let ghost before = found.deep_view();
    proof {
        reveal_strlit("http://ns.adobe.com/xap/1.0/\0");
        reveal_strlit("Exif\0\0");
    }
    if tag == 0xe1 && spelled_at(payload, XMP_HEADER, 0) {
        let packet: &[u8] = slice_subrange(payload, 29, payload.len());
        assert(packet@ =~= payload@.skip(29));
        let xmp: String = read_lossy(packet);
        let mut more: Vec<Finding> = xmp_findings(xmp.as_str(), everything);
        let ghost tail = more.deep_view();
        found.append(&mut more);
        assert(found.deep_view() =~= before + tail);
    } else if tag == 0xe1 && spelled_at(payload, EXIF_HEADER, 0) {
        let data: &[u8] = slice_subrange(payload, 6, payload.len());
        assert(data@ =~= payload@.skip(6));
        add_exif(found, data, everything);
    } else if tag == 0xeb {
        let jumbf: bool = spelled_within(payload, "jumb") || spelled_within(payload, "c2pa")
            || spelled_within(payload, "JP  ");
        if jumbf || everything {
            found.push(
                Finding {
                    field: "JPEG APP11".to_owned(),
                    value: "JUMBF segment (C2PA content credentials live here)".to_owned(),
                    why: if jumbf {
                        Why::Marker("c2pa".to_owned())
                    } else {
                        Why::Everything
                    },
                },
            );
        }
        assert(found.deep_view() =~= before + segment_findings(tag, payload@, everything));
    } else {
        assert(before + seq![] =~= before);
    }
}

/// JPEG APP segments: XMP packets (APP1) as text, EXIF (APP1) as printable runs, and the C2PA
/// container (APP11) by presence. Walks segment headers only, never the image data.
pub fn jpeg_segments(bytes: &[u8], everything: bool) -> (r: Vec<Finding>)
    ensures
        r.deep_view() == jpeg_findings(bytes@, everything),
{
    let mut found: Vec<Finding> = Vec::new();
    assert(found.deep_view() =~= seq![]);
    if bytes.len() < 2 || bytes[0] != 0xff || bytes[1] != 0xd8 {
        return found;
    }
    let mut rest: &[u8] = slice_subrange(bytes, 2, bytes.len());
    assert(rest@ =~= bytes@.skip(2));
    assert(found.deep_view() + jpeg_walk(rest@, everything) =~= jpeg_walk(rest@, everything));
    while rest.len() >= 4 && rest[0] == 0xff && rest[1] != 0xda
        invariant
            found.deep_view() + jpeg_walk(rest@, everything) == jpeg_findings(bytes@, everything),
        decreases rest@.len(),
    {
        let ghost before = found.deep_view();
        let length: usize = read_be16(rest, 2) as usize;
        if length < 2 || length > rest.len() - 2 {
            assert(found.deep_view() + seq![] =~= found.deep_view());
            return found;
        }
        add_segment(&mut found, rest[1], slice_subrange(rest, 4, 2 + length), everything);
        let next: &[u8] = slice_subrange(rest, 2 + length, rest.len());
        assert(next@ =~= rest@.skip((2 + length) as int));
        assert(found.deep_view() + jpeg_walk(next@, everything) =~= before + jpeg_walk(rest@, everything));
        rest = next;
    }
    assert(found.deep_view() + seq![] =~= found.deep_view());
    found
}

// --- routing --------------------------------------------------------------------------------

/// The formats that have an extractor.
pub enum Format {
    Markdown,
    Html,
    Svg,
    Png,
    Jpeg,
}

/// The format that a lower-case extension stands for.
pub open spec fn format_given(extension: Seq<char>) -> Option<Format> {
    if extension == "md"@ || extension == "markdown"@ {
        Some(Format::Markdown)
    } else if extension == "html"@ || extension == "htm"@ {
        Some(Format::Html)
    } else if extension == "svg"@ {
        Some(Format::Svg)
    } else if extension == "png"@ {
        Some(Format::Png)
    } else if extension == "jpg"@ || extension == "jpeg"@ {
        Some(Format::Jpeg)
    } else {
        None
    }
}

/// The format of the file at `path`, by its extension in any case.
pub open spec fn file_format(path: Seq<char>) -> Option<Format> {
    match lower_extension(path) {
        Some(e) => format_given(e),
        None => None,
    }
}

/// A file is read by its extension, in either case, and by nothing else.
pub proof fn law_a_file_is_read_by_its_extension(path: Seq<char>)
    ensures
        file_format(path) is Some <==> lower_extension(path) is Some && seq![
            "md"@,
            "markdown"@,
            "html"@,
            "htm"@,
            "svg"@,
            "png"@,
            "jpg"@,
            "jpeg"@,
        ].contains(lower_extension(path)->0),
        lower_extension(path) == Some("md"@) ==> file_format(path) == Some(Format::Markdown),
        lower_extension(path) == Some("markdown"@) ==> file_format(path) == Some(Format::Markdown),
        lower_extension(path) == Some("html"@) ==> file_format(path) == Some(Format::Html),
        lower_extension(path) == Some("htm"@) ==> file_format(path) == Some(Format::Html),
        lower_extension(path) == Some("svg"@) ==> file_format(path) == Some(Format::Svg),
        lower_extension(path) == Some("png"@) ==> file_format(path) == Some(Format::Png),
        lower_extension(path) == Some("jpg"@) ==> file_format(path) == Some(Format::Jpeg),
        lower_extension(path) == Some("jpeg"@) ==> file_format(path) == Some(Format::Jpeg),
{
    reveal_strlit("md");
    reveal_strlit("markdown");
    reveal_strlit("html");
    reveal_strlit("htm");
    reveal_strlit("svg");
    reveal_strlit("png");
    reveal_strlit("jpg");
    reveal_strlit("jpeg");
    assert("md"@.len() == 2 && "markdown"@.len() == 8 && "html"@.len() == 4 && "htm"@.len() == 3
        && "svg"@.len() == 3 && "png"@.len() == 3 && "jpg"@.len() == 3 && "jpeg"@.len() == 4);
    assert("html"@[0] == 'h' && "htm"@[0] == 'h' && "svg"@[0] == 's' && "png"@[0] == 'p' && "jpg"@[0]
        == 'j' && "jpeg"@[0] == 'j');
    let all = seq![
        "md"@,
        "markdown"@,
        "html"@,
        "htm"@,
        "svg"@,
        "png"@,
        "jpg"@,
        "jpeg"@,
    ];
    assert(all[0] == "md"@);
    assert(all[1] == "markdown"@);
    assert(all[2] == "html"@);
    assert(all[3] == "htm"@);
    assert(all[4] == "svg"@);
    assert(all[5] == "png"@);
    assert(all[6] == "jpg"@);
    assert(all[7] == "jpeg"@);
}

/// The format of the file at `path`.
pub fn format_of(path: &str) -> (r: Option<Format>)
    ensures
        r == file_format(path@),
{
    match lower_extension_of(path) {
        Some(e) => {
            let e: &str = e.as_str();
            if same_text(e, "md") || same_text(e, "markdown") {
                Some(Format::Markdown)
            } else if same_text(e, "html") || same_text(e, "htm") {
                Some(Format::Html)
            } else if same_text(e, "svg") {
                Some(Format::Svg)
            } else if same_text(e, "png") {
                Some(Format::Png)
            } else if same_text(e, "jpg") || same_text(e, "jpeg") {
                Some(Format::Jpeg)
            } else {
                None
            }
        },
        None => None,
    }
}

/// Whether [`extract`] has an extractor for this path.
pub fn handles(path: &str) -> (r: bool)
    ensures
        r == (file_format(path@) is Some),
{
    format_of(path).is_some()
}

/// The findings in a file of a known format. There are none in a text format whose bytes are not
/// UTF-8.
pub open spec fn extracted(format: Format, bytes: Seq<u8>, everything: bool) -> Seq<FindingView> {
    match format {
        Format::Png => png_findings(bytes, everything),
        Format::Jpeg => jpeg_findings(bytes, everything),
        _ => match utf8_text(bytes) {
            Some(text) => match format {
                Format::Markdown => frontmatter_findings(text, everything),
                Format::Html => html_findings(text, everything),
                _ => svg_findings(text, everything),
            },
            None => seq![],
        },
    }
}

/// A page, a drawing and a text with frontmatter are read as text, and are understood to hold
/// nothing where they are none; a picture is read byte by byte whatever it holds.
pub proof fn law_how_a_format_is_read(bytes: Seq<u8>, everything: bool)
    ensures
        extracted(Format::Png, bytes, everything) == png_findings(bytes, everything),
        extracted(Format::Jpeg, bytes, everything) == jpeg_findings(bytes, everything),
        match utf8_text(bytes) {
            Some(text) => extracted(Format::Markdown, bytes, everything) == frontmatter_findings(
                text,
                everything,
            ) && extracted(Format::Html, bytes, everything) == html_findings(text, everything)
                && extracted(Format::Svg, bytes, everything) == svg_findings(text, everything),
            None => extracted(Format::Markdown, bytes, everything).len() == 0 && extracted(
                Format::Html,
                bytes,
                everything,
            ).len() == 0 && extracted(Format::Svg, bytes, everything).len() == 0,
        },
{
}

/// Every reportable metadata string in `bytes`, routed by format. `None` when the format has no
/// extractor; an empty list means understood, nothing reportable.
pub fn extract(path: &str, bytes: &[u8], everything: bool) -> (r: Option<Vec<Finding>>)
    ensures
        r is Some <==> file_format(path@) is Some,
        match file_format(path@) {
            Some(f) => r.deep_view() == Some(extracted(f, bytes@, everything)),
            None => r is None,
        },
{
    let none: Vec<Finding> = Vec::new();
    assert(none.deep_view() =~= seq![]);
    match format_of(path) {
        Some(Format::Png) => Some(png_chunks(bytes, everything)),
        Some(Format::Jpeg) => Some(jpeg_segments(bytes, everything)),
        Some(Format::Markdown) => match read_utf8(bytes) {
            Some(text) => Some(frontmatter(text.as_str(), everything)),
            None => Some(none),
        },
        Some(Format::Html) => match read_utf8(bytes) {
            Some(text) => Some(html_meta(text.as_str(), everything)),
            None => Some(none),
        },
        Some(Format::Svg) => match read_utf8(bytes) {
            Some(text) => Some(svg_metadata(text.as_str(), everything)),
            None => Some(none),
        },
        None => None,
    }
}

// --- laws -----------------------------------------------------------------------------------

/// The findings that are more than inventory.
pub open spec fn noteworthy(fs: Seq<FindingView>) -> Seq<FindingView> {
    fs.filter(|f: FindingView| !(f.why is Everything))
}

proof fn lemma_noteworthy_add(a: Seq<FindingView>, b: Seq<FindingView>)
    ensures
        noteworthy(a + b) == noteworthy(a) + noteworthy(b),
{
    Seq::filter_distributes_over_add(a, b, |f: FindingView| !(f.why is Everything));
}

proof fn lemma_noteworthy_one(f: FindingView)
    ensures
        noteworthy(seq![f]) == if f.why is Everything {
            seq![]
        } else {
            seq![f]
        },
        noteworthy(seq![]) == Seq::<FindingView>::empty(),
{
    reveal_with_fuel(Seq::filter, 2);
    assert(seq![f].drop_last() =~= seq![]);
    assert(seq![f].last() == f);
    assert(noteworthy(seq![]) =~= Seq::<FindingView>::empty());
    assert(Seq::<FindingView>::empty().push(f) =~= seq![f]);
}

proof fn lemma_noteworthy_classified(field: Seq<char>, key: Seq<char>, value: Seq<char>)
    ensures
        noteworthy(classified(field, key, value, true)) == classified(field, key, value, false),
        is_provenance(key) ==> classified(field, key, value, true) == classified(
            field,
            key,
            value,
            false,
        ) && classified(field, key, value, true).len() == 1,
{
    match reason_given(key, true, marker(value)) {
        Some(why) => {
            lemma_noteworthy_one(FindingView { field, value, why });
        },
        None => {},
    }
}

/// A provenance field is always reported, whatever its value says and whether or not everything
/// is asked for: what wrote the file is the question.
pub proof fn law_provenance_is_always_reported(
    field: Seq<char>,
    key: Seq<char>,
    value: Seq<char>,
    everything: bool,
)
    requires
        is_provenance(key),
    ensures
        classified(field, key, value, everything).len() == 1,
        classified(field, key, value, everything)[0].value == value,
        !(classified(field, key, value, everything)[0].why is Everything),
{
}

proof fn lemma_frontmatter_from(ls: Seq<Seq<char>>, k: int)
    ensures
        noteworthy(frontmatter_from(ls, k, true)) == frontmatter_from(ls, k, false),
    decreases ls.len() - k,
{
    lemma_noteworthy_one(FindingView { field: seq![], value: seq![], why: WhyView::Everything });
    if !(k >= ls.len() || trim_end(ls[k]) == "---"@) {
        let line = ls[k];
        lemma_frontmatter_from(ls, k + 1);
        lemma_noteworthy_add(frontmatter_line(line, true), frontmatter_from(ls, k + 1, true));
        match yaml_pair(line) {
            Some((key, value)) => {
                lemma_noteworthy_classified(
                    "frontmatter \""@ + key + "\""@,
                    key,
                    unquoted(value),
                );
            },
            None => match marker(line) {
                Some(m) => {
                    lemma_noteworthy_one(
                        FindingView {
                            field: "frontmatter"@,
                            value: trim(line),
                            why: WhyView::Marker(m),
                        },
                    );
                },
                None => {},
            },
        }
    }
}

proof fn lemma_meta_findings(tags: Seq<Seq<char>>, n: nat)
    ensures
        noteworthy(meta_findings(tags, n, true)) == meta_findings(tags, n, false),
    decreases n,
{
    lemma_noteworthy_one(FindingView { field: seq![], value: seq![], why: WhyView::Everything });
    if n > 0 {
        let key = regex_first_group(META_NAME@, tags[n - 1]);
        let content = regex_first_group(META_CONTENT@, tags[n - 1]);
        lemma_meta_findings(tags, (n - 1) as nat);
        lemma_noteworthy_add(
            meta_findings(tags, (n - 1) as nat, true),
            meta_given(key, content, true),
        );
        match (key, content) {
            (Some(key), Some(value)) => {
                lemma_noteworthy_classified("<meta "@ + key + ">"@, key, value);
            },
            _ => {},
        }
    }
}

proof fn lemma_block_findings(blocks: Seq<Option<Seq<char>>>, n: nat)
    ensures
        noteworthy(block_findings(blocks, n, true)) == block_findings(blocks, n, false),
    decreases n,
{
    lemma_noteworthy_one(FindingView { field: seq![], value: seq![], why: WhyView::Everything });
    if n > 0 {
        lemma_block_findings(blocks, (n - 1) as nat);
        match blocks[n - 1] {
            Some(inner) => {
                let blanked = regex_blanked(ANY_TAG@, inner);
                lemma_noteworthy_add(
                    block_findings(blocks, (n - 1) as nat, true),
                    metadata_words(blanked, true),
                );
                lemma_noteworthy_classified(
                    "<metadata>"@,
                    "metadata"@,
                    join(words(blanked), " "@),
                );
            },
            None => {
                lemma_noteworthy_add(block_findings(blocks, (n - 1) as nat, true), seq![]);
            },
        }
    }
}

proof fn lemma_chunk_findings(kind: Seq<u8>, data: Seq<u8>)
    ensures
        noteworthy(chunk_findings(kind, data, true)) == chunk_findings(kind, data, false),
{
    lemma_noteworthy_one(
        FindingView {
            field: "PNG chunk caBX"@,
            value: "C2PA / JUMBF content-credentials container present"@,
            why: WhyView::Marker("c2pa"@),
        },
    );
    match keyword_and_rest(data) {
        Some((key, value)) => {
            lemma_noteworthy_classified("PNG tEXt \""@ + key + "\""@, key, lossy_text(value));
            match itxt_text(value) {
                Some(text) => {
                    lemma_noteworthy_classified("PNG iTXt \""@ + key + "\""@, key, text);
                },
                None => {},
            }
            lemma_noteworthy_one(
                FindingView {
                    field: "PNG zTXt \""@ + key + "\""@,
                    value: "<compressed text chunk — value not decoded>"@,
                    why: WhyView::ProvenanceField,
                },
            );
        },
        None => {},
    }
}

proof fn lemma_png_walk(rest: Seq<u8>)
    ensures
        noteworthy(png_walk(rest, true)) == png_walk(rest, false),
    decreases rest.len(),
{
    lemma_noteworthy_one(FindingView { field: seq![], value: seq![], why: WhyView::Everything });
    if rest.len() >= 8 {
        let length = be32(rest, 0);
        let end = if 8 + length <= rest.len() {
            8 + length
        } else {
            rest.len()
        };
        let kind = rest.subrange(4, 8);
        let data = rest.subrange(8, end as int);
        lemma_chunk_findings(kind, data);
        if length + 12 <= rest.len() {
            lemma_png_walk(rest.skip(length as int + 12));
            lemma_noteworthy_add(
                chunk_findings(kind, data, true),
                png_walk(rest.skip(length as int + 12), true),
            );
        }
    }
}

proof fn lemma_creator_findings(tools: Seq<Option<Seq<char>>>, n: nat)
    ensures
        noteworthy(creator_findings(tools, n, true)) == creator_findings(tools, n, false),
        creator_findings(tools, n, true) == creator_findings(tools, n, false),
    decreases n,
{
    lemma_noteworthy_one(FindingView { field: seq![], value: seq![], why: WhyView::Everything });
    if n > 0 {
        lemma_creator_findings(tools, (n - 1) as nat);
        match tools[n - 1] {
            Some(tool) => {
                assert(provenance_fields()[2] == "creatortool"@);
                assert(is_provenance("creatortool"@));
                lemma_noteworthy_classified("XMP CreatorTool"@, "creatortool"@, trim(tool));
                lemma_noteworthy_add(
                    creator_findings(tools, (n - 1) as nat, true),
                    classified("XMP CreatorTool"@, "creatortool"@, trim(tool), true),
                );
            },
            None => {
                lemma_noteworthy_add(creator_findings(tools, (n - 1) as nat, true), seq![]);
            },
        }
    }
}

proof fn lemma_xmp(xmp: Seq<char>)
    ensures
        noteworthy(xmp_all(xmp, true)) == xmp_all(xmp, false),
{
    let attributes = regex_groups(CREATOR_ATTRIBUTE@, xmp);
    let elements = regex_groups(CREATOR_ELEMENT@, xmp);
    lemma_creator_findings(attributes, attributes.len());
    lemma_creator_findings(elements, elements.len());
    lemma_noteworthy_add(
        creator_findings(attributes, attributes.len(), true),
        creator_findings(elements, elements.len(), true),
    );
    match marker(xmp) {
        Some(m) => {
            lemma_noteworthy_one(
                FindingView {
                    field: "XMP packet"@,
                    value: "marker inside the XMP data: "@ + m,
                    why: WhyView::Marker(m),
                },
            );
        },
        None => {
            lemma_noteworthy_classified("XMP packet"@, "xmp"@, xmp);
            reveal_strlit("xmp");
            reveal_strlit("generator");
            reveal_strlit("software");
            reveal_strlit("creatortool");
            reveal_strlit("created_with");
            reveal_strlit("created-with");
            reveal_strlit("producer");
            reveal_strlit("parameters");
            assert(!is_provenance("xmp"@)) by {
                assert(ascii_lower("xmp"@).len() == 3);
                assert forall|i: int| 0 <= i < provenance_fields().len() implies ascii_lower(
                    #[trigger] provenance_fields()[i],
                ).len() > 3 by {}
            }
        },
    }
}

proof fn lemma_exif_findings(runs: Seq<Seq<char>>, n: nat)
    ensures
        noteworthy(exif_findings(runs, n, true)) == exif_findings(runs, n, false),
    decreases n,
{
    lemma_noteworthy_one(FindingView { field: seq![], value: seq![], why: WhyView::Everything });
    if n > 0 {
        lemma_exif_findings(runs, (n - 1) as nat);
        lemma_noteworthy_classified("EXIF text"@, "exif"@, runs[n - 1]);
        lemma_noteworthy_add(
            exif_findings(runs, (n - 1) as nat, true),
            classified("EXIF text"@, "exif"@, runs[n - 1], true),
        );
    }
}

proof fn lemma_segment_findings(tag: u8, payload: Seq<u8>)
    ensures
        noteworthy(segment_findings(tag, payload, true)) == segment_findings(tag, payload, false),
{
    lemma_xmp(lossy_text(payload.skip(29)));
    let runs = long_runs(payload.skip(6));
    lemma_exif_findings(runs, runs.len());
    lemma_noteworthy_one(
        FindingView {
            field: "JPEG APP11"@,
            value: "JUMBF segment (C2PA content credentials live here)"@,
            why: if is_jumbf(payload) {
                WhyView::Marker("c2pa"@)
            } else {
                WhyView::Everything
            },
        },
    );
}

proof fn lemma_jpeg_walk(rest: Seq<u8>)
    ensures
        noteworthy(jpeg_walk(rest, true)) == jpeg_walk(rest, false),
    decreases rest.len(),
{
    lemma_noteworthy_one(FindingView { field: seq![], value: seq![], why: WhyView::Everything });
    if !(rest.len() < 4 || rest[0] != 0xff || rest[1] == 0xda) {
        let length = be16(rest, 2);
        if !(length < 2 || 2 + length > rest.len()) {
            let payload = rest.subrange(4, (2 + length) as int);
            let next = rest.skip((2 + length) as int);
            lemma_segment_findings(rest[1], payload);
            lemma_jpeg_walk(next);
            lemma_noteworthy_add(
                segment_findings(rest[1], payload, true),
                jpeg_walk(next, true),
            );
        }
    }
}

/// Asking for everything only adds inventory: what is left without it is the report that is made
/// when not everything is asked for, in the same order.
pub proof fn law_everything_only_adds(format: Format, bytes: Seq<u8>)
    ensures
        extracted(format, bytes, false) == noteworthy(extracted(format, bytes, true)),
{
    lemma_noteworthy_one(FindingView { field: seq![], value: seq![], why: WhyView::Everything });
    match format {
        Format::Png => {
            lemma_png_walk(bytes.skip(8));
        },
        Format::Jpeg => {
            lemma_jpeg_walk(bytes.skip(2));
        },
        _ => match utf8_text(bytes) {
            Some(text) => {
                lemma_frontmatter_from(lines(text), 1);
                let tags = regex_matches(META_TAG@, text);
                lemma_meta_findings(tags, tags.len());
                let blocks = regex_groups(METADATA_BLOCK@, text);
                lemma_block_findings(blocks, blocks.len());
            },
            None => {},
        },
    }
}

} // verus!
