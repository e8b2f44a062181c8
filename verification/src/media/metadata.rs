//! What is inside a media file: container and stream facts, and embedded tags.

use vstd::prelude::*;
use vstd::slice::slice_subrange;
use vstd::string::*;
use crate::json::{json_read, member, member_of, parse_json, Json, JsonView};
use crate::numbers::{
    divide_double, nearest_double, nearest_quotient, push_short_decimal, short_decimal, to_double,
};
use crate::sequences::{lemma_filter_last, lemma_filter_map_last, lemma_flat_map_last, lemma_parts_last};
use crate::style::{painted, Paint};
use crate::text::{
    begins_with, char_from, chars_of, decimal, drop_trailing, find_char, indented, join, joined,
    lemma_char_from, lines, lines_of, lowercase, parse_decimal, parse_number, push_decimal,
    push_text, push_words, same_text, spells, string_of, without_last,
};

verus! {

/// The arguments of `metadata`.
pub struct MetadataArgs {
    /// File to inspect.
    pub file: String,
}

/// The arguments of the probe for the facts. Duration and bit rate are also read at the level of
/// the container, where they exist even if the streams do not carry them.
pub fn metadata_argv(args: &MetadataArgs) -> (r: Vec<String>)
    ensures
        r.deep_view() == seq![
            "-v"@,
            "error"@,
            "-show_entries"@,
            "stream=codec_type,codec_name,width,height,pix_fmt,r_frame_rate,nb_frames,sample_rate,channels,bit_rate,duration"@,
            "-show_entries"@,
            "format=filename,format_name,size,duration,bit_rate"@,
            "-print_format"@,
            "json"@,
            args.file@,
        ],
{
    let mut argv: Vec<String> = Vec::new();
    push_words(
        &mut argv,
        vec![
            "-v",
            "error",
            "-show_entries",
            "stream=codec_type,codec_name,width,height,pix_fmt,r_frame_rate,nb_frames,sample_rate,channels,bit_rate,duration",
            "-show_entries",
            "format=filename,format_name,size,duration,bit_rate",
            "-print_format",
            "json",
        ],
    );
    push_text(&mut argv, args.file.as_str());
    assert(argv.deep_view() =~= seq![
        "-v"@,
        "error"@,
        "-show_entries"@,
        "stream=codec_type,codec_name,width,height,pix_fmt,r_frame_rate,nb_frames,sample_rate,channels,bit_rate,duration"@,
        "-show_entries"@,
        "format=filename,format_name,size,duration,bit_rate"@,
        "-print_format"@,
        "json"@,
        args.file@,
    ]);
    argv
}

/// The arguments of the probe for the tags.
pub fn tags_argv(args: &MetadataArgs) -> (r: Vec<String>)
    ensures
        r.deep_view() == seq!["-v"@, "error"@, "-show_entries"@, "format_tags"@, args.file@],
{
    let mut argv: Vec<String> = Vec::new();
    push_words(&mut argv, vec!["-v", "error", "-show_entries", "format_tags"]);
    push_text(&mut argv, args.file.as_str());
    assert(argv.deep_view() =~= seq![
        "-v"@,
        "error"@,
        "-show_entries"@,
        "format_tags"@,
        args.file@,
    ]);
    argv
}

// --- numbers for eyes -----------------------------------------------------------------------

/// The unit of a size: how often 1024 goes into `bytes`, at most four times.
pub open spec fn size_level(bytes: nat) -> nat {
    if bytes < 1024 {
        0
    } else if bytes < 0x100000 {
        1
    } else if bytes < 0x40000000 {
        2
    } else if bytes < 0x10000000000 {
        3
    } else {
        4
    }
}

/// `1024` to the power of a level.
pub open spec fn level_bytes(level: nat) -> nat {
    if level == 0 {
        1
    } else if level == 1 {
        1024
    } else if level == 2 {
        0x100000
    } else if level == 3 {
        0x40000000
    } else {
        0x10000000000
    }
}

/// The name of a level.
pub open spec fn level_unit(level: nat) -> Seq<char> {
    if level == 0 {
        "B"@
    } else if level == 1 {
        "KiB"@
    } else if level == 2 {
        "MiB"@
    } else if level == 3 {
        "GiB"@
    } else {
        "TiB"@
    }
}

/// A size for eyes: binary units, one decimal, dropped where it is zero; exact below 1 KiB.
pub open spec fn size_text(bytes: nat) -> Seq<char> {
    let value = nearest_double(bytes);
    let level = size_level(value);
    if level == 0 {
        decimal(bytes) + " B"@
    } else {
        short_decimal(value, level_bytes(level)) + " "@ + level_unit(level)
    }
}

/// A size below one unit is told in bytes; any other in the unit that it reaches and whose next it
/// does not.
pub proof fn law_a_size_is_told_in_its_unit(bytes: nat)
    ensures
        bytes < 1024 ==> size_text(bytes) == decimal(bytes) + " B"@,
        ({
            let level = size_level(bytes);
            &&& bytes >= 1024 ==> level_bytes(level) <= bytes
            &&& bytes < 1024 * level_bytes(level) || level == 4
            &&& level <= 4
        }),
        level_bytes(0) == 1,
        forall|level: nat| level < 4 ==> #[trigger] level_bytes(level + 1) == 1024 * level_bytes(level),
{
    if bytes < 1024 {
        crate::numbers::law_small_numbers_are_exact(bytes);
    }
}

/// A size for eyes: `5086670` is `4.9 MiB`.
pub fn human_size(bytes: u64) -> (r: String)
    ensures
        r@ == size_text(bytes as nat),
{
    let value: u128 = to_double(bytes);
    let mut out: String = String::new();
    if value < 1024 {
        push_decimal(&mut out, bytes as u128);
        out.append(" B");
        assert(out@ =~= size_text(bytes as nat));
    } else {
        let (unit, divisor): (&'static str, u128) = if value < 0x100000 {
            ("KiB", 1024)
        } else if value < 0x40000000 {
            ("MiB", 0x100000)
        } else if value < 0x10000000000 {
            ("GiB", 0x40000000)
        } else {
            ("TiB", 0x10000000000)
        };
        push_short_decimal(&mut out, value, divisor);
        out.append(" ");
        out.append(unit);
        assert(out@ =~= size_text(bytes as nat));
    }
    out
}

/// A rate as a fraction, divided by a thousand, in double precision, as often as it reaches one,
/// at most `left` times; and how often that was.
pub open spec fn thousands(a: nat, d: nat, left: nat) -> (nat, nat, nat)
    decreases left,
{
    if left == 0 || a < 1000 * d {
        (a, d, 0)
    } else {
        let (m, e) = nearest_quotient(a, 1000 * d);
        let (x, y, n) = thousands(m, e, (left - 1) as nat);
        (x, y, n + 1)
    }
}

/// The units of a rate.
pub open spec fn rate_unit(level: nat) -> Seq<char> {
    if level == 0 {
        "bit/s"@
    } else if level == 1 {
        "kbit/s"@
    } else if level == 2 {
        "Mbit/s"@
    } else {
        "Gbit/s"@
    }
}

/// A rate for eyes: decimal units, one decimal, dropped where it is zero.
pub open spec fn rate_text(bits_per_second: nat) -> Seq<char> {
    let (a, d, level) = thousands(nearest_double(bits_per_second), 1, 3);
    short_decimal(a, d) + " "@ + rate_unit(level)
}

/// A rate divided by a thousand, in double precision, as often as it reaches one.
fn by_thousands(a: u128, d: u128, left: u64) -> (r: (u128, u128, u64))
    requires
        1 <= d < 0x20000000000000,
        a <= 0x2_0000_0000_0000_0000,
    ensures
        (r.0 as nat, r.1 as nat, r.2 as nat) == thousands(a as nat, d as nat, left as nat),
        1 <= r.1 < 0x20000000000000,
        r.0 <= 0x2_0000_0000_0000_0000,
        r.2 <= left,
    decreases left,
{
    if left == 0 || a < 1000 * d {
        return (a, d, 0);
    }
    let (m, e) = divide_double(a, 1000 * d);
    let (x, y, n) = by_thousands(m, e, left - 1);
    (x, y, n + 1)
}

/// A rate for eyes: `2238186` is `2.2 Mbit/s`.
pub fn bit_rate(bits_per_second: u64) -> (r: String)
    ensures
        r@ == rate_text(bits_per_second as nat),
{
    let value: u128 = to_double(bits_per_second);
    let (a, d, level) = by_thousands(value, 1, 3);
    let unit: &'static str = if level == 0 {
        "bit/s"
    } else if level == 1 {
        "kbit/s"
    } else if level == 2 {
        "Mbit/s"
    } else {
        "Gbit/s"
    };
    let mut out: String = String::new();
    push_short_decimal(&mut out, a, d);
    out.append(" ");
    out.append(unit);
    assert(out@ =~= rate_text(bits_per_second as nat));
    out
}

/// A sampling rate for eyes; rates below 1 kHz stay in Hz.
pub open spec fn sampling_text(hz: nat) -> Seq<char> {
    if hz < 1000 {
        decimal(hz) + " Hz"@
    } else {
        let (a, d) = nearest_quotient(nearest_double(hz), 1000);
        short_decimal(a, d) + " kHz"@
    }
}

/// A sampling rate for eyes: `44100` is `44.1 kHz`.
pub fn khz(hz: u64) -> (r: String)
    ensures
        r@ == sampling_text(hz as nat),
{
    let mut out: String = String::new();
    if hz < 1000 {
        push_decimal(&mut out, hz as u128);
        out.append(" Hz");
    } else {
        let (a, d) = divide_double(to_double(hz), 1000);
        push_short_decimal(&mut out, a, d);
        out.append(" kHz");
    }
    assert(out@ =~= sampling_text(hz as nat));
    out
}

/// Two digits at least.
pub open spec fn two_digits(n: nat) -> Seq<char> {
    if n < 10 {
        "0"@ + decimal(n)
    } else {
        decimal(n)
    }
}

/// A clock: hours, minutes, and the seconds within the minute as they are shown.
pub fn clock(whole: u64, seconds: &str) -> (r: String)
    ensures
        r@ == decimal(whole as nat / 3600) + ":"@ + two_digits((whole as nat % 3600) / 60) + ":"@
            + seconds@,
{
    let mut out: String = String::new();
    push_decimal(&mut out, (whole / 3600) as u128);
    assert(out@ =~= decimal(whole as nat / 3600));
    out.append(":");
    let minutes: u64 = (whole % 3600) / 60;
    let mut two: String = String::new();
    if minutes < 10 {
        two.append("0");
        assert(two@ =~= "0"@);
    }
    push_decimal(&mut two, minutes as u128);
    assert(two@ =~= two_digits(minutes as nat));
    out.append(two.as_str());
    out.append(":");
    out.append(seconds);
    out
}

/// A frame rate with two decimals, as it reads best: no zeros at its end, and no dot.
pub fn fps(rate: &str) -> (r: String)
    ensures
        r@ == without_last(without_last(rate@, '0'), '.'),
{
    let cs: Vec<char> = chars_of(rate);
    string_of(drop_trailing(drop_trailing(cs.as_slice(), '0'), '.'))
}

// --- facts ----------------------------------------------------------------------------------

/// What the probe says of a stream.
pub struct StreamFacts {
    pub codec_type: Option<String>,
    pub codec_name: Option<String>,
    pub width: Option<String>,
    pub height: Option<String>,
    pub pix_fmt: Option<String>,
    pub r_frame_rate: Option<String>,
    pub sample_rate: Option<String>,
    pub channels: Option<String>,
    pub nb_frames: Option<String>,
    pub duration: Option<String>,
    pub bit_rate: Option<String>,
}

/// What the probe says of a stream.
pub struct StreamFactsView {
    pub codec_type: Option<Seq<char>>,
    pub codec_name: Option<Seq<char>>,
    pub width: Option<Seq<char>>,
    pub height: Option<Seq<char>>,
    pub pix_fmt: Option<Seq<char>>,
    pub r_frame_rate: Option<Seq<char>>,
    pub sample_rate: Option<Seq<char>>,
    pub channels: Option<Seq<char>>,
    pub nb_frames: Option<Seq<char>>,
    pub duration: Option<Seq<char>>,
    pub bit_rate: Option<Seq<char>>,
}

impl View for StreamFacts {
    type V = StreamFactsView;

    open spec fn view(&self) -> StreamFactsView {
        StreamFactsView {
            codec_type: self.codec_type.deep_view(),
            codec_name: self.codec_name.deep_view(),
            width: self.width.deep_view(),
            height: self.height.deep_view(),
            pix_fmt: self.pix_fmt.deep_view(),
            r_frame_rate: self.r_frame_rate.deep_view(),
            sample_rate: self.sample_rate.deep_view(),
            channels: self.channels.deep_view(),
            nb_frames: self.nb_frames.deep_view(),
            duration: self.duration.deep_view(),
            bit_rate: self.bit_rate.deep_view(),
        }
    }
}

impl DeepView for StreamFacts {
    type V = StreamFactsView;

    open spec fn deep_view(&self) -> StreamFactsView {
        self@
    }
}

/// What the probe says of a file.
pub struct Facts {
    pub filename: Option<String>,
    pub format_name: Option<String>,
    pub size: Option<String>,
    pub duration: Option<String>,
    pub bit_rate: Option<String>,
    pub streams: Vec<StreamFacts>,
}

/// What the probe says of a file.
pub struct FactsView {
    pub filename: Option<Seq<char>>,
    pub format_name: Option<Seq<char>>,
    pub size: Option<Seq<char>>,
    pub duration: Option<Seq<char>>,
    pub bit_rate: Option<Seq<char>>,
    pub streams: Seq<StreamFactsView>,
}

impl View for Facts {
    type V = FactsView;

    open spec fn view(&self) -> FactsView {
        FactsView {
            filename: self.filename.deep_view(),
            format_name: self.format_name.deep_view(),
            size: self.size.deep_view(),
            duration: self.duration.deep_view(),
            bit_rate: self.bit_rate.deep_view(),
            streams: self.streams.deep_view(),
        }
    }
}

impl DeepView for Facts {
    type V = FactsView;

    open spec fn deep_view(&self) -> FactsView {
        self@
    }
}

/// A field as text: the probe mixes texts and numbers, and both read the same. Anything else,
/// absence among it, is nothing.
pub open spec fn field_text(value: JsonView, key: Seq<char>) -> Option<Seq<char>> {
    match member(value, key) {
        Some(JsonView::Text(text)) => Some(text),
        Some(JsonView::Number(number)) => Some(number),
        _ => None,
    }
}

/// The facts of a stream.
pub open spec fn stream_facts(value: JsonView) -> StreamFactsView {
    StreamFactsView {
        codec_type: field_text(value, "codec_type"@),
        codec_name: field_text(value, "codec_name"@),
        width: field_text(value, "width"@),
        height: field_text(value, "height"@),
        pix_fmt: field_text(value, "pix_fmt"@),
        r_frame_rate: field_text(value, "r_frame_rate"@),
        sample_rate: field_text(value, "sample_rate"@),
        channels: field_text(value, "channels"@),
        nb_frames: field_text(value, "nb_frames"@),
        duration: field_text(value, "duration"@),
        bit_rate: field_text(value, "bit_rate"@),
    }
}

/// The value under a key, and null where there is none.
pub open spec fn under(value: JsonView, key: Seq<char>) -> JsonView {
    match member(value, key) {
        Some(v) => v,
        None => JsonView::Null,
    }
}

/// The values of an array, and none where it is no array.
pub open spec fn items_of(value: JsonView) -> Seq<JsonView> {
    match value {
        JsonView::Array(items) => items,
        _ => seq![],
    }
}

/// The facts in the probe's report.
pub open spec fn facts_of(report: JsonView) -> FactsView {
    let container = under(report, "format"@);
    FactsView {
        filename: field_text(container, "filename"@),
        format_name: field_text(container, "format_name"@),
        size: field_text(container, "size"@),
        duration: field_text(container, "duration"@),
        bit_rate: field_text(container, "bit_rate"@),
        streams: items_of(under(report, "streams"@)).map_values(|v: JsonView| stream_facts(v)),
    }
}

/// Every stream of the report is read, in its place.
pub proof fn law_every_stream_of_the_report_is_read(report: JsonView, streams: Seq<JsonView>, i: int)
    requires
        member(report, "streams"@) == Some(JsonView::Array(streams)),
        0 <= i < streams.len(),
    ensures
        facts_of(report).streams.len() == streams.len(),
        facts_of(report).streams[i] == stream_facts(streams[i]),
{
}

/// A field as text.
pub fn field(value: &Json, key: &str) -> (r: Option<String>)
    ensures
        r.deep_view() == field_text(value@, key@),
{
    match member_of(value, key) {
        Some(Json::Text(text)) => Some(text.clone()),
        Some(Json::Number(number)) => Some(number.clone()),
        _ => None,
    }
}

/// The facts of a stream.
fn read_stream(value: &Json) -> (r: StreamFacts)
    ensures
        r@ == stream_facts(value@),
{
    StreamFacts {
        codec_type: field(value, "codec_type"),
        codec_name: field(value, "codec_name"),
        width: field(value, "width"),
        height: field(value, "height"),
        pix_fmt: field(value, "pix_fmt"),
        r_frame_rate: field(value, "r_frame_rate"),
        sample_rate: field(value, "sample_rate"),
        channels: field(value, "channels"),
        nb_frames: field(value, "nb_frames"),
        duration: field(value, "duration"),
        bit_rate: field(value, "bit_rate"),
    }
}

/// The facts in the probe's report.
pub fn read_facts(report: &Json) -> (r: Facts)
    ensures
        r@ == facts_of(report@),
{
    let null: Json = Json::Null;
    let container: &Json = match member_of(report, "format") {
        Some(v) => v,
        None => &null,
    };
    let mut streams: Vec<StreamFacts> = Vec::new();
    let ghost found = items_of(under(report@, "streams"@));
    if let Some(Json::Array(items)) = member_of(report, "streams") {
        let mut i: usize = 0;
        while i < items.len()
            invariant
                i <= items.len(),
                found.len() == items@.len(),
                forall|j: int| 0 <= j < items@.len() ==> #[trigger] found[j] == items@[j]@,
                streams@.len() == i,
                forall|j: int| 0 <= j < i ==> (#[trigger] streams@[j])@ == stream_facts(found[j]),
            decreases items.len() - i,
        {
            streams.push(read_stream(&items[i]));
            i += 1;
        }
    }
    assert(streams.deep_view() =~= found.map_values(|v: JsonView| stream_facts(v)));
    Facts {
        filename: field(container, "filename"),
        format_name: field(container, "format_name"),
        size: field(container, "size"),
        duration: field(container, "duration"),
        bit_rate: field(container, "bit_rate"),
        streams,
    }
}

/// The facts in what the probe printed; nothing where that is no JSON document.
pub fn probe_facts(printed: &str) -> (r: Option<Facts>)
    ensures
        r.deep_view() == (match json_read(printed@) {
            Some(report) => Some(facts_of(report)),
            None => None,
        }),
{
    match parse_json(printed) {
        Some(report) => Some(read_facts(&report)),
        None => None,
    }
}

// --- the report -----------------------------------------------------------------------------

/// The fractional numbers of a stream, as they are shown: nothing where they are absent or no
/// numbers.
pub struct StreamShown {
    /// Frames per second.
    pub rate: Option<String>,
    /// The length, as a clock.
    pub length: Option<String>,
}

/// A number, where a text is one.
pub open spec fn number_in(text: Option<Seq<char>>) -> Option<nat> {
    match text {
        Some(t) => parse_decimal(t, u64::MAX as nat),
        None => None,
    }
}

/// The parts of a stream's line, each where it is there.
pub open spec fn stream_parts(s: StreamFactsView, rate: Option<Seq<char>>, length: Option<Seq<char>>) -> Seq<
    Option<Seq<char>>,
> {
    seq![
        s.codec_name,
        if s.width is Some && s.height is Some {
            Some(s.width->0 + "x"@ + s.height->0)
        } else {
            None
        },
        s.pix_fmt,
        match rate {
            Some(text) => Some(text + " fps"@),
            None => None,
        },
        match number_in(s.sample_rate) {
            Some(hz) => Some(sampling_text(hz)),
            None => None,
        },
        match s.channels {
            Some(n) => Some(
                if n == "1"@ {
                    "1 channel"@
                } else {
                    n + " channels"@
                },
            ),
            None => None,
        },
        match s.nb_frames {
            Some(n) => Some(n + " frames"@),
            None => None,
        },
        length,
        match number_in(s.bit_rate) {
            Some(bits) => Some(rate_text(bits)),
            None => None,
        },
    ]
}

/// The first `n` of the parts that are there.
pub open spec fn present(parts: Seq<Option<Seq<char>>>, n: nat) -> Seq<Seq<char>>
    decreases n,
{
    if n == 0 {
        seq![]
    } else {
        match parts[n - 1] {
            Some(text) => present(parts, (n - 1) as nat).push(text),
            None => present(parts, (n - 1) as nat),
        }
    }
}

/// Every part that is there is shown, in order.
pub proof fn law_every_part_that_is_there_is_shown(parts: Seq<Option<Seq<char>>>, n: nat)
    requires
        n <= parts.len(),
    ensures
        present(parts, n) == parts.take(n as int).filter_map(
            |part: Option<Seq<char>>| part,
        ),
    decreases n,
{
    if n > 0 {
        law_every_part_that_is_there_is_shown(parts, (n - 1) as nat);
        lemma_filter_map_last(
            parts,
            |part: Option<Seq<char>>| part,
            n,
        );
    }
}

/// The line of a stream.
pub open spec fn stream_text(s: StreamFactsView, rate: Option<Seq<char>>, length: Option<Seq<char>>) -> Seq<
    char,
> {
    join(present(stream_parts(s, rate, length), 9), ", "@)
}

/// Add a part, where it is there.
fn push_part(out: &mut Vec<String>, part: Option<String>)
    ensures
        final(out).deep_view() == (match part.deep_view() {
            Some(text) => old(out).deep_view().push(text),
            None => old(out).deep_view(),
        }),
{
    if let Some(text) = part {
        let ghost before = out.deep_view();
        let ghost added = text@;
        out.push(text);
        assert(out.deep_view() =~= before.push(added));
    }
}

/// A number, where a text is one.
fn read_number(text: &Option<String>) -> (r: Option<u64>)
    ensures
        match r {
            Some(n) => number_in(text.deep_view()) == Some(n as nat),
            None => number_in(text.deep_view()) is None,
        },
{
    match text {
        Some(t) => {
            let cs: Vec<char> = chars_of(t.as_str());
            parse_number(cs.as_slice(), u64::MAX)
        },
        None => None,
    }
}

/// A text with another behind it, where there is one.
fn and_then_text(text: &Option<String>, tail: &str) -> (r: Option<String>)
    ensures
        r.deep_view() == (match text.deep_view() {
            Some(t) => Some(t + tail@),
            None => None,
        }),
{
    match text {
        Some(t) => {
            let mut out: String = t.clone();
            out.append(tail);
            Some(out)
        },
        None => None,
    }
}

/// A copy of a text, where there is one.
fn copy_of(text: &Option<String>) -> (r: Option<String>)
    ensures
        r.deep_view() == text.deep_view(),
{
    match text {
        Some(t) => Some(t.clone()),
        None => None,
    }
}

/// The line of a stream: its facts in an order that reads well for video and audio alike; what
/// is absent does not appear.
pub fn stream_line(s: &StreamFacts, shown: &StreamShown) -> (r: String)
    ensures
        r@ == stream_text(s@, shown.rate.deep_view(), shown.length.deep_view()),
{
    let ghost parts = stream_parts(s@, shown.rate.deep_view(), shown.length.deep_view());
    let mut out: Vec<String> = Vec::new();
    assert(out.deep_view() =~= present(parts, 0));
    push_part(&mut out, copy_of(&s.codec_name));
    assert(out.deep_view() == present(parts, 1));
    let mut geometry: Option<String> = None;
    if let Some(width) = &s.width {
        if let Some(height) = &s.height {
            let mut text: String = width.clone();
            text.append("x");
            text.append(height.as_str());
            geometry = Some(text);
        }
    }
    push_part(&mut out, geometry);
    assert(out.deep_view() == present(parts, 2));
    push_part(&mut out, copy_of(&s.pix_fmt));
    assert(out.deep_view() == present(parts, 3));
    push_part(&mut out, and_then_text(&shown.rate, " fps"));
    assert(out.deep_view() == present(parts, 4));
    push_part(
        &mut out,
        match read_number(&s.sample_rate) {
            Some(hz) => Some(khz(hz)),
            None => None,
        },
    );
    assert(out.deep_view() == present(parts, 5));
    let channels: Option<String> = match &s.channels {
        Some(n) => if same_text(n.as_str(), "1") {
            Some("1 channel".to_owned())
        } else {
            and_then_text(&s.channels, " channels")
        },
        None => None,
    };
    push_part(&mut out, channels);
    assert(out.deep_view() == present(parts, 6));
    push_part(&mut out, and_then_text(&s.nb_frames, " frames"));
    assert(out.deep_view() == present(parts, 7));
    push_part(&mut out, copy_of(&shown.length));
    assert(out.deep_view() == present(parts, 8));
    push_part(
        &mut out,
        match read_number(&s.bit_rate) {
            Some(bits) => Some(bit_rate(bits)),
            None => None,
        },
    );
    assert(out.deep_view() == present(parts, 9));
    joined(&out, ", ")
}

/// A line of the report, where there is something to say.
pub open spec fn fact_line(key: Seq<char>, value: Option<Seq<char>>, header: Paint) -> Seq<char> {
    match value {
        Some(text) => painted(header, key) + ": "@ + text + "\n"@,
        None => seq![],
    }
}

/// The kind of a stream.
pub open spec fn kind_of(s: StreamFactsView) -> Seq<char> {
    match s.codec_type {
        Some(kind) => kind,
        None => "stream"@,
    }
}

/// How many of the first `n` streams are of a kind.
pub open spec fn of_kind(streams: Seq<StreamFactsView>, kind: Seq<char>, n: nat) -> nat
    decreases n,
{
    if n == 0 {
        0
    } else if kind_of(streams[n - 1]) == kind {
        of_kind(streams, kind, (n - 1) as nat) + 1
    } else {
        of_kind(streams, kind, (n - 1) as nat)
    }
}

/// The streams of a kind are counted, each once.
pub proof fn law_every_stream_of_a_kind_counts(
    streams: Seq<StreamFactsView>,
    kind: Seq<char>,
    n: nat,
)
    requires
        n <= streams.len(),
    ensures
        of_kind(streams, kind, n) == streams.take(n as int).filter(
            |s: StreamFactsView| kind_of(s) == kind,
        ).len(),
    decreases n,
{
    if n == 0 {
        reveal(Seq::filter);
    } else {
        law_every_stream_of_a_kind_counts(streams, kind, (n - 1) as nat);
        lemma_filter_last(streams, |s: StreamFactsView| kind_of(s) == kind, n);
    }
}

/// The label of stream `i`: its kind, numbered from the second one on.
pub open spec fn stream_label(streams: Seq<StreamFactsView>, i: int) -> Seq<char> {
    let kind = kind_of(streams[i]);
    let nth = of_kind(streams, kind, (i + 1) as nat);
    if nth > 1 {
        kind + " "@ + decimal(nth)
    } else {
        kind
    }
}

/// The lines of the first `n` streams.
pub open spec fn stream_lines(
    streams: Seq<StreamFactsView>,
    shown: Seq<StreamShown>,
    n: nat,
    header: Paint,
) -> Seq<char>
    decreases n,
{
    if n == 0 {
        seq![]
    } else {
        stream_lines(streams, shown, (n - 1) as nat, header) + fact_line(
            stream_label(streams, n - 1),
            Some(
                stream_text(
                    streams[n - 1],
                    shown[n - 1].rate.deep_view(),
                    shown[n - 1].length.deep_view(),
                ),
            ),
            header,
        )
    }
}

/// Every stream has its line, in order, under its own label.
pub proof fn law_every_stream_has_its_line(
    streams: Seq<StreamFactsView>,
    shown: Seq<StreamShown>,
    n: nat,
    header: Paint,
)
    requires
        n <= streams.len(),
    ensures
        stream_lines(streams, shown, n, header) == Seq::new(
            n,
            |i: int|
                painted(header, stream_label(streams, i)) + ": "@ + stream_text(
                    streams[i],
                    shown[i].rate.deep_view(),
                    shown[i].length.deep_view(),
                ) + "\n"@,
        ).flatten(),
    decreases n,
{
    if n > 0 {
        law_every_stream_has_its_line(streams, shown, (n - 1) as nat, header);
        lemma_parts_last(
            |i: int|
                painted(header, stream_label(streams, i)) + ": "@ + stream_text(
                    streams[i],
                    shown[i].rate.deep_view(),
                    shown[i].length.deep_view(),
                ) + "\n"@,
            n,
        );
    }
}

/// The report: facts of the container first, then a line for each stream. What is absent is
/// skipped.
pub open spec fn report_text(
    f: FactsView,
    length: Option<Seq<char>>,
    shown: Seq<StreamShown>,
    header: Paint,
) -> Seq<char> {
    fact_line("file"@, f.filename, header) + fact_line("container"@, f.format_name, header)
        + fact_line(
        "size"@,
        match number_in(f.size) {
            Some(bytes) => Some(size_text(bytes)),
            None => None,
        },
        header,
    ) + fact_line("duration"@, length, header) + fact_line(
        "bit rate"@,
        match number_in(f.bit_rate) {
            Some(bits) => Some(rate_text(bits)),
            None => None,
        },
        header,
    ) + stream_lines(f.streams, shown, f.streams.len(), header)
}

/// The report ends with a line for every stream, in order.
pub proof fn law_every_stream_is_in_the_report(
    f: FactsView,
    length: Option<Seq<char>>,
    shown: Seq<StreamShown>,
    header: Paint,
)
    ensures
        Seq::new(
            f.streams.len(),
            |i: int|
                painted(header, stream_label(f.streams, i)) + ": "@ + stream_text(
                    f.streams[i],
                    shown[i].rate.deep_view(),
                    shown[i].length.deep_view(),
                ) + "\n"@,
        ).flatten().is_suffix_of(report_text(f, length, shown, header)),
{
    law_every_stream_has_its_line(f.streams, shown, f.streams.len(), header);
    let tail = stream_lines(f.streams, shown, f.streams.len(), header);
    let whole = report_text(f, length, shown, header);
    assert(whole.subrange(whole.len() - tail.len(), whole.len() as int) =~= tail);
}

/// A line of the report.
fn push_fact(out: &mut String, key: &str, value: &Option<String>, header: &Paint)
    ensures
        final(out)@ == old(out)@ + fact_line(key@, value.deep_view(), *header),
{
    match value {
        Some(text) => {
            let mut line: String = header.paint(key);
            line.append(": ");
            line.append(text.as_str());
            line.append("\n");
            out.append(line.as_str());
        },
        None => {
            assert(old(out)@ + seq![] =~= old(out)@);
        },
    }
}

/// The label of a stream.
fn label_of(streams: &Vec<StreamFacts>, i: usize) -> (r: String)
    requires
        i < streams@.len(),
    ensures
        r@ == stream_label(streams.deep_view(), i as int),
{
    let kind: &str = match &streams[i].codec_type {
        Some(kind) => kind.as_str(),
        None => "stream",
    };
    assert(streams.deep_view()[i as int] == streams@[i as int]@);
    let total: usize = streams.len();
    let mut nth: usize = 0;
    let mut k: usize = 0;
    while k <= i
        invariant
            k <= i + 1,
            i < total == streams@.len(),
            nth == of_kind(streams.deep_view(), kind@, k as nat),
            nth <= k,
        decreases i + 1 - k,
    {
        assert(streams.deep_view()[k as int] == streams@[k as int]@);
        let other: &str = match &streams[k].codec_type {
            Some(other) => other.as_str(),
            None => "stream",
        };
        if same_text(other, kind) {
            nth += 1;
        }
        k += 1;
    }
    let mut out: String = kind.to_owned();
    if nth > 1 {
        out.append(" ");
        push_decimal(&mut out, nth as u128);
    }
    out
}

/// The report on a media file, given the fractional numbers as they are shown.
pub fn render_report(
    f: &Facts,
    length: &Option<String>,
    shown: &Vec<StreamShown>,
    header: &Paint,
) -> (r: String)
    requires
        shown@.len() == f.streams@.len(),
    ensures
        r@ == report_text(f@, length.deep_view(), shown@, *header),
{
    let mut out: String = String::new();
    push_fact(&mut out, "file", &f.filename, header);
    assert(out@ =~= fact_line("file"@, f@.filename, *header));
    push_fact(&mut out, "container", &f.format_name, header);
    let size: Option<String> = match read_number(&f.size) {
        Some(bytes) => Some(human_size(bytes)),
        None => None,
    };
    push_fact(&mut out, "size", &size, header);
    push_fact(&mut out, "duration", length, header);
    let rate: Option<String> = match read_number(&f.bit_rate) {
        Some(bits) => Some(bit_rate(bits)),
        None => None,
    };
    push_fact(&mut out, "bit rate", &rate, header);
    let mut rest: String = String::new();
    let mut i: usize = 0;
    while i < f.streams.len()
        invariant
            i <= f.streams.len(),
            shown@.len() == f.streams@.len(),
            rest@ == stream_lines(f@.streams, shown@, i as nat, *header),
        decreases f.streams.len() - i,
    {
        assert(f@.streams[i as int] == f.streams@[i as int]@);
        let line: Option<String> = Some(stream_line(&f.streams[i], &shown[i]));
        push_fact(&mut rest, label_of(&f.streams, i).as_str(), &line, header);
        i += 1;
    }
    assert(f.streams.deep_view().len() == f.streams@.len());
    out.append(rest.as_str());
    out
}

// --- tags -----------------------------------------------------------------------------------

/// A tag: its key in lower case, and its value.
pub struct Tag {
    pub key: String,
    pub value: String,
}

impl View for Tag {
    type V = (Seq<char>, Seq<char>);

    open spec fn view(&self) -> (Seq<char>, Seq<char>) {
        (self.key@, self.value@)
    }
}

impl DeepView for Tag {
    type V = (Seq<char>, Seq<char>);

    open spec fn deep_view(&self) -> (Seq<char>, Seq<char>) {
        self@
    }
}

/// The tag that a line opens.
pub open spec fn opened_tag(pair: Seq<char>) -> (Seq<char>, Seq<char>) {
    let k = char_from(pair, '=', 0);
    if 0 <= k < pair.len() {
        (lowercase(pair.take(k)), pair.skip(k + 1))
    } else {
        (lowercase(pair), seq![])
    }
}

/// A tag is its key, an equals sign and its value, which may hold more of them.
pub proof fn law_a_tag_is_a_key_and_a_value(key: Seq<char>, value: Seq<char>)
    requires
        !key.contains('='),
    ensures
        opened_tag(key + seq!['='] + value) == (lowercase(key), value),
        opened_tag(key) == (lowercase(key), Seq::<char>::empty()),
{
    let pair = key + seq!['='] + value;
    lemma_char_from(pair, '=', 0);
    lemma_char_from(key, '=', 0);
    let k = char_from(pair, '=', 0);
    if char_from(key, '=', 0) < key.len() {
        assert(key.contains(key[char_from(key, '=', 0)]));
    }
    if k < key.len() {
        assert(key.contains(key[k]));
    }
    assert(pair[key.len() as int] == '=');
    assert(pair.take(k) =~= key);
    assert(pair.skip(k + 1) =~= value);
}

/// The tags in the first `n` lines: a line that begins with `TAG:` opens a tag, the wrapping
/// lines say nothing, and any other line continues the value before it.
pub open spec fn tags_n(list: Seq<Seq<char>>, n: nat) -> Seq<(Seq<char>, Seq<char>)>
    decreases n,
{
    if n == 0 {
        seq![]
    } else {
        let before = tags_n(list, (n - 1) as nat);
        let line = list[n - 1];
        if line == "[FORMAT]"@ || line == "[/FORMAT]"@ {
            before
        } else if "TAG:"@.is_prefix_of(line) {
            before.push(opened_tag(line.skip(4)))
        } else if before.len() > 0 {
            before.drop_last().push((before.last().0, before.last().1.push('\n') + line))
        } else {
            before
        }
    }
}

/// A line that opens a tag adds it, with its key in lower case; one that opens none goes on with
/// the value before it, on a line of its own; and no tag before those is touched.
pub proof fn law_every_tag_is_read(list: Seq<Seq<char>>, n: nat)
    requires
        n < list.len(),
    ensures
        ({
            let before = tags_n(list, n);
            let now = tags_n(list, n + 1);
            let line = list[n as int];
            let wraps = line == "[FORMAT]"@ || line == "[/FORMAT]"@;
            &&& wraps ==> now == before
            &&& !wraps && "TAG:"@.is_prefix_of(line) ==> now.len() == before.len() + 1 && now.last()
                == opened_tag(line.skip(4)) && before.is_prefix_of(now)
            &&& !wraps && !"TAG:"@.is_prefix_of(line) && before.len() > 0 ==> now.len()
                == before.len() && now.last().0 == before.last().0 && now.last().1 == before.last().1
                + "\n"@ + line && now.take(now.len() - 1) == before.take(before.len() - 1)
            &&& !wraps && !"TAG:"@.is_prefix_of(line) && before.len() == 0 ==> now == before
        }),
        tags_n(list, 0).len() == 0,
{
    reveal_strlit("\n");
    let before = tags_n(list, n);
    let now = tags_n(list, n + 1);
    let line = list[n as int];
    assert(before.push(opened_tag(line.skip(4))).take(before.len() as int) =~= before);
    if before.len() > 0 {
        assert(before.last().1.push('\n') + line =~= before.last().1 + "\n"@ + line);
        let other = before.drop_last().push((before.last().0, before.last().1.push('\n') + line));
        assert(other.take(other.len() - 1) =~= before.take(before.len() - 1));
    }
}

/// The tags in what the probe printed.
pub open spec fn tags_in(printed: Seq<char>) -> Seq<(Seq<char>, Seq<char>)> {
    tags_n(lines(printed), lines(printed).len())
}

/// One line more than was read before is read for what it is: a tag where it begins one, more of
/// the last tag where it does not.
pub proof fn law_the_last_line_is_read_too(printed: Seq<char>)
    requires
        lines(printed).len() > 0,
    ensures
        ({
            let list = lines(printed);
            let before = tags_n(list, (list.len() - 1) as nat);
            let line = list.last();
            line != "[FORMAT]"@ && line != "[/FORMAT]"@ && "TAG:"@.is_prefix_of(line) ==> tags_in(
                printed,
            ).len() == before.len() + 1 && tags_in(printed).last() == opened_tag(line.skip(4))
                && before.is_prefix_of(tags_in(printed))
        }),
{
    let list = lines(printed);
    law_every_tag_is_read(list, (list.len() - 1) as nat);
}

/// The tags in what the probe printed.
pub fn parse_tags(printed: &str) -> (r: Vec<Tag>)
    ensures
        r.deep_view() == tags_in(printed@),
{
    let cs: Vec<char> = chars_of(printed);
    let list: Vec<String> = lines_of(cs.as_slice());
    let mut tags: Vec<Tag> = Vec::new();
    assert(tags.deep_view() =~= seq![]);
    let mut i: usize = 0;
    while i < list.len()
        invariant
            i <= list.len(),
            tags.deep_view() == tags_n(list.deep_view(), i as nat),
        decreases list.len() - i,
    {
        let line: Vec<char> = chars_of(list[i].as_str());
        assert(list.deep_view()[i as int] == line@);
        let ghost before = tags.deep_view();
        assert(before.len() == tags@.len());
        if spells(line.as_slice(), "[FORMAT]") || spells(line.as_slice(), "[/FORMAT]") {
            assert(line@ == "[FORMAT]"@ || line@ == "[/FORMAT]"@);
        } else if begins_with(line.as_slice(), "TAG:") {
            proof {
                reveal_strlit("TAG:");
            }
            let pair: &[char] = slice_subrange(line.as_slice(), 4, line.len());
            assert(pair@ =~= line@.skip(4));
            let k: usize = find_char(pair, '=', 0);
            proof {
                lemma_char_from(pair@, '=', 0);
            }
            let tag: Tag = if k < pair.len() {
                let key: String = string_of(slice_subrange(pair, 0, k));
                let value: String = string_of(slice_subrange(pair, k + 1, pair.len()));
                assert(key@ =~= pair@.take(k as int));
                assert(value@ =~= pair@.skip(k + 1));
                Tag { key: key.as_str().to_lowercase(), value }
            } else {
                Tag { key: string_of(pair).as_str().to_lowercase(), value: String::new() }
            };
            tags.push(tag);
            assert(tags.deep_view() =~= before.push(opened_tag(line@.skip(4))));
        } else if tags.len() > 0 {
            let last: usize = tags.len() - 1;
            let mut value: String = tags[last].value.clone();
            value.push('\n');
            value.append(list[i].as_str());
            let key: String = tags[last].key.clone();
            tags.set(last, Tag { key, value });
            assert(before[last as int] == before.last());
            assert(tags.deep_view() =~= before.drop_last().push(
                (before.last().0, before.last().1.push('\n') + line@),
            ));
        }
        i += 1;
    }
    assert(list.deep_view().len() == list@.len());
    tags
}

/// A tag as it is shown: on one line, or as an indented block where its value has several.
pub open spec fn tag_text(tag: (Seq<char>, Seq<char>), header: Paint) -> Seq<char> {
    if tag.1.contains('\n') {
        painted(header, tag.0) + ": |\n"@ + indented(lines(tag.1), lines(tag.1).len())
    } else {
        painted(header, tag.0) + ": "@ + tag.1 + "\n"@
    }
}

/// The first `n` tags as they are shown.
pub open spec fn tags_text(tags: Seq<(Seq<char>, Seq<char>)>, n: nat, header: Paint) -> Seq<char>
    decreases n,
{
    if n == 0 {
        seq![]
    } else {
        tags_text(tags, (n - 1) as nat, header) + tag_text(tags[n - 1], header)
    }
}

/// Every tag is shown, in order.
pub proof fn law_every_tag_is_shown(tags: Seq<(Seq<char>, Seq<char>)>, n: nat, header: Paint)
    requires
        n <= tags.len(),
    ensures
        tags_text(tags, n, header) == tags.take(n as int).flat_map(
            |tag: (Seq<char>, Seq<char>)| tag_text(tag, header),
        ),
    decreases n,
{
    if n > 0 {
        law_every_tag_is_shown(tags, (n - 1) as nat, header);
        lemma_flat_map_last(
            tags,
            |tag: (Seq<char>, Seq<char>)| tag_text(tag, header),
            n,
        );
    }
}

/// A tag as it is shown.
fn show_tag(tag: &Tag, header: &Paint) -> (r: String)
    ensures
        r@ == tag_text(tag@, *header),
{
    let mut out: String = header.paint(tag.key.as_str());
    let value: Vec<char> = chars_of(tag.value.as_str());
    let k: usize = find_char(value.as_slice(), '\n', 0);
    proof {
        lemma_char_from(value@, '\n', 0);
        if k < value@.len() {
            assert(value@[k as int] == '\n');
        }
    }
    if k < value.len() {
        out.append(": |\n");
        let list: Vec<String> = lines_of(value.as_slice());
        let mut block: String = String::new();
        let mut i: usize = 0;
        while i < list.len()
            invariant
                i <= list.len(),
                block@ == indented(list.deep_view(), i as nat),
            decreases list.len() - i,
        {
            assert(list.deep_view()[i as int] == list@[i as int]@);
            let mut line: String = "  ".to_owned();
            line.append(list[i].as_str());
            line.append("\n");
            block.append(line.as_str());
            i += 1;
        }
        assert(list.deep_view().len() == list@.len());
        out.append(block.as_str());
    } else {
        assert(!value@.contains('\n'));
        out.append(": ");
        out.append(tag.value.as_str());
        out.append("\n");
    }
    out
}

/// The tags as they are shown. A file without tags shows none.
pub fn show_tags(tags: &Vec<Tag>, header: &Paint) -> (r: String)
    ensures
        r@ == tags_text(tags.deep_view(), tags@.len(), *header),
{
    let mut out: String = String::new();
    let mut i: usize = 0;
    while i < tags.len()
        invariant
            i <= tags.len(),
            out@ == tags_text(tags.deep_view(), i as nat, *header),
        decreases tags.len() - i,
    {
        assert(tags.deep_view()[i as int] == tags@[i as int]@);
        out.append(show_tag(&tags[i], header).as_str());
        i += 1;
    }
    out
}

/// The tags in what the probe printed, as they are shown.
pub fn tags_yamlish(printed: &str, header: &Paint) -> (r: String)
    ensures
        r@ == tags_text(tags_in(printed@), tags_in(printed@).len(), *header),
{
    let tags: Vec<Tag> = parse_tags(printed);
    assert(tags.deep_view().len() == tags@.len());
    show_tags(&tags, header)
}

} // verus!
