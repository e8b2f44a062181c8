//! Converting and trimming media files.

use vstd::prelude::*;
use vstd::string::*;
use super::{is_writing, marked, marked_output, run_writing, Run};
use crate::paths::{change_extension, extension, extension_of, with_extension};
use crate::text::{
    chars_of, drop_leading, holds_word, lowercase, push_text, push_texts, push_words, same_text, string_of, words,
    without_first, words_of,
};

verus! {

// --- arguments ------------------------------------------------------------------------------

/// The arguments of `convert`.
pub struct ConvertArgs {
    /// Input file.
    pub input: String,
    /// Output path, or just a format, converting beside the input.
    pub output: String,
    /// Overwrite the output file if it exists.
    pub overwrite: bool,
    /// Cap the video bitrate.
    pub bitrate: Option<String>,
    /// Repackage the streams into the new container without re-encoding.
    pub remux: bool,
}

/// The arguments of both profiled conversions. The profile owns the quality decision, so there
/// is no bitrate and no remuxing here.
pub struct ProfiledConvertArgs {
    /// Input file.
    pub input: String,
    /// Output path, or just a format, converting beside the input.
    pub output: String,
    /// Overwrite the output file if it exists.
    pub overwrite: bool,
    /// Encode video as H.264: bigger files, but they play everywhere.
    pub h264: bool,
}

/// The arguments of `trim_start`.
pub struct TrimStartArgs {
    /// Input video or audio file.
    pub input: String,
    /// How much to cut off the front: seconds or a timestamp.
    pub duration: String,
    /// Output file; by default beside the input.
    pub output: Option<String>,
    /// Overwrite the output file if it exists.
    pub overwrite: bool,
    /// Copy the streams instead of re-encoding.
    pub copy: bool,
}

// --- formats --------------------------------------------------------------------------------

/// The two directions a profiled conversion can take.
#[derive(Clone, Copy, Debug, PartialEq, Eq, Structural)]
pub enum Profile {
    Quality,
    Compact,
}

/// One output family's flags at the two extremes, and what its container carries unchanged.
pub struct FormatKnobs {
    /// Output extensions this row governs, in lower case.
    pub exts: Vec<&'static str>,
    /// Maximum fidelity.
    pub quality: Vec<&'static str>,
    /// Minimum visual payload; audio is left alone.
    pub compact: Vec<&'static str>,
    /// Codecs this container carries unchanged: `*` for any, none for never copying. A false
    /// "no" merely re-encodes; a false "yes" writes a broken file.
    pub accepts: Vec<&'static str>,
}

/// A row of the format table.
pub struct KnobsView {
    pub exts: Seq<Seq<char>>,
    pub quality: Seq<Seq<char>>,
    pub compact: Seq<Seq<char>>,
    pub accepts: Seq<Seq<char>>,
}

impl View for FormatKnobs {
    type V = KnobsView;

    open spec fn view(&self) -> KnobsView {
        KnobsView {
            exts: self.exts.deep_view(),
            quality: self.quality.deep_view(),
            compact: self.compact.deep_view(),
            accepts: self.accepts.deep_view(),
        }
    }
}

impl DeepView for FormatKnobs {
    type V = KnobsView;

    open spec fn deep_view(&self) -> KnobsView {
        self@
    }
}

/// A row of the format table.
pub open spec fn knobs(
    exts: Seq<Seq<char>>,
    quality: Seq<Seq<char>>,
    compact: Seq<Seq<char>>,
    accepts: Seq<Seq<char>>,
) -> KnobsView {
    KnobsView { exts, quality, compact, accepts }
}

/// The format table.
pub open spec fn format_rows() -> Seq<KnobsView> {
    seq![
        knobs(
            seq!["mp4"@, "mov"@, "m4v"@],
            seq!["-c:v"@, "libx265"@, "-tag:v"@, "hvc1"@, "-crf"@, "20"@, "-b:a"@, "256k"@],
            seq!["-c:v"@, "libx265"@, "-tag:v"@, "hvc1"@, "-crf"@, "34"@],
            seq!["h264"@, "hevc"@, "mpeg4"@, "aac"@, "mp3"@],
        ),
        knobs(
            seq!["mkv"@],
            seq!["-c:v"@, "libx265"@, "-crf"@, "20"@, "-b:a"@, "256k"@],
            seq!["-c:v"@, "libx265"@, "-crf"@, "34"@],
            seq!["*"@],
        ),
        knobs(
            seq!["webm"@],
            seq!["-crf"@, "15"@, "-b:v"@, "0"@, "-b:a"@, "192k"@],
            seq!["-crf"@, "50"@, "-b:v"@, "0"@],
            seq!["vp8"@, "vp9"@, "av1"@, "vorbis"@, "opus"@],
        ),
        knobs(
            seq!["avi"@],
            seq!["-q:v"@, "2"@, "-b:a"@, "320k"@],
            seq!["-q:v"@, "20"@],
            seq!["mpeg4"@, "mp3"@],
        ),
        knobs(seq!["jpg"@, "jpeg"@], seq!["-q:v"@, "2"@], seq!["-q:v"@, "15"@], seq![]),
        knobs(seq!["webp"@], seq!["-lossless"@, "1"@], seq!["-quality"@, "30"@], seq![]),
        knobs(seq!["png"@, "gif"@], seq![], seq![], seq![]),
        knobs(seq!["mp3"@], seq!["-q:a"@, "0"@], seq![], seq!["mp3"@]),
        knobs(seq!["m4a"@, "aac"@], seq!["-b:a"@, "256k"@], seq![], seq!["aac"@]),
        knobs(seq!["ogg"@, "oga"@], seq!["-q:a"@, "7"@], seq![], seq!["vorbis"@, "opus"@]),
        knobs(seq!["opus"@], seq!["-b:a"@, "192k"@], seq![], seq!["opus"@]),
        knobs(seq!["flac"@], seq![], seq![], seq!["flac"@]),
        knobs(seq!["wav"@], seq![], seq![], seq![]),
    ]
}

/// The format table. Every encoder has a quality scale of its own, so the table pins, for each
/// output format, what the most and the least mean. A format without a row is not refused: it
/// converts on encoder defaults.
pub fn format_knobs() -> (r: Vec<FormatKnobs>)
    ensures
        r.deep_view() == format_rows(),
{
    let rows: Vec<FormatKnobs> = vec![
        FormatKnobs {
            exts: vec!["mp4", "mov", "m4v"],
            quality: vec!["-c:v", "libx265", "-tag:v", "hvc1", "-crf", "20", "-b:a", "256k"],
            compact: vec!["-c:v", "libx265", "-tag:v", "hvc1", "-crf", "34"],
            accepts: vec!["h264", "hevc", "mpeg4", "aac", "mp3"],
        },
        FormatKnobs {
            exts: vec!["mkv"],
            quality: vec!["-c:v", "libx265", "-crf", "20", "-b:a", "256k"],
            compact: vec!["-c:v", "libx265", "-crf", "34"],
            accepts: vec!["*"],
        },
        FormatKnobs {
            exts: vec!["webm"],
            quality: vec!["-crf", "15", "-b:v", "0", "-b:a", "192k"],
            compact: vec!["-crf", "50", "-b:v", "0"],
            accepts: vec!["vp8", "vp9", "av1", "vorbis", "opus"],
        },
        FormatKnobs {
            exts: vec!["avi"],
            quality: vec!["-q:v", "2", "-b:a", "320k"],
            compact: vec!["-q:v", "20"],
            accepts: vec!["mpeg4", "mp3"],
        },
        FormatKnobs {
            exts: vec!["jpg", "jpeg"],
            quality: vec!["-q:v", "2"],
            compact: vec!["-q:v", "15"],
            accepts: vec![],
        },
        FormatKnobs {
            exts: vec!["webp"],
            quality: vec!["-lossless", "1"],
            compact: vec!["-quality", "30"],
            accepts: vec![],
        },
        FormatKnobs {
            exts: vec!["png", "gif"],
            quality: vec![],
            compact: vec![],
            accepts: vec![],
        },
        FormatKnobs {
            exts: vec!["mp3"],
            quality: vec!["-q:a", "0"],
            compact: vec![],
            accepts: vec!["mp3"],
        },
        FormatKnobs {
            exts: vec!["m4a", "aac"],
            quality: vec!["-b:a", "256k"],
            compact: vec![],
            accepts: vec!["aac"],
        },
        FormatKnobs {
            exts: vec!["ogg", "oga"],
            quality: vec!["-q:a", "7"],
            compact: vec![],
            accepts: vec!["vorbis", "opus"],
        },
        FormatKnobs {
            exts: vec!["opus"],
            quality: vec!["-b:a", "192k"],
            compact: vec![],
            accepts: vec!["opus"],
        },
        FormatKnobs {
            exts: vec!["flac"],
            quality: vec![],
            compact: vec![],
            accepts: vec!["flac"],
        },
        FormatKnobs {
            exts: vec!["wav"],
            quality: vec![],
            compact: vec![],
            accepts: vec![],
        },
    ];
    assert(rows@[0]@.exts =~= format_rows()[0].exts);
    assert(rows@[0]@.quality =~= format_rows()[0].quality);
    assert(rows@[0]@.compact =~= format_rows()[0].compact);
    assert(rows@[0]@.accepts =~= format_rows()[0].accepts);
    assert(rows@[1]@.exts =~= format_rows()[1].exts);
    assert(rows@[1]@.quality =~= format_rows()[1].quality);
    assert(rows@[1]@.compact =~= format_rows()[1].compact);
    assert(rows@[1]@.accepts =~= format_rows()[1].accepts);
    assert(rows@[2]@.exts =~= format_rows()[2].exts);
    assert(rows@[2]@.quality =~= format_rows()[2].quality);
    assert(rows@[2]@.compact =~= format_rows()[2].compact);
    assert(rows@[2]@.accepts =~= format_rows()[2].accepts);
    assert(rows@[3]@.exts =~= format_rows()[3].exts);
    assert(rows@[3]@.quality =~= format_rows()[3].quality);
    assert(rows@[3]@.compact =~= format_rows()[3].compact);
    assert(rows@[3]@.accepts =~= format_rows()[3].accepts);
    assert(rows@[4]@.exts =~= format_rows()[4].exts);
    assert(rows@[4]@.quality =~= format_rows()[4].quality);
    assert(rows@[4]@.compact =~= format_rows()[4].compact);
    assert(rows@[4]@.accepts =~= format_rows()[4].accepts);
    assert(rows@[5]@.exts =~= format_rows()[5].exts);
    assert(rows@[5]@.quality =~= format_rows()[5].quality);
    assert(rows@[5]@.compact =~= format_rows()[5].compact);
    assert(rows@[5]@.accepts =~= format_rows()[5].accepts);
    assert(rows@[6]@.exts =~= format_rows()[6].exts);
    assert(rows@[6]@.quality =~= format_rows()[6].quality);
    assert(rows@[6]@.compact =~= format_rows()[6].compact);
    assert(rows@[6]@.accepts =~= format_rows()[6].accepts);
    assert(rows@[7]@.exts =~= format_rows()[7].exts);
    assert(rows@[7]@.quality =~= format_rows()[7].quality);
    assert(rows@[7]@.compact =~= format_rows()[7].compact);
    assert(rows@[7]@.accepts =~= format_rows()[7].accepts);
    assert(rows@[8]@.exts =~= format_rows()[8].exts);
    assert(rows@[8]@.quality =~= format_rows()[8].quality);
    assert(rows@[8]@.compact =~= format_rows()[8].compact);
    assert(rows@[8]@.accepts =~= format_rows()[8].accepts);
    assert(rows@[9]@.exts =~= format_rows()[9].exts);
    assert(rows@[9]@.quality =~= format_rows()[9].quality);
    assert(rows@[9]@.compact =~= format_rows()[9].compact);
    assert(rows@[9]@.accepts =~= format_rows()[9].accepts);
    assert(rows@[10]@.exts =~= format_rows()[10].exts);
    assert(rows@[10]@.quality =~= format_rows()[10].quality);
    assert(rows@[10]@.compact =~= format_rows()[10].compact);
    assert(rows@[10]@.accepts =~= format_rows()[10].accepts);
    assert(rows@[11]@.exts =~= format_rows()[11].exts);
    assert(rows@[11]@.quality =~= format_rows()[11].quality);
    assert(rows@[11]@.compact =~= format_rows()[11].compact);
    assert(rows@[11]@.accepts =~= format_rows()[11].accepts);
    assert(rows@[12]@.exts =~= format_rows()[12].exts);
    assert(rows@[12]@.quality =~= format_rows()[12].quality);
    assert(rows@[12]@.compact =~= format_rows()[12].compact);
    assert(rows@[12]@.accepts =~= format_rows()[12].accepts);
    assert(rows.deep_view() =~= format_rows());
    rows
}

/// The first row of the table that governs an extension, from position `k` on.
pub open spec fn row_from(rows: Seq<KnobsView>, ext: Seq<char>, k: int) -> Option<int>
    decreases rows.len() - k,
{
    if k >= rows.len() {
        None
    } else if rows[k].exts.contains(ext) {
        Some(k)
    } else {
        row_from(rows, ext, k + 1)
    }
}

/// The row of a format is the first that names its extension, and there is none only where no row
/// does.
pub proof fn law_the_row_of_a_format_is_found(rows: Seq<KnobsView>, ext: Seq<char>, k: int)
    requires
        0 <= k <= rows.len(),
    ensures
        match row_from(rows, ext, k) {
            Some(found) => k <= found < rows.len() && rows[found].exts.contains(ext) && forall|i: int|
                k <= i < found ==> !(#[trigger] rows[i]).exts.contains(ext),
            None => forall|i: int| k <= i < rows.len() ==> !(#[trigger] rows[i]).exts.contains(ext),
        },
    decreases rows.len() - k,
{
    if k < rows.len() && !rows[k].exts.contains(ext) {
        law_the_row_of_a_format_is_found(rows, ext, k + 1);
    }
}

/// The row of an extension, where the table has one.
pub open spec fn row_of(ext: Seq<char>) -> Option<KnobsView> {
    match row_from(format_rows(), ext, 0) {
        Some(k) => Some(format_rows()[k]),
        None => None,
    }
}

/// The containers whose profiles encode H.265.
pub open spec fn h265_by_default() -> Seq<Seq<char>> {
    seq!["mp4"@, "mov"@, "m4v"@, "mkv"@]
}

/// The flags of a profile for an output extension in lower case: the H.264 variant where that
/// is asked for on a container that would encode H.265, and nothing for an unknown format.
pub open spec fn tuning(ext: Seq<char>, profile: Profile, h264: bool) -> Seq<Seq<char>> {
    if h264 && h265_by_default().contains(ext) {
        match profile {
            Profile::Quality => seq!["-c:v"@, "libx264"@, "-crf"@, "18"@, "-b:a"@, "256k"@],
            Profile::Compact => seq!["-c:v"@, "libx264"@, "-crf"@, "32"@],
        }
    } else {
        match row_of(ext) {
            Some(row) => match profile {
                Profile::Quality => row.quality,
                Profile::Compact => row.compact,
            },
            None => seq![],
        }
    }
}

/// The name of a profile's command.
pub open spec fn profile_command(profile: Profile) -> Seq<char> {
    match profile {
        Profile::Quality => "media_convert_quality"@,
        Profile::Compact => "media_convert_compact"@,
    }
}

/// What is said of a format that the table does not know.
pub open spec fn tuning_notice(ext: Seq<char>, profile: Profile, h264: bool) -> Option<Seq<char>> {
    if !(h264 && h265_by_default().contains(ext)) && row_of(ext) is None {
        Some(
            profile_command(profile) + ": no tuning known for `."@ + ext
                + "` — converting on encoder defaults"@,
        )
    } else {
        None
    }
}

/// Flags, and what is said about them.
pub struct Tuning {
    pub flags: Vec<String>,
    pub notice: Option<String>,
}

impl Profile {
    /// This profile's flags within a row of the table.
    pub fn pick(self, row: &FormatKnobs) -> (r: Vec<String>)
        ensures
            r.deep_view() == (match self {
                Profile::Quality => row@.quality,
                Profile::Compact => row@.compact,
            }),
    {
        let mut out: Vec<String> = Vec::new();
        let list: &Vec<&'static str> = match self {
            Profile::Quality => &row.quality,
            Profile::Compact => &row.compact,
        };
        let mut i: usize = 0;
        assert(out.deep_view() =~= list.deep_view().take(0));
        while i < list.len()
            invariant
                i <= list.len(),
                out.deep_view() == list.deep_view().take(i as int),
            decreases list.len() - i,
        {
            push_text(&mut out, list[i]);
            i += 1;
            assert(out.deep_view() =~= list.deep_view().take(i as int));
        }
        assert(list.deep_view().take(i as int) =~= list.deep_view());
        out
    }

    /// The name of this profile's command.
    pub fn command(self) -> (r: &'static str)
        ensures
            r@ == profile_command(self),
    {
        match self {
            Profile::Quality => "media_convert_quality",
            Profile::Compact => "media_convert_compact",
        }
    }
}

/// The position of the row that governs an extension.
fn find_row(rows: &Vec<FormatKnobs>, ext: &str) -> (r: Option<usize>)
    ensures
        match r {
            Some(k) => row_from(rows.deep_view(), ext@, 0) == Some(k as int) && k < rows@.len(),
            None => row_from(rows.deep_view(), ext@, 0) is None,
        },
{
    let mut k: usize = 0;
    while k < rows.len()
        invariant
            k <= rows.len(),
            row_from(rows.deep_view(), ext@, 0) == row_from(rows.deep_view(), ext@, k as int),
        decreases rows.len() - k,
    {
        assert(rows.deep_view()[k as int] == rows@[k as int]@);
        if holds_word(&rows[k].exts, ext) {
            return Some(k);
        }
        k += 1;
    }
    assert(rows.deep_view().len() == rows@.len());
    None
}

/// Whether a container encodes H.265 by default.
fn defaults_to_h265(ext: &str) -> (r: bool)
    ensures
        r == h265_by_default().contains(ext@),
{
    let list: Vec<&'static str> = vec!["mp4", "mov", "m4v", "mkv"];
    assert(list.deep_view() =~= h265_by_default());
    holds_word(&list, ext)
}

/// The flags of a profile for an output extension in lower case.
pub fn flags_for(ext: &str, profile: Profile, h264: bool) -> (r: Tuning)
    ensures
        r.flags.deep_view() == tuning(ext@, profile, h264),
        r.notice.deep_view() == tuning_notice(ext@, profile, h264),
{
    let mut flags: Vec<String> = Vec::new();
    assert(flags.deep_view() =~= seq![]);
    if h264 && defaults_to_h265(ext) {
        match profile {
            Profile::Quality => {
                push_words(&mut flags, vec!["-c:v", "libx264", "-crf", "18", "-b:a", "256k"]);
            },
            Profile::Compact => {
                push_words(&mut flags, vec!["-c:v", "libx264", "-crf", "32"]);
            },
        }
        assert(flags.deep_view() =~= tuning(ext@, profile, h264));
        return Tuning { flags, notice: None };
    }
    let rows: Vec<FormatKnobs> = format_knobs();
    match find_row(&rows, ext) {
        Some(k) => {
            assert(rows.deep_view()[k as int] == rows@[k as int]@);
            Tuning { flags: profile.pick(&rows[k]), notice: None }
        },
        None => {
            let mut text: String = profile.command().to_owned();
            text.append(": no tuning known for `.");
            text.append(ext);
            text.append("` — converting on encoder defaults");
            Tuning { flags, notice: Some(text) }
        },
    }
}

/// The extension of a path in lower case, empty where it has none.
pub open spec fn format_of(path: Seq<char>) -> Seq<char> {
    match extension(path) {
        Some(ext) => lowercase(ext),
        None => seq![],
    }
}

/// The extension of a path in lower case: the key of the format table.
pub fn ext(path: &str) -> (r: Option<String>)
    ensures
        r.deep_view() == (match extension(path@) {
            Some(e) => Some(lowercase(e)),
            None => None,
        }),
{
    match extension_of(path) {
        Some(e) => Some(e.as_str().to_lowercase()),
        None => None,
    }
}

/// The extension of a path in lower case, empty where it has none.
fn format_text(path: &str) -> (r: String)
    ensures
        r@ == format_of(path@),
{
    match ext(path) {
        Some(e) => e,
        None => String::new(),
    }
}

/// The flags of a profile for an output's format.
pub fn profile_flags(output: &str, profile: Profile, h264: bool) -> (r: Tuning)
    ensures
        r.flags.deep_view() == tuning(format_of(output@), profile, h264),
        r.notice.deep_view() == tuning_notice(format_of(output@), profile, h264),
{
    flags_for(format_text(output).as_str(), profile, h264)
}

// --- copying streams ------------------------------------------------------------------------

/// Whether there are codecs, and a container that accepts these carries each of them.
pub open spec fn accepted(codecs: Seq<Seq<char>>, accepts: Seq<Seq<char>>) -> bool {
    codecs.len() > 0 && forall|i: int|
        0 <= i < codecs.len() ==> accepts.contains("*"@) || accepts.contains(#[trigger] codecs[i])
}

/// Whether every stream can ride into a container of that extension unchanged, given the codecs
/// of all streams and of the video streams where they could be probed.
pub open spec fn copies(
    ext: Seq<char>,
    h264_only: bool,
    codecs: Option<Seq<Seq<char>>>,
    video: Option<Seq<Seq<char>>>,
) -> bool {
    &&& row_of(ext) is Some
    &&& row_of(ext)->0.accepts.len() > 0
    &&& codecs is Some && accepted(codecs->0, row_of(ext)->0.accepts)
    &&& !h264_only || (video is Some && only_h264(video->0))
}

/// Streams are copied exactly where every one of them, and there is one, is of a codec that the
/// container carries; and, where only H.264 will do, where every video stream is that.
pub proof fn law_streams_are_copied_only_where_all_fit(
    ext: Seq<char>,
    h264_only: bool,
    codecs: Seq<Seq<char>>,
    video: Option<Seq<Seq<char>>>,
)
    ensures
        copies(ext, h264_only, Some(codecs), video) <==> {
            &&& row_of(ext) is Some
            &&& codecs.len() > 0
            &&& row_of(ext)->0.accepts.len() > 0
            &&& forall|i: int|
                0 <= i < codecs.len() ==> row_of(ext)->0.accepts.contains("*"@)
                    || row_of(ext)->0.accepts.contains(#[trigger] codecs[i])
            &&& h264_only ==> video is Some && forall|i: int|
                0 <= i < video->0.len() ==> #[trigger] video->0[i] == "h264"@
        },
        !copies(ext, h264_only, None, video),
{
}

/// Whether all codecs are H.264.
pub open spec fn only_h264(codecs: Seq<Seq<char>>) -> bool {
    forall|i: int| 0 <= i < codecs.len() ==> #[trigger] codecs[i] == "h264"@
}

/// Whether the codecs all sit within those accepted. No streams at all is a "no": there would be
/// nothing to copy.
pub fn all_accepted(codecs: &Vec<String>, accepts: &Vec<&'static str>) -> (r: bool)
    ensures
        r == accepted(codecs.deep_view(), accepts.deep_view()),
{
    assert(codecs.deep_view().len() == codecs@.len());
    if codecs.len() == 0 {
        return false;
    }
    if holds_word(accepts, "*") {
        return true;
    }
    let mut i: usize = 0;
    while i < codecs.len()
        invariant
            i <= codecs.len(),
            !accepts.deep_view().contains("*"@),
            forall|j: int|
                0 <= j < i ==> accepts.deep_view().contains(#[trigger] codecs.deep_view()[j]),
        decreases codecs.len() - i,
    {
        assert(codecs.deep_view()[i as int] == codecs@[i as int]@);
        if !holds_word(accepts, codecs[i].as_str()) {
            return false;
        }
        i += 1;
    }
    assert(codecs.deep_view().len() == codecs@.len());
    true
}

/// Whether all codecs are H.264.
fn all_h264(codecs: &Vec<String>) -> (r: bool)
    ensures
        r == only_h264(codecs.deep_view()),
{
    let mut i: usize = 0;
    while i < codecs.len()
        invariant
            i <= codecs.len(),
            forall|j: int| 0 <= j < i ==> #[trigger] codecs.deep_view()[j] == "h264"@,
        decreases codecs.len() - i,
    {
        assert(codecs.deep_view()[i as int] == codecs@[i as int]@);
        if !same_text(codecs[i].as_str(), "h264") {
            return false;
        }
        i += 1;
    }
    assert(codecs.deep_view().len() == codecs@.len());
    true
}

/// Whether every stream can ride into a container of that extension unchanged. With `h264_only`,
/// video must already be H.264: copying anything else would betray an explicit request.
pub fn fits_container(
    ext: &str,
    h264_only: bool,
    codecs: &Option<Vec<String>>,
    video: &Option<Vec<String>>,
) -> (r: bool)
    ensures
        r == copies(ext@, h264_only, codecs.deep_view(), video.deep_view()),
{
    let rows: Vec<FormatKnobs> = format_knobs();
    match find_row(&rows, ext) {
        None => false,
        Some(k) => {
            assert(rows.deep_view()[k as int] == rows@[k as int]@);
            let accepts: &Vec<&'static str> = &rows[k].accepts;
            assert(accepts.deep_view().len() == accepts@.len());
            if accepts.len() == 0 {
                return false;
            }
            let fits: bool = match codecs {
                Some(list) => all_accepted(list, accepts),
                None => false,
            };
            if !fits || !h264_only {
                return fits;
            }
            match video {
                Some(list) => all_h264(list),
                None => false,
            }
        },
    }
}

/// Whether every stream of an input can ride into the output's container unchanged. An unlisted
/// container or an input that could not be probed means re-encoding.
pub fn remuxable(
    output: &str,
    h264_only: bool,
    codecs: &Option<Vec<String>>,
    video: &Option<Vec<String>>,
) -> (r: bool)
    ensures
        r == copies(format_of(output@), h264_only, codecs.deep_view(), video.deep_view()),
{
    fits_container(format_text(output).as_str(), h264_only, codecs, video)
}

/// The arguments of the probe that lists the codecs of an input's streams.
pub open spec fn codecs_argv(input: Seq<char>, only_video: bool) -> Seq<Seq<char>> {
    seq!["-v"@, "error"@, "-show_entries"@, "stream=codec_name"@] + (if only_video {
        seq!["-select_streams"@, "v"@]
    } else {
        seq![]
    }) + seq!["-of"@, "csv=p=0"@, input]
}

/// The arguments of the probe that lists the codecs of an input's streams.
pub fn stream_codecs_argv(input: &str, only_video: bool) -> (r: Vec<String>)
    ensures
        r.deep_view() == codecs_argv(input@, only_video),
{
    let mut argv: Vec<String> = Vec::new();
    push_words(&mut argv, vec!["-v", "error", "-show_entries", "stream=codec_name"]);
    if only_video {
        push_words(&mut argv, vec!["-select_streams", "v"]);
    }
    push_words(&mut argv, vec!["-of", "csv=p=0"]);
    push_text(&mut argv, input);
    assert(argv.deep_view() =~= codecs_argv(input@, only_video));
    argv
}

/// The codecs that the probe printed.
pub fn stream_codecs(printed: &str) -> (r: Vec<String>)
    ensures
        r.deep_view() == words(printed@),
{
    let cs: Vec<char> = chars_of(printed);
    words_of(cs.as_slice())
}

// --- converting -----------------------------------------------------------------------------

/// Where a conversion writes: a bare format becomes the input's path with that extension;
/// anything else is a path, taken as it is given.
pub open spec fn conversion_output(input: Seq<char>, output: Seq<char>) -> Seq<char> {
    let format = without_first(output, '.');
    if format.len() > 0 && !format.contains('.') && !format.contains('/') {
        with_extension(input, format)
    } else {
        output
    }
}

/// Where a conversion writes.
pub fn convert_output(input: &str, output: &str) -> (r: String)
    ensures
        r@ == conversion_output(input@, output@),
{
    let cs: Vec<char> = chars_of(output);
    let rest: &[char] = drop_leading(cs.as_slice(), '.');
    let mut bare: bool = rest.len() > 0;
    let mut i: usize = 0;
    while i < rest.len() && bare
        invariant
            i <= rest.len(),
            rest@.len() == 0 ==> !bare,
            bare ==> forall|j: int| 0 <= j < i ==> rest@[j] != '.' && rest@[j] != '/',
            !bare ==> rest@.len() == 0 || rest@.contains('.') || rest@.contains('/'),
        decreases rest.len() - i,
    {
        if rest[i] == '.' || rest[i] == '/' {
            assert(rest@[i as int] == '.' || rest@[i as int] == '/');
            bare = false;
        }
        i += 1;
    }
    if bare {
        assert(!rest@.contains('.'));
        assert(!rest@.contains('/'));
        change_extension(input, string_of(rest).as_str())
    } else {
        output.to_owned()
    }
}

/// The extensions written as a single still image.
pub open spec fn still_formats() -> Seq<Seq<char>> {
    seq!["png"@, "jpg"@, "jpeg"@, "webp"@, "bmp"@, "tiff"@]
}

/// Whether a format is a single still image.
pub fn still_format(ext: &str) -> (r: bool)
    ensures
        r == still_formats().contains(ext@),
{
    let list: Vec<&'static str> = vec!["png", "jpg", "jpeg", "webp", "bmp", "tiff"];
    assert(list.deep_view() =~= still_formats());
    holds_word(&list, ext)
}

/// Whether a path names a still image.
pub open spec fn is_still(path: Seq<char>) -> bool {
    extension(path) is Some && still_formats().contains(format_of(path))
}

/// Whether a path names a still image, by its extension.
pub fn still_image(path: &str) -> (r: bool)
    ensures
        r == is_still(path@),
{
    match ext(path) {
        Some(e) => still_format(e.as_str()),
        None => false,
    }
}

/// The arguments of a conversion. A still image gets told that it is one image and not a
/// sequence.
pub open spec fn conversion_argv(
    input: Seq<char>,
    output: Seq<char>,
    overwrite: bool,
    flags: Seq<Seq<char>>,
    still: bool,
) -> Seq<Seq<char>> {
    (if overwrite {
        seq!["-y"@]
    } else {
        seq![]
    }) + seq!["-i"@, input] + flags + (if still {
        seq!["-frames:v"@, "1"@, "-update"@, "1"@]
    } else {
        seq![]
    }) + seq![output]
}

/// A conversion reads its input, has every flag in order, and writes its output last; it replaces
/// what is there only where that is asked for, and takes one frame for a still.
pub proof fn law_what_a_conversion_is_told(
    input: Seq<char>,
    output: Seq<char>,
    overwrite: bool,
    flags: Seq<Seq<char>>,
    still: bool,
)
    ensures
        ({
            let argv = conversion_argv(input, output, overwrite, flags, still);
            let at = if overwrite {
                1int
            } else {
                0
            };
            &&& argv.last() == output
            &&& overwrite ==> argv[0] == "-y"@
            &&& argv[at] == "-i"@ && argv[at + 1] == input
            &&& argv.subrange(at + 2, at + 2 + flags.len()) == flags
            &&& argv.len() == at + 3 + flags.len() + if still {
                4int
            } else {
                0
            }
            &&& still ==> argv.subrange(at + 2 + flags.len(), argv.len() - 1) == seq![
                "-frames:v"@,
                "1"@,
                "-update"@,
                "1"@,
            ]
        }),
{
    let argv = conversion_argv(input, output, overwrite, flags, still);
    let at = if overwrite {
        1int
    } else {
        0
    };
    assert(argv.subrange(at + 2, at + 2 + flags.len()) =~= flags);
    if still {
        assert(argv.subrange(at + 2 + flags.len(), argv.len() - 1) =~= seq![
            "-frames:v"@,
            "1"@,
            "-update"@,
            "1"@,
        ]);
    }
}

/// The arguments of a conversion, where it is known whether the output is a still image.
pub fn conversion_args(
    input: &str,
    output: &str,
    overwrite: bool,
    flags: &Vec<String>,
    still: bool,
) -> (r: Vec<String>)
    ensures
        r.deep_view() == conversion_argv(input@, output@, overwrite, flags.deep_view(), still),
{
    let mut argv: Vec<String> = Vec::new();
    if overwrite {
        push_text(&mut argv, "-y");
    }
    push_text(&mut argv, "-i");
    push_text(&mut argv, input);
    push_texts(&mut argv, flags);
    if still {
        push_words(&mut argv, vec!["-frames:v", "1", "-update", "1"]);
    }
    push_text(&mut argv, output);
    assert(argv.deep_view() =~= conversion_argv(
        input@,
        output@,
        overwrite,
        flags.deep_view(),
        still,
    ));
    argv
}

/// The arguments of a conversion. The container and the codecs follow from the output's
/// extension, steered only by the flags.
pub fn convert_argv(input: &str, output: &str, overwrite: bool, flags: &Vec<String>) -> (r: Vec<
    String,
>)
    ensures
        r.deep_view() == conversion_argv(
            input@,
            output@,
            overwrite,
            flags.deep_view(),
            is_still(output@),
        ),
{
    conversion_args(input, output, overwrite, flags, still_image(output))
}

/// The flags that the plain conversion is steered by.
pub open spec fn convert_flags(args: ConvertArgs) -> Seq<Seq<char>> {
    (if args.remux {
        seq!["-c"@, "copy"@]
    } else {
        seq![]
    }) + match args.bitrate {
        Some(bitrate) => seq!["-b:v"@, bitrate@],
        None => seq![],
    }
}

/// A conversion copies the streams where it only remuxes, and has a bitrate where one is given.
pub proof fn law_the_flags_of_a_conversion(args: ConvertArgs)
    ensures
        args.remux && args.bitrate is None ==> convert_flags(args) == seq!["-c"@, "copy"@],
        !args.remux && args.bitrate is Some ==> convert_flags(args) == seq![
            "-b:v"@,
            (args.bitrate->0)@,
        ],
        !args.remux && args.bitrate is None ==> convert_flags(args) == Seq::<Seq<char>>::empty(),
{
    assert(seq!["-c"@, "copy"@] + seq![] =~= seq!["-c"@, "copy"@]);
    assert(Seq::<Seq<char>>::empty() + seq![] =~= seq![]);
    if args.bitrate is Some {
        assert(Seq::<Seq<char>>::empty() + seq!["-b:v"@, (args.bitrate->0)@] =~= seq![
            "-b:v"@,
            (args.bitrate->0)@,
        ]);
    }
}

/// Convert a media file to another format.
pub fn convert(args: &ConvertArgs) -> (r: Result<Run, String>)
    ensures
        ({
            let output = conversion_output(args.input@, args.output@);
            is_writing(
                r,
                "media_convert"@,
                args.input@,
                output,
                conversion_argv(
                    args.input@,
                    output,
                    args.overwrite,
                    convert_flags(*args),
                    is_still(output),
                ),
            )
        }),
{
    let output: String = convert_output(args.input.as_str(), args.output.as_str());
    let mut flags: Vec<String> = Vec::new();
    if args.remux {
        push_words(&mut flags, vec!["-c", "copy"]);
    }
    if let Some(bitrate) = &args.bitrate {
        push_text(&mut flags, "-b:v");
        push_text(&mut flags, bitrate.as_str());
    }
    assert(flags.deep_view() =~= convert_flags(*args));
    let argv: Vec<String> = convert_argv(
        args.input.as_str(),
        output.as_str(),
        args.overwrite,
        &flags,
    );
    run_writing("media_convert", args.input.as_str(), output, argv)
}

/// A profiled conversion: what is said first, and the run.
pub struct Conversion {
    pub notice: Option<String>,
    pub run: Result<Run, String>,
}

/// What is said where the streams are copied.
pub open spec fn copy_notice() -> Seq<char> {
    "media_convert_quality: the streams already fit this container — copying them bit-identically instead of re-encoding"@
}

/// Convert a media file at maximum fidelity: copying the streams where the container already
/// fits them, else encoding at visually lossless settings.
pub fn convert_quality(
    args: &ProfiledConvertArgs,
    codecs: &Option<Vec<String>>,
    video: &Option<Vec<String>>,
) -> (r: Conversion)
    ensures
        ({
            let output = conversion_output(args.input@, args.output@);
            let format = format_of(output);
            let copied = copies(format, args.h264, codecs.deep_view(), video.deep_view());
            &&& r.notice.deep_view() == (if copied {
                Some(copy_notice())
            } else {
                tuning_notice(format, Profile::Quality, args.h264)
            })
            &&& is_writing(
                r.run,
                "media_convert_quality"@,
                args.input@,
                output,
                conversion_argv(
                    args.input@,
                    output,
                    args.overwrite,
                    if copied {
                        seq!["-c"@, "copy"@]
                    } else {
                        tuning(format, Profile::Quality, args.h264)
                    },
                    is_still(output),
                ),
            )
        }),
{
    let output: String = convert_output(args.input.as_str(), args.output.as_str());
    let tuned: Tuning = if remuxable(output.as_str(), args.h264, codecs, video) {
        let mut flags: Vec<String> = Vec::new();
        push_words(&mut flags, vec!["-c", "copy"]);
        assert(flags.deep_view() =~= seq!["-c"@, "copy"@]);
        Tuning {
            flags,
            notice: Some(
                "media_convert_quality: the streams already fit this container — copying them bit-identically instead of re-encoding".to_owned(),
            ),
        }
    } else {
        profile_flags(output.as_str(), Profile::Quality, args.h264)
    };
    let argv: Vec<String> = convert_argv(
        args.input.as_str(),
        output.as_str(),
        args.overwrite,
        &tuned.flags,
    );
    Conversion {
        notice: tuned.notice,
        run: run_writing("media_convert_quality", args.input.as_str(), output, argv),
    }
}

/// Convert a media file squeezing the visuals down hard; audio stays on its encoder defaults.
pub fn convert_compact(args: &ProfiledConvertArgs) -> (r: Conversion)
    ensures
        ({
            let output = conversion_output(args.input@, args.output@);
            let format = format_of(output);
            &&& r.notice.deep_view() == tuning_notice(format, Profile::Compact, args.h264)
            &&& is_writing(
                r.run,
                "media_convert_compact"@,
                args.input@,
                output,
                conversion_argv(
                    args.input@,
                    output,
                    args.overwrite,
                    tuning(format, Profile::Compact, args.h264),
                    is_still(output),
                ),
            )
        }),
{
    let output: String = convert_output(args.input.as_str(), args.output.as_str());
    let tuned: Tuning = profile_flags(output.as_str(), Profile::Compact, args.h264);
    let argv: Vec<String> = convert_argv(
        args.input.as_str(),
        output.as_str(),
        args.overwrite,
        &tuned.flags,
    );
    Conversion {
        notice: tuned.notice,
        run: run_writing("media_convert_compact", args.input.as_str(), output, argv),
    }
}

// --- trimming -------------------------------------------------------------------------------

/// The arguments of a trim. The seek stands before the input, so that what is skipped is not
/// decoded.
pub open spec fn trimming_argv(
    input: Seq<char>,
    output: Seq<char>,
    duration: Seq<char>,
    overwrite: bool,
    copy: bool,
) -> Seq<Seq<char>> {
    (if overwrite {
        seq!["-y"@]
    } else {
        seq![]
    }) + seq!["-ss"@, duration, "-i"@, input] + (if copy {
        seq!["-c"@, "copy"@]
    } else {
        seq![]
    }) + seq![output]
}

/// Trimming seeks in the input, so before it, by the duration that was given, and writes its output
/// last; it replaces what is there, and copies the streams, only where that is asked for.
pub proof fn law_what_a_trimming_is_told(
    input: Seq<char>,
    output: Seq<char>,
    duration: Seq<char>,
    overwrite: bool,
    copy: bool,
)
    ensures
        ({
            let argv = trimming_argv(input, output, duration, overwrite, copy);
            let at = if overwrite {
                1int
            } else {
                0
            };
            &&& overwrite ==> argv[0] == "-y"@
            &&& argv.subrange(at, at + 4) == seq!["-ss"@, duration, "-i"@, input]
            &&& argv.last() == output
            &&& argv.len() == at + 5 + if copy {
                2int
            } else {
                0
            }
            &&& copy ==> argv[at + 4] == "-c"@ && argv[at + 5] == "copy"@
        }),
{
    let argv = trimming_argv(input, output, duration, overwrite, copy);
    let at = if overwrite {
        1int
    } else {
        0
    };
    assert(argv.subrange(at, at + 4) =~= seq!["-ss"@, duration, "-i"@, input]);
}

/// The arguments of a trim.
pub fn trim_argv(input: &str, output: &str, duration: &str, overwrite: bool, copy: bool) -> (r: Vec<
    String,
>)
    ensures
        r.deep_view() == trimming_argv(input@, output@, duration@, overwrite, copy),
{
    let mut argv: Vec<String> = Vec::new();
    if overwrite {
        push_text(&mut argv, "-y");
    }
    push_text(&mut argv, "-ss");
    push_text(&mut argv, duration);
    push_text(&mut argv, "-i");
    push_text(&mut argv, input);
    if copy {
        push_words(&mut argv, vec!["-c", "copy"]);
    }
    push_text(&mut argv, output);
    assert(argv.deep_view() =~= trimming_argv(input@, output@, duration@, overwrite, copy));
    argv
}

/// Where a trim writes by default: beside the input, with a mark.
pub fn trimmed_output(input: &str) -> (r: String)
    ensures
        r@ == marked(input@, "_trimmed"@),
{
    marked_output(input, "_trimmed")
}

/// Cut the first part off a video or audio file.
pub fn trim_start(args: &TrimStartArgs) -> (r: Result<Run, String>)
    ensures
        ({
            let output = match args.output {
                Some(path) => path@,
                None => marked(args.input@, "_trimmed"@),
            };
            is_writing(
                r,
                "media_trim_start"@,
                args.input@,
                output,
                trimming_argv(args.input@, output, args.duration@, args.overwrite, args.copy),
            )
        }),
{
    let output: String = match &args.output {
        Some(path) => path.clone(),
        None => trimmed_output(args.input.as_str()),
    };
    let argv: Vec<String> = trim_argv(
        args.input.as_str(),
        output.as_str(),
        args.duration.as_str(),
        args.overwrite,
        args.copy,
    );
    run_writing("media_trim_start", args.input.as_str(), output, argv)
}

// --- what holds of every format -------------------------------------------------------------

proof fn lemma_row_from(rows: Seq<KnobsView>, ext: Seq<char>, k: int)
    requires
        0 <= k,
    ensures
        row_from(rows, ext, k) matches Some(found) ==> k <= found < rows.len()
            && rows[found].exts.contains(ext),
    decreases rows.len() - k,
{
    if k < rows.len() && !rows[k].exts.contains(ext) {
        lemma_row_from(rows, ext, k + 1);
    }
}

/// Whether a flag is about audio: it ends in `:a`.
pub open spec fn is_audio_flag(flag: Seq<char>) -> bool {
    ":a"@.is_suffix_of(flag)
}

/// Whether no flag is about audio.
pub open spec fn leaves_audio_alone(flags: Seq<Seq<char>>) -> bool {
    forall|i: int| 0 <= i < flags.len() ==> !is_audio_flag(#[trigger] flags[i])
}

/// The compact profile squeezes the visuals and never touches audio, whatever the format.
pub proof fn law_compact_leaves_audio_alone(ext: Seq<char>, h264: bool)
    ensures
        leaves_audio_alone(tuning(ext, Profile::Compact, h264)),
{
    reveal_strlit(":a");
    reveal_strlit("-c:v");
    reveal_strlit("libx265");
    reveal_strlit("libx264");
    reveal_strlit("-tag:v");
    reveal_strlit("hvc1");
    reveal_strlit("-crf");
    reveal_strlit("34");
    reveal_strlit("32");
    reveal_strlit("50");
    reveal_strlit("-b:v");
    reveal_strlit("0");
    reveal_strlit("-q:v");
    reveal_strlit("20");
    reveal_strlit("15");
    reveal_strlit("-quality");
    reveal_strlit("30");
    lemma_row_from(format_rows(), ext, 0);
    assert forall|k: int| 0 <= k < format_rows().len() implies leaves_audio_alone(
        (#[trigger] format_rows()[k]).compact,
    ) by {
        let flags = format_rows()[k].compact;
        assert forall|i: int| 0 <= i < flags.len() implies !is_audio_flag(#[trigger] flags[i]) by {
            assert(flags[i].last() != 'a');
            lemma_audio_flag_ends(flags[i]);
        }
    }
    let plain = tuning(ext, Profile::Compact, h264);
    assert forall|i: int| 0 <= i < plain.len() implies !is_audio_flag(#[trigger] plain[i]) by {
        if h264 && h265_by_default().contains(ext) {
            assert(plain[i].last() != 'a');
            lemma_audio_flag_ends(plain[i]);
        }
    }
}

proof fn lemma_audio_flag_ends(flag: Seq<char>)
    ensures
        is_audio_flag(flag) ==> flag.last() == 'a',
{
    reveal_strlit(":a");
    if is_audio_flag(flag) {
        let tail = flag.subrange(flag.len() - 2, flag.len() as int);
        assert(tail == ":a"@);
        assert(tail[1] == flag[flag.len() - 1]);
    }
}

/// Asking for H.264 changes nothing for a format that would not encode H.265.
pub proof fn law_h264_matters_only_where_h265_would_be_encoded(ext: Seq<char>, profile: Profile)
    requires
        !h265_by_default().contains(ext),
    ensures
        tuning(ext, profile, true) == tuning(ext, profile, false),
        tuning_notice(ext, profile, true) == tuning_notice(ext, profile, false),
{
}

/// A bare format converts beside the input: what is written has that format as its extension.
pub proof fn law_a_bare_format_becomes_the_extension(input: Seq<char>, format: Seq<char>)
    requires
        crate::paths::has_file_name(input),
        format.len() > 0,
        !format.contains('.'),
        !format.contains('/'),
    ensures
        extension(conversion_output(input, format)) == Some(format),
{
    assert(without_first(format, '.') == format) by {
        if format[0] == '.' {
            assert(format.contains('.'));
        }
    }
    crate::paths::law_a_changed_extension_is_the_extension(input, format);
}

} // verus!
