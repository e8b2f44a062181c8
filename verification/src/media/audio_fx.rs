//! Audio effects over a media file's sound: center-channel vocal cancellation across a tunable
//! band of frequencies.

use vstd::prelude::*;
use vstd::string::*;
use super::{marked, marked_output, Run};
use crate::paths::{are_same_path, same_path};
use crate::text::{
    chars_of, decimal, parse_decimal, parse_number, push_decimal, push_text, push_words, trim,
    trimmed,
};

verus! {

/// The arguments of `remove_vocals`.
pub struct RemoveVocalsArgs {
    /// Input file: audio, or video with audio.
    pub input: Option<String>,
    /// Output path; by default beside the input.
    pub output: Option<String>,
    /// Cancel above this frequency; bass below it is kept.
    pub from: u32,
    /// Cancel up to this frequency; treble above it is kept.
    pub to: Option<u32>,
    /// Print the reference for choosing the band instead.
    pub range_help: bool,
    /// Overwrite the output file if it exists.
    pub overwrite: bool,
}

// --- the filter -----------------------------------------------------------------------------

/// One filter at a frequency.
pub open spec fn edge(kind: Seq<char>, hz: nat) -> Seq<char> {
    kind + "=f="@ + decimal(hz)
}

/// Four filters stacked: a crossover edge steep enough to keep vocals from leaking across.
pub open spec fn steep(kind: Seq<char>, hz: nat) -> Seq<char> {
    edge(kind, hz) + ","@ + edge(kind, hz) + ","@ + edge(kind, hz) + ","@ + edge(kind, hz)
}

/// An edge of the band is the same filter four times over.
pub proof fn law_an_edge_is_four_filters(kind: Seq<char>, hz: nat)
    ensures
        ","@ + steep(kind, hz) == Seq::new(
            4,
            |i: int| ","@ + (kind + "=f="@ + decimal(hz)),
        ).flatten(),
{
    let one = kind + "=f="@ + decimal(hz);
    let all = Seq::new(4, |i: int| ","@ + one);
    assert(all =~= Seq::new(4, |i: int| ","@ + (kind + "=f="@ + decimal(hz))));
    reveal_with_fuel(Seq::flatten, 6);
    assert(all =~= seq![","@ + one, ","@ + one, ","@ + one, ","@ + one]);
    assert(all.flatten() =~= ","@ + steep(kind, hz));
}

/// How many branches the sound is split into: the band that is cancelled, and each that is kept.
pub open spec fn branches(from: nat, to: Option<nat>) -> nat {
    1 + (if from > 0 {
        1nat
    } else {
        0
    }) + (if to is Some {
        1nat
    } else {
        0
    })
}

/// `yes` or nothing.
pub open spec fn only_if(condition: bool, yes: Seq<char>) -> Seq<char> {
    if condition {
        yes
    } else {
        seq![]
    }
}

/// The splitting of the sound.
pub open spec fn split_chain(from: nat, to: Option<nat>) -> Seq<char> {
    "[0:a]asplit="@ + decimal(branches(from, to)) + "[mids_in]"@ + only_if(from > 0, "[low_in]"@)
        + only_if(to is Some, "[high_in]"@)
}

/// The band that is cancelled: limited to it, and each channel subtracted from the other.
pub open spec fn mids_chain(from: nat, to: Option<nat>) -> Seq<char> {
    "[mids_in]"@ + steep(
        "highpass"@,
        if from > 0 {
            from
        } else {
            1
        },
    ) + (match to {
        Some(hz) => ","@ + steep("lowpass"@, hz),
        None => seq![],
    }) + ",pan=stereo|c0=c0-c1|c1=c1-c0[karaoke]"@
}

/// The bass that is carried through.
pub open spec fn low_chain(from: nat) -> Seq<char> {
    only_if(from > 0, "[low_in]"@ + steep("lowpass"@, from) + "[low]"@ + ";"@)
}

/// The treble that is carried through.
pub open spec fn high_chain(to: Option<nat>) -> Seq<char> {
    match to {
        Some(hz) => "[high_in]"@ + steep("highpass"@, hz) + "[high]"@ + ";"@,
        None => seq![],
    }
}

/// The mixing of all branches, at unity gain.
pub open spec fn mix_chain(from: nat, to: Option<nat>) -> Seq<char> {
    "[karaoke]"@ + only_if(from > 0, "[low]"@) + only_if(to is Some, "[high]"@) + "amix=inputs="@
        + decimal(branches(from, to)) + ":normalize=0[novocals]"@
}

/// The filter graph for a band. Vocals sit dead-center in a stereo mix, so that subtracting the
/// channels cancels them; only the band is cancelled, and what lies outside is carried through.
pub open spec fn devocal(from: nat, to: Option<nat>) -> Seq<char> {
    split_chain(from, to) + ";"@ + mids_chain(from, to) + ";"@ + low_chain(from) + high_chain(to)
        + mix_chain(from, to)
}

/// As many branches are mixed as the sound was split into: the band that is cancelled, the bass
/// where the band does not begin at the bottom, and the treble where it ends.
pub proof fn law_every_branch_is_mixed(from: nat, to: nat)
    requires
        from > 0,
    ensures
        devocal(0, None) == "[0:a]asplit="@ + decimal(1) + "[mids_in]"@ + ";"@ + ("[mids_in]"@ + steep(
            "highpass"@,
            1,
        ) + ",pan=stereo|c0=c0-c1|c1=c1-c0[karaoke]"@) + ";"@ + ("[karaoke]"@ + "amix=inputs="@
            + decimal(1) + ":normalize=0[novocals]"@),
        devocal(from, None) == "[0:a]asplit="@ + decimal(2) + "[mids_in]"@ + "[low_in]"@ + ";"@ + (
        "[mids_in]"@ + steep("highpass"@, from) + ",pan=stereo|c0=c0-c1|c1=c1-c0[karaoke]"@) + ";"@
            + ("[low_in]"@ + steep("lowpass"@, from) + "[low]"@ + ";"@) + ("[karaoke]"@ + "[low]"@
            + "amix=inputs="@ + decimal(2) + ":normalize=0[novocals]"@),
        devocal(0, Some(to)) == "[0:a]asplit="@ + decimal(2) + "[mids_in]"@ + "[high_in]"@ + ";"@ + (
        "[mids_in]"@ + steep("highpass"@, 1) + (","@ + steep("lowpass"@, to))
            + ",pan=stereo|c0=c0-c1|c1=c1-c0[karaoke]"@) + ";"@ + ("[high_in]"@ + steep(
            "highpass"@,
            to,
        ) + "[high]"@ + ";"@) + ("[karaoke]"@ + "[high]"@ + "amix=inputs="@ + decimal(2)
            + ":normalize=0[novocals]"@),
        devocal(from, Some(to)) == "[0:a]asplit="@ + decimal(3) + "[mids_in]"@ + "[low_in]"@
            + "[high_in]"@ + ";"@ + ("[mids_in]"@ + steep("highpass"@, from) + (","@ + steep(
            "lowpass"@,
            to,
        )) + ",pan=stereo|c0=c0-c1|c1=c1-c0[karaoke]"@) + ";"@ + ("[low_in]"@ + steep(
            "lowpass"@,
            from,
        ) + "[low]"@ + ";"@) + ("[high_in]"@ + steep("highpass"@, to) + "[high]"@ + ";"@) + (
        "[karaoke]"@ + "[low]"@ + "[high]"@ + "amix=inputs="@ + decimal(3)
            + ":normalize=0[novocals]"@),
{
    assert(devocal(0, None) =~= "[0:a]asplit="@ + decimal(1) + "[mids_in]"@ + ";"@ + ("[mids_in]"@
        + steep("highpass"@, 1) + ",pan=stereo|c0=c0-c1|c1=c1-c0[karaoke]"@) + ";"@ + ("[karaoke]"@
        + "amix=inputs="@ + decimal(1) + ":normalize=0[novocals]"@));
    assert(devocal(from, None) =~= "[0:a]asplit="@ + decimal(2) + "[mids_in]"@ + "[low_in]"@ + ";"@ + (
    "[mids_in]"@ + steep("highpass"@, from) + ",pan=stereo|c0=c0-c1|c1=c1-c0[karaoke]"@) + ";"@ + (
    "[low_in]"@ + steep("lowpass"@, from) + "[low]"@ + ";"@) + ("[karaoke]"@ + "[low]"@
        + "amix=inputs="@ + decimal(2) + ":normalize=0[novocals]"@));
    assert(devocal(0, Some(to)) =~= "[0:a]asplit="@ + decimal(2) + "[mids_in]"@ + "[high_in]"@ + ";"@
        + ("[mids_in]"@ + steep("highpass"@, 1) + (","@ + steep("lowpass"@, to))
        + ",pan=stereo|c0=c0-c1|c1=c1-c0[karaoke]"@) + ";"@ + ("[high_in]"@ + steep("highpass"@, to)
        + "[high]"@ + ";"@) + ("[karaoke]"@ + "[high]"@ + "amix=inputs="@ + decimal(2)
        + ":normalize=0[novocals]"@));
}

/// The bound of a band, as a number.
pub open spec fn bound(to: Option<u32>) -> Option<nat> {
    match to {
        Some(hz) => Some(hz as nat),
        None => None,
    }
}

/// Append one filter at a frequency.
fn push_edge(out: &mut String, kind: &str, hz: u32)
    ensures
        final(out)@ == old(out)@ + edge(kind@, hz as nat),
{
    let mut one: String = kind.to_owned();
    one.append("=f=");
    push_decimal(&mut one, hz as u128);
    out.append(one.as_str());
}

/// Append four filters stacked.
fn push_steep(out: &mut String, kind: &str, hz: u32)
    ensures
        final(out)@ == old(out)@ + steep(kind@, hz as nat),
{
    let mut all: String = String::new();
    push_edge(&mut all, kind, hz);
    assert(all@ =~= edge(kind@, hz as nat));
    all.append(",");
    push_edge(&mut all, kind, hz);
    all.append(",");
    push_edge(&mut all, kind, hz);
    all.append(",");
    push_edge(&mut all, kind, hz);
    out.append(all.as_str());
}

/// Append a text where a condition holds.
fn push_if(out: &mut String, condition: bool, yes: &str)
    ensures
        final(out)@ == old(out)@ + only_if(condition, yes@),
{
    if condition {
        out.append(yes);
    } else {
        assert(old(out)@ + seq![] =~= old(out)@);
    }
}

/// The filter graph for a band.
pub fn devocal_filter(from: u32, to: Option<u32>) -> (r: String)
    ensures
        r@ == devocal(from as nat, bound(to)),
{
    let mut count: u128 = 1;
    if from > 0 {
        count += 1;
    }
    if to.is_some() {
        count += 1;
    }
    assert(count == branches(from as nat, bound(to)));
    let mut out: String = "[0:a]asplit=".to_owned();
    push_decimal(&mut out, count);
    out.append("[mids_in]");
    push_if(&mut out, from > 0, "[low_in]");
    push_if(&mut out, to.is_some(), "[high_in]");
    out.append(";");
    let mut mids: String = "[mids_in]".to_owned();
    push_steep(
        &mut mids,
        "highpass",
        if from > 0 {
            from
        } else {
            1
        },
    );
    let ghost before = mids@;
    match to {
        Some(hz) => {
            let mut limit: String = ",".to_owned();
            push_steep(&mut limit, "lowpass", hz);
            mids.append(limit.as_str());
        },
        None => {
            assert(before + seq![] =~= before);
        },
    }
    mids.append(",pan=stereo|c0=c0-c1|c1=c1-c0[karaoke]");
    assert(mids@ == mids_chain(from as nat, bound(to)));
    out.append(mids.as_str());
    out.append(";");
    let mut low: String = "[low_in]".to_owned();
    push_steep(&mut low, "lowpass", from);
    low.append("[low]");
    low.append(";");
    push_if(&mut out, from > 0, low.as_str());
    let ghost before_high = out@;
    match to {
        Some(hz) => {
            let mut high: String = "[high_in]".to_owned();
            push_steep(&mut high, "highpass", hz);
            high.append("[high]");
            high.append(";");
            out.append(high.as_str());
        },
        None => {
            assert(before_high + seq![] =~= before_high);
        },
    }
    let mut mix: String = "[karaoke]".to_owned();
    push_if(&mut mix, from > 0, "[low]");
    push_if(&mut mix, to.is_some(), "[high]");
    mix.append("amix=inputs=");
    push_decimal(&mut mix, count);
    mix.append(":normalize=0[novocals]");
    out.append(mix.as_str());
    out
}

// --- the run --------------------------------------------------------------------------------

/// The arguments of the run: the filtered sound replaces the original, and video, subtitles and
/// attachments are copied where there are any.
pub open spec fn vocals_argv(input: Seq<char>, output: Seq<char>, filter: Seq<char>) -> Seq<
    Seq<char>,
> {
    seq![
        "-v"@,
        "error"@,
        "-y"@,
        "-i"@,
        input,
        "-filter_complex"@,
        filter,
        "-map"@,
        "[novocals]"@,
        "-map"@,
        "0:v?"@,
        "-c:v"@,
        "copy"@,
        "-map"@,
        "0:s?"@,
        "-c:s"@,
        "copy"@,
        "-map"@,
        "0:t?"@,
        "-c:t"@,
        "copy"@,
        output,
    ]
}

/// The arguments of the run. Overwriting is in order here: whether the output may be replaced
/// has been settled.
pub fn remove_vocals_argv(input: &str, output: &str, filter: &str) -> (r: Vec<String>)
    ensures
        r.deep_view() == vocals_argv(input@, output@, filter@),
{
    let mut argv: Vec<String> = Vec::new();
    push_words(&mut argv, vec!["-v", "error", "-y", "-i"]);
    push_text(&mut argv, input);
    push_text(&mut argv, "-filter_complex");
    push_text(&mut argv, filter);
    push_words(
        &mut argv,
        vec![
            "-map",
            "[novocals]",
            "-map",
            "0:v?",
            "-c:v",
            "copy",
            "-map",
            "0:s?",
            "-c:s",
            "copy",
            "-map",
            "0:t?",
            "-c:t",
            "copy",
        ],
    );
    push_text(&mut argv, output);
    assert(argv.deep_view() =~= vocals_argv(input@, output@, filter@));
    argv
}

/// The arguments of the probe for the channels of the first audio stream.
pub fn channels_argv(input: &str) -> (r: Vec<String>)
    ensures
        r.deep_view() == seq![
            "-v"@,
            "error"@,
            "-select_streams"@,
            "a:0"@,
            "-show_entries"@,
            "stream=channels"@,
            "-of"@,
            "csv=p=0"@,
            input@,
        ],
{
    let mut argv: Vec<String> = Vec::new();
    push_words(
        &mut argv,
        vec![
            "-v",
            "error",
            "-select_streams",
            "a:0",
            "-show_entries",
            "stream=channels",
            "-of",
            "csv=p=0",
        ],
    );
    push_text(&mut argv, input);
    assert(argv.deep_view() =~= seq![
        "-v"@,
        "error"@,
        "-select_streams"@,
        "a:0"@,
        "-show_entries"@,
        "stream=channels"@,
        "-of"@,
        "csv=p=0"@,
        input@,
    ]);
    argv
}

/// The channels of the first audio stream, or why they are not known.
pub open spec fn channels_in(printed: Option<Seq<char>>) -> Result<nat, Seq<char>> {
    match printed {
        None => Err("could not read the file (ffprobe failed)"@),
        Some(text) => match parse_decimal(trim(text), u32::MAX as nat) {
            Some(n) => Ok(n),
            None => Err("the file has no audio stream"@),
        },
    }
}

/// The channels of the first audio stream, from what the probe printed.
pub fn audio_channels(printed: &Option<String>) -> (r: Result<u32, String>)
    ensures
        match r {
            Ok(n) => channels_in(printed.deep_view()) == Ok::<nat, Seq<char>>(n as nat),
            Err(why) => channels_in(printed.deep_view()) == Err::<nat, Seq<char>>(why@),
        },
{
    match printed {
        None => Err("could not read the file (ffprobe failed)".to_owned()),
        Some(text) => {
            let cs: Vec<char> = chars_of(text.as_str());
            match parse_number(trimmed(cs.as_slice()), u32::MAX as u64) {
                Some(n) => Ok(n as u32),
                None => Err("the file has no audio stream".to_owned()),
            }
        },
    }
}

/// Where the result is written by default: beside the input, with a mark.
pub fn novocals_output(input: &str) -> (r: String)
    ensures
        r@ == marked(input@, "_novocals"@),
{
    marked_output(input, "_novocals")
}

/// Where the result is written.
pub open spec fn vocals_output(input: Seq<char>, output: Option<Seq<char>>) -> Seq<char> {
    match output {
        Some(path) => path,
        None => marked(input, "_novocals"@),
    }
}

/// What can be refused without looking at any file: nothing given, a band that is upside down,
/// or writing onto the input. What remains is where to read and where to write.
pub open spec fn settled(args: RemoveVocalsArgs) -> Result<(Seq<char>, Seq<char>), Seq<char>> {
    match args.input {
        None => Err("no input file given"@),
        Some(input) => {
            let output = vocals_output(input@, args.output.deep_view());
            if args.to is Some && args.to->0 <= args.from {
                Err(
                    "--to ("@ + decimal(args.to->0 as nat) + " Hz) must be above --from ("@
                        + decimal(args.from as nat)
                        + " Hz) — the cancellation band is from…to"@,
                )
            } else if same_path(output, input@) {
                Err("the output is the input itself — pick another name"@)
            } else {
                Ok((input@, output))
            }
        },
    }
}

/// A run is settled where an input is given, the band is not upside down and the input is not
/// written onto, and nowhere else; it then reads the input and writes the output that was named,
/// or the one beside the input.
pub proof fn law_which_runs_are_settled(args: RemoveVocalsArgs)
    ensures
        settled(args) is Ok <==> args.input is Some && (args.to is None || args.from < args.to->0)
            && !same_path(vocals_output(args.input->0@, args.output.deep_view()), args.input->0@),
        settled(args) matches Ok((input, output)) ==> input == args.input->0@ && (match args.output {
            Some(path) => output == path@,
            None => output == marked(args.input->0@, "_novocals"@),
        }),
{
}

/// What a number of channels is refused for.
pub open spec fn channels_refusal(n: nat) -> Option<Seq<char>> {
    if n == 2 {
        None
    } else if n == 1 {
        Some("mono audio has no center channel to cancel — vocal removal works on stereo mixes"@)
    } else {
        Some(
            decimal(n)
                + "-channel audio isn't supported — downmix to stereo first (surround keeps its voice in a dedicated center channel, a different removal than this one)"@,
        )
    }
}

/// Stereo sound is accepted, and no other.
pub proof fn law_only_stereo_is_accepted(n: nat)
    ensures
        channels_refusal(n) is None <==> n == 2,
{
}

/// What comes of the request: the input, the output and the filter, or the refusal. `exists` is
/// whether the output is there, and `printed` what the probe for the channels said.
pub open spec fn vocals_plan(
    args: RemoveVocalsArgs,
    exists_already: bool,
    printed: Option<Seq<char>>,
) -> Result<(Seq<char>, Seq<char>), Seq<char>> {
    match settled(args) {
        Err(why) => Err(why),
        Ok((input, output)) => if !args.overwrite && exists_already {
            Err("'"@ + output + "' already exists — pass -y/--overwrite to replace it"@)
        } else {
            match channels_in(printed) {
                Err(why) => Err(why),
                Ok(n) => match channels_refusal(n) {
                    Some(why) => Err(why),
                    None => Ok((input, output)),
                },
            }
        },
    }
}

/// What is settled without looking at any file.
pub enum Settled {
    /// The reference for choosing the band is printed, and nothing else is done.
    RangeHelp,
    /// Where to read and where to write.
    Paths { input: String, output: String },
}

/// What is settled without looking at any file: the reference, where it is asked for, before
/// anything can be refused; else where to read and where to write.
pub fn settle(args: &RemoveVocalsArgs) -> (r: Result<Settled, String>)
    ensures
        match r {
            Ok(Settled::RangeHelp) => args.range_help,
            Ok(Settled::Paths { input, output }) => !args.range_help && settled(*args) == Ok::<
                (Seq<char>, Seq<char>),
                Seq<char>,
            >((input@, output@)),
            Err(why) => !args.range_help && settled(*args) == Err::<
                (Seq<char>, Seq<char>),
                Seq<char>,
            >(why@),
        },
{
    if args.range_help {
        return Ok(Settled::RangeHelp);
    }
    let input: &String = match &args.input {
        None => return Err("no input file given".to_owned()),
        Some(input) => input,
    };
    if let Some(to) = args.to {
        if to <= args.from {
            let mut why: String = "--to (".to_owned();
            push_decimal(&mut why, to as u128);
            why.append(" Hz) must be above --from (");
            push_decimal(&mut why, args.from as u128);
            why.append(" Hz) — the cancellation band is from…to");
            return Err(why);
        }
    }
    let output: String = match &args.output {
        Some(path) => path.clone(),
        None => novocals_output(input.as_str()),
    };
    if are_same_path(output.as_str(), input.as_str()) {
        return Err("the output is the input itself — pick another name".to_owned());
    }
    Ok(Settled::Paths { input: input.clone(), output })
}

/// What comes of a request to remove vocals.
pub enum Removal {
    /// The reference for choosing the band is printed, and nothing else is done.
    RangeHelp,
    Run(Run),
}

/// Copy an audio or video file with the vocals removed: the run, or why it is refused. Where the
/// reference is asked for, that is all. Refusals that need no tool come first; the last one needs
/// the probe, since the cancellation is a trick of two channels.
pub fn remove_vocals(args: &RemoveVocalsArgs, exists_already: bool, printed: &Option<String>) -> (r:
    Result<Removal, String>)
    ensures
        match r {
            Ok(Removal::RangeHelp) => args.range_help,
            Ok(Removal::Run(run)) => !args.range_help && vocals_plan(
                *args,
                exists_already,
                printed.deep_view(),
            ) is Ok && ({
                let (input, output) = vocals_plan(
                    *args,
                    exists_already,
                    printed.deep_view(),
                )->Ok_0;
                run.output@ == output && run.argv.deep_view() == vocals_argv(
                    input,
                    output,
                    devocal(args.from as nat, bound(args.to)),
                )
            }),
            Err(why) => !args.range_help && vocals_plan(*args, exists_already, printed.deep_view())
                == Err::<(Seq<char>, Seq<char>), Seq<char>>(why@),
        },
{
    let (input, output) = match settle(args) {
        Ok(Settled::RangeHelp) => return Ok(Removal::RangeHelp),
        Ok(Settled::Paths { input, output }) => (input, output),
        Err(why) => return Err(why),
    };
    if !args.overwrite && exists_already {
        let mut why: String = "'".to_owned();
        why.append(output.as_str());
        why.append("' already exists — pass -y/--overwrite to replace it");
        return Err(why);
    }
    let channels: u32 = match audio_channels(printed) {
        Ok(n) => n,
        Err(why) => return Err(why),
    };
    if channels == 1 {
        return Err(
            "mono audio has no center channel to cancel — vocal removal works on stereo mixes".to_owned(),
        );
    }
    if channels != 2 {
        let mut why: String = String::new();
        push_decimal(&mut why, channels as u128);
        assert(why@ =~= decimal(channels as nat));
        why.append(
            "-channel audio isn't supported — downmix to stereo first (surround keeps its voice in a dedicated center channel, a different removal than this one)",
        );
        return Err(why);
    }
    let filter: String = devocal_filter(args.from, args.to);
    let argv: Vec<String> = remove_vocals_argv(input.as_str(), output.as_str(), filter.as_str());
    Ok(Removal::Run(Run { argv, output }))
}

/// A run is never started onto its own input, nor over a file that is there unless that was
/// asked for, nor on anything but stereo sound.
pub proof fn law_a_run_is_safe(args: RemoveVocalsArgs, exists_already: bool, printed: Option<Seq<char>>)
    ensures
        vocals_plan(args, exists_already, printed) matches Ok(paths) ==> !same_path(
            paths.1,
            paths.0,
        ) && (exists_already ==> args.overwrite) && channels_in(printed) == Ok::<nat, Seq<char>>(2)
            && (args.to matches Some(to) ==> args.from < to),
{
}

} // verus!
