use std::collections::BTreeSet;

use bashrs::json::parse_json;
use bashrs::media::audio_fx::{
    audio_channels, channels_argv, devocal_filter, novocals_output, remove_vocals,
    remove_vocals_argv, settle, Removal, RemoveVocalsArgs, Settled,
};
use bashrs::media::images::{
    default_merge_output, hmerge_imgs, image_dimension, max_dimension, merge_argv, merge_filter,
    probe_argv, vmerge_imgs, Axis, HmergeImgsArgs, HorizontalAlign, VerticalAlign, VmergeImgsArgs,
};
use bashrs::media::metadata::{
    bit_rate, clock, fps, human_size, khz, metadata_argv, parse_tags, probe_facts, render_report,
    tags_argv, tags_yamlish, MetadataArgs, StreamShown,
};
use bashrs::media::transcode::{
    all_accepted, convert, convert_argv, convert_compact, convert_output, convert_quality, format_knobs,
    profile_flags, remuxable, stream_codecs, stream_codecs_argv, trim_argv, trim_start,
    trimmed_output, ConvertArgs, Profile, ProfiledConvertArgs, TrimStartArgs,
};
use bashrs::media::{report_saved, run_ffmpeg};
use bashrs::style::Paint;

fn texts(list: &[&str]) -> Vec<String> {
    list.iter().map(|s| s.to_string()).collect()
}

fn flags(output: &str, profile: Profile, h264: bool) -> Vec<String> {
    profile_flags(output, profile, h264).flags
}

fn blue() -> Paint {
    Paint { open: "\x1b[1;34m".to_string(), close: "\x1b[0m".to_string() }
}

fn header(key: &str) -> String {
    blue().paint(key)
}

/// A length in seconds as it is shown.
fn clock_of(seconds: f64) -> String {
    clock(seconds as u64, &format!("{:05.2}", seconds % 60.0))
}

/// A frame rate as it is shown.
fn fps_of(ratio: &str) -> Option<String> {
    let (numerator, denominator) = ratio.split_once('/')?;
    let (numerator, denominator): (f64, f64) = (numerator.parse().ok()?, denominator.parse().ok()?);
    if denominator > 0.0 && numerator > 0.0 {
        Some(fps(&format!("{:.2}", numerator / denominator)))
    } else {
        None
    }
}

fn length_of(text: &Option<String>) -> Option<String> {
    text.as_deref().and_then(|s| s.parse().ok()).map(clock_of)
}

fn report_of(json: &str) -> Option<String> {
    let facts = probe_facts(json)?;
    let shown: Vec<StreamShown> = facts
        .streams
        .iter()
        .map(|s| StreamShown {
            rate: s.r_frame_rate.as_deref().and_then(fps_of),
            length: length_of(&s.duration),
        })
        .collect();
    let length = length_of(&facts.duration);
    Some(render_report(&facts, &length, &shown, &blue()))
}

// --- converting -----------------------------------------------------------------------------

#[test]
fn convert_argv_is_bare_by_default_so_ffmpegs_codec_defaults_apply() {
    assert_eq!(convert_argv("in.mov", "out.mp4", false, &vec![]), ["-i", "in.mov", "out.mp4"]);
}

#[test]
fn convert_argv_splices_tuning_between_input_and_output() {
    let argv = convert_argv("in.mov", "out.mp4", true, &texts(&["-b:v", "2M"]));
    assert_eq!(argv, ["-y", "-i", "in.mov", "-b:v", "2M", "out.mp4"]);
}

#[test]
fn convert_argv_writes_a_still_image_not_a_sequence() {
    let argv = convert_argv("clip.mp4", "shot.PNG", false, &vec![]);
    assert_eq!(argv, ["-i", "clip.mp4", "-frames:v", "1", "-update", "1", "shot.PNG"]);
    assert!(!convert_argv("a.mov", "b.mkv", false, &vec![]).contains(&"-update".to_string()));
}

#[test]
fn quality_profile_maximizes_visuals_and_audio() {
    assert_eq!(
        flags("out.mkv", Profile::Quality, false),
        ["-c:v", "libx265", "-crf", "20", "-b:a", "256k"]
    );
    assert_eq!(
        flags("out.webm", Profile::Quality, false),
        ["-crf", "15", "-b:v", "0", "-b:a", "192k"]
    );
    assert_eq!(flags("pic.webp", Profile::Quality, false), ["-lossless", "1"]);
    assert_eq!(flags("song.mp3", Profile::Quality, false), ["-q:a", "0"]);
}

#[test]
fn compact_profile_squeezes_visuals_but_never_touches_audio() {
    assert_eq!(
        flags("out.mp4", Profile::Compact, false),
        ["-c:v", "libx265", "-tag:v", "hvc1", "-crf", "34"]
    );
    assert_eq!(flags("pic.jpg", Profile::Compact, false), ["-q:v", "15"]);
    let h264 = flags("out.mp4", Profile::Compact, true);
    assert_eq!(h264, ["-c:v", "libx264", "-crf", "32"]);
    assert!(!h264.iter().any(|flag| flag.ends_with(":a")));
    for knobs in format_knobs() {
        assert!(
            !knobs.compact.iter().any(|flag| flag.ends_with(":a")),
            "compact must leave audio on encoder defaults: {:?}",
            knobs.compact
        );
    }
}

#[test]
fn h265_is_the_default_and_the_h264_flag_swaps_it_or_noops() {
    for ext in ["mp4", "mov", "m4v", "mkv"] {
        let flags = flags(&format!("x.{ext}"), Profile::Quality, false);
        assert!(flags.windows(2).any(|pair| pair == ["-c:v", "libx265"]), "{ext}: {flags:?}");
    }
    assert_eq!(
        flags("a.mp4", Profile::Quality, true),
        ["-c:v", "libx264", "-crf", "18", "-b:a", "256k"]
    );
    assert_eq!(flags("a.mkv", Profile::Compact, true), ["-c:v", "libx264", "-crf", "32"]);
    assert_eq!(
        flags("a.webm", Profile::Quality, true),
        flags("a.webm", Profile::Quality, false)
    );
    assert_eq!(flags("p.jpg", Profile::Compact, true), ["-q:v", "15"]);
}

#[test]
fn profile_lookup_is_case_insensitive_and_lossless_formats_have_no_knobs() {
    assert_eq!(
        flags("A.MP4", Profile::Quality, false),
        ["-c:v", "libx265", "-tag:v", "hvc1", "-crf", "20", "-b:a", "256k"]
    );
    for ext in ["png", "gif", "flac", "wav"] {
        let path = format!("x.{ext}");
        assert!(flags(&path, Profile::Quality, false).is_empty(), "{ext}");
        assert!(flags(&path, Profile::Compact, false).is_empty(), "{ext}");
    }
}

#[test]
fn unknown_formats_fall_back_to_encoder_defaults_not_a_refusal() {
    assert!(flags("x.xyz", Profile::Quality, false).is_empty());
    assert!(flags("noext", Profile::Compact, false).is_empty());
}

#[test]
fn an_unknown_format_is_noted() {
    assert_eq!(
        profile_flags("x.xyz", Profile::Quality, false).notice.as_deref(),
        Some("media_convert_quality: no tuning known for `.xyz` — converting on encoder defaults")
    );
    assert_eq!(
        profile_flags("x", Profile::Compact, false).notice.as_deref(),
        Some("media_convert_compact: no tuning known for `.` — converting on encoder defaults")
    );
    assert!(profile_flags("x.mp4", Profile::Quality, true).notice.is_none());
    assert!(profile_flags("x.png", Profile::Quality, true).notice.is_none());
}

#[test]
fn trim_argv_seeks_before_the_input() {
    let argv = trim_argv("in.mp4", "out.mp4", "1.2", false, false);
    assert_eq!(argv, ["-ss", "1.2", "-i", "in.mp4", "out.mp4"]);
    let copy = trim_argv("in.mp4", "out.mp4", "0:05", true, true);
    assert_eq!(copy, ["-y", "-ss", "0:05", "-i", "in.mp4", "-c", "copy", "out.mp4"]);
}

#[test]
fn trimmed_output_lands_beside_the_input() {
    assert_eq!(trimmed_output("dir/clip.mp4"), "dir/clip_trimmed.mp4");
    assert_eq!(trimmed_output("noext"), "noext_trimmed");
}

#[test]
fn accept_lists_admit_only_what_each_container_can_carry() {
    let rows = format_knobs();
    let accepts = |ext: &str| {
        rows.iter().find(|knobs| knobs.exts.contains(&ext)).unwrap().accepts.clone()
    };
    let codecs = texts;
    assert!(all_accepted(&codecs(&["h264", "aac"]), &accepts("mp4")));
    assert!(all_accepted(&codecs(&["hevc", "aac"]), &accepts("mp4")), "h.265 rides in mp4");
    assert!(!all_accepted(&codecs(&["vp9", "opus"]), &accepts("mp4")), "vp9 can't ride in mp4");
    assert!(all_accepted(&codecs(&["vp9", "opus"]), &accepts("webm")));
    assert!(!all_accepted(&codecs(&["h264", "aac"]), &accepts("webm")), "h264 can't ride in webm");
    assert!(all_accepted(&codecs(&["hevc", "flac", "vp9"]), &accepts("mkv")), "matroska takes anything");
    assert!(!all_accepted(&codecs(&["mjpeg", "mp3"]), &accepts("mp3")));
    for ext in ["jpg", "png", "webp", "gif", "wav"] {
        assert!(accepts(ext).is_empty(), "stream-copy into {ext} never makes sense");
    }
}

#[test]
fn all_accepted_requires_streams_and_full_membership() {
    assert!(!all_accepted(&vec![], &vec!["h264"]), "no streams → nothing to copy");
    assert!(!all_accepted(&texts(&["h264"]), &vec![]), "an empty accept-list never copies");
    assert!(all_accepted(&texts(&["anything"]), &vec!["*"]));
}

#[test]
fn remuxable_is_false_when_the_input_cannot_be_probed() {
    assert!(!remuxable("out.mkv", false, &None, &None));
    assert!(!remuxable("out.mkv", true, &None, &None));
}

#[test]
fn a_copy_for_compatibility_wants_h264_already() {
    let both = Some(texts(&["hevc", "aac"]));
    assert!(remuxable("out.mp4", false, &both, &None));
    assert!(!remuxable("out.mp4", true, &both, &Some(texts(&["hevc"]))));
    let plain = Some(texts(&["h264", "aac"]));
    assert!(remuxable("out.mp4", true, &plain, &Some(texts(&["h264"]))));
    assert!(!remuxable("out.mp4", true, &plain, &None));
    assert!(!remuxable("out.xyz", false, &plain, &None), "an unlisted container re-encodes");
}

#[test]
fn format_rows_are_lowercase_and_unique() {
    let mut seen = BTreeSet::new();
    for knobs in format_knobs() {
        for ext in knobs.exts {
            assert_eq!(ext, ext.to_lowercase(), "row extension must be lowercase");
            assert!(seen.insert(ext), "duplicate format row for {ext}");
        }
    }
}

#[test]
fn convert_output_takes_a_bare_format_or_a_full_path() {
    assert_eq!(convert_output("dir/a.mov", "mp4"), "dir/a.mp4");
    assert_eq!(convert_output("a.mov", ".ogg"), "a.ogg");
    assert_eq!(convert_output("a.mov", "out.mp4"), "out.mp4");
    assert_eq!(convert_output("a.mov", "sub/out"), "sub/out");
}

#[test]
fn a_conversion_is_a_run_or_a_refusal() {
    let mut args = ConvertArgs {
        input: "a.mov".to_string(),
        output: "mp4".to_string(),
        overwrite: true,
        bitrate: Some("1M".to_string()),
        remux: false,
    };
    let run = convert(&args).ok().unwrap();
    assert_eq!(run.argv, ["-y", "-i", "a.mov", "-b:v", "1M", "a.mp4"]);
    assert_eq!(run.output, "a.mp4");
    args.bitrate = None;
    args.remux = true;
    assert_eq!(convert(&args).ok().unwrap().argv, ["-y", "-i", "a.mov", "-c", "copy", "a.mp4"]);
    args.output = "mov".to_string();
    assert_eq!(
        convert(&args).err().unwrap(),
        "media_convert: the output is the input itself (a.mov)"
    );
    args.input = "./d/./a.mov".to_string();
    args.output = "./d//a.mov".to_string();
    assert!(convert(&args).is_err(), "the same file, written differently");
}

#[test]
fn the_quality_conversion_copies_what_already_fits() {
    let args = ProfiledConvertArgs {
        input: "a.mkv".to_string(),
        output: "mp4".to_string(),
        overwrite: false,
        h264: false,
    };
    let fits = convert_quality(&args, &Some(texts(&["h264", "aac"])), &None);
    assert!(fits.notice.unwrap().contains("bit-identically"));
    assert_eq!(fits.run.ok().unwrap().argv, ["-i", "a.mkv", "-c", "copy", "a.mp4"]);
    let encodes = convert_quality(&args, &Some(texts(&["vp9"])), &None);
    assert!(encodes.notice.is_none());
    assert_eq!(
        encodes.run.ok().unwrap().argv,
        ["-i", "a.mkv", "-c:v", "libx265", "-tag:v", "hvc1", "-crf", "20", "-b:a", "256k", "a.mp4"]
    );
    let compact = convert_compact(&args);
    assert_eq!(
        compact.run.ok().unwrap().argv,
        ["-i", "a.mkv", "-c:v", "libx265", "-tag:v", "hvc1", "-crf", "34", "a.mp4"]
    );
}

#[test]
fn codecs_are_asked_for_and_read() {
    assert_eq!(
        stream_codecs_argv("a.mkv", false),
        ["-v", "error", "-show_entries", "stream=codec_name", "-of", "csv=p=0", "a.mkv"]
    );
    assert_eq!(
        stream_codecs_argv("a.mkv", true),
        [
            "-v", "error", "-show_entries", "stream=codec_name", "-select_streams", "v", "-of",
            "csv=p=0", "a.mkv"
        ]
    );
    assert_eq!(stream_codecs("h264\naac\n"), ["h264", "aac"]);
}

#[test]
fn a_trim_defaults_its_output_and_is_never_onto_itself() {
    let mut args = TrimStartArgs {
        input: "d/in.mp4".to_string(),
        duration: "1.2".to_string(),
        output: None,
        overwrite: false,
        copy: false,
    };
    let run = trim_start(&args).ok().unwrap();
    assert_eq!(run.output, "d/in_trimmed.mp4");
    assert_eq!(run.argv, ["-ss", "1.2", "-i", "d/in.mp4", "d/in_trimmed.mp4"]);
    args.output = Some("d/in.mp4".to_string());
    assert_eq!(
        trim_start(&args).err().unwrap(),
        "media_trim_start: the output is the input itself (d/in.mp4)"
    );
}

#[test]
fn ffmpeg_is_told_that_there_is_no_standard_input() {
    assert_eq!(run_ffmpeg(&texts(&["-i", "a"])), ["-nostdin", "-i", "a"]);
    assert_eq!(report_saved("/x/a.mp4"), "Saved: /x/a.mp4\n");
}

// --- metadata -------------------------------------------------------------------------------

fn argv_labels_streams() {
    let args = MetadataArgs { file: "clip.mp4".to_string() };
    let argv = metadata_argv(&args);
    assert_eq!(argv.last().unwrap(), "clip.mp4");
    let streams = argv.iter().find(|arg| arg.starts_with("stream=")).expect("stream entries");
    for field in ["codec_type", "pix_fmt", "sample_rate"] {
        assert!(streams.contains(field), "missing {field} in {streams}");
    }
}

#[test]
fn media_metadata_argv_labels_streams_and_ends_with_the_target_file() {
    argv_labels_streams();
}

#[test]
fn metadata_metadata_argv_labels_streams_and_ends_with_the_target_file() {
    argv_labels_streams();
    let args = MetadataArgs { file: "clip.mp4".to_string() };
    assert_eq!(tags_argv(&args), ["-v", "error", "-show_entries", "format_tags", "clip.mp4"]);
}

fn tags_parse() {
    let raw = "[FORMAT]\nTAG:title=[t] PS\nTAG:DESCRIPTION=line one\nline two\nTAG:DATE=20190620\n[/FORMAT]\n";
    let tags = parse_tags(raw);
    assert_eq!((tags[0].key.as_str(), tags[0].value.as_str()), ("title", "[t] PS"));
    assert_eq!((tags[1].key.as_str(), tags[1].value.as_str()), ("description", "line one\nline two"));
    assert_eq!(tags[2].key, "date");
}

#[test]
fn media_ffprobe_tags_parse_including_multiline_values() {
    tags_parse();
}

#[test]
fn metadata_ffprobe_tags_parse_including_multiline_values() {
    tags_parse();
}

fn tags_render() {
    let out = tags_yamlish("TAG:DATE=20190620\nTAG:DESCRIPTION=a\nb\n", &blue());
    assert!(out.contains(": 20190620\n"), "{out}");
    assert!(out.contains(": |\n  a\n  b\n"), "multi-line values become indented blocks: {out}");
    assert_eq!(tags_yamlish("", &blue()), "", "a tag-less file shows nothing, not a placeholder");
}

#[test]
fn media_tags_render_yaml_style_with_block_scalars() {
    tags_render();
}

#[test]
fn metadata_tags_render_yaml_style_with_block_scalars() {
    tags_render();
}

fn report_renders() {
    let json = r#"{
        "streams": [
            {"codec_type": "video", "codec_name": "h264", "width": 640, "height": 480,
             "pix_fmt": "yuv420p", "r_frame_rate": "30000/1001", "nb_frames": "573"},
            {"codec_type": "audio", "codec_name": "aac", "sample_rate": "44100",
             "channels": 2, "r_frame_rate": "0/0", "bit_rate": "127999"},
            {"codec_type": "audio", "codec_name": "opus", "sample_rate": "48000", "channels": 1}
        ],
        "format": {"filename": "clip.mkv", "format_name": "matroska,webm",
                   "size": "5086670", "duration": "19.061000", "bit_rate": "2134940"}
    }"#;
    let out = report_of(json).expect("parses");
    let line = |key: &str, value: &str| format!("{}: {value}\n", header(key));
    assert!(out.starts_with(&line("file", "clip.mkv")), "{out}");
    assert!(out.contains(&line("container", "matroska,webm")), "{out}");
    assert!(out.contains(&line("size", "4.9 MiB")), "{out}");
    assert!(out.contains(&line("duration", "0:00:19.06")), "{out}");
    assert!(out.contains(&line("bit rate", "2.1 Mbit/s")), "{out}");
    assert!(
        out.contains(&line("video", "h264, 640x480, yuv420p, 29.97 fps, 573 frames")),
        "{out}"
    );
    assert!(
        out.contains(&line("audio", "aac, 44.1 kHz, 2 channels, 128 kbit/s")),
        "the 0/0 placeholder rate must not appear: {out}"
    );
    assert!(out.contains(&line("audio 2", "opus, 48 kHz, 1 channel")), "{out}");
    assert!(report_of("not json").is_none());
}

#[test]
fn media_the_report_renders_container_then_streams_in_the_tag_sections_style() {
    report_renders();
}

#[test]
fn metadata_the_report_renders_container_then_streams_in_the_tag_sections_style() {
    report_renders();
}

fn report_skips() {
    let json = r#"{
        "streams": [{"codec_type": "video", "codec_name": "png", "width": 32, "height": 32}],
        "format": {"filename": "pic.png", "format_name": "png_pipe", "size": "512"}
    }"#;
    let out = report_of(json).expect("parses");
    assert!(out.contains(&format!("{}: 512 B\n", header("size"))), "{out}");
    assert!(!out.contains("duration") && !out.contains("bit rate"), "{out}");
    assert!(out.contains(&format!("{}: png, 32x32\n", header("video"))), "{out}");
}

#[test]
fn media_the_report_skips_what_a_file_does_not_have() {
    report_skips();
}

#[test]
fn metadata_the_report_skips_what_a_file_does_not_have() {
    report_skips();
}

fn humanizers() {
    assert_eq!(human_size(512), "512 B");
    assert_eq!(human_size(1024), "1 KiB");
    assert_eq!(human_size(5_086_670), "4.9 MiB");
    assert_eq!(bit_rate(800), "800 bit/s");
    assert_eq!(bit_rate(128_000), "128 kbit/s");
    assert_eq!(bit_rate(2_238_186), "2.2 Mbit/s");
    assert_eq!(khz(800), "800 Hz");
    assert_eq!(khz(44_100), "44.1 kHz");
    assert_eq!(khz(48_000), "48 kHz");
    assert_eq!(clock_of(19.061), "0:00:19.06");
    assert_eq!(clock_of(3661.5), "1:01:01.50");
    assert_eq!(fps_of("30/1").as_deref(), Some("30"));
    assert_eq!(fps_of("30000/1001").as_deref(), Some("29.97"));
    assert_eq!(fps_of("0/0"), None, "the placeholder ratio is not a rate");
}

#[test]
fn media_the_humanizers_pick_sane_units_and_drop_empty_decimals() {
    humanizers();
}

#[test]
fn metadata_the_humanizers_pick_sane_units_and_drop_empty_decimals() {
    humanizers();
}

/// What double-precision arithmetic gives, to hold the integer arithmetic against.
fn float_rate(bits: u64) -> String {
    let mut value = bits as f64;
    let mut unit = "bit/s";
    for bigger in ["kbit/s", "Mbit/s", "Gbit/s"] {
        if value < 1000.0 {
            break;
        }
        value /= 1000.0;
        unit = bigger;
    }
    float_text(value, unit)
}

fn float_text(value: f64, unit: &str) -> String {
    let text = format!("{value:.1}");
    format!("{} {unit}", text.strip_suffix(".0").unwrap_or(&text))
}

fn float_size(bytes: u64) -> String {
    let mut value = bytes as f64;
    let mut unit = "B";
    for bigger in ["KiB", "MiB", "GiB", "TiB"] {
        if value < 1024.0 {
            break;
        }
        value /= 1024.0;
        unit = bigger;
    }
    if unit == "B" {
        format!("{bytes} B")
    } else {
        float_text(value, unit)
    }
}

#[test]
fn numbers_read_as_double_precision_has_them() {
    let mut numbers: Vec<u64> = vec![
        0, 1, 999, 1000, 1001, 1049, 1050, 1051, 1149, 1150, 1250, 1350, 1450, 44_050, 44_150, 44_250,
        999_949, 999_950, 999_999, 1_000_000, 1_049_999, 1_050_000, 1_150_000, 2_250_000, 999_949_999,
        999_950_000, 1_000_000_000, 1_050_000_000, 1_150_000_000, (1 << 53) - 1, 1 << 53, (1 << 53) + 1,
        (1 << 60) + 12_345, u64::MAX - 1, u64::MAX,
    ];
    let mut seed: u64 = 88_172_645_463_325_252;
    for shift in 0..64 {
        for _ in 0..20 {
            seed ^= seed << 13;
            seed ^= seed >> 7;
            seed ^= seed << 17;
            numbers.push(seed >> shift);
            numbers.push((seed >> shift) / 50 * 50);
        }
    }
    for n in numbers {
        assert_eq!(bit_rate(n), float_rate(n), "{n}");
        assert_eq!(human_size(n), float_size(n), "{n}");
        let hz = if n < 1000 { format!("{n} Hz") } else { float_text(n as f64 / 1000.0, "kHz") };
        assert_eq!(khz(n), hz, "{n}");
    }
}

fn argv_reads_format_level() {
    let args = MetadataArgs { file: "clip.mkv".to_string() };
    let argv = metadata_argv(&args);
    assert!(
        argv.contains(&"format=filename,format_name,size,duration,bit_rate".to_string()),
        "{argv:?}"
    );
}

#[test]
fn media_metadata_argv_reads_duration_and_bit_rate_at_format_level_too() {
    argv_reads_format_level();
}

#[test]
fn metadata_metadata_argv_reads_duration_and_bit_rate_at_format_level_too() {
    argv_reads_format_level();
}

#[test]
fn a_json_document_is_read_or_it_is_not() {
    assert!(parse_json("{\"a\": [1, true, null, \"x\"]}").is_some());
    assert!(parse_json("{").is_none());
    assert!(probe_facts("[]").unwrap().streams.is_empty(), "no object: no facts");
    assert_eq!(probe_facts("{\"format\": {\"size\": 12}}").unwrap().size.as_deref(), Some("12"));
    assert_eq!(probe_facts("{\"format\": {\"size\": true}}").unwrap().size, None);
}

// --- vocals ---------------------------------------------------------------------------------

fn vocals(input: &str, output: Option<&str>) -> RemoveVocalsArgs {
    RemoveVocalsArgs {
        input: Some(input.to_string()),
        output: output.map(str::to_string),
        from: 120,
        to: None,
        range_help: false,
        overwrite: false,
    }
}

fn novocals_marks() {
    assert_eq!(novocals_output("a/song.mp3"), "a/song_novocals.mp3");
    assert_eq!(novocals_output("bare"), "bare_novocals");
}

#[test]
fn media_novocals_output_marks_the_name_beside_the_input() {
    novocals_marks();
}

#[test]
fn audio_fx_novocals_output_marks_the_name_beside_the_input() {
    novocals_marks();
}

fn vocals_argv_filters() {
    let filter = devocal_filter(120, None);
    let argv = remove_vocals_argv("in.mkv", "out.mkv", &filter);
    assert_eq!(argv.last().unwrap(), "out.mkv");
    assert!(argv.contains(&"[novocals]".to_string()), "the filtered audio is mapped");
    assert!(argv.contains(&filter), "the built filter graph is passed through");
    for (map, codec) in [("0:v?", "-c:v"), ("0:s?", "-c:s"), ("0:t?", "-c:t")] {
        assert!(argv.contains(&map.to_string()), "optional {map} rides along");
        assert!(argv.contains(&codec.to_string()), "{codec} copy, no re-encode");
    }
}

#[test]
fn media_remove_vocals_argv_filters_audio_and_copies_everything_else() {
    vocals_argv_filters();
}

#[test]
fn audio_fx_remove_vocals_argv_filters_audio_and_copies_everything_else() {
    vocals_argv_filters();
}

fn bands_track() {
    let default = devocal_filter(120, None);
    assert!(default.contains("c0=c0-c1"), "center cancellation is always present");
    assert!(default.contains("lowpass=f=120"), "bass kept below --from: {default}");
    assert!(default.contains("highpass=f=120"), "mids cancelled from --from up: {default}");
    assert!(!default.contains("high_in"), "no treble-keep band without --to: {default}");
    assert_eq!(default.matches("asplit=2").count(), 1, "two branches: mids + low");

    let bounded = devocal_filter(180, Some(9000));
    assert!(bounded.contains("asplit=3"), "three branches: mids + low + high: {bounded}");
    assert!(bounded.contains("highpass=f=9000"), "treble kept above --to: {bounded}");
    assert!(bounded.contains("lowpass=f=9000"), "mids cancelled only up to --to: {bounded}");
    assert!(bounded.contains("highpass=f=180") && bounded.contains("lowpass=f=180"));

    let full_low = devocal_filter(0, None);
    assert!(full_low.contains("asplit=1"), "only the mids branch: {full_low}");
    assert!(!full_low.contains("[low]"), "no low keep when --from is 0: {full_low}");
    assert_eq!(default.matches("lowpass=f=120").count(), 4, "4-pole low edge: {default}");
}

#[test]
fn media_the_devocal_filter_bands_track_from_and_to() {
    bands_track();
}

#[test]
fn audio_fx_the_devocal_filter_bands_track_from_and_to() {
    bands_track();
}

#[test]
fn the_filter_is_spelled_out() {
    assert_eq!(
        devocal_filter(0, Some(9)),
        "[0:a]asplit=2[mids_in][high_in];[mids_in]highpass=f=1,highpass=f=1,highpass=f=1,\
         highpass=f=1,lowpass=f=9,lowpass=f=9,lowpass=f=9,lowpass=f=9,\
         pan=stereo|c0=c0-c1|c1=c1-c0[karaoke];[high_in]highpass=f=9,highpass=f=9,highpass=f=9,\
         highpass=f=9[high];[karaoke][high]amix=inputs=2:normalize=0[novocals]"
    );
}

fn refuses_bad_inputs() {
    let stereo = Some("2\n".to_string());
    let onto_itself = vocals("x.mp3", Some("x.mp3"));
    assert!(remove_vocals(&onto_itself, false, &stereo).err().unwrap().contains("input itself"));

    let mut inverted = vocals("in.mp3", Some("out.mp3"));
    inverted.from = 200;
    inverted.to = Some(150);
    assert!(
        remove_vocals(&inverted, false, &stereo).err().unwrap().contains("must be above"),
        "to<=from is refused"
    );

    let onto_existing = vocals("in.mp3", Some("/tmp/taken.mp3"));
    assert!(remove_vocals(&onto_existing, true, &stereo).err().unwrap().contains("already exists"));
}

#[test]
fn media_remove_vocals_refuses_bad_inputs_before_touching_any_tool() {
    refuses_bad_inputs();
}

#[test]
fn audio_fx_remove_vocals_refuses_bad_inputs_before_touching_any_tool() {
    refuses_bad_inputs();
}

#[test]
fn each_refusal_of_vocal_removal_says_why() {
    let args = vocals("in.mp3", None);
    let mut nothing = vocals("in.mp3", None);
    nothing.input = None;
    assert_eq!(settle(&nothing).err().unwrap(), "no input file given");
    assert!(matches!(settle(&args), Ok(Settled::Paths { output, .. }) if output == "in_novocals.mp3"));
    let mut help = nothing;
    help.range_help = true;
    assert!(matches!(settle(&help), Ok(Settled::RangeHelp)), "the reference needs no input");
    assert!(matches!(remove_vocals(&help, true, &None), Ok(Removal::RangeHelp)));
    assert_eq!(
        remove_vocals(&args, false, &None).err().unwrap(),
        "could not read the file (ffprobe failed)"
    );
    assert_eq!(
        remove_vocals(&args, false, &Some("\n".to_string())).err().unwrap(),
        "the file has no audio stream"
    );
    assert!(remove_vocals(&args, false, &Some("1\n".to_string())).err().unwrap().starts_with("mono"));
    assert!(remove_vocals(&args, false, &Some("6\n".to_string()))
        .err()
        .unwrap()
        .starts_with("6-channel audio"));
    let run = match remove_vocals(&args, false, &Some("2\n".to_string())) {
        Ok(Removal::Run(run)) => run,
        _ => panic!("runs"),
    };
    assert_eq!(run.output, "in_novocals.mp3");
    assert_eq!(run.argv, remove_vocals_argv("in.mp3", "in_novocals.mp3", &devocal_filter(120, None)));
    let mut over = vocals("in.mp3", None);
    over.overwrite = true;
    assert!(remove_vocals(&over, true, &Some("2".to_string())).is_ok());
    assert_eq!(audio_channels(&Some(" 2 ".to_string())).ok(), Some(2));
    assert_eq!(channels_argv("a.mp3").last().unwrap(), "a.mp3");
}

// --- images ---------------------------------------------------------------------------------

fn merge_output_names() {
    let inputs = texts(&["a.png", "dir/b.jpg"]);
    assert_eq!(default_merge_output(Axis::Horizontal, &inputs), "hmerged_a_b.png");
    assert_eq!(default_merge_output(Axis::Vertical, &inputs), "vmerged_a_b.png");
}

#[test]
fn media_default_merge_output_names_the_direction_and_joins_input_stems() {
    merge_output_names();
}

#[test]
fn images_default_merge_output_names_the_direction_and_joins_input_stems() {
    merge_output_names();
}

fn merge_argv_shape() {
    let inputs = texts(&["a.png", "b.png"]);
    let argv = merge_argv(Axis::Horizontal, &inputs, "out.png", false, "0", 64);
    assert_eq!(argv[..4], ["-i", "a.png", "-i", "b.png"]);
    assert_eq!(argv[4], "-filter_complex");
    assert_eq!(argv[5], merge_filter(Axis::Horizontal, 2, 64, "0"));
    assert_eq!(argv[6..], ["-update", "1", "out.png"]);
}

#[test]
fn media_merge_argv_has_one_input_flag_per_image_then_the_filtergraph() {
    merge_argv_shape();
}

#[test]
fn images_merge_argv_has_one_input_flag_per_image_then_the_filtergraph() {
    merge_argv_shape();
}

fn hmerge_pads() {
    let filter = merge_filter(Axis::Horizontal, 3, 1080, "0");
    assert_eq!(filter.matches("pad=w=iw:h=1080:x=0:y=0").count(), 3, "{filter}");
    assert!(filter.contains("[2:v]format=rgba,"), "{filter}");
    assert!(filter.ends_with("[p0][p1][p2]hstack=inputs=3"), "{filter}");
}

#[test]
fn media_hmerge_filter_pads_every_input_to_the_canvas_then_stacks_all() {
    hmerge_pads();
}

#[test]
fn images_hmerge_filter_pads_every_input_to_the_canvas_then_stacks_all() {
    hmerge_pads();
}

fn vmerge_pads() {
    let filter = merge_filter(Axis::Vertical, 2, 640, "(ow-iw)/2");
    assert_eq!(filter.matches("pad=w=640:h=ih:x=(ow-iw)/2:y=0").count(), 2, "{filter}");
    assert!(filter.ends_with("[p0][p1]vstack=inputs=2"), "{filter}");
}

#[test]
fn media_vmerge_filter_pads_widths_and_stacks_vertically() {
    vmerge_pads();
}

#[test]
fn images_vmerge_filter_pads_widths_and_stacks_vertically() {
    vmerge_pads();
}

fn alignments() {
    assert_eq!(VerticalAlign::Top.offset_expr(), "0");
    assert_eq!(VerticalAlign::Middle.offset_expr(), "(oh-ih)/2");
    assert_eq!(VerticalAlign::Bottom.offset_expr(), "oh-ih");
    assert_eq!(HorizontalAlign::Left.offset_expr(), "0");
    assert_eq!(HorizontalAlign::Center.offset_expr(), "(ow-iw)/2");
    assert_eq!(HorizontalAlign::Right.offset_expr(), "ow-iw");
}

#[test]
fn media_alignments_map_to_pad_offset_expressions() {
    alignments();
}

#[test]
fn images_alignments_map_to_pad_offset_expressions() {
    alignments();
}

fn probe_asks() {
    let argv = probe_argv(Axis::Horizontal, "img.png");
    assert_eq!(argv.last().unwrap(), "img.png");
    assert!(argv.contains(&"stream=height".to_string()), "{argv:?}");
    assert!(argv.contains(&"csv=p=0".to_string()), "bare number output: {argv:?}");
    let vertical = probe_argv(Axis::Vertical, "img.png");
    assert!(vertical.contains(&"stream=width".to_string()), "{vertical:?}");
}

#[test]
fn media_probe_argv_asks_for_the_bare_canvas_dimension_of_its_axis() {
    probe_asks();
}

#[test]
fn images_probe_argv_asks_for_the_bare_canvas_dimension_of_its_axis() {
    probe_asks();
}

fn max_bails() {
    let r = max_dimension(Axis::Horizontal, &texts(&["/no/such/image.png"]), &vec![None]);
    assert_eq!(r.err().unwrap(), "media_hmerge_imgs: could not measure /no/such/image.png");
}

#[test]
fn media_max_dimension_reports_and_bails_on_an_unreadable_input() {
    max_bails();
}

#[test]
fn images_max_dimension_reports_and_bails_on_an_unreadable_input() {
    max_bails();
}

#[test]
fn the_canvas_is_the_largest_image() {
    let inputs = texts(&["a", "b", "c"]);
    let printed: Vec<Option<String>> =
        vec![Some("10\n".to_string()), Some("30\n".to_string()), Some("20\n".to_string())];
    assert_eq!(max_dimension(Axis::Vertical, &inputs, &printed).ok(), Some(Some(30)));
    assert_eq!(max_dimension(Axis::Vertical, &vec![], &vec![]).ok(), Some(None));
    assert_eq!(
        image_dimension(Axis::Vertical, "a", &Some("wide\n".to_string())).err().unwrap(),
        "media_vmerge_imgs: unexpected ffprobe size \"wide\\n\" for a"
    );
}

#[test]
fn a_merge_is_a_run_or_says_what_could_not_be_measured() {
    let args = HmergeImgsArgs {
        output: None,
        overwrite: true,
        align: VerticalAlign::Middle,
        inputs: texts(&["a.png", "b.png"]),
    };
    let sizes = vec![Some("10".to_string()), Some("30".to_string())];
    let run = hmerge_imgs(&args, &sizes).ok().unwrap();
    assert_eq!(run.output, "hmerged_a_b.png");
    assert_eq!(
        run.argv,
        merge_argv(Axis::Horizontal, &args.inputs, "hmerged_a_b.png", true, "(oh-ih)/2", 30)
    );
    assert!(hmerge_imgs(&args, &vec![None, None]).err().unwrap().is_some());
    let vertical = VmergeImgsArgs {
        output: Some("o.png".to_string()),
        overwrite: false,
        align: HorizontalAlign::Left,
        inputs: vec![],
    };
    assert!(vmerge_imgs(&vertical, &vec![]).err().unwrap().is_none());
}
