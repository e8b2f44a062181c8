use bashrs::ai_fingerprint::{
    report_tells, surface_of, tells_epilogue, textual_fingerprint, Family, FingerprintArgs, ProseFile,
    Tell, TellsReport,
};
use bashrs::anti_ai::{
    display_value, embedded_text, is_emoji_use, kind_of, oversize, parse_size, read_plan, report_file,
    report_metadata, scan, scope_note, skip_notice, sniff_length, textual_watermark_detect, visible,
    whole_text, ReadPlan, ScannedFile, WatermarkDetectArgs, SNIFF_BYTES, SPACE,
};
use bashrs::args::{is_skipped, SkipArgs};
use bashrs::metadata::{Finding, Why};
use bashrs::style::{Paint, Palette};

fn red() -> Paint {
    Paint { open: "\x1b[31m".to_string(), close: "\x1b[0m".to_string() }
}

fn palette() -> Palette {
    Palette { problematic: red(), notice: Paint::none(), approved: Paint::none() }
}

fn no_skips() -> SkipArgs {
    SkipArgs { skip_pattern: Vec::new(), lean: false }
}

#[test]
fn the_invisible_carriers_are_recognised_and_ordinary_text_is_not() {
    for (ch, expected) in [
        ('\u{200B}', "zero-width"),
        ('\u{200D}', "zero-width"),
        ('\u{202E}', "bidi"),
        ('\u{E0041}', "tag-char"),
        ('\u{FE0F}', "variation-selector"),
        ('\u{00AD}', "format-control"),
    ] {
        assert_eq!(kind_of(ch), Some(expected), "U+{:04X}", ch as u32);
    }
    for ordinary in ['a', 'Z', ' ', '\t', 'é', '中', '🙂'] {
        assert_eq!(kind_of(ordinary), None, "{ordinary:?} is ordinary text");
    }
}

#[test]
fn exotic_spaces_can_be_silenced_but_default_on() {
    let text = "a\u{00A0}b";
    assert!(scan(text, false, true).is_empty(), "silenced when the flag says so");
    let hits = scan(text, true, true);
    assert_eq!(hits.len(), 1);
    assert_eq!(hits[0].chars[0].kind, SPACE);
}

#[test]
fn every_unicode_space_separator_is_covered_except_the_ordinary_one() {
    let zs = [
        0x00A0_u32, 0x1680, 0x2000, 0x2001, 0x2002, 0x2003, 0x2004, 0x2005, 0x2006, 0x2007, 0x2008,
        0x2009, 0x200A, 0x202F, 0x205F, 0x3000,
    ];
    for cp in zs {
        let ch = char::from_u32(cp).expect("a real codepoint");
        assert_eq!(kind_of(ch), Some(SPACE), "U+{cp:04X} is a space separator");
    }
    assert_eq!(kind_of(' '), None, "U+0020 is what the others normalise TO, not a carrier");
}

#[test]
fn line_separators_are_always_reported_and_do_not_split_our_lines() {
    for cp in ['\u{2028}', '\u{2029}'] {
        assert_eq!(kind_of(cp), Some("line-separator"), "{:04X}", cp as u32);
    }
    let text = "before\u{2028}after";
    assert_eq!(text.lines().count(), 1, "our line splitting does not see the break");
    let hits = scan(text, false, true);
    assert_eq!(hits.len(), 1, "yet it is reported, with spaces silenced");
    assert_eq!(hits[0].chars[0].kind, "line-separator");
}

#[test]
fn a_hit_carries_its_line_number_and_column() {
    let text = "clean line\nhas a \u{200B}carrier\nalso clean";
    let hits = scan(text, false, true);
    assert_eq!(hits.len(), 1, "only the middle line");
    assert_eq!(hits[0].number, 2, "line numbers count from one");
    assert_eq!(hits[0].chars[0].column, 7, "and so do columns");
    assert_eq!(hits[0].chars[0].ch, '\u{200B}');
}

#[test]
fn rendering_makes_the_invisible_visible_in_place() {
    let line = "hi\u{200B}there";
    let hits = scan(line, false, true);
    let shown = visible(line, &hits[0].chars, &red());
    assert!(shown.contains("<U+200B>"), "{shown}");
    assert!(shown.contains("hi") && shown.contains("there"), "{shown}");
    assert_eq!(shown, "hi\x1b[31m<U+200B>\x1b[0mthere");
}

#[test]
fn rendering_marks_exactly_what_was_reported() {
    let line = "a\u{00A0}b\u{200B}c";
    let quiet = scan(line, false, true);
    let shown = visible(line, &quiet[0].chars, &red());
    assert!(shown.contains("<U+200B>"), "the carrier is marked: {shown}");
    assert!(!shown.contains("<U+00A0>"), "the unlisted space is not: {shown}");

    let loud = scan(line, true, true);
    let shown = visible(line, &loud[0].chars, &red());
    assert!(shown.contains("<U+00A0>"), "with spaces on it is both listed and marked");
}

fn summary_names_skips() {
    assert_eq!(scope_note(&no_skips()), "", "a full scan says nothing extra");

    let user = SkipArgs { skip_pattern: vec!["mine/".to_string()], lean: false };
    assert!(scope_note(&user).contains("mine/"));

    let lean = SkipArgs { skip_pattern: vec!["mine/".to_string()], lean: true };
    let note = scope_note(&lean);
    assert!(note.contains("_arg_lean_spec"), "the lean set is referred, not dumped: {note}");
    assert!(note.contains("mine/"), "the user's own patterns stay named: {note}");
}

#[test]
fn anti_ai_the_summary_names_user_skips_and_refers_the_lean_set() {
    summary_names_skips();
}

#[test]
fn ai_fingerprint_the_summary_names_user_skips_and_refers_the_lean_set() {
    summary_names_skips();
}

#[test]
fn emoji_machinery_is_quiet_unless_asked_for() {
    for text in [
        "warn \u{26A0}\u{FE0F} here",
        "fam \u{1F468}\u{200D}\u{1F469}",
        "\u{1F3F4}\u{E0067}\u{E0062}",
    ] {
        assert!(scan(text, false, false).is_empty(), "quiet by default: {text:?}");
        assert!(!scan(text, false, true).is_empty(), "--emoji reports it: {text:?}");
    }
}

#[test]
fn a_joiner_between_ascii_is_still_a_carrier() {
    assert_eq!(scan("a\u{200D}b", false, false).len(), 1, "ASCII neighbours: a carrier");
    assert!(scan("\u{0645}\u{200C}\u{0631}", false, false).is_empty(), "Persian ZWNJ is not");
    assert_eq!(scan("a\u{200B}b", false, false).len(), 1, "ZWSP is always reported");
    assert!(is_emoji_use('\u{FE0F}', None) && !is_emoji_use('\u{200D}', Some('a')));
}

fn sizes_parse() {
    assert_eq!(parse_size("16M"), Ok(16 << 20), "the default spelling");
    assert_eq!(parse_size("16m"), Ok(16 << 20), "suffixes are case-insensitive");
    assert_eq!(parse_size("512K"), Ok(512 << 10));
    assert_eq!(parse_size("1G"), Ok(1 << 30));
    assert_eq!(parse_size("2048"), Ok(2048), "a bare number is bytes");
    assert_eq!(parse_size(" 4M "), Ok(4 << 20), "surrounding space is not an error");
    assert_eq!(parse_size("0"), Ok(0), "a legal way to say `read nothing`");

    for bad in ["", "M", "16T", "sixteen", "16MB", "-1"] {
        assert!(parse_size(bad).is_err(), "{bad:?} should be rejected");
    }
    assert!(parse_size("99999999999999999999G").is_err(), "overflow is an error, not a wrap");
    assert!(parse_size("17179869184G").is_err(), "so is one that only the unit makes");
}

#[test]
fn anti_ai_sizes_parse_in_the_spellings_people_actually_type() {
    sizes_parse();
}

#[test]
fn ai_fingerprint_sizes_parse_in_the_spellings_people_actually_type() {
    sizes_parse();
}

#[test]
fn a_file_is_judged_by_its_first_bytes() {
    assert_eq!(sniff_length(10), 10);
    assert_eq!(sniff_length(1 << 30), SNIFF_BYTES);
    assert_eq!(read_plan(b"a\0b", 3, 100), ReadPlan::Embedded);
    assert_eq!(read_plan(b"abc", 101, 100), ReadPlan::TooBig);
    assert_eq!(read_plan(b"abc", 100, 100), ReadPlan::Whole);
    assert_eq!(whole_text("é".as_bytes()).as_deref(), Some("é"));
    assert_eq!(whole_text(&[0xff, 0xfe, 0xe2, 0x80, 0x8b, 0x00]), None);
    assert_eq!(embedded_text(b""), None);
    assert_eq!(embedded_text(b"name").as_deref(), Some("name"));
    let notice = skip_notice("detect", "big.md", 4096, 1024);
    assert!(notice.starts_with("detect: skipping big.md ("), "{notice}");
}

#[test]
fn reports_name_what_they_found() {
    let hits = scan("x\n\u{200B}y", true, true);
    let report = report_file(&hits, &Paint::none());
    assert!(report.starts_with("  2: "), "{report}");
    assert!(report.contains("U+200B") && report.contains("zero-width"), "{report}");
    assert!(report.ends_with("\n     <U+200B>y\n"), "{report}");
    assert_eq!(display_value("short"), "short");
    let long = "x".repeat(200);
    assert_eq!(display_value(&long), format!("{}… (200 chars)", "x".repeat(160)));
    let findings = vec![Finding {
        field: "XMP CreatorTool".to_string(),
        value: "Tool".to_string(),
        why: Why::ProvenanceField,
    }];
    let said = report_metadata(&findings, &palette());
    assert!(said.contains("XMP CreatorTool") && said.contains("Tool"), "{said}");
}

fn watermark_args() -> WatermarkDetectArgs {
    WatermarkDetectArgs {
        target: ".".to_string(),
        skip: no_skips(),
        skip_spaces: false,
        skip_metadata: false,
        emoji: false,
        max_file_size: 16 << 20,
    }
}

fn scanned(path: &str, text: Option<&str>) -> ScannedFile {
    ScannedFile {
        path: path.to_string(),
        text: text.map(str::to_string),
        bytes: text.map(|t| t.as_bytes().to_vec()),
    }
}

#[test]
fn the_exit_code_says_whether_anything_was_found() {
    let clean = vec![scanned("a.txt", Some("plain")), scanned("b.bin", None)];
    let quiet = textual_watermark_detect(&watermark_args(), &Some(clean), &palette());
    assert_eq!((quiet.exit_code, quiet.report.as_str()), (0, "no hidden characters or AI metadata found\n"));
    let marked = Some(vec![
        scanned("a.txt", Some("x\u{200B}y\u{200B}")),
        scanned("b.md", Some("---\ngenerator: T\n---\n")),
    ]);
    let loud = textual_watermark_detect(&watermark_args(), &marked, &palette());
    assert_eq!(loud.exit_code, 1);
    assert!(loud.report.contains("2 hidden character(s), 1 metadata finding(s) across 2 file(s)"), "{}", loud.report);
    let lost = textual_watermark_detect(&watermark_args(), &None, &palette());
    assert_eq!((lost.exit_code, lost.report.as_str()), (1, ""));
    let target = watermark_args().target;
    assert_eq!(
        lost.complaint,
        Some(format!("anti_ai_textual_watermark_detect: no such path: {target}"))
    );
    assert_eq!(oversize("c", "p", 5, 5), None);
    assert_eq!(oversize("c", "p", 6, 5), Some(skip_notice("c", "p", 6, 5)));
    let mut lax = watermark_args();
    lax.skip_metadata = true;
    assert!(textual_watermark_detect(&lax, &marked, &palette()).report.contains("0 metadata finding(s) across 1 file(s)"));
}

fn family(rank: u32, mark: &str) -> Family {
    Family {
        rank,
        mark: mark.to_string(),
        title: format!("title {mark}"),
        section: "section".to_string(),
        caveat: format!("caveat {mark}"),
    }
}

fn tell(rank: u32, mark: &str) -> Tell {
    Tell {
        family: family(rank, mark),
        line: Some(3),
        detail: "detail".to_string(),
        excerpt: "excerpt".to_string(),
    }
}

fn fingerprint_args(skip_tells: bool) -> FingerprintArgs {
    FingerprintArgs {
        target: ".".to_string(),
        skip: no_skips(),
        skip_spaces: false,
        skip_metadata: false,
        skip_tells,
        emoji: false,
        max_file_size: 16 << 20,
    }
}

#[test]
fn tells_are_listed_and_never_set_the_exit_code() {
    let prose = || TellsReport { tells: vec![tell(2, "B"), tell(1, "A"), tell(2, "B")], words: 100, families: 5 };
    let files = Some(vec![ProseFile {
        path: "a.md".to_string(),
        text: Some("plain".to_string()),
        bytes: None,
        prose: Some(prose()),
    }]);
    let out = textual_fingerprint(&fingerprint_args(false), &files, &palette());
    assert_eq!(out.exit_code, 0);
    assert!(out.report.contains("tells in 1 file(s)"), "{}", out.report);
    let first = out.report.find("caveat A").expect("listed");
    let second = out.report.find("caveat B").expect("listed");
    assert!(first < second, "families stay in order: {}", out.report);
    assert_eq!(out.report.matches("caveat B").count(), 1, "each family once");
    let silent = textual_fingerprint(&fingerprint_args(true), &files, &palette());
    assert!(!silent.report.contains("tells in"), "{}", silent.report);
    assert!(report_tells(&prose(), &Paint::none()).contains("excerpt"));
    assert!(tells_epilogue(0, &vec![], &palette()).starts_with("no writing tells found\n"));
    let lost = textual_fingerprint(&fingerprint_args(false), &None, &palette());
    assert_eq!((lost.exit_code, lost.report.as_str()), (1, ""));
    let target = fingerprint_args(false).target;
    assert_eq!(
        lost.complaint,
        Some(format!("detect_ai_textual_fingerprint: no such path: {target}"))
    );
    assert!(!surface_of("a.MD").surface_is_plain && surface_of("a.rs").surface_is_plain);
}

#[test]
fn a_skip_leaves_out_what_runs_through_it() {
    let skips = |list: &[&str]| list.iter().map(|s| s.to_string()).collect::<Vec<_>>();
    assert!(!is_skipped("/r/target/release/a.md", &skips(&[])));
    assert!(is_skipped("/r/target/release/a.md", &skips(&["target/release"])));
    assert!(is_skipped("/r/.hidden/b.md", &skips(&["mine/", ".hidden/"])));
    assert!(!is_skipped("/r/.hidden.md", &skips(&[".hidden"])), "pieces are whole");
}
