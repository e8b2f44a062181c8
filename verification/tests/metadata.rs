use bashrs::metadata::{
    classify, extract, frontmatter, handles, html_meta, is_provenance_field, jpeg_segments, marker_in,
    marker_of, png_chunks, printable_runs, reason_of, split_nul, split_nul_raw, svg_metadata,
    xmp_findings, yaml_key_value, Finding, Why,
};

#[test]
fn ai_matches_as_a_token_and_never_inside_a_word() {
    for hit in [
        "AI",
        "an AI tool",
        "AI-generated",
        "made by —AI— here",
        "the A.I. did it",
        "ai",
        "Created with AI.",
        "polished by A.I.",
    ] {
        assert!(marker_in(hit).is_some(), "{hit:?} should match");
    }
    for miss in ["maintain", "email chain", "said", "available", "détail", "aid", "air"] {
        assert_eq!(marker_in(miss), None, "{miss:?} must not match");
    }
    for miss in ["mistral.ai", "hosted on x.ai", "we flew to Dubai."] {
        assert_eq!(marker_in(miss), None, "{miss:?} must not match");
    }
}

#[test]
fn a_vendor_matches_anywhere_in_a_text_in_either_case() {
    assert_eq!(marker_in("Made with ANTHROPIC tools"), Some("anthropic".to_string()));
    assert_eq!(marker_in("stable diffusion v1.5"), Some("stable diffusion".to_string()));
    assert_eq!(marker_in("plain description"), None);
}

#[test]
fn a_provenance_field_reports_any_value_and_a_title_needs_a_vendor() {
    let text = "---\ngenerator: SomeUnknownTool 3.1\ntitle: my notes\n---\nbody";
    let found = frontmatter(text, false);
    assert_eq!(found.len(), 1, "{found:?}");
    assert_eq!(found[0].why, Why::ProvenanceField);
    assert!(found[0].field.contains("generator"));

    let with_marker = "---\ntitle: drafted by Anthropic\n---\n";
    let found = frontmatter(with_marker, false);
    assert_eq!(found.len(), 1);
    assert_eq!(found[0].why, Why::Marker("anthropic".to_string()));
}

#[test]
fn folded_prose_is_no_field_and_keeps_its_vendors() {
    let text = "---\nname: my-skill\ndescription: >\n  Remove provenance marks: invisible Unicode,\n  covers Anthropic and friends.\n  <meta generator>: an example, plus Gemini too.\n---\n";
    let found = frontmatter(text, true);
    assert!(
        found.iter().all(|f| !f.field.contains("Remove") && !f.field.contains("<meta")),
        "prose and quoted markup must not become fields: {found:?}"
    );
    assert!(
        found.iter().all(|f| f.value != ">"),
        "a block-scalar indicator is syntax, not a value: {found:?}"
    );
    let markers: Vec<&str> = found
        .iter()
        .filter_map(|f| match &f.why {
            Why::Marker(m) => Some(m.as_str()),
            _ => None,
        })
        .collect();
    assert!(markers.contains(&"anthropic"), "a marker in prose is still found: {found:?}");
    assert!(markers.contains(&"gemini"), "even on a line quoting markup: {found:?}");
    assert!(
        found.iter().filter(|f| f.why == Why::Everything).all(|f| f.field != "frontmatter"),
        "prose only surfaces on a marker match: {found:?}"
    );
}

#[test]
fn report_all_sweeps_up_the_rest_and_says_so() {
    let text = "---\ntitle: my notes\n---\n";
    assert!(frontmatter(text, false).is_empty(), "nothing matches, nothing reported");
    let all = frontmatter(text, true);
    assert_eq!(all.len(), 1);
    assert_eq!(all[0].why, Why::Everything);
}

#[test]
fn a_meta_tag_naming_a_vendor_is_reported() {
    let html = r#"<html><head>
            <meta name="generator" content="Anthropic Artifacts">
            <meta content="unrelated" name="viewport">
        </head></html>"#;
    let found = html_meta(html, false);
    assert_eq!(found.len(), 1, "{found:?}");
    assert_eq!(found[0].why, Why::Marker("anthropic".to_string()));
}

#[test]
fn svg_metadata_blocks_are_scanned_with_tags_stripped() {
    let svg = "<svg><metadata><rdf:RDF><dc:creator>Midjourney</dc:creator></rdf:RDF></metadata></svg>";
    let found = svg_metadata(svg, false);
    assert_eq!(found.len(), 1);
    assert_eq!(found[0].why, Why::Marker("midjourney".to_string()));
}

#[test]
fn png_text_chunks_are_walked_and_software_is_a_provenance_field() {
    let mut png = b"\x89PNG\r\n\x1a\n".to_vec();
    let data = b"Software\0My Own Editor";
    png.extend((data.len() as u32).to_be_bytes());
    png.extend(b"tEXt");
    png.extend(data);
    png.extend([0_u8; 4]);
    let found = png_chunks(&png, false);
    assert_eq!(found.len(), 1, "{found:?}");
    assert_eq!(found[0].why, Why::ProvenanceField);
    assert_eq!(found[0].value, "My Own Editor");

    let mut sd = b"\x89PNG\r\n\x1a\n".to_vec();
    let data = b"parameters\0a cat, masterpiece, 8k";
    sd.extend((data.len() as u32).to_be_bytes());
    sd.extend(b"tEXt");
    sd.extend(data);
    sd.extend([0_u8; 4]);
    assert_eq!(png_chunks(&sd, false).len(), 1, "the SD prompt chunk is provenance");
}

#[test]
fn a_lying_png_length_stops_the_walk_cleanly() {
    let mut png = b"\x89PNG\r\n\x1a\n".to_vec();
    png.extend(u32::MAX.to_be_bytes());
    png.extend(b"tEXt");
    png.extend(b"Software\0x");
    assert!(png_chunks(&png, false).len() <= 1, "no panic, no runaway");
}

#[test]
fn jpeg_xmp_creatortool_is_extracted() {
    let xmp = br#"<x:xmpmeta><rdf:Description xmp:CreatorTool="Adobe Firefly 2.0"/></x:xmpmeta>"#;
    let mut payload = b"http://ns.adobe.com/xap/1.0/\0".to_vec();
    payload.extend_from_slice(xmp);
    let mut jpeg = b"\xff\xd8".to_vec();
    jpeg.push(0xFF);
    jpeg.push(0xE1);
    jpeg.extend(((payload.len() + 2) as u16).to_be_bytes());
    jpeg.extend(&payload);
    jpeg.extend(b"\xff\xda");
    let found = jpeg_segments(&jpeg, false);
    assert_eq!(found.len(), 1, "{found:?}");
    assert_eq!(found[0].field, "XMP CreatorTool");
    assert_eq!(found[0].why, Why::Marker("firefly".to_string()));
    assert_eq!(found[0].value, "Adobe Firefly 2.0");
}

#[test]
fn jpeg_app11_jumbf_is_flagged_as_c2pa() {
    let payload = b"..jumb..";
    let mut jpeg = b"\xff\xd8".to_vec();
    jpeg.push(0xFF);
    jpeg.push(0xEB);
    jpeg.extend(((payload.len() + 2) as u16).to_be_bytes());
    jpeg.extend(payload);
    let found = jpeg_segments(&jpeg, false);
    assert_eq!(found.len(), 1);
    assert_eq!(found[0].why, Why::Marker("c2pa".to_string()));
}

#[test]
fn printable_runs_ignore_short_coincidences() {
    let data = b"\x00\x01ab\x02LongEnoughRun\x03tiny\x04";
    assert_eq!(printable_runs(data), vec!["LongEnoughRun".to_string()]);
}

#[test]
fn unknown_formats_are_skipped_not_guessed() {
    assert!(!handles("x.rs"), "no extractor, no read");
    assert!(handles("x.PNG"), "routing is case-insensitive");
    assert!(extract("x.rs", b"fn main() {}", false).is_none());
    assert_eq!(extract("x.md", b"plain body, no frontmatter", false), Some(Vec::new()));
}

#[test]
fn a_marker_wins_over_a_field_and_a_field_over_everything() {
    assert_eq!(marker_of("made by gemini and grok", None), Some("gemini".to_string()));
    assert_eq!(marker_of("plain", Some("AI".to_string())), Some("AI".to_string()));
    assert_eq!(marker_of("plain", None), None);
    assert!(is_provenance_field("SoftWare") && !is_provenance_field("soft"));
    assert_eq!(
        reason_of("generator", true, Some("grok".to_string())),
        Some(Why::Marker("grok".to_string()))
    );
    assert_eq!(reason_of("Generator", true, None), Some(Why::ProvenanceField));
    assert_eq!(reason_of("title", true, None), Some(Why::Everything));
    assert_eq!(reason_of("title", false, None), None);
    let mut found: Vec<Finding> = Vec::new();
    classify(&mut found, "f", "title", "x", false);
    classify(&mut found, "f", "title", "x", true);
    assert_eq!(found.len(), 1);
}

#[test]
fn pairs_are_told_from_prose() {
    assert_eq!(
        yaml_key_value("title: \"my notes\""),
        Some(("title".to_string(), "\"my notes\"".to_string()))
    );
    assert_eq!(yaml_key_value("  indented: x"), None);
    assert_eq!(yaml_key_value("no colon"), None);
}

#[test]
fn keywords_end_at_the_first_nul() {
    assert_eq!(split_nul(b"k\0v\0w"), Some(("k".to_string(), "v\0w".to_string())));
    assert_eq!(split_nul(b"none"), None);
    assert_eq!(split_nul(b"k\0\xfe"), Some(("k".to_string(), "\u{fffd}".to_string())));
    let (keyword, rest) = split_nul_raw(b"k\0\xfe").unwrap();
    assert_eq!((keyword.as_str(), rest), ("k", &b"\xfe"[..]));
    assert!(split_nul_raw(b"k\xff\0v").is_none(), "a keyword is text");
}

#[test]
fn a_file_that_is_no_text_is_not_searched_as_one() {
    for path in ["x.md", "x.markdown", "x.html", "x.htm", "x.svg"] {
        let found = extract(path, b"---\ngenerator: \xff tool\n---\n", false);
        assert_eq!(found, Some(Vec::new()), "{path} has an extractor, and there is nothing to report");
    }
    assert_eq!(extract("x.md", "---\ngenerator: é\n---\n".as_bytes(), false).unwrap()[0].value, "é");
    assert!(xmp_findings("<x:xmpmeta></x:xmpmeta>", false).is_empty());
}

#[test]
fn the_text_of_an_international_chunk_follows_its_translated_keyword() {
    let read = |data: &[u8]| {
        let mut png = b"\x89PNG\r\n\x1a\n".to_vec();
        png.extend((data.len() as u32).to_be_bytes());
        png.extend(b"iTXt");
        png.extend(data);
        png.extend([0u8; 4]);
        png_chunks(&png, false)
    };
    let found = read(b"Software\0\0\0en\0Logiciel\0GIMP");
    assert_eq!(found.len(), 1, "{found:?}");
    assert_eq!(found[0].field, "PNG iTXt \"Software\"");
    assert_eq!(found[0].value, "GIMP");
    assert_eq!(found[0].why, Why::ProvenanceField);
    assert_eq!(read(b"Software\0\0\0\0\0GIMP")[0].value, "GIMP");
    assert!(read(b"Software\0\x01\0en\0Logiciel\0GIMP").is_empty(), "compressed");
    assert!(read(b"Software\0\0\0en\0Logiciel").is_empty(), "no text");
    assert!(read(b"Software\0\0\0en\0Logiciel\0\xff").is_empty(), "not UTF-8");
}

#[test]
fn the_whole_packet_is_swept_behind_a_named_tool() {
    let found = xmp_findings(r#"<r xmp:CreatorTool="GIMP" dc:creator="Midjourney"/>"#, false);
    assert_eq!(found.len(), 2, "{found:?}");
    assert_eq!(found[0].field, "XMP CreatorTool");
    assert_eq!(found[0].value, "GIMP");
    assert_eq!(found[0].why, Why::ProvenanceField);
    assert_eq!(found[1].field, "XMP packet");
    assert_eq!(found[1].why, Why::Marker("midjourney".to_string()));
    let same = xmp_findings(r#"<r xmp:CreatorTool="Midjourney 6" dc:creator="Midjourney"/>"#, false);
    assert_eq!(same.len(), 1, "a marker that the tool was reported for: {same:?}");
}

#[test]
fn nothing_is_read_from_the_start_of_the_scan_on() {
    let jumbf = b"\xff\xeb\x00\x06jumb";
    let mut before = b"\xff\xd8".to_vec();
    before.extend(jumbf);
    before.extend(b"\xff\xda");
    assert_eq!(jpeg_segments(&before, false).len(), 1);
    before.extend(jumbf);
    assert_eq!(jpeg_segments(&before, false).len(), 1, "what follows the scan is not looked at");
}
