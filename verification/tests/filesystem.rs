use std::collections::HashSet;

use bashrs::filesystem::usage::{
    entry_name, human_size, in_order, missing, scan, usage, usage_row, Met, Stats, UsageRow,
};
use bashrs::filesystem::{
    add_lnk, dir_up, format_listing, is_recursive_flag, lnk_target, lnk_targets, ls_args, name_cell,
    needs_targets, row as listing_row, LllArgs, LnkSearch, Shortcut,
};
use bashrs::style::Paint;

fn red() -> Paint {
    Paint { open: "\x1b[1;31m".to_string(), close: "\x1b[0m".to_string() }
}

fn blue() -> Paint {
    Paint { open: "\x1b[1;34m".to_string(), close: "\x1b[0m".to_string() }
}

fn none() -> Vec<Shortcut> {
    Vec::new()
}

fn one_target(name: &str, target: &str) -> Vec<Shortcut> {
    vec![Shortcut { name: name.to_string(), target: target.to_string() }]
}

/// A realistic data line of a long listing: 7 fields, then `name`.
fn row(name: &str) -> String {
    format!("4 -rw-r--r-- 1 user group 1.2K 2024-01-01_12:00:00 {name}")
}

/// A minimal valid shortcut whose local path is `target`.
fn minimal_lnk(target: &str) -> Vec<u8> {
    let mut b = vec![0u8; 76];
    b[0] = 0x4C;
    b[20] = 0x02;
    let path = target.as_bytes();
    let header_size = 28u32;
    let li = [header_size + path.len() as u32 + 1, header_size, 1, 0, header_size, 0, 0];
    b.extend(li.iter().flat_map(|v| v.to_le_bytes()));
    b.extend_from_slice(path);
    b.push(0);
    b
}

#[test]
fn usage_sizes_read_like_du() {
    assert_eq!(human_size(0), "0B");
    assert_eq!(human_size(512), "512B");
    assert_eq!(human_size(2048), "2.0K");
    assert_eq!(human_size(10 * 1024 * 1024), "10M");
    assert_eq!(human_size(3 * 1024 * 1024 * 1024 / 2), "1.5G");
}

fn float_size(bytes: u64) -> String {
    let units = ["K", "M", "G", "T"];
    if bytes < 1024 {
        return format!("{bytes}B");
    }
    let mut value = bytes as f64 / 1024.0;
    let mut unit = 0;
    while value >= 1024.0 && unit + 1 < units.len() {
        value /= 1024.0;
        unit += 1;
    }
    if value < 10.0 {
        format!("{value:.1}{}", units[unit])
    } else {
        format!("{value:.0}{}", units[unit])
    }
}

#[test]
fn usage_sizes_round_as_double_precision_does() {
    let mut seed: u64 = 88_172_645_463_325_252;
    for shift in 0..64 {
        for _ in 0..20 {
            seed ^= seed << 13;
            seed ^= seed >> 7;
            seed ^= seed << 17;
            let n = seed >> shift;
            assert_eq!(human_size(n), float_size(n), "{n}");
            let half = n / 512 * 512;
            assert_eq!(human_size(half), float_size(half), "{half}");
        }
    }
    assert_eq!(human_size(u64::MAX), float_size(u64::MAX));
}

#[test]
fn row_delimits_metadata_and_keeps_a_simple_name() {
    assert_eq!(
        listing_row(&row("file.txt"), &none(), &red()),
        "4\t-rw-r--r--\t1\tuser\tgroup\t1.2K\t2024-01-01_12:00:00\tfile.txt"
    );
}

#[test]
fn row_keeps_a_spaced_name_as_one_column() {
    assert!(listing_row(&row("my report final.txt"), &none(), &red()).ends_with("\tmy report final.txt"));
}

#[test]
fn row_keeps_a_symlink_arrow_together() {
    assert!(listing_row(&row("link  ->  /path/to/target"), &none(), &red())
        .ends_with("\tlink -> /path/to/target"));
}

#[test]
fn row_collapses_whitespace_runs_in_the_name() {
    assert!(listing_row(&row("two  spaces"), &none(), &red()).ends_with("\ttwo spaces"));
    assert!(listing_row("4 -rw-r--r-- 1 u g 1K date a\tb\tc", &none(), &red()).ends_with("\ta b c"));
}

#[test]
fn row_survives_short_lines() {
    assert_eq!(listing_row("fragment", &none(), &red()), "fragment");
    assert_eq!(listing_row("", &none(), &red()), "");
}

#[test]
fn name_cell_leaves_a_regular_entry_untouched() {
    let colored = "\x1b[01;34mnotes.txt\x1b[0m";
    assert_eq!(name_cell(colored, &none(), &red()), colored);
}

#[test]
fn name_cell_flags_a_lnk_with_its_target_in_red() {
    let cell = name_cell("shortcut.lnk", &one_target("shortcut.lnk", "C:\\app\\x.exe"), &red());
    assert!(cell.contains("(Windows)->"), "marker missing: {cell}");
    assert!(cell.contains("C:\\app\\x.exe"), "target missing: {cell}");
    assert!(cell.contains("\x1b[1;31m"), "should be bold red: {cell}");
}

#[test]
fn name_cell_flags_a_lnk_with_a_question_mark_when_unresolved() {
    let cell = name_cell("mystery.lnk", &none(), &red());
    assert!(cell.contains("(Windows)-> "), "marker missing: {cell}");
    assert!(cell.contains('?'), "unresolved target should show `?`: {cell}");
    assert!(cell.contains("\x1b[1;31m"), "should be bold red: {cell}");
}

#[test]
fn name_cell_detects_lnk_through_ansi_and_type_indicator() {
    let cell = name_cell("\x1b[01;32mrun.lnk\x1b[0m*", &none(), &red());
    assert!(cell.contains("(Windows)->"), "should see .lnk under ANSI + indicator: {cell}");
}

#[test]
fn a_shortcut_in_the_middle_of_a_name_is_none() {
    assert_eq!(name_cell("a.lnk.txt", &none(), &red()), "a.lnk.txt");
    let spaced = name_cell("a.lnk", &one_target("a.lnk", "C:\\my  file"), &red());
    assert_eq!(spaced, "\x1b[1;31ma.lnk\x1b[0m (Windows)-> \x1b[1;31mC:\\my file\x1b[0m");
}

#[test]
fn format_listing_annotates_a_lnk_row_and_drops_total() {
    let listed = format!("total 0\n{}", row("go.lnk"));
    let out = format_listing(&listed, &one_target("go.lnk", "C:\\tools\\go.exe"), &blue(), &red());
    assert_eq!(out.len(), 2, "header + one row");
    assert!(
        out[1].contains("(Windows)->") && out[1].contains("C:\\tools\\go.exe"),
        "row: {}",
        out[1]
    );
}

#[test]
fn format_listing_leads_with_a_header() {
    let listed = format!("total 8\n{}\n{}", row("a.txt"), row("b.txt"));
    let out = format_listing(&listed, &none(), &blue(), &red());
    assert_eq!(out.len(), 3, "header + two files");
    assert!(out[0].contains("Blocks") && out[0].contains("Filename"), "first row is the header");
}

#[test]
fn lnk_target_reads_the_local_base_path() {
    assert_eq!(
        lnk_target(&minimal_lnk("C:\\Users\\me\\file.txt")).as_deref(),
        Some("C:\\Users\\me\\file.txt")
    );
}

#[test]
fn lnk_target_rejects_non_shortcuts_and_pathless_data() {
    assert_eq!(lnk_target(b"not a shortcut at all...."), None);
    assert_eq!(lnk_target(&[]), None);
    let mut no_info = vec![0u8; 76];
    no_info[0] = 0x4C;
    assert_eq!(lnk_target(&no_info), None);
}

#[test]
fn a_shortcut_with_a_list_of_identifiers_is_read_behind_it() {
    let plain = minimal_lnk("D:\\x");
    let mut bytes = plain[..76].to_vec();
    bytes[20] = 0x03;
    bytes.extend([3u8, 0, 9, 9, 9]);
    bytes.extend_from_slice(&plain[76..]);
    assert_eq!(lnk_target(&bytes).as_deref(), Some("D:\\x"));
    let mut lossy = minimal_lnk("ab");
    let at = lossy.len() - 2;
    lossy[at] = 0xff;
    assert_eq!(lnk_target(&lossy).as_deref(), Some("a\u{fffd}"));
}

#[test]
fn targets_are_looked_for_where_a_name_is_one_file() {
    let args = |list: &[&str]| LllArgs { passthrough: list.iter().map(|s| s.to_string()).collect() };
    assert!(matches!(lnk_targets(&args(&[]), false), LnkSearch::Directory(dir) if dir == "."));
    assert!(matches!(lnk_targets(&args(&["-S", "d"]), true), LnkSearch::Directory(dir) if dir == "d"));
    assert!(matches!(lnk_targets(&args(&["f.lnk"]), false), LnkSearch::Single(f) if f == "f.lnk"));
    assert!(matches!(lnk_targets(&args(&["a", "b"]), true), LnkSearch::Nowhere));
    assert!(matches!(lnk_targets(&args(&["-lR"]), false), LnkSearch::Nowhere));
    assert!(is_recursive_flag("--recursive") && is_recursive_flag("-R"));
    assert!(!is_recursive_flag("--Reverse") && !is_recursive_flag("R"));
    let mut found = none();
    add_lnk(&mut found, "d/a.lnk", &Some(minimal_lnk("C:\\a")));
    add_lnk(&mut found, "d/b.txt", &Some(minimal_lnk("C:\\b")));
    add_lnk(&mut found, "d/c.lnk", &None);
    add_lnk(&mut found, "d/e.lnk", &Some(vec![1, 2, 3]));
    assert_eq!(found.len(), 1);
    assert_eq!((found[0].name.as_str(), found[0].target.as_str()), ("a.lnk", "C:\\a"));
}

#[test]
fn the_listing_pins_its_flags_and_passes_the_rest_on() {
    let args = LllArgs { passthrough: vec!["-S".to_string()] };
    assert_eq!(
        ls_args(&args),
        [
            "-tarlushFN",
            "--color=always",
            "--time-style=+%F_%T",
            "--group-directories-first",
            "-S"
        ]
    );
    assert!(needs_targets("x.lnk\n") && !needs_targets("x.txt\n"));
    assert_eq!((dir_up().name, dir_up().body), ("..", "cd .. \"$@\""));
}

fn met(ino: u64, blocks: u64, is_file: bool) -> Met {
    Met { dev: 1, ino, blocks, is_file }
}

#[test]
fn usage_scan_counts_files_and_inodes_and_dedups_hardlinks() {
    // The directory itself, two files, a directory, two symlinks, and a twin of the first file.
    let walk = vec![
        met(1, 8, false),
        met(2, 8, true),
        met(3, 8, false),
        met(4, 8, true),
        met(5, 0, false),
        met(6, 0, false),
        met(2, 8, true),
    ];
    let mut seen = HashSet::new();
    let stats = scan(&walk, &mut seen);
    assert_eq!(stats.files, 2);
    assert_eq!(stats.inodes, 6);
    assert_eq!(stats.bytes, 4 * 8 * 512);
    let again = scan(&walk, &mut seen);
    assert_eq!((again.bytes, again.files, again.inodes), (0, 0, 0), "met before");
    let mut other = HashSet::new();
    let far = vec![Met { dev: 2, ino: 1, blocks: 1, is_file: true }, met(1, 1, true)];
    assert_eq!(scan(&far, &mut other).inodes, 2, "the same inode of another device");
}

fn stats(bytes: u64) -> Stats {
    Stats { bytes, files: 1, inodes: 2 }
}

fn usage_entry(bytes: u64, name: &str) -> UsageRow {
    UsageRow { stats: stats(bytes), name: name.to_string() }
}

#[test]
fn the_table_is_largest_first_with_a_total() {
    let rows = vec![usage_entry(10, "b"), usage_entry(2048, "c"), usage_entry(10, "a")];
    let own = Stats { bytes: 4096, files: 0, inodes: 1 };
    let out = usage(rows, Some(own), &blue());
    assert_eq!(
        out,
        [
            "\x1b[1;34mSize  Files  Inodes  Name\x1b[0m",
            "2.0K  1  2  c",
            "10B  1  2  a",
            "10B  1  2  b",
            "6.0K  3  7  (total)",
        ]
    );
    assert_eq!(usage(vec![usage_entry(1, "f")], None, &blue()).len(), 2, "a file has no total");
    let names: Vec<String> =
        in_order(vec![usage_entry(1, "x"), usage_entry(1, "x"), usage_entry(3, "y")])
            .into_iter()
            .map(|r| r.name)
            .collect();
    assert_eq!(names, ["y", "x", "x"]);
    assert_eq!(usage_row(&stats(1024), "n"), "1.0K  1  2  n");
}

#[test]
fn entries_show_their_name_and_directories_a_slash() {
    assert_eq!(entry_name("/a/b", true), "b/");
    assert_eq!(entry_name("/a/b.txt", false), "b.txt");
    assert_eq!(entry_name("/", true), "//");
    assert_eq!(missing("/x"), "fs_usage: no such path: /x");
}
