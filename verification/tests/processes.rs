use std::collections::BTreeMap;

use bashrs::processes::hogs::{hog_form, hog_row, hog_shortlists, TOP_HOGS};
use bashrs::processes::hunt::{
    assemble, murder, no_match_text, no_window_text, window_owner_text, Action, Ancestry, Murder,
    MurderArgs, RawProcess,
};
use bashrs::processes::ladder::{
    chosen_windows, close_confirmed, close_failed_text, close_form, close_opening, close_question,
    kill_opening, refused_signal_text, ticked_windows, triage, window_lines, CloseWait, KillStep, Ladder, Rung, GRACE_POLLS,
};
use bashrs::processes::matching::{
    find_ci, highlight, mark_matches, owned_windows, OwnedWindow, OwnedWindows, Window,
};
use bashrs::processes::report::{
    age_label, choose_form, chosen_pids, clip, column_widths, count, mem_label, picked_pid, render,
    ticked_pids, tree_rows, widths_header, FormEnd, FormItem, TickedGroup, TreePalette,
};
use bashrs::processes::stat::{
    cmdline, cpu_ticks, is_alive, passwd_entry, ppid, real_uid, rss_kib, start_ticks, state, user_of,
};
use bashrs::processes::tree::{insert_process, relate, survey, tree_count};
use bashrs::processes::{Field, Process, Relation};
use bashrs::style::Paint;

fn sample(pid: u32, ppid: u32, cmdline: &str) -> Process {
    Process {
        pid,
        ppid,
        user: "me".to_string(),
        name: "proc".to_string(),
        cmdline: cmdline.to_string(),
        exe: None,
        age: 0,
        matched: Vec::new(),
        cpu_order: order_of(0.0),
        cpu_label: "0.0".to_string(),
        rss_kib: None,
        window: None,
        protected: false,
        relation: Relation::Ancestor,
    }
}

/// The place of a share among all shares.
fn order_of(share: f64) -> i64 {
    let bits = share.to_bits() as i64;
    bits ^ (((bits >> 63) as u64) >> 1) as i64
}

fn needles(patterns: &[&str]) -> Vec<String> {
    patterns.iter().map(|p| p.to_string()).collect()
}

fn field_name(field: &Field) -> &'static str {
    match field {
        Field::Pid => "pid",
        Field::Name => "name",
        Field::Cmdline => "cmdline",
        Field::Exe => "exe",
        Field::Window => "window",
    }
}

fn matched(patterns: &[&str], mut process: Process) -> Option<String> {
    mark_matches(&mut process, &needles(patterns), None);
    if process.matched.is_empty() {
        None
    } else {
        Some(process.matched.iter().map(field_name).collect::<Vec<_>>().join(","))
    }
}

fn table(list: Vec<Process>) -> Vec<Process> {
    let mut all = Vec::new();
    for p in list {
        insert_process(&mut all, p);
    }
    all
}

fn plain() -> TreePalette {
    TreePalette { header: Paint::none(), dark: Paint::none(), notice: Paint::none() }
}

fn lines_of(rel: &Vec<Process>, patterns: &[&str], short: bool) -> Vec<String> {
    render(rel, &needles(patterns), short, 100, &plain())
}

// --- reading --------------------------------------------------------------------------------

#[test]
fn start_time_survives_a_hostile_process_name() {
    let fields = |name: &str| {
        let tail: Vec<String> = (4..=52).map(|n| n.to_string()).collect();
        format!("7 ({name}) S {}", tail.join(" "))
    };
    assert_eq!(start_ticks(&fields("bash")), Some(22));
    assert_eq!(start_ticks(&fields("foo (bar) baz")), Some(22));
    assert_eq!(start_ticks(&fields("has space")), Some(22));
    assert_eq!(start_ticks("garbage with no paren"), None);
}

#[test]
fn the_parent_pid_is_read_past_a_hostile_name() {
    assert_eq!(ppid("7 (bash) S 42 3 4 5"), Some(42));
    assert_eq!(ppid("7 (foo (bar) baz) S 42 3 4 5"), Some(42));
    assert_eq!(ppid("nonsense"), None);
}

#[test]
fn the_command_line_is_rebuilt_from_its_nul_separated_parts() {
    assert_eq!(cmdline(b"vim\0-p\0a.txt\0"), "vim -p a.txt");
    assert_eq!(cmdline(b"solo\0"), "solo");
    assert_eq!(cmdline(b""), "");
}

#[test]
fn control_characters_in_arguments_are_defanged() {
    assert_eq!(cmdline(b"evil\nname\0--x\0"), "evil?name --x");
    assert_eq!(cmdline(b"fake\x1b[31mred\0"), "fake?[31mred");
    assert_eq!(cmdline(b"tab\there\0"), "tab?here");
}

#[test]
fn the_owning_uid_is_the_first_of_the_four() {
    let status = "Name:\tbash\nUid:\t1000\t1000\t1000\t1000\nGid:\t1000\t1000\t1000\t1000\n";
    assert_eq!(real_uid(status), Some(1000));
    assert_eq!(real_uid("Name:\tbash\n"), None);
}

#[test]
fn passwd_lines_map_uid_to_name() {
    assert_eq!(passwd_entry("root:x:0:0:root:/root:/bin/bash"), Some((0, "root".to_string())));
    assert_eq!(passwd_entry("me:x:1000:1000::/home/me:/bin/sh"), Some((1000, "me".to_string())));
    assert_eq!(passwd_entry("# a comment"), None);
    assert_eq!(passwd_entry(""), None);
}

#[test]
fn a_process_is_put_together_from_what_was_read() {
    let mut ancestry = Ancestry::new();
    assert_eq!(ancestry.step("7 (bash) S 42 3"), Some(42));
    assert_eq!(ancestry.step("42 (sh) S 42 3"), None, "no process twice");
    assert_eq!(ancestry.step("42 (sh) S 0 3"), None, "nothing above the top");
    assert!(ancestry.contains(42) && !ancestry.contains(7));
    let raw = RawProcess {
        pid: 42,
        comm: "sh\n".to_string(),
        cmdline: b"sh\0-c\0x\0".to_vec(),
        stat: "42 (sh) S 1 3".to_string(),
        status: "Uid:\t1000\t1000\nVmRSS:\t 12 kB\n".to_string(),
        exe: None,
        age: 5,
        cpu_order: 1,
        cpu_label: "0.1".to_string(),
    };
    let passwd = "root:x:0:0::/:/bin/sh\nme:x:1000:1000::/home/me:/bin/sh\n";
    let p = assemble(&raw, passwd, &ancestry);
    assert_eq!((p.name.as_str(), p.cmdline.as_str(), p.user.as_str()), ("sh", "sh -c x", "me"));
    assert_eq!((p.ppid, p.rss_kib, p.protected), (1, Some(12), true));
    assert_eq!(user_of(passwd, 7), "7");
}

// --- matching -------------------------------------------------------------------------------

fn firefox(pid: u32) -> Process {
    let mut process = sample(pid, 1, "/usr/lib/firefox/firefox --profile Default");
    process.name = "Firefox".to_string();
    process.exe = Some("/usr/lib/firefox/firefox".to_string());
    process
}

#[test]
fn matching_is_whole_for_pids_and_partial_for_text() {
    assert_eq!(matched(&["42"], firefox(42)).as_deref(), Some("pid"));
    assert_eq!(matched(&["42"], firefox(1042)), None, "a PID is not a substring search");
    assert_eq!(matched(&["FIREFOX"], firefox(9)).as_deref(), Some("name,cmdline,exe"));
    assert_eq!(matched(&["--profile"], firefox(9)).as_deref(), Some("cmdline"), "arguments count");
    assert_eq!(matched(&["chrome"], firefox(9)), None);
}

#[test]
fn an_ancestors_command_line_is_not_searched() {
    let ancestor = || {
        let mut process = sample(500, 1, "/bin/bash -c murder nonsense");
        process.name = "bash".to_string();
        process.exe = Some("/bin/bash".to_string());
        process.protected = true;
        process
    };
    assert!(matched(&["nonsense"], ancestor()).is_none(), "the invocation is not a match");
    assert_eq!(
        matched(&["bash"], ancestor()).as_deref(),
        Some("name,exe"),
        "name and exe still count; the cmdline is the one field withheld"
    );
    assert_eq!(matched(&["500"], ancestor()).as_deref(), Some("pid"));
}

#[test]
fn ages_read_as_the_two_units_that_matter() {
    assert_eq!(age_label(9), "9s");
    assert_eq!(age_label(90), "1m30s");
    assert_eq!(age_label(3_700), "1h1m");
    assert_eq!(age_label(275_400), "3d4h");
}

#[test]
fn highlighting_finds_the_pattern_whatever_its_case() {
    let out = highlight("Firefox --Profile", &needles(&["profile"]));
    assert!(out.contains("\x1b[30;41m"), "the g-style match block: {out:?}");
    assert!(out.contains("Profile"), "the ORIGINAL spelling is what glows: {out:?}");
    assert_eq!(highlight("no hit here", &needles(&["zzz"])), "no hit here", "untouched when absent");
    assert_eq!(highlight("text", &needles(&[""])), "text", "an empty needle highlights nothing");
}

#[test]
fn every_occurrence_glows_not_just_the_first() {
    let out = highlight("aXbXc", &needles(&["x"]));
    assert_eq!(out.matches("\x1b[30;41m").count(), 2, "{out:?}");
}

#[test]
fn several_needles_glow_without_matching_the_colour_codes() {
    let out = highlight("port 30 of firefox", &needles(&["firefox", "30"]));
    assert_eq!(out.matches("\x1b[30;41m").count(), 2, "one block each: {out:?}");
    let merged = highlight("firefox", &needles(&["fire", "refox"]));
    assert_eq!(merged.matches("\x1b[30;41m").count(), 1, "{merged:?}");
    assert!(merged.contains("firefox"), "the whole word glows once: {merged:?}");
}

#[test]
fn every_pattern_must_match_for_the_process_to_count() {
    assert_eq!(
        matched(&["firefox", "--profile"], firefox(9)).as_deref(),
        Some("name,cmdline,exe"),
        "both landed; the fields are the union, deduplicated"
    );
    assert_eq!(
        matched(&["firefox", "9"], firefox(9)).as_deref(),
        Some("name,cmdline,exe,pid"),
        "one pattern by text, the other by PID"
    );
    assert_eq!(matched(&["firefox", "chrome"], firefox(9)), None, "one miss disqualifies");
    assert_eq!(matched(&["firefox", "42"], firefox(9)), None, "a wrong PID disqualifies too");
}

#[test]
fn case_insensitive_search_respects_multibyte_boundaries() {
    assert_eq!(find_ci("çat cAt", "cat"), Some((5, 3)), "the ç is not a c");
    assert_eq!(find_ci("ÜNICODE", "ünicode"), Some((0, 8)), "folded across cases");
    assert_eq!(find_ci("plain", "zzz"), None);
}

// --- the tree -------------------------------------------------------------------------------

/// A small world: init(1) → bash(100) → {match(200) → child(300), match(250)}.
fn world() -> Vec<Process> {
    table(vec![
        sample(1, 0, "init"),
        sample(100, 1, "bash"),
        sample(200, 100, "target --alpha"),
        sample(300, 200, "target-worker"),
        sample(250, 100, "target --beta"),
        sample(999, 1, "unrelated"),
    ])
}

fn relation(rel: &[Process], pid: u32) -> Option<Relation> {
    rel.iter().find(|p| p.pid == pid).map(|p| p.relation)
}

#[test]
fn one_lineage_prints_once_with_every_relation_labelled() {
    let relevant = relate(&world(), &vec![200, 250]);
    assert_eq!(relation(&relevant, 200), Some(Relation::Match));
    assert_eq!(relation(&relevant, 250), Some(Relation::Match));
    assert_eq!(relation(&relevant, 300), Some(Relation::Descendant), "killing 200 takes 300 with it");
    assert_eq!(relation(&relevant, 100), Some(Relation::Ancestor));
    assert_eq!(relation(&relevant, 1), Some(Relation::Ancestor));
    assert_eq!(relation(&relevant, 999), None, "not in any match's lineage");

    let lines = lines_of(&relevant, &["target"], false);
    for pid in ["100", "200", "250", "300"] {
        let rows = lines.iter().filter(|l| l.contains(&format!("{pid} "))).count();
        assert_eq!(rows, 1, "pid {pid} must appear exactly once:\n{lines:#?}");
    }
    assert_eq!(
        lines.iter().filter(|l| l.contains("├─ ") || l.contains("└─ ")).count(),
        4,
        "{lines:#?}"
    );
}

#[test]
fn a_process_between_two_matches_counts_as_a_descendant() {
    let mut all = world();
    insert_process(&mut all, sample(210, 200, "middleman"));
    insert_process(&mut all, sample(220, 210, "target --gamma"));
    let relevant = relate(&all, &vec![200, 220]);
    assert_eq!(relation(&relevant, 210), Some(Relation::Descendant));
}

#[test]
fn commands_print_in_full_and_matches_glow() {
    let long = format!("daemon --with {} --profile target", "x".repeat(300));
    let all = table(vec![sample(1, 0, "init"), sample(50, 1, &long)]);
    let relevant = relate(&all, &vec![50]);
    let lines = lines_of(&relevant, &["target"], false);
    let row = lines.iter().find(|l| l.contains("daemon")).expect("the match row");
    assert!(row.contains(&"x".repeat(300)), "nothing may be truncated");
    assert!(row.contains("\x1b[30;41m"), "the match glows in place: {row:?}");
}

#[test]
fn an_invisible_match_names_the_field_that_hit() {
    let mut process = sample(70, 1, "/proc/self/exe --type=utility");
    process.name = "mullvad-gui".to_string();
    process.exe = Some("/opt/Mullvad VPN/mullvad-gui".to_string());
    mark_matches(&mut process, &needles(&["mullvad"]), None);
    let relevant = relate(&table(vec![sample(1, 0, "init"), process]), &vec![70]);
    let lines = lines_of(&relevant, &["mullvad"], false);
    let row = lines.iter().find(|l| l.contains("/proc/self/exe")).expect("the match row");
    assert!(row.contains("name:") && row.contains("exe:"), "the hidden hits are named: {row:?}");
    assert!(row.contains("\x1b[30;41m"), "and they glow: {row:?}");
}

#[test]
fn a_pid_match_glows_in_the_pid_column() {
    let mut process = sample(77, 1, "quiet-daemon");
    mark_matches(&mut process, &needles(&["77"]), None);
    let relevant = relate(&table(vec![sample(1, 0, "init"), process]), &vec![77]);
    let lines = lines_of(&relevant, &["77"], false);
    let row = lines.iter().find(|l| l.contains("quiet-daemon")).expect("the match row");
    assert!(row.contains("\x1b[30;41m77"), "the PID cell carries the glow: {row:?}");
}

#[test]
fn a_survey_marks_and_relates() {
    let (relevant, hits) = survey(&world(), &needles(&["target"]), None);
    assert_eq!(hits, 3);
    assert_eq!(relation(&relevant, 300), Some(Relation::Match));
    assert_eq!(relevant.len(), 5);
}

// --- terminating ----------------------------------------------------------------------------

#[test]
fn triage_spares_init_ancestry_and_kernel_threads() {
    let mut init = sample(1, 0, "init");
    init.relation = Relation::Match;
    let mut own_shell = sample(90, 1, "bash");
    own_shell.protected = true;
    let kernel_thread = {
        let mut kt = sample(55, 2, "");
        kt.name = "kworker/0:1".to_string();
        kt
    };
    let ordinary = sample(300, 90, "stale-daemon --serve");
    let sorted = triage(&vec![init, own_shell, kernel_thread, ordinary]);
    assert_eq!(sorted.killable, [300]);
    let reasons: BTreeMap<u32, &str> = sorted.refused.iter().map(|r| (r.pid, r.why)).collect();
    assert!(reasons[&1].contains("PID 1"));
    assert!(reasons[&90].contains("ancestry"));
    assert!(reasons[&55].contains("kernel thread"));
}

#[test]
fn counts_decline_their_nouns() {
    assert_eq!(count(1, "process", "processes"), "1 process");
    assert_eq!(count(4, "process", "processes"), "4 processes");
    assert_eq!(count(0, "process-tree", "process-trees"), "0 process-trees");
}

fn match_pids(rel: &[Process]) -> Vec<u32> {
    rel.iter().filter(|p| p.relation == Relation::Match).map(|p| p.pid).collect()
}

#[test]
fn the_tree_count_is_of_independent_kill_roots() {
    let siblings = relate(&world(), &vec![200, 250]);
    assert_eq!(tree_count(&siblings, &match_pids(&siblings)), 2, "unrelated siblings: two trees");
    let nested = relate(&world(), &vec![200, 300]);
    assert_eq!(tree_count(&nested, &match_pids(&nested)), 1, "a match inside a match: one tree");
}

#[test]
fn cpu_ticks_and_rss_read_their_fields() {
    let tail: Vec<String> = (4..=52).map(|n| n.to_string()).collect();
    let stat = format!("7 (foo (bar) baz) S {}", tail.join(" "));
    assert_eq!(cpu_ticks(&stat), Some(29));
    assert_eq!(cpu_ticks("garbage"), None);
    assert_eq!(rss_kib("Name:\tx\nVmRSS:\t  51300 kB\n"), Some(51_300));
    assert_eq!(rss_kib("Name:\tkworker\n"), None, "kernel threads own no user memory");
}

#[test]
fn memory_reads_in_the_unit_that_fits() {
    assert_eq!(mem_label(800), "800KB");
    assert_eq!(mem_label(51_300), "50.1MB");
    assert_eq!(mem_label(2_202_010), "2.1GB");
}

#[test]
fn the_window_filter_is_a_conjunct_like_any_pattern() {
    let owned = vec![OwnedWindows {
        pid: 9,
        windows: vec![OwnedWindow { id: 0xC0FFEE, title: "Site That Breaks - Browser".to_string() }],
    }];
    let mut with_window = sample(9, 1, "/usr/lib/firefox/firefox");
    mark_matches(&mut with_window, &vec![], Some(&owned));
    assert_eq!(with_window.matched, [Field::Window], "a window match alone suffices");
    assert_eq!(with_window.window.as_deref(), Some("Site That Breaks - Browser"));

    let mut without = sample(10, 1, "/usr/lib/firefox/firefox");
    mark_matches(&mut without, &needles(&["firefox"]), Some(&owned));
    assert!(without.matched.is_empty(), "text hit, but owns no matched window");

    let mut half = sample(9, 1, "/usr/lib/firefox/firefox");
    mark_matches(&mut half, &needles(&["chrome"]), Some(&owned));
    assert!(half.matched.is_empty(), "window hit, but a text pattern missed");
}

#[test]
fn short_mode_clips_the_command_to_the_window() {
    let long = format!("daemon {} --profile target", "x".repeat(300));
    let mut process = sample(50, 1, &long);
    mark_matches(&mut process, &needles(&["target"]), None);
    let relevant = relate(&table(vec![sample(1, 0, "init"), process]), &vec![50]);
    let full = lines_of(&relevant, &["target"], false);
    let clipped = lines_of(&relevant, &["target"], true);
    let row = |lines: &[String]| lines.iter().find(|l| l.contains("daemon")).unwrap().clone();
    assert!(row(&full).contains(&"x".repeat(300)), "unclipped shows everything");
    assert!(!row(&clipped).contains(&"x".repeat(100)), "clipped does not");
    assert!(row(&clipped).contains('…'), "and says something was removed: {:?}", row(&clipped));
    assert_eq!(clip("abc", 3), "abc");
    assert_eq!(clip("abcd", 3), "ab…");
}

#[test]
fn a_termination_asks_first_and_names_the_spared() {
    let mut rel = relate(&world(), &vec![1, 200, 250]);
    rel[0].relation = Relation::Match;
    let asked = kill_opening(&rel, true, true, &Paint::none());
    assert!(asked.notices[0].starts_with("murder: sparing PID '1' — "), "{:?}", asked.notices);
    assert!(matches!(asked.step, KillStep::Ask { targets, .. } if targets == [200, 250]));
    let told = kill_opening(&rel, false, true, &Paint::none());
    assert!(matches!(told.step, KillStep::Stop(_)), "nobody can be asked");
    let confirmed = kill_opening(&rel, true, false, &Paint::none());
    assert!(matches!(confirmed.step, KillStep::Go { targets, .. } if targets == [200, 250]));
    let denied = refused_signal_text(7, "EPERM", true, &Paint::none());
    assert_eq!(denied, "murder: 7 refused the signal: EPERM (not yours — sudo?)");
}

#[test]
fn the_hammer_falls_only_after_the_grace_period() {
    let mut ladder = Ladder::new(vec![7, 8]);
    assert_eq!(ladder.poll(&vec![true, false]), Rung::Wait);
    for _ in 1..GRACE_POLLS {
        assert_eq!(ladder.poll(&vec![true]), Rung::Wait);
    }
    assert_eq!(ladder.poll(&vec![true]), Rung::Kill);
    assert_eq!(
        ladder.report(&Paint::none()),
        "murder: 1 went on SIGTERM; 1 ignored it and got SIGKILL: 7"
    );
    let mut prompt = Ladder::new(vec![7]);
    assert_eq!(prompt.poll(&vec![false]), Rung::Done);
    assert_eq!(prompt.report(&Paint::none()), "murder: 1 process terminated");
}

#[test]
fn windows_are_closed_and_the_stubborn_are_named() {
    let windows = vec![
        Window { id: 1, pid: 200, title: "My Target".to_string() },
        Window { id: 2, pid: 200, title: "other".to_string() },
        Window { id: 3, pid: 250, title: "target too".to_string() },
    ];
    let owned = owned_windows(&windows, "target");
    assert_eq!(owned.iter().map(|o| o.pid).collect::<Vec<_>>(), [200, 250]);
    let (relevant, hits) = survey(&world(), &vec![], Some(&owned));
    assert_eq!(hits, 2);
    let opening = close_opening(&relevant, &owned, true, &Paint::none());
    assert_eq!((opening.targets.len(), opening.apps, opening.stop), (2, 2, None));
    assert_eq!(window_lines(&opening.targets)[0], "1 · My Target");
    assert_eq!(chosen_windows(&opening.targets, &vec![3]).len(), 1);
    let form = close_form(&opening.targets);
    assert_eq!(form.title, "murder — tick the windows to close");
    assert!(matches!(&form.items[0], FormItem::Checkboxes { label, options }
        if label.is_empty() && options[0] == "1 · My Target"));
    let group = |checked: Vec<bool>| {
        vec![TickedGroup { options: window_lines(&opening.targets), checked }]
    };
    let tick = |end: FormEnd, checked: Vec<bool>| {
        ticked_windows(&end, &group(checked), &opening.targets)
            .map(|chosen| chosen.iter().map(|w| w.id).collect::<Vec<_>>())
    };
    assert_eq!(tick(FormEnd::Submitted, vec![false, true]), Ok(vec![3]));
    assert_eq!(
        tick(FormEnd::Submitted, vec![false, false]),
        Err("murder: nothing ticked — nothing to close".to_string())
    );
    assert_eq!(
        tick(FormEnd::Cancelled, vec![true, true]),
        Err("murder: aborted — nothing chosen".to_string())
    );
    assert_eq!(tick(FormEnd::Failed("no tty".to_string()), vec![]), Err("murder: no tty".to_string()));
    assert_eq!(close_confirmed(&opening.targets, true), [1, 3]);
    assert!(close_confirmed(&opening.targets, false).is_empty());
    assert_eq!(close_failed_text("no display", &Paint::none()), "murder: no display");
    assert!(close_question(2, 1).starts_with("Close 2 windows? The owning app keeps"));
    let mut wait = CloseWait::new(&opening.targets);
    assert!(wait.poll(&vec![3, 9]));
    assert!(wait.report(&opening.targets, &Paint::none()).starts_with("murder: 1 window closed; still open: target too"));
    assert!(!wait.poll(&vec![]));
    assert_eq!(wait.report(&opening.targets, &Paint::none()), "murder: 2 windows closed");
}

// --- the heaviest processes -----------------------------------------------------------------

fn hog(pid: u32, cpu: f64, rss: Option<u64>) -> Process {
    let mut process = sample(pid, 1, "some-daemon --running");
    process.name = "some-daemon".to_string();
    process.cpu_order = order_of(cpu);
    process.cpu_label = format!("{cpu:.1}");
    process.rss_kib = rss;
    process
}

fn pids_at(all: &[Process], list: &[usize]) -> Vec<u32> {
    list.iter().map(|i| all[*i].pid).collect()
}

#[test]
fn hog_shortlists_are_each_their_own_honest_top() {
    let mut list = Vec::new();
    for pid in 0..20u32 {
        let cpu = if pid == 10 { 99.0 } else { f64::from(pid) };
        let rss = if pid == 10 { 9_000_000 } else { 1_000 + u64::from(pid) };
        list.push(hog(100 + pid, cpu, Some(rss)));
    }
    let all = table(list);
    let (by_cpu, by_memory) = hog_shortlists(&all);
    assert_eq!(by_cpu.len(), TOP_HOGS);
    assert_eq!(by_memory.len(), TOP_HOGS);
    assert_eq!(all[by_cpu[0]].pid, 110, "the monster leads the CPU list");
    assert_eq!(all[by_memory[0]].pid, 110, "and the memory list too — no exclusion games");
    let form = hog_form(&all).expect("something to offer");
    assert_eq!(form.title, "murder — pick what would die");
    assert!(form.aligned && form.mirrored, "twins are one box in two places");
    let groups: Vec<&Vec<String>> = form
        .items
        .iter()
        .filter_map(|item| match item {
            FormItem::Checkboxes { options, .. } => Some(options),
            FormItem::Comment(_) => None,
        })
        .collect();
    assert_eq!(
        groups[0][0], groups[1][0],
        "twin entries carry identical wording, or mirroring could not link them"
    );
}

#[test]
fn hog_shortlists_survive_a_nearly_empty_system() {
    let three = table(
        [5u32, 6, 7].iter().map(|pid| hog(*pid, f64::from(*pid), Some(u64::from(*pid) * 100))).collect(),
    );
    let (by_cpu, by_memory) = hog_shortlists(&three);
    assert_eq!(by_cpu.len(), 3, "all three make the CPU list");
    assert_eq!(by_memory.len(), 3, "and the memory list — mirroring merges the twins");

    let one = table(vec![hog(5, 1.0, None)]);
    let (by_cpu, by_memory) = hog_shortlists(&one);
    assert_eq!((by_cpu.len(), by_memory.len()), (1, 1));

    let none = table(vec![]);
    let (by_cpu, by_memory) = hog_shortlists(&none);
    assert!(by_cpu.is_empty() && by_memory.is_empty(), "an empty system offers nothing");
    assert!(hog_form(&none).is_none());
}

#[test]
fn hogs_exclude_what_could_never_be_killed() {
    let mut own = hog(50, 80.0, Some(8_888_888));
    own.protected = true;
    let mut kernel = hog(60, 70.0, None);
    kernel.cmdline = String::new();
    let all = table(vec![hog(1, 90.0, Some(9_999_999)), own, kernel, hog(70, 1.0, Some(100))]);
    let (by_cpu, by_memory) = hog_shortlists(&all);
    assert_eq!(pids_at(&all, &by_cpu), [70]);
    assert_eq!(pids_at(&all, &by_memory), [70]);
}

// --- forms ----------------------------------------------------------------------------------

#[test]
fn the_choose_form_mirrors_the_tree() {
    let relevant = relate(&world(), &vec![200, 250]);
    let rows = tree_rows(&relevant, &needles(&["target"]), false, false, 100);
    let form = choose_form(&relevant, &rows);
    assert_eq!(form.title, "murder — tick what dies (context rows are fixed)");
    assert!(form.aligned && !form.mirrored);
    assert!(
        matches!(&form.items[0], FormItem::Comment(header) if header.contains("COMMAND")),
        "the heading opens the form"
    );
    let mut option_pids = Vec::new();
    let mut comment_rows = 0;
    for item in &form.items {
        match item {
            FormItem::Comment(_) => comment_rows += 1,
            FormItem::Checkboxes { label, options } => {
                assert!(label.is_empty(), "tree groups are anonymous — no heading line");
                option_pids.extend(options.iter().filter_map(|o| picked_pid(o)));
            }
        }
    }
    option_pids.sort_unstable();
    assert_eq!(
        option_pids,
        [200, 250],
        "exactly the matches are tickable — a descendant is blast radius, not a choice"
    );
    assert!(comment_rows >= 4, "header, ancestors AND the descendant stay fixed");
}

#[test]
fn a_starred_pid_is_read_without_its_star() {
    assert_eq!(picked_pid("1234*  owner  3s  0.0  1.2MB  └─ bash"), Some(1234));
    assert_eq!(picked_pid("77 · quiet-daemon · 0.0% cpu · -"), Some(77));
}

#[test]
fn a_ticked_option_reads_back_to_its_pid() {
    let process = hog(4242, 12.34, Some(51_300));
    let list = vec![process];
    let widths = column_widths(&list);
    let option = hog_row(&list[0], column_widths(&list));
    assert_eq!(picked_pid(&option), Some(4242), "{option:?}");
    assert!(
        option.contains("some-daemon --running") && option.contains("50.1MB"),
        "the full command in the standard columns: {option:?}"
    );
    let header = widths_header(widths);
    assert_eq!(
        header.find("COMMAND"),
        option.find("some-daemon"),
        "header and row share their columns: {header:?} vs {option:?}"
    );
    assert_eq!(picked_pid("not a pid at all"), None);
    assert_eq!(picked_pid("\x1b[30;41m4242\x1b[0m*  me  1s"), Some(4242));
    let options = needles(&["7 a", "8 b", "x", "9 d"]);
    assert_eq!(ticked_pids(&options, &vec![true, false, true, true]), [7, 9]);
    let group = |checked: Vec<bool>| TickedGroup { options: needles(&["7 a", "8 b"]), checked };
    let groups = vec![group(vec![false, true]), group(vec![true, false])];
    assert_eq!(chosen_pids(&FormEnd::Submitted, &groups), Ok(vec![8, 7]));
    assert_eq!(
        chosen_pids(&FormEnd::Submitted, &vec![group(vec![false, false])]),
        Err("murder: nothing ticked — nothing to signal".to_string())
    );
    assert_eq!(
        chosen_pids(&FormEnd::Cancelled, &groups),
        Err("murder: aborted — nothing chosen".to_string())
    );
    assert_eq!(
        chosen_pids(&FormEnd::Failed("no terminal".to_string()), &groups),
        Err("murder: no terminal".to_string())
    );
}

#[test]
fn the_liveness_check_reads_the_state_letter() {
    assert_eq!(state("7 (bash) S 42 3"), Some('S'));
    assert_eq!(state("7 (foo (bar) baz) Z 42 3"), Some('Z'));
    assert_eq!(state("garbage"), None);
    assert!(is_alive("7 (bash) S 42 3") && !is_alive("7 (bash) Z 42 3"));
}

// --- the hunt -------------------------------------------------------------------------------

fn args(patterns: &[&str], window: Option<&str>, choose: bool) -> MurderArgs {
    MurderArgs {
        patterns: needles(patterns),
        window: window.map(str::to_string),
        short: false,
        choose,
    }
}

#[test]
fn a_hunt_ends_in_a_report_or_says_what_it_missed() {
    assert!(matches!(murder(&args(&[], None, false), &world(), &vec![], 100, &plain()), Murder::PickHogs));
    match murder(&args(&["target"], None, false), &world(), &vec![], 100, &plain()) {
        Murder::Found { relevant, lines, action } => {
            assert_eq!((relevant.len(), action), (5, Action::Kill));
            assert!(lines.len() >= 6, "{lines:?}");
        }
        _ => panic!("found"),
    }
    match murder(&args(&["zzz"], None, false), &world(), &vec![], 100, &plain()) {
        Murder::NoMatch(lines) => assert_eq!(lines[0], "murder: nothing matches \"zzz\""),
        _ => panic!("no match"),
    }
    match murder(&args(&[], Some("a\tb"), false), &world(), &vec![], 100, &plain()) {
        Murder::NoWindow(text) => assert_eq!(text, "murder: no window title contains \"a\\tb\""),
        _ => panic!("no window"),
    }
    assert_eq!(
        no_match_text(&args(&["a", "b"], None, false)),
        "murder: nothing matches all 2 of [\"a\", \"b\"]"
    );
    assert_eq!(no_window_text("x"), "murder: no window title contains \"x\"");
    assert_eq!(window_owner_text("t", 5), "  (window \"t\" maps to pid 5)");
    assert_eq!(args(&["x"], None, true).action(), Action::Choose);
}
