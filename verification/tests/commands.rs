use std::collections::BTreeSet;

use bashrs::args::{EchoArgs, GgArgs, GgBase, GrepArgs, GrepBase, NoArgs};
use bashrs::autogen_lookup::{g, g2, g25, g3, g5, g8, gg, gg10, gg2, gg3, gg5};
use bashrs::autogen_styles::{
    boecho, recho, gecho, becho, cecho, yecho, orecho, wecho, mecho,
    uecho, urecho, ugecho, ubecho, ucecho, uyecho, uorecho, uwecho, umecho,
    daecho, darecho, dagecho, dabecho, dacecho, dayecho, daorecho, dawecho, damecho,
    dauecho, daurecho, daugecho, daubecho, daucecho, dauyecho, dauorecho, dauwecho, daumecho, StyledEcho,
};
use bashrs::autogen_treegrep;
use bashrs::bashrs::{
    compile, configure, locate_script, open_in_editor, save, settings_form, sourcefile, sourcefile_path,
    test as tested, ConfigureArgs, ConfigureStart, Ended, Saved, Setting, SettingItem,
};
use bashrs::builtins::cd;
use bashrs::generators::{
    cap, family_matrix, name_of_look, name_part, splice, style_matrix, SearchFamily, SpliceError,
};
use bashrs::git::{profile, rec_pull, tree, TreeArgs, REC_PULL_SH, TREE_FORMAT};
use bashrs::lookup::{agrees, gg_delve, hg, offer_root_rescan, root_rescan, HgArgs, Rescan};
use bashrs::packages::{
    active, managers, print, print_listing, revokes, run_line, toolchains, update_toolchains,
    upgrade_all, upup, Doing, Found, Manager,
};
use bashrs::python::exit_code;
use bashrs::session::functions;
use bashrs::theme::{matrix_look, Basic, BasicLook, Underline, Weight};

fn texts(list: &[&str]) -> Vec<String> {
    list.iter().map(|s| s.to_string()).collect()
}

// --- git ------------------------------------------------------------------------------------

#[test]
fn tree_format_carries_the_expected_fields() {
    assert!(TREE_FORMAT.starts_with("--format=tformat:"));
    for field in ["%h", "%ar", "%s", "%an", "%d"] {
        assert!(TREE_FORMAT.contains(field), "missing {field} in the format");
    }
    let argv = tree(&TreeArgs { rest: texts(&["-20"]) });
    assert_eq!(argv[..5], ["log", "--all", "--graph", "--decorate", "--abbrev-commit"]);
    assert_eq!(argv[5..], [TREE_FORMAT, "-20"]);
}

#[test]
fn rec_pull_announces_then_pulls_each_repo() {
    assert!(REC_PULL_SH.contains("Updating"));
    assert!(REC_PULL_SH.contains("git pull"));
    let argv = rec_pull(&NoArgs {});
    assert_eq!(argv[..6], [".", "-type", "d", "-name", ".git", "-execdir"]);
    assert_eq!(argv[6..], ["sh", "-c", REC_PULL_SH, ";"]);
}

#[test]
fn the_identity_is_shown_in_four_parts() {
    let probes = profile(&NoArgs {});
    assert_eq!(probes.len(), 4);
    assert_eq!(probes[2].heading, "GitHub identified user:");
    assert_eq!((probes[2].program, probes[2].argv.clone()), ("ssh", vec!["-T", "git@github.com"]));
}

// --- session and builtins -------------------------------------------------------------------

#[test]
fn session_new_is_a_plain_fresh_shell() {
    assert!(functions().contains("session_new() { exec bash; }"));
}

#[test]
fn session_bare_exports_the_flag_into_the_fresh_shell() {
    assert!(functions().contains("session_bare() { _BASHRS_BARE=1 exec bash; }"));
}

#[test]
fn a_listing_follows_only_a_cd_that_worked() {
    assert!(cd().starts_with("builtin cd \"$@\" && ls -AF "));
    assert_eq!((exit_code(true), exit_code(false)), (0, 1));
}

// --- packages -------------------------------------------------------------------------------

fn assert_table_integrity(table: &[Manager]) {
    let probes: Vec<&str> = table.iter().map(|m| m.probe).collect();
    for tool in table {
        assert!(!tool.steps.is_empty(), "{}: needs at least one step", tool.probe);
        for step in &tool.steps {
            assert!(!step.words.is_empty(), "{}: blank step", tool.probe);
        }
        if let Some(list) = &tool.list {
            assert!(!list.is_empty(), "{}: blank list command", tool.probe);
        }
        for superseded in &tool.supersedes {
            assert!(probes.contains(superseded), "{}: supersedes unknown `{superseded}`", tool.probe);
        }
    }
}

#[test]
fn manager_and_toolchain_tables_are_well_formed() {
    assert_table_integrity(&managers());
    assert_table_integrity(&toolchains());
}

#[test]
fn every_package_manager_has_a_list_command() {
    for mgr in managers() {
        assert!(mgr.list.is_some(), "{}: package managers need a `list` command", mgr.probe);
    }
}

#[test]
fn upgrade_recipes_and_the_shared_registry_stay_one_to_one() {
    let recipes: BTreeSet<&str> = managers().iter().map(|m| m.probe).collect();
    let registry: BTreeSet<&str> = [
        "apt", "dnf", "yay", "pacman", "zypper", "apk", "guix", "nix-env", "nix", "snap", "flatpak",
        "brew",
    ]
    .into_iter()
    .collect();
    assert_eq!(recipes, registry);
    assert_eq!(managers().len(), registry.len(), "each once");
}

fn found(present: &[&str], passed: &[&str]) -> Found {
    Found { present: texts(present), passed: texts(passed) }
}

#[test]
fn superseded_and_unchecked_tools_are_left_alone() {
    let table = managers();
    let names = |present: &[&str], passed: &[&str]| -> Vec<&str> {
        active(&table, &texts(present), &texts(passed)).into_iter().map(|i| table[i].probe).collect()
    };
    assert_eq!(names(&["pacman", "yay"], &[]), ["yay"]);
    assert_eq!(names(&["pacman"], &[]), ["pacman"]);
    assert!(names(&["nix"], &[]).is_empty(), "its check failed");
    assert_eq!(names(&["nix"], &["nix"]), ["nix"]);
}

#[test]
fn upgrades_run_each_step_under_a_heading() {
    let doing = upup(&NoArgs {}, &found(&["snap", "flatpak"], &[]), true, "sudo");
    assert_eq!(doing.len(), 5);
    assert!(matches!(&doing[4], Doing::RevokeOurs { had_ticket: true }), "behind the last step");
    assert!(matches!(&doing[0], Doing::Say(t) if t == "== snap =="));
    assert!(matches!(&doing[1], Doing::Run(w) if w[..] == ["sudo", "snap", "refresh"]));
    assert!(matches!(&doing[3], Doing::Run(w) if w[..] == ["flatpak", "upgrade", "--assumeyes"]));
    let tools = update_toolchains(&NoArgs {}, &found(&["rustup"], &[]), "sudo");
    assert!(matches!(&tools[1], Doing::Run(w) if w[..] == ["rustup", "update"]));
    let all =
        upgrade_all(&NoArgs {}, &found(&["snap"], &[]), false, &found(&["rustup"], &[]), "doas");
    assert_eq!(all.len(), 6);
    assert!(matches!(&all[2], Doing::RevokeOurs { had_ticket: false }));
    assert!(matches!(&all[5], Doing::InstallStainless(false)), "the bundled tools come last");
    assert!(matches!(&all[1], Doing::Run(w) if w[0] == "doas"));
    let apt = &managers()[0];
    assert_eq!(run_line(&apt.steps[0], "sudo"), ["sudo", "apt", "update"]);
    assert!(revokes(false) && !revokes(true));
}

#[test]
fn installed_packages_are_listed_under_their_manager() {
    let lists = print(&NoArgs {}, &found(&["apt"], &[]));
    assert_eq!(lists.len(), 1);
    assert_eq!(lists[0].heading, "== apt ==");
    assert_eq!(lists[0].words, ["dpkg-query", "-W"]);
    assert_eq!(print_listing("a 1\nb 2\n"), "  a 1\n  b 2\n");
}

// --- bashrs ---------------------------------------------------------------------------------

#[test]
fn reports_a_missing_project_directory() {
    let err = locate_script("/no/such/bashrs/project", "COMPILE.sh", false, false).unwrap_err();
    assert!(err.contains("project directory not found"), "got: {err}");
}

#[test]
fn reports_a_missing_script_by_its_name() {
    let err = locate_script("/p/src", "COMPILE.sh", true, false).unwrap_err();
    assert!(err.contains("COMPILE.sh not found"), "got: {err}");
    let err = locate_script("/p/src", "TEST.sh", true, false).unwrap_err();
    assert!(err.contains("TEST.sh not found"), "got: {err}");
}

#[test]
fn resolves_the_scripts_when_present() {
    assert_eq!(locate_script("/p", "COMPILE.sh", true, true).unwrap(), "/p/COMPILE.sh");
    assert_eq!(locate_script("/p", "TEST.sh", true, true).unwrap(), "/p/TEST.sh");
}

#[test]
fn sourcefile_lives_under_bashrs_home() {
    assert!(sourcefile_path("/home/u").ends_with(".bashrs/sourcefile.sh"));
    assert_eq!(sourcefile("a", "/f"), "a\n\n# source file: /f\n");
    assert_eq!(sourcefile("a\n", "/f"), "a\n\n# source file: /f\n");
}

fn setting(key: &str, enabled: bool, docs: &[&str]) -> Setting {
    Setting { section: "tools".to_string(), key: key.to_string(), enabled, docs: texts(docs) }
}

#[test]
fn the_form_mirrors_the_config_file_it_was_built_from() {
    let settings = vec![
        setting("always_bundle_languages", true, &["why languages"]),
        setting("always_bundle_utilities", false, &["why utilities", "second line"]),
    ];
    let form = settings_form(&settings, "/tmp/configrs.toml");
    let boxes: Vec<(&str, bool)> = form
        .items
        .iter()
        .filter_map(|item| match item {
            SettingItem::Checkbox(key, on) => Some((key.as_str(), *on)),
            _ => None,
        })
        .collect();
    assert_eq!(
        boxes,
        [("always_bundle_languages", true), ("always_bundle_utilities", false)],
        "one box per flag, ticked as the file has it"
    );
    let comments: Vec<&str> = form
        .items
        .iter()
        .filter_map(|item| match item {
            SettingItem::Comment(text) => Some(text.as_str()),
            _ => None,
        })
        .collect();
    assert_eq!(comments[0], "[tools]", "the section is announced once, first");
    assert_eq!(comments.iter().filter(|line| **line == "[tools]").count(), 1);
    for expected in ["why languages", "why utilities", "second line"] {
        assert!(comments.contains(&expected), "{expected} is missing from {comments:?}");
    }
    assert!(form.aligned, "comments line up with the boxes they explain");
    assert!(form.title.contains("configrs.toml"), "the title names the file being edited");
}

#[test]
fn a_submitted_form_reports_only_what_moved() {
    let settings = vec![setting("a", true, &[]), setting("b", true, &[])];
    let said = save("old", "new", &settings, &vec![false, true], "/c");
    assert!(matches!(said, Saved::Changed(t) if t == "tools.a = false\nbashrs_configure: saved to /c\n"));
    let same = save("old", "old", &settings, &vec![true, true], "/c");
    assert!(matches!(same, Saved::Unchanged("bashrs_configure: unchanged")));
}

#[test]
fn configure_opens_an_editor_where_nothing_can_be_ticked() {
    let form = ConfigureArgs { editor: false };
    assert!(matches!(configure(&form, &vec![setting("a", true, &[])], "/c"), ConfigureStart::Form));
    assert!(matches!(configure(&form, &vec![], "/c"), ConfigureStart::Editor(Some(t))
        if t == "bashrs_configure: no true/false settings in /c — opening it instead"));
    assert!(matches!(configure(&ConfigureArgs { editor: true }, &vec![], "/c"), ConfigureStart::Editor(None)));
    assert_eq!(open_in_editor(&Some(" vi ".to_string())), "vi");
    assert_eq!(open_in_editor(&Some(" ".to_string())), "xdg-open");
    assert_eq!(open_in_editor(&None), "xdg-open");
}

#[test]
fn only_a_real_success_reloads() {
    assert_eq!(compile(&Ended::Well, 7).code, 7);
    let bad = compile(&Ended::Badly(Some(3), "exit status: 3".to_string()), 7);
    assert_eq!(bad.code, 1);
    assert_eq!(bad.says.as_deref(), Some("bashrs_compile: COMPILE.sh exited with status: exit status: 3"));
    let never = compile(&Ended::Never("gone".to_string()), 7);
    assert_eq!(never.says.as_deref(), Some("bashrs_compile: could not launch COMPILE.sh: gone"));
    let lost = compile(&Ended::Missing("no project".to_string()), 7);
    assert_eq!((lost.code, lost.says.as_deref()), (1, Some("bashrs_compile: no project")));
    let lost = tested(&Ended::Missing("no project".to_string()));
    assert_eq!((lost.code, lost.says.as_deref()), (1, Some("bashrs_test: no project")));
    assert_eq!(tested(&Ended::Well).code, 0);
    assert_eq!(tested(&Ended::Badly(Some(3), String::new())).code, 3);
    assert_eq!(tested(&Ended::Badly(None, String::new())).code, 1);
    assert_eq!(
        tested(&Ended::Never("x".to_string())).says.as_deref(),
        Some("bashrs_test: could not launch TEST.sh: x")
    );
}

// --- searching ------------------------------------------------------------------------------

fn grep_base() -> GrepBase {
    GrepBase { pattern: "x".to_string(), source: Some("f".to_string()), line_number: true }
}

fn gg_base() -> GgBase {
    GgBase {
        expressions: texts(&["a", "b"]),
        directory: ".".to_string(),
        no_line_number: false,
        delve: false,
    }
}

#[test]
fn the_number_in_a_name_is_the_context() {
    assert_eq!(g(&GrepArgs { base: grep_base(), context: 7 }).context, 7);
    for (n, r) in [
        (2, g2(grep_base())),
        (3, g3(grep_base())),
        (5, g5(grep_base())),
        (8, g8(grep_base())),
        (25, g25(grep_base())),
    ] {
        assert_eq!((r.context, r.pattern.as_str(), r.source.as_deref(), r.line_number), (n, "x", Some("f"), true));
    }
    assert_eq!(gg(&GgArgs { base: gg_base(), context: 1 }).context, 1);
    for (n, r) in [(2, gg2(gg_base())), (3, gg3(gg_base())), (5, gg5(gg_base())), (10, gg10(gg_base()))] {
        assert_eq!((r.context, r.line_number, r.delve), (n, true, false));
        assert_eq!(r.expressions, ["a", "b"]);
    }
    let loud = gg_delve(gg_base());
    assert!(loud.delve && loud.context == 0 && loud.root == ".");
    let history = hg(&HgArgs { pattern: "ls".to_string() });
    assert_eq!((history.context, history.line_number, history.source), (0, false, None));
}

#[test]
fn long_lines_are_left_out_unless_asked_for() {
    let args = |short: bool, unlimited: bool| autogen_treegrep::GgArgs {
        expressions: texts(&["a"]),
        directory: "d".to_string(),
        text_limit: 5000,
        short,
        unlimited,
        no_line_number: true,
    };
    assert_eq!(autogen_treegrep::gg(&args(false, false)).text_limit, Some(5000));
    assert_eq!(autogen_treegrep::gg2(&args(true, false)).text_limit, Some(500));
    assert_eq!(autogen_treegrep::gg3(&args(true, true)).text_limit, None);
    assert_eq!(autogen_treegrep::gg5(&args(true, true)).context, 5);
    let ten = autogen_treegrep::gg10(&args(true, true));
    assert_eq!((ten.context, ten.line_number, ten.root.as_str()), (10, false, "d"));
}

#[test]
fn the_question_about_unreadable_paths_is_capped() {
    assert!(matches!(offer_root_rescan(&vec![], true), Rescan::Nothing));
    assert!(matches!(offer_root_rescan(&texts(&["/a"]), false), Rescan::Note(t)
        if t == "\n1 path(s) skipped (permission denied); run interactively to re-scan as root."));
    assert!(matches!(offer_root_rescan(&texts(&["/a", "/b"]), true), Rescan::Ask(t)
        if t == "\n2 path(s) were unreadable (permission denied):\n  /a\n  /b\nRe-scan them as root? [y/N] "));
    let many: Vec<String> = (0..12).map(|n| format!("/p{n}")).collect();
    match offer_root_rescan(&many, true) {
        Rescan::Ask(t) => {
            assert!(t.contains("  /p8\n  [3 more paths omitted]\n"), "{t}");
            assert!(!t.contains("/p9"), "{t}");
        }
        _ => panic!("asks"),
    }
    let search = gg_delve(gg_base());
    let denied = texts(&["/a", "/b"]);
    let again = root_rescan(&search, &denied, true, Some("Y\n")).unwrap();
    assert_eq!((&again.expressions, &again.paths), (&search.expressions, &denied));
    assert_eq!((again.line_number, again.context, again.delve), (search.line_number, 0, true));
    assert!(root_rescan(&search, &vec![], true, Some("y")).is_none());
    assert!(root_rescan(&search, &denied, false, Some("y")).is_none());
    assert!(root_rescan(&search, &denied, true, None).is_none());
    assert!(root_rescan(&search, &denied, true, Some("yes")).is_none());
    assert!(agrees(" Y\n") && agrees("y") && !agrees("yes") && !agrees(""));
}

// --- styles and generators ------------------------------------------------------------------

#[test]
fn an_echo_has_the_look_of_its_name() {
    let args = EchoArgs { words: texts(&["a", "b"]) };
    let plain = boecho(&args);
    assert_eq!(plain.text, "a b");
    assert!(plain.look
        == BasicLook { weight: Weight::Bold, underline: Underline::Plain, colour: Basic::Plain });
    assert!(recho(&args).look
        == BasicLook { weight: Weight::Bold, underline: Underline::Plain, colour: Basic::Red });
    assert!(uecho(&args).look
        == BasicLook { weight: Weight::Bold, underline: Underline::Underlined, colour: Basic::Plain });
    assert!(damecho(&args).look
        == BasicLook { weight: Weight::Dark, underline: Underline::Plain, colour: Basic::Magenta });
    assert!(dauorecho(&args).look
        == BasicLook { weight: Weight::Dark, underline: Underline::Underlined, colour: Basic::Orange });
}

#[test]
fn every_echo_stands_at_its_place_in_the_matrix() {
    let echoes: [fn(&EchoArgs) -> StyledEcho; 36] = [
        boecho, recho, gecho, becho, cecho, yecho, orecho, wecho, mecho,
        uecho, urecho, ugecho, ubecho, ucecho, uyecho, uorecho, uwecho, umecho,
        daecho, darecho, dagecho, dabecho, dacecho, dayecho, daorecho, dawecho, damecho,
        dauecho, daurecho, daugecho, daubecho, daucecho, dauyecho, dauorecho, dauwecho, daumecho,
    ];
    let args = EchoArgs { words: texts(&["x"]) };
    for (k, echo) in echoes.iter().enumerate() {
        let made = echo(&args);
        assert!(made.look == matrix_look(k) && made.text == "x", "{k}");
    }
}

#[test]
fn every_look_has_a_name_of_its_own() {
    let names: BTreeSet<String> = (0..36).map(|k| name_of_look(matrix_look(k))).collect();
    assert_eq!(names.len(), 36);
    assert_eq!(name_of_look(matrix_look(0)), "bo");
    assert_eq!(name_of_look(matrix_look(35)), "daum");
    assert_eq!((name_part("bo"), name_part("da")), ("", "da"));
    assert_eq!((cap("bold"), cap("")), ("Bold".to_string(), String::new()));
}

#[test]
fn the_style_matrix_is_written_out() {
    let text = style_matrix();
    assert!(text.starts_with(
        "    /// echo in bold\n    #[unprefixed]\n    #[alias(\"echobo\")]\n    pub fn boecho(args: EchoArgs) { _styled_echo(BasicLook { weight: Weight::Bold, underline: Underline::None, colour: Basic::None }, &args); }\n\n    /// echo in bold red\n"
    ));
    assert_eq!(text.matches("pub fn ").count(), 36);
    assert!(text.ends_with(
        "    /// echo in dark underlined magenta\n    #[unprefixed]\n    #[alias(\"echodaum\")]\n    pub fn daumecho(args: EchoArgs) { _styled_echo(BasicLook { weight: Weight::Dark, underline: Underline::Underlined, colour: Basic::Magenta }, &args); }"
    ));
}

#[test]
fn a_family_is_written_out() {
    let family = SearchFamily {
        stem: "g",
        contexts: vec![0, 2],
        bare_desc: "Search",
        ctx_before: "Search, showing ",
        ctx_after: " lines",
        args: "GrepArgs",
        base_args: "GrepBase",
        runner: "_grep",
        extra_attrs: "    #[trailing_newline]\n",
    };
    assert_eq!(
        family_matrix(&family),
        "    /// Search\n    #[unprefixed]\n    #[trailing_newline]\n    pub fn g(args: GrepArgs) { _grep(&args); }\n\n    /// Search, showing 2 lines\n    #[unprefixed]\n    #[trailing_newline]\n    pub fn g2(args: GrepBase) { _grep(&GrepArgs { base: args, context: 2 }); }"
    );
}

#[test]
fn a_region_is_spliced_between_its_markers_and_only_once() {
    let file = "head\n<S>\nold\n<E>\ntail";
    let once = splice(file, "<S>", "<E>", "new").unwrap();
    assert_eq!(once, "head\n<S>\n\nnew\n<E>\ntail");
    assert_eq!(splice(&once, "<S>", "<E>", "new").unwrap(), once);
    assert!(matches!(splice("x", "<S>", "<E>", "new"), Err(SpliceError::NoStart)));
    assert!(matches!(splice("<S>", "<S>", "<E>", "new"), Err(SpliceError::NoEnd)));
}
