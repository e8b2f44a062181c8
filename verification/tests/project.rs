use bashrs::json::parse_json;
use bashrs::project::readme::{
    choose_readme, descriptions, doc_files, find_readme, json_str, leading_doc, main_doc,
    manifest_description, readme, toml_str, Said,
};
use bashrs::project::toolchains::{toolchains, Step, Toolchain};
use bashrs::project::{
    announce, compile, detect_with, run, test as test_plan, update_packages, CompileArgs, DirArgs,
};
use bashrs::toml_document::parse_toml;

fn texts(list: &[&str]) -> Vec<String> {
    list.iter().map(|s| s.to_string()).collect()
}

fn toolchain(marker: &str) -> Toolchain {
    detect_with(&texts(&[marker])).unwrap()
}

fn detect(present: &[&str]) -> Option<&'static str> {
    detect_with(&texts(present)).map(|tc| tc.name)
}

#[test]
fn detects_by_marker_file() {
    assert_eq!(detect(&["Cargo.toml"]), Some("Rust"));
    assert_eq!(detect(&["go.mod"]), Some("Go"));
    assert_eq!(detect(&["Gemfile"]), Some("Ruby"));
    assert_eq!(detect(&["build.zig"]), Some("Zig"));
    assert_eq!(detect(&[]), None);
}

#[test]
fn more_specific_markers_win() {
    assert_eq!(detect(&["yarn.lock", "package.json"]), Some("Node (yarn)"));
    assert_eq!(detect(&["Cargo.toml", "Makefile"]), Some("Rust"));
    assert_eq!(detect(&["uv.lock", "pyproject.toml"]), Some("Python (uv)"));
}

#[test]
fn rust_build_modes_are_distinct() {
    let rust = toolchain("Cargo.toml");
    assert!(matches!(rust.debug, Step::Run("cargo build")), "debug: plain, fastest to compile");
    assert!(matches!(rust.release, Step::Run(c) if c.contains("opt-level=3")), "release: optimize for speed");
    assert!(matches!(rust.tiny, Step::Run(c) if c.contains("opt-level=z")), "tiny: optimize for size");
}

#[test]
fn cmake_tests_build_first_but_cargo_does_not() {
    assert!(toolchain("CMakeLists.txt").test_needs_build);
    assert!(!toolchain("Cargo.toml").test_needs_build);
}

#[test]
fn plans_follow_the_toolchain() {
    assert_eq!(toolchains().len(), 18);
    let args = |debug: bool, tiny: bool| CompileArgs { dir: ".".to_string(), debug, release: true, tiny };
    let rust = texts(&["Cargo.toml"]);
    let plan = compile(&args(true, false), &rust).ok().unwrap();
    assert_eq!(plan.detected, "Detected Rust");
    assert!(matches!(plan.steps[..], [Step::Run("cargo build")]));
    let tiny = compile(&args(true, true), &rust).ok().unwrap();
    assert!(matches!(tiny.steps[0], Step::Run(c) if c.contains("opt-level=z")), "tiny wins");
    let dir = DirArgs { dir: "/x".to_string() };
    let cmake = texts(&["CMakeLists.txt"]);
    let tested = test_plan(&dir, &cmake).ok().unwrap();
    assert_eq!(tested.steps.len(), 2);
    assert!(matches!(tested.steps[1], Step::Run("ctest --test-dir build")));
    assert!(matches!(run(&dir, &cmake).ok().unwrap().steps[0], Step::Note(_)));
    assert!(matches!(update_packages(&dir, &rust).ok().unwrap().steps[0], Step::Run("cargo update")));
    assert_eq!(
        run(&dir, &vec![]).err().unwrap(),
        "pro: no recognized project in '/x' (looked for the markers of 18 toolchains)"
    );
    assert_eq!(announce(&Step::Run("make")), ("running:  make".to_string(), Some("make")));
    assert_eq!(announce(&Step::Note("by hand")), ("by hand".to_string(), None));
}

#[test]
fn leading_doc_extracts_common_styles() {
    assert_eq!(
        leading_doc("//! A tool.\n//! Does things.\nfn main() {}").as_deref(),
        Some("A tool.\nDoes things.")
    );
    assert_eq!(
        leading_doc("\"\"\"A Python module.\"\"\"\nimport os").as_deref(),
        Some("A Python module.")
    );
    assert_eq!(leading_doc("#!/bin/sh\n# a shell script\necho hi").as_deref(), Some("a shell script"));
    assert_eq!(leading_doc("fn main() {}"), None);
}

#[test]
fn block_comments_lose_their_frame() {
    assert_eq!(
        leading_doc("\n/**\n * One.\n * Two.\n */\nint x;").as_deref(),
        Some("One.\nTwo.")
    );
    assert_eq!(leading_doc("'''first\nsecond''' rest").as_deref(), Some("first\nsecond"));
    assert_eq!(leading_doc("/* never closed\n more").as_deref(), Some("never closed\nmore"));
    assert_eq!(leading_doc("/* */"), None);
    assert_eq!(leading_doc("/// a\n// b\n# c\nd").as_deref(), Some("a\nb\nc"));
    assert_eq!(leading_doc(""), None);
}

#[test]
fn manifest_descriptions_are_extracted() {
    let cargo = parse_toml("[package]\ndescription = \"A neat crate\"\n").unwrap();
    assert_eq!(toml_str(&cargo, &vec!["package", "description"]).as_deref(), Some("A neat crate"));
    assert_eq!(toml_str(&cargo, &vec!["package", "missing"]), None);
    let pkg = parse_json(r#"{"description":"A neat package"}"#).unwrap();
    assert_eq!(json_str(&pkg, &vec!["description"]).as_deref(), Some("A neat package"));
}

#[test]
fn a_path_of_keys_ends_in_a_text_or_nowhere() {
    let doc = parse_toml("x = 1\ny = 1.5\nz = true\nd = 1979-05-27\nl = [1]\n[t]\nk = \"v\"\n").unwrap();
    for key in ["x", "y", "z", "d", "l", "t"] {
        assert_eq!(toml_str(&doc, &vec![key]), None, "{key}");
    }
    assert_eq!(toml_str(&doc, &vec!["t", "k"]).as_deref(), Some("v"));
    assert_eq!(toml_str(&doc, &vec!["x", "k"]), None);
    assert!(parse_toml("= broken").is_none());
    let json = parse_json(r#"{"a": {"b": "c"}, "n": 1}"#).unwrap();
    assert_eq!(json_str(&json, &vec!["a", "b"]).as_deref(), Some("c"));
    assert_eq!(json_str(&json, &vec!["n"]), None);
    assert_eq!(json_str(&json, &vec!["n", "b"]), None);
}

#[test]
fn descriptions_are_tried_in_order() {
    assert_eq!(descriptions().len(), 4);
    let poetry = "[tool.poetry]\ndescription = \"from poetry\"\n".to_string();
    let contents = vec![
        Some("not toml [".to_string()),
        Some(poetry.clone()),
        Some(poetry),
        Some(r#"{"description":"from json"}"#.to_string()),
    ];
    assert_eq!(manifest_description(&contents).as_deref(), Some("from poetry"));
    assert_eq!(
        manifest_description(&vec![None, None, None, contents[3].clone()]).as_deref(),
        Some("from json")
    );
    assert_eq!(manifest_description(&vec![None, None, None, None]), None);
}

#[test]
fn a_markdown_readme_is_preferred_and_the_first_in_order_wins() {
    assert_eq!(find_readme(&texts(&["a", "README", "readme.md", "README.md"])).as_deref(), Some("README.md"));
    assert_eq!(find_readme(&texts(&["readme.txt", "README.rst"])).as_deref(), Some("README.rst"));
    assert_eq!(find_readme(&texts(&["main.c"])), None);
    assert_eq!(
        choose_readme(&texts(&["b", "a"]), &vec![true, true]).as_deref(),
        Some("a")
    );
    assert_eq!(doc_files()[0], "src/lib.rs");
}

#[test]
fn a_project_says_what_it_can() {
    let args = DirArgs { dir: "d".to_string() };
    let none = || vec![None, None, None, None];
    let sources = vec![None, Some("fn main() {}".to_string()), Some("# doc".to_string())];
    assert!(matches!(readme(&args, &texts(&["README"]), &none(), &sources), Said::File(f) if f == "README"));
    let json = vec![None, None, None, Some(r#"{"description":"d"}"#.to_string())];
    assert!(matches!(readme(&args, &vec![], &json, &sources), Said::Text(t) if t == "d"));
    assert!(matches!(readme(&args, &vec![], &none(), &sources), Said::Text(t) if t == "doc"));
    assert_eq!(main_doc(&sources).as_deref(), Some("doc"));
    assert!(matches!(readme(&args, &vec![], &none(), &vec![]), Said::Nothing(t)
        if t == "pro_readme: found no README, manifest description, or top-of-file doc comment in 'd'"));
}
