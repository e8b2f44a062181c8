use bashrs::comfy_repos;
use bashrs::comfy_repos::{
    autokey_apply, autokey_list_bashrs_profiles, bundled, cookie_store_dir, profile_store_dir, Applied,
    StoreEntry, DOCTOR_COMMAND,
};
use bashrs::download::cookies::{
    cookies_copied, directory_made, import_cookies, pick, read_choice, record_written,
    report_cookie_check, stores_found, warn_if_cookies_expired, Awaiting, CookieStore, Pick, ReadBack,
    Site,
};
use bashrs::download::{
    dl, fetch_argv, host_of, import_code, is_youtube, links_by_type, normalize_ext, page_links,
    page_links_code, resolve_link, route, squash, uses_stored_cookies, DlArgs, DlStart, LinkStep,
    PageLinksArgs, Route,
};
use bashrs::style::Paint;

fn texts(list: &[&str]) -> Vec<String> {
    list.iter().map(|s| s.to_string()).collect()
}

#[test]
fn youtube_hosts_route_to_the_youtube_path_others_do_not() {
    for yt in [
        "https://www.youtube.com/watch?v=x",
        "https://youtu.be/x",
        "https://music.youtube.com/watch?v=x",
        "https://m.youtube.com/watch?v=x",
        "http://youtube.com/playlist?list=y",
        "https://www.youtube-nocookie.com/embed/x",
    ] {
        assert!(is_youtube(yt), "should be YouTube: {yt}");
    }
    for other in [
        "https://vimeo.com/12345",
        "https://twitter.com/u/status/1",
        "https://notyoutube.com/x",
        "https://youtube.com.evil.test/x",
        "https://example.com/youtube.com",
    ] {
        assert!(!is_youtube(other), "should be generic: {other}");
    }
}

#[test]
fn extensions_normalize_to_bare_lowercase() {
    assert_eq!(normalize_ext(".PNG"), "png");
    assert_eq!(normalize_ext("mp3"), "mp3");
}

#[test]
fn one_pass_groups_links_by_type_case_insensitively_and_once() {
    let html = r#"<a href="a.png"><img src="B.PNG"><a href="a.png">
                          <a href="song.mp3">a sentence ending in .png"quoted prose .mp3""#;
    let groups = links_by_type(html, &texts(&["png", "mp3"]));
    assert_eq!(groups[0], ["a.png", "B.PNG"], "case-insensitive, duplicates dropped");
    assert_eq!(groups[1], ["song.mp3"]);
}

#[test]
fn whitespace_bearing_tokens_are_prose_not_links() {
    let groups = links_by_type(r#"text "not a link .png" "real.png""#, &texts(&["png"]));
    assert_eq!(groups[0], ["real.png"]);
}

#[test]
fn links_resolve_the_way_a_browser_would() {
    let page = "https://ex.com/gallery/2024/index.html";
    assert_eq!(resolve_link(page, "http://other.org/x.png"), "http://other.org/x.png");
    assert_eq!(resolve_link(page, "//cdn.ex.com/x.png"), "https://cdn.ex.com/x.png");
    assert_eq!(resolve_link(page, "/root.png"), "https://ex.com/root.png");
    assert_eq!(resolve_link(page, "img/x.png"), "https://ex.com/gallery/2024/img/x.png");
    assert_eq!(resolve_link(page, "../up.png"), "https://ex.com/gallery/up.png");
    assert_eq!(
        resolve_link(page, "../../../../too-far.png"),
        "https://ex.com/too-far.png",
        "`..` must never climb above the host"
    );
}

#[test]
fn scheme_less_pages_resolve_as_https_and_root_pages_use_the_host_as_dir() {
    assert_eq!(resolve_link("ex.com/dir/p.html", "x.png"), "https://ex.com/dir/x.png");
    assert_eq!(resolve_link("https://ex.com", "x.png"), "https://ex.com/x.png");
}

#[test]
fn file_urls_keep_their_absolute_path() {
    assert_eq!(
        resolve_link("file:///tmp/site/page.html", "sub/a.txt"),
        "file:///tmp/site/sub/a.txt"
    );
}

#[test]
fn paths_collapse_to_names() {
    assert_eq!(squash("h/a/./b//../c"), "h/a/c");
    assert_eq!(squash("/h/../../x"), "/h/x");
    assert_eq!(squash("h/.."), "h");
}

#[test]
fn a_link_counts_for_the_first_type_it_matches() {
    let groups = links_by_type("\"x.tar.gz\"", &texts(&["gz", "tar.gz"]));
    assert_eq!(groups[0], ["x.tar.gz"]);
    assert!(groups[1].is_empty());
}

#[test]
fn a_page_becomes_steps() {
    let mut args = PageLinksArgs {
        page: "https://ex.com/p/i.html".to_string(),
        types: texts(&[".PNG", "zip"]),
        list: true,
    };
    let html = "<a href=\"a.png\"><a href=\"/b.PNG\">";
    let steps = page_links(&args, html);
    assert_eq!(steps.len(), 3);
    assert!(matches!(&steps[0], LinkStep::Print(u) if u == "https://ex.com/p/a.png"));
    assert!(matches!(&steps[1], LinkStep::Print(u) if u == "https://ex.com/b.PNG"));
    assert!(matches!(&steps[2], LinkStep::Missing(t) if t == "no .zip links in https://ex.com/p/i.html"));
    args.list = false;
    assert!(matches!(&page_links(&args, html)[0], LinkStep::Fetch(u) if u == "https://ex.com/p/a.png"));
    assert_eq!(fetch_argv("u"), ["-fSLO", "--retry", "2", "--no-progress-meter", "u"]);
    assert_eq!(page_links_code(0, 0), 1);
    assert_eq!(page_links_code(2, 1), 1);
    assert_eq!(page_links_code(2, 0), 0);
}

#[test]
fn hosts_are_bare_and_lower_case() {
    assert_eq!(host_of("https://www.Example.com:8080/x?y"), "example.com");
    assert_eq!(host_of("http://user:pw@h.org"), "h.org");
    assert_eq!(host_of("h.org#frag"), "h.org");
}

fn dl_args() -> DlArgs {
    DlArgs {
        url: Some("https://youtu.be/x".to_string()),
        into: ".".to_string(),
        single: false,
        cookies: None,
        no_cookies: false,
        audio: false,
        res: None,
        allow_ipv6: false,
        thumbnail: false,
        subtitles: false,
        cookie_import: None,
        taglist: false,
        compatibility_help: false,
        extra: vec![],
    }
}

#[test]
fn dl_begins_with_what_was_asked_for() {
    let mut args = dl_args();
    assert!(matches!(dl(&args), DlStart::Download));
    assert!(matches!(route(&args), Route::Youtube));
    assert!(uses_stored_cookies(&args));
    args.cookie_import = Some("vimeo".to_string());
    assert!(matches!(dl(&args), DlStart::Import(t, false) if t == "vimeo"));
    args.url = None;
    assert!(matches!(dl(&args), DlStart::Import(t, true) if t == "vimeo"));
    assert!(matches!(route(&args), Route::Generic));
    args.taglist = true;
    assert!(matches!(dl(&args), DlStart::Taglist));
    args.compatibility_help = true;
    assert!(matches!(dl(&args), DlStart::Help));
    args.no_cookies = true;
    assert!(!uses_stored_cookies(&args));
    let mut with_file = dl_args();
    with_file.cookies = Some("c.txt".to_string());
    assert!(!uses_stored_cookies(&with_file));
    assert_eq!((import_code(true), import_code(false)), (0, 1));
}

fn site(key: &str) -> Site {
    Site { key: key.to_string(), label: "YouTube".to_string() }
}

fn store(browser: &str) -> CookieStore {
    CookieStore { browser: browser.to_string(), label: "Firefox (default)".to_string() }
}

#[test]
fn an_import_goes_step_by_step() {
    let first = import_cookies("youtube", true, "youtube, vimeo");
    assert!(matches!(first.awaiting, Awaiting::Stores));
    let refused = import_cookies("tiktok2", false, "youtube, vimeo");
    assert!(matches!(refused.awaiting, Awaiting::Done(false)));
    assert!(refused.complains.contains("'tiktok2' isn't a site I can target"));
    assert!(matches!(stores_found(2, true).awaiting, Awaiting::Choice));
    assert!(stores_found(0, true).complains.contains("found browsers but no cookie stores"));
    assert!(stores_found(0, false).complains.contains("no browser cookie stores found"));
    let made = directory_made(&site("youtube"), &None);
    assert!(matches!(made.awaiting, Awaiting::Cookies));
    let unmade = directory_made(&site("youtube"), &Some("denied".to_string()));
    assert_eq!(unmade.complains, "dl: could not prepare the YouTube cookie store: denied");
    assert!(!unmade.forget);
    let copied = cookies_copied(&site("youtube"), &store("firefox"), Some(3));
    assert!(matches!(copied.awaiting, Awaiting::Record(3)));
    for failed in [None, Some(0)] {
        let next = cookies_copied(&site("youtube"), &store("firefox"), failed);
        assert!(next.forget && matches!(next.awaiting, Awaiting::Done(false)));
    }
    let recorded = record_written(&site("youtube"), &store("firefox"), 3, &None);
    assert!(recorded.says.starts_with("imported 3 YouTube cookie(s) from Firefox (default)\n"));
    assert!(recorded.says.contains("YouTube rotates cookies"));
    assert!(!record_written(&site("vimeo"), &store("firefox"), 3, &None).says.contains("rotates"));
    assert!(record_written(&site("v"), &store("f"), 3, &Some("full".to_string())).forget);
    let good = report_cookie_check(&site("youtube"), "firefox", 3, &ReadBack::Readable(2));
    assert!(good.says.starts_with("validated — 2 YouTube cookie(s) readable"));
    assert!(matches!(good.awaiting, Awaiting::Done(true)) && !good.forget);
    let firefox = report_cookie_check(&site("youtube"), "firefox", 3, &ReadBack::Readable(0));
    assert!(firefox.forget && firefox.complains.contains("none could be read"));
    let chrome = report_cookie_check(&site("youtube"), "chrome", 3, &ReadBack::Readable(0));
    assert!(chrome.forget && chrome.complains.contains("none decrypted"));
    let untried = report_cookie_check(&site("youtube"), "chrome", 3, &ReadBack::Untried);
    assert!(untried.says.contains("the 3 imported cookie(s) will be tried"));
    let gone = report_cookie_check(&site("youtube"), "chrome", 3, &ReadBack::NoStore);
    assert!(matches!(gone.awaiting, Awaiting::Done(true)) && gone.says.is_empty());
}

#[test]
fn a_store_is_picked_by_its_number() {
    let plain = Paint::none();
    let one = vec![store("firefox")];
    assert!(matches!(pick(&one, "YouTube", &plain), Pick::Only(t)
        if t == "one cookie store found — importing YouTube cookies from Firefox (default)\n"));
    let two = vec![store("firefox"), store("chrome")];
    assert!(matches!(pick(&two, "YouTube", &plain), Pick::Ask(t)
        if t == "Import YouTube cookies from:\n  1) Firefox (default)\n  2) Firefox (default)\nchoice [1-2]: "));
    assert_eq!(read_choice(" 2\n", 2), Ok(1));
    assert_eq!(read_choice("0", 2), Err("dl: not a listed number"));
    assert_eq!(read_choice("3", 2), Err("dl: not a listed number"));
    assert_eq!(read_choice("x", 2), Err("dl: not a listed number"));
    let said = warn_if_cookies_expired(&site("youtube"), Some(true), &plain).unwrap();
    assert!(said.ends_with("re-import with `dl --cookie-import youtube`"));
    assert!(warn_if_cookies_expired(&site("youtube"), None, &plain).is_none());
    assert!(warn_if_cookies_expired(&site("youtube"), Some(false), &plain).is_none());
}

// --- comfy repos ----------------------------------------------------------------------------

#[test]
fn the_profile_store_sits_in_user_data() {
    assert_eq!(profile_store_dir("/home/u/.bashrs/user-data"), "/home/u/.bashrs/user-data/sequencer");
    assert_eq!(cookie_store_dir("/d"), "/d/browser_cookies");
}

#[test]
fn a_bundled_tool_is_one_that_resolves_to_a_path() {
    assert_eq!(bundled("deno", "/t/deno").as_deref(), Some("/t/deno"));
    assert_eq!(bundled("deno", "deno"), None);
    assert_eq!(DOCTOR_COMMAND, "autokey_doctor");
    assert_eq!(autokey_apply(&vec![], "/store"), ["/store"]);
    assert_eq!(autokey_apply(&texts(&["a.toml"]), "/store"), ["a.toml"]);
}

fn entry(shown: &str, is_dir: bool, canonical: Option<&str>) -> StoreEntry {
    StoreEntry { shown: shown.to_string(), is_dir, canonical: canonical.map(str::to_string) }
}

#[test]
fn profiles_are_listed_in_order_and_what_is_applied_is_marked() {
    let applied = vec![
        Applied { name: "game".to_string(), target: "/real/game.toml".to_string() },
        Applied { name: "away".to_string(), target: "/else/away.toml".to_string() },
    ];
    let walk = vec![
        entry("/s/z.TOML", false, Some("/real/z.toml")),
        entry("/s/sub", true, None),
        entry("/s/sub/game.toml", false, Some("/real/game.toml")),
        entry("/s/notes.txt", false, Some("/real/game.toml")),
    ];
    assert_eq!(
        autokey_list_bashrs_profiles("/s", &applied, &walk),
        [
            "/s/sub/",
            "/s/sub/game.toml  [applied]",
            "/s/z.TOML",
            "away  [applied from /else/away.toml]",
        ]
    );
    assert_eq!(
        autokey_list_bashrs_profiles("/s", &vec![], &vec![]),
        ["no profiles in /s — drop binds .toml files there (see `autokey_check`)"]
    );
}

#[test]
fn dl_wants_something_to_do() {
    assert!(matches!(comfy_repos::dl(true, false, false, false), comfy_repos::DlStart::Help));
    assert!(matches!(comfy_repos::dl(false, false, false, false), comfy_repos::DlStart::NothingAsked));
    for (url, tags, cookies) in [(true, false, false), (false, true, false), (false, false, true)] {
        assert!(matches!(comfy_repos::dl(false, url, tags, cookies), comfy_repos::DlStart::Run));
    }
}
