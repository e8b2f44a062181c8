//! Importing a site's cookies from a browser.
//!
//! Looking for stores, copying and reading them back is the caller's; each step hands what came of
//! it to the function that says what follows.

use vstd::prelude::*;
use vstd::string::*;
use crate::sequences::lemma_parts_last;
use crate::style::{painted, Paint};
use crate::text::{
    chars_of, decimal, parse_decimal, parse_number, push_decimal, same_text, trim, trimmed,
};

verus! {

/// The site whose cookies are imported.
pub struct Site {
    /// The name of its directory.
    pub key: String,
    /// How it is spoken of.
    pub label: String,
}

/// A browser's store of cookies.
pub struct CookieStore {
    pub browser: String,
    pub label: String,
}

/// What an import waits for.
#[derive(Clone, Copy, Debug, PartialEq, Eq, Structural)]
pub enum Awaiting {
    /// The stores of the browsers.
    Stores,
    /// A choice among the stores, and a fresh directory for the site.
    Choice,
    /// The site's cookies, copied into it: how many there were.
    Cookies,
    /// The record of which browser they are from.
    Record(usize),
    /// How many of them can be read back.
    ReadBack(usize),
    /// Nothing more: whether a usable store was imported.
    Done(bool),
}

/// What follows a step: what is said, on either stream, whether what was imported is dropped, and
/// what is awaited next.
pub struct Next {
    pub says: String,
    pub complains: String,
    pub forget: bool,
    pub awaiting: Awaiting,
}

/// What follows a step.
pub struct NextView {
    pub says: Seq<char>,
    pub complains: Seq<char>,
    pub forget: bool,
    pub awaiting: Awaiting,
}

impl View for Next {
    type V = NextView;

    open spec fn view(&self) -> NextView {
        NextView {
            says: self.says@,
            complains: self.complains@,
            forget: self.forget,
            awaiting: self.awaiting,
        }
    }
}

/// Nothing is said; the next step is due.
pub open spec fn go_on(awaiting: Awaiting) -> NextView {
    NextView { says: ""@, complains: ""@, forget: false, awaiting }
}

/// The import fails.
pub open spec fn fails(complains: Seq<char>, forget: bool) -> NextView {
    NextView { says: ""@, complains, forget, awaiting: Awaiting::Done(false) }
}

/// The import goes on silently.
fn proceed(awaiting: Awaiting) -> (r: Next)
    ensures
        r@ == go_on(awaiting),
{
    Next { says: "".to_owned(), complains: "".to_owned(), forget: false, awaiting }
}

/// The import fails.
fn fail(complains: String, forget: bool) -> (r: Next)
    ensures
        r@ == fails(complains@, forget),
{
    Next { says: "".to_owned(), complains, forget, awaiting: Awaiting::Done(false) }
}

/// The first step: a target that maps to no cookies is refused before anything is built.
pub fn import_cookies(target: &str, importable: bool, known_sites: &str) -> (r: Next)
    ensures
        r@ == (if importable {
            go_on(Awaiting::Stores)
        } else {
            fails(
                "dl: '"@ + target@ + "' isn't a site I can target — pass a keyword ("@
                    + known_sites@ + "), a domain (example.com), or a video URL"@,
                false,
            )
        }),
{
    if importable {
        return proceed(Awaiting::Stores);
    }
    let mut why: String = "dl: '".to_owned();
    why.append(target);
    why.append("' isn't a site I can target — pass a keyword (");
    why.append(known_sites);
    why.append("), a domain (example.com), or a video URL");
    fail(why, false)
}

/// What the browsers hold: `count` stores of cookies, or no browser at all.
pub fn stores_found(count: usize, any_browser: bool) -> (r: Next)
    ensures
        r@ == (if count > 0 {
            go_on(Awaiting::Choice)
        } else if any_browser {
            fails(
                "dl: found browsers but no cookie stores yet — browse (and sign in) once, then retry"@,
                false,
            )
        } else {
            fails("dl: no browser cookie stores found on this system"@, false)
        }),
{
    if count > 0 {
        proceed(Awaiting::Choice)
    } else if any_browser {
        fail(
            "dl: found browsers but no cookie stores yet — browse (and sign in) once, then retry".to_owned(),
            false,
        )
    } else {
        fail("dl: no browser cookie stores found on this system".to_owned(), false)
    }
}

/// How a store is chosen.
pub enum Pick {
    /// There is only one: what is said of taking it.
    Only(String),
    /// What is printed before a number is read.
    Ask(String),
}

/// The lines of the first `n` stores, numbered.
pub open spec fn store_lines(stores: Seq<CookieStore>, n: nat) -> Seq<char>
    decreases n,
{
    if n == 0 {
        seq![]
    } else {
        store_lines(stores, (n - 1) as nat) + ("  "@ + decimal(n) + ") "@ + stores[n - 1].label@
            + "\n"@)
    }
}

/// Every store is offered, in order, under its number from one.
pub proof fn law_every_store_is_offered(stores: Seq<CookieStore>, n: nat)
    requires
        n <= stores.len(),
    ensures
        store_lines(stores, n) == Seq::new(
            n,
            |i: int| "  "@ + decimal((i + 1) as nat) + ") "@ + stores[i].label@ + "\n"@,
        ).flatten(),
    decreases n,
{
    if n > 0 {
        law_every_store_is_offered(stores, (n - 1) as nat);
        lemma_parts_last(
            |i: int| "  "@ + decimal((i + 1) as nat) + ") "@ + stores[i].label@ + "\n"@,
            n,
        );
    }
}

/// Offer the stores to import a site's cookies from: a lone one is taken.
pub fn pick(stores: &Vec<CookieStore>, site_label: &str, header: &Paint) -> (r: Pick)
    ensures
        if stores@.len() == 1 {
            r matches Pick::Only(text) && text@ == "one cookie store found — importing "@
                + site_label@ + " cookies from "@ + stores@[0].label@ + "\n"@
        } else {
            r matches Pick::Ask(text) && text@ == painted(
                *header,
                "Import "@ + site_label@ + " cookies from:"@,
            ) + "\n"@ + store_lines(stores@, stores@.len()) + "choice [1-"@ + decimal(
                stores@.len(),
            ) + "]: "@
        },
{
    if stores.len() == 1 {
        let mut text: String = "one cookie store found — importing ".to_owned();
        text.append(site_label);
        text.append(" cookies from ");
        text.append(stores[0].label.as_str());
        text.append("\n");
        return Pick::Only(text);
    }
    let mut title: String = "Import ".to_owned();
    title.append(site_label);
    title.append(" cookies from:");
    let mut out: String = header.paint(title.as_str());
    out.append("\n");
    let mut list: String = String::new();
    let mut i: usize = 0;
    while i < stores.len()
        invariant
            i <= stores.len(),
            list@ == store_lines(stores@, i as nat),
        decreases stores.len() - i,
    {
        let mut line: String = "  ".to_owned();
        push_decimal(&mut line, i as u128 + 1);
        line.append(") ");
        line.append(stores[i].label.as_str());
        line.append("\n");
        list.append(line.as_str());
        i += 1;
    }
    out.append(list.as_str());
    out.append("choice [1-");
    push_decimal(&mut out, stores.len() as u128);
    out.append("]: ");
    Pick::Ask(out)
}

/// The store that a typed line chooses of `count`.
pub open spec fn chosen(line: Seq<char>, count: nat) -> Option<nat> {
    match parse_decimal(trim(line), usize::MAX as nat) {
        Some(n) => if 1 <= n <= count {
            Some((n - 1) as nat)
        } else {
            None
        },
        None => None,
    }
}

/// The store that a typed line chooses, or what is said where it names none.
pub fn read_choice(line: &str, count: usize) -> (r: Result<usize, &'static str>)
    ensures
        match r {
            Ok(k) => chosen(line@, count as nat) == Some(k as nat) && k < count,
            Err(why) => chosen(line@, count as nat) is None && why@ == "dl: not a listed number"@,
        },
{
    let cs: Vec<char> = chars_of(line);
    match parse_number(trimmed(cs.as_slice()), usize::MAX as u64) {
        Some(n) => if 1 <= n && n <= count as u64 {
            Ok((n - 1) as usize)
        } else {
            Err("dl: not a listed number")
        },
        None => Err("dl: not a listed number"),
    }
}

/// Whether the site's directory could be made.
pub fn directory_made(site: &Site, failed: &Option<String>) -> (r: Next)
    ensures
        r@ == (match *failed {
            None => go_on(Awaiting::Cookies),
            Some(why) => fails(
                "dl: could not prepare the "@ + site.label@ + " cookie store: "@ + why@,
                false,
            ),
        }),
{
    match failed {
        None => proceed(Awaiting::Cookies),
        Some(why) => {
            let mut text: String = "dl: could not prepare the ".to_owned();
            text.append(site.label.as_str());
            text.append(" cookie store: ");
            text.append(why.as_str());
            fail(text, false)
        },
    }
}

/// How many cookies of the site were copied, where copying worked.
pub fn cookies_copied(site: &Site, store: &CookieStore, matched: Option<usize>) -> (r: Next)
    ensures
        r@ == (match matched {
            None => fails(
                "dl: could not filter the cookie store (is the bundled python available?)"@,
                true,
            ),
            Some(n) => if n == 0 {
                fails(
                    "dl: no "@ + site.label@ + " cookies in "@ + store.label@ + " — sign in to "@
                        + site.label@ + " in that browser/profile, then re-import"@,
                    true,
                )
            } else {
                go_on(Awaiting::Record(n))
            },
        }),
{
    match matched {
        None => fail(
            "dl: could not filter the cookie store (is the bundled python available?)".to_owned(),
            true,
        ),
        Some(n) => {
            if n == 0 {
                let mut text: String = "dl: no ".to_owned();
                text.append(site.label.as_str());
                text.append(" cookies in ");
                text.append(store.label.as_str());
                text.append(" — sign in to ");
                text.append(site.label.as_str());
                text.append(" in that browser/profile, then re-import");
                fail(text, true)
            } else {
                proceed(Awaiting::Record(n))
            }
        },
    }
}

/// What is said of YouTube's cookies.
pub open spec fn youtube_note() -> Seq<char> {
    "note: YouTube rotates cookies on open tabs — if auth later fails, re-export via a private window (sign in, open only youtube.com/robots.txt, then close it) and re-import\n"@
}

/// Whether the record of the browser could be written.
pub fn record_written(site: &Site, store: &CookieStore, matched: usize, failed: &Option<String>) -> (r:
    Next)
    ensures
        r@ == (match *failed {
            Some(why) => fails(
                "dl: could not record the "@ + site.label@ + " cookie store: "@ + why@,
                true,
            ),
            None => NextView {
                says: "imported "@ + decimal(matched as nat) + " "@ + site.label@
                    + " cookie(s) from "@ + store.label@ + "\n"@ + (if site.key@ == "youtube"@ {
                    youtube_note()
                } else {
                    ""@
                }),
                complains: ""@,
                forget: false,
                awaiting: Awaiting::ReadBack(matched),
            },
        }),
{
    match failed {
        Some(why) => {
            let mut text: String = "dl: could not record the ".to_owned();
            text.append(site.label.as_str());
            text.append(" cookie store: ");
            text.append(why.as_str());
            fail(text, true)
        },
        None => {
            let mut says: String = "imported ".to_owned();
            push_decimal(&mut says, matched as u128);
            says.append(" ");
            says.append(site.label.as_str());
            says.append(" cookie(s) from ");
            says.append(store.label.as_str());
            says.append("\n");
            says.append(
                if same_text(site.key.as_str(), "youtube") {
                    "note: YouTube rotates cookies on open tabs — if auth later fails, re-export via a private window (sign in, open only youtube.com/robots.txt, then close it) and re-import\n"
                } else {
                    ""
                },
            );
            Next {
                says,
                complains: "".to_owned(),
                forget: false,
                awaiting: Awaiting::ReadBack(matched),
            }
        },
    }
}

/// What reading the cookies back came to.
pub enum ReadBack {
    /// There is no store to read.
    NoStore,
    /// It could not be tried.
    Untried,
    /// How many could be read.
    Readable(usize),
}

/// What is said of sign-ins that are not in the copy yet.
pub open spec fn flush_note() -> Seq<char> {
    "note: if a fresh sign-in isn't recognized, fully quit the browser and re-import\n"@
}

/// What follows reading the cookies back.
pub open spec fn checked(site: Site, browser: Seq<char>, matched: nat, back: ReadBack) -> NextView {
    match back {
        ReadBack::NoStore => go_on(Awaiting::Done(true)),
        ReadBack::Readable(n) => if n > 0 {
            NextView {
                says: "validated — "@ + decimal(n as nat) + " "@ + site.label@
                    + " cookie(s) readable; dl runs on "@ + site.label@ + " will use them\n"@
                    + flush_note(),
                complains: ""@,
                forget: false,
                awaiting: Awaiting::Done(true),
            }
        } else if browser == "firefox"@ {
            fails(
                "dl: "@ + decimal(matched) + " "@ + site.label@
                    + " cookie(s) imported but none could be read — the profile DB may be unreadable; re-import"@,
                true,
            )
        } else {
            fails(
                "dl: "@ + decimal(matched) + " "@ + site.label@
                    + " cookie(s) imported but none decrypted — Chromium needs the desktop keyring unlocked; a Firefox store is more reliable. Import discarded."@,
                true,
            )
        },
        ReadBack::Untried => NextView {
            says: "(couldn't verify readability — is yt-dlp installed? the "@ + decimal(matched)
                + " imported cookie(s) will be tried on dl runs)\n"@ + flush_note(),
            complains: ""@,
            forget: false,
            awaiting: Awaiting::Done(true),
        },
    }
}

/// The last step: cookies that were copied and cannot be read are useless, and dropped, so that no
/// later run tries them again.
pub fn report_cookie_check(site: &Site, browser: &str, matched: usize, back: &ReadBack) -> (r: Next)
    ensures
        r@ == checked(*site, browser@, matched as nat, *back),
{
    match back {
        ReadBack::NoStore => proceed(Awaiting::Done(true)),
        ReadBack::Readable(n) => {
            if *n > 0 {
                let mut says: String = "validated — ".to_owned();
                push_decimal(&mut says, *n as u128);
                says.append(" ");
                says.append(site.label.as_str());
                says.append(" cookie(s) readable; dl runs on ");
                says.append(site.label.as_str());
                says.append(" will use them\n");
                says.append(
                    "note: if a fresh sign-in isn't recognized, fully quit the browser and re-import\n",
                );
                return Next {
                    says,
                    complains: "".to_owned(),
                    forget: false,
                    awaiting: Awaiting::Done(true),
                };
            }
            let mut why: String = "dl: ".to_owned();
            push_decimal(&mut why, matched as u128);
            why.append(" ");
            why.append(site.label.as_str());
            if same_text(browser, "firefox") {
                why.append(
                    " cookie(s) imported but none could be read — the profile DB may be unreadable; re-import",
                );
            } else {
                why.append(
                    " cookie(s) imported but none decrypted — Chromium needs the desktop keyring unlocked; a Firefox store is more reliable. Import discarded.",
                );
            }
            fail(why, true)
        },
        ReadBack::Untried => {
            let mut says: String = "(couldn't verify readability — is yt-dlp installed? the ".to_owned();
            push_decimal(&mut says, matched as u128);
            says.append(" imported cookie(s) will be tried on dl runs)\n");
            says.append(
                "note: if a fresh sign-in isn't recognized, fully quit the browser and re-import\n",
            );
            Next {
                says,
                complains: "".to_owned(),
                forget: false,
                awaiting: Awaiting::Done(true),
            }
        },
    }
}

/// What is said of stored cookies that have all expired.
pub fn warn_if_cookies_expired(site: &Site, expired: Option<bool>, problematic: &Paint) -> (r: Option<
    String,
>)
    ensures
        r.deep_view() == (if expired == Some(true) {
            Some(
                painted(
                    *problematic,
                    "dl: the imported "@ + site.label@
                        + " cookies have expired — re-import with `dl --cookie-import "@
                        + site.key@ + "`"@,
                ),
            )
        } else {
            None
        }),
{
    if let Some(true) = expired {
        let mut text: String = "dl: the imported ".to_owned();
        text.append(site.label.as_str());
        text.append(" cookies have expired — re-import with `dl --cookie-import ");
        text.append(site.key.as_str());
        text.append("`");
        return Some(problematic.paint(text.as_str()));
    }
    None
}

/// An import that ends usable keeps its store, and one that fails on reading back drops it and
/// says why.
pub proof fn law_a_useless_store_is_dropped(
    site: Site,
    browser: Seq<char>,
    matched: nat,
    back: ReadBack,
)
    ensures
        checked(site, browser, matched, back).awaiting == Awaiting::Done(true) || checked(
            site,
            browser,
            matched,
            back,
        ).awaiting == Awaiting::Done(false),
        checked(site, browser, matched, back).forget <==> checked(
            site,
            browser,
            matched,
            back,
        ).awaiting == Awaiting::Done(false),
        checked(site, browser, matched, back).forget <==> back == ReadBack::Readable(0),
{
}

} // verus!
