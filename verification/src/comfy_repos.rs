//! Commands backed by other programs of the same author: what is decided on this side of them.

use vstd::prelude::*;
use vstd::string::*;
use crate::paths::{beneath, extension, extension_of, put_beneath};
use crate::sequences::lemma_filter_map_last;
use crate::text::{
    ascii_lower, chars_of, copy_texts, holds_text, push_text, same_ignoring_case, same_text,
    sort_texts, sorted_texts,
};

verus! {

/// How this shell spells the check of what synthetic input needs.
pub const DOCTOR_COMMAND: &'static str = "autokey_doctor";

/// The arguments of `table_fancy`.
pub struct TableFancyArgs {
    /// Input file path or data, or standard input.
    pub input: String,
}

/// The profile store: where this shell keeps binds profiles.
pub fn profile_store_dir(user_data: &str) -> (r: String)
    ensures
        r@ == beneath(user_data@, "sequencer"@),
{
    let dir: Vec<char> = chars_of(user_data);
    put_beneath(dir.as_slice(), "sequencer")
}

/// The base that holds one directory for each site whose cookies were imported.
pub fn cookie_store_dir(user_data: &str) -> (r: String)
    ensures
        r@ == beneath(user_data@, "browser_cookies"@),
{
    let dir: Vec<char> = chars_of(user_data);
    put_beneath(dir.as_slice(), "browser_cookies")
}

/// The bundled copy of a tool, where there is one: resolving a tool that is not bundled gives back
/// its bare name.
pub fn bundled(name: &str, resolved: &str) -> (r: Option<String>)
    ensures
        r.deep_view() == (if resolved@ != name@ {
            Some(resolved@)
        } else {
            None
        }),
{
    if same_text(resolved, name) {
        None
    } else {
        Some(resolved.to_owned())
    }
}

/// The profiles that `autokey_apply` applies: those that are named, or the whole store.
pub fn autokey_apply(files: &Vec<String>, store: &str) -> (r: Vec<String>)
    ensures
        r.deep_view() == (if files@.len() == 0 {
            seq![store@]
        } else {
            files.deep_view()
        }),
{
    if files.len() == 0 {
        let mut out: Vec<String> = Vec::new();
        push_text(&mut out, store);
        assert(out.deep_view() =~= seq![store@]);
        return out;
    }
    copy_texts(files)
}

// --- profiles -------------------------------------------------------------------------------

/// An entry met on the walk of the profile store: its path as it is shown, whether it is a
/// directory, and its canonical path where that is known.
pub struct StoreEntry {
    pub shown: String,
    pub is_dir: bool,
    pub canonical: Option<String>,
}

/// A profile that is applied: its name, and the canonical path it came from.
pub struct Applied {
    pub name: String,
    pub target: String,
}

/// Whether an entry is a profile.
pub open spec fn is_profile(e: StoreEntry) -> bool {
    !e.is_dir && extension(e.shown@) is Some && ascii_lower(extension(e.shown@)->0) == ascii_lower(
        "toml"@,
    )
}

/// Whether some applied profile came from that path.
pub open spec fn is_target(applied: Seq<Applied>, path: Seq<char>) -> bool {
    exists|i: int| 0 <= i < applied.len() && (#[trigger] applied[i]).target@ == path
}

/// Whether an entry is a profile that is applied. It is told by its canonical path: two profiles
/// of the same name do not vouch for each other.
pub open spec fn is_live(applied: Seq<Applied>, e: StoreEntry) -> bool {
    is_profile(e) && e.canonical is Some && is_target(applied, e.canonical->0@)
}

/// The line of an entry: directories and profiles have one.
pub open spec fn entry_line(applied: Seq<Applied>, e: StoreEntry) -> Option<Seq<char>> {
    if e.is_dir {
        Some(e.shown@ + "/"@)
    } else if is_profile(e) {
        if is_live(applied, e) {
            Some(e.shown@ + "  [applied]"@)
        } else {
            Some(e.shown@)
        }
    } else {
        None
    }
}

/// The lines of the first `n` entries.
pub open spec fn entry_lines(applied: Seq<Applied>, walk: Seq<StoreEntry>, n: nat) -> Seq<Seq<char>>
    decreases n,
{
    if n == 0 {
        seq![]
    } else {
        match entry_line(applied, walk[n - 1]) {
            Some(line) => entry_lines(applied, walk, (n - 1) as nat).push(line),
            None => entry_lines(applied, walk, (n - 1) as nat),
        }
    }
}

/// Every directory and every profile of the store has its line, in order, with what is applied
/// marked; nothing else has one.
pub proof fn law_every_entry_has_its_line(applied: Seq<Applied>, walk: Seq<StoreEntry>, n: nat)
    requires
        n <= walk.len(),
    ensures
        entry_lines(applied, walk, n) == walk.take(n as int).filter_map(
            |e: StoreEntry|
                if e.is_dir {
                    Some(e.shown@ + "/"@)
                } else if !is_profile(e) {
                    None
                } else if e.canonical is Some && is_target(applied, e.canonical->0@) {
                    Some(e.shown@ + "  [applied]"@)
                } else {
                    Some(e.shown@)
                },
        ),
    decreases n,
{
    if n > 0 {
        law_every_entry_has_its_line(applied, walk, (n - 1) as nat);
        lemma_filter_map_last(
            walk,
            |e: StoreEntry|
                if e.is_dir {
                    Some(e.shown@ + "/"@)
                } else if !is_profile(e) {
                    None
                } else if e.canonical is Some && is_target(applied, e.canonical->0@) {
                    Some(e.shown@ + "  [applied]"@)
                } else {
                    Some(e.shown@)
                },
            n,
        );
    }
}

/// The canonical paths of the first `n` entries that are applied.
pub open spec fn matched(applied: Seq<Applied>, walk: Seq<StoreEntry>, n: nat) -> Seq<Seq<char>>
    decreases n,
{
    if n == 0 {
        seq![]
    } else if is_live(applied, walk[n - 1]) {
        matched(applied, walk, (n - 1) as nat).push(walk[n - 1].canonical->0@)
    } else {
        matched(applied, walk, (n - 1) as nat)
    }
}

/// The path of every profile of the store that is applied is known, in order, and no other.
pub proof fn law_every_applied_entry_is_known(applied: Seq<Applied>, walk: Seq<StoreEntry>, n: nat)
    requires
        n <= walk.len(),
    ensures
        matched(applied, walk, n) == walk.take(n as int).filter_map(
            |e: StoreEntry|
                if is_profile(e) && e.canonical is Some && is_target(applied, e.canonical->0@) {
                    Some(e.canonical->0@)
                } else {
                    None
                },
        ),
    decreases n,
{
    if n > 0 {
        law_every_applied_entry_is_known(applied, walk, (n - 1) as nat);
        lemma_filter_map_last(
            walk,
            |e: StoreEntry|
                if is_profile(e) && e.canonical is Some && is_target(applied, e.canonical->0@) {
                    Some(e.canonical->0@)
                } else {
                    None
                },
            n,
        );
    }
}

/// The lines of the first `n` applied profiles that came from elsewhere.
pub open spec fn foreign_lines(applied: Seq<Applied>, known: Seq<Seq<char>>, n: nat) -> Seq<
    Seq<char>,
>
    decreases n,
{
    if n == 0 {
        seq![]
    } else if known.contains(applied[n - 1].target@) {
        foreign_lines(applied, known, (n - 1) as nat)
    } else {
        foreign_lines(applied, known, (n - 1) as nat).push(
            applied[n - 1].name@ + "  [applied from "@ + applied[n - 1].target@ + "]"@,
        )
    }
}

/// Every applied profile that came from elsewhere has its line, in order, and no other.
pub proof fn law_every_foreign_profile_has_its_line(
    applied: Seq<Applied>,
    known: Seq<Seq<char>>,
    n: nat,
)
    requires
        n <= applied.len(),
    ensures
        foreign_lines(applied, known, n) == applied.take(n as int).filter_map(
            |a: Applied|
                if known.contains(a.target@) {
                    None
                } else {
                    Some(a.name@ + "  [applied from "@ + a.target@ + "]"@)
                },
        ),
    decreases n,
{
    if n > 0 {
        law_every_foreign_profile_has_its_line(applied, known, (n - 1) as nat);
        lemma_filter_map_last(
            applied,
            |a: Applied|
                if known.contains(a.target@) {
                    None
                } else {
                    Some(a.name@ + "  [applied from "@ + a.target@ + "]"@)
                },
            n,
        );
    }
}

/// The listing of the profile store.
pub open spec fn profile_lines(store: Seq<char>, applied: Seq<Applied>, walk: Seq<StoreEntry>) -> Seq<
    Seq<char>,
> {
    let own = entry_lines(applied, walk, walk.len());
    (if own.len() == 0 {
        seq![
            "no profiles in "@ + store + " — drop binds .toml files there (see `autokey_check`)"@,
        ]
    } else {
        sorted_texts(own, own.len())
    }) + foreign_lines(applied, matched(applied, walk, walk.len()), applied.len())
}

/// The listing of the store is that of every entry, sorted, and then of every profile that is
/// applied from elsewhere.
pub proof fn law_the_whole_store_is_listed(
    store: Seq<char>,
    applied: Seq<Applied>,
    walk: Seq<StoreEntry>,
)
    ensures
        ({
            let own = walk.filter_map(
                |e: StoreEntry|
                    if e.is_dir {
                        Some(e.shown@ + "/"@)
                    } else if !is_profile(e) {
                        None
                    } else if e.canonical is Some && is_target(applied, e.canonical->0@) {
                        Some(e.shown@ + "  [applied]"@)
                    } else {
                        Some(e.shown@)
                    },
            );
            let known = walk.filter_map(
                |e: StoreEntry|
                    if is_profile(e) && e.canonical is Some && is_target(
                        applied,
                        e.canonical->0@,
                    ) {
                        Some(e.canonical->0@)
                    } else {
                        None
                    },
            );
            profile_lines(store, applied, walk) == (if own.len() == 0 {
                seq![
                    "no profiles in "@ + store
                        + " — drop binds .toml files there (see `autokey_check`)"@,
                ]
            } else {
                sorted_texts(own, own.len())
            }) + applied.filter_map(
                |a: Applied|
                    if known.contains(a.target@) {
                        None
                    } else {
                        Some(a.name@ + "  [applied from "@ + a.target@ + "]"@)
                    },
            )
        }),
{
    law_every_entry_has_its_line(applied, walk, walk.len());
    law_every_applied_entry_is_known(applied, walk, walk.len());
    law_every_foreign_profile_has_its_line(
        applied,
        matched(applied, walk, walk.len()),
        applied.len(),
    );
    assert(walk.take(walk.len() as int) =~= walk);
    assert(applied.take(applied.len() as int) =~= applied);
}

/// Whether some applied profile came from that path.
fn came_from(applied: &Vec<Applied>, path: &str) -> (r: bool)
    ensures
        r == is_target(applied@, path@),
{
    let mut i: usize = 0;
    while i < applied.len()
        invariant
            i <= applied.len(),
            forall|j: int| 0 <= j < i ==> (#[trigger] applied@[j]).target@ != path@,
        decreases applied.len() - i,
    {
        if same_text(applied[i].target.as_str(), path) {
            return true;
        }
        i += 1;
    }
    false
}

/// Whether an entry is a profile.
fn names_profile(e: &StoreEntry) -> (r: bool)
    ensures
        r == is_profile(*e),
{
    if e.is_dir {
        return false;
    }
    match extension_of(e.shown.as_str()) {
        Some(ext) => same_ignoring_case(ext.as_str(), "toml"),
        None => false,
    }
}

/// List the profile store: every profile in it and every directory, with what is applied marked,
/// and then what is applied from elsewhere. The paths are whole, made to be copied.
pub fn autokey_list_bashrs_profiles(
    store: &str,
    applied: &Vec<Applied>,
    walk: &Vec<StoreEntry>,
) -> (r: Vec<String>)
    ensures
        r.deep_view() == profile_lines(store@, applied@, walk@),
{
    let mut own: Vec<String> = Vec::new();
    let mut known: Vec<String> = Vec::new();
    assert(own.deep_view() =~= seq![]);
    assert(known.deep_view() =~= seq![]);
    let mut i: usize = 0;
    while i < walk.len()
        invariant
            i <= walk.len(),
            own.deep_view() == entry_lines(applied@, walk@, i as nat),
            known.deep_view() == matched(applied@, walk@, i as nat),
        decreases walk.len() - i,
    {
        let e: &StoreEntry = &walk[i];
        let ghost before = own.deep_view();
        let ghost before_known = known.deep_view();
        if e.is_dir {
            let mut line: String = e.shown.clone();
            line.append("/");
            let ghost added = line@;
            own.push(line);
            assert(own.deep_view() =~= before.push(added));
        } else if names_profile(e) {
            let live: bool = match &e.canonical {
                Some(path) => came_from(applied, path.as_str()),
                None => false,
            };
            let mut line: String = e.shown.clone();
            if live {
                line.append("  [applied]");
                if let Some(path) = &e.canonical {
                    push_text(&mut known, path.as_str());
                    assert(known.deep_view() =~= before_known.push(path@));
                }
            }
            let ghost added = line@;
            own.push(line);
            assert(own.deep_view() =~= before.push(added));
        }
        i += 1;
    }
    assert(own.deep_view().len() == own@.len());
    let mut out: Vec<String> = if own.len() == 0 {
        let mut text: String = "no profiles in ".to_owned();
        text.append(store);
        text.append(" — drop binds .toml files there (see `autokey_check`)");
        let mut one: Vec<String> = Vec::new();
        let ghost said = text@;
        one.push(text);
        assert(one.deep_view() =~= seq![said]);
        one
    } else {
        sort_texts(&own)
    };
    let ghost head = out.deep_view();
    assert(out.deep_view() =~= head + foreign_lines(applied@, known.deep_view(), 0));
    let mut k: usize = 0;
    while k < applied.len()
        invariant
            k <= applied.len(),
            out.deep_view() == head + foreign_lines(applied@, known.deep_view(), k as nat),
        decreases applied.len() - k,
    {
        let ghost before = out.deep_view();
        if !holds_text(&known, applied[k].target.as_str()) {
            let mut line: String = applied[k].name.clone();
            line.append("  [applied from ");
            line.append(applied[k].target.as_str());
            line.append("]");
            let ghost added = line@;
            out.push(line);
            assert(out.deep_view() =~= before.push(added));
        }
        k += 1;
        assert(out.deep_view() =~= head + foreign_lines(applied@, known.deep_view(), k as nat));
    }
    out
}

proof fn lemma_matched(applied: Seq<Applied>, walk: Seq<StoreEntry>, n: nat, path: Seq<char>)
    requires
        n <= walk.len(),
    ensures
        matched(applied, walk, n).contains(path) <==> exists|i: int|
            0 <= i < n && is_live(applied, #[trigger] walk[i]) && walk[i].canonical->0@ == path,
    decreases n,
{
    if n > 0 {
        lemma_matched(applied, walk, (n - 1) as nat, path);
        let before = matched(applied, walk, (n - 1) as nat);
        let after = matched(applied, walk, n);
        if is_live(applied, walk[n - 1]) {
            let added = walk[n - 1].canonical->0@;
            assert(after[after.len() - 1] == added);
            if before.contains(path) {
                let i = choose|i: int| 0 <= i < before.len() && before[i] == path;
                assert(after[i] == path);
            }
        }
    }
}

/// Every applied profile is accounted for: it is marked in the store's own lines, or listed with
/// where it came from; never both.
pub proof fn law_every_applied_profile_is_listed(
    applied: Seq<Applied>,
    walk: Seq<StoreEntry>,
    k: int,
)
    requires
        0 <= k < applied.len(),
    ensures
        matched(applied, walk, walk.len()).contains(applied[k].target@) <==> exists|i: int|
            0 <= i < walk.len() && is_live(applied, #[trigger] walk[i])
                && walk[i].canonical->0@ == applied[k].target@,
        !matched(applied, walk, walk.len()).contains(applied[k].target@) ==> foreign_lines(
            applied,
            matched(applied, walk, walk.len()),
            applied.len(),
        ).contains(applied[k].name@ + "  [applied from "@ + applied[k].target@ + "]"@),
{
    lemma_matched(applied, walk, walk.len(), applied[k].target@);
    lemma_foreign(applied, matched(applied, walk, walk.len()), k, applied.len());
}

proof fn lemma_foreign(applied: Seq<Applied>, known: Seq<Seq<char>>, k: int, n: nat)
    requires
        0 <= k < n <= applied.len(),
    ensures
        !known.contains(applied[k].target@) ==> foreign_lines(applied, known, n).contains(
            applied[k].name@ + "  [applied from "@ + applied[k].target@ + "]"@,
        ),
    decreases n,
{
    let line = applied[k].name@ + "  [applied from "@ + applied[k].target@ + "]"@;
    let after = foreign_lines(applied, known, n);
    if !known.contains(applied[k].target@) {
        if k < n - 1 {
            lemma_foreign(applied, known, k, (n - 1) as nat);
            let before = foreign_lines(applied, known, (n - 1) as nat);
            let i = choose|i: int| 0 <= i < before.len() && before[i] == line;
            assert(after[i] == line);
        } else {
            assert(after[after.len() - 1] == line);
        }
    }
}

// --- dl -------------------------------------------------------------------------------------

/// What `dl` decides before the download program takes over.
#[derive(Clone, Copy, Debug, PartialEq, Eq, Structural)]
pub enum DlStart {
    /// Print the coverage of sites.
    Help,
    /// Nothing was asked for: say so, and exit with 2.
    NothingAsked,
    Run,
}

/// What is said where `dl` is asked for nothing.
pub const DL_NOTHING_ASKED: &'static str = "dl: a URL is required (or -t, -c, or --cookies-extract-for-domain)";

/// What `dl` does: it wants an address, or one of the flags that stand alone.
pub fn dl(compatibility_help: bool, has_url: bool, taglist: bool, extracts_cookies: bool) -> (r:
    DlStart)
    ensures
        r == (if compatibility_help {
            DlStart::Help
        } else if !has_url && !taglist && !extracts_cookies {
            DlStart::NothingAsked
        } else {
            DlStart::Run
        }),
{
    if compatibility_help {
        DlStart::Help
    } else if !has_url && !taglist && !extracts_cookies {
        DlStart::NothingAsked
    } else {
        DlStart::Run
    }
}

} // verus!
