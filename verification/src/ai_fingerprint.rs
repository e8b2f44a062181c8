//! Does a file show signs of AI? (`detect_ai_*`)
//!
//! Three kinds of evidence in one walk: hidden characters in text, provenance labels in
//! metadata, and writing tells in prose. The three are graded, not pooled. The first two are
//! verifiable and they alone set the exit code; the third is style, reported with a caveat on
//! every finding and never able to fail a build.

use vstd::prelude::*;
use vstd::string::*;
use crate::anti_ai::{
    count_hits, file_findings, file_hits, findings_of, findings_report, hit_total, hits_of, hits_report,
    law_every_hit_counts, missing_target, no_such_path, report_file, report_metadata, scope, scope_note, LineHits, LineView,
    Outcome,
};
use crate::args::SkipArgs;
use crate::metadata::{Finding, FindingView};
use crate::paths::{lower_extension, lower_extension_of};
use crate::sequences::{lemma_filter_last, lemma_flat_map_last};
use crate::style::{painted, Paint, Palette};
use crate::text::{decimal, push_decimal, same_text};

verus! {

// --- writing tells --------------------------------------------------------------------------

/// A family of writing tells: its place among the families, the mark of its evidence tier, its
/// title, the section that describes it, and the reason to doubt it.
pub struct Family {
    pub rank: u32,
    pub mark: String,
    pub title: String,
    pub section: String,
    pub caveat: String,
}

/// One tell: its family, where it was found, what matched, and an excerpt.
pub struct Tell {
    pub family: Family,
    pub line: Option<usize>,
    pub detail: String,
    pub excerpt: String,
}

/// What the scan for writing tells says of one text.
pub struct TellsReport {
    pub tells: Vec<Tell>,
    /// How many words the text has.
    pub words: usize,
    /// How many families of tells there are.
    pub families: usize,
}

/// A family, by what it says.
pub struct FamilyView {
    pub rank: int,
    pub mark: Seq<char>,
    pub title: Seq<char>,
    pub section: Seq<char>,
    pub caveat: Seq<char>,
}

/// A tell, by what it says.
pub struct TellView {
    pub family: FamilyView,
    pub line: Option<int>,
    pub detail: Seq<char>,
    pub excerpt: Seq<char>,
}

impl View for Family {
    type V = FamilyView;

    open spec fn view(&self) -> FamilyView {
        FamilyView {
            rank: self.rank as int,
            mark: self.mark@,
            title: self.title@,
            section: self.section@,
            caveat: self.caveat@,
        }
    }
}

impl DeepView for Family {
    type V = FamilyView;

    open spec fn deep_view(&self) -> FamilyView {
        self@
    }
}

impl View for Tell {
    type V = TellView;

    open spec fn view(&self) -> TellView {
        TellView {
            family: self.family@,
            line: match self.line {
                Some(n) => Some(n as int),
                None => None,
            },
            detail: self.detail@,
            excerpt: self.excerpt@,
        }
    }
}

impl DeepView for Tell {
    type V = TellView;

    open spec fn deep_view(&self) -> TellView {
        self@
    }
}

/// How the scan for tells is to read a text: on a plain surface a visible `**` is residue, where
/// Markdown is rendered it is markup.
#[derive(Clone, Copy, PartialEq, Eq, Structural, Debug)]
pub struct Surface {
    pub surface_is_plain: bool,
}

/// Whether the file at `path` renders Markdown, which its extension decides in any case.
pub open spec fn is_markdown(path: Seq<char>) -> bool {
    match lower_extension(path) {
        Some(e) => e == "md"@ || e == "markdown"@,
        None => false,
    }
}

/// What only the path says about a file: whether its surface renders Markdown.
pub fn surface_of(path: &str) -> (r: Surface)
    ensures
        r.surface_is_plain == !is_markdown(path@),
{
    let markdown: bool = match lower_extension_of(path) {
        Some(e) => same_text(e.as_str(), "md") || same_text(e.as_str(), "markdown"),
        None => false,
    };
    Surface { surface_is_plain: !markdown }
}

// --- families -------------------------------------------------------------------------------

/// Where a family of rank `rank` belongs in a list in order of rank.
pub open spec fn place(list: Seq<FamilyView>, rank: int, from: int) -> int
    decreases list.len() - from,
{
    if from >= list.len() || list[from].rank >= rank {
        from
    } else {
        place(list, rank, from + 1)
    }
}

/// A list in order of rank with one family more, unless one of its rank is there.
pub open spec fn with_family(list: Seq<FamilyView>, family: FamilyView) -> Seq<FamilyView> {
    let p = place(list, family.rank, 0);
    if p < list.len() && list[p].rank == family.rank {
        list
    } else {
        list.insert(p, family)
    }
}

/// A list in order of rank with the families of the first `n` tells.
pub open spec fn with_tells(list: Seq<FamilyView>, tells: Seq<TellView>, n: nat) -> Seq<FamilyView>
    decreases n,
{
    if n == 0 {
        list
    } else {
        with_family(with_tells(list, tells, (n - 1) as nat), tells[n - 1].family)
    }
}

proof fn lemma_place_of_rank(list: Seq<FamilyView>, rank: int, from: int)
    requires
        0 <= from <= list.len(),
    ensures
        from <= place(list, rank, from) <= list.len(),
        forall|i: int| from <= i < place(list, rank, from) ==> (#[trigger] list[i]).rank < rank,
        place(list, rank, from) < list.len() ==> list[place(list, rank, from)].rank >= rank,
    decreases list.len() - from,
{
    if from < list.len() && list[from].rank < rank {
        lemma_place_of_rank(list, rank, from + 1);
    }
}

/// The family of every tell is in the list, and nothing is that was neither there before nor is the
/// family of a tell.
pub proof fn law_every_family_that_fired_is_listed(
    list: Seq<FamilyView>,
    tells: Seq<TellView>,
    n: nat,
)
    requires
        n <= tells.len(),
    ensures
        ({
            let all = with_tells(list, tells, n);
            &&& forall|i: int|
                0 <= i < n ==> exists|j: int|
                    0 <= j < all.len() && (#[trigger] all[j]).rank == (
                    #[trigger] tells[i]).family.rank
            &&& forall|i: int| 0 <= i < list.len() ==> all.contains(#[trigger] list[i])
            &&& forall|j: int|
                0 <= j < all.len() ==> list.contains(#[trigger] all[j]) || exists|i: int|
                    0 <= i < n && (#[trigger] tells[i]).family == all[j]
        }),
    decreases n,
{
    if n > 0 {
        law_every_family_that_fired_is_listed(list, tells, (n - 1) as nat);
        let before = with_tells(list, tells, (n - 1) as nat);
        let all = with_tells(list, tells, n);
        let family = tells[n - 1].family;
        lemma_place_of_rank(before, family.rank, 0);
        let p = place(before, family.rank, 0);
        let there = p < before.len() && before[p].rank == family.rank;
        assert forall|k: int| 0 <= k < before.len() implies all.contains(#[trigger] before[k]) by {
            if there || k < p {
                assert(all[k] == before[k]);
            } else {
                assert(all[k + 1] == before[k]);
            }
        }
        assert(all[p].rank == family.rank);
        assert forall|i: int| 0 <= i < n implies exists|j: int|
            0 <= j < all.len() && (#[trigger] all[j]).rank == (#[trigger] tells[i]).family.rank by {
            if i < n - 1 {
                let k = choose|k: int|
                    0 <= k < before.len() && (#[trigger] before[k]).rank == tells[i].family.rank;
                assert(all.contains(before[k]));
                let j = choose|j: int| 0 <= j < all.len() && all[j] == before[k];
                assert(all[j].rank == tells[i].family.rank);
            }
        }
        assert forall|i: int| 0 <= i < list.len() implies all.contains(#[trigger] list[i]) by {
            assert(before.contains(list[i]));
            let k = choose|k: int| 0 <= k < before.len() && before[k] == list[i];
            assert(all.contains(before[k]));
        }
        assert forall|j: int| 0 <= j < all.len() implies list.contains(#[trigger] all[j]) || exists|
            i: int,
        | 0 <= i < n && (#[trigger] tells[i]).family == all[j] by {
            if !there && j == p {
                assert(tells[n - 1].family == all[j]);
            } else {
                let k = if there || j < p {
                    j
                } else {
                    j - 1
                };
                assert(all[j] == before[k]);
                if !list.contains(before[k]) {
                    let i = choose|i: int| 0 <= i < n - 1 && (#[trigger] tells[i]).family == before[k];
                    assert(tells[i].family == all[j]);
                }
            }
        }
    }
}

/// Whether a list is in strict order of rank: sorted, and no rank twice.
pub open spec fn in_order(list: Seq<FamilyView>) -> bool {
    forall|i: int, j: int| 0 <= i < j < list.len() ==> list[i].rank < list[j].rank
}

proof fn lemma_place(list: Seq<FamilyView>, rank: int, from: int)
    requires
        0 <= from <= list.len(),
        in_order(list),
        forall|j: int| 0 <= j < from ==> list[j].rank < rank,
    ensures
        from <= place(list, rank, from) <= list.len(),
        forall|j: int| 0 <= j < place(list, rank, from) ==> list[j].rank < rank,
        forall|j: int| place(list, rank, from) <= j < list.len() ==> list[j].rank >= rank,
    decreases list.len() - from,
{
    if from < list.len() && list[from].rank < rank {
        lemma_place(list, rank, from + 1);
    }
}

/// Whether some family of a list has the rank.
pub open spec fn has_rank(list: Seq<FamilyView>, rank: int) -> bool {
    exists|i: int| 0 <= i < list.len() && (#[trigger] list[i]).rank == rank
}

/// Adding a family keeps a list in strict order, and adds its rank and no other.
pub proof fn law_families_stay_in_order(list: Seq<FamilyView>, family: FamilyView)
    requires
        in_order(list),
    ensures
        in_order(with_family(list, family)),
        forall|rank: int|
            has_rank(with_family(list, family), rank) <==> has_rank(list, rank) || rank
                == family.rank,
{
    let p = place(list, family.rank, 0);
    lemma_place(list, family.rank, 0);
    let more = with_family(list, family);
    if !(p < list.len() && list[p].rank == family.rank) {
        assert forall|rank: int| has_rank(list, rank) || rank == family.rank implies has_rank(
            more,
            rank,
        ) by {
            if rank == family.rank {
                assert(more[p].rank == rank);
            } else {
                let i = choose|i: int| 0 <= i < list.len() && (#[trigger] list[i]).rank == rank;
                if i < p {
                    assert(more[i] == list[i]);
                } else {
                    assert(more[i + 1] == list[i]);
                }
            }
        }
        assert forall|rank: int| has_rank(more, rank) implies has_rank(list, rank) || rank
            == family.rank by {
            let i = choose|i: int| 0 <= i < more.len() && (#[trigger] more[i]).rank == rank;
            if i < p {
                assert(more[i] == list[i]);
            } else if i > p {
                assert(more[i] == list[i - 1]);
            }
        }
    }
}

/// A copy of a family.
fn copy_family(f: &Family) -> (r: Family)
    ensures
        r@ == f@,
{
    Family {
        rank: f.rank,
        mark: f.mark.clone(),
        title: f.title.clone(),
        section: f.section.clone(),
        caveat: f.caveat.clone(),
    }
}

/// Add a family to a list in order of rank.
fn add_family(list: &mut Vec<Family>, family: &Family)
    ensures
        final(list).deep_view() == with_family(old(list).deep_view(), family@),
{
    let ghost before = list.deep_view();
    let mut p: usize = 0;
    while p < list.len() && list[p].rank < family.rank
        invariant
            p <= list.len(),
            list.deep_view() == before,
            place(before, family.rank as int, 0) == place(before, family.rank as int, p as int),
        decreases list.len() - p,
    {
        assert(list.deep_view()[p as int] == list@[p as int]@);
        p += 1;
    }
    proof {
        if p < list@.len() {
            assert(list.deep_view()[p as int] == list@[p as int]@);
        }
    }
    if p < list.len() && list[p].rank == family.rank {
        return;
    }
    list.insert(p, copy_family(family));
    assert(list.deep_view() =~= before.insert(p as int, family@));
}

/// Add the families of a text's tells to a list in order of rank.
fn add_tells(list: &mut Vec<Family>, tells: &Vec<Tell>)
    ensures
        final(list).deep_view() == with_tells(
            old(list).deep_view(),
            tells.deep_view(),
            tells.deep_view().len(),
        ),
{
    let mut i: usize = 0;
    while i < tells.len()
        invariant
            i <= tells.len(),
            list.deep_view() == with_tells(old(list).deep_view(), tells.deep_view(), i as nat),
        decreases tells.len() - i,
    {
        assert(tells.deep_view()[i as int] == tells@[i as int]@);
        add_family(list, &tells[i].family);
        i += 1;
    }
    assert(tells.deep_view().len() == tells@.len());
}

// --- reports --------------------------------------------------------------------------------

/// Where a tell was found.
pub open spec fn tell_place(line: Option<int>) -> Seq<char> {
    match line {
        Some(n) => "line "@ + decimal(n as nat) + ": "@,
        None => seq![],
    }
}

/// One tell: the evidence mark, the family, where, and why it matched.
pub open spec fn tell_report(t: TellView) -> Seq<char> {
    "  "@ + t.family.mark + " "@ + t.family.title + " — "@ + tell_place(t.line) + t.detail + "\n"@ + (if t.excerpt.len()
        == 0 {
        seq![]
    } else {
        "       "@ + t.excerpt + "\n"@
    })
}

/// The first `n` tells.
pub open spec fn tell_reports(tells: Seq<TellView>, n: nat) -> Seq<char>
    decreases n,
{
    if n == 0 {
        seq![]
    } else {
        tell_reports(tells, (n - 1) as nat) + tell_report(tells[n - 1])
    }
}

/// Every tell is reported, in order.
pub proof fn law_every_tell_is_reported(tells: Seq<TellView>, n: nat)
    requires
        n <= tells.len(),
    ensures
        tell_reports(tells, n) == tells.take(n as int).flat_map(
            |t: TellView|
                "  "@ + t.family.mark + " "@ + t.family.title + " — "@ + tell_place(t.line) + t.detail + "\n"@
                    + (if t.excerpt.len() == 0 {
                    seq![]
                } else {
                    "       "@ + t.excerpt + "\n"@
                }),
        ),
    decreases n,
{
    if n > 0 {
        law_every_tell_is_reported(tells, (n - 1) as nat);
        lemma_flat_map_last(
            tells,
            |t: TellView|
                "  "@ + t.family.mark + " "@ + t.family.title + " — "@ + tell_place(t.line) + t.detail + "\n"@
                    + (if t.excerpt.len() == 0 {
                    seq![]
                } else {
                    "       "@ + t.excerpt + "\n"@
                }),
            n,
        );
    }
}

/// One file's writing tells, and how many families they are of.
pub open spec fn tells_text(report: TellsReport, notice: Paint) -> Seq<char> {
    let tells = report.tells.deep_view();
    tell_reports(tells, tells.len()) + "  "@ + painted(
        notice,
        decimal(with_tells(seq![], tells, tells.len()).len()) + " of "@ + decimal(
            report.families as nat,
        ) + " tell families, in "@ + decimal(report.words as nat) + " words"@,
    ) + "\n"@
}

/// Every tell of a file is reported, and how many families of how many fired is said.
pub proof fn law_the_whole_report_of_tells(report: TellsReport, notice: Paint)
    ensures
        ({
            let tells = report.tells.deep_view();
            tells_text(report, notice) == tells.flat_map(
                |t: TellView|
                    "  "@ + t.family.mark + " "@ + t.family.title + " — "@ + tell_place(t.line)
                        + t.detail + "\n"@ + (if t.excerpt.len() == 0 {
                        seq![]
                    } else {
                        "       "@ + t.excerpt + "\n"@
                    }),
            ) + "  "@ + painted(
                notice,
                decimal(with_tells(seq![], tells, tells.len()).len()) + " of "@ + decimal(
                    report.families as nat,
                ) + " tell families, in "@ + decimal(report.words as nat) + " words"@,
            ) + "\n"@
        }),
{
    let tells = report.tells.deep_view();
    law_every_tell_is_reported(tells, tells.len());
    assert(tells.take(tells.len() as int) =~= tells);
}

/// One tell.
fn report_tell(t: &Tell) -> (r: String)
    ensures
        r@ == tell_report(t@),
{
    let mut out: String = "  ".to_owned();
    out.append(t.family.mark.as_str());
    out.append(" ");
    out.append(t.family.title.as_str());
    out.append(" — ");
    let mut at: String = String::new();
    if let Some(n) = t.line {
        at.append("line ");
        push_decimal(&mut at, n as u128);
        at.append(": ");
        assert(at@ =~= "line "@ + decimal(n as nat) + ": "@);
    }
    out.append(at.as_str());
    out.append(t.detail.as_str());
    out.append("\n");
    let mut tail: String = String::new();
    if !t.excerpt.as_str().is_empty() {
        tail.append("       ");
        tail.append(t.excerpt.as_str());
        tail.append("\n");
        assert(tail@ =~= "       "@ + t.excerpt@ + "\n"@);
    }
    out.append(tail.as_str());
    out
}

/// One file's writing tells.
pub fn report_tells(report: &TellsReport, notice: &Paint) -> (r: String)
    ensures
        r@ == tells_text(*report, *notice),
{
    let mut out: String = String::new();
    let mut i: usize = 0;
    while i < report.tells.len()
        invariant
            i <= report.tells.len(),
            out@ == tell_reports(report.tells.deep_view(), i as nat),
        decreases report.tells.len() - i,
    {
        assert(report.tells.deep_view()[i as int] == report.tells@[i as int]@);
        out.append(report_tell(&report.tells[i]).as_str());
        i += 1;
    }
    let mut fired: Vec<Family> = Vec::new();
    assert(fired.deep_view() =~= seq![]);
    add_tells(&mut fired, &report.tells);
    assert(fired.deep_view().len() == fired@.len());
    let mut line: String = String::new();
    push_decimal(&mut line, fired.len() as u128);
    assert(line@ =~= decimal(fired@.len()));
    line.append(" of ");
    push_decimal(&mut line, report.families as u128);
    line.append(" tell families, in ");
    push_decimal(&mut line, report.words as u128);
    line.append(" words");
    out.append("  ");
    out.append(notice.paint(line.as_str()).as_str());
    out.append("\n");
    out
}

/// Why each of the first `n` families might be innocent.
pub open spec fn caveats(fired: Seq<FamilyView>, n: nat) -> Seq<char>
    decreases n,
{
    if n == 0 {
        seq![]
    } else {
        let f = fired[n - 1];
        caveats(fired, (n - 1) as nat) + ("  "@ + f.mark + " "@ + f.title + " (§"@ + f.section + ") — "@
            + f.caveat + "\n"@)
    }
}

/// Every family that fired has its caveat, in order.
pub proof fn law_every_fired_family_has_its_caveat(fired: Seq<FamilyView>, n: nat)
    requires
        n <= fired.len(),
    ensures
        caveats(fired, n) == fired.take(n as int).flat_map(
            |f: FamilyView|
                "  "@ + f.mark + " "@ + f.title + " (§"@ + f.section + ") — "@ + f.caveat + "\n"@,
        ),
    decreases n,
{
    if n > 0 {
        law_every_fired_family_has_its_caveat(fired, (n - 1) as nat);
        lemma_flat_map_last(
            fired,
            |f: FamilyView|
                "  "@ + f.mark + " "@ + f.title + " (§"@ + f.section + ") — "@ + f.caveat + "\n"@,
            n,
        );
    }
}

/// The standing warning: none of this identifies a document.
pub const WARNING: &'static str =
    "None of this is proof of AI authorship. Every marker has a legitimate human use, the strongest are corpus-level statistics being read against single documents, and a text ABOUT these markers looks exactly like one exhibiting them. Weigh clusters of independent families, never a single hit.";

/// The part of the report that must never be omitted.
pub open spec fn epilogue(files: nat, fired: Seq<FamilyView>, palette: Palette) -> Seq<char> {
    if files == 0 {
        painted(palette.approved, "no writing tells found"@) + "\n  "@ + painted(
            palette.notice,
            "absence means nothing either — these markers are trivially removable"@,
        ) + "\n"@
    } else {
        "\n"@ + painted(palette.problematic, "tells in "@ + decimal(files) + " file(s)"@)
            + "\n\nwhy each family might be innocent:\n"@ + caveats(fired, fired.len()) + "\n"@ + painted(
            palette.problematic,
            WARNING@,
        ) + "\n"@
    }
}

/// Where there are tells, the caveat of every family that fired is given, and the warning last.
pub proof fn law_every_caveat_is_given(files: nat, fired: Seq<FamilyView>, palette: Palette)
    requires
        files > 0,
    ensures
        epilogue(files, fired, palette) == "\n"@ + painted(
            palette.problematic,
            "tells in "@ + decimal(files) + " file(s)"@,
        ) + "\n\nwhy each family might be innocent:\n"@ + fired.flat_map(
            |f: FamilyView|
                "  "@ + f.mark + " "@ + f.title + " (§"@ + f.section + ") — "@ + f.caveat + "\n"@,
        ) + "\n"@ + painted(palette.problematic, WARNING@) + "\n"@,
{
    law_every_fired_family_has_its_caveat(fired, fired.len());
    assert(fired.take(fired.len() as int) =~= fired);
}

/// Which families fired, the reason to doubt each one, and the standing warning.
pub fn tells_epilogue(files: u64, fired: &Vec<Family>, palette: &Palette) -> (r: String)
    ensures
        r@ == epilogue(files as nat, fired.deep_view(), *palette),
{
    if files == 0 {
        let mut out: String = palette.approved.paint("no writing tells found");
        out.append("\n  ");
        out.append(
            palette.notice.paint(
                "absence means nothing either — these markers are trivially removable",
            ).as_str(),
        );
        out.append("\n");
        return out;
    }
    let mut count: String = "tells in ".to_owned();
    push_decimal(&mut count, files as u128);
    count.append(" file(s)");
    let mut list: String = String::new();
    let mut i: usize = 0;
    while i < fired.len()
        invariant
            i <= fired.len(),
            list@ == caveats(fired.deep_view(), i as nat),
        decreases fired.len() - i,
    {
        assert(fired.deep_view()[i as int] == fired@[i as int]@);
        let f: &Family = &fired[i];
        let mut line: String = "  ".to_owned();
        line.append(f.mark.as_str());
        line.append(" ");
        line.append(f.title.as_str());
        line.append(" (§");
        line.append(f.section.as_str());
        line.append(") — ");
        line.append(f.caveat.as_str());
        line.append("\n");
        list.append(line.as_str());
        i += 1;
    }
    assert(fired.deep_view().len() == fired@.len());
    let mut out: String = "\n".to_owned();
    out.append(palette.problematic.paint(count.as_str()).as_str());
    out.append("\n\nwhy each family might be innocent:\n");
    out.append(list.as_str());
    out.append("\n");
    out.append(palette.problematic.paint(WARNING).as_str());
    out.append("\n");
    out
}

// --- the whole scan -------------------------------------------------------------------------

/// The arguments of the fingerprint scan.
pub struct FingerprintArgs {
    /// File or directory to scan; a directory is walked recursively.
    pub target: String,
    /// Paths to leave out of the walk.
    pub skip: SkipArgs,
    /// Whether exotic spaces go unreported.
    pub skip_spaces: bool,
    /// Whether metadata goes unscanned.
    pub skip_metadata: bool,
    /// Whether writing tells go unreported.
    pub skip_tells: bool,
    /// Whether the characters that build emoji are reported too.
    pub emoji: bool,
    /// Largest file to read, in bytes.
    pub max_file_size: u64,
}

/// One file of the walk: its path, its text where it has some, its bytes where they were read,
/// and what the scan for writing tells says of the text.
pub struct ProseFile {
    pub path: String,
    pub text: Option<String>,
    pub bytes: Option<Vec<u8>>,
    pub prose: Option<TellsReport>,
}

/// The hidden characters of a file of the walk.
pub open spec fn hits_in(file: ProseFile, args: FingerprintArgs) -> Seq<LineView> {
    file_hits(file.text.deep_view(), args.skip_spaces, args.emoji)
}

/// The metadata of a file of the walk.
pub open spec fn findings_in(file: ProseFile, args: FingerprintArgs) -> Seq<FindingView> {
    file_findings(
        file.path@,
        match file.bytes {
            Some(b) => Some(b@),
            None => None,
        },
        args.skip_metadata,
    )
}

/// Whether the writing tells of a file count: they are asked for, and the file has text.
pub open spec fn tells_count(file: ProseFile, args: FingerprintArgs) -> bool {
    !args.skip_tells && file.text is Some && file.prose is Some
}

/// The writing tells of a file of the walk.
pub open spec fn tells_in(file: ProseFile, args: FingerprintArgs) -> Seq<TellView> {
    if tells_count(file, args) {
        file.prose->0.tells.deep_view()
    } else {
        seq![]
    }
}

/// Whether a file has a verifiable mark: a hidden character or a metadata finding.
pub open spec fn is_verifiable(file: ProseFile, args: FingerprintArgs) -> bool {
    hits_in(file, args).len() > 0 || findings_in(file, args).len() > 0
}

/// The report of one file: nothing for a file without mark or tell.
pub open spec fn file_report(file: ProseFile, args: FingerprintArgs, palette: Palette) -> Seq<char> {
    if is_verifiable(file, args) || tells_in(file, args).len() > 0 {
        "\n"@ + painted(palette.notice, file.path@) + "\n"@ + hits_report(
            hits_in(file, args),
            hits_in(file, args).len(),
            palette.problematic,
        ) + findings_report(findings_in(file, args), findings_in(file, args).len(), palette) + (
        if tells_count(file, args) {
            tells_text(file.prose->0, palette.notice)
        } else {
            seq![]
        })
    } else {
        seq![]
    }
}

/// A file is reported exactly where it has a mark or a tell: its path, its hidden characters, its
/// findings, and its tells unless they are skipped.
pub proof fn law_a_file_with_anything_is_reported(
    file: ProseFile,
    args: FingerprintArgs,
    palette: Palette,
)
    ensures
        ({
            let hits = hits_in(file, args);
            let findings = findings_in(file, args);
            let tells = if !args.skip_tells && file.text is Some && file.prose is Some {
                file.prose->0.tells.deep_view()
            } else {
                seq![]
            };
            file_report(file, args, palette) == if hits.len() == 0 && findings.len() == 0
                && tells.len() == 0 {
                seq![]
            } else {
                "\n"@ + painted(palette.notice, file.path@) + "\n"@ + hits_report(
                    hits,
                    hits.len(),
                    palette.problematic,
                ) + findings_report(findings, findings.len(), palette) + (if !args.skip_tells
                    && file.text is Some && file.prose is Some {
                    tells_text(file.prose->0, palette.notice)
                } else {
                    seq![]
                })
            }
        }),
{
}

/// A file is looked at for hidden characters where it has text, and for metadata where its format
/// has an extractor, unless metadata is skipped.
pub proof fn law_what_is_looked_at(file: ProseFile, args: FingerprintArgs)
    ensures
        hits_in(file, args) == match file.text {
            Some(text) => crate::anti_ai::scan_of(text@, !args.skip_spaces, args.emoji),
            None => seq![],
        },
        findings_in(file, args) == if args.skip_metadata || file.bytes is None
            || crate::metadata::file_format(file.path@) is None {
            seq![]
        } else {
            crate::metadata::extracted(
                crate::metadata::file_format(file.path@)->0,
                file.bytes->0@,
                true,
            )
        },
{
}

/// What the files seen so far amount to.
pub struct Tally {
    pub files: u64,
    pub files_with_marks: u64,
    pub files_with_tells: u64,
    pub total_hidden: u128,
    pub total_meta: u128,
    /// The families that fired, in order and each once.
    pub fired: Vec<Family>,
}

/// A tally, by what it says.
pub struct TallyView {
    pub files: nat,
    pub files_with_marks: nat,
    pub files_with_tells: nat,
    pub total_hidden: nat,
    pub total_meta: nat,
    pub fired: Seq<FamilyView>,
}

impl View for Tally {
    type V = TallyView;

    open spec fn view(&self) -> TallyView {
        TallyView {
            files: self.files as nat,
            files_with_marks: self.files_with_marks as nat,
            files_with_tells: self.files_with_tells as nat,
            total_hidden: self.total_hidden as nat,
            total_meta: self.total_meta as nat,
            fired: self.fired.deep_view(),
        }
    }
}

impl TallyView {
    /// Nothing seen yet.
    pub open spec fn empty() -> TallyView {
        TallyView {
            files: 0,
            files_with_marks: 0,
            files_with_tells: 0,
            total_hidden: 0,
            total_meta: 0,
            fired: seq![],
        }
    }

    /// The tally after one more file.
    pub open spec fn after(self, file: ProseFile, args: FingerprintArgs) -> TallyView {
        TallyView {
            files: self.files + 1,
            files_with_marks: self.files_with_marks + if is_verifiable(file, args) {
                1nat
            } else {
                0nat
            },
            files_with_tells: self.files_with_tells + if tells_in(file, args).len() > 0 {
                1nat
            } else {
                0nat
            },
            total_hidden: self.total_hidden + hit_total(
                hits_in(file, args),
                hits_in(file, args).len(),
            ),
            total_meta: self.total_meta + findings_in(file, args).len(),
            fired: with_tells(self.fired, tells_in(file, args), tells_in(file, args).len()),
        }
    }

    /// The summary line.
    pub open spec fn verdict(self, skip: SkipArgs, palette: Palette) -> Seq<char> {
        if self.files_with_marks == 0 && self.files_with_tells == 0 {
            painted(palette.approved, "no AI marks, metadata or writing tells found"@) + scope(skip)
                + "\n"@
        } else {
            "\n"@ + painted(
                palette.problematic,
                decimal(self.total_hidden) + " hidden character(s), "@ + decimal(self.total_meta)
                    + " metadata finding(s) across "@ + decimal(self.files_with_marks)
                    + " file(s); writing tells in "@ + decimal(self.files_with_tells) + " file(s)"@
                    + scope(skip),
            ) + "\n"@
        }
    }

    /// The last lines of the report: the summary, then the epilogue unless tells are skipped.
    pub open spec fn summary_text(self, skip: SkipArgs, skip_tells: bool, palette: Palette) -> Seq<
        char,
    > {
        if skip_tells {
            self.verdict(skip, palette)
        } else {
            self.verdict(skip, palette) + epilogue(self.files_with_tells, self.fired, palette)
        }
    }
}

impl Tally {
    /// The totals stay within what the files seen can hold.
    pub open spec fn wf(self) -> bool {
        &&& self.files_with_marks <= self.files
        &&& self.files_with_tells <= self.files
        &&& self.total_hidden <= self.files * u64::MAX
        &&& self.total_meta <= self.files * u64::MAX
    }

    /// Nothing seen yet.
    pub fn new() -> (r: Tally)
        ensures
            r@ == TallyView::empty(),
            r.wf(),
    {
        let fired: Vec<Family> = Vec::new();
        assert(fired.deep_view() =~= seq![]);
        Tally {
            files: 0,
            files_with_marks: 0,
            files_with_tells: 0,
            total_hidden: 0,
            total_meta: 0,
            fired,
        }
    }

    /// Count one more file, and say what its part of the report is.
    pub fn note_file(&mut self, file: &ProseFile, args: &FingerprintArgs, palette: &Palette) -> (r:
        String)
        requires
            old(self).wf(),
            old(self).files < u64::MAX,
        ensures
            final(self).wf(),
            final(self)@ == old(self)@.after(*file, *args),
            r@ == file_report(*file, *args, *palette),
    {
        let hits: Vec<LineHits> = hits_of(&file.text, args.skip_spaces, args.emoji);
        let findings: Vec<Finding> = findings_of(file.path.as_str(), &file.bytes, args.skip_metadata);
        let hidden: usize = count_hits(&file.text, &hits, args.skip_spaces, args.emoji);
        assert(hits.deep_view().len() == hits@.len());
        assert(findings.deep_view().len() == findings@.len());
        let verifiable: bool = hits.len() > 0 || findings.len() > 0;
        self.files = self.files + 1;
        self.total_hidden = self.total_hidden + hidden as u128;
        self.total_meta = self.total_meta + findings.len() as u128;
        if verifiable {
            self.files_with_marks = self.files_with_marks + 1;
        }
        let mut told: String = String::new();
        let mut tells: usize = 0;
        let ghost fired = self.fired.deep_view();
        assert(with_tells(fired, seq![], 0) == fired);
        if !args.skip_tells && file.text.is_some() {
            if let Some(report) = &file.prose {
                assert(report.tells.deep_view().len() == report.tells@.len());
                tells = report.tells.len();
                told = report_tells(report, &palette.notice);
                add_tells(&mut self.fired, &report.tells);
            }
        }
        if tells > 0 {
            self.files_with_tells = self.files_with_tells + 1;
        }
        if !verifiable && tells == 0 {
            return String::new();
        }
        let mut out: String = "\n".to_owned();
        out.append(palette.notice.paint(file.path.as_str()).as_str());
        out.append("\n");
        out.append(report_file(&hits, &palette.problematic).as_str());
        out.append(report_metadata(&findings, palette).as_str());
        out.append(told.as_str());
        out
    }

    /// The summary line. What was skipped is named on both paths.
    fn verdict_line(&self, skip: &SkipArgs, palette: &Palette) -> (r: String)
        ensures
            r@ == self@.verdict(*skip, *palette),
    {
        let note: String = scope_note(skip);
        if self.files_with_marks == 0 && self.files_with_tells == 0 {
            let mut out: String = palette.approved.paint(
                "no AI marks, metadata or writing tells found",
            );
            out.append(note.as_str());
            out.append("\n");
            out
        } else {
            let mut line: String = String::new();
            push_decimal(&mut line, self.total_hidden);
            assert(line@ =~= decimal(self.total_hidden as nat));
            line.append(" hidden character(s), ");
            push_decimal(&mut line, self.total_meta);
            line.append(" metadata finding(s) across ");
            push_decimal(&mut line, self.files_with_marks as u128);
            line.append(" file(s); writing tells in ");
            push_decimal(&mut line, self.files_with_tells as u128);
            line.append(" file(s)");
            line.append(note.as_str());
            let mut out: String = "\n".to_owned();
            out.append(palette.problematic.paint(line.as_str()).as_str());
            out.append("\n");
            out
        }
    }

    /// The last lines of the report.
    pub fn summary(&self, skip: &SkipArgs, skip_tells: bool, palette: &Palette) -> (r: String)
        ensures
            r@ == self@.summary_text(*skip, skip_tells, *palette),
    {
        let mut out: String = self.verdict_line(skip, palette);
        if !skip_tells {
            out.append(tells_epilogue(self.files_with_tells, &self.fired, palette).as_str());
        }
        out
    }

    /// Nonzero on the verifiable half only: writing tells are style and prove nothing.
    pub fn exit_code(&self) -> (r: i32)
        ensures
            r == if self@.files_with_marks > 0 {
                1i32
            } else {
                0
            },
    {
        if self.files_with_marks > 0 {
            1
        } else {
            0
        }
    }
}

/// The tally after the first `n` files.
pub open spec fn tally_of(files: Seq<ProseFile>, n: nat, args: FingerprintArgs) -> TallyView
    decreases n,
{
    if n == 0 {
        TallyView::empty()
    } else {
        tally_of(files, (n - 1) as nat, args).after(files[n - 1], args)
    }
}

/// Every file of a walk is counted: those with a mark, those with a tell, and all their hits and
/// findings.
pub proof fn law_every_file_is_tallied(files: Seq<ProseFile>, n: nat, args: FingerprintArgs)
    requires
        n <= files.len(),
    ensures
        tally_of(files, n, args).files == n,
        tally_of(files, n, args).files_with_marks == files.take(n as int).filter(
            |f: ProseFile| hits_in(f, args).len() > 0 || findings_in(f, args).len() > 0,
        ).len(),
        tally_of(files, n, args).files_with_tells == files.take(n as int).filter(
            |f: ProseFile| tells_in(f, args).len() > 0,
        ).len(),
        tally_of(files, n, args).total_hidden == files.take(n as int).flat_map(
            |f: ProseFile| hits_in(f, args).flat_map(|l: LineView| l.chars),
        ).len(),
        tally_of(files, n, args).total_meta == files.take(n as int).flat_map(
            |f: ProseFile| findings_in(f, args),
        ).len(),
    decreases n,
{
    if n == 0 {
        reveal(Seq::filter);
    } else {
        law_every_file_is_tallied(files, (n - 1) as nat, args);
        let f = files[n - 1];
        lemma_filter_last(
            files,
            |f: ProseFile| hits_in(f, args).len() > 0 || findings_in(f, args).len() > 0,
            n,
        );
        lemma_filter_last(files, |f: ProseFile| tells_in(f, args).len() > 0, n);
        lemma_flat_map_last(
            files,
            |f: ProseFile| hits_in(f, args).flat_map(|l: LineView| l.chars),
            n,
        );
        lemma_flat_map_last(files, |f: ProseFile| findings_in(f, args), n);
        law_every_hit_counts(hits_in(f, args), hits_in(f, args).len());
        assert(hits_in(f, args).take(hits_in(f, args).len() as int) =~= hits_in(f, args));
    }
}

/// The reports of the first `n` files.
pub open spec fn reports_of(
    files: Seq<ProseFile>,
    n: nat,
    args: FingerprintArgs,
    palette: Palette,
) -> Seq<char>
    decreases n,
{
    if n == 0 {
        seq![]
    } else {
        reports_of(files, (n - 1) as nat, args, palette) + file_report(files[n - 1], args, palette)
    }
}

/// The report goes through the files in order, each for itself.
pub proof fn law_every_file_is_reported(
    files: Seq<ProseFile>,
    n: nat,
    args: FingerprintArgs,
    palette: Palette,
)
    requires
        n <= files.len(),
    ensures
        reports_of(files, n, args, palette) == files.take(n as int).flat_map(
            |file: ProseFile| file_report(file, args, palette),
        ),
    decreases n,
{
    if n > 0 {
        law_every_file_is_reported(files, (n - 1) as nat, args, palette);
        lemma_flat_map_last(
            files,
            |file: ProseFile| file_report(file, args, palette),
            n,
        );
    }
}

/// The name that the fingerprint scan speaks under.
pub const FINGERPRINT_COMMAND: &'static str = "detect_ai_textual_fingerprint";

/// Find AI marks in the files of a walk: hidden characters, provenance in metadata, and writing
/// tells in prose. Only the first two set the exit code. Changes nothing. `walk` holds the files
/// below the target, nothing where the target does not exist.
pub fn textual_fingerprint(
    args: &FingerprintArgs,
    walk: &Option<Vec<ProseFile>>,
    palette: &Palette,
) -> (r: Outcome)
    ensures
        match *walk {
            Some(files) => r.report@ == reports_of(files@, files@.len(), *args, *palette)
                + tally_of(files@, files@.len(), *args).summary_text(
                args.skip,
                args.skip_tells,
                *palette,
            ) && r.complaint is None,
            None => r.report@ == Seq::<char>::empty() && r.complaint.deep_view() == Some(
                no_such_path(FINGERPRINT_COMMAND@, args.target@),
            ),
        },
        r.exit_code == 0 <==> (*walk matches Some(files) && forall|i: int|
            0 <= i < files@.len() ==> !is_verifiable(#[trigger] files@[i], *args)),
        r.exit_code == 0 || r.exit_code == 1,
{
    let files: &Vec<ProseFile> = match walk {
        Some(files) => files,
        None => return missing_target(FINGERPRINT_COMMAND, args.target.as_str()),
    };
    let mut tally: Tally = Tally::new();
    let mut report: String = String::new();
    let mut i: usize = 0;
    while i < files.len()
        invariant
            i <= files.len(),
            tally.wf(),
            tally.files == i,
            tally@ == tally_of(files@, i as nat, *args),
            report@ == reports_of(files@, i as nat, *args, *palette),
            tally@.files_with_marks == 0 <==> (forall|j: int|
                0 <= j < i ==> !is_verifiable(#[trigger] files@[j], *args)),
        decreases files.len() - i,
    {
        let ghost before = tally@;
        let part: String = tally.note_file(&files[i], args, palette);
        assert(tally@ == before.after(files@[i as int], *args));
        assert(is_verifiable(files@[i as int], *args) || !is_verifiable(files@[i as int], *args));
        report.append(part.as_str());
        i += 1;
    }
    report.append(tally.summary(&args.skip, args.skip_tells, palette).as_str());
    Outcome { report, complaint: None, exit_code: tally.exit_code() }
}

/// Writing tells never reach the exit code: it is what it would be with other tells found, or
/// with tells skipped.
pub proof fn law_tells_never_set_the_exit_code(
    file: ProseFile,
    args: FingerprintArgs,
    other: ProseFile,
    skipping: FingerprintArgs,
)
    requires
        other.path == file.path,
        other.text == file.text,
        other.bytes == file.bytes,
        skipping.skip_spaces == args.skip_spaces,
        skipping.skip_metadata == args.skip_metadata,
        skipping.emoji == args.emoji,
    ensures
        is_verifiable(file, args) == is_verifiable(other, skipping),
{
}

proof fn lemma_with_tells_in_order(list: Seq<FamilyView>, tells: Seq<TellView>, n: nat)
    requires
        in_order(list),
    ensures
        in_order(with_tells(list, tells, n)),
    decreases n,
{
    if n > 0 {
        lemma_with_tells_in_order(list, tells, (n - 1) as nat);
        law_families_stay_in_order(
            with_tells(list, tells, (n - 1) as nat),
            tells[n - 1].family,
        );
    }
}

/// The epilogue names the families that fired in order, each once.
pub proof fn law_fired_families_are_listed_once_in_order(
    files: Seq<ProseFile>,
    n: nat,
    args: FingerprintArgs,
)
    ensures
        in_order(tally_of(files, n, args).fired),
    decreases n,
{
    if n > 0 {
        law_fired_families_are_listed_once_in_order(files, (n - 1) as nat, args);
        let tells = tells_in(files[n - 1], args);
        lemma_with_tells_in_order(tally_of(files, (n - 1) as nat, args).fired, tells, tells.len());
    }
}

} // verus!
