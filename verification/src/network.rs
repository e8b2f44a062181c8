//! Network-lookup commands (`net_*`): the reports, over what the probes found.
//!
//! `excavate` takes one host or address and reports everything worth knowing about it. `sonar`
//! times the handshake to many of the internet's busiest hosts at once: if every provider on
//! every continent has gone slow together, the common factor is this end of the wire.

pub mod address;
pub mod excavate;
pub mod service;

use vstd::prelude::*;
use vstd::string::*;
use crate::sequences::{lemma_filter_map_last, lemma_flat_map_last};
use crate::style::{painted, Paint};
use crate::text::{chars_of, decimal, padded, push_decimal, push_padded};

verus! {

// --- targets --------------------------------------------------------------------------------

/// One endpoint worth timing: who runs it, which piece of their estate it is, and its name.
pub struct ProbeTarget {
    pub provider: &'static str,
    pub endpoint: &'static str,
    pub host: &'static str,
}

/// The arguments of `sonar`.
pub struct SonarArgs {
    /// How many probes run at once.
    pub workers: usize,
    /// Seconds to wait for a handshake.
    pub timeout: u64,
}

/// How many probes run at once by default.
pub const PROBE_WORKERS: usize = 12;

/// The port to knock on.
pub const PROBE_PORT: u16 = 443;

impl SonarArgs {
    /// How many probes run at once: at least one, and no more than there are targets.
    pub fn pool(&self, targets: usize) -> (r: usize)
        ensures
            r == if self.workers == 0 {
                if targets == 0 {
                    0
                } else {
                    1
                }
            } else if self.workers < targets {
                self.workers
            } else {
                targets
            },
    {
        let workers: usize = if self.workers == 0 {
            1
        } else {
            self.workers
        };
        if workers < targets {
            workers
        } else {
            targets
        }
    }

    /// Seconds to wait for a handshake: at least one.
    pub fn patience(&self) -> (r: u64)
        ensures
            r == if self.timeout == 0 {
                1
            } else {
                self.timeout
            },
    {
        if self.timeout == 0 {
            1
        } else {
            self.timeout
        }
    }
}

/// One endpoint.
fn target(provider: &'static str, endpoint: &'static str, host: &'static str) -> (r: ProbeTarget)
    ensures
        r.provider == provider,
        r.endpoint == endpoint,
        r.host == host,
{
    ProbeTarget { provider, endpoint, host }
}

/// The hosts probed, grouped by provider. Chosen for spread: within a provider the entries are
/// different kinds of endpoint or different regions, because that is what separates "this
/// provider is down" from "my route to one continent is bad".
pub fn probe_targets() -> (r: Vec<ProbeTarget>)
    ensures
        r@.len() == 37,
        forall|i: int|
            0 <= i < r@.len() ==> is_target(
                #[trigger] r@[i],
                target_row(i),
            ),
{
    let mut t: Vec<ProbeTarget> = Vec::new();
    t.push(target("AWS", "S3 · global", "s3.amazonaws.com"));
    t.push(target("AWS", "S3 · N. America", "s3.us-west-2.amazonaws.com"));
    t.push(target("AWS", "S3 · S. America", "s3.sa-east-1.amazonaws.com"));
    t.push(target("AWS", "S3 · Europe", "s3.eu-central-1.amazonaws.com"));
    t.push(target("AWS", "S3 · Africa", "s3.af-south-1.amazonaws.com"));
    t.push(target("AWS", "S3 · Asia", "s3.ap-southeast-1.amazonaws.com"));
    t.push(target("AWS", "S3 · Oceania", "s3.ap-southeast-2.amazonaws.com"));
    t.push(target("Cloudflare", "edge", "cloudflare.com"));
    t.push(target("Cloudflare", "resolver (1.1.1.1)", "one.one.one.one"));
    t.push(target("Cloudflare", "cdnjs", "cdnjs.cloudflare.com"));
    t.push(target("Cloudflare", "R2 storage", "r2.cloudflarestorage.com"));
    t.push(target("Google", "search", "www.google.com"));
    t.push(target("Google", "public DNS", "dns.google"));
    t.push(target("Google", "Cloud Storage", "storage.googleapis.com"));
    t.push(target("Google", "YouTube", "www.youtube.com"));
    t.push(target("GitHub", "web", "github.com"));
    t.push(target("GitHub", "API", "api.github.com"));
    t.push(target("GitHub", "raw content", "raw.githubusercontent.com"));
    t.push(target("GitHub", "release assets", "objects.githubusercontent.com"));
    t.push(target("Microsoft", "Azure portal", "portal.azure.com"));
    t.push(target("Microsoft", "identity", "login.microsoftonline.com"));
    t.push(target("Microsoft", "Office", "www.office.com"));
    t.push(target("Meta", "Facebook", "www.facebook.com"));
    t.push(target("Meta", "Instagram", "www.instagram.com"));
    t.push(target("Meta", "WhatsApp", "web.whatsapp.com"));
    t.push(target("Netflix", "web", "www.netflix.com"));
    t.push(target("Netflix", "static assets", "assets.nflxext.com"));
    t.push(target("Netflix", "help centre", "help.netflix.com"));
    t.push(target("Discord", "web", "discord.com"));
    t.push(target("Discord", "gateway", "gateway.discord.gg"));
    t.push(target("Discord", "CDN", "cdn.discordapp.com"));
    t.push(target("Apple", "web", "www.apple.com"));
    t.push(target("Apple", "iCloud", "www.icloud.com"));
    t.push(target("Fastly", "edge", "www.fastly.com"));
    t.push(target("Fastly", "API", "api.fastly.com"));
    t.push(target("Akamai", "edge", "www.akamai.com"));
    t.push(target("Akamai", "control centre", "control.akamai.com"));
    t
}

/// What a row of the target list says.
pub open spec fn is_target(t: ProbeTarget, row: (Seq<char>, Seq<char>, Seq<char>)) -> bool {
    t.provider@ == row.0 && t.endpoint@ == row.1 && t.host@ == row.2
}

/// Row number `i` of the target list: provider, endpoint, host.
pub open spec fn target_row(i: int) -> (Seq<char>, Seq<char>, Seq<char>) {
    if i == 0 {
        ("AWS"@, "S3 · global"@, "s3.amazonaws.com"@)
    } else if i == 1 {
        ("AWS"@, "S3 · N. America"@, "s3.us-west-2.amazonaws.com"@)
    } else if i == 2 {
        ("AWS"@, "S3 · S. America"@, "s3.sa-east-1.amazonaws.com"@)
    } else if i == 3 {
        ("AWS"@, "S3 · Europe"@, "s3.eu-central-1.amazonaws.com"@)
    } else if i == 4 {
        ("AWS"@, "S3 · Africa"@, "s3.af-south-1.amazonaws.com"@)
    } else if i == 5 {
        ("AWS"@, "S3 · Asia"@, "s3.ap-southeast-1.amazonaws.com"@)
    } else if i == 6 {
        ("AWS"@, "S3 · Oceania"@, "s3.ap-southeast-2.amazonaws.com"@)
    } else if i == 7 {
        ("Cloudflare"@, "edge"@, "cloudflare.com"@)
    } else if i == 8 {
        ("Cloudflare"@, "resolver (1.1.1.1)"@, "one.one.one.one"@)
    } else if i == 9 {
        ("Cloudflare"@, "cdnjs"@, "cdnjs.cloudflare.com"@)
    } else if i == 10 {
        ("Cloudflare"@, "R2 storage"@, "r2.cloudflarestorage.com"@)
    } else if i == 11 {
        ("Google"@, "search"@, "www.google.com"@)
    } else if i == 12 {
        ("Google"@, "public DNS"@, "dns.google"@)
    } else if i == 13 {
        ("Google"@, "Cloud Storage"@, "storage.googleapis.com"@)
    } else if i == 14 {
        ("Google"@, "YouTube"@, "www.youtube.com"@)
    } else if i == 15 {
        ("GitHub"@, "web"@, "github.com"@)
    } else if i == 16 {
        ("GitHub"@, "API"@, "api.github.com"@)
    } else if i == 17 {
        ("GitHub"@, "raw content"@, "raw.githubusercontent.com"@)
    } else if i == 18 {
        ("GitHub"@, "release assets"@, "objects.githubusercontent.com"@)
    } else if i == 19 {
        ("Microsoft"@, "Azure portal"@, "portal.azure.com"@)
    } else if i == 20 {
        ("Microsoft"@, "identity"@, "login.microsoftonline.com"@)
    } else if i == 21 {
        ("Microsoft"@, "Office"@, "www.office.com"@)
    } else if i == 22 {
        ("Meta"@, "Facebook"@, "www.facebook.com"@)
    } else if i == 23 {
        ("Meta"@, "Instagram"@, "www.instagram.com"@)
    } else if i == 24 {
        ("Meta"@, "WhatsApp"@, "web.whatsapp.com"@)
    } else if i == 25 {
        ("Netflix"@, "web"@, "www.netflix.com"@)
    } else if i == 26 {
        ("Netflix"@, "static assets"@, "assets.nflxext.com"@)
    } else if i == 27 {
        ("Netflix"@, "help centre"@, "help.netflix.com"@)
    } else if i == 28 {
        ("Discord"@, "web"@, "discord.com"@)
    } else if i == 29 {
        ("Discord"@, "gateway"@, "gateway.discord.gg"@)
    } else if i == 30 {
        ("Discord"@, "CDN"@, "cdn.discordapp.com"@)
    } else if i == 31 {
        ("Apple"@, "web"@, "www.apple.com"@)
    } else if i == 32 {
        ("Apple"@, "iCloud"@, "www.icloud.com"@)
    } else if i == 33 {
        ("Fastly"@, "edge"@, "www.fastly.com"@)
    } else if i == 34 {
        ("Fastly"@, "API"@, "api.fastly.com"@)
    } else if i == 35 {
        ("Akamai"@, "edge"@, "www.akamai.com"@)
    } else {
        ("Akamai"@, "control centre"@, "control.akamai.com"@)
    }
}

// --- latencies ------------------------------------------------------------------------------

/// How a handshake went.
#[derive(Clone, Copy, PartialEq, Eq, Structural, Debug)]
pub enum Latency {
    /// It took this many whole milliseconds.
    In(u64),
    Refused,
    TimedOut,
    Unresolved,
}

/// The colours of response times, fastest first.
#[derive(Clone, Copy, PartialEq, Eq, Structural, Debug)]
pub enum Band {
    Cyan,
    Green,
    Yellow,
    Orange,
    Red,
}

/// The colour of a response time: each band ends below its ceiling.
pub open spec fn band_of(ms: nat) -> Band {
    if ms < 20 {
        Band::Cyan
    } else if ms < 60 {
        Band::Green
    } else if ms < 150 {
        Band::Yellow
    } else if ms < 300 {
        Band::Orange
    } else {
        Band::Red
    }
}

/// A slower answer is never in a faster band.
pub proof fn law_slower_is_no_brighter(a: nat, b: nat)
    requires
        a <= b,
    ensures
        band_of(b) == Band::Cyan ==> band_of(a) == Band::Cyan,
        band_of(b) == Band::Green ==> band_of(a) == Band::Green || band_of(a) == Band::Cyan,
        band_of(a) == Band::Red ==> band_of(b) == Band::Red,
        band_of(a) == Band::Orange ==> band_of(b) == Band::Orange || band_of(b) == Band::Red,
        band_of(a) == Band::Cyan <==> a < 20,
        band_of(a) == Band::Green <==> 20 <= a < 60,
        band_of(a) == Band::Yellow <==> 60 <= a < 150,
        band_of(a) == Band::Orange <==> 150 <= a < 300,
        band_of(a) == Band::Red <==> 300 <= a,
{
}

/// The colours of a sonar table.
pub struct SonarPalette {
    pub cyan: Paint,
    pub green: Paint,
    pub yellow: Paint,
    pub orange: Paint,
    pub red: Paint,
    /// A response that has not come yet.
    pub dark: Paint,
    pub header: Paint,
    pub problematic: Paint,
}

impl SonarPalette {
    /// The paint of a band.
    pub open spec fn paint_of(self, band: Band) -> Paint {
        match band {
            Band::Cyan => self.cyan,
            Band::Green => self.green,
            Band::Yellow => self.yellow,
            Band::Orange => self.orange,
            Band::Red => self.red,
        }
    }

    /// The paint of a band.
    pub fn paint(&self, band: Band) -> (r: &Paint)
        ensures
            *r == self.paint_of(band),
    {
        match band {
            Band::Cyan => &self.cyan,
            Band::Green => &self.green,
            Band::Yellow => &self.yellow,
            Band::Orange => &self.orange,
            Band::Red => &self.red,
        }
    }
}

/// The colour of a response time.
pub fn band(ms: u64) -> (r: Band)
    ensures
        r == band_of(ms as nat),
{
    if ms < 20 {
        Band::Cyan
    } else if ms < 60 {
        Band::Green
    } else if ms < 150 {
        Band::Yellow
    } else if ms < 300 {
        Band::Orange
    } else {
        Band::Red
    }
}

/// What a response cell says, without its colour. A sub-millisecond answer is real, not missing.
pub open spec fn latency_text(l: Latency) -> Seq<char> {
    match l {
        Latency::In(ms) => if ms == 0 {
            "<1 ms"@
        } else {
            decimal(ms as nat) + " ms"@
        },
        Latency::Refused => "refused"@,
        Latency::TimedOut => "no answer"@,
        Latency::Unresolved => "no address"@,
    }
}

/// A cell says how long an answer took, in whole milliseconds, and of what did not answer which way
/// it failed.
pub proof fn law_what_a_cell_says(l: Latency)
    ensures
        latency_text(l) == match l {
            Latency::In(ms) => if ms > 0 {
                decimal(ms as nat) + " ms"@
            } else {
                "<1 ms"@
            },
            Latency::Refused => "refused"@,
            Latency::TimedOut => "no answer"@,
            Latency::Unresolved => "no address"@,
        },
        latency_band(l) == Band::Red <==> !(l is In) || l->In_0 >= 300,
        latency_band(l) == Band::Cyan <==> l is In && l->In_0 < 20,
        latency_band(l) == Band::Green <==> l is In && 20 <= l->In_0 < 60,
        latency_band(l) == Band::Yellow <==> l is In && 60 <= l->In_0 < 150,
        latency_band(l) == Band::Orange <==> l is In && 150 <= l->In_0 < 300,
{
}

/// The colour of a response cell: every way of not answering is red.
pub open spec fn latency_band(l: Latency) -> Band {
    match l {
        Latency::In(ms) => band_of(ms as nat),
        _ => Band::Red,
    }
}

/// One response cell: coloured by how long it took, or red and saying which way it failed.
pub fn latency_cell(l: Latency, palette: &SonarPalette) -> (r: String)
    ensures
        r@ == painted(palette.paint_of(latency_band(l)), latency_text(l)),
{
    match l {
        Latency::In(ms) => {
            let paint: &Paint = palette.paint(band(ms));
            if ms == 0 {
                paint.paint("<1 ms")
            } else {
                let mut text: String = String::new();
                push_decimal(&mut text, ms as u128);
                assert(text@ =~= decimal(ms as nat));
                text.append(" ms");
                paint.paint(text.as_str())
            }
        },
        Latency::Refused => palette.red.paint("refused"),
        Latency::TimedOut => palette.red.paint("no answer"),
        Latency::Unresolved => palette.red.paint("no address"),
    }
}

/// Where a number belongs among numbers in order.
pub open spec fn number_place(list: Seq<u64>, x: u64, from: int) -> int
    decreases list.len() - from,
{
    if from >= list.len() || list[from] >= x {
        from
    } else {
        number_place(list, x, from + 1)
    }
}

/// The response times among the first `n`, in order.
pub open spec fn answered(ls: Seq<Latency>, n: nat) -> Seq<u64>
    decreases n,
{
    if n == 0 {
        seq![]
    } else {
        let before = answered(ls, (n - 1) as nat);
        match ls[n - 1] {
            Latency::In(ms) => before.insert(number_place(before, ms, 0), ms),
            _ => before,
        }
    }
}

/// Whether numbers stand in order.
pub open spec fn ascending(list: Seq<u64>) -> bool {
    forall|i: int, j: int| 0 <= i <= j < list.len() ==> list[i] <= list[j]
}

proof fn lemma_number_place(list: Seq<u64>, x: u64, from: int)
    requires
        0 <= from <= list.len(),
        ascending(list),
        forall|j: int| 0 <= j < from ==> list[j] < x,
    ensures
        from <= number_place(list, x, from) <= list.len(),
        forall|j: int| 0 <= j < number_place(list, x, from) ==> list[j] < x,
        forall|j: int| number_place(list, x, from) <= j < list.len() ==> list[j] >= x,
    decreases list.len() - from,
{
    if from < list.len() && list[from] < x {
        lemma_number_place(list, x, from + 1);
    }
}

/// Every answer counts: the response times that are put in order are those of the targets that
/// answered, each as often as it came.
pub proof fn law_every_answer_counts(ls: Seq<Latency>, n: nat)
    requires
        n <= ls.len(),
    ensures
        answered(ls, n).to_multiset() == ls.take(n as int).filter_map(
            |l: Latency|
                match l {
                    Latency::In(ms) => Some(ms),
                    _ => None,
                },
        ).to_multiset(),
    decreases n,
{
    broadcast use vstd::seq_lib::group_to_multiset_ensures;

    if n > 0 {
        law_every_answer_counts(ls, (n - 1) as nat);
        law_answers_are_in_order(ls, (n - 1) as nat);
        lemma_filter_map_last(
            ls,
            |l: Latency|
                match l {
                    Latency::In(ms) => Some(ms),
                    _ => None,
                },
            n,
        );
        let before = answered(ls, (n - 1) as nat);
        if let Latency::In(ms) = ls[n - 1] {
            lemma_number_place(before, ms, 0);
        }
    }
}

/// The response times come out in order, and as many as there were answers.
pub proof fn law_answers_are_in_order(ls: Seq<Latency>, n: nat)
    requires
        n <= ls.len(),
    ensures
        ascending(answered(ls, n)),
        answered(ls, n).len() <= n,
    decreases n,
{
    if n > 0 {
        law_answers_are_in_order(ls, (n - 1) as nat);
        let before = answered(ls, (n - 1) as nat);
        match ls[n - 1] {
            Latency::In(ms) => {
                lemma_number_place(before, ms, 0);
            },
            _ => {},
        }
    }
}

/// The closing line: how many answered, and the middle of the distribution.
pub open spec fn summary_text(ls: Seq<Latency>, problematic: Paint) -> Seq<char> {
    let times = answered(ls, ls.len());
    if times.len() == 0 {
        painted(
            problematic,
            "none of the "@ + decimal(ls.len()) + " hosts answered — the problem is on this side"@,
        )
    } else {
        decimal(times.len()) + " of "@ + decimal(ls.len()) + " answered · median "@ + decimal(
            times[(times.len() / 2) as int] as nat,
        ) + " ms"@
    }
}

/// The median that is told has as many answers at or below it, and at or above it, as a middle has;
/// it is the answer of some target, and all answers count.
pub proof fn law_the_median_stands_in_the_middle(ls: Seq<Latency>, problematic: Paint)
    ensures
        ({
            let times = ls.filter_map(
                |l: Latency|
                    match l {
                        Latency::In(ms) => Some(ms),
                        _ => None,
                    },
            );
            times.len() > 0 ==> exists|sorted: Seq<u64>|
                #![trigger sorted.to_multiset()]
                sorted.to_multiset() == times.to_multiset() && ascending(sorted) && sorted.len()
                    == times.len() && summary_text(ls, problematic) == decimal(times.len()) + " of "@
                    + decimal(ls.len()) + " answered · median "@ + decimal(
                    sorted[(times.len() / 2) as int] as nat,
                ) + " ms"@
        }),
{
    broadcast use vstd::seq_lib::group_to_multiset_ensures;

    law_every_answer_counts(ls, ls.len());
    law_answers_are_in_order(ls, ls.len());
    assert(ls.take(ls.len() as int) =~= ls);
    let sorted = answered(ls, ls.len());
    let times = ls.filter_map(
        |l: Latency|
            match l {
                Latency::In(ms) => Some(ms),
                _ => None,
            },
    );
    assert(sorted.to_multiset().len() == times.to_multiset().len());
    assert(sorted.len() == times.len());
}

/// The closing line: how many answered, and the median, because one unreachable continent should
/// not redraw the whole picture.
pub fn sonar_summary(ls: &Vec<Latency>, problematic: &Paint) -> (r: String)
    ensures
        r@ == summary_text(ls@, *problematic),
{
    let mut times: Vec<u64> = Vec::new();
    let mut i: usize = 0;
    while i < ls.len()
        invariant
            i <= ls.len(),
            times@ == answered(ls@, i as nat),
            times.len() <= i,
        decreases ls.len() - i,
    {
        if let Latency::In(ms) = ls[i] {
            let mut p: usize = 0;
            while p < times.len() && times[p] < ms
                invariant
                    p <= times.len(),
                    number_place(times@, ms, 0) == number_place(times@, ms, p as int),
                decreases times.len() - p,
            {
                p += 1;
            }
            times.insert(p, ms);
        }
        i += 1;
    }
    if times.len() == 0 {
        let mut line: String = "none of the ".to_owned();
        push_decimal(&mut line, ls.len() as u128);
        line.append(" hosts answered — the problem is on this side");
        problematic.paint(line.as_str())
    } else {
        let mut out: String = String::new();
        push_decimal(&mut out, times.len() as u128);
        assert(out@ =~= decimal(times@.len()));
        out.append(" of ");
        push_decimal(&mut out, ls.len() as u128);
        out.append(" answered · median ");
        push_decimal(&mut out, times[times.len() / 2] as u128);
        out.append(" ms");
        out
    }
}

/// What the first `n` collected answers make of the results: each at the place of its target.
pub open spec fn placed(blank: Seq<Latency>, collected: Seq<(usize, Latency)>, n: nat) -> Seq<Latency>
    decreases n,
{
    if n == 0 {
        blank
    } else {
        let before = placed(blank, collected, (n - 1) as nat);
        let (index, latency) = collected[n - 1];
        if index < before.len() {
            before.update(index as int, latency)
        } else {
            before
        }
    }
}

/// The result of a target is the last answer that was collected for it, whatever was collected for
/// others and in whatever order; without one it stays as it was.
pub proof fn law_every_answer_is_at_its_target(
    blank: Seq<Latency>,
    collected: Seq<(usize, Latency)>,
    n: nat,
    target: int,
)
    requires
        n <= collected.len(),
        0 <= target < blank.len(),
    ensures
        placed(blank, collected, n).len() == blank.len(),
        (forall|k: int| 0 <= k < n ==> (#[trigger] collected[k]).0 != target) ==> placed(
            blank,
            collected,
            n,
        )[target] == blank[target],
        forall|k: int|
            0 <= k < n && (#[trigger] collected[k]).0 == target && (forall|later: int|
                k < later < n ==> (#[trigger] collected[later]).0 != target) ==> placed(
                blank,
                collected,
                n,
            )[target] == collected[k].1,
    decreases n,
{
    if n > 0 {
        law_every_answer_is_at_its_target(blank, collected, (n - 1) as nat, target);
    }
}

/// The results in the order of the targets, from answers that came in any order; a target that
/// nobody reported has no address.
pub fn in_target_order(targets: usize, collected: &Vec<(usize, Latency)>) -> (r: Vec<Latency>)
    requires
        forall|i: int| 0 <= i < collected@.len() ==> (#[trigger] collected@[i]).0 < targets,
    ensures
        r@ == placed(
            Seq::new(targets as nat, |i: int| Latency::Unresolved),
            collected@,
            collected@.len(),
        ),
        r@.len() == targets,
{
    let mut out: Vec<Latency> = Vec::new();
    while out.len() < targets
        invariant
            out.len() <= targets,
            forall|i: int| 0 <= i < out.len() ==> #[trigger] out@[i] == Latency::Unresolved,
        decreases targets - out.len(),
    {
        out.push(Latency::Unresolved);
    }
    let ghost blank = Seq::new(targets as nat, |i: int| Latency::Unresolved);
    assert(out@ =~= blank);
    let mut i: usize = 0;
    while i < collected.len()
        invariant
            i <= collected.len(),
            out@.len() == targets,
            forall|j: int| 0 <= j < collected@.len() ==> (#[trigger] collected@[j]).0 < targets,
            out@ == placed(blank, collected@, i as nat),
        decreases collected.len() - i,
    {
        let (index, latency) = collected[i];
        assert(collected@[i as int].0 < targets);
        out.set(index, latency);
        i += 1;
    }
    out
}

// --- the live table -------------------------------------------------------------------------

/// Spaces between columns.
pub const TABLE_GAP: usize = 2;

/// Shown in a response cell that has not answered yet.
pub const PENDING: &'static str = "…";

/// The longest a response cell gets, used to check that a row fits unwrapped.
pub const WIDEST_RESPONSE: usize = 10;

/// The pre-printed table and where to write into it.
pub struct LiveLayout {
    /// Heading plus one line per target, every response cell still a placeholder.
    pub skeleton: String,
    /// The column, from one, that the response cells start at.
    pub response_column: usize,
}

/// The three left columns.
pub enum TargetColumn {
    Provider,
    Endpoint,
    Host,
}

/// What a target has in a column.
pub open spec fn target_cell(t: ProbeTarget, column: TargetColumn) -> Seq<char> {
    match column {
        TargetColumn::Provider => t.provider@,
        TargetColumn::Endpoint => t.endpoint@,
        TargetColumn::Host => t.host@,
    }
}

/// The greatest width of a column over the first `n` targets.
pub open spec fn widest(ts: Seq<ProbeTarget>, n: nat, column: TargetColumn) -> nat
    decreases n,
{
    if n == 0 {
        0
    } else {
        let before = widest(ts, (n - 1) as nat, column);
        let here = target_cell(ts[n - 1], column).len();
        if here > before {
            here
        } else {
            before
        }
    }
}

/// A column is exactly as wide as its widest cell.
pub proof fn law_a_column_is_as_wide_as_its_widest_cell(
    ts: Seq<ProbeTarget>,
    n: nat,
    column: TargetColumn,
)
    requires
        n <= ts.len(),
    ensures
        forall|i: int| 0 <= i < n ==> target_cell(#[trigger] ts[i], column).len() <= widest(ts, n, column),
        n > 0 ==> exists|i: int|
            0 <= i < n && target_cell(#[trigger] ts[i], column).len() == widest(ts, n, column),
    decreases n,
{
    if n > 0 {
        law_a_column_is_as_wide_as_its_widest_cell(ts, (n - 1) as nat, column);
        if n > 1 && widest(ts, n, column) == widest(ts, (n - 1) as nat, column) {
            let i = choose|i: int|
                0 <= i < n - 1 && target_cell(#[trigger] ts[i], column).len() == widest(
                    ts,
                    (n - 1) as nat,
                    column,
                );
            assert(target_cell(ts[i], column).len() == widest(ts, n, column));
        } else {
            assert(target_cell(ts[n - 1], column).len() == widest(ts, n, column));
        }
    }
}

/// The widths of the three left columns.
pub struct TargetWidths {
    pub provider: nat,
    pub endpoint: nat,
    pub host: nat,
}

/// The widths of the three left columns over all targets.
pub open spec fn target_widths(ts: Seq<ProbeTarget>) -> TargetWidths {
    TargetWidths {
        provider: widest(ts, ts.len(), TargetColumn::Provider),
        endpoint: widest(ts, ts.len(), TargetColumn::Endpoint),
        host: widest(ts, ts.len(), TargetColumn::Host),
    }
}

/// The column, from one, that the response cells start at.
pub open spec fn response_at(w: TargetWidths) -> nat {
    w.provider + TABLE_GAP as nat + w.endpoint + TABLE_GAP as nat + w.host + TABLE_GAP as nat + 1
}

/// The three left columns of a row, each with its gap.
pub open spec fn left_columns(p: Seq<char>, e: Seq<char>, h: Seq<char>, w: TargetWidths) -> Seq<char> {
    padded(p, w.provider) + "  "@ + padded(e, w.endpoint) + "  "@ + padded(h, w.host) + "  "@
}

/// One line of the pre-printed table.
pub open spec fn skeleton_row(t: ProbeTarget, w: TargetWidths, dark: Paint) -> Seq<char> {
    left_columns(t.provider@, t.endpoint@, t.host@, w) + painted(dark, PENDING@) + "\n"@
}

/// The first `n` lines of the pre-printed table.
pub open spec fn skeleton_rows(ts: Seq<ProbeTarget>, n: nat, w: TargetWidths, dark: Paint) -> Seq<char>
    decreases n,
{
    if n == 0 {
        seq![]
    } else {
        skeleton_rows(ts, (n - 1) as nat, w, dark) + skeleton_row(ts[n - 1], w, dark)
    }
}

/// Every target has its row in the table, in order, with its cell still open.
pub proof fn law_every_target_has_its_row(
    ts: Seq<ProbeTarget>,
    n: nat,
    w: TargetWidths,
    dark: Paint,
)
    requires
        n <= ts.len(),
    ensures
        skeleton_rows(ts, n, w, dark) == ts.take(n as int).flat_map(
            |t: ProbeTarget|
                padded(t.provider@, w.provider) + "  "@ + padded(t.endpoint@, w.endpoint) + "  "@ + padded(
                    t.host@,
                    w.host,
                ) + "  "@ + painted(dark, "…"@) + "\n"@,
        ),
    decreases n,
{
    if n > 0 {
        law_every_target_has_its_row(ts, (n - 1) as nat, w, dark);
        lemma_flat_map_last(
            ts,
            |t: ProbeTarget|
                padded(t.provider@, w.provider) + "  "@ + padded(t.endpoint@, w.endpoint) + "  "@ + padded(
                    t.host@,
                    w.host,
                ) + "  "@ + painted(dark, "…"@) + "\n"@,
            n,
        );
    }
}

/// The pre-printed table.
pub open spec fn skeleton_text(ts: Seq<ProbeTarget>, header: Paint, dark: Paint) -> Seq<char> {
    let w = target_widths(ts);
    painted(header, left_columns("Provider"@, "Endpoint"@, "Host"@, w) + "Response"@) + "\n"@
        + skeleton_rows(ts, ts.len(), w, dark)
}

/// The table that is printed first has a row for every target, in order, under its heading.
pub proof fn law_every_target_is_announced(ts: Seq<ProbeTarget>, header: Paint, dark: Paint)
    ensures
        ({
            let w = target_widths(ts);
            skeleton_text(ts, header, dark) == painted(
                header,
                left_columns("Provider"@, "Endpoint"@, "Host"@, w) + "Response"@,
            ) + "\n"@ + ts.flat_map(
                |t: ProbeTarget|
                    padded(t.provider@, w.provider) + "  "@ + padded(t.endpoint@, w.endpoint) + "  "@ + padded(
                        t.host@,
                        w.host,
                    ) + "  "@ + painted(dark, "…"@) + "\n"@,
            )
        }),
{
    law_every_target_has_its_row(ts, ts.len(), target_widths(ts), dark);
    assert(ts.take(ts.len() as int) =~= ts);
}

/// The greater of `w` and the length of `text`.
fn widen(w: usize, text: &str) -> (r: usize)
    ensures
        r == if text@.len() > w {
            text@.len()
        } else {
            w as nat
        },
{
    let n: usize = chars_of(text).len();
    if n > w {
        n
    } else {
        w
    }
}

/// The three left columns of a row, each with its gap.
fn left(p: &str, e: &str, h: &str, pw: usize, ew: usize, hw: usize) -> (r: String)
    ensures
        r@ == left_columns(
            p@,
            e@,
            h@,
            (TargetWidths { provider: pw as nat, endpoint: ew as nat, host: hw as nat }),
        ),
{
    let mut out: String = String::new();
    push_padded(&mut out, p, pw);
    assert(out@ =~= padded(p@, pw as nat));
    out.append("  ");
    push_padded(&mut out, e, ew);
    out.append("  ");
    push_padded(&mut out, h, hw);
    out.append("  ");
    out
}

/// Lay the table out before a single response exists, or decline where a row would not fit a
/// window `window` columns wide: a wrapped line would put every repaint a line out.
pub fn layout(ts: &Vec<ProbeTarget>, window: usize, palette: &SonarPalette) -> (r: Option<LiveLayout>)
    ensures
        match r {
            Some(l) => {
                &&& response_at(target_widths(ts@)) + WIDEST_RESPONSE <= window
                &&& l.response_column == response_at(target_widths(ts@))
                &&& l.skeleton@ == skeleton_text(ts@, palette.header, palette.dark)
            },
            None => response_at(target_widths(ts@)) + WIDEST_RESPONSE > window,
        },
{
    let mut pw: usize = 0;
    let mut ew: usize = 0;
    let mut hw: usize = 0;
    let mut i: usize = 0;
    while i < ts.len()
        invariant
            i <= ts.len(),
            pw == widest(ts@, i as nat, TargetColumn::Provider),
            ew == widest(ts@, i as nat, TargetColumn::Endpoint),
            hw == widest(ts@, i as nat, TargetColumn::Host),
        decreases ts.len() - i,
    {
        pw = widen(pw, ts[i].provider);
        ew = widen(ew, ts[i].endpoint);
        hw = widen(hw, ts[i].host);
        i += 1;
    }
    let ghost w = target_widths(ts@);
    let column: u128 = pw as u128 + 2 + ew as u128 + 2 + hw as u128 + 2 + 1;
    if column + WIDEST_RESPONSE as u128 > window as u128 {
        return None;
    }
    let mut heading: String = left("Provider", "Endpoint", "Host", pw, ew, hw);
    heading.append("Response");
    let mut skeleton: String = palette.header.paint(heading.as_str());
    skeleton.append("\n");
    let mut rows: String = String::new();
    let mut k: usize = 0;
    while k < ts.len()
        invariant
            k <= ts.len(),
            w == (TargetWidths { provider: pw as nat, endpoint: ew as nat, host: hw as nat }),
            rows@ == skeleton_rows(ts@, k as nat, w, palette.dark),
        decreases ts.len() - k,
    {
        let mut row: String = left(ts[k].provider, ts[k].endpoint, ts[k].host, pw, ew, hw);
        row.append(palette.dark.paint(PENDING).as_str());
        row.append("\n");
        rows.append(row.as_str());
        k += 1;
    }
    skeleton.append(rows.as_str());
    Some(LiveLayout { skeleton, response_column: column as usize })
}

/// The columns before a response are as wide as its column says: every row opens its response
/// cell where the repaint writes.
pub proof fn law_rows_open_their_cell_at_the_column(ts: Seq<ProbeTarget>, i: int)
    requires
        0 <= i < ts.len(),
    ensures
        left_columns(ts[i].provider@, ts[i].endpoint@, ts[i].host@, target_widths(ts)).len() + 1
            == response_at(target_widths(ts)),
{
    reveal_strlit("  ");
    lemma_widest(ts, ts.len(), i, TargetColumn::Provider);
    lemma_widest(ts, ts.len(), i, TargetColumn::Endpoint);
    lemma_widest(ts, ts.len(), i, TargetColumn::Host);
}

proof fn lemma_widest(ts: Seq<ProbeTarget>, n: nat, i: int, column: TargetColumn)
    requires
        0 <= i < n <= ts.len(),
    ensures
        target_cell(ts[i], column).len() <= widest(ts, n, column),
    decreases n,
{
    if i < n - 1 {
        lemma_widest(ts, (n - 1) as nat, i, column);
    }
}

/// What repaints a response cell: up to its row, over to its column, the cell, and back.
pub open spec fn repaint_text(up: nat, column: nat, cell: Seq<char>) -> Seq<char> {
    "\u{1b}["@ + decimal(up) + "A\u{1b}["@ + decimal(column) + "G\u{1b}[K"@ + cell + "\u{1b}["@
        + decimal(up) + "B\r"@
}

/// What repaints the response cell of target number `index` of `rows`: the cursor rests one line
/// below the last row.
pub fn repaint(rows: usize, index: usize, column: usize, l: Latency, palette: &SonarPalette) -> (r: String)
    requires
        index < rows,
    ensures
        r@ == repaint_text(
            (rows - index) as nat,
            column as nat,
            painted(palette.paint_of(latency_band(l)), latency_text(l)),
        ),
{
    let up: usize = rows - index;
    let mut out: String = "\u{1b}[".to_owned();
    push_decimal(&mut out, up as u128);
    out.append("A\u{1b}[");
    push_decimal(&mut out, column as u128);
    out.append("G\u{1b}[K");
    out.append(latency_cell(l, palette).as_str());
    out.append("\u{1b}[");
    push_decimal(&mut out, up as u128);
    out.append("B\r");
    out
}

/// The tab-separated rows of the first `n` targets.
pub open spec fn tab_rows(ts: Seq<ProbeTarget>, ls: Seq<Latency>, n: nat, palette: SonarPalette) -> Seq<
    Seq<char>,
>
    decreases n,
{
    if n == 0 {
        seq![]
    } else {
        let t = ts[n - 1];
        let l = ls[n - 1];
        tab_rows(ts, ls, (n - 1) as nat, palette).push(
            t.provider@ + "\t"@ + t.endpoint@ + "\t"@ + t.host@ + "\t"@ + painted(
                palette.paint_of(latency_band(l)),
                latency_text(l),
            ),
        )
    }
}

/// Every target has its row, in order, with its own answer.
pub proof fn law_every_target_is_reported(
    ts: Seq<ProbeTarget>,
    ls: Seq<Latency>,
    n: nat,
    palette: SonarPalette,
)
    requires
        n <= ts.len(),
        n <= ls.len(),
    ensures
        tab_rows(ts, ls, n, palette).len() == n,
        forall|i: int|
            0 <= i < n ==> (#[trigger] tab_rows(ts, ls, n, palette)[i]) == ts[i].provider@ + "\t"@
                + ts[i].endpoint@ + "\t"@ + ts[i].host@ + "\t"@ + painted(
                palette.paint_of(latency_band(ls[i])),
                latency_text(ls[i]),
            ),
    decreases n,
{
    if n > 0 {
        law_every_target_is_reported(ts, ls, (n - 1) as nat, palette);
    }
}

/// The finished table as tab-separated rows, for a pipe or a narrow window.
pub fn quiet_rows(ts: &Vec<ProbeTarget>, ls: &Vec<Latency>, palette: &SonarPalette) -> (r: Vec<String>)
    ensures
        r.deep_view() == seq![painted(palette.header, "Provider\tEndpoint\tHost\tResponse"@)]
            + tab_rows(
            ts@,
            ls@,
            if ts@.len() < ls@.len() {
                ts@.len()
            } else {
                ls@.len()
            },
            *palette,
        ),
{
    let mut out: Vec<String> = Vec::new();
    out.push(palette.header.paint("Provider\tEndpoint\tHost\tResponse"));
    let ghost head = seq![painted(palette.header, "Provider\tEndpoint\tHost\tResponse"@)];
    assert(out.deep_view() =~= head);
    let mut i: usize = 0;
    assert(head + seq![] =~= head);
    while i < ts.len() && i < ls.len()
        invariant
            i <= ts.len(),
            i <= ls.len(),
            out.deep_view() == head + tab_rows(ts@, ls@, i as nat, *palette),
        decreases ts.len() - i,
    {
        let ghost before = out.deep_view();
        let mut row: String = ts[i].provider.to_owned();
        row.append("\t");
        row.append(ts[i].endpoint);
        row.append("\t");
        row.append(ts[i].host);
        row.append("\t");
        row.append(latency_cell(ls[i], palette).as_str());
        let ghost rv = row@;
        out.push(row);
        assert(out.deep_view() =~= before.push(rv));
        assert(out.deep_view() =~= head + tab_rows(ts@, ls@, (i + 1) as nat, *palette));
        i += 1;
    }
    out
}

} // verus!
