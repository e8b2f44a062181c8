//! The report on one host: DNS records, authoritative servers, registration, addresses and who
//! owns them, the certificate, and where HTTP leads.
//!
//! Every lookup is the caller's. What the lookups found comes in as plain values, and each
//! section says what is worth saying of it.

use vstd::prelude::*;
use vstd::slice::slice_subrange;
use vstd::string::*;
use crate::sequences::{lemma_filter_map_last, lemma_flat_map_holds, lemma_flat_map_last};
use crate::style::{painted, Paint, Palette};
use crate::text::{
    ascii_lower, chars_of, contains, decimal, drop_trailing, holds_text, join, joined, occurs_at, padded, push_decimal, push_padded, push_text,
    same_text, string_of, to_ascii_lower, without_last,
};

verus! {

/// The arguments of `excavate`.
pub struct ExcavateArgs {
    /// Host, address, or URL.
    pub target: String,
    /// Also sweep the common TCP ports.
    pub ports: bool,
    /// Also trace the route there.
    pub trace: bool,
}

/// The colours of the report.
pub struct ExcavatePalette {
    pub header: Paint,
    pub marks: Palette,
}

/// The heading of a section, with a blank line before it.
pub open spec fn section(title: Seq<char>, header: Paint) -> Seq<char> {
    "\n"@ + painted(header, title) + "\n"@
}

/// The heading of a section.
pub(crate) fn open_section(title: &str, header: &Paint) -> (r: String)
    ensures
        r@ == section(title@, *header),
{
    let mut out: String = "\n".to_owned();
    out.append(header.paint(title).as_str());
    out.append("\n");
    out
}

/// The heading of the whole report.
pub fn title_line(label: &str, header: &Paint) -> (r: String)
    ensures
        r@ == painted(*header, "── "@ + label@ + " ──"@) + "\n"@,
{
    let mut text: String = "── ".to_owned();
    text.append(label);
    text.append(" ──");
    let mut out: String = header.paint(text.as_str());
    out.append("\n");
    out
}

// --- DNS ------------------------------------------------------------------------------------

/// A line of the DNS section: what it is about, how long it may be kept, and what it says.
pub open spec fn dns_line(label: Seq<char>, ttl: Seq<char>, value: Seq<char>) -> Seq<char> {
    "  "@ + padded(label, 6) + " "@ + padded(ttl, 8) + " "@ + value + "\n"@
}

/// A line of the DNS section.
fn push_dns_line(out: &mut String, label: &str, ttl: &str, value: &str)
    ensures
        final(out)@ == old(out)@ + dns_line(label@, ttl@, value@),
{
    let mut line: String = "  ".to_owned();
    push_padded(&mut line, label, 6);
    line.append(" ");
    push_padded(&mut line, ttl, 8);
    line.append(" ");
    line.append(value);
    line.append("\n");
    out.append(line.as_str());
}

/// One record of an answer: for how many seconds it may be kept, and what it says.
pub struct Record {
    pub ttl: u64,
    pub text: String,
}

/// What a query for one kind of record came to.
pub struct Answer {
    /// The kind of record, as it is labelled.
    pub kind: String,
    /// The records, or why there are none.
    pub records: Result<Vec<Record>, String>,
    /// How long the answer took, as it is shown, where there is one.
    pub took: String,
}

/// Seconds as they are shown.
pub open spec fn seconds(ttl: nat) -> Seq<char> {
    decimal(ttl) + "s"@
}

/// The lines of the first `n` records of a kind.
pub open spec fn record_lines(kind: Seq<char>, records: Seq<Record>, n: nat) -> Seq<char>
    decreases n,
{
    if n == 0 {
        seq![]
    } else {
        record_lines(kind, records, (n - 1) as nat) + dns_line(
            kind,
            seconds(records[n - 1].ttl as nat),
            records[n - 1].text@,
        )
    }
}

/// Each record of an answer has its line, in order: the kind, for how many seconds it may be
/// kept, and what it says.
pub proof fn law_every_record_has_its_line(kind: Seq<char>, records: Seq<Record>, n: nat)
    requires
        n <= records.len(),
    ensures
        record_lines(kind, records, n) == records.take(n as int).flat_map(
            |r: Record|
                "  "@ + padded(kind, 6) + " "@ + padded(decimal(r.ttl as nat) + "s"@, 8) + " "@ + r.text@
                    + "\n"@,
        ),
    decreases n,
{
    if n > 0 {
        law_every_record_has_its_line(kind, records, (n - 1) as nat);
        lemma_flat_map_last(
            records,
            |r: Record|
                "  "@ + padded(kind, 6) + " "@ + padded(decimal(r.ttl as nat) + "s"@, 8) + " "@ + r.text@
                    + "\n"@,
            n,
        );
    }
}

/// The lines of one answer. No CAA record is a finding: any authority may issue.
pub open spec fn answer_lines(a: Answer, problematic: Paint) -> Seq<char> {
    match a.records {
        Ok(records) => if records@.len() == 0 && a.kind@ == "CAA"@ {
            dns_line(
                "CAA"@,
                ""@,
                "none — any certificate authority may issue for this name"@,
            )
        } else {
            record_lines(a.kind@, records@, records@.len())
        },
        Err(why) => dns_line(a.kind@, ""@, painted(problematic, why@)),
    }
}

/// A query that failed is shown with its reason, and that no authority is named to issue
/// certificates is said; any other query without a record says nothing.
pub proof fn law_what_is_said_without_a_record(a: Answer, problematic: Paint)
    requires
        a.records is Err || a.records->Ok_0@.len() == 0,
    ensures
        answer_lines(a, problematic) == match a.records {
            Err(why) => "  "@ + padded(a.kind@, 6) + " "@ + padded(""@, 8) + " "@ + painted(
                problematic,
                why@,
            ) + "\n"@,
            Ok(_) => if a.kind@ == "CAA"@ {
                "  "@ + padded("CAA"@, 6) + " "@ + padded(""@, 8) + " "@
                    + "none — any certificate authority may issue for this name"@ + "\n"@
            } else {
                seq![]
            },
        },
{
}

/// The lines of the first `n` answers.
pub open spec fn answers_lines(answers: Seq<Answer>, n: nat, problematic: Paint) -> Seq<char>
    decreases n,
{
    if n == 0 {
        seq![]
    } else {
        answers_lines(answers, (n - 1) as nat, problematic) + answer_lines(answers[n - 1], problematic)
    }
}

/// Each answer is shown, in order.
pub proof fn law_every_answer_is_shown(answers: Seq<Answer>, n: nat, problematic: Paint)
    requires
        n <= answers.len(),
    ensures
        answers_lines(answers, n, problematic) == answers.take(n as int).flat_map(
            |a: Answer| answer_lines(a, problematic),
        ),
    decreases n,
{
    if n > 0 {
        law_every_answer_is_shown(answers, (n - 1) as nat, problematic);
        lemma_flat_map_last(
            answers,
            |a: Answer| answer_lines(a, problematic),
            n,
        );
    }
}

/// Whether an answer has a record.
pub open spec fn has_record(a: Answer) -> bool {
    a.records matches Ok(records) && records@.len() > 0
}

/// Whether a zone is signed: a signing query has a record.
pub open spec fn is_signed(signing: Seq<Answer>) -> bool {
    exists|i: int| 0 <= i < signing.len() && has_record(#[trigger] signing[i])
}

/// A zone is signed exactly where one of the signing queries, whichever it is, came back with a
/// record.
pub proof fn law_any_signing_record_signs_the_zone(signing: Seq<Answer>)
    ensures
        is_signed(signing) <==> exists|i: int|
            0 <= i < signing.len() && (#[trigger] signing[i]).records is Ok
                && signing[i].records->Ok_0@.len() > 0,
{
    if is_signed(signing) {
        let i = choose|i: int| 0 <= i < signing.len() && has_record(#[trigger] signing[i]);
        assert(signing[i].records is Ok && signing[i].records->Ok_0@.len() > 0);
    }
    if exists|i: int|
        0 <= i < signing.len() && (#[trigger] signing[i]).records is Ok
            && signing[i].records->Ok_0@.len() > 0 {
        let i = choose|i: int|
            0 <= i < signing.len() && (#[trigger] signing[i]).records is Ok
                && signing[i].records->Ok_0@.len() > 0;
        assert(has_record(signing[i]));
    }
}

/// How long each answered query among the first `n` took.
pub open spec fn took(answers: Seq<Answer>, n: nat) -> Seq<Seq<char>>
    decreases n,
{
    if n == 0 {
        seq![]
    } else {
        let a = answers[n - 1];
        if a.records is Ok {
            took(answers, (n - 1) as nat).push(a.kind@ + " "@ + a.took@ + "ms"@)
        } else {
            took(answers, (n - 1) as nat)
        }
    }
}

/// Each query that was answered is timed, in order, and no other.
pub proof fn law_every_answered_query_is_timed(answers: Seq<Answer>, n: nat)
    requires
        n <= answers.len(),
    ensures
        took(answers, n) == answers.take(n as int).filter_map(
            |a: Answer|
                if a.records is Ok {
                    Some(a.kind@ + " "@ + a.took@ + "ms"@)
                } else {
                    None
                },
        ),
    decreases n,
{
    if n > 0 {
        law_every_answered_query_is_timed(answers, (n - 1) as nat);
        lemma_filter_map_last(
            answers,
            |a: Answer|
                if a.records is Ok {
                    Some(a.kind@ + " "@ + a.took@ + "ms"@)
                } else {
                    None
                },
            n,
        );
    }
}

/// The server that answered, and whether it is on this very machine.
pub struct Resolver {
    pub address: String,
    pub loopback: bool,
}

/// The line on the resolver: a resolver on loopback is a local cache.
pub open spec fn times_line(answers: Seq<Answer>, resolver: Resolver) -> Seq<char> {
    dns_line(
        "times"@,
        ""@,
        join(took(answers, answers.len()), " · "@) + " (via "@ + resolver.address@
            + (if resolver.loopback {
            " — local cache, not network latency"@
        } else {
            ""@
        }) + ")"@,
    )
}

/// How long each answered query took is shown, all of them, with the server that was asked.
pub proof fn law_every_time_is_shown(answers: Seq<Answer>, resolver: Resolver)
    ensures
        times_line(answers, resolver) == "  "@ + padded("times"@, 6) + " "@ + padded(""@, 8) + " "@ + (
        join(
            answers.filter_map(
                |a: Answer|
                    if a.records is Ok {
                        Some(a.kind@ + " "@ + a.took@ + "ms"@)
                    } else {
                        None
                    },
            ),
            " · "@,
        ) + " (via "@ + resolver.address@ + (if resolver.loopback {
            " — local cache, not network latency"@
        } else {
            ""@
        }) + ")"@) + "\n"@,
{
    law_every_answered_query_is_timed(answers, answers.len());
    assert(answers.take(answers.len() as int) =~= answers);
}

/// The DNS section behind the chain of aliases: each kind of record, whether the zone is signed,
/// and how the resolver performed.
pub open spec fn dns_text(
    answers: Seq<Answer>,
    signing: Seq<Answer>,
    resolver: Option<Resolver>,
    marks: Palette,
) -> Seq<char> {
    answers_lines(answers, answers.len(), marks.problematic) + dns_line(
        "DNSSEC"@,
        ""@,
        if is_signed(signing) {
            painted(marks.approved, "signed (DS/DNSKEY present)"@)
        } else {
            "unsigned"@
        },
    ) + match resolver {
        Some(r) => times_line(answers, r),
        None => seq![],
    }
}

/// Whatever else the DNS section says, every record of every query that was answered has its line
/// in it, with the kind, the time and the text of the record.
pub proof fn law_no_record_is_left_out(
    answers: Seq<Answer>,
    signing: Seq<Answer>,
    resolver: Option<Resolver>,
    marks: Palette,
    i: int,
    j: int,
)
    requires
        0 <= i < answers.len(),
        answers[i].records is Ok,
        0 <= j < answers[i].records->Ok_0@.len(),
    ensures
        ({
            let r = answers[i].records->Ok_0@[j];
            contains(
                dns_text(answers, signing, resolver, marks),
                "  "@ + padded(answers[i].kind@, 6) + " "@ + padded(
                    decimal(r.ttl as nat) + "s"@,
                    8,
                ) + " "@ + r.text@ + "\n"@,
            )
        }),
{
    let kind = answers[i].kind@;
    let records = answers[i].records->Ok_0@;
    let r = records[j];
    let line = "  "@ + padded(kind, 6) + " "@ + padded(decimal(r.ttl as nat) + "s"@, 8) + " "@
        + r.text@ + "\n"@;
    law_every_record_has_its_line(kind, records, records.len());
    law_every_answer_is_shown(answers, answers.len(), marks.problematic);
    assert(records.take(records.len() as int) =~= records);
    assert(answers.take(answers.len() as int) =~= answers);
    let a = lemma_flat_map_holds(records, |r: Record|
        "  "@ + padded(kind, 6) + " "@ + padded(decimal(r.ttl as nat) + "s"@, 8) + " "@ + r.text@
            + "\n"@, j);
    let b = lemma_flat_map_holds(answers, |a: Answer| answer_lines(a, marks.problematic), i);
    let shown = answers_lines(answers, answers.len(), marks.problematic);
    let own = record_lines(kind, records, records.len());
    assert(answer_lines(answers[i], marks.problematic) == own);
    let whole = dns_text(answers, signing, resolver, marks);
    assert(shown.subrange(b, b + own.len()) == own);
    assert(whole.subrange(b + a, b + a + line.len()) =~= shown.subrange(b, b + own.len()).subrange(
        a,
        a + line.len(),
    ));
    assert(occurs_at(whole, line, b + a));
}

/// The lines of one answer.
fn lines_of_answer(a: &Answer, problematic: &Paint) -> (r: String)
    ensures
        r@ == answer_lines(*a, *problematic),
{
    let mut out: String = String::new();
    match &a.records {
        Ok(records) => {
            if records.len() == 0 && same_text(a.kind.as_str(), "CAA") {
                push_dns_line(
                    &mut out,
                    "CAA",
                    "",
                    "none — any certificate authority may issue for this name",
                );
                assert(out@ =~= answer_lines(*a, *problematic));
                return out;
            }
            let mut i: usize = 0;
            while i < records.len()
                invariant
                    i <= records.len(),
                    out@ == record_lines(a.kind@, records@, i as nat),
                decreases records.len() - i,
            {
                let mut ttl: String = String::new();
                push_decimal(&mut ttl, records[i].ttl as u128);
                assert(ttl@ =~= decimal(records@[i as int].ttl as nat));
                ttl.append("s");
                push_dns_line(&mut out, a.kind.as_str(), ttl.as_str(), records[i].text.as_str());
                i += 1;
            }
        },
        Err(why) => {
            push_dns_line(&mut out, a.kind.as_str(), "", problematic.paint(why.as_str()).as_str());
            assert(out@ =~= answer_lines(*a, *problematic));
        },
    }
    out
}

/// Whether a zone is signed.
fn zone_is_signed(signing: &Vec<Answer>) -> (r: bool)
    ensures
        r == is_signed(signing@),
{
    let mut i: usize = 0;
    while i < signing.len()
        invariant
            i <= signing.len(),
            forall|j: int| 0 <= j < i ==> !has_record(#[trigger] signing@[j]),
        decreases signing.len() - i,
    {
        let found: bool = match &signing[i].records {
            Ok(records) => records.len() > 0,
            Err(_e) => false,
        };
        if found {
            assert(has_record(signing@[i as int]));
            return true;
        }
        i += 1;
    }
    false
}

/// How long each answered query took.
fn took_texts(answers: &Vec<Answer>) -> (r: Vec<String>)
    ensures
        r.deep_view() == took(answers@, answers@.len()),
{
    let mut out: Vec<String> = Vec::new();
    let mut i: usize = 0;
    assert(out.deep_view() =~= seq![]);
    while i < answers.len()
        invariant
            i <= answers.len(),
            out.deep_view() == took(answers@, i as nat),
        decreases answers.len() - i,
    {
        if answers[i].records.is_ok() {
            let mut part: String = answers[i].kind.clone();
            part.append(" ");
            part.append(answers[i].took.as_str());
            part.append("ms");
            push_text(&mut out, part.as_str());
        }
        i += 1;
    }
    out
}

/// The DNS section behind the chain of aliases.
pub fn dns_section(
    answers: &Vec<Answer>,
    signing: &Vec<Answer>,
    resolver: &Option<Resolver>,
    marks: &Palette,
) -> (r: String)
    ensures
        r@ == dns_text(answers@, signing@, *resolver, *marks),
{
    let mut out: String = String::new();
    let mut i: usize = 0;
    while i < answers.len()
        invariant
            i <= answers.len(),
            out@ == answers_lines(answers@, i as nat, marks.problematic),
        decreases answers.len() - i,
    {
        out.append(lines_of_answer(&answers[i], &marks.problematic).as_str());
        i += 1;
    }
    if zone_is_signed(signing) {
        push_dns_line(
            &mut out,
            "DNSSEC",
            "",
            marks.approved.paint("signed (DS/DNSKEY present)").as_str(),
        );
    } else {
        push_dns_line(&mut out, "DNSSEC", "", "unsigned");
    }
    let ghost before = out@;
    match resolver {
        Some(server) => {
            let mut value: String = joined(&took_texts(answers), " · ");
            value.append(" (via ");
            value.append(server.address.as_str());
            value.append(
                if server.loopback {
                    " — local cache, not network latency"
                } else {
                    ""
                },
            );
            value.append(")");
            push_dns_line(&mut out, "times", "", value.as_str());
        },
        None => {
            assert(before + seq![] =~= before);
        },
    }
    out
}

/// What one uncacheable lookup found: how long it took as it is shown, and what the random name
/// resolves to, if anything; or why it failed.
pub struct ColdLookup {
    pub took: String,
    pub wildcard: Option<String>,
}

/// The lines on an uncacheable lookup: its timing is the real cost of reaching the zone, and a
/// name nobody registered should not resolve.
pub open spec fn cold_text(cold: Result<ColdLookup, String>, marks: Palette) -> Seq<char> {
    match cold {
        Ok(c) => dns_line(
            "cold"@,
            ""@,
            c.took@ + "ms for an uncached name (the true round-trip to this zone)"@,
        ) + match c.wildcard {
            Some(rendered) => dns_line(
                "wildcard"@,
                ""@,
                painted(
                    marks.notice,
                    "a random name under this zone resolves ("@ + rendered@
                        + ") — there is a wildcard record"@,
                ),
            ),
            None => seq![],
        },
        Err(why) => dns_line("cold"@, ""@, painted(marks.problematic, why@)),
    }
}

/// A name that nobody registered is told of where it resolves, and only there; a lookup that failed
/// is told of with its reason.
pub proof fn law_a_wildcard_is_told_of(took: String, rendered: String, why: String, marks: Palette)
    ensures
        ({
            let cold = "  "@ + padded("cold"@, 6) + " "@ + padded(""@, 8) + " "@ + (took@
                + "ms for an uncached name (the true round-trip to this zone)"@) + "\n"@;
            &&& cold_text(Ok(ColdLookup { took, wildcard: None }), marks) == cold
            &&& cold_text(Ok(ColdLookup { took, wildcard: Some(rendered) }), marks) == cold + ("  "@
                + padded("wildcard"@, 6) + " "@ + padded(""@, 8) + " "@ + painted(
                marks.notice,
                "a random name under this zone resolves ("@ + rendered@
                    + ") — there is a wildcard record"@,
            ) + "\n"@)
            &&& cold_text(Err(why), marks) == "  "@ + padded("cold"@, 6) + " "@ + padded(""@, 8) + " "@
                + painted(marks.problematic, why@) + "\n"@
        }),
{
    let cold = "  "@ + padded("cold"@, 6) + " "@ + padded(""@, 8) + " "@ + (took@
        + "ms for an uncached name (the true round-trip to this zone)"@) + "\n"@;
    assert(cold + seq![] =~= cold);
}

/// The lines on an uncacheable lookup.
pub fn cold_lookup(cold: &Result<ColdLookup, String>, marks: &Palette) -> (r: String)
    ensures
        r@ == cold_text(*cold, *marks),
{
    let mut out: String = String::new();
    match cold {
        Ok(c) => {
            let mut value: String = c.took.clone();
            value.append("ms for an uncached name (the true round-trip to this zone)");
            push_dns_line(&mut out, "cold", "", value.as_str());
            let ghost first = out@;
            assert(first =~= dns_line(
                "cold"@,
                ""@,
                c.took@ + "ms for an uncached name (the true round-trip to this zone)"@,
            ));
            match &c.wildcard {
                Some(rendered) => {
                    let mut note: String = "a random name under this zone resolves (".to_owned();
                    note.append(rendered.as_str());
                    note.append(") — there is a wildcard record");
                    push_dns_line(
                        &mut out,
                        "wildcard",
                        "",
                        marks.notice.paint(note.as_str()).as_str(),
                    );
                },
                None => {
                    assert(first + seq![] =~= first);
                },
            }
        },
        Err(why) => {
            push_dns_line(&mut out, "cold", "", marks.problematic.paint(why.as_str()).as_str());
            assert(out@ =~= cold_text(*cold, *marks));
        },
    }
    out
}

// --- aliases --------------------------------------------------------------------------------

/// How many aliases are followed.
pub const MAX_ALIASES: usize = 10;

/// A walk along aliases: the name reached, and every name seen, in lower case.
pub struct AliasWalk {
    pub current: String,
    pub seen: Vec<String>,
    pub hops: usize,
}

/// What a step along aliases says, and whether another is due.
pub struct AliasStep {
    pub text: String,
    pub again: bool,
}

impl AliasWalk {
    /// Nothing followed yet.
    pub fn new(host: &str) -> (r: AliasWalk)
        ensures
            r.current@ == host@,
            r.seen.deep_view() == seq![ascii_lower(host@)],
            r.hops == 0,
    {
        let mut seen: Vec<String> = Vec::new();
        push_text(&mut seen, to_ascii_lower(host).as_str());
        assert(seen.deep_view() =~= seq![ascii_lower(host@)]);
        AliasWalk { current: host.to_owned(), seen, hops: 0 }
    }

    /// Whether a name was seen, whatever its case.
    pub open spec fn has_seen(self, name: Seq<char>) -> bool {
        self.seen.deep_view().contains(ascii_lower(name))
    }

    /// The line of one alias.
    pub open spec fn hop_line(self, ttl: nat, next: Seq<char>) -> Seq<char> {
        dns_line("CNAME"@, seconds(ttl), self.current@ + " → "@ + next)
    }

    /// One step: what the current name is an alias for. A loop is a real misconfiguration, and
    /// following one naively never returns; so is a chain that is too deep.
    pub fn step(&mut self, ttl: u64, next: &str, problematic: &Paint) -> (r: AliasStep)
        requires
            old(self).hops < MAX_ALIASES,
        ensures
            r.text@ == old(self).hop_line(ttl as nat, next@) + (if old(self).has_seen(next@) {
                dns_line(
                    ""@,
                    ""@,
                    painted(*problematic, "CNAME loop — the chain points back at itself"@),
                )
            } else if old(self).hops + 1 == MAX_ALIASES {
                dns_line(
                    ""@,
                    ""@,
                    painted(*problematic, "CNAME chain deeper than 10 hops — giving up"@),
                )
            } else {
                seq![]
            }),
            r.again == (!old(self).has_seen(next@) && old(self).hops + 1 < MAX_ALIASES),
            if old(self).has_seen(next@) {
                *final(self) == *old(self)
            } else {
                &&& final(self).current@ == next@
                &&& final(self).hops == old(self).hops + 1
                &&& final(self).seen.deep_view() == old(self).seen.deep_view().push(
                    ascii_lower(next@),
                )
            },
    {
        let mut text: String = String::new();
        let mut value: String = self.current.clone();
        value.append(" → ");
        value.append(next);
        let mut keep: String = String::new();
        push_decimal(&mut keep, ttl as u128);
        assert(keep@ =~= decimal(ttl as nat));
        keep.append("s");
        push_dns_line(&mut text, "CNAME", keep.as_str(), value.as_str());
        assert(text@ =~= self.hop_line(ttl as nat, next@));
        let lower: String = to_ascii_lower(next);
        let mut i: usize = 0;
        let mut looped: bool = false;
        while i < self.seen.len()
            invariant
                i <= self.seen.len(),
                *self == *old(self),
                lower@ == ascii_lower(next@),
                looped == exists|j: int|
                    0 <= j < i && #[trigger] self.seen.deep_view()[j] == ascii_lower(next@),
            decreases self.seen.len() - i,
        {
            assert(self.seen.deep_view()[i as int] == self.seen@[i as int]@);
            if same_text(self.seen[i].as_str(), lower.as_str()) {
                looped = true;
            }
            i += 1;
        }
        assert(self.seen.deep_view().len() == self.seen@.len());
        assert(looped == old(self).has_seen(next@));
        let ghost hop = text@;
        if looped {
            push_dns_line(
                &mut text,
                "",
                "",
                problematic.paint("CNAME loop — the chain points back at itself").as_str(),
            );
            return AliasStep { text, again: false };
        }
        push_text(&mut self.seen, lower.as_str());
        self.current = next.to_owned();
        self.hops = self.hops + 1;
        if self.hops == MAX_ALIASES {
            push_dns_line(
                &mut text,
                "",
                "",
                problematic.paint("CNAME chain deeper than 10 hops — giving up").as_str(),
            );
            return AliasStep { text, again: false };
        }
        assert(hop + seq![] =~= hop);
        AliasStep { text, again: true }
    }
}

// --- authoritative servers ------------------------------------------------------------------

/// What an authoritative server answered: its address, how long it took as it is shown, whether
/// the answer came over TCP, and the serial number of its copy of the zone.
pub struct AuthorityAnswer {
    pub server: String,
    pub took: String,
    pub via_tcp: bool,
    pub serial: Option<u32>,
}

/// One authoritative server: its name, and what it answered or why not.
pub struct Authority {
    pub name: String,
    pub answer: Result<AuthorityAnswer, String>,
}

/// The names of servers as they are asked for, without the dots behind them.
pub open spec fn bare_names(rendered: Seq<Seq<char>>) -> Seq<Seq<char>> {
    rendered.map_values(|name: Seq<char>| without_last(name, '.'))
}

/// Every nameserver is asked for, in its place, without the dot behind its name.
pub proof fn law_every_nameserver_is_asked_for(rendered: Seq<Seq<char>>, i: int)
    requires
        0 <= i < rendered.len(),
    ensures
        bare_names(rendered).len() == rendered.len(),
        bare_names(rendered)[i] == without_last(rendered[i], '.'),
{
}

/// The names of the servers that a zone's NS records name.
pub fn server_names(rendered: &Vec<String>) -> (r: Vec<String>)
    ensures
        r.deep_view() == bare_names(rendered.deep_view()),
{
    let mut out: Vec<String> = Vec::new();
    let mut i: usize = 0;
    while i < rendered.len()
        invariant
            i <= rendered.len(),
            out.len() == i,
            forall|j: int| 0 <= j < i ==> (#[trigger] out@[j])@ == without_last(rendered@[j]@, '.'),
        decreases rendered.len() - i,
    {
        let cs: Vec<char> = chars_of(rendered[i].as_str());
        out.push(string_of(drop_trailing(cs.as_slice(), '.')));
        i += 1;
    }
    assert(out.deep_view() =~= bare_names(rendered.deep_view()));
    out
}

/// A server of the zone, and the addresses that its name resolves to, in order.
pub struct Server {
    pub name: String,
    pub addresses: Vec<String>,
}

/// A server, by its name and its addresses.
pub struct ServerView {
    pub name: Seq<char>,
    pub addresses: Seq<Seq<char>>,
}

impl View for Server {
    type V = ServerView;

    open spec fn view(&self) -> ServerView {
        ServerView { name: self.name@, addresses: self.addresses.deep_view() }
    }
}

impl DeepView for Server {
    type V = ServerView;

    open spec fn deep_view(&self) -> ServerView {
        self@
    }
}

/// A question for one server: where it is asked, and what. Nothing is asked where there is no
/// address to ask at.
pub struct Query {
    pub server: String,
    pub address: Option<String>,
    /// The name that is asked about.
    pub question: String,
    /// The kind of record that is asked for.
    pub kind: &'static str,
}

/// A question, by what it says.
pub struct QueryView {
    pub server: Seq<char>,
    pub address: Option<Seq<char>>,
    pub question: Seq<char>,
    pub kind: Seq<char>,
}

impl View for Query {
    type V = QueryView;

    open spec fn view(&self) -> QueryView {
        QueryView {
            server: self.server@,
            address: self.address.deep_view(),
            question: self.question@,
            kind: self.kind@,
        }
    }
}

impl DeepView for Query {
    type V = QueryView;

    open spec fn deep_view(&self) -> QueryView {
        self@
    }
}

/// The question for one server: the SOA of the host, asked at the server's first address.
pub open spec fn soa_query(host: Seq<char>, server: ServerView) -> QueryView {
    QueryView {
        server: server.name,
        address: if server.addresses.len() > 0 {
            Some(server.addresses[0])
        } else {
            None
        },
        question: host,
        kind: "SOA"@,
    }
}

/// The questions for the servers of a zone: one for each, and the same for all.
pub fn authority_queries(host: &str, servers: &Vec<Server>) -> (r: Vec<Query>)
    ensures
        r.deep_view() == servers.deep_view().map_values(|s: ServerView| soa_query(host@, s)),
{
    let mut out: Vec<Query> = Vec::new();
    let mut i: usize = 0;
    while i < servers.len()
        invariant
            i <= servers.len(),
            out.len() == i,
            forall|j: int| 0 <= j < i ==> (#[trigger] out@[j])@ == soa_query(host@, servers@[j]@),
        decreases servers.len() - i,
    {
        let server: &Server = &servers[i];
        assert(server.addresses.deep_view().len() == server.addresses@.len());
        let address: Option<String> = if server.addresses.len() > 0 {
            assert(server.addresses.deep_view()[0] == server.addresses@[0]@);
            Some(server.addresses[0].clone())
        } else {
            None
        };
        out.push(
            Query { server: server.name.clone(), address, question: host.to_owned(), kind: "SOA" },
        );
        i += 1;
    }
    assert(out.deep_view() =~= servers.deep_view().map_values(|s: ServerView| soa_query(host@, s)));
    out
}

/// The same question is put to every server of a zone, whatever its name and its addresses, and
/// each is asked under its own name.
pub proof fn law_every_server_is_asked_the_same(host: Seq<char>, a: ServerView, b: ServerView)
    ensures
        soa_query(host, a).question == soa_query(host, b).question,
        soa_query(host, a).kind == soa_query(host, b).kind,
        soa_query(host, a).server == a.name,
        soa_query(host, a).address is Some <==> a.addresses.len() > 0,
{
}

impl Query {
    /// What a server comes to, given its reply. A server whose own name does not resolve is an
    /// error of the delegation; one that resolves and stays silent cannot be reached.
    pub fn answered(&self, reply: Option<AuthorityAnswer>) -> (r: Authority)
        ensures
            r.name@ == self.server@,
            match (self.address, reply) {
                (None, _) => r.answer matches Err(why) && why@ == "its own name doesn't resolve"@,
                (Some(_), None) => r.answer matches Err(why) && why@ == "no answer"@,
                (Some(_), Some(answer)) => r.answer == Ok::<AuthorityAnswer, String>(answer),
            },
    {
        let answer: Result<AuthorityAnswer, String> = match &self.address {
            None => Err("its own name doesn't resolve".to_owned()),
            Some(_address) => match reply {
                Some(answer) => Ok(answer),
                None => Err("no answer".to_owned()),
            },
        };
        Authority { name: self.server.clone(), answer }
    }
}

/// The line of one authoritative server.
pub open spec fn authority_line(a: Authority, problematic: Paint) -> Seq<char> {
    match a.answer {
        Ok(answer) => match answer.serial {
            Some(serial) => "  "@ + padded(a.name@, 22) + " "@ + padded(answer.server@, 16)
                + " serial "@ + padded(decimal(serial as nat), 12) + " "@ + answer.took@ + "ms"@
                + (if answer.via_tcp {
                " (over TCP)"@
            } else {
                ""@
            }) + "\n"@,
            None => "  "@ + padded(a.name@, 22) + " "@ + painted(
                problematic,
                "answered, but with no SOA"@,
            ) + "\n"@,
        },
        Err(why) => "  "@ + padded(a.name@, 22) + " "@ + painted(problematic, why@) + "\n"@,
    }
}

/// The lines of the first `n` authoritative servers.
pub open spec fn authority_lines(list: Seq<Authority>, n: nat, problematic: Paint) -> Seq<char>
    decreases n,
{
    if n == 0 {
        seq![]
    } else {
        authority_lines(list, (n - 1) as nat, problematic) + authority_line(list[n - 1], problematic)
    }
}

/// Each authoritative server has its line, in order.
pub proof fn law_every_server_has_its_line(list: Seq<Authority>, n: nat, problematic: Paint)
    requires
        n <= list.len(),
    ensures
        authority_lines(list, n, problematic) == list.take(n as int).flat_map(
            |a: Authority| authority_line(a, problematic),
        ),
    decreases n,
{
    if n > 0 {
        law_every_server_has_its_line(list, (n - 1) as nat, problematic);
        lemma_flat_map_last(
            list,
            |a: Authority| authority_line(a, problematic),
            n,
        );
    }
}

/// The serial numbers that the first `n` servers answered with.
pub open spec fn serials(list: Seq<Authority>, n: nat) -> Seq<u32>
    decreases n,
{
    if n == 0 {
        seq![]
    } else {
        match list[n - 1].answer {
            Ok(answer) => match answer.serial {
                Some(serial) => serials(list, (n - 1) as nat).push(serial),
                None => serials(list, (n - 1) as nat),
            },
            Err(_) => serials(list, (n - 1) as nat),
        }
    }
}

/// Each serial number that a server answered with is compared, in order, and nothing else is.
pub proof fn law_every_serial_is_compared(list: Seq<Authority>, n: nat)
    requires
        n <= list.len(),
    ensures
        serials(list, n) == list.take(n as int).filter_map(
            |a: Authority|
                match a.answer {
                    Ok(answer) => answer.serial,
                    Err(_) => None,
                },
        ),
    decreases n,
{
    if n > 0 {
        law_every_serial_is_compared(list, (n - 1) as nat);
        lemma_filter_map_last(
            list,
            |a: Authority|
                match a.answer {
                    Ok(answer) => answer.serial,
                    Err(_) => None,
                },
            n,
        );
    }
}

/// Whether no server answered.
pub open spec fn all_silent(list: Seq<Authority>) -> bool {
    forall|i: int| 0 <= i < list.len() ==> (#[trigger] list[i]).answer is Err
}

/// Whether all serial numbers are the same.
pub open spec fn agree(ss: Seq<u32>) -> bool {
    forall|i: int| 0 <= i < ss.len() ==> #[trigger] ss[i] == ss[0]
}

/// The least of the first `n` numbers, where there is one.
pub open spec fn least(ss: Seq<u32>, n: nat) -> nat
    decreases n,
{
    if n <= 1 {
        ss[0] as nat
    } else {
        let before = least(ss, (n - 1) as nat);
        if (ss[n - 1] as nat) < before {
            ss[n - 1] as nat
        } else {
            before
        }
    }
}

/// The greatest of the first `n` numbers, where there is one.
pub open spec fn greatest(ss: Seq<u32>, n: nat) -> nat
    decreases n,
{
    if n <= 1 {
        ss[0] as nat
    } else {
        let before = greatest(ss, (n - 1) as nat);
        if (ss[n - 1] as nat) > before {
            ss[n - 1] as nat
        } else {
            before
        }
    }
}

/// The least and the greatest of some numbers are among them, and all of them lie between.
pub proof fn law_the_bounds_hold_every_serial(ss: Seq<u32>, n: nat)
    requires
        0 < n <= ss.len(),
    ensures
        forall|i: int| 0 <= i < n ==> least(ss, n) <= #[trigger] ss[i] <= greatest(ss, n),
        exists|i: int| 0 <= i < n && #[trigger] ss[i] == least(ss, n),
        exists|i: int| 0 <= i < n && #[trigger] ss[i] == greatest(ss, n),
    decreases n,
{
    if n > 1 {
        law_the_bounds_hold_every_serial(ss, (n - 1) as nat);
        let low = choose|i: int| 0 <= i < n - 1 && #[trigger] ss[i] == least(ss, (n - 1) as nat);
        let high = choose|i: int| 0 <= i < n - 1 && #[trigger] ss[i] == greatest(ss, (n - 1) as nat);
        assert(ss[low] == least(ss, n) || ss[n - 1] == least(ss, n));
        assert(ss[high] == greatest(ss, n) || ss[n - 1] == greatest(ss, n));
    } else {
        assert(ss[0] == least(ss, n));
    }
}

/// What is said of the serial numbers.
pub open spec fn serial_verdict(ss: Seq<u32>, marks: Palette) -> Seq<char> {
    if ss.len() == 0 {
        seq![]
    } else if agree(ss) {
        "  "@ + painted(
            marks.approved,
            "all "@ + decimal(ss.len()) + " servers agree on serial "@ + decimal(ss[0] as nat),
        ) + "\n"@
    } else {
        "  "@ + painted(
            marks.problematic,
            "serials DISAGREE ("@ + decimal(least(ss, ss.len())) + " … "@ + decimal(
                greatest(ss, ss.len()),
            ) + ") — the zone is mid-propagation, or a server is stale"@,
        ) + "\n"@
    }
}

/// Servers disagree where any two of their serial numbers differ, whichever two; they agree where
/// there is one and all are the same; and nothing is said where there is none.
pub proof fn law_any_two_serials_can_disagree(ss: Seq<u32>, i: int, j: int, marks: Palette)
    requires
        0 <= i < ss.len(),
        0 <= j < ss.len(),
    ensures
        ss[i] != ss[j] ==> serial_verdict(ss, marks) == "  "@ + painted(
            marks.problematic,
            "serials DISAGREE ("@ + decimal(least(ss, ss.len())) + " … "@ + decimal(
                greatest(ss, ss.len()),
            ) + ") — the zone is mid-propagation, or a server is stale"@,
        ) + "\n"@,
        (forall|a: int, b: int|
            0 <= a < ss.len() && 0 <= b < ss.len() ==> #[trigger] ss[a] == #[trigger] ss[b])
            ==> serial_verdict(ss, marks) == "  "@ + painted(
            marks.approved,
            "all "@ + decimal(ss.len()) + " servers agree on serial "@ + decimal(ss[i] as nat),
        ) + "\n"@,
        serial_verdict(seq![], marks) == Seq::<char>::empty(),
{
    if ss[i] != ss[j] {
        assert(ss[i] != ss[0] || ss[j] != ss[0]);
    }
}

/// The section on the authoritative servers: nothing where the zone names none. All silent while
/// the local resolver answers is far more likely this network than a whole zone gone dark.
pub open spec fn authority_text(list: Seq<Authority>, palette: ExcavatePalette) -> Seq<char> {
    if list.len() == 0 {
        seq![]
    } else {
        section("Authoritative servers"@, palette.header) + authority_lines(
            list,
            list.len(),
            palette.marks.problematic,
        ) + (if all_silent(list) {
            "  "@ + painted(
                palette.marks.notice,
                "no authority answered on UDP or TCP, though the local resolver did — this network only permits DNS to its own resolver"@,
            ) + "\n"@
        } else {
            seq![]
        }) + serial_verdict(serials(list, list.len()), palette.marks)
    }
}

/// Where one server answers, whichever it is, silence is not blamed on this network; where none
/// does, it is.
pub proof fn law_one_answer_breaks_the_silence(list: Seq<Authority>, palette: ExcavatePalette)
    requires
        list.len() > 0,
    ensures
        ({
            let lines = "\n"@ + painted(palette.header, "Authoritative servers"@) + "\n"@
                + list.flat_map(|a: Authority| authority_line(a, palette.marks.problematic));
            let verdict = serial_verdict(
                list.filter_map(
                    |a: Authority|
                        match a.answer {
                            Ok(answer) => answer.serial,
                            Err(_) => None,
                        },
                ),
                palette.marks,
            );
            &&& (exists|i: int| 0 <= i < list.len() && (#[trigger] list[i]).answer is Ok)
                ==> authority_text(list, palette) == lines + verdict
            &&& (forall|i: int| 0 <= i < list.len() ==> (#[trigger] list[i]).answer is Err)
                ==> authority_text(list, palette) == lines + ("  "@ + painted(
                palette.marks.notice,
                "no authority answered on UDP or TCP, though the local resolver did — this network only permits DNS to its own resolver"@,
            ) + "\n"@) + verdict
        }),
{
    law_every_server_has_its_line(list, list.len(), palette.marks.problematic);
    law_every_serial_is_compared(list, list.len());
    assert(list.take(list.len() as int) =~= list);
    let lines = section("Authoritative servers"@, palette.header) + authority_lines(
        list,
        list.len(),
        palette.marks.problematic,
    );
    assert(lines + seq![] =~= lines);
    if exists|i: int| 0 <= i < list.len() && (#[trigger] list[i]).answer is Ok {
        let i = choose|i: int| 0 <= i < list.len() && (#[trigger] list[i]).answer is Ok;
        assert(!(list[i].answer is Err));
    }
}

/// The line of one authoritative server.
fn line_of_authority(a: &Authority, problematic: &Paint) -> (r: String)
    ensures
        r@ == authority_line(*a, *problematic),
{
    let mut out: String = "  ".to_owned();
    push_padded(&mut out, a.name.as_str(), 22);
    out.append(" ");
    match &a.answer {
        Ok(answer) => match answer.serial {
            Some(serial) => {
                push_padded(&mut out, answer.server.as_str(), 16);
                out.append(" serial ");
                let mut number: String = String::new();
                push_decimal(&mut number, serial as u128);
                assert(number@ =~= decimal(serial as nat));
                push_padded(&mut out, number.as_str(), 12);
                out.append(" ");
                out.append(answer.took.as_str());
                out.append("ms");
                out.append(
                    if answer.via_tcp {
                        " (over TCP)"
                    } else {
                        ""
                    },
                );
            },
            None => {
                out.append(problematic.paint("answered, but with no SOA").as_str());
            },
        },
        Err(why) => {
            out.append(problematic.paint(why.as_str()).as_str());
        },
    }
    out.append("\n");
    out
}

/// What is said of the serial numbers.
fn verdict_on(ss: &Vec<u32>, marks: &Palette) -> (r: String)
    ensures
        r@ == serial_verdict(ss@, *marks),
{
    if ss.len() == 0 {
        return String::new();
    }
    let mut same: bool = true;
    let mut low: u32 = ss[0];
    let mut high: u32 = ss[0];
    let mut i: usize = 1;
    while i < ss.len()
        invariant
            1 <= i <= ss.len(),
            same == forall|j: int| 0 <= j < i ==> #[trigger] ss@[j] == ss@[0],
            low == least(ss@, i as nat),
            high == greatest(ss@, i as nat),
        decreases ss.len() - i,
    {
        if ss[i] != ss[0] {
            assert(ss@[i as int] != ss@[0]);
            same = false;
        }
        if ss[i] < low {
            low = ss[i];
        }
        if ss[i] > high {
            high = ss[i];
        }
        i += 1;
    }
    let mut out: String = "  ".to_owned();
    if same {
        let mut line: String = "all ".to_owned();
        push_decimal(&mut line, ss.len() as u128);
        line.append(" servers agree on serial ");
        push_decimal(&mut line, ss[0] as u128);
        out.append(marks.approved.paint(line.as_str()).as_str());
    } else {
        let mut line: String = "serials DISAGREE (".to_owned();
        push_decimal(&mut line, low as u128);
        line.append(" … ");
        push_decimal(&mut line, high as u128);
        line.append(") — the zone is mid-propagation, or a server is stale");
        out.append(marks.problematic.paint(line.as_str()).as_str());
    }
    out.append("\n");
    out
}

/// The section on the authoritative servers: the same question put to each of them. A resolver
/// picks one and caches it, so that a zone in disagreement looks consistent from outside.
pub fn authority_section(list: &Vec<Authority>, palette: &ExcavatePalette) -> (r: String)
    ensures
        r@ == authority_text(list@, *palette),
{
    if list.len() == 0 {
        return String::new();
    }
    let mut lines: String = String::new();
    let mut ss: Vec<u32> = Vec::new();
    let mut silent: bool = true;
    let mut i: usize = 0;
    while i < list.len()
        invariant
            i <= list.len(),
            lines@ == authority_lines(list@, i as nat, palette.marks.problematic),
            ss@ == serials(list@, i as nat),
            silent == forall|j: int| 0 <= j < i ==> (#[trigger] list@[j]).answer is Err,
        decreases list.len() - i,
    {
        lines.append(line_of_authority(&list[i], &palette.marks.problematic).as_str());
        match &list[i].answer {
            Ok(answer) => {
                assert(list@[i as int].answer is Ok);
                silent = false;
                if let Some(serial) = answer.serial {
                    ss.push(serial);
                }
            },
            Err(_why) => {},
        }
        i += 1;
    }
    let mut out: String = open_section("Authoritative servers", &palette.header);
    out.append(lines.as_str());
    let ghost before = out@;
    if silent {
        let mut note: String = "  ".to_owned();
        note.append(
            palette.marks.notice.paint(
                "no authority answered on UDP or TCP, though the local resolver did — this network only permits DNS to its own resolver",
            ).as_str(),
        );
        note.append("\n");
        out.append(note.as_str());
    } else {
        assert(before + seq![] =~= before);
    }
    out.append(verdict_on(&ss, &palette.marks).as_str());
    out
}

// --- registration ---------------------------------------------------------------------------

/// A field of a registration record.
pub struct FieldValue {
    pub label: String,
    pub value: String,
}

/// The lines of the first `n` fields of a registration.
pub open spec fn field_lines(fields: Seq<FieldValue>, n: nat) -> Seq<char>
    decreases n,
{
    if n == 0 {
        seq![]
    } else {
        field_lines(fields, (n - 1) as nat) + ("  "@ + padded(ascii_lower(fields[n - 1].label@), 14)
            + " "@ + fields[n - 1].value@ + "\n"@)
    }
}

/// Each field of a registration has its line, in order.
pub proof fn law_every_field_has_its_line(fields: Seq<FieldValue>, n: nat)
    requires
        n <= fields.len(),
    ensures
        field_lines(fields, n) == fields.take(n as int).flat_map(
            |f: FieldValue|
                "  "@ + padded(ascii_lower(f.label@), 14) + " "@ + f.value@ + "\n"@,
        ),
    decreases n,
{
    if n > 0 {
        law_every_field_has_its_line(fields, (n - 1) as nat);
        lemma_flat_map_last(
            fields,
            |f: FieldValue|
                "  "@ + padded(ascii_lower(f.label@), 14) + " "@ + f.value@ + "\n"@,
            n,
        );
    }
}

/// What the registry's whois record says.
pub struct WhoisRecord {
    /// Whether it says that there is no such name.
    pub no_match: bool,
    pub fields: Vec<FieldValue>,
    /// The nameservers it names, in lower case.
    pub nameservers: Vec<String>,
}

/// Whether some registered nameserver is not among the live ones.
pub open spec fn drifted(registered: Seq<Seq<char>>, live: Seq<Seq<char>>) -> bool {
    live.len() > 0 && exists|i: int|
        0 <= i < registered.len() && !live.contains(#[trigger] registered[i])
}

/// What is said where the registry's nameservers and the live ones disagree.
pub open spec fn drift_text(registered: Seq<Seq<char>>, live: Seq<Seq<char>>, problematic: Paint) -> Seq<
    char,
> {
    if drifted(registered, live) {
        "  "@ + padded(""@, 14) + " "@ + painted(
            problematic,
            "registry and live NS records disagree"@,
        ) + "\n"@ + ("  "@ + padded(""@, 14) + " live: "@ + join(live, ", "@) + "\n"@)
    } else {
        seq![]
    }
}

/// A nameserver that the registry names and that does not answer for the zone is said, whichever it
/// is; nothing is said where each of them does, or where none answers at all.
pub proof fn law_any_stray_nameserver_is_said(
    registered: Seq<Seq<char>>,
    live: Seq<Seq<char>>,
    problematic: Paint,
)
    ensures
        live.len() > 0 && (exists|i: int|
            0 <= i < registered.len() && !live.contains(#[trigger] registered[i])) ==> drift_text(
            registered,
            live,
            problematic,
        ) == "  "@ + padded(""@, 14) + " "@ + painted(
            problematic,
            "registry and live NS records disagree"@,
        ) + "\n"@ + ("  "@ + padded(""@, 14) + " live: "@ + join(live, ", "@) + "\n"@),
        live.len() == 0 || (forall|i: int|
            0 <= i < registered.len() ==> live.contains(#[trigger] registered[i])) ==> drift_text(
            registered,
            live,
            problematic,
        ) == Seq::<char>::empty(),
{
}

/// The position of a label among the fields, from `k` on.
pub open spec fn labelled(fields: Seq<FieldValue>, label: Seq<char>, k: int) -> Option<int>
    decreases fields.len() - k,
{
    if k >= fields.len() {
        None
    } else if fields[k].label@ == label {
        Some(k)
    } else {
        labelled(fields, label, k + 1)
    }
}

/// What is found under a label has it, and nothing before it does; where nothing is found, nothing
/// has it.
pub proof fn law_the_first_of_a_label_is_found(fields: Seq<FieldValue>, label: Seq<char>, k: int)
    requires
        0 <= k <= fields.len(),
    ensures
        match labelled(fields, label, k) {
            Some(found) => k <= found < fields.len() && fields[found].label@ == label && forall|
                i: int,
            |
                k <= i < found ==> (#[trigger] fields[i]).label@ != label,
            None => forall|i: int| k <= i < fields.len() ==> (#[trigger] fields[i]).label@ != label,
        },
    decreases fields.len() - k,
{
    if k < fields.len() {
        law_the_first_of_a_label_is_found(fields, label, k + 1);
    }
}

/// The pieces of a text between the occurrences of a separator.
pub open spec fn split_text(s: Seq<char>, sep: Seq<char>) -> Seq<Seq<char>>
    decreases s.len(),
{
    match crate::text::find_from(s, sep, 0) {
        Some(k) => if sep.len() > 0 && 0 <= k && k + sep.len() <= s.len() {
            seq![s.take(k)] + split_text(s.skip(k + sep.len()), sep)
        } else {
            seq![s]
        },
        None => seq![s],
    }
}

/// A text is split at every separator: what stands before the first is the first piece, and what
/// stands behind it is split in the same way; without one the text is the one piece.
pub proof fn law_a_list_is_split_at_every_separator(s: Seq<char>, sep: Seq<char>, k: int)
    requires
        sep.len() > 0,
    ensures
        occurs_at(s, sep, k) && 0 <= k && (forall|j: int| 0 <= j < k ==> !occurs_at(s, sep, j))
            ==> split_text(s, sep) == seq![s.take(k)] + split_text(s.skip(k + sep.len()), sep),
        (forall|j: int| 0 <= j ==> !occurs_at(s, sep, j)) ==> split_text(s, sep) == seq![s],
{
    crate::text::lemma_find_from(s, sep, 0);
}

/// The nameservers that a structured record names.
pub open spec fn registered_in(fields: Seq<FieldValue>) -> Seq<Seq<char>> {
    match labelled(fields, "Nameservers"@, 0) {
        Some(k) => split_text(fields[k].value@, ", "@),
        None => seq![],
    }
}

/// A registration is shown with all its fields, and with where they are from.
pub proof fn law_every_registered_field_is_shown(
    fields: Vec<FieldValue>,
    record: WhoisRecord,
    live: Seq<Seq<char>>,
    palette: ExcavatePalette,
)
    requires
        fields@.len() > 0,
        !record.no_match,
        record.fields@.len() > 0,
    ensures
        registration_text(Some(fields), None, live, palette) == "\n"@ + painted(
            palette.header,
            "Registration"@,
        ) + "\n"@ + fields@.flat_map(
            |f: FieldValue|
                "  "@ + padded(ascii_lower(f.label@), 14) + " "@ + f.value@ + "\n"@,
        ) + ("  "@ + padded("via"@, 14) + " RDAP\n"@) + drift_text(
            registered_in(fields@),
            live,
            palette.marks.problematic,
        ),
        registration_text(None, Some(record), live, palette) == "\n"@ + painted(
            palette.header,
            "Registration"@,
        ) + "\n"@ + record.fields@.flat_map(
            |f: FieldValue|
                "  "@ + padded(ascii_lower(f.label@), 14) + " "@ + f.value@ + "\n"@,
        ) + ("  "@ + padded("via"@, 14) + " whois\n"@) + drift_text(
            record.nameservers.deep_view(),
            live,
            palette.marks.problematic,
        ),
{
    law_every_field_has_its_line(fields@, fields@.len());
    law_every_field_has_its_line(record.fields@, record.fields@.len());
    assert(fields@.take(fields@.len() as int) =~= fields@);
    assert(record.fields@.take(record.fields@.len() as int) =~= record.fields@);
}

/// The section on a domain's registration: the structured record first, whois where there is
/// none.
pub open spec fn registration_text(
    rdap: Option<Vec<FieldValue>>,
    whois: Option<WhoisRecord>,
    live: Seq<Seq<char>>,
    palette: ExcavatePalette,
) -> Seq<char> {
    let head = section("Registration"@, palette.header);
    match rdap {
        Some(fields) => if fields@.len() > 0 {
            head + field_lines(fields@, fields@.len()) + ("  "@ + padded("via"@, 14) + " RDAP\n"@)
                + drift_text(registered_in(fields@), live, palette.marks.problematic)
        } else {
            whois_text(head, whois, live, palette.marks)
        },
        None => whois_text(head, whois, live, palette.marks),
    }
}

/// Where the registry answered with fields over RDAP, what whois says changes nothing; where it did
/// not, an answer without fields is as good as none.
pub proof fn law_rdap_goes_before_whois(
    rdap: Option<Vec<FieldValue>>,
    whois: Option<WhoisRecord>,
    other: Option<WhoisRecord>,
    live: Seq<Seq<char>>,
    palette: ExcavatePalette,
)
    ensures
        rdap is Some && rdap->0@.len() > 0 ==> registration_text(rdap, whois, live, palette)
            == registration_text(rdap, other, live, palette),
        !(rdap is Some && rdap->0@.len() > 0) ==> registration_text(rdap, whois, live, palette)
            == registration_text(None, whois, live, palette),
{
}

/// The rest of the section where whois has to answer.
pub open spec fn whois_text(
    head: Seq<char>,
    whois: Option<WhoisRecord>,
    live: Seq<Seq<char>>,
    marks: Palette,
) -> Seq<char> {
    match whois {
        None => head + ("  "@ + painted(
            marks.problematic,
            "no registration record — RDAP and whois both failed"@,
        ) + "\n"@),
        Some(record) => if record.no_match {
            head + ("  "@ + painted(
                marks.notice,
                "no registration record — a subdomain, or an unregistered name"@,
            ) + "\n"@)
        } else {
            head + (if record.fields@.len() == 0 {
                "  "@ + painted(
                    marks.notice,
                    "a record exists, but none of the usual fields were in it"@,
                ) + "\n"@
            } else {
                field_lines(record.fields@, record.fields@.len())
            }) + ("  "@ + padded("via"@, 14) + " whois\n"@) + drift_text(
                record.nameservers.deep_view(),
                live,
                marks.problematic,
            )
        },
    }
}

/// The lines of the fields of a registration.
fn lines_of_fields(fields: &Vec<FieldValue>) -> (r: String)
    ensures
        r@ == field_lines(fields@, fields@.len()),
{
    let mut out: String = String::new();
    let mut i: usize = 0;
    while i < fields.len()
        invariant
            i <= fields.len(),
            out@ == field_lines(fields@, i as nat),
        decreases fields.len() - i,
    {
        let mut line: String = "  ".to_owned();
        push_padded(&mut line, to_ascii_lower(fields[i].label.as_str()).as_str(), 14);
        line.append(" ");
        line.append(fields[i].value.as_str());
        line.append("\n");
        out.append(line.as_str());
        i += 1;
    }
    out
}

/// Compare the registry's nameservers with the ones DNS answers with. They should agree; when
/// they do not, resolution depends on which server a resolver happens to ask.
pub fn nameserver_drift(registered: &Vec<String>, live: &Vec<String>, problematic: &Paint) -> (r: String)
    ensures
        r@ == drift_text(registered.deep_view(), live.deep_view(), *problematic),
{
    assert(live.deep_view().len() == live@.len());
    if live.len() == 0 {
        return String::new();
    }
    let mut i: usize = 0;
    while i < registered.len()
        invariant
            i <= registered.len(),
            live.deep_view().len() > 0,
            forall|j: int|
                0 <= j < i ==> live.deep_view().contains(#[trigger] registered.deep_view()[j]),
        decreases registered.len() - i,
    {
        assert(registered.deep_view()[i as int] == registered@[i as int]@);
        if !holds_text(live, registered[i].as_str()) {
            assert(drifted(registered.deep_view(), live.deep_view()));
            let mut out: String = "  ".to_owned();
            push_padded(&mut out, "", 14);
            out.append(" ");
            out.append(problematic.paint("registry and live NS records disagree").as_str());
            out.append("\n");
            let mut second: String = "  ".to_owned();
            push_padded(&mut second, "", 14);
            second.append(" live: ");
            second.append(joined(live, ", ").as_str());
            second.append("\n");
            out.append(second.as_str());
            return out;
        }
        i += 1;
    }
    assert(registered.deep_view().len() == registered@.len());
    String::new()
}

/// The pieces of a text between the occurrences of a separator.
fn split_on_text(s: &str, sep: &str) -> (r: Vec<String>)
    requires
        sep@.len() > 0,
    ensures
        r.deep_view() == split_text(s@, sep@),
{
    let cs: Vec<char> = chars_of(s);
    let p: Vec<char> = chars_of(sep);
    let mut out: Vec<String> = Vec::new();
    let mut rest: &[char] = cs.as_slice();
    assert(out.deep_view() + split_text(s@, sep@) =~= split_text(s@, sep@));
    loop
        invariant
            p@ == sep@,
            sep@.len() > 0,
            out.deep_view() + split_text(rest@, sep@) == split_text(s@, sep@),
        decreases rest@.len(),
    {
        let ghost before = out.deep_view();
        proof {
            crate::text::lemma_find_from(rest@, sep@, 0);
        }
        match crate::text::find_chars(rest, p.as_slice(), 0) {
            Some(k) => {
                out.push(string_of(slice_subrange(rest, 0, k)));
                let limit: usize = rest.len();
                assert(k + p@.len() <= limit);
                let next: &[char] = slice_subrange(rest, k + p.len(), limit);
                assert(next@ =~= rest@.skip(k + sep@.len()));
                assert(rest@.take(k as int) =~= rest@.subrange(0, k as int));
                assert(out.deep_view() =~= before.push(rest@.take(k as int)));
                assert(out.deep_view() + split_text(next@, sep@) =~= before + split_text(rest@, sep@));
                rest = next;
            },
            None => {
                out.push(string_of(rest));
                assert(out.deep_view() =~= before + seq![rest@]);
                return out;
            },
        }
    }
}

/// The nameservers that a structured record names.
fn registered_names(fields: &Vec<FieldValue>) -> (r: Vec<String>)
    ensures
        r.deep_view() == registered_in(fields@),
{
    let mut k: usize = 0;
    while k < fields.len()
        invariant
            k <= fields.len(),
            labelled(fields@, "Nameservers"@, 0) == labelled(fields@, "Nameservers"@, k as int),
        decreases fields.len() - k,
    {
        if same_text(fields[k].label.as_str(), "Nameservers") {
            proof {
                reveal_strlit(", ");
            }
            return split_on_text(fields[k].value.as_str(), ", ");
        }
        k += 1;
    }
    let none: Vec<String> = Vec::new();
    assert(none.deep_view() =~= seq![]);
    none
}

/// The section on a domain's registration.
pub fn domain_registration(
    rdap: &Option<Vec<FieldValue>>,
    whois: &Option<WhoisRecord>,
    live: &Vec<String>,
    palette: &ExcavatePalette,
) -> (r: String)
    ensures
        r@ == registration_text(*rdap, *whois, live.deep_view(), *palette),
{
    let mut out: String = open_section("Registration", &palette.header);
    if let Some(fields) = rdap {
        if fields.len() > 0 {
            out.append(lines_of_fields(fields).as_str());
            let mut via: String = "  ".to_owned();
            push_padded(&mut via, "via", 14);
            via.append(" RDAP\n");
            out.append(via.as_str());
            out.append(
                nameserver_drift(&registered_names(fields), live, &palette.marks.problematic).as_str(),
            );
            return out;
        }
    }
    match whois {
        None => {
            let mut line: String = "  ".to_owned();
            line.append(
                palette.marks.problematic.paint(
                    "no registration record — RDAP and whois both failed",
                ).as_str(),
            );
            line.append("\n");
            out.append(line.as_str());
        },
        Some(record) => {
            if record.no_match {
                let mut line: String = "  ".to_owned();
                line.append(
                    palette.marks.notice.paint(
                        "no registration record — a subdomain, or an unregistered name",
                    ).as_str(),
                );
                line.append("\n");
                out.append(line.as_str());
                return out;
            }
            if record.fields.len() == 0 {
                let mut line: String = "  ".to_owned();
                line.append(
                    palette.marks.notice.paint(
                        "a record exists, but none of the usual fields were in it",
                    ).as_str(),
                );
                line.append("\n");
                out.append(line.as_str());
            } else {
                out.append(lines_of_fields(&record.fields).as_str());
            }
            let mut via: String = "  ".to_owned();
            push_padded(&mut via, "via", 14);
            via.append(" whois\n");
            out.append(via.as_str());
            out.append(
                nameserver_drift(&record.nameservers, live, &palette.marks.problematic).as_str(),
            );
        },
    }
    out
}

// --- the whole report -----------------------------------------------------------------------

/// What was asked about.
pub enum Target {
    Host(String),
    Ip(String),
}

/// A section of the report.
#[derive(Clone, Copy, Debug, PartialEq, Eq, Structural)]
pub enum Section {
    Dns,
    Authorities,
    Registration,
    Addresses,
    Tls,
    Http,
    Ports,
    Trace,
}

impl Target {
    /// The target as it is written.
    pub open spec fn name(self) -> Seq<char> {
        match self {
            Target::Host(host) => host@,
            Target::Ip(ip) => ip@,
        }
    }

    /// The target as it is written: also what the service side connects to.
    pub fn label(&self) -> (r: String)
        ensures
            r@ == self.name(),
    {
        match self {
            Target::Host(host) => host.clone(),
            Target::Ip(ip) => ip.clone(),
        }
    }
}

/// The sections of a report, in order: a host's own records first; an address skips straight to
/// what owns it. Both get the service side. The sweep and the route are asked for.
pub open spec fn sections(target: Target, ports: bool, trace: bool) -> Seq<Section> {
    (if target is Host {
        seq![Section::Dns, Section::Authorities, Section::Registration]
    } else {
        seq![]
    }) + seq![Section::Addresses, Section::Tls, Section::Http] + (if ports {
        seq![Section::Ports]
    } else {
        seq![]
    }) + (if trace {
        seq![Section::Trace]
    } else {
        seq![]
    })
}

/// A host is reported on in full and an address from what owns it on; the ports are swept and the
/// route traced exactly where that is asked for.
pub proof fn law_what_a_report_covers(target: Target, ports: bool, trace: bool)
    ensures
        ({
            let all = sections(target, ports, trace);
            &&& all.contains(Section::Dns) <==> target is Host
            &&& all.contains(Section::Authorities) <==> target is Host
            &&& all.contains(Section::Registration) <==> target is Host
            &&& all.contains(Section::Addresses)
            &&& all.contains(Section::Tls)
            &&& all.contains(Section::Http)
            &&& all.contains(Section::Ports) <==> ports
            &&& all.contains(Section::Trace) <==> trace
            &&& all.no_duplicates()
        }),
{
    let own = if target is Host {
        seq![Section::Dns, Section::Authorities, Section::Registration]
    } else {
        seq![]
    };
    let all = sections(target, ports, trace);
    let n = own.len() as int;
    if target is Host {
        assert(all[0] == Section::Dns);
        assert(all[1] == Section::Authorities);
        assert(all[2] == Section::Registration);
    }
    assert(all[n] == Section::Addresses);
    assert(all[n + 1] == Section::Tls);
    assert(all[n + 2] == Section::Http);
    if ports {
        assert(all[n + 3] == Section::Ports);
        if trace {
            assert(all[n + 4] == Section::Trace);
        }
    } else if trace {
        assert(all[n + 3] == Section::Trace);
    }
}

/// Dig up everything about a host or an address: the heading, and the sections that follow it.
pub fn excavate(args: &ExcavateArgs, target: &Target, palette: &ExcavatePalette) -> (r: (
    String,
    Vec<Section>,
))
    ensures
        r.0@ == painted(palette.header, "── "@ + target.name() + " ──"@) + "\n"@,
        r.1@ == sections(*target, args.ports, args.trace),
{
    let title: String = title_line(target.label().as_str(), &palette.header);
    let mut out: Vec<Section> = Vec::new();
    if let Target::Host(_) = target {
        out.push(Section::Dns);
        out.push(Section::Authorities);
        out.push(Section::Registration);
    }
    out.push(Section::Addresses);
    out.push(Section::Tls);
    out.push(Section::Http);
    if args.ports {
        out.push(Section::Ports);
    }
    if args.trace {
        out.push(Section::Trace);
    }
    assert(out@ =~= sections(*target, args.ports, args.trace));
    (title, out)
}

} // verus!
