use std::collections::{BTreeMap, BTreeSet};

use bashrs::network::address::{
    address_section, location_note, needs_whois, found_owner, owners_to_ask, Address, Asn, Owner, DETAILED_ADDRESSES,
};
use bashrs::network::excavate::{
    authority_queries, authority_section, cold_lookup, dns_section, domain_registration, excavate, nameserver_drift,
    server_names, AliasWalk, Answer, Authority, AuthorityAnswer, ColdLookup, ExcavateArgs, ExcavatePalette, FieldValue,
    Record, Resolver, Section, Server, Target, WhoisRecord,
};
use bashrs::network::service::{
    http_section, name_matches, packed, ports_section, tls_section, trace_section, ChainLink, Fetch,
    Handshake, Header, Hop, OpenPort, Tls,
};
use bashrs::network::{
    in_target_order, latency_cell, layout, probe_targets, quiet_rows, repaint, sonar_summary, Latency,
    SonarArgs, SonarPalette, PENDING,
};
use bashrs::style::{Paint, Palette};

fn texts(list: &[&str]) -> Vec<String> {
    list.iter().map(|s| s.to_string()).collect()
}

fn code(open: &str) -> Paint {
    Paint { open: open.to_string(), close: "\x1b[0m".to_string() }
}

fn sonar_palette() -> SonarPalette {
    SonarPalette {
        cyan: code("\x1b[36m"),
        green: code("\x1b[32m"),
        yellow: code("\x1b[33m"),
        orange: code("\x1b[38;5;208m"),
        red: code("\x1b[31m"),
        dark: code("\x1b[2m"),
        header: code("\x1b[1;34m"),
        problematic: code("\x1b[1;31m"),
    }
}

fn palette() -> ExcavatePalette {
    ExcavatePalette {
        header: Paint::none(),
        marks: Palette { problematic: code("!"), notice: code("~"), approved: code("+") },
    }
}

// --- packing and certificate names ----------------------------------------------------------

#[test]
fn a_long_name_list_packs_into_bounded_lines() {
    let names: Vec<String> = (0..20).map(|n| format!("host{n}.example.com")).collect();
    let lines = packed(&names, 60);
    assert!(lines.len() > 1 && lines.len() < names.len(), "packed, not one-per-line: {lines:?}");
    for line in &lines {
        assert!(line.len() <= 60, "line over budget ({}): {line}", line.len());
    }
    let rejoined: Vec<&str> = lines.iter().flat_map(|l| l.split(", ")).collect();
    assert_eq!(rejoined, names, "packing must not lose or reorder a name");
    assert_eq!(packed(&vec!["x".repeat(80)], 10), vec!["x".repeat(80)]);
    assert!(packed(&vec![], 40).is_empty());
}

#[test]
fn wildcard_certificate_names_cover_exactly_one_label() {
    assert!(name_matches("example.com", "example.com"));
    assert!(name_matches("EXAMPLE.com", "example.COM"), "matching is case-insensitive");
    assert!(name_matches("*.example.com", "www.example.com"));
    assert!(!name_matches("*.example.com", "example.com"));
    assert!(!name_matches("*.example.com", "a.b.example.com"));
    assert!(!name_matches("example.com", "evil-example.com"));
    assert!(!name_matches("*.example.com", "www.example.com.evil.test"));
}

#[test]
fn a_line_is_filled_before_the_next_is_begun() {
    let lines = packed(&texts(&["aa", "bb", "cc", "dddddddddd", "e"]), 10);
    assert_eq!(lines, ["aa, bb, cc", "dddddddddd", "e"]);
    assert_eq!(packed(&texts(&["aa", "bb", "cc"]), 9), ["aa, bb", "cc"]);
}

#[test]
fn a_wildcard_covers_no_empty_label() {
    assert!(!name_matches("*.example.com", ".example.com"));
    assert!(!name_matches("*.example.com", "a..example.com"));
    assert!(name_matches("*.EXAMPLE.com", "a.example.COM"));
}

// --- sonar ----------------------------------------------------------------------------------

#[test]
fn each_latency_band_owns_its_range() {
    let p = sonar_palette();
    let coloured = |ms: u64| latency_cell(Latency::In(ms), &p);
    let is = |cell: &str, colour: &Paint| cell.contains(&colour.open);
    assert!(is(&coloured(0), &p.cyan) && is(&coloured(19), &p.cyan));
    assert!(is(&coloured(20), &p.green) && is(&coloured(59), &p.green));
    assert!(is(&coloured(60), &p.yellow) && is(&coloured(149), &p.yellow));
    assert!(is(&coloured(150), &p.orange) && is(&coloured(299), &p.orange));
    assert!(is(&coloured(300), &p.red) && is(&coloured(9_000), &p.red));
    assert!(coloured(0).contains("<1 ms"));
}

#[test]
fn failures_are_red_and_name_their_kind() {
    let p = sonar_palette();
    for (latency, wording) in [
        (Latency::Refused, "refused"),
        (Latency::TimedOut, "no answer"),
        (Latency::Unresolved, "no address"),
    ] {
        let cell = latency_cell(latency, &p);
        assert!(cell.contains(wording), "should say `{wording}`: {cell}");
        assert!(cell.contains(&p.red.open), "must be red: {cell}");
    }
}

#[test]
fn every_live_row_opens_its_cell_at_the_repaint_column() {
    let targets = probe_targets();
    let layout = layout(&targets, 200, &sonar_palette()).expect("a wide window lays out");
    assert_eq!(
        layout.skeleton.lines().count(),
        targets.len() + 1,
        "one header, then every target — the whole list is on screen before probing"
    );
    for line in layout.skeleton.lines().skip(1) {
        let plain = console::strip_ansi_codes(line);
        let opens_at = plain.chars().count() - PENDING.chars().count() + 1;
        assert_eq!(opens_at, layout.response_column, "cell starts elsewhere: {plain:?}");
    }
}

#[test]
fn a_narrow_window_declines_the_live_table() {
    assert!(layout(&probe_targets(), 40, &sonar_palette()).is_none());
    assert!(layout(&probe_targets(), 200, &sonar_palette()).is_some());
}

#[test]
fn the_summary_reports_the_median_of_what_answered() {
    let ms = Latency::In;
    let mixed = vec![ms(10), ms(400), ms(50), Latency::TimedOut, ms(20), ms(30)];
    let summary = sonar_summary(&mixed, &Paint::none());
    assert!(summary.contains("5 of 6 answered"), "{summary}");
    assert!(summary.contains("median 30 ms"), "an unreachable host must not skew it: {summary}");
    assert!(sonar_summary(&vec![Latency::TimedOut], &Paint::none()).contains("this side"));
}

#[test]
fn the_target_list_is_well_formed_and_varied() {
    let mut hosts = BTreeSet::new();
    let mut per_provider: BTreeMap<&str, usize> = Default::default();
    for target in &probe_targets() {
        assert!(!target.provider.is_empty() && !target.endpoint.is_empty());
        assert!(hosts.insert(target.host), "{} is listed twice", target.host);
        assert!(target.host.contains('.'), "{} is not a hostname", target.host);
        *per_provider.entry(target.provider).or_default() += 1;
    }
    for (provider, count) in &per_provider {
        assert!(*count >= 2, "{provider} has only {count} endpoint — one says too little");
    }
    assert!(per_provider.len() >= 6, "too few providers to tell a local fault from theirs");
}

#[test]
fn answers_come_in_the_order_of_the_targets() {
    let collected = vec![(2, Latency::In(5)), (0, Latency::Refused)];
    let placed = in_target_order(3, &collected);
    assert!(matches!(placed[..], [Latency::Refused, Latency::Unresolved, Latency::In(5)]));
    let args = SonarArgs { workers: 0, timeout: 0 };
    assert_eq!((args.pool(5), args.patience()), (1, 1));
    assert_eq!(SonarArgs { workers: 12, timeout: 3 }.pool(5), 5);
    let cell = repaint(3, 1, 40, Latency::Refused, &sonar_palette());
    assert!(cell.starts_with("\x1b[2A\x1b[40G\x1b[K"), "{cell:?}");
    let rows = quiet_rows(&probe_targets(), &vec![Latency::In(7)], &sonar_palette());
    assert_eq!(rows.len(), 2);
    assert!(rows[1].ends_with("\t\x1b[36m7 ms\x1b[0m"), "{:?}", rows[1]);
}

// --- excavate -------------------------------------------------------------------------------

#[test]
fn a_host_gets_its_records_and_an_address_does_not() {
    let args = ExcavateArgs { target: "x".to_string(), ports: true, trace: false };
    let (title, sections) = excavate(&args, &Target::Host("ex.com".to_string()), &palette());
    assert_eq!(title, "── ex.com ──\n");
    assert_eq!(
        sections,
        [
            Section::Dns,
            Section::Authorities,
            Section::Registration,
            Section::Addresses,
            Section::Tls,
            Section::Http,
            Section::Ports
        ]
    );
    let bare = ExcavateArgs { target: "x".to_string(), ports: false, trace: true };
    let (_, sections) = excavate(&bare, &Target::Ip("8.8.8.8".to_string()), &palette());
    assert_eq!(sections, [Section::Addresses, Section::Tls, Section::Http, Section::Trace]);
}

fn answer(kind: &str, records: Result<Vec<Record>, String>) -> Answer {
    Answer { kind: kind.to_string(), records, took: "3".to_string() }
}

#[test]
fn records_are_lined_up_and_signing_is_told() {
    let a = answer("A", Ok(vec![Record { ttl: 60, text: "1.2.3.4".to_string() }]));
    let caa = answer("CAA", Ok(vec![]));
    let mx = answer("MX", Err("refused".to_string()));
    let resolver = Some(Resolver { address: "127.0.0.53".to_string(), loopback: true });
    let text = dns_section(&vec![a, caa, mx], &vec![], &resolver, &palette().marks);
    assert_eq!(
        text,
        "  A      60s      1.2.3.4\n  CAA             none — any certificate authority may issue for this name\n  MX              !refused\x1b[0m\n  DNSSEC          unsigned\n  times           A 3ms · CAA 3ms (via 127.0.0.53 — local cache, not network latency)\n"
    );
    let ds = answer("DS", Ok(vec![Record { ttl: 1, text: "x".to_string() }]));
    assert!(dns_section(&vec![], &vec![ds], &None, &palette().marks).contains("+signed (DS/DNSKEY present)"));
    let cold = Ok(ColdLookup { took: "9".to_string(), wildcard: Some("1.1.1.1".to_string()) });
    let said = cold_lookup(&cold, &palette().marks);
    assert!(said.contains("9ms for an uncached name") && said.contains("resolves (1.1.1.1)"), "{said}");
    assert!(cold_lookup(&Err("timed out".to_string()), &palette().marks).contains("!timed out"));
}

#[test]
fn aliases_are_followed_to_the_end_and_never_in_circles() {
    let red = Paint::none();
    let mut walk = AliasWalk::new("a.com");
    let step = walk.step(60, "b.com", &red);
    assert!(step.again && step.text == "  CNAME  60s      a.com → b.com\n", "{}", step.text);
    let back = walk.step(60, "A.com", &red);
    assert!(!back.again && back.text.contains("CNAME loop"), "{}", back.text);
    let mut deep = AliasWalk::new("n0");
    for n in 1..10 {
        assert!(deep.step(1, &format!("n{n}"), &red).again);
    }
    let last = deep.step(1, "n10", &red);
    assert!(!last.again && last.text.contains("deeper than 10 hops"), "{}", last.text);
}

fn authority(name: &str, serial: Option<u32>) -> Authority {
    Authority {
        name: name.to_string(),
        answer: Ok(AuthorityAnswer {
            server: "1.1.1.1".to_string(),
            took: "4".to_string(),
            via_tcp: true,
            serial,
        }),
    }
}

fn silent(name: &str) -> Authority {
    Authority { name: name.to_string(), answer: Err("no answer".to_string()) }
}

#[test]
fn authorities_agree_or_they_do_not() {
    assert_eq!(authority_section(&vec![], &palette()), "");
    let same = authority_section(&vec![authority("a", Some(7)), authority("b", Some(7))], &palette());
    assert!(same.contains("+all 2 servers agree on serial 7\x1b[0m"), "{same}");
    assert!(same.contains("4ms (over TCP)\n"), "{same}");
    let split = authority_section(&vec![authority("a", Some(9)), authority("b", Some(7)), authority("c", None)], &palette());
    assert!(split.contains("!serials DISAGREE (7 … 9)"), "{split}");
    assert!(split.contains("!answered, but with no SOA"), "{split}");
    let dark = authority_section(&vec![silent("a")], &palette());
    assert!(dark.contains("~no authority answered on UDP or TCP"), "{dark}");
}

#[test]
fn every_server_is_asked_for_the_soa_of_the_host() {
    assert_eq!(server_names(&texts(&["ns1.x.", "ns2.x"])), ["ns1.x", "ns2.x"]);
    let server = |name: &str, addresses: &[&str]| Server {
        name: name.to_string(),
        addresses: texts(addresses),
    };
    let queries =
        authority_queries("x.com", &vec![server("ns1.x", &["1.1.1.1", "2.2.2.2"]), server("ns2.x", &[])]);
    assert_eq!(queries.len(), 2);
    assert_eq!(queries[0].address.as_deref(), Some("1.1.1.1"));
    assert!(queries.iter().all(|q| q.question == "x.com" && q.kind == "SOA"));
    let lost = queries[1].answered(None);
    assert_eq!((lost.name.as_str(), lost.answer.err().as_deref()), ("ns2.x", Some("its own name doesn't resolve")));
    assert_eq!(queries[0].answered(None).answer.err().as_deref(), Some("no answer"));
    let reply = AuthorityAnswer {
        server: "1.1.1.1".to_string(),
        took: "4".to_string(),
        via_tcp: false,
        serial: Some(7),
    };
    assert_eq!(queries[0].answered(Some(reply)).answer.ok().and_then(|a| a.serial), Some(7));
}

fn field(label: &str, value: &str) -> FieldValue {
    FieldValue { label: label.to_string(), value: value.to_string() }
}

#[test]
fn whois_is_asked_only_where_rdap_shows_nothing() {
    assert!(needs_whois(&None) && needs_whois(&Some(vec![])));
    assert!(!needs_whois(&Some(vec![field("Name", "N")])));
    let ip = || "1.1.1.1".to_string();
    let first = found_owner(ip(), None, Some(vec![field("Name", "N")]), None);
    assert_eq!((first.source.as_str(), first.whois.map(|f| f.len())), ("RDAP", Some(1)));
    let second = found_owner(ip(), None, Some(vec![]), Some(vec![field("a", "b"), field("c", "d")]));
    assert_eq!((second.source.as_str(), second.whois.map(|f| f.len())), ("whois", Some(2)));
    assert!(found_owner(ip(), None, None, None).whois.is_none());
}

#[test]
fn registration_is_told_by_whoever_answers() {
    let live = texts(&["ns1.x", "ns2.x"]);
    let rdap = Some(vec![field("Registrar", "R"), field("Nameservers", "ns1.x, ns3.x")]);
    let text = domain_registration(&rdap, &None, &live, &palette());
    assert!(text.contains("  registrar      R\n") && text.contains("via            RDAP\n"), "{text}");
    assert!(text.contains("registry and live NS records disagree"), "{text}");
    let record = WhoisRecord { no_match: false, fields: vec![], nameservers: texts(&["ns2.x"]) };
    let whois = domain_registration(&Some(vec![]), &Some(record), &live, &palette());
    assert!(whois.contains("none of the usual fields") && whois.contains("via            whois\n"), "{whois}");
    assert!(!whois.contains("disagree"), "{whois}");
    let none = WhoisRecord { no_match: true, fields: vec![], nameservers: vec![] };
    assert!(domain_registration(&None, &Some(none), &live, &palette()).contains("~no registration record"));
    assert!(domain_registration(&None, &None, &live, &palette()).contains("RDAP and whois both failed"));
    assert_eq!(nameserver_drift(&texts(&["a"]), &vec![], &Paint::none()), "", "nothing live to compare");
}

fn address(ip: &str, note: Option<&str>) -> Address {
    Address { ip: ip.to_string(), note: note.map(str::to_string), reverse: None }
}

fn owner(ip: &str, country: &str, registered: &str) -> Owner {
    Owner {
        ip: ip.to_string(),
        asn: Some(Asn {
            number: "1".to_string(),
            name: None,
            prefix: "1.0.0.0/8".to_string(),
            country: country.to_string(),
        }),
        whois: Some(vec![field("Country", registered)]),
        source: "RDAP".to_string(),
    }
}

#[test]
fn owners_belong_to_their_address() {
    let list = vec![
        address("10.0.0.1", Some("private")),
        address("1.1.1.1", None),
        address("2.2.2.2", None),
        address("3.3.3.3", None),
        address("4.4.4.4", None),
    ];
    assert_eq!(owners_to_ask(&list), ["1.1.1.1", "2.2.2.2", "3.3.3.3"]);
    assert_eq!(DETAILED_ADDRESSES, 3);
    let owners = vec![owner("2.2.2.2", "US", "us"), owner("1.1.1.1", "GB", "US")];
    let text = address_section(&list, &owners, &palette());
    assert!(text.contains("    kind         ~private\x1b[0m\n"), "{text}");
    assert!(text.contains("    reverse      (none)\n"), "{text}");
    assert!(text.contains("AS1  ~(name lookup didn't answer)"), "{text}");
    assert_eq!(text.matches("registry country is not a geolocation").count(), 1, "{text}");
    assert_eq!(text.matches("limited to the first 3").count(), 2, "{text}");
    assert!(address_section(&vec![], &vec![], &palette()).contains("!no addresses"));
    assert_eq!(location_note(&owner("x", "US", "us"), &palette().marks), "");
    assert_eq!(location_note(&owner("x", "", "us"), &palette().marks), "");
}

fn tls() -> Tls {
    Tls {
        protocol: Some("TLSv1.3".to_string()),
        cipher: None,
        subject: None,
        issuer: None,
        key: None,
        signature: None,
        serial: None,
        names: texts(&["*.ex.com", "ex.com"]),
        not_before: None,
        not_after: Some("May 1".to_string()),
        days_left: Some(31),
        chain: vec![],
        verify: None,
    }
}

#[test]
fn a_certificate_is_read_out() {
    let text = tls_section("www.ex.com", &Handshake::Shown(tls()), 100, &palette());
    assert_eq!(
        text,
        "\nTLS (443)\n  protocol   TLSv1.3\n  valid for  *.ex.com, ex.com\n  expires    May 1  +31 days left\x1b[0m\n"
    );
    let mut bad = tls();
    bad.days_left = Some(-3);
    bad.verify = Some("10 (expired)".to_string());
    bad.chain = vec![ChainLink { subject: "s".to_string(), issuer: "i".to_string() }];
    let said = tls_section("other.org", &Handshake::Shown(bad), 100, &palette());
    assert!(said.contains("!does NOT cover other.org"), "{said}");
    assert!(said.contains("!EXPIRED 3 days ago"), "{said}");
    assert!(said.contains("~leaf only"), "{said}");
    assert!(said.contains("!10 (expired)"), "{said}");
    for (days, expected) in [(0, "!expires in 0 days"), (14, "!expires in 14"), (15, "~expires in 15"), (30, "~expires in 30")] {
        let mut t = tls();
        t.days_left = Some(days);
        assert!(tls_section("ex.com", &Handshake::Shown(t), 100, &palette()).contains(expected));
    }
    let mut long = tls();
    long.chain = vec![
        ChainLink { subject: "leaf".to_string(), issuer: "ca".to_string() },
        ChainLink { subject: "ca".to_string(), issuer: String::new() },
    ];
    long.verify = Some("0 (ok)".to_string());
    let chained = tls_section("ex.com", &Handshake::Shown(long), 100, &palette());
    assert!(chained.contains("  chain      0: leaf\n                ← issued by ca\n             1: ca\n"), "{chained}");
    assert!(chained.contains("+verified"), "{chained}");
    let refused = tls_section("x", &Handshake::Nothing("filtered".to_string(), true), 100, &palette());
    assert!(refused.contains("~filtered") && refused.contains("not a TLS service"), "{refused}");
    assert!(tls_section("x", &Handshake::NoTool, 100, &palette()).contains("`openssl` isn't installed"));
}

#[test]
fn http_is_followed_and_missing_headers_are_named() {
    let fetch = Fetch::Answered(
        "https".to_string(),
        vec![
            Hop { status: "301".to_string(), location: Some("/x".to_string()) },
            Hop { status: "200".to_string(), location: None },
        ],
        vec![Header { name: "server".to_string(), value: "s".to_string() }],
        Some("HTTP/2".to_string()),
    );
    let expected = texts(&["server", "csp", "hsts"]);
    let text = http_section("ex.com", &fetch, &expected, &palette());
    assert_eq!(
        text,
        "\nHTTP\n  requested                  https://ex.com\n  1. 301 → /x\n  2. 200\n  server                     s\n  negotiated                 HTTP/2\n  not set                    ~csp, hsts\x1b[0m\n"
    );
    let nothing = Fetch::Nothing("443 filtered".to_string(), "80 refused".to_string());
    assert_eq!(
        http_section("x", &nothing, &expected, &palette()),
        "\nHTTP\n  ~443 filtered\x1b[0m\n  ~80 refused\x1b[0m\n"
    );
    assert!(http_section("x", &Fetch::NoTool, &expected, &palette()).contains("`curl` isn't installed"));
}

#[test]
fn ports_and_routes_are_told() {
    let open = vec![OpenPort { port: 443, service: "https".to_string() }];
    let here = texts(&["1.1.1.1"]);
    assert_eq!(ports_section(&here, &open, 20, &palette()), "\nOpen ports\n  443    https\n");
    assert!(ports_section(&here, &vec![], 20, &palette())
        .contains("none of the 20 common ports answered on 1.1.1.1"));
    assert!(ports_section(&vec![], &vec![], 20, &palette()).contains("~no address to scan"));
    let (text, argv) = trace_section("h", true, &palette());
    assert_eq!(text, "\nRoute\n");
    assert_eq!(argv.unwrap(), ["-n", "-w", "2", "-q", "1", "-m", "20", "h"]);
    assert!(trace_section("h", false, &palette()).1.is_none());
}
