//! The addresses of a host: what kind each is, its reverse name, the network that announces it,
//! and the registry's record of the block.

use vstd::prelude::*;
use vstd::string::*;
use super::excavate::{labelled, open_section, section, ExcavatePalette, FieldValue};
use crate::sequences::{lemma_filter_map_last, lemma_flat_map_last};
use crate::style::{painted, Palette};
use crate::text::{
    ascii_lower, padded, push_padded, push_text, same_ignoring_case, same_text, to_ascii_lower,
};

verus! {

/// How many public addresses have their ownership looked up.
pub const DETAILED_ADDRESSES: usize = 3;

/// An address, as it is written.
pub struct Address {
    pub ip: String,
    /// What it is, where it is not a public one.
    pub note: Option<String>,
    /// Its reverse name.
    pub reverse: Option<String>,
}

/// The network that announces an address.
pub struct Asn {
    pub number: String,
    pub name: Option<String>,
    pub prefix: String,
    /// Where the network is registered, which need not be where the address is used.
    pub country: String,
}

/// What the ownership lookups of one address found. It is found by its address and not by its
/// position: only some addresses are looked up.
pub struct Owner {
    pub ip: String,
    pub asn: Option<Asn>,
    /// The registry's record: nothing where the lookup failed, no fields where none was usable.
    pub whois: Option<Vec<FieldValue>>,
    /// Which protocol answered.
    pub source: String,
}

/// Whether the registry's structured record has anything to show.
pub open spec fn has_fields(rdap: Option<Vec<FieldValue>>) -> bool {
    rdap matches Some(fields) && fields@.len() > 0
}

/// Whether whois has to be asked: only where RDAP had nothing to show.
pub fn needs_whois(rdap: &Option<Vec<FieldValue>>) -> (r: bool)
    ensures
        r == !has_fields(*rdap),
{
    match rdap {
        Some(fields) => fields.len() == 0,
        None => true,
    }
}

/// The owner of an address, from what the lookups found: RDAP's record where it has fields, else
/// that of whois.
pub fn found_owner(
    ip: String,
    asn: Option<Asn>,
    rdap: Option<Vec<FieldValue>>,
    whois: Option<Vec<FieldValue>>,
) -> (r: Owner)
    ensures
        r.ip == ip,
        r.asn == asn,
        if has_fields(rdap) {
            r.whois == rdap && r.source@ == "RDAP"@
        } else {
            r.whois == whois && r.source@ == "whois"@
        },
{
    if needs_whois(&rdap) {
        Owner { ip, asn, whois, source: "whois".to_owned() }
    } else {
        Owner { ip, asn, whois: rdap, source: "RDAP".to_owned() }
    }
}

/// The public addresses among the first `n`.
pub open spec fn public_among(addresses: Seq<Address>, n: nat) -> Seq<Seq<char>>
    decreases n,
{
    if n == 0 {
        seq![]
    } else if addresses[n - 1].note is None {
        public_among(addresses, (n - 1) as nat).push(addresses[n - 1].ip@)
    } else {
        public_among(addresses, (n - 1) as nat)
    }
}

/// Every address of which nothing special is known is public, in order, and no other.
pub proof fn law_every_public_address_is_listed(addresses: Seq<Address>, n: nat)
    requires
        n <= addresses.len(),
    ensures
        public_among(addresses, n) == addresses.take(n as int).filter_map(
            |a: Address|
                if a.note is None {
                    Some(a.ip@)
                } else {
                    None
                },
        ),
    decreases n,
{
    if n > 0 {
        law_every_public_address_is_listed(addresses, (n - 1) as nat);
        lemma_filter_map_last(
            addresses,
            |a: Address|
                if a.note is None {
                    Some(a.ip@)
                } else {
                    None
                },
            n,
        );
    }
}

/// The addresses whose ownership is looked up: the first few public ones.
pub open spec fn detailed(addresses: Seq<Address>) -> Seq<Seq<char>> {
    let public = public_among(addresses, addresses.len());
    if public.len() > DETAILED_ADDRESSES {
        public.take(DETAILED_ADDRESSES as int)
    } else {
        public
    }
}

/// The owners that are asked for are those of the first three public addresses, or of all where
/// there are no more.
pub proof fn law_the_first_three_are_asked_for(addresses: Seq<Address>)
    ensures
        ({
            let public = addresses.filter_map(
                |a: Address|
                    if a.note is None {
                        Some(a.ip@)
                    } else {
                        None
                    },
            );
            detailed(addresses) == public.take(
                if public.len() < 3 {
                    public.len() as int
                } else {
                    3
                },
            )
        }),
{
    law_every_public_address_is_listed(addresses, addresses.len());
    assert(addresses.take(addresses.len() as int) =~= addresses);
    let public = public_among(addresses, addresses.len());
    assert(public.take(public.len() as int) =~= public);
}

proof fn lemma_public_grows(addresses: Seq<Address>, n: nat, m: nat)
    requires
        n <= m <= addresses.len(),
    ensures
        public_among(addresses, n).is_prefix_of(public_among(addresses, m)),
    decreases m,
{
    if n < m {
        lemma_public_grows(addresses, n, (m - 1) as nat);
    }
}

/// The addresses whose ownership is looked up.
pub fn owners_to_ask(addresses: &Vec<Address>) -> (r: Vec<String>)
    ensures
        r.deep_view() == detailed(addresses@),
{
    let mut out: Vec<String> = Vec::new();
    assert(out.deep_view() =~= seq![]);
    let mut i: usize = 0;
    while i < addresses.len()
        invariant
            i <= addresses.len(),
            out.deep_view() == public_among(addresses@, i as nat),
            out.len() <= DETAILED_ADDRESSES,
        decreases addresses.len() - i,
    {
        if addresses[i].note.is_none() {
            if out.len() == DETAILED_ADDRESSES {
                proof {
                    lemma_public_grows(addresses@, (i + 1) as nat, addresses@.len());
                    let all = public_among(addresses@, addresses@.len());
                    assert(out.deep_view().len() == out@.len());
                    assert(public_among(addresses@, (i + 1) as nat).take(
                        DETAILED_ADDRESSES as int,
                    ) =~= out.deep_view());
                    assert(all.take(DETAILED_ADDRESSES as int) =~= out.deep_view());
                }
                return out;
            }
            let ghost before = out.deep_view();
            push_text(&mut out, addresses[i].ip.as_str());
            assert(out.deep_view() =~= before.push(addresses@[i as int].ip@));
        }
        i += 1;
    }
    assert(out.deep_view().len() == out@.len());
    out
}

/// The first owner found for an address, from position `k` on.
pub open spec fn owner_from(owners: Seq<Owner>, ip: Seq<char>, k: int) -> Option<int>
    decreases owners.len() - k,
{
    if k >= owners.len() {
        None
    } else if owners[k].ip@ == ip {
        Some(k)
    } else {
        owner_from(owners, ip, k + 1)
    }
}

/// An indented row.
pub open spec fn row(label: Seq<char>, value: Seq<char>) -> Seq<char> {
    "    "@ + padded(label, 12) + " "@ + value + "\n"@
}

/// The rows on the network that announces an address.
pub open spec fn asn_rows(asn: Option<Asn>, marks: Palette) -> Seq<char> {
    match asn {
        Some(a) => row(
            "announced by"@,
            match a.name {
                Some(name) => "AS"@ + a.number@ + " "@ + name@,
                None => "AS"@ + a.number@ + "  "@ + painted(
                    marks.notice,
                    "(name lookup didn't answer)"@,
                ),
            },
        ) + row("prefix"@, a.prefix@ + "  (AS registered in "@ + a.country@ + ")"@),
        None => row("announced by"@, painted(marks.problematic, "no origin AS found"@)),
    }
}

/// The rows of the first `n` fields of a registry's record.
pub open spec fn registry_rows(fields: Seq<FieldValue>, n: nat) -> Seq<char>
    decreases n,
{
    if n == 0 {
        seq![]
    } else {
        registry_rows(fields, (n - 1) as nat) + row(
            ascii_lower(fields[n - 1].label@),
            fields[n - 1].value@,
        )
    }
}

/// Every field of the registry's record is shown, in order.
pub proof fn law_every_registry_field_is_shown(fields: Seq<FieldValue>, n: nat)
    requires
        n <= fields.len(),
    ensures
        registry_rows(fields, n) == fields.take(n as int).flat_map(
            |f: FieldValue|
                "    "@ + padded(ascii_lower(f.label@), 12) + " "@ + f.value@ + "\n"@,
        ),
    decreases n,
{
    if n > 0 {
        law_every_registry_field_is_shown(fields, (n - 1) as nat);
        lemma_flat_map_last(
            fields,
            |f: FieldValue|
                "    "@ + padded(ascii_lower(f.label@), 12) + " "@ + f.value@ + "\n"@,
            n,
        );
    }
}

/// Where the registry's country for the block is not that of the network announcing it. This is
/// what makes an address look as if it were in one country and announced from another.
pub open spec fn location_text(owner: Owner, marks: Palette) -> Seq<char> {
    match (owner.asn, owner.whois) {
        (Some(asn), Some(fields)) => match labelled(fields@, "Country"@, 0) {
            Some(k) => if asn.country@.len() > 0 && ascii_lower(fields@[k].value@) != ascii_lower(
                asn.country@,
            ) {
                row(
                    ""@,
                    painted(
                        marks.notice,
                        "netblock is registered "@ + fields@[k].value@
                            + " but announced by an AS registered in "@ + asn.country@
                            + " — registry country is not a geolocation"@,
                    ),
                )
            } else {
                seq![]
            },
            None => seq![],
        },
        _ => seq![],
    }
}

/// The rows on the registry's record.
pub open spec fn registry_text(owner: Owner, marks: Palette) -> Seq<char> {
    match owner.whois {
        None => row(
            "registry"@,
            painted(
                marks.problematic,
                "no registry record — RDAP (https/443) and whois (tcp/43) both failed"@,
            ),
        ),
        Some(fields) => if fields@.len() == 0 {
            row("registry"@, painted(marks.notice, "no usable fields in the record"@))
        } else {
            registry_rows(fields@, fields@.len()) + row("via"@, owner.source@) + location_text(
                owner,
                marks,
            )
        },
    }
}

/// The registry's record is shown with all its fields, with where it is from, and with a note where
/// the countries differ.
pub proof fn law_the_whole_record_is_shown(owner: Owner, marks: Palette)
    requires
        owner.whois is Some,
        owner.whois->0@.len() > 0,
    ensures
        registry_text(owner, marks) == owner.whois->0@.flat_map(
            |f: FieldValue|
                "    "@ + padded(ascii_lower(f.label@), 12) + " "@ + f.value@ + "\n"@,
        ) + ("    "@ + padded("via"@, 12) + " "@ + owner.source@ + "\n"@) + location_text(owner, marks),
{
    let fields = owner.whois->0@;
    law_every_registry_field_is_shown(fields, fields.len());
    assert(fields.take(fields.len() as int) =~= fields);
}

/// What is said of one address.
pub open spec fn address_text(a: Address, owners: Seq<Owner>, marks: Palette) -> Seq<char> {
    "\n  "@ + a.ip@ + "\n"@ + match a.note {
        Some(note) => row("kind"@, painted(marks.notice, note@)),
        None => row(
            "reverse"@,
            match a.reverse {
                Some(name) => name@,
                None => "(none)"@,
            },
        ) + match owner_from(owners, a.ip@, 0) {
            None => row("…"@, "(ownership lookups limited to the first 3)"@),
            Some(k) => asn_rows(owners[k].asn, marks) + registry_text(owners[k], marks),
        },
    }
}

/// What is shown of an address is what was found for that very address, wherever it stands among
/// the owners.
pub proof fn law_an_address_is_shown_with_its_own_owner(
    a: Address,
    owners: Seq<Owner>,
    k: int,
    marks: Palette,
)
    requires
        a.note is None,
        0 <= k < owners.len(),
        owners[k].ip@ == a.ip@,
        forall|j: int| 0 <= j < k ==> (#[trigger] owners[j]).ip@ != a.ip@,
    ensures
        address_text(a, owners, marks) == "\n  "@ + a.ip@ + "\n"@ + ("    "@ + padded("reverse"@, 12)
            + " "@ + (match a.reverse {
            Some(name) => name@,
            None => "(none)"@,
        }) + "\n"@ + (asn_rows(owners[k].asn, marks) + registry_text(owners[k], marks))),
{
    lemma_owner_is(owners, a.ip@, 0, k);
}

proof fn lemma_owner_is(owners: Seq<Owner>, ip: Seq<char>, from: int, k: int)
    requires
        0 <= from <= k < owners.len(),
        owners[k].ip@ == ip,
        forall|j: int| from <= j < k ==> (#[trigger] owners[j]).ip@ != ip,
    ensures
        owner_from(owners, ip, from) == Some(k),
    decreases k - from,
{
    if from < k {
        assert(owners[from].ip@ != ip);
        lemma_owner_is(owners, ip, from + 1, k);
    }
}

/// What is said of the first `n` addresses.
pub open spec fn addresses_text(
    addresses: Seq<Address>,
    owners: Seq<Owner>,
    n: nat,
    marks: Palette,
) -> Seq<char>
    decreases n,
{
    if n == 0 {
        seq![]
    } else {
        addresses_text(addresses, owners, (n - 1) as nat, marks) + address_text(
            addresses[n - 1],
            owners,
            marks,
        )
    }
}

/// Every address is shown, in order, with what is known of it.
pub proof fn law_every_address_is_shown(
    addresses: Seq<Address>,
    owners: Seq<Owner>,
    n: nat,
    marks: Palette,
)
    requires
        n <= addresses.len(),
    ensures
        addresses_text(addresses, owners, n, marks) == addresses.take(n as int).flat_map(
            |a: Address| address_text(a, owners, marks),
        ),
    decreases n,
{
    if n > 0 {
        law_every_address_is_shown(addresses, owners, (n - 1) as nat, marks);
        lemma_flat_map_last(
            addresses,
            |a: Address| address_text(a, owners, marks),
            n,
        );
    }
}

/// An indented row.
fn push_row(out: &mut String, label: &str, value: &str)
    ensures
        final(out)@ == old(out)@ + row(label@, value@),
{
    let mut line: String = "    ".to_owned();
    push_padded(&mut line, label, 12);
    line.append(" ");
    line.append(value);
    line.append("\n");
    out.append(line.as_str());
}

/// Where the registry's country for the block is not that of the network announcing it.
pub fn location_note(owner: &Owner, marks: &Palette) -> (r: String)
    ensures
        r@ == location_text(*owner, *marks),
{
    let mut out: String = String::new();
    if let Some(asn) = &owner.asn {
        if let Some(fields) = &owner.whois {
            let mut k: usize = 0;
            while k < fields.len()
                invariant
                    k <= fields.len(),
                    out@.len() == 0,
                    owner.asn == Some(*asn),
                    owner.whois == Some(*fields),
                    labelled(fields@, "Country"@, 0) == labelled(
                        fields@,
                        "Country"@,
                        k as int,
                    ),
                decreases fields.len() - k,
            {
                if same_text(fields[k].label.as_str(), "Country") {
                    if !same_ignoring_case(fields[k].value.as_str(), asn.country.as_str())
                        && !asn.country.as_str().is_empty() {
                        let mut text: String = "netblock is registered ".to_owned();
                        text.append(fields[k].value.as_str());
                        text.append(" but announced by an AS registered in ");
                        text.append(asn.country.as_str());
                        text.append(" — registry country is not a geolocation");
                        push_row(&mut out, "", marks.notice.paint(text.as_str()).as_str());
                        assert(out@ =~= location_text(*owner, *marks));
                    }
                    return out;
                }
                k += 1;
            }
        }
    }
    out
}

/// What is said of an owner.
fn owner_rows(owner: &Owner, marks: &Palette) -> (r: String)
    ensures
        r@ == asn_rows(owner.asn, *marks) + registry_text(*owner, *marks),
{
    let mut out: String = String::new();
    match &owner.asn {
        Some(asn) => {
            let mut text: String = "AS".to_owned();
            text.append(asn.number.as_str());
            match &asn.name {
                Some(name) => {
                    text.append(" ");
                    text.append(name.as_str());
                },
                None => {
                    text.append("  ");
                    text.append(marks.notice.paint("(name lookup didn't answer)").as_str());
                },
            }
            push_row(&mut out, "announced by", text.as_str());
            assert(out@ =~= row("announced by"@, text@));
            let mut block: String = asn.prefix.clone();
            block.append("  (AS registered in ");
            block.append(asn.country.as_str());
            block.append(")");
            push_row(&mut out, "prefix", block.as_str());
        },
        None => {
            push_row(
                &mut out,
                "announced by",
                marks.problematic.paint("no origin AS found").as_str(),
            );
            assert(out@ =~= asn_rows(owner.asn, *marks));
        },
    }
    let mut rest: String = String::new();
    match &owner.whois {
        None => {
            push_row(
                &mut rest,
                "registry",
                marks.problematic.paint(
                    "no registry record — RDAP (https/443) and whois (tcp/43) both failed",
                ).as_str(),
            );
            assert(rest@ =~= registry_text(*owner, *marks));
        },
        Some(fields) => {
            if fields.len() == 0 {
                push_row(
                    &mut rest,
                    "registry",
                    marks.notice.paint("no usable fields in the record").as_str(),
                );
                assert(rest@ =~= registry_text(*owner, *marks));
            } else {
                let mut i: usize = 0;
                while i < fields.len()
                    invariant
                        i <= fields.len(),
                        rest@ == registry_rows(fields@, i as nat),
                    decreases fields.len() - i,
                {
                    push_row(
                        &mut rest,
                        to_ascii_lower(fields[i].label.as_str()).as_str(),
                        fields[i].value.as_str(),
                    );
                    i += 1;
                }
                push_row(&mut rest, "via", owner.source.as_str());
                rest.append(location_note(owner, marks).as_str());
            }
        },
    }
    out.append(rest.as_str());
    out
}

/// What is said of one address.
fn address_part(a: &Address, owners: &Vec<Owner>, marks: &Palette) -> (r: String)
    ensures
        r@ == address_text(*a, owners@, *marks),
{
    let mut out: String = "\n  ".to_owned();
    out.append(a.ip.as_str());
    out.append("\n");
    let mut rest: String = String::new();
    if let Some(note) = &a.note {
        push_row(&mut rest, "kind", marks.notice.paint(note.as_str()).as_str());
        assert(rest@ =~= row("kind"@, painted(marks.notice, note@)));
        out.append(rest.as_str());
        return out;
    }
    let name: &str = match &a.reverse {
        Some(name) => name.as_str(),
        None => "(none)",
    };
    push_row(&mut rest, "reverse", name);
    let ghost first = row("reverse"@, name@);
    assert(rest@ =~= first);
    let mut k: usize = 0;
    while k < owners.len()
        invariant
            k <= owners.len(),
            a.note is None,
            rest@ == first,
            first == row("reverse"@, name@),
            name@ == (match a.reverse {
                Some(name) => name@,
                None => "(none)"@,
            }),
            out@ == "\n  "@ + a.ip@ + "\n"@,
            owner_from(owners@, a.ip@, 0) == owner_from(owners@, a.ip@, k as int),
        decreases owners.len() - k,
    {
        if same_text(owners[k].ip.as_str(), a.ip.as_str()) {
            rest.append(owner_rows(&owners[k], marks).as_str());
            out.append(rest.as_str());
            return out;
        }
        k += 1;
    }
    push_row(&mut rest, "…", "(ownership lookups limited to the first 3)");
    out.append(rest.as_str());
    out
}

/// The section on the addresses.
pub fn address_section(addresses: &Vec<Address>, owners: &Vec<Owner>, palette: &ExcavatePalette) -> (r:
    String)
    ensures
        r@ == section("Addresses"@, palette.header) + (if addresses@.len() == 0 {
            "  "@ + painted(
                palette.marks.problematic,
                "no addresses — the name doesn't resolve"@,
            ) + "\n"@
        } else {
            addresses_text(addresses@, owners@, addresses@.len(), palette.marks)
        }),
{
    let mut out: String = open_section("Addresses", &palette.header);
    if addresses.len() == 0 {
        let mut line: String = "  ".to_owned();
        line.append(
            palette.marks.problematic.paint("no addresses — the name doesn't resolve").as_str(),
        );
        line.append("\n");
        out.append(line.as_str());
        return out;
    }
    let mut body: String = String::new();
    let mut i: usize = 0;
    while i < addresses.len()
        invariant
            i <= addresses.len(),
            body@ == addresses_text(addresses@, owners@, i as nat, palette.marks),
        decreases addresses.len() - i,
    {
        body.append(address_part(&addresses[i], owners, &palette.marks).as_str());
        i += 1;
    }
    out.append(body.as_str());
    out
}

/// The owner shown under an address is one that was looked up for that very address.
pub proof fn law_an_owner_belongs_to_its_address(owners: Seq<Owner>, ip: Seq<char>, k: int)
    requires
        0 <= k,
    ensures
        match owner_from(owners, ip, k) {
            Some(found) => k <= found < owners.len() && owners[found].ip@ == ip,
            None => forall|j: int| k <= j < owners.len() ==> (#[trigger] owners[j]).ip@ != ip,
        },
    decreases owners.len() - k,
{
    if k < owners.len() && owners[k].ip@ != ip {
        law_an_owner_belongs_to_its_address(owners, ip, k + 1);
    }
}

} // verus!
