//! What a project says of itself: its README, else the description in its manifest, else the doc
//! comment at the top of its main file.

use vstd::prelude::*;
use vstd::slice::slice_subrange;
use vstd::string::*;
use crate::json::{json_read, member, member_of, parse_json, Json, JsonView};
use crate::paths::{extension, extension_of};
use crate::text::{
    begins_with, chars_of, comes_before, drop_leading, find_chars, find_from, join, joined, lemma_find_from,
    lines, lines_of, precedes, same_text, string_of, trim, trim_start, trimmed, trimmed_start, without_first,
};
use super::DirArgs;
use crate::toml_document::{entry, entry_of, parse_toml, toml_read, Toml, TomlView};

verus! {

// --- the README -----------------------------------------------------------------------------

/// What `str::to_uppercase` makes of a text: the Unicode uppercase mapping, character by
/// character, which may change the length.
pub uninterp spec fn uppercase(s: Seq<char>) -> Seq<char>;

/// `str::to_uppercase` returns the uppercase equivalent of the text, a function of the text
/// alone. Which text that is is left to the name `uppercase`.
pub assume_specification[ str::to_uppercase ](s: &str) -> (r: String)
    ensures
        r@ == uppercase(s@),
;

/// Whether a file is one to look at: marked, and with the extension where that matters.
pub open spec fn qualifies(names: Seq<Seq<char>>, marks: Seq<bool>, only_md: bool, i: int) -> bool {
    0 <= i < names.len() && marks[i] && (only_md ==> extension(names[i]) == Some("md"@))
}

/// The first in order of the first `n` files that qualify.
pub open spec fn first_name(names: Seq<Seq<char>>, marks: Seq<bool>, only_md: bool, n: nat) -> Option<
    Seq<char>,
>
    decreases n,
{
    if n == 0 {
        None
    } else {
        let before = first_name(names, marks, only_md, (n - 1) as nat);
        if qualifies(names, marks, only_md, n - 1) && (before is None || precedes(
            names[n - 1],
            before->0,
        )) {
            Some(names[n - 1])
        } else {
            before
        }
    }
}

/// The file that is chosen qualifies, and no other that does comes before it; nothing is chosen
/// only where none qualifies.
pub proof fn law_the_first_qualified_name_is_chosen(
    names: Seq<Seq<char>>,
    marks: Seq<bool>,
    only_md: bool,
    n: nat,
)
    requires
        n <= names.len(),
    ensures
        match first_name(names, marks, only_md, n) {
            Some(name) => (exists|i: int|
                0 <= i < n && #[trigger] names[i] == name && qualifies(names, marks, only_md, i))
                && forall|i: int|
                0 <= i < n && qualifies(names, marks, only_md, i) ==> !precedes(
                    #[trigger] names[i],
                    name,
                ),
            None => forall|i: int| 0 <= i < n ==> !#[trigger] qualifies(names, marks, only_md, i),
        },
    decreases n,
{
    if n > 0 {
        law_the_first_qualified_name_is_chosen(names, marks, only_md, (n - 1) as nat);
        let before = first_name(names, marks, only_md, (n - 1) as nat);
        let now = first_name(names, marks, only_md, n);
        let here = names[n - 1];
        crate::text::lemma_precedes_order(here, here, here);
        if now is Some && now->0 == here && qualifies(names, marks, only_md, n - 1) {
            assert(names[n - 1] == now->0);
        }
        if let Some(old) = before {
            let b = choose|i: int|
                0 <= i < n - 1 && #[trigger] names[i] == old && qualifies(names, marks, only_md, i);
            assert(names[b] == old);
            assert forall|i: int| 0 <= i < n && qualifies(names, marks, only_md, i) implies !precedes(
                #[trigger] names[i],
                now->0,
            ) by {
                if now->0 == here && now != before {
                    if i < n - 1 {
                        crate::text::lemma_precedes_order(names[i], here, old);
                        crate::text::lemma_precedes_order(here, old, here);
                    }
                }
            }
        }
    }
}

/// The README among the marked files: the first `.md` one, else the first.
pub open spec fn readme_among(names: Seq<Seq<char>>, marks: Seq<bool>) -> Option<Seq<char>> {
    match first_name(names, marks, true, names.len()) {
        Some(name) => Some(name),
        None => first_name(names, marks, false, names.len()),
    }
}

/// A Markdown file is chosen where one qualifies, else any that does; nothing only where none does.
pub proof fn law_a_readme_is_found_where_there_is_one(
    names: Seq<Seq<char>>,
    marks: Seq<bool>,
    i: int,
)
    requires
        0 <= i < names.len(),
        marks[i],
    ensures
        readme_among(names, marks) is Some,
        extension(names[i]) == Some("md"@) ==> extension(readme_among(names, marks)->0) == Some("md"@),
{
    law_the_first_qualified_name_is_chosen(names, marks, true, names.len());
    law_the_first_qualified_name_is_chosen(names, marks, false, names.len());
    assert(qualifies(names, marks, false, i));
    if extension(names[i]) == Some("md"@) {
        assert(qualifies(names, marks, true, i));
    }
}

/// Which names begin like a README, whatever their case.
pub open spec fn readme_marks(names: Seq<Seq<char>>) -> Seq<bool> {
    names.map_values(|name: Seq<char>| "README"@.is_prefix_of(uppercase(name)))
}

/// Whatever begins with the word, in any case, is taken for a README, and nothing else.
pub proof fn law_what_is_taken_for_a_readme(names: Seq<Seq<char>>, i: int)
    requires
        0 <= i < names.len(),
    ensures
        readme_marks(names).len() == names.len(),
        readme_marks(names)[i] <==> "README"@.is_prefix_of(uppercase(names[i])),
{
}

/// The first in order of the files that qualify.
fn first_of(names: &Vec<String>, marks: &Vec<bool>, only_md: bool) -> (r: Option<String>)
    requires
        marks@.len() == names@.len(),
    ensures
        r.deep_view() == first_name(names.deep_view(), marks@, only_md, names@.len()),
{
    let mut best: Option<String> = None;
    let mut i: usize = 0;
    while i < names.len()
        invariant
            i <= names.len(),
            marks@.len() == names@.len(),
            best.deep_view() == first_name(names.deep_view(), marks@, only_md, i as nat),
        decreases names.len() - i,
    {
        assert(names.deep_view()[i as int] == names@[i as int]@);
        let name: &str = names[i].as_str();
        let fits: bool = marks[i] && (!only_md || match extension_of(name) {
            Some(e) => same_text(e.as_str(), "md"),
            None => false,
        });
        if fits {
            let better: bool = match &best {
                None => true,
                Some(other) => {
                    let x: Vec<char> = chars_of(name);
                    let y: Vec<char> = chars_of(other.as_str());
                    comes_before(x.as_slice(), y.as_slice())
                },
            };
            if better {
                best = Some(name.to_owned());
            }
        }
        i += 1;
    }
    best
}

/// The README among the marked files of a directory.
pub fn choose_readme(names: &Vec<String>, marks: &Vec<bool>) -> (r: Option<String>)
    requires
        marks@.len() == names@.len(),
    ensures
        r.deep_view() == readme_among(names.deep_view(), marks@),
{
    assert(names.deep_view().len() == names@.len());
    match first_of(names, marks, true) {
        Some(name) => Some(name),
        None => first_of(names, marks, false),
    }
}

/// The README among the files of a directory, preferring a `.md` one.
pub fn find_readme(names: &Vec<String>) -> (r: Option<String>)
    ensures
        r.deep_view() == readme_among(names.deep_view(), readme_marks(names.deep_view())),
{
    let mut marks: Vec<bool> = Vec::new();
    let mut i: usize = 0;
    while i < names.len()
        invariant
            i <= names.len(),
            marks@.len() == i,
            forall|j: int|
                0 <= j < i ==> #[trigger] marks@[j] == "README"@.is_prefix_of(
                    uppercase(names.deep_view()[j]),
                ),
        decreases names.len() - i,
    {
        assert(names.deep_view()[i as int] == names@[i as int]@);
        let upper: Vec<char> = chars_of(names[i].as_str().to_uppercase().as_str());
        marks.push(begins_with(upper.as_slice(), "README"));
        i += 1;
    }
    assert(names.deep_view().len() == names@.len());
    assert(marks@ =~= readme_marks(names.deep_view()));
    choose_readme(names, &marks)
}

// --- the manifest ---------------------------------------------------------------------------

/// The text at the end of a path of keys through a TOML value.
pub open spec fn toml_at(value: TomlView, path: Seq<Seq<char>>) -> Option<Seq<char>>
    decreases path.len(),
{
    if path.len() == 0 {
        match value {
            TomlView::Text(text) => Some(text),
            _ => None,
        }
    } else {
        match entry(value, path[0]) {
            Some(next) => toml_at(next, path.drop_first()),
            None => None,
        }
    }
}

/// The text at the end of a path of keys through a JSON value.
pub open spec fn json_at(value: JsonView, path: Seq<Seq<char>>) -> Option<Seq<char>>
    decreases path.len(),
{
    if path.len() == 0 {
        match value {
            JsonView::Text(text) => Some(text),
            _ => None,
        }
    } else {
        match member(value, path[0]) {
            Some(next) => json_at(next, path.drop_first()),
            None => None,
        }
    }
}

/// A path of keys is followed key by key, to a text and to nothing else.
pub proof fn law_a_path_is_followed_key_by_key(
    document: TomlView,
    value: JsonView,
    key: Seq<char>,
    rest: Seq<Seq<char>>,
)
    ensures
        toml_at(document, seq![]) == match document {
            TomlView::Text(text) => Some(text),
            _ => None,
        },
        json_at(value, seq![]) == match value {
            JsonView::Text(text) => Some(text),
            _ => None,
        },
        toml_at(document, seq![key] + rest) == match entry(document, key) {
            Some(next) => toml_at(next, rest),
            None => None,
        },
        json_at(value, seq![key] + rest) == match member(value, key) {
            Some(next) => json_at(next, rest),
            None => None,
        },
{
    assert((seq![key] + rest).drop_first() =~= rest);
}

/// Follow a path of keys through a TOML value to a text.
pub fn toml_str(value: &Toml, path: &Vec<&'static str>) -> (r: Option<String>)
    ensures
        r.deep_view() == toml_at(value@, path.deep_view()),
{
    let mut cur: &Toml = value;
    let mut i: usize = 0;
    assert(path.deep_view().skip(0) =~= path.deep_view());
    while i < path.len()
        invariant
            i <= path.len(),
            toml_at(value@, path.deep_view()) == toml_at(cur@, path.deep_view().skip(i as int)),
        decreases path.len() - i,
    {
        assert(path.deep_view().skip(i as int)[0] == path@[i as int]@);
        assert(path.deep_view().skip(i as int).drop_first() =~= path.deep_view().skip(i + 1));
        match entry_of(cur, path[i]) {
            Some(next) => {
                cur = next;
            },
            None => return None,
        }
        i += 1;
    }
    match cur {
        Toml::Text(text) => Some(text.clone()),
        _ => None,
    }
}

/// Follow a path of keys through a JSON value to a text.
pub fn json_str(value: &Json, path: &Vec<&'static str>) -> (r: Option<String>)
    ensures
        r.deep_view() == json_at(value@, path.deep_view()),
{
    let mut cur: &Json = value;
    let mut i: usize = 0;
    assert(path.deep_view().skip(0) =~= path.deep_view());
    while i < path.len()
        invariant
            i <= path.len(),
            json_at(value@, path.deep_view()) == json_at(cur@, path.deep_view().skip(i as int)),
        decreases path.len() - i,
    {
        assert(path.deep_view().skip(i as int)[0] == path@[i as int]@);
        assert(path.deep_view().skip(i as int).drop_first() =~= path.deep_view().skip(i + 1));
        match member_of(cur, path[i]) {
            Some(next) => {
                cur = next;
            },
            None => return None,
        }
        i += 1;
    }
    match cur {
        Json::Text(text) => Some(text.clone()),
        _ => None,
    }
}

/// A format of a manifest.
#[derive(Clone, Copy, Debug, PartialEq, Eq, Structural)]
pub enum Manifest {
    Toml,
    Json,
}

/// Where a description stands: the manifest, its format, and the path of keys.
pub struct Description {
    pub file: &'static str,
    pub manifest: Manifest,
    pub keys: Vec<&'static str>,
}

impl View for Description {
    type V = (Seq<char>, Manifest, Seq<Seq<char>>);

    open spec fn view(&self) -> (Seq<char>, Manifest, Seq<Seq<char>>) {
        (self.file@, self.manifest, self.keys.deep_view())
    }
}

impl DeepView for Description {
    type V = (Seq<char>, Manifest, Seq<Seq<char>>);

    open spec fn deep_view(&self) -> (Seq<char>, Manifest, Seq<Seq<char>>) {
        self@
    }
}

/// Where descriptions stand.
pub open spec fn description_rows() -> Seq<(Seq<char>, Manifest, Seq<Seq<char>>)> {
    seq![
        ("Cargo.toml"@, Manifest::Toml, seq!["package"@, "description"@]),
        ("pyproject.toml"@, Manifest::Toml, seq!["project"@, "description"@]),
        ("pyproject.toml"@, Manifest::Toml, seq!["tool"@, "poetry"@, "description"@]),
        ("package.json"@, Manifest::Json, seq!["description"@]),
    ]
}

/// Where descriptions stand. `pyproject.toml` is there twice, for its two tables.
pub fn descriptions() -> (r: Vec<Description>)
    ensures
        r.deep_view() == description_rows(),
{
    let rows: Vec<Description> = vec![
        Description {
            file: "Cargo.toml",
            manifest: Manifest::Toml,
            keys: vec!["package", "description"],
        },
        Description {
            file: "pyproject.toml",
            manifest: Manifest::Toml,
            keys: vec!["project", "description"],
        },
        Description {
            file: "pyproject.toml",
            manifest: Manifest::Toml,
            keys: vec!["tool", "poetry", "description"],
        },
        Description {
            file: "package.json",
            manifest: Manifest::Json,
            keys: vec!["description"],
        },
    ];
    assert(rows@[0]@.2 =~= description_rows()[0].2);
    assert(rows@[1]@.2 =~= description_rows()[1].2);
    assert(rows@[2]@.2 =~= description_rows()[2].2);
    assert(rows@[3]@.2 =~= description_rows()[3].2);
    assert(rows.deep_view() =~= description_rows());
    rows
}

/// The description in a manifest.
pub open spec fn described(
    row: (Seq<char>, Manifest, Seq<Seq<char>>),
    content: Option<Seq<char>>,
) -> Option<Seq<char>> {
    match content {
        None => None,
        Some(text) => match row.1 {
            Manifest::Toml => match toml_read(text) {
                Some(value) => toml_at(value, row.2),
                None => None,
            },
            Manifest::Json => match json_read(text) {
                Some(value) => json_at(value, row.2),
                None => None,
            },
        },
    }
}

/// The first description, from row `k` on.
pub open spec fn described_from(
    rows: Seq<(Seq<char>, Manifest, Seq<Seq<char>>)>,
    contents: Seq<Option<Seq<char>>>,
    k: int,
) -> Option<Seq<char>>
    decreases rows.len() - k,
{
    if k >= rows.len() {
        None
    } else if described(rows[k], contents[k]) is Some {
        described(rows[k], contents[k])
    } else {
        described_from(rows, contents, k + 1)
    }
}

/// The description is that of the first manifest that has one, and there is none only where none
/// does.
pub proof fn law_the_first_description_is_taken(
    rows: Seq<(Seq<char>, Manifest, Seq<Seq<char>>)>,
    contents: Seq<Option<Seq<char>>>,
    k: int,
)
    requires
        0 <= k <= rows.len(),
    ensures
        match described_from(rows, contents, k) {
            Some(text) => exists|i: int|
                k <= i < rows.len() && described(#[trigger] rows[i], contents[i]) == Some(text)
                    && forall|j: int|
                    k <= j < i ==> described(#[trigger] rows[j], contents[j]) is None,
            None => forall|j: int|
                k <= j < rows.len() ==> described(#[trigger] rows[j], contents[j]) is None,
        },
    decreases rows.len() - k,
{
    if k < rows.len() {
        law_the_first_description_is_taken(rows, contents, k + 1);
        if described(rows[k], contents[k]) is Some {
            assert(described(rows[k], contents[k]) == described_from(rows, contents, k));
        } else if let Some(text) = described_from(rows, contents, k + 1) {
            let i = choose|i: int|
                k + 1 <= i < rows.len() && described(#[trigger] rows[i], contents[i]) == Some(text)
                    && forall|j: int|
                    k + 1 <= j < i ==> described(#[trigger] rows[j], contents[j]) is None;
            assert(described(rows[i], contents[i]) == Some(text));
        }
    }
}

/// The description that a project's manifests give, given what could be read of the manifest of
/// each row.
pub fn manifest_description(contents: &Vec<Option<String>>) -> (r: Option<String>)
    requires
        contents@.len() == description_rows().len(),
    ensures
        r.deep_view() == described_from(description_rows(), contents.deep_view(), 0),
{
    let rows: Vec<Description> = descriptions();
    assert(rows.deep_view().len() == rows@.len());
    let mut k: usize = 0;
    while k < rows.len()
        invariant
            k <= rows.len(),
            rows@.len() == contents@.len(),
            rows.deep_view() == description_rows(),
            described_from(description_rows(), contents.deep_view(), 0) == described_from(
                description_rows(),
                contents.deep_view(),
                k as int,
            ),
        decreases rows.len() - k,
    {
        assert(rows.deep_view()[k as int] == rows@[k as int]@);
        assert(contents.deep_view()[k as int] == contents@[k as int].deep_view());
        let found: Option<String> = match &contents[k] {
            None => None,
            Some(text) => match rows[k].manifest {
                Manifest::Toml => match parse_toml(text.as_str()) {
                    Some(value) => toml_str(&value, &rows[k].keys),
                    None => None,
                },
                Manifest::Json => match parse_json(text.as_str()) {
                    Some(value) => json_str(&value, &rows[k].keys),
                    None => None,
                },
            },
        };
        assert(found.deep_view() == described(rows.deep_view()[k as int], contents.deep_view()[k as int]));
        if found.is_some() {
            return found;
        }
        k += 1;
    }
    assert(rows.deep_view().len() == rows@.len());
    None
}

// --- the doc comment ------------------------------------------------------------------------

/// Whether a line is skipped at the top of a file: blank, or a shebang or inner attribute.
pub open spec fn is_preamble(line: Seq<char>) -> bool {
    trim_start(line).len() == 0 || "#!"@.is_prefix_of(trim_start(line))
}

/// The first line from `k` on that is not skipped.
pub open spec fn doc_start(list: Seq<Seq<char>>, k: int) -> int
    decreases list.len() - k,
{
    if k < list.len() && is_preamble(list[k]) {
        doc_start(list, k + 1)
    } else {
        k
    }
}

/// A comment is looked for from the first line on that is neither blank nor a shebang.
pub proof fn law_the_preamble_is_passed_over(list: Seq<Seq<char>>, k: int)
    requires
        0 <= k <= list.len(),
    ensures
        k <= doc_start(list, k) <= list.len(),
        forall|i: int| k <= i < doc_start(list, k) ==> is_preamble(#[trigger] list[i]),
        doc_start(list, k) < list.len() ==> !is_preamble(list[doc_start(list, k)]),
    decreases list.len() - k,
{
    if k < list.len() && is_preamble(list[k]) {
        law_the_preamble_is_passed_over(list, k + 1);
    }
}

/// What a block comment holds from line `k` on, up to where it closes.
pub open spec fn block_from(list: Seq<Seq<char>>, close: Seq<char>, k: int) -> Seq<char>
    decreases list.len() - k,
{
    if k >= list.len() {
        seq![]
    } else {
        match find_from(list[k], close, 0) {
            Some(end) => "\n"@ + list[k].take(end),
            None => "\n"@ + list[k] + block_from(list, close, k + 1),
        }
    }
}

/// Every line of a block comment is read, up to what closes it.
pub proof fn law_every_line_of_a_block_is_read(
    list: Seq<Seq<char>>,
    close: Seq<char>,
    k: int,
    end: int,
)
    requires
        0 <= k <= end < list.len(),
        forall|i: int| k <= i < end ==> find_from(#[trigger] list[i], close, 0) is None,
        find_from(list[end], close, 0) is Some,
    ensures
        block_from(list, close, k) == list.subrange(k, end).flat_map(|line: Seq<char>| "\n"@ + line)
            + "\n"@ + list[end].take(find_from(list[end], close, 0)->0),
    decreases end - k,
{
    let f = |line: Seq<char>| "\n"@ + line;
    let last = "\n"@ + list[end].take(find_from(list[end], close, 0)->0);
    if k < end {
        assert(find_from(list[k], close, 0) is None);
        law_every_line_of_a_block_is_read(list, close, k + 1, end);
        let here = list.subrange(k, end);
        assert(here.map_values(f).drop_first() =~= list.subrange(k + 1, end).map_values(f));
        assert(here.map_values(f).first() == "\n"@ + list[k]);
        let rest = list.subrange(k + 1, end).flat_map(f);
        assert(here.flat_map(f) == "\n"@ + list[k] + rest);
        assert("\n"@ + list[k] + (rest + "\n"@ + list[end].take(
            find_from(list[end], close, 0)->0,
        )) =~= "\n"@ + list[k] + rest + "\n"@ + list[end].take(find_from(list[end], close, 0)->0));
    } else {
        assert(list.subrange(k, end).map_values(f) =~= seq![]);
        assert(list.subrange(k, end).flat_map(f) + "\n"@ + list[end].take(
            find_from(list[end], close, 0)->0,
        ) =~= last);
    }
}

/// What a block comment holds: behind where it opens, up to where it closes.
pub open spec fn block_text(list: Seq<Seq<char>>, start: int, after: Seq<char>, close: Seq<char>) -> Seq<
    char,
> {
    match find_from(after, close, 0) {
        Some(end) => after.take(end),
        None => after + block_from(list, close, start + 1),
    }
}

/// A line of a block comment without what only frames it.
pub open spec fn clean_line(line: Seq<char>) -> Seq<char> {
    trim(without_first(trim(line), '*'))
}

/// A text, unless it is empty once trimmed.
pub open spec fn nonblank(s: Seq<char>) -> Option<Seq<char>> {
    if trim(s).len() == 0 {
        None
    } else {
        Some(trim(s))
    }
}

/// What a block comment says.
pub open spec fn block_doc(text: Seq<char>) -> Option<Seq<char>> {
    nonblank(join(lines(text).map_values(|line: Seq<char>| clean_line(line)), "\n"@))
}

/// Every line of a block comment is kept, without what only frames it.
pub proof fn law_every_line_of_a_comment_is_kept(text: Seq<char>)
    ensures
        ({
            let all = join(
                Seq::new(
                    lines(text).len(),
                    |i: int| trim(without_first(trim(lines(text)[i]), '*')),
                ),
                "\n"@,
            );
            &&& block_doc(text) is None <==> trim(all).len() == 0
            &&& block_doc(text) matches Some(doc) ==> doc == trim(all)
        }),
{
    assert(lines(text).map_values(|line: Seq<char>| clean_line(line)) =~= Seq::new(
        lines(text).len(),
        |i: int| trim(without_first(trim(lines(text)[i]), '*')),
    ));
}

/// What stands behind the mark of a line comment.
pub open spec fn comment_rest(line: Seq<char>) -> Option<Seq<char>> {
    let t = trim_start(line);
    if "//!"@.is_prefix_of(t) || "///"@.is_prefix_of(t) {
        Some(t.skip(3))
    } else if "//"@.is_prefix_of(t) {
        Some(t.skip(2))
    } else if "#"@.is_prefix_of(t) {
        Some(t.skip(1))
    } else {
        None
    }
}

/// The line comments from line `k` on, up to the first line that is none.
pub open spec fn comments_from(list: Seq<Seq<char>>, k: int) -> Seq<Seq<char>>
    decreases list.len() - k,
{
    if k >= list.len() {
        seq![]
    } else {
        match comment_rest(list[k]) {
            Some(rest) => seq![trim(rest)] + comments_from(list, k + 1),
            None => seq![],
        }
    }
}

/// Every comment line in a row is read, trimmed, up to the first line that is none.
pub proof fn law_every_comment_line_is_read(list: Seq<Seq<char>>, k: int, end: int)
    requires
        0 <= k <= end <= list.len(),
        forall|i: int| k <= i < end ==> comment_rest(#[trigger] list[i]) is Some,
        end < list.len() ==> comment_rest(list[end]) is None,
    ensures
        comments_from(list, k).len() == end - k,
        forall|i: int|
            0 <= i < end - k ==> #[trigger] comments_from(list, k)[i] == trim(
                comment_rest(list[k + i])->0,
            ),
    decreases end - k,
{
    if k < end {
        assert(comment_rest(list[k]) is Some);
        law_every_comment_line_is_read(list, k + 1, end);
        let rest = comments_from(list, k + 1);
        let all = comments_from(list, k);
        assert forall|i: int| 0 <= i < end - k implies #[trigger] all[i] == trim(
            comment_rest(list[k + i])->0,
        ) by {
            if i > 0 {
                assert(all[i] == rest[i - 1]);
            }
        }
    }
}

/// The doc comment at the top of a file: a block, or a run of commented lines, without the marks.
pub open spec fn doc_of(source: Seq<char>) -> Option<Seq<char>> {
    let list = lines(source);
    let start = doc_start(list, 0);
    if start >= list.len() {
        None
    } else {
        let first = trim_start(list[start]);
        if "\"\"\""@.is_prefix_of(first) {
            block_doc(block_text(list, start, first.skip(3), "\"\"\""@))
        } else if "'''"@.is_prefix_of(first) {
            block_doc(block_text(list, start, first.skip(3), "'''"@))
        } else if "/*"@.is_prefix_of(first) {
            block_doc(block_text(list, start, first.skip(2), "*/"@))
        } else {
            nonblank(join(comments_from(list, start), "\n"@))
        }
    }
}

/// A text, unless it is empty once trimmed.
pub fn nonempty(s: &str) -> (r: Option<String>)
    ensures
        r.deep_view() == nonblank(s@),
{
    let cs: Vec<char> = chars_of(s);
    let t: &[char] = trimmed(cs.as_slice());
    if t.len() == 0 {
        None
    } else {
        Some(string_of(t))
    }
}

/// A line of a block comment without what only frames it.
fn cleaned(line: &[char]) -> (r: String)
    ensures
        r@ == clean_line(line@),
{
    let rest: &[char] = drop_leading(trimmed(line), '*');
    string_of(trimmed(rest))
}

/// What a block comment says.
fn say_block(text: &str) -> (r: Option<String>)
    ensures
        r.deep_view() == block_doc(text@),
{
    let cs: Vec<char> = chars_of(text);
    let list: Vec<String> = lines_of(cs.as_slice());
    let mut out: Vec<String> = Vec::new();
    let mut i: usize = 0;
    while i < list.len()
        invariant
            i <= list.len(),
            out@.len() == i,
            forall|j: int| 0 <= j < i ==> (#[trigger] out@[j])@ == clean_line(list.deep_view()[j]),
        decreases list.len() - i,
    {
        let line: Vec<char> = chars_of(list[i].as_str());
        assert(list.deep_view()[i as int] == line@);
        out.push(cleaned(line.as_slice()));
        i += 1;
    }
    assert(list.deep_view().len() == list@.len());
    assert(out.deep_view() =~= list.deep_view().map_values(|line: Seq<char>| clean_line(line)));
    nonempty(joined(&out, "\n").as_str())
}

/// What a block comment holds.
fn read_block(list: &Vec<String>, start: usize, after: &[char], close: &str) -> (r: String)
    requires
        start < list@.len(),
    ensures
        r@ == block_text(list.deep_view(), start as int, after@, close@),
{
    let mark: Vec<char> = chars_of(close);
    proof {
        lemma_find_from(after@, close@, 0);
    }
    if let Some(end) = find_chars(after, mark.as_slice(), 0) {
        let held: &[char] = slice_subrange(after, 0, end);
        assert(held@ =~= after@.take(end as int));
        return string_of(held);
    }
    let mut out: String = string_of(after);
    let total: usize = list.len();
    let mut k: usize = start + 1;
    while k < total
        invariant
            start < k <= total == list@.len(),
            mark@ == close@,
            out@ + block_from(list.deep_view(), close@, k as int) == after@ + block_from(
                list.deep_view(),
                close@,
                start + 1,
            ),
            find_from(after@, close@, 0) is None,
        decreases total - k,
    {
        let line: Vec<char> = chars_of(list[k].as_str());
        assert(list.deep_view()[k as int] == line@);
        let ghost before = out@;
        proof {
            lemma_find_from(line@, close@, 0);
        }
        out.append("\n");
        if let Some(end) = find_chars(line.as_slice(), mark.as_slice(), 0) {
            let held: &[char] = slice_subrange(line.as_slice(), 0, end);
            assert(held@ =~= line@.take(end as int));
            out.append(string_of(held).as_str());
            assert(out@ =~= before + ("\n"@ + line@.take(end as int)));
            return out;
        }
        out.append(list[k].as_str());
        k += 1;
        assert(out@ + block_from(list.deep_view(), close@, k as int) =~= before + ("\n"@ + line@
            + block_from(list.deep_view(), close@, k as int)));
    }
    assert(list.deep_view().len() == list@.len());
    assert(out@ + seq![] =~= out@);
    out
}

/// What stands behind the mark of a line comment.
fn rest_of_comment(line: &[char]) -> (r: Option<String>)
    ensures
        r.deep_view() == (match comment_rest(line@) {
            Some(rest) => Some(trim(rest)),
            None => None,
        }),
{
    let t: &[char] = trimmed_start(line);
    proof {
        reveal_strlit("//!");
        reveal_strlit("///");
        reveal_strlit("//");
        reveal_strlit("#");
    }
    let skip: usize = if begins_with(t, "//!") || begins_with(t, "///") {
        3
    } else if begins_with(t, "//") {
        2
    } else if begins_with(t, "#") {
        1
    } else {
        return None;
    };
    let rest: &[char] = slice_subrange(t, skip, t.len());
    assert(rest@ =~= t@.skip(skip as int));
    Some(string_of(trimmed(rest)))
}

/// The line comments from a line on.
fn read_comments(list: &Vec<String>, start: usize) -> (r: Vec<String>)
    requires
        start <= list@.len(),
    ensures
        r.deep_view() == comments_from(list.deep_view(), start as int),
{
    let mut out: Vec<String> = Vec::new();
    let mut k: usize = start;
    assert(out.deep_view() + comments_from(list.deep_view(), k as int) =~= comments_from(
        list.deep_view(),
        start as int,
    ));
    while k < list.len()
        invariant
            k <= list.len(),
            out.deep_view() + comments_from(list.deep_view(), k as int) == comments_from(
                list.deep_view(),
                start as int,
            ),
        decreases list.len() - k,
    {
        let line: Vec<char> = chars_of(list[k].as_str());
        assert(list.deep_view()[k as int] == line@);
        let ghost before = out.deep_view();
        match rest_of_comment(line.as_slice()) {
            Some(rest) => {
                let ghost added = rest@;
                out.push(rest);
                assert(out.deep_view() =~= before.push(added));
                assert(out.deep_view() + comments_from(list.deep_view(), k + 1) =~= before
                    + comments_from(list.deep_view(), k as int));
            },
            None => {
                assert(before + seq![] =~= before);
                return out;
            },
        }
        k += 1;
    }
    assert(list.deep_view().len() == list@.len());
    assert(out.deep_view() + seq![] =~= out.deep_view());
    out
}

/// The doc comment at the top of a file, as well as it can be told.
pub fn leading_doc(source: &str) -> (r: Option<String>)
    ensures
        r.deep_view() == doc_of(source@),
{
    let cs: Vec<char> = chars_of(source);
    let list: Vec<String> = lines_of(cs.as_slice());
    assert(list.deep_view().len() == list@.len());
    let mut start: usize = 0;
    while start < list.len()
        invariant
            start <= list.len(),
            list.deep_view() == lines(source@),
            list.deep_view().len() == list@.len(),
            doc_start(list.deep_view(), 0) == doc_start(list.deep_view(), start as int),
        decreases list.len() - start,
    {
        let line: Vec<char> = chars_of(list[start].as_str());
        assert(list.deep_view()[start as int] == line@);
        let first: &[char] = trimmed_start(line.as_slice());
        if first.len() > 0 && !begins_with(first, "#!") {
            assert(doc_start(list.deep_view(), 0) == start);
            proof {
                reveal_strlit("\"\"\"");
                reveal_strlit("'''");
                reveal_strlit("/*");
            }
            if begins_with(first, "\"\"\"") {
                let after: &[char] = slice_subrange(first, 3, first.len());
                assert(after@ =~= first@.skip(3));
                return say_block(read_block(&list, start, after, "\"\"\"").as_str());
            }
            if begins_with(first, "'''") {
                let after: &[char] = slice_subrange(first, 3, first.len());
                assert(after@ =~= first@.skip(3));
                return say_block(read_block(&list, start, after, "'''").as_str());
            }
            if begins_with(first, "/*") {
                let after: &[char] = slice_subrange(first, 2, first.len());
                assert(after@ =~= first@.skip(2));
                return say_block(read_block(&list, start, after, "*/").as_str());
            }
            let run: Vec<String> = read_comments(&list, start);
            return nonempty(joined(&run, "\n").as_str());
        }
        start += 1;
    }
    None
}

/// The entry files whose doc comment describes a project.
pub open spec fn doc_file_names() -> Seq<Seq<char>> {
    seq![
        "src/lib.rs"@,
        "src/main.rs"@,
        "main.go"@,
        "main.py"@,
        "__init__.py"@,
        "src/index.ts"@,
        "index.ts"@,
        "src/index.js"@,
        "index.js"@,
        "main.c"@,
        "main.cpp"@,
        "main.rb"@,
    ]
}

/// The entry files whose doc comment describes a project.
pub fn doc_files() -> (r: Vec<&'static str>)
    ensures
        r.deep_view() == doc_file_names(),
{
    let list: Vec<&'static str> = vec![
        "src/lib.rs",
        "src/main.rs",
        "main.go",
        "main.py",
        "__init__.py",
        "src/index.ts",
        "index.ts",
        "src/index.js",
        "index.js",
        "main.c",
        "main.cpp",
        "main.rb",
    ];
    assert(list.deep_view() =~= doc_file_names());
    list
}

/// The first doc comment among the files that could be read, from position `k` on.
pub open spec fn doc_from(contents: Seq<Option<Seq<char>>>, k: int) -> Option<Seq<char>>
    decreases contents.len() - k,
{
    if k >= contents.len() {
        None
    } else if contents[k] is Some && doc_of(contents[k]->0) is Some {
        doc_of(contents[k]->0)
    } else {
        doc_from(contents, k + 1)
    }
}

/// What the sources say is what the first of them with a comment says, and nothing only where none
/// has one.
pub proof fn law_the_first_comment_is_taken(contents: Seq<Option<Seq<char>>>, k: int)
    requires
        0 <= k <= contents.len(),
    ensures
        match doc_from(contents, k) {
            Some(text) => exists|i: int|
                k <= i < contents.len() && (#[trigger] contents[i]) is Some && doc_of(contents[i]->0)
                    == Some(text) && forall|j: int|
                    k <= j < i ==> ((#[trigger] contents[j]) is None || doc_of(contents[j]->0) is None),
            None => forall|j: int|
                k <= j < contents.len() ==> ((#[trigger] contents[j]) is None || doc_of(
                    contents[j]->0,
                ) is None),
        },
    decreases contents.len() - k,
{
    if k < contents.len() {
        law_the_first_comment_is_taken(contents, k + 1);
        if contents[k] is Some && doc_of(contents[k]->0) is Some {
            assert(doc_of(contents[k]->0) == doc_from(contents, k));
        } else if let Some(text) = doc_from(contents, k + 1) {
            let i = choose|i: int|
                k + 1 <= i < contents.len() && (#[trigger] contents[i]) is Some && doc_of(
                    contents[i]->0,
                ) == Some(text) && forall|j: int|
                    k + 1 <= j < i ==> ((#[trigger] contents[j]) is None || doc_of(
                        contents[j]->0,
                    ) is None);
            assert(contents[i] is Some);
        }
    }
}

/// The first doc comment among the entry files that could be read.
pub fn main_doc(contents: &Vec<Option<String>>) -> (r: Option<String>)
    ensures
        r.deep_view() == doc_from(contents.deep_view(), 0),
{
    let mut k: usize = 0;
    while k < contents.len()
        invariant
            k <= contents.len(),
            doc_from(contents.deep_view(), 0) == doc_from(contents.deep_view(), k as int),
        decreases contents.len() - k,
    {
        assert(contents.deep_view()[k as int] == contents@[k as int].deep_view());
        if let Some(text) = &contents[k] {
            let doc: Option<String> = leading_doc(text.as_str());
            if doc.is_some() {
                return doc;
            }
        }
        k += 1;
    }
    assert(contents.deep_view().len() == contents@.len());
    None
}

/// What a project says of itself.
pub enum Said {
    /// The README to show.
    File(String),
    /// A description or a doc comment.
    Text(String),
    /// What is said where there is none of them.
    Nothing(String),
}

/// What is said where a project says nothing of itself.
pub open spec fn nothing_said(dir: Seq<char>) -> Seq<char> {
    "pro_readme: found no README, manifest description, or top-of-file doc comment in '"@ + dir
        + "'"@
}

/// Show the project's README, else its manifest's description, else its main file's doc comment:
/// given the names in its directory, and what could be read of the manifests and entry files.
pub fn readme(
    args: &DirArgs,
    names: &Vec<String>,
    manifests: &Vec<Option<String>>,
    sources: &Vec<Option<String>>,
) -> (r: Said)
    requires
        manifests@.len() == description_rows().len(),
    ensures
        ({
            let file = readme_among(names.deep_view(), readme_marks(names.deep_view()));
            let description = described_from(description_rows(), manifests.deep_view(), 0);
            let doc = doc_from(sources.deep_view(), 0);
            if file is Some {
                r matches Said::File(name) && Some(name@) == file
            } else if description is Some {
                r matches Said::Text(text) && Some(text@) == description
            } else if doc is Some {
                r matches Said::Text(text) && Some(text@) == doc
            } else {
                r matches Said::Nothing(why) && why@ == nothing_said(args.dir@)
            }
        }),
{
    if let Some(name) = find_readme(names) {
        return Said::File(name);
    }
    if let Some(text) = manifest_description(manifests) {
        return Said::Text(text);
    }
    if let Some(text) = main_doc(sources) {
        return Said::Text(text);
    }
    let mut why: String =
        "pro_readme: found no README, manifest description, or top-of-file doc comment in '".to_owned();
    why.append(args.dir.as_str());
    why.append("'");
    Said::Nothing(why)
}

proof fn lemma_first_name(names: Seq<Seq<char>>, marks: Seq<bool>, only_md: bool, n: nat)
    requires
        n <= names.len(),
    ensures
        match first_name(names, marks, only_md, n) {
            Some(name) => exists|i: int|
                0 <= i < n && #[trigger] qualifies(names, marks, only_md, i) && names[i] == name,
            None => forall|i: int| 0 <= i < n ==> !#[trigger] qualifies(names, marks, only_md, i),
        },
    decreases n,
{
    if n > 0 {
        lemma_first_name(names, marks, only_md, (n - 1) as nat);
        if first_name(names, marks, only_md, n) == Some(names[n - 1]) && qualifies(
            names,
            marks,
            only_md,
            n - 1,
        ) {
            assert(qualifies(names, marks, only_md, n - 1) && names[n - 1] == names[n - 1]);
        }
    }
}

/// Where a directory holds a README at all, one is shown; and where it holds one in Markdown,
/// such a one is shown.
pub proof fn law_a_markdown_readme_is_preferred(names: Seq<Seq<char>>, marks: Seq<bool>)
    requires
        marks.len() == names.len(),
    ensures
        readme_among(names, marks) is Some <==> exists|i: int|
            #[trigger] qualifies(names, marks, false, i),
        (exists|i: int| #[trigger] qualifies(names, marks, true, i)) ==> extension(
            readme_among(names, marks)->0,
        ) == Some("md"@),
{
    lemma_first_name(names, marks, true, names.len());
    lemma_first_name(names, marks, false, names.len());
    if exists|i: int| #[trigger] qualifies(names, marks, true, i) {
        let i = choose|i: int| #[trigger] qualifies(names, marks, true, i);
        assert(qualifies(names, marks, false, i));
    }
}

} // verus!
