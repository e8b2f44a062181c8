//! How a module of plain functions becomes a set of commands, and how a function becomes a
//! routine that re-runs itself as root.
//!
//! The code generators read a module's functions and attributes as the plain values below, and
//! write out what is decided here.

pub mod elevated;

use vstd::prelude::*;
use vstd::slice::slice_subrange;
use vstd::string::*;
use crate::sequences::{lemma_filter_last, lemma_parts_last};
use crate::text::{
    char_at, chars_of, copy_texts, push_text, same_text, split_chars, split_on,
    string_of,
};

verus! {

// --- names ----------------------------------------------------------------------------------

/// What `char::to_uppercase` makes of a character: its Unicode uppercase mapping, which may be
/// more than one character.
pub uninterp spec fn upper_text(c: char) -> Seq<char>;

/// `char::to_uppercase`, collected: a function of the character alone, named `upper_text`.
#[verifier::external_body]
pub(crate) fn upper_char(c: char) -> (r: String)
    ensures
        r@ == upper_text(c),
{
    c.to_uppercase().collect()
}

/// The texts that are not empty.
pub open spec fn nonempty(parts: Seq<Seq<char>>, n: nat) -> Seq<Seq<char>>
    decreases n,
{
    if n == 0 {
        seq![]
    } else if parts[n - 1].len() > 0 {
        nonempty(parts, (n - 1) as nat).push(parts[n - 1])
    } else {
        nonempty(parts, (n - 1) as nat)
    }
}

/// Every part of a name that is not empty is kept, in order.
pub proof fn law_every_part_of_a_name_is_kept(parts: Seq<Seq<char>>, n: nat)
    requires
        n <= parts.len(),
    ensures
        nonempty(parts, n) == parts.take(n as int).filter(
            |part: Seq<char>| part.len() > 0,
        ),
    decreases n,
{
    if n == 0 {
        reveal(Seq::filter);
    } else {
        law_every_part_of_a_name_is_kept(parts, (n - 1) as nat);
        lemma_filter_last(
            parts,
            |part: Seq<char>| part.len() > 0,
            n,
        );
    }
}

/// The parts of a name between its underscores, without the empty ones.
pub open spec fn name_parts(s: Seq<char>) -> Seq<Seq<char>> {
    nonempty(split_on(s, '_'), split_on(s, '_').len())
}

/// The first `n` parts, each with its first character replaced.
pub open spec fn capitalised(parts: Seq<Seq<char>>, uppers: Seq<Seq<char>>, n: nat) -> Seq<char>
    decreases n,
{
    if n == 0 {
        seq![]
    } else {
        capitalised(parts, uppers, (n - 1) as nat) + uppers[n - 1] + parts[n - 1].drop_first()
    }
}

/// Every part stands, in order, its first letter in upper case and the rest as it is.
pub proof fn law_every_part_is_capitalised(parts: Seq<Seq<char>>, uppers: Seq<Seq<char>>, n: nat)
    requires
        n <= parts.len(),
    ensures
        capitalised(parts, uppers, n) == Seq::new(
            n,
            |i: int| uppers[i] + parts[i].drop_first(),
        ).flatten(),
    decreases n,
{
    if n > 0 {
        law_every_part_is_capitalised(parts, uppers, (n - 1) as nat);
        lemma_parts_last(
            |i: int| uppers[i] + parts[i].drop_first(),
            n,
        );
        let before = capitalised(parts, uppers, (n - 1) as nat);
        assert(before + uppers[n - 1] + parts[n - 1].drop_first() =~= before + (uppers[n - 1]
            + parts[n - 1].drop_first()));
    }
}

/// The upper case of the first character of each part.
pub open spec fn first_uppers(parts: Seq<Seq<char>>) -> Seq<Seq<char>> {
    Seq::new(parts.len(), |i: int| upper_text(parts[i][0]))
}

/// A name in Pascal case: `hmerge_imgs` is `HmergeImgs`.
pub open spec fn pascal(s: Seq<char>) -> Seq<char> {
    let parts = name_parts(s);
    capitalised(parts, first_uppers(parts), parts.len())
}

/// Every part of a name that is not empty stands in it, in order and capitalised, and none of its
/// other characters changes.
pub proof fn law_a_name_in_pascal_case(s: Seq<char>)
    ensures
        ({
            let parts = split_on(s, '_').filter(|part: Seq<char>| part.len() > 0);
            pascal(s) == Seq::new(
                parts.len(),
                |i: int| upper_text(parts[i][0]) + parts[i].drop_first(),
            ).flatten()
        }),
{
    let all = split_on(s, '_');
    law_every_part_of_a_name_is_kept(all, all.len());
    assert(all.take(all.len() as int) =~= all);
    let parts = name_parts(s);
    let uppers = first_uppers(parts);
    law_every_part_is_capitalised(parts, uppers, parts.len());
    assert(Seq::new(parts.len(), |i: int| uppers[i] + parts[i].drop_first()) =~= Seq::new(
        parts.len(),
        |i: int| upper_text(parts[i][0]) + parts[i].drop_first(),
    ));
}

/// The parts of a name between its underscores, without the empty ones.
pub fn parts_of_name(s: &str) -> (r: Vec<String>)
    ensures
        r.deep_view() == name_parts(s@),
        forall|i: int| 0 <= i < r@.len() ==> (#[trigger] r@[i])@.len() > 0,
{
    let cs: Vec<char> = chars_of(s);
    let all: Vec<String> = split_chars(cs.as_slice(), '_');
    let mut out: Vec<String> = Vec::new();
    assert(out.deep_view() =~= seq![]);
    let mut i: usize = 0;
    while i < all.len()
        invariant
            i <= all.len(),
            out.deep_view() == nonempty(all.deep_view(), i as nat),
            forall|j: int| 0 <= j < out@.len() ==> (#[trigger] out@[j])@.len() > 0,
        decreases all.len() - i,
    {
        assert(all.deep_view()[i as int] == all@[i as int]@);
        if !all[i].as_str().is_empty() {
            let ghost before = out.deep_view();
            let part: String = all[i].clone();
            out.push(part);
            assert(out.deep_view() =~= before.push(all@[i as int]@));
        }
        i += 1;
    }
    assert(all.deep_view().len() == all@.len());
    out
}

/// The parts, each with its first character replaced by the text at its position.
pub fn capitalise(parts: &Vec<String>, uppers: &Vec<String>) -> (r: String)
    requires
        parts@.len() == uppers@.len(),
        forall|i: int| 0 <= i < parts@.len() ==> (#[trigger] parts@[i])@.len() > 0,
    ensures
        r@ == capitalised(parts.deep_view(), uppers.deep_view(), parts@.len()),
{
    let mut out: String = String::new();
    let mut i: usize = 0;
    while i < parts.len()
        invariant
            i <= parts.len(),
            parts@.len() == uppers@.len(),
            forall|j: int| 0 <= j < parts@.len() ==> (#[trigger] parts@[j])@.len() > 0,
            out@ == capitalised(parts.deep_view(), uppers.deep_view(), i as nat),
        decreases parts.len() - i,
    {
        let cs: Vec<char> = chars_of(parts[i].as_str());
        assert(parts.deep_view()[i as int] == parts@[i as int]@);
        assert(uppers.deep_view()[i as int] == uppers@[i as int]@);
        let tail: String = string_of(slice_subrange(cs.as_slice(), 1, cs.len()));
        assert(tail@ =~= parts@[i as int]@.drop_first());
        out.append(uppers[i].as_str());
        out.append(tail.as_str());
        i += 1;
    }
    out
}

/// `hmerge_imgs` is `HmergeImgs`.
pub fn to_pascal_case(s: &str) -> (r: String)
    ensures
        r@ == pascal(s@),
{
    let parts: Vec<String> = parts_of_name(s);
    let mut uppers: Vec<String> = Vec::new();
    let mut i: usize = 0;
    while i < parts.len()
        invariant
            i <= parts.len(),
            uppers@.len() == i,
            forall|j: int| 0 <= j < parts@.len() ==> (#[trigger] parts@[j])@.len() > 0,
            forall|j: int| 0 <= j < i ==> (#[trigger] uppers@[j])@ == upper_text(parts@[j]@[0]),
        decreases parts.len() - i,
    {
        let cs: Vec<char> = chars_of(parts[i].as_str());
        let c: char = char_at(cs.as_slice(), 0);
        uppers.push(upper_char(c));
        i += 1;
    }
    assert(parts.deep_view().len() == parts@.len());
    assert(uppers.deep_view() =~= first_uppers(parts.deep_view()));
    capitalise(&parts, &uppers)
}

/// A name with hyphens in place of underscores.
pub open spec fn kebab(s: Seq<char>) -> Seq<char> {
    s.map_values(
        |c: char|
            if c == '_' {
                '-'
            } else {
                c
            },
    )
}

/// A name with hyphens in place of underscores.
pub fn to_kebab_case(s: &str) -> (r: String)
    ensures
        r@ == kebab(s@),
{
    let cs: Vec<char> = chars_of(s);
    let mut out: String = String::new();
    let mut i: usize = 0;
    while i < cs.len()
        invariant
            i <= cs.len(),
            cs@ == s@,
            out@ == kebab(s@).take(i as int),
        decreases cs.len() - i,
    {
        let c: char = char_at(cs.as_slice(), i);
        out.push(
            if c == '_' {
                '-'
            } else {
                c
            },
        );
        i += 1;
        assert(out@ =~= kebab(s@).take(i as int));
    }
    assert(kebab(s@).take(i as int) =~= kebab(s@));
    out
}

// --- the arguments of `category` ------------------------------------------------------------

/// What stands behind the `=` of a pair.
pub enum PairValue {
    /// A path: its name, where it is a single identifier.
    Path(Option<String>),
    /// A string literal.
    Text(String),
    Other,
}

/// One `key = value` pair: the key is empty where it is no single identifier.
pub struct Pair {
    pub key: String,
    pub value: PairValue,
}

/// The arguments: the name of the command type, and what every command's name begins with.
pub struct CategoryArgs {
    pub command: String,
    pub prefix: String,
}

/// Why the arguments are refused: the pair at fault, or what is missing.
#[derive(Clone, Copy, Debug, PartialEq, Eq, Structural)]
pub enum ArgsError {
    CommandIsNoIdentifier(usize),
    PrefixIsNoText(usize),
    UnknownKey(usize),
    NoCommand,
    NoPrefix,
}

/// What the first `n` pairs say: the command and the prefix, or the first pair that is wrong.
pub open spec fn pairs_read(pairs: Seq<Pair>, n: nat) -> Result<
    (Option<Seq<char>>, Option<Seq<char>>),
    ArgsError,
>
    decreases n,
{
    if n == 0 {
        Ok((None, None))
    } else {
        let at = (n - 1) as usize;
        match pairs_read(pairs, (n - 1) as nat) {
            Err(e) => Err(e),
            Ok((command, prefix)) => if pairs[n - 1].key@ == "command"@ {
                match pairs[n - 1].value {
                    PairValue::Path(name) => Ok((name.deep_view(), prefix)),
                    _ => Err(ArgsError::CommandIsNoIdentifier(at)),
                }
            } else if pairs[n - 1].key@ == "prefix"@ {
                match pairs[n - 1].value {
                    PairValue::Text(text) => Ok((command, Some(text@))),
                    _ => Err(ArgsError::PrefixIsNoText(at)),
                }
            } else {
                Err(ArgsError::UnknownKey(at))
            },
        }
    }
}

/// Arguments are read where every key is known and has a value of its kind; of two for one key the
/// later counts, and without one there is none.
pub proof fn law_the_last_of_a_key_counts(pairs: Seq<Pair>, n: nat)
    requires
        n <= pairs.len(),
    ensures
        pairs_read(pairs, n) is Ok <==> forall|i: int|
            0 <= i < n ==> ((#[trigger] pairs[i]).key@ == "command"@ && pairs[i].value is Path) || (
            pairs[i].key@ == "prefix"@ && pairs[i].value is Text),
        pairs_read(pairs, n) matches Ok((command, prefix)) ==> {
            &&& forall|k: int|
                0 <= k < n && (#[trigger] pairs[k]).key@ == "command"@ && (forall|later: int|
                    k < later < n ==> (#[trigger] pairs[later]).key@ != "command"@) ==> command == (
                pairs[k].value->Path_0).deep_view()
            &&& forall|k: int|
                0 <= k < n && (#[trigger] pairs[k]).key@ == "prefix"@ && (forall|later: int|
                    k < later < n ==> (#[trigger] pairs[later]).key@ != "prefix"@) ==> prefix == Some(
                    (pairs[k].value->Text_0)@,
                )
            &&& (forall|k: int| 0 <= k < n ==> (#[trigger] pairs[k]).key@ != "command"@)
                ==> command is None
            &&& (forall|k: int| 0 <= k < n ==> (#[trigger] pairs[k]).key@ != "prefix"@)
                ==> prefix is None
        },
    decreases n,
{
    reveal_strlit("command");
    reveal_strlit("prefix");
    assert("command"@ != "prefix"@) by {
        assert("command"@.len() != "prefix"@.len());
    }
    if n > 0 {
        law_the_last_of_a_key_counts(pairs, (n - 1) as nat);
        if pairs_read(pairs, n) is Ok {
            assert(pairs_read(pairs, (n - 1) as nat) is Ok);
        }
        if (forall|i: int|
            0 <= i < n ==> ((#[trigger] pairs[i]).key@ == "command"@ && pairs[i].value is Path) || (
            pairs[i].key@ == "prefix"@ && pairs[i].value is Text)) {
            assert((pairs[n - 1].key@ == "command"@ && pairs[n - 1].value is Path) || (pairs[n
                - 1].key@ == "prefix"@ && pairs[n - 1].value is Text));
        }
    }
}

/// What the pairs come to.
pub open spec fn args_read(pairs: Seq<Pair>) -> Result<(Seq<char>, Seq<char>), ArgsError> {
    match pairs_read(pairs, pairs.len()) {
        Err(e) => Err(e),
        Ok((None, _)) => Err(ArgsError::NoCommand),
        Ok((Some(_), None)) => Err(ArgsError::NoPrefix),
        Ok((Some(command), Some(prefix))) => Ok((command, prefix)),
    }
}

impl CategoryArgs {
    /// Read the pairs; a later one overrides an earlier one of the same key.
    pub fn parse(pairs: &Vec<Pair>) -> (r: Result<CategoryArgs, ArgsError>)
        ensures
            match r {
                Ok(args) => args_read(pairs@) == Ok::<(Seq<char>, Seq<char>), ArgsError>(
                    (args.command@, args.prefix@),
                ),
                Err(e) => args_read(pairs@) == Err::<(Seq<char>, Seq<char>), ArgsError>(e),
            },
    {
        let mut command: Option<String> = None;
        let mut prefix: Option<String> = None;
        let mut i: usize = 0;
        proof {
            lemma_first_error(pairs@, 0, pairs@.len());
        }
        while i < pairs.len()
            invariant
                i <= pairs.len(),
                pairs_read(pairs@, i as nat) == Ok::<
                    (Option<Seq<char>>, Option<Seq<char>>),
                    ArgsError,
                >((command.deep_view(), prefix.deep_view())),
            decreases pairs.len() - i,
        {
            proof {
                lemma_first_error(pairs@, (i + 1) as nat, pairs@.len());
            }
            if same_text(pairs[i].key.as_str(), "command") {
                match &pairs[i].value {
                    PairValue::Path(name) => {
                        command = match name {
                            Some(n) => Some(n.clone()),
                            None => None,
                        };
                    },
                    _ => return Err(ArgsError::CommandIsNoIdentifier(i)),
                }
            } else if same_text(pairs[i].key.as_str(), "prefix") {
                match &pairs[i].value {
                    PairValue::Text(text) => {
                        prefix = Some(text.clone());
                    },
                    _ => return Err(ArgsError::PrefixIsNoText(i)),
                }
            } else {
                return Err(ArgsError::UnknownKey(i));
            }
            i += 1;
        }
        match command {
            None => Err(ArgsError::NoCommand),
            Some(command) => match prefix {
                None => Err(ArgsError::NoPrefix),
                Some(prefix) => Ok(CategoryArgs { command, prefix }),
            },
        }
    }
}

proof fn lemma_first_error(pairs: Seq<Pair>, n: nat, m: nat)
    requires
        n <= m <= pairs.len(),
    ensures
        pairs_read(pairs, n) is Err ==> pairs_read(pairs, m) == pairs_read(pairs, n),
    decreases m,
{
    if n < m {
        lemma_first_error(pairs, n, (m - 1) as nat);
    }
}

impl ArgsError {
    /// The message of the error.
    pub open spec fn text(self) -> Seq<char> {
        match self {
            ArgsError::CommandIsNoIdentifier(_) => "`command` must be an identifier"@,
            ArgsError::PrefixIsNoText(_) => "`prefix` must be a string literal"@,
            ArgsError::UnknownKey(_) => "expected `command` or `prefix`"@,
            ArgsError::NoCommand => "missing `command = TypeName`"@,
            ArgsError::NoPrefix => "missing `prefix = \"...\"`"@,
        }
    }

    /// The message of the error.
    pub fn message(&self) -> (r: &'static str)
        ensures
            r@ == self.text(),
    {
        match self {
            ArgsError::CommandIsNoIdentifier(_) => "`command` must be an identifier",
            ArgsError::PrefixIsNoText(_) => "`prefix` must be a string literal",
            ArgsError::UnknownKey(_) => "expected `command` or `prefix`",
            ArgsError::NoCommand => "missing `command = TypeName`",
            ArgsError::NoPrefix => "missing `prefix = \"...\"`",
        }
    }
}

// --- attributes of a command ----------------------------------------------------------------

/// How many opening brackets a text may hold and still be read as tokens: each may nest the
/// tokens one deeper.
pub const MAX_BRACKETS: usize = 512;

/// How many of the first `n` characters are opening brackets.
pub open spec fn brackets(s: Seq<char>, n: nat) -> nat
    decreases n,
{
    if n == 0 {
        0
    } else {
        brackets(s, (n - 1) as nat) + if s[n - 1] == '(' || s[n - 1] == '[' || s[n - 1] == '{' {
            1nat
        } else {
            0
        }
    }
}

/// Every opening bracket counts, once.
pub proof fn law_every_bracket_counts(s: Seq<char>, n: nat)
    requires
        n <= s.len(),
    ensures
        brackets(s, n) == s.take(n as int).filter(
            |c: char| c == '(' || c == '[' || c == '{',
        ).len(),
    decreases n,
{
    if n == 0 {
        reveal(Seq::filter);
    } else {
        law_every_bracket_counts(s, (n - 1) as nat);
        lemma_filter_last(s, |c: char| c == '(' || c == '[' || c == '{', n);
    }
}

/// Where the quoted text that goes on at `from` is closed, a backslash hiding what follows it;
/// the length where it is not.
pub open spec fn closing_quote(s: Seq<char>, from: int) -> int
    decreases s.len() + 1 - from,
{
    if from >= s.len() {
        s.len() as int
    } else if s[from] == '"' {
        from
    } else if s[from] == '\\' {
        closing_quote(s, from + 2)
    } else {
        closing_quote(s, from + 1)
    }
}

/// A text without quotes and backslashes, between quotes, is one quoted text, whatever brackets it
/// holds; and a quote behind a backslash does not close one.
pub proof fn law_a_plain_literal_is_quoted(s: Seq<char>, from: int)
    requires
        1 <= from < s.len(),
        s.last() == '"',
        forall|i: int| from <= i < s.len() - 1 ==> #[trigger] s[i] != '"' && s[i] != '\\',
    ensures
        closing_quote(s, from) == s.len() - 1,
        from >= 3 && s[from - 2] == '\\' ==> closing_quote(s, from - 2) == s.len() - 1,
    decreases s.len() - from,
{
    if from < s.len() - 1 {
        assert(s[from] != '"' && s[from] != '\\');
        law_a_plain_literal_is_quoted(s, from + 1);
    }
}

/// Whether a text is nothing but one quoted text, so that no bracket in it nests anything.
pub open spec fn is_quoted(s: Seq<char>) -> bool {
    s.len() >= 2 && s[0] == '"' && closing_quote(s, 1) == s.len() - 1
}

/// Whether a text nests its tokens no deeper than they can be read.
pub open spec fn is_shallow(s: Seq<char>) -> bool {
    is_quoted(s) || brackets(s, s.len()) <= MAX_BRACKETS
}

/// Whether a text is nothing but one quoted text.
fn quoted_whole(cs: &[char]) -> (r: bool)
    ensures
        r == is_quoted(cs@),
{
    if cs.len() < 2 || cs[0] != '"' {
        return false;
    }
    let mut i: usize = 1;
    while i < cs.len() && cs[i] != '"'
        invariant
            1 <= i,
            cs.len() >= 2,
            closing_quote(cs@, 1) == closing_quote(cs@, i as int),
        decreases cs.len() - i,
    {
        if cs[i] == '\\' {
            if cs.len() - i <= 2 {
                assert(closing_quote(cs@, i + 2) == cs.len());
                return false;
            }
            i += 2;
        } else {
            i += 1;
        }
    }
    i == cs.len() - 1
}

/// Whether a text nests its tokens no deeper than they can be read.
pub fn nests_little(tokens: &str) -> (r: bool)
    ensures
        r == is_shallow(tokens@),
{
    let cs: Vec<char> = chars_of(tokens);
    if quoted_whole(cs.as_slice()) {
        return true;
    }
    let mut open: usize = 0;
    let mut i: usize = 0;
    while i < cs.len()
        invariant
            i <= cs.len(),
            open <= i,
            open == brackets(cs@, i as nat),
        decreases cs.len() - i,
    {
        if cs[i] == '(' || cs[i] == '[' || cs[i] == '{' {
            open += 1;
        }
        i += 1;
    }
    open <= MAX_BRACKETS
}

/// What the tokens of an attribute's brackets come to, where they are one string literal.
pub uninterp spec fn lit_str_value(tokens: Seq<char>) -> Option<Seq<char>>;

/// `syn::parse_str::<syn::LitStr>` and `syn::LitStr::value`: the value of the string literal
/// that the text holds, nothing where it holds anything else. A function of the text, named
/// `lit_str_value`. The tokens are read by recursion, one call for each bracket that is open, so
/// a text that may nest them too deep for the stack is left out.
#[verifier::external_body]
fn read_literal(tokens: &str) -> (r: Option<String>)
    requires
        is_shallow(tokens@),
    ensures
        r.deep_view() == lit_str_value(tokens@),
{
    syn::parse_str::<syn::LitStr>(tokens).ok().map(|literal| literal.value())
}

/// The string literal that a text holds. A text that nests too deep holds none.
pub open spec fn literal_in(tokens: Seq<char>) -> Option<Seq<char>> {
    if is_shallow(tokens) {
        lit_str_value(tokens)
    } else {
        None
    }
}

/// The string literal that a text holds, read where the text nests little enough.
fn literal_text(tokens: &str) -> (r: Option<String>)
    ensures
        r.deep_view() == literal_in(tokens@),
{
    if nests_little(tokens) {
        read_literal(tokens)
    } else {
        None
    }
}

/// An attribute: its name, where that is a single identifier, and the tokens in its brackets,
/// where it has any.
pub struct Attr {
    pub path: Option<String>,
    pub args: Option<String>,
}

/// The helper attributes of a command function.
pub struct CommandAttrs {
    /// The positions of the doc comments, which the generated variant repeats.
    pub docs: Vec<usize>,
    /// The positions of the attributes that stay on the function, doc comments among them.
    pub kept: Vec<usize>,
    /// Keep the prefixed name, alongside a bare one.
    pub prefixed: bool,
    /// Expose the bare name.
    pub unprefixed: bool,
    /// Shell that follows the command's wrapper.
    pub after: Option<String>,
    /// A command piped into the wrapper.
    pub piped: Option<String>,
    /// The exact name, whatever the prefix.
    pub name: Option<String>,
    /// More visible names.
    pub aliases: Vec<String>,
    /// Print a blank line after the command, to spare the last row.
    pub trailing_newline: bool,
}

/// What helper attributes say.
pub struct AttrsView {
    pub docs: Seq<usize>,
    pub kept: Seq<usize>,
    pub prefixed: bool,
    pub unprefixed: bool,
    pub after: Option<Seq<char>>,
    pub piped: Option<Seq<char>>,
    pub name: Option<Seq<char>>,
    pub aliases: Seq<Seq<char>>,
    pub trailing_newline: bool,
}

impl View for CommandAttrs {
    type V = AttrsView;

    open spec fn view(&self) -> AttrsView {
        AttrsView {
            docs: self.docs@,
            kept: self.kept@,
            prefixed: self.prefixed,
            unprefixed: self.unprefixed,
            after: self.after.deep_view(),
            piped: self.piped.deep_view(),
            name: self.name.deep_view(),
            aliases: self.aliases.deep_view(),
            trailing_newline: self.trailing_newline,
        }
    }
}

/// Nothing said.
pub open spec fn no_attrs() -> AttrsView {
    AttrsView {
        docs: seq![],
        kept: seq![],
        prefixed: false,
        unprefixed: false,
        after: None,
        piped: None,
        name: None,
        aliases: seq![],
        trailing_newline: false,
    }
}

/// Whether an attribute has this name.
pub open spec fn is_named(a: Attr, word: Seq<char>) -> bool {
    a.path.deep_view() == Some(word)
}

/// Whether an attribute wants a string literal.
pub open spec fn wants_literal(a: Attr) -> bool {
    is_named(a, "after"@) || is_named(a, "piped"@) || is_named(a, "name"@) || is_named(a, "alias"@)
}

/// What one more attribute adds, given its literal where it holds one; nothing where it wants
/// one and holds none.
pub open spec fn attr_added(v: AttrsView, a: Attr, at: usize, literal: Option<Seq<char>>) -> Option<
    AttrsView,
> {
    if is_named(a, "doc"@) {
        Some(AttrsView { docs: v.docs.push(at), kept: v.kept.push(at), ..v })
    } else if is_named(a, "prefixed"@) {
        Some(AttrsView { prefixed: true, ..v })
    } else if is_named(a, "unprefixed"@) {
        Some(AttrsView { unprefixed: true, ..v })
    } else if wants_literal(a) {
        match literal {
            None => None,
            Some(text) => if is_named(a, "after"@) {
                Some(AttrsView { after: Some(text), ..v })
            } else if is_named(a, "piped"@) {
                Some(AttrsView { piped: Some(text), ..v })
            } else if is_named(a, "name"@) {
                Some(AttrsView { name: Some(text), ..v })
            } else {
                Some(AttrsView { aliases: v.aliases.push(text), ..v })
            },
        }
    } else if is_named(a, "trailing_newline"@) {
        Some(AttrsView { trailing_newline: true, ..v })
    } else {
        Some(AttrsView { kept: v.kept.push(at), ..v })
    }
}

/// The literal in an attribute's brackets.
pub open spec fn literal_of(a: Attr) -> Option<Seq<char>> {
    match a.args {
        Some(tokens) => literal_in(tokens@),
        None => None,
    }
}

/// What the first `n` attributes say, or the position of the first that lacks its literal.
pub open spec fn attrs_taken(attrs: Seq<Attr>, n: nat) -> Result<AttrsView, usize>
    decreases n,
{
    if n == 0 {
        Ok(no_attrs())
    } else {
        match attrs_taken(attrs, (n - 1) as nat) {
            Err(at) => Err(at),
            Ok(v) => match attr_added(
                v,
                attrs[n - 1],
                (n - 1) as usize,
                literal_of(attrs[n - 1]),
            ) {
                Some(next) => Ok(next),
                None => Err((n - 1) as usize),
            },
        }
    }
}

/// Attributes are taken unless one wants a literal and holds none.
pub proof fn law_attributes_are_taken_unless_a_literal_is_missing(attrs: Seq<Attr>, n: nat)
    requires
        n <= attrs.len() <= usize::MAX,
    ensures
        attrs_taken(attrs, n) is Ok <==> forall|i: int|
            0 <= i < n ==> !(wants_literal(#[trigger] attrs[i]) && literal_of(attrs[i]) is None),
    decreases n,
{
    lemma_attribute_names();
    if n > 0 {
        law_attributes_are_taken_unless_a_literal_is_missing(attrs, (n - 1) as nat);
        if attrs_taken(attrs, n) is Ok {
            assert(attrs_taken(attrs, (n - 1) as nat) is Ok);
        }
        if (forall|i: int|
            0 <= i < n ==> !(wants_literal(#[trigger] attrs[i]) && literal_of(attrs[i]) is None)) {
            assert(!(wants_literal(attrs[n - 1]) && literal_of(attrs[n - 1]) is None));
        }
    }
}

/// Every doc comment is repeated, in order, and nothing else.
pub proof fn law_every_doc_comment_is_repeated(attrs: Seq<Attr>, n: nat)
    requires
        n <= attrs.len() <= usize::MAX,
    ensures
        attrs_taken(attrs, n) matches Ok(v) ==> v.docs == Seq::new(
            n,
                |i: int|
                    if is_named(attrs[i], "doc"@) {
                        seq![i as usize]
                    } else {
                        seq![]
                    },
        ).flatten(),
    decreases n,
{
    lemma_attribute_names();
    if n > 0 {
        law_every_doc_comment_is_repeated(attrs, (n - 1) as nat);
        lemma_parts_last(
            |i: int|
                if is_named(attrs[i], "doc"@) {
                    seq![i as usize]
                } else {
                    seq![]
                },
            n,
        );
        if let Ok(b) = attrs_taken(attrs, (n - 1) as nat) {
            let x = (n - 1) as usize;
            assert(b.docs + seq![x] =~= b.docs.push(x));
            assert(b.docs + seq![] =~= b.docs);
        }
    }
}

/// Every attribute that is no helper of a command stays on the function, in order.
pub proof fn law_every_other_attribute_stays(attrs: Seq<Attr>, n: nat)
    requires
        n <= attrs.len() <= usize::MAX,
    ensures
        attrs_taken(attrs, n) matches Ok(v) ==> v.kept == Seq::new(
            n,
                |i: int|
                    if is_named(attrs[i], "prefixed"@) || is_named(attrs[i], "unprefixed"@) || wants_literal(
                        attrs[i],
                    ) || is_named(attrs[i], "trailing_newline"@) {
                        seq![]
                    } else {
                        seq![i as usize]
                    },
        ).flatten(),
    decreases n,
{
    lemma_attribute_names();
    if n > 0 {
        law_every_other_attribute_stays(attrs, (n - 1) as nat);
        lemma_parts_last(
            |i: int|
                if is_named(attrs[i], "prefixed"@) || is_named(attrs[i], "unprefixed"@) || wants_literal(
                    attrs[i],
                ) || is_named(attrs[i], "trailing_newline"@) {
                    seq![]
                } else {
                    seq![i as usize]
                },
            n,
        );
        if let Ok(b) = attrs_taken(attrs, (n - 1) as nat) {
            let x = (n - 1) as usize;
            assert(b.kept + seq![x] =~= b.kept.push(x));
            assert(b.kept + seq![] =~= b.kept);
        }
    }
}

/// Every alias is kept, in order.
pub proof fn law_every_alias_is_kept(attrs: Seq<Attr>, n: nat)
    requires
        n <= attrs.len() <= usize::MAX,
    ensures
        attrs_taken(attrs, n) matches Ok(v) ==> v.aliases == Seq::new(
            n,
                |i: int|
                    if is_named(attrs[i], "alias"@) {
                        seq![literal_of(attrs[i])->0]
                    } else {
                        seq![]
                    },
        ).flatten(),
    decreases n,
{
    lemma_attribute_names();
    if n > 0 {
        law_every_alias_is_kept(attrs, (n - 1) as nat);
        lemma_parts_last(
            |i: int|
                if is_named(attrs[i], "alias"@) {
                    seq![literal_of(attrs[i])->0]
                } else {
                    seq![]
                },
            n,
        );
        if let Ok(b) = attrs_taken(attrs, (n - 1) as nat) {
            let x = literal_of(attrs[n - 1])->0;
            assert(b.aliases + seq![x] =~= b.aliases.push(x));
            assert(b.aliases + seq![] =~= b.aliases);
        }
    }
}

/// A command keeps its prefixed name exactly where an attribute says so.
pub proof fn law_the_switch_prefixed_is_heeded(attrs: Seq<Attr>, n: nat)
    requires
        n <= attrs.len() <= usize::MAX,
    ensures
        attrs_taken(attrs, n) matches Ok(v) ==> (v.prefixed <==> exists|i: int|
            0 <= i < n && is_named(#[trigger] attrs[i], "prefixed"@)),
    decreases n,
{
    lemma_attribute_names();
    if n > 0 {
        law_the_switch_prefixed_is_heeded(attrs, (n - 1) as nat);
        if let Ok(b) = attrs_taken(attrs, (n - 1) as nat) {
            if b.prefixed {
                let i = choose|i: int| 0 <= i < n - 1 && is_named(#[trigger] attrs[i], "prefixed"@);
                assert(is_named(attrs[i], "prefixed"@));
            }
            if is_named(attrs[n - 1], "prefixed"@) {
                assert(is_named(attrs[n - 1], "prefixed"@));
            }
        }
    }
}

/// A command has its bare name exactly where an attribute says so.
pub proof fn law_the_switch_unprefixed_is_heeded(attrs: Seq<Attr>, n: nat)
    requires
        n <= attrs.len() <= usize::MAX,
    ensures
        attrs_taken(attrs, n) matches Ok(v) ==> (v.unprefixed <==> exists|i: int|
            0 <= i < n && is_named(#[trigger] attrs[i], "unprefixed"@)),
    decreases n,
{
    lemma_attribute_names();
    if n > 0 {
        law_the_switch_unprefixed_is_heeded(attrs, (n - 1) as nat);
        if let Ok(b) = attrs_taken(attrs, (n - 1) as nat) {
            if b.unprefixed {
                let i = choose|i: int| 0 <= i < n - 1 && is_named(#[trigger] attrs[i], "unprefixed"@);
                assert(is_named(attrs[i], "unprefixed"@));
            }
            if is_named(attrs[n - 1], "unprefixed"@) {
                assert(is_named(attrs[n - 1], "unprefixed"@));
            }
        }
    }
}

/// A blank line follows a command exactly where an attribute says so.
pub proof fn law_the_switch_trailing_newline_is_heeded(attrs: Seq<Attr>, n: nat)
    requires
        n <= attrs.len() <= usize::MAX,
    ensures
        attrs_taken(attrs, n) matches Ok(v) ==> (v.trailing_newline <==> exists|i: int|
            0 <= i < n && is_named(#[trigger] attrs[i], "trailing_newline"@)),
    decreases n,
{
    lemma_attribute_names();
    if n > 0 {
        law_the_switch_trailing_newline_is_heeded(attrs, (n - 1) as nat);
        if let Ok(b) = attrs_taken(attrs, (n - 1) as nat) {
            if b.trailing_newline {
                let i = choose|i: int| 0 <= i < n - 1 && is_named(#[trigger] attrs[i], "trailing_newline"@);
                assert(is_named(attrs[i], "trailing_newline"@));
            }
            if is_named(attrs[n - 1], "trailing_newline"@) {
                assert(is_named(attrs[n - 1], "trailing_newline"@));
            }
        }
    }
}

/// The exact name of a command is the last that is given; without one there is none.
pub proof fn law_the_last_name_counts(attrs: Seq<Attr>, n: nat)
    requires
        n <= attrs.len() <= usize::MAX,
    ensures
        attrs_taken(attrs, n) matches Ok(v) ==> {
            &&& forall|k: int|
                0 <= k < n && is_named(#[trigger] attrs[k], "name"@) && (forall|later: int|
                    k < later < n ==> !is_named(#[trigger] attrs[later], "name"@)) ==> v.name
                    == literal_of(attrs[k])
            &&& (forall|k: int| 0 <= k < n ==> !is_named(#[trigger] attrs[k], "name"@))
                ==> v.name is None
        },
    decreases n,
{
    lemma_attribute_names();
    if n > 0 {
        law_the_last_name_counts(attrs, (n - 1) as nat);
    }
}

/// The shell behind a command is the last that is given; without one there is none.
pub proof fn law_the_last_after_counts(attrs: Seq<Attr>, n: nat)
    requires
        n <= attrs.len() <= usize::MAX,
    ensures
        attrs_taken(attrs, n) matches Ok(v) ==> {
            &&& forall|k: int|
                0 <= k < n && is_named(#[trigger] attrs[k], "after"@) && (forall|later: int|
                    k < later < n ==> !is_named(#[trigger] attrs[later], "after"@)) ==> v.after
                    == literal_of(attrs[k])
            &&& (forall|k: int| 0 <= k < n ==> !is_named(#[trigger] attrs[k], "after"@))
                ==> v.after is None
        },
    decreases n,
{
    lemma_attribute_names();
    if n > 0 {
        law_the_last_after_counts(attrs, (n - 1) as nat);
    }
}

/// The command that is piped in is the last that is given; without one there is none.
pub proof fn law_the_last_piped_counts(attrs: Seq<Attr>, n: nat)
    requires
        n <= attrs.len() <= usize::MAX,
    ensures
        attrs_taken(attrs, n) matches Ok(v) ==> {
            &&& forall|k: int|
                0 <= k < n && is_named(#[trigger] attrs[k], "piped"@) && (forall|later: int|
                    k < later < n ==> !is_named(#[trigger] attrs[later], "piped"@)) ==> v.piped
                    == literal_of(attrs[k])
            &&& (forall|k: int| 0 <= k < n ==> !is_named(#[trigger] attrs[k], "piped"@))
                ==> v.piped is None
        },
    decreases n,
{
    lemma_attribute_names();
    if n > 0 {
        law_the_last_piped_counts(attrs, (n - 1) as nat);
    }
}

proof fn lemma_attribute_names()
    ensures
        "doc"@ != "name"@,
        "doc"@ != "after"@,
        "doc"@ != "piped"@,
        "doc"@ != "alias"@,
        "doc"@ != "prefixed"@,
        "doc"@ != "unprefixed"@,
        "doc"@ != "trailing_newline"@,
        "prefixed"@ != "unprefixed"@,
        "prefixed"@ != "name"@,
        "prefixed"@ != "after"@,
        "prefixed"@ != "piped"@,
        "prefixed"@ != "alias"@,
        "prefixed"@ != "trailing_newline"@,
        "unprefixed"@ != "name"@,
        "unprefixed"@ != "after"@,
        "unprefixed"@ != "piped"@,
        "unprefixed"@ != "alias"@,
        "unprefixed"@ != "trailing_newline"@,
        "name"@ != "after"@,
        "name"@ != "piped"@,
        "name"@ != "alias"@,
        "name"@ != "trailing_newline"@,
        "after"@ != "piped"@,
        "after"@ != "alias"@,
        "after"@ != "trailing_newline"@,
        "piped"@ != "alias"@,
        "piped"@ != "trailing_newline"@,
        "alias"@ != "trailing_newline"@,
{
    reveal_strlit("doc");
    reveal_strlit("name");
    reveal_strlit("after");
    reveal_strlit("piped");
    reveal_strlit("alias");
    reveal_strlit("prefixed");
    reveal_strlit("unprefixed");
    reveal_strlit("trailing_newline");
    assert("doc"@.len() == 3);
    assert("name"@.len() == 4);
    assert("after"@.len() == 5);
    assert("piped"@.len() == 5);
    assert("alias"@.len() == 5);
    assert("prefixed"@.len() == 8);
    assert("unprefixed"@.len() == 10);
    assert("trailing_newline"@.len() == 16);
    assert("after"@[1] != "alias"@[1]);
    assert("after"@[0] != "piped"@[0]);
    assert("alias"@[0] != "piped"@[0]);
}

proof fn lemma_first_bad_attr(attrs: Seq<Attr>, n: nat, m: nat)
    requires
        n <= m <= attrs.len(),
    ensures
        attrs_taken(attrs, n) is Err ==> attrs_taken(attrs, m) == attrs_taken(attrs, n),
    decreases m,
{
    if n < m {
        lemma_first_bad_attr(attrs, n, (m - 1) as nat);
    }
}

/// Whether an attribute has this name.
fn named(a: &Attr, word: &str) -> (r: bool)
    ensures
        r == is_named(*a, word@),
{
    match &a.path {
        Some(path) => same_text(path.as_str(), word),
        None => false,
    }
}

impl CommandAttrs {
    /// Nothing said.
    pub fn new() -> (r: CommandAttrs)
        ensures
            r@ == no_attrs(),
    {
        let r = CommandAttrs {
            docs: Vec::new(),
            kept: Vec::new(),
            prefixed: false,
            unprefixed: false,
            after: None,
            piped: None,
            name: None,
            aliases: Vec::new(),
            trailing_newline: false,
        };
        assert(r.aliases.deep_view() =~= seq![]);
        r
    }

    /// One more attribute, given its literal where it holds one; `false` where it wants one and
    /// holds none.
    pub fn add(&mut self, a: &Attr, at: usize, literal: Option<String>) -> (r: bool)
        ensures
            match attr_added(old(self)@, *a, at, literal.deep_view()) {
                Some(next) => r && final(self)@ == next,
                None => !r && final(self)@ == old(self)@,
            },
    {
        if named(a, "doc") {
            self.docs.push(at);
            self.kept.push(at);
            return true;
        }
        if named(a, "prefixed") {
            self.prefixed = true;
            return true;
        }
        if named(a, "unprefixed") {
            self.unprefixed = true;
            return true;
        }
        if named(a, "after") || named(a, "piped") || named(a, "name") || named(a, "alias") {
            match literal {
                None => return false,
                Some(text) => {
                    if named(a, "after") {
                        self.after = Some(text);
                    } else if named(a, "piped") {
                        self.piped = Some(text);
                    } else if named(a, "name") {
                        self.name = Some(text);
                    } else {
                        let ghost before = self.aliases.deep_view();
                        let ghost added = text@;
                        self.aliases.push(text);
                        assert(self.aliases.deep_view() =~= before.push(added));
                    }
                    return true;
                },
            }
        }
        if named(a, "trailing_newline") {
            self.trailing_newline = true;
        } else {
            self.kept.push(at);
        }
        true
    }
}

/// Read a command function's attributes. The helper attributes are consumed; everything else
/// stays on the function. An attribute that lacks its literal is refused by its position.
pub fn take_command_attrs(attrs: &Vec<Attr>) -> (r: Result<CommandAttrs, usize>)
    ensures
        match r {
            Ok(taken) => attrs_taken(attrs@, attrs@.len()) == Ok::<AttrsView, usize>(taken@),
            Err(at) => attrs_taken(attrs@, attrs@.len()) == Err::<AttrsView, usize>(at),
        },
{
    let mut parsed: CommandAttrs = CommandAttrs::new();
    let mut i: usize = 0;
    while i < attrs.len()
        invariant
            i <= attrs.len(),
            attrs_taken(attrs@, i as nat) == Ok::<AttrsView, usize>(parsed@),
        decreases attrs.len() - i,
    {
        let literal: Option<String> = match &attrs[i].args {
            Some(tokens) => literal_text(tokens.as_str()),
            None => None,
        };
        proof {
            lemma_first_bad_attr(attrs@, (i + 1) as nat, attrs@.len());
        }
        if !parsed.add(&attrs[i], i, literal) {
            return Err(i);
        }
        i += 1;
    }
    Ok(parsed)
}

// --- the commands of a module ---------------------------------------------------------------

/// A parameter of a function.
pub enum Param {
    Receiver,
    /// The type, as it is written.
    Typed(String),
}

/// A function of the module.
pub struct Function {
    pub name: String,
    pub params: Vec<Param>,
    pub attrs: Vec<Attr>,
}

/// An item of the module.
pub enum ModuleItem {
    Function(Function),
    Other,
}

/// A command: which item it is, and what is generated for it.
pub struct Command {
    pub item: usize,
    pub variant: String,
    pub arg_type: String,
    pub name: String,
    pub aliases: Vec<String>,
    pub docs: Vec<usize>,
    pub kept: Vec<usize>,
    pub trailing_newline: bool,
}

/// What is generated for a command.
pub struct CommandView {
    pub item: usize,
    pub variant: Seq<char>,
    pub arg_type: Seq<char>,
    pub name: Seq<char>,
    pub aliases: Seq<Seq<char>>,
    pub docs: Seq<usize>,
    pub kept: Seq<usize>,
    pub trailing_newline: bool,
}

impl View for Command {
    type V = CommandView;

    open spec fn view(&self) -> CommandView {
        CommandView {
            item: self.item,
            variant: self.variant@,
            arg_type: self.arg_type@,
            name: self.name@,
            aliases: self.aliases.deep_view(),
            docs: self.docs@,
            kept: self.kept@,
            trailing_newline: self.trailing_newline,
        }
    }
}

impl DeepView for Command {
    type V = CommandView;

    open spec fn deep_view(&self) -> CommandView {
        self@
    }
}

/// A command's name and the shell that belongs to it.
pub struct Wrapping {
    pub name: String,
    pub shell: String,
}

impl View for Wrapping {
    type V = (Seq<char>, Seq<char>);

    open spec fn view(&self) -> (Seq<char>, Seq<char>) {
        (self.name@, self.shell@)
    }
}

impl DeepView for Wrapping {
    type V = (Seq<char>, Seq<char>);

    open spec fn deep_view(&self) -> (Seq<char>, Seq<char>) {
        self@
    }
}

/// What a module comes to: its commands, and the shell round their wrappers.
pub struct Expansion {
    pub commands: Vec<Command>,
    pub suffixes: Vec<Wrapping>,
    pub prefixes: Vec<Wrapping>,
}

/// What a module comes to.
pub struct ExpansionView {
    pub commands: Seq<CommandView>,
    pub suffixes: Seq<(Seq<char>, Seq<char>)>,
    pub prefixes: Seq<(Seq<char>, Seq<char>)>,
}

impl View for Expansion {
    type V = ExpansionView;

    open spec fn view(&self) -> ExpansionView {
        ExpansionView {
            commands: self.commands.deep_view(),
            suffixes: self.suffixes.deep_view(),
            prefixes: self.prefixes.deep_view(),
        }
    }
}

/// Why a module is refused: the item at fault, and the attribute where it is one.
#[derive(Clone, Copy, Debug, PartialEq, Eq, Structural)]
pub enum ExpandError {
    NotInline,
    TakesSelf(usize),
    NotOneArgument(usize),
    NoLiteral(usize, usize),
}

/// The type of a command function's only parameter, or what is wrong with its parameters.
pub open spec fn arg_type_of(f: Function, item: usize) -> Result<Seq<char>, ExpandError> {
    if f.params@.len() > 0 && f.params@[0] is Receiver {
        Err(ExpandError::TakesSelf(item))
    } else if f.params@.len() == 1 {
        Ok((f.params@[0]->Typed_0)@)
    } else {
        Err(ExpandError::NotOneArgument(item))
    }
}

/// The name of a command: the exact one where it is given; else with the prefix, unless only the
/// bare name is asked for.
pub open spec fn command_name(prefix: Seq<char>, fn_name: Seq<char>, attrs: AttrsView) -> Seq<char> {
    match attrs.name {
        Some(name) => name,
        None => if attrs.prefixed || !attrs.unprefixed {
            prefix + fn_name
        } else {
            fn_name
        },
    }
}

/// The other names of a command: the bare one first where both are asked for.
pub open spec fn command_aliases(fn_name: Seq<char>, attrs: AttrsView) -> Seq<Seq<char>> {
    if attrs.name is None && attrs.prefixed && attrs.unprefixed {
        seq![fn_name] + attrs.aliases
    } else {
        attrs.aliases
    }
}

/// Whether a function is a helper, which is left alone.
pub open spec fn is_helper(fn_name: Seq<char>) -> bool {
    fn_name.len() > 0 && fn_name[0] == '_'
}

/// What a command function comes to.
pub open spec fn command_of(
    prefix: Seq<char>,
    f: Function,
    item: usize,
    arg_type: Seq<char>,
    attrs: AttrsView,
) -> CommandView {
    CommandView {
        item,
        variant: pascal(f.name@),
        arg_type,
        name: command_name(prefix, f.name@, attrs),
        aliases: command_aliases(f.name@, attrs),
        docs: attrs.docs,
        kept: attrs.kept,
        trailing_newline: attrs.trailing_newline,
    }
}

/// A list, longer by a pair where there is something to add.
pub open spec fn with_wrapping(
    list: Seq<(Seq<char>, Seq<char>)>,
    name: Seq<char>,
    shell: Option<Seq<char>>,
) -> Seq<(Seq<char>, Seq<char>)> {
    match shell {
        Some(text) => list.push((name, text)),
        None => list,
    }
}

/// What a module comes to with one more command function.
pub open spec fn function_added(
    v: ExpansionView,
    prefix: Seq<char>,
    f: Function,
    item: usize,
) -> Result<ExpansionView, ExpandError> {
    match arg_type_of(f, item) {
        Err(e) => Err(e),
        Ok(arg_type) => match attrs_taken(f.attrs@, f.attrs@.len()) {
            Err(at) => Err(ExpandError::NoLiteral(item, at)),
            Ok(attrs) => {
                let name = command_name(prefix, f.name@, attrs);
                Ok(
                    ExpansionView {
                        commands: v.commands.push(command_of(prefix, f, item, arg_type, attrs)),
                        suffixes: with_wrapping(v.suffixes, name, attrs.after),
                        prefixes: with_wrapping(v.prefixes, name, attrs.piped),
                    },
                )
            },
        },
    }
}

/// What the first `n` items come to, or the first fault.
pub open spec fn expansion(prefix: Seq<char>, items: Seq<ModuleItem>, n: nat) -> Result<
    ExpansionView,
    ExpandError,
>
    decreases n,
{
    if n == 0 {
        Ok(ExpansionView { commands: seq![], suffixes: seq![], prefixes: seq![] })
    } else {
        match expansion(prefix, items, (n - 1) as nat) {
            Err(e) => Err(e),
            Ok(v) => match items[n - 1] {
                ModuleItem::Other => Ok(v),
                ModuleItem::Function(f) => if is_helper(f.name@) {
                    Ok(v)
                } else {
                    function_added(v, prefix, f, (n - 1) as usize)
                },
            },
        }
    }
}

/// A module is expanded unless a function of it that is no helper is at fault. Then each command
/// has the names, the type and the attributes of its own function, and the shell round the wrappers
/// is that of every command that has some, in order.
pub proof fn law_every_command_is_that_of_its_function(
    prefix: Seq<char>,
    items: Seq<ModuleItem>,
    n: nat,
)
    requires
        n <= items.len() <= usize::MAX,
    ensures
        expansion(prefix, items, n) is Ok <==> forall|i: int|
            0 <= i < n ==> ((#[trigger] items[i]) matches ModuleItem::Function(f) ==> is_helper(f.name@)
                || (arg_type_of(f, i as usize) is Ok && attrs_taken(f.attrs@, f.attrs@.len()) is Ok)),
        expansion(prefix, items, n) matches Ok(v) ==> {
            &&& v.commands == Seq::new(
                n,
                |i: int|
                    if items[i] is Function && !is_helper(items[i]->Function_0.name@) {
                        let f = items[i]->Function_0;
                        let attrs = attrs_taken(f.attrs@, f.attrs@.len())->Ok_0;
                        seq![
                            CommandView {
                                item: i as usize,
                                variant: pascal(f.name@),
                                arg_type: arg_type_of(f, i as usize)->Ok_0,
                                name: command_name(prefix, f.name@, attrs),
                                aliases: command_aliases(f.name@, attrs),
                                docs: attrs.docs,
                                kept: attrs.kept,
                                trailing_newline: attrs.trailing_newline,
                            },
                        ]
                    } else {
                        seq![]
                    },
            ).flatten()
            &&& v.suffixes == Seq::new(
                n,
                |i: int|
                    if items[i] is Function && !is_helper(items[i]->Function_0.name@) {
                        let f = items[i]->Function_0;
                        let attrs = attrs_taken(f.attrs@, f.attrs@.len())->Ok_0;
                        match attrs.after {
                            Some(shell) => seq![(command_name(prefix, f.name@, attrs), shell)],
                            None => seq![],
                        }
                    } else {
                        seq![]
                    },
            ).flatten()
            &&& v.prefixes == Seq::new(
                n,
                |i: int|
                    if items[i] is Function && !is_helper(items[i]->Function_0.name@) {
                        let f = items[i]->Function_0;
                        let attrs = attrs_taken(f.attrs@, f.attrs@.len())->Ok_0;
                        match attrs.piped {
                            Some(shell) => seq![(command_name(prefix, f.name@, attrs), shell)],
                            None => seq![],
                        }
                    } else {
                        seq![]
                    },
            ).flatten()
        },
    decreases n,
{
    if n > 0 {
        law_every_command_is_that_of_its_function(prefix, items, (n - 1) as nat);
        lemma_parts_last(
            |i: int|
                if items[i] is Function && !is_helper(items[i]->Function_0.name@) {
                    let f = items[i]->Function_0;
                    let attrs = attrs_taken(f.attrs@, f.attrs@.len())->Ok_0;
                    seq![
                        CommandView {
                            item: i as usize,
                            variant: pascal(f.name@),
                            arg_type: arg_type_of(f, i as usize)->Ok_0,
                            name: command_name(prefix, f.name@, attrs),
                            aliases: command_aliases(f.name@, attrs),
                            docs: attrs.docs,
                            kept: attrs.kept,
                            trailing_newline: attrs.trailing_newline,
                        },
                    ]
                } else {
                    seq![]
                },
            n,
        );
        lemma_parts_last(
            |i: int|
                if items[i] is Function && !is_helper(items[i]->Function_0.name@) {
                    let f = items[i]->Function_0;
                    let attrs = attrs_taken(f.attrs@, f.attrs@.len())->Ok_0;
                    match attrs.after {
                        Some(shell) => seq![(command_name(prefix, f.name@, attrs), shell)],
                        None => seq![],
                    }
                } else {
                    seq![]
                },
            n,
        );
        lemma_parts_last(
            |i: int|
                if items[i] is Function && !is_helper(items[i]->Function_0.name@) {
                    let f = items[i]->Function_0;
                    let attrs = attrs_taken(f.attrs@, f.attrs@.len())->Ok_0;
                    match attrs.piped {
                        Some(shell) => seq![(command_name(prefix, f.name@, attrs), shell)],
                        None => seq![],
                    }
                } else {
                    seq![]
                },
            n,
        );
        if let Ok(b) = expansion(prefix, items, (n - 1) as nat) {
            assert(b.commands + seq![] =~= b.commands);
            assert(b.suffixes + seq![] =~= b.suffixes);
            assert(b.prefixes + seq![] =~= b.prefixes);
            if let Ok(v) = expansion(prefix, items, n) {
                if v.commands.len() > b.commands.len() {
                    assert(v.commands =~= b.commands + seq![v.commands.last()]);
                }
                if v.suffixes.len() > b.suffixes.len() {
                    assert(v.suffixes =~= b.suffixes + seq![v.suffixes.last()]);
                }
                if v.prefixes.len() > b.prefixes.len() {
                    assert(v.prefixes =~= b.prefixes + seq![v.prefixes.last()]);
                }
            }
        }
    }
}

proof fn lemma_first_fault(prefix: Seq<char>, items: Seq<ModuleItem>, n: nat, m: nat)
    requires
        n <= m <= items.len(),
    ensures
        expansion(prefix, items, n) is Err ==> expansion(prefix, items, m) == expansion(
            prefix,
            items,
            n,
        ),
    decreases m,
{
    if n < m {
        lemma_first_fault(prefix, items, n, (m - 1) as nat);
    }
}

/// The type of a command function's only parameter.
pub fn command_arg_type(f: &Function, item: usize) -> (r: Result<String, ExpandError>)
    ensures
        match r {
            Ok(text) => arg_type_of(*f, item) == Ok::<Seq<char>, ExpandError>(text@),
            Err(e) => arg_type_of(*f, item) == Err::<Seq<char>, ExpandError>(e),
        },
{
    if f.params.len() == 0 {
        return Err(ExpandError::NotOneArgument(item));
    }
    match &f.params[0] {
        Param::Receiver => Err(ExpandError::TakesSelf(item)),
        Param::Typed(text) => if f.params.len() == 1 {
            Ok(text.clone())
        } else {
            Err(ExpandError::NotOneArgument(item))
        },
    }
}

/// The name of a command.
pub fn name_of_command(prefix: &str, fn_name: &str, attrs: &CommandAttrs) -> (r: String)
    ensures
        r@ == command_name(prefix@, fn_name@, attrs@),
{
    match &attrs.name {
        Some(name) => name.clone(),
        None => if attrs.prefixed || !attrs.unprefixed {
            let mut out: String = prefix.to_owned();
            out.append(fn_name);
            out
        } else {
            fn_name.to_owned()
        },
    }
}

/// The other names of a command.
pub fn aliases_of_command(fn_name: &str, attrs: &CommandAttrs) -> (r: Vec<String>)
    ensures
        r.deep_view() == command_aliases(fn_name@, attrs@),
{
    if attrs.name.is_none() && attrs.prefixed && attrs.unprefixed {
        let mut out: Vec<String> = Vec::new();
        assert(out.deep_view() =~= seq![]);
        push_text(&mut out, fn_name);
        let mut i: usize = 0;
        assert(out.deep_view() =~= seq![fn_name@] + attrs.aliases.deep_view().take(0));
        while i < attrs.aliases.len()
            invariant
                i <= attrs.aliases.len(),
                out.deep_view() == seq![fn_name@] + attrs.aliases.deep_view().take(i as int),
            decreases attrs.aliases.len() - i,
        {
            push_text(&mut out, attrs.aliases[i].as_str());
            i += 1;
            assert(out.deep_view() =~= seq![fn_name@] + attrs.aliases.deep_view().take(i as int));
        }
        assert(attrs.aliases.deep_view().take(i as int) =~= attrs.aliases.deep_view());
        out
    } else {
        copy_texts(&attrs.aliases)
    }
}

/// A list, longer by a pair where there is something to add.
fn add_wrapping(list: &mut Vec<Wrapping>, name: &str, shell: &Option<String>)
    ensures
        final(list).deep_view() == with_wrapping(
            old(list).deep_view(),
            name@,
            shell.deep_view(),
        ),
{
    if let Some(text) = shell {
        let ghost before = list.deep_view();
        list.push(Wrapping { name: name.to_owned(), shell: text.clone() });
        assert(list.deep_view() =~= before.push((name@, text@)));
    }
}

/// Turn a module of plain functions into commands: every function whose name does not begin with
/// an underscore becomes one.
pub fn expand(prefix: &str, items: &Option<Vec<ModuleItem>>) -> (r: Result<Expansion, ExpandError>)
    ensures
        match *items {
            None => r == Err::<Expansion, ExpandError>(ExpandError::NotInline),
            Some(list) => match r {
                Ok(e) => expansion(prefix@, list@, list@.len()) == Ok::<
                    ExpansionView,
                    ExpandError,
                >(e@),
                Err(e) => expansion(prefix@, list@, list@.len()) == Err::<
                    ExpansionView,
                    ExpandError,
                >(e),
            },
        },
{
    let list: &Vec<ModuleItem> = match items {
        None => return Err(ExpandError::NotInline),
        Some(list) => list,
    };
    let mut commands: Vec<Command> = Vec::new();
    let mut suffixes: Vec<Wrapping> = Vec::new();
    let mut prefixes: Vec<Wrapping> = Vec::new();
    assert(commands.deep_view() =~= seq![]);
    assert(suffixes.deep_view() =~= seq![]);
    assert(prefixes.deep_view() =~= seq![]);
    let mut i: usize = 0;
    while i < list.len()
        invariant
            i <= list.len(),
            *items == Some(*list),
            expansion(prefix@, list@, i as nat) == Ok::<ExpansionView, ExpandError>(
                ExpansionView {
                    commands: commands.deep_view(),
                    suffixes: suffixes.deep_view(),
                    prefixes: prefixes.deep_view(),
                },
            ),
        decreases list.len() - i,
    {
        proof {
            lemma_first_fault(prefix@, list@, (i + 1) as nat, list@.len());
        }
        if let ModuleItem::Function(f) = &list[i] {
            let cs: Vec<char> = chars_of(f.name.as_str());
            if !(cs.len() > 0 && cs[0] == '_') {
                let arg_type: String = match command_arg_type(f, i) {
                    Ok(text) => text,
                    Err(e) => return Err(e),
                };
                let attrs: CommandAttrs = match take_command_attrs(&f.attrs) {
                    Ok(attrs) => attrs,
                    Err(at) => return Err(ExpandError::NoLiteral(i, at)),
                };
                let name: String = name_of_command(prefix, f.name.as_str(), &attrs);
                let aliases: Vec<String> = aliases_of_command(f.name.as_str(), &attrs);
                add_wrapping(&mut suffixes, name.as_str(), &attrs.after);
                add_wrapping(&mut prefixes, name.as_str(), &attrs.piped);
                let ghost before = commands.deep_view();
                let ghost said = attrs@;
                let ghost typed = arg_type@;
                commands.push(
                    Command {
                        item: i,
                        variant: to_pascal_case(f.name.as_str()),
                        arg_type,
                        name,
                        aliases,
                        docs: attrs.docs,
                        kept: attrs.kept,
                        trailing_newline: attrs.trailing_newline,
                    },
                );
                assert(commands.deep_view() =~= before.push(
                    command_of(prefix@, *f, i, typed, said),
                ));
            }
        }
        i += 1;
    }
    Ok(Expansion { commands, suffixes, prefixes })
}

/// Why a module of commands is refused: for its arguments, or for what it holds.
#[derive(Clone, Copy, Debug, PartialEq, Eq, Structural)]
pub enum CategoryError {
    Args(ArgsError),
    Module(ExpandError),
}

/// A category: the name of its command type, and what its module comes to.
pub struct Category {
    pub command: String,
    pub expansion: Expansion,
}

/// Turn a module of plain functions into a category of commands.
pub fn category(pairs: &Vec<Pair>, items: &Option<Vec<ModuleItem>>) -> (r: Result<
    Category,
    CategoryError,
>)
    ensures
        match args_read(pairs@) {
            Err(e) => r == Err::<Category, CategoryError>(CategoryError::Args(e)),
            Ok((command, prefix)) => match *items {
                None => r == Err::<Category, CategoryError>(
                    CategoryError::Module(ExpandError::NotInline),
                ),
                Some(list) => match expansion(prefix, list@, list@.len()) {
                    Err(e) => r == Err::<Category, CategoryError>(CategoryError::Module(e)),
                    Ok(v) => r matches Ok(c) && c.command@ == command && c.expansion@ == v,
                },
            },
        },
{
    match CategoryArgs::parse(pairs) {
        Err(e) => Err(CategoryError::Args(e)),
        Ok(args) => match expand(args.prefix.as_str(), items) {
            Err(e) => Err(CategoryError::Module(e)),
            Ok(expansion) => Ok(Category { command: args.command, expansion }),
        },
    }
}

impl ExpandError {
    /// The message of the error, for the function that it is about.
    pub open spec fn text(self, fn_name: Seq<char>) -> Seq<char> {
        match self {
            ExpandError::NotInline => "#[category] must be applied to an inline module with a body"@,
            ExpandError::TakesSelf(_) => "a command function cannot take `self`"@,
            ExpandError::NotOneArgument(_) => "command `"@ + fn_name
                + "` must take exactly one argument: its `#[derive(Args)]` struct"@,
            ExpandError::NoLiteral(_, _) => "expected string literal"@,
        }
    }

    /// The message of the error, for the function that it is about.
    pub fn message(&self, fn_name: &str) -> (r: String)
        ensures
            r@ == self.text(fn_name@),
    {
        match self {
            ExpandError::NotInline =>
                "#[category] must be applied to an inline module with a body".to_owned(),
            ExpandError::TakesSelf(_) => "a command function cannot take `self`".to_owned(),
            ExpandError::NotOneArgument(_) => {
                let mut out: String = "command `".to_owned();
                out.append(fn_name);
                out.append("` must take exactly one argument: its `#[derive(Args)]` struct");
                out
            },
            ExpandError::NoLiteral(_, _) => "expected string literal".to_owned(),
        }
    }
}

// --- the generated lookups ------------------------------------------------------------------

/// The position of the first pair of that name, from `k` on.
pub open spec fn wrapping_from(list: Seq<(Seq<char>, Seq<char>)>, name: Seq<char>, k: int) -> Option<
    int,
>
    decreases list.len() - k,
{
    if k >= list.len() {
        None
    } else if list[k].0 == name {
        Some(k)
    } else {
        wrapping_from(list, name, k + 1)
    }
}

/// The first shell of a name is found, and none only where the name has none.
pub proof fn law_the_shell_of_a_name_is_found(
    list: Seq<(Seq<char>, Seq<char>)>,
    name: Seq<char>,
    k: int,
)
    requires
        0 <= k <= list.len(),
    ensures
        match wrapping_from(list, name, k) {
            Some(found) => k <= found < list.len() && list[found].0 == name && forall|i: int|
                k <= i < found ==> (#[trigger] list[i]).0 != name,
            None => forall|i: int| k <= i < list.len() ==> (#[trigger] list[i]).0 != name,
        },
    decreases list.len() - k,
{
    if k < list.len() && list[k].0 != name {
        law_the_shell_of_a_name_is_found(list, name, k + 1);
    }
}

/// What a lookup of a command's shell by its name gives: the first pair of that name wins, and
/// there is nothing for any other name.
pub fn lookup_fn(list: &Vec<Wrapping>, name: &str) -> (r: Option<String>)
    ensures
        r.deep_view() == (match wrapping_from(list.deep_view(), name@, 0) {
            Some(k) => Some(list.deep_view()[k].1),
            None => None,
        }),
{
    let mut k: usize = 0;
    while k < list.len()
        invariant
            k <= list.len(),
            wrapping_from(list.deep_view(), name@, 0) == wrapping_from(
                list.deep_view(),
                name@,
                k as int,
            ),
        decreases list.len() - k,
    {
        assert(list.deep_view()[k as int] == list@[k as int]@);
        if same_text(list[k].name.as_str(), name) {
            return Some(list[k].shell.clone());
        }
        k += 1;
    }
    assert(list.deep_view().len() == list@.len());
    None
}

// --- what holds of every module -------------------------------------------------------------

/// The positions of the functions among the first `n` items that are no helpers.
pub open spec fn command_items(items: Seq<ModuleItem>, n: nat) -> Seq<usize>
    decreases n,
{
    if n == 0 {
        seq![]
    } else {
        match items[n - 1] {
            ModuleItem::Function(f) => if is_helper(f.name@) {
                command_items(items, (n - 1) as nat)
            } else {
                command_items(items, (n - 1) as nat).push((n - 1) as usize)
            },
            ModuleItem::Other => command_items(items, (n - 1) as nat),
        }
    }
}

/// The items that are commands are the functions that are no helpers, in order.
pub proof fn law_every_function_is_an_item(items: Seq<ModuleItem>, n: nat)
    requires
        n <= items.len() <= usize::MAX,
    ensures
        command_items(items, n) == Seq::new(
            n,
            |i: int|
                if items[i] is Function && !(items[i]->Function_0.name@.len() > 0
                    && items[i]->Function_0.name@[0] == '_') {
                    seq![i as usize]
                } else {
                    seq![]
                },
        ).flatten(),
    decreases n,
{
    if n > 0 {
        law_every_function_is_an_item(items, (n - 1) as nat);
        lemma_parts_last(
            |i: int|
                if items[i] is Function && !(items[i]->Function_0.name@.len() > 0
                    && items[i]->Function_0.name@[0] == '_') {
                    seq![i as usize]
                } else {
                    seq![]
                },
            n,
        );
        let before = command_items(items, (n - 1) as nat);
        assert(before + seq![(n - 1) as usize] =~= before.push((n - 1) as usize));
        assert(before + seq![] =~= before);
    }
}

/// Every function whose name does not begin with an underscore becomes one command, in order,
/// and nothing else does.
pub proof fn law_every_plain_function_is_one_command(
    prefix: Seq<char>,
    items: Seq<ModuleItem>,
    n: nat,
)
    requires
        n <= items.len(),
    ensures
        expansion(prefix, items, n) matches Ok(v) ==> v.commands.map_values(
            |c: CommandView| c.item,
        ) == command_items(items, n),
    decreases n,
{
    if n > 0 {
        law_every_plain_function_is_one_command(prefix, items, (n - 1) as nat);
        if let Ok(v) = expansion(prefix, items, n) {
            let before = expansion(prefix, items, (n - 1) as nat)->Ok_0;
            let item_of = |c: CommandView| c.item;
            assert(v.commands.map_values(item_of) =~= command_items(items, n));
        }
    } else {
        assert(Seq::<CommandView>::empty().map_values(|c: CommandView| c.item) =~= seq![]);
    }
}

/// With both `prefixed` and `unprefixed` a command goes by both names; with `unprefixed` alone
/// by its bare name only; with neither by the prefixed one only; and an exact name overrides
/// them all.
pub proof fn law_the_names_of_a_command(prefix: Seq<char>, fn_name: Seq<char>, attrs: AttrsView)
    ensures
        ({
            let names = seq![command_name(prefix, fn_name, attrs)] + command_aliases(
                fn_name,
                attrs,
            );
            &&& attrs.name matches Some(exact) ==> names == seq![exact] + attrs.aliases
            &&& attrs.name is None && attrs.prefixed && attrs.unprefixed ==> names == seq![
                prefix + fn_name,
                fn_name,
            ] + attrs.aliases
            &&& attrs.name is None && !attrs.prefixed && attrs.unprefixed ==> names == seq![fn_name]
                + attrs.aliases
            &&& attrs.name is None && !attrs.unprefixed ==> names == seq![prefix + fn_name]
                + attrs.aliases
        }),
{
    let names = seq![command_name(prefix, fn_name, attrs)] + command_aliases(fn_name, attrs);
    if attrs.name is None && attrs.prefixed && attrs.unprefixed {
        assert(names =~= seq![prefix + fn_name, fn_name] + attrs.aliases);
    }
}

} // verus!
