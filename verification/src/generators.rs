//! The generators of the command families: they write the regions between markers in the files
//! that hold the families.

use vstd::prelude::*;
use vstd::slice::slice_subrange;
use vstd::string::*;
use crate::macros::{upper_char, upper_text};
use crate::text::{
    char_at, chars_of, decimal, find_chars, find_from, join, joined, lemma_find_from, occurs_at,
    push_decimal, push_text, same_text, string_of,
};
use crate::theme::{look_at, look_name, matrix_look, name_part_text, BasicLook};

verus! {

/// A text with its first character in upper case.
pub open spec fn capital(s: Seq<char>) -> Seq<char> {
    if s.len() == 0 {
        s
    } else {
        upper_text(s[0]) + s.drop_first()
    }
}

/// A text with its first character in upper case: the name of a variant.
pub fn cap(s: &str) -> (r: String)
    ensures
        r@ == capital(s@),
{
    let cs: Vec<char> = chars_of(s);
    if cs.len() == 0 {
        return s.to_owned();
    }
    let mut out: String = upper_char(char_at(cs.as_slice(), 0));
    let rest: &[char] = slice_subrange(cs.as_slice(), 1, cs.len());
    assert(rest@ =~= s@.drop_first());
    out.append(string_of(rest).as_str());
    out
}

/// What a particle adds to a name.
pub fn name_part(particle: &str) -> (r: &str)
    ensures
        r@ == name_part_text(particle@),
{
    if same_text(particle, "bo") {
        ""
    } else {
        particle
    }
}

/// What the name of a look's command begins with.
pub fn name_of_look(look: BasicLook) -> (r: String)
    ensures
        r@ == look_name(look),
{
    let mut stem: String = name_part(look.weight.particle()).to_owned();
    stem.append(name_part(look.underline.particle()));
    stem.append(name_part(look.colour.particle()));
    if stem.as_str().is_empty() {
        "bo".to_owned()
    } else {
        stem
    }
}

/// The names of a look's parts that its doc comment gives: those that are no default.
pub open spec fn look_words(look: BasicLook) -> Seq<Seq<char>> {
    seq![look.weight.name_text()] + (if look.underline.particle_text().len() > 0 {
        seq![look.underline.name_text()]
    } else {
        seq![]
    }) + (if look.colour.particle_text().len() > 0 {
        seq![look.colour.name_text()]
    } else {
        seq![]
    })
}

/// A look as it is written.
pub open spec fn look_code(look: BasicLook) -> Seq<char> {
    "BasicLook { weight: Weight::"@ + capital(look.weight.name_text()) + ", underline: Underline::"@
        + capital(look.underline.name_text()) + ", colour: Basic::"@ + capital(
        look.colour.name_text(),
    ) + " }"@
}

/// The command of a look as it is written.
pub open spec fn style_block(look: BasicLook) -> Seq<char> {
    "    /// echo in "@ + join(look_words(look), " "@)
        + "\n    #[unprefixed]\n    #[alias(\"echo"@ + look_name(look) + "\")]\n    pub fn "@
        + look_name(look) + "echo(args: EchoArgs) { _styled_echo("@ + look_code(look)
        + ", &args); }"@
}

/// The commands of all looks as they are written.
pub open spec fn style_blocks() -> Seq<Seq<char>> {
    Seq::new(36, |k: int| style_block(look_at(k)))
}

/// The command of a look as it is written.
pub fn write_style(look: BasicLook) -> (r: String)
    ensures
        r@ == style_block(look),
{
    let name: String = name_of_look(look);
    let mut words: Vec<String> = Vec::new();
    assert(words.deep_view() =~= seq![]);
    proof {
        reveal_strlit("bo");
        reveal_strlit("da");
    }
    push_text(&mut words, look.weight.name());
    if !look.underline.particle().is_empty() {
        push_text(&mut words, look.underline.name());
    }
    if !look.colour.particle().is_empty() {
        push_text(&mut words, look.colour.name());
    }
    assert(words.deep_view() =~= look_words(look));
    let mut code: String = "BasicLook { weight: Weight::".to_owned();
    code.append(cap(look.weight.name()).as_str());
    code.append(", underline: Underline::");
    code.append(cap(look.underline.name()).as_str());
    code.append(", colour: Basic::");
    code.append(cap(look.colour.name()).as_str());
    code.append(" }");
    let mut out: String = "    /// echo in ".to_owned();
    out.append(joined(&words, " ").as_str());
    out.append("\n    #[unprefixed]\n    #[alias(\"echo");
    out.append(name.as_str());
    out.append("\")]\n    pub fn ");
    out.append(name.as_str());
    out.append("echo(args: EchoArgs) { _styled_echo(");
    out.append(code.as_str());
    out.append(", &args); }");
    out
}

/// The region of the styled echoes: one command for each weight, underline and colour.
pub fn style_matrix() -> (r: String)
    ensures
        r@ == join(style_blocks(), "\n\n"@),
{
    let mut blocks: Vec<String> = Vec::new();
    let mut k: usize = 0;
    while k < 36
        invariant
            k <= 36,
            blocks@.len() == k,
            forall|j: int| 0 <= j < k ==> (#[trigger] blocks@[j])@ == style_block(look_at(j)),
        decreases 36 - k,
    {
        blocks.push(write_style(matrix_look(k)));
        k += 1;
    }
    assert(blocks.deep_view() =~= style_blocks());
    joined(&blocks, "\n\n")
}

/// A family of search commands.
pub struct SearchFamily {
    /// What every name begins with.
    pub stem: &'static str,
    /// The context sizes; 0 is the bare command.
    pub contexts: Vec<usize>,
    /// What the bare command is documented as.
    pub bare_desc: &'static str,
    /// What the others are documented as, around the number.
    pub ctx_before: &'static str,
    pub ctx_after: &'static str,
    /// The arguments of the bare command.
    pub args: &'static str,
    /// The arguments of the others.
    pub base_args: &'static str,
    /// What every command forwards to.
    pub runner: &'static str,
    /// More attributes.
    pub extra_attrs: &'static str,
}

/// The command of a family for a context size, as it is written.
pub open spec fn family_block(f: SearchFamily, context: nat) -> Seq<char> {
    let name = if context == 0 {
        f.stem@
    } else {
        f.stem@ + decimal(context)
    };
    let desc = if context == 0 {
        f.bare_desc@
    } else {
        f.ctx_before@ + decimal(context) + f.ctx_after@
    };
    let call = if context == 0 {
        f.runner@ + "(&args)"@
    } else {
        f.runner@ + "(&"@ + f.args@ + " { base: args, context: "@ + decimal(context) + " })"@
    };
    "    /// "@ + desc + "\n    #[unprefixed]\n"@ + f.extra_attrs@ + "    pub fn "@ + name
        + "(args: "@ + (if context == 0 {
        f.args@
    } else {
        f.base_args@
    }) + ") { "@ + call + "; }"@
}

/// The command of a family for a context size.
pub fn write_family(f: &SearchFamily, context: usize) -> (r: String)
    ensures
        r@ == family_block(*f, context as nat),
{
    let mut name: String = f.stem.to_owned();
    let mut desc: String = f.bare_desc.to_owned();
    let mut call: String = f.runner.to_owned();
    let mut args: &str = f.args;
    if context == 0 {
        call.append("(&args)");
    } else {
        push_decimal(&mut name, context as u128);
        desc = f.ctx_before.to_owned();
        push_decimal(&mut desc, context as u128);
        desc.append(f.ctx_after);
        call.append("(&");
        call.append(f.args);
        call.append(" { base: args, context: ");
        push_decimal(&mut call, context as u128);
        call.append(" })");
        args = f.base_args;
    }
    let mut out: String = "    /// ".to_owned();
    out.append(desc.as_str());
    out.append("\n    #[unprefixed]\n");
    out.append(f.extra_attrs);
    out.append("    pub fn ");
    out.append(name.as_str());
    out.append("(args: ");
    out.append(args);
    out.append(") { ");
    out.append(call.as_str());
    out.append("; }");
    out
}

/// The region of a family: one command for each context size.
pub fn family_matrix(f: &SearchFamily) -> (r: String)
    ensures
        r@ == join(
            f.contexts@.map_values(|context: usize| family_block(*f, context as nat)),
            "\n\n"@,
        ),
{
    let mut blocks: Vec<String> = Vec::new();
    let mut i: usize = 0;
    while i < f.contexts.len()
        invariant
            i <= f.contexts.len(),
            blocks@.len() == i,
            forall|j: int|
                0 <= j < i ==> (#[trigger] blocks@[j])@ == family_block(
                    *f,
                    f.contexts@[j] as nat,
                ),
        decreases f.contexts.len() - i,
    {
        blocks.push(write_family(f, f.contexts[i]));
        i += 1;
    }
    assert(blocks.deep_view() =~= f.contexts@.map_values(
        |context: usize| family_block(*f, context as nat),
    ));
    joined(&blocks, "\n\n")
}

// --- splicing -------------------------------------------------------------------------------

/// Why a region cannot be written: a marker is missing.
#[derive(Clone, Copy, Debug, PartialEq, Eq, Structural)]
pub enum SpliceError {
    NoStart,
    NoEnd,
}

/// The text with the region between the markers replaced; a blank line sets it off from the first
/// marker.
pub open spec fn spliced(
    current: Seq<char>,
    start_marker: Seq<char>,
    end_marker: Seq<char>,
    generated: Seq<char>,
) -> Result<Seq<char>, SpliceError> {
    match find_from(current, start_marker, 0) {
        None => Err(SpliceError::NoStart),
        Some(s) => match find_from(current, end_marker, 0) {
            None => Err(SpliceError::NoEnd),
            Some(e) => Ok(
                current.take(s + start_marker.len()) + "\n\n"@ + generated + "\n"@ + current.skip(
                    e,
                ),
            ),
        },
    }
}

/// The text with the region between the markers replaced.
pub fn splice(current: &str, start_marker: &str, end_marker: &str, generated: &str) -> (r: Result<
    String,
    SpliceError,
>)
    ensures
        match r {
            Ok(text) => spliced(current@, start_marker@, end_marker@, generated@) == Ok::<
                Seq<char>,
                SpliceError,
            >(text@),
            Err(e) => spliced(current@, start_marker@, end_marker@, generated@) == Err::<
                Seq<char>,
                SpliceError,
            >(e),
        },
{
    let cs: Vec<char> = chars_of(current);
    let first: Vec<char> = chars_of(start_marker);
    let last: Vec<char> = chars_of(end_marker);
    proof {
        lemma_find_from(current@, start_marker@, 0);
        lemma_find_from(current@, end_marker@, 0);
    }
    let start: usize = match find_chars(cs.as_slice(), first.as_slice(), 0) {
        Some(k) => {
            let total: usize = cs.len();
            assert(k + first@.len() <= total);
            k + first.len()
        },
        None => return Err(SpliceError::NoStart),
    };
    let end: usize = match find_chars(cs.as_slice(), last.as_slice(), 0) {
        Some(k) => k,
        None => return Err(SpliceError::NoEnd),
    };
    let head: &[char] = slice_subrange(cs.as_slice(), 0, start);
    let tail: &[char] = slice_subrange(cs.as_slice(), end, cs.len());
    assert(head@ =~= current@.take(start as int));
    assert(tail@ =~= current@.skip(end as int));
    let mut out: String = string_of(head);
    out.append("\n\n");
    out.append(generated);
    out.append("\n");
    out.append(string_of(tail).as_str());
    Ok(out)
}

/// Nothing outside the markers is touched: what stands up to the first marker and what stands from
/// the second one on is in the new text as it was.
pub proof fn law_only_the_region_is_rewritten(
    current: Seq<char>,
    start_marker: Seq<char>,
    end_marker: Seq<char>,
    generated: Seq<char>,
)
    requires
        spliced(current, start_marker, end_marker, generated) is Ok,
    ensures
        ({
            let s = find_from(current, start_marker, 0)->0 + start_marker.len();
            let e = find_from(current, end_marker, 0)->0;
            let text = spliced(current, start_marker, end_marker, generated)->Ok_0;
            &&& current.take(s).is_prefix_of(text)
            &&& current.skip(e).is_suffix_of(text)
        }),
{
    lemma_find_from(current, start_marker, 0);
    lemma_find_from(current, end_marker, 0);
    let s = find_from(current, start_marker, 0)->0 + start_marker.len();
    let e = find_from(current, end_marker, 0)->0;
    let text = spliced(current, start_marker, end_marker, generated)->Ok_0;
    assert(text.take(s) =~= current.take(s));
    assert(text.skip(text.len() - (current.len() - e)) =~= current.skip(e));
}

proof fn lemma_first_is(s: Seq<char>, needle: Seq<char>, k: int)
    requires
        0 <= k,
        occurs_at(s, needle, k),
        forall|j: int| 0 <= j < k ==> !occurs_at(s, needle, j),
    ensures
        find_from(s, needle, 0) == Some(k),
{
    lemma_find_from(s, needle, 0);
    match find_from(s, needle, 0) {
        Some(f) => {
            if f < k {
                assert(!occurs_at(s, needle, f));
            }
            if f > k {
                assert(!occurs_at(s, needle, k));
            }
        },
        None => {
            assert(!occurs_at(s, needle, k));
        },
    }
}

/// Writing the same region again changes nothing, where the region does not itself hold the second
/// marker before the place where it ends.
pub proof fn law_writing_again_changes_nothing(
    current: Seq<char>,
    start_marker: Seq<char>,
    end_marker: Seq<char>,
    generated: Seq<char>,
    text: Seq<char>,
)
    requires
        spliced(current, start_marker, end_marker, generated) == Ok::<Seq<char>, SpliceError>(text),
        forall|j: int|
            0 <= j < text.len() - (current.len() - find_from(current, end_marker, 0)->0)
                ==> !occurs_at(text, end_marker, j),
    ensures
        spliced(text, start_marker, end_marker, generated) == Ok::<Seq<char>, SpliceError>(text),
{
    lemma_find_from(current, start_marker, 0);
    lemma_find_from(current, end_marker, 0);
    let s = find_from(current, start_marker, 0)->0;
    let e = find_from(current, end_marker, 0)->0;
    let head = current.take(s + start_marker.len());
    let cut = text.len() - (current.len() - e);
    assert(text.take(s + start_marker.len()) =~= head);
    assert(text.len() == head.len() + "\n\n"@.len() + generated.len() + "\n"@.len() + (current.len() - e));
    assert forall|j: int| 0 <= j < s implies !occurs_at(text, start_marker, j) by {
        if occurs_at(text, start_marker, j) {
            assert(text.subrange(j, j + start_marker.len()) =~= head.subrange(
                j,
                j + start_marker.len(),
            ));
            assert(current.subrange(j, j + start_marker.len()) =~= head.subrange(
                j,
                j + start_marker.len(),
            ));
            assert(occurs_at(current, start_marker, j));
        }
    }
    assert(text.subrange(s, s + start_marker.len()) =~= head.subrange(s, s + start_marker.len()));
    assert(current.subrange(s, s + start_marker.len()) =~= head.subrange(
        s,
        s + start_marker.len(),
    ));
    lemma_first_is(text, start_marker, s);
    assert(text.skip(cut) =~= current.skip(e));
    let tail = current.skip(e);
    assert(text.subrange(cut, cut + end_marker.len()) =~= tail.subrange(0, end_marker.len() as int));
    assert(current.subrange(e, e + end_marker.len()) =~= tail.subrange(0, end_marker.len() as int));
    lemma_first_is(text, end_marker, cut);
    assert(text =~= text.take(s + start_marker.len()) + "\n\n"@ + generated + "\n"@ + text.skip(
        cut,
    ));
}

} // verus!
