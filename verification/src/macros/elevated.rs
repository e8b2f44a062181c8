//! A routine that re-runs itself as root: the parent writes each argument as a flag, and the
//! elevated child reads the flags back.

use vstd::prelude::*;
use vstd::string::*;
use super::{kebab, pascal, to_kebab_case, to_pascal_case};
use crate::sequences::{lemma_flat_map_last, lemma_parts_last};
use crate::text::{push_text, same_text};

verus! {

/// The type inside the angle brackets of another.
pub struct ElementType {
    /// The last identifier of its path, where it is a path.
    pub ident: Option<String>,
    /// The type, as it is written.
    pub text: String,
}

/// The type of a parameter.
pub struct ParamType {
    /// The last identifier of its path, where it is a path.
    pub ident: Option<String>,
    /// The type, as it is written.
    pub text: String,
    /// Its first argument in angle brackets, where that is a type.
    pub element: Option<ElementType>,
}

/// A parameter of the routine.
pub enum Input {
    Receiver,
    /// A parameter that is no plain identifier.
    Pattern,
    Named(String, ParamType),
}

/// How a value is put on the command line.
#[derive(Clone, Copy, Debug, PartialEq, Eq, Structural)]
pub enum Passing {
    /// The flag alone, where the value is true.
    Switch,
    /// The flag and the element, once for each.
    Repeated,
    /// The flag and the value, where there is one.
    Optional,
    /// The flag and the value.
    Single,
}

/// How one parameter travels.
pub struct Forward {
    pub name: String,
    pub flag: String,
    /// The type that the parent takes it as.
    pub param: String,
    pub passing: Passing,
    /// Whether the value is first turned into text.
    pub to_text: bool,
}

/// How one parameter travels.
pub struct ForwardView {
    pub name: Seq<char>,
    pub flag: Seq<char>,
    pub param: Seq<char>,
    pub passing: Passing,
    pub to_text: bool,
}

impl View for Forward {
    type V = ForwardView;

    open spec fn view(&self) -> ForwardView {
        ForwardView {
            name: self.name@,
            flag: self.flag@,
            param: self.param@,
            passing: self.passing,
            to_text: self.to_text,
        }
    }
}

impl DeepView for Forward {
    type V = ForwardView;

    open spec fn deep_view(&self) -> ForwardView {
        self@
    }
}

/// Why a routine is refused, with the position of the parameter at fault.
#[derive(Clone, Copy, Debug, PartialEq, Eq, Structural)]
pub enum ElevatedError {
    TakesSelf(usize),
    NotAnIdentifier(usize),
}

/// What a routine comes to.
pub struct Elevated {
    /// The name of the generated type.
    pub command: String,
    /// The name of the type that the child's flags are read into.
    pub args_type: String,
    /// The word that tells the child what it is.
    pub marker: String,
    pub forwards: Vec<Forward>,
}

/// Whether a type's values can be put on a command line as they are.
pub open spec fn is_plain_text(ident: Option<Seq<char>>) -> bool {
    ident == Some("String"@) || ident == Some("PathBuf"@) || ident == Some("OsString"@)
}

/// The borrowed form of a type.
pub open spec fn borrowed(ident: Option<Seq<char>>, text: Seq<char>) -> Seq<char> {
    if ident == Some("String"@) {
        "&str"@
    } else if ident == Some("PathBuf"@) {
        "&::std::path::Path"@
    } else if ident == Some("OsString"@) {
        "&::std::ffi::OsStr"@
    } else {
        "&"@ + text
    }
}

/// The flag of a parameter.
pub open spec fn flag_of(name: Seq<char>) -> Seq<char> {
    "--"@ + kebab(name)
}

/// How a parameter of that type travels: a `bool` is a switch, a `Vec<T>` repeats, an
/// `Option<T>` appears only when there is a value, and any other type takes a value.
pub open spec fn forward_of(name: Seq<char>, ty: ParamType) -> ForwardView {
    let ident = ty.ident.deep_view();
    let flag = flag_of(name);
    if ident == Some("bool"@) {
        ForwardView { name, flag, param: "bool"@, passing: Passing::Switch, to_text: false }
    } else if ident == Some("Vec"@) && ty.element is Some {
        let inner = ty.element->0;
        ForwardView {
            name,
            flag,
            param: "&["@ + inner.text@ + "]"@,
            passing: Passing::Repeated,
            to_text: !is_plain_text(inner.ident.deep_view()),
        }
    } else if ident == Some("Option"@) && ty.element is Some {
        let inner = ty.element->0;
        let plain = is_plain_text(inner.ident.deep_view());
        ForwardView {
            name,
            flag,
            param: "::core::option::Option<"@ + (if plain {
                borrowed(inner.ident.deep_view(), inner.text@)
            } else {
                inner.text@
            }) + ">"@,
            passing: Passing::Optional,
            to_text: !plain,
        }
    } else if is_plain_text(ident) {
        ForwardView {
            name,
            flag,
            param: borrowed(ident, ty.text@),
            passing: Passing::Single,
            to_text: false,
        }
    } else {
        ForwardView { name, flag, param: ty.text@, passing: Passing::Single, to_text: true }
    }
}

/// How the first `n` parameters travel, or the first that cannot.
pub open spec fn forwards_of(inputs: Seq<Input>, n: nat) -> Result<Seq<ForwardView>, ElevatedError>
    decreases n,
{
    if n == 0 {
        Ok(seq![])
    } else {
        match forwards_of(inputs, (n - 1) as nat) {
            Err(e) => Err(e),
            Ok(list) => match inputs[n - 1] {
                Input::Receiver => Err(ElevatedError::TakesSelf((n - 1) as usize)),
                Input::Pattern => Err(ElevatedError::NotAnIdentifier((n - 1) as usize)),
                Input::Named(name, ty) => Ok(list.push(forward_of(name@, ty))),
            },
        }
    }
}

/// Every parameter travels, in order, under its own name and flag; a routine is refused for the
/// first parameter that is no plain identifier.
pub proof fn law_every_parameter_travels(inputs: Seq<Input>, n: nat)
    requires
        n <= inputs.len(),
    ensures
        forwards_of(inputs, n) is Ok <==> forall|i: int| 0 <= i < n ==> #[trigger] inputs[i] is Named,
        forwards_of(inputs, n) matches Ok(list) ==> list.len() == n && forall|i: int|
            0 <= i < n ==> (#[trigger] list[i]) == forward_of(
                (inputs[i]->Named_0)@,
                inputs[i]->Named_1,
            ) && list[i].name == (inputs[i]->Named_0)@ && list[i].flag == "--"@ + kebab(
                (inputs[i]->Named_0)@,
            ),
    decreases n,
{
    if n > 0 {
        law_every_parameter_travels(inputs, (n - 1) as nat);
        if forall|i: int| 0 <= i < n ==> #[trigger] inputs[i] is Named {
            assert(inputs[n - 1] is Named);
        }
    }
}

proof fn lemma_first_refusal(inputs: Seq<Input>, n: nat, m: nat)
    requires
        n <= m <= inputs.len(),
    ensures
        forwards_of(inputs, n) is Err ==> forwards_of(inputs, m) == forwards_of(inputs, n),
    decreases m,
{
    if n < m {
        lemma_first_refusal(inputs, n, (m - 1) as nat);
    }
}

/// Whether a type's last identifier is this word.
fn ident_is(ident: &Option<String>, word: &str) -> (r: bool)
    ensures
        r == (ident.deep_view() == Some(word@)),
{
    match ident {
        Some(name) => same_text(name.as_str(), word),
        None => false,
    }
}

/// Whether a type's values can be put on a command line as they are, or have to be turned into
/// text first.
pub fn is_osstr(ident: &Option<String>) -> (r: bool)
    ensures
        r == is_plain_text(ident.deep_view()),
{
    ident_is(ident, "String") || ident_is(ident, "PathBuf") || ident_is(ident, "OsString")
}

/// The borrowed form of a type.
pub fn osstr_ref(ident: &Option<String>, text: &str) -> (r: String)
    ensures
        r@ == borrowed(ident.deep_view(), text@),
{
    if ident_is(ident, "String") {
        "&str".to_owned()
    } else if ident_is(ident, "PathBuf") {
        "&::std::path::Path".to_owned()
    } else if ident_is(ident, "OsString") {
        "&::std::ffi::OsStr".to_owned()
    } else {
        let mut out: String = "&".to_owned();
        out.append(text);
        out
    }
}

/// The element of a type, where the type has this name and an element.
pub fn element_of<'a>(ty: &'a ParamType, wrapper: &str) -> (r: Option<&'a ElementType>)
    ensures
        r == (if ty.ident.deep_view() == Some(wrapper@) && ty.element is Some {
            Some(&ty.element->0)
        } else {
            None
        }),
{
    if !ident_is(&ty.ident, wrapper) {
        return None;
    }
    match &ty.element {
        Some(inner) => Some(inner),
        None => None,
    }
}

/// How one parameter travels.
fn forward(name: &str, ty: &ParamType) -> (r: Forward)
    ensures
        r@ == forward_of(name@, *ty),
{
    let mut flag: String = "--".to_owned();
    flag.append(to_kebab_case(name).as_str());
    let name: String = name.to_owned();
    if ident_is(&ty.ident, "bool") {
        return Forward {
            name,
            flag,
            param: "bool".to_owned(),
            passing: Passing::Switch,
            to_text: false,
        };
    }
    if let Some(inner) = element_of(ty, "Vec") {
        let mut param: String = "&[".to_owned();
        param.append(inner.text.as_str());
        param.append("]");
        return Forward {
            name,
            flag,
            param,
            passing: Passing::Repeated,
            to_text: !is_osstr(&inner.ident),
        };
    }
    if let Some(inner) = element_of(ty, "Option") {
        let plain: bool = is_osstr(&inner.ident);
        let mut param: String = "::core::option::Option<".to_owned();
        if plain {
            param.append(osstr_ref(&inner.ident, inner.text.as_str()).as_str());
        } else {
            param.append(inner.text.as_str());
        }
        param.append(">");
        return Forward { name, flag, param, passing: Passing::Optional, to_text: !plain };
    }
    if is_osstr(&ty.ident) {
        return Forward {
            name,
            flag,
            param: osstr_ref(&ty.ident, ty.text.as_str()),
            passing: Passing::Single,
            to_text: false,
        };
    }
    Forward { name, flag, param: ty.text.clone(), passing: Passing::Single, to_text: true }
}

/// Turn a function into a routine that re-runs itself as root.
pub fn expand_elevated(fn_name: &str, inputs: &Vec<Input>) -> (r: Result<Elevated, ElevatedError>)
    ensures
        match r {
            Ok(e) => e.command@ == pascal(fn_name@) && e.args_type@ == pascal(fn_name@) + "Args"@
                && e.marker@ == kebab(fn_name@) && forwards_of(inputs@, inputs@.len()) == Ok::<
                Seq<ForwardView>,
                ElevatedError,
            >(e.forwards.deep_view()),
            Err(e) => forwards_of(inputs@, inputs@.len()) == Err::<
                Seq<ForwardView>,
                ElevatedError,
            >(e),
        },
{
    let command: String = to_pascal_case(fn_name);
    let mut args_type: String = command.clone();
    args_type.append("Args");
    let marker: String = to_kebab_case(fn_name);
    let mut forwards: Vec<Forward> = Vec::new();
    assert(forwards.deep_view() =~= seq![]);
    let mut i: usize = 0;
    while i < inputs.len()
        invariant
            i <= inputs.len(),
            forwards_of(inputs@, i as nat) == Ok::<Seq<ForwardView>, ElevatedError>(
                forwards.deep_view(),
            ),
        decreases inputs.len() - i,
    {
        proof {
            lemma_first_refusal(inputs@, (i + 1) as nat, inputs@.len());
        }
        match &inputs[i] {
            Input::Receiver => return Err(ElevatedError::TakesSelf(i)),
            Input::Pattern => return Err(ElevatedError::NotAnIdentifier(i)),
            Input::Named(name, ty) => {
                let ghost before = forwards.deep_view();
                forwards.push(forward(name.as_str(), ty));
                assert(forwards.deep_view() =~= before.push(forward_of(name@, *ty)));
            },
        }
        i += 1;
    }
    Ok(Elevated { command, args_type, marker, forwards })
}

impl ElevatedError {
    /// The message of the error.
    pub open spec fn text(self) -> Seq<char> {
        match self {
            ElevatedError::TakesSelf(_) => "an #[elevated] function cannot take `self`"@,
            ElevatedError::NotAnIdentifier(_) =>
                "#[elevated] parameters must be plain identifiers"@,
        }
    }

    /// The message of the error.
    pub fn message(&self) -> (r: &'static str)
        ensures
            r@ == self.text(),
    {
        match self {
            ElevatedError::TakesSelf(_) => "an #[elevated] function cannot take `self`",
            ElevatedError::NotAnIdentifier(_) => "#[elevated] parameters must be plain identifiers",
        }
    }
}

// --- the command line between parent and child ----------------------------------------------

/// A value that travels, as text.
pub enum Sent {
    Switch(bool),
    Repeated(Vec<String>),
    Optional(Option<String>),
    Single(String),
}

/// The flag and the text of each of the first `n` elements.
pub open spec fn repeated(flag: Seq<char>, items: Seq<Seq<char>>, n: nat) -> Seq<Seq<char>>
    decreases n,
{
    if n == 0 {
        seq![]
    } else {
        repeated(flag, items, (n - 1) as nat) + seq![flag, items[n - 1]]
    }
}

/// Every element travels, in order, behind its own flag.
pub proof fn law_every_element_travels(flag: Seq<char>, items: Seq<Seq<char>>, n: nat)
    requires
        n <= items.len(),
    ensures
        repeated(flag, items, n) == items.take(n as int).flat_map(
            |item: Seq<char>| seq![flag, item],
        ),
    decreases n,
{
    if n > 0 {
        law_every_element_travels(flag, items, (n - 1) as nat);
        lemma_flat_map_last(
            items,
            |item: Seq<char>| seq![flag, item],
            n,
        );
    }
}

/// What the parent puts on the command line for a value.
pub open spec fn written(flag: Seq<char>, value: Sent) -> Seq<Seq<char>> {
    match value {
        Sent::Switch(on) => if on {
            seq![flag]
        } else {
            seq![]
        },
        Sent::Repeated(items) => repeated(flag, items.deep_view(), items@.len()),
        Sent::Optional(one) => match one {
            Some(text) => seq![flag, text@],
            None => seq![],
        },
        Sent::Single(text) => seq![flag, text@],
    }
}

/// What the parent puts on the command line for the first `n` values.
pub open spec fn all_written(flags: Seq<Seq<char>>, values: Seq<Sent>, n: nat) -> Seq<Seq<char>>
    decreases n,
{
    if n == 0 {
        seq![]
    } else {
        all_written(flags, values, (n - 1) as nat) + written(flags[n - 1], values[n - 1])
    }
}

/// Every value is put on the command line, in order, under its own flag.
pub proof fn law_every_value_travels(flags: Seq<Seq<char>>, values: Seq<Sent>, n: nat)
    requires
        n <= values.len(),
    ensures
        all_written(flags, values, n) == Seq::new(
            n,
            |i: int|
                match values[i] {
                    Sent::Switch(on) => if on {
                        seq![flags[i]]
                    } else {
                        seq![]
                    },
                    Sent::Repeated(items) => items.deep_view().flat_map(
                        |item: Seq<char>| seq![flags[i], item],
                    ),
                    Sent::Optional(one) => match one {
                        Some(text) => seq![flags[i], text@],
                        None => seq![],
                    },
                    Sent::Single(text) => seq![flags[i], text@],
                },
        ).flatten(),
    decreases n,
{
    if n > 0 {
        law_every_value_travels(flags, values, (n - 1) as nat);
        lemma_parts_last(
            |i: int|
                match values[i] {
                    Sent::Switch(on) => if on {
                        seq![flags[i]]
                    } else {
                        seq![]
                    },
                    Sent::Repeated(items) => items.deep_view().flat_map(
                        |item: Seq<char>| seq![flags[i], item],
                    ),
                    Sent::Optional(one) => match one {
                        Some(text) => seq![flags[i], text@],
                        None => seq![],
                    },
                    Sent::Single(text) => seq![flags[i], text@],
                },
            n,
        );
        if let Sent::Repeated(items) = values[n - 1] {
            law_every_element_travels(flags[n - 1], items.deep_view(), items@.len());
            assert(items.deep_view().take(items@.len() as int) =~= items.deep_view());
        }
    }
}

/// Put a value on the command line.
fn write_value(out: &mut Vec<String>, flag: &str, value: &Sent)
    ensures
        final(out).deep_view() == old(out).deep_view() + written(flag@, *value),
{
    let ghost before = out.deep_view();
    match value {
        Sent::Switch(on) => {
            if *on {
                push_text(out, flag);
            }
        },
        Sent::Repeated(items) => {
            let mut i: usize = 0;
            assert(out.deep_view() =~= before + repeated(flag@, items.deep_view(), 0));
            while i < items.len()
                invariant
                    i <= items.len(),
                    out.deep_view() == before + repeated(flag@, items.deep_view(), i as nat),
                decreases items.len() - i,
            {
                assert(items.deep_view()[i as int] == items@[i as int]@);
                push_text(out, flag);
                push_text(out, items[i].as_str());
                i += 1;
                assert(out.deep_view() =~= before + repeated(flag@, items.deep_view(), i as nat));
            }
        },
        Sent::Optional(one) => {
            if let Some(text) = one {
                push_text(out, flag);
                push_text(out, text.as_str());
            }
        },
        Sent::Single(text) => {
            push_text(out, flag);
            push_text(out, text.as_str());
        },
    }
    assert(out.deep_view() =~= before + written(flag@, *value));
}

/// The parent's command line behind the superuser program: this program, the marker, and each
/// value as the flags that the child reads back.
pub fn reexec(exe: &str, marker: &str, flags: &Vec<String>, values: &Vec<Sent>) -> (r: Vec<String>)
    requires
        flags@.len() == values@.len(),
    ensures
        r.deep_view() == seq![exe@, marker@] + all_written(
            flags.deep_view(),
            values@,
            values@.len(),
        ),
{
    let mut out: Vec<String> = Vec::new();
    assert(out.deep_view() =~= seq![]);
    push_text(&mut out, exe);
    push_text(&mut out, marker);
    let mut i: usize = 0;
    assert(out.deep_view() =~= seq![exe@, marker@] + all_written(flags.deep_view(), values@, 0));
    while i < values.len()
        invariant
            i <= values.len(),
            flags@.len() == values@.len(),
            out.deep_view() == seq![exe@, marker@] + all_written(
                flags.deep_view(),
                values@,
                i as nat,
            ),
        decreases values.len() - i,
    {
        assert(flags.deep_view()[i as int] == flags@[i as int]@);
        write_value(&mut out, flags[i].as_str(), &values[i]);
        i += 1;
        assert(out.deep_view() =~= seq![exe@, marker@] + all_written(
            flags.deep_view(),
            values@,
            i as nat,
        ));
    }
    out
}

/// Whether this process is the elevated child: its first argument is the marker.
pub fn try_handle(marker: &str, argv: &Vec<String>) -> (r: bool)
    ensures
        r == (argv@.len() > 1 && argv@[1]@ == marker@),
{
    argv.len() > 1 && same_text(argv[1].as_str(), marker)
}

/// The child that the parent starts knows itself: the command line that the parent writes is one
/// that the child handles.
pub proof fn law_the_child_knows_itself(
    exe: Seq<char>,
    marker: Seq<char>,
    flags: Seq<Seq<char>>,
    values: Seq<Sent>,
)
    requires
        flags.len() == values.len(),
    ensures
        (seq![exe, marker] + all_written(flags, values, values.len()))[1] == marker,
{
}

/// A switch that is off, an absent value and an empty list put nothing on the command line:
/// there are no stand-in values on the wire.
pub proof fn law_absent_values_are_not_written(flag: Seq<char>, items: Vec<String>)
    requires
        items@.len() == 0,
    ensures
        written(flag, Sent::Switch(false)) == Seq::<Seq<char>>::empty(),
        written(flag, Sent::Optional(None)) == Seq::<Seq<char>>::empty(),
        written(flag, Sent::Repeated(items)) == Seq::<Seq<char>>::empty(),
{
}

} // verus!
