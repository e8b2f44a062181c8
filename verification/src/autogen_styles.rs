//! The styled echoes: bare, memorable verbs, one for each look.

use vstd::prelude::*;
use crate::args::EchoArgs;
use crate::text::{join, joined};
use crate::theme::{Basic, BasicLook, Underline, Weight};

verus! {

/// What a styled echo prints: a text, in a look.
pub struct StyledEcho {
    pub look: BasicLook,
    pub text: String,
}

/// The words of an echo in a look, single spaces between them.
pub fn styled_echo(look: BasicLook, args: &EchoArgs) -> (r: StyledEcho)
    ensures
        r.look == look,
        r.text@ == join(args.words.deep_view(), " "@),
{
    StyledEcho { look, text: joined(&args.words, " ") }
}

/// Echo in bold.
pub fn boecho(args: &EchoArgs) -> (r: StyledEcho)
    ensures
        r.look == (BasicLook { weight: Weight::Bold, underline: Underline::Plain, colour: Basic::Plain }),
        r.text@ == join(args.words.deep_view(), " "@),
{
    styled_echo(BasicLook { weight: Weight::Bold, underline: Underline::Plain, colour: Basic::Plain }, args)
}

/// Echo in bold red.
pub fn recho(args: &EchoArgs) -> (r: StyledEcho)
    ensures
        r.look == (BasicLook { weight: Weight::Bold, underline: Underline::Plain, colour: Basic::Red }),
        r.text@ == join(args.words.deep_view(), " "@),
{
    styled_echo(BasicLook { weight: Weight::Bold, underline: Underline::Plain, colour: Basic::Red }, args)
}

/// Echo in bold green.
pub fn gecho(args: &EchoArgs) -> (r: StyledEcho)
    ensures
        r.look == (BasicLook { weight: Weight::Bold, underline: Underline::Plain, colour: Basic::Green }),
        r.text@ == join(args.words.deep_view(), " "@),
{
    styled_echo(BasicLook { weight: Weight::Bold, underline: Underline::Plain, colour: Basic::Green }, args)
}

/// Echo in bold blue.
pub fn becho(args: &EchoArgs) -> (r: StyledEcho)
    ensures
        r.look == (BasicLook { weight: Weight::Bold, underline: Underline::Plain, colour: Basic::Blue }),
        r.text@ == join(args.words.deep_view(), " "@),
{
    styled_echo(BasicLook { weight: Weight::Bold, underline: Underline::Plain, colour: Basic::Blue }, args)
}

/// Echo in bold cyan.
pub fn cecho(args: &EchoArgs) -> (r: StyledEcho)
    ensures
        r.look == (BasicLook { weight: Weight::Bold, underline: Underline::Plain, colour: Basic::Cyan }),
        r.text@ == join(args.words.deep_view(), " "@),
{
    styled_echo(BasicLook { weight: Weight::Bold, underline: Underline::Plain, colour: Basic::Cyan }, args)
}

/// Echo in bold yellow.
pub fn yecho(args: &EchoArgs) -> (r: StyledEcho)
    ensures
        r.look == (BasicLook { weight: Weight::Bold, underline: Underline::Plain, colour: Basic::Yellow }),
        r.text@ == join(args.words.deep_view(), " "@),
{
    styled_echo(BasicLook { weight: Weight::Bold, underline: Underline::Plain, colour: Basic::Yellow }, args)
}

/// Echo in bold orange.
pub fn orecho(args: &EchoArgs) -> (r: StyledEcho)
    ensures
        r.look == (BasicLook { weight: Weight::Bold, underline: Underline::Plain, colour: Basic::Orange }),
        r.text@ == join(args.words.deep_view(), " "@),
{
    styled_echo(BasicLook { weight: Weight::Bold, underline: Underline::Plain, colour: Basic::Orange }, args)
}

/// Echo in bold white.
pub fn wecho(args: &EchoArgs) -> (r: StyledEcho)
    ensures
        r.look == (BasicLook { weight: Weight::Bold, underline: Underline::Plain, colour: Basic::White }),
        r.text@ == join(args.words.deep_view(), " "@),
{
    styled_echo(BasicLook { weight: Weight::Bold, underline: Underline::Plain, colour: Basic::White }, args)
}

/// Echo in bold magenta.
pub fn mecho(args: &EchoArgs) -> (r: StyledEcho)
    ensures
        r.look == (BasicLook { weight: Weight::Bold, underline: Underline::Plain, colour: Basic::Magenta }),
        r.text@ == join(args.words.deep_view(), " "@),
{
    styled_echo(BasicLook { weight: Weight::Bold, underline: Underline::Plain, colour: Basic::Magenta }, args)
}

/// Echo in bold underlined.
pub fn uecho(args: &EchoArgs) -> (r: StyledEcho)
    ensures
        r.look == (BasicLook { weight: Weight::Bold, underline: Underline::Underlined, colour: Basic::Plain }),
        r.text@ == join(args.words.deep_view(), " "@),
{
    styled_echo(BasicLook { weight: Weight::Bold, underline: Underline::Underlined, colour: Basic::Plain }, args)
}

/// Echo in bold underlined red.
pub fn urecho(args: &EchoArgs) -> (r: StyledEcho)
    ensures
        r.look == (BasicLook { weight: Weight::Bold, underline: Underline::Underlined, colour: Basic::Red }),
        r.text@ == join(args.words.deep_view(), " "@),
{
    styled_echo(BasicLook { weight: Weight::Bold, underline: Underline::Underlined, colour: Basic::Red }, args)
}

/// Echo in bold underlined green.
pub fn ugecho(args: &EchoArgs) -> (r: StyledEcho)
    ensures
        r.look == (BasicLook { weight: Weight::Bold, underline: Underline::Underlined, colour: Basic::Green }),
        r.text@ == join(args.words.deep_view(), " "@),
{
    styled_echo(BasicLook { weight: Weight::Bold, underline: Underline::Underlined, colour: Basic::Green }, args)
}

/// Echo in bold underlined blue.
pub fn ubecho(args: &EchoArgs) -> (r: StyledEcho)
    ensures
        r.look == (BasicLook { weight: Weight::Bold, underline: Underline::Underlined, colour: Basic::Blue }),
        r.text@ == join(args.words.deep_view(), " "@),
{
    styled_echo(BasicLook { weight: Weight::Bold, underline: Underline::Underlined, colour: Basic::Blue }, args)
}

/// Echo in bold underlined cyan.
pub fn ucecho(args: &EchoArgs) -> (r: StyledEcho)
    ensures
        r.look == (BasicLook { weight: Weight::Bold, underline: Underline::Underlined, colour: Basic::Cyan }),
        r.text@ == join(args.words.deep_view(), " "@),
{
    styled_echo(BasicLook { weight: Weight::Bold, underline: Underline::Underlined, colour: Basic::Cyan }, args)
}

/// Echo in bold underlined yellow.
pub fn uyecho(args: &EchoArgs) -> (r: StyledEcho)
    ensures
        r.look == (BasicLook { weight: Weight::Bold, underline: Underline::Underlined, colour: Basic::Yellow }),
        r.text@ == join(args.words.deep_view(), " "@),
{
    styled_echo(BasicLook { weight: Weight::Bold, underline: Underline::Underlined, colour: Basic::Yellow }, args)
}

/// Echo in bold underlined orange.
pub fn uorecho(args: &EchoArgs) -> (r: StyledEcho)
    ensures
        r.look == (BasicLook { weight: Weight::Bold, underline: Underline::Underlined, colour: Basic::Orange }),
        r.text@ == join(args.words.deep_view(), " "@),
{
    styled_echo(BasicLook { weight: Weight::Bold, underline: Underline::Underlined, colour: Basic::Orange }, args)
}

/// Echo in bold underlined white.
pub fn uwecho(args: &EchoArgs) -> (r: StyledEcho)
    ensures
        r.look == (BasicLook { weight: Weight::Bold, underline: Underline::Underlined, colour: Basic::White }),
        r.text@ == join(args.words.deep_view(), " "@),
{
    styled_echo(BasicLook { weight: Weight::Bold, underline: Underline::Underlined, colour: Basic::White }, args)
}

/// Echo in bold underlined magenta.
pub fn umecho(args: &EchoArgs) -> (r: StyledEcho)
    ensures
        r.look == (BasicLook { weight: Weight::Bold, underline: Underline::Underlined, colour: Basic::Magenta }),
        r.text@ == join(args.words.deep_view(), " "@),
{
    styled_echo(BasicLook { weight: Weight::Bold, underline: Underline::Underlined, colour: Basic::Magenta }, args)
}

/// Echo in dark.
pub fn daecho(args: &EchoArgs) -> (r: StyledEcho)
    ensures
        r.look == (BasicLook { weight: Weight::Dark, underline: Underline::Plain, colour: Basic::Plain }),
        r.text@ == join(args.words.deep_view(), " "@),
{
    styled_echo(BasicLook { weight: Weight::Dark, underline: Underline::Plain, colour: Basic::Plain }, args)
}

/// Echo in dark red.
pub fn darecho(args: &EchoArgs) -> (r: StyledEcho)
    ensures
        r.look == (BasicLook { weight: Weight::Dark, underline: Underline::Plain, colour: Basic::Red }),
        r.text@ == join(args.words.deep_view(), " "@),
{
    styled_echo(BasicLook { weight: Weight::Dark, underline: Underline::Plain, colour: Basic::Red }, args)
}

/// Echo in dark green.
pub fn dagecho(args: &EchoArgs) -> (r: StyledEcho)
    ensures
        r.look == (BasicLook { weight: Weight::Dark, underline: Underline::Plain, colour: Basic::Green }),
        r.text@ == join(args.words.deep_view(), " "@),
{
    styled_echo(BasicLook { weight: Weight::Dark, underline: Underline::Plain, colour: Basic::Green }, args)
}

/// Echo in dark blue.
pub fn dabecho(args: &EchoArgs) -> (r: StyledEcho)
    ensures
        r.look == (BasicLook { weight: Weight::Dark, underline: Underline::Plain, colour: Basic::Blue }),
        r.text@ == join(args.words.deep_view(), " "@),
{
    styled_echo(BasicLook { weight: Weight::Dark, underline: Underline::Plain, colour: Basic::Blue }, args)
}

/// Echo in dark cyan.
pub fn dacecho(args: &EchoArgs) -> (r: StyledEcho)
    ensures
        r.look == (BasicLook { weight: Weight::Dark, underline: Underline::Plain, colour: Basic::Cyan }),
        r.text@ == join(args.words.deep_view(), " "@),
{
    styled_echo(BasicLook { weight: Weight::Dark, underline: Underline::Plain, colour: Basic::Cyan }, args)
}

/// Echo in dark yellow.
pub fn dayecho(args: &EchoArgs) -> (r: StyledEcho)
    ensures
        r.look == (BasicLook { weight: Weight::Dark, underline: Underline::Plain, colour: Basic::Yellow }),
        r.text@ == join(args.words.deep_view(), " "@),
{
    styled_echo(BasicLook { weight: Weight::Dark, underline: Underline::Plain, colour: Basic::Yellow }, args)
}

/// Echo in dark orange.
pub fn daorecho(args: &EchoArgs) -> (r: StyledEcho)
    ensures
        r.look == (BasicLook { weight: Weight::Dark, underline: Underline::Plain, colour: Basic::Orange }),
        r.text@ == join(args.words.deep_view(), " "@),
{
    styled_echo(BasicLook { weight: Weight::Dark, underline: Underline::Plain, colour: Basic::Orange }, args)
}

/// Echo in dark white.
pub fn dawecho(args: &EchoArgs) -> (r: StyledEcho)
    ensures
        r.look == (BasicLook { weight: Weight::Dark, underline: Underline::Plain, colour: Basic::White }),
        r.text@ == join(args.words.deep_view(), " "@),
{
    styled_echo(BasicLook { weight: Weight::Dark, underline: Underline::Plain, colour: Basic::White }, args)
}

/// Echo in dark magenta.
pub fn damecho(args: &EchoArgs) -> (r: StyledEcho)
    ensures
        r.look == (BasicLook { weight: Weight::Dark, underline: Underline::Plain, colour: Basic::Magenta }),
        r.text@ == join(args.words.deep_view(), " "@),
{
    styled_echo(BasicLook { weight: Weight::Dark, underline: Underline::Plain, colour: Basic::Magenta }, args)
}

/// Echo in dark underlined.
pub fn dauecho(args: &EchoArgs) -> (r: StyledEcho)
    ensures
        r.look == (BasicLook { weight: Weight::Dark, underline: Underline::Underlined, colour: Basic::Plain }),
        r.text@ == join(args.words.deep_view(), " "@),
{
    styled_echo(BasicLook { weight: Weight::Dark, underline: Underline::Underlined, colour: Basic::Plain }, args)
}

/// Echo in dark underlined red.
pub fn daurecho(args: &EchoArgs) -> (r: StyledEcho)
    ensures
        r.look == (BasicLook { weight: Weight::Dark, underline: Underline::Underlined, colour: Basic::Red }),
        r.text@ == join(args.words.deep_view(), " "@),
{
    styled_echo(BasicLook { weight: Weight::Dark, underline: Underline::Underlined, colour: Basic::Red }, args)
}

/// Echo in dark underlined green.
pub fn daugecho(args: &EchoArgs) -> (r: StyledEcho)
    ensures
        r.look == (BasicLook { weight: Weight::Dark, underline: Underline::Underlined, colour: Basic::Green }),
        r.text@ == join(args.words.deep_view(), " "@),
{
    styled_echo(BasicLook { weight: Weight::Dark, underline: Underline::Underlined, colour: Basic::Green }, args)
}

/// Echo in dark underlined blue.
pub fn daubecho(args: &EchoArgs) -> (r: StyledEcho)
    ensures
        r.look == (BasicLook { weight: Weight::Dark, underline: Underline::Underlined, colour: Basic::Blue }),
        r.text@ == join(args.words.deep_view(), " "@),
{
    styled_echo(BasicLook { weight: Weight::Dark, underline: Underline::Underlined, colour: Basic::Blue }, args)
}

/// Echo in dark underlined cyan.
pub fn daucecho(args: &EchoArgs) -> (r: StyledEcho)
    ensures
        r.look == (BasicLook { weight: Weight::Dark, underline: Underline::Underlined, colour: Basic::Cyan }),
        r.text@ == join(args.words.deep_view(), " "@),
{
    styled_echo(BasicLook { weight: Weight::Dark, underline: Underline::Underlined, colour: Basic::Cyan }, args)
}

/// Echo in dark underlined yellow.
pub fn dauyecho(args: &EchoArgs) -> (r: StyledEcho)
    ensures
        r.look == (BasicLook { weight: Weight::Dark, underline: Underline::Underlined, colour: Basic::Yellow }),
        r.text@ == join(args.words.deep_view(), " "@),
{
    styled_echo(BasicLook { weight: Weight::Dark, underline: Underline::Underlined, colour: Basic::Yellow }, args)
}

/// Echo in dark underlined orange.
pub fn dauorecho(args: &EchoArgs) -> (r: StyledEcho)
    ensures
        r.look == (BasicLook { weight: Weight::Dark, underline: Underline::Underlined, colour: Basic::Orange }),
        r.text@ == join(args.words.deep_view(), " "@),
{
    styled_echo(BasicLook { weight: Weight::Dark, underline: Underline::Underlined, colour: Basic::Orange }, args)
}

/// Echo in dark underlined white.
pub fn dauwecho(args: &EchoArgs) -> (r: StyledEcho)
    ensures
        r.look == (BasicLook { weight: Weight::Dark, underline: Underline::Underlined, colour: Basic::White }),
        r.text@ == join(args.words.deep_view(), " "@),
{
    styled_echo(BasicLook { weight: Weight::Dark, underline: Underline::Underlined, colour: Basic::White }, args)
}

/// Echo in dark underlined magenta.
pub fn daumecho(args: &EchoArgs) -> (r: StyledEcho)
    ensures
        r.look == (BasicLook { weight: Weight::Dark, underline: Underline::Underlined, colour: Basic::Magenta }),
        r.text@ == join(args.words.deep_view(), " "@),
{
    styled_echo(BasicLook { weight: Weight::Dark, underline: Underline::Underlined, colour: Basic::Magenta }, args)
}

} // verus!
