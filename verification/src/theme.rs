//! The vocabulary of styled text: weights, underlines and colours, each with the particle that it
//! adds to a command's name.

use vstd::prelude::*;

verus! {

/// How heavy text is.
#[derive(Clone, Copy, Debug, PartialEq, Eq, Structural)]
pub enum Weight {
    Bold,
    Dark,
}

/// Whether text is underlined.
#[derive(Clone, Copy, Debug, PartialEq, Eq, Structural)]
pub enum Underline {
    Plain,
    Underlined,
}

/// The colour of text.
#[derive(Clone, Copy, Debug, PartialEq, Eq, Structural)]
pub enum Basic {
    Plain,
    Red,
    Green,
    Blue,
    Cyan,
    Yellow,
    Orange,
    White,
    Magenta,
}

/// A look: one of each.
#[derive(Clone, Copy, Debug, PartialEq, Eq, Structural)]
pub struct BasicLook {
    pub weight: Weight,
    pub underline: Underline,
    pub colour: Basic,
}

impl Weight {
    /// The particle of a weight.
    pub open spec fn particle_text(self) -> Seq<char> {
        match self {
            Weight::Bold => "bo"@,
            Weight::Dark => "da"@,
        }
    }

    /// The name of a weight.
    pub open spec fn name_text(self) -> Seq<char> {
        match self {
            Weight::Bold => "bold"@,
            Weight::Dark => "dark"@,
        }
    }

    /// The particle of a weight.
    pub fn particle(self) -> (r: &'static str)
        ensures
            r@ == self.particle_text(),
    {
        match self {
            Weight::Bold => "bo",
            Weight::Dark => "da",
        }
    }

    /// The name of a weight.
    pub fn name(self) -> (r: &'static str)
        ensures
            r@ == self.name_text(),
    {
        match self {
            Weight::Bold => "bold",
            Weight::Dark => "dark",
        }
    }
}

impl Underline {
    /// The particle of an underline.
    pub open spec fn particle_text(self) -> Seq<char> {
        match self {
            Underline::Plain => ""@,
            Underline::Underlined => "u"@,
        }
    }

    /// The name of an underline.
    pub open spec fn name_text(self) -> Seq<char> {
        match self {
            Underline::Plain => "none"@,
            Underline::Underlined => "underlined"@,
        }
    }

    /// The particle of an underline.
    pub fn particle(self) -> (r: &'static str)
        ensures
            r@ == self.particle_text(),
    {
        match self {
            Underline::Plain => "",
            Underline::Underlined => "u",
        }
    }

    /// The name of an underline.
    pub fn name(self) -> (r: &'static str)
        ensures
            r@ == self.name_text(),
    {
        match self {
            Underline::Plain => "none",
            Underline::Underlined => "underlined",
        }
    }
}

impl Basic {
    /// The particle of a colour.
    pub open spec fn particle_text(self) -> Seq<char> {
        match self {
            Basic::Plain => ""@,
            Basic::Red => "r"@,
            Basic::Green => "g"@,
            Basic::Blue => "b"@,
            Basic::Cyan => "c"@,
            Basic::Yellow => "y"@,
            Basic::Orange => "or"@,
            Basic::White => "w"@,
            Basic::Magenta => "m"@,
        }
    }

    /// The name of a colour.
    pub open spec fn name_text(self) -> Seq<char> {
        match self {
            Basic::Plain => "none"@,
            Basic::Red => "red"@,
            Basic::Green => "green"@,
            Basic::Blue => "blue"@,
            Basic::Cyan => "cyan"@,
            Basic::Yellow => "yellow"@,
            Basic::Orange => "orange"@,
            Basic::White => "white"@,
            Basic::Magenta => "magenta"@,
        }
    }

    /// The particle of a colour.
    pub fn particle(self) -> (r: &'static str)
        ensures
            r@ == self.particle_text(),
    {
        match self {
            Basic::Plain => "",
            Basic::Red => "r",
            Basic::Green => "g",
            Basic::Blue => "b",
            Basic::Cyan => "c",
            Basic::Yellow => "y",
            Basic::Orange => "or",
            Basic::White => "w",
            Basic::Magenta => "m",
        }
    }

    /// The name of a colour.
    pub fn name(self) -> (r: &'static str)
        ensures
            r@ == self.name_text(),
    {
        match self {
            Basic::Plain => "none",
            Basic::Red => "red",
            Basic::Green => "green",
            Basic::Blue => "blue",
            Basic::Cyan => "cyan",
            Basic::Yellow => "yellow",
            Basic::Orange => "orange",
            Basic::White => "white",
            Basic::Magenta => "magenta",
        }
    }
}

/// Every look, in the order of the matrix: by weight, then underline, then colour.
pub open spec fn look_at(k: int) -> BasicLook {
    BasicLook {
        weight: if k < 18 {
            Weight::Bold
        } else {
            Weight::Dark
        },
        underline: if (k / 9) % 2 == 0 {
            Underline::Plain
        } else {
            Underline::Underlined
        },
        colour: colour_at(k % 9),
    }
}

/// The colours, in order.
pub open spec fn colour_at(k: int) -> Basic {
    if k == 0 {
        Basic::Plain
    } else if k == 1 {
        Basic::Red
    } else if k == 2 {
        Basic::Green
    } else if k == 3 {
        Basic::Blue
    } else if k == 4 {
        Basic::Cyan
    } else if k == 5 {
        Basic::Yellow
    } else if k == 6 {
        Basic::Orange
    } else if k == 7 {
        Basic::White
    } else {
        Basic::Magenta
    }
}

/// The look at a place of the matrix.
pub fn matrix_look(k: usize) -> (r: BasicLook)
    ensures
        r == look_at(k as int),
{
    let weight: Weight = if k < 18 {
        Weight::Bold
    } else {
        Weight::Dark
    };
    let underline: Underline = if (k / 9) % 2 == 0 {
        Underline::Plain
    } else {
        Underline::Underlined
    };
    let c: usize = k % 9;
    let colour: Basic = if c == 0 {
        Basic::Plain
    } else if c == 1 {
        Basic::Red
    } else if c == 2 {
        Basic::Green
    } else if c == 3 {
        Basic::Blue
    } else if c == 4 {
        Basic::Cyan
    } else if c == 5 {
        Basic::Yellow
    } else if c == 6 {
        Basic::Orange
    } else if c == 7 {
        Basic::White
    } else {
        Basic::Magenta
    };
    BasicLook { weight, underline, colour }
}

/// What a particle adds to a command's name: itself, except that bold is silent.
pub open spec fn name_part_text(particle: Seq<char>) -> Seq<char> {
    if particle == "bo"@ {
        ""@
    } else {
        particle
    }
}

/// What the name of a look's command begins with.
pub open spec fn look_name(look: BasicLook) -> Seq<char> {
    let stem = name_part_text(look.weight.particle_text()) + name_part_text(
        look.underline.particle_text(),
    ) + name_part_text(look.colour.particle_text());
    if stem.len() == 0 {
        "bo"@
    } else {
        stem
    }
}

/// What each colour's particle looks like: empty, one letter, or `or`.
proof fn lemma_particles()
    ensures
        name_part_text("bo"@) == Seq::<char>::empty(),
        name_part_text("da"@) == seq!['d', 'a'],
        name_part_text(""@) == Seq::<char>::empty(),
        name_part_text("u"@) == seq!['u'],
        name_part_text("r"@) == seq!['r'],
        name_part_text("g"@) == seq!['g'],
        name_part_text("b"@) == seq!['b'],
        name_part_text("c"@) == seq!['c'],
        name_part_text("y"@) == seq!['y'],
        name_part_text("or"@) == seq!['o', 'r'],
        name_part_text("w"@) == seq!['w'],
        name_part_text("m"@) == seq!['m'],
        "bo"@ == seq!['b', 'o'],
{
    reveal_strlit("bo");
    reveal_strlit("da");
    reveal_strlit("");
    reveal_strlit("u");
    reveal_strlit("r");
    reveal_strlit("g");
    reveal_strlit("b");
    reveal_strlit("c");
    reveal_strlit("y");
    reveal_strlit("or");
    reveal_strlit("w");
    reveal_strlit("m");
    assert("bo"@ =~= seq!['b', 'o']);
    assert("da"@ =~= seq!['d', 'a']);
    assert(""@ =~= seq![]);
    assert("u"@ =~= seq!['u']);
    assert("r"@ =~= seq!['r']);
    assert("g"@ =~= seq!['g']);
    assert("b"@ =~= seq!['b']);
    assert("c"@ =~= seq!['c']);
    assert("y"@ =~= seq!['y']);
    assert("or"@ =~= seq!['o', 'r']);
    assert("w"@ =~= seq!['w']);
    assert("m"@ =~= seq!['m']);
    assert("da"@ != "bo"@) by {
        assert("da"@[0] != "bo"@[0]);
    }
    assert("or"@ != "bo"@) by {
        assert("or"@[0] != "bo"@[0]);
    }
}

/// What a look's command name spells, without the name of the plain bold one.
spec fn spelled(look: BasicLook) -> Seq<char> {
    (match look.weight {
        Weight::Bold => Seq::<char>::empty(),
        Weight::Dark => seq!['d', 'a'],
    }) + (match look.underline {
        Underline::Plain => Seq::<char>::empty(),
        Underline::Underlined => seq!['u'],
    }) + (match look.colour {
        Basic::Plain => Seq::<char>::empty(),
        Basic::Red => seq!['r'],
        Basic::Green => seq!['g'],
        Basic::Blue => seq!['b'],
        Basic::Cyan => seq!['c'],
        Basic::Yellow => seq!['y'],
        Basic::Orange => seq!['o', 'r'],
        Basic::White => seq!['w'],
        Basic::Magenta => seq!['m'],
    })
}

/// No two looks share a command name.
pub proof fn law_style_names_are_distinct(a: BasicLook, b: BasicLook)
    requires
        look_name(a) == look_name(b),
    ensures
        a == b,
{
    lemma_particles();
    let x = spelled(a);
    let y = spelled(b);
    assert(look_name(a) == if x.len() == 0 {
        seq!['b', 'o']
    } else {
        x
    });
    assert(look_name(b) == if y.len() == 0 {
        seq!['b', 'o']
    } else {
        y
    });
    assert(x.len() == 2 ==> x[0] != 'b' || x[1] != 'o');
    assert(y.len() == 2 ==> y[0] != 'b' || y[1] != 'o');
    assert(x == y);
    assert((x.len() > 0 && x[0] == 'd') == (a.weight == Weight::Dark));
    assert((y.len() > 0 && y[0] == 'd') == (b.weight == Weight::Dark));
    let i = if a.weight == Weight::Dark {
        2int
    } else {
        0
    };
    assert((x.len() > i && x[i] == 'u') == (a.underline == Underline::Underlined));
    assert((y.len() > i && y[i] == 'u') == (b.underline == Underline::Underlined));
    let j = if a.underline == Underline::Underlined {
        i + 1
    } else {
        i
    };
    assert(x.len() == j <==> a.colour == Basic::Plain);
    assert(y.len() == j <==> b.colour == Basic::Plain);
    if x.len() > j {
        assert(x[j] == y[j]);
        assert(x[j] == 'r' <==> a.colour == Basic::Red);
        assert(y[j] == 'r' <==> b.colour == Basic::Red);
        assert(x[j] == 'g' <==> a.colour == Basic::Green);
        assert(y[j] == 'g' <==> b.colour == Basic::Green);
        assert(x[j] == 'b' <==> a.colour == Basic::Blue);
        assert(y[j] == 'b' <==> b.colour == Basic::Blue);
        assert(x[j] == 'c' <==> a.colour == Basic::Cyan);
        assert(y[j] == 'c' <==> b.colour == Basic::Cyan);
        assert(x[j] == 'y' <==> a.colour == Basic::Yellow);
        assert(y[j] == 'y' <==> b.colour == Basic::Yellow);
        assert(x[j] == 'o' <==> a.colour == Basic::Orange);
        assert(y[j] == 'o' <==> b.colour == Basic::Orange);
        assert(x[j] == 'w' <==> a.colour == Basic::White);
        assert(y[j] == 'w' <==> b.colour == Basic::White);
        assert(x[j] == 'm' <==> a.colour == Basic::Magenta);
        assert(y[j] == 'm' <==> b.colour == Basic::Magenta);
    }
}

/// The matrix holds every look, each at one place.
pub proof fn law_the_matrix_holds_every_look_once(look: BasicLook)
    ensures
        exists|k: int| 0 <= k < 36 && look_at(k) == look,
        forall|i: int, j: int|
            0 <= i < 36 && 0 <= j < 36 && look_at(i) == look && look_at(j) == look ==> i == j,
{
    let c = match look.colour {
        Basic::Plain => 0int,
        Basic::Red => 1,
        Basic::Green => 2,
        Basic::Blue => 3,
        Basic::Cyan => 4,
        Basic::Yellow => 5,
        Basic::Orange => 6,
        Basic::White => 7,
        Basic::Magenta => 8,
    };
    let u = if look.underline == Underline::Plain {
        0int
    } else {
        9
    };
    let w = if look.weight == Weight::Bold {
        0int
    } else {
        18
    };
    assert(look_at(w + u + c) == look);
    assert forall|i: int, j: int|
        0 <= i < 36 && 0 <= j < 36 && look_at(i) == look && look_at(j) == look implies i == j by {
        assert(i % 9 == c && j % 9 == c);
    }
}

} // verus!
