//! The colours of a report, as the escapes that open and close them.

use vstd::prelude::*;
use vstd::string::*;

verus! {

/// One colour: what goes before a text and what goes behind it.
pub struct Paint {
    pub open: String,
    pub close: String,
}

/// The colours that a report gives its findings.
pub struct Palette {
    /// Something found that should be looked at.
    pub problematic: Paint,
    /// Something worth noticing.
    pub notice: Paint,
    /// All is well.
    pub approved: Paint,
}

/// `s` in the colour `p`.
pub open spec fn painted(p: Paint, s: Seq<char>) -> Seq<char> {
    p.open@ + s + p.close@
}

impl Paint {
    /// `s` in this colour.
    pub fn paint(&self, s: &str) -> (r: String)
        ensures
            r@ == painted(*self, s@),
    {
        let mut out: String = self.open.clone();
        out.append(s);
        out.append(self.close.as_str());
        out
    }

    /// No colour at all.
    pub fn none() -> (r: Paint)
        ensures
            r.open@ == Seq::<char>::empty(),
            r.close@ == Seq::<char>::empty(),
    {
        Paint { open: String::new(), close: String::new() }
    }
}

/// A text without its ANSI escape codes.
pub uninterp spec fn without_escapes(s: Seq<char>) -> Seq<char>;

/// `console::strip_ansi_codes` removes the ANSI escape codes from a text, a function of the text
/// alone. A text without U+001B and U+009B has none and stays as it is; what is left of another
/// is left to the name `without_escapes`.
#[verifier::external_body]
pub(crate) fn strip_escapes(s: &str) -> (r: String)
    ensures
        r@ == without_escapes(s@),
        !s@.contains('\u{1b}') && !s@.contains('\u{9b}') ==> r@ == s@,
{
    console::strip_ansi_codes(s).into_owned()
}

} // verus!
