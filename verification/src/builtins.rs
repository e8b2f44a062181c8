//! Overrides of shell builtins: the same name and behaviour, plus what was wanted anyway. Each
//! acts on the calling shell, so each is shell text.

use vstd::prelude::*;

verus! {

/// `cd`, then print what is there. The listing follows only where the `cd` succeeded.
pub fn cd() -> (r: &'static str)
    ensures
        r@
            == "builtin cd \"$@\" && ls -AF --color=always --group-directories-first --quoting-style=shell-escape"@,
{
    "builtin cd \"$@\" && ls -AF --color=always --group-directories-first --quoting-style=shell-escape"
}

} // verus!
