//! Session commands. They have to run in the shell itself, since a program cannot restart the
//! shell that started it; so they are shell text.

use vstd::prelude::*;

verus! {

/// The shell that defines the session functions.
pub fn functions() -> (r: &'static str)
    ensures
        r@
            == "session_new() { exec bash; }  # start a fresh shell session\nsession_bare() { _BASHRS_BARE=1 exec bash; }  # fresh shell WITHOUT bashrs (one-shot: any later shell, or re-sourcing, arms it again)\n"@,
{
    "session_new() { exec bash; }  # start a fresh shell session\nsession_bare() { _BASHRS_BARE=1 exec bash; }  # fresh shell WITHOUT bashrs (one-shot: any later shell, or re-sourcing, arms it again)\n"
}

} // verus!
