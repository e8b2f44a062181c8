//! Commands over the bundled python environment (`py_*`).

use vstd::prelude::*;

verus! {

/// The packages to install, as the package tool accepts them.
pub struct InstallArgs {
    pub packages: Vec<String>,
}

/// The exit code of a change to the environment.
pub fn exit_code(succeeded: bool) -> (r: i32)
    ensures
        r == (if succeeded {
            0int
        } else {
            1
        }),
{
    if succeeded {
        0
    } else {
        1
    }
}

} // verus!
