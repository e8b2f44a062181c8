//! The search shortcuts: the `g` family, over a single stream, and the `gg` family, over a tree.
//! The number in a name is how many lines are shown around each match.

use vstd::prelude::*;
use crate::args::{GgArgs, GgBase, GrepArgs, GrepBase};
use crate::lookup::{grep_request, tree_request, GrepRequest, TreeRequest};

verus! {

/// Search one stream.
pub fn g(args: &GrepArgs) -> (r: GrepRequest)
    ensures
        r@ == grep_request(*args),
{
    crate::lookup::grep(args)
}

/// Search one stream, showing 2 lines around each match.
pub fn g2(args: GrepBase) -> (r: GrepRequest)
    ensures
        r@ == grep_request((GrepArgs { base: args, context: 2 })),
{
    crate::lookup::grep(&GrepArgs { base: args, context: 2 })
}

/// Search one stream, showing 3 lines around each match.
pub fn g3(args: GrepBase) -> (r: GrepRequest)
    ensures
        r@ == grep_request((GrepArgs { base: args, context: 3 })),
{
    crate::lookup::grep(&GrepArgs { base: args, context: 3 })
}

/// Search one stream, showing 5 lines around each match.
pub fn g5(args: GrepBase) -> (r: GrepRequest)
    ensures
        r@ == grep_request((GrepArgs { base: args, context: 5 })),
{
    crate::lookup::grep(&GrepArgs { base: args, context: 5 })
}

/// Search one stream, showing 8 lines around each match.
pub fn g8(args: GrepBase) -> (r: GrepRequest)
    ensures
        r@ == grep_request((GrepArgs { base: args, context: 8 })),
{
    crate::lookup::grep(&GrepArgs { base: args, context: 8 })
}

/// Search one stream, showing 25 lines around each match.
pub fn g25(args: GrepBase) -> (r: GrepRequest)
    ensures
        r@ == grep_request((GrepArgs { base: args, context: 25 })),
{
    crate::lookup::grep(&GrepArgs { base: args, context: 25 })
}

/// Search a tree: names of files, then their contents.
pub fn gg(args: &GgArgs) -> (r: TreeRequest)
    ensures
        r@ == tree_request(*args),
{
    crate::lookup::gg(args)
}

/// Search a tree, showing 2 lines around each match in a file.
pub fn gg2(args: GgBase) -> (r: TreeRequest)
    ensures
        r@ == tree_request((GgArgs { base: args, context: 2 })),
{
    crate::lookup::gg(&GgArgs { base: args, context: 2 })
}

/// Search a tree, showing 3 lines around each match in a file.
pub fn gg3(args: GgBase) -> (r: TreeRequest)
    ensures
        r@ == tree_request((GgArgs { base: args, context: 3 })),
{
    crate::lookup::gg(&GgArgs { base: args, context: 3 })
}

/// Search a tree, showing 5 lines around each match in a file.
pub fn gg5(args: GgBase) -> (r: TreeRequest)
    ensures
        r@ == tree_request((GgArgs { base: args, context: 5 })),
{
    crate::lookup::gg(&GgArgs { base: args, context: 5 })
}

/// Search a tree, showing 10 lines around each match in a file.
pub fn gg10(args: GgBase) -> (r: TreeRequest)
    ensures
        r@ == tree_request((GgArgs { base: args, context: 10 })),
{
    crate::lookup::gg(&GgArgs { base: args, context: 10 })
}

} // verus!
