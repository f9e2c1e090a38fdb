//! Maximum nesting of closures and functions.
use crate::syntax::{names, SyntaxTree};
use vstd::prelude::*;

verus! {

/// Kinds that open a function scope.
pub open spec fn function_kinds() -> Seq<Seq<char>> {
    seq!["arrow_function"@, "function_expression"@, "function_declaration"@, "method_definition"@]
}

/// The largest number of function nodes on a path from `node` (included) down into
/// its subtree; a function with no inner closure has depth 1.
pub fn max_closure_depth(t: &SyntaxTree, node: usize) -> (r: usize)
    requires
        t.wf(),
        node < t.len(),
    ensures
        r == t.max_depth(node as int, 0, function_kinds()),
{
    let kinds: [&str; 4] = ["arrow_function", "function_expression", "function_declaration", "method_definition"];
    proof {
        assert(names(kinds@) =~= function_kinds());
        assert(t.end(node as int) <= t.len());
    }
    t.max_depth_exec(node, 0, &kinds)
}

} // verus!
