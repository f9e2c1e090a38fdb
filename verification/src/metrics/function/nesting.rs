//! Maximum nesting depth of control structures in a function.
use crate::syntax::{names, SyntaxTree};
use vstd::prelude::*;

verus! {

/// Kinds that open a nesting level.
pub open spec fn nesting_kinds() -> Seq<Seq<char>> {
    seq![
        "if_statement"@,
        "else_clause"@,
        "while_statement"@,
        "do_statement"@,
        "for_statement"@,
        "for_in_statement"@,
        "switch_statement"@,
        "try_statement"@,
        "catch_clause"@,
        "arrow_function"@,
        "function_declaration"@,
        "function_expression"@,
    ]
}

/// Calculate the maximum nesting depth within a node: the largest number of
/// nesting-kind nodes on a path from `node` (included) down into its subtree.
pub fn max_nesting(t: &SyntaxTree, node: usize) -> (r: usize)
    requires
        t.wf(),
        node < t.len(),
    ensures
        r == t.max_depth(node as int, 0, nesting_kinds()),
{
    let kinds: [&str; 12] = [
        "if_statement",
        "else_clause",
        "while_statement",
        "do_statement",
        "for_statement",
        "for_in_statement",
        "switch_statement",
        "try_statement",
        "catch_clause",
        "arrow_function",
        "function_declaration",
        "function_expression",
    ];
    proof {
        assert(names(kinds@) =~= nesting_kinds());
        assert(t.end(node as int) <= t.len());
    }
    t.max_depth_exec(node, 0, &kinds)
}

} // verus!
