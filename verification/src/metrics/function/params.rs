//! Parameter count of a function.
use crate::syntax::SyntaxTree;
use vstd::prelude::*;

verus! {

/// Named children of the first `formal_parameters` child of `node`, or 0.
pub open spec fn spec_param_count(t: SyntaxTree, node: int) -> int {
    match t.first_child_of_kind(node, "formal_parameters"@) {
        Some(p) => t.named_child_count(p as int) as int,
        None => 0,
    }
}

/// Count the number of parameters in a function node.
pub fn param_count(t: &SyntaxTree, node: usize) -> (r: usize)
    requires
        t.wf(),
        node < t.len(),
    ensures
        r == spec_param_count(*t, node as int),
{
    match t.child_of_kind(node, "formal_parameters") {
        Some(p) => t.named_child_count_of(p),
        None => 0,
    }
}

} // verus!
