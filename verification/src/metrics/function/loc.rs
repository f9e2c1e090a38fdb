//! Lines of code of a node.
use crate::syntax::SyntaxTree;
use crate::text::{count_sloc_str, sloc_from};
use vstd::prelude::*;

verus! {

/// Lines spanned by node `node`, blank lines and comments included.
pub open spec fn spec_loc(t: SyntaxTree, node: int) -> int {
    t.nodes@[node].end_row - t.nodes@[node].start_row + 1
}

/// Count lines of code (including blank lines and comments) within a node.
pub fn count_loc(t: &SyntaxTree, node: usize) -> (r: usize)
    requires
        t.wf(),
        node < t.len(),
    ensures
        r == spec_loc(*t, node as int),
{
    proof {
        assert(t.nodes@[node as int].start_row <= t.nodes@[node as int].end_row < usize::MAX);
    }
    t.end_row_of(node) - t.start_row_of(node) + 1
}

/// Count significant lines of code of a node (excluding blank lines and comment-only lines).
pub fn count_sloc(t: &SyntaxTree, node: usize) -> (r: usize)
    requires
        node < t.len(),
    ensures
        r == sloc_from(t.text(node as int), 0),
{
    count_sloc_str(t.text_of(node))
}

} // verus!
