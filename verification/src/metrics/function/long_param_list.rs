//! Long Parameter List detection.
use crate::syntax::SyntaxTree;
use vstd::prelude::*;

verus! {

/// Parameter count above which a list is long.
pub const DEFAULT_THRESHOLD: usize = 4;

/// Outcome of a long-parameter-list check.
#[derive(Debug, Clone, Copy, PartialEq, Eq)]
pub struct LongParamListResult {
    pub param_count: usize,
    pub is_long: bool,
    pub threshold: usize,
}

/// Parameters counted from the children of `node` from position `c` on: a
/// `formal_parameters` child gives its named children; for an arrow function a bare
/// `identifier` child is one parameter.
pub open spec fn params_in_chain(t: SyntaxTree, node: int, c: int, e: int) -> int
    decreases e - c,
{
    if t.chain_ok(c, e) {
        if t.kind(c) == "formal_parameters"@ {
            t.named_child_count(c) as int
        } else if t.kind(c) == "identifier"@ && t.kind(node) == "arrow_function"@ {
            1
        } else {
            params_in_chain(t, node, t.end(c), e)
        }
    } else {
        0
    }
}

pub open spec fn spec_count_params(t: SyntaxTree, node: int) -> int {
    params_in_chain(t, node, node + 1, t.end(node))
}

fn count_params(t: &SyntaxTree, node: usize) -> (r: usize)
    requires
        t.wf(),
        node < t.len(),
    ensures
        r == spec_count_params(*t, node as int),
{
    let is_arrow = t.is_kind(node, "arrow_function");
    let e = t.nodes[node].end;
    proof {
        assert(node < t.end(node as int));
    }
    let mut c = node + 1;
    while c < e
        invariant
            t.wf(),
            node < t.len(),
            e == t.end(node as int),
            node < c <= e,
            is_arrow == (t.kind(node as int) == "arrow_function"@),
            params_in_chain(*t, node as int, c as int, e as int) == spec_count_params(*t, node as int),
        decreases e - c,
    {
        if t.is_kind(c, "formal_parameters") {
            return t.named_child_count_of(c);
        }
        if is_arrow && t.is_kind(c, "identifier") {
            return 1;
        }
        c = t.nodes[c].end;
    }
    0
}

/// Check a function against the default threshold.
pub fn check_long_param_list(t: &SyntaxTree, node: usize) -> (r: LongParamListResult)
    requires
        t.wf(),
        node < t.len(),
    ensures
        r.param_count == spec_count_params(*t, node as int),
        r.threshold == DEFAULT_THRESHOLD,
        r.is_long == (r.param_count > DEFAULT_THRESHOLD),
{
    check_with_threshold(t, node, DEFAULT_THRESHOLD)
}

/// Check a function against `threshold`: long when it has more parameters than that.
pub fn check_with_threshold(t: &SyntaxTree, node: usize, threshold: usize) -> (r: LongParamListResult)
    requires
        t.wf(),
        node < t.len(),
    ensures
        r.param_count == spec_count_params(*t, node as int),
        r.threshold == threshold,
        r.is_long == (r.param_count > threshold),
{
    let param_count = count_params(t, node);
    LongParamListResult { param_count, is_long: param_count > threshold, threshold }
}

} // verus!
