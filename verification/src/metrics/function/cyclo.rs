//! Cyclomatic complexity of a function.
use crate::syntax::{names, SyntaxTree};
use crate::walk::{count_matching, count_where, pred_of, NodeTest, WalkPlan};
use vstd::prelude::*;

verus! {

/// Function kinds whose bodies are measured on their own.
pub open spec fn nested_function_kinds() -> Seq<Seq<char>> {
    seq!["arrow_function"@, "function_expression"@, "function_declaration"@]
}

/// Node kinds that may open a decision path.  (`else_clause` is the complement of
/// `if`, not a separate path.)
pub open spec fn decision_kinds() -> Seq<Seq<char>> {
    seq![
        "if_statement"@,
        "while_statement"@,
        "do_statement"@,
        "for_statement"@,
        "for_in_statement"@,
        "switch_case"@,
        "catch_clause"@,
        "ternary_expression"@,
        "binary_expression"@,
    ]
}

/// Short-circuit operators that split control flow.
pub open spec fn logical_operators() -> Seq<Seq<char>> {
    seq!["&&"@, "||"@, "??"@]
}

/// A decision-kind node counts unless it is a binary expression whose operator
/// is not one of `&&`, `||`, `??`.
pub open spec fn counts_as_decision(t: SyntaxTree, j: int) -> bool {
    t.kind(j) != "binary_expression"@ || match t.child_by_field(j, "operator"@) {
        Some(o) => logical_operators().contains(t.text(o as int)),
        None => false,
    }
}

/// The test of [`counts_as_decision`].
pub struct DecisionTest;

impl NodeTest for DecisionTest {
    open spec fn holds(&self, t: SyntaxTree, j: int) -> bool {
        counts_as_decision(t, j)
    }

    fn test(&self, t: &SyntaxTree, j: usize) -> (r: bool) {
        decision_counts(t, j)
    }
}

/// Decision-kind nodes inside `node`, not looking into nested functions.
pub open spec fn decision_candidates(t: SyntaxTree, node: int) -> Seq<usize> {
    t.walk_node(node, 0, (decision_kinds(), nested_function_kinds(), seq![], usize::MAX as int, false, false, 0))
}

/// One plus the number of decision points of `node`.
pub open spec fn spec_cyclomatic(t: SyntaxTree, node: int) -> int {
    1 + count_where(decision_candidates(t, node), pred_of(DecisionTest, t)) as int
}

/// `true` when `s` is one of `&&`, `||`, `??`.
fn is_logical_operator(s: &str) -> (r: bool)
    ensures
        r == logical_operators().contains(s@),
{
    let ops: [&str; 3] = ["&&", "||", "??"];
    let r = crate::text::str_in(s, &ops);
    proof {
        assert(names(ops@) =~= logical_operators());
    }
    r
}

/// Whether decision-kind node `j` counts as a decision point.
fn decision_counts(t: &SyntaxTree, j: usize) -> (r: bool)
    requires
        t.wf(),
        j < t.len(),
    ensures
        r == counts_as_decision(*t, j as int),
{
    if !t.is_kind(j, "binary_expression") {
        return true;
    }
    match t.child_by_field_name(j, "operator") {
        Some(o) => is_logical_operator(t.text_of(o)),
        None => false,
    }
}

/// Cyclomatic complexity of the function at `node`: 1 plus one per decision
/// point, not counting decision points inside nested functions (they are measured
/// on their own).
pub fn cyclomatic_complexity(t: &SyntaxTree, node: usize) -> (r: usize)
    requires
        t.wf(),
        node < t.len(),
    ensures
        r == spec_cyclomatic(*t, node as int),
{
    let want: [&str; 9] = [
        "if_statement",
        "while_statement",
        "do_statement",
        "for_statement",
        "for_in_statement",
        "switch_case",
        "catch_clause",
        "ternary_expression",
        "binary_expression",
    ];
    let stop: [&str; 3] = ["arrow_function", "function_expression", "function_declaration"];
    let bump: [&str; 0] = [];
    let plan = WalkPlan {
        want: &want,
        stop: &stop,
        bump: &bump,
        limit: usize::MAX,
        prune_wanted: false,
        stop_named_only: false,
        min_depth: 0,
    };
    proof {
        assert(names(want@) =~= decision_kinds());
        assert(names(stop@) =~= nested_function_kinds());
        assert(names(bump@) =~= seq![]);
    }
    let cands = t.walk(node, 0, &plan);
    proof {
        t.lemma_walk_len(node as int, 0, plan.spec());
        t.lemma_walk_node(node as int, 0, plan.spec());
    }
    let n = count_matching(t, &cands, &DecisionTest);
    1 + n
}

/// The cyclomatic complexity of a node lies between 1 and one more than the size of its subtree.
pub proof fn lemma_cyclomatic_bound(t: SyntaxTree, node: int)
    requires
        t.wf(),
        0 <= node < t.len(),
    ensures
        1 <= spec_cyclomatic(t, node) <= t.end(node) - node + 1,
{
    let p = (decision_kinds(), nested_function_kinds(), seq![], usize::MAX as int, false, false, 0);
    t.lemma_walk_len(node, 0, p);
    crate::walk::lemma_count_where_le(decision_candidates(t, node), pred_of(DecisionTest, t));
}

/// A node that is no decision point itself has a cyclomatic complexity of at most the
/// size of its subtree.
pub proof fn lemma_cyclomatic_within_subtree(t: SyntaxTree, node: int)
    requires
        t.wf(),
        0 <= node < t.len(),
        !decision_kinds().contains(t.kind(node)),
    ensures
        spec_cyclomatic(t, node) <= t.end(node) - node,
{
    let p = (decision_kinds(), nested_function_kinds(), seq![], usize::MAX as int, false, false, 0);
    let w = t.walk_node(node, 0, p);
    t.lemma_walk_node(node, 0, p);
    assert forall|x: int| 0 <= x < w.len() implies node + 1 <= #[trigger] w[x] < t.end(node) by {
        assert(decision_kinds().contains(t.kind(w[x] as int)));
    }
    crate::walk::lemma_increasing_len(w, node + 1, t.end(node));
    crate::walk::lemma_count_where_le(decision_candidates(t, node), pred_of(DecisionTest, t));
}

/// Method definitions and abstract method signatures are no decision points.
pub proof fn lemma_methods_are_no_decisions()
    ensures
        !decision_kinds().contains("method_definition"@),
        !decision_kinds().contains("abstract_method_signature"@),
{
    reveal_strlit("method_definition");
    reveal_strlit("abstract_method_signature");
    reveal_strlit("if_statement");
    reveal_strlit("while_statement");
    reveal_strlit("do_statement");
    reveal_strlit("for_statement");
    reveal_strlit("for_in_statement");
    reveal_strlit("switch_case");
    reveal_strlit("catch_clause");
    reveal_strlit("ternary_expression");
    reveal_strlit("binary_expression");
    let d = decision_kinds();
    let m = "method_definition"@;
    let a = "abstract_method_signature"@;
    assert(d[0].len() != m.len() && d[0].len() != a.len());
    assert(d[1].len() != m.len() && d[1].len() != a.len());
    assert(d[2].len() != m.len() && d[2].len() != a.len());
    assert(d[3].len() != m.len() && d[3].len() != a.len());
    assert(d[4].len() != m.len() && d[4].len() != a.len());
    assert(d[5].len() != m.len() && d[5].len() != a.len());
    assert(d[6].len() != m.len() && d[6].len() != a.len());
    assert(d[7].len() != m.len() && d[7].len() != a.len());
    assert(d[8][0] != m[0] && d[8].len() != a.len());
    assert forall|i: int| 0 <= i < d.len() implies d[i] != m && d[i] != a by {
        if i == 8 {
            assert(d[8][0] != m[0]);
        }
    }
}

} // verus!
