//! Render Complexity: branching of the JSX a component renders.
use crate::syntax::{names, SyntaxTree};
use crate::text::str_eq;
use crate::walk::{count_matching, count_where, find_all, pred_of, NodeTest, PlanSpec, WalkPlan};
use vstd::prelude::*;

verus! {

/// Kinds that put their subtree in JSX context.
pub open spec fn jsx_entry_kinds() -> Seq<Seq<char>> {
    seq!["jsx_element"@, "jsx_fragment"@, "jsx_self_closing_element"@, "jsx_expression"@]
}

/// Nodes in JSX context that may add render branches: expressions inside (strictly
/// below) a JSX element, fragment, self-closing element or expression container.
pub open spec fn render_plan() -> PlanSpec {
    (
        seq!["binary_expression"@, "ternary_expression"@, "call_expression"@],
        seq![],
        jsx_entry_kinds(),
        usize::MAX as int,
        false,
        false,
        1,
    )
}

/// `&&` conditional rendering: a binary expression with an `&&` token among its children.
pub struct AndRender;

impl NodeTest for AndRender {
    open spec fn holds(&self, t: SyntaxTree, j: int) -> bool {
        t.kind(j) == "binary_expression"@ && t.first_child_of_kind(j, "&&"@) is Some
    }

    fn test(&self, t: &SyntaxTree, j: usize) -> (r: bool) {
        t.is_kind(j, "binary_expression") && t.child_of_kind(j, "&&").is_some()
    }
}

/// A ternary expression.
pub struct TernaryRender;

impl NodeTest for TernaryRender {
    open spec fn holds(&self, t: SyntaxTree, j: int) -> bool {
        t.kind(j) == "ternary_expression"@
    }

    fn test(&self, t: &SyntaxTree, j: usize) -> (r: bool) {
        t.is_kind(j, "ternary_expression")
    }
}

/// A `.map(...)` call: a call whose callee is a member expression with property `map`.
pub struct MapRender;

impl NodeTest for MapRender {
    open spec fn holds(&self, t: SyntaxTree, j: int) -> bool {
        &&& t.kind(j) == "call_expression"@
        &&& t.child_by_field(j, "function"@) matches Some(f)
        &&& t.kind(f as int) == "member_expression"@
        &&& t.child_by_field(f as int, "property"@) matches Some(p)
        &&& t.text(p as int) == "map"@
    }

    fn test(&self, t: &SyntaxTree, j: usize) -> (r: bool) {
        if !t.is_kind(j, "call_expression") {
            return false;
        }
        match t.child_by_field_name(j, "function") {
            Some(f) => {
                if !t.is_kind(f, "member_expression") {
                    return false;
                }
                match t.child_by_field_name(f, "property") {
                    Some(p) => str_eq(t.text_of(p), "map"),
                    None => false,
                }
            },
            None => false,
        }
    }
}

/// Branches of rendered JSX.
#[derive(Debug, Clone, Copy, PartialEq, Eq, Default)]
pub struct RenderComplexity {
    /// 1 when the node renders any JSX, else 0.
    pub base: usize,
    /// `&&` conditional renders.
    pub conditional_and_count: usize,
    /// Ternary renders.
    pub ternary_count: usize,
    /// `.map()` list renders.
    pub map_count: usize,
    /// Sum of the above.
    pub total: usize,
}

/// `r` holds the render branches of `node`.
pub open spec fn render_of(t: SyntaxTree, node: int, r: RenderComplexity) -> bool {
    &&& r.base == if t.walk_node(node, 0, find_all(jsx_entry_kinds())).len() > 0 { 1int } else { 0int }
    &&& r.conditional_and_count == count_where(t.walk_node(node, 0, render_plan()), pred_of(AndRender, t))
    &&& r.ternary_count == count_where(t.walk_node(node, 0, render_plan()), pred_of(TernaryRender, t))
    &&& r.map_count == count_where(t.walk_node(node, 0, render_plan()), pred_of(MapRender, t))
    &&& r.total == r.base + r.conditional_and_count + r.ternary_count + r.map_count
}

/// Count the render branches of `node`.
pub fn compute_render_complexity(t: &SyntaxTree, node: usize) -> (r: RenderComplexity)
    requires
        t.wf(),
        node < t.len(),
    ensures
        render_of(*t, node as int, r),
{
    let want: [&str; 3] = ["binary_expression", "ternary_expression", "call_expression"];
    let entry: [&str; 4] = ["jsx_element", "jsx_fragment", "jsx_self_closing_element", "jsx_expression"];
    let none: [&str; 0] = [];
    proof {
        assert(names(want@) =~= render_plan().0);
        assert(names(entry@) =~= jsx_entry_kinds());
        assert(names(none@) =~= seq![]);
    }
    let plan = WalkPlan {
        want: &want,
        stop: &none,
        bump: &entry,
        limit: usize::MAX,
        prune_wanted: false,
        stop_named_only: false,
        min_depth: 1,
    };
    let found = t.walk(node, 0, &plan);
    let any_plan = WalkPlan {
        want: &entry,
        stop: &none,
        bump: &none,
        limit: usize::MAX,
        prune_wanted: false,
        stop_named_only: false,
        min_depth: 0,
    };
    let jsx = t.walk(node, 0, &any_plan);
    proof {
        t.lemma_walk_node(node as int, 0, plan.spec());
        t.lemma_walk_len(node as int, 0, plan.spec());
        assert(plan.spec() == render_plan());
        assert(any_plan.spec() == find_all(jsx_entry_kinds()));
    }
    let base: usize = if jsx.len() > 0 {
        1
    } else {
        0
    };
    let and_count = count_matching(t, &found, &AndRender);
    let ternary = count_matching(t, &found, &TernaryRender);
    let maps = count_matching(t, &found, &MapRender);
    proof {
        assert(found@.len() < usize::MAX);
        reveal_strlit("binary_expression");
        reveal_strlit("ternary_expression");
        reveal_strlit("call_expression");
        let (p1, p2, p3) = (pred_of(AndRender, *t), pred_of(TernaryRender, *t), pred_of(MapRender, *t));
        assert forall|x: usize| #![trigger p1(x)] !(p1(x) && p2(x)) && !(p1(x) && p3(x)) && !(p2(x) && p3(x)) by {
            assert("binary_expression"@[0] != "ternary_expression"@[0]);
            assert("binary_expression"@[0] != "call_expression"@[0]);
            assert("call_expression"@[0] != "ternary_expression"@[0]);
        }
        crate::walk::lemma_count_exclusive3(found@, pred_of(AndRender, *t), pred_of(TernaryRender, *t), pred_of(MapRender, *t));
    }
    RenderComplexity {
        base,
        conditional_and_count: and_count,
        ternary_count: ternary,
        map_count: maps,
        total: base + and_count + ternary + maps,
    }
}

} // verus!
