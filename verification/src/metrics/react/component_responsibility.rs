//! Component Responsibility: how many concerns a React component carries.
//!
//! The weighted score (a floating-point sum) is computed by the application from
//! these counts.
use super::{calls_one_of, count_scoped_calls, scoped_calls};
use super::effect_density::effect_hooks;
use crate::syntax::{names, SyntaxTree};
use crate::walk::{count_matching, count_where, find_all, pred_of, KindTest, WalkPlan};
use vstd::prelude::*;

verus! {

/// Counts behind a component's responsibility score.
#[derive(Debug, Clone, Copy, PartialEq, Eq, Default)]
pub struct ComponentResponsibilityScore {
    pub prop_count: usize,
    pub state_count: usize,
    pub effect_count: usize,
    pub jsx_element_count: usize,
}

/// Hooks that hold component state.
pub open spec fn state_hooks() -> Seq<Seq<char>> {
    seq!["useState"@, "useReducer"@]
}

/// Children that count as one prop each in a parameter list.
pub open spec fn param_item_kinds() -> Seq<Seq<char>> {
    seq!["required_parameter"@, "optional_parameter"@, "rest_parameter"@, "identifier"@]
}

/// Props counted from the children of `node` from position `c` on: the first
/// `formal_parameters` child gives its parameter items; for an arrow function a
/// bare `identifier` child is one prop.
pub open spec fn props_in_chain(t: SyntaxTree, node: int, c: int, e: int) -> int
    decreases e - c,
{
    if t.chain_ok(c, e) {
        if t.kind(c) == "formal_parameters"@ {
            count_where(t.children(c), |j: usize| param_item_kinds().contains(t.kind(j as int))) as int
        } else if t.kind(c) == "identifier"@ && t.kind(node) == "arrow_function"@ {
            1
        } else {
            props_in_chain(t, node, t.end(c), e)
        }
    } else {
        0
    }
}

pub open spec fn spec_prop_count(t: SyntaxTree, node: int) -> int {
    props_in_chain(t, node, node + 1, t.end(node))
}

/// Hook calls of kind `hooks` made directly in `node`'s body.
pub open spec fn body_hook_calls(t: SyntaxTree, node: int, hooks: Seq<Seq<char>>) -> nat {
    match t.child_by_field(node, "body"@) {
        Some(b) => count_where(scoped_calls(t, b as int, 1), calls_one_of(t, hooks)),
        None => 0,
    }
}

/// JSX elements, self-closing elements and fragments in the subtree of `node`.
pub open spec fn jsx_element_kinds() -> Seq<Seq<char>> {
    seq!["jsx_element"@, "jsx_self_closing_element"@, "jsx_fragment"@]
}

fn count_props(t: &SyntaxTree, node: usize) -> (r: usize)
    requires
        t.wf(),
        node < t.len(),
    ensures
        r == spec_prop_count(*t, node as int),
{
    let is_arrow = t.is_kind(node, "arrow_function");
    let e = t.nodes[node].end;
    proof {
        assert(node < t.end(node as int));
    }
    let mut c = node + 1;
    while c < e
        invariant
            t.wf(),
            node < t.len(),
            e == t.end(node as int),
            node < c <= e,
            is_arrow == (t.kind(node as int) == "arrow_function"@),
            props_in_chain(*t, node as int, c as int, e as int) == spec_prop_count(*t, node as int),
        decreases e - c,
    {
        if t.is_kind(c, "formal_parameters") {
            let kids = t.children_of(c);
            let kinds: [&str; 4] = ["required_parameter", "optional_parameter", "rest_parameter", "identifier"];
            let test = KindTest { kinds: &kinds };
            proof {
                assert(names(kinds@) =~= param_item_kinds());
                t.lemma_children_bounds(c as int);
                assert(pred_of(test, *t) =~= (|j: usize| param_item_kinds().contains(t.kind(j as int))));
            }
            return count_matching(t, &kids, &test);
        }
        if is_arrow && t.is_kind(c, "identifier") {
            return 1;
        }
        c = t.nodes[c].end;
    }
    0
}

/// `r` holds the props, state hooks, effect hooks and JSX elements of component `node`.
pub open spec fn responsibility_of(t: SyntaxTree, node: int, r: ComponentResponsibilityScore) -> bool {
    &&& r.prop_count == spec_prop_count(t, node)
    &&& r.state_count == body_hook_calls(t, node, state_hooks())
    &&& r.effect_count == body_hook_calls(t, node, effect_hooks())
    &&& r.jsx_element_count == t.walk_node(node, 0, find_all(jsx_element_kinds())).len()
}

/// Count props, state hooks, effect hooks and JSX elements of a component.
pub fn compute_component_responsibility(t: &SyntaxTree, node: usize) -> (r: ComponentResponsibilityScore)
    requires
        t.wf(),
        node < t.len(),
    ensures
        responsibility_of(*t, node as int, r),
{
    let prop_count = count_props(t, node);
    let state: [&str; 2] = ["useState", "useReducer"];
    let effects: [&str; 3] = ["useEffect", "useLayoutEffect", "useInsertionEffect"];
    proof {
        assert(names(state@) =~= state_hooks());
        assert(names(effects@) =~= effect_hooks());
    }
    let (state_count, effect_count) = match t.child_by_field_name(node, "body") {
        Some(b) => (count_scoped_calls(t, b, 1, &state), count_scoped_calls(t, b, 1, &effects)),
        None => (0, 0),
    };
    let kinds: [&str; 3] = ["jsx_element", "jsx_self_closing_element", "jsx_fragment"];
    let stop: [&str; 0] = [];
    let bump: [&str; 0] = [];
    proof {
        assert(names(kinds@) =~= jsx_element_kinds());
        assert(names(stop@) =~= seq![]);
        assert(names(bump@) =~= seq![]);
    }
    let plan = WalkPlan { want: &kinds, stop: &stop, bump: &bump, limit: usize::MAX, prune_wanted: false, stop_named_only: false, min_depth: 0 };
    let jsx = t.walk(node, 0, &plan);
    ComponentResponsibilityScore { prop_count, state_count, effect_count, jsx_element_count: jsx.len() }
}

} // verus!
