pub mod hook_complexity;

use crate::syntax::SyntaxTree;
use vstd::prelude::*;

verus! {

/// Function kinds that open a new function scope.
pub open spec fn scope_kinds() -> Seq<Seq<char>> {
    seq!["arrow_function"@, "function_expression"@, "function_declaration"@, "method_definition"@]
}

/// The name called by call expression `j` when its callee is a plain identifier.
pub open spec fn called_identifier(t: SyntaxTree, j: int) -> Option<Seq<char>> {
    if t.kind(j) == "call_expression"@ {
        match t.child_by_field(j, "function"@) {
            Some(f) => if t.kind(f as int) == "identifier"@ {
                Some(t.text(f as int))
            } else {
                None
            },
            None => None,
        }
    } else {
        None
    }
}

/// The name called by call expression `j` when its callee is a plain identifier.
pub fn called_identifier_of(t: &SyntaxTree, j: usize) -> (r: Option<&str>)
    requires
        t.wf(),
        j < t.len(),
    ensures
        r matches Some(s) ==> called_identifier(*t, j as int) == Some(s@),
        r is None ==> called_identifier(*t, j as int) is None,
{
    if !t.is_kind(j, "call_expression") {
        return None;
    }
    match t.child_by_field_name(j, "function") {
        Some(f) => if t.is_kind(f, "identifier") {
            Some(t.text_of(f))
        } else {
            None
        },
        None => None,
    }
}

/// Call expressions reached from `node` at depth `d`, not looking below the second
/// function scope level.
pub open spec fn scoped_calls(t: SyntaxTree, node: int, d: int) -> Seq<usize> {
    t.walk_node(node, d, (seq!["call_expression"@], seq![], scope_kinds(), 2, false, false, 0))
}

/// Call expression `j` calls one of `callees` by a plain identifier.
pub open spec fn calls_one_of(t: SyntaxTree, callees: Seq<Seq<char>>) -> spec_fn(usize) -> bool {
    |j: usize| called_identifier(t, j as int) matches Some(n) && callees.contains(n)
}

/// Number of calls in [`scoped_calls`] whose callee is a plain identifier among `callees`.
pub fn count_scoped_calls(t: &SyntaxTree, node: usize, d: usize, callees: &[&str]) -> (r: usize)
    requires
        t.wf(),
        node < t.len(),
        d <= 2,
    ensures
        r == crate::walk::count_where(scoped_calls(*t, node as int, d as int), calls_one_of(*t, crate::syntax::names(callees@))),
{
    let want: [&str; 1] = ["call_expression"];
    let stop: [&str; 0] = [];
    let bump: [&str; 4] = ["arrow_function", "function_expression", "function_declaration", "method_definition"];
    proof {
        assert(crate::syntax::names(want@) =~= seq!["call_expression"@]);
        assert(crate::syntax::names(stop@) =~= seq![]);
        assert(crate::syntax::names(bump@) =~= scope_kinds());
    }
    let plan = crate::walk::WalkPlan {
        want: &want,
        stop: &stop,
        bump: &bump,
        limit: 2,
        prune_wanted: false,
        stop_named_only: false,
        min_depth: 0,
    };
    let cands = t.walk(node, d, &plan);
    proof {
        t.lemma_walk_node(node as int, d as int, plan.spec());
    }
    let ghost pred = calls_one_of(*t, crate::syntax::names(callees@));
    let mut n: usize = 0;
    let mut x: usize = 0;
    while x < cands.len()
        invariant
            t.wf(),
            forall|y: int| 0 <= y < cands@.len() ==> #[trigger] cands@[y] < t.len(),
            x <= cands@.len(),
            n <= x,
            pred == calls_one_of(*t, crate::syntax::names(callees@)),
            n == crate::walk::count_where(cands@.take(x as int), pred),
        decreases cands.len() - x,
    {
        proof {
            crate::walk::lemma_count_where_step(cands@, x as int, pred);
        }
        match called_identifier_of(t, cands[x]) {
            Some(name) => {
                if crate::text::str_in(name, callees) {
                    n = n + 1;
                }
            },
            None => {},
        }
        x = x + 1;
    }
    proof {
        assert(cands@.take(cands@.len() as int) =~= cands@);
    }
    n
}

/// Number of occurrences of `k` in `s`.
pub open spec fn occurrences(s: Seq<Seq<char>>, k: Seq<char>) -> nat
    decreases s.len(),
{
    if s.len() == 0 {
        0
    } else {
        occurrences(s.drop_last(), k) + (if s.last() == k { 1nat } else { 0nat })
    }
}

pub proof fn lemma_occurrences_le(s: Seq<Seq<char>>, k: Seq<char>)
    ensures
        occurrences(s, k) <= s.len(),
    decreases s.len(),
{
    if s.len() > 0 {
        lemma_occurrences_le(s.drop_last(), k);
    }
}

/// Number of strings of `v` equal to `k`.
pub fn count_occurrences(v: &Vec<String>, k: &str) -> (r: usize)
    ensures
        r == occurrences(crate::strset::views(v@), k@),
{
    let mut n: usize = 0;
    let mut i: usize = 0;
    while i < v.len()
        invariant
            i <= v@.len(),
            n <= i,
            n == occurrences(crate::strset::views(v@.take(i as int)), k@),
        decreases v.len() - i,
    {
        proof {
            assert(crate::strset::views(v@.take(i + 1)).drop_last() =~= crate::strset::views(v@.take(i as int)));
        }
        if crate::text::str_eq(v[i].as_str(), k) {
            n = n + 1;
        }
        i = i + 1;
    }
    proof {
        assert(v@.take(v@.len() as int) =~= v@);
    }
    n
}

} // verus!
pub mod effect_density;
pub mod jsx_nesting;
pub mod component_responsibility;
pub mod render_complexity;
pub mod prop_drilling;
pub mod used_components;
pub mod hook_cohesion;
