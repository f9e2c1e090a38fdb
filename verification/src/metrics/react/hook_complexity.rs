//! Hook Complexity: React hook calls made directly by a component or hook.
use super::{called_identifier, called_identifier_of, count_occurrences, occurrences, scope_kinds};
use crate::strset::{dedup, lemma_dedup, sort_unique, sorted_strict, views};
use crate::syntax::{names, SyntaxTree};
use crate::text::{chars_of, char_is_uppercase, is_upper, starts_with, str_in};
use crate::walk::{select_where, WalkPlan};
use vstd::prelude::*;

verus! {

/// The built-in React hooks.
pub open spec fn react_hooks() -> Seq<Seq<char>> {
    seq![
        "useState"@,
        "useEffect"@,
        "useContext"@,
        "useReducer"@,
        "useCallback"@,
        "useMemo"@,
        "useRef"@,
        "useImperativeHandle"@,
        "useLayoutEffect"@,
        "useDebugValue"@,
        "useId"@,
        "useTransition"@,
        "useDeferredValue"@,
        "useSyncExternalStore"@,
        "useInsertionEffect"@,
    ]
}

/// A hook name starts with `use` and is a built-in hook, `use` itself, or has an
/// upper-case character right after `use`.
pub open spec fn spec_is_hook_name(s: Seq<char>) -> bool {
    &&& "use"@.is_prefix_of(s)
    &&& (react_hooks().contains(s) || s.len() == 3 || (s.len() > 3 && is_upper(s[3])))
}

/// `true` when `name` is a React hook name.
pub fn is_hook_name(name: &str) -> (r: bool)
    ensures
        r == spec_is_hook_name(name@),
        "use"@.is_prefix_of(name@) && !react_hooks().contains(name@) && name@.len() > 3
            && crate::text::is_ascii_char(name@[3]) ==> (r <==> 65 <= (name@[3] as u32) <= 90),
{
    proof {
        reveal_strlit("use");
    }
    if !starts_with(name, "use") {
        return false;
    }
    let hooks: [&str; 15] = [
        "useState",
        "useEffect",
        "useContext",
        "useReducer",
        "useCallback",
        "useMemo",
        "useRef",
        "useImperativeHandle",
        "useLayoutEffect",
        "useDebugValue",
        "useId",
        "useTransition",
        "useDeferredValue",
        "useSyncExternalStore",
        "useInsertionEffect",
    ];
    proof {
        assert(names(hooks@) =~= react_hooks());
    }
    if str_in(name, &hooks) {
        return true;
    }
    let cs = chars_of(name);
    cs.len() == 3 || (cs.len() > 3 && char_is_uppercase(cs[3]))
}

/// Call expressions made from `node` at most one function scope deep: calls inside
/// functions nested in a function below `node` are not looked at.
pub open spec fn call_candidates(t: SyntaxTree, node: int) -> Seq<usize> {
    t.walk_node(node, 0, (seq!["call_expression"@], seq![], scope_kinds(), 2, false, false, 0))
}

pub open spec fn is_hook_call(t: SyntaxTree) -> spec_fn(usize) -> bool {
    |j: usize| called_identifier(t, j as int) matches Some(n) && spec_is_hook_name(n)
}

/// The names of the hooks called, in order of appearance.
pub open spec fn hook_calls(t: SyntaxTree, node: int) -> Seq<Seq<char>> {
    select_where(call_candidates(t, node), is_hook_call(t)).map_values(
        |j: usize| called_identifier(t, j as int).unwrap(),
    )
}

/// Hook calls of a component or hook.
#[derive(Debug, Clone, PartialEq, Eq)]
pub struct HookComplexity {
    /// Total hook calls.
    pub hook_count: usize,
    /// Distinct hooks called.
    pub distinct_hooks: usize,
    /// Each hook called with its number of calls, by name in increasing order.
    pub hook_breakdown: Vec<(String, usize)>,
}

/// Count the hook calls of `node` (at most one function scope deep).
pub fn compute_hook_complexity(t: &SyntaxTree, node: usize) -> (r: HookComplexity)
    requires
        t.wf(),
        node < t.len(),
    ensures
        ({
            let calls = hook_calls(*t, node as int);
            let keys = r.hook_breakdown@.map_values(|e: (String, usize)| e.0@);
            &&& r.hook_count == calls.len()
            &&& r.distinct_hooks == dedup(calls).len()
            &&& sorted_strict(keys)
            &&& keys.to_set() == calls.to_set()
            &&& forall|i: int| 0 <= i < r.hook_breakdown@.len() ==> #[trigger] r.hook_breakdown@[i].1 == occurrences(calls, keys[i])
        }),
{
    let want: [&str; 1] = ["call_expression"];
    let stop: [&str; 0] = [];
    let bump: [&str; 4] = ["arrow_function", "function_expression", "function_declaration", "method_definition"];
    proof {
        assert(names(want@) =~= seq!["call_expression"@]);
        assert(names(stop@) =~= seq![]);
        assert(names(bump@) =~= scope_kinds());
    }
    let plan = WalkPlan { want: &want, stop: &stop, bump: &bump, limit: 2, prune_wanted: false, stop_named_only: false, min_depth: 0 };
    let cands = t.walk(node, 0, &plan);
    proof {
        t.lemma_walk_node(node as int, 0, plan.spec());
    }
    let ghost pred = is_hook_call(*t);
    let ghost getn = |j: usize| called_identifier(*t, j as int).unwrap();
    let mut found: Vec<String> = Vec::new();
    let mut x: usize = 0;
    while x < cands.len()
        invariant
            t.wf(),
            cands@ == call_candidates(*t, node as int),
            forall|y: int| 0 <= y < cands@.len() ==> #[trigger] cands@[y] < t.len(),
            x <= cands@.len(),
            pred == is_hook_call(*t),
            getn == (|j: usize| called_identifier(*t, j as int).unwrap()),
            views(found@) == select_where(cands@.take(x as int), pred).map_values(getn),
        decreases cands.len() - x,
    {
        let j = cands[x];
        proof {
            crate::walk::lemma_count_where_step(cands@, x as int, pred);
        }
        match called_identifier_of(t, j) {
            Some(n) => {
                if is_hook_name(n) {
                    found.push(n.to_owned());
                    proof {
                        let before = select_where(cands@.take(x as int), pred);
                        assert(select_where(cands@.take(x + 1), pred) =~= before.push(j));
                        assert(before.push(j).map_values(getn) =~= before.map_values(getn).push(n@));
                        assert(views(found@) =~= before.map_values(getn).push(n@));
                    }
                } else {
                    proof {
                        assert(select_where(cands@.take(x + 1), pred) =~= select_where(cands@.take(x as int), pred));
                    }
                }
            },
            None => {
                proof {
                    assert(select_where(cands@.take(x + 1), pred) =~= select_where(cands@.take(x as int), pred));
                }
            },
        }
        x = x + 1;
    }
    proof {
        assert(cands@.take(cands@.len() as int) =~= cands@);
    }
    let keys = sort_unique(&found);
    let mut breakdown: Vec<(String, usize)> = Vec::new();
    let mut i: usize = 0;
    while i < keys.len()
        invariant
            i <= keys@.len(),
            breakdown@.len() == i,
            forall|q: int| 0 <= q < i ==> #[trigger] breakdown@[q].0@ == keys@[q]@,
            forall|q: int| 0 <= q < i ==> #[trigger] breakdown@[q].1 == occurrences(views(found@), keys@[q]@),
        decreases keys.len() - i,
    {
        let c = count_occurrences(&found, keys[i].as_str());
        breakdown.push((keys[i].clone(), c));
        i = i + 1;
    }
    proof {
        lemma_dedup(views(found@));
        let k2 = breakdown@.map_values(|e: (String, usize)| e.0@);
        assert(k2 =~= views(keys@));
        assert forall|q: int| 0 <= q < breakdown@.len() implies #[trigger] breakdown@[q].1 == occurrences(views(found@), k2[q]) by {
            assert(k2[q] == keys@[q]@);
        }
    }
    HookComplexity { hook_count: found.len(), distinct_hooks: keys.len(), hook_breakdown: breakdown }
}

} // verus!
