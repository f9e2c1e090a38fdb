//! Inputs of the Maintainability Index of each named function.
//!
//! The index itself, `171 − 5.2·ln(V) − 0.23·CC − 16.2·ln(LOC)` normalised to
//! `[0, 100]`, is a floating-point quantity computed by the application from the
//! Halstead counts, the cyclomatic complexity and the lines of code gathered here.
//! The Halstead counts are those of the first function of the same name.
use super::cyclo::{cyclomatic_complexity, spec_cyclomatic};
use super::halstead::{compute_for_node, halstead_functions, halstead_function_kinds, halstead_of, HalsteadMetrics};
use super::loc::{count_loc, spec_loc};
use crate::parse::{parse_succeeds, parse_typescript, parsed_from, ParseError};
use crate::syntax::{names, SyntaxTree};
use crate::walk::{find_all, lemma_count_where_step, select_where, WalkPlan};
use vstd::prelude::*;

verus! {

/// What the Maintainability Index of one function is computed from.
#[derive(Debug, Clone, PartialEq, Eq)]
pub struct MaintainabilityInputs {
    /// Function / method name, or `<anonymous>`.
    pub name: String,
    /// Halstead counts of the first function with this name.
    pub halstead: HalsteadMetrics,
    pub cyclomatic_complexity: usize,
    pub loc: usize,
}

/// Index in `fs` of the first function whose name is `name`.
pub open spec fn first_named(t: SyntaxTree, fs: Seq<usize>, name: Seq<char>) -> Option<int>
    decreases fs.len(),
{
    if fs.len() == 0 {
        None
    } else {
        match first_named(t, fs.drop_last(), name) {
            Some(i) => Some(i),
            None => if t.display_name(fs.last() as int) == name { Some(fs.len() - 1) } else { None },
        }
    }
}

/// `r` holds one entry per named function of `t`, in pre-order.
pub open spec fn inputs_measured(t: SyntaxTree, r: Seq<MaintainabilityInputs>) -> bool {
    let fs = halstead_functions(t);
    &&& r.len() == fs.len()
    &&& forall|k: int| 0 <= k < r.len() ==> {
        &&& (#[trigger] r[k]).name@ == t.display_name(fs[k] as int)
        &&& r[k].cyclomatic_complexity == spec_cyclomatic(t, fs[k] as int)
        &&& r[k].loc == spec_loc(t, fs[k] as int)
        &&& first_named(t, fs, r[k].name@) matches Some(i) && halstead_of(t, fs[i] as int, r[k].halstead)
    }
}

proof fn lemma_first_named_range(t: SyntaxTree, fs: Seq<usize>, name: Seq<char>)
    ensures
        first_named(t, fs, name) matches Some(i) ==> 0 <= i < fs.len(),
    decreases fs.len(),
{
    if fs.len() > 0 {
        lemma_first_named_range(t, fs.drop_last(), name);
    }
}

proof fn lemma_first_named_prefix(t: SyntaxTree, fs: Seq<usize>, k: int, name: Seq<char>)
    requires
        0 <= k < fs.len(),
        t.display_name(fs[k] as int) == name,
    ensures
        first_named(t, fs, name) matches Some(i) && 0 <= i <= k,
        first_named(t, fs.take(k + 1), name) == first_named(t, fs, name),
    decreases fs.len(),
{
    if k < fs.len() - 1 {
        assert(fs.drop_last().take(k + 1) =~= fs.take(k + 1));
        assert(fs.drop_last()[k] == fs[k]);
        lemma_first_named_prefix(t, fs.drop_last(), k, name);
    } else {
        assert(fs.take(k + 1) =~= fs);
        lemma_first_named_range(t, fs.drop_last(), name);
    }
}

/// Maintainability inputs of every named function of a tree, in pre-order.
pub fn compute_in_tree(t: &SyntaxTree) -> (r: Vec<MaintainabilityInputs>)
    requires
        t.wf(),
    ensures
        inputs_measured(*t, r@),
{
    let want: [&str; 6] = [
        "function_declaration",
        "function",
        "arrow_function",
        "generator_function",
        "generator_function_declaration",
        "method_definition",
    ];
    let none: [&str; 0] = [];
    proof {
        assert(names(want@) =~= halstead_function_kinds());
        assert(names(none@) =~= seq![]);
    }
    let plan = WalkPlan { want: &want, stop: &none, bump: &none, limit: usize::MAX, prune_wanted: false, stop_named_only: false, min_depth: 0 };
    let all = t.walk(0, 0, &plan);
    proof {
        t.lemma_walk_node(0, 0, plan.spec());
    }
    let ghost pred = |j: usize| t.named(j as int);
    let mut fs: Vec<usize> = Vec::new();
    let mut x: usize = 0;
    while x < all.len()
        invariant
            t.wf(),
            all@ == t.walk_node(0, 0, find_all(halstead_function_kinds())),
            forall|y: int| 0 <= y < all@.len() ==> #[trigger] all@[y] < t.len(),
            pred == (|j: usize| t.named(j as int)),
            x <= all@.len(),
            fs@ == select_where(all@.take(x as int), pred),
            forall|y: int| 0 <= y < fs@.len() ==> #[trigger] fs@[y] < t.len(),
        decreases all.len() - x,
    {
        proof {
            lemma_count_where_step(all@, x as int, pred);
        }
        if t.nodes[all[x]].named {
            fs.push(all[x]);
        }
        x = x + 1;
    }
    proof {
        assert(all@.take(all@.len() as int) =~= all@);
    }
    let mut out: Vec<MaintainabilityInputs> = Vec::new();
    let mut k: usize = 0;
    while k < fs.len()
        invariant
            t.wf(),
            fs@ == halstead_functions(*t),
            forall|y: int| 0 <= y < fs@.len() ==> #[trigger] fs@[y] < t.len(),
            k <= fs@.len(),
            out@.len() == k,
            forall|q: int| 0 <= q < k ==> {
                &&& (#[trigger] out@[q]).name@ == t.display_name(fs@[q] as int)
                &&& out@[q].cyclomatic_complexity == spec_cyclomatic(*t, fs@[q] as int)
                &&& out@[q].loc == spec_loc(*t, fs@[q] as int)
                &&& first_named(*t, fs@, out@[q].name@) matches Some(i) && halstead_of(*t, fs@[i] as int, out@[q].halstead)
            },
        decreases fs.len() - k,
    {
        let f = fs[k];
        let name = t.display_name_of(f);
        let mut i: usize = 0;
        while i < k && !crate::text::str_eq(t.display_name_of(fs[i]).as_str(), name.as_str())
            invariant
                t.wf(),
                forall|y: int| 0 <= y < fs@.len() ==> #[trigger] fs@[y] < t.len(),
                k < fs@.len(),
                i <= k,
                first_named(*t, fs@.take(i as int), name@) is None,
            decreases k - i,
        {
            proof {
                assert(fs@.take(i + 1).drop_last() =~= fs@.take(i as int));
            }
            i = i + 1;
        }
        proof {
            lemma_first_named_prefix(*t, fs@, k as int, name@);
            if i < k {
                assert(t.display_name(fs@[i as int] as int) == name@);
                lemma_first_named_prefix(*t, fs@, i as int, name@);
                assert(fs@.take(i + 1).drop_last() =~= fs@.take(i as int));
            } else {
                assert(fs@.take(k + 1).drop_last() =~= fs@.take(k as int));
            }
        }
        let halstead = compute_for_node(t, fs[i]);
        out.push(
            MaintainabilityInputs { name, halstead, cyclomatic_complexity: cyclomatic_complexity(t, f), loc: count_loc(t, f) },
        );
        k = k + 1;
    }
    out
}

/// Parse TypeScript `source` and gather the Maintainability Index inputs of every
/// named function in it.
pub fn compute(source: &str) -> (r: Result<Vec<MaintainabilityInputs>, ParseError>)
    ensures
        r is Ok <==> parse_succeeds(source@, false),
        r matches Ok(v) ==> exists|t: SyntaxTree| t.wf() && parsed_from(t, source@, false) && inputs_measured(t, v@),
{
    match parse_typescript(source) {
        Ok(t) => Ok(compute_in_tree(&t)),
        Err(e) => Err(e),
    }
}

} // verus!
