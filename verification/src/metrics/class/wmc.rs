//! Weighted Methods per Class (WMC): the sum of the cyclomatic complexities of a
//! class's methods (method definitions and abstract method signatures).
use crate::metrics::function::cyclo::{cyclomatic_complexity, decision_kinds, lemma_cyclomatic_within_subtree, lemma_methods_are_no_decisions, spec_cyclomatic};
use crate::syntax::SyntaxTree;
use crate::walk::{lemma_count_where_step, select_where};
use vstd::prelude::*;

verus! {

/// The first `class_body` child of class `c`, if any.
pub open spec fn class_body(t: SyntaxTree, c: int) -> Option<usize> {
    t.first_child_of_kind(c, "class_body"@)
}

pub open spec fn is_wmc_method(t: SyntaxTree) -> spec_fn(usize) -> bool {
    |m: usize| t.kind(m as int) == "method_definition"@ || t.kind(m as int) == "abstract_method_signature"@
}

/// The methods of class `c` counted by WMC, in order.
pub open spec fn wmc_methods(t: SyntaxTree, c: int) -> Seq<usize> {
    match class_body(t, c) {
        Some(b) => select_where(t.children(b as int), is_wmc_method(t)),
        None => seq![],
    }
}

/// Sum of the cyclomatic complexities of the nodes of `s`.
pub open spec fn sum_cc(t: SyntaxTree, s: Seq<usize>) -> int
    decreases s.len(),
{
    if s.len() == 0 {
        0
    } else {
        sum_cc(t, s.drop_last()) + spec_cyclomatic(t, s.last() as int)
    }
}

/// The WMC of class `c`.
pub open spec fn spec_wmc(t: SyntaxTree, c: int) -> int {
    sum_cc(t, wmc_methods(t, c))
}

/// Children of the first `class_body` child of `c` that are methods.
fn methods_of(t: &SyntaxTree, c: usize) -> (r: Vec<usize>)
    requires
        t.wf(),
        c < t.len(),
    ensures
        r@ == wmc_methods(*t, c as int),
        forall|k: int| 0 <= k < r@.len() ==> c < #[trigger] r@[k] < t.end(c as int),
        forall|k: int| 0 <= k < r@.len() ==> t.end(#[trigger] r@[k] as int) <= t.end(c as int),
        forall|k: int| 0 <= k < r@.len() - 1 ==> t.end(#[trigger] r@[k] as int) <= r@[k + 1],
        forall|k: int| 0 <= k < r@.len() ==> is_wmc_method(*t)(#[trigger] r@[k]),
        r@.len() < t.len(),
{
    let b = match t.child_of_kind(c, "class_body") {
        Some(b) => b,
        None => return Vec::new(),
    };
    proof {
        assert(b < t.end(c as int) <= t.len());
        assert(t.end(b as int) <= t.end(c as int));
        t.lemma_children_bounds(b as int);
        assert forall|k: int| b + 1 <= k < t.end(b as int) implies #[trigger] t.end(k) <= t.end(b as int) by {
            assert(b < k < t.end(b as int));
        }
        t.lemma_chain_next(b + 1, t.end(b as int));
    }
    let kids = t.children_of(b);
    let ghost pred = is_wmc_method(*t);
    let mut out: Vec<usize> = Vec::new();
    let mut x: usize = 0;
    while x < kids.len()
        invariant
            t.wf(),
            c < t.len(),
            b < t.len(),
            c < b,
            t.end(b as int) <= t.end(c as int),
            kids@ == t.children(b as int),
            forall|k: int| 0 <= k < kids@.len() ==> b < #[trigger] kids@[k] < t.end(b as int),
            pred == is_wmc_method(*t),
            x <= kids@.len(),
            out@ == select_where(kids@.take(x as int), pred),
            forall|k: int| 0 <= k < out@.len() ==> c < #[trigger] out@[k] < t.end(c as int),
            forall|q: int| 0 <= q < kids@.len() ==> t.end(#[trigger] kids@[q] as int) <= t.end(b as int),
            forall|q: int| 0 <= q < kids@.len() - 1 ==> #[trigger] kids@[q + 1] == t.end(kids@[q] as int),
            forall|k: int| 0 <= k < out@.len() ==> t.end(#[trigger] out@[k] as int) <= t.end(c as int),
            forall|k: int| 0 <= k < out@.len() - 1 ==> t.end(#[trigger] out@[k] as int) <= out@[k + 1],
            out@.len() > 0 && x < kids@.len() ==> t.end(out@.last() as int) <= kids@[x as int],
            forall|k: int| 0 <= k < out@.len() ==> pred(#[trigger] out@[k]),
        decreases kids.len() - x,
    {
        proof {
            lemma_count_where_step(kids@, x as int, pred);
        }
        let m = kids[x];
        let ghost before = out@;
        proof {
            assert(m < t.end(m as int));
            if x + 1 < kids@.len() {
                assert(kids@[x + 1] == t.end(m as int));
            }
        }
        if t.is_kind(m, "method_definition") || t.is_kind(m, "abstract_method_signature") {
            out.push(m);
            proof {
                assert forall|k: int| 0 <= k < out@.len() - 1 implies t.end(#[trigger] out@[k] as int) <= out@[k + 1] by {
                    if k < before.len() - 1 {
                        assert(out@[k] == before[k] && out@[k + 1] == before[k + 1]);
                    } else {
                        assert(out@[k] == before.last());
                    }
                }
            }
        }
        x = x + 1;
    }
    proof {
        assert(kids@.take(kids@.len() as int) =~= kids@);
        crate::walk::lemma_count_where_le(kids@, pred);
        t.lemma_chain_len(b + 1, t.end(b as int));
    }
    out
}

/// Compute the Weighted Methods per Class (WMC) of class `c`.
#[verifier::rlimit(60)]
pub fn compute_wmc(t: &SyntaxTree, c: usize) -> (r: usize)
    requires
        t.wf(),
        c < t.len(),
    ensures
        r == spec_wmc(*t, c as int),
{
    let ms = methods_of(t, c);
    proof {
        lemma_methods_are_no_decisions();
        assert forall|k: int| 0 <= k < ms@.len() implies !decision_kinds().contains(t.kind(#[trigger] ms@[k] as int)) by {
            assert(is_wmc_method(*t)(ms@[k]));
        }
    }
    let mut sum: usize = 0;
    let mut x: usize = 0;
    while x < ms.len()
        invariant
            t.wf(),
            c < t.len(),
            forall|k: int| 0 <= k < ms@.len() ==> c < #[trigger] ms@[k] < t.end(c as int),
            forall|k: int| 0 <= k < ms@.len() ==> t.end(#[trigger] ms@[k] as int) <= t.end(c as int),
            forall|k: int| 0 <= k < ms@.len() - 1 ==> t.end(#[trigger] ms@[k] as int) <= ms@[k + 1],
            forall|k: int| 0 <= k < ms@.len() ==> !decision_kinds().contains(t.kind(#[trigger] ms@[k] as int)),
            x <= ms@.len(),
            sum == sum_cc(*t, ms@.take(x as int)),
            x == 0 ==> sum == 0,
            x > 0 ==> sum <= t.end(ms@[x - 1] as int) - c,
        decreases ms.len() - x,
    {
        let m = ms[x];
        proof {
            assert(ms@.take(x + 1).drop_last() =~= ms@.take(x as int));
            assert(c < m < t.end(c as int) <= t.len());
            lemma_cyclomatic_within_subtree(*t, m as int);
            if x > 0 {
                assert(t.end(ms@[x - 1] as int) <= m);
            }
        }
        let cc = cyclomatic_complexity(t, m);
        sum = sum + cc;
        x = x + 1;
    }
    proof {
        assert(ms@.take(ms@.len() as int) =~= ms@);
    }
    sum
}

/// Count the methods (constructor, accessors and abstract signatures included) of class `c`.
pub fn count_methods(t: &SyntaxTree, c: usize) -> (r: usize)
    requires
        t.wf(),
        c < t.len(),
    ensures
        r == wmc_methods(*t, c as int).len(),
{
    methods_of(t, c).len()
}

/// Extract the class name, or `<anonymous>`.
pub fn extract_class_name(t: &SyntaxTree, c: usize) -> (r: String)
    requires
        t.wf(),
        c < t.len(),
    ensures
        r@ == t.display_name(c as int),
{
    t.display_name_of(c)
}

} // verus!
