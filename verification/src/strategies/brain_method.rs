//! Brain Method: a function that is long, branchy and deeply nested at once.
use crate::metrics::function::FunctionMetrics;
use vstd::prelude::*;

verus! {

/// Thresholds that define a Brain Method; a function must exceed all three.
#[derive(Debug, Clone, Copy, PartialEq, Eq)]
pub struct BrainMethodConfig {
    pub loc_threshold: usize,
    pub cc_threshold: usize,
    pub nesting_threshold: usize,
}

impl Default for BrainMethodConfig {
    /// Lanza & Marinescu's reference values: lines > 65, complexity > 5, nesting > 3.
    fn default() -> (r: Self)
        ensures
            r.loc_threshold == 65 && r.cc_threshold == 5 && r.nesting_threshold == 3,
    {
        BrainMethodConfig { loc_threshold: 65, cc_threshold: 5, nesting_threshold: 3 }
    }
}

/// A function detected as a Brain Method.
#[derive(Debug, Clone, PartialEq, Eq)]
pub struct BrainMethodResult {
    pub name: String,
    pub file: String,
    pub line: usize,
    pub loc: usize,
    pub cyclomatic_complexity: usize,
    pub max_nesting: usize,
}

/// `f` exceeds every threshold of `c` (its lines counted without blank and comment lines).
pub open spec fn is_brain_method(f: FunctionMetrics, c: BrainMethodConfig) -> bool {
    f.sloc > c.loc_threshold && f.cyclomatic_complexity > c.cc_threshold && f.max_nesting > c.nesting_threshold
}

/// `r` reports function `f`.
pub open spec fn reports(r: BrainMethodResult, f: FunctionMetrics) -> bool {
    &&& r.name@ == f.name@
    &&& r.file@ == f.file@
    &&& r.line == f.line
    &&& r.loc == f.loc
    &&& r.cyclomatic_complexity == f.cyclomatic_complexity
    &&& r.max_nesting == f.max_nesting
}

/// The Brain Methods among `fs`, in order.
pub open spec fn brain_methods(fs: Seq<FunctionMetrics>, c: BrainMethodConfig) -> Seq<FunctionMetrics> {
    fs.filter(|f: FunctionMetrics| is_brain_method(f, c))
}

/// Report every function of `functions` that exceeds all three thresholds of `config`, in order.
pub fn detect_brain_methods(functions: &[FunctionMetrics], config: &BrainMethodConfig) -> (r: Vec<BrainMethodResult>)
    ensures
        r@.len() == brain_methods(functions@, *config).len(),
        forall|k: int| 0 <= k < r@.len() ==> reports(#[trigger] r@[k], brain_methods(functions@, *config)[k]),
{
    broadcast use Seq::lemma_filter_push;
    let ghost p = |f: FunctionMetrics| is_brain_method(f, *config);
    let mut out: Vec<BrainMethodResult> = Vec::new();
    let mut i: usize = 0;
    proof {
        reveal(Seq::filter);
        assert(functions@.take(0).filter(p) =~= seq![]);
    }
    while i < functions.len()
        invariant
            i <= functions@.len(),
            p == (|f: FunctionMetrics| is_brain_method(f, *config)),
            out@.len() == functions@.take(i as int).filter(p).len(),
            forall|k: int| 0 <= k < out@.len() ==> reports(#[trigger] out@[k], functions@.take(i as int).filter(p)[k]),
        decreases functions.len() - i,
    {
        let f = &functions[i];
        proof {
            assert(functions@.take(i + 1) =~= functions@.take(i as int).push(functions@[i as int]));
            functions@.take(i as int).lemma_filter_push(functions@[i as int], p);
        }
        let ghost before = out@;
        if f.sloc > config.loc_threshold && f.cyclomatic_complexity > config.cc_threshold && f.max_nesting
            > config.nesting_threshold {
            out.push(
                BrainMethodResult {
                    name: f.name.clone(),
                    file: f.file.clone(),
                    line: f.line,
                    loc: f.loc,
                    cyclomatic_complexity: f.cyclomatic_complexity,
                    max_nesting: f.max_nesting,
                },
            );
        }
        proof {
            let q = functions@.take(i as int).filter(p);
            if p(functions@[i as int]) {
                assert forall|k: int| 0 <= k < out@.len() implies reports(#[trigger] out@[k], q.push(functions@[i as int])[k]) by {
                    if k < before.len() {
                        assert(out@[k] == before[k]);
                    }
                }
            } else {
                assert(out@ == before);
            }
        }
        i = i + 1;
    }
    proof {
        assert(functions@.take(functions@.len() as int) =~= functions@);
    }
    out
}

} // verus!
