//! Effect Density: effect hook calls per non-blank line of a component body.
//!
//! The density itself is a ratio computed by the application from these counts.
use super::{calls_one_of, count_scoped_calls, scoped_calls};
use crate::syntax::{names, SyntaxTree};
use crate::text::{count_nonblank_lines, nonblank_rows_from};
use crate::walk::count_where;
use vstd::prelude::*;

verus! {

/// Effect hooks.
pub open spec fn effect_hooks() -> Seq<Seq<char>> {
    seq!["useEffect"@, "useLayoutEffect"@, "useInsertionEffect"@]
}

/// Effect calls and non-blank lines of a component body.
#[derive(Debug, Clone, Copy, PartialEq, Eq)]
pub struct EffectDensity {
    /// Effect hook calls made directly in the body (not in nested functions).
    pub effect_count: usize,
    /// Non-blank source lines spanned by the body.
    pub component_sloc: usize,
}

/// Effect hook calls made directly in `body`.
pub open spec fn spec_effect_count(t: SyntaxTree, body: int) -> nat {
    count_where(scoped_calls(t, body, 1), calls_one_of(t, effect_hooks()))
}

/// Non-blank lines of the source spanned by node `body`.
pub open spec fn spec_component_sloc(t: SyntaxTree, body: int) -> nat {
    nonblank_rows_from(t.source@, 0, 0, t.row(body), t.nodes@[body].end_row as int)
}

/// Count the effect calls and non-blank lines of a component body.
pub fn compute_effect_density(t: &SyntaxTree, body: usize) -> (r: EffectDensity)
    requires
        t.wf(),
        body < t.len(),
    ensures
        r.effect_count == spec_effect_count(*t, body as int),
        r.component_sloc == spec_component_sloc(*t, body as int),
{
    let hooks: [&str; 3] = ["useEffect", "useLayoutEffect", "useInsertionEffect"];
    proof {
        assert(names(hooks@) =~= effect_hooks());
    }
    let effect_count = count_scoped_calls(t, body, 1, &hooks);
    let component_sloc = count_nonblank_lines(t.source_text(), t.start_row_of(body), t.end_row_of(body));
    EffectDensity { effect_count, component_sloc }
}

} // verus!
