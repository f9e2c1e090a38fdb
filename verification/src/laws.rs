//! Properties that hold across the library's functions, stated over the
//! specifications their contracts use.
use crate::metrics::class::tcc::{tcc_of, ClassTcc};
use crate::metrics::module::cohesion::{cohesion_of, ModuleCohesion};
use crate::metrics::module::purity::{module_purity_of, pure_count, FunctionPurity, ModulePurityResult};
use crate::metrics::react::hook_cohesion::{hook_cohesion_of, HookCohesion};
use crate::strategies::brain_method::{brain_methods, is_brain_method, BrainMethodConfig};
use crate::strategies::feature_envy::{class_envy, envy_of, envy_pairs, is_envious, FeatureEnvyResult, ATFD_THRESHOLD};
use crate::metrics::function::FunctionMetrics;
use crate::metrics::class::wmc::{class_body, spec_wmc, sum_cc, wmc_methods};
use crate::metrics::function::cyclo::lemma_cyclomatic_bound;
use crate::strset::{lemma_linked_from_bound, linked_after, linked_from};
use crate::syntax::SyntaxTree;
use crate::thresholds::{lev, overridden, MetricThreshold, Severity};
use crate::metrics::react::prop_drilling::{drill_spreads, drill_spreads_chain, own_spreads};
use crate::metrics::react::render_complexity::{jsx_entry_kinds, render_of, render_plan, RenderComplexity};
use crate::walk::find_all;
use crate::utils::{default_exclude_names, entry_excluded, excluded_name, glob_excluded, path_excluded};
use crate::walk::{lemma_select_where_elems, select_where};
use vstd::prelude::*;

verus! {

/// Among `n` sets, at most `n·(n−1)/2` pairs share an element.
pub proof fn law_connected_pairs_bound(fs: Seq<Set<Seq<char>>>)
    ensures
        linked_from(fs, 0) <= fs.len() * (fs.len() - 1) / 2,
{
    lemma_linked_from_bound(fs, 0);
    let n = fs.len() as int;
    let l = linked_from(fs, 0) as int;
    assert(l <= n * (n - 1) / 2) by (nonlinear_arith)
        requires
            2 * l <= n * (n - 1),
    ;
}

/// TCC never exceeds 1: a class's connected method pairs are at most its method pairs.
pub proof fn law_tcc_connected_within_total(t: SyntaxTree, c: int, r: ClassTcc)
    requires
        tcc_of(t, c, r),
    ensures
        r.connected_pairs <= r.total_pairs,
{
    law_connected_pairs_bound(crate::metrics::class::tcc::method_field_sets(t, c));
}

/// Module cohesion never exceeds 1: connected export pairs are at most all export pairs.
pub proof fn law_module_cohesion_within_total(t: SyntaxTree, r: ModuleCohesion)
    requires
        cohesion_of(t, r),
    ensures
        r.connected_pairs <= r.total_pairs,
{
    let xs = crate::metrics::module::cohesion::module_exports(t);
    law_connected_pairs_bound(xs.map_values(|x: crate::metrics::module::cohesion::ExportSpec| crate::metrics::module::cohesion::export_sources(t, x)));
}

/// Hook cohesion never exceeds 1: connected return-name pairs are at most all pairs.
pub proof fn law_hook_cohesion_within_total(t: SyntaxTree, f: int, r: HookCohesion)
    requires
        hook_cohesion_of(t, f, r),
    ensures
        r.connected_pairs <= r.total_pairs,
{
    let rn = crate::metrics::react::hook_cohesion::return_names(t, f);
    law_connected_pairs_bound(rn.map_values(|x: Seq<char>| crate::metrics::react::hook_cohesion::return_deps(t, f, x)));
}

proof fn lemma_pure_count_le(fs: Seq<FunctionPurity>)
    ensures
        pure_count(fs) <= fs.len(),
    decreases fs.len(),
{
    if fs.len() > 0 {
        lemma_pure_count_le(fs.drop_last());
    }
}

/// The pure function ratio never exceeds 1: pure functions are among the functions analysed.
pub proof fn law_pure_within_total(t: SyntaxTree, root: int, file: Seq<char>, r: ModulePurityResult)
    requires
        module_purity_of(t, root, file, r),
    ensures
        r.pure_functions <= r.total_functions,
{
    lemma_pure_count_le(r.functions@);
}

/// Rank of a severity: none below warning below error.
pub open spec fn severity_rank(s: Option<Severity>) -> int {
    match s {
        None => 0,
        Some(Severity::Warning) => 1,
        Some(Severity::Error) => 2,
    }
}

/// A larger value never has a lower severity.
pub proof fn law_severity_monotone(th: MetricThreshold, a: usize, b: usize)
    requires
        a <= b,
    ensures
        severity_rank(th.spec_check(a)) <= severity_rank(th.spec_check(b)),
{
}

/// A reported severity means its level was reached; no severity means neither level was.
pub proof fn law_severity_reached(th: MetricThreshold, v: usize)
    ensures
        th.spec_check(v) matches Some(s) ==> v >= th.level(s),
        th.spec_check(v) is None ==> v < th.warning && v < th.error,
{
}

/// Applying the same overrides twice is applying them once.
pub proof fn law_override_idempotent(th: MetricThreshold, o: (Option<usize>, Option<usize>))
    ensures
        overridden(overridden(th, o), o) == overridden(th, o),
{
}

/// Raising Brain Method thresholds never flags more functions.
pub proof fn law_brain_thresholds_monotone(fs: Seq<FunctionMetrics>, lo: BrainMethodConfig, hi: BrainMethodConfig)
    requires
        lo.loc_threshold <= hi.loc_threshold,
        lo.cc_threshold <= hi.cc_threshold,
        lo.nesting_threshold <= hi.nesting_threshold,
    ensures
        brain_methods(fs, hi).len() <= brain_methods(fs, lo).len(),
    decreases fs.len(),
{
    if fs.len() > 0 {
        let init = fs.drop_last();
        law_brain_thresholds_monotone(init, lo, hi);
        assert(fs =~= init.push(fs.last()));
        init.lemma_filter_push(fs.last(), |f: FunctionMetrics| is_brain_method(f, lo));
        init.lemma_filter_push(fs.last(), |f: FunctionMetrics| is_brain_method(f, hi));
    } else {
        reveal(Seq::filter);
    }
}

/// Every method found in the classes `cs` is envious.
proof fn lemma_envy_pairs_envious(t: SyntaxTree, cs: Seq<usize>)
    ensures
        forall|k: int| 0 <= k < envy_pairs(t, cs).len() ==> #[trigger] is_envious(t)(envy_pairs(t, cs)[k].1),
    decreases cs.len(),
{
    if cs.len() > 0 {
        lemma_envy_pairs_envious(t, cs.drop_last());
        let c = cs.last();
        let sel = select_where(crate::metrics::class::nom::members(t, c as int), is_envious(t));
        lemma_select_where_elems(crate::metrics::class::nom::members(t, c as int), is_envious(t));
        let a = envy_pairs(t, cs.drop_last());
        let b = class_envy(t, c);
        assert forall|k: int| 0 <= k < (a + b).len() implies #[trigger] is_envious(t)((a + b)[k].1) by {
            if k >= a.len() {
                assert((a + b)[k] == b[k - a.len()]);
                assert(b[k - a.len()].1 == sel[k - a.len()]);
            } else {
                assert((a + b)[k] == a[k]);
            }
        }
    }
}

/// Every method reported for Feature Envy has more than the threshold of foreign
/// data accesses, and more foreign than own ones.
pub proof fn law_envy_reports_exceed(t: SyntaxTree, cs: Seq<usize>, k: int, r: FeatureEnvyResult)
    requires
        0 <= k < envy_pairs(t, cs).len(),
        envy_of(t, envy_pairs(t, cs)[k].0 as int, envy_pairs(t, cs)[k].1 as int, r),
    ensures
        r.atfd > ATFD_THRESHOLD,
        r.atfd > r.local_accesses,
{
    lemma_envy_pairs_envious(t, cs);
    assert(is_envious(t)(envy_pairs(t, cs)[k].1));
}

/// The first child of a given kind found from position `c` lies inside the subtree ending at `e`.
proof fn lemma_kind_in_chain_bounds(t: SyntaxTree, c: int, e: int, k: Seq<char>)
    ensures
        t.kind_in_chain(c, e, k) matches Some(x) ==> c <= x < e && e <= t.len(),
    decreases e - c,
{
    if t.chain_ok(c, e) && t.kind(c) != k {
        lemma_kind_in_chain_bounds(t, t.end(c), e, k);
    }
}

/// Every node of `s` is a node of `t`: the complexities of `s` add up to at least its length.
proof fn lemma_sum_cc_at_least_len(t: SyntaxTree, s: Seq<usize>)
    requires
        t.wf(),
        forall|x: int| 0 <= x < s.len() ==> #[trigger] s[x] < t.len(),
    ensures
        sum_cc(t, s) >= s.len(),
    decreases s.len(),
{
    if s.len() > 0 {
        lemma_sum_cc_at_least_len(t, s.drop_last());
        lemma_cyclomatic_bound(t, s.last() as int);
    }
}

/// WMC is at least the number of methods it weighs: every method adds at least 1.
pub proof fn law_wmc_at_least_methods(t: SyntaxTree, c: int)
    requires
        t.wf(),
        0 <= c < t.len(),
    ensures
        spec_wmc(t, c) >= wmc_methods(t, c).len(),
{
    lemma_kind_in_chain_bounds(t, c + 1, t.end(c), "class_body"@);
    if let Some(b) = class_body(t, c) {
        t.lemma_children_bounds(b as int);
        let ms = wmc_methods(t, c);
        lemma_select_where_elems(t.children(b as int), crate::metrics::class::wmc::is_wmc_method(t));
        assert forall|x: int| 0 <= x < ms.len() implies #[trigger] ms[x] < t.len() by {
            let y = choose|y: int| 0 <= y < t.children(b as int).len() && t.children(b as int)[y] == ms[x];
            assert(t.children(b as int)[y] < t.end(b as int));
        }
        lemma_sum_cc_at_least_len(t, ms);
    }
}

/// A name is at distance 0 from itself.
pub proof fn law_edit_distance_identity(a: Seq<u8>)
    ensures
        lev(a, a) == 0,
    decreases a.len(),
{
    if a.len() > 0 {
        law_edit_distance_identity(a.drop_last());
    }
}

/// Exclusion patterns add to the defaults: the default names stay excluded whatever
/// patterns are given, and a path or walked entry excluded under some patterns stays
/// excluded when more patterns are added.
pub proof fn law_exclusions_only_grow(
    name: Seq<char>,
    path: Seq<char>,
    components: Seq<Seq<char>>,
    extra: Seq<Seq<char>>,
    more: Seq<Seq<char>>,
)
    ensures
        default_exclude_names().contains(name) ==> excluded_name(name, extra),
        path_excluded(path, components, extra) ==> path_excluded(path, components, extra + more),
        entry_excluded(name, path, extra) ==> entry_excluded(name, path, extra + more),
{
    let all = extra + more;
    assert forall|n: Seq<char>| extra.contains(n) implies all.contains(n) by {
        let q = choose|q: int| 0 <= q < extra.len() && extra[q] == n;
        assert(all[q] == n);
    }
    if glob_excluded(path, extra) {
        let e = choose|e: int| 0 <= e < extra.len() && crate::utils::glob_path(#[trigger] extra[e], path);
        assert(all[e] == extra[e]);
        assert(glob_excluded(path, all));
    }
}

/// Spread levels found from node `j` reached at level `d` are at least 1.
proof fn lemma_spread_levels_positive(t: SyntaxTree, j: int, d: int)
    requires
        t.wf(),
        0 <= d,
        d + t.len() - j < usize::MAX,
    ensures
        forall|x: int| 0 <= x < drill_spreads(t, j, d).len() ==> #[trigger] drill_spreads(t, j, d)[x] >= 1,
    decreases t.len() - j, 0int,
{
    if 0 <= j < t.len() {
        let nd = if crate::metrics::react::prop_drilling::level_kind(t, j) { d + 1 } else { d };
        lemma_spread_chain_positive(t, j + 1, t.end(j), nd);
        let a = own_spreads(t, j, d);
        let b = drill_spreads_chain(t, j + 1, t.end(j), nd);
        assert(drill_spreads(t, j, d) == a + b);
        assert forall|x: int| 0 <= x < (a + b).len() implies #[trigger] (a + b)[x] >= 1 by {
            if x >= a.len() {
                assert((a + b)[x] == b[x - a.len()]);
            } else {
                assert((a + b)[x] == a[x]);
            }
        }
    }
}

proof fn lemma_spread_chain_positive(t: SyntaxTree, c: int, e: int, d: int)
    requires
        t.wf(),
        0 <= d,
        d + t.len() - c < usize::MAX,
    ensures
        forall|x: int| 0 <= x < drill_spreads_chain(t, c, e, d).len() ==> #[trigger] drill_spreads_chain(t, c, e, d)[x] >= 1,
    decreases t.len() - c, 1int,
{
    if t.chain_ok(c, e) {
        lemma_spread_levels_positive(t, c, d);
        lemma_spread_chain_positive(t, t.end(c), e, d);
        let a = drill_spreads(t, c, d);
        let b = drill_spreads_chain(t, t.end(c), e, d);
        assert(drill_spreads_chain(t, c, e, d) == a + b);
        assert forall|x: int| 0 <= x < (a + b).len() implies #[trigger] (a + b)[x] >= 1 by {
            if x >= a.len() {
                assert((a + b)[x] == b[x - a.len()]);
            }
        }
    }
}

/// Every level at which a component forwards props by a spread is at least 1.
pub proof fn law_spread_levels_positive(t: SyntaxTree, node: int)
    requires
        t.wf(),
        0 <= node < t.len(),
    ensures
        forall|x: int| 0 <= x < drill_spreads(t, node, 0).len() ==> #[trigger] drill_spreads(t, node, 0)[x] >= 1,
{
    lemma_spread_levels_positive(t, node, 0);
}

/// A walk that finds no JSX below `j` finds nothing for the render plan either.
proof fn lemma_no_jsx_no_render(t: SyntaxTree, j: int)
    requires
        t.wf(),
        t.walk_node(j, 0, find_all(jsx_entry_kinds())).len() == 0,
    ensures
        t.walk_node(j, 0, render_plan()).len() == 0,
    decreases t.len() - j, 0int,
{
    if 0 <= j < t.len() {
        lemma_no_jsx_no_render_chain(t, j + 1, t.end(j));
    }
}

proof fn lemma_no_jsx_no_render_chain(t: SyntaxTree, c: int, e: int)
    requires
        t.wf(),
        t.walk_chain(c, e, 0, find_all(jsx_entry_kinds())).len() == 0,
    ensures
        t.walk_chain(c, e, 0, render_plan()).len() == 0,
    decreases t.len() - c, 1int,
{
    if t.chain_ok(c, e) {
        lemma_no_jsx_no_render(t, c);
        lemma_no_jsx_no_render_chain(t, t.end(c), e);
    }
}

/// A component with no JSX has a render complexity of 0.
pub proof fn law_no_jsx_no_render_complexity(t: SyntaxTree, node: int, r: RenderComplexity)
    requires
        t.wf(),
        0 <= node < t.len(),
        render_of(t, node, r),
        t.walk_node(node, 0, find_all(jsx_entry_kinds())).len() == 0,
    ensures
        r.total == 0,
{
    lemma_no_jsx_no_render(t, node);
}

} // verus!
