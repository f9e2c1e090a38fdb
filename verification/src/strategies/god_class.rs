//! God Class: a class that is complex, not cohesive and reaches into other
//! objects' data, all at once (WMC, TCC and ATFD past their thresholds).
use super::{cross_below, Fraction};
use crate::metrics::class::{class_name, class_name_of, classes_in, find_classes};
use crate::metrics::class::nom::members;
use crate::metrics::class::tcc::{class_methods, compute_tcc_for_class, method_field_sets};
use crate::strset::{linked_from, pairs_fit};
use crate::metrics::class::wmc::{compute_wmc, spec_wmc};
use crate::syntax::{names, SyntaxTree};
use crate::walk::{count_where, lemma_count_where_step, select_where, PlanSpec, WalkPlan};
use vstd::prelude::*;

verus! {

/// WMC threshold: a God Class has strictly more weighted methods.
pub const WMC_THRESHOLD: usize = 47;

/// ATFD threshold: a God Class accesses strictly more foreign data.
pub const ATFD_THRESHOLD: usize = 5;

/// Thresholds that define a God Class; a class must pass all three.
#[derive(Debug, Clone, Copy, PartialEq, Eq)]
pub struct GodClassConfig {
    pub wmc_threshold: usize,
    /// TCC must be strictly below this fraction.
    pub tcc_threshold: Fraction,
    pub atfd_threshold: usize,
}

impl Default for GodClassConfig {
    /// Lanza & Marinescu's reference values: WMC > 47, TCC < 0.33, ATFD > 5.
    fn default() -> (r: Self)
        ensures
            r.wmc_threshold == WMC_THRESHOLD && r.tcc_threshold == (Fraction { num: 33, den: 100 })
                && r.atfd_threshold == ATFD_THRESHOLD,
    {
        GodClassConfig { wmc_threshold: WMC_THRESHOLD, tcc_threshold: Fraction { num: 33, den: 100 }, atfd_threshold: ATFD_THRESHOLD }
    }
}

/// A class detected as a God Class.
#[derive(Debug, Clone, PartialEq, Eq)]
pub struct GodClassResult {
    pub class_name: String,
    /// 1-based line where the class is declared.
    pub line: usize,
    /// Weighted Methods per Class.
    pub wmc: usize,
    /// Method pairs sharing a `this` field (TCC numerator).
    pub tcc_connected_pairs: usize,
    /// All method pairs (TCC denominator; TCC is 1 without pairs).
    pub tcc_total_pairs: usize,
    /// Access To Foreign Data.
    pub atfd: usize,
}

/// Member expression `j` reads an attribute of a plain identifier other than `this` and `super`.
pub open spec fn foreign_base(t: SyntaxTree) -> spec_fn(usize) -> bool {
    |j: usize|
        t.child_by_field(j as int, "object"@) matches Some(o) && t.kind(o as int) == "identifier"@ && t.text(o as int)
            != "this"@ && t.text(o as int) != "super"@
}

/// Member expressions of a method, not looking into classes nested in it.
pub open spec fn method_access_plan() -> PlanSpec {
    (
        seq!["member_expression"@],
        seq!["class_declaration"@, "abstract_class_declaration"@, "class"@],
        seq![],
        usize::MAX as int,
        false,
        false,
        0,
    )
}

/// Foreign accesses of member `m`: 0 unless it is a method.
pub open spec fn member_atfd(t: SyntaxTree, m: int) -> nat {
    if t.kind(m) == "method_definition"@ || t.kind(m) == "abstract_method_signature"@ {
        count_where(t.walk_node(m, 0, method_access_plan()), foreign_base(t))
    } else {
        0
    }
}

/// Sum of the foreign accesses of the members `s`.
pub open spec fn atfd_sum(t: SyntaxTree, s: Seq<usize>) -> nat
    decreases s.len(),
{
    if s.len() == 0 {
        0
    } else {
        atfd_sum(t, s.drop_last()) + member_atfd(t, s.last() as int)
    }
}

/// Access To Foreign Data of class `c`.
pub open spec fn spec_atfd(t: SyntaxTree, c: int) -> nat {
    atfd_sum(t, members(t, c))
}

/// TCC (`connected / total`, 1 without pairs) is below `f`.
pub open spec fn tcc_below(connected: int, total: int, f: Fraction) -> bool {
    if total == 0 {
        f.den < f.num
    } else {
        connected * f.den < f.num * total
    }
}

/// Classes searched: declarations, abstract declarations and class expressions.
pub open spec fn god_candidates(t: SyntaxTree, root: int) -> Seq<usize> {
    classes_in(t, root, seq!["class_declaration"@, "abstract_class_declaration"@], seq!["class"@])
}

/// Method pairs of class `c` that share a `this` field.
pub open spec fn spec_tcc_connected(t: SyntaxTree, c: int) -> int {
    linked_from(method_field_sets(t, c), 0) as int
}

/// All method pairs of class `c`.
pub open spec fn spec_tcc_total(t: SyntaxTree, c: int) -> int {
    let n = class_methods(t, c).len();
    n * (n - 1) / 2
}

/// Class `c` passes every threshold of `cfg`.
pub open spec fn is_god_class(t: SyntaxTree, c: int, cfg: GodClassConfig) -> bool {
    &&& spec_wmc(t, c) > cfg.wmc_threshold
    &&& tcc_below(spec_tcc_connected(t, c), spec_tcc_total(t, c), cfg.tcc_threshold)
    &&& spec_atfd(t, c) > cfg.atfd_threshold
}

/// The God Classes beneath `root`, in pre-order.
pub open spec fn god_classes(t: SyntaxTree, root: int, cfg: GodClassConfig) -> Seq<usize> {
    select_where(god_candidates(t, root), |c: usize| is_god_class(t, c as int, cfg))
}

/// `r` reports class `c`.
pub open spec fn god_of(t: SyntaxTree, c: int, r: GodClassResult) -> bool {
    &&& r.class_name@ == class_name(t, c)
    &&& r.line == t.row(c) + 1
    &&& r.wmc == spec_wmc(t, c)
    &&& r.tcc_connected_pairs == spec_tcc_connected(t, c)
    &&& r.tcc_total_pairs == spec_tcc_total(t, c)
    &&& r.atfd == spec_atfd(t, c)
}

/// Foreign accesses of method `m`, not counting classes nested in it.
fn method_atfd(t: &SyntaxTree, m: usize) -> (r: usize)
    requires
        t.wf(),
        m < t.len(),
    ensures
        r == count_where(t.walk_node(m as int, 0, method_access_plan()), foreign_base(*t)),
        r <= t.end(m as int) - m,
{
    let want: [&str; 1] = ["member_expression"];
    let stop: [&str; 3] = ["class_declaration", "abstract_class_declaration", "class"];
    let none: [&str; 0] = [];
    proof {
        assert(names(want@) =~= seq!["member_expression"@]);
        assert(names(stop@) =~= seq!["class_declaration"@, "abstract_class_declaration"@, "class"@]);
        assert(names(none@) =~= seq![]);
    }
    let plan = WalkPlan { want: &want, stop: &stop, bump: &none, limit: usize::MAX, prune_wanted: false, stop_named_only: false, min_depth: 0 };
    let es = t.walk(m, 0, &plan);
    proof {
        t.lemma_walk_node(m as int, 0, plan.spec());
        assert(plan.spec() == method_access_plan());
        crate::walk::lemma_increasing_len(es@, m as int, t.end(m as int));
    }
    let ghost fp = foreign_base(*t);
    let mut n: usize = 0;
    let mut x: usize = 0;
    while x < es.len()
        invariant
            t.wf(),
            forall|y: int| 0 <= y < es@.len() ==> #[trigger] es@[y] < t.len(),
            fp == foreign_base(*t),
            x <= es@.len(),
            n == count_where(es@.take(x as int), fp),
            n <= x,
            es@.len() <= t.end(m as int) - m,
        decreases es.len() - x,
    {
        let j = es[x];
        proof {
            lemma_count_where_step(es@, x as int, fp);
            reveal_strlit("identifier");
        }
        match t.child_by_field_name(j, "object") {
            Some(o) => {
                if t.is_kind(o, "identifier") && !crate::text::str_eq(t.text_of(o), "this") && !crate::text::str_eq(
                    t.text_of(o),
                    "super",
                ) {
                    n = n + 1;
                }
            },
            None => {},
        }
        x = x + 1;
    }
    proof {
        assert(es@.take(es@.len() as int) =~= es@);
    }
    n
}

/// Compute ATFD (Access To Foreign Data) of class `c`: member expressions in its
/// methods whose base object is a plain identifier other than `this` and `super`.
pub fn compute_atfd(t: &SyntaxTree, c: usize) -> (r: usize)
    requires
        t.wf(),
        c < t.len(),
    ensures
        r == spec_atfd(*t, c as int),
{
    let (ms, lo, hi): (Vec<usize>, usize, usize) = match t.child_by_field_name(c, "body") {
        Some(b) => {
            proof {
                assert(b < t.end(c as int) <= t.len());
                t.lemma_children_bounds(b as int);
                assert forall|k: int| b + 1 <= k < t.end(b as int) implies #[trigger] t.end(k) <= t.end(b as int) by {
                    assert(b < k < t.end(b as int));
                }
                t.lemma_chain_next(b + 1, t.end(b as int));
            }
            (t.children_of(b), b + 1, t.nodes[b].end)
        },
        None => (Vec::new(), 0, 0),
    };
    proof {
        assert(ms@ =~= members(*t, c as int));
        if let Some(b) = t.child_by_field(c as int, "body"@) {
            assert forall|q: int| 0 <= q < ms@.len() implies #[trigger] ms@[q] < t.len() by {
                assert(ms@[q] < t.end(b as int) <= t.len());
            }
        }
        reveal_strlit("method_definition");
        reveal_strlit("abstract_method_signature");
    }
    let mut sum: usize = 0;
    let mut x: usize = 0;
    while x < ms.len()
        invariant
            t.wf(),
            forall|q: int| 0 <= q < ms@.len() ==> #[trigger] ms@[q] < t.len(),
            x <= ms@.len(),
            sum == atfd_sum(*t, ms@.take(x as int)),
            lo <= hi <= t.len(),
            ms@.len() > 0 ==> ms@[0] == lo,
            forall|q: int| 0 <= q < ms@.len() - 1 ==> #[trigger] ms@[q + 1] == t.end(ms@[q] as int),
            ms@.len() > 0 ==> t.end(ms@.last() as int) == hi,
            sum <= (if x < ms@.len() { ms@[x as int] as int } else { hi as int }) - lo,
        decreases ms.len() - x,
    {
        let m = ms[x];
        proof {
            assert(ms@.take(x + 1).drop_last() =~= ms@.take(x as int));
        }
        proof {
            if x + 1 < ms@.len() {
                assert(ms@[x + 1] == t.end(m as int));
            }
            assert(m < t.end(m as int));
        }
        if t.is_kind(m, "method_definition") || t.is_kind(m, "abstract_method_signature") {
            let a = method_atfd(t, m);
            sum = sum + a;
        }
        x = x + 1;
    }
    proof {
        assert(ms@.take(ms@.len() as int) =~= ms@);
    }
    sum
}

/// Report every class beneath `root` that passes all three thresholds of `config`, in pre-order.
pub fn detect_god_classes(t: &SyntaxTree, root: usize, config: &GodClassConfig) -> (r: Vec<GodClassResult>)
    requires
        t.wf(),
        root < t.len(),
        forall|k: int| 0 <= k < god_candidates(*t, root as int).len() ==> pairs_fit(
            class_methods(*t, #[trigger] god_candidates(*t, root as int)[k] as int).len() as int,
        ),
    ensures
        r@.len() == god_classes(*t, root as int, *config).len(),
        forall|k: int| 0 <= k < r@.len() ==> god_of(*t, #[trigger] god_classes(*t, root as int, *config)[k] as int, r@[k]),
{
    let always: [&str; 2] = ["class_declaration", "abstract_class_declaration"];
    let with_body: [&str; 1] = ["class"];
    proof {
        assert(names(always@) =~= seq!["class_declaration"@, "abstract_class_declaration"@]);
        assert(names(with_body@) =~= seq!["class"@]);
    }
    let cs = find_classes(t, root, &always, &with_body);
    let ghost pred = |c: usize| is_god_class(*t, c as int, *config);
    let mut out: Vec<GodClassResult> = Vec::new();
    let mut k: usize = 0;
    while k < cs.len()
        invariant
            t.wf(),
            cs@ == god_candidates(*t, root as int),
            forall|q: int| 0 <= q < cs@.len() ==> pairs_fit(class_methods(*t, #[trigger] cs@[q] as int).len() as int),
            forall|q: int| 0 <= q < cs@.len() ==> #[trigger] cs@[q] < t.len(),
            pred == (|c: usize| is_god_class(*t, c as int, *config)),
            k <= cs@.len(),
            out@.len() == select_where(cs@.take(k as int), pred).len(),
            forall|q: int| 0 <= q < out@.len() ==> god_of(*t, #[trigger] select_where(cs@.take(k as int), pred)[q] as int, out@[q]),
        decreases cs.len() - k,
    {
        let c = cs[k];
        proof {
            lemma_count_where_step(cs@, k as int, pred);
        }
        let ghost sel = select_where(cs@.take(k as int), pred);
        let ghost before = out@;
        let wmc = compute_wmc(t, c);
        let tcc = compute_tcc_for_class(t, c);
        let atfd = compute_atfd(t, c);
        let below = if tcc.total_pairs == 0 {
            config.tcc_threshold.den < config.tcc_threshold.num
        } else {
            cross_below(tcc.connected_pairs, tcc.total_pairs, config.tcc_threshold)
        };
        if wmc > config.wmc_threshold && below && atfd > config.atfd_threshold {
            out.push(
                GodClassResult {
                    class_name: class_name_of(t, c),
                    line: t.line_of(c),
                    wmc,
                    tcc_connected_pairs: tcc.connected_pairs,
                    tcc_total_pairs: tcc.total_pairs,
                    atfd,
                },
            );
            proof {
                assert(pred(c));
                assert(select_where(cs@.take(k + 1), pred) == sel.push(c));
                assert forall|q: int| 0 <= q < out@.len() implies god_of(*t, #[trigger] select_where(cs@.take(k + 1), pred)[q] as int, out@[q]) by {
                    if q < sel.len() {
                        assert(out@[q] == before[q]);
                        assert(select_where(cs@.take(k + 1), pred)[q] == sel[q]);
                    }
                }
            }
        } else {
            proof {
                assert(!pred(c));
                assert(select_where(cs@.take(k + 1), pred) =~= sel);
            }
        }
        k = k + 1;
    }
    proof {
        assert(cs@.take(cs@.len() as int) =~= cs@);
    }
    out
}

} // verus!
