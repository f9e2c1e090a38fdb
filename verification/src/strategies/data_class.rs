//! Data Class: a class whose public interface is mostly data and whose methods
//! are simple (WOC above a fraction, WMC below a bound).
use super::{cross_below, Fraction};
use crate::metrics::class::wmc::{compute_wmc, spec_wmc};
use crate::metrics::class::{class_name};
use crate::metrics::class::nom::members;
use crate::metrics::class::woc::{compute_class_woc, public_field, public_method, woc_classes, woc_of};
use crate::walk::count_where;
use crate::syntax::SyntaxTree;
use vstd::prelude::*;

verus! {

/// Thresholds of the Data Class strategy.
#[derive(Debug, Clone, Copy, PartialEq, Eq)]
pub struct DataClassThresholds {
    /// WOC must be strictly above this fraction.
    pub min_woc: Fraction,
    /// WMC must be strictly below this value.
    pub max_wmc: usize,
}

impl Default for DataClassThresholds {
    /// Lanza & Marinescu's reference values: WOC > 0.5 and WMC < 10.
    fn default() -> (r: Self)
        ensures
            r.min_woc == (Fraction { num: 1, den: 2 }) && r.max_wmc == 10,
    {
        DataClassThresholds { min_woc: Fraction { num: 1, den: 2 }, max_wmc: 10 }
    }
}

/// The verdict on one class (WOC is `public_attributes / (public_attributes + public_methods)`, 0 for neither).
#[derive(Debug, Clone, PartialEq, Eq)]
pub struct DataClassResult {
    /// Name of the class (`<anonymous>` if unnamed).
    pub class_name: String,
    /// 1-based line where the class starts.
    pub line: usize,
    /// Weighted Methods per Class of the class found at that line.
    pub wmc: usize,
    /// Public attributes (WOC numerator).
    pub public_attributes: usize,
    /// Public methods.
    pub public_methods: usize,
    /// The class meets both conditions.
    pub is_data_class: bool,
}

/// Node `n` is a class declaration or class expression with a body starting on 1-based `line`.
pub open spec fn is_line_class(t: SyntaxTree, n: int, line: int) -> bool {
    (t.kind(n) == "class_declaration"@ || t.kind(n) == "class"@) && t.child_by_field(n, "body"@) is Some && t.row(n)
        + 1 == line
}

/// The WMC found for `line` in the subtree of `n`: that of `n` when it is the
/// class at the line, else the first answer among its children that is positive
/// or comes from a child that is itself the class at the line; 0 when none.
pub open spec fn wmc_at_line(t: SyntaxTree, n: int, line: int) -> int
    decreases t.len() - n, 0int,
{
    if !(0 <= n < t.len()) {
        0
    } else if is_line_class(t, n, line) {
        spec_wmc(t, n)
    } else {
        wmc_in_chain(t, n + 1, t.end(n), line)
    }
}

/// The answer of [`wmc_at_line`] for the children from position `c` on.
pub open spec fn wmc_in_chain(t: SyntaxTree, c: int, e: int, line: int) -> int
    decreases t.len() - c, 1int,
{
    if t.chain_ok(c, e) {
        let w = wmc_at_line(t, c, line);
        if w > 0 || is_line_class(t, c, line) {
            w
        } else {
            wmc_in_chain(t, t.end(c), e, line)
        }
    } else {
        0
    }
}

/// WOC (`a / (a + m)`, 0 when both are 0) is above `f`.
pub open spec fn woc_above(a: int, m: int, f: Fraction) -> bool {
    a + m > 0 && (a + m) * f.num < f.den * a
}

/// `r` is the verdict on class `c`, its WMC looked up by its line from `root`.
pub open spec fn data_class_of(t: SyntaxTree, root: int, c: int, th: DataClassThresholds, r: DataClassResult) -> bool {
    let attrs = count_where(members(t, c), public_field(t));
    let methods = count_where(members(t, c), public_method(t));
    let wmc = wmc_at_line(t, root, t.row(c) + 1);
    &&& r.class_name@ == class_name(t, c)
    &&& r.line == t.row(c) + 1
    &&& r.wmc == wmc
    &&& r.public_attributes == attrs
    &&& r.public_methods == methods
    &&& r.is_data_class == (woc_above(attrs as int, methods as int, th.min_woc) && wmc < th.max_wmc)
}

/// The WMC of the class at 1-based `line` in the subtree of `n` (see [`wmc_at_line`]).
fn find_wmc_for_line(t: &SyntaxTree, n: usize, line: usize) -> (r: usize)
    requires
        t.wf(),
        n < t.len(),
    ensures
        r == wmc_at_line(*t, n as int, line as int),
    decreases t.len() - n,
{
    proof {
        reveal_strlit("class_declaration");
        reveal_strlit("class");
    }
    if (t.is_kind(n, "class_declaration") || t.is_kind(n, "class")) && t.child_by_field_name(n, "body").is_some()
        && t.line_of(n) == line {
        return compute_wmc(t, n);
    }
    let e = t.nodes[n].end;
    let mut c = n + 1;
    proof {
        assert(n < t.end(n as int) <= t.len());
    }
    while c < e
        invariant
            t.wf(),
                n < c <= e,
            e == t.end(n as int),
            e <= t.len(),
            c < e ==> t.chain_ok(c as int, e as int),
            wmc_at_line(*t, n as int, line as int) == wmc_in_chain(*t, c as int, e as int, line as int),
        decreases e - c,
    {
        let w = find_wmc_for_line(t, c, line);
        let is_class = (t.is_kind(c, "class_declaration") || t.is_kind(c, "class")) && t.child_by_field_name(
            c,
            "body",
        ).is_some() && t.line_of(c) == line;
        if w > 0 || is_class {
            return w;
        }
        let next = t.nodes[c].end;
        proof {
            if next < e {
                assert(n < next < t.end(n as int));
                assert(t.end(next as int) <= t.end(n as int));
            }
        }
        c = next;
    }
    0
}

/// Judge every class measured by WOC beneath `root`: a Data Class has WOC above
/// `thresholds.min_woc` and WMC below `thresholds.max_wmc`.
pub fn detect_data_classes(t: &SyntaxTree, root: usize, thresholds: &DataClassThresholds) -> (r: Vec<DataClassResult>)
    requires
        t.wf(),
        root < t.len(),
    ensures
        r@.len() == woc_classes(*t, root as int).len(),
        forall|k: int| 0 <= k < r@.len() ==> data_class_of(*t, root as int, #[trigger] woc_classes(*t, root as int)[k] as int, *thresholds, r@[k]),
{
    let wocs = compute_class_woc(t, root);
    let mut out: Vec<DataClassResult> = Vec::new();
    let mut k: usize = 0;
    while k < wocs.len()
        invariant
            t.wf(),
            root < t.len(),
                wocs@.len() == woc_classes(*t, root as int).len(),
            forall|q: int| 0 <= q < wocs@.len() ==> woc_of(*t, #[trigger] woc_classes(*t, root as int)[q] as int, wocs@[q]),
            forall|q: int| 0 <= q < wocs@.len() ==> #[trigger] wocs@[q].public_attributes + wocs@[q].public_methods <= usize::MAX,
            k <= wocs@.len(),
            out@.len() == k,
            forall|q: int| 0 <= q < k ==> data_class_of(*t, root as int, woc_classes(*t, root as int)[q] as int, *thresholds, #[trigger] out@[q]),
        decreases wocs.len() - k,
    {
        let w = &wocs[k];
        let wmc = find_wmc_for_line(t, root, w.line);
        let total = w.public_attributes + w.public_methods;
        let flipped = Fraction { num: thresholds.min_woc.den, den: thresholds.min_woc.num };
        let above = total > 0 && cross_below(total, w.public_attributes, flipped);
        let ghost before = out@;
        out.push(
            DataClassResult {
                class_name: w.class_name.clone(),
                line: w.line,
                wmc,
                public_attributes: w.public_attributes,
                public_methods: w.public_methods,
                is_data_class: above && wmc < thresholds.max_wmc,
            },
        );
        proof {
            assert(woc_of(*t, woc_classes(*t, root as int)[k as int] as int, wocs@[k as int]));
            assert(data_class_of(*t, root as int, woc_classes(*t, root as int)[k as int] as int, *thresholds, out@[k as int]));
            assert forall|q: int| 0 <= q < k + 1 implies data_class_of(*t, root as int, woc_classes(*t, root as int)[q] as int, *thresholds, #[trigger] out@[q]) by {
                if q < k {
                    assert(out@[q] == before[q]);
                }
            }
        }
        k = k + 1;
    }
    out
}

/// [`detect_data_classes`] with the reference thresholds.
pub fn detect_data_classes_default(t: &SyntaxTree, root: usize) -> (r: Vec<DataClassResult>)
    requires
        t.wf(),
        root < t.len(),
    ensures
        r@.len() == woc_classes(*t, root as int).len(),
        forall|k: int|
            0 <= k < r@.len() ==> data_class_of(
                *t,
                root as int,
                #[trigger] woc_classes(*t, root as int)[k] as int,
                DataClassThresholds { min_woc: Fraction { num: 1, den: 2 }, max_wmc: 10 },
                r@[k],
            ),
{
    let th = DataClassThresholds { min_woc: Fraction { num: 1, den: 2 }, max_wmc: 10 };
    detect_data_classes(t, root, &th)
}

} // verus!
