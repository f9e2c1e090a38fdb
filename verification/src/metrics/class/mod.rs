

use crate::syntax::{names, SyntaxTree};
use crate::walk::{find_all, pred_of, select_matching, select_where, NodeTest, WalkPlan};
use vstd::prelude::*;

pub mod cbo;
pub mod nom;
pub mod rfc;
pub mod woc;
pub mod tcc;
pub mod wmc;
pub mod noi;
pub mod dit;

verus! {

/// Node `j` is a class: its kind is in `always`, or it is in `with_body` and has a body.
/// (The `class` keyword token also has kind `class`; requiring a body tells a class
/// expression from it.)
pub open spec fn is_class_node(t: SyntaxTree, j: int, always: Seq<Seq<char>>, with_body: Seq<Seq<char>>) -> bool {
    always.contains(t.kind(j)) || (with_body.contains(t.kind(j)) && t.child_by_field(j, "body"@) is Some)
}

/// The test of [`is_class_node`].
pub struct ClassTest<'a> {
    pub always: &'a [&'a str],
    pub with_body: &'a [&'a str],
}

impl<'a> NodeTest for ClassTest<'a> {
    open spec fn holds(&self, t: SyntaxTree, j: int) -> bool {
        is_class_node(t, j, names(self.always@), names(self.with_body@))
    }

    fn test(&self, t: &SyntaxTree, j: usize) -> (r: bool) {
        if t.is_kind_in(j, self.always) {
            return true;
        }
        t.is_kind_in(j, self.with_body) && t.child_by_field_name(j, "body").is_some()
    }
}

/// The class nodes of the subtree of `root`, in pre-order.
pub open spec fn classes_in(t: SyntaxTree, root: int, always: Seq<Seq<char>>, with_body: Seq<Seq<char>>) -> Seq<usize> {
    select_where(
        t.walk_node(root, 0, find_all(always + with_body)),
        |j: usize| is_class_node(t, j as int, always, with_body),
    )
}

/// The class nodes of the subtree of `root`, in pre-order.
pub fn find_classes(t: &SyntaxTree, root: usize, always: &[&str], with_body: &[&str]) -> (r: Vec<usize>)
    requires
        t.wf(),
        root < t.len(),
    ensures
        r@ == classes_in(*t, root as int, names(always@), names(with_body@)),
        forall|x: int| 0 <= x < r@.len() ==> #[trigger] r@[x] < t.len(),
{
    let mut both: Vec<&str> = Vec::new();
    let mut i: usize = 0;
    while i < always.len()
        invariant
            i <= always@.len(),
            both@ == always@.take(i as int),
        decreases always.len() - i,
    {
        both.push(always[i]);
        i = i + 1;
        proof {
            assert(both@ =~= always@.take(i as int));
        }
    }
    let mut k: usize = 0;
    while k < with_body.len()
        invariant
            k <= with_body@.len(),
            both@ == always@ + with_body@.take(k as int),
        decreases with_body.len() - k,
    {
        both.push(with_body[k]);
        k = k + 1;
        proof {
            assert(both@ =~= always@ + with_body@.take(k as int));
        }
    }
    proof {
        assert(always@.take(always@.len() as int) =~= always@);
        assert(with_body@.take(with_body@.len() as int) =~= with_body@);
        assert(both@ =~= always@ + with_body@);
    }
    let none: [&str; 0] = [];
    let plan = WalkPlan {
        want: both.as_slice(),
        stop: &none,
        bump: &none,
        limit: usize::MAX,
        prune_wanted: false,
        stop_named_only: false,
        min_depth: 0,
    };
    proof {
        assert(names(both@) =~= names(always@) + names(with_body@));
        assert(names(none@) =~= seq![]);
        assert(plan.spec() == find_all(names(always@) + names(with_body@)));
    }
    let all = t.walk(root, 0, &plan);
    proof {
        t.lemma_walk_node(root as int, 0, plan.spec());
    }
    let test = ClassTest { always, with_body };
    let r = select_matching(t, &all, &test);
    proof {
        assert(pred_of(test, *t) =~= (|j: usize| is_class_node(*t, j as int, names(always@), names(with_body@))));
        crate::walk::lemma_select_where_elems(all@, pred_of(test, *t));
        assert forall|x: int| 0 <= x < r@.len() implies #[trigger] r@[x] < t.len() by {
            assert(all@.contains(r@[x]));
        }
    }
    r
}

/// The name of class `c`, or `<anonymous>`.
pub open spec fn class_name(t: SyntaxTree, c: int) -> Seq<char> {
    t.display_name(c)
}

/// The name of class `c`, or `<anonymous>`.
pub fn class_name_of(t: &SyntaxTree, c: usize) -> (r: String)
    requires
        t.wf(),
        c < t.len(),
    ensures
        r@ == class_name(*t, c as int),
{
    t.display_name_of(c)
}

/// Per-class metrics (integer measurements; TCC and WOC ratios are derived from
/// their counts).
#[derive(Debug, Clone, PartialEq, Eq)]
pub struct ClassMetrics {
    pub name: String,
    pub file: String,
    pub line: usize,
    pub method_count: usize,
    /// Sum of cyclomatic complexities of all methods in the class (WMC).
    pub wmc: usize,
    /// Number of interfaces listed in the `implements` clause (NOI).
    pub noi: usize,
    pub dit: usize,
    pub nom: usize,
    pub noam: usize,
    pub noom: usize,
    /// Method pairs sharing a field (TCC numerator).
    pub tcc_connected_pairs: usize,
    /// Method pairs (TCC denominator; TCC is 1 when it is 0).
    pub tcc_total_pairs: usize,
    pub cbo: usize,
    pub rfc: usize,
    /// Public attributes (WOC numerator).
    pub woc_public_attributes: usize,
    /// Public methods (with the attributes, the WOC denominator; WOC is 0 when it is 0).
    pub woc_public_methods: usize,
}

/// Classes measured: declarations, abstract declarations and class expressions.
pub open spec fn metric_classes(t: SyntaxTree, root: int) -> Seq<usize> {
    classes_in(t, root, seq!["class_declaration"@, "abstract_class_declaration"@], seq!["class"@])
}

/// `m` holds the measurements of class `c` of file `file` that `extract_classes`
/// computes, the other metrics being 0.
pub open spec fn base_metrics_of(t: SyntaxTree, c: int, file: Seq<char>, m: ClassMetrics) -> bool {
    &&& m.name@ == class_name(t, c)
    &&& m.file@ == file
    &&& m.line == t.row(c) + 1
    &&& m.method_count == wmc::wmc_methods(t, c).len()
    &&& m.wmc == wmc::spec_wmc(t, c)
    &&& m.noi == noi::spec_noi(t, c)
    &&& m.dit == 0 && m.nom == 0 && m.noam == 0 && m.noom == 0
    &&& m.tcc_connected_pairs == 0 && m.tcc_total_pairs == 0
    &&& m.cbo == 0 && m.rfc == 0
    &&& m.woc_public_attributes == 0 && m.woc_public_methods == 0
}

/// Extract the WMC, method count and NOI of every class beneath `root`, in pre-order.
pub fn extract_classes(t: &SyntaxTree, root: usize, file: &str) -> (r: Vec<ClassMetrics>)
    requires
        t.wf(),
        root < t.len(),
    ensures
        r@.len() == metric_classes(*t, root as int).len(),
        forall|k: int| 0 <= k < r@.len() ==> base_metrics_of(*t, #[trigger] metric_classes(*t, root as int)[k] as int, file@, r@[k]),
{
    let always: [&str; 2] = ["class_declaration", "abstract_class_declaration"];
    let with_body: [&str; 1] = ["class"];
    proof {
        assert(names(always@) =~= seq!["class_declaration"@, "abstract_class_declaration"@]);
        assert(names(with_body@) =~= seq!["class"@]);
    }
    let classes = find_classes(t, root, &always, &with_body);
    let mut out: Vec<ClassMetrics> = Vec::new();
    let mut k: usize = 0;
    while k < classes.len()
        invariant
            t.wf(),
                classes@ == metric_classes(*t, root as int),
            forall|q: int| 0 <= q < classes@.len() ==> #[trigger] classes@[q] < t.len(),
            k <= classes@.len(),
            out@.len() == k,
            forall|q: int| 0 <= q < k ==> base_metrics_of(*t, #[trigger] classes@[q] as int, file@, out@[q]),
        decreases classes.len() - k,
    {
        let c = classes[k];
        out.push(
            ClassMetrics {
                name: wmc::extract_class_name(t, c),
                file: file.to_owned(),
                line: t.line_of(c),
                method_count: wmc::count_methods(t, c),
                wmc: wmc::compute_wmc(t, c),
                noi: noi::count_implemented_interfaces(t, c),
                dit: 0,
                nom: 0,
                noam: 0,
                noom: 0,
                tcc_connected_pairs: 0,
                tcc_total_pairs: 0,
                cbo: 0,
                rfc: 0,
                woc_public_attributes: 0,
                woc_public_methods: 0,
            },
        );
        k = k + 1;
    }
    out
}

} // verus!
